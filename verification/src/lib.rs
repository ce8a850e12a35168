//! A small engine that matches patterns against sequences of characters, with
//! backtracking, captures, and a compact textual syntax for patterns.

use vstd::prelude::*;

pub mod base;
pub mod cursor;
pub mod dest;
pub mod ext;
pub mod exts;
pub mod laws;
pub mod syntax;
pub mod utils;
pub mod value;

pub use base::{Or, Pattern, Sep, Sep1, Sequence, To};
pub use cursor::Checkpoint;

verus! {

/// Whether `pat` matches the whole of `reference`. This is
/// [`Pattern::matches`] as a plain function.
pub fn __matches<'s, I: cursor::Iterable<'s>>(
    pat: &Pattern,
    reference: &'s I,
    ctx: &mut dest::Context,
) -> (ok: bool)
    ensures
        final(ctx).bindings() == old(ctx).bindings(),
        final(ctx).declared() == old(ctx).declared(),
        ok == pat@.matches_all(old(ctx).bindings(), reference.elements()),
        ok ==> final(ctx).captures() == old(ctx).captures() + pat@.outcome(
            old(ctx).bindings(),
            reference.elements(),
            pat@.fresh(),
        )->0.events,
        !ok ==> final(ctx).captures() == old(ctx).captures(),
{
    pat.matches(reference, ctx)
}

/// Adds two numbers whose sum fits in a `u64`.
pub fn add(left: u64, right: u64) -> (sum: u64)
    requires
        left + right <= u64::MAX,
    ensures
        sum == left + right,
{
    left + right
}

} // verus!
