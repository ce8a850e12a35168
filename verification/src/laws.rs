//! Laws of matching, proved of the model that the matching functions are
//! verified against.

use crate::base::{Bindings, Events, PatternView, SepView};
use crate::dest::{collected, values_named};
use crate::value::ValueView;
use vstd::prelude::*;

verus! {

/// A match never consumes more than there is to consume.
pub proof fn lemma_outcome_within(p: PatternView, env: Bindings, s: Seq<char>, d: ValueView)
    ensures
        p.outcome(env, s, d) matches Some(o) ==> o.consumed <= s.len(),
    decreases p, 1nat, 0nat,
{
    match p {
        PatternView::Lit(_) => {},
        PatternView::Ident(name) => {
            match crate::dest::lookup(env, name) {
                Some(token) => {
                    token.lemma_span(s);
                },
                None => {},
            }
        },
        PatternView::Token(token) => {
            token.lemma_span(s);
        },
        PatternView::Sequence(_) => {
            lemma_gathered_within(p, 0, env, s);
        },
        PatternView::Or(_) => {
            lemma_first_match_within(p, 0, env, s, d);
        },
        PatternView::ZeroOrMore(inner) => {
            lemma_rounds_bounded(*inner, env, s);
        },
        PatternView::OneOrMore(inner) => {
            lemma_rounds_bounded(*inner, env, s);
        },
        PatternView::Sep(sep) => {
            lemma_separated_rounds_bounded(sep, env, s);
        },
        PatternView::Sep1(sep) => {
            lemma_separated_rounds_bounded(sep, env, s);
        },
        PatternView::To(inner, _) => {
            lemma_outcome_within(*inner, env, s, inner.fresh());
        },
    }
}

/// The parts of a sequence together never consume more than there is.
pub proof fn lemma_gathered_within(p: PatternView, i: nat, env: Bindings, s: Seq<char>)
    ensures
        p.gathered(i, env, s) matches Some(g) ==> g.consumed <= s.len(),
    decreases p, 0nat, p->Sequence_0.len() - i,
{
    if p is Sequence && i < p->Sequence_0.len() {
        let part = p->Sequence_0[i as int];
        lemma_outcome_within(part, env, s, part.fresh());
        match part.outcome(env, s, part.fresh()) {
            Some(o) => {
                lemma_gathered_within(p, i + 1, env, s.skip(o.consumed as int));
            },
            None => {},
        }
    }
}

/// No alternative consumes more than there is.
pub proof fn lemma_first_match_within(
    p: PatternView,
    i: nat,
    env: Bindings,
    s: Seq<char>,
    d: ValueView,
)
    ensures
        p.first_match(i, env, s, d) matches Some(o) ==> o.consumed <= s.len(),
    decreases p, 0nat, p->Or_0.len() - i,
{
    if p is Or && i < p->Or_0.len() {
        lemma_outcome_within(p->Or_0[i as int], env, s, d);
        lemma_first_match_within(p, i + 1, env, s, d);
    }
}

/// Zero-width termination: whatever the inner pattern is, and be it one that
/// matches without consuming anything, a repetition of it has no more rounds
/// than there are elements, because every round consumes one at least.
pub proof fn lemma_rounds_bounded(inner: PatternView, env: Bindings, s: Seq<char>)
    ensures
        inner.repeated(env, s).values.len() <= inner.repeated(env, s).consumed,
        inner.repeated(env, s).consumed <= s.len(),
    decreases s.len(),
{
    match inner.outcome(env, s, inner.fresh()) {
        Some(o) => {
            if 0 < o.consumed <= s.len() {
                lemma_rounds_bounded(inner, env, s.skip(o.consumed as int));
            }
        },
        None => {},
    }
}

/// Zero-width termination for separated occurrences: whatever the element
/// and the separator are, there are no more rounds than there are elements
/// to consume, because every round consumes one at least.
pub proof fn lemma_separated_rounds_bounded(sep: SepView, env: Bindings, s: Seq<char>)
    ensures
        sep.rounds(env, s).values.len() <= sep.rounds(env, s).consumed,
        sep.rounds(env, s).consumed <= s.len(),
    decreases s.len(),
{
    match sep.round(env, s) {
        Some(round) => {
            if 0 < round.consumed <= s.len() {
                lemma_separated_rounds_bounded(sep, env, s.skip(round.consumed as int));
            }
        },
        None => {},
    }
}

/// Anchored matching: a pattern matches the whole of `s` if and only if its
/// match at the start of `s` succeeds and ends behind the last element. A
/// pattern that matches only a proper prefix of `s` does not match `s`.
pub proof fn lemma_anchored(p: PatternView, env: Bindings, s: Seq<char>)
    ensures
        p.matches_all(env, s) <==> (p.outcome(env, s, p.fresh()) matches Some(o) && o.consumed
            == s.len()),
        (p.outcome(env, s, p.fresh()) matches Some(o) && o.consumed < s.len()) ==> !p.matches_all(
            env,
            s,
        ),
{
}

/// Whether a match succeeds, how much it consumes and what it captures does
/// not depend on the destination that it is handed.
pub proof fn lemma_destination_is_passive(
    p: PatternView,
    env: Bindings,
    s: Seq<char>,
    d1: ValueView,
    d2: ValueView,
)
    ensures
        p.outcome(env, s, d1) is Some <==> p.outcome(env, s, d2) is Some,
        p.outcome(env, s, d1) matches Some(o1) ==> {
            &&& o1.consumed == p.outcome(env, s, d2)->0.consumed
            &&& o1.events == p.outcome(env, s, d2)->0.events
        },
    decreases p, 1nat, 0nat,
{
    match p {
        PatternView::Or(_) => {
            lemma_alternatives_are_passive(p, 0, env, s, d1, d2);
        },
        _ => {},
    }
}

/// Which alternative matches does not depend on the destination.
pub proof fn lemma_alternatives_are_passive(
    p: PatternView,
    i: nat,
    env: Bindings,
    s: Seq<char>,
    d1: ValueView,
    d2: ValueView,
)
    ensures
        p.first_match(i, env, s, d1) is Some <==> p.first_match(i, env, s, d2) is Some,
        p.first_match(i, env, s, d1) matches Some(o1) ==> {
            &&& o1.consumed == p.first_match(i, env, s, d2)->0.consumed
            &&& o1.events == p.first_match(i, env, s, d2)->0.events
        },
    decreases p, 0nat, p->Or_0.len() - i,
{
    if p is Or && i < p->Or_0.len() {
        lemma_destination_is_passive(p->Or_0[i as int], env, s, d1, d2);
        lemma_alternatives_are_passive(p, i + 1, env, s, d1, d2);
    }
}

/// The captures under a name in two logs, one behind the other, are those of
/// the first followed by those of the second.
pub proof fn lemma_values_named_concat(first: Events, second: Events, name: Seq<char>)
    ensures
        values_named(first + second, name) == values_named(first, name) + values_named(
            second,
            name,
        ),
    decreases second.len(),
{
    if second.len() == 0 {
        assert(first + second =~= first);
        assert(values_named(first, name) + values_named(second, name) =~= values_named(
            first,
            name,
        ));
    } else {
        lemma_values_named_concat(first, second.drop_last(), name);
        assert((first + second).drop_last() =~= first + second.drop_last());
        assert((first + second).last() == second.last());
        if second.last().0 == name {
            assert(values_named(first, name) + values_named(second.drop_last(), name).push(
                second.last().1,
            ) =~= (values_named(first, name) + values_named(second.drop_last(), name)).push(
                second.last().1,
            ));
        }
    }
}

/// A pattern without a capture under `name` captures nothing under it.
pub proof fn lemma_silent(p: PatternView, name: Seq<char>, env: Bindings, s: Seq<char>, d: ValueView)
    requires
        !p.captures_under(name),
    ensures
        p.outcome(env, s, d) matches Some(o) ==> values_named(o.events, name).len() == 0,
    decreases p, 1nat, 0nat,
{
    match p {
        PatternView::Sequence(parts) => {
            lemma_silent_parts(p, 0, name, env, s);
        },
        PatternView::Or(_) => {
            lemma_silent_alternatives(p, 0, name, env, s, d);
        },
        PatternView::ZeroOrMore(inner) => {
            lemma_silent_rounds(*inner, name, env, s);
        },
        PatternView::OneOrMore(inner) => {
            lemma_silent_rounds(*inner, name, env, s);
        },
        PatternView::Sep(sep) => {
            lemma_silent_separated(sep, name, env, s);
        },
        PatternView::Sep1(sep) => {
            lemma_silent_separated(sep, name, env, s);
        },
        PatternView::To(inner, own) => {
            lemma_silent(*inner, name, env, s, inner.fresh());
            match inner.outcome(env, s, inner.fresh()) {
                Some(o) => {
                    assert(o.events.push((own, o.dest)).drop_last() =~= o.events);
                },
                None => {},
            }
        },
        _ => {},
    }
}

/// The parts of a sequence without a capture under `name` capture nothing
/// under it.
pub proof fn lemma_silent_parts(p: PatternView, i: nat, name: Seq<char>, env: Bindings, s: Seq<char>)
    requires
        !p.captures_under(name),
    ensures
        p.gathered(i, env, s) matches Some(g) ==> values_named(g.events, name).len() == 0,
    decreases p, 0nat, p->Sequence_0.len() - i,
{
    if p is Sequence && i < p->Sequence_0.len() {
        let part = p->Sequence_0[i as int];
        assert(!part.captures_under(name));
        lemma_silent(part, name, env, s, part.fresh());
        match part.outcome(env, s, part.fresh()) {
            Some(o) => {
                lemma_silent_parts(p, i + 1, name, env, s.skip(o.consumed as int));
                match p.gathered(i + 1, env, s.skip(o.consumed as int)) {
                    Some(rest) => {
                        lemma_values_named_concat(o.events, rest.events, name);
                    },
                    None => {},
                }
            },
            None => {},
        }
    }
}

/// Alternatives without a capture under `name` capture nothing under it.
pub proof fn lemma_silent_alternatives(
    p: PatternView,
    i: nat,
    name: Seq<char>,
    env: Bindings,
    s: Seq<char>,
    d: ValueView,
)
    requires
        !p.captures_under(name),
    ensures
        p.first_match(i, env, s, d) matches Some(o) ==> values_named(o.events, name).len() == 0,
    decreases p, 0nat, p->Or_0.len() - i,
{
    if p is Or && i < p->Or_0.len() {
        assert(!p->Or_0[i as int].captures_under(name));
        lemma_silent(p->Or_0[i as int], name, env, s, d);
        lemma_silent_alternatives(p, i + 1, name, env, s, d);
    }
}

/// The rounds of a pattern without a capture under `name` capture nothing
/// under it.
pub proof fn lemma_silent_rounds(inner: PatternView, name: Seq<char>, env: Bindings, s: Seq<char>)
    requires
        !inner.captures_under(name),
    ensures
        values_named(inner.repeated(env, s).events, name).len() == 0,
    decreases inner, 2nat, s.len(),
{
    lemma_silent(inner, name, env, s, inner.fresh());
    match inner.outcome(env, s, inner.fresh()) {
        Some(o) => {
            if 0 < o.consumed <= s.len() {
                let rest = inner.repeated(env, s.skip(o.consumed as int));
                lemma_silent_rounds(inner, name, env, s.skip(o.consumed as int));
                lemma_values_named_concat(o.events, rest.events, name);
            }
        },
        None => {},
    }
}

/// One round of separated occurrences without a capture under `name`
/// captures nothing under it.
pub proof fn lemma_silent_round(sep: SepView, name: Seq<char>, env: Bindings, s: Seq<char>)
    requires
        !sep.element.captures_under(name),
        !sep.separator.captures_under(name),
    ensures
        sep.round(env, s) matches Some(round) ==> values_named(round.events, name).len() == 0,
    decreases sep, 0nat, 0nat,
{
    lemma_silent(*sep.element, name, env, s, sep.element.fresh());
    match sep.element.outcome(env, s, sep.element.fresh()) {
        Some(e) => {
            let rest = s.skip(e.consumed as int);
            lemma_silent(*sep.separator, name, env, rest, sep.separator.fresh());
            match sep.separator.outcome(env, rest, sep.separator.fresh()) {
                Some(t) => {
                    lemma_values_named_concat(e.events, t.events, name);
                },
                None => {},
            }
        },
        None => {},
    }
}

/// Separated occurrences without a capture under `name` capture nothing
/// under it.
pub proof fn lemma_silent_separated(sep: SepView, name: Seq<char>, env: Bindings, s: Seq<char>)
    requires
        !sep.element.captures_under(name),
        !sep.separator.captures_under(name),
    ensures
        values_named(sep.rounds(env, s).events, name).len() == 0,
    decreases sep, 0nat, s.len() + 1,
{
    lemma_silent_round(sep, name, env, s);
    match sep.round(env, s) {
        Some(round) => {
            if 0 < round.consumed <= s.len() {
                let rest = sep.rounds(env, s.skip(round.consumed as int));
                lemma_silent_separated(sep, name, env, s.skip(round.consumed as int));
                lemma_values_named_concat(round.events, rest.events, name);
            }
        },
        None => {},
    }
}

/// A capture whose inner pattern has no capture under the same name makes
/// exactly one capture under its name: the value that it hands on.
pub proof fn lemma_one_capture(
    inner: PatternView,
    name: Seq<char>,
    env: Bindings,
    s: Seq<char>,
)
    requires
        !inner.captures_under(name),
    ensures
        PatternView::To(Box::new(inner), name).outcome(env, s, ValueView::Unit) matches Some(o)
            ==> values_named(o.events, name) == seq![o.dest],
{
    let capture = PatternView::To(Box::new(inner), name);
    lemma_silent(inner, name, env, s, inner.fresh());
    match inner.outcome(env, s, inner.fresh()) {
        Some(o) => {
            let events = o.events.push((name, o.dest));
            assert(events.drop_last() =~= o.events);
            assert(values_named(events, name) =~= seq![o.dest]);
        },
        None => {},
    }
}

/// Capture fan-out: when a capture is repeated, and its inner pattern has no
/// capture under the same name, the values captured under the name are the
/// values of the rounds, one for each round and in the same order.
pub proof fn lemma_capture_fan_out(
    inner: PatternView,
    name: Seq<char>,
    env: Bindings,
    s: Seq<char>,
)
    requires
        !inner.captures_under(name),
    ensures
        ({
            let g = PatternView::To(Box::new(inner), name).repeated(env, s);
            &&& values_named(g.events, name) == g.values
            &&& values_named(g.events, name).len() == g.values.len()
        }),
    decreases s.len(),
{
    let capture = PatternView::To(Box::new(inner), name);
    assert(capture.fresh() == ValueView::Unit);
    lemma_one_capture(inner, name, env, s);
    match capture.outcome(env, s, capture.fresh()) {
        Some(o) => {
            if 0 < o.consumed <= s.len() {
                let rest = capture.repeated(env, s.skip(o.consumed as int));
                lemma_capture_fan_out(inner, name, env, s.skip(o.consumed as int));
                lemma_values_named_concat(o.events, rest.events, name);
            } else {
                assert(values_named(Seq::<(Seq<char>, ValueView)>::empty(), name)
                    =~= Seq::<ValueView>::empty());
            }
        },
        None => {
            assert(values_named(Seq::<(Seq<char>, ValueView)>::empty(), name) =~= Seq::<
                ValueView,
            >::empty());
        },
    }
}

/// Capture fan-out for separated occurrences: when the element is a capture
/// and neither its inner pattern nor the separator has a capture under the
/// same name, there is one value captured under the name for each round.
pub proof fn lemma_separated_capture_fan_out(
    separator: PatternView,
    inner: PatternView,
    name: Seq<char>,
    env: Bindings,
    s: Seq<char>,
)
    requires
        !inner.captures_under(name),
        !separator.captures_under(name),
    ensures
        ({
            let g = (SepView {
                separator: Box::new(separator),
                element: Box::new(PatternView::To(Box::new(inner), name)),
            }).rounds(env, s);
            values_named(g.events, name).len() == g.values.len()
        }),
    decreases s.len(),
{
    let capture = PatternView::To(Box::new(inner), name);
    let sep = SepView { separator: Box::new(separator), element: Box::new(capture) };
    assert(capture.fresh() == ValueView::Unit);
    lemma_one_capture(inner, name, env, s);
    match capture.outcome(env, s, capture.fresh()) {
        Some(e) => {
            let behind = s.skip(e.consumed as int);
            lemma_silent(separator, name, env, behind, separator.fresh());
            match separator.outcome(env, behind, separator.fresh()) {
                Some(t) => {
                    lemma_values_named_concat(e.events, t.events, name);
                },
                None => {},
            }
            let round = sep.round(env, s)->0;
            assert(values_named(round.events, name).len() == 1);
            if 0 < round.consumed <= s.len() {
                let rest = sep.rounds(env, s.skip(round.consumed as int));
                lemma_separated_capture_fan_out(
                    separator,
                    inner,
                    name,
                    env,
                    s.skip(round.consumed as int),
                );
                lemma_values_named_concat(round.events, rest.events, name);
            }
        },
        None => {},
    }
}

/// A destination that was declared as a list grows by one element for each
/// capture under its name.
pub proof fn lemma_list_collects_all(
    declared: Seq<ValueView>,
    events: Events,
    name: Seq<char>,
)
    ensures
        collected(ValueView::List(declared), events, name) == ValueView::List(
            declared + values_named(events, name),
        ),
        collected(ValueView::List(declared), events, name)->List_0.len() == declared.len()
            + values_named(events, name).len(),
{
}

} // verus!
