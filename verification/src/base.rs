//! Patterns and the algorithms that match them.

use crate::cursor::{chars_of, Iterable, PeekableExt};
use crate::dest::Context;
use crate::exts::Token;
use crate::utils::Satisfies;
use crate::value::{views_of, Collector, Value, ValueView};
use vstd::prelude::*;
use vstd::string::StringExecFns;

verus! {

/// A pattern that matches the first of its alternatives that matches.
#[derive(Debug, PartialEq, Eq)]
pub struct Or(pub Vec<Pattern>);

/// A pattern that matches its parts one after the other.
#[derive(Debug, PartialEq, Eq)]
pub struct Sequence(pub Vec<Pattern>);

/// A pattern that captures what its inner pattern collects under a name.
#[derive(Debug, PartialEq, Eq)]
pub struct To(pub Box<Pattern>, pub String);

/// Occurrences of an element, each one optionally followed by a separator.
/// The separator comes first, the element second.
#[derive(Debug, PartialEq, Eq)]
pub struct Sep(pub Box<Pattern>, pub Box<Pattern>);

/// The occurrences of a [`Sep`], of which the first element has to match.
#[derive(Debug, PartialEq, Eq)]
pub struct Sep1(pub Sep);

/// The kinds of pattern.
#[derive(Debug, PartialEq, Eq)]
pub enum Pattern {
    /// The elements of a text, in order.
    Lit(Vec<char>),
    /// The token that an identifier stands for in the context of the match.
    Ident(String),
    /// A lexical token.
    Token(Token),
    /// Parts that match one after the other.
    Sequence(Sequence),
    /// Alternatives, of which the first that matches decides.
    Or(Or),
    /// The inner pattern as often as it matches: never is enough.
    ZeroOrMore(Box<Pattern>),
    /// The inner pattern as often as it matches, once at least.
    OneOrMore(Box<Pattern>),
    /// Occurrences of an element with separators; none is enough.
    Sep(Sep),
    /// Occurrences of an element with separators; the first is needed.
    Sep1(Sep1),
    /// A capture under a name.
    To(To),
}

/// The mathematical model of a [`Sep`] or a [`Sep1`].
pub struct SepView {
    pub separator: Box<PatternView>,
    pub element: Box<PatternView>,
}

/// The mathematical model of a [`Pattern`].
pub enum PatternView {
    Lit(Seq<char>),
    Ident(Seq<char>),
    Token(Token),
    Sequence(Seq<PatternView>),
    Or(Seq<PatternView>),
    ZeroOrMore(Box<PatternView>),
    OneOrMore(Box<PatternView>),
    Sep(SepView),
    Sep1(SepView),
    /// The inner pattern and the name of the destination.
    To(Box<PatternView>, Seq<char>),
}

/// The models of a sequence of patterns, element by element.
pub open spec fn models_of(items: Seq<Pattern>) -> Seq<PatternView> {
    Seq::new(items.len(), |i: int| items[i]@)
}

impl View for Pattern {
    type V = PatternView;

    open spec fn view(&self) -> PatternView {
        self.model()
    }
}

impl View for Sequence {
    type V = PatternView;

    open spec fn view(&self) -> PatternView {
        self.model()
    }
}

impl View for Or {
    type V = PatternView;

    open spec fn view(&self) -> PatternView {
        self.model()
    }
}

impl View for To {
    type V = PatternView;

    open spec fn view(&self) -> PatternView {
        self.model()
    }
}

impl View for Sep {
    type V = SepView;

    open spec fn view(&self) -> SepView {
        self.model()
    }
}

impl View for Sep1 {
    type V = SepView;

    open spec fn view(&self) -> SepView {
        self.0.model()
    }
}

impl Sequence {
    /// The models of the parts, defined by recursion on their structure.
    pub open spec fn parts(&self) -> Seq<PatternView>
        decreases self,
    {
        Seq::new(
            self.0.len() as nat,
            |i: int|
                if 0 <= i < self.0.len() {
                    self.0[i].model()
                } else {
                    PatternView::Lit(Seq::empty())
                },
        )
    }

    /// The model of the sequence.
    pub open spec fn model(&self) -> PatternView {
        PatternView::Sequence(self.parts())
    }

    /// The model of a sequence is made of the models of its parts.
    pub proof fn lemma_view(&self)
        ensures
            self@ == PatternView::Sequence(models_of(self.0@)),
    {
        assert(self@->Sequence_0 =~= models_of(self.0@));
    }
}

impl Or {
    /// The models of the alternatives, defined by recursion on their
    /// structure.
    pub open spec fn alternatives(&self) -> Seq<PatternView>
        decreases self,
    {
        Seq::new(
            self.0.len() as nat,
            |i: int|
                if 0 <= i < self.0.len() {
                    self.0[i].model()
                } else {
                    PatternView::Lit(Seq::empty())
                },
        )
    }

    /// The model of the alternatives.
    pub open spec fn model(&self) -> PatternView {
        PatternView::Or(self.alternatives())
    }

    /// The model of alternatives is made of the models of each.
    pub proof fn lemma_view(&self)
        ensures
            self@ == PatternView::Or(models_of(self.0@)),
    {
        assert(self@->Or_0 =~= models_of(self.0@));
    }
}

impl To {
    /// The model of the capture.
    pub open spec fn model(&self) -> PatternView {
        PatternView::To(Box::new(self.0.model()), self.1@)
    }
}

impl Sep {
    /// The model of the repetition.
    pub open spec fn model(&self) -> SepView {
        SepView { separator: Box::new(self.0.model()), element: Box::new(self.1.model()) }
    }
}

impl Pattern {
    /// The model of the pattern, defined by recursion on its structure.
    pub open spec fn model(&self) -> PatternView
        decreases self,
    {
        match self {
            Pattern::Lit(text) => PatternView::Lit(text@),
            Pattern::Ident(name) => PatternView::Ident(name@),
            Pattern::Token(token) => PatternView::Token(*token),
            Pattern::Sequence(sequence) => PatternView::Sequence(sequence.parts()),
            Pattern::Or(or) => PatternView::Or(or.alternatives()),
            Pattern::ZeroOrMore(inner) => PatternView::ZeroOrMore(Box::new(inner.model())),
            Pattern::OneOrMore(inner) => PatternView::OneOrMore(Box::new(inner.model())),
            Pattern::Sep(sep) => PatternView::Sep(
                SepView {
                    separator: Box::new(sep.0.model()),
                    element: Box::new(sep.1.model()),
                },
            ),
            Pattern::Sep1(sep1) => PatternView::Sep1(
                SepView {
                    separator: Box::new(sep1.0.0.model()),
                    element: Box::new(sep1.0.1.model()),
                },
            ),
            Pattern::To(to) => PatternView::To(Box::new(to.0.model()), to.1@),
        }
    }
}

/// What identifiers stand for, oldest binding first.
pub type Bindings = Seq<(Seq<char>, Token)>;

/// Captures in the order in which they were made.
pub type Events = Seq<(Seq<char>, ValueView)>;

/// What a successful match does: how many elements it consumes, what the
/// destination handed to it holds afterwards, and what it captures.
pub struct Outcome {
    pub consumed: nat,
    pub dest: ValueView,
    pub events: Events,
}

/// What the rounds of a repetition, or the parts of a sequence, amount to:
/// the elements consumed, one value for each round or part, and the captures.
pub struct Gathered {
    pub consumed: nat,
    pub values: Seq<ValueView>,
    pub events: Events,
}

impl Gathered {
    /// No round at all.
    pub open spec fn nothing() -> Gathered {
        Gathered { consumed: 0, values: Seq::empty(), events: Seq::empty() }
    }

    /// One round, which consumed `consumed` elements and left `value` and
    /// `events`, followed by the rounds of `self`.
    pub open spec fn after(self, consumed: nat, value: ValueView, events: Events) -> Gathered {
        Gathered {
            consumed: consumed + self.consumed,
            values: seq![value] + self.values,
            events: events + self.events,
        }
    }

    /// What a match does that hands the gathered values to a destination
    /// that holds `d`: they arrive there as further elements.
    pub open spec fn delivered(self, d: ValueView) -> Outcome {
        Outcome { consumed: self.consumed, dest: d.extend(self.values), events: self.events }
    }
}

/// Whether `text` stands at the start of `s`.
pub open spec fn starts_with(s: Seq<char>, text: Seq<char>) -> bool {
    text.len() <= s.len() && s.take(text.len() as int) == text
}

/// What a match of `token` at the start of `s` does: it consumes what the
/// token skips and reads, and the destination becomes the parsed value.
pub open spec fn token_outcome(token: Token, s: Seq<char>) -> Option<Outcome> {
    if token.matched(s) {
        Some(Outcome { consumed: token.span(s), dest: token.value(s), events: Seq::empty() })
    } else {
        None
    }
}

impl SepView {
    /// The rounds of the repetition on `s`. A round is a match of the element
    /// and, right behind it, a match of the separator if there is one; its
    /// value is the pair of what the separator and the element collected. The
    /// rounds end with the first round whose element fails or that consumes
    /// nothing, and that round leaves no trace.
    pub open spec fn rounds(self, env: Bindings, s: Seq<char>) -> Gathered
        decreases self, 0nat, s.len() + 1,
    {
        match self.round(env, s) {
            Some(round) => if 0 < round.consumed <= s.len() {
                self.rounds(env, s.skip(round.consumed as int)).after(
                    round.consumed,
                    round.dest,
                    round.events,
                )
            } else {
                Gathered::nothing()
            },
            None => Gathered::nothing(),
        }
    }

    /// One round at the start of `s`: the element, into a fresh destination,
    /// and behind it the separator, into another, if it matches there.
    pub open spec fn round(self, env: Bindings, s: Seq<char>) -> Option<Outcome>
        decreases self, 0nat, 0nat,
    {
        match self.element.outcome(env, s, self.element.fresh()) {
            Some(e) => match self.separator.outcome(
                env,
                s.skip(e.consumed as int),
                self.separator.fresh(),
            ) {
                Some(t) => Some(
                    Outcome {
                        consumed: e.consumed + t.consumed,
                        dest: ValueView::Pair(Box::new(t.dest), Box::new(e.dest)),
                        events: e.events + t.events,
                    },
                ),
                None => Some(
                    Outcome {
                        consumed: e.consumed,
                        dest: ValueView::Pair(Box::new(self.separator.fresh()), Box::new(e.dest)),
                        events: e.events,
                    },
                ),
            },
            None => None,
        }
    }
}

impl PatternView {
    /// The value that a destination holds when it is made afresh for this
    /// pattern: empty text for a literal, an empty list for what collects
    /// several values, and for alternatives what the first of them asks for.
    pub open spec fn fresh(self) -> ValueView
        decreases self,
    {
        match self {
            PatternView::Lit(_) => ValueView::Text(Seq::empty()),
            PatternView::Sequence(_) | PatternView::ZeroOrMore(_) | PatternView::OneOrMore(_)
            | PatternView::Sep(_) | PatternView::Sep1(_) => ValueView::List(Seq::empty()),
            PatternView::Or(alternatives) => if alternatives.len() > 0 {
                alternatives[0].fresh()
            } else {
                ValueView::Unit
            },
            _ => ValueView::Unit,
        }
    }

    /// The parts of a sequence from the `i`th on, matched one after the other
    /// on `s`, each into a fresh destination of its own. `None` if one of
    /// them fails.
    pub open spec fn gathered(self, i: nat, env: Bindings, s: Seq<char>) -> Option<Gathered>
        decreases self, 0nat, self->Sequence_0.len() - i,
    {
        if self is Sequence && i < self->Sequence_0.len() {
            let part = self->Sequence_0[i as int];
            match part.outcome(env, s, part.fresh()) {
                Some(o) => match self.gathered(i + 1, env, s.skip(o.consumed as int)) {
                    Some(rest) => Some(rest.after(o.consumed, o.dest, o.events)),
                    None => None,
                },
                None => None,
            }
        } else {
            Some(Gathered::nothing())
        }
    }

    /// The outcome of the first alternative from the `i`th on that matches
    /// at the start of `s`.
    pub open spec fn first_match(self, i: nat, env: Bindings, s: Seq<char>, d: ValueView) -> Option<
        Outcome,
    >
        decreases self, 0nat, self->Or_0.len() - i,
    {
        if self is Or && i < self->Or_0.len() {
            match self->Or_0[i as int].outcome(env, s, d) {
                Some(o) => Some(o),
                None => self.first_match(i + 1, env, s, d),
            }
        } else {
            None
        }
    }

    /// The rounds of a repetition of this pattern on `s`. A round is one
    /// match that consumes something; the rounds end with the first attempt
    /// that fails or consumes nothing, and that attempt leaves no trace.
    pub open spec fn repeated(self, env: Bindings, s: Seq<char>) -> Gathered
        decreases self, 2nat, s.len(),
    {
        match self.outcome(env, s, self.fresh()) {
            Some(o) => if 0 < o.consumed <= s.len() {
                self.repeated(env, s.skip(o.consumed as int)).after(o.consumed, o.dest, o.events)
            } else {
                Gathered::nothing()
            },
            None => Gathered::nothing(),
        }
    }

    /// What a match of this pattern at the start of `s` does when it is
    /// handed a destination that holds `d`, or `None` if the pattern does not
    /// match there. Identifiers stand for the tokens that `env` binds them
    /// to.
    ///
    /// - A literal matches if its text stands there; the destination picks
    ///   up its characters.
    /// - A token, or an identifier bound to one, matches if its run is long
    ///   enough; the destination becomes the parsed value.
    /// - A sequence matches if all its parts match in order; their values
    ///   arrive in the destination as further elements.
    /// - Of alternatives the first that matches decides; each is tried on the
    ///   same input with the same destination.
    /// - A repetition hands on the values of its rounds; `ZeroOrMore` and
    ///   `Sep` always match, `OneOrMore` needs one round, and `Sep1` needs
    ///   its element to match at the start.
    /// - A capture matches its inner pattern into a fresh destination, and
    ///   commits what that holds to `d` and under its own name.
    pub open spec fn outcome(self, env: Bindings, s: Seq<char>, d: ValueView) -> Option<Outcome>
        decreases self, 1nat, 0nat,
    {
        match self {
            PatternView::Lit(text) => if starts_with(s, text) {
                Some(Outcome { consumed: text.len(), dest: d.absorb(text), events: Seq::empty() })
            } else {
                None
            },
            PatternView::Ident(name) => match crate::dest::lookup(env, name) {
                Some(token) => token_outcome(token, s),
                None => None,
            },
            PatternView::Token(token) => token_outcome(token, s),
            PatternView::Sequence(_) => match self.gathered(0, env, s) {
                Some(g) => Some(g.delivered(d)),
                None => None,
            },
            PatternView::Or(_) => self.first_match(0, env, s, d),
            PatternView::ZeroOrMore(inner) => Some(inner.repeated(env, s).delivered(d)),
            PatternView::OneOrMore(inner) => {
                let g = inner.repeated(env, s);
                if g.values.len() > 0 {
                    Some(g.delivered(d))
                } else {
                    None
                }
            },
            PatternView::Sep(sep) => Some(sep.rounds(env, s).delivered(d)),
            PatternView::Sep1(sep) => if sep.element.outcome(env, s, sep.element.fresh()) is Some {
                Some(sep.rounds(env, s).delivered(d))
            } else {
                None
            },
            PatternView::To(inner, name) => match inner.outcome(env, s, inner.fresh()) {
                Some(o) => Some(
                    Outcome {
                        consumed: o.consumed,
                        dest: d.commit(o.dest),
                        events: o.events.push((name, o.dest)),
                    },
                ),
                None => None,
            },
        }
    }

    /// Whether a capture under the name `name` stands anywhere in the
    /// pattern.
    pub open spec fn captures_under(self, name: Seq<char>) -> bool
        decreases self,
    {
        match self {
            PatternView::To(inner, own) => own == name || inner.captures_under(name),
            PatternView::Sequence(parts) => exists|i: int|
                0 <= i < parts.len() && (#[trigger] parts[i]).captures_under(name),
            PatternView::Or(alternatives) => exists|i: int|
                0 <= i < alternatives.len() && (#[trigger] alternatives[i]).captures_under(name),
            PatternView::ZeroOrMore(inner) => inner.captures_under(name),
            PatternView::OneOrMore(inner) => inner.captures_under(name),
            PatternView::Sep(sep) | PatternView::Sep1(sep) => sep.separator.captures_under(name)
                || sep.element.captures_under(name),
            _ => false,
        }
    }

    /// Whether the pattern matches at the start of `s` and the match ends
    /// behind the last element of `s`.
    pub open spec fn matches_all(self, env: Bindings, s: Seq<char>) -> bool {
        match self.outcome(env, s, self.fresh()) {
            Some(o) => o.consumed == s.len(),
            None => false,
        }
    }
}

/// Whether a match has taken things from a state `0` to a state `1` as the
/// outcome `out` says, and has reported it in `ok`. After a match that failed
/// the input, the destination and the captures are what they were.
pub open spec fn follows(
    out: Option<Outcome>,
    ok: bool,
    s0: Seq<char>,
    s1: Seq<char>,
    d0: ValueView,
    d1: ValueView,
    e0: Events,
    e1: Events,
) -> bool {
    match out {
        Some(o) => {
            &&& ok
            &&& o.consumed <= s0.len()
            &&& s1 == s0.skip(o.consumed as int)
            &&& d1 == o.dest
            &&& e1 == e0 + o.events
        },
        None => !ok && s1 == s0 && d1 == d0 && e1 == e0,
    }
}

/// Matches the elements of `text` at the cursor, one by one. On success the
/// cursor stands behind them and `dest` has picked them up; on failure
/// nothing changes.
pub fn consume_text<R: PeekableExt>(text: &Vec<char>, cursor: &mut R, dest: &mut Value) -> (ok:
    bool)
    requires
        old(cursor).wf(),
    ensures
        final(cursor).wf(),
        ok == starts_with(old(cursor).remaining(), text@),
        ok ==> final(cursor).remaining() == old(cursor).remaining().skip(text@.len() as int),
        ok ==> final(dest)@ == old(dest)@.absorb(text@),
        !ok ==> final(cursor).remaining() == old(cursor).remaining(),
        !ok ==> *final(dest) == *old(dest),
{
    let ghost s = cursor.remaining();
    let mut trial = cursor.snapshot();
    let mut i: usize = 0;
    proof {
        cursor.lemma_bounded();
        assert(s.skip(0) =~= s);
        assert(s.take(0) =~= text@.take(0));
    }
    while i < text.len()
        invariant
            i <= text.len(),
            i <= s.len(),
            trial.wf(),
            trial.remaining() == s.skip(i as int),
            s.take(i as int) == text@.take(i as int),
            cursor.wf(),
            cursor.remaining() == s,
            s == old(cursor).remaining(),
            *dest == *old(dest),
        decreases text.len() - i,
    {
        let matched = match trial.peek() {
            Some(item) => text[i].satisfies(&item),
            None => false,
        };
        if !matched {
            proof {
                if starts_with(s, text@) {
                    assert(s.take(text@.len() as int)[i as int] == text@[i as int]);
                }
            }
            return false;
        }
        let _ = trial.next();
        proof {
            assert(s.skip(i as int).skip(1) =~= s.skip(i + 1));
            assert(s.take(i + 1) =~= s.take(i as int).push(s[i as int]));
            assert(text@.take(i + 1) =~= text@.take(i as int).push(text@[i as int]));
        }
        i += 1;
    }
    proof {
        assert(text@.take(text@.len() as int) =~= text@);
    }
    cursor.restore(trial);
    dest.pickup_all(text);
    true
}

/// Matches `inner` at the cursor as often as it matches and consumes
/// something. Each round's value is pushed to `values`.
fn repeat<R: PeekableExt>(
    inner: &Pattern,
    cursor: &mut R,
    values: &mut Vec<Value>,
    ctx: &mut Context,
)
    requires
        old(cursor).wf(),
        old(values)@.len() == 0,
    ensures
        final(cursor).wf(),
        final(ctx).bindings() == old(ctx).bindings(),
        final(ctx).declared() == old(ctx).declared(),
        ({
            let g = inner@.repeated(old(ctx).bindings(), old(cursor).remaining());
            &&& g.consumed <= old(cursor).remaining().len()
            &&& final(cursor).remaining() == old(cursor).remaining().skip(g.consumed as int)
            &&& views_of(final(values)@) == g.values
            &&& final(ctx).captures() == old(ctx).captures() + g.events
        }),
    decreases inner, 1nat,
{
    let ghost s0 = cursor.remaining();
    let ghost env = ctx.bindings();
    let ghost e0 = ctx.captures();
    let ghost mut k: nat = 0;
    let ghost mut evs: Events = Seq::empty();
    let mut done = false;
    proof {
        assert(s0.skip(0) =~= s0);
        assert(e0 + evs =~= e0);
    }
    while !done
        invariant
            cursor.wf(),
            k <= s0.len(),
            cursor.remaining() == s0.skip(k as int),
            ctx.bindings() == env,
            ctx.declared() == old(ctx).declared(),
            ctx.captures() == e0 + evs,
            ({
                let g = inner@.repeated(env, s0);
                let r = inner@.repeated(env, cursor.remaining());
                &&& g.consumed == k + r.consumed
                &&& g.values == views_of(values@) + r.values
                &&& g.events == evs + r.events
            }),
            done ==> inner@.repeated(env, cursor.remaining()) == Gathered::nothing(),
        decreases cursor.remaining().len() + if done { 0int } else { 1int },
    {
        let ghost s = cursor.remaining();
        let ghost vals = views_of(values@);
        let mut trial = cursor.snapshot();
        let before = cursor.remaining_len();
        let mark = ctx.mark();
        let mut item = inner.fresh_value();
        if !inner.consume_with_dest(&mut trial, &mut item, ctx) {
            done = true;
        } else {
            let ghost o = inner@.outcome(env, s, inner@.fresh())->0;
            let after = trial.remaining_len();
            if before - after == 0 {
                ctx.rewind(mark);
                proof {
                    assert((e0 + evs + o.events).take(mark as int) =~= e0 + evs);
                }
                done = true;
            } else {
                cursor.restore(trial);
                values.push(item);
                proof {
                    let r = inner@.repeated(env, s);
                    let rest = inner@.repeated(env, s.skip(o.consumed as int));
                    assert(r == rest.after(o.consumed, o.dest, o.events));
                    assert(s0.skip(k as int).skip(o.consumed as int) =~= s0.skip(
                        (k + o.consumed) as int,
                    ));
                    assert(views_of(values@) =~= vals.push(o.dest));
                    assert(vals + (seq![o.dest] + rest.values) =~= vals.push(o.dest)
                        + rest.values);
                    assert(evs + (o.events + rest.events) =~= (evs + o.events) + rest.events);
                    assert(e0 + evs + o.events =~= e0 + (evs + o.events));
                    k = k + o.consumed;
                    evs = evs + o.events;
                }
            }
        }
    }
    proof {
        assert(views_of(values@) + Seq::<ValueView>::empty() =~= views_of(values@));
        assert(evs + Seq::<(Seq<char>, ValueView)>::empty() =~= evs);
    }
}

/// Not a single round means that nothing was consumed and nothing captured.
pub proof fn lemma_no_round(inner: PatternView, env: Bindings, s: Seq<char>)
    ensures
        inner.repeated(env, s).values.len() == 0 ==> inner.repeated(env, s)
            == Gathered::nothing(),
{
}

impl Sequence {
    /// Matches the parts in order on a trial cursor, each into a fresh
    /// destination. Only when all of them have matched does the cursor move
    /// and do the values of the parts arrive in `dest`.
    pub fn consume_with_dest<R: PeekableExt>(
        &self,
        cursor: &mut R,
        dest: &mut Value,
        ctx: &mut Context,
    ) -> (ok: bool)
        requires
            old(cursor).wf(),
        ensures
            final(cursor).wf(),
            final(ctx).bindings() == old(ctx).bindings(),
            final(ctx).declared() == old(ctx).declared(),
            follows(
                self@.outcome(old(ctx).bindings(), old(cursor).remaining(), old(dest)@),
                ok,
                old(cursor).remaining(),
                final(cursor).remaining(),
                old(dest)@,
                final(dest)@,
                old(ctx).captures(),
                final(ctx).captures(),
            ),
        decreases self, 0nat,
    {
        let ghost s0 = cursor.remaining();
        let ghost env = ctx.bindings();
        let ghost e0 = ctx.captures();
        let ghost mut k: nat = 0;
        let ghost mut evs: Events = Seq::empty();
        let mut trial = cursor.snapshot();
        let mark = ctx.mark();
        let mut values: Vec<Value> = Vec::new();
        let mut i: usize = 0;
        proof {
            assert(s0.skip(0) =~= s0);
            assert(e0 + evs =~= e0);
            assert(views_of(values@) =~= Seq::<ValueView>::empty());
        }
        while i < self.0.len()
            invariant
                i <= self.0.len(),
                trial.wf(),
                k <= s0.len(),
                trial.remaining() == s0.skip(k as int),
                cursor.wf(),
                cursor.remaining() == s0,
                s0 == old(cursor).remaining(),
                *dest == *old(dest),
                e0 == old(ctx).captures(),
                env == old(ctx).bindings(),
                ctx.bindings() == env,
                ctx.declared() == old(ctx).declared(),
                ctx.captures() == e0 + evs,
                mark == e0.len(),
                match self@.gathered(i as nat, env, trial.remaining()) {
                    Some(r) => {
                        &&& self@.gathered(0, env, s0) matches Some(g)
                        &&& g.consumed == k + r.consumed
                        &&& g.values == views_of(values@) + r.values
                        &&& g.events == evs + r.events
                    },
                    None => self@.gathered(0, env, s0) is None,
                },
            decreases self.0.len() - i,
        {
            let ghost s = trial.remaining();
            let ghost vals = views_of(values@);
            proof {
                vstd::std_specs::vec::axiom_vec_index_decreases(self.0, i as int);
            }
            let mut item = self.0[i].fresh_value();
            if !self.0[i].consume_with_dest(&mut trial, &mut item, ctx) {
                ctx.rewind(mark);
                proof {
                    assert((e0 + evs).take(mark as int) =~= e0);
                }
                return false;
            }
            proof {
                let o = self.0[i as int]@.outcome(env, s, self.0[i as int]@.fresh())->0;
                assert(s0.skip(k as int).skip(o.consumed as int) =~= s0.skip((k + o.consumed) as int));
                match self@.gathered(i as nat + 1, env, s.skip(o.consumed as int)) {
                    Some(rest) => {
                        assert(vals + (seq![o.dest] + rest.values) =~= vals.push(o.dest)
                            + rest.values);
                        assert(evs + (o.events + rest.events) =~= (evs + o.events)
                            + rest.events);
                    },
                    None => {},
                }
                assert(e0 + evs + o.events =~= e0 + (evs + o.events));
                k = k + o.consumed;
                evs = evs + o.events;
            }
            values.push(item);
            proof {
                assert(views_of(values@) =~= vals.push(item@));
            }
            i += 1;
        }
        proof {
            assert(views_of(values@) + Seq::<ValueView>::empty() =~= views_of(values@));
            assert(evs + Seq::<(Seq<char>, ValueView)>::empty() =~= evs);
        }
        cursor.restore(trial);
        dest.extend(values);
        true
    }
}

impl Or {
    /// Tries the alternatives from the left, each from the same position and
    /// with the same destination. An alternative that fails leaves no trace,
    /// so that the next one starts from the state before the trial.
    pub fn consume_with_dest<R: PeekableExt>(
        &self,
        cursor: &mut R,
        dest: &mut Value,
        ctx: &mut Context,
    ) -> (ok: bool)
        requires
            old(cursor).wf(),
        ensures
            final(cursor).wf(),
            final(ctx).bindings() == old(ctx).bindings(),
            final(ctx).declared() == old(ctx).declared(),
            follows(
                self@.outcome(old(ctx).bindings(), old(cursor).remaining(), old(dest)@),
                ok,
                old(cursor).remaining(),
                final(cursor).remaining(),
                old(dest)@,
                final(dest)@,
                old(ctx).captures(),
                final(ctx).captures(),
            ),
        decreases self, 0nat,
    {
        let ghost s0 = cursor.remaining();
        let ghost env = ctx.bindings();
        let mut i: usize = 0;
        while i < self.0.len()
            invariant
                i <= self.0.len(),
                cursor.wf(),
                cursor.remaining() == s0,
                s0 == old(cursor).remaining(),
                dest@ == old(dest)@,
                env == old(ctx).bindings(),
                ctx.bindings() == env,
                ctx.declared() == old(ctx).declared(),
                ctx.captures() == old(ctx).captures(),
                self@.first_match(i as nat, env, s0, dest@) == self@.first_match(
                    0,
                    env,
                    s0,
                    dest@,
                ),
            decreases self.0.len() - i,
        {
            proof {
                vstd::std_specs::vec::axiom_vec_index_decreases(self.0, i as int);
            }
            if self.0[i].consume_with_dest(cursor, dest, ctx) {
                return true;
            }
            i += 1;
        }
        false
    }
}

impl To {
    /// Matches the inner pattern into a fresh destination of its own. On
    /// success what was collected there is committed to `dest` and recorded
    /// for the destination that the capture names.
    pub fn consume_with_dest<R: PeekableExt>(
        &self,
        cursor: &mut R,
        dest: &mut Value,
        ctx: &mut Context,
    ) -> (ok: bool)
        requires
            old(cursor).wf(),
        ensures
            final(cursor).wf(),
            final(ctx).bindings() == old(ctx).bindings(),
            final(ctx).declared() == old(ctx).declared(),
            follows(
                self@.outcome(old(ctx).bindings(), old(cursor).remaining(), old(dest)@),
                ok,
                old(cursor).remaining(),
                final(cursor).remaining(),
                old(dest)@,
                final(dest)@,
                old(ctx).captures(),
                final(ctx).captures(),
            ),
        decreases self, 0nat,
    {
        let ghost e0 = ctx.captures();
        let mut captured = self.0.fresh_value();
        if self.0.consume_with_dest(cursor, &mut captured, ctx) {
            let ghost inner = ctx.captures();
            ctx.record(&self.1, captured.clone());
            dest.commit(captured);
            proof {
                let o = self.0@.outcome(
                    old(ctx).bindings(),
                    old(cursor).remaining(),
                    self.0@.fresh(),
                )->0;
                assert((e0 + o.events).push((self.1@, o.dest)) =~= e0 + o.events.push(
                    (self.1@, o.dest),
                ));
            }
            true
        } else {
            false
        }
    }
}

impl Sep {
    /// Matches one round at the cursor: the element, and behind it the
    /// separator if it matches there. Returns the pair of what the two
    /// collected, or `None`, with nothing changed, if the element fails.
    fn round<R: PeekableExt>(&self, cursor: &mut R, ctx: &mut Context) -> (value: Option<Value>)
        requires
            old(cursor).wf(),
        ensures
            final(cursor).wf(),
            final(ctx).bindings() == old(ctx).bindings(),
            final(ctx).declared() == old(ctx).declared(),
            match self@.round(old(ctx).bindings(), old(cursor).remaining()) {
                Some(o) => {
                    &&& value matches Some(v) && v@ == o.dest
                    &&& o.consumed <= old(cursor).remaining().len()
                    &&& final(cursor).remaining() == old(cursor).remaining().skip(
                        o.consumed as int,
                    )
                    &&& final(ctx).captures() == old(ctx).captures() + o.events
                },
                None => {
                    &&& value is None
                    &&& final(cursor).remaining() == old(cursor).remaining()
                    &&& final(ctx).captures() == old(ctx).captures()
                },
            },
        decreases self, 0nat,
    {
        let ghost s = cursor.remaining();
        let ghost env = ctx.bindings();
        let ghost e0 = ctx.captures();
        let mut element = self.1.fresh_value();
        if !self.1.consume_with_dest(cursor, &mut element, ctx) {
            return None;
        }
        let ghost e = self.1@.outcome(env, s, self.1@.fresh())->0;
        let mut separator = self.0.fresh_value();
        let _ = self.0.consume_with_dest(cursor, &mut separator, ctx);
        proof {
            match self.0@.outcome(env, s.skip(e.consumed as int), self.0@.fresh()) {
                Some(t) => {
                    assert(s.skip(e.consumed as int).skip(t.consumed as int) =~= s.skip(
                        (e.consumed + t.consumed) as int,
                    ));
                    assert(e0 + e.events + t.events =~= e0 + (e.events + t.events));
                },
                None => {},
            }
        }
        Some(Value::Pair(Box::new(separator), Box::new(element)))
    }

    /// Matches round after round at the cursor, as long as a round matches
    /// and consumes something. Each round's pair of values is pushed to
    /// `values`. Returns whether the element matched at the start.
    fn repeat<R: PeekableExt>(&self, cursor: &mut R, values: &mut Vec<Value>, ctx: &mut Context) -> (first:
        bool)
        requires
            old(cursor).wf(),
            old(values)@.len() == 0,
        ensures
            final(cursor).wf(),
            final(ctx).bindings() == old(ctx).bindings(),
            final(ctx).declared() == old(ctx).declared(),
            first == (self@.round(old(ctx).bindings(), old(cursor).remaining()) is Some),
            ({
                let g = self@.rounds(old(ctx).bindings(), old(cursor).remaining());
                &&& g.consumed <= old(cursor).remaining().len()
                &&& final(cursor).remaining() == old(cursor).remaining().skip(g.consumed as int)
                &&& views_of(final(values)@) == g.values
                &&& final(ctx).captures() == old(ctx).captures() + g.events
            }),
        decreases self, 1nat,
    {
        let ghost s0 = cursor.remaining();
        let ghost env = ctx.bindings();
        let ghost e0 = ctx.captures();
        let ghost mut k: nat = 0;
        let ghost mut evs: Events = Seq::empty();
        let mut done = false;
        let mut first = false;
        let mut started = false;
        proof {
            assert(s0.skip(0) =~= s0);
            assert(e0 + evs =~= e0);
        }
        while !done
            invariant
                cursor.wf(),
                k <= s0.len(),
                cursor.remaining() == s0.skip(k as int),
                ctx.bindings() == env,
                ctx.declared() == old(ctx).declared(),
                ctx.captures() == e0 + evs,
                !started ==> cursor.remaining() == s0,
                started ==> first == (self@.round(env, s0) is Some),
                done ==> started,
                ({
                    let g = self@.rounds(env, s0);
                    let r = self@.rounds(env, cursor.remaining());
                    &&& g.consumed == k + r.consumed
                    &&& g.values == views_of(values@) + r.values
                    &&& g.events == evs + r.events
                }),
                done ==> self@.rounds(env, cursor.remaining()) == Gathered::nothing(),
            decreases cursor.remaining().len() + if done { 0int } else { 1int },
        {
            let ghost s = cursor.remaining();
            let ghost vals = views_of(values@);
            let mut trial = cursor.snapshot();
            let before = cursor.remaining_len();
            let mark = ctx.mark();
            let round = self.round(&mut trial, ctx);
            if !started {
                first = round.is_some();
                started = true;
            }
            match round {
                None => {
                    done = true;
                },
                Some(pair) => {
                    let ghost o = self@.round(env, s)->0;
                    let after = trial.remaining_len();
                    if before - after == 0 {
                        ctx.rewind(mark);
                        proof {
                            assert((e0 + evs + o.events).take(mark as int) =~= e0 + evs);
                        }
                        done = true;
                    } else {
                        cursor.restore(trial);
                        values.push(pair);
                        proof {
                            let rest = self@.rounds(env, s.skip(o.consumed as int));
                            assert(self@.rounds(env, s) == rest.after(
                                o.consumed,
                                o.dest,
                                o.events,
                            ));
                            assert(s0.skip(k as int).skip(o.consumed as int) =~= s0.skip(
                                (k + o.consumed) as int,
                            ));
                            assert(views_of(values@) =~= vals.push(o.dest));
                            assert(vals + (seq![o.dest] + rest.values) =~= vals.push(o.dest)
                                + rest.values);
                            assert(evs + (o.events + rest.events) =~= (evs + o.events)
                                + rest.events);
                            assert(e0 + evs + o.events =~= e0 + (evs + o.events));
                            k = k + o.consumed;
                            evs = evs + o.events;
                        }
                    }
                },
            }
        }
        proof {
            assert(views_of(values@) + Seq::<ValueView>::empty() =~= views_of(values@));
            assert(evs + Seq::<(Seq<char>, ValueView)>::empty() =~= evs);
        }
        first
    }

    /// Matches the occurrences at the cursor. This always succeeds; the
    /// pairs of the rounds arrive in `dest` as further elements.
    pub fn consume_with_dest<R: PeekableExt>(
        &self,
        cursor: &mut R,
        dest: &mut Value,
        ctx: &mut Context,
    ) -> (ok: bool)
        requires
            old(cursor).wf(),
        ensures
            final(cursor).wf(),
            final(ctx).bindings() == old(ctx).bindings(),
            final(ctx).declared() == old(ctx).declared(),
            follows(
                PatternView::Sep(self@).outcome(
                    old(ctx).bindings(),
                    old(cursor).remaining(),
                    old(dest)@,
                ),
                ok,
                old(cursor).remaining(),
                final(cursor).remaining(),
                old(dest)@,
                final(dest)@,
                old(ctx).captures(),
                final(ctx).captures(),
            ),
        decreases self, 2nat,
    {
        let mut values: Vec<Value> = Vec::new();
        let _ = self.repeat(cursor, &mut values, ctx);
        dest.extend(values);
        true
    }
}

impl Sep1 {
    /// Matches the occurrences at the cursor, and succeeds if the element
    /// matched at the start. On failure nothing changes.
    pub fn consume_with_dest<R: PeekableExt>(
        &self,
        cursor: &mut R,
        dest: &mut Value,
        ctx: &mut Context,
    ) -> (ok: bool)
        requires
            old(cursor).wf(),
        ensures
            final(cursor).wf(),
            final(ctx).bindings() == old(ctx).bindings(),
            final(ctx).declared() == old(ctx).declared(),
            follows(
                PatternView::Sep1(self@).outcome(
                    old(ctx).bindings(),
                    old(cursor).remaining(),
                    old(dest)@,
                ),
                ok,
                old(cursor).remaining(),
                final(cursor).remaining(),
                old(dest)@,
                final(dest)@,
                old(ctx).captures(),
                final(ctx).captures(),
            ),
        decreases self, 0nat,
    {
        let mut values: Vec<Value> = Vec::new();
        if self.0.repeat(cursor, &mut values, ctx) {
            dest.extend(values);
            true
        } else {
            proof {
                let s0 = old(cursor).remaining();
                assert(s0.skip(0) =~= s0);
                assert(old(ctx).captures() + Seq::<(Seq<char>, ValueView)>::empty()
                    =~= old(ctx).captures());
            }
            false
        }
    }
}

impl Pattern {
    /// A destination made afresh for this pattern.
    pub fn fresh_value(&self) -> (value: Value)
        ensures
            value@ == self@.fresh(),
        decreases self,
    {
        match self {
            Pattern::Lit(_) => Value::Text(Vec::new()),
            Pattern::Sequence(_) | Pattern::ZeroOrMore(_) | Pattern::OneOrMore(_) | Pattern::Sep(
                _,
            ) | Pattern::Sep1(_) => {
                let value = Value::List(Vec::new());
                assert(value@->List_0 =~= Seq::<ValueView>::empty());
                value
            },
            Pattern::Or(or) => if or.0.len() > 0 {
                proof {
                    vstd::std_specs::vec::axiom_vec_index_decreases(or.0, 0);
                    or.lemma_view();
                }
                or.0[0].fresh_value()
            } else {
                Value::Unit
            },
            _ => Value::Unit,
        }
    }

    /// Tries to extend the match from the cursor's position. On success the
    /// cursor has moved on, `dest` has taken what the pattern collected, and
    /// the captures of the match stand at the end of the context's log. On
    /// failure the cursor, `dest` and the context are what they were before
    /// the call.
    pub fn consume_with_dest<R: PeekableExt>(
        &self,
        cursor: &mut R,
        dest: &mut Value,
        ctx: &mut Context,
    ) -> (ok: bool)
        requires
            old(cursor).wf(),
        ensures
            final(cursor).wf(),
            final(ctx).bindings() == old(ctx).bindings(),
            final(ctx).declared() == old(ctx).declared(),
            ok == (self@.outcome(old(ctx).bindings(), old(cursor).remaining(), old(dest)@)
                is Some),
            !ok ==> {
                &&& final(cursor).remaining() == old(cursor).remaining()
                &&& final(dest)@ == old(dest)@
                &&& final(ctx).captures() == old(ctx).captures()
            },
            follows(
                self@.outcome(old(ctx).bindings(), old(cursor).remaining(), old(dest)@),
                ok,
                old(cursor).remaining(),
                final(cursor).remaining(),
                old(dest)@,
                final(dest)@,
                old(ctx).captures(),
                final(ctx).captures(),
            ),
        decreases self, 0nat,
    {
        let ghost s0 = cursor.remaining();
        let ghost e0 = ctx.captures();
        proof {
            assert(e0 + Seq::<(Seq<char>, ValueView)>::empty() =~= e0);
            assert(s0.skip(0) =~= s0);
        }
        match self {
            Pattern::Lit(text) => consume_text(text, cursor, dest),
            Pattern::Ident(name) => match ctx.resolve(name) {
                Some(token) => {
                    proof {
                        token.lemma_span(s0);
                    }
                    token.consume_with_dest(cursor, dest)
                },
                None => false,
            },
            Pattern::Token(token) => {
                proof {
                    token.lemma_span(s0);
                }
                token.consume_with_dest(cursor, dest)
            },
            Pattern::Sequence(sequence) => sequence.consume_with_dest(cursor, dest, ctx),
            Pattern::Or(or) => or.consume_with_dest(cursor, dest, ctx),
            Pattern::ZeroOrMore(inner) => {
                let mut values: Vec<Value> = Vec::new();
                repeat(inner, cursor, &mut values, ctx);
                dest.extend(values);
                true
            },
            Pattern::OneOrMore(inner) => {
                let mut values: Vec<Value> = Vec::new();
                repeat(inner, cursor, &mut values, ctx);
                if values.len() == 0 {
                    proof {
                        lemma_no_round(inner@, ctx.bindings(), s0);
                    }
                    false
                } else {
                    dest.extend(values);
                    true
                }
            },
            Pattern::Sep(sep) => sep.consume_with_dest(cursor, dest, ctx),
            Pattern::Sep1(sep1) => sep1.consume_with_dest(cursor, dest, ctx),
            Pattern::To(to) => to.consume_with_dest(cursor, dest, ctx),
        }
    }
}


impl Pattern {
    /// The pattern that matches the characters of `text`.
    pub fn lit(text: &str) -> (pattern: Pattern)
        ensures
            pattern@ == PatternView::Lit(text@),
    {
        Pattern::Lit(chars_of(text))
    }

    /// The pattern that matches the token that `name` stands for.
    pub fn ident(name: &str) -> (pattern: Pattern)
        ensures
            pattern@ == PatternView::Ident(name@),
    {
        Pattern::Ident(String::from_str(name))
    }

    /// The pattern that captures what `inner` collects under `name`.
    pub fn to(inner: Pattern, name: &str) -> (pattern: Pattern)
        ensures
            pattern@ == PatternView::To(Box::new(inner@), name@),
    {
        Pattern::To(To(Box::new(inner), String::from_str(name)))
    }

    /// Tries to extend the match from the cursor's position, and collects
    /// nothing but the captures. On failure the cursor and the context are
    /// what they were before the call.
    pub fn consume<R: PeekableExt>(&self, cursor: &mut R, ctx: &mut Context) -> (ok: bool)
        requires
            old(cursor).wf(),
        ensures
            final(cursor).wf(),
            final(ctx).bindings() == old(ctx).bindings(),
            final(ctx).declared() == old(ctx).declared(),
            match self@.outcome(old(ctx).bindings(), old(cursor).remaining(), self@.fresh()) {
                Some(o) => {
                    &&& ok
                    &&& o.consumed <= old(cursor).remaining().len()
                    &&& final(cursor).remaining() == old(cursor).remaining().skip(
                        o.consumed as int,
                    )
                    &&& final(ctx).captures() == old(ctx).captures() + o.events
                },
                None => {
                    &&& !ok
                    &&& final(cursor).remaining() == old(cursor).remaining()
                    &&& final(ctx).captures() == old(ctx).captures()
                },
            },
    {
        let mut scratch = self.fresh_value();
        self.consume_with_dest(cursor, &mut scratch, ctx)
    }

    /// Whether the pattern matches the whole of `reference`: the match that
    /// starts at its first element has to end behind its last. Only then are
    /// the captures of the match kept.
    pub fn matches<'s, I: Iterable<'s>>(&self, reference: &'s I, ctx: &mut Context) -> (ok: bool)
        ensures
            final(ctx).bindings() == old(ctx).bindings(),
            final(ctx).declared() == old(ctx).declared(),
            ok == self@.matches_all(old(ctx).bindings(), reference.elements()),
            ok ==> final(ctx).captures() == old(ctx).captures() + self@.outcome(
                old(ctx).bindings(),
                reference.elements(),
                self@.fresh(),
            )->0.events,
            !ok ==> final(ctx).captures() == old(ctx).captures(),
    {
        let mut cursor = reference.get_iter();
        let mark = ctx.mark();
        if !self.consume(&mut cursor, ctx) {
            return false;
        }
        if cursor.peek().is_none() {
            true
        } else {
            ctx.rewind(mark);
            proof {
                let o = self@.outcome(old(ctx).bindings(), reference.elements(), self@.fresh())->0;
                assert((old(ctx).captures() + o.events).take(mark as int) =~= old(
                    ctx,
                ).captures());
            }
            false
        }
    }

}

} // verus!
