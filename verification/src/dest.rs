//! Named destinations and the context of a match: the tokens that
//! identifiers stand for, the destinations that were declared, and the log of
//! what was captured.

use crate::exts::{
    alphabetic, alphanumeric, bin, hex, num, number_token, oct, run_token, ws, Parser, Token,
};
use crate::utils::Predicate;
use crate::value::{views_of, Collector, Destination, Value, ValueView};
use vstd::prelude::*;
use vstd::string::StringExecFns;

verus! {

/// A destination that stores what a match collects.
#[derive(Debug, PartialEq, Eq)]
pub struct Dest<T> {
    inner: T,
}

impl<T> Dest<T> {
    /// What the destination holds.
    pub closed spec fn value(&self) -> T {
        self.inner
    }

    /// A destination that holds the default value of its type.
    pub fn new() -> (dest: Self) where T: Default
        ensures
            call_ensures(T::default, (), dest.value()),
    {
        Dest { inner: T::default() }
    }

    /// Access to the stored value for writing.
    pub fn borrow_mut(&mut self) -> (inner: &mut T)
        ensures
            *inner == old(self).value(),
            final(self).value() == *final(inner),
    {
        &mut self.inner
    }

    /// Access to the stored value for reading.
    pub fn borrow(&self) -> (inner: &T)
        ensures
            *inner == self.value(),
    {
        &self.inner
    }

    /// Gives up the destination for the value it holds.
    pub fn into_inner(self) -> (inner: T)
        ensures
            inner == self.value(),
    {
        self.inner
    }
}

impl<T> From<T> for Dest<T> {
    /// A destination that holds `value`.
    fn from(value: T) -> (dest: Self)
        ensures
            dest.value() == value,
    {
        Dest { inner: value }
    }
}

impl<T> vstd::std_specs::convert::FromSpecImpl<T> for Dest<T> {
    open spec fn obeys_from_spec() -> bool {
        true
    }

    closed spec fn from_spec(value: T) -> Self {
        Dest { inner: value }
    }
}

impl<T: Clone> Clone for Dest<T> {
    fn clone(&self) -> (copy: Self)
        ensures
            cloned(self.value(), copy.value()),
    {
        Dest { inner: self.inner.clone() }
    }
}

/// A destination picks up what the value inside it picks up.
impl<T: Destination> Destination for Dest<T> {
    open spec fn picks_up(before: Self, item: char, after: Self) -> bool {
        T::picks_up(before.value(), item, after.value())
    }

    fn pickup(&mut self, item: char) {
        self.inner.pickup(item)
    }
}

/// A destination collects as the value inside it collects.
impl<T: Collector> Collector for Dest<T> {
    open spec fn collects(before: Self, captured: ValueView, after: Self) -> bool {
        T::collects(before.value(), captured, after.value())
    }

    fn commit(&mut self, captured: Value) {
        self.inner.commit(captured)
    }
}

/// One capture: the name of the destination and the value captured for it.
#[derive(Debug, PartialEq, Eq)]
pub struct Event {
    pub name: String,
    pub value: Value,
}

impl View for Event {
    type V = (Seq<char>, ValueView);

    open spec fn view(&self) -> (Seq<char>, ValueView) {
        (self.name@, self.value@)
    }
}

/// The models of a sequence of captures, element by element.
pub open spec fn events_of(log: Seq<Event>) -> Seq<(Seq<char>, ValueView)> {
    Seq::new(log.len(), |i: int| log[i]@)
}

/// The token that `name` stands for: the one bound last under that name.
pub open spec fn lookup(bindings: Seq<(Seq<char>, Token)>, name: Seq<char>) -> Option<Token>
    decreases bindings.len(),
{
    if bindings.len() == 0 {
        None
    } else if bindings.last().0 == name {
        Some(bindings.last().1)
    } else {
        lookup(bindings.drop_last(), name)
    }
}

/// The values of the captures of `events` that bear the name `name`, in
/// order.
pub open spec fn values_named(events: Seq<(Seq<char>, ValueView)>, name: Seq<char>) -> Seq<
    ValueView,
>
    decreases events.len(),
{
    if events.len() == 0 {
        Seq::empty()
    } else {
        let before = values_named(events.drop_last(), name);
        if events.last().0 == name {
            before.push(events.last().1)
        } else {
            before
        }
    }
}

/// What a destination that was declared with `init` holds after the captures
/// of `events` that bear its name were committed to it. The shape it was
/// declared with selects the rule: a list has taken every captured value as a
/// further element, anything else was overwritten each time, so that it holds
/// the value captured last.
pub open spec fn collected(
    init: ValueView,
    events: Seq<(Seq<char>, ValueView)>,
    name: Seq<char>,
) -> ValueView {
    let values = values_named(events, name);
    match init {
        ValueView::List(l) => ValueView::List(l + values),
        _ => if values.len() > 0 {
            values.last()
        } else {
            init
        },
    }
}

/// The state of one match: what identifiers stand for, which destinations
/// were declared, and what has been captured so far.
pub struct Context {
    bindings: Vec<(String, Token)>,
    slots: Vec<(String, Dest<Value>)>,
    log: Vec<Event>,
}

impl Context {
    /// The bindings of identifiers, oldest first.
    pub closed spec fn bindings(&self) -> Seq<(Seq<char>, Token)> {
        Seq::new(self.bindings@.len(), |i: int| (self.bindings@[i].0@, self.bindings@[i].1))
    }

    /// The declared destinations with the values they were declared with,
    /// oldest first.
    pub closed spec fn declared(&self) -> Seq<(Seq<char>, ValueView)> {
        Seq::new(self.slots@.len(), |i: int| (self.slots@[i].0@, self.slots@[i].1.value()@))
    }

    /// The captures so far, oldest first.
    pub closed spec fn captures(&self) -> Seq<(Seq<char>, ValueView)> {
        events_of(self.log@)
    }

    /// The token that the identifier `name` stands for.
    pub open spec fn token(&self, name: Seq<char>) -> Option<Token> {
        lookup(self.bindings(), name)
    }

    /// What the destination `name` holds: the value it was declared with,
    /// after every capture for it was committed. `None` if no destination of
    /// that name was declared.
    pub open spec fn slot(&self, name: Seq<char>) -> Option<ValueView> {
        match initial(self.declared(), name) {
            Some(init) => Some(collected(init, self.captures(), name)),
            None => None,
        }
    }

    /// A context without bindings, destinations or captures.
    pub fn new() -> (ctx: Self)
        ensures
            ctx.bindings() == Seq::<(Seq<char>, Token)>::empty(),
            ctx.declared() == Seq::<(Seq<char>, ValueView)>::empty(),
            ctx.captures() == Seq::<(Seq<char>, ValueView)>::empty(),
    {
        let ctx = Context { bindings: Vec::new(), slots: Vec::new(), log: Vec::new() };
        assert(ctx.bindings() =~= Seq::<(Seq<char>, Token)>::empty());
        assert(ctx.declared() =~= Seq::<(Seq<char>, ValueView)>::empty());
        assert(ctx.captures() =~= Seq::<(Seq<char>, ValueView)>::empty());
        ctx
    }

    /// A context in which the names that come with the library are bound,
    /// without destinations or captures.
    pub fn standard() -> (ctx: Self)
        ensures
            ctx.bindings() == standard_bindings(),
            ctx.declared() == Seq::<(Seq<char>, ValueView)>::empty(),
            ctx.captures() == Seq::<(Seq<char>, ValueView)>::empty(),
    {
        let mut ctx = Context::new();
        ctx.bind("NUM", num());
        ctx.bind("HEX", hex());
        ctx.bind("OCT", oct());
        ctx.bind("BIN", bin());
        ctx.bind("WS", ws());
        ctx.bind("ALPHABETIC", alphabetic());
        ctx.bind("ALPHANUMERIC", alphanumeric());
        assert(ctx.bindings() =~= standard_bindings());
        ctx
    }

    /// Lets the identifier `name` stand for `token` from now on.
    pub fn bind(&mut self, name: &str, token: Token)
        ensures
            final(self).bindings() == old(self).bindings().push((name@, token)),
            final(self).declared() == old(self).declared(),
            final(self).captures() == old(self).captures(),
    {
        self.bindings.push((String::from_str(name), token));
        assert(self.bindings() =~= old(self).bindings().push((name@, token)));
    }

    /// Declares the destination `name`. The shape of the value in `dest`
    /// decides how captures are committed to it: a list takes each capture as
    /// its next element, any other value is overwritten.
    pub fn declare(&mut self, name: &str, dest: Dest<Value>)
        ensures
            final(self).declared() == old(self).declared().push((name@, dest.value()@)),
            final(self).bindings() == old(self).bindings(),
            final(self).captures() == old(self).captures(),
    {
        self.slots.push((String::from_str(name), dest));
        assert(self.declared() =~= old(self).declared().push((name@, dest.value()@)));
    }

    /// Looks up what the identifier `name` stands for.
    pub fn resolve(&self, name: &String) -> (token: Option<Token>)
        ensures
            token == self.token(name@),
    {
        let mut i: usize = self.bindings.len();
        assert(self.bindings().take(i as int) =~= self.bindings());
        while i > 0
            invariant
                i <= self.bindings.len(),
                self.token(name@) == lookup(self.bindings().take(i as int), name@),
            decreases i,
        {
            i -= 1;
            assert(self.bindings().take(i + 1).drop_last() =~= self.bindings().take(i as int));
            assert(self.bindings().take(i + 1).last() == self.bindings()[i as int]);
            if self.bindings[i].0 == *name {
                return Some(self.bindings[i].1);
            }
        }
        None
    }

    /// The number of captures so far.
    pub fn mark(&self) -> (mark: usize)
        ensures
            mark == self.captures().len(),
    {
        self.log.len()
    }

    /// Forgets the captures made since `mark` was taken.
    pub fn rewind(&mut self, mark: usize)
        requires
            mark <= old(self).captures().len(),
        ensures
            final(self).captures() == old(self).captures().take(mark as int),
            final(self).bindings() == old(self).bindings(),
            final(self).declared() == old(self).declared(),
    {
        self.log.truncate(mark);
        assert(self.captures() =~= old(self).captures().take(mark as int));
    }

    /// Records a capture for the destination `name`.
    pub fn record(&mut self, name: &String, value: Value)
        ensures
            final(self).captures() == old(self).captures().push((name@, value@)),
            final(self).bindings() == old(self).bindings(),
            final(self).declared() == old(self).declared(),
    {
        self.log.push(Event { name: name.clone(), value });
        assert(self.captures() =~= old(self).captures().push((name@, value@)));
    }

    /// What the destination `name` holds by now.
    pub fn get(&self, name: &str) -> (dest: Option<Dest<Value>>)
        ensures
            match self.slot(name@) {
                Some(held) => dest matches Some(d) && d.value()@ == held,
                None => dest is None,
            },
    {
        let wanted = String::from_str(name);
        let mut i: usize = self.slots.len();
        assert(self.declared().take(i as int) =~= self.declared());
        while i > 0
            invariant
                i <= self.slots.len(),
                wanted@ == name@,
                initial(self.declared(), name@) == initial(self.declared().take(i as int), name@),
            decreases i,
        {
            i -= 1;
            assert(self.declared().take(i + 1).drop_last() =~= self.declared().take(i as int));
            assert(self.declared().take(i + 1).last() == self.declared()[i as int]);
            if self.slots[i].0 == wanted {
                let mut values = self.captured(name);
                let ghost init = self.slots@[i as int].1.value()@;
                let ghost named = values_named(self.captures(), name@);
                assert(initial(self.declared(), name@) == Some(init));
                let held = match self.slots[i].1.borrow().clone() {
                    Value::List(mut items) => {
                        let ghost before = items@;
                        let ghost added = values@;
                        proof {
                            Value::lemma_list_view(items);
                        }
                        items.append(&mut values);
                        proof {
                            Value::lemma_list_view(items);
                            assert(views_of(items@) =~= views_of(before) + views_of(added));
                        }
                        Value::List(items)
                    },
                    other => {
                        assert(!(init is List));
                        if values.len() > 0 {
                            let ghost all = values@;
                            let last = values.pop().unwrap();
                            assert(last@ == views_of(all).last());
                            last
                        } else {
                            other
                        }
                    },
                };
                assert(held@ == collected(init, self.captures(), name@));
                return Some(Dest::from(held));
            }
        }
        None
    }

    /// The values captured for the name `name` so far, in order.
    pub fn captured(&self, name: &str) -> (values: Vec<Value>)
        ensures
            views_of(values@) == values_named(self.captures(), name@),
    {
        let name = String::from_str(name);
        let mut values: Vec<Value> = Vec::new();
        let mut j: usize = 0;
        assert(self.captures().take(0) =~= Seq::<(Seq<char>, ValueView)>::empty());
        assert(views_of(values@) =~= Seq::<ValueView>::empty());
        while j < self.log.len()
            invariant
                j <= self.log.len(),
                views_of(values@) == values_named(self.captures().take(j as int), name@),
            decreases self.log.len() - j,
        {
            assert(self.captures().take(j + 1).drop_last() =~= self.captures().take(j as int));
            assert(self.captures().take(j + 1).last() == self.captures()[j as int]);
            if self.log[j].name == name {
                let ghost before = values@;
                values.push(self.log[j].value.clone());
                assert(views_of(values@) =~= views_of(before).push(self.log@[j as int].value@));
            }
            j += 1;
        }
        assert(self.captures().take(self.log@.len() as int) =~= self.captures());
        values
    }
}

/// The value that the destination `name` was declared with: that of the
/// declaration made last under that name.
pub open spec fn initial(declared: Seq<(Seq<char>, ValueView)>, name: Seq<char>) -> Option<
    ValueView,
>
    decreases declared.len(),
{
    if declared.len() == 0 {
        None
    } else if declared.last().0 == name {
        Some(declared.last().1)
    } else {
        initial(declared.drop_last(), name)
    }
}

/// The names that come with the library and the tokens they stand for:
/// numbers in base 10, 16, 8 and 2, white space, letters, and letters or
/// digits.
pub open spec fn standard_bindings() -> Seq<(Seq<char>, Token)> {
    seq![
        ("NUM"@, number_token(10)),
        ("HEX"@, number_token(16)),
        ("OCT"@, number_token(8)),
        ("BIN"@, number_token(2)),
        ("WS"@, run_token(Predicate::Whitespace, Parser::Unit)),
        ("ALPHABETIC"@, run_token(Predicate::Alphabetic, Parser::Text)),
        ("ALPHANUMERIC"@, run_token(Predicate::Alphanumeric, Parser::Text)),
    ]
}

} // verus!
