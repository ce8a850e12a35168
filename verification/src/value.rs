//! Captured values and the sinks that absorb matched elements.

use vstd::prelude::*;

verus! {

/// What a destination holds: nothing, matched text, a parsed number, a list of
/// further values, or a pair of sinks that are fed side by side.
#[derive(Debug, PartialEq, Eq)]
pub enum Value {
    Unit,
    Text(Vec<char>),
    Number(usize),
    List(Vec<Value>),
    Pair(Box<Value>, Box<Value>),
}

/// The mathematical model of a [`Value`].
pub enum ValueView {
    Unit,
    Text(Seq<char>),
    Number(usize),
    List(Seq<ValueView>),
    Pair(Box<ValueView>, Box<ValueView>),
}

impl ValueView {
    /// The sink after it has picked up the characters of `text` in order:
    /// text grows, both halves of a pair are fed, anything else ignores them.
    pub open spec fn absorb(self, text: Seq<char>) -> ValueView
        decreases self,
    {
        match self {
            ValueView::Text(t) => ValueView::Text(t + text),
            ValueView::Pair(a, b) => ValueView::Pair(
                Box::new(a.absorb(text)),
                Box::new(b.absorb(text)),
            ),
            _ => self,
        }
    }

    /// The sink after `items` arrived as further elements: a list takes them
    /// at its end, anything else ignores them.
    pub open spec fn extend(self, items: Seq<ValueView>) -> ValueView {
        match self {
            ValueView::List(l) => ValueView::List(l + items),
            _ => self,
        }
    }

    /// The collector rule: a list takes `captured` as its next element, any
    /// other sink is overwritten by it.
    pub open spec fn commit(self, captured: ValueView) -> ValueView {
        match self {
            ValueView::List(l) => ValueView::List(l.push(captured)),
            _ => captured,
        }
    }
}

/// The models of a sequence of values, element by element.
pub open spec fn views_of(items: Seq<Value>) -> Seq<ValueView> {
    Seq::new(items.len(), |i: int| items[i]@)
}

impl View for Value {
    type V = ValueView;

    open spec fn view(&self) -> ValueView {
        self.model()
    }
}

impl Value {
    /// The model of this value, defined by recursion on its structure.
    pub open spec fn model(&self) -> ValueView
        decreases self,
    {
        match self {
            Value::Unit => ValueView::Unit,
            Value::Text(t) => ValueView::Text(t@),
            Value::Number(n) => ValueView::Number(*n),
            Value::List(items) => ValueView::List(
                Seq::new(
                    items.len() as nat,
                    |i: int|
                        if 0 <= i < items.len() {
                            items[i].model()
                        } else {
                            ValueView::Unit
                        },
                ),
            ),
            Value::Pair(a, b) => ValueView::Pair(Box::new(a.model()), Box::new(b.model())),
        }
    }

    /// The model of a list is the list of its elements' models.
    pub proof fn lemma_list_view(items: Vec<Value>)
        ensures
            Value::List(items)@ == ValueView::List(views_of(items@)),
    {
        assert(Value::List(items)@->List_0 =~= views_of(items@));
    }

    /// Appends every value of `items` to a list; any other sink stays as it is.
    pub fn extend(&mut self, items: Vec<Value>)
        ensures
            final(self)@ == old(self)@.extend(views_of(items@)),
    {
        let mut items = items;
        match self {
            Value::List(l) => {
                let ghost before = l@;
                let ghost added = items@;
                l.append(&mut items);
                proof {
                    Value::lemma_list_view(*l);
                    assert(views_of(l@) =~= views_of(before) + views_of(added));
                    assert(old(self)@->List_0 =~= views_of(before));
                }
            },
            _ => {},
        }
    }

    /// Feeds every character of `text` to the sink, in order.
    pub fn pickup_all(&mut self, text: &Vec<char>)
        ensures
            final(self)@ == old(self)@.absorb(text@),
    {
        let mut i: usize = 0;
        proof {
            lemma_absorb_nothing(self@);
            assert(text@.take(0) =~= Seq::<char>::empty());
        }
        while i < text.len()
            invariant
                i <= text.len(),
                self@ == old(self)@.absorb(text@.take(i as int)),
            decreases text.len() - i,
        {
            self.pickup(text[i]);
            proof {
                lemma_absorb_twice(old(self)@, text@.take(i as int), seq![text@[i as int]]);
                assert(text@.take(i + 1) =~= text@.take(i as int) + seq![text@[i as int]]);
            }
            i += 1;
        }
        assert(text@.take(text@.len() as int) =~= text@);
    }
}

/// Absorbing no characters changes nothing.
pub proof fn lemma_absorb_nothing(d: ValueView)
    ensures
        d.absorb(Seq::empty()) == d,
    decreases d,
{
    match d {
        ValueView::Text(t) => {
            assert(t + Seq::<char>::empty() =~= t);
        },
        ValueView::Pair(a, b) => {
            lemma_absorb_nothing(*a);
            lemma_absorb_nothing(*b);
        },
        _ => {},
    }
}

/// Absorbing `first` and then `second` is absorbing their concatenation.
pub proof fn lemma_absorb_twice(d: ValueView, first: Seq<char>, second: Seq<char>)
    ensures
        d.absorb(first).absorb(second) == d.absorb(first + second),
    decreases d,
{
    match d {
        ValueView::Text(t) => {
            assert((t + first) + second =~= t + (first + second));
        },
        ValueView::Pair(a, b) => {
            lemma_absorb_twice(*a, first, second);
            lemma_absorb_twice(*b, first, second);
        },
        _ => {},
    }
}

impl Clone for Value {
    /// A deep copy: the clone has the same model.
    fn clone(&self) -> (copy: Value)
        ensures
            copy@ == self@,
        decreases self,
    {
        match self {
            Value::Unit => Value::Unit,
            Value::Text(t) => Value::Text(t.clone()),
            Value::Number(n) => Value::Number(*n),
            Value::List(items) => {
                let mut out: Vec<Value> = Vec::new();
                let mut i: usize = 0;
                while i < items.len()
                    invariant
                        self is List,
                        self->List_0 == *items,
                        i <= items.len(),
                        out.len() == i,
                        forall|j: int| 0 <= j < i ==> out[j]@ == items[j]@,
                    decreases items.len() - i,
                {
                    proof {
                        vstd::std_specs::vec::axiom_vec_index_decreases(*items, i as int);
                    }
                    out.push(items[i].clone());
                    i += 1;
                }
                let copy = Value::List(out);
                assert(copy@->List_0 =~= self@->List_0);
                copy
            },
            Value::Pair(a, b) => Value::Pair(Box::new((**a).clone()), Box::new((**b).clone())),
        }
    }
}

impl Default for Value {
    /// The value that holds nothing.
    fn default() -> (value: Value)
        ensures
            value@ == ValueView::Unit,
    {
        Value::Unit
    }
}

/// A sink for matched elements.
pub trait Destination: Sized {
    /// How the sink `after` relates to the sink `before` once `item` was
    /// picked up.
    spec fn picks_up(before: Self, item: char, after: Self) -> bool;

    /// Absorbs one matched element.
    fn pickup(&mut self, item: char)
        ensures
            Self::picks_up(*old(self), item, *final(self)),
    ;
}

impl Destination for Value {
    open spec fn picks_up(before: Value, item: char, after: Value) -> bool {
        after@ == before@.absorb(seq![item])
    }

    fn pickup(&mut self, item: char)
        decreases *old(self),
    {
        match self {
            Value::Text(t) => {
                t.push(item);
                assert(t@ =~= old(self)->Text_0@ + seq![item]);
            },
            Value::Pair(a, b) => {
                a.pickup(item);
                b.pickup(item);
            },
            _ => {},
        }
    }
}

/// A destination into which a captured value is merged.
pub trait Collector: Sized {
    /// How the destination `after` relates to `before` once `captured` was
    /// committed to it.
    spec fn collects(before: Self, captured: ValueView, after: Self) -> bool;

    /// Merges a captured value into the destination.
    fn commit(&mut self, captured: Value)
        ensures
            Self::collects(*old(self), captured@, *final(self)),
    ;
}

/// A sequence destination: the captured value becomes its next element.
impl Collector for Vec<Value> {
    open spec fn collects(before: Vec<Value>, captured: ValueView, after: Vec<Value>) -> bool {
        views_of(after@) == views_of(before@).push(captured)
    }

    fn commit(&mut self, captured: Value) {
        self.push(captured);
        assert(views_of(self@) =~= views_of(old(self)@).push(captured@));
    }
}

/// The shape of the destination selects the rule: a list appends, every other
/// value is overwritten.
impl Collector for Value {
    open spec fn collects(before: Value, captured: ValueView, after: Value) -> bool {
        after@ == before@.commit(captured)
    }

    fn commit(&mut self, captured: Value) {
        match self {
            Value::List(l) => {
                proof {
                    Value::lemma_list_view(*l);
                }
                l.commit(captured);
                proof {
                    Value::lemma_list_view(*l);
                }
            },
            _ => {
                *self = captured;
            },
        }
    }
}

} // verus!
