//! The element relation, character classes, and the row of step results.

use crate::value::{Value, ValueView};
use vstd::prelude::*;

verus! {

/// What `char::is_alphabetic` returns for `c`.
pub uninterp spec fn alphabetic(c: char) -> bool;

/// What `char::is_alphanumeric` returns for `c`.
pub uninterp spec fn alphanumeric(c: char) -> bool;

/// What `char::is_whitespace` returns for `c`.
pub uninterp spec fn whitespace(c: char) -> bool;

/// Calls `char::is_alphabetic`, which tests the Unicode property
/// `Alphabetic`. The contract only gives the answer a name.
#[verifier::external_body]
fn is_alphabetic(c: char) -> (yes: bool)
    ensures
        yes == alphabetic(c),
{
    c.is_alphabetic()
}

/// Calls `char::is_alphanumeric`, which tests for a Unicode letter or
/// number. The contract only gives the answer a name.
#[verifier::external_body]
fn is_alphanumeric(c: char) -> (yes: bool)
    ensures
        yes == alphanumeric(c),
{
    c.is_alphanumeric()
}

/// Calls `char::is_whitespace`, which tests the Unicode property
/// `White_Space`. The contract only gives the answer a name.
#[verifier::external_body]
fn is_whitespace(c: char) -> (yes: bool)
    ensures
        yes == whitespace(c),
{
    c.is_whitespace()
}

/// The value of `c` as a digit: `0` to `9` count 0 to 9, and the letters `a`
/// to `z`, in either case, count 10 to 35.
pub open spec fn digit_value(c: char) -> Option<u32> {
    if '0' <= c <= '9' {
        Some((c as u32 - '0' as u32) as u32)
    } else if 'a' <= c <= 'z' {
        Some((c as u32 - 'a' as u32 + 10) as u32)
    } else if 'A' <= c <= 'Z' {
        Some((c as u32 - 'A' as u32 + 10) as u32)
    } else {
        None
    }
}

/// The value of `c` as a digit of the base `radix`, where it is one: its
/// digit value has to be below the base.
pub open spec fn digit_of(c: char, radix: u32) -> Option<u32> {
    match digit_value(c) {
        Some(d) if d < radix => Some(d),
        _ => None,
    }
}

/// Converts a character to a digit of the given base.
pub fn to_digit(c: char, radix: u32) -> (digit: Option<u32>)
    ensures
        digit == digit_of(c, radix),
{
    let n: u32 = c as u32;
    let value: u32 = if 48 <= n && n <= 57 {
        n - 48
    } else if 97 <= n && n <= 122 {
        n - 97 + 10
    } else if 65 <= n && n <= 90 {
        n - 65 + 10
    } else {
        return None;
    };
    if value < radix {
        Some(value)
    } else {
        None
    }
}

/// A pattern element that is a test on the actual element.
#[derive(Clone, Copy, Debug, PartialEq, Eq)]
pub enum Predicate {
    /// A digit of the given base.
    Digit(u32),
    /// A Unicode letter.
    Alphabetic,
    /// A Unicode letter or number.
    Alphanumeric,
    /// Unicode white space.
    Whitespace,
}

/// Decides whether an actual element satisfies a pattern element.
pub trait Satisfies {
    /// The relation itself.
    spec fn accepts(&self, item: char) -> bool;

    fn satisfies(&self, item: &char) -> (ok: bool)
        ensures
            ok == self.accepts(*item),
    ;
}

/// A plain element is satisfied by an equal one.
impl Satisfies for char {
    open spec fn accepts(&self, item: char) -> bool {
        *self == item
    }

    fn satisfies(&self, item: &char) -> (ok: bool) {
        *self == *item
    }
}

/// A predicate is satisfied by the elements on which it holds.
impl Satisfies for Predicate {
    open spec fn accepts(&self, item: char) -> bool {
        match self {
            Predicate::Digit(radix) => digit_of(item, *radix) is Some,
            Predicate::Alphabetic => alphabetic(item),
            Predicate::Alphanumeric => alphanumeric(item),
            Predicate::Whitespace => whitespace(item),
        }
    }

    fn satisfies(&self, item: &char) -> (ok: bool) {
        match self {
            Predicate::Digit(radix) => to_digit(*item, *radix).is_some(),
            Predicate::Alphabetic => is_alphabetic(*item),
            Predicate::Alphanumeric => is_alphanumeric(*item),
            Predicate::Whitespace => is_whitespace(*item),
        }
    }
}

/// Turns the elements that a match consumed into a value.
pub trait Capture {
    /// The runs that `capture` can be called on.
    spec fn takes(&self, consumed: Seq<char>) -> bool;

    /// The value that `capture` makes of a run.
    spec fn captured(&self, consumed: Seq<char>) -> ValueView;

    fn capture(&self, consumed: Vec<char>) -> (value: Value)
        requires
            self.takes(consumed@),
        ensures
            value@ == self.captured(consumed@),
    ;
}

/// The outcome of one step of a match.
#[derive(Debug, PartialEq, Eq)]
pub enum Result<M> {
    /// The step was optional and did not fire.
    Skipped,
    /// The step was mandatory and failed.
    Error,
    /// The step matched and produced a value.
    Matched(M),
}

/// `String::push` appends the given character to the end of the string.
pub assume_specification[ String::push ](s: &mut String, ch: char)
    ensures
        final(s)@ == old(s)@.push(ch),
;

/// The model of a step's outcome: the outcome with the model of its value.
pub open spec fn step_view(step: Result<Value>) -> Result<ValueView> {
    match step {
        Result::Skipped => Result::Skipped,
        Result::Error => Result::Error,
        Result::Matched(value) => Result::Matched(value@),
    }
}

/// The decimal digits of `n`.
pub open spec fn decimal(n: nat) -> Seq<char>
    decreases n,
{
    if n < 10 {
        seq![digit_char(n)]
    } else {
        decimal(n / 10).push(digit_char(n % 10))
    }
}

/// The character for a digit below ten.
pub open spec fn digit_char(d: nat) -> char {
    if d == 0 {
        '0'
    } else if d == 1 {
        '1'
    } else if d == 2 {
        '2'
    } else if d == 3 {
        '3'
    } else if d == 4 {
        '4'
    } else if d == 5 {
        '5'
    } else if d == 6 {
        '6'
    } else if d == 7 {
        '7'
    } else if d == 8 {
        '8'
    } else {
        '9'
    }
}

/// How a value is shown: a number in decimal digits, text between double
/// quotes, a list between square brackets and a pair between parentheses,
/// their members with a comma and a blank between them.
pub open spec fn shown(value: ValueView) -> Seq<char>
    decreases value, 1nat,
{
    match value {
        ValueView::Unit => seq!['(', ')'],
        ValueView::Text(text) => seq!['"'] + text + seq!['"'],
        ValueView::Number(n) => decimal(n as nat),
        ValueView::List(items) => seq!['['] + shown_items(value, items.len()) + seq![']'],
        ValueView::Pair(a, b) => seq!['('] + shown(*a) + seq![',', ' '] + shown(*b) + seq![')'],
    }
}

/// The first `n` members of a list, shown with a comma and a blank between
/// one and the next.
pub open spec fn shown_items(list: ValueView, n: nat) -> Seq<char>
    decreases list, 0nat, n,
{
    if list is List && 0 < n <= list->List_0.len() {
        let before = shown_items(list, (n - 1) as nat);
        let last = shown(list->List_0[n - 1]);
        if n == 1 {
            last
        } else {
            before + seq![',', ' '] + last
        }
    } else {
        Seq::empty()
    }
}

/// How the outcome of a step is shown: a dash for a step that was skipped, a
/// cross for one that failed, and its value for one that matched.
pub open spec fn shown_step(step: Result<ValueView>) -> Seq<char> {
    match step {
        Result::Skipped => seq!['-'],
        Result::Error => seq!['\u{2717}'],
        Result::Matched(value) => shown(value),
    }
}

/// The outcomes of the steps, shown with a comma and a blank between one and
/// the next.
pub open spec fn shown_steps(steps: Seq<Result<ValueView>>) -> Seq<char>
    decreases steps.len(),
{
    if steps.len() == 0 {
        Seq::empty()
    } else {
        let before = shown_steps(steps.drop_last());
        let last = shown_step(steps.last());
        if before.len() == 0 {
            last
        } else {
            before + seq![',', ' '] + last
        }
    }
}

fn push_digit(out: &mut String, d: usize)
    requires
        d < 10,
    ensures
        final(out)@ == old(out)@.push(digit_char(d as nat)),
{
    let c = if d == 0 {
        '0'
    } else if d == 1 {
        '1'
    } else if d == 2 {
        '2'
    } else if d == 3 {
        '3'
    } else if d == 4 {
        '4'
    } else if d == 5 {
        '5'
    } else if d == 6 {
        '6'
    } else if d == 7 {
        '7'
    } else if d == 8 {
        '8'
    } else {
        '9'
    };
    out.push(c);
}

fn push_decimal(out: &mut String, n: usize)
    ensures
        final(out)@ == old(out)@ + decimal(n as nat),
    decreases n,
{
    if n < 10 {
        push_digit(out, n);
        assert(out@ =~= old(out)@ + decimal(n as nat));
    } else {
        push_decimal(out, n / 10);
        push_digit(out, n % 10);
        assert(out@ =~= old(out)@ + decimal(n as nat));
    }
}

fn push_separator(out: &mut String)
    ensures
        final(out)@ == old(out)@ + seq![',', ' '],
{
    out.push(',');
    out.push(' ');
    assert(out@ =~= old(out)@ + seq![',', ' ']);
}

fn push_text(out: &mut String, text: &Vec<char>)
    ensures
        final(out)@ == old(out)@ + text@,
{
    let mut i: usize = 0;
    assert(out@ =~= old(out)@ + text@.take(0));
    while i < text.len()
        invariant
            i <= text.len(),
            out@ == old(out)@ + text@.take(i as int),
        decreases text.len() - i,
    {
        out.push(text[i]);
        assert(old(out)@ + text@.take(i + 1) =~= (old(out)@ + text@.take(i as int)).push(
            text@[i as int],
        ));
        i += 1;
    }
    assert(text@.take(text@.len() as int) =~= text@);
}

fn push_value(out: &mut String, value: &Value)
    ensures
        final(out)@ == old(out)@ + shown(value@),
    decreases value,
{
    match value {
        Value::Unit => {
            out.push('(');
            out.push(')');
            assert(out@ =~= old(out)@ + shown(value@));
        },
        Value::Text(text) => {
            out.push('"');
            push_text(out, text);
            out.push('"');
            assert(out@ =~= old(out)@ + shown(value@));
        },
        Value::Number(n) => {
            push_decimal(out, *n);
        },
        Value::List(items) => {
            out.push('[');
            let mut i: usize = 0;
            assert(out@ =~= old(out)@ + seq!['['] + shown_items(value@, 0));
            while i < items.len()
                invariant
                    value is List,
                    value->List_0 == *items,
                    i <= items.len(),
                    value@->List_0.len() == items@.len(),
                    out@ == old(out)@ + seq!['['] + shown_items(value@, i as nat),
                decreases items.len() - i,
            {
                let ghost before = out@;
                if i > 0 {
                    push_separator(out);
                }
                proof {
                    vstd::std_specs::vec::axiom_vec_index_decreases(*items, i as int);
                    assert(value@->List_0[i as int] == items@[i as int]@);
                }
                push_value(out, &items[i]);
                proof {
                    let shown_before = shown_items(value@, i as nat);
                    let last = shown(items@[i as int]@);
                    if i == 0 {
                        assert(shown_before =~= Seq::<char>::empty());
                        assert(out@ =~= old(out)@ + seq!['['] + last);
                    } else {
                        assert(out@ =~= old(out)@ + seq!['['] + (shown_before + seq![',', ' ']
                            + last));
                    }
                }
                i += 1;
            }
            out.push(']');
            assert(out@ =~= old(out)@ + shown(value@));
        },
        Value::Pair(a, b) => {
            out.push('(');
            push_value(out, a);
            push_separator(out);
            push_value(out, b);
            out.push(')');
            assert(out@ =~= old(out)@ + shown(value@));
        },
    }
}

/// An ordered record of the outcomes of the steps of a match, built by
/// appending one outcome after the other.
#[derive(Debug, PartialEq, Eq)]
pub struct Row {
    steps: Vec<Result<Value>>,
}

/// A list that is taken apart from its most recent element.
pub trait HList: Sized {
    type Head;

    type Tail;

    /// The most recent element.
    fn head(self) -> Self::Head;

    /// The list without its most recent element.
    fn tail(self) -> Self::Tail;
}

/// A row of step outcomes.
pub trait ResultHList: HList {
    /// The outcomes of the steps, oldest first.
    spec fn steps(&self) -> Seq<Result<ValueView>>;

    /// Whether no step failed. A step that was skipped does not count
    /// against the row.
    fn all(&self) -> (yes: bool)
        ensures
            yes == (forall|i: int| 0 <= i < self.steps().len() ==> !(#[trigger] self.steps()[i]
                is Error)),
    ;

    /// Whether one step at least matched.
    fn any(&self) -> (yes: bool)
        ensures
            yes == (exists|i: int| 0 <= i < self.steps().len() && #[trigger] self.steps()[i]
                is Matched),
    ;

    /// The row with the outcome of one more step at its end.
    fn append_opt(self, elem: Result<Value>) -> (row: Self)
        ensures
            row.steps() == self.steps().push(step_view(elem)),
    ;

    /// The outcomes of the steps as text: a dash for a step that was
    /// skipped, a cross for one that failed, the value of one that matched,
    /// with a comma and a blank between one and the next.
    fn format_results(&self) -> (text: String)
        ensures
            text@ == shown_steps(self.steps()),
    ;
}

impl Row {
    /// The row without steps.
    pub fn new() -> (row: Row)
        ensures
            row.steps() == Seq::<Result<ValueView>>::empty(),
    {
        let row = Row { steps: Vec::new() };
        assert(row.steps() =~= Seq::<Result<ValueView>>::empty());
        row
    }

    /// The number of steps.
    pub fn len(&self) -> (n: usize)
        ensures
            n == self.steps().len(),
    {
        self.steps.len()
    }
}

impl HList for Row {
    type Head = Option<Result<Value>>;

    type Tail = Row;

    /// The outcome of the most recent step, or `None` for the row without
    /// steps.
    fn head(self) -> (head: Option<Result<Value>>)
        ensures
            match head {
                Some(step) => self.steps().len() > 0 && step_view(step) == self.steps().last(),
                None => self.steps().len() == 0,
            },
    {
        let mut steps = self.steps;
        steps.pop()
    }

    /// The row without its most recent step. The row without steps is its
    /// own tail.
    fn tail(self) -> (tail: Row)
        ensures
            tail.steps() == if self.steps().len() > 0 {
                self.steps().drop_last()
            } else {
                self.steps()
            },
    {
        let mut steps = self.steps;
        let _ = steps.pop();
        let tail = Row { steps };
        assert(tail.steps() =~= if self.steps().len() > 0 {
            self.steps().drop_last()
        } else {
            self.steps()
        });
        tail
    }
}

impl ResultHList for Row {
    closed spec fn steps(&self) -> Seq<Result<ValueView>> {
        Seq::new(self.steps@.len(), |i: int| step_view(self.steps@[i]))
    }

    fn all(&self) -> (yes: bool) {
        let mut i: usize = 0;
        while i < self.steps.len()
            invariant
                i <= self.steps.len(),
                forall|j: int| 0 <= j < i ==> !(#[trigger] self.steps()[j] is Error),
            decreases self.steps.len() - i,
        {
            match &self.steps[i] {
                Result::Error => {
                    assert(self.steps()[i as int] is Error);
                    return false;
                },
                _ => {},
            }
            i += 1;
        }
        true
    }

    fn any(&self) -> (yes: bool) {
        let mut i: usize = 0;
        while i < self.steps.len()
            invariant
                i <= self.steps.len(),
                forall|j: int| 0 <= j < i ==> !(#[trigger] self.steps()[j] is Matched),
            decreases self.steps.len() - i,
        {
            match &self.steps[i] {
                Result::Matched(_) => {
                    assert(self.steps()[i as int] is Matched);
                    return true;
                },
                _ => {},
            }
            i += 1;
        }
        false
    }

    fn append_opt(self, elem: Result<Value>) -> (row: Row) {
        let mut steps = self.steps;
        steps.push(elem);
        let row = Row { steps };
        assert(row.steps() =~= self.steps().push(step_view(elem)));
        row
    }

    fn format_results(&self) -> (text: String) {
        let mut text = String::new();
        let mut i: usize = 0;
        assert(self.steps().take(0) =~= Seq::<Result<ValueView>>::empty());
        while i < self.steps.len()
            invariant
                i <= self.steps.len(),
                text@ == shown_steps(self.steps().take(i as int)),
            decreases self.steps.len() - i,
        {
            let ghost before = text@;
            proof {
                assert(self.steps().take(i + 1).drop_last() =~= self.steps().take(i as int));
                assert(self.steps().take(i + 1).last() == step_view(self.steps@[i as int]));
            }
            let empty = text.as_str().is_empty();
            if !empty {
                push_separator(&mut text);
            }
            match &self.steps[i] {
                Result::Skipped => {
                    text.push('-');
                },
                Result::Error => {
                    text.push('\u{2717}');
                },
                Result::Matched(value) => {
                    push_value(&mut text, value);
                },
            }
            proof {
                let last = shown_step(step_view(self.steps@[i as int]));
                if empty {
                    assert(before =~= Seq::<char>::empty());
                    assert(text@ =~= last);
                } else {
                    assert(text@ =~= before + seq![',', ' '] + last);
                }
            }
            i += 1;
        }
        assert(self.steps().take(self.steps@.len() as int) =~= self.steps());
        text
    }
}

} // verus!
