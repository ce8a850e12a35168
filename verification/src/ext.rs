//! Ready-made kinds of token: numbers and words.

use crate::exts::{number_of, run_token, Parser, Token};
use crate::utils::{to_digit, Capture, Predicate};
use crate::value::{Value, ValueView};
use vstd::prelude::*;

verus! {

/// Numbers in a given base.
#[derive(Debug, Clone, Copy, PartialEq, Eq)]
pub struct Digit {
    pub radix: u32,
}

impl Digit {
    /// The token that reads such a number: a run of digits of the base.
    pub fn m(&self) -> (token: Token)
        ensures
            token == run_token(Predicate::Digit(self.radix), Parser::Number(self.radix)),
    {
        Token {
            predicate: Predicate::Digit(self.radix),
            parser: Parser::Number(self.radix),
            at_least: self.at_least(),
            skip_leading: None,
        }
    }

    /// The least number of digits in a number.
    pub fn at_least(&self) -> (n: usize)
        ensures
            n == 1,
    {
        1
    }
}

/// The digits of a run make a number, as long as it fits in a `usize`.
/// Characters that are no digits of the base are passed over.
impl Capture for Digit {
    open spec fn takes(&self, consumed: Seq<char>) -> bool {
        number_of(consumed, self.radix) <= usize::MAX
    }

    open spec fn captured(&self, consumed: Seq<char>) -> ValueView {
        ValueView::Number(number_of(consumed, self.radix) as usize)
    }

    fn capture(&self, consumed: Vec<char>) -> (value: Value) {
        let mut number: usize = 0;
        let mut i: usize = 0;
        assert(consumed@.take(0) =~= Seq::<char>::empty());
        while i < consumed.len()
            invariant
                i <= consumed.len(),
                number == number_of(consumed@.take(i as int), self.radix),
                number_of(consumed@, self.radix) <= usize::MAX,
            decreases consumed.len() - i,
        {
            proof {
                assert(consumed@.take(i + 1).drop_last() =~= consumed@.take(i as int));
                assert(consumed@.take(i + 1).last() == consumed@[i as int]);
                lemma_number_grows(consumed@, (i + 1) as nat, self.radix);
            }
            match to_digit(consumed[i], self.radix) {
                Some(d) => {
                    assert(number * self.radix + d <= usize::MAX);
                    assert(number * self.radix <= usize::MAX) by (nonlinear_arith)
                        requires
                            number * self.radix + d <= usize::MAX,
                            d >= 0,
                    ;
                    number = number * (self.radix as usize) + (d as usize);
                },
                None => {},
            }
            i += 1;
        }
        assert(consumed@.take(consumed@.len() as int) =~= consumed@);
        Value::Number(number)
    }
}

/// The number that a prefix writes is no larger than the number that the
/// whole text writes.
pub proof fn lemma_number_grows(text: Seq<char>, n: nat, radix: u32)
    requires
        n <= text.len(),
    ensures
        number_of(text.take(n as int), radix) <= number_of(text, radix),
    decreases text.len() - n,
{
    if n == text.len() {
        assert(text.take(n as int) =~= text);
    } else {
        lemma_number_grows(text, n + 1, radix);
        let longer = text.take((n + 1) as int);
        assert(longer.drop_last() =~= text.take(n as int));
        let init = number_of(text.take(n as int), radix);
        match crate::utils::digit_of(longer.last(), radix) {
            Some(d) => {
                assert(init * (radix as nat) >= init) by (nonlinear_arith)
                    requires
                        radix >= 1,
                        init >= 0,
                ;
            },
            None => {},
        }
    }
}

/// Words: runs of letters and digits.
#[derive(Debug, Clone, Copy, PartialEq, Eq)]
pub struct Words;

impl Words {
    /// The token that reads a word.
    pub fn m(&self) -> (token: Token)
        ensures
            token == run_token(Predicate::Alphanumeric, Parser::Text),
    {
        Token {
            predicate: Predicate::Alphanumeric,
            parser: Parser::Text,
            at_least: self.at_least(),
            skip_leading: None,
        }
    }

    /// The least number of characters in a word.
    pub fn at_least(&self) -> (n: usize)
        ensures
            n == 1,
    {
        1
    }
}

/// A word is captured as its text.
impl Capture for Words {
    open spec fn takes(&self, consumed: Seq<char>) -> bool {
        true
    }

    open spec fn captured(&self, consumed: Seq<char>) -> ValueView {
        ValueView::Text(consumed)
    }

    fn capture(&self, consumed: Vec<char>) -> (value: Value) {
        Value::Text(consumed)
    }
}

} // verus!
