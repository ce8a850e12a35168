//! Lexical tokens: a run of elements that satisfy a predicate, turned into a
//! value by a parser.

use crate::cursor::PeekableExt;
use crate::utils::{digit_of, to_digit, Capture, Predicate, Satisfies};
use crate::value::{Value, ValueView};
use vstd::prelude::*;

verus! {

/// The length of the longest prefix of `s` whose elements all satisfy `p`.
pub open spec fn run_len(p: Predicate, s: Seq<char>) -> nat
    decreases s.len(),
{
    if s.len() > 0 && p.accepts(s[0]) {
        1 + run_len(p, s.skip(1))
    } else {
        0
    }
}

/// A run is a prefix: it is no longer than the sequence, all of its elements
/// satisfy the predicate, and the element after it, if any, does not.
pub proof fn lemma_run_len(p: Predicate, s: Seq<char>)
    ensures
        run_len(p, s) <= s.len(),
        forall|i: int| 0 <= i < run_len(p, s) ==> p.accepts(#[trigger] s[i]),
        run_len(p, s) < s.len() ==> !p.accepts(s[run_len(p, s) as int]),
    decreases s.len(),
{
    if s.len() > 0 && p.accepts(s[0]) {
        lemma_run_len(p, s.skip(1));
        assert forall|i: int| 0 <= i < run_len(p, s) implies p.accepts(#[trigger] s[i]) by {
            if i > 0 {
                assert(s[i] == s.skip(1)[i - 1]);
            }
        }
        if run_len(p, s) < s.len() {
            assert(s[run_len(p, s) as int] == s.skip(1)[run_len(p, s.skip(1)) as int]);
        }
    }
}

/// The number that the digits of `text` write in the base `radix`, most
/// significant digit first. Characters that are no digits of that base are
/// passed over.
pub open spec fn number_of(text: Seq<char>, radix: u32) -> nat
    decreases text.len(),
{
    if text.len() == 0 {
        0
    } else {
        let init = number_of(text.drop_last(), radix);
        match digit_of(text.last(), radix) {
            Some(d) => init * (radix as nat) + (d as nat),
            None => init,
        }
    }
}

/// `number_of`, held at the largest `usize` where it is beyond it.
pub open spec fn saturated_number_of(text: Seq<char>, radix: u32) -> usize {
    if number_of(text, radix) > usize::MAX {
        usize::MAX
    } else {
        number_of(text, radix) as usize
    }
}

/// Whether `ch` is a digit of the base `radix`.
pub fn pred_num(ch: &char, radix: u32) -> (yes: bool)
    ensures
        yes == Predicate::Digit(radix).accepts(*ch),
{
    to_digit(*ch, radix).is_some()
}

/// Reads the digits of `v` as a number in the base `radix`. The result
/// saturates at the largest `usize`.
pub fn parse_num(v: Vec<char>, radix: u32) -> (n: usize)
    ensures
        n == saturated_number_of(v@, radix),
{
    let mut acc: usize = 0;
    let mut i: usize = 0;
    assert(v@.take(0) =~= Seq::<char>::empty());
    while i < v.len()
        invariant
            i <= v.len(),
            acc == saturated_number_of(v@.take(i as int), radix),
        decreases v.len() - i,
    {
        let ghost before = number_of(v@.take(i as int), radix);
        proof {
            assert(v@.take(i + 1).drop_last() =~= v@.take(i as int));
            assert(v@.take(i + 1).last() == v@[i as int]);
        }
        match to_digit(v[i], radix) {
            Some(d) => {
                let scaled = match acc.checked_mul(radix as usize) {
                    Some(m) => m,
                    None => usize::MAX,
                };
                proof {
                    let r = radix as int;
                    let b = before as int;
                    assert(number_of(v@.take(i + 1), radix) == b * r + d);
                    assert(d < radix);
                    if before > usize::MAX {
                        assert(b * r >= b) by (nonlinear_arith)
                            requires
                                r >= 1,
                                b >= 0,
                        ;
                        assert((acc as int) * r >= acc as int) by (nonlinear_arith)
                            requires
                                r >= 1,
                                acc >= 0,
                        ;
                    } else {
                        assert(acc as int == b);
                        assert((acc as int) * r == b * r);
                    }
                }
                acc = scaled.saturating_add(d as usize);
            },
            None => {},
        }
        i += 1;
    }
    assert(v@.take(v@.len() as int) =~= v@);
    acc
}

/// How a token turns the run it consumed into a value.
#[derive(Clone, Copy, Debug, PartialEq, Eq)]
pub enum Parser {
    /// The number that the run writes in the given base, saturating.
    Number(u32),
    /// The run itself, as text.
    Text,
    /// Nothing: the run is only skipped over.
    Unit,
}

impl Capture for Parser {
    open spec fn takes(&self, consumed: Seq<char>) -> bool {
        true
    }

    open spec fn captured(&self, consumed: Seq<char>) -> ValueView {
        match self {
            Parser::Number(radix) => ValueView::Number(saturated_number_of(consumed, *radix)),
            Parser::Text => ValueView::Text(consumed),
            Parser::Unit => ValueView::Unit,
        }
    }

    fn capture(&self, consumed: Vec<char>) -> (value: Value) {
        match self {
            Parser::Number(radix) => Value::Number(parse_num(consumed, *radix)),
            Parser::Text => Value::Text(consumed),
            Parser::Unit => Value::Unit,
        }
    }
}

/// A lexical token: the longest run of elements that satisfy `predicate`, at
/// least `at_least` of them, after any leading elements that satisfy
/// `skip_leading`.
#[derive(Clone, Copy, Debug, PartialEq, Eq)]
pub struct Token {
    pub predicate: Predicate,
    pub parser: Parser,
    pub at_least: usize,
    pub skip_leading: Option<Predicate>,
}

/// The token for a run of one element or more that satisfy `predicate`,
/// with nothing skipped before it.
pub open spec fn run_token(predicate: Predicate, parser: Parser) -> Token {
    Token { predicate, parser, at_least: 1, skip_leading: None }
}

/// The token for a numeric literal in the base `radix`.
pub open spec fn number_token(radix: u32) -> Token {
    run_token(Predicate::Digit(radix), Parser::Number(radix))
}

/// A numeric literal in the base `radix`: one digit or more.
pub fn make_num(radix: u32) -> (token: Token)
    ensures
        token == number_token(radix),
{
    Token {
        predicate: Predicate::Digit(radix),
        parser: Parser::Number(radix),
        at_least: 1,
        skip_leading: None,
    }
}

/// Decimal numbers.
pub fn num() -> (token: Token)
    ensures
        token == number_token(10),
{
    make_num(10)
}

/// Hexadecimal numbers.
pub fn hex() -> (token: Token)
    ensures
        token == number_token(16),
{
    make_num(16)
}

/// Octal numbers.
pub fn oct() -> (token: Token)
    ensures
        token == number_token(8),
{
    make_num(8)
}

/// Binary numbers.
pub fn bin() -> (token: Token)
    ensures
        token == number_token(2),
{
    make_num(2)
}

/// A run of white space, which is skipped over.
pub fn ws() -> (token: Token)
    ensures
        token == run_token(Predicate::Whitespace, Parser::Unit),
{
    Token { predicate: Predicate::Whitespace, parser: Parser::Unit, at_least: 1, skip_leading: None }
}

/// A run of letters, as text.
pub fn alphabetic() -> (token: Token)
    ensures
        token == run_token(Predicate::Alphabetic, Parser::Text),
{
    Token { predicate: Predicate::Alphabetic, parser: Parser::Text, at_least: 1, skip_leading: None }
}

/// A run of letters and digits, as text.
pub fn alphanumeric() -> (token: Token)
    ensures
        token == run_token(Predicate::Alphanumeric, Parser::Text),
{
    Token {
        predicate: Predicate::Alphanumeric,
        parser: Parser::Text,
        at_least: 1,
        skip_leading: None,
    }
}

/// Takes the longest run of elements that satisfy `p` off the cursor and
/// returns it.
pub fn take_run<R: PeekableExt>(p: &Predicate, cursor: &mut R) -> (run: Vec<char>)
    requires
        old(cursor).wf(),
    ensures
        final(cursor).wf(),
        run@.len() == run_len(*p, old(cursor).remaining()),
        run@ == old(cursor).remaining().take(run@.len() as int),
        final(cursor).remaining() == old(cursor).remaining().skip(run@.len() as int),
{
    let mut run: Vec<char> = Vec::new();
    let ghost s = cursor.remaining();
    proof {
        cursor.lemma_bounded();
        assert(s.skip(0) =~= s);
        assert(s.take(0) =~= Seq::<char>::empty());
    }
    loop
        invariant
            cursor.wf(),
            s == old(cursor).remaining(),
            run@.len() <= s.len(),
            run@ == s.take(run@.len() as int),
            cursor.remaining() == s.skip(run@.len() as int),
            run_len(*p, s) == run@.len() + run_len(*p, cursor.remaining()),
        ensures
            cursor.wf(),
            run@.len() <= s.len(),
            run@ == s.take(run@.len() as int),
            cursor.remaining() == s.skip(run@.len() as int),
            run_len(*p, s) == run@.len(),
        decreases cursor.remaining().len(),
    {
        let ghost k = run@.len() as int;
        match cursor.peek() {
            Some(c) => {
                if p.satisfies(&c) {
                    let _ = cursor.next();
                    run.push(c);
                    proof {
                        assert(s.skip(k).skip(1) =~= s.skip(k + 1));
                        assert(s.take(k + 1) =~= s.take(k).push(s[k]));
                    }
                } else {
                    break ;
                }
            },
            None => {
                break ;
            },
        }
    }
    run
}

impl Token {
    /// The number of leading elements of `s` that the token skips.
    pub open spec fn skipped(&self, s: Seq<char>) -> nat {
        match self.skip_leading {
            Some(skip) => run_len(skip, s),
            None => 0,
        }
    }

    /// The run that the token reads from `s`, after what it skips.
    pub open spec fn lexeme(&self, s: Seq<char>) -> Seq<char> {
        let rest = s.skip(self.skipped(s) as int);
        rest.take(run_len(self.predicate, rest) as int)
    }

    /// Whether the token matches at the start of `s`: its run is long enough.
    pub open spec fn matched(&self, s: Seq<char>) -> bool {
        self.lexeme(s).len() >= self.at_least
    }

    /// The number of elements of `s` that a match consumes.
    pub open spec fn span(&self, s: Seq<char>) -> nat {
        self.skipped(s) + self.lexeme(s).len()
    }

    /// The value that a match on `s` produces.
    pub open spec fn value(&self, s: Seq<char>) -> ValueView {
        self.parser.captured(self.lexeme(s))
    }

    /// A match stays within the sequence.
    pub proof fn lemma_span(&self, s: Seq<char>)
        ensures
            self.span(s) <= s.len(),
            self.lexeme(s).len() == run_len(self.predicate, s.skip(self.skipped(s) as int)),
    {
        match self.skip_leading {
            Some(skip) => {
                lemma_run_len(skip, s);
            },
            None => {},
        }
        lemma_run_len(self.predicate, s.skip(self.skipped(s) as int));
    }

    /// Matches the token at the cursor. On success the cursor stands behind
    /// the run and `dest` is the parsed value; on failure nothing changes.
    pub fn consume_with_dest<R: PeekableExt>(&self, cursor: &mut R, dest: &mut Value) -> (ok: bool)
        requires
            old(cursor).wf(),
        ensures
            final(cursor).wf(),
            ok == self.matched(old(cursor).remaining()),
            ok ==> final(cursor).remaining() == old(cursor).remaining().skip(
                self.span(old(cursor).remaining()) as int,
            ),
            ok ==> final(dest)@ == self.value(old(cursor).remaining()),
            !ok ==> final(cursor).remaining() == old(cursor).remaining(),
            !ok ==> *final(dest) == *old(dest),
    {
        let ghost s = cursor.remaining();
        let mut trial = cursor.snapshot();
        proof {
            self.lemma_span(s);
            assert(s.skip(0) =~= s);
        }
        match &self.skip_leading {
            Some(skip) => {
                let _ = take_run(skip, &mut trial);
            },
            None => {},
        }
        let run = take_run(&self.predicate, &mut trial);
        if run.len() < self.at_least {
            return false;
        }
        proof {
            let k = self.skipped(s) as int;
            assert(s.skip(k).skip(run@.len() as int) =~= s.skip(k + run@.len()));
        }
        cursor.restore(trial);
        *dest = self.parser.capture(run);
        true
    }
}

} // verus!
