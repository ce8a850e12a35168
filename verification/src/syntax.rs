//! The textual syntax of patterns: from source text to lexemes, from lexemes
//! to a syntax tree, and from the syntax tree to a pattern.

use crate::base::{Or, Pattern, PatternView, Sep, Sep1, SepView, Sequence, To};
use crate::cursor::chars_of;
use crate::dest::Context;
use vstd::prelude::*;
use vstd::string::StrSliceExecFns;

verus! {

/// Why a source text is no pattern.
#[derive(Clone, Copy, Debug, PartialEq, Eq)]
pub enum ErrorKind {
    /// A character that starts no lexeme.
    UnexpectedCharacter,
    /// A literal without its closing quote.
    UnterminatedLiteral,
    /// A lexeme that cannot stand where it stands.
    UnexpectedToken,
    /// The text ends where a lexeme has to follow.
    MissingToken,
    /// A group that is opened and never closed.
    UnclosedGroup,
    /// A bracketed separator that neither `+` nor `*` follows.
    MissingQuantifier,
}

/// An error of the compiler, with the position in the source text, counted
/// in characters, at which it was found.
#[derive(Clone, Copy, Debug, PartialEq, Eq)]
pub struct CompileError {
    pub kind: ErrorKind,
    pub position: usize,
}

/// The punctuation of the syntax.
#[derive(Clone, Copy, Debug, PartialEq, Eq, Structural)]
pub enum Mark {
    Comma,
    Slash,
    Plus,
    Star,
    At,
    OpenParen,
    CloseParen,
    OpenBracket,
    CloseBracket,
}

/// What a lexeme says.
#[derive(Debug, PartialEq, Eq)]
pub enum Word {
    Mark(Mark),
    /// A literal, with its escapes resolved.
    Lit(Vec<char>),
    /// An identifier.
    Ident(String),
}

/// A lexeme and the position of its first character in the source text.
#[derive(Debug, PartialEq, Eq)]
pub struct Lexeme {
    pub word: Word,
    pub at: usize,
}

/// The mathematical model of a [`Word`].
pub enum WordView {
    Mark(Mark),
    Lit(Seq<char>),
    Ident(Seq<char>),
}

/// The mathematical model of a [`Lexeme`].
pub struct LexemeView {
    pub word: WordView,
    pub at: usize,
}

impl View for Word {
    type V = WordView;

    open spec fn view(&self) -> WordView {
        match self {
            Word::Mark(mark) => WordView::Mark(*mark),
            Word::Lit(value) => WordView::Lit(value@),
            Word::Ident(name) => WordView::Ident(name@),
        }
    }
}

impl View for Lexeme {
    type V = LexemeView;

    open spec fn view(&self) -> LexemeView {
        LexemeView { word: self.word@, at: self.at }
    }
}

/// The models of a sequence of lexemes, element by element.
pub open spec fn lexemes_of(items: Seq<Lexeme>) -> Seq<LexemeView> {
    Seq::new(items.len(), |i: int| items[i]@)
}

/// Whether `c` separates lexemes without being one.
pub open spec fn is_blank(c: char) -> bool {
    c == ' ' || c == '\t' || c == '\n' || c == '\r'
}

/// The punctuation mark that `c` is, if it is one.
pub open spec fn mark_of(c: char) -> Option<Mark> {
    if c == ',' {
        Some(Mark::Comma)
    } else if c == '/' {
        Some(Mark::Slash)
    } else if c == '+' {
        Some(Mark::Plus)
    } else if c == '*' {
        Some(Mark::Star)
    } else if c == '@' {
        Some(Mark::At)
    } else if c == '(' {
        Some(Mark::OpenParen)
    } else if c == ')' {
        Some(Mark::CloseParen)
    } else if c == '[' {
        Some(Mark::OpenBracket)
    } else if c == ']' {
        Some(Mark::CloseBracket)
    } else {
        None
    }
}

/// Whether an identifier can start with `c`.
pub open spec fn starts_name(c: char) -> bool {
    ('a' <= c <= 'z') || ('A' <= c <= 'Z') || c == '_'
}

/// Whether an identifier can go on with `c`.
pub open spec fn continues_name(c: char) -> bool {
    starts_name(c) || ('0' <= c <= '9')
}

/// The number of characters from position `i` on with which an identifier
/// goes on.
pub open spec fn name_len(text: Seq<char>, i: nat) -> nat
    decreases text.len() - i,
{
    if i < text.len() && continues_name(text[i as int]) {
        1 + name_len(text, i + 1)
    } else {
        0
    }
}

/// The character that stands behind a backslash for itself, or for the
/// control character that it abbreviates.
pub open spec fn escaped(c: char) -> char {
    if c == 'n' {
        '\n'
    } else if c == 't' {
        '\t'
    } else if c == 'r' {
        '\r'
    } else if c == '0' {
        '\0'
    } else {
        c
    }
}

/// The rest of a literal, read from position `i` behind its opening quote:
/// what it stands for, and the number of characters up to and with the
/// closing quote. `None` if the text ends before the literal does.
pub open spec fn literal(text: Seq<char>, i: nat) -> Option<(Seq<char>, nat)>
    decreases text.len() - i,
{
    if i >= text.len() {
        None
    } else if text[i as int] == '"' {
        Some((Seq::empty(), 1))
    } else if text[i as int] == '\\' {
        if i + 1 < text.len() {
            match literal(text, i + 2) {
                Some((rest, used)) => Some((seq![escaped(text[(i + 1) as int])] + rest, used + 2)),
                None => None,
            }
        } else {
            None
        }
    } else {
        match literal(text, i + 1) {
            Some((rest, used)) => Some((seq![text[i as int]] + rest, used + 1)),
            None => None,
        }
    }
}

/// The lexeme `first`, followed by what the rest of the text gave.
pub open spec fn then_more(
    first: LexemeView,
    more: Result<Seq<LexemeView>, CompileError>,
) -> Result<Seq<LexemeView>, CompileError> {
    match more {
        Ok(rest) => Ok(seq![first] + rest),
        Err(e) => Err(e),
    }
}

/// The lexemes of `text` from position `i` on.
pub open spec fn lexed_from(text: Seq<char>, i: nat) -> Result<Seq<LexemeView>, CompileError>
    decreases text.len() - i,
{
    if i >= text.len() {
        Ok(Seq::empty())
    } else {
        let c = text[i as int];
        if is_blank(c) {
            lexed_from(text, i + 1)
        } else if mark_of(c) is Some {
            then_more(
                LexemeView { word: WordView::Mark(mark_of(c)->0), at: i as usize },
                lexed_from(text, i + 1),
            )
        } else if c == '"' {
            match literal(text, i + 1) {
                Some((value, used)) if i + 1 + used <= text.len() => then_more(
                    LexemeView { word: WordView::Lit(value), at: i as usize },
                    lexed_from(text, i + 1 + used),
                ),
                _ => Err(
                    CompileError { kind: ErrorKind::UnterminatedLiteral, position: i as usize },
                ),
            }
        } else if starts_name(c) {
            let end = i + 1 + name_len(text, i + 1);
            then_more(
                LexemeView {
                    word: WordView::Ident(text.subrange(i as int, end as int)),
                    at: i as usize,
                },
                if end <= text.len() {
                    lexed_from(text, end)
                } else {
                    Ok(Seq::empty())
                },
            )
        } else {
            Err(CompileError { kind: ErrorKind::UnexpectedCharacter, position: i as usize })
        }
    }
}

/// The lexemes of `text`: punctuation marks, literals in double quotes and
/// identifiers, with blanks between them as one likes.
pub open spec fn lexed(text: Seq<char>) -> Result<Seq<LexemeView>, CompileError> {
    lexed_from(text, 0)
}

/// A literal ends within the text.
pub proof fn lemma_literal_within(text: Seq<char>, i: nat)
    ensures
        literal(text, i) matches Some((_, used)) ==> 0 < used && i + used <= text.len(),
    decreases text.len() - i,
{
    if i < text.len() && text[i as int] != '"' {
        if text[i as int] == '\\' {
            if i + 1 < text.len() {
                lemma_literal_within(text, i + 2);
            }
        } else {
            lemma_literal_within(text, i + 1);
        }
    }
}

/// A name ends within the text.
pub proof fn lemma_name_within(text: Seq<char>, i: nat)
    requires
        i <= text.len(),
    ensures
        i + name_len(text, i) <= text.len(),
    decreases text.len() - i,
{
    if i < text.len() && continues_name(text[i as int]) {
        lemma_name_within(text, i + 1);
    }
}

fn mark(c: char) -> (m: Option<Mark>)
    ensures
        m == mark_of(c),
{
    if c == ',' {
        Some(Mark::Comma)
    } else if c == '/' {
        Some(Mark::Slash)
    } else if c == '+' {
        Some(Mark::Plus)
    } else if c == '*' {
        Some(Mark::Star)
    } else if c == '@' {
        Some(Mark::At)
    } else if c == '(' {
        Some(Mark::OpenParen)
    } else if c == ')' {
        Some(Mark::CloseParen)
    } else if c == '[' {
        Some(Mark::OpenBracket)
    } else if c == ']' {
        Some(Mark::CloseBracket)
    } else {
        None
    }
}

fn blank(c: char) -> (yes: bool)
    ensures
        yes == is_blank(c),
{
    c == ' ' || c == '\t' || c == '\n' || c == '\r'
}

fn name_start(c: char) -> (yes: bool)
    ensures
        yes == starts_name(c),
{
    ('a' <= c && c <= 'z') || ('A' <= c && c <= 'Z') || c == '_'
}

fn name_part(c: char) -> (yes: bool)
    ensures
        yes == continues_name(c),
{
    name_start(c) || ('0' <= c && c <= '9')
}

fn unescape(c: char) -> (r: char)
    ensures
        r == escaped(c),
{
    if c == 'n' {
        '\n'
    } else if c == 't' {
        '\t'
    } else if c == 'r' {
        '\r'
    } else if c == '0' {
        '\0'
    } else {
        c
    }
}

/// Reads the rest of a literal from position `from`, behind its opening
/// quote. Returns what the literal stands for and the position behind its
/// closing quote.
fn read_literal(text: &Vec<char>, from: usize) -> (r: Option<(Vec<char>, usize)>)
    requires
        from <= text.len(),
    ensures
        match literal(text@, from as nat) {
            Some((value, used)) => r matches Some((v, end)) && v@ == value && end == from + used
                && end <= text.len(),
            None => r is None,
        },
{
    let mut value: Vec<char> = Vec::new();
    let mut i: usize = from;
    loop
        invariant
            from <= i <= text.len(),
            match literal(text@, i as nat) {
                Some((rest, used)) => literal(text@, from as nat) == Some(
                    (value@ + rest, (i - from + used) as nat),
                ),
                None => literal(text@, from as nat) is None,
            },
        decreases text.len() - i,
    {
        proof {
            assert(value@ + Seq::<char>::empty() =~= value@);
            lemma_literal_within(text@, from as nat);
        }
        if i >= text.len() {
            return None;
        }
        let c = text[i];
        if c == '"' {
            return Some((value, i + 1));
        }
        if c == '\\' {
            if i + 1 >= text.len() {
                return None;
            }
            let ghost before = value@;
            value.push(unescape(text[i + 1]));
            proof {
                match literal(text@, (i + 2) as nat) {
                    Some((rest, used)) => {
                        assert(before + (seq![escaped(text@[i + 1])] + rest) =~= value@ + rest);
                    },
                    None => {},
                }
            }
            i += 2;
        } else {
            let ghost before = value@;
            value.push(c);
            proof {
                match literal(text@, (i + 1) as nat) {
                    Some((rest, used)) => {
                        assert(before + (seq![c] + rest) =~= value@ + rest);
                    },
                    None => {},
                }
            }
            i += 1;
        }
    }
}

/// Splits a source text into lexemes.
pub fn lex(source: &str) -> (r: Result<Vec<Lexeme>, CompileError>)
    ensures
        match lexed(source@) {
            Ok(lexemes) => r matches Ok(v) && lexemes_of(v@) == lexemes,
            Err(e) => r == Err::<Vec<Lexeme>, CompileError>(e),
        },
{
    let text = chars_of(source);
    let mut lexemes: Vec<Lexeme> = Vec::new();
    let mut i: usize = 0;
    proof {
        assert(lexemes_of(lexemes@) =~= Seq::<LexemeView>::empty());
    }
    while i < text.len()
        invariant
            i <= text.len(),
            text@ == source@,
            match lexed_from(text@, i as nat) {
                Ok(rest) => lexed(text@) == Ok::<Seq<LexemeView>, CompileError>(
                    lexemes_of(lexemes@) + rest,
                ),
                Err(e) => lexed(text@) == Err::<Seq<LexemeView>, CompileError>(e),
            },
        decreases text.len() - i,
    {
        let c = text[i];
        let ghost before = lexemes_of(lexemes@);
        if blank(c) {
            i += 1;
        } else if let Some(m) = mark(c) {
            lexemes.push(Lexeme { word: Word::Mark(m), at: i });
            proof {
                let first = LexemeView { word: WordView::Mark(m), at: i };
                assert(lexemes_of(lexemes@) =~= before.push(first));
                match lexed_from(text@, (i + 1) as nat) {
                    Ok(rest) => {
                        assert(before + (seq![first] + rest) =~= before.push(first) + rest);
                    },
                    Err(e) => {},
                }
            }
            i += 1;
        } else if c == '"' {
            match read_literal(&text, i + 1) {
                Some((value, end)) => {
                    proof {
                        let first = LexemeView { word: WordView::Lit(value@), at: i };
                        match lexed_from(text@, end as nat) {
                            Ok(rest) => {
                                assert(before + (seq![first] + rest) =~= before.push(first)
                                    + rest);
                            },
                            Err(e) => {},
                        }
                    }
                    lexemes.push(Lexeme { word: Word::Lit(value), at: i });
                    proof {
                        assert(lexemes_of(lexemes@) =~= before.push(lexemes@.last()@));
                    }
                    i = end;
                },
                None => {
                    return Err(CompileError { kind: ErrorKind::UnterminatedLiteral, position: i });
                },
            }
        } else if name_start(c) {
            let mut end: usize = i + 1;
            proof {
                lemma_name_within(text@, (i + 1) as nat);
            }
            while end < text.len() && name_part(text[end])
                invariant
                    i < end <= text.len(),
                    (i + 1) as nat + name_len(text@, (i + 1) as nat) == end + name_len(
                        text@,
                        end as nat,
                    ),
                decreases text.len() - end,
            {
                end += 1;
            }
            let name = String::from_str(source.substring_char(i, end));
            proof {
                let first = LexemeView { word: WordView::Ident(name@), at: i };
                match lexed_from(text@, end as nat) {
                    Ok(rest) => {
                        assert(before + (seq![first] + rest) =~= before.push(first) + rest);
                    },
                    Err(e) => {},
                }
            }
            lexemes.push(Lexeme { word: Word::Ident(name), at: i });
            proof {
                assert(lexemes_of(lexemes@) =~= before.push(lexemes@.last()@));
            }
            i = end;
        } else {
            return Err(CompileError { kind: ErrorKind::UnexpectedCharacter, position: i });
        }
    }
    proof {
        assert(lexemes_of(lexemes@) + Seq::<LexemeView>::empty() =~= lexemes_of(lexemes@));
    }
    Ok(lexemes)
}

/// A pattern as it is written: the syntax tree of a source text.
#[derive(Debug, PartialEq, Eq)]
pub enum PatternExpr {
    /// A literal, with its escapes resolved.
    Lit(Vec<char>),
    /// An identifier.
    Ident(String),
    /// Two or more expressions with commas between them.
    Tuple(Vec<PatternExpr>),
    /// Two or more expressions with slashes between them.
    Or(Vec<PatternExpr>),
    /// An expression with `+` behind it.
    Many(Box<PatternExpr>),
    /// An expression with `*` behind it.
    Any(Box<PatternExpr>),
    /// An element, a bracketed separator and `+`.
    Sep(Box<PatternExpr>, Box<PatternExpr>),
    /// An element, a bracketed separator and `*`.
    Sep1(Box<PatternExpr>, Box<PatternExpr>),
    /// A name, `@` and an expression.
    To(String, Box<PatternExpr>),
}

/// The mathematical model of a [`PatternExpr`].
pub enum ExprView {
    Lit(Seq<char>),
    Ident(Seq<char>),
    Tuple(Seq<ExprView>),
    Or(Seq<ExprView>),
    Many(Box<ExprView>),
    Any(Box<ExprView>),
    Sep(Box<ExprView>, Box<ExprView>),
    Sep1(Box<ExprView>, Box<ExprView>),
    To(Seq<char>, Box<ExprView>),
}

/// The models of a sequence of expressions, element by element.
pub open spec fn exprs_of(items: Seq<PatternExpr>) -> Seq<ExprView> {
    Seq::new(items.len(), |i: int| items[i]@)
}

impl View for PatternExpr {
    type V = ExprView;

    open spec fn view(&self) -> ExprView {
        self.model()
    }
}

impl PatternExpr {
    /// The model of the expression, defined by recursion on its structure.
    pub open spec fn model(&self) -> ExprView
        decreases self,
    {
        match self {
            PatternExpr::Lit(value) => ExprView::Lit(value@),
            PatternExpr::Ident(name) => ExprView::Ident(name@),
            PatternExpr::Tuple(items) => ExprView::Tuple(
                Seq::new(
                    items.len() as nat,
                    |i: int|
                        if 0 <= i < items.len() {
                            items[i].model()
                        } else {
                            ExprView::Lit(Seq::empty())
                        },
                ),
            ),
            PatternExpr::Or(items) => ExprView::Or(
                Seq::new(
                    items.len() as nat,
                    |i: int|
                        if 0 <= i < items.len() {
                            items[i].model()
                        } else {
                            ExprView::Lit(Seq::empty())
                        },
                ),
            ),
            PatternExpr::Many(inner) => ExprView::Many(Box::new(inner.model())),
            PatternExpr::Any(inner) => ExprView::Any(Box::new(inner.model())),
            PatternExpr::Sep(element, separator) => ExprView::Sep(
                Box::new(element.model()),
                Box::new(separator.model()),
            ),
            PatternExpr::Sep1(element, separator) => ExprView::Sep1(
                Box::new(element.model()),
                Box::new(separator.model()),
            ),
            PatternExpr::To(name, inner) => ExprView::To(name@, Box::new(inner.model())),
        }
    }
}

/// Whether the lexeme at `pos` is the mark `mark`.
pub open spec fn mark_at(lexemes: Seq<LexemeView>, pos: nat, mark: Mark) -> bool {
    pos < lexemes.len() && lexemes[pos as int].word == WordView::Mark(mark)
}

/// The position in the source text of the lexeme at `pos`, or the length
/// `end` of the text where there is no such lexeme.
pub open spec fn place(lexemes: Seq<LexemeView>, pos: nat, end: usize) -> usize {
    if pos < lexemes.len() {
        lexemes[pos as int].at
    } else {
        end
    }
}

/// The error for what stands at `pos` where it cannot stand: an unexpected
/// lexeme, or a missing one where the text, which has `end` characters, is
/// over.
pub open spec fn unexpected(lexemes: Seq<LexemeView>, pos: nat, end: usize) -> CompileError {
    if pos < lexemes.len() {
        CompileError { kind: ErrorKind::UnexpectedToken, position: lexemes[pos as int].at }
    } else {
        CompileError { kind: ErrorKind::MissingToken, position: end }
    }
}

/// One expression if there is only one, else the tuple of them.
pub open spec fn tuple_of(terms: Seq<ExprView>) -> ExprView {
    if terms.len() == 1 {
        terms[0]
    } else {
        ExprView::Tuple(terms)
    }
}

/// One expression if there is only one, else the alternatives.
pub open spec fn choice_of(terms: Seq<ExprView>) -> ExprView {
    if terms.len() == 1 {
        terms[0]
    } else {
        ExprView::Or(terms)
    }
}

/// What a parsing function gives: the expression and the position behind it.
pub type Parsed = Result<(ExprView, nat), CompileError>;

/// `pattern := alt (',' alt)*`, read from position `pos`.
pub open spec fn parsed_seq(lexemes: Seq<LexemeView>, pos: nat, end: usize) -> Parsed
    decreases lexemes.len() - pos, 6nat,
{
    match parsed_or(lexemes, pos, end) {
        Ok((first, next)) => if pos < next <= lexemes.len() {
            match seq_more(lexemes, next, end, seq![first]) {
                Ok((terms, last)) => Ok((tuple_of(terms), last)),
                Err(e) => Err(e),
            }
        } else {
            Err(unexpected(lexemes, pos, end))
        },
        Err(e) => Err(e),
    }
}

/// The `(',' alt)*` of a pattern, read from position `pos`, behind the
/// expressions `terms`.
pub open spec fn seq_more(lexemes: Seq<LexemeView>, pos: nat, end: usize, terms: Seq<ExprView>)
    -> Result<(Seq<ExprView>, nat), CompileError>
    decreases lexemes.len() - pos, 5nat,
{
    if mark_at(lexemes, pos, Mark::Comma) {
        match parsed_or(lexemes, pos + 1, end) {
            Ok((term, next)) => if pos < next <= lexemes.len() {
                seq_more(lexemes, next, end, terms.push(term))
            } else {
                Err(unexpected(lexemes, pos, end))
            },
            Err(e) => Err(e),
        }
    } else {
        Ok((terms, pos))
    }
}

/// `alt := term ('/' term)*`, read from position `pos`.
pub open spec fn parsed_or(lexemes: Seq<LexemeView>, pos: nat, end: usize) -> Parsed
    decreases lexemes.len() - pos, 4nat,
{
    match parsed_and(lexemes, pos, end) {
        Ok((first, next)) => if pos < next <= lexemes.len() {
            match or_more(lexemes, next, end, seq![first]) {
                Ok((terms, last)) => Ok((choice_of(terms), last)),
                Err(e) => Err(e),
            }
        } else {
            Err(unexpected(lexemes, pos, end))
        },
        Err(e) => Err(e),
    }
}

/// The `('/' term)*` of alternatives, read from position `pos`, behind the
/// expressions `terms`.
pub open spec fn or_more(lexemes: Seq<LexemeView>, pos: nat, end: usize, terms: Seq<ExprView>)
    -> Result<(Seq<ExprView>, nat), CompileError>
    decreases lexemes.len() - pos, 3nat,
{
    if mark_at(lexemes, pos, Mark::Slash) {
        match parsed_and(lexemes, pos + 1, end) {
            Ok((term, next)) => if pos < next <= lexemes.len() {
                or_more(lexemes, next, end, terms.push(term))
            } else {
                Err(unexpected(lexemes, pos, end))
            },
            Err(e) => Err(e),
        }
    } else {
        Ok((terms, pos))
    }
}

/// `term := atom (quant | sepquant)?`, read from position `pos`. Behind a
/// bracketed separator `+` stands for occurrences of which none is needed
/// and `*` for occurrences of which the first is; behind a bare atom `+`
/// asks for one round at least and `*` for none.
pub open spec fn parsed_and(lexemes: Seq<LexemeView>, pos: nat, end: usize) -> Parsed
    decreases lexemes.len() - pos, 2nat,
{
    match parsed_term(lexemes, pos, end) {
        Ok((atom, next)) => if pos < next <= lexemes.len() {
            if mark_at(lexemes, next, Mark::OpenBracket) {
                match parsed_or(lexemes, next + 1, end) {
                    Ok((separator, close)) => if !mark_at(lexemes, close, Mark::CloseBracket) {
                        Err(closing(lexemes, next, close))
                    } else if mark_at(lexemes, close + 1, Mark::Plus) {
                        Ok((ExprView::Sep(Box::new(atom), Box::new(separator)), close + 2))
                    } else if mark_at(lexemes, close + 1, Mark::Star) {
                        Ok((ExprView::Sep1(Box::new(atom), Box::new(separator)), close + 2))
                    } else {
                        Err(
                            CompileError {
                                kind: ErrorKind::MissingQuantifier,
                                position: place(lexemes, close + 1, end),
                            },
                        )
                    },
                    Err(e) => Err(e),
                }
            } else if mark_at(lexemes, next, Mark::Plus) {
                Ok((ExprView::Many(Box::new(atom)), next + 1))
            } else if mark_at(lexemes, next, Mark::Star) {
                Ok((ExprView::Any(Box::new(atom)), next + 1))
            } else {
                Ok((atom, next))
            }
        } else {
            Err(unexpected(lexemes, pos, end))
        },
        Err(e) => Err(e),
    }
}

/// The error for a group that was opened at `open` and is not closed at
/// `pos`: the group is unclosed if the text is over, else the lexeme at
/// `pos` is unexpected.
pub open spec fn closing(lexemes: Seq<LexemeView>, open: nat, pos: nat) -> CompileError {
    if pos < lexemes.len() {
        CompileError { kind: ErrorKind::UnexpectedToken, position: lexemes[pos as int].at }
    } else {
        CompileError { kind: ErrorKind::UnclosedGroup, position: lexemes[open as int].at }
    }
}

/// `atom := '(' pattern ')' | ident '@' alt | literal | ident`, read from
/// position `pos`.
pub open spec fn parsed_term(lexemes: Seq<LexemeView>, pos: nat, end: usize) -> Parsed
    decreases lexemes.len() - pos, 1nat,
{
    if pos >= lexemes.len() {
        Err(unexpected(lexemes, pos, end))
    } else {
        match lexemes[pos as int].word {
            WordView::Mark(Mark::OpenParen) => match parsed_seq(lexemes, pos + 1, end) {
                Ok((inner, close)) => if mark_at(lexemes, close, Mark::CloseParen) {
                    Ok((inner, close + 1))
                } else {
                    Err(closing(lexemes, pos, close))
                },
                Err(e) => Err(e),
            },
            WordView::Ident(name) => if mark_at(lexemes, pos + 1, Mark::At) {
                if pos + 2 <= lexemes.len() {
                    match parsed_or(lexemes, pos + 2, end) {
                        Ok((inner, next)) => Ok((ExprView::To(name, Box::new(inner)), next)),
                        Err(e) => Err(e),
                    }
                } else {
                    Err(unexpected(lexemes, pos, end))
                }
            } else {
                Ok((ExprView::Ident(name), pos + 1))
            },
            WordView::Lit(value) => Ok((ExprView::Lit(value), pos + 1)),
            _ => Err(unexpected(lexemes, pos, end)),
        }
    }
}

/// The syntax tree of a whole sequence of lexemes: a pattern, and nothing
/// behind it.
pub open spec fn parsed(lexemes: Seq<LexemeView>, end: usize) -> Result<ExprView, CompileError> {
    match parsed_seq(lexemes, 0, end) {
        Ok((expr, next)) => if next >= lexemes.len() {
            Ok(expr)
        } else {
            Err(unexpected(lexemes, next, end))
        },
        Err(e) => Err(e),
    }
}

/// Whether what a parsing function returned is what the grammar gives from
/// position `pos` of `len` lexemes.
pub open spec fn agrees(
    r: Result<(PatternExpr, usize), CompileError>,
    parsed: Parsed,
    pos: nat,
    len: nat,
) -> bool {
    match parsed {
        Ok((expr, next)) => r matches Ok((x, n)) && x@ == expr && n == next && pos < next <= len,
        Err(e) => r == Err::<(PatternExpr, usize), CompileError>(e),
    }
}

fn is_mark(lexemes: &Vec<Lexeme>, pos: usize, mark: Mark) -> (yes: bool)
    ensures
        yes == mark_at(lexemes_of(lexemes@), pos as nat, mark),
{
    if pos < lexemes.len() {
        match &lexemes[pos].word {
            Word::Mark(m) => *m == mark,
            _ => false,
        }
    } else {
        false
    }
}

fn place_of(lexemes: &Vec<Lexeme>, pos: usize, end: usize) -> (position: usize)
    ensures
        position == place(lexemes_of(lexemes@), pos as nat, end),
{
    if pos < lexemes.len() {
        lexemes[pos].at
    } else {
        end
    }
}

fn unexpected_at(lexemes: &Vec<Lexeme>, pos: usize, end: usize) -> (e: CompileError)
    ensures
        e == unexpected(lexemes_of(lexemes@), pos as nat, end),
{
    if pos < lexemes.len() {
        CompileError { kind: ErrorKind::UnexpectedToken, position: lexemes[pos].at }
    } else {
        CompileError { kind: ErrorKind::MissingToken, position: end }
    }
}

fn unclosed_at(lexemes: &Vec<Lexeme>, open: usize, pos: usize) -> (e: CompileError)
    requires
        open < lexemes.len(),
    ensures
        e == closing(lexemes_of(lexemes@), open as nat, pos as nat),
{
    if pos < lexemes.len() {
        CompileError { kind: ErrorKind::UnexpectedToken, position: lexemes[pos].at }
    } else {
        CompileError { kind: ErrorKind::UnclosedGroup, position: lexemes[open].at }
    }
}

/// The model of a tuple is made of the models of its items.
proof fn lemma_tuple_view(items: Vec<PatternExpr>)
    ensures
        PatternExpr::Tuple(items)@ == ExprView::Tuple(exprs_of(items@)),
        PatternExpr::Or(items)@ == ExprView::Or(exprs_of(items@)),
{
    assert(PatternExpr::Tuple(items)@->Tuple_0 =~= exprs_of(items@));
    assert(PatternExpr::Or(items)@->Or_0 =~= exprs_of(items@));
}

/// Parses `alt (',' alt)*` from position `pos` of the lexemes of a text of
/// `end` characters: a sequence, or its only member.
pub fn parse_seq_expr(lexemes: &Vec<Lexeme>, pos: usize, end: usize) -> (r: Result<
    (PatternExpr, usize),
    CompileError,
>)
    requires
        pos <= lexemes.len(),
    ensures
        agrees(r, parsed_seq(lexemes_of(lexemes@), pos as nat, end), pos as nat, lexemes@.len()),
    decreases lexemes.len() - pos, 6nat,
{
    let ghost all = lexemes_of(lexemes@);
    let (first, after) = match parse_or_expr(lexemes, pos, end) {
        Ok(found) => found,
        Err(e) => {
            return Err(e);
        },
    };
    let mut next = after;
    let mut terms: Vec<PatternExpr> = Vec::new();
    terms.push(first);
    proof {
        assert(exprs_of(terms@) =~= seq![first@]);
    }
    while is_mark(lexemes, next, Mark::Comma)
        invariant
            all == lexemes_of(lexemes@),
            pos < next <= lexemes.len(),
            terms@.len() >= 1,
            match seq_more(all, next as nat, end, exprs_of(terms@)) {
                Ok((all_terms, last)) => parsed_seq(all, pos as nat, end) == Ok::<
                    (ExprView, nat),
                    CompileError,
                >((tuple_of(all_terms), last)),
                Err(e) => parsed_seq(all, pos as nat, end) == Err::<(ExprView, nat), CompileError>(
                    e,
                ),
            },
        decreases lexemes.len() - next,
    {
        let ghost before = exprs_of(terms@);
        match parse_or_expr(lexemes, next + 1, end) {
            Ok((term, after)) => {
                terms.push(term);
                proof {
                    assert(exprs_of(terms@) =~= before.push(term@));
                }
                next = after;
            },
            Err(e) => {
                return Err(e);
            },
        }
    }
    if terms.len() == 1 {
        let only = terms.pop().unwrap();
        Ok((only, next))
    } else {
        proof {
            lemma_tuple_view(terms);
        }
        Ok((PatternExpr::Tuple(terms), next))
    }
}

/// Parses `term ('/' term)*` from position `pos`: alternatives, or their
/// only member.
pub fn parse_or_expr(lexemes: &Vec<Lexeme>, pos: usize, end: usize) -> (r: Result<
    (PatternExpr, usize),
    CompileError,
>)
    requires
        pos <= lexemes.len(),
    ensures
        agrees(r, parsed_or(lexemes_of(lexemes@), pos as nat, end), pos as nat, lexemes@.len()),
    decreases lexemes.len() - pos, 4nat,
{
    let ghost all = lexemes_of(lexemes@);
    let (first, after) = match parse_and_expr(lexemes, pos, end) {
        Ok(found) => found,
        Err(e) => {
            return Err(e);
        },
    };
    let mut next = after;
    let mut terms: Vec<PatternExpr> = Vec::new();
    terms.push(first);
    proof {
        assert(exprs_of(terms@) =~= seq![first@]);
    }
    while is_mark(lexemes, next, Mark::Slash)
        invariant
            all == lexemes_of(lexemes@),
            pos < next <= lexemes.len(),
            terms@.len() >= 1,
            match or_more(all, next as nat, end, exprs_of(terms@)) {
                Ok((all_terms, last)) => parsed_or(all, pos as nat, end) == Ok::<
                    (ExprView, nat),
                    CompileError,
                >((choice_of(all_terms), last)),
                Err(e) => parsed_or(all, pos as nat, end) == Err::<(ExprView, nat), CompileError>(
                    e,
                ),
            },
        decreases lexemes.len() - next,
    {
        let ghost before = exprs_of(terms@);
        match parse_and_expr(lexemes, next + 1, end) {
            Ok((term, after)) => {
                terms.push(term);
                proof {
                    assert(exprs_of(terms@) =~= before.push(term@));
                }
                next = after;
            },
            Err(e) => {
                return Err(e);
            },
        }
    }
    if terms.len() == 1 {
        let only = terms.pop().unwrap();
        Ok((only, next))
    } else {
        proof {
            lemma_tuple_view(terms);
        }
        Ok((PatternExpr::Or(terms), next))
    }
}

/// Parses an atom and the quantifier behind it, if there is one, from
/// position `pos`.
pub fn parse_and_expr(lexemes: &Vec<Lexeme>, pos: usize, end: usize) -> (r: Result<
    (PatternExpr, usize),
    CompileError,
>)
    requires
        pos <= lexemes.len(),
    ensures
        agrees(r, parsed_and(lexemes_of(lexemes@), pos as nat, end), pos as nat, lexemes@.len()),
    decreases lexemes.len() - pos, 2nat,
{
    let (atom, next) = match parse_term(lexemes, pos, end) {
        Ok(found) => found,
        Err(e) => {
            return Err(e);
        },
    };
    if is_mark(lexemes, next, Mark::OpenBracket) {
        let (separator, close) = match parse_or_expr(lexemes, next + 1, end) {
            Ok(found) => found,
            Err(e) => {
                return Err(e);
            },
        };
        if !is_mark(lexemes, close, Mark::CloseBracket) {
            return Err(unclosed_at(lexemes, next, close));
        }
        if is_mark(lexemes, close + 1, Mark::Plus) {
            return Ok((PatternExpr::Sep(Box::new(atom), Box::new(separator)), close + 2));
        }
        if is_mark(lexemes, close + 1, Mark::Star) {
            return Ok((PatternExpr::Sep1(Box::new(atom), Box::new(separator)), close + 2));
        }
        return Err(
            CompileError {
                kind: ErrorKind::MissingQuantifier,
                position: place_of(lexemes, close + 1, end),
            },
        );
    }
    if is_mark(lexemes, next, Mark::Plus) {
        Ok((PatternExpr::Many(Box::new(atom)), next + 1))
    } else if is_mark(lexemes, next, Mark::Star) {
        Ok((PatternExpr::Any(Box::new(atom)), next + 1))
    } else {
        Ok((atom, next))
    }
}

/// Parses an atom from position `pos`: a group in parentheses, a capture, a
/// literal or an identifier.
pub fn parse_term(lexemes: &Vec<Lexeme>, pos: usize, end: usize) -> (r: Result<
    (PatternExpr, usize),
    CompileError,
>)
    requires
        pos <= lexemes.len(),
    ensures
        agrees(r, parsed_term(lexemes_of(lexemes@), pos as nat, end), pos as nat, lexemes@.len()),
    decreases lexemes.len() - pos, 1nat,
{
    if pos >= lexemes.len() {
        return Err(unexpected_at(lexemes, pos, end));
    }
    match &lexemes[pos].word {
        Word::Mark(Mark::OpenParen) => {
            let (inner, close) = match parse_seq_expr(lexemes, pos + 1, end) {
                Ok(found) => found,
                Err(e) => {
                    return Err(e);
                },
            };
            if is_mark(lexemes, close, Mark::CloseParen) {
                Ok((inner, close + 1))
            } else {
                Err(unclosed_at(lexemes, pos, close))
            }
        },
        Word::Ident(name) => {
            if is_mark(lexemes, pos + 1, Mark::At) {
                match parse_or_expr(lexemes, pos + 2, end) {
                    Ok((inner, next)) => Ok(
                        (PatternExpr::To(name.clone(), Box::new(inner)), next),
                    ),
                    Err(e) => Err(e),
                }
            } else {
                Ok((PatternExpr::Ident(name.clone()), pos + 1))
            }
        },
        Word::Lit(value) => Ok((PatternExpr::Lit(value.clone()), pos + 1)),
        _ => Err(unexpected_at(lexemes, pos, end)),
    }
}

/// The pattern that a syntax tree stands for. Commas make a sequence and
/// slashes alternatives; `+` and `*` behind an atom make a repetition that
/// asks for one round or for none; behind a bracketed separator `+` makes the
/// occurrences of a [`Sep`] and `*` those of a [`Sep1`]; `name @` makes a
/// capture.
pub open spec fn lowered(expr: ExprView) -> PatternView
    decreases expr,
{
    match expr {
        ExprView::Lit(value) => PatternView::Lit(value),
        ExprView::Ident(name) => PatternView::Ident(name),
        ExprView::Tuple(items) => PatternView::Sequence(
            Seq::new(
                items.len(),
                |i: int|
                    if 0 <= i < items.len() {
                        lowered(items[i])
                    } else {
                        PatternView::Lit(Seq::empty())
                    },
            ),
        ),
        ExprView::Or(items) => PatternView::Or(
            Seq::new(
                items.len(),
                |i: int|
                    if 0 <= i < items.len() {
                        lowered(items[i])
                    } else {
                        PatternView::Lit(Seq::empty())
                    },
            ),
        ),
        ExprView::Many(inner) => PatternView::OneOrMore(Box::new(lowered(*inner))),
        ExprView::Any(inner) => PatternView::ZeroOrMore(Box::new(lowered(*inner))),
        ExprView::Sep(element, separator) => PatternView::Sep(
            SepView {
                separator: Box::new(lowered(*separator)),
                element: Box::new(lowered(*element)),
            },
        ),
        ExprView::Sep1(element, separator) => PatternView::Sep1(
            SepView {
                separator: Box::new(lowered(*separator)),
                element: Box::new(lowered(*element)),
            },
        ),
        ExprView::To(name, inner) => PatternView::To(Box::new(lowered(*inner)), name),
    }
}

/// Builds the patterns for the items of a tuple or of alternatives.
fn build_patterns(parent: &PatternExpr, items: &Vec<PatternExpr>) -> (patterns: Vec<Pattern>)
    requires
        (parent is Tuple && parent->Tuple_0 == *items) || (parent is Or && parent->Or_0 == *items),
    ensures
        patterns@.len() == items@.len(),
        forall|i: int| 0 <= i < items@.len() ==> (#[trigger] patterns@[i])@ == lowered(items@[i]@),
    decreases parent, 0nat,
{
    let mut patterns: Vec<Pattern> = Vec::new();
    let mut i: usize = 0;
    while i < items.len()
        invariant
            (parent is Tuple && parent->Tuple_0 == *items) || (parent is Or && parent->Or_0
                == *items),
            i <= items.len(),
            patterns@.len() == i,
            forall|j: int| 0 <= j < i ==> (#[trigger] patterns@[j])@ == lowered(items@[j]@),
        decreases items.len() - i,
    {
        proof {
            vstd::std_specs::vec::axiom_vec_index_decreases(*items, i as int);
        }
        patterns.push(build_pattern(&items[i]));
        i += 1;
    }
    patterns
}

/// Builds the pattern that a syntax tree stands for.
pub fn build_pattern(expr: &PatternExpr) -> (pattern: Pattern)
    ensures
        pattern@ == lowered(expr@),
    decreases expr, 1nat,
{
    match expr {
        PatternExpr::Lit(value) => Pattern::Lit(value.clone()),
        PatternExpr::Ident(name) => Pattern::Ident(name.clone()),
        PatternExpr::Tuple(items) => {
            let parts = build_patterns(expr, items);
            let pattern = Pattern::Sequence(Sequence(parts));
            proof {
                let built = Sequence(parts);
                built.lemma_view();
                lemma_tuple_view(*items);
                assert(pattern@ == built@);
                assert forall|i: int| 0 <= i < items@.len() implies built@->Sequence_0[i]
                    == lowered(expr@)->Sequence_0[i] by {
                    assert(parts@[i]@ == lowered(items@[i]@));
                }
                assert(pattern@->Sequence_0 =~= lowered(expr@)->Sequence_0);
            }
            pattern
        },
        PatternExpr::Or(items) => {
            let alternatives = build_patterns(expr, items);
            let pattern = Pattern::Or(Or(alternatives));
            proof {
                let built = Or(alternatives);
                built.lemma_view();
                lemma_tuple_view(*items);
                assert(pattern@ == built@);
                assert forall|i: int| 0 <= i < items@.len() implies built@->Or_0[i] == lowered(
                    expr@,
                )->Or_0[i] by {
                    assert(alternatives@[i]@ == lowered(items@[i]@));
                }
                assert(pattern@->Or_0 =~= lowered(expr@)->Or_0);
            }
            pattern
        },
        PatternExpr::Many(inner) => Pattern::OneOrMore(Box::new(build_pattern(inner))),
        PatternExpr::Any(inner) => Pattern::ZeroOrMore(Box::new(build_pattern(inner))),
        PatternExpr::Sep(element, separator) => Pattern::Sep(
            Sep(Box::new(build_pattern(separator)), Box::new(build_pattern(element))),
        ),
        PatternExpr::Sep1(element, separator) => Pattern::Sep1(
            Sep1(Sep(Box::new(build_pattern(separator)), Box::new(build_pattern(element)))),
        ),
        PatternExpr::To(name, inner) => Pattern::To(
            To(Box::new(build_pattern(inner)), name.clone()),
        ),
    }
}

/// The pattern that a source text stands for, or the first error in it.
pub open spec fn compiled(text: Seq<char>) -> Result<PatternView, CompileError> {
    match lexed(text) {
        Ok(lexemes) => match parsed(lexemes, text.len() as usize) {
            Ok(expr) => Ok(lowered(expr)),
            Err(e) => Err(e),
        },
        Err(e) => Err(e),
    }
}

/// Parses a whole source text into its syntax tree.
pub fn parse(source: &str) -> (r: Result<PatternExpr, CompileError>)
    ensures
        match lexed(source@) {
            Ok(lexemes) => match parsed(lexemes, source@.len() as usize) {
                Ok(expr) => r matches Ok(x) && x@ == expr,
                Err(e) => r == Err::<PatternExpr, CompileError>(e),
            },
            Err(e) => r == Err::<PatternExpr, CompileError>(e),
        },
{
    let lexemes = match lex(source) {
        Ok(lexemes) => lexemes,
        Err(e) => {
            return Err(e);
        },
    };
    let end = source.unicode_len();
    match parse_seq_expr(&lexemes, 0, end) {
        Ok((expr, next)) => {
            if next >= lexemes.len() {
                Ok(expr)
            } else {
                Err(unexpected_at(&lexemes, next, end))
            }
        },
        Err(e) => Err(e),
    }
}

/// Compiles a source text into a pattern.
pub fn compile(source: &str) -> (r: Result<Pattern, CompileError>)
    ensures
        match compiled(source@) {
            Ok(pattern) => r matches Ok(p) && p@ == pattern,
            Err(e) => r == Err::<Pattern, CompileError>(e),
        },
{
    match parse(source) {
        Ok(expr) => Ok(build_pattern(&expr)),
        Err(e) => Err(e),
    }
}

/// Whether the pattern that `source` stands for matches the whole of
/// `reference`. Only then are the captures of the match kept. A source text
/// that is no pattern is an error and leaves the context as it was.
pub fn matches(reference: &str, source: &str, ctx: &mut Context) -> (r: Result<bool, CompileError>)
    ensures
        final(ctx).bindings() == old(ctx).bindings(),
        final(ctx).declared() == old(ctx).declared(),
        match compiled(source@) {
            Ok(pattern) => {
                &&& r == Ok::<bool, CompileError>(
                    pattern.matches_all(old(ctx).bindings(), reference@),
                )
                &&& final(ctx).captures() == if pattern.matches_all(
                    old(ctx).bindings(),
                    reference@,
                ) {
                    old(ctx).captures() + pattern.outcome(
                        old(ctx).bindings(),
                        reference@,
                        pattern.fresh(),
                    )->0.events
                } else {
                    old(ctx).captures()
                }
            },
            Err(e) => r == Err::<bool, CompileError>(e) && final(ctx).captures() == old(
                ctx,
            ).captures(),
        },
{
    match compile(source) {
        Ok(pattern) => {
            let input = chars_of(reference);
            Ok(pattern.matches(&input, ctx))
        },
        Err(e) => Err(e),
    }
}

} // verus!
