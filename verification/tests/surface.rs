use match_string::base::{Or, Pattern, Sep, Sep1, Sequence, To};
use match_string::dest::{Context, Dest};
use match_string::syntax::{compile, lex, parse, CompileError, ErrorKind, Mark, PatternExpr, Word};
use match_string::value::Value;

fn text(s: &str) -> Value {
    Value::Text(s.chars().collect())
}

fn lit(s: &str) -> Pattern {
    Pattern::Lit(s.chars().collect())
}

#[test]
fn test_macro_pattern() {
    let mut ctx = Context::standard();
    ctx.declare("dest", Dest::from(Value::List(Vec::new())));
    ctx.declare("dest2", Dest::from(Value::List(Vec::new())));
    let reference = "12,34,56.33";
    let result = match_string::syntax::matches(reference, "(dest@NUM)[dest2 @ (\",\" / \".\")]+", &mut ctx);
    println!("Result: {:?}", result);
    let dest = ctx.get("dest").unwrap().into_inner();
    let dest2 = ctx.get("dest2").unwrap().into_inner();
    println!("Destination: {:?}", dest);
    println!("Destination2: {:?}", dest2);
    assert_eq!(result, Ok(true));
    assert_eq!(
        dest,
        Value::List(vec![
            Value::Number(12),
            Value::Number(34),
            Value::Number(56),
            Value::Number(33)
        ])
    );
    assert_eq!(dest2, Value::List(vec![text(","), text(","), text(".")]));
}

#[test]
fn test_token() {
    let mut ctx = Context::standard();
    ctx.declare("dest", Dest::from(Value::List(Vec::new())));
    let result = match_string::syntax::matches("func(arg, arg)", "\"func(\", (dest@ALPHABETIC)[\",\"]+", &mut ctx);
    println!("Result: {:?}", result);
    let dest = ctx.get("dest").unwrap().into_inner();
    println!("Destination: {:?}", dest);
    // The blank behind the comma is no letter, so that the match ends before
    // the text does: nothing is kept.
    assert_eq!(result, Ok(false));
    assert_eq!(dest, Value::List(vec![]));
}

#[test]
fn token_list_without_blank_matches() {
    let mut ctx = Context::standard();
    ctx.declare("dest", Dest::from(Value::List(Vec::new())));
    let result = match_string::syntax::matches("func(arg,arg", "\"func(\", (dest@ALPHABETIC)[\",\"]+", &mut ctx);
    assert_eq!(result, Ok(true));
    assert_eq!(
        ctx.get("dest").unwrap().into_inner(),
        Value::List(vec![text("arg"), text("arg")])
    );
}

#[test]
fn lex_splits_marks_literals_and_names() {
    let lexemes = lex("a1_b @ \"x\\\"y\" ,/+*()[]").unwrap();
    let words: Vec<Word> = lexemes.into_iter().map(|l| l.word).collect();
    assert_eq!(
        words,
        vec![
            Word::Ident("a1_b".to_string()),
            Word::Mark(Mark::At),
            Word::Lit("x\"y".chars().collect()),
            Word::Mark(Mark::Comma),
            Word::Mark(Mark::Slash),
            Word::Mark(Mark::Plus),
            Word::Mark(Mark::Star),
            Word::Mark(Mark::OpenParen),
            Word::Mark(Mark::CloseParen),
            Word::Mark(Mark::OpenBracket),
            Word::Mark(Mark::CloseBracket),
        ]
    );
}

#[test]
fn lex_records_positions() {
    let lexemes = lex("  ab,\"c\"").unwrap();
    let at: Vec<usize> = lexemes.iter().map(|l| l.at).collect();
    assert_eq!(at, vec![2, 4, 5]);
}

#[test]
fn lex_resolves_escapes() {
    let lexemes = lex("\"a\\nb\\t\\\\\\q\"").unwrap();
    assert_eq!(lexemes[0].word, Word::Lit("a\nb\t\\q".chars().collect()));
}

#[test]
fn lex_rejects_a_stray_character() {
    assert_eq!(
        lex("ab # cd").err(),
        Some(CompileError { kind: ErrorKind::UnexpectedCharacter, position: 3 })
    );
}

#[test]
fn lex_rejects_an_open_literal() {
    assert_eq!(
        lex("x, \"abc").err(),
        Some(CompileError { kind: ErrorKind::UnterminatedLiteral, position: 3 })
    );
    assert_eq!(
        lex("\"abc\\").err(),
        Some(CompileError { kind: ErrorKind::UnterminatedLiteral, position: 0 })
    );
}

#[test]
fn parse_gives_the_syntax_tree() {
    let expr = parse("a, \"b\" / c*, (d)+").unwrap();
    assert_eq!(
        expr,
        PatternExpr::Tuple(vec![
            PatternExpr::Ident("a".to_string()),
            PatternExpr::Or(vec![
                PatternExpr::Lit(vec!['b']),
                PatternExpr::Any(Box::new(PatternExpr::Ident("c".to_string()))),
            ]),
            PatternExpr::Many(Box::new(PatternExpr::Ident("d".to_string()))),
        ])
    );
}

#[test]
fn parse_binds_a_capture_to_the_alternatives_behind_it() {
    let expr = parse("n @ \"a\" / \"b\", \"c\"").unwrap();
    assert_eq!(
        expr,
        PatternExpr::Tuple(vec![
            PatternExpr::To(
                "n".to_string(),
                Box::new(PatternExpr::Or(vec![
                    PatternExpr::Lit(vec!['a']),
                    PatternExpr::Lit(vec!['b']),
                ]))
            ),
            PatternExpr::Lit(vec!['c']),
        ])
    );
}

#[test]
fn compile_maps_the_quantifiers() {
    assert_eq!(compile("\"a\"+"), Ok(Pattern::OneOrMore(Box::new(lit("a")))));
    assert_eq!(compile("\"a\"*"), Ok(Pattern::ZeroOrMore(Box::new(lit("a")))));
    assert_eq!(
        compile("\"a\"[\",\"]+"),
        Ok(Pattern::Sep(Sep(Box::new(lit(",")), Box::new(lit("a")))))
    );
    assert_eq!(
        compile("\"a\"[\",\"]*"),
        Ok(Pattern::Sep1(Sep1(Sep(Box::new(lit(",")), Box::new(lit("a"))))))
    );
}

#[test]
fn compile_maps_commas_slashes_and_captures() {
    assert_eq!(
        compile("x @ (\"a\", B) / \"c\""),
        Ok(Pattern::To(To(
            Box::new(Pattern::Or(Or(vec![
                Pattern::Sequence(Sequence(vec![lit("a"), Pattern::Ident("B".to_string())])),
                lit("c"),
            ]))),
            "x".to_string()
        )))
    );
}

#[test]
fn compile_reports_a_missing_quantifier() {
    assert_eq!(
        compile("\"a\"[\",\"] \"b\""),
        Err(CompileError { kind: ErrorKind::MissingQuantifier, position: 9 })
    );
    assert_eq!(
        compile("\"a\"[\",\"]"),
        Err(CompileError { kind: ErrorKind::MissingQuantifier, position: 8 })
    );
}

#[test]
fn compile_reports_an_unclosed_group() {
    assert_eq!(
        compile("\"a\", (\"b\""),
        Err(CompileError { kind: ErrorKind::UnclosedGroup, position: 5 })
    );
    assert_eq!(
        compile("\"a\"[\"b\""),
        Err(CompileError { kind: ErrorKind::UnclosedGroup, position: 3 })
    );
}

#[test]
fn compile_reports_an_unexpected_token() {
    assert_eq!(
        compile("\"a\" \"b\""),
        Err(CompileError { kind: ErrorKind::UnexpectedToken, position: 4 })
    );
    assert_eq!(
        compile(", \"a\""),
        Err(CompileError { kind: ErrorKind::UnexpectedToken, position: 0 })
    );
    assert_eq!(
        compile("(\"a\" ]"),
        Err(CompileError { kind: ErrorKind::UnexpectedToken, position: 5 })
    );
}

#[test]
fn compile_reports_a_missing_token() {
    assert_eq!(compile(""), Err(CompileError { kind: ErrorKind::MissingToken, position: 0 }));
    assert_eq!(
        compile("\"a\","),
        Err(CompileError { kind: ErrorKind::MissingToken, position: 4 })
    );
    assert_eq!(
        compile("x @"),
        Err(CompileError { kind: ErrorKind::MissingToken, position: 3 })
    );
}

#[test]
fn an_error_in_the_source_leaves_the_context() {
    let mut ctx = Context::standard();
    ctx.declare("d", Dest::from(Value::List(Vec::new())));
    let result = match_string::syntax::matches("abc", "d @ (", &mut ctx);
    assert_eq!(result, Err(CompileError { kind: ErrorKind::MissingToken, position: 5 }));
    assert_eq!(ctx.get("d").unwrap().into_inner(), Value::List(vec![]));
}
