use match_string::add;
use match_string::base::{Or, Pattern, Sep, Sep1, Sequence, To};
use match_string::cursor::{chars_of, Checkpoint, Cursor, Iterable, PeekableExt};
use match_string::dest::{Context, Dest};
use match_string::ext::{Digit, Words};
use match_string::exts::{
    alphabetic, alphanumeric, bin, hex, make_num, num, oct, parse_num, pred_num, ws, Parser, Token,
};
use match_string::utils::{to_digit, Capture, HList, Predicate, Result, ResultHList, Row, Satisfies};
use match_string::value::{Collector, Destination, Value};

fn text(s: &str) -> Value {
    Value::Text(s.chars().collect())
}

fn lit(s: &str) -> Pattern {
    Pattern::lit(s)
}

fn string_of(chars: Vec<char>) -> String {
    chars.into_iter().collect()
}

#[test]
fn add_adds() {
    assert_eq!(add(2, 2), 4);
    assert_eq!(add(u64::MAX - 1, 1), u64::MAX);
}

#[test]
fn cursor_peeks_and_advances() {
    let input = chars_of("ab");
    let mut cursor = Cursor::new(&input);
    assert_eq!(cursor.peek(), Some('a'));
    assert_eq!(cursor.remaining_len(), 2);
    assert_eq!(cursor.next(), Some('a'));
    assert_eq!(cursor.position(), 1);
    let copy = cursor.snapshot();
    assert_eq!(cursor.next(), Some('b'));
    assert_eq!(cursor.next(), None);
    assert_eq!(cursor.peek(), None);
    assert_eq!(cursor.rest(), Vec::<char>::new());
    assert_eq!(copy.rest(), vec!['b']);
}

#[test]
fn checkpoint_rollback_restores_the_elements_in_order() {
    let input = chars_of("abcdef");
    let mut checkpoint = Checkpoint::new(input.get_iter());
    assert_eq!(checkpoint.next(), Some('a'));
    checkpoint.begin();
    assert_eq!(checkpoint.next(), Some('b'));
    assert_eq!(checkpoint.next(), Some('c'));
    assert_eq!(checkpoint.peek(), Some('d'));
    checkpoint.rollback();
    assert_eq!(checkpoint.peek(), Some('b'));
    assert_eq!(checkpoint.remaining_len(), 5);
    assert_eq!(string_of(checkpoint.collect()), "bcdef");
}

#[test]
fn checkpoint_rolls_back_what_an_earlier_rollback_gave_back() {
    let input = chars_of("abcd");
    let mut checkpoint = Checkpoint::new(input.get_iter());
    checkpoint.begin();
    assert_eq!(checkpoint.next(), Some('a'));
    assert_eq!(checkpoint.next(), Some('b'));
    checkpoint.rollback();
    checkpoint.begin();
    assert_eq!(checkpoint.next(), Some('a'));
    assert_eq!(checkpoint.next(), Some('b'));
    assert_eq!(checkpoint.next(), Some('c'));
    checkpoint.rollback();
    assert_eq!(string_of(checkpoint.collect()), "abcd");
}

#[test]
fn checkpoint_commit_keeps_what_the_trial_consumed() {
    let input = chars_of("abc");
    let mut checkpoint = Checkpoint::new(input.get_iter());
    checkpoint.begin();
    assert_eq!(checkpoint.next(), Some('a'));
    checkpoint.commit();
    checkpoint.rollback();
    assert_eq!(string_of(checkpoint.collect()), "bc");
}

#[test]
fn checkpoint_snapshot_is_independent() {
    let input = chars_of("abc");
    let mut checkpoint = Checkpoint::new(input.get_iter());
    let mut copy = checkpoint.snapshot();
    assert_eq!(checkpoint.next(), Some('a'));
    assert_eq!(copy.peek(), Some('a'));
    assert_eq!(string_of(copy.collect()), "abc");
}

#[test]
fn digits_in_their_bases() {
    assert_eq!(to_digit('7', 10), Some(7));
    assert_eq!(to_digit('7', 7), None);
    assert_eq!(to_digit('a', 16), Some(10));
    assert_eq!(to_digit('F', 16), Some(15));
    assert_eq!(to_digit('g', 16), None);
    assert_eq!(to_digit('z', 36), Some(35));
    assert_eq!(to_digit('1', 2), Some(1));
    assert_eq!(to_digit('2', 2), None);
    assert_eq!(to_digit(' ', 10), None);
    for radix in 2..=36u32 {
        for c in ['0', '5', '9', 'a', 'k', 'z', 'A', 'Q', 'Z', '/', ':', '@', '[', '`', '{', 'é'] {
            assert_eq!(to_digit(c, radix), c.to_digit(radix));
        }
    }
}

#[test]
fn predicates_hold_of_their_classes() {
    assert!(Predicate::Digit(10).satisfies(&'4'));
    assert!(!Predicate::Digit(10).satisfies(&'x'));
    assert!(Predicate::Alphabetic.satisfies(&'x'));
    assert!(Predicate::Alphabetic.satisfies(&'é'));
    assert!(!Predicate::Alphabetic.satisfies(&'4'));
    assert!(Predicate::Alphanumeric.satisfies(&'4'));
    assert!(!Predicate::Alphanumeric.satisfies(&'-'));
    assert!(Predicate::Whitespace.satisfies(&' '));
    assert!(Predicate::Whitespace.satisfies(&'\n'));
    assert!(!Predicate::Whitespace.satisfies(&'x'));
    assert!('x'.satisfies(&'x'));
    assert!(!'x'.satisfies(&'y'));
    assert!(pred_num(&'7', 8));
    assert!(!pred_num(&'8', 8));
}

#[test]
fn numbers_are_parsed_in_their_bases() {
    assert_eq!(parse_num(chars_of("1234"), 10), 1234);
    assert_eq!(parse_num(chars_of("ff"), 16), 255);
    assert_eq!(parse_num(chars_of("FF"), 16), 255);
    assert_eq!(parse_num(chars_of("777"), 8), 511);
    assert_eq!(parse_num(chars_of("101"), 2), 5);
    assert_eq!(parse_num(chars_of(""), 10), 0);
    assert_eq!(parse_num(chars_of("007"), 10), 7);
    assert_eq!(parse_num(chars_of("1x2"), 10), 12);
}

#[test]
fn numbers_saturate() {
    assert_eq!(parse_num(chars_of("99999999999999999999999999"), 10), usize::MAX);
    assert_eq!(parse_num(chars_of(&usize::MAX.to_string()), 10), usize::MAX);
    assert_eq!(parse_num(chars_of(&(usize::MAX - 1).to_string()), 10), usize::MAX - 1);
}

#[test]
fn token_constructors() {
    let expected = Token {
        predicate: Predicate::Digit(10),
        parser: Parser::Number(10),
        at_least: 1,
        skip_leading: None,
    };
    assert_eq!(num(), expected);
    assert_eq!(make_num(10), expected);
    assert_eq!(hex().predicate, Predicate::Digit(16));
    assert_eq!(oct().parser, Parser::Number(8));
    assert_eq!(bin().predicate, Predicate::Digit(2));
    assert_eq!(ws().parser, Parser::Unit);
    assert_eq!(alphabetic().predicate, Predicate::Alphabetic);
    assert_eq!(alphanumeric().parser, Parser::Text);
    assert_eq!(Digit { radix: 10 }.m(), expected);
    assert_eq!(Digit { radix: 10 }.at_least(), 1);
    assert_eq!(Words.m(), alphanumeric());
    assert_eq!(Words.at_least(), 1);
}

#[test]
fn captures_of_digits_and_words() {
    assert_eq!(Digit { radix: 10 }.capture(chars_of("42")), Value::Number(42));
    assert_eq!(Digit { radix: 16 }.capture(chars_of("2a")), Value::Number(42));
    assert_eq!(Digit { radix: 10 }.capture(chars_of("4-2")), Value::Number(42));
    assert_eq!(Words.capture(chars_of("abc1")), text("abc1"));
    assert_eq!(Parser::Number(2).capture(chars_of("110")), Value::Number(6));
    assert_eq!(Parser::Text.capture(chars_of("xy")), text("xy"));
    assert_eq!(Parser::Unit.capture(chars_of("  ")), Value::Unit);
}

#[test]
fn token_reads_the_longest_run() {
    let input = chars_of("123abc");
    let mut cursor = Cursor::new(&input);
    let mut dest = Value::Unit;
    assert!(num().consume_with_dest(&mut cursor, &mut dest));
    assert_eq!(dest, Value::Number(123));
    assert_eq!(string_of(cursor.rest()), "abc");
}

#[test]
fn token_fails_without_effect_on_a_short_run() {
    let token = Token {
        predicate: Predicate::Alphabetic,
        parser: Parser::Text,
        at_least: 3,
        skip_leading: None,
    };
    let input = chars_of("ab1");
    let mut cursor = Cursor::new(&input);
    let mut dest = Value::Number(7);
    assert!(!token.consume_with_dest(&mut cursor, &mut dest));
    assert_eq!(dest, Value::Number(7));
    assert_eq!(string_of(cursor.rest()), "ab1");
}

#[test]
fn token_skips_what_it_is_told_to_skip() {
    let token = Token {
        predicate: Predicate::Digit(10),
        parser: Parser::Number(10),
        at_least: 1,
        skip_leading: Some(Predicate::Whitespace),
    };
    let input = chars_of("  \t42 7");
    let mut cursor = Cursor::new(&input);
    let mut dest = Value::Unit;
    assert!(token.consume_with_dest(&mut cursor, &mut dest));
    assert_eq!(dest, Value::Number(42));
    assert_eq!(string_of(cursor.rest()), " 7");
    let input = chars_of("   x");
    let mut cursor = Cursor::new(&input);
    assert!(!token.consume_with_dest(&mut cursor, &mut dest));
    assert_eq!(string_of(cursor.rest()), "   x");
}

#[test]
fn token_with_no_least_length_matches_the_empty_run() {
    let token = Token {
        predicate: Predicate::Whitespace,
        parser: Parser::Unit,
        at_least: 0,
        skip_leading: None,
    };
    let input = chars_of("x");
    let mut cursor = Cursor::new(&input);
    let mut dest = Value::Number(1);
    assert!(token.consume_with_dest(&mut cursor, &mut dest));
    assert_eq!(dest, Value::Unit);
    assert_eq!(string_of(cursor.rest()), "x");
}

#[test]
fn values_pick_up_by_their_shape() {
    let mut v = text("a");
    v.pickup('b');
    assert_eq!(v, text("ab"));
    let mut v = Value::Pair(Box::new(text("")), Box::new(Value::Pair(
        Box::new(text("x")),
        Box::new(Value::Number(3)),
    )));
    v.pickup('c');
    assert_eq!(
        v,
        Value::Pair(Box::new(text("c")), Box::new(Value::Pair(
            Box::new(text("xc")),
            Box::new(Value::Number(3)),
        )))
    );
    let mut v = Value::List(vec![]);
    v.pickup('c');
    assert_eq!(v, Value::List(vec![]));
    let mut v = text("a");
    v.pickup_all(&chars_of("bcd"));
    assert_eq!(v, text("abcd"));
}

#[test]
fn values_collect_by_their_shape() {
    let mut v = Value::List(vec![Value::Number(1)]);
    v.commit(text("x"));
    assert_eq!(v, Value::List(vec![Value::Number(1), text("x")]));
    let mut v = text("old");
    v.commit(text("new"));
    assert_eq!(v, text("new"));
    let mut v = Value::Unit;
    v.commit(Value::List(vec![]));
    assert_eq!(v, Value::List(vec![]));
    let mut items = vec![Value::Unit];
    items.commit(Value::Number(2));
    assert_eq!(items, vec![Value::Unit, Value::Number(2)]);
    let mut v = Value::List(vec![]);
    v.extend(vec![Value::Number(1), Value::Number(2)]);
    assert_eq!(v, Value::List(vec![Value::Number(1), Value::Number(2)]));
    let mut v = text("t");
    v.extend(vec![Value::Number(1)]);
    assert_eq!(v, text("t"));
}

#[test]
fn value_clone_is_deep() {
    let v = Value::List(vec![
        text("a"),
        Value::Pair(Box::new(Value::Number(1)), Box::new(Value::List(vec![Value::Unit]))),
    ]);
    assert_eq!(v.clone(), v);
    assert_eq!(Value::default(), Value::Unit);
}

#[test]
fn dest_holds_a_value() {
    let mut dest: Dest<Value> = Dest::new();
    assert_eq!(*dest.borrow(), Value::Unit);
    *dest.borrow_mut() = text("x");
    dest.pickup('y');
    assert_eq!(*dest.borrow(), text("xy"));
    dest.commit(Value::Number(3));
    let copy = dest.clone();
    assert_eq!(copy.into_inner(), Value::Number(3));
    assert_eq!(dest.into_inner(), Value::Number(3));
    let mut list = Dest::from(Value::List(vec![]));
    list.commit(Value::Number(3));
    assert_eq!(list.into_inner(), Value::List(vec![Value::Number(3)]));
    let number: Dest<u32> = Dest::new();
    assert_eq!(number.into_inner(), 0);
}

#[test]
fn context_resolves_the_binding_made_last() {
    let mut ctx = Context::standard();
    assert_eq!(ctx.resolve(&"NUM".to_string()), Some(num()));
    assert_eq!(ctx.resolve(&"HEX".to_string()), Some(hex()));
    assert_eq!(ctx.resolve(&"OCT".to_string()), Some(oct()));
    assert_eq!(ctx.resolve(&"BIN".to_string()), Some(bin()));
    assert_eq!(ctx.resolve(&"WS".to_string()), Some(ws()));
    assert_eq!(ctx.resolve(&"ALPHABETIC".to_string()), Some(alphabetic()));
    assert_eq!(ctx.resolve(&"ALPHANUMERIC".to_string()), Some(alphanumeric()));
    assert_eq!(ctx.resolve(&"OTHER".to_string()), None);
    ctx.bind("NUM", hex());
    assert_eq!(ctx.resolve(&"NUM".to_string()), Some(hex()));
    assert_eq!(Context::new().resolve(&"NUM".to_string()), None);
}

#[test]
fn context_commits_by_the_declared_shape() {
    let mut ctx = Context::new();
    ctx.declare("one", Dest::from(text("none")));
    ctx.declare("all", Dest::from(Value::List(vec![Value::Unit])));
    assert_eq!(ctx.get("one").unwrap().into_inner(), text("none"));
    assert!(ctx.get("other").is_none());
    let one = "one".to_string();
    let all = "all".to_string();
    ctx.record(&one, Value::List(vec![Value::Number(1)]));
    ctx.record(&all, Value::Number(1));
    ctx.record(&one, Value::List(vec![Value::Number(2)]));
    ctx.record(&all, Value::Number(2));
    assert_eq!(ctx.get("one").unwrap().into_inner(), Value::List(vec![Value::Number(2)]));
    assert_eq!(
        ctx.get("all").unwrap().into_inner(),
        Value::List(vec![Value::Unit, Value::Number(1), Value::Number(2)])
    );
    assert_eq!(ctx.captured("all"), vec![Value::Number(1), Value::Number(2)]);
    assert_eq!(ctx.mark(), 4);
    ctx.rewind(1);
    assert_eq!(ctx.get("one").unwrap().into_inner(), Value::List(vec![Value::Number(1)]));
    assert_eq!(ctx.get("all").unwrap().into_inner(), Value::List(vec![Value::Unit]));
}

#[test]
fn row_all_and_any() {
    let row = Row::new();
    assert!(row.all());
    assert!(!row.any());
    let row = row.append_opt(Result::Skipped);
    assert!(row.all());
    assert!(!row.any());
    let row = row.append_opt(Result::Matched(Value::Number(1)));
    assert!(row.all());
    assert!(row.any());
    let row = row.append_opt(Result::Error);
    assert!(!row.all());
    assert!(row.any());
    assert_eq!(row.len(), 3);
    let only_error = Row::new().append_opt(Result::Error);
    assert!(!only_error.all());
    assert!(!only_error.any());
}

#[test]
fn row_head_and_tail() {
    let row = Row::new()
        .append_opt(Result::Matched(text("a")))
        .append_opt(Result::Skipped);
    let tail = row.tail();
    assert_eq!(tail.len(), 1);
    assert_eq!(tail.head(), Some(Result::Matched(text("a"))));
    assert_eq!(Row::new().head(), None);
    assert_eq!(Row::new().tail().len(), 0);
}

#[test]
fn row_formats_its_steps() {
    assert_eq!(Row::new().format_results(), "");
    let row = Row::new()
        .append_opt(Result::Skipped)
        .append_opt(Result::Error)
        .append_opt(Result::Matched(Value::Number(120)))
        .append_opt(Result::Matched(text("ing")))
        .append_opt(Result::Matched(Value::List(vec![
            Value::Number(0),
            Value::Pair(Box::new(Value::Unit), Box::new(text(""))),
            Value::List(vec![]),
        ])));
    assert_eq!(row.format_results(), "-, \u{2717}, 120, \"ing\", [0, ((), \"\"), []]");
    let big = Row::new().append_opt(Result::Matched(Value::Number(usize::MAX)));
    assert_eq!(big.format_results(), usize::MAX.to_string());
}

#[test]
fn literal_fails_without_effect() {
    let pattern = lit("hello");
    let input = chars_of("help");
    let mut cursor = Cursor::new(&input);
    let mut dest = text("x");
    let mut ctx = Context::new();
    assert!(!pattern.consume_with_dest(&mut cursor, &mut dest, &mut ctx));
    assert_eq!(cursor.position(), 0);
    assert_eq!(dest, text("x"));
    let input = chars_of("hel");
    let mut cursor = Cursor::new(&input);
    assert!(!pattern.consume_with_dest(&mut cursor, &mut dest, &mut ctx));
    assert_eq!(cursor.position(), 0);
}

#[test]
fn literal_appends_to_the_destination() {
    let pattern = lit("lo");
    let input = chars_of("low");
    let mut cursor = Cursor::new(&input);
    let mut dest = text("hel");
    let mut ctx = Context::new();
    assert!(pattern.consume_with_dest(&mut cursor, &mut dest, &mut ctx));
    assert_eq!(dest, text("hello"));
    assert_eq!(string_of(cursor.rest()), "w");
    assert!(lit("").consume(&mut cursor, &mut ctx));
    assert_eq!(string_of(cursor.rest()), "w");
}

#[test]
fn sequence_is_all_or_nothing() {
    let pattern = Pattern::Sequence(Sequence(vec![
        Pattern::To(To(Box::new(lit("hi")), "a".to_string())),
        lit("ho"),
        lit("ha"),
    ]));
    let mut ctx = Context::new();
    ctx.declare("a", Dest::from(Value::List(vec![])));
    let input = chars_of("hiho");
    let mut cursor = Cursor::new(&input);
    let mut dest = Value::List(vec![Value::Unit]);
    assert!(!pattern.consume_with_dest(&mut cursor, &mut dest, &mut ctx));
    assert_eq!(cursor.position(), 0);
    assert_eq!(dest, Value::List(vec![Value::Unit]));
    assert_eq!(ctx.mark(), 0);
    assert_eq!(ctx.get("a").unwrap().into_inner(), Value::List(vec![]));
    let input = chars_of("hihoha!");
    let mut cursor = Cursor::new(&input);
    assert!(pattern.consume_with_dest(&mut cursor, &mut dest, &mut ctx));
    assert_eq!(cursor.position(), 6);
    assert_eq!(dest, Value::List(vec![Value::Unit, text("hi"), text("ho"), text("ha")]));
    assert_eq!(ctx.get("a").unwrap().into_inner(), Value::List(vec![text("hi")]));
}

#[test]
fn no_drift_from_any_position_of_a_failing_match() {
    let pattern = Pattern::Sequence(Sequence(vec![
        Pattern::ZeroOrMore(Box::new(Pattern::To(To(Box::new(lit("ab")), "n".to_string())))),
        Pattern::Or(Or(vec![lit("abX"), lit("Y")])),
    ]));
    let input = chars_of("abababab");
    for start in 0..=input.len() {
        let mut cursor = Cursor::new(&input);
        for _ in 0..start {
            cursor.next();
        }
        let mut ctx = Context::new();
        ctx.declare("n", Dest::from(Value::List(vec![])));
        let mut dest = Value::List(vec![]);
        assert!(!pattern.consume_with_dest(&mut cursor, &mut dest, &mut ctx));
        assert_eq!(cursor.position(), start);
        assert_eq!(dest, Value::List(vec![]));
        assert_eq!(ctx.mark(), 0);
        assert_eq!(ctx.get("n").unwrap().into_inner(), Value::List(vec![]));
    }
}

#[test]
fn alternatives_are_tried_from_the_left() {
    let pattern = Pattern::Or(Or(vec![lit("ab"), lit("a"), lit("abc")]));
    let input = chars_of("abc");
    let mut cursor = Cursor::new(&input);
    let mut ctx = Context::new();
    let mut dest = text("");
    assert!(pattern.consume_with_dest(&mut cursor, &mut dest, &mut ctx));
    assert_eq!(dest, text("ab"));
    assert_eq!(cursor.position(), 2);
    let empty = Pattern::Or(Or(vec![]));
    assert!(!empty.consume(&mut cursor, &mut ctx));
    assert_eq!(cursor.position(), 2);
}

#[test]
fn a_failed_alternative_leaves_no_capture() {
    let pattern = Pattern::Or(Or(vec![
        Pattern::Sequence(Sequence(vec![
            Pattern::To(To(Box::new(lit("a")), "n".to_string())),
            lit("x"),
        ])),
        Pattern::To(To(Box::new(lit("ab")), "n".to_string())),
    ]));
    let mut ctx = Context::new();
    ctx.declare("n", Dest::from(Value::List(vec![])));
    assert!(pattern.matches(&chars_of("ab"), &mut ctx));
    assert_eq!(ctx.get("n").unwrap().into_inner(), Value::List(vec![text("ab")]));
}

#[test]
fn repetition_of_a_zero_width_pattern_ends() {
    let mut ctx = Context::new();
    let input = chars_of("aaa");
    for inner in [lit(""), Pattern::ZeroOrMore(Box::new(lit("b"))), Pattern::Or(Or(vec![lit(""), lit("a")]))] {
        let inner_copy = match &inner {
            Pattern::Lit(t) => Pattern::Lit(t.clone()),
            _ => lit(""),
        };
        let mut cursor = Cursor::new(&input);
        let zero = Pattern::ZeroOrMore(Box::new(inner));
        assert!(zero.consume(&mut cursor, &mut ctx));
        assert_eq!(cursor.position(), 0);
        let one = Pattern::OneOrMore(Box::new(inner_copy));
        assert!(!one.consume(&mut cursor, &mut ctx));
        assert_eq!(cursor.position(), 0);
    }
    let sep = Pattern::Sep(Sep(Box::new(lit("")), Box::new(lit(""))));
    let mut cursor = Cursor::new(&input);
    let mut dest = Value::List(vec![]);
    assert!(sep.consume_with_dest(&mut cursor, &mut dest, &mut ctx));
    assert_eq!(cursor.position(), 0);
    assert_eq!(dest, Value::List(vec![]));
}

#[test]
fn a_zero_width_round_leaves_no_capture() {
    let pattern = Pattern::ZeroOrMore(Box::new(Pattern::To(To(
        Box::new(Pattern::ZeroOrMore(Box::new(lit("a")))),
        "n".to_string(),
    ))));
    let mut ctx = Context::new();
    let input = chars_of("aab");
    let mut cursor = Cursor::new(&input);
    assert!(pattern.consume(&mut cursor, &mut ctx));
    assert_eq!(cursor.position(), 2);
    assert_eq!(ctx.captured("n"), vec![Value::List(vec![text("a"), text("a")])]);
}

#[test]
fn one_or_more_needs_a_round() {
    let pattern = Pattern::OneOrMore(Box::new(lit("ab")));
    let mut ctx = Context::new();
    let input = chars_of("ababa");
    let mut cursor = Cursor::new(&input);
    let mut dest = Value::List(vec![]);
    assert!(pattern.consume_with_dest(&mut cursor, &mut dest, &mut ctx));
    assert_eq!(cursor.position(), 4);
    assert_eq!(dest, Value::List(vec![text("ab"), text("ab")]));
    let input = chars_of("ba");
    let mut cursor = Cursor::new(&input);
    assert!(!pattern.consume_with_dest(&mut cursor, &mut dest, &mut ctx));
    assert_eq!(cursor.position(), 0);
    assert_eq!(dest, Value::List(vec![text("ab"), text("ab")]));
}

#[test]
fn separated_occurrences_take_a_trailing_separator() {
    let pattern = Pattern::Sep(Sep(Box::new(lit(",")), Box::new(Pattern::Token(num()))));
    let mut ctx = Context::new();
    let input = chars_of("1,22,x");
    let mut cursor = Cursor::new(&input);
    let mut dest = Value::List(vec![]);
    assert!(pattern.consume_with_dest(&mut cursor, &mut dest, &mut ctx));
    assert_eq!(string_of(cursor.rest()), "x");
    assert_eq!(
        dest,
        Value::List(vec![
            Value::Pair(Box::new(text(",")), Box::new(Value::Number(1))),
            Value::Pair(Box::new(text(",")), Box::new(Value::Number(22))),
        ])
    );
    let input = chars_of("1,2");
    let mut cursor = Cursor::new(&input);
    let mut dest = Value::List(vec![]);
    assert!(pattern.consume_with_dest(&mut cursor, &mut dest, &mut ctx));
    assert_eq!(
        dest,
        Value::List(vec![
            Value::Pair(Box::new(text(",")), Box::new(Value::Number(1))),
            Value::Pair(Box::new(text("")), Box::new(Value::Number(2))),
        ])
    );
    let input = chars_of("x");
    let mut cursor = Cursor::new(&input);
    assert!(pattern.consume(&mut cursor, &mut ctx));
    assert_eq!(cursor.position(), 0);
}

#[test]
fn separated_occurrences_go_on_without_a_separator() {
    let pattern = Pattern::Sep(Sep(Box::new(lit(",")), Box::new(lit("ab"))));
    let mut ctx = Context::new();
    let input = chars_of("abab,ab");
    let mut cursor = Cursor::new(&input);
    assert!(pattern.consume(&mut cursor, &mut ctx));
    assert_eq!(cursor.position(), 7);
}

#[test]
fn sep1_needs_its_first_element() {
    let pattern = Pattern::Sep1(Sep1(Sep(Box::new(lit(",")), Box::new(Pattern::Token(num())))));
    let mut ctx = Context::new();
    let input = chars_of(",1");
    let mut cursor = Cursor::new(&input);
    let mut dest = Value::List(vec![]);
    assert!(!pattern.consume_with_dest(&mut cursor, &mut dest, &mut ctx));
    assert_eq!(cursor.position(), 0);
    assert_eq!(dest, Value::List(vec![]));
    let input = chars_of("1,2,3");
    let mut cursor = Cursor::new(&input);
    assert!(pattern.consume_with_dest(&mut cursor, &mut dest, &mut ctx));
    assert_eq!(cursor.position(), 5);
    match dest {
        Value::List(items) => assert_eq!(items.len(), 3),
        _ => panic!("a list"),
    }
}

#[test]
fn identifiers_stand_for_bound_tokens() {
    let pattern = Pattern::Sequence(Sequence(vec![
        Pattern::Ident("NUM".to_string()),
        Pattern::Ident("WS".to_string()),
        Pattern::Ident("ALPHABETIC".to_string()),
    ]));
    let mut ctx = Context::standard();
    let input = chars_of("12  ab");
    let mut cursor = Cursor::new(&input);
    let mut dest = Value::List(vec![]);
    assert!(pattern.consume_with_dest(&mut cursor, &mut dest, &mut ctx));
    assert_eq!(dest, Value::List(vec![Value::Number(12), Value::Unit, text("ab")]));
    let mut bare = Context::new();
    let mut cursor = Cursor::new(&input);
    assert!(!pattern.consume(&mut cursor, &mut bare));
    assert_eq!(cursor.position(), 0);
}

#[test]
fn capture_commits_to_both_destinations() {
    let pattern = Pattern::To(To(Box::new(lit("ab")), "n".to_string()));
    let mut ctx = Context::new();
    ctx.declare("n", Dest::from(text("")));
    let input = chars_of("ab");
    let mut cursor = Cursor::new(&input);
    let mut dest = Value::List(vec![Value::Number(0)]);
    assert!(pattern.consume_with_dest(&mut cursor, &mut dest, &mut ctx));
    assert_eq!(dest, Value::List(vec![Value::Number(0), text("ab")]));
    assert_eq!(ctx.get("n").unwrap().into_inner(), text("ab"));
    let mut cursor = Cursor::new(&input);
    let mut single = Value::Number(0);
    assert!(pattern.consume_with_dest(&mut cursor, &mut single, &mut ctx));
    assert_eq!(single, text("ab"));
}

#[test]
fn capture_leaves_the_destinations_on_failure() {
    let pattern = Pattern::To(To(Box::new(lit("ab")), "n".to_string()));
    let mut ctx = Context::new();
    ctx.declare("n", Dest::from(text("before")));
    let input = chars_of("ax");
    let mut cursor = Cursor::new(&input);
    let mut dest = Value::List(vec![]);
    assert!(!pattern.consume_with_dest(&mut cursor, &mut dest, &mut ctx));
    assert_eq!(dest, Value::List(vec![]));
    assert_eq!(ctx.get("n").unwrap().into_inner(), text("before"));
}

#[test]
fn captures_fan_out_one_for_each_round() {
    let pattern = Pattern::ZeroOrMore(Box::new(Pattern::To(To(
        Box::new(Pattern::Token(num())),
        "n".to_string(),
    ))));
    let separated = Pattern::Sep(Sep(
        Box::new(lit(";")),
        Box::new(Pattern::To(To(Box::new(Pattern::Token(num())), "n".to_string()))),
    ));
    for rounds in 0..5usize {
        let mut ctx = Context::new();
        ctx.declare("n", Dest::from(Value::List(vec![])));
        let source: String = (0..rounds).map(|i| format!("{};", i)).collect();
        let input = chars_of(&source);
        let mut cursor = Cursor::new(&input);
        let mut dest = Value::List(vec![]);
        assert!(separated.consume_with_dest(&mut cursor, &mut dest, &mut ctx));
        assert_eq!(ctx.captured("n").len(), rounds);
        match (dest, ctx.get("n").unwrap().into_inner()) {
            (Value::List(values), Value::List(entries)) => {
                assert_eq!(values.len(), rounds);
                assert_eq!(entries.len(), rounds);
            },
            _ => panic!("lists"),
        }
    }
    let mut ctx = Context::new();
    let input = chars_of("7");
    let mut cursor = Cursor::new(&input);
    let mut dest = Value::List(vec![]);
    assert!(pattern.consume_with_dest(&mut cursor, &mut dest, &mut ctx));
    assert_eq!(dest, Value::List(ctx.captured("n")));
}

#[test]
fn matching_is_anchored() {
    let pattern = lit("ab");
    let mut ctx = Context::new();
    assert!(pattern.matches(&chars_of("ab"), &mut ctx));
    assert!(!pattern.matches(&chars_of("abc"), &mut ctx));
    assert!(!pattern.matches(&chars_of("a"), &mut ctx));
    let input = chars_of("abc");
    let mut cursor = Cursor::new(&input);
    assert!(pattern.consume(&mut cursor, &mut ctx));
    assert_eq!(cursor.position(), 2);
    assert!(match_string::__matches(&pattern, &chars_of("ab"), &mut ctx));
    assert!(!match_string::__matches(&pattern, &chars_of("abc"), &mut ctx));
}

#[test]
fn a_prefix_match_keeps_no_capture() {
    let pattern = Pattern::To(To(Box::new(lit("ab")), "n".to_string()));
    let mut ctx = Context::new();
    assert!(!pattern.matches(&chars_of("abc"), &mut ctx));
    assert_eq!(ctx.mark(), 0);
    assert!(pattern.matches(&chars_of("ab"), &mut ctx));
    assert_eq!(ctx.mark(), 1);
}

#[test]
fn fresh_destinations_follow_the_pattern() {
    assert_eq!(lit("a").fresh_value(), text(""));
    assert_eq!(Pattern::Token(num()).fresh_value(), Value::Unit);
    assert_eq!(Pattern::Sequence(Sequence(vec![])).fresh_value(), Value::List(vec![]));
    assert_eq!(Pattern::Or(Or(vec![lit("a"), Pattern::Token(num())])).fresh_value(), text(""));
    assert_eq!(Pattern::Or(Or(vec![])).fresh_value(), Value::Unit);
    assert_eq!(
        Pattern::To(To(Box::new(lit("a")), "n".to_string())).fresh_value(),
        Value::Unit
    );
}
