use match_string::base::{Or, Pattern, Sequence, To};
use match_string::cursor::{chars_of, Checkpoint, Iterable};
use match_string::dest::{Context, Dest};
use match_string::exts::num;
use match_string::value::Value;

fn text(s: &str) -> Value {
    Value::Text(s.chars().collect())
}

fn string_of(chars: Vec<char>) -> String {
    chars.into_iter().collect()
}

#[test]
fn test_str_pattern() {
    let pattern = Pattern::Sequence(Sequence(vec![
        Pattern::Or(Or(vec![Pattern::lit("hello"), Pattern::lit("hi")])),
        Pattern::lit(", world!"),
    ]));
    let input = chars_of("hi, world!");
    let mut reference = Checkpoint::new(input.get_iter());
    let mut ctx = Context::new();
    let result = pattern.consume(&mut reference, &mut ctx);
    println!("Result: {}", result);
    let remaining = string_of(reference.collect());
    println!("Remaining: {}", remaining);
    assert!(result);
    assert_eq!(remaining, "");
}

#[test]
fn test_to_pattern() {
    let mut ctx = Context::new();
    ctx.declare("dest", Dest::from(Value::Text(Vec::new())));
    let pattern = Pattern::Sequence(Sequence(vec![
        Pattern::Or(Or(vec![Pattern::lit("hello"), Pattern::lit("hi")])),
        Pattern::To(To(Box::new(Pattern::lit(", world!")), "dest".to_string())),
    ]));
    let reference = chars_of("hi, world!");
    let result = pattern.matches(&reference, &mut ctx);
    println!("Result: {}", result);
    let dest = ctx.get("dest").unwrap().into_inner();
    println!("Destination: {:?}", dest);
    assert!(result);
    assert_eq!(dest, text(", world!"));
}

#[test]
fn test_seq_pattern() {
    let pattern = Pattern::Sequence(Sequence(vec![
        Pattern::lit("hi"),
        Pattern::lit("ho"),
        Pattern::lit("ha"),
    ]));
    let input = chars_of("hihoha");
    let mut reference = Checkpoint::new(input.get_iter());
    let mut ctx = Context::new();
    let result = pattern.consume(&mut reference, &mut ctx);
    println!("Result: {}", result);
    let remaining = string_of(reference.collect());
    println!("Remaining: {}", remaining);
    assert!(result);
    assert_eq!(remaining, "");
}

#[test]
fn test_many_pattern() {
    let mut ctx = Context::new();
    ctx.declare("dest", Dest::from(Value::List(Vec::new())));
    let pattern = Pattern::ZeroOrMore(Box::new(Pattern::Sequence(Sequence(vec![
        Pattern::lit("wait"),
        Pattern::To(To(Box::new(Pattern::lit("ing")), "dest".to_string())),
    ]))));
    let input = chars_of("waitingwaitingdone");
    let mut reference = Checkpoint::new(input.get_iter());
    let result = pattern.consume(&mut reference, &mut ctx);
    println!("Result: {}", result);
    let remaining = string_of(reference.collect());
    println!("Remaining: {}", remaining);
    let dest = ctx.get("dest").unwrap().into_inner();
    println!("Destination: {:?}", dest);
    assert!(result);
    assert_eq!(remaining, "done");
    assert_eq!(dest, Value::List(vec![text("ing"), text("ing")]));
}

#[test]
fn test_num_pattern() {
    let mut ctx = Context::new();
    ctx.declare("dest", Dest::from(Value::List(Vec::new())));
    ctx.declare("dest2", Dest::new());
    let pattern = Pattern::To(To(
        Box::new(Pattern::ZeroOrMore(Box::new(Pattern::Sequence(Sequence(vec![
            Pattern::lit("a"),
            Pattern::Token(num()),
        ]))))),
        "dest2".to_string(),
    ));
    let input = chars_of("a1a2a3done");
    let mut reference = Checkpoint::new(input.get_iter());
    let result = pattern.consume(&mut reference, &mut ctx);
    println!("Result: {}", result);
    let remaining = string_of(reference.collect());
    println!("Remaining: {}", remaining);
    let dest = ctx.get("dest").unwrap().into_inner();
    let dest2 = ctx.get("dest2").unwrap().into_inner();
    println!("Destination: {:?}", dest);
    println!("Destination2: {:?}", dest2);
    assert!(result);
    assert_eq!(remaining, "done");
    assert_eq!(dest, Value::List(vec![]));
    assert_eq!(
        dest2,
        Value::List(vec![
            Value::List(vec![text("a"), Value::Number(1)]),
            Value::List(vec![text("a"), Value::Number(2)]),
            Value::List(vec![text("a"), Value::Number(3)]),
        ])
    );
}

#[test]
fn sequence_fails_on_a_short_input_and_leaves_the_cursor() {
    let pattern = Pattern::Sequence(Sequence(vec![
        Pattern::lit("hi"),
        Pattern::lit("ho"),
        Pattern::lit("ha"),
    ]));
    let input = chars_of("hiho");
    let mut reference = Checkpoint::new(input.get_iter());
    let mut ctx = Context::new();
    let result = pattern.consume(&mut reference, &mut ctx);
    assert!(!result);
    assert_eq!(string_of(reference.collect()), "hiho");
}

#[test]
fn numbers_behind_a_letter_are_captured_in_order() {
    let mut ctx = Context::new();
    ctx.declare("numbers", Dest::from(Value::List(Vec::new())));
    let pattern = Pattern::ZeroOrMore(Box::new(Pattern::Sequence(Sequence(vec![
        Pattern::lit("a"),
        Pattern::to(Pattern::Token(num()), "numbers"),
    ]))));
    let input = chars_of("a1a2a3done");
    let mut reference = Checkpoint::new(input.get_iter());
    assert!(pattern.consume(&mut reference, &mut ctx));
    assert_eq!(string_of(reference.collect()), "done");
    assert_eq!(
        ctx.get("numbers").unwrap().into_inner(),
        Value::List(vec![Value::Number(1), Value::Number(2), Value::Number(3)])
    );
}

#[test]
fn a_checkpoint_in_a_trial_can_be_matched_on_and_rolled_back() {
    let input = chars_of("hihoXY");
    let mut reference = Checkpoint::new(input.get_iter());
    let mut ctx = Context::new();
    reference.begin();
    assert!(Pattern::lit("hi").consume(&mut reference, &mut ctx));
    assert!(Pattern::lit("ho").consume(&mut reference, &mut ctx));
    assert!(!Pattern::lit("ha").consume(&mut reference, &mut ctx));
    reference.rollback();
    assert_eq!(string_of(reference.collect()), "hihoXY");
}

#[test]
fn builders_make_the_patterns() {
    assert_eq!(Pattern::lit("ab"), Pattern::Lit(vec!['a', 'b']));
    assert_eq!(Pattern::ident("NUM"), Pattern::Ident("NUM".to_string()));
    assert_eq!(
        Pattern::to(Pattern::lit("a"), "n"),
        Pattern::To(To(Box::new(Pattern::Lit(vec!['a'])), "n".to_string()))
    );
}
