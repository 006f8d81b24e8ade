use smorth::numbers::{fmt_i64, parse_i64};
use smorth::report::construct_prefix;
use smorth::tokens::tokenize;
use smorth::ExecutionError;

fn toks(code: &str) -> Vec<String> {
    let mut v = tokenize(code);
    v.reverse();
    v
}

#[test]
fn tokenize_splits_on_spaces_and_newlines() {
    assert_eq!(toks("1 2 +"), vec!["1", "2", "+"]);
    assert_eq!(toks("a\nb"), vec!["a", "b"]);
    assert_eq!(toks("  a   b  "), vec!["a", "b"]);
}

#[test]
fn tokenize_returns_reversed_order() {
    assert_eq!(tokenize("1 2 +"), vec!["+", "2", "1"]);
}

#[test]
fn tokenize_trims_and_drops_empty_pieces() {
    assert_eq!(toks("\ta\r \n\n b\t"), vec!["a", "b"]);
    assert_eq!(toks(""), Vec::<String>::new());
    assert_eq!(toks(" \n \t "), Vec::<String>::new());
}

#[test]
fn parse_accepts_signed_decimal() {
    assert_eq!(parse_i64("0"), Some(0));
    assert_eq!(parse_i64("-42"), Some(-42));
    assert_eq!(parse_i64("+42"), Some(42));
    assert_eq!(parse_i64("007"), Some(7));
    assert_eq!(parse_i64("9223372036854775807"), Some(i64::MAX));
    assert_eq!(parse_i64("-9223372036854775808"), Some(i64::MIN));
}

#[test]
fn parse_rejects_malformed_and_out_of_range() {
    assert_eq!(parse_i64(""), None);
    assert_eq!(parse_i64("-"), None);
    assert_eq!(parse_i64("+"), None);
    assert_eq!(parse_i64("12a"), None);
    assert_eq!(parse_i64("1.5"), None);
    assert_eq!(parse_i64("9223372036854775808"), None);
    assert_eq!(parse_i64("-9223372036854775809"), None);
    assert_eq!(parse_i64("99999999999999999999999"), None);
}

#[test]
fn fmt_renders_decimal() {
    let show = |v: i64| -> String { fmt_i64(v).iter().collect() };
    assert_eq!(show(0), "0");
    assert_eq!(show(42), "42");
    assert_eq!(show(-42), "-42");
    assert_eq!(show(i64::MAX), "9223372036854775807");
    assert_eq!(show(i64::MIN), "-9223372036854775808");
}

#[test]
fn prompt_lists_stack_then_marker() {
    assert_eq!(construct_prefix(&[]), "#> ");
    assert_eq!(construct_prefix(&[1, -2, 30]), "1 -2 30 #> ");
}

#[test]
fn messages_describe_each_error() {
    assert_eq!(ExecutionError::Code(42).message(), "exited with code 42");
    assert_eq!(ExecutionError::StackUnderflow.message(), "stack underflow");
    assert_eq!(
        ExecutionError::NoSuchWord(String::from("foo")).message(),
        "no such word (foo)"
    );
    assert_eq!(ExecutionError::DivisionByZero.message(), "division by zero");
    assert_eq!(ExecutionError::StepLimit.message(), "step limit exhausted");
}
