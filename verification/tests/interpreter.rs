use smorth::eval::State;
use smorth::tokens::tokenize;
use smorth::ExecutionError;

fn run(state: &mut State, code: &str, input: &str) -> (Result<(), ExecutionError>, String) {
    let mut words = tokenize(code);
    let mut out: Vec<char> = Vec::new();
    let mut inp: Vec<char> = input.chars().collect();
    let r = state.do_word(&mut words, &mut out, &mut inp);
    (r, out.iter().collect())
}

fn eval(code: &str) -> (State, Result<(), ExecutionError>, String) {
    let mut state = State::default();
    let (r, out) = run(&mut state, code, "");
    (state, r, out)
}

#[test]
fn addition_pushes_sum() {
    let (state, r, _) = eval("1 2 +");
    assert!(r.is_ok());
    assert_eq!(state.stack, vec![3]);
}

#[test]
fn subtraction_left_operand_is_pushed_earlier() {
    let (state, r, _) = eval("10 3 -");
    assert!(r.is_ok());
    assert_eq!(state.stack, vec![7]);
}

#[test]
fn multiplication_and_division() {
    let (state, r, _) = eval("6 7 *");
    assert!(r.is_ok());
    assert_eq!(state.stack, vec![42]);
    let (state, r, _) = eval("17 5 /");
    assert!(r.is_ok());
    assert_eq!(state.stack, vec![3]);
    let (state, r, _) = eval("-17 5 /");
    assert!(r.is_ok());
    assert_eq!(state.stack, vec![-3]);
}

#[test]
fn comparisons_use_true_and_false_convention() {
    let (state, r, _) = eval("1 2 < 2 1 < 1 1 =");
    assert!(r.is_ok());
    assert_eq!(state.stack, vec![-1, 0, -1]);
    let (state, r, _) = eval("2 1 > 1 2 >");
    assert!(r.is_ok());
    assert_eq!(state.stack, vec![-1, 0]);
}

#[test]
fn bitwise_words_double_as_logic() {
    let (state, r, _) = eval("-1 0 and -1 0 or 0 not");
    assert!(r.is_ok());
    assert_eq!(state.stack, vec![0, -1, -1]);
    let (state, r, _) = eval("5 invert");
    assert!(r.is_ok());
    assert_eq!(state.stack, vec![!5i64]);
}

#[test]
fn dup_duplicates_top() {
    let (state, r, _) = eval("5 dup");
    assert!(r.is_ok());
    assert_eq!(state.stack, vec![5, 5]);
}

#[test]
fn swap_exchanges_top_two() {
    let (state, r, _) = eval("1 2 swap");
    assert!(r.is_ok());
    assert_eq!(state.stack, vec![2, 1]);
}

#[test]
fn rot_rotates_top_three() {
    let (state, r, _) = eval("1 2 3 rot");
    assert!(r.is_ok());
    assert_eq!(state.stack, vec![2, 3, 1]);
}

#[test]
fn over_copies_second() {
    let (state, r, _) = eval("1 2 over");
    assert!(r.is_ok());
    assert_eq!(state.stack, vec![1, 2, 1]);
}

#[test]
fn drop_removes_top() {
    let (state, r, _) = eval("1 2 drop");
    assert!(r.is_ok());
    assert_eq!(state.stack, vec![1]);
}

#[test]
fn dup_on_empty_stack_underflows() {
    let (_, r, _) = eval("dup");
    assert_eq!(r, Err(ExecutionError::StackUnderflow));
}

#[test]
fn shuffles_underflow_rather_than_panic() {
    assert_eq!(eval("1 swap").1, Err(ExecutionError::StackUnderflow));
    assert_eq!(eval("1 over").1, Err(ExecutionError::StackUnderflow));
    assert_eq!(eval("1 2 rot").1, Err(ExecutionError::StackUnderflow));
    assert_eq!(eval("drop").1, Err(ExecutionError::StackUnderflow));
    assert_eq!(eval("not").1, Err(ExecutionError::StackUnderflow));
    assert_eq!(eval(".").1, Err(ExecutionError::StackUnderflow));
    assert_eq!(eval("1 +").1, Err(ExecutionError::StackUnderflow));
}

#[test]
fn undefined_word_reports_its_name() {
    let (_, r, _) = eval("foo");
    assert_eq!(r, Err(ExecutionError::NoSuchWord(String::from("foo"))));
}

#[test]
fn definition_and_call() {
    let mut state = State::default();
    let (r, _) = run(&mut state, ": double dup + ;", "");
    assert!(r.is_ok());
    let (r, _) = run(&mut state, "21 double", "");
    assert!(r.is_ok());
    assert_eq!(state.stack, vec![42]);
}

#[test]
fn definition_without_delimiter_underflows() {
    let (_, r, _) = eval(": broken 1 2");
    assert_eq!(r, Err(ExecutionError::StackUnderflow));
}

#[test]
fn redefinition_overwrites() {
    let mut state = State::default();
    run(&mut state, ": w 1 ;", "").0.unwrap();
    run(&mut state, ": w 2 ;", "").0.unwrap();
    run(&mut state, "w", "").0.unwrap();
    assert_eq!(state.stack, vec![2]);
}

#[test]
fn late_binding_changes_earlier_callers() {
    let mut state = State::default();
    run(&mut state, ": w2 1 ;", "").0.unwrap();
    run(&mut state, ": w1 w2 ;", "").0.unwrap();
    run(&mut state, "w1", "").0.unwrap();
    assert_eq!(state.stack, vec![1]);
    run(&mut state, ": w2 2 ;", "").0.unwrap();
    run(&mut state, "w1", "").0.unwrap();
    assert_eq!(state.stack, vec![1, 2]);
}

#[test]
fn division_by_zero_is_an_error() {
    let (_, r, _) = eval("1 0 /");
    assert_eq!(r, Err(ExecutionError::DivisionByZero));
}

#[test]
fn division_of_min_by_minus_one_wraps() {
    let (state, r, _) = eval("-9223372036854775808 -1 /");
    assert!(r.is_ok());
    assert_eq!(state.stack, vec![i64::MIN]);
}

#[test]
fn arithmetic_wraps_around() {
    let (state, r, _) = eval("9223372036854775807 1 +");
    assert!(r.is_ok());
    assert_eq!(state.stack, vec![i64::MIN]);
}

#[test]
fn if_with_true_condition_takes_then_branch() {
    let (_, r, out) = eval("1 if 111 else 222 then .");
    assert!(r.is_ok());
    assert_eq!(out, "111 ");
}

#[test]
fn if_with_false_condition_takes_else_branch() {
    let (_, r, out) = eval("0 if 111 else 222 then .");
    assert!(r.is_ok());
    assert_eq!(out, "222 ");
}

#[test]
fn if_without_else_skips_when_false() {
    let (state, r, out) = eval("0 if 111 then 5 .");
    assert!(r.is_ok());
    assert_eq!(out, "5 ");
    assert_eq!(state.stack, Vec::<i64>::new());
}

#[test]
fn if_without_matching_then_underflows() {
    let (_, r, _) = eval("1 if 111");
    assert_eq!(r, Err(ExecutionError::StackUnderflow));
}

#[test]
fn exit_carries_the_popped_code() {
    let (_, r, _) = eval("42 exit");
    assert_eq!(r, Err(ExecutionError::Code(42)));
}

#[test]
fn exit_propagates_from_inside_a_word() {
    let mut state = State::default();
    run(&mut state, ": boom 42 exit ;", "").0.unwrap();
    let (r, _) = run(&mut state, "boom 7", "");
    assert_eq!(r, Err(ExecutionError::Code(42)));
}

#[test]
fn exit_propagates_from_inside_a_branch() {
    let (_, r, _) = eval("1 if 42 exit then 7");
    assert_eq!(r, Err(ExecutionError::Code(42)));
}

#[test]
fn print_pops_and_formats_decimal() {
    let (state, r, out) = eval("-5 . 0 .");
    assert!(r.is_ok());
    assert_eq!(out, "-5 0 ");
    assert_eq!(state.stack, Vec::<i64>::new());
}

#[test]
fn cr_prints_a_newline() {
    let (_, r, out) = eval("1 . cr 2 .");
    assert!(r.is_ok());
    assert_eq!(out, "1 \n2 ");
}

#[test]
fn emit_prints_the_character() {
    let (_, r, out) = eval("97 emit 955 emit");
    assert!(r.is_ok());
    assert_eq!(out, "a\u{3bb}");
}

#[test]
fn emit_substitutes_replacement_for_invalid_code() {
    let (_, r, out) = eval("55296 emit");
    assert!(r.is_ok());
    assert_eq!(out, "\u{FFFD}");
}

#[test]
fn print_string_writes_tokens_with_spaces() {
    let (_, r, out) = eval(".\" hello there \" 1 .");
    assert!(r.is_ok());
    assert_eq!(out, "hello there 1 ");
}

#[test]
fn print_string_without_closing_quote_underflows() {
    let (_, r, _) = eval(".\" hello");
    assert_eq!(r, Err(ExecutionError::StackUnderflow));
}

#[test]
fn key_pushes_next_input_character() {
    let mut state = State::default();
    let (r, _) = run(&mut state, "key key", "ab");
    assert!(r.is_ok());
    assert_eq!(state.stack, vec![97, 98]);
}

#[test]
fn key_at_end_of_input_pushes_sentinel() {
    let mut state = State::default();
    let (r, _) = run(&mut state, "key", "");
    assert!(r.is_ok());
    assert_eq!(state.stack, vec![-1]);
}

#[test]
fn read_drains_all_input_code_points() {
    let mut state = State::default();
    let (r, _) = run(&mut state, "read", "hi");
    assert!(r.is_ok());
    assert_eq!(state.stack, vec![104, 105]);
    let (r, _) = run(&mut state, "key", "");
    assert!(r.is_ok());
    assert_eq!(state.stack, vec![104, 105, -1]);
}

#[test]
fn numeric_literals_parse_at_the_edges() {
    let (state, r, _) = eval("9223372036854775807 -9223372036854775808 +007 -0");
    assert!(r.is_ok());
    assert_eq!(state.stack, vec![i64::MAX, i64::MIN, 7, 0]);
}

#[test]
fn out_of_range_literal_is_no_word() {
    let (_, r, _) = eval("9223372036854775808");
    assert_eq!(
        r,
        Err(ExecutionError::NoSuchWord(String::from("9223372036854775808")))
    );
}

#[test]
fn step_budget_limits_runaway_recursion() {
    let mut state = State::default();
    run(&mut state, ": loopy loopy ;", "").0.unwrap();
    let mut words = tokenize("loopy");
    let mut out: Vec<char> = Vec::new();
    let mut inp: Vec<char> = Vec::new();
    let r = state.do_word_bounded(&mut words, &mut out, &mut inp, 10_000);
    assert_eq!(r, Err(ExecutionError::StepLimit));
}

#[test]
fn branch_inside_a_word_body() {
    let mut state = State::default();
    run(&mut state, ": abs dup 0 < if 0 swap - then ;", "").0.unwrap();
    run(&mut state, "-5 abs 5 abs", "").0.unwrap();
    assert_eq!(state.stack, vec![5, 5]);
}

#[test]
fn nested_if_is_not_supported() {
    // The scanner stops at the first `then` regardless of nesting, so the
    // inner `if` is left without a matching delimiter.
    let (_, r, _) = eval("1 if 1 if 111 then then .");
    assert_eq!(r, Err(ExecutionError::StackUnderflow));
}

#[test]
fn state_persists_across_evaluations() {
    let mut state = State::default();
    run(&mut state, "1 2", "").0.unwrap();
    run(&mut state, "+", "").0.unwrap();
    assert_eq!(state.stack, vec![3]);
}

#[test]
fn builtins_cannot_be_shadowed() {
    // Builtins win over the dictionary: a stored body under a builtin
    // name never runs.
    let mut state = State::default();
    run(&mut state, ": dup 7 ;", "").0.unwrap();
    run(&mut state, "1 dup", "").0.unwrap();
    assert_eq!(state.stack, vec![1, 1]);
}
