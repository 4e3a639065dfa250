use qc::error::Error;
use qc::eval::{evaluate, pop_print_all, split_flags, step};
use qc::lexer::lex;

fn run_with_output(text: &str) -> (Result<Vec<i128>, Error>, Vec<i128>) {
    let tokens = lex(text);
    let mut out: Vec<i128> = Vec::new();
    let r = evaluate(&tokens, &mut out);
    (r, out)
}

#[test]
fn evaluate_nothing() {
    let (r, out) = run_with_output("");
    assert_eq!(r, Ok(Vec::new()));
    assert_eq!(out, Vec::new());
}

#[test]
fn pop_token_discards() {
    let (r, out) = run_with_output("1 2 pop");
    assert_eq!(r, Ok(vec![1]));
    assert_eq!(out, Vec::new());
}

#[test]
fn print_pops_one() {
    let (r, out) = run_with_output("1 2 .");
    assert_eq!(r, Ok(vec![1]));
    assert_eq!(out, vec![2]);
}

#[test]
fn print_all_pops_everything_newest_first() {
    let (r, out) = run_with_output("1 2 3 :.");
    assert_eq!(r, Ok(Vec::new()));
    assert_eq!(out, vec![3, 2, 1]);
}

#[test]
fn print_all_on_empty_stack_is_no_error() {
    let (r, out) = run_with_output(":.");
    assert_eq!(r, Ok(Vec::new()));
    assert_eq!(out, Vec::new());
}

#[test]
fn print_on_empty_stack_underflows() {
    let (r, out) = run_with_output(".");
    assert_eq!(r, Err(Error::StackUnderflow));
    assert_eq!(out, Vec::new());
}

#[test]
fn output_before_an_error_is_kept() {
    let (r, out) = run_with_output("7 . pop");
    assert_eq!(r, Err(Error::StackUnderflow));
    assert_eq!(out, vec![7]);
}

#[test]
fn first_error_aborts_the_pass() {
    let (r, _) = run_with_output("zzz 1 2 add");
    assert_eq!(r, Err(Error::ParseError));
}

#[test]
fn step_processes_one_token() {
    let mut stack: Vec<i128> = vec![1, 2];
    let mut out: Vec<i128> = Vec::new();
    assert_eq!(step(&mut stack, &mut out, "add"), Ok(()));
    assert_eq!(stack, vec![3]);
    assert_eq!(step(&mut stack, &mut out, "."), Ok(()));
    assert_eq!(stack, Vec::new());
    assert_eq!(out, vec![3]);
}

#[test]
fn pop_print_all_empties_the_stack() {
    let mut stack: Vec<i128> = vec![1, 2, 3];
    let mut out: Vec<i128> = vec![9];
    pop_print_all(&mut stack, &mut out);
    assert_eq!(stack, Vec::new());
    assert_eq!(out, vec![9, 3, 2, 1]);
}

#[test]
fn split_flags_partitions() {
    let args = vec![
        "--verbose".to_string(),
        "1".to_string(),
        "2".to_string(),
        "add".to_string(),
    ];
    let (flags, program) = split_flags(&args);
    assert_eq!(flags, vec!["--verbose".to_string()]);
    assert_eq!(
        program,
        vec!["1".to_string(), "2".to_string(), "add".to_string()]
    );
}

#[test]
fn split_flags_keeps_order() {
    let args = vec![
        "1".to_string(),
        "--a".to_string(),
        "2".to_string(),
        "--b".to_string(),
    ];
    let (flags, program) = split_flags(&args);
    assert_eq!(flags, vec!["--a".to_string(), "--b".to_string()]);
    assert_eq!(program, vec!["1".to_string(), "2".to_string()]);
}

#[test]
fn describe_names_each_error() {
    assert_eq!(Error::StackUnderflow.describe(), "stack underflow");
    assert_eq!(Error::DivideByZero.describe(), "division by zero");
    assert_eq!(
        Error::EndianWidth { width: 10 }.describe(),
        "endian width out of range"
    );
    assert_eq!(
        Error::ParseError.describe(),
        "could not parse token as a number"
    );
}
