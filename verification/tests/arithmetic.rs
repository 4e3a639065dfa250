use qc::error::Error;
use qc::eval::evaluate;
use qc::lexer::lex;

fn run_text(text: &str) -> Result<Vec<i128>, Error> {
    let tokens = lex(text);
    let mut out: Vec<i128> = Vec::new();
    evaluate(&tokens, &mut out)
}

fn expect_stack(text: &str, want: &[i128]) {
    let have = run_text(text).expect("Expected success");
    assert_eq!(have, want.to_vec());
}

fn expect_error(text: &str, want: Error) {
    let have = run_text(text).expect_err("Expected error");
    assert_eq!(have, want);
}

/* Errors */

#[test]
fn pop_empty() {
    expect_error("pop", Error::StackUnderflow);
}

#[test]
fn add_underflow() {
    expect_error("1 add", Error::StackUnderflow);
}

/* add */

#[test]
fn add_two_args() {
    expect_stack("1 2 add", &[3]);
}

#[test]
fn add_three_args() {
    expect_stack("1 2 3 add", &[1, 5]);
}

#[test]
fn add_all_two_args() {
    expect_stack("1 2 :add", &[3]);
}

#[test]
fn add_all_three_args() {
    expect_stack("1 2 3 :add", &[6]);
}

/* sub */

#[test]
fn sub_two_args() {
    expect_stack("1 2 sub", &[-1]);
}

#[test]
fn sub_three_args() {
    expect_stack("1 2 3 sub", &[1, -1]);
}

#[test]
fn sub_all_two_args() {
    expect_stack("1 2 :sub", &[-1]);
}

#[test]
fn sub_all_three_args() {
    expect_stack("1 2 3 :sub", &[2]);
}

/* mul */

#[test]
fn mul_two_args() {
    expect_stack("2 3 mul", &[6]);
}

#[test]
fn mul_three_args() {
    expect_stack("1 2 3 mul", &[1, 6]);
}

#[test]
fn mul_all_two_args() {
    expect_stack("2 4 :mul", &[8]);
}

#[test]
fn mul_all_three_args() {
    expect_stack("1 2 3 :mul", &[6]);
}

/* div */

#[test]
fn div_two_args() {
    expect_stack("9 3 div", &[3]);
}

#[test]
fn div_three_args() {
    expect_stack("1 6 2 div", &[1, 3]);
}

#[test]
fn div_all_two_args() {
    expect_stack("9 3 :div", &[3]);
}

#[test]
fn div_all_three_args() {
    expect_stack("6 2 1 :div", &[3]);
}

/* longer folds pin the fold direction */

#[test]
fn add_all_five_args() {
    expect_stack("1 2 3 4 5 :add", &[15]);
}

#[test]
fn sub_all_four_args() {
    // 1 - (2 - (3 - 4))
    expect_stack("1 2 3 4 :sub", &[-2]);
}

#[test]
fn mul_all_with_negative() {
    expect_stack("-2 3 :mul", &[-6]);
}

/* miscellaneous binary calcs */

#[test]
fn add_three_mul_two() {
    expect_stack("4 7 9 add 2 8 mul", &[4, 16, 16]);
}

#[test]
fn add_two_mul_two() {
    expect_stack("4 7 9 add add 2 8 mul mul", &[320]);
}

/* division policy */

#[test]
fn div_by_zero() {
    expect_error("1 0 div", Error::DivideByZero);
}

#[test]
fn div_all_by_zero_mid_fold() {
    // seed: 0 / 3 == 0; next step divides 5 by the zero accumulator
    expect_error("5 0 3 :div", Error::DivideByZero);
}

#[test]
fn div_truncates_toward_zero() {
    expect_stack("-7 2 div", &[-3]);
    expect_stack("7 -2 div", &[-3]);
    expect_stack("-7 -2 div", &[3]);
}

#[test]
fn div_min_by_minus_one_wraps() {
    expect_stack("-170141183460469231731687303715884105728 -1 div", &[i128::MIN]);
}

/* wrapping arithmetic at the edges of the i128 range */

#[test]
fn add_wraps_at_max() {
    expect_stack("170141183460469231731687303715884105727 1 add", &[i128::MIN]);
}

#[test]
fn sub_wraps_at_min() {
    expect_stack("-170141183460469231731687303715884105728 1 sub", &[i128::MAX]);
}

/* underflow leaves the stack untouched */

#[test]
fn add_underflow_is_atomic() {
    let mut stack: Vec<i128> = vec![5];
    let r = qc::stack::add(&mut stack);
    assert_eq!(r, Err(Error::StackUnderflow));
    assert_eq!(stack, vec![5]);
}

#[test]
fn fold_underflow_is_atomic() {
    let mut stack: Vec<i128> = vec![5];
    let r = qc::fold::div_all(&mut stack);
    assert_eq!(r, Err(Error::StackUnderflow));
    assert_eq!(stack, vec![5]);
}

#[test]
fn div_by_zero_is_atomic() {
    let mut stack: Vec<i128> = vec![7, 0];
    let r = qc::stack::div(&mut stack);
    assert_eq!(r, Err(Error::DivideByZero));
    assert_eq!(stack, vec![7, 0]);
}
