//! The value stack and its pairwise binary operators.
//!
//! Arithmetic follows two's-complement wrapping semantics on `i128`;
//! division truncates toward zero and reports a zero divisor as
//! [`Error::DivideByZero`]. An operator that needs more operands than the
//! stack holds fails atomically with [`Error::StackUnderflow`]: the stack
//! is left exactly as it was.

use vstd::prelude::*;

use crate::error::Error;

verus! {

/// The four binary operator tokens.
#[derive(Debug, Clone, Copy, PartialEq, Eq, Structural)]
pub enum BinOp {
    Add,
    Sub,
    Mul,
    Div,
}

/// Truncated (round-toward-zero) integer division, the meaning of Rust's
/// `/` on signed integers.
pub open spec fn trunc_div(x: int, d: int) -> int
    recommends
        d != 0,
{
    if x == 0 {
        0
    } else if x > 0 && d > 0 {
        x / d
    } else if x < 0 && d < 0 {
        (-x) / (-d)
    } else if x < 0 {
        -((-x) / d)
    } else {
        -(x / (-d))
    }
}

/// The arithmetic meaning of a binary operator applied to `b` (the value
/// beneath the top of the stack, the left operand) and `a` (the top of the
/// stack, the right operand), wrapped into the `i128` range.
///
/// Division requires `a != 0`; the one quotient out of range,
/// `i128::MIN / -1`, wraps to `i128::MIN` like the other operators do.
pub open spec fn op_val(op: BinOp, b: i128, a: i128) -> i128
    recommends
        op_defined(op, b, a),
{
    match op {
        BinOp::Add => vstd::wrapping::i128_specs::wrapping_add(b, a),
        BinOp::Sub => vstd::wrapping::i128_specs::wrapping_sub(b, a),
        BinOp::Mul => vstd::wrapping::i128_specs::wrapping_mul(b, a),
        BinOp::Div => if b == i128::MIN && a == -1 {
            i128::MIN
        } else {
            trunc_div(b as int, a as int) as i128
        },
    }
}

/// Whether applying `op` to `b` and `a` is a domain-level success:
/// only division by zero is excluded.
pub open spec fn op_defined(op: BinOp, b: i128, a: i128) -> bool {
    op == BinOp::Div ==> a != 0
}

/// What one pairwise operator does to a stack: pop `a` (top) and `b`
/// (beneath it), push `b op a`.
pub open spec fn bin_result(op: BinOp, s: Seq<i128>) -> Result<Seq<i128>, Error> {
    if s.len() < 2 {
        Err(Error::StackUnderflow)
    } else if !op_defined(op, s[s.len() - 2], s[s.len() - 1]) {
        Err(Error::DivideByZero)
    } else {
        Ok(s.drop_last().drop_last().push(op_val(op, s[s.len() - 2], s[s.len() - 1])))
    }
}

/// The contract every pairwise operator function meets: on success the
/// stack becomes `bin_result`'s sequence (one value shorter), on failure
/// the reported error matches and the stack is untouched.
pub open spec fn bin_post(
    op: BinOp,
    pre: Seq<i128>,
    post: Seq<i128>,
    r: Result<(), Error>,
) -> bool {
    match bin_result(op, pre) {
        Ok(s) => r == Ok::<(), Error>(()) && post == s,
        Err(e) => r == Err::<(), Error>(e) && post == pre,
    }
}

/// Pops one value off the stack; underflow on an empty stack leaves the
/// stack untouched and never panics.
pub fn pop(stack: &mut Vec<i128>) -> (r: Result<i128, Error>)
    ensures
        old(stack)@.len() == 0 ==> r == Err::<i128, Error>(Error::StackUnderflow) && final(stack)@
            == old(stack)@,
        old(stack)@.len() > 0 ==> r == Ok::<i128, Error>(old(stack)@.last()) && final(stack)@
            == old(stack)@.drop_last(),
{
    match stack.pop() {
        Some(x) => Ok(x),
        None => Err(Error::StackUnderflow),
    }
}

/// Truncated division with the quotient wrapped into the `i128` range,
/// the meaning of `op_val` for `BinOp::Div`.
fn div_wrap(b: i128, a: i128) -> (q: i128)
    requires
        a != 0,
    ensures
        q == op_val(BinOp::Div, b, a),
{
    proof {
        lemma_trunc_div_in_range(b as int, a as int);
    }
    match b.checked_div(a) {
        Some(q) => q,
        None => i128::MIN,
    }
}

/// Away from `i128::MIN / -1`, truncated division of `i128` values stays
/// in the `i128` range; at that one point the quotient is `-i128::MIN`.
proof fn lemma_trunc_div_in_range(x: int, d: int)
    requires
        i128::MIN <= x <= i128::MAX,
        i128::MIN <= d <= i128::MAX,
        d != 0,
    ensures
        x == i128::MIN && d == -1 ==> trunc_div(x, d) == -(i128::MIN as int),
        !(x == i128::MIN && d == -1) ==> i128::MIN <= trunc_div(x, d) <= i128::MAX,
{
    if x != 0 {
        let px: int = if x > 0 {
            x
        } else {
            -x
        };
        let pd: int = if d > 0 {
            d
        } else {
            -d
        };
        let q = px / pd;
        vstd::arithmetic::div_mod::lemma_div_pos_is_pos(px, pd);
        vstd::arithmetic::div_mod::lemma_div_nonincreasing(px, pd);
        if pd == 1 {
            vstd::arithmetic::div_mod::lemma_div_basics(px);
        } else {
            vstd::arithmetic::div_mod::lemma_fundamental_div_mod(px, pd);
            vstd::arithmetic::div_mod::lemma_mod_bound(px, pd);
            vstd::arithmetic::mul::lemma_mul_inequality(2, pd, q);
        }
    }
}

/// Applies one binary operator to a pair of operands.
pub(crate) fn apply_op(op: BinOp, b: i128, a: i128) -> (v: i128)
    requires
        op_defined(op, b, a),
    ensures
        v == op_val(op, b, a),
{
    match op {
        BinOp::Add => b.wrapping_add(a),
        BinOp::Sub => b.wrapping_sub(a),
        BinOp::Mul => b.wrapping_mul(a),
        BinOp::Div => div_wrap(b, a),
    }
}

/// Executes one pairwise binary operator against the stack.
pub fn bin_op(stack: &mut Vec<i128>, op: BinOp) -> (r: Result<(), Error>)
    ensures
        bin_post(op, old(stack)@, final(stack)@, r),
{
    if stack.len() < 2 {
        return Err(Error::StackUnderflow);
    }
    let a = stack[stack.len() - 1];
    let b = stack[stack.len() - 2];
    if matches!(op, BinOp::Div) && a == 0 {
        return Err(Error::DivideByZero);
    }
    let v = apply_op(op, b, a);
    let _ = stack.pop();
    let _ = stack.pop();
    stack.push(v);
    Ok(())
}

/// Pops the top two values, adds them, and pushes the sum.
pub fn add(stack: &mut Vec<i128>) -> (r: Result<(), Error>)
    ensures
        bin_post(BinOp::Add, old(stack)@, final(stack)@, r),
{
    bin_op(stack, BinOp::Add)
}

/// Pops the top two values, subtracts the top from the one beneath it,
/// and pushes the difference.
pub fn sub(stack: &mut Vec<i128>) -> (r: Result<(), Error>)
    ensures
        bin_post(BinOp::Sub, old(stack)@, final(stack)@, r),
{
    bin_op(stack, BinOp::Sub)
}

/// Pops the top two values, multiplies them, and pushes the product.
pub fn mul(stack: &mut Vec<i128>) -> (r: Result<(), Error>)
    ensures
        bin_post(BinOp::Mul, old(stack)@, final(stack)@, r),
{
    bin_op(stack, BinOp::Mul)
}

/// Pops the top two values, divides the one beneath the top by the top,
/// and pushes the quotient.
pub fn div(stack: &mut Vec<i128>) -> (r: Result<(), Error>)
    ensures
        bin_post(BinOp::Div, old(stack)@, final(stack)@, r),
{
    bin_op(stack, BinOp::Div)
}

} // verus!
