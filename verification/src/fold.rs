//! The reduce-all operators: `:op` collapses the whole stack into one value.
//!
//! The fold consumes the stack from the top down. The accumulator is
//! seeded with the ordinary two-operand result `b op a` (`a` the top,
//! `b` beneath it), and every older value `v` then enters as the new
//! *left* operand against the accumulator: `acc := v op acc`. Read
//! bottom-up, the collapsed value is the right fold
//! `s[0] op (s[1] op (... op (s[n-2], s[n-1])))`.

use vstd::prelude::*;

use crate::error::Error;
use crate::stack::{op_defined, op_val, BinOp};

verus! {

/// The value the fold of `op` over the whole stack `s` produces.
pub open spec fn fold_val(op: BinOp, s: Seq<i128>) -> i128
    recommends
        s.len() >= 1,
    decreases s.len(),
{
    if s.len() <= 1 {
        s[0]
    } else {
        op_val(op, s[0], fold_val(op, s.drop_first()))
    }
}

/// Whether every step of the fold is defined, i.e. no step of a `:div`
/// fold divides by zero.
pub open spec fn fold_defined(op: BinOp, s: Seq<i128>) -> bool
    decreases s.len(),
{
    s.len() <= 1 || (op_defined(op, s[0], fold_val(op, s.drop_first())) && fold_defined(
        op,
        s.drop_first(),
    ))
}

/// What a fold operator does to the stack: with at least two values the
/// stack collapses to the single folded value; with fewer it underflows.
pub open spec fn fold_result(op: BinOp, s: Seq<i128>) -> Result<Seq<i128>, Error> {
    if s.len() < 2 {
        Err(Error::StackUnderflow)
    } else if !fold_defined(op, s) {
        Err(Error::DivideByZero)
    } else {
        Ok(seq![fold_val(op, s)])
    }
}

/// The contract every fold operator function meets: on success the stack
/// is the single collapsed value, on failure the reported error matches
/// and the stack is untouched.
pub open spec fn fold_post(
    op: BinOp,
    pre: Seq<i128>,
    post: Seq<i128>,
    r: Result<(), Error>,
) -> bool {
    match fold_result(op, pre) {
        Ok(s) => r == Ok::<(), Error>(()) && post == s,
        Err(e) => r == Err::<(), Error>(e) && post == pre,
    }
}

/// An operator that needs two operands underflows on a smaller stack,
/// pairwise and fold forms alike, whatever the operator: the error is
/// always `StackUnderflow`, never a panic, and the executable operators
/// leave the stack untouched when they report it.
pub proof fn lemma_underflow(op: BinOp, s: Seq<i128>)
    requires
        s.len() < 2,
    ensures
        crate::stack::bin_result(op, s) == Err::<Seq<i128>, Error>(Error::StackUnderflow),
        fold_result(op, s) == Err::<Seq<i128>, Error>(Error::StackUnderflow),
{
}

/// An undefined step anywhere in the fold makes the whole fold undefined.
proof fn lemma_fold_undefined_from_suffix(op: BinOp, s: Seq<i128>, i: int)
    requires
        0 <= i <= s.len(),
        !fold_defined(op, s.subrange(i, s.len() as int)),
    ensures
        !fold_defined(op, s),
    decreases i,
{
    let n = s.len() as int;
    if i == 0 {
        assert(s.subrange(0, n) =~= s);
    } else {
        assert(s.subrange(i - 1, n).drop_first() =~= s.subrange(i, n));
        lemma_fold_undefined_from_suffix(op, s, i - 1);
    }
}

/// Executes one fold operator against the stack.
pub fn fold_op(stack: &mut Vec<i128>, op: BinOp) -> (r: Result<(), Error>)
    ensures
        fold_post(op, old(stack)@, final(stack)@, r),
{
    let n = stack.len();
    if n < 2 {
        return Err(Error::StackUnderflow);
    }
    let mut acc = stack[n - 1];
    let mut i: usize = n - 1;
    proof {
        assert(stack@.subrange(n - 1, n as int) =~= seq![stack@[n - 1]]);
    }
    while i > 0
        invariant
            stack@ == old(stack)@,
            n == stack@.len(),
            2 <= n,
            0 <= i < n,
            acc == fold_val(op, stack@.subrange(i as int, n as int)),
            fold_defined(op, stack@.subrange(i as int, n as int)),
        decreases i,
    {
        i = i - 1;
        let b = stack[i];
        proof {
            assert(stack@.subrange(i as int, n as int).drop_first() =~= stack@.subrange(
                i as int + 1,
                n as int,
            ));
        }
        if matches!(op, BinOp::Div) && acc == 0 {
            proof {
                lemma_fold_undefined_from_suffix(op, stack@, i as int);
            }
            return Err(Error::DivideByZero);
        }
        acc = crate::stack::apply_op(op, b, acc);
    }
    proof {
        assert(stack@.subrange(0, n as int) =~= stack@);
    }
    stack.clear();
    stack.push(acc);
    Ok(())
}

/// Pops the whole stack, folding every value into a running sum, and
/// pushes the total.
pub fn add_all(stack: &mut Vec<i128>) -> (r: Result<(), Error>)
    ensures
        fold_post(BinOp::Add, old(stack)@, final(stack)@, r),
{
    fold_op(stack, BinOp::Add)
}

/// Pops the whole stack, folding every value into a running difference
/// (each older value becomes the left operand), and pushes the result.
pub fn sub_all(stack: &mut Vec<i128>) -> (r: Result<(), Error>)
    ensures
        fold_post(BinOp::Sub, old(stack)@, final(stack)@, r),
{
    fold_op(stack, BinOp::Sub)
}

/// Pops the whole stack, folding every value into a running product, and
/// pushes the total.
pub fn mul_all(stack: &mut Vec<i128>) -> (r: Result<(), Error>)
    ensures
        fold_post(BinOp::Mul, old(stack)@, final(stack)@, r),
{
    fold_op(stack, BinOp::Mul)
}

/// Pops the whole stack, folding every value into a running quotient
/// (each older value becomes the dividend), and pushes the result.
pub fn div_all(stack: &mut Vec<i128>) -> (r: Result<(), Error>)
    ensures
        fold_post(BinOp::Div, old(stack)@, final(stack)@, r),
{
    fold_op(stack, BinOp::Div)
}

} // verus!
