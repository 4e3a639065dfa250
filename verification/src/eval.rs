//! The evaluator: one left-to-right pass over tokens against a stack.
//!
//! Each token is dispatched to an operator or parsed as a numeric
//! literal; the pass stops at the first failure and surfaces its error.
//! The print tokens `.` and `:.` move values from the stack to an output
//! accumulator, in pop order; the caller renders and prints them.

use vstd::prelude::*;

use crate::endian::{endian_all_result, endian_result};
use crate::error::Error;
use crate::fold::fold_result;
use crate::literal::num_result;
use crate::stack::{bin_result, pop, BinOp};

verus! {

/// Whether two strings hold the same characters.
fn str_eq(a: &str, b: &str) -> (r: bool)
    ensures
        r == (a@ == b@),
{
    let n = a.unicode_len();
    if n != b.unicode_len() {
        return false;
    }
    let mut i: usize = 0;
    while i < n
        invariant
            0 <= i <= n,
            n == a@.len(),
            n == b@.len(),
            forall|k: int| 0 <= k < i ==> a@[k] == b@[k],
        decreases n - i,
    {
        if a.get_char(i) != b.get_char(i) {
            return false;
        }
        i = i + 1;
    }
    proof {
        assert(a@ =~= b@);
    }
    true
}

/// What one `.` does: pop a value off the stack and append it to the
/// printed output.
pub open spec fn print_result(s: Seq<i128>, out: Seq<i128>) -> Result<
    (Seq<i128>, Seq<i128>),
    Error,
> {
    if s.len() == 0 {
        Err(Error::StackUnderflow)
    } else {
        Ok((s.drop_last(), out.push(s.last())))
    }
}

/// Pops one value off the stack and appends it to the printed output.
pub fn pop_print(stack: &mut Vec<i128>, out: &mut Vec<i128>) -> (r: Result<(), Error>)
    ensures
        match print_result(old(stack)@, old(out)@) {
            Ok(p) => r == Ok::<(), Error>(()) && final(stack)@ == p.0 && final(out)@ == p.1,
            Err(e) => r == Err::<(), Error>(e) && final(stack)@ == old(stack)@ && final(out)@
                == old(out)@,
        },
{
    match pop(stack) {
        Ok(v) => {
            out.push(v);
            Ok(())
        },
        Err(e) => Err(e),
    }
}

/// Pops every value off the stack into the printed output, newest first;
/// an already-empty stack yields nothing and is no error.
#[verifier::loop_isolation(false)]
pub fn pop_print_all(stack: &mut Vec<i128>, out: &mut Vec<i128>)
    ensures
        final(stack)@ == Seq::<i128>::empty(),
        final(out)@ == old(out)@ + old(stack)@.reverse(),
{
    proof {
        assert(stack@ =~= old(stack)@.take(stack@.len() as int));
        assert(out@ =~= old(out)@ + old(stack)@.skip(stack@.len() as int).reverse());
    }
    while stack.len() > 0
        invariant
            stack@.len() <= old(stack)@.len(),
            stack@ == old(stack)@.take(stack@.len() as int),
            out@ == old(out)@ + old(stack)@.skip(stack@.len() as int).reverse(),
        decreases stack@.len(),
    {
        let ghost k = stack@.len() as int;
        let ghost out_pre = out@;
        let v = match pop(stack) {
            Ok(v) => v,
            Err(_) => {
                proof {
                    assert(false);
                }
                0
            },
        };
        out.push(v);
        proof {
            assert(v == old(stack)@[k - 1]);
            assert(stack@ =~= old(stack)@.take(k - 1));
            assert(out@ == out_pre.push(v));
            assert(out@ =~= old(out)@ + old(stack)@.skip(k - 1).reverse()) by {
                let target = old(out)@ + old(stack)@.skip(k - 1).reverse();
                assert(out@.len() == target.len());
                assert forall|j: int| 0 <= j < out@.len() implies out@[j] == target[j] by {
                    let base = old(out)@.len() as int;
                    if j >= base {
                        assert(target[j] == old(stack)@.skip(k - 1)[old(stack)@.len() - k - (j
                            - base)]);
                    }
                    if j < out_pre.len() {
                        assert(out@[j] == out_pre[j]);
                        if j >= base {
                            assert(out_pre[j] == old(stack)@.skip(k)[old(stack)@.len() - k - 1 - (j
                                - base)]);
                        }
                    } else {
                        assert(out@[j] == v);
                    }
                }
            };
        }
    }
    proof {
        assert(old(stack)@.skip(0) =~= old(stack)@);
        assert(stack@ =~= Seq::<i128>::empty());
    }
}

/// Pairs a stack outcome with an unchanged printed output.
pub open spec fn keep_out(r: Result<Seq<i128>, Error>, out: Seq<i128>) -> Result<
    (Seq<i128>, Seq<i128>),
    Error,
> {
    match r {
        Ok(s) => Ok((s, out)),
        Err(e) => Err(e),
    }
}

/// What one token does to the stack and the printed output: exactly one
/// of the operator meanings applies, and any other token is read as a
/// numeric literal.
pub open spec fn step_result(stack: Seq<i128>, out: Seq<i128>, token: Seq<char>) -> Result<
    (Seq<i128>, Seq<i128>),
    Error,
> {
    if token == "add"@ {
        keep_out(bin_result(BinOp::Add, stack), out)
    } else if token == "sub"@ {
        keep_out(bin_result(BinOp::Sub, stack), out)
    } else if token == "mul"@ {
        keep_out(bin_result(BinOp::Mul, stack), out)
    } else if token == "div"@ {
        keep_out(bin_result(BinOp::Div, stack), out)
    } else if token == ":add"@ {
        keep_out(fold_result(BinOp::Add, stack), out)
    } else if token == ":sub"@ {
        keep_out(fold_result(BinOp::Sub, stack), out)
    } else if token == ":mul"@ {
        keep_out(fold_result(BinOp::Mul, stack), out)
    } else if token == ":div"@ {
        keep_out(fold_result(BinOp::Div, stack), out)
    } else if token == "endian"@ {
        keep_out(endian_result(stack), out)
    } else if token == ":endian"@ {
        keep_out(endian_all_result(stack), out)
    } else if token == "pop"@ {
        if stack.len() == 0 {
            Err(Error::StackUnderflow)
        } else {
            Ok((stack.drop_last(), out))
        }
    } else if token == "."@ {
        print_result(stack, out)
    } else if token == ":."@ {
        Ok((Seq::empty(), out + stack.reverse()))
    } else {
        keep_out(num_result(stack, token), out)
    }
}

/// Processes one token against the stack and the printed output. On
/// failure both are left exactly as they were.
pub fn step(stack: &mut Vec<i128>, out: &mut Vec<i128>, token: &str) -> (r: Result<(), Error>)
    ensures
        match step_result(old(stack)@, old(out)@, token@) {
            Ok(p) => r == Ok::<(), Error>(()) && final(stack)@ == p.0 && final(out)@ == p.1,
            Err(e) => r == Err::<(), Error>(e) && final(stack)@ == old(stack)@ && final(out)@
                == old(out)@,
        },
{
    if str_eq(token, "add") {
        crate::stack::add(stack)
    } else if str_eq(token, "sub") {
        crate::stack::sub(stack)
    } else if str_eq(token, "mul") {
        crate::stack::mul(stack)
    } else if str_eq(token, "div") {
        crate::stack::div(stack)
    } else if str_eq(token, ":add") {
        crate::fold::add_all(stack)
    } else if str_eq(token, ":sub") {
        crate::fold::sub_all(stack)
    } else if str_eq(token, ":mul") {
        crate::fold::mul_all(stack)
    } else if str_eq(token, ":div") {
        crate::fold::div_all(stack)
    } else if str_eq(token, "endian") {
        crate::endian::endian(stack)
    } else if str_eq(token, ":endian") {
        crate::endian::endian_all(stack)
    } else if str_eq(token, "pop") {
        match pop(stack) {
            Ok(_) => Ok(()),
            Err(e) => Err(e),
        }
    } else if str_eq(token, ".") {
        pop_print(stack, out)
    } else if str_eq(token, ":.") {
        pop_print_all(stack, out);
        Ok(())
    } else {
        crate::literal::num(stack, token)
    }
}

/// The stack and printed output an evaluation pass ends with, or its
/// first error.
pub open spec fn eval_result(stack: Seq<i128>, out: Seq<i128>, tokens: Seq<Seq<char>>) -> Result<
    (Seq<i128>, Seq<i128>),
    Error,
>
    decreases tokens.len(),
{
    if tokens.len() == 0 {
        Ok((stack, out))
    } else {
        match step_result(stack, out, tokens[0]) {
            Ok(p) => eval_result(p.0, p.1, tokens.drop_first()),
            Err(e) => Err(e),
        }
    }
}

/// The printed output an evaluation pass accumulates, up to its first
/// error if it has one: what failed after printing stays printed.
pub open spec fn eval_out(stack: Seq<i128>, out: Seq<i128>, tokens: Seq<Seq<char>>) -> Seq<i128>
    decreases tokens.len(),
{
    if tokens.len() == 0 {
        out
    } else {
        match step_result(stack, out, tokens[0]) {
            Ok(p) => eval_out(p.0, p.1, tokens.drop_first()),
            Err(_) => out,
        }
    }
}

/// Evaluates a token sequence against a fresh stack, appending every
/// value a print token pops to `out`. Returns the final stack, or the
/// first error; either way `out` holds exactly what was printed.
pub fn evaluate(tokens: &Vec<String>, out: &mut Vec<i128>) -> (r: Result<Vec<i128>, Error>)
    ensures
        final(out)@ == eval_out(Seq::empty(), old(out)@, tokens.deep_view()),
        match r {
            Ok(stack) => eval_result(Seq::empty(), old(out)@, tokens.deep_view()) == Ok::<
                (Seq<i128>, Seq<i128>),
                Error,
            >((stack@, final(out)@)),
            Err(e) => eval_result(Seq::empty(), old(out)@, tokens.deep_view()) == Err::<
                (Seq<i128>, Seq<i128>),
                Error,
            >(e),
        },
{
    let ghost ts = tokens.deep_view();
    let mut stack: Vec<i128> = Vec::new();
    let n = tokens.len();
    proof {
        assert(ts.skip(0) =~= ts);
    }
    let mut i: usize = 0;
    while i < n
        invariant
            0 <= i <= n,
            n == tokens@.len(),
            ts == tokens.deep_view(),
            eval_result(Seq::empty(), old(out)@, ts) == eval_result(stack@, out@, ts.skip(i as int)),
            eval_out(Seq::empty(), old(out)@, ts) == eval_out(stack@, out@, ts.skip(i as int)),
        decreases n - i,
    {
        proof {
            assert(ts.skip(i as int).drop_first() =~= ts.skip(i + 1));
            assert(ts.skip(i as int)[0] == ts[i as int]);
        }
        let token = &tokens[i];
        match step(&mut stack, out, token.as_str()) {
            Ok(()) => {},
            Err(e) => {
                return Err(e);
            },
        }
        i = i + 1;
    }
    proof {
        assert(ts.skip(n as int) =~= Seq::<Seq<char>>::empty());
    }
    Ok(stack)
}

/// Whether a token is an option flag rather than program input: it
/// starts with `--`.
pub open spec fn is_flag(t: Seq<char>) -> bool {
    t.len() >= 2 && t[0] == '-' && t[1] == '-'
}

/// Run-time check for [`is_flag`].
fn flag_token(t: &str) -> (r: bool)
    ensures
        r == is_flag(t@),
{
    t.unicode_len() >= 2 && t.get_char(0) == '-' && t.get_char(1) == '-'
}

/// Splits raw arguments into option flags (tokens starting `--`) and
/// program tokens, each subsequence in its original order.
pub fn split_flags(args: &Vec<String>) -> (r: (Vec<String>, Vec<String>))
    ensures
        r.0.deep_view() == args.deep_view().filter(|t: Seq<char>| is_flag(t)),
        r.1.deep_view() == args.deep_view().filter(|t: Seq<char>| !is_flag(t)),
{
    let ghost ts = args.deep_view();
    let mut flags: Vec<String> = Vec::new();
    let mut program: Vec<String> = Vec::new();
    proof {
        reveal(Seq::filter);
        assert(ts.take(0) =~= Seq::<Seq<char>>::empty());
        assert(flags.deep_view() =~= ts.take(0).filter(|t: Seq<char>| is_flag(t)));
        assert(program.deep_view() =~= ts.take(0).filter(|t: Seq<char>| !is_flag(t)));
    }
    let n = args.len();
    let mut i: usize = 0;
    while i < n
        invariant
            0 <= i <= n,
            n == args@.len(),
            ts == args.deep_view(),
            flags.deep_view() == ts.take(i as int).filter(|t: Seq<char>| is_flag(t)),
            program.deep_view() == ts.take(i as int).filter(|t: Seq<char>| !is_flag(t)),
        decreases n - i,
    {
        let ghost prev_flags = flags.deep_view();
        let ghost prev_program = program.deep_view();
        proof {
            reveal(Seq::filter);
            assert(ts.take(i + 1).drop_last() =~= ts.take(i as int));
            assert(ts.take(i + 1).last() == ts[i as int]);
        }
        let a = &args[i];
        if flag_token(a.as_str()) {
            flags.push(a.clone());
            proof {
                assert(flags.deep_view() =~= prev_flags.push(ts[i as int]));
            }
        } else {
            program.push(a.clone());
            proof {
                assert(program.deep_view() =~= prev_program.push(ts[i as int]));
            }
        }
        i = i + 1;
    }
    proof {
        assert(ts.take(n as int) =~= ts);
    }
    (flags, program)
}

} // verus!
