//! Numeric-literal tokens.
//!
//! A literal is an optional radix prefix (`0x`/`x` hexadecimal, `0o`/`o`
//! octal, `0b`/`b` binary, none for decimal) followed by an optional sign
//! and at least one digit valid in the selected radix. A token that does
//! not have this shape, or whose value does not fit in an `i128`, is
//! rejected with [`Error::ParseError`].

use vstd::prelude::*;

use crate::error::Error;

verus! {

/// The numeric value of one digit character in the given radix, `None`
/// when the character is not a digit of that radix. Letters of either
/// case count from ten, as in `i128::from_str_radix`.
pub open spec fn digit_value(c: char, radix: nat) -> Option<nat> {
    let u = c as u32;
    let d: int = if ('0' as u32) <= u <= ('9' as u32) {
        u - ('0' as u32)
    } else if ('a' as u32) <= u <= ('z' as u32) {
        u - ('a' as u32) + 10
    } else if ('A' as u32) <= u <= ('Z' as u32) {
        u - ('A' as u32) + 10
    } else {
        -1
    };
    if 0 <= d < radix {
        Some(d as nat)
    } else {
        None
    }
}

/// The value of a digit string read most-significant first, `None` when
/// any character is not a digit of the radix. The empty string counts as
/// zero here; [`signed_value`] rejects it.
pub open spec fn digits_value(s: Seq<char>, radix: nat) -> Option<nat>
    decreases s.len(),
{
    if s.len() == 0 {
        Some(0)
    } else {
        let prefix = digits_value(s.drop_last(), radix);
        let d = digit_value(s.last(), radix);
        if prefix is Some && d is Some {
            Some(prefix->0 * radix + d->0)
        } else {
            None
        }
    }
}

/// The value of an optional `+`/`-` sign followed by at least one digit,
/// as a mathematical integer; `None` when the shape is wrong.
pub open spec fn signed_value(s: Seq<char>, radix: nat) -> Option<int> {
    let has_sign = s.len() > 0 && (s[0] == '+' || s[0] == '-');
    let body = if has_sign {
        s.drop_first()
    } else {
        s
    };
    if body.len() == 0 {
        None
    } else {
        match digits_value(body, radix) {
            Some(m) => Some(
                if s.len() > 0 && s[0] == '-' {
                    -(m as int)
                } else {
                    m as int
                },
            ),
            None => None,
        }
    }
}

/// The value of a whole literal token: the radix prefix selects the base
/// and the rest is read by [`signed_value`].
pub open spec fn token_value(t: Seq<char>) -> Option<int> {
    if t.len() >= 2 && t[0] == '0' && t[1] == 'x' {
        signed_value(t.skip(2), 16)
    } else if t.len() >= 1 && t[0] == 'x' {
        signed_value(t.skip(1), 16)
    } else if t.len() >= 2 && t[0] == '0' && t[1] == 'o' {
        signed_value(t.skip(2), 8)
    } else if t.len() >= 1 && t[0] == 'o' {
        signed_value(t.skip(1), 8)
    } else if t.len() >= 2 && t[0] == '0' && t[1] == 'b' {
        signed_value(t.skip(2), 2)
    } else if t.len() >= 1 && t[0] == 'b' {
        signed_value(t.skip(1), 2)
    } else {
        signed_value(t, 10)
    }
}

/// What a literal token does to the stack: its value is pushed when the
/// token parses and fits in an `i128`, otherwise the stack is untouched
/// and the parse is rejected.
pub open spec fn num_result(s: Seq<i128>, t: Seq<char>) -> Result<Seq<i128>, Error> {
    match token_value(t) {
        Some(v) => if i128::MIN <= v <= i128::MAX {
            Ok(s.push(v as i128))
        } else {
            Err(Error::ParseError)
        },
        None => Err(Error::ParseError),
    }
}

/// One invalid digit anywhere makes the whole digit string invalid.
proof fn lemma_digits_invalid(s: Seq<char>, radix: nat, j: int)
    requires
        0 <= j < s.len(),
        digit_value(s[j], radix) is None,
    ensures
        digits_value(s, radix) is None,
    decreases s.len(),
{
    if j < s.len() - 1 {
        lemma_digits_invalid(s.drop_last(), radix, j);
    }
}

/// Every prefix of a valid digit string is valid and its value never
/// exceeds the whole string's value: appending digits only grows the
/// magnitude.
proof fn lemma_digits_prefix(s: Seq<char>, radix: nat, k: int)
    requires
        1 <= radix,
        0 <= k <= s.len(),
        digits_value(s, radix) is Some,
    ensures
        digits_value(s.take(k), radix) is Some,
        digits_value(s.take(k), radix)->0 <= digits_value(s, radix)->0,
    decreases s.len(),
{
    if k == s.len() {
        assert(s.take(k) =~= s);
    } else {
        let dl = s.drop_last();
        let dv = digits_value(dl, radix)->0;
        assert(digits_value(s, radix)->0 == dv * radix + digit_value(s.last(), radix)->0);
        assert(dv <= dv * radix) by (nonlinear_arith)
            requires
                radix >= 1,
                dv >= 0,
        ;
        assert(dl.take(k) =~= s.take(k));
        lemma_digits_prefix(dl, radix, k);
    }
}

/// The numeric value of one digit character, at run time.
fn digit_of(c: char, radix: u32) -> (r: Option<u32>)
    ensures
        r is Some <==> digit_value(c, radix as nat) is Some,
        r is Some ==> r->0 as nat == digit_value(c, radix as nat)->0,
{
    let u = c as u32;
    let d: u32 = if ('0' as u32) <= u && u <= ('9' as u32) {
        u - ('0' as u32)
    } else if ('a' as u32) <= u && u <= ('z' as u32) {
        u - ('a' as u32) + 10
    } else if ('A' as u32) <= u && u <= ('Z' as u32) {
        u - ('A' as u32) + 10
    } else {
        return None;
    };
    if d < radix {
        Some(d)
    } else {
        None
    }
}

/// Reads an optional sign and a digit string in the given radix, exactly
/// as `i128::from_str_radix` would: the parse fails on an empty or
/// malformed body and on a value outside the `i128` range.
#[verifier::loop_isolation(false)]
#[verifier::rlimit(60)]
pub(crate) fn parse_i128_radix(s: &str, radix: u32) -> (r: Result<i128, Error>)
    requires
        radix == 2 || radix == 8 || radix == 10 || radix == 16,
    ensures
        match signed_value(s@, radix as nat) {
            Some(v) => if i128::MIN <= v <= i128::MAX {
                r == Ok::<i128, Error>(v as i128)
            } else {
                r == Err::<i128, Error>(Error::ParseError)
            },
            None => r == Err::<i128, Error>(Error::ParseError),
        },
{
    let n = s.unicode_len();
    if n == 0 {
        return Err(Error::ParseError);
    }
    let c0 = s.get_char(0);
    let neg = c0 == '-';
    let start: usize = if c0 == '-' || c0 == '+' {
        1
    } else {
        0
    };
    if n == start {
        return Err(Error::ParseError);
    }
    let ghost body = s@.skip(start as int);
    proof {
        if start == 1 {
            assert(body =~= s@.drop_first());
        } else {
            assert(body =~= s@);
        }
    }
    let limit: u128 = if neg {
        0x8000_0000_0000_0000_0000_0000_0000_0000u128
    } else {
        0x7fff_ffff_ffff_ffff_ffff_ffff_ffff_ffffu128
    };
    let mut acc: u128 = 0;
    let mut i: usize = start;
    while i < n
        invariant
            start <= i <= n,
            digits_value(body.take(i - start), radix as nat) == Some(acc as nat),
            acc <= limit,
        decreases n - i,
    {
        let ghost j = i - start;
        proof {
            assert(body.take(j + 1).drop_last() =~= body.take(j));
        }
        let c = s.get_char(i);
        let d = match digit_of(c, radix) {
            Some(d) => d,
            None => {
                proof {
                    lemma_digits_invalid(body, radix as nat, j);
                }
                return Err(Error::ParseError);
            },
        };
        let stepped = match acc.checked_mul(radix as u128) {
            Some(m) => m.checked_add(d as u128),
            None => {
                proof {
                    lemma_step_overflows(body, radix as nat, j, acc as nat, limit as nat);
                }
                return Err(Error::ParseError);
            },
        };
        let t = match stepped {
            Some(t) => t,
            None => {
                proof {
                    lemma_step_overflows(body, radix as nat, j, acc as nat, limit as nat);
                }
                return Err(Error::ParseError);
            },
        };
        if t > limit {
            proof {
                lemma_step_overflows(body, radix as nat, j, acc as nat, limit as nat);
            }
            return Err(Error::ParseError);
        }
        acc = t;
        i = i + 1;
    }
    proof {
        assert(body.take(n - start) =~= body);
        assert(digits_value(body, radix as nat) == Some(acc as nat));
        assert(signed_value(s@, radix as nat) == Some(
            if neg {
                -(acc as int)
            } else {
                acc as int
            },
        ));
    }
    if neg {
        if acc == 0x8000_0000_0000_0000_0000_0000_0000_0000u128 {
            Ok(i128::MIN)
        } else {
            Ok(-(acc as i128))
        }
    } else {
        Ok(acc as i128)
    }
}

/// When one more digit pushes the accumulated magnitude past the limit,
/// the whole digit string's value (if the string is valid at all) is past
/// the limit too.
proof fn lemma_step_overflows(s: Seq<char>, radix: nat, j: int, acc: nat, limit: nat)
    requires
        1 <= radix,
        0 <= j < s.len(),
        digits_value(s.take(j), radix) == Some(acc),
        digit_value(s[j], radix) is Some,
        acc * radix + digit_value(s[j], radix)->0 > limit,
    ensures
        digits_value(s, radix) is Some ==> digits_value(s, radix)->0 > limit,
{
    assert(s.take(j + 1).drop_last() =~= s.take(j));
    if digits_value(s, radix) is Some {
        lemma_digits_prefix(s, radix, j + 1);
    }
}

/// Parses one token as a (possibly radix-prefixed, possibly signed)
/// numeric literal and pushes its value onto the stack; a malformed or
/// out-of-range token is rejected and the stack is untouched.
pub fn num(stack: &mut Vec<i128>, arg: &str) -> (r: Result<(), Error>)
    ensures
        match num_result(old(stack)@, arg@) {
            Ok(s) => r == Ok::<(), Error>(()) && final(stack)@ == s,
            Err(e) => r == Err::<(), Error>(e) && final(stack)@ == old(stack)@,
        },
{
    let n = arg.unicode_len();
    let (radix, start): (u32, usize) = if n >= 2 && arg.get_char(0) == '0' && arg.get_char(1)
        == 'x' {
        (16, 2)
    } else if n >= 1 && arg.get_char(0) == 'x' {
        (16, 1)
    } else if n >= 2 && arg.get_char(0) == '0' && arg.get_char(1) == 'o' {
        (8, 2)
    } else if n >= 1 && arg.get_char(0) == 'o' {
        (8, 1)
    } else if n >= 2 && arg.get_char(0) == '0' && arg.get_char(1) == 'b' {
        (2, 2)
    } else if n >= 1 && arg.get_char(0) == 'b' {
        (2, 1)
    } else {
        (10, 0)
    };
    let body = arg.substring_char(start, n);
    proof {
        assert(body@ =~= arg@.skip(start as int));
        if start == 0 {
            assert(body@ =~= arg@);
        }
    }
    match parse_i128_radix(body, radix) {
        Ok(v) => {
            stack.push(v);
            Ok(())
        },
        Err(e) => Err(e),
    }
}

} // verus!
