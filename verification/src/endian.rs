//! The endianness-swap operation.
//!
//! A value is serialized to the 16-byte little-endian representation of
//! its two's complement, the low-order `width` bytes (1 to 8) are
//! reversed in place, and the bytes are read back. High-order bytes are
//! untouched: this is a partial byte-order reversal, not a full-width
//! swap, and a width of 1 is a no-op.

use vstd::prelude::*;

use crate::error::Error;

verus! {

/// The 16-byte little-endian representation of a value's two's
/// complement.
pub open spec fn le_bytes_of(v: i128) -> Seq<u8> {
    vstd::bytes::spec_u128_to_le_bytes(v as u128)
}

/// The byte sequence with its first `w` bytes reversed and the rest kept.
pub open spec fn swap_low_bytes(s: Seq<u8>, w: int) -> Seq<u8>
    recommends
        1 <= w <= s.len(),
{
    s.subrange(0, w).reverse() + s.subrange(w, s.len() as int)
}

/// The value whose little-endian two's-complement representation is that
/// of `v` with the low-order `w` bytes reversed.
pub open spec fn endian_swapped(v: i128, w: int) -> i128
    recommends
        1 <= w <= 8,
{
    vstd::bytes::spec_u128_from_le_bytes(swap_low_bytes(le_bytes_of(v), w)) as i128
}

/// Reinterpreting a two's complement as unsigned and back is the
/// identity, and so is the reverse direction.
proof fn lemma_cast_involution(v: i128, u: u128)
    ensures
        (v as u128) as i128 == v,
        (u as i128) as u128 == u,
{
    assert((v as u128) as i128 == v) by (bit_vector);
    assert((u as i128) as u128 == u) by (bit_vector);
}

/// Reverses the low-order `width` bytes of a value's little-endian
/// representation, leaving the high-order bytes untouched. The width must
/// have been validated by the caller.
pub fn endian_op(value: i128, width: usize) -> (r: i128)
    requires
        1 <= width <= 8,
    ensures
        r == endian_swapped(value, width as int),
{
    proof {
        vstd::bytes::lemma_auto_spec_u128_to_from_le_bytes();
    }
    let u = #[verifier::truncate] (value as u128);
    let mut bytes: Vec<u8> = vstd::bytes::u128_to_le_bytes(u);
    let ghost orig = bytes@;
    let mut i: usize = 0;
    let mut j: usize = width - 1;
    while i < j
        invariant
            bytes@.len() == 16,
            orig.len() == 16,
            1 <= width <= 8,
            i + j == width - 1,
            0 <= i,
            j < width,
            forall|k: int| 0 <= k < i ==> bytes@[k] == orig[width - 1 - k],
            forall|k: int| 0 <= k < i ==> bytes@[width - 1 - k] == orig[k],
            forall|k: int| i <= k <= j ==> bytes@[k] == orig[k],
            forall|k: int| width <= k < 16 ==> bytes@[k] == orig[k],
        decreases j,
    {
        let tmp = bytes[i];
        let top = bytes[j];
        bytes.set(i, top);
        bytes.set(j, tmp);
        i = i + 1;
        j = j - 1;
    }
    proof {
        assert(bytes@ =~= swap_low_bytes(orig, width as int));
    }
    let swapped = vstd::bytes::u128_from_le_bytes(bytes.as_slice());
    #[verifier::truncate] (swapped as i128)
}

/// Applying the swap twice with the same width returns the original
/// value, for every width in range.
pub proof fn lemma_endian_involution(v: i128, w: int)
    requires
        1 <= w <= 8,
    ensures
        endian_swapped(endian_swapped(v, w), w) == v,
{
    vstd::bytes::lemma_auto_spec_u128_to_from_le_bytes();
    let u = v as u128;
    let s = vstd::bytes::spec_u128_to_le_bytes(u);
    let t = swap_low_bytes(s, w);
    assert(t.len() == 16);
    let u2 = vstd::bytes::spec_u128_from_le_bytes(t);
    let v2 = u2 as i128;
    lemma_cast_involution(v, u2);
    assert(vstd::bytes::spec_u128_to_le_bytes(v2 as u128) == t);
    assert(swap_low_bytes(t, w) =~= s);
    assert(endian_swapped(v2, w) == (u as i128));
}

/// A width of 1 never changes the value: reversing one byte is the
/// identity.
pub proof fn lemma_endian_width_one(v: i128)
    ensures
        endian_swapped(v, 1) == v,
{
    vstd::bytes::lemma_auto_spec_u128_to_from_le_bytes();
    let u = v as u128;
    let s = vstd::bytes::spec_u128_to_le_bytes(u);
    assert(swap_low_bytes(s, 1) =~= s);
    lemma_cast_involution(v, u);
}

/// What reading the width operand does to the stack: the top value is
/// popped and must lie in [1, 8]; an empty stack underflows and a width
/// out of range is rejected before anything is popped.
pub open spec fn width_result(s: Seq<i128>) -> Result<i128, Error> {
    if s.len() == 0 {
        Err(Error::StackUnderflow)
    } else if s.last() < 1 || s.last() > 8 {
        Err(Error::EndianWidth { width: s.last() })
    } else {
        Ok(s.last())
    }
}

/// Pops the byte width for an endian operation off the stack. A width
/// outside [1, 8] is rejected with `EndianWidth` before anything is
/// popped, so a failure leaves the stack untouched.
pub fn endian_width(stack: &mut Vec<i128>) -> (r: Result<usize, Error>)
    ensures
        match r {
            Ok(w) => width_result(old(stack)@) == Ok::<i128, Error>(w as i128) && final(stack)@
                == old(stack)@.drop_last(),
            Err(e) => width_result(old(stack)@) == Err::<i128, Error>(e) && final(stack)@ == old(
                stack,
            )@,
        },
{
    if stack.len() == 0 {
        return Err(Error::StackUnderflow);
    }
    let w = stack[stack.len() - 1];
    if w < 1 || w > 8 {
        return Err(Error::EndianWidth { width: w });
    }
    let _ = stack.pop();
    Ok(w as usize)
}

/// A width operand outside [1, 8] fails both endian operations with
/// `EndianWidth` carrying the offending value, never by popping or
/// changing anything: the executable operations leave the stack untouched
/// when they report it.
pub proof fn lemma_endian_bad_width(s: Seq<i128>)
    requires
        s.len() > 0,
        !(1 <= s.last() <= 8),
    ensures
        width_result(s) == Err::<i128, Error>(Error::EndianWidth { width: s.last() }),
        endian_result(s) == Err::<Seq<i128>, Error>(Error::EndianWidth { width: s.last() }),
        endian_all_result(s) == Err::<Seq<i128>, Error>(Error::EndianWidth { width: s.last() }),
{
}

/// What the `endian` token does to the stack: pop a width, pop a value,
/// push the value with its low-order `width` bytes reversed. On any
/// failure the stack is untouched.
pub open spec fn endian_result(s: Seq<i128>) -> Result<Seq<i128>, Error> {
    match width_result(s) {
        Err(e) => Err(e),
        Ok(w) => {
            let rest = s.drop_last();
            if rest.len() == 0 {
                Err(Error::StackUnderflow)
            } else {
                Ok(rest.drop_last().push(endian_swapped(rest.last(), w as int)))
            }
        },
    }
}

/// Pops a byte width and one value off the stack, swaps the endianness of
/// the value's low-order bytes, and pushes the result back.
pub fn endian(stack: &mut Vec<i128>) -> (r: Result<(), Error>)
    ensures
        match endian_result(old(stack)@) {
            Ok(s) => r == Ok::<(), Error>(()) && final(stack)@ == s,
            Err(e) => r == Err::<(), Error>(e) && final(stack)@ == old(stack)@,
        },
{
    if stack.len() == 0 {
        return Err(Error::StackUnderflow);
    }
    let w = stack[stack.len() - 1];
    if w < 1 || w > 8 {
        return Err(Error::EndianWidth { width: w });
    }
    if stack.len() == 1 {
        return Err(Error::StackUnderflow);
    }
    let item = stack[stack.len() - 2];
    let swapped = endian_op(item, w as usize);
    let _ = stack.pop();
    let _ = stack.pop();
    stack.push(swapped);
    Ok(())
}

/// What the `:endian` token does to the stack: pop a width, then swap the
/// endianness of every remaining value in place. The number of remaining
/// values does not change.
pub open spec fn endian_all_result(s: Seq<i128>) -> Result<Seq<i128>, Error> {
    match width_result(s) {
        Err(e) => Err(e),
        Ok(w) => Ok(Seq::new((s.len() - 1) as nat, |i: int| endian_swapped(s[i], w as int))),
    }
}

/// Pops a byte width off the stack and swaps the endianness of every
/// remaining value in place.
pub fn endian_all(stack: &mut Vec<i128>) -> (r: Result<(), Error>)
    ensures
        match endian_all_result(old(stack)@) {
            Ok(s) => r == Ok::<(), Error>(()) && final(stack)@ == s,
            Err(e) => r == Err::<(), Error>(e) && final(stack)@ == old(stack)@,
        },
{
    let w = match endian_width(stack) {
        Ok(w) => w,
        Err(e) => {
            return Err(e);
        },
    };
    let mut i: usize = 0;
    while i < stack.len()
        invariant
            1 <= w <= 8,
            stack@.len() == old(stack)@.len() - 1,
            0 <= i <= stack@.len(),
            forall|k: int| 0 <= k < i ==> stack@[k] == endian_swapped(old(stack)@[k], w as int),
            forall|k: int| i <= k < stack@.len() ==> stack@[k] == old(stack)@[k],
        decreases stack@.len() - i,
    {
        let swapped = endian_op(stack[i], w);
        stack.set(i, swapped);
        i = i + 1;
    }
    proof {
        assert(stack@ =~= Seq::new(
            (old(stack)@.len() - 1) as nat,
            |k: int| endian_swapped(old(stack)@[k], w as int),
        ));
    }
    Ok(())
}

} // verus!
