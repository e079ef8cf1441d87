//! Reading UTF-8 one scalar value at a time.
//!
//! What counts as well-formed UTF-8, and which characters a byte sequence
//! encodes, is taken from `vstd::utf8`; this module decodes the scalar that
//! starts at a given position and relates a walk from scalar to scalar to
//! the decoding of the whole text.

use vstd::prelude::*;
use vstd::utf8::*;

verus! {

/// The bytes of `bytes` from position `start` to the end.
pub open spec fn tail(bytes: Seq<u8>, start: int) -> Seq<u8> {
    bytes.subrange(start, bytes.len() as int)
}

/// The bytes of `bytes` before position `end`.
pub open spec fn head(bytes: Seq<u8>, end: int) -> Seq<u8> {
    bytes.subrange(0, end)
}

/// A scalar value found in a text, with the number of bytes that encode it.
#[derive(Clone, Copy, Debug, PartialEq, Eq, Structural)]
pub struct Scalar {
    pub value: u32,
    pub width: usize,
}

fn is_continuation(byte: u8) -> (yes: bool)
    ensures
        yes == is_continuation_byte(byte),
{
    0x80 <= byte && byte <= 0xbf
}

fn low_six(byte: u8) -> (bits: u32)
    ensures
        bits == continuation_bits(byte),
{
    (byte & 0x3f) as u32
}

/// Decodes the scalar whose encoding starts at `start`, if a well-formed one
/// starts there. At the end of `bytes` none does.
pub fn first_scalar(bytes: &[u8], start: usize) -> (found: Option<Scalar>)
    requires
        start <= bytes@.len(),
    ensures
        found is Some <==> valid_first_scalar(tail(bytes@, start as int)),
        found matches Some(scalar) ==> {
            &&& scalar.value == decode_first_scalar(tail(bytes@, start as int))
            &&& scalar.width == length_of_first_scalar(tail(bytes@, start as int))
            &&& is_scalar(scalar.value)
            &&& 1 <= scalar.width <= 4
            &&& start + scalar.width <= bytes@.len()
        },
{
    let ghost rest = tail(bytes@, start as int);
    let len = bytes.len();
    if start >= len {
        return None;
    }
    let left = len - start;
    let b0 = bytes[start];
    assert(rest[0] == b0);
    if b0 <= 0x7f {
        return Some(Scalar { value: (b0 & 0x7f) as u32, width: 1 });
    }
    if 0xc0 <= b0 && b0 <= 0xdf {
        if left < 2 {
            return None;
        }
        let b1 = bytes[start + 1];
        assert(rest[1] == b1);
        if !is_continuation(b1) {
            return None;
        }
        let value = (((b0 & 0x1f) as u32) << 6) | low_six(b1);
        if value < 0x80 {
            return None;
        }
        assert(value <= 0x7ff) by (bit_vector)
            requires
                value == ((((b0 & 0x1f) as u32) << 6) | ((b1 & 0x3f) as u32)),
        ;
        return Some(Scalar { value, width: 2 });
    }
    if 0xe0 <= b0 && b0 <= 0xef {
        if left < 3 {
            return None;
        }
        let b1 = bytes[start + 1];
        let b2 = bytes[start + 2];
        assert(rest[1] == b1 && rest[2] == b2);
        if !is_continuation(b1) || !is_continuation(b2) {
            return None;
        }
        let value = (((b0 & 0x0f) as u32) << 12) | (low_six(b1) << 6) | low_six(b2);
        if value < 0x800 || (0xd800 <= value && value <= 0xdfff) {
            return None;
        }
        assert(value <= 0xffff) by (bit_vector)
            requires
                value == ((((b0 & 0x0f) as u32) << 12) | (((b1 & 0x3f) as u32) << 6) | ((b2
                    & 0x3f) as u32)),
        ;
        return Some(Scalar { value, width: 3 });
    }
    if 0xf0 <= b0 && b0 <= 0xf7 {
        if left < 4 {
            return None;
        }
        let b1 = bytes[start + 1];
        let b2 = bytes[start + 2];
        let b3 = bytes[start + 3];
        assert(rest[1] == b1 && rest[2] == b2 && rest[3] == b3);
        if !is_continuation(b1) || !is_continuation(b2) || !is_continuation(b3) {
            return None;
        }
        let value = (((b0 & 0x07) as u32) << 18) | (low_six(b1) << 12) | (low_six(b2) << 6)
            | low_six(b3);
        if value < 0x10000 || value > 0x10ffff {
            return None;
        }
        return Some(Scalar { value, width: 4 });
    }
    None
}

/// Decoding a text made of two well-formed parts decodes each part.
pub proof fn lemma_decode_concat(first: Seq<u8>, second: Seq<u8>)
    requires
        valid_utf8(first),
        valid_utf8(second),
    ensures
        valid_utf8(first + second),
        decode_utf8(first + second) == decode_utf8(first) + decode_utf8(second),
    decreases first.len(),
{
    valid_utf8_concat(first, second);
    if first.len() == 0 {
        assert(first + second =~= second);
    } else {
        let rest = pop_first_scalar(first);
        lemma_decode_concat(rest, second);
        assert(pop_first_scalar(first + second) =~= rest + second);
        assert(decode_utf8(first + second) =~= decode_utf8(first) + decode_utf8(second));
    }
}

/// A walk that has decoded the bytes before `at` and finds a well-formed
/// scalar at `at` has, past that scalar, decoded one more character.
pub proof fn lemma_walk_step(bytes: Seq<u8>, at: int)
    requires
        0 <= at < bytes.len(),
        valid_utf8(head(bytes, at)),
        valid_first_scalar(tail(bytes, at)),
    ensures
        at + length_of_first_scalar(tail(bytes, at)) <= bytes.len(),
        valid_utf8(head(bytes, at + length_of_first_scalar(tail(bytes, at)))),
        decode_utf8(head(bytes, at + length_of_first_scalar(tail(bytes, at)))) == decode_utf8(
            head(bytes, at),
        ).push(decode_first_scalar(tail(bytes, at)) as char),
{
    let rest = tail(bytes, at);
    let width = length_of_first_scalar(rest);
    let one = take_first_scalar(rest);
    assert(valid_first_scalar(one));
    assert(pop_first_scalar(one) =~= Seq::<u8>::empty());
    assert(valid_utf8(one)) by {
        reveal_with_fuel(valid_utf8, 2);
    }
    assert(decode_utf8(one) =~= seq![decode_first_scalar(rest) as char]) by {
        reveal_with_fuel(decode_utf8, 2);
    }
    lemma_decode_concat(head(bytes, at), one);
    assert(head(bytes, at) + one =~= head(bytes, at + width));
}

/// A walk that has decoded the bytes before `at` and finds no well-formed
/// scalar at `at` has met a text that is not well-formed.
pub proof fn lemma_walk_stuck(bytes: Seq<u8>, at: int)
    requires
        0 <= at < bytes.len(),
        valid_utf8(head(bytes, at)),
        !valid_first_scalar(tail(bytes, at)),
    ensures
        !valid_utf8(bytes),
{
    partial_valid_partial_invalid_utf8(bytes, at);
}

/// Where the bytes before `shorter` and the bytes before a later place
/// `longer` are both well-formed, a well-formed scalar starts at `shorter`.
pub proof fn lemma_valid_head_continues(bytes: Seq<u8>, shorter: int, longer: int)
    requires
        0 <= shorter < longer <= bytes.len(),
        valid_utf8(head(bytes, shorter)),
        valid_utf8(head(bytes, longer)),
    ensures
        valid_first_scalar(tail(bytes, shorter)),
    decreases shorter,
{
    let long = head(bytes, longer);
    assert(valid_first_scalar(long));
    let width = length_of_first_scalar(long);
    if shorter == 0 {
        assert(valid_first_scalar(tail(bytes, 0)));
    } else {
        let short = head(bytes, shorter);
        assert(valid_first_scalar(short));
        assert(length_of_first_scalar(short) == width);
        let rest = tail(bytes, width);
        assert(pop_first_scalar(short) =~= head(rest, shorter - width));
        assert(pop_first_scalar(long) =~= head(rest, longer - width));
        lemma_valid_head_continues(rest, shorter - width, longer - width);
        assert(tail(rest, shorter - width) =~= tail(bytes, shorter));
    }
}

} // verus!
