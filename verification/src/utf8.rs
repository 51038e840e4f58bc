//! UTF-8 well-formedness of byte strings.

use vstd::prelude::*;
use vstd::utf8;

verus! {

/// Whether `b` is a continuation byte.
fn is_continuation(b: u8) -> (res: bool)
    ensures
        res == utf8::is_continuation_byte(b),
{
    0x80 <= b && b <= 0xbf
}

/// The lead and second byte of a three-byte encoding that is neither overlong nor a surrogate.
spec fn well_formed_3(b0: u8, b1: u8) -> bool {
    &&& b0 == 0xe0 ==> 0xa0 <= b1
    &&& b0 == 0xed ==> b1 <= 0x9f
}

/// The lead and second byte of a four-byte encoding that is neither overlong nor too large.
spec fn well_formed_4(b0: u8, b1: u8) -> bool {
    &&& b0 <= 0xf4
    &&& b0 == 0xf0 ==> 0x90 <= b1
    &&& b0 == 0xf4 ==> b1 <= 0x8f
}

proof fn lemma_width_1(b0: u8)
    requires
        b0 <= 0x7f,
    ensures
        !(0xd800 <= utf8::codepoint_width_1(b0) <= 0xdfff),
{
    assert(!(0xd800 <= ((b0 & 0x7f) as u32) && ((b0 & 0x7f) as u32) <= 0xdfff)) by (bit_vector);
}

proof fn lemma_width_2(b0: u8, b1: u8)
    requires
        0xc0 <= b0 <= 0xdf,
        0x80 <= b1 <= 0xbf,
    ensures
        0x80 <= utf8::codepoint_width_2(b0, b1) <==> 0xc2 <= b0,
        !(0xd800 <= utf8::codepoint_width_2(b0, b1) <= 0xdfff),
{
    let c = utf8::codepoint_width_2(b0, b1);
    assert((0x80 <= c <==> 0xc2 <= b0) && c < 0xd800) by (bit_vector)
        requires
            0xc0 <= b0 <= 0xdf,
            0x80 <= b1 <= 0xbf,
            c == (((b0 & 0x1f) as u32) << 6u32) | ((b1 & 0x3f) as u32),
    ;
}

proof fn lemma_width_3(b0: u8, b1: u8, b2: u8)
    requires
        0xe0 <= b0 <= 0xef,
        0x80 <= b1 <= 0xbf,
        0x80 <= b2 <= 0xbf,
    ensures
        (0x800 <= utf8::codepoint_width_3(b0, b1, b2) && !(0xd800 <= utf8::codepoint_width_3(
            b0,
            b1,
            b2,
        ) <= 0xdfff)) <==> well_formed_3(b0, b1),
{
    let c = utf8::codepoint_width_3(b0, b1, b2);
    assert((0x800 <= c && !(0xd800 <= c && c <= 0xdfff)) <==> ((b0 == 0xe0 ==> 0xa0 <= b1) && (b0
        == 0xed ==> b1 <= 0x9f))) by (bit_vector)
        requires
            0xe0 <= b0 <= 0xef,
            0x80 <= b1 <= 0xbf,
            0x80 <= b2 <= 0xbf,
            c == (((b0 & 0x0f) as u32) << 12u32) | (((b1 & 0x3f) as u32) << 6u32) | ((b2
                & 0x3f) as u32),
    ;
}

proof fn lemma_width_4(b0: u8, b1: u8, b2: u8, b3: u8)
    requires
        0xf0 <= b0 <= 0xf7,
        0x80 <= b1 <= 0xbf,
        0x80 <= b2 <= 0xbf,
        0x80 <= b3 <= 0xbf,
    ensures
        0x10000 <= utf8::codepoint_width_4(b0, b1, b2, b3) <= 0x10ffff <==> well_formed_4(b0, b1),
{
    let c = utf8::codepoint_width_4(b0, b1, b2, b3);
    assert((0x10000 <= c && c <= 0x10ffff) <==> (b0 <= 0xf4 && (b0 == 0xf0 ==> 0x90 <= b1) && (b0
        == 0xf4 ==> b1 <= 0x8f))) by (bit_vector)
        requires
            0xf0 <= b0 <= 0xf7,
            0x80 <= b1 <= 0xbf,
            0x80 <= b2 <= 0xbf,
            0x80 <= b3 <= 0xbf,
            c == (((b0 & 0x07) as u32) << 18u32) | (((b1 & 0x3f) as u32) << 12u32) | (((b2
                & 0x3f) as u32) << 6u32) | ((b3 & 0x3f) as u32),
    ;
}

/// The number of bytes of the character at `i`, or 0 where no character is encoded there.
fn scalar_width(bytes: &[u8], i: usize) -> (res: usize)
    requires
        i < bytes@.len(),
    ensures
        res == 0 <==> !utf8::valid_first_scalar(bytes@.skip(i as int)),
        res > 0 ==> res == utf8::length_of_first_scalar(bytes@.skip(i as int)) && i + res
            <= bytes@.len(),
{
    let len = bytes.len();
    let b0 = bytes[i];
    let ghost rest = bytes@.skip(i as int);
    assert(rest.len() == len - i);
    assert(rest[0] == b0);
    if b0 <= 0x7f {
        proof {
            lemma_width_1(b0);
        }
        return 1;
    }
    if len - i < 2 {
        return 0;
    }
    let b1 = bytes[i + 1];
    assert(rest[1] == b1);
    if !is_continuation(b1) {
        return 0;
    }
    if 0xc0 <= b0 && b0 <= 0xdf {
        proof {
            lemma_width_2(b0, b1);
        }
        return if 0xc2 <= b0 {
            2
        } else {
            0
        };
    }
    if len - i < 3 {
        return 0;
    }
    let b2 = bytes[i + 2];
    assert(rest[2] == b2);
    if !is_continuation(b2) {
        return 0;
    }
    if 0xe0 <= b0 && b0 <= 0xef {
        proof {
            lemma_width_3(b0, b1, b2);
        }
        return if (b0 == 0xe0 && b1 < 0xa0) || (b0 == 0xed && b1 > 0x9f) {
            0
        } else {
            3
        };
    }
    if len - i < 4 {
        return 0;
    }
    let b3 = bytes[i + 3];
    assert(rest[3] == b3);
    if !is_continuation(b3) {
        return 0;
    }
    if 0xf0 <= b0 && b0 <= 0xf4 {
        proof {
            lemma_width_4(b0, b1, b2, b3);
        }
        return if (b0 == 0xf0 && b1 < 0x90) || (b0 == 0xf4 && b1 > 0x8f) {
            0
        } else {
            4
        };
    }
    proof {
        if b0 <= 0xf7 && 0xf0 <= b0 {
            lemma_width_4(b0, b1, b2, b3);
        }
    }
    0
}

/// Whether `bytes` is well-formed UTF-8.
pub fn is_utf8(bytes: &[u8]) -> (res: bool)
    ensures
        res == utf8::valid_utf8(bytes@),
{
    let mut i: usize = 0;
    assert(bytes@.skip(0) =~= bytes@);
    while i < bytes.len()
        invariant
            i <= bytes@.len(),
            utf8::valid_utf8(bytes@) == utf8::valid_utf8(bytes@.skip(i as int)),
        decreases bytes@.len() - i,
    {
        let width = scalar_width(bytes, i);
        if width == 0 {
            return false;
        }
        assert(utf8::pop_first_scalar(bytes@.skip(i as int)) =~= bytes@.skip(i + width));
        i = i + width;
    }
    true
}

} // verus!
