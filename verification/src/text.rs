//! UTF-8 scalar decoding, verified against `vstd::utf8`, and the
//! whitespace classification used for word splitting.

use vstd::prelude::*;
use vstd::utf8::decode_first_codepoint;
use vstd::utf8::decode_first_scalar;
use vstd::utf8::length_of_first_scalar;
use vstd::utf8::valid_first_scalar;
use vstd::utf8::valid_leading_and_continuation_bytes_first_codepoint;

verus! {

/// Whether the Unicode scalar with this value has the White_Space property:
/// the separators that delimit words.
pub open spec fn is_white_space_value(v: u32) -> bool {
    ||| v == 0x09
    ||| v == 0x0A
    ||| v == 0x0B
    ||| v == 0x0C
    ||| v == 0x0D
    ||| v == 0x20
    ||| v == 0x85
    ||| v == 0xA0
    ||| v == 0x1680
    ||| (0x2000 <= v <= 0x200A)
    ||| v == 0x2028
    ||| v == 0x2029
    ||| v == 0x202F
    ||| v == 0x205F
    ||| v == 0x3000
}

/// Whitespace, on characters.
pub open spec fn is_white_space_char(c: char) -> bool {
    is_white_space_value(c as u32)
}

/// Decides the White_Space property of a scalar value.
pub fn is_white_space_scalar(v: u32) -> (r: bool)
    ensures
        r == is_white_space_value(v),
{
    v == 0x09 || v == 0x0A || v == 0x0B || v == 0x0C || v == 0x0D || v == 0x20 || v == 0x85
        || v == 0xA0 || v == 0x1680 || (0x2000 <= v && v <= 0x200A) || v == 0x2028 || v == 0x2029
        || v == 0x202F || v == 0x205F || v == 0x3000
}

/// A scalar decoded from a byte sequence is in range for `char`, its
/// encoding is between one and four bytes long, and it is a one-byte
/// encoding exactly when the scalar is ASCII.
pub proof fn lemma_first_scalar_bounds(bytes: Seq<u8>)
    requires
        valid_first_scalar(bytes),
    ensures
        ({
            let cp = decode_first_scalar(bytes);
            let l = length_of_first_scalar(bytes);
            &&& vstd::utf8::is_scalar(cp)
            &&& 1 <= l <= 4
            &&& l <= bytes.len()
            &&& (l == 1 <==> cp < 0x80)
        }),
{
    let cp = decode_first_codepoint(bytes);
    let b0 = bytes[0];
    if vstd::utf8::is_leading_byte_width_1(b0) {
        assert(cp == vstd::utf8::codepoint_width_1(b0));
        assert(b0 <= 0x7f ==> ((b0 & 0x7f) as u32) == b0 as u32) by (bit_vector);
        assert(cp < 0x80);
    } else if vstd::utf8::is_leading_byte_width_2(b0) {
        let b1 = bytes[1];
        assert(cp == vstd::utf8::codepoint_width_2(b0, b1));
        assert((((b0 & 0x1f) as u32) << 6u32) | ((b1 & 0x3f) as u32) <= 0x7ff) by (bit_vector);
    } else if vstd::utf8::is_leading_byte_width_3(b0) {
        let b1 = bytes[1];
        let b2 = bytes[2];
        assert(cp == vstd::utf8::codepoint_width_3(b0, b1, b2));
        assert((((b0 & 0x0f) as u32) << 12u32) | (((b1 & 0x3f) as u32) << 6u32) | ((b2
            & 0x3f) as u32) <= 0xffff) by (bit_vector);
    } else {
        let b1 = bytes[1];
        let b2 = bytes[2];
        let b3 = bytes[3];
        assert(cp == vstd::utf8::codepoint_width_4(b0, b1, b2, b3));
    }
}

/// Reads the scalar whose encoding starts at byte `i`, if the bytes there
/// form a well-formed UTF-8 scalar encoding. Returns the scalar value and
/// the length of its encoding, or `None` where the encoding is malformed.
pub fn decode_scalar_at(data: &[u8], i: usize) -> (r: Option<(u32, usize)>)
    requires
        i < data@.len(),
    ensures
        ({
            let suffix = data@.skip(i as int);
            match r {
                Some((v, l)) => {
                    &&& valid_first_scalar(suffix)
                    &&& v == decode_first_scalar(suffix)
                    &&& l == length_of_first_scalar(suffix)
                    &&& 1 <= l <= 4
                    &&& i + l <= data@.len()
                },
                None => !valid_first_scalar(suffix),
            }
        }),
{
    let ghost suffix = data@.skip(i as int);
    let n = data.len();
    let rem = n - i;
    let b0 = data[i];
    assert(suffix[0] == b0);
    if b0 < 0x80 {
        // One-byte encoding: the byte is the scalar.
        let cp = b0 as u32;
        assert(b0 <= 0x7f ==> ((b0 & 0x7f) as u32) == b0 as u32) by (bit_vector);
        assert(cp == decode_first_codepoint(suffix));
        Some((cp, 1))
    } else if b0 < 0xc0 {
        // A continuation byte cannot begin a scalar.
        assert(!valid_leading_and_continuation_bytes_first_codepoint(suffix));
        None
    } else if b0 < 0xe0 {
        if rem < 2 {
            assert(!valid_leading_and_continuation_bytes_first_codepoint(suffix));
            return None;
        }
        let b1 = data[i + 1];
        assert(suffix[1] == b1);
        if !(0x80 <= b1 && b1 < 0xc0) {
            assert(!valid_leading_and_continuation_bytes_first_codepoint(suffix));
            return None;
        }
        let cp: u32 = (((b0 & 0x1f) as u32) << 6u32) | ((b1 & 0x3f) as u32);
        assert(cp == decode_first_codepoint(suffix));
        if cp < 0x80 {
            // Overlong two-byte encoding.
            return None;
        }
        assert((((b0 & 0x1f) as u32) << 6u32) | ((b1 & 0x3f) as u32) <= 0x7ff) by (bit_vector);
        Some((cp, 2))
    } else if b0 < 0xf0 {
        if rem < 3 {
            assert(!valid_leading_and_continuation_bytes_first_codepoint(suffix));
            return None;
        }
        let b1 = data[i + 1];
        let b2 = data[i + 2];
        assert(suffix[1] == b1 && suffix[2] == b2);
        if !(0x80 <= b1 && b1 < 0xc0) || !(0x80 <= b2 && b2 < 0xc0) {
            assert(!valid_leading_and_continuation_bytes_first_codepoint(suffix));
            return None;
        }
        let cp: u32 = (((b0 & 0x0f) as u32) << 12u32) | (((b1 & 0x3f) as u32) << 6u32) | ((b2
            & 0x3f) as u32);
        assert(cp == decode_first_codepoint(suffix));
        if cp < 0x800 {
            // Overlong three-byte encoding.
            return None;
        }
        if 0xd800 <= cp && cp <= 0xdfff {
            // Surrogate range: not a scalar.
            return None;
        }
        Some((cp, 3))
    } else if b0 < 0xf8 {
        if rem < 4 {
            assert(!valid_leading_and_continuation_bytes_first_codepoint(suffix));
            return None;
        }
        let b1 = data[i + 1];
        let b2 = data[i + 2];
        let b3 = data[i + 3];
        assert(suffix[1] == b1 && suffix[2] == b2 && suffix[3] == b3);
        if !(0x80 <= b1 && b1 < 0xc0) || !(0x80 <= b2 && b2 < 0xc0) || !(0x80 <= b3 && b3 < 0xc0) {
            assert(!valid_leading_and_continuation_bytes_first_codepoint(suffix));
            return None;
        }
        let cp: u32 = (((b0 & 0x07) as u32) << 18u32) | (((b1 & 0x3f) as u32) << 12u32) | (((b2
            & 0x3f) as u32) << 6u32) | ((b3 & 0x3f) as u32);
        assert(cp == decode_first_codepoint(suffix));
        if cp < 0x10000 || cp > 0x10ffff {
            // Overlong or out of range.
            return None;
        }
        Some((cp, 4))
    } else {
        // 0xf8..=0xff is no leading byte at all.
        assert(!valid_leading_and_continuation_bytes_first_codepoint(suffix));
        None
    }
}

} // verus!
