//! Decoding one character at a time from bytes.

use vstd::prelude::*;
use vstd::utf8::*;

verus! {

/// The character that stands for undecodable input.
pub const REPLACEMENT: char = '\u{FFFD}';

/// `char::from_u32` gives the character with the code point `i`, and `None` exactly
/// where `i` is no Unicode scalar value.
pub assume_specification[ char::from_u32 ](i: u32) -> (r: Option<char>)
    ensures
        r is Some <==> is_scalar(i),
        r matches Some(c) ==> c as u32 == i,
;

/// The character that the UTF-8 bytes begin with and the number of bytes it takes:
/// the replacement character, over one byte, where they begin with no well-formed
/// sequence.
pub open spec fn first_utf8(bytes: Seq<u8>) -> (char, int) {
    if valid_first_scalar(bytes) {
        (decode_first_scalar(bytes) as char, length_of_first_scalar(bytes))
    } else {
        (REPLACEMENT, 1)
    }
}

/// The 16-bit code unit at `i`.
pub open spec fn unit_at(bytes: Seq<u8>, i: int, big_endian: bool) -> u32 {
    if big_endian {
        (bytes[i] as int * 256 + bytes[i + 1] as int) as u32
    } else {
        (bytes[i + 1] as int * 256 + bytes[i] as int) as u32
    }
}

pub open spec fn is_high_surrogate(unit: u32) -> bool {
    0xD800 <= unit <= 0xDBFF
}

pub open spec fn is_low_surrogate(unit: u32) -> bool {
    0xDC00 <= unit <= 0xDFFF
}

/// The code point of a surrogate pair.
pub open spec fn pair_code_point(high: u32, low: u32) -> u32 {
    (0x10000 + (high - 0xD800) * 0x400 + (low - 0xDC00)) as u32
}

/// The character that the UTF-16 bytes begin with and the number of bytes it takes:
/// four for a surrogate pair, two for any other unit (an unpaired surrogate is
/// replaced), one for a byte with none after it.
pub open spec fn first_utf16(bytes: Seq<u8>, big_endian: bool) -> (char, int) {
    if bytes.len() < 2 {
        (REPLACEMENT, 1)
    } else {
        let unit = unit_at(bytes, 0, big_endian);
        if is_high_surrogate(unit) && bytes.len() >= 4 && is_low_surrogate(
            unit_at(bytes, 2, big_endian),
        ) {
            (pair_code_point(unit, unit_at(bytes, 2, big_endian)) as char, 4)
        } else if is_high_surrogate(unit) || is_low_surrogate(unit) {
            (REPLACEMENT, 2)
        } else {
            (unit as char, 2)
        }
    }
}

/// The code point of a two-byte sequence has at most eleven bits.
proof fn lemma_width_2(b1: u8, b2: u8)
    ensures
        codepoint_width_2(b1, b2) < 0x800,
{
    assert((((b1 & 0x1F) as u32) << 6u32) | ((b2 & 0x3f) as u32) < 0x800) by (bit_vector);
}

/// The code point of a three-byte sequence has at most sixteen bits.
proof fn lemma_width_3(b1: u8, b2: u8, b3: u8)
    ensures
        codepoint_width_3(b1, b2, b3) < 0x10000,
{
    assert((((b1 & 0x0F) as u32) << 12u32) | (((b2 & 0x3f) as u32) << 6u32) | ((b3 & 0x3f) as u32)
        < 0x10000) by (bit_vector);
}

/// What a well-formed sequence encodes is a Unicode scalar value.
pub proof fn lemma_scalar_bound(bytes: Seq<u8>)
    requires
        bytes.len() > 0,
        valid_first_scalar(bytes),
    ensures
        is_scalar(decode_first_scalar(bytes)),
        is_leading_byte_width_1(bytes[0]) ==> decode_first_scalar(bytes) < 0x80,
        !is_leading_byte_width_1(bytes[0]) ==> decode_first_scalar(bytes) >= 0x80,
{
    let b = bytes[0];
    assert((b & 0x7F) as u32 <= 0x7F) by (bit_vector);
    if is_leading_byte_width_2(b) {
        lemma_width_2(b, bytes[1]);
    } else if is_leading_byte_width_3(b) {
        lemma_width_3(b, bytes[1], bytes[2]);
    }
}

/// The character at `i` of UTF-8 input, and its length.
pub fn utf8_step(bytes: &[u8], i: usize) -> (r: (char, usize))
    requires
        i < bytes.len(),
    ensures
        (r.0, r.1 as int) == first_utf8(bytes@.skip(i as int)),
        1 <= r.1 <= bytes.len() - i,
{
    match utf8_char(bytes, i) {
        Some(found) => found,
        None => (REPLACEMENT, 1),
    }
}

/// The character whose encoding begins at `i`, and its length, where one does.
pub fn utf8_char(bytes: &[u8], i: usize) -> (r: Option<(char, usize)>)
    requires
        i < bytes.len(),
    ensures
        r is Some <==> valid_first_scalar(bytes@.skip(i as int)),
        r matches Some(found) ==> (found.0, found.1 as int) == first_utf8(bytes@.skip(i as int))
            && 1 <= found.1 <= bytes.len() - i,
{
    let b1: u8 = bytes[i];
    let ghost rest = bytes@.skip(i as int);
    assert(rest[0] == b1);
    assert(rest.len() == bytes.len() - i);
    let left: usize = bytes.len() - i;
    if b1 <= 0x7f {
        assert(b1 <= 0x7f ==> (b1 & 0x7F) == b1) by (bit_vector);
        return Some((b1 as char, 1));
    }
    let (point, len): (u32, usize) = if 0xc0 <= b1 && b1 <= 0xdf && left >= 2 {
        let b2: u8 = bytes[i + 1];
        assert(rest[1] == b2);
        if 0x80 <= b2 && b2 <= 0xbf {
            proof {
                lemma_width_2(b1, b2);
            }
            ((((b1 & 0x1F) as u32) << 6) | ((b2 & 0x3f) as u32), 2)
        } else {
            (0, 0)
        }
    } else if 0xe0 <= b1 && b1 <= 0xef && left >= 3 {
        let b2: u8 = bytes[i + 1];
        let b3: u8 = bytes[i + 2];
        assert(rest[1] == b2 && rest[2] == b3);
        if 0x80 <= b2 && b2 <= 0xbf && 0x80 <= b3 && b3 <= 0xbf {
            proof {
                lemma_width_3(b1, b2, b3);
            }
            (
                (((b1 & 0x0F) as u32) << 12) | (((b2 & 0x3f) as u32) << 6) | ((b3 & 0x3f) as u32),
                3,
            )
        } else {
            (0, 0)
        }
    } else if 0xf0 <= b1 && b1 <= 0xf7 && left >= 4 {
        let b2: u8 = bytes[i + 1];
        let b3: u8 = bytes[i + 2];
        let b4: u8 = bytes[i + 3];
        assert(rest[1] == b2 && rest[2] == b3 && rest[3] == b4);
        if 0x80 <= b2 && b2 <= 0xbf && 0x80 <= b3 && b3 <= 0xbf && 0x80 <= b4 && b4 <= 0xbf {
            (
                (((b1 & 0x07) as u32) << 18) | (((b2 & 0x3f) as u32) << 12) | (((b3 & 0x3f) as u32)
                    << 6) | ((b4 & 0x3f) as u32),
                4,
            )
        } else {
            (0, 0)
        }
    } else {
        (0, 0)
    };
    let least: u32 = if len == 2 {
        0x80
    } else if len == 3 {
        0x800
    } else {
        0x10000
    };
    if len == 0 || point < least {
        return None;
    }
    match char::from_u32(point) {
        Some(c) => {
            proof {
                char_u32_cast(c, point);
            }
            Some((c, len))
        },
        None => None,
    }
}

/// The text of UTF-8 bytes, with a replacement character for each byte that begins no
/// well-formed sequence.
pub open spec fn lossy_text(bytes: Seq<u8>) -> Seq<char>
    decreases bytes.len(),
{
    if bytes.len() == 0 {
        Seq::empty()
    } else {
        let (c, n) = first_utf8(bytes);
        seq![c] + lossy_text(bytes.skip(n))
    }
}

/// What `String::from_utf8_lossy` gives for bytes: their text, with a replacement
/// character for each ill-formed part. How many bytes one replacement stands for is std's
/// rule.
pub uninterp spec fn replaced_text(bytes: Seq<u8>) -> Seq<char>;

/// `String::from_utf8_lossy`, which depends on the bytes alone and gives well-formed
/// UTF-8 unchanged. Where the replacement characters of ill-formed bytes stand is not
/// said here.
#[verifier::external_body]
pub(crate) fn utf8_lossy(bytes: &[u8]) -> (r: String)
    ensures
        r@ == replaced_text(bytes@),
        valid_utf8(bytes@) ==> r@ == decode_utf8(bytes@),
{
    String::from_utf8_lossy(bytes).into_owned()
}

/// Well-formed UTF-8 loses nothing.
pub proof fn law_valid_text_is_lossless(bytes: Seq<u8>)
    requires
        valid_utf8(bytes),
    ensures
        lossy_text(bytes) == decode_utf8(bytes),
    decreases bytes.len(),
{
    if bytes.len() > 0 {
        assert(bytes.skip(length_of_first_scalar(bytes)) =~= pop_first_scalar(bytes));
        law_valid_text_is_lossless(pop_first_scalar(bytes));
    }
}

/// What a text is encoded as decodes to the text.
pub proof fn law_text_round_trip(text: Seq<char>)
    ensures
        valid_utf8(encode_utf8(text)),
        lossy_text(encode_utf8(text)) == text,
{
    encode_utf8_valid_utf8(text);
    encode_utf8_decode_utf8(text);
    law_valid_text_is_lossless(encode_utf8(text));
}

/// The text of `bytes[from..to]`.
pub fn text_of(bytes: &[u8], from: usize, to: usize) -> (r: String)
    requires
        from <= to <= bytes.len(),
    ensures
        r@ == lossy_text(bytes@.subrange(from as int, to as int)),
{
    let part: &[u8] = vstd::slice::slice_subrange(bytes, from, to);
    let mut out: String = String::new();
    let mut i: usize = 0;
    assert(part@.skip(0) =~= part@);
    assert(out@ + lossy_text(part@) =~= lossy_text(part@));
    while i < part.len()
        invariant
            i <= part.len(),
            out@ + lossy_text(part@.skip(i as int)) == lossy_text(part@),
        decreases part.len() - i,
    {
        let (c, n) = utf8_step(part, i);
        let ghost rest = part@.skip(i as int);
        assert(rest.skip(n as int) =~= part@.skip(i + n));
        let ghost before = out@;
        out.push(c);
        i = i + n;
        assert(out@ + lossy_text(part@.skip(i as int)) =~= before + lossy_text(rest));
    }
    assert(out@ + lossy_text(part@.skip(i as int)) =~= out@);
    out
}

/// Whether `bytes` are well-formed UTF-8.
pub fn is_utf8(bytes: &[u8]) -> (r: bool)
    ensures
        r == valid_utf8(bytes@),
{
    let mut i: usize = 0;
    assert(bytes@.skip(0) =~= bytes@);
    while i < bytes.len()
        invariant
            i <= bytes.len(),
            valid_utf8(bytes@) == valid_utf8(bytes@.skip(i as int)),
        decreases bytes.len() - i,
    {
        let ghost rest = bytes@.skip(i as int);
        match utf8_char(bytes, i) {
            Some((_, n)) => {
                assert(rest.skip(n as int) =~= bytes@.skip(i + n));
                assert(pop_first_scalar(rest) =~= rest.skip(n as int));
                i = i + n;
            },
            None => {
                return false;
            },
        }
    }
    true
}

/// The code unit at `i`.
pub fn utf16_unit(bytes: &[u8], i: usize, big_endian: bool) -> (r: u32)
    requires
        i + 1 < bytes.len(),
    ensures
        r == unit_at(bytes@, i as int, big_endian),
        r <= 0xFFFF,
{
    let first: u32 = bytes[i] as u32;
    let second: u32 = bytes[i + 1] as u32;
    if big_endian {
        first * 256 + second
    } else {
        second * 256 + first
    }
}

/// The character at `i` of UTF-16 input, and its length.
pub fn utf16_step(bytes: &[u8], i: usize, big_endian: bool) -> (r: (char, usize))
    requires
        i < bytes.len(),
    ensures
        (r.0, r.1 as int) == first_utf16(bytes@.skip(i as int), big_endian),
        1 <= r.1 <= bytes.len() - i,
{
    let ghost rest = bytes@.skip(i as int);
    let left: usize = bytes.len() - i;
    if left < 2 {
        return (REPLACEMENT, 1);
    }
    let unit: u32 = utf16_unit(bytes, i, big_endian);
    assert(unit == unit_at(rest, 0, big_endian));
    if 0xD800 <= unit && unit <= 0xDBFF && left >= 4 {
        let low: u32 = utf16_unit(bytes, i + 2, big_endian);
        assert(low == unit_at(rest, 2, big_endian));
        if 0xDC00 <= low && low <= 0xDFFF {
            let point: u32 = 0x10000 + (unit - 0xD800) * 0x400 + (low - 0xDC00);
            return match char::from_u32(point) {
                Some(c) => {
                    proof {
                        char_u32_cast(c, point);
                    }
                    (c, 4)
                },
                None => (REPLACEMENT, 4),
            };
        }
    }
    match char::from_u32(unit) {
        Some(c) => {
            proof {
                char_u32_cast(c, unit);
            }
            (c, 2)
        },
        None => (REPLACEMENT, 2),
    }
}

} // verus!
