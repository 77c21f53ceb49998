//! Decoding received bytes into characters under the selected display encoding.
//!
//! Decoding is lossy and total: an invalid sequence becomes the replacement character
//! rather than being dropped, so that it stays visible that something was there.

use vstd::prelude::*;
use vstd::utf8::*;

use crate::display::DisplayEncoding;
use crate::unicode::{
    first_utf16, first_utf8, is_high_surrogate, unit_at, utf16_step, utf16_unit, utf8_step,
    REPLACEMENT,
};

verus! {

/// The character that `bytes` begin with under `encoding`, and the number of bytes that
/// it takes.
pub open spec fn first_char(bytes: Seq<u8>, encoding: DisplayEncoding) -> (char, int) {
    match encoding {
        DisplayEncoding::Ascii => (
            if bytes[0] <= 0x7F {
                bytes[0] as char
            } else {
                REPLACEMENT
            },
            1,
        ),
        DisplayEncoding::Latin1 => (bytes[0] as char, 1),
        DisplayEncoding::Utf8 => first_utf8(bytes),
        DisplayEncoding::Utf16Le => first_utf16(bytes, false),
        DisplayEncoding::Utf16Be => first_utf16(bytes, true),
    }
}

/// A character takes at least one byte and no more than there are.
pub proof fn lemma_first_char_len(bytes: Seq<u8>, encoding: DisplayEncoding)
    requires
        bytes.len() > 0,
    ensures
        1 <= first_char(bytes, encoding).1 <= bytes.len(),
{
}

/// The characters of `bytes`, each with the offset of its first byte; the first byte
/// of `bytes` stands at `base`.
pub open spec fn decoded_from(bytes: Seq<u8>, encoding: DisplayEncoding, base: int) -> Seq<
    (char, int),
>
    decreases bytes.len(),
{
    if bytes.len() == 0 {
        Seq::empty()
    } else {
        let (c, n) = first_char(bytes, encoding);
        seq![(c, base)] + decoded_from(bytes.skip(n), encoding, base + n)
    }
}

/// The characters of `bytes`, each with the offset of its first byte.
pub open spec fn decoded(bytes: Seq<u8>, encoding: DisplayEncoding) -> Seq<(char, int)> {
    decoded_from(bytes, encoding, 0)
}

/// The characters of `bytes` under `encoding`, each with the offset of its first byte.
pub fn decode_with_offsets(bytes: &[u8], encoding: DisplayEncoding) -> (r: Vec<(char, usize)>)
    ensures
        r@.map_values(|p: (char, usize)| (p.0, p.1 as int)) == decoded(bytes@, encoding),
{
    let mut out: Vec<(char, usize)> = Vec::new();
    let mut i: usize = 0;
    let ghost as_model = |p: (char, usize)| (p.0, p.1 as int);
    assert(bytes@.skip(0) =~= bytes@);
    assert(out@.map_values(as_model) =~= Seq::empty());
    while i < bytes.len()
        invariant
            i <= bytes.len(),
            as_model == (|p: (char, usize)| (p.0, p.1 as int)),
            out@.map_values(as_model) + decoded_from(bytes@.skip(i as int), encoding, i as int)
                == decoded(bytes@, encoding),
        decreases bytes.len() - i,
    {
        let ghost rest = bytes@.skip(i as int);
        let (c, n): (char, usize) = match encoding {
            DisplayEncoding::Ascii => {
                let b: u8 = bytes[i];
                (
                    if b <= 0x7F {
                        b as char
                    } else {
                        REPLACEMENT
                    },
                    1,
                )
            },
            DisplayEncoding::Latin1 => (bytes[i] as char, 1),
            DisplayEncoding::Utf8 => utf8_step(bytes, i),
            DisplayEncoding::Utf16Le => utf16_step(bytes, i, false),
            DisplayEncoding::Utf16Be => utf16_step(bytes, i, true),
        };
        assert((c, n as int) == first_char(rest, encoding));
        let ghost before = out@;
        out.push((c, i));
        i = i + n;
        proof {
            assert(rest.skip(n as int) =~= bytes@.skip(i as int));
            assert(out@.map_values(as_model) =~= before.map_values(as_model) + seq![
                (c, (i - n) as int),
            ]);
            assert(out@.map_values(as_model) + decoded_from(
                bytes@.skip(i as int),
                encoding,
                i as int,
            ) =~= before.map_values(as_model) + decoded_from(rest, encoding, (i - n) as int));
        }
    }
    assert(out@.map_values(as_model) + decoded_from(bytes@.skip(i as int), encoding, i as int)
        =~= out@.map_values(as_model));
    out
}

/// The length that a UTF-8 lead byte declares, 0 for a byte that leads nothing: a
/// continuation byte, or one of those that lead no well-formed sequence (0xC0 and 0xC1,
/// 0xF5 and above).
pub open spec fn lead_width(byte: u8) -> int {
    if byte <= 0x7F {
        1
    } else if 0xC2 <= byte <= 0xDF {
        2
    } else if 0xE0 <= byte <= 0xEF {
        3
    } else if 0xF0 <= byte <= 0xF4 {
        4
    } else {
        0
    }
}

/// A byte that leads a well-formed sequence declares its length.
pub proof fn lemma_lead_width(bytes: Seq<u8>)
    requires
        valid_first_scalar(bytes),
    ensures
        lead_width(bytes[0]) == length_of_first_scalar(bytes),
{
    let a = bytes[0];
    if is_leading_byte_width_2(a) {
        let b = bytes[1];
        assert(a <= 0xC1 && 0xC0 <= a ==> (((a & 0x1F) as u32) << 6) | ((b & 0x3F) as u32) < 0x80)
            by (bit_vector);
    } else if is_leading_byte_width_4(a) {
        let b = bytes[1];
        let c = bytes[2];
        let d = bytes[3];
        assert(a >= 0xF5 && a <= 0xF7 ==> (((a & 0x07) as u32) << 18) | (((b & 0x3F) as u32) << 12)
            | (((c & 0x3F) as u32) << 6) | ((d & 0x3F) as u32) > 0x10FFFF) by (bit_vector);
    }
}

/// The last `k` bytes are a lead byte and continuation bytes, fewer than it declares.
pub open spec fn ends_truncated(bytes: Seq<u8>, k: int) -> bool {
    &&& 1 <= k <= bytes.len()
    &&& lead_width(bytes[bytes.len() - k]) > k
    &&& forall|j: int| bytes.len() - k < j < bytes.len() ==> is_continuation_byte(#[trigger] bytes[j])
}

/// The length of the truncated sequence that UTF-8 input ends with.
pub open spec fn utf8_tail(bytes: Seq<u8>) -> int {
    if ends_truncated(bytes, 1) {
        1
    } else if ends_truncated(bytes, 2) {
        2
    } else if ends_truncated(bytes, 3) {
        3
    } else {
        0
    }
}

/// The length of the truncated sequence that UTF-16 input ends with: an odd byte, and
/// a high surrogate that waits for its other half.
pub open spec fn utf16_tail(bytes: Seq<u8>, big_endian: bool) -> int {
    let odd = bytes.len() as int % 2;
    let even = bytes.len() - odd;
    if even >= 2 && is_high_surrogate(unit_at(bytes, even - 2, big_endian)) {
        odd + 2
    } else {
        odd
    }
}

/// The number of trailing bytes that are an incomplete (not an invalid) sequence.
#[verifier::opaque]
pub open spec fn incomplete(bytes: Seq<u8>, encoding: DisplayEncoding) -> int {
    match encoding {
        DisplayEncoding::Ascii | DisplayEncoding::Latin1 => 0,
        DisplayEncoding::Utf8 => utf8_tail(bytes),
        DisplayEncoding::Utf16Le => utf16_tail(bytes, false),
        DisplayEncoding::Utf16Be => utf16_tail(bytes, true),
    }
}

/// How many trailing bytes of `bytes` are an incomplete multi-byte sequence under
/// `encoding`: what a streaming renderer holds back until the next chunk, so that a
/// character split across two reads decodes as itself. Always 0 for the single-byte
/// encodings, at most 3 otherwise.
pub fn incomplete_tail(bytes: &[u8], encoding: DisplayEncoding) -> (r: usize)
    ensures
        r == incomplete(bytes@, encoding),
        r <= bytes.len(),
        r <= 3,
{
    reveal(incomplete);
    match encoding {
        DisplayEncoding::Ascii | DisplayEncoding::Latin1 => 0,
        DisplayEncoding::Utf8 => incomplete_utf8_tail(bytes),
        DisplayEncoding::Utf16Le => incomplete_utf16_tail(bytes, false),
        DisplayEncoding::Utf16Be => incomplete_utf16_tail(bytes, true),
    }
}

/// The trailing bytes of a truncated UTF-8 sequence. Anything malformed (stray
/// continuations, an invalid lead) and any complete sequence gives 0: that is data for
/// the lossy decoder.
fn incomplete_utf8_tail(bytes: &[u8]) -> (r: usize)
    ensures
        r == utf8_tail(bytes@),
        r <= bytes.len(),
        r <= 3,
{
    let n: usize = bytes.len();
    let mut i: usize = n;
    let mut continuations: usize = 0;
    while i > 0 && continuations < 3 && 0x80 <= bytes[i - 1] && bytes[i - 1] <= 0xBF
        invariant
            n == bytes.len(),
            i + continuations == n,
            continuations <= 3,
            forall|j: int| i <= j < n ==> is_continuation_byte(#[trigger] bytes@[j]),
        decreases i,
    {
        i = i - 1;
        continuations = continuations + 1;
    }
    proof {
        assert forall|k: int| 1 <= k <= continuations implies !ends_truncated(bytes@, k) by {
            assert(is_continuation_byte(bytes@[n - k]));
        }
    }
    if i == 0 {
        return 0;
    }
    let lead: u8 = bytes[i - 1];
    let need: usize = if lead <= 0x7F {
        1
    } else if 0xC2 <= lead && lead <= 0xDF {
        2
    } else if 0xE0 <= lead && lead <= 0xEF {
        3
    } else if 0xF0 <= lead && lead <= 0xF4 {
        4
    } else {
        0
    };
    let have: usize = continuations + 1;
    proof {
        assert(need == lead_width(bytes@[n - have]));
        assert forall|k: int| have < k <= 3 implies !ends_truncated(bytes@, k) by {
            if ends_truncated(bytes@, k) {
                assert(is_continuation_byte(bytes@[n - have]));
            }
        }
    }
    if need > have {
        have
    } else {
        0
    }
}

/// The trailing bytes of a truncated UTF-16 sequence.
fn incomplete_utf16_tail(bytes: &[u8], big_endian: bool) -> (r: usize)
    ensures
        r == utf16_tail(bytes@, big_endian),
        r <= bytes.len(),
        r <= 3,
{
    let odd: usize = bytes.len() % 2;
    let even: usize = bytes.len() - odd;
    if even >= 2 {
        let unit: u32 = utf16_unit(bytes, even - 2, big_endian);
        if 0xD800 <= unit && unit <= 0xDBFF {
            return odd + 2;
        }
    }
    odd
}

} // verus!
