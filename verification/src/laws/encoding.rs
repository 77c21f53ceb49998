//! What received bytes decode to.

use vstd::prelude::*;
use vstd::utf8::*;

use crate::display::encoding::{decoded, decoded_from, first_char};
use crate::display::DisplayEncoding;

verus! {

/// Under Latin-1 every byte is the character with its value, where it stands.
pub proof fn law_latin1_is_the_byte(bytes: Seq<u8>)
    ensures
        decoded(bytes, DisplayEncoding::Latin1).len() == bytes.len(),
        forall|i: int|
            0 <= i < bytes.len() ==> (#[trigger] decoded(bytes, DisplayEncoding::Latin1)[i]).0 as u32
                == bytes[i] && decoded(bytes, DisplayEncoding::Latin1)[i].1 == i,
{
    lemma_latin1(bytes, 0);
}

pub proof fn lemma_latin1(bytes: Seq<u8>, base: int)
    ensures
        decoded_from(bytes, DisplayEncoding::Latin1, base).len() == bytes.len(),
        forall|i: int|
            0 <= i < bytes.len() ==> (#[trigger] decoded_from(
                bytes,
                DisplayEncoding::Latin1,
                base,
            )[i]).0 as u32 == bytes[i] && decoded_from(bytes, DisplayEncoding::Latin1, base)[i].1
                == base + i,
    decreases bytes.len(),
{
    if bytes.len() > 0 {
        let rest = bytes.skip(1);
        lemma_latin1(rest, base + 1);
        let all = decoded_from(bytes, DisplayEncoding::Latin1, base);
        let tail = decoded_from(rest, DisplayEncoding::Latin1, base + 1);
        assert(all == seq![(bytes[0] as char, base)] + tail);
        assert forall|i: int| 0 <= i < bytes.len() implies (#[trigger] all[i]).0 as u32 == bytes[i]
            && all[i].1 == base + i by {
            if i > 0 {
                assert(all[i] == tail[i - 1]);
                assert(rest[i - 1] == bytes[i]);
            }
        }
    }
}

/// Under ASCII every byte below 128 is the character with its value, where it stands, and
/// every other byte is replaced.
pub proof fn law_ascii_is_the_byte_or_replaced(bytes: Seq<u8>)
    ensures
        decoded(bytes, DisplayEncoding::Ascii).len() == bytes.len(),
        forall|i: int|
            0 <= i < bytes.len() ==> (#[trigger] decoded(bytes, DisplayEncoding::Ascii)[i]).0 as u32
                == (if bytes[i] < 128 {
                bytes[i] as u32
            } else {
                0xFFFD
            }) && decoded(bytes, DisplayEncoding::Ascii)[i].1 == i,
{
    lemma_ascii(bytes, 0);
}

proof fn lemma_ascii(bytes: Seq<u8>, base: int)
    ensures
        decoded_from(bytes, DisplayEncoding::Ascii, base).len() == bytes.len(),
        forall|i: int|
            0 <= i < bytes.len() ==> (#[trigger] decoded_from(
                bytes,
                DisplayEncoding::Ascii,
                base,
            )[i]).0 as u32 == (if bytes[i] < 128 {
                bytes[i] as u32
            } else {
                0xFFFD
            }) && decoded_from(bytes, DisplayEncoding::Ascii, base)[i].1 == base + i,
    decreases bytes.len(),
{
    if bytes.len() > 0 {
        let rest = bytes.skip(1);
        lemma_ascii(rest, base + 1);
        let all = decoded_from(bytes, DisplayEncoding::Ascii, base);
        let tail = decoded_from(rest, DisplayEncoding::Ascii, base + 1);
        let c = first_char(bytes, DisplayEncoding::Ascii).0;
        assert(all == seq![(c, base)] + tail);
        assert forall|i: int| 0 <= i < bytes.len() implies (#[trigger] all[i]).0 as u32 == (
        if bytes[i] < 128 {
            bytes[i] as u32
        } else {
            0xFFFD
        }) && all[i].1 == base + i by {
            if i > 0 {
                assert(all[i] == tail[i - 1]);
                assert(rest[i - 1] == bytes[i]);
            }
        }
    }
}

/// The characters that were decoded.
pub open spec fn chars_in(d: Seq<(char, int)>) -> Seq<char> {
    d.map_values(|p: (char, int)| p.0)
}

/// A text that was encoded in UTF-8 is decoded to itself.
pub proof fn law_utf8_text_comes_back(text: Seq<char>)
    ensures
        chars_in(decoded(encode_utf8(text), DisplayEncoding::Utf8)) == text,
{
    encode_utf8_valid_utf8(text);
    encode_utf8_decode_utf8(text);
    lemma_utf8(encode_utf8(text), 0);
}

proof fn lemma_utf8(bytes: Seq<u8>, base: int)
    requires
        valid_utf8(bytes),
    ensures
        chars_in(decoded_from(bytes, DisplayEncoding::Utf8, base)) == decode_utf8(bytes),
    decreases bytes.len(),
{
    let all = decoded_from(bytes, DisplayEncoding::Utf8, base);
    if bytes.len() > 0 {
        let n = length_of_first_scalar(bytes);
        assert(bytes.skip(n) =~= pop_first_scalar(bytes));
        lemma_utf8(bytes.skip(n), base + n);
        let tail = decoded_from(bytes.skip(n), DisplayEncoding::Utf8, base + n);
        assert(chars_in(all) =~= seq![decode_first_scalar(bytes) as char] + chars_in(tail));
    } else {
        assert(chars_in(all) =~= Seq::empty());
    }
}

/// Under UTF-8 a byte that begins no well-formed sequence is replaced, alone: it stays
/// visible that something was there, and nothing behind it is lost.
pub proof fn law_ill_formed_utf8_is_replaced_byte_by_byte(bytes: Seq<u8>)
    requires
        bytes.len() > 0,
        !valid_first_scalar(bytes),
    ensures
        decoded(bytes, DisplayEncoding::Utf8).len() > 0,
        decoded(bytes, DisplayEncoding::Utf8)[0].0 as u32 == 0xFFFD,
        decoded(bytes, DisplayEncoding::Utf8)[0].1 == 0,
        chars_in(decoded(bytes, DisplayEncoding::Utf8)).skip(1) == chars_in(
            decoded(bytes.skip(1), DisplayEncoding::Utf8),
        ),
{
    lemma_base(bytes.skip(1), DisplayEncoding::Utf8, 1);
    let all = decoded(bytes, DisplayEncoding::Utf8);
    let tail = decoded_from(bytes.skip(1), DisplayEncoding::Utf8, 1);
    assert(chars_in(all).skip(1) =~= chars_in(tail));
}

/// Where decoding begins moves the offsets and leaves the characters.
proof fn lemma_base(bytes: Seq<u8>, encoding: DisplayEncoding, base: int)
    ensures
        chars_in(decoded_from(bytes, encoding, base)) == chars_in(decoded(bytes, encoding)),
{
    lemma_bases(bytes, encoding, base, 0);
}

proof fn lemma_bases(bytes: Seq<u8>, encoding: DisplayEncoding, a: int, b: int)
    ensures
        chars_in(decoded_from(bytes, encoding, a)) == chars_in(decoded_from(bytes, encoding, b)),
    decreases bytes.len(),
{
    if bytes.len() > 0 {
        let (c, n) = first_char(bytes, encoding);
        lemma_bases(bytes.skip(n), encoding, a + n, b + n);
        let p = decoded_from(bytes.skip(n), encoding, a + n);
        let q = decoded_from(bytes.skip(n), encoding, b + n);
        assert(chars_in(decoded_from(bytes, encoding, a)) =~= seq![c] + chars_in(p));
        assert(chars_in(decoded_from(bytes, encoding, b)) =~= seq![c] + chars_in(q));
    }
}

/// The two bytes of a 16-bit unit, in either order.
pub open spec fn unit_bytes(unit: int, big_endian: bool) -> Seq<u8> {
    let high = (unit / 256) as u8;
    let low = (unit % 256) as u8;
    if big_endian {
        seq![high, low]
    } else {
        seq![low, high]
    }
}

/// A character in UTF-16: one unit, or for the code points beyond 16 bits the ten upper
/// and the ten lower bits of what they exceed them by, each in a surrogate.
pub open spec fn utf16_bytes(c: char, big_endian: bool) -> Seq<u8> {
    let code = c as u32 as int;
    if code < 0x10000 {
        unit_bytes(code, big_endian)
    } else {
        unit_bytes(0xD800 + (code - 0x10000) / 1024, big_endian) + unit_bytes(
            0xDC00 + (code - 0x10000) % 1024,
            big_endian,
        )
    }
}

/// A text in UTF-16.
pub open spec fn utf16_text(text: Seq<char>, big_endian: bool) -> Seq<u8>
    decreases text.len(),
{
    if text.len() == 0 {
        Seq::empty()
    } else {
        utf16_bytes(text[0], big_endian) + utf16_text(text.skip(1), big_endian)
    }
}

/// A text that was encoded in UTF-16, in either byte order, is decoded to itself.
pub proof fn law_utf16_text_comes_back(text: Seq<char>)
    ensures
        chars_in(decoded(utf16_text(text, false), DisplayEncoding::Utf16Le)) == text,
        chars_in(decoded(utf16_text(text, true), DisplayEncoding::Utf16Be)) == text,
{
    lemma_utf16(text, false, 0);
    lemma_utf16(text, true, 0);
}

proof fn lemma_utf16_char(c: char, rest: Seq<u8>, big_endian: bool)
    ensures
        ({
            let encoding = if big_endian {
                DisplayEncoding::Utf16Be
            } else {
                DisplayEncoding::Utf16Le
            };
            first_char(utf16_bytes(c, big_endian) + rest, encoding) == (
                c,
                utf16_bytes(c, big_endian).len() as int,
            )
        }),
{
    let bytes = utf16_bytes(c, big_endian) + rest;
    let code = c as u32 as int;
    if code < 0x10000 {
        assert(bytes[0] == unit_bytes(code, big_endian)[0]);
        assert(bytes[1] == unit_bytes(code, big_endian)[1]);
        assert(crate::unicode::unit_at(bytes, 0, big_endian) == code);
        assert(!(0xD800 <= code <= 0xDFFF));
    } else {
        let hi = 0xD800 + (code - 0x10000) / 1024;
        let lo = 0xDC00 + (code - 0x10000) % 1024;
        assert(bytes[0] == unit_bytes(hi, big_endian)[0]);
        assert(bytes[1] == unit_bytes(hi, big_endian)[1]);
        assert(bytes[2] == unit_bytes(lo, big_endian)[0]);
        assert(bytes[3] == unit_bytes(lo, big_endian)[1]);
        assert(crate::unicode::unit_at(bytes, 0, big_endian) == hi);
        assert(crate::unicode::unit_at(bytes, 2, big_endian) == lo);
        assert(crate::unicode::pair_code_point(hi as u32, lo as u32) == code);
    }
}

proof fn lemma_utf16(text: Seq<char>, big_endian: bool, base: int)
    ensures
        ({
            let encoding = if big_endian {
                DisplayEncoding::Utf16Be
            } else {
                DisplayEncoding::Utf16Le
            };
            chars_in(decoded_from(utf16_text(text, big_endian), encoding, base)) == text
        }),
    decreases text.len(),
{
    let encoding = if big_endian {
        DisplayEncoding::Utf16Be
    } else {
        DisplayEncoding::Utf16Le
    };
    let bytes = utf16_text(text, big_endian);
    let all = decoded_from(bytes, encoding, base);
    if text.len() == 0 {
        assert(chars_in(all) =~= text);
    } else {
        let head = utf16_bytes(text[0], big_endian);
        let rest = utf16_text(text.skip(1), big_endian);
        let n = head.len() as int;
        lemma_utf16_char(text[0], rest, big_endian);
        lemma_utf16(text.skip(1), big_endian, base + n);
        assert(bytes.skip(n) =~= rest);
        let tail = decoded_from(rest, encoding, base + n);
        assert(chars_in(all) =~= seq![text[0]] + chars_in(tail));
        assert(seq![text[0]] + text.skip(1) =~= text);
    }
}

/// Under UTF-16 a surrogate without its partner is replaced, and so is a last byte that
/// has none after it; decoding goes on behind it.
pub proof fn law_broken_utf16_is_replaced(bytes: Seq<u8>, big_endian: bool)
    requires
        bytes.len() > 0,
    ensures
        ({
            let encoding = if big_endian {
                DisplayEncoding::Utf16Be
            } else {
                DisplayEncoding::Utf16Le
            };
            let high = if big_endian {
                bytes[0]
            } else {
                bytes[1]
            };
            let next = if big_endian {
                bytes[2]
            } else {
                bytes[3]
            };
            let d = decoded(bytes, encoding);
            &&& bytes.len() == 1 ==> chars_in(d) == seq!['\u{FFFD}']
            &&& bytes.len() >= 2 && (0xDC <= high <= 0xDF || (0xD8 <= high <= 0xDB && (bytes.len()
                < 4 || !(0xDC <= next <= 0xDF)))) ==> chars_in(d) == seq!['\u{FFFD}'] + chars_in(
                decoded(bytes.skip(2), encoding),
            )
        }),
{
    let encoding = if big_endian {
        DisplayEncoding::Utf16Be
    } else {
        DisplayEncoding::Utf16Le
    };
    let d = decoded(bytes, encoding);
    if bytes.len() == 1 {
        assert(bytes.skip(1) =~= Seq::empty());
        assert(decoded_from(bytes.skip(1), encoding, 1) =~= Seq::empty());
        assert(chars_in(d) =~= seq!['\u{FFFD}']);
    } else {
        let high = if big_endian {
            bytes[0]
        } else {
            bytes[1]
        };
        let next = if big_endian {
            bytes[2]
        } else {
            bytes[3]
        };
        if 0xDC <= high <= 0xDF || (0xD8 <= high <= 0xDB && (bytes.len() < 4 || !(0xDC <= next
            <= 0xDF))) {
            lemma_base(bytes.skip(2), encoding, 2);
            let tail = decoded_from(bytes.skip(2), encoding, 2);
            assert(first_char(bytes, encoding) == ('\u{FFFD}', 2int));
            assert(chars_in(d) =~= seq!['\u{FFFD}'] + chars_in(tail));
        }
    }
}

/// No byte is passed over: the first character begins at the first byte, each one begins
/// behind another, at most four bytes on.
pub proof fn law_no_byte_is_passed_over(bytes: Seq<u8>, encoding: DisplayEncoding, i: int)
    requires
        0 <= i < decoded(bytes, encoding).len(),
    ensures
        ({
            let d = decoded(bytes, encoding);
            let next = if i + 1 < d.len() {
                d[i + 1].1
            } else {
                bytes.len() as int
            };
            &&& i == 0 ==> d[i].1 == 0
            &&& d[i].1 < next <= bytes.len()
            &&& next - d[i].1 <= 4
        }),
{
    lemma_steps(bytes, encoding, 0, i);
}

proof fn lemma_steps(bytes: Seq<u8>, encoding: DisplayEncoding, base: int, i: int)
    requires
        0 <= i < decoded_from(bytes, encoding, base).len(),
    ensures
        ({
            let d = decoded_from(bytes, encoding, base);
            let next = if i + 1 < d.len() {
                d[i + 1].1
            } else {
                base + bytes.len()
            };
            &&& i == 0 ==> d[i].1 == base
            &&& d[i].1 < next <= base + bytes.len()
            &&& next - d[i].1 <= 4
        }),
    decreases bytes.len(),
{
    let (c, n) = first_char(bytes, encoding);
    crate::display::encoding::lemma_first_char_len(bytes, encoding);
    let rest = bytes.skip(n);
    let d = decoded_from(bytes, encoding, base);
    let tail = decoded_from(rest, encoding, base + n);
    assert(d == seq![(c, base)] + tail);
    if i == 0 {
        if tail.len() > 0 {
            lemma_steps(rest, encoding, base + n, 0);
            assert(d[1] == tail[0]);
        } else if rest.len() > 0 {
            assert(tail.len() > 0);
        }
    } else {
        lemma_steps(rest, encoding, base + n, i - 1);
        assert(d[i] == tail[i - 1]);
        if i + 1 < d.len() {
            assert(d[i + 1] == tail[i]);
        }
    }
}

} // verus!
