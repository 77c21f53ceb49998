//! What is held back of a stream until more of it arrives.

use vstd::prelude::*;
use vstd::utf8::*;

use crate::display::encoding::{ends_truncated, incomplete, lead_width, lemma_lead_width, utf8_tail};
use crate::display::DisplayEncoding;
use crate::laws::encoding::{utf16_bytes, utf16_text};
use crate::unicode::unit_at;

verus! {

/// The UTF-16 encoding with a byte order.
pub open spec fn utf16_of(big_endian: bool) -> DisplayEncoding {
    if big_endian {
        DisplayEncoding::Utf16Be
    } else {
        DisplayEncoding::Utf16Le
    }
}

/// Of whole characters nothing is held back.
pub proof fn law_whole_characters_are_not_held_back(text: Seq<char>, bytes: Seq<u8>, big_endian: bool)
    ensures
        incomplete(encode_utf8(text), DisplayEncoding::Utf8) == 0,
        incomplete(utf16_text(text, big_endian), utf16_of(big_endian)) == 0,
        incomplete(bytes, DisplayEncoding::Ascii) == 0,
        incomplete(bytes, DisplayEncoding::Latin1) == 0,
{
    reveal(incomplete);
    encode_utf8_valid_utf8(text);
    lemma_no_tail(encode_utf8(text), 1);
    lemma_no_tail(encode_utf8(text), 2);
    lemma_no_tail(encode_utf8(text), 3);
    lemma_units(text, big_endian);
}

proof fn lemma_first_scalar(bytes: Seq<u8>)
    requires
        valid_first_scalar(bytes),
    ensures
        1 <= length_of_first_scalar(bytes) <= 4,
        length_of_first_scalar(bytes) <= bytes.len(),
        lead_width(bytes[0]) == length_of_first_scalar(bytes),
        !is_continuation_byte(bytes[0]),
        forall|j: int|
            0 < j < length_of_first_scalar(bytes) ==> is_continuation_byte(#[trigger] bytes[j]),
{
    lemma_lead_width(bytes);
}

#[verifier::rlimit(40)]
proof fn lemma_no_tail(bytes: Seq<u8>, k: int)
    requires
        valid_utf8(bytes),
    ensures
        !ends_truncated(bytes, k),
    decreases bytes.len(),
{
    if bytes.len() > 0 {
        let n = length_of_first_scalar(bytes);
        let rest = pop_first_scalar(bytes);
        lemma_first_scalar(bytes);
        lemma_no_tail(rest, k);
        assert(rest =~= bytes.skip(n));
        assert forall|j: int| 0 <= j < rest.len() implies #[trigger] rest[j] == bytes[n + j] by {}
        if ends_truncated(bytes, k) {
            if k <= rest.len() {
                assert(bytes[bytes.len() - k] == rest[rest.len() - k]);
                assert forall|j: int| rest.len() - k < j < rest.len() implies is_continuation_byte(
                    #[trigger] rest[j],
                ) by {
                    assert(is_continuation_byte(bytes[n + j]));
                }
                assert(ends_truncated(rest, k));
            } else if rest.len() > 0 {
                lemma_first_scalar(rest);
                assert(is_continuation_byte(bytes[n]));
                assert(rest[0] == bytes[n]);
            } else if k < n {
                assert(is_continuation_byte(bytes[bytes.len() - k]));
            }
        }
    }
}

#[verifier::rlimit(40)]
proof fn lemma_units(text: Seq<char>, big_endian: bool)
    ensures
        utf16_text(text, big_endian).len() % 2 == 0,
        text.len() > 0 ==> utf16_text(text, big_endian).len() >= 2,
        text.len() > 0 ==> !(0xD800 <= unit_at(
            utf16_text(text, big_endian),
            utf16_text(text, big_endian).len() - 2,
            big_endian,
        ) <= 0xDBFF),
    decreases text.len(),
{
    if text.len() > 0 {
        let head = utf16_bytes(text[0], big_endian);
        let tail = utf16_text(text.skip(1), big_endian);
        let all = utf16_text(text, big_endian);
        assert(all == head + tail);
        lemma_units(text.skip(1), big_endian);
        lemma_last_unit(text[0], big_endian);
        let e = all.len() - 2;
        if tail.len() > 0 {
            assert(all[e] == tail[tail.len() - 2] && all[e + 1] == tail[tail.len() - 1]);
            assert(unit_at(all, e, big_endian) == unit_at(tail, tail.len() - 2, big_endian));
            assert(text.skip(1).len() > 0) by {
                if text.skip(1).len() == 0 {
                    assert(tail.len() == 0);
                }
            }
        } else {
            assert(all[e] == head[head.len() - 2] && all[e + 1] == head[head.len() - 1]);
            assert(unit_at(all, e, big_endian) == unit_at(head, head.len() - 2, big_endian));
        }
    }
}

#[verifier::rlimit(40)]
proof fn lemma_last_unit(c: char, big_endian: bool)
    ensures
        ({
            let b = utf16_bytes(c, big_endian);
            &&& b.len() == 2 || b.len() == 4
            &&& !(0xD800 <= unit_at(b, b.len() - 2, big_endian) <= 0xDBFF)
            &&& b.len() == 4 ==> 0xD800 <= unit_at(b, 0, big_endian) <= 0xDBFF
        }),
{
    let code = c as u32 as int;
    let b = utf16_bytes(c, big_endian);
    if code < 0x10000 {
        assert(unit_at(b, 0, big_endian) == code);
    } else {
        let hi = 0xD800 + (code - 0x10000) / 1024;
        let lo = 0xDC00 + (code - 0x10000) % 1024;
        assert(unit_at(b, 0, big_endian) == hi);
        assert(unit_at(b, 2, big_endian) == lo);
    }
}

/// A character that is cut anywhere is held back, all that has arrived of it and nothing
/// before it.
pub proof fn law_cut_characters_are_held_back(text: Seq<char>, c: char, k: int, big_endian: bool)
    requires
        0 < k,
    ensures
        k < encode_utf8(seq![c]).len() ==> incomplete(
            encode_utf8(text) + encode_utf8(seq![c]).take(k),
            DisplayEncoding::Utf8,
        ) == k,
        k < utf16_bytes(c, big_endian).len() ==> incomplete(
            utf16_text(text, big_endian) + utf16_bytes(c, big_endian).take(k),
            utf16_of(big_endian),
        ) == k,
{
    if k < encode_utf8(seq![c]).len() {
        lemma_cut_utf8(text, c, k);
    }
    if k < utf16_bytes(c, big_endian).len() {
        lemma_cut_utf16(text, c, k, big_endian);
    }
}

#[verifier::spinoff_prover]
#[verifier::rlimit(40)]
proof fn lemma_cut_utf8(text: Seq<char>, c: char, k: int)
    requires
        0 < k < encode_utf8(seq![c]).len(),
    ensures
        incomplete(encode_utf8(text) + encode_utf8(seq![c]).take(k), DisplayEncoding::Utf8) == k,
{
    reveal(incomplete);
    let one = encode_utf8(seq![c]);
    let front = encode_utf8(text);
    lemma_one_scalar(c);
    lemma_first_scalar(one);
    lemma_cut_scalar(front, one, k);
}

/// The beginning of a sequence of bytes that are one character is what input ends with.
#[verifier::spinoff_prover]
#[verifier::rlimit(40)]
proof fn lemma_cut_scalar(front: Seq<u8>, one: Seq<u8>, k: int)
    requires
        0 < k < one.len(),
        one.len() <= 4,
        lead_width(one[0]) == one.len(),
        forall|j: int| 0 < j < one.len() ==> is_continuation_byte(#[trigger] one[j]),
    ensures
        utf8_tail(front + one.take(k)) == k,
{
    let all = front + one.take(k);
    let s = front.len() as int;
    assert(all.len() == s + k);
    assert forall|j: int| s <= j < all.len() implies #[trigger] all[j] == one[j - s] by {}
    assert(ends_truncated(all, k)) by {
        assert(all[all.len() - k] == one[0]);
        assert forall|j: int| all.len() - k < j < all.len() implies is_continuation_byte(
            #[trigger] all[j],
        ) by {
            assert(all[j] == one[j - s]);
        }
    }
    assert forall|i: int| 0 < i < k implies !#[trigger] ends_truncated(all, i) by {
        assert(all[all.len() - i] == one[k - i]);
        assert(is_continuation_byte(one[k - i]));
    }
    assert(!ends_truncated(all, 1) || k == 1);
    assert(!ends_truncated(all, 2) || k <= 2);
}

#[verifier::spinoff_prover]
#[verifier::rlimit(40)]
proof fn lemma_cut_utf16(text: Seq<char>, c: char, k: int, big_endian: bool)
    requires
        0 < k < utf16_bytes(c, big_endian).len(),
    ensures
        incomplete(
            utf16_text(text, big_endian) + utf16_bytes(c, big_endian).take(k),
            utf16_of(big_endian),
        ) == k,
{
    reveal(incomplete);
    let one = utf16_bytes(c, big_endian);
    let front = utf16_text(text, big_endian);
    let all = front + one.take(k);
    lemma_units(text, big_endian);
    lemma_last_unit(c, big_endian);
    let s = front.len() as int;
    assert forall|j: int| s <= j < all.len() implies #[trigger] all[j] == one[j - s] by {}
    if k == 1 {
        if s > 0 {
            assert(all[s - 2] == front[s - 2] && all[s - 1] == front[s - 1]);
            assert(unit_at(all, s - 2, big_endian) == unit_at(front, s - 2, big_endian));
            assert(text.len() > 0) by {
                if text.len() == 0 {
                    assert(front.len() == 0);
                }
            }
        }
    } else {
        assert(all[s] == one[0] && all[s + 1] == one[1]);
        assert(unit_at(all, s, big_endian) == unit_at(one, 0, big_endian));
    }
}

#[verifier::rlimit(40)]
proof fn lemma_one_scalar(c: char)
    ensures
        valid_first_scalar(encode_utf8(seq![c])),
        length_of_first_scalar(encode_utf8(seq![c])) == encode_utf8(seq![c]).len(),
{
    let one = encode_utf8(seq![c]);
    encode_utf8_valid_utf8(seq![c]);
    encode_utf8_decode_utf8(seq![c]);
    reveal_with_fuel(encode_utf8, 2);
    assert(seq![c].drop_first() =~= Seq::<char>::empty());
    assert(one.len() > 0);
    let rest = pop_first_scalar(one);
    let d = decode_utf8(one);
    assert(d.len() == 1);
    if rest.len() > 0 {
        reveal_with_fuel(decode_utf8, 2);
        assert(d.len() >= 2);
    }
}

} // verus!
