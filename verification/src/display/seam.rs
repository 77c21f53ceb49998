//! Where a byte stream may be cut so that its two parts decode as the whole does.

use vstd::prelude::*;
use vstd::utf8::*;

use crate::display::encoding::{
    decoded_from, ends_truncated, first_char, incomplete, lemma_first_char_len,
    lemma_lead_width, utf16_tail, utf8_tail,
};
use crate::display::DisplayEncoding;
use crate::unicode::{is_high_surrogate, unit_at};

verus! {

/// No character of `p + q` that begins in `p` reaches into `q`.
#[verifier::opaque]
pub open spec fn seam(p: Seq<u8>, q: Seq<u8>, encoding: DisplayEncoding) -> bool {
    q.len() == 0 || match encoding {
        DisplayEncoding::Ascii | DisplayEncoding::Latin1 => true,
        DisplayEncoding::Utf8 => utf8_tail(p) == 0 || !is_continuation_byte(q[0]),
        DisplayEncoding::Utf16Le => seam_utf16(p, q, false),
        DisplayEncoding::Utf16Be => seam_utf16(p, q, true),
    }
}

pub open spec fn seam_utf16(p: Seq<u8>, q: Seq<u8>, big_endian: bool) -> bool {
    &&& p.len() % 2 == 0
    &&& utf16_tail(p, big_endian) == 0 || (q.len() >= 2 && is_high_surrogate(
        unit_at(q, 0, big_endian),
    ))
}

proof fn lemma_first_utf8(p: Seq<u8>, q: Seq<u8>)
    requires
        p.len() > 0,
        q.len() > 0,
        seam(p, q, DisplayEncoding::Utf8),
    ensures
        first_char(p + q, DisplayEncoding::Utf8) == first_char(p, DisplayEncoding::Utf8),
{
    reveal(seam);
    let w = p + q;
    assert(forall|j: int| 0 <= j < p.len() ==> w[j] == p[j]);
    if valid_first_scalar(w) {
        let n = length_of_first_scalar(w);
        lemma_lead_width(w);
        if n > p.len() {
            let k = p.len() as int;
            assert(w[k] == q[0]);
            assert forall|j: int| 0 < j < p.len() implies is_continuation_byte(#[trigger] p[j]) by {
                assert(w[j] == p[j]);
            }
            assert(ends_truncated(p, k));
            assert(is_continuation_byte(w[k]));
            assert(false);
        }
        assert(valid_first_scalar(p));
    } else {
        assert(!valid_first_scalar(p));
    }
}

proof fn lemma_first_utf16(p: Seq<u8>, q: Seq<u8>, big_endian: bool)
    requires
        p.len() > 0,
        seam_utf16(p, q, big_endian),
    ensures
        crate::unicode::first_utf16(p + q, big_endian) == crate::unicode::first_utf16(
            p,
            big_endian,
        ),
{
    let w = p + q;
    assert(unit_at(w, 0, big_endian) == unit_at(p, 0, big_endian));
    if p.len() >= 4 {
        assert(unit_at(w, 2, big_endian) == unit_at(p, 2, big_endian));
    } else {
        assert(p.len() == 2);
        if q.len() >= 2 {
            assert(w[2] == q[0] && w[3] == q[1]);
            assert(unit_at(w, 2, big_endian) == unit_at(q, 0, big_endian));
        }
    }
}

/// Dropping the first character leaves a seam.
proof fn lemma_seam_rest(p: Seq<u8>, q: Seq<u8>, encoding: DisplayEncoding, n: int)
    requires
        p.len() > 0,
        q.len() > 0,
        seam(p, q, encoding),
        n == first_char(p, encoding).1,
    ensures
        seam(p.skip(n), q, encoding),
{
    reveal(seam);
    let rest = p.skip(n);
    match encoding {
        DisplayEncoding::Utf8 => {
            if utf8_tail(p) == 0 {
                assert forall|k: int| 1 <= k <= 3 implies !ends_truncated(rest, k) by {
                    if ends_truncated(rest, k) {
                        assert(rest[rest.len() - k] == p[p.len() - k]);
                        assert forall|j: int| p.len() - k < j < p.len() implies
                            is_continuation_byte(#[trigger] p[j]) by {
                            assert(rest[j - n] == p[j]);
                        }
                        assert(ends_truncated(p, k));
                    }
                }
            }
        },
        DisplayEncoding::Utf16Le | DisplayEncoding::Utf16Be => {
            let big = encoding is Utf16Be;
            if utf16_tail(p, big) == 0 && rest.len() >= 2 {
                let e = rest.len() as int;
                assert(rest[e - 2] == p[p.len() - 2] && rest[e - 1] == p[p.len() - 1]);
                assert(unit_at(rest, e - 2, big) == unit_at(p, p.len() - 2, big));
            }
        },
        _ => {},
    }
}

/// A single-byte encoding has a seam everywhere.
pub proof fn law_single_bytes_split(p: Seq<u8>, q: Seq<u8>)
    ensures
        seam(p, q, DisplayEncoding::Latin1),
{
    reveal(seam);
}

/// The first character before a seam does not depend on what follows the seam.
proof fn lemma_first_char(p: Seq<u8>, q: Seq<u8>, encoding: DisplayEncoding)
    requires
        p.len() > 0,
        q.len() > 0,
        seam(p, q, encoding),
    ensures
        first_char(p + q, encoding) == first_char(p, encoding),
{
    match encoding {
        DisplayEncoding::Utf8 => lemma_first_utf8(p, q),
        DisplayEncoding::Utf16Le => {
            reveal(seam);
            lemma_first_utf16(p, q, false)
        },
        DisplayEncoding::Utf16Be => {
            reveal(seam);
            lemma_first_utf16(p, q, true)
        },
        _ => {},
    }
}

/// Cut at a seam, a stream decodes part by part.
pub proof fn law_decode_split(p: Seq<u8>, q: Seq<u8>, encoding: DisplayEncoding, base: int)
    requires
        seam(p, q, encoding),
    ensures
        decoded_from(p + q, encoding, base) == decoded_from(p, encoding, base) + decoded_from(
            q,
            encoding,
            base + p.len(),
        ),
    decreases p.len(),
{
    if q.len() == 0 {
        assert(p + q =~= p);
        assert(decoded_from(p, encoding, base) + Seq::<(char, int)>::empty() =~= decoded_from(
            p,
            encoding,
            base,
        ));
    } else if p.len() == 0 {
        assert(p + q =~= q);
        assert(Seq::<(char, int)>::empty() + decoded_from(q, encoding, base) =~= decoded_from(
            q,
            encoding,
            base,
        ));
    } else {
        lemma_first_char(p, q, encoding);
        let (c, n) = first_char(p, encoding);
        lemma_first_char_len(p, encoding);
        lemma_seam_rest(p, q, encoding, n);
        law_decode_split(p.skip(n), q, encoding, base + n);
        assert((p + q).skip(n) =~= p.skip(n) + q);
        let head = seq![(c, base)];
        let mid = decoded_from(p.skip(n), encoding, base + n);
        let tail = decoded_from(q, encoding, base + p.len());
        assert(head + (mid + tail) =~= (head + mid) + tail);
    }
}

/// What is held back of a stream, and where it is cut.
pub open spec fn kept(bytes: Seq<u8>, encoding: DisplayEncoding) -> int {
    bytes.len() - incomplete(bytes, encoding)
}

/// At most three bytes are held back, and none under a single-byte encoding.
pub proof fn law_incomplete_bounds(bytes: Seq<u8>, encoding: DisplayEncoding)
    ensures
        0 <= incomplete(bytes, encoding) <= bytes.len(),
        incomplete(bytes, encoding) <= 3,
        encoding is Ascii || encoding is Latin1 ==> incomplete(bytes, encoding) == 0,
{
    reveal(incomplete);
}

/// UTF-16 input is cut between code units.
pub proof fn law_utf16_cut_is_even(bytes: Seq<u8>, encoding: DisplayEncoding)
    requires
        encoding is Utf16Le || encoding is Utf16Be,
    ensures
        kept(bytes, encoding) % 2 == 0,
{
    reveal(incomplete);
}

/// A stream may be cut where the incomplete tail begins, whatever comes after.
pub proof fn law_kept_is_seam(all: Seq<u8>, more: Seq<u8>, n: int, encoding: DisplayEncoding)
    requires
        0 <= n <= (all.skip(kept(all, encoding)) + more).len(),
        n % 2 == 0 || !(encoding is Utf16Le || encoding is Utf16Be) || n == (all.skip(
            kept(all, encoding),
        ) + more).len(),
    ensures
        seam(
            all.take(kept(all, encoding)),
            (all.skip(kept(all, encoding)) + more).take(n),
            encoding,
        ),
{
    reveal(incomplete);
    reveal(seam);
    law_incomplete_bounds(all, encoding);
    let r = kept(all, encoding);
    let p = all.take(r);
    let q = (all.skip(r) + more).take(n);
    if n > 0 {
        match encoding {
            DisplayEncoding::Utf8 => {
                if r == all.len() {
                    assert(p =~= all);
                } else {
                    assert(q[0] == all[r]);
                }
            },
            DisplayEncoding::Utf16Le | DisplayEncoding::Utf16Be => {
                let big = encoding is Utf16Be;
                let odd = all.len() as int % 2;
                let even = all.len() - odd;
                if all.len() - r >= 2 {
                    assert(r == even - 2);
                    if n >= 2 {
                        assert(q[0] == all[r] && q[1] == all[r + 1]);
                        assert(unit_at(q, 0, big) == unit_at(all, even - 2, big));
                    }
                } else {
                    assert(r == even);
                    if even >= 2 {
                        assert(unit_at(p, r - 2, big) == unit_at(all, even - 2, big));
                    }
                    assert(utf16_tail(p, big) == 0);
                }
            },
            _ => {},
        }
    }
}

/// What a stream ends with does not depend on what was already shown of it.
pub proof fn law_incomplete_split(all: Seq<u8>, more: Seq<u8>, encoding: DisplayEncoding)
    ensures
        incomplete(all + more, encoding) == incomplete(
            all.skip(kept(all, encoding)) + more,
            encoding,
        ),
{
    reveal(incomplete);
    law_incomplete_bounds(all, encoding);
    let r = kept(all, encoding);
    let w = all + more;
    let s = all.skip(r) + more;
    assert(s =~= w.skip(r));
    match encoding {
        DisplayEncoding::Utf8 => {
            assert forall|k: int| 1 <= k <= 3 implies ends_truncated(w, k) == ends_truncated(s, k) by {
                if ends_truncated(s, k) {
                    assert(s[s.len() - k] == w[w.len() - k]);
                    assert forall|j: int| w.len() - k < j < w.len() implies is_continuation_byte(
                        #[trigger] w[j],
                    ) by {
                        assert(s[j - r] == w[j]);
                    }
                }
                if ends_truncated(w, k) {
                    let start = w.len() - k;
                    if start < r {
                        if r < all.len() {
                            assert(w[r] == all[r]);
                            assert(is_continuation_byte(w[r]));
                            assert(false);
                        } else {
                            let h = all.len() - start;
                            assert(all[start] == w[start]);
                            assert forall|j: int| all.len() - h < j < all.len() implies
                                is_continuation_byte(#[trigger] all[j]) by {
                                assert(w[j] == all[j]);
                            }
                            assert(ends_truncated(all, h));
                            assert(false);
                        }
                    }
                    assert(s[s.len() - k] == w[start]);
                    assert forall|j: int| s.len() - k < j < s.len() implies is_continuation_byte(
                        #[trigger] s[j],
                    ) by {
                        assert(s[j] == w[j + r]);
                    }
                }
            }
        },
        DisplayEncoding::Utf16Le | DisplayEncoding::Utf16Be => {
            let big = encoding is Utf16Be;
            let odd = all.len() as int % 2;
            let even = all.len() - odd;
            assert(r % 2 == 0);
            let e = s.len() - s.len() as int % 2;
            let f = w.len() - w.len() as int % 2;
            assert(f == e + r);
            if e >= 2 {
                assert(unit_at(s, e - 2, big) == unit_at(w, f - 2, big));
            } else if f >= 2 {
                assert(f == even);
                assert(unit_at(w, f - 2, big) == unit_at(all, even - 2, big));
            }
        },
        _ => {},
    }
}

} // verus!
