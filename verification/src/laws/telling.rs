//! What a line of text tells: which numbers and texts stand in it, and in what order.

use vstd::prelude::*;

use crate::laws::text::{all_digits, digits_value, is_digit, law_decimal_reads_back};
use crate::text::decimal;

verus! {

/// Something that a line tells: a number, or a text.
pub ghost enum Part {
    Number(nat),
    Words(Seq<char>),
}

/// From place `k` up to place `end` a line tells a part: a text as it is, a number by all
/// of its digits, which no digit stands before or behind.
pub open spec fn stands(t: Seq<char>, k: int, end: int, part: Part) -> bool {
    &&& 0 <= k <= end <= t.len()
    &&& match part {
        Part::Words(w) => t.subrange(k, end) == w,
        Part::Number(n) => {
            &&& k < end
            &&& all_digits(t.subrange(k, end))
            &&& digits_value(t.subrange(k, end)) == n
            &&& k > 0 ==> !is_digit(t[k - 1])
            &&& end < t.len() ==> !is_digit(t[end])
        },
    }
}

/// From a place on, a line tells these parts, one behind the other.
pub open spec fn tells_from(t: Seq<char>, from: int, parts: Seq<Part>) -> bool
    decreases parts.len(),
{
    parts.len() == 0 || exists|k: int, end: int|
        from <= k && #[trigger] stands(t, k, end, parts[0]) && tells_from(t, end, parts.skip(1))
}

/// A line tells these parts, one behind the other.
#[verifier::opaque]
pub open spec fn tells(t: Seq<char>, parts: Seq<Part>) -> bool {
    tells_from(t, 0, parts)
}

/// What the end of a line tells, the line tells, where the end begins with no digit.
proof fn lemma_end(p: Seq<char>, r: Seq<char>, from: int, parts: Seq<Part>)
    requires
        r.len() > 0 ==> !is_digit(r[0]),
        tells_from(r, from, parts),
    ensures
        tells_from(p + r, p.len() + from, parts),
    decreases parts.len(),
{
    if parts.len() > 0 {
        let (k, end) = choose|k: int, end: int|
            from <= k && #[trigger] stands(r, k, end, parts[0]) && tells_from(
                r,
                end,
                parts.skip(1),
            );
        let n = p.len() as int;
        let t = p + r;
        lemma_end(p, r, end, parts.skip(1));
        assert(t.subrange(n + k, n + end) =~= r.subrange(k, end));
        if k < end {
            assert(r.subrange(k, end)[0] == r[k]);
        }
        if k > 0 {
            assert(t[n + k - 1] == r[k - 1]);
        }
        if end < r.len() {
            assert(t[n + end] == r[end]);
        }
        assert(stands(t, n + k, n + end, parts[0]));
    }
}

/// A line that tells nothing in particular.
pub proof fn lemma_nothing(t: Seq<char>)
    ensures
        tells(t, Seq::empty()),
{
    reveal(tells);
}

/// A number between texts is told, and then what the text behind it tells.
pub proof fn lemma_number(a: Seq<char>, n: nat, b: Seq<char>, parts: Seq<Part>)
    requires
        a.len() > 0 ==> !is_digit(a.last()),
        b.len() > 0 ==> !is_digit(b[0]),
        tells(b, parts),
    ensures
        tells(a + decimal(n) + b, seq![Part::Number(n)] + parts),
{
    reveal(tells);
    let t = a + decimal(n) + b;
    let k = a.len() as int;
    let end = k + decimal(n).len();
    let all = seq![Part::Number(n)] + parts;
    law_decimal_reads_back(n);
    lemma_end(a + decimal(n), b, 0, parts);
    assert(t.subrange(k, end) =~= decimal(n));
    if k > 0 {
        assert(t[k - 1] == a.last());
    }
    if end < t.len() {
        assert(t[end] == b[0]);
    }
    assert(stands(t, k, end, all[0]));
    assert(all.skip(1) =~= parts);
}

/// A text between texts is told, and then what the text behind it tells.
pub proof fn lemma_words(a: Seq<char>, w: Seq<char>, b: Seq<char>, parts: Seq<Part>)
    requires
        b.len() > 0 ==> !is_digit(b[0]),
        tells(b, parts),
    ensures
        tells(a + w + b, seq![Part::Words(w)] + parts),
{
    reveal(tells);
    let t = a + w + b;
    let k = a.len() as int;
    let end = k + w.len();
    let all = seq![Part::Words(w)] + parts;
    lemma_end(a + w, b, 0, parts);
    assert(t.subrange(k, end) =~= w);
    assert(stands(t, k, end, all[0]));
    assert(all.skip(1) =~= parts);
}

/// What a text tells, it tells behind a lead that ends in no digit.
pub proof fn lemma_behind(lead: Seq<char>, t: Seq<char>, parts: Seq<Part>)
    requires
        lead.len() > 0 ==> !is_digit(lead.last()),
        tells(t, parts),
    ensures
        tells(lead + t, parts),
{
    reveal(tells);
    lemma_shifted(lead, t, 0, parts);
    lemma_earlier(lead + t, lead.len() as int, 0, parts);
}

/// What a text that begins with no digit tells, it tells behind any lead.
pub proof fn lemma_after(lead: Seq<char>, t: Seq<char>, parts: Seq<Part>)
    requires
        t.len() > 0 ==> !is_digit(t[0]),
        tells(t, parts),
    ensures
        tells(lead + t, parts),
{
    reveal(tells);
    lemma_end(lead, t, 0, parts);
    lemma_earlier(lead + t, lead.len() as int, 0, parts);
}

proof fn lemma_earlier(t: Seq<char>, from: int, earlier: int, parts: Seq<Part>)
    requires
        earlier <= from,
        tells_from(t, from, parts),
    ensures
        tells_from(t, earlier, parts),
{
    if parts.len() > 0 {
        let (k, end) = choose|k: int, end: int|
            from <= k && #[trigger] stands(t, k, end, parts[0]) && tells_from(
                t,
                end,
                parts.skip(1),
            );
        assert(stands(t, k, end, parts[0]));
    }
}

proof fn lemma_shifted(p: Seq<char>, r: Seq<char>, from: int, parts: Seq<Part>)
    requires
        p.len() > 0 ==> !is_digit(p.last()),
        tells_from(r, from, parts),
    ensures
        tells_from(p + r, p.len() + from, parts),
    decreases parts.len(),
{
    if parts.len() > 0 {
        let (k, end) = choose|k: int, end: int|
            from <= k && #[trigger] stands(r, k, end, parts[0]) && tells_from(
                r,
                end,
                parts.skip(1),
            );
        let n = p.len() as int;
        let t = p + r;
        lemma_shifted(p, r, end, parts.skip(1));
        assert(t.subrange(n + k, n + end) =~= r.subrange(k, end));
        if k > 0 {
            assert(t[n + k - 1] == r[k - 1]);
        } else if n > 0 {
            assert(t[n + k - 1] == p.last());
        }
        if end < r.len() {
            assert(t[n + end] == r[end]);
        }
        assert(stands(t, n + k, n + end, parts[0]));
    }
}

} // verus!
