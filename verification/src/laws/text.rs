//! Numbers, white space and letters.

use vstd::prelude::*;

use crate::text::{
    before, decimal, first_in, hex_digit_of, hex_pair, is_white, lower, lowered, number_of, padded,
    trimmed, trimmed_end, trimmed_start, unsigned_of, upper, uppered,
};

verus! {

/// A decimal digit.
pub open spec fn is_digit(c: char) -> bool {
    48 <= c as u32 <= 57
}

/// The number that decimal digits stand for.
pub open spec fn digits_value(t: Seq<char>) -> nat
    decreases t.len(),
{
    if t.len() == 0 {
        0
    } else {
        (10 * digits_value(t.drop_last()) + (t.last() as u32 - 48)) as nat
    }
}

/// All characters are decimal digits.
pub open spec fn all_digits(t: Seq<char>) -> bool {
    forall|i: int| 0 <= i < t.len() ==> is_digit(#[trigger] t[i])
}

/// The hexadecimal digits, each at its value.
pub open spec fn hex_alphabet() -> Seq<char> {
    seq!['0', '1', '2', '3', '4', '5', '6', '7', '8', '9', 'A', 'B', 'C', 'D', 'E', 'F']
}

/// Two hexadecimal digits say the byte that they stand for: the first counts sixteens.
pub proof fn law_hex_pair_says_the_byte(b: u8)
    ensures
        hex_pair(b).len() == 2,
        hex_pair(b)[0] == hex_alphabet()[(b / 16) as int],
        hex_pair(b)[1] == hex_alphabet()[(b % 16) as int],
{
    assert forall|d: int| 0 <= d < 16 implies #[trigger] hex_digit_of(d) == hex_alphabet()[d] by {
        if d == 0 {
        } else if d == 1 {
        } else if d == 2 {
        } else if d == 3 {
        } else if d == 4 {
        } else if d == 5 {
        } else if d == 6 {
        } else if d == 7 {
        } else if d == 8 {
        } else if d == 9 {
        } else if d == 10 {
        } else if d == 11 {
        } else if d == 12 {
        } else if d == 13 {
        } else if d == 14 {
        } else {
        }
    }
    assert(hex_digit_of(b as int / 16) == hex_alphabet()[(b / 16) as int]);
    assert(hex_digit_of(b as int % 16) == hex_alphabet()[(b % 16) as int]);
}

/// A number is written in decimal digits that say it, without leading zeros.
pub proof fn law_decimal_reads_back(n: nat)
    ensures
        decimal(n).len() > 0,
        all_digits(decimal(n)),
        digits_value(decimal(n)) == n,
        n > 0 ==> decimal(n)[0] != '0',
        n == 0 ==> decimal(n) == seq!['0'],
    decreases n,
{
    let t = decimal(n);
    assert forall|d: int| 0 <= d < 10 implies (#[trigger] hex_digit_of(d)) as u32 == 48 + d by {}
    if n < 10 {
        assert(t.drop_last() =~= Seq::empty());
        assert(digits_value(t.drop_last()) == 0);
        assert(hex_digit_of(n as int) as u32 == 48 + n);
        assert(t.last() as u32 == 48 + n);
    } else {
        law_decimal_reads_back(n / 10);
        assert(t.drop_last() =~= decimal(n / 10));
        assert(hex_digit_of(n as int % 10) as u32 == 48 + n % 10);
        assert forall|i: int| 0 <= i < t.len() implies is_digit(#[trigger] t[i]) by {
            if i < t.len() - 1 {
                assert(t[i] == decimal(n / 10)[i]);
            }
        }
        assert(t[0] == decimal(n / 10)[0]);
    }
}

proof fn lemma_leading_zeros(k: nat, t: Seq<char>)
    ensures
        digits_value(Seq::new(k, |i: int| '0') + t) == digits_value(t),
    decreases k + t.len(),
{
    let z = Seq::new(k, |i: int| '0');
    if t.len() > 0 {
        lemma_leading_zeros(k, t.drop_last());
        assert((z + t).drop_last() =~= z + t.drop_last());
    } else if k > 0 {
        let less = Seq::new((k - 1) as nat, |i: int| '0');
        lemma_leading_zeros((k - 1) as nat, t);
        assert((z + t).drop_last() =~= less + t);
        assert((z + t).last() == '0');
        assert(digits_value(less + t) == 0);
    } else {
        assert(z + t =~= t);
    }
}

/// A padded number has at least its width, says the number, and has nothing but zeros
/// before it.
pub proof fn law_padded_keeps_the_number(n: nat, width: nat)
    ensures
        padded(n, width).len() >= width,
        all_digits(padded(n, width)),
        digits_value(padded(n, width)) == n,
        padded(n, width).len() > width ==> padded(n, width) == decimal(n),
        padded(n, width).len() == if decimal(n).len() > width {
            decimal(n).len()
        } else {
            width
        },
{
    law_decimal_reads_back(n);
    let k = width - decimal(n).len();
    if k > 0 {
        lemma_leading_zeros(k as nat, decimal(n));
    } else {
        assert(padded(n, width) =~= decimal(n));
    }
}

/// A text is read as a number exactly where it holds decimal digits that say it, behind a
/// plus sign at most, and the number is not too large.
pub proof fn law_numbers_are_read(t: Seq<char>, max: nat)
    ensures
        ({
            let digits = if t.len() > 0 && t[0] == '+' {
                t.subrange(1, t.len() as int)
            } else {
                t
            };
            unsigned_of(t, max) == if digits.len() > 0 && all_digits(digits) && digits_value(digits)
                <= max {
                Some(digits_value(digits))
            } else {
                None
            }
        }),
{
    let digits = if t.len() > 0 && t[0] == '+' {
        t.skip(1)
    } else {
        t
    };
    assert(t.len() > 0 ==> t.skip(1) =~= t.subrange(1, t.len() as int));
    lemma_number_of(digits);
}

proof fn lemma_digit(c: char)
    ensures
        is_digit(c) <==> '0' <= c <= '9',
{
}

proof fn lemma_number_of(t: Seq<char>)
    ensures
        number_of(t) == if all_digits(t) {
            Some(digits_value(t))
        } else {
            None
        },
    decreases t.len(),
{
    if t.len() > 0 {
        let front = t.drop_last();
        lemma_number_of(front);
        lemma_digit(t.last());
        assert(t.last() == t[t.len() - 1]);
        if all_digits(t) {
            assert forall|i: int| 0 <= i < front.len() implies is_digit(#[trigger] front[i]) by {
                assert(front[i] == t[i]);
            }
        }
        if all_digits(front) && is_digit(t.last()) {
            assert forall|i: int| 0 <= i < t.len() implies is_digit(#[trigger] t[i]) by {
                if i < front.len() {
                    assert(front[i] == t[i]);
                }
            }
        }
    }
}

/// The code points of the Unicode property White_Space.
pub open spec fn white_char(c: char) -> bool {
    let n = c as u32;
    ||| 9 <= n <= 13
    ||| 0x2000 <= n <= 0x200A
    ||| n == 32
    ||| n == 0x85
    ||| n == 0xA0
    ||| n == 0x1680
    ||| n == 0x2028
    ||| n == 0x2029
    ||| n == 0x202F
    ||| n == 0x205F
    ||| n == 0x3000
}

proof fn lemma_white(c: char)
    ensures
        is_white(c) <==> white_char(c),
{
}

proof fn lemma_trimmed_start(t: Seq<char>) -> (from: int)
    ensures
        0 <= from <= t.len(),
        trimmed_start(t) == t.subrange(from, t.len() as int),
        forall|i: int| 0 <= i < from ==> white_char(#[trigger] t[i]),
        from < t.len() ==> !white_char(t[from]),
    decreases t.len(),
{
    if t.len() > 0 {
        lemma_white(t[0]);
    }
    if t.len() > 0 && is_white(t[0]) {
        let rest = t.skip(1);
        let k = lemma_trimmed_start(rest);
        assert(rest.subrange(k, rest.len() as int) =~= t.subrange(k + 1, t.len() as int));
        assert forall|i: int| 0 <= i < k + 1 implies white_char(#[trigger] t[i]) by {
            if i > 0 {
                assert(rest[i - 1] == t[i]);
            }
        }
        if k < rest.len() {
            assert(rest[k] == t[k + 1]);
        }
        k + 1
    } else {
        assert(t.subrange(0, t.len() as int) =~= t);
        0
    }
}

pub proof fn lemma_trimmed_end(t: Seq<char>) -> (to: int)
    ensures
        0 <= to <= t.len(),
        trimmed_end(t) == t.subrange(0, to),
        forall|i: int| to <= i < t.len() ==> white_char(#[trigger] t[i]),
        to > 0 ==> !white_char(t[to - 1]),
    decreases t.len(),
{
    if t.len() > 0 {
        lemma_white(t.last());
    }
    if t.len() > 0 && is_white(t.last()) {
        let front = t.drop_last();
        let k = lemma_trimmed_end(front);
        assert(front.subrange(0, k) =~= t.subrange(0, k));
        assert forall|i: int| k <= i < t.len() implies white_char(#[trigger] t[i]) by {
            if i < front.len() {
                assert(front[i] == t[i]);
            }
        }
        if k > 0 {
            assert(front[k - 1] == t[k - 1]);
        }
        k
    } else {
        assert(t.subrange(0, t.len() as int) =~= t);
        t.len() as int
    }
}

/// Trimming takes white space from both ends and nothing else, and all of it.
pub proof fn law_trimming_takes_white_space_only(t: Seq<char>) -> (r: (int, int))
    ensures
        0 <= r.0 <= r.1 <= t.len(),
        trimmed(t) == t.subrange(r.0, r.1),
        forall|i: int| 0 <= i < t.len() && !(r.0 <= i < r.1) ==> white_char(#[trigger] t[i]),
        r.0 < r.1 ==> !white_char(t[r.0]) && !white_char(t[r.1 - 1]),
{
    let from = lemma_trimmed_start(t);
    let mid = trimmed_start(t);
    let len = lemma_trimmed_end(mid);
    assert(mid.subrange(0, len) =~= t.subrange(from, from + len));
    assert forall|i: int| 0 <= i < t.len() && !(from <= i < from + len) implies white_char(#[trigger] t[i]) by {
        if i >= from + len {
            assert(mid[i - from] == t[i]);
        }
    }
    if len > 0 {
        assert(mid[0] == t[from]);
        assert(mid[len - 1] == t[from + len - 1]);
    }
    (from, from + len)
}

/// A text is blank exactly where it holds nothing but white space.
pub proof fn law_blank_is_all_white(t: Seq<char>)
    ensures
        trimmed(t).len() == 0 <==> forall|i: int|
            0 <= i < t.len() ==> white_char(#[trigger] t[i]),
{
    let (from, to) = law_trimming_takes_white_space_only(t);
    if trimmed(t).len() > 0 {
        assert(!white_char(t[from]));
    }
}

/// Two characters are the same but for the case of ASCII letters.
pub open spec fn same_letter(a: char, b: char) -> bool {
    ||| a == b
    ||| 65 <= a as u32 <= 90 && b as u32 == a as u32 + 32
    ||| 65 <= b as u32 <= 90 && a as u32 == b as u32 + 32
}

proof fn lemma_same_letter(a: char, b: char)
    ensures
        lower(a) == lower(b) <==> same_letter(a, b),
{
    let x = lower(a) as u32;
    let y = lower(b) as u32;
    assert(lower(a) == lower(b) <==> x == y);
}

/// Texts compare alike exactly where they differ in the case of ASCII letters at most.
pub proof fn law_lowered_forgets_case_only(a: Seq<char>, b: Seq<char>)
    ensures
        lowered(a) == lowered(b) <==> a.len() == b.len() && forall|i: int|
            0 <= i < a.len() ==> same_letter(#[trigger] a[i], b[i]),
{
    assert(lowered(a).len() == a.len() && lowered(b).len() == b.len());
    if a.len() == b.len() {
        if lowered(a) == lowered(b) {
            assert forall|i: int| 0 <= i < a.len() implies same_letter(#[trigger] a[i], b[i]) by {
                lemma_same_letter(a[i], b[i]);
                assert(lowered(a)[i] == lowered(b)[i]);
            }
        }
        if forall|i: int| 0 <= i < a.len() ==> same_letter(#[trigger] a[i], b[i]) {
            assert forall|i: int| 0 <= i < a.len() implies lowered(a)[i] == lowered(b)[i] by {
                assert(same_letter(a[i], b[i]));
                lemma_same_letter(a[i], b[i]);
            }
            assert(lowered(a) =~= lowered(b));
        }
    }
}

/// In upper case a text has no small ASCII letter, and is the same but for the case.
pub proof fn law_uppered_has_no_small_letters(t: Seq<char>)
    ensures
        uppered(t).len() == t.len(),
        forall|i: int|
            0 <= i < t.len() ==> !(97 <= (#[trigger] uppered(t)[i]) as u32 <= 122) && same_letter(
                uppered(t)[i],
                t[i],
            ) && !(65 <= t[i] as u32 <= 90 && uppered(t)[i] != t[i]),
{
    assert forall|i: int| 0 <= i < t.len() implies !(97 <= (#[trigger] uppered(t)[i]) as u32 <= 122)
        && same_letter(uppered(t)[i], t[i]) && !(65 <= t[i] as u32 <= 90 && uppered(t)[i]
        != t[i]) by {
        assert(uppered(t)[i] == upper(t[i]));
    }
}

/// What stands before a character is the beginning of the text up to its first
/// occurrence.
pub proof fn law_before_stops_at_the_first(t: Seq<char>, c: char)
    ensures
        before(t, c).len() <= t.len(),
        before(t, c) == t.subrange(0, before(t, c).len() as int),
        forall|i: int| 0 <= i < before(t, c).len() ==> #[trigger] t[i] != c,
        before(t, c).len() < t.len() ==> t[before(t, c).len() as int] == c,
    decreases t.len(),
{
    if t.len() == 0 || t[0] == c {
        assert(before(t, c) =~= t.subrange(0, 0));
    } else {
        let rest = t.skip(1);
        law_before_stops_at_the_first(rest, c);
        let n = before(rest, c).len() as int;
        assert(before(t, c) =~= t.subrange(0, n + 1)) by {
            assert(before(t, c).len() == n + 1);
            assert forall|i: int| 0 <= i < n + 1 implies before(t, c)[i] == t[i] by {
                if i > 0 {
                    assert(before(t, c)[i] == before(rest, c)[i - 1]);
                    assert(rest.subrange(0, n)[i - 1] == rest[i - 1]);
                }
            }
        }
        assert forall|i: int| 0 <= i < n + 1 implies #[trigger] t[i] != c by {
            if i > 0 {
                assert(rest[i - 1] == t[i]);
            }
        }
        if n < rest.len() {
            assert(rest[n] == t[n + 1]);
        }
    }
}

/// A part is found where it stands first, and only where it stands at all.
pub proof fn law_search_finds_the_first(t: Seq<char>, part: Seq<char>)
    ensures
        match first_in(t, part) {
            Some(n) => {
                &&& n + part.len() <= t.len()
                &&& t.subrange(n as int, (n + part.len()) as int) == part
                &&& forall|k: int|
                    0 <= k < n ==> #[trigger] t.subrange(k, k + part.len()) != part
            },
            None => forall|k: int|
                0 <= k && k + part.len() <= t.len() ==> #[trigger] t.subrange(k, k + part.len())
                    != part,
        },
    decreases t.len(),
{
    if t.len() >= part.len() {
        assert(t.take(part.len() as int) =~= t.subrange(0, part.len() as int));
        if t.take(part.len() as int) != part && t.len() > 0 {
            let rest = t.skip(1);
            law_search_finds_the_first(rest, part);
            assert forall|k: int| 1 <= k && k + part.len() <= t.len() implies #[trigger] t.subrange(
                k,
                k + part.len(),
            ) == rest.subrange(k - 1, k - 1 + part.len()) by {
                assert(t.subrange(k, k + part.len()) =~= rest.subrange(k - 1, k - 1 + part.len()));
            }
            match first_in(rest, part) {
                Some(n) => {
                    assert(t.subrange(n as int + 1, n as int + 1 + part.len()) == rest.subrange(
                        n as int,
                        n as int + part.len(),
                    ));
                    assert forall|k: int| 0 <= k < n + 1 implies #[trigger] t.subrange(
                        k,
                        k + part.len(),
                    ) != part by {
                        if k > 0 {
                            assert(rest.subrange(k - 1, k - 1 + part.len()) != part);
                        }
                    }
                },
                None => {
                    assert forall|k: int| 0 <= k && k + part.len() <= t.len() implies
                        #[trigger] t.subrange(k, k + part.len()) != part by {
                        if k > 0 {
                            assert(rest.subrange(k - 1, k - 1 + part.len()) != part);
                        }
                    }
                },
            }
        }
    }
}

} // verus!
