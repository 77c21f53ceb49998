//! How identifiers read, and in what order named values stand.

use vstd::arithmetic::div_mod::{lemma_div_denominator, lemma_fundamental_div_mod};
use vstd::arithmetic::power::{lemma_pow0, lemma_pow_adds, lemma_pow_positive, pow};
use vstd::prelude::*;

use crate::model::ids::{hyphenated, id_digit, is_random_uuid, lower_digit};
use crate::model::metadata::{in_name_order, pairs_map, text_before};

verus! {

/// The value of a small hexadecimal digit.
pub open spec fn nibble(c: char) -> int {
    if 48 <= c as u32 <= 57 {
        c as u32 - 48
    } else {
        c as u32 - 97 + 10
    }
}

/// The number that hexadecimal digits stand for, hyphens apart.
pub open spec fn hex_number(t: Seq<char>) -> int
    decreases t.len(),
{
    if t.len() == 0 {
        0
    } else if t.last() == '-' {
        hex_number(t.drop_last())
    } else {
        16 * hex_number(t.drop_last()) + nibble(t.last())
    }
}

/// A hyphen stands behind the 8th, the 12th, the 16th and the 20th digit.
pub open spec fn is_hyphen_place(i: int) -> bool {
    i == 8 || i == 13 || i == 18 || i == 23
}

/// How many digits stand before a place.
pub open spec fn digits_before(i: int) -> int {
    if i <= 8 {
        i
    } else if i <= 13 {
        i - 1
    } else if i <= 18 {
        i - 2
    } else if i <= 23 {
        i - 3
    } else {
        i - 4
    }
}

proof fn lemma_nibble(d: int)
    requires
        0 <= d < 16,
    ensures
        nibble(lower_digit(d)) == d,
        lower_digit(d) != '-',
        48 <= lower_digit(d) as u32 <= 57 || 97 <= lower_digit(d) as u32 <= 102,
{
}

proof fn lemma_shifted(id: int, k: nat)
    requires
        0 <= id,
    ensures
        id / pow(16, k) == 16 * (id / pow(16, k + 1)) + (id / pow(16, k)) % 16,
        0 <= (id / pow(16, k)) % 16 < 16,
{
    lemma_pow_positive(16, k);
    lemma_pow_adds(16, k, 1);
    assert(pow(16, 1) == 16) by {
        vstd::arithmetic::power::lemma_pow1(16);
    }
    lemma_div_denominator(id, pow(16, k), 16);
    lemma_fundamental_div_mod(id / pow(16, k), 16);
}

#[verifier::rlimit(40)]
proof fn lemma_prefix(id: u128, i: int)
    requires
        0 <= i <= 36,
    ensures
        hex_number(hyphenated(id).take(i)) == id as int / pow(16, (32 - digits_before(i)) as nat),
    decreases i,
{
    let t = hyphenated(id);
    if i == 0 {
        assert(id as int / pow(16, 32) == 0) by {
            assert(pow(16, 32) == 0x1_0000_0000_0000_0000_0000_0000_0000_0000int) by {
                lemma_large();
            }
        }
    } else {
        lemma_prefix(id, i - 1);
        assert(t.take(i).drop_last() =~= t.take(i - 1));
        assert(t.take(i).last() == t[i - 1]);
        if !is_hyphen_place(i - 1) {
            let k = (31 - digits_before(i - 1)) as nat;
            lemma_shifted(id as int, k);
            assert(t[i - 1] == id_digit(id, digits_before(i - 1)));
            lemma_nibble((id as int / pow(16, k)) % 16);
        }
    }
}

proof fn lemma_large()
    ensures
        pow(16, 32) == 0x1_0000_0000_0000_0000_0000_0000_0000_0000int,
{
    lemma_pow0(16);
    reveal_with_fuel(pow, 9);
    assert(pow(16, 8) == 0x1_0000_0000);
    lemma_pow_adds(16, 8, 8);
    assert(pow(16, 16) == 0x1_0000_0000_0000_0000);
    lemma_pow_adds(16, 16, 16);
}

/// The text of an identifier says its value: 36 characters, small hexadecimal digits but
/// for the hyphens that part them in groups.
#[verifier::rlimit(40)]
pub proof fn law_identifiers_say_their_value(id: u128)
    ensures
        hex_number(hyphenated(id)) == id,
        hyphenated(id).len() == 36,
        forall|i: int|
            0 <= i < 36 ==> (#[trigger] hyphenated(id)[i] == '-' <==> is_hyphen_place(i)),
        forall|i: int|
            0 <= i < 36 && !is_hyphen_place(i) ==> 48 <= (#[trigger] hyphenated(id)[i]) as u32 <= 57
                || 97 <= hyphenated(id)[i] as u32 <= 102,
{
    let t = hyphenated(id);
    lemma_prefix(id, 36);
    assert(t.take(36) =~= t);
    lemma_pow0(16);
    assert forall|i: int| 0 <= i < 36 && !is_hyphen_place(i) implies (48 <= (#[trigger] t[i]) as u32
        <= 57 || 97 <= t[i] as u32 <= 102) && t[i] != '-' by {
        let k = (31 - digits_before(i)) as nat;
        lemma_shifted(id as int, k);
        assert(t[i] == id_digit(id, digits_before(i)));
        lemma_nibble((id as int / pow(16, k)) % 16);
    }
}

/// Two identifiers that read alike are one.
pub proof fn law_identifiers_differ_in_their_text(a: u128, b: u128)
    requires
        hyphenated(a) == hyphenated(b),
    ensures
        a == b,
{
    law_identifiers_say_their_value(a);
    law_identifiers_say_their_value(b);
}

/// A minted identifier shows that it is random: the third group begins with the version,
/// and the fourth with the variant.
pub proof fn law_minted_identifiers_show_their_version(id: u128)
    ensures
        is_random_uuid(id) <==> hyphenated(id)[14] == '4' && (hyphenated(id)[19] == '8'
            || hyphenated(id)[19] == '9' || hyphenated(id)[19] == 'a' || hyphenated(id)[19] == 'b'),
{
}

/// One name stands before another where it is its beginning, or has the lower character
/// where they first differ.
pub proof fn law_names_are_ordered_by_their_characters(a: Seq<char>, b: Seq<char>, k: int)
    requires
        0 <= k <= a.len(),
        k <= b.len(),
        a.take(k) == b.take(k),
        k == a.len() || k == b.len() || a[k] != b[k],
    ensures
        text_before(a, b) <==> k < b.len() && (k == a.len() || a[k] < b[k]),
    decreases k,
{
    if k > 0 {
        assert(a[0] == a.take(k)[0] && b[0] == b.take(k)[0]);
        let x = a.skip(1);
        let y = b.skip(1);
        assert forall|i: int| 0 <= i < k - 1 implies x[i] == y[i] by {
            assert(a.take(k)[i + 1] == a[i + 1] && b.take(k)[i + 1] == b[i + 1]);
        }
        assert(x.take(k - 1) =~= y.take(k - 1));
        law_names_are_ordered_by_their_characters(x, y, k - 1);
    }
}

/// The entries of attributes grow by their names, and each name has the value of its
/// entry.
pub proof fn law_entries_hold_their_values(pairs: Seq<(String, String)>, i: int)
    requires
        in_name_order(pairs),
        0 <= i < pairs.len(),
    ensures
        pairs_map(pairs).contains_key(pairs[i].0@),
        pairs_map(pairs)[pairs[i].0@] == pairs[i].1@,
        forall|j: int| 0 <= j < pairs.len() && j != i ==> (#[trigger] pairs[j]).0@ != pairs[i].0@,
        forall|j: int| i < j < pairs.len() ==> text_before(pairs[i].0@, (#[trigger] pairs[j]).0@),
    decreases pairs.len(),
{
    assert forall|j: int| 0 <= j < pairs.len() && j != i implies (#[trigger] pairs[j]).0@
        != pairs[i].0@ by {
        lemma_not_before_itself(pairs[i].0@);
        if j < i {
            assert(text_before(pairs[j].0@, pairs[i].0@));
        } else {
            assert(text_before(pairs[i].0@, pairs[j].0@));
        }
    }
    let front = pairs.drop_last();
    if i < pairs.len() - 1 {
        assert forall|p: int, q: int| 0 <= p < q < front.len() implies text_before(
            (#[trigger] front[p]).0@,
            (#[trigger] front[q]).0@,
        ) by {
            assert(text_before(pairs[p].0@, pairs[q].0@));
        }
        law_entries_hold_their_values(front, i);
        assert(pairs[pairs.len() - 1].0@ != pairs[i].0@);
    }
}

proof fn lemma_not_before_itself(a: Seq<char>)
    ensures
        !text_before(a, a),
{
    law_names_are_ordered_by_their_characters(a, a, a.len() as int);
}

} // verus!
