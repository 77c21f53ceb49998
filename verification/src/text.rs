//! Small text helpers over `str` and `String`.

use vstd::prelude::*;
use vstd::std_specs::iter::IteratorSpec;
use vstd::string::*;

verus! {

/// `String::push` appends the given character.
pub assume_specification[ String::push ](s: &mut String, c: char)
    ensures
        final(s)@ == old(s)@.push(c),
;

/// What the `Debug` formatting of std gives for a text: the text in quotes, with the
/// characters escaped that std escapes there.
pub uninterp spec fn quoted_text(t: Seq<char>) -> Seq<char>;

/// What the `Debug` formatting of std gives for a character.
pub uninterp spec fn quoted_char(c: char) -> Seq<char>;

/// The `Debug` formatting of `str`, which depends on the text alone. Which characters
/// it escapes, and how, is not said here.
#[verifier::external_body]
pub(crate) fn debug_text(t: &str) -> (r: String)
    ensures
        r@ == quoted_text(t@),
{
    format!("{t:?}")
}

/// The `Debug` formatting of `char`, which depends on the character alone. How it
/// escapes it is not said here.
#[verifier::external_body]
pub(crate) fn debug_char(c: char) -> (r: String)
    ensures
        r@ == quoted_char(c),
{
    format!("{c:?}")
}

/// The characters of `s`, in order.
pub fn chars_of(s: &str) -> (r: Vec<char>)
    ensures
        r@ == s@,
{
    let mut out: Vec<char> = Vec::new();
    let mut it = s.chars();
    loop
        invariant
            out@ + it.remaining() == s@,
            it.decrease() is Some,
            it.obeys_prophetic_iter_laws(),
        ensures
            out@ == s@,
        decreases it.decrease()->0,
    {
        match it.next() {
            Some(c) => {
                out.push(c);
                assert(out@ + it.remaining() =~= s@);
            },
            None => {
                assert(out@ =~= s@);
                break;
            },
        }
    }
    out
}

/// The uppercase hexadecimal digit of a value below 16.
pub open spec fn hex_digit_of(d: int) -> char {
    if d < 10 {
        (('0' as u32) + d) as u32 as char
    } else {
        (('A' as u32) + d - 10) as u32 as char
    }
}

/// Two uppercase hexadecimal digits.
pub open spec fn hex_pair(b: u8) -> Seq<char> {
    seq![hex_digit_of(b as int / 16), hex_digit_of(b as int % 16)]
}

/// The uppercase hexadecimal digit of `d`.
pub fn hex_digit(d: u8) -> (r: char)
    requires
        d < 16,
    ensures
        r == hex_digit_of(d as int),
{
    if d < 10 {
        (48u8 + d) as char
    } else {
        (55u8 + d) as char
    }
}

/// Appends `b` as two uppercase hexadecimal digits.
pub fn push_hex_pair(out: &mut String, b: u8)
    ensures
        final(out)@ == old(out)@ + hex_pair(b),
{
    out.push(hex_digit(b / 16));
    out.push(hex_digit(b % 16));
    assert(out@ =~= old(out)@ + hex_pair(b));
}

/// The decimal digits of `n`, without leading zeros.
pub open spec fn decimal(n: nat) -> Seq<char>
    decreases n,
{
    if n < 10 {
        seq![hex_digit_of(n as int)]
    } else {
        decimal(n / 10).push(hex_digit_of(n as int % 10))
    }
}

/// The decimal digits of `n`, filled up with leading zeros to `width`.
pub open spec fn padded(n: nat, width: nat) -> Seq<char> {
    zeros(width - decimal(n).len()) + decimal(n)
}

/// A run of zeros, empty for a count below 1.
pub open spec fn zeros(count: int) -> Seq<char> {
    if count <= 0 {
        Seq::empty()
    } else {
        Seq::new(count as nat, |i: int| '0')
    }
}

/// Appends the decimal digits of `n`.
pub fn push_decimal(out: &mut String, n: u64)
    ensures
        final(out)@ == old(out)@ + decimal(n as nat),
    decreases n,
{
    if n >= 10 {
        push_decimal(out, n / 10);
    } else {
        assert(old(out)@ + Seq::<char>::empty() =~= old(out)@);
    }
    let ghost before = out@;
    out.push(hex_digit((n % 10) as u8));
    assert(out@ =~= old(out)@ + decimal(n as nat));
}

/// Appends the decimal digits of `n`, filled up with zeros to `width`.
pub fn push_padded(out: &mut String, n: u64, width: usize)
    ensures
        final(out)@ == old(out)@ + padded(n as nat, width as nat),
{
    let digits: String = decimal_text(n);
    let mut len: usize = digits.as_str().unicode_len();
    let ghost start = len;
    assert(old(out)@ + zeros(0) =~= old(out)@);
    while len < width
        invariant
            start <= len,
            len <= width || len == start,
            out@ == old(out)@ + zeros(len - start),
        decreases width - len,
    {
        out.push('0');
        len = len + 1;
        assert(out@ =~= old(out)@ + zeros(len - start));
    }
    out.append(digits.as_str());
    assert(out@ =~= old(out)@ + padded(n as nat, width as nat));
}

/// The decimal digits of `n`.
pub fn decimal_text(n: u64) -> (r: String)
    ensures
        r@ == decimal(n as nat),
{
    let mut out: String = String::new();
    push_decimal(&mut out, n);
    assert(out@ =~= decimal(n as nat));
    out
}

/// The characters with the Unicode property White_Space.
pub open spec fn is_white(c: char) -> bool {
    ||| '\t' <= c <= '\r'
    ||| c == ' '
    ||| c == '\u{85}'
    ||| c == '\u{A0}'
    ||| c == '\u{1680}'
    ||| '\u{2000}' <= c <= '\u{200A}'
    ||| c == '\u{2028}'
    ||| c == '\u{2029}'
    ||| c == '\u{202F}'
    ||| c == '\u{205F}'
    ||| c == '\u{3000}'
}

/// Whether `c` is white space.
pub fn white(c: char) -> (r: bool)
    ensures
        r == is_white(c),
{
    ('\t' <= c && c <= '\r') || c == ' ' || c == '\u{85}' || c == '\u{A0}' || c == '\u{1680}' || (
    '\u{2000}' <= c && c <= '\u{200A}') || c == '\u{2028}' || c == '\u{2029}' || c == '\u{202F}' || c
        == '\u{205F}' || c == '\u{3000}'
}

/// `t` without the white space at its end.
pub open spec fn trimmed_end(t: Seq<char>) -> Seq<char>
    decreases t.len(),
{
    if t.len() > 0 && is_white(t.last()) {
        trimmed_end(t.drop_last())
    } else {
        t
    }
}

/// `t` without the white space at its beginning.
pub open spec fn trimmed_start(t: Seq<char>) -> Seq<char>
    decreases t.len(),
{
    if t.len() > 0 && is_white(t[0]) {
        trimmed_start(t.skip(1))
    } else {
        t
    }
}

/// `t` without the white space at either end.
pub open spec fn trimmed(t: Seq<char>) -> Seq<char> {
    trimmed_end(trimmed_start(t))
}

/// The text of `chars[from..to]`.
pub fn string_of(chars: &Vec<char>, from: usize, to: usize) -> (r: String)
    requires
        from <= to <= chars.len(),
    ensures
        r@ == chars@.subrange(from as int, to as int),
{
    let mut out: String = String::new();
    let mut i: usize = from;
    assert(out@ =~= chars@.subrange(from as int, from as int));
    while i < to
        invariant
            from <= i <= to <= chars.len(),
            out@ == chars@.subrange(from as int, i as int),
        decreases to - i,
    {
        out.push(chars[i]);
        i = i + 1;
        assert(out@ =~= chars@.subrange(from as int, i as int));
    }
    out
}

/// Where `chars[from..]` begins behind its leading white space.
pub fn skip_white(chars: &Vec<char>, from: usize) -> (r: usize)
    requires
        from <= chars.len(),
    ensures
        from <= r <= chars.len(),
        chars@.skip(r as int) == trimmed_start(chars@.skip(from as int)),
{
    let mut i: usize = from;
    while i < chars.len() && white(chars[i])
        invariant
            from <= i <= chars.len(),
            trimmed_start(chars@.skip(i as int)) == trimmed_start(chars@.skip(from as int)),
        decreases chars.len() - i,
    {
        assert(chars@.skip(i as int).skip(1) =~= chars@.skip(i + 1));
        i = i + 1;
    }
    i
}

/// Where `chars[from..to]` ends before its trailing white space.
pub fn drop_white(chars: &Vec<char>, from: usize, to: usize) -> (r: usize)
    requires
        from <= to <= chars.len(),
    ensures
        from <= r <= to,
        chars@.subrange(from as int, r as int) == trimmed_end(
            chars@.subrange(from as int, to as int),
        ),
{
    let mut i: usize = to;
    while i > from && white(chars[i - 1])
        invariant
            from <= i <= to <= chars.len(),
            trimmed_end(chars@.subrange(from as int, i as int)) == trimmed_end(
                chars@.subrange(from as int, to as int),
            ),
        decreases i,
    {
        assert(chars@.subrange(from as int, i as int).drop_last() =~= chars@.subrange(
            from as int,
            i - 1,
        ));
        i = i - 1;
    }
    i
}

/// `t` without the white space at either end.
pub fn trim(t: &str) -> (r: String)
    ensures
        r@ == trimmed(t@),
{
    let chars: Vec<char> = chars_of(t);
    assert(chars@.skip(0) =~= t@);
    let from: usize = skip_white(&chars, 0);
    assert(chars@.skip(from as int) =~= chars@.subrange(from as int, chars.len() as int));
    let to: usize = drop_white(&chars, from, chars.len());
    string_of(&chars, from, to)
}

/// Whether `t` holds nothing but white space.
pub fn is_blank(t: &str) -> (r: bool)
    ensures
        r == (trimmed(t@).len() == 0),
{
    trim(t).as_str().is_empty()
}

/// The part of a text before the first `c` in it; the whole text where there is none.
pub open spec fn before(t: Seq<char>, c: char) -> Seq<char>
    decreases t.len(),
{
    if t.len() == 0 || t[0] == c {
        Seq::empty()
    } else {
        seq![t[0]] + before(t.skip(1), c)
    }
}

/// The part of a text before the first `c` in it.
pub fn text_before(t: &str, c: char) -> (r: String)
    ensures
        r@ == before(t@, c),
{
    let chars: Vec<char> = chars_of(t);
    let mut out: String = String::new();
    let mut i: usize = 0;
    assert(chars@.skip(0) =~= t@);
    assert(out@ + before(t@, c) =~= before(t@, c));
    while i < chars.len() && chars[i] != c
        invariant
            i <= chars.len(),
            out@ + before(chars@.skip(i as int), c) == before(t@, c),
        decreases chars.len() - i,
    {
        let ghost done = out@;
        let ghost rest = chars@.skip(i as int);
        assert(rest[0] == chars@[i as int]);
        assert(rest.skip(1) =~= chars@.skip(i + 1));
        out.push(chars[i]);
        i = i + 1;
        assert(out@ + before(chars@.skip(i as int), c) =~= done + before(rest, c));
    }
    proof {
        if i < chars.len() {
            assert(chars@.skip(i as int)[0] == chars@[i as int]);
        }
        assert(out@ + before(chars@.skip(i as int), c) =~= out@);
    }
    out
}

/// Where `part` first occurs in a text.
pub open spec fn first_in(t: Seq<char>, part: Seq<char>) -> Option<nat>
    decreases t.len(),
{
    if t.len() < part.len() {
        None
    } else if t.take(part.len() as int) == part {
        Some(0)
    } else if t.len() == 0 {
        None
    } else {
        match first_in(t.skip(1), part) {
            Some(n) => Some(n + 1),
            None => None,
        }
    }
}

/// Where the characters from `from` on first hold `part`, counted from `from`.
pub fn find_in(chars: &Vec<char>, from: usize, part: &Vec<char>) -> (r: Option<usize>)
    requires
        from <= chars.len(),
        part.len() > 0,
    ensures
        match (r, first_in(chars@.skip(from as int), part@)) {
            (Some(n), Some(m)) => n == m && from + n + part.len() <= chars.len(),
            (None, None) => true,
            _ => false,
        },
{
    let mut i: usize = from;
    let ghost all = chars@.skip(from as int);
    assert(all.skip(0) =~= all);
    while i < chars.len()
        invariant
            from <= i <= chars.len(),
            part.len() > 0,
            all == chars@.skip(from as int),
            first_in(all, part@) == match first_in(chars@.skip(i as int), part@) {
                Some(n) => Some((n + (i - from)) as nat),
                None => None::<nat>,
            },
        decreases chars.len() - i,
    {
        let ghost rest = chars@.skip(i as int);
        if chars.len() - i < part.len() {
            return None;
        }
        let mut k: usize = 0;
        while k < part.len() && chars[i + k] == part[k]
            invariant
                i < chars.len(),
                k <= part.len(),
                part.len() <= chars.len() - i,
                forall|j: int| 0 <= j < k ==> chars@[i + j] == part@[j],
            decreases part.len() - k,
        {
            k = k + 1;
        }
        if k == part.len() {
            assert(rest.take(part.len() as int) =~= part@);
            return Some(i - from);
        }
        assert(rest.take(part.len() as int)[k as int] == chars@[i + k]);
        assert(rest.skip(1) =~= chars@.skip(i + 1));
        i = i + 1;
    }
    None
}

/// An ASCII capital letter in lower case; any other character as it is.
pub open spec fn lower(c: char) -> char {
    if 'A' <= c <= 'Z' {
        (c as u32 + 32) as u32 as char
    } else {
        c
    }
}

/// An ASCII small letter in upper case; any other character as it is.
pub open spec fn upper(c: char) -> char {
    if 'a' <= c <= 'z' {
        (c as u32 - 32) as u32 as char
    } else {
        c
    }
}

/// A text with its ASCII capital letters in lower case.
pub open spec fn lowered(t: Seq<char>) -> Seq<char> {
    t.map_values(|c: char| lower(c))
}

/// A text with its ASCII small letters in upper case.
pub open spec fn uppered(t: Seq<char>) -> Seq<char> {
    t.map_values(|c: char| upper(c))
}

fn lower_char(c: char) -> (r: char)
    ensures
        r == lower(c),
{
    if 'A' <= c && c <= 'Z' {
        ((c as u8) + 32) as char
    } else {
        c
    }
}

fn upper_char(c: char) -> (r: char)
    ensures
        r == upper(c),
{
    if 'a' <= c && c <= 'z' {
        ((c as u8) - 32) as char
    } else {
        c
    }
}

/// Whether two texts differ in the case of ASCII letters at most.
pub fn same_ignoring_case(a: &str, b: &str) -> (r: bool)
    ensures
        r == (lowered(a@) == lowered(b@)),
{
    let x: Vec<char> = chars_of(a);
    let y: Vec<char> = chars_of(b);
    if x.len() != y.len() {
        assert(lowered(a@).len() != lowered(b@).len());
        return false;
    }
    let mut i: usize = 0;
    while i < x.len()
        invariant
            i <= x.len(),
            x.len() == y.len(),
            x@ == a@,
            y@ == b@,
            forall|j: int| 0 <= j < i ==> lower(#[trigger] x@[j]) == lower(y@[j]),
        decreases x.len() - i,
    {
        if lower_char(x[i]) != lower_char(y[i]) {
            assert(lowered(a@)[i as int] != lowered(b@)[i as int]);
            return false;
        }
        i = i + 1;
    }
    assert(lowered(a@) =~= lowered(b@));
    true
}

/// A text with its ASCII small letters in upper case.
pub fn to_upper(t: &str) -> (r: String)
    ensures
        r@ == uppered(t@),
{
    let chars: Vec<char> = chars_of(t);
    let mut out: String = String::new();
    let mut i: usize = 0;
    while i < chars.len()
        invariant
            i <= chars.len(),
            out@ == uppered(chars@.take(i as int)),
        decreases chars.len() - i,
    {
        out.push(upper_char(chars[i]));
        i = i + 1;
        assert(out@ =~= uppered(chars@.take(i as int)));
    }
    assert(chars@.take(i as int) =~= t@);
    out
}

/// Whether two texts are equal.
pub fn same_text(a: &str, b: &str) -> (r: bool)
    ensures
        r == (a@ == b@),
{
    a.to_owned() == b.to_owned()
}

/// The value of a decimal number.
pub open spec fn number_of(digits: Seq<char>) -> Option<nat>
    decreases digits.len(),
{
    if digits.len() == 0 {
        Some(0)
    } else if !('0' <= digits.last() <= '9') {
        None
    } else {
        match number_of(digits.drop_last()) {
            Some(n) => Some((10 * n + (digits.last() as u32 - 48)) as nat),
            None => None,
        }
    }
}

/// What a text says as an unsigned number of at most `max`: decimal digits, at least one
/// of them, with an optional `+` before them.
pub open spec fn unsigned_of(t: Seq<char>, max: nat) -> Option<nat> {
    let digits = if t.len() > 0 && t[0] == '+' {
        t.skip(1)
    } else {
        t
    };
    if digits.len() == 0 {
        None
    } else {
        match number_of(digits) {
            Some(n) => if n <= max {
                Some(n)
            } else {
                None
            },
            None => None,
        }
    }
}

proof fn lemma_number_grows(digits: Seq<char>, k: int)
    requires
        0 <= k <= digits.len(),
        number_of(digits) is Some,
    ensures
        number_of(digits.take(k)) is Some,
        number_of(digits.take(k))->0 <= number_of(digits)->0,
    decreases digits.len() - k,
{
    if k < digits.len() {
        lemma_number_grows(digits, k + 1);
        assert(digits.take(k + 1).drop_last() =~= digits.take(k));
    } else {
        assert(digits.take(k) =~= digits);
    }
}

/// Reads an unsigned number of at most `max`.
pub fn parse_unsigned(t: &str, max: u64) -> (r: Option<u64>)
    ensures
        r is Some <==> unsigned_of(t@, max as nat) is Some,
        r matches Some(n) ==> unsigned_of(t@, max as nat) == Some(n as nat),
{
    let chars: Vec<char> = chars_of(t);
    let from: usize = if chars.len() > 0 && chars[0] == '+' {
        1
    } else {
        0
    };
    let ghost digits = chars@.skip(from as int);
    assert(chars@.skip(0) =~= t@);
    if from == chars.len() {
        return None;
    }
    let mut value: u64 = 0;
    let mut i: usize = from;
    assert(digits.take(0) =~= Seq::empty());
    while i < chars.len()
        invariant
            from <= i <= chars.len(),
            digits == chars@.skip(from as int),
            digits.len() > 0,
            digits == (if t@.len() > 0 && t@[0] == '+' {
                t@.skip(1)
            } else {
                t@
            }),
            number_of(digits.take(i - from)) == Some(value as nat),
            value <= max,
        decreases chars.len() - i,
    {
        let c: char = chars[i];
        let ghost k = i - from;
        assert(digits.take(k + 1).drop_last() =~= digits.take(k));
        assert(digits.take(k + 1).last() == c);
        if c < '0' || c > '9' {
            proof {
                assert(number_of(digits.take(k + 1)) is None);
                if number_of(digits) is Some {
                    lemma_number_grows(digits, k + 1);
                }
            }
            return None;
        }
        let d: u64 = ((c as u8) - 48) as u64;
        if d > max || value > (max - d) / 10 {
            proof {
                assert(number_of(digits.take(k + 1))->0 > max);
                if number_of(digits) is Some {
                    lemma_number_grows(digits, k + 1);
                }
            }
            return None;
        }
        value = value * 10 + d;
        i = i + 1;
    }
    assert(digits.take(i - from) =~= digits);
    Some(value)
}

} // verus!
