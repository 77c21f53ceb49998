//! What timestamps and ZDA sentences say.

use vstd::arithmetic::div_mod::lemma_fundamental_div_mod_converse;
use vstd::prelude::*;
use vstd::string::*;
use vstd::utf8::*;

use crate::laws::text::{all_digits, digits_value, law_padded_keeps_the_number};
use crate::model::timing::{
    clock_text, date_text, millis_text, nanos_of, offset_text, seconds_of, TimestampConfig,
};
use crate::model::zda::{
    framed, talker_char, talker_fault, time_field, utc_time, year_field, zda_body, zda_text,
    zone_fields, CalendarTime, ZdaTalkerIdError,
};
use crate::text::{decimal, padded};

verus! {

/// Two decimal digits and the number that they say.
pub open spec fn two_digits_say(t: Seq<char>, at: int, n: int) -> bool {
    &&& 0 <= at && at + 2 <= t.len()
    &&& all_digits(t.subrange(at, at + 2))
    &&& digits_value(t.subrange(at, at + 2)) == n
}

proof fn lemma_two_digits(n: nat)
    requires
        n < 100,
    ensures
        padded(n, 2).len() == 2,
        all_digits(padded(n, 2)),
        digits_value(padded(n, 2)) == n,
{
    law_padded_keeps_the_number(n, 2);
    lemma_short(n, 2, 100);
}

/// A number below a power of ten has no more digits than it.
proof fn lemma_short(n: nat, width: nat, bound: nat)
    requires
        width == 2 && bound == 100 || width == 3 && bound == 1000,
        n < bound,
    ensures
        decimal(n).len() <= width,
{
    reveal_with_fuel(decimal, 4);
}

/// A time of day reads as hours, minutes and seconds, two digits each with colons between
/// them, and says the second of the day in the zone of the offset.
#[verifier::spinoff_prover]
#[verifier::rlimit(40)]
pub proof fn law_clock_says_the_second_of_the_day(seconds: int, offset: i32)
    ensures
        ({
            let t = clock_text(seconds, offset);
            let s = (seconds + offset) % 86_400;
            &&& t.len() == 8
            &&& t[2] == ':' && t[5] == ':'
            &&& two_digits_say(t, 0, s / 3600)
            &&& two_digits_say(t, 3, s % 3600 / 60)
            &&& two_digits_say(t, 6, s % 60)
            &&& 3600 * digits_value(t.subrange(0, 2)) + 60 * digits_value(t.subrange(3, 5))
                + digits_value(t.subrange(6, 8)) == s
        }),
{
    let t = clock_text(seconds, offset);
    let s = (seconds + offset) % 86_400;
    let h = padded((s / 3600) as nat, 2);
    let m = padded((s / 60 % 60) as nat, 2);
    let c = padded((s % 60) as nat, 2);
    assert(0 <= s < 86_400);
    lemma_within_the_day(s);
    lemma_two_digits((s / 3600) as nat);
    lemma_two_digits((s / 60 % 60) as nat);
    lemma_two_digits((s % 60) as nat);
    assert(t.subrange(0, 2) =~= h);
    assert(t.subrange(3, 5) =~= m);
    assert(t.subrange(6, 8) =~= c);
}

proof fn lemma_within_the_day(s: int)
    requires
        0 <= s < 86_400,
    ensures
        s / 60 % 60 == s % 3600 / 60,
        0 <= s / 3600 < 24,
        0 <= s / 60 % 60 < 60,
        3600 * (s / 3600) + 60 * (s / 60 % 60) + s % 60 == s,
{
    let h = s / 3600;
    let r = s % 3600;
    let m = r / 60;
    let e = r % 60;
    assert(s == 3600 * h + r && r == 60 * m + e);
    lemma_fundamental_div_mod_converse(s, 60, 60 * h + m, e);
    lemma_fundamental_div_mod_converse(s / 60, 60, h, m);
}

/// Milliseconds read as three digits behind a point, and say the nanoseconds rounded down.
pub proof fn law_millis_say_the_nanoseconds(nanos: int)
    requires
        0 <= nanos < 1_000_000_000,
    ensures
        ({
            let t = millis_text(nanos);
            &&& t.len() == 4
            &&& t[0] == '.'
            &&& all_digits(t.subrange(1, 4))
            &&& 1_000_000 * digits_value(t.subrange(1, 4)) <= nanos < 1_000_000 * (digits_value(
                t.subrange(1, 4),
            ) + 1)
        }),
{
    let n = (nanos / 1_000_000) as nat;
    law_padded_keeps_the_number(n, 3);
    lemma_short(n, 3, 1000);
    assert(millis_text(nanos).subrange(1, 4) =~= padded(n, 3));
}

/// An offset reads as its sign, hours and minutes, and says it to the nearest minute.
#[verifier::spinoff_prover]
#[verifier::rlimit(40)]
pub proof fn law_offset_says_the_minutes(offset: i32)
    requires
        -86_400 < offset < 86_400,
    ensures
        ({
            let t = offset_text(offset);
            let size = if offset < 0 {
                -offset
            } else {
                offset as int
            };
            let minutes = 60 * digits_value(t.subrange(1, 3)) + digits_value(t.subrange(4, 6));
            &&& t.len() == 6
            &&& t[0] == if offset < 0 {
                '-'
            } else {
                '+'
            }
            &&& t[3] == ':'
            &&& all_digits(t.subrange(1, 3)) && all_digits(t.subrange(4, 6))
            &&& digits_value(t.subrange(4, 6)) < 60
            &&& size - 30 <= 60 * minutes <= size + 30
            &&& size % 60 == 30 ==> 60 * minutes == size + 30
        }),
{
    let t = offset_text(offset);
    let size = if offset < 0 {
        -offset
    } else {
        offset as int
    };
    let minutes = (size + 30) / 60;
    lemma_two_digits((minutes / 60) as nat);
    lemma_two_digits((minutes % 60) as nat);
    assert(t.subrange(1, 3) =~= padded((minutes / 60) as nat, 2));
    assert(t.subrange(4, 6) =~= padded((minutes % 60) as nat, 2));
}

/// A timestamp always holds the time of day; date, milliseconds and offset stand in it
/// exactly where they are asked for, in this order.
#[verifier::spinoff_prover]
#[verifier::rlimit(40)]
pub proof fn law_timestamps_hold_what_is_asked_for(c: TimestampConfig, at: i128, offset: i32)
    ensures
        ({
            let t = c.stamp(at, offset);
            let date = date_text(at, offset);
            let from = if c.include_date {
                date.len() as int
            } else {
                0
            };
            let zone = offset_text(offset);
            &&& c.include_date ==> t.subrange(0, from) == date
            &&& t.subrange(from, from + 8) == clock_text(seconds_of(at), offset)
            &&& c.include_millis ==> t.subrange(from + 8, from + 12) == millis_text(nanos_of(at))
            &&& c.include_timezone ==> t.subrange(t.len() - zone.len(), t.len() as int) == zone
            &&& t.len() == from + 8 + (if c.include_millis {
                4int
            } else {
                0
            }) + (if c.include_timezone {
                zone.len() as int
            } else {
                0
            })
        }),
{
    let t = c.stamp(at, offset);
    let date = date_text(at, offset);
    let clock = clock_text(seconds_of(at), offset);
    let millis = millis_text(nanos_of(at));
    let zone = offset_text(offset);
    law_clock_says_the_second_of_the_day(seconds_of(at), offset);
    law_millis_say_the_nanoseconds(nanos_of(at));
    let from = if c.include_date {
        date.len() as int
    } else {
        0
    };
    if c.include_date {
        assert(t.subrange(0, from) =~= date);
    }
    assert(t.subrange(from, from + 8) =~= clock);
    if c.include_millis {
        assert(t.subrange(from + 8, from + 12) =~= millis);
    }
    if c.include_timezone {
        assert(t.subrange(t.len() - zone.len(), t.len() as int) =~= zone);
    }
}

/// The seconds and the nanoseconds of a time make it up.
pub proof fn law_time_is_its_seconds_and_nanoseconds(at: i128)
    ensures
        seconds_of(at) * 1_000_000_000 + nanos_of(at) == at,
        0 <= nanos_of(at) < 1_000_000_000,
{
}

/// The time of day in a ZDA sentence says the second of the UTC day and, where asked for,
/// its milliseconds.
pub proof fn law_zda_time_says_the_utc_second(at: i128, include_millis: bool)
    ensures
        ({
            let t = time_field(utc_time(at), include_millis);
            let s = seconds_of(at) % 86_400;
            &&& 3600 * digits_value(t.subrange(0, 2)) + 60 * digits_value(t.subrange(2, 4))
                + digits_value(t.subrange(4, 6)) == s
            &&& digits_value(t.subrange(2, 4)) < 60 && digits_value(t.subrange(4, 6)) < 60
            &&& all_digits(t.subrange(0, 6))
            &&& !include_millis ==> t.len() == 6
            &&& include_millis ==> t.len() == 10 && t[6] == '.' && all_digits(t.subrange(7, 10))
                && digits_value(t.subrange(7, 10)) == nanos_of(at) / 1_000_000
        }),
{
    let c = utc_time(at);
    lemma_utc_fields(at);
    law_zda_time_says_the_clock(c, include_millis);
}

proof fn lemma_utc_fields(at: i128)
    ensures
        ({
            let c = utc_time(at);
            let s = seconds_of(at) % 86_400;
            &&& c.hour < 24 && c.minute < 60 && c.second < 60 && c.millis < 1000
            &&& 3600 * c.hour + 60 * c.minute + c.second == s
            &&& c.millis == nanos_of(at) / 1_000_000
        }),
{
    lemma_of_the_day(seconds_of(at));
    law_time_is_its_seconds_and_nanoseconds(at);
}

/// The hour, the minute and the second of a day make up the second of the day.
proof fn lemma_of_the_day(n: int)
    ensures
        0 <= n % 86_400 / 3600 < 24,
        0 <= n % 3600 / 60 < 60,
        0 <= n % 60 < 60,
        3600 * (n % 86_400 / 3600) + 60 * (n % 3600 / 60) + n % 60 == n % 86_400,
{
    let q = n / 86_400;
    let s = n % 86_400;
    let h = s / 3600;
    let r = s % 3600;
    let m = r / 60;
    let e = r % 60;
    assert(n == 86_400 * q + s && s == 3600 * h + r && r == 60 * m + e);
    lemma_fundamental_div_mod_converse(n, 3600, 24 * q + h, r);
    lemma_fundamental_div_mod_converse(n, 60, 1440 * q + 60 * h + m, e);
}

/// The time of day in a ZDA sentence says the clock: two digits each for hour, minute and
/// second, and three for the milliseconds behind a point.
#[verifier::spinoff_prover]
#[verifier::rlimit(40)]
pub proof fn law_zda_time_says_the_clock(c: CalendarTime, include_millis: bool)
    requires
        c.hour < 24 && c.minute < 60 && c.second < 60 && c.millis < 1000,
    ensures
        ({
            let t = time_field(c, include_millis);
            &&& digits_value(t.subrange(0, 2)) == c.hour
            &&& digits_value(t.subrange(2, 4)) == c.minute
            &&& digits_value(t.subrange(4, 6)) == c.second
            &&& all_digits(t.subrange(0, 6))
            &&& !include_millis ==> t.len() == 6
            &&& include_millis ==> t.len() == 10 && t[6] == '.' && all_digits(t.subrange(7, 10))
                && digits_value(t.subrange(7, 10)) == c.millis
        }),
{
    let t = time_field(c, include_millis);
    let h = padded(c.hour as nat, 2);
    let m = padded(c.minute as nat, 2);
    let e = padded(c.second as nat, 2);
    lemma_two_digits(c.hour as nat);
    lemma_two_digits(c.minute as nat);
    lemma_two_digits(c.second as nat);
    law_padded_keeps_the_number(c.millis as nat, 3);
    lemma_short(c.millis as nat, 3, 1000);
    assert(t.subrange(0, 2) =~= h);
    assert(t.subrange(2, 4) =~= m);
    assert(t.subrange(4, 6) =~= e);
    assert forall|i: int| 0 <= i < 6 implies crate::laws::text::is_digit(
        #[trigger] t.subrange(0, 6)[i],
    ) by {
        if i < 2 {
            assert(t[i] == h[i]);
        } else if i < 4 {
            assert(t[i] == m[i - 2]);
        } else {
            assert(t[i] == e[i - 4]);
        }
    }
    if include_millis {
        assert(t.subrange(7, 10) =~= padded(c.millis as nat, 3));
    }
}

/// The year of a ZDA sentence says the year, in at least four columns.
pub proof fn law_zda_year_says_the_year(year: i32)
    ensures
        ({
            let t = year_field(year);
            &&& t.len() >= 4
            &&& year >= 0 ==> all_digits(t) && digits_value(t) == year
            &&& year < 0 ==> t[0] == '-' && all_digits(t.subrange(1, t.len() as int))
                && digits_value(t.subrange(1, t.len() as int)) == -year
        }),
{
    let t = year_field(year);
    if year < 0 {
        law_padded_keeps_the_number((-year) as nat, 3);
        assert(t.subrange(1, t.len() as int) =~= padded((-year) as nat, 3));
    } else {
        law_padded_keeps_the_number(year as nat, 4);
    }
}

/// The zone fields of a ZDA sentence say the offset of whole minutes below fourteen hours,
/// its sign with the hours; any other offset leaves both empty.
#[verifier::spinoff_prover]
#[verifier::rlimit(40)]
pub proof fn law_zda_zone_says_the_offset(seconds: int)
    ensures
        ({
            let (h, m) = zone_fields(seconds);
            let fits = seconds % 60 == 0 && -50_340 <= seconds <= 50_340;
            &&& !fits ==> h.len() == 0 && m.len() == 0
            &&& fits ==> {
                let digits = if seconds == 0 {
                    h
                } else {
                    h.subrange(1, h.len() as int)
                };
                let size = if seconds < 0 {
                    -seconds
                } else {
                    seconds
                };
                &&& seconds < 0 ==> h[0] == '-'
                &&& seconds > 0 ==> h[0] == '+'
                &&& digits.len() == 2 && m.len() == 2
                &&& all_digits(digits) && all_digits(m)
                &&& digits_value(m) < 60
                &&& 3600 * digits_value(digits) + 60 * digits_value(m) == size
            }
        }),
{
    let (h, m) = zone_fields(seconds);
    let minutes = if seconds < 0 {
        (-seconds) / 60
    } else {
        seconds / 60
    };
    if seconds % 60 == 0 && -50_340 <= seconds <= 50_340 {
        lemma_two_digits((minutes / 60) as nat);
        lemma_two_digits((minutes % 60) as nat);
        if seconds == 0 {
            assert(h =~= padded((minutes / 60) as nat, 2));
        } else {
            assert(h.subrange(1, h.len() as int) =~= padded((minutes / 60) as nat, 2));
        }
    }
}

/// A ZDA sentence is its talker, `ZDA`, and the time, day, month, year and zone, in this
/// order with commas between them, in a frame.
pub proof fn law_zda_fields_stand_in_order(
    talker: Seq<char>,
    at: CalendarTime,
    offset: int,
    include_millis: bool,
)
    requires
        at.in_range(),
    ensures
        ({
            let time = time_field(at, include_millis);
            let head = talker + seq!['Z', 'D', 'A', ','] + time;
            let body = zda_body(talker, at, offset, include_millis);
            let n = head.len() as int;
            let year = year_field(at.year);
            let rest = body.subrange(n + 7 + year.len(), body.len() as int);
            &&& body.subrange(0, n) == head
            &&& body[n] == ',' && body[n + 3] == ',' && body[n + 6] == ','
            &&& two_digits_say(body, n + 1, at.day as int)
            &&& two_digits_say(body, n + 4, at.month as int)
            &&& body.subrange(n + 7, n + 7 + year.len()) == year
            &&& rest == seq![','] + zone_fields(offset).0 + seq![','] + zone_fields(offset).1
            &&& zda_text(talker, at, offset, include_millis) == framed(body)
            &&& framed(body)[0] == '$'
            &&& framed(body).subrange(1, body.len() as int + 1) == body
            &&& framed(body)[body.len() as int + 1] == '*'
            &&& framed(body).len() == body.len() + 4
        }),
{
    let head = talker + seq!['Z', 'D', 'A', ','] + time_field(at, include_millis);
    let body = zda_body(talker, at, offset, include_millis);
    let tail = seq![','] + zone_fields(offset).0 + seq![','] + zone_fields(offset).1;
    let day = padded(at.day as nat, 2);
    let month = padded(at.month as nat, 2);
    let year = year_field(at.year);
    lemma_two_digits(at.day as nat);
    lemma_two_digits(at.month as nat);
    lemma_body(talker, at, offset, include_millis);
    lemma_fields(head, day, month, year, tail);
    assert(framed(body).subrange(1, body.len() as int + 1) =~= body);
}

/// The fields of a sentence, one behind the other.
spec fn fields(
    head: Seq<char>,
    day: Seq<char>,
    month: Seq<char>,
    year: Seq<char>,
    tail: Seq<char>,
) -> Seq<char> {
    head + seq![','] + day + seq![','] + month + seq![','] + year + tail
}

#[verifier::spinoff_prover]
proof fn lemma_body(talker: Seq<char>, at: CalendarTime, offset: int, include_millis: bool)
    ensures
        zda_body(talker, at, offset, include_millis) == fields(
            talker + seq!['Z', 'D', 'A', ','] + time_field(at, include_millis),
            padded(at.day as nat, 2),
            padded(at.month as nat, 2),
            year_field(at.year),
            seq![','] + zone_fields(offset).0 + seq![','] + zone_fields(offset).1,
        ),
{
    reveal_strlit("ZDA,");
    assert("ZDA,"@ =~= seq!['Z', 'D', 'A', ',']);
    let head = talker + seq!['Z', 'D', 'A', ','] + time_field(at, include_millis);
    let day = padded(at.day as nat, 2);
    let month = padded(at.month as nat, 2);
    let year = year_field(at.year);
    let (h, m) = zone_fields(offset);
    assert(zda_body(talker, at, offset, include_millis) =~= fields(
        head,
        day,
        month,
        year,
        seq![','] + h + seq![','] + m,
    ));
}

#[verifier::spinoff_prover]
proof fn lemma_fields(
    head: Seq<char>,
    day: Seq<char>,
    month: Seq<char>,
    year: Seq<char>,
    tail: Seq<char>,
)
    requires
        day.len() == 2,
        month.len() == 2,
    ensures
        ({
            let body = fields(head, day, month, year, tail);
            let n = head.len() as int;
            &&& body.len() == n + 7 + year.len() + tail.len()
            &&& body.subrange(0, n) == head
            &&& body[n] == ',' && body[n + 3] == ',' && body[n + 6] == ','
            &&& body.subrange(n + 1, n + 3) == day
            &&& body.subrange(n + 4, n + 6) == month
            &&& body.subrange(n + 7, n + 7 + year.len()) == year
            &&& body.subrange(n + 7 + year.len(), body.len() as int) == tail
        }),
{
    let body = fields(head, day, month, year, tail);
    let n = head.len() as int;
    assert(body.subrange(0, n) =~= head);
    assert(body.subrange(n + 1, n + 3) =~= day);
    assert(body.subrange(n + 4, n + 6) =~= month);
    assert(body.subrange(n + 7, n + 7 + year.len()) =~= year);
    assert(body.subrange(n + 7 + year.len(), body.len() as int) =~= tail);
}

/// A talker is refused where it is empty, longer than 32 bytes, or holds a character that
/// is no printable ASCII or has a meaning in a sentence; the first such character is told.
pub proof fn law_talkers_are_refused_for_a_reason(t: Seq<char>)
    ensures
        t.len() == 0 <==> talker_fault(t) == Some(ZdaTalkerIdError::Empty),
        talker_fault(t) is None ==> forall|i: int|
            0 <= i < t.len() ==> talker_code(#[trigger] t[i]),
        talker_fault(t) matches Some(ZdaTalkerIdError::InvalidCharacter(c)) ==> exists|i: int|
            0 <= i < t.len() && t[i] == c && !talker_code(c) && forall|j: int|
                0 <= j < i ==> talker_code(#[trigger] t[j]),
        t.len() > 0 && (forall|i: int| 0 <= i < t.len() ==> talker_code(#[trigger] t[i])) ==> (
        talker_fault(t) is None || talker_fault(t) == Some(ZdaTalkerIdError::TooLong)),
{
    let at = lemma_first_bad(t);
    if at < t.len() {
        assert(t[at] == t[at] && !talker_code(t[at]));
    }
}

/// Printable ASCII but for the space and `$`, `!`, `,` and `*`.
pub open spec fn talker_code(c: char) -> bool {
    let n = c as u32;
    33 < n < 127 && n != 36 && n != 44 && n != 42
}

/// A talker of permitted characters is too long where it has more than 32.
pub proof fn law_talkers_have_at_most_32_characters(t: Seq<char>)
    requires
        0 < t.len() <= usize::MAX,
        forall|i: int| 0 <= i < t.len() ==> talker_code(#[trigger] t[i]),
    ensures
        t.len() <= 32 ==> talker_fault(t) is None,
        t.len() > 32 ==> talker_fault(t) == Some(ZdaTalkerIdError::TooLong),
{
    law_talkers_are_refused_for_a_reason(t);
    assert forall|i: int| 0 <= i < t.len() implies '\0' <= #[trigger] t[i] <= '\u{7f}' by {
        lemma_talker_code(t[i]);
    }
    assert(is_ascii_chars(t));
    is_ascii_chars_encode_utf8(t);
}

proof fn lemma_talker_code(c: char)
    ensures
        talker_char(c) <==> talker_code(c),
{
}

proof fn lemma_first_bad(t: Seq<char>) -> (at: int)
    ensures
        0 <= at <= t.len(),
        crate::model::zda::first_bad(t) == if at < t.len() {
            Some(t[at])
        } else {
            None
        },
        forall|i: int| 0 <= i < at ==> talker_code(#[trigger] t[i]),
        at < t.len() ==> !talker_code(t[at]),
    decreases t.len(),
{
    if t.len() == 0 {
        0
    } else {
        lemma_talker_code(t[0]);
        if !talker_char(t[0]) {
            0
        } else {
            let k = lemma_first_bad(t.skip(1));
            assert forall|i: int| 0 <= i < k + 1 implies talker_code(#[trigger] t[i]) by {
                if i > 0 {
                    assert(t.skip(1)[i - 1] == t[i]);
                }
            }
            if k < t.skip(1).len() {
                assert(t.skip(1)[k] == t[k + 1]);
            }
            k + 1
        }
    }
}

} // verus!
