//! NMEA ZDA sentences for marks: UTC time and date with the local UTC offset.

use chrono::{Datelike, Timelike};
use vstd::prelude::*;
use vstd::string::*;
use vstd::utf8::*;

use crate::decode::checksum::{declared, xor, xor_of};
use crate::decode::nmea::{
    body_of, first_index, is_ascii_bytes, last_index, lemma_ascii_address, lemma_ascii_valid,
    lemma_first_index, lemma_last_index, nmea_reading, without_line_end,
    NmeaValidationMode,
};
use crate::model::metadata::IntegrityStatus;
use crate::model::timing::{
    in_calendar, local_offset_seconds, nanos_of, seconds_in_calendar, seconds_of, split_time,
};
use crate::text::{
    chars_of, debug_char, decimal, hex_pair, padded, push_hex_pair, push_padded, quoted_char,
};
use crate::unicode::law_text_round_trip;

verus! {

/// The longest talker ID, in bytes.
pub const MAX_ZDA_TALKER_ID_BYTES: usize = 32;

/// Why a talker ID cannot be emitted inside an NMEA ZDA mark.
#[derive(Clone, Copy, Debug, PartialEq, Eq, Structural)]
pub enum ZdaTalkerIdError {
    Empty,
    TooLong,
    InvalidCharacter(char),
}

impl ZdaTalkerIdError {
    pub open spec fn message_spec(self) -> Seq<char> {
        match self {
            ZdaTalkerIdError::Empty => "the ID is empty"@,
            ZdaTalkerIdError::TooLong => "the ID is longer than 32 bytes"@,
            ZdaTalkerIdError::InvalidCharacter(c) => "the ID contains "@ + quoted_char(c)
                + "; use printable ASCII without whitespace or $ ! , *"@,
        }
    }

    /// The error as text.
    pub fn to_string(&self) -> (r: String)
        ensures
            r@ == self.message_spec(),
    {
        match self {
            ZdaTalkerIdError::Empty => "the ID is empty".to_owned(),
            ZdaTalkerIdError::TooLong => "the ID is longer than 32 bytes".to_owned(),
            ZdaTalkerIdError::InvalidCharacter(c) => {
                let mut out: String = "the ID contains ".to_owned();
                let quoted: String = debug_char(*c);
                out.append(quoted.as_str());
                out.append("; use printable ASCII without whitespace or $ ! , *");
                out
            },
        }
    }
}

/// Characters that a talker ID may hold: printable ASCII, apart from the space and the
/// characters that frame a sentence.
pub open spec fn talker_char(c: char) -> bool {
    &&& '!' <= c <= '~'
    &&& c != '$' && c != '!' && c != ',' && c != '*'
}

/// The first character that a talker ID may not hold.
pub open spec fn first_bad(t: Seq<char>) -> Option<char>
    decreases t.len(),
{
    if t.len() == 0 {
        None
    } else if !talker_char(t[0]) {
        Some(t[0])
    } else {
        first_bad(t.skip(1))
    }
}

/// What is wrong with a talker ID.
pub open spec fn talker_fault(t: Seq<char>) -> Option<ZdaTalkerIdError> {
    if t.len() == 0 {
        Some(ZdaTalkerIdError::Empty)
    } else if encode_utf8(t).len() as usize > 32 {
        Some(ZdaTalkerIdError::TooLong)
    } else {
        match first_bad(t) {
            Some(c) => Some(ZdaTalkerIdError::InvalidCharacter(c)),
            None => None,
        }
    }
}

/// Checks an NMEA ZDA talker ID. Standard two-character IDs and longer custom IDs share
/// these rules.
pub fn validate_zda_talker_id(talker: &str) -> (r: Result<(), ZdaTalkerIdError>)
    ensures
        r is Ok <==> talker_fault(talker@) is None,
        r matches Err(e) ==> talker_fault(talker@) == Some(e),
{
    if talker.is_empty() {
        return Err(ZdaTalkerIdError::Empty);
    }
    if talker.len() > MAX_ZDA_TALKER_ID_BYTES {
        return Err(ZdaTalkerIdError::TooLong);
    }
    let chars: Vec<char> = chars_of(talker);
    let mut i: usize = 0;
    assert(chars@.skip(0) =~= talker@);
    while i < chars.len()
        invariant
            i <= chars.len(),
            talker@.len() > 0,
            encode_utf8(talker@).len() as usize <= 32,
            first_bad(chars@.skip(i as int)) == first_bad(talker@),
        decreases chars.len() - i,
    {
        let c: char = chars[i];
        let ghost rest = chars@.skip(i as int);
        assert(rest[0] == c);
        assert(rest.skip(1) =~= chars@.skip(i + 1));
        if c < '!' || c > '~' || c == '$' || c == '!' || c == ',' || c == '*' {
            return Err(ZdaTalkerIdError::InvalidCharacter(c));
        }
        i = i + 1;
    }
    Ok(())
}

/// A date and time of day, as a calendar shows it.
#[derive(Clone, Copy, Debug, PartialEq, Eq, Structural)]
pub struct CalendarTime {
    pub year: i32,
    pub month: u32,
    pub day: u32,
    pub hour: u32,
    pub minute: u32,
    pub second: u32,
    pub millis: u32,
}

impl CalendarTime {
    /// Every field is in its range.
    pub open spec fn in_range(self) -> bool {
        &&& 1 <= self.month <= 12
        &&& 1 <= self.day <= 31
        &&& self.hour < 24
        &&& self.minute < 60
        &&& self.second < 60
        &&& self.millis < 1000
    }
}

/// The UTC date and time of day at a time, in seconds and nanoseconds since the Unix epoch,
/// in the proleptic Gregorian calendar, as chrono computes it.
pub uninterp spec fn utc_calendar(seconds: i64, nanos: u32) -> CalendarTime;

/// `chrono::DateTime::<Utc>::from_timestamp` and the fields of its result. They depend on
/// the arguments alone. The time of day is stated; how the date is computed is not said
/// here.
#[verifier::external_body]
fn utc_fields(seconds: i64, nanos: u32) -> (r: CalendarTime)
    requires
        seconds_in_calendar(seconds),
        nanos < 1_000_000_000,
    ensures
        r == utc_calendar(seconds, nanos),
        r.in_range(),
        r.hour == seconds as int % 86_400 / 3600,
        r.minute == seconds as int % 3600 / 60,
        r.second == seconds as int % 60,
        r.millis == nanos / 1_000_000,
{
    let utc = chrono::DateTime::from_timestamp(seconds, nanos).unwrap_or_default();
    CalendarTime {
        year: utc.year(),
        month: utc.month(),
        day: utc.day(),
        hour: utc.hour(),
        minute: utc.minute(),
        second: utc.second(),
        millis: utc.timestamp_subsec_millis(),
    }
}

/// The UTC date and time of day at `at`. The date is that of chrono's calendar.
pub open spec fn utc_time(at: i128) -> CalendarTime {
    CalendarTime {
        hour: (seconds_of(at) % 86_400 / 3600) as u32,
        minute: (seconds_of(at) % 3600 / 60) as u32,
        second: (seconds_of(at) % 60) as u32,
        millis: (nanos_of(at) / 1_000_000) as u32,
        ..utc_calendar(seconds_of(at) as i64, nanos_of(at) as u32)
    }
}

/// The year in at least four columns, a sign among them.
pub open spec fn year_field(year: i32) -> Seq<char> {
    if year < 0 {
        seq!['-'] + padded((-year) as nat, 3)
    } else {
        padded(year as nat, 4)
    }
}

/// The time of day in UTC, with milliseconds where they are asked for.
pub open spec fn time_field(at: CalendarTime, include_millis: bool) -> Seq<char> {
    let clock = padded(at.hour as nat, 2) + padded(at.minute as nat, 2) + padded(
        at.second as nat,
        2,
    );
    if include_millis {
        clock + seq!['.'] + padded(at.millis as nat, 3)
    } else {
        clock
    }
}

/// Whether an offset is in whole minutes and below 14 hours, as ZDA can carry it.
pub open spec fn zone_fits(seconds: int) -> bool {
    seconds % 60 == 0 && -(13 * 60 + 59) * 60 <= seconds <= (13 * 60 + 59) * 60
}

/// The signed hours and the minutes of the UTC offset, both empty where ZDA cannot carry
/// it.
pub open spec fn zone_fields(seconds: int) -> (Seq<char>, Seq<char>) {
    if !zone_fits(seconds) {
        (Seq::empty(), Seq::empty())
    } else {
        let minutes = if seconds < 0 {
            (-seconds) / 60
        } else {
            seconds / 60
        };
        let sign = if seconds < 0 {
            seq!['-']
        } else if seconds == 0 {
            Seq::empty()
        } else {
            seq!['+']
        };
        (sign + padded((minutes / 60) as nat, 2), padded((minutes % 60) as nat, 2))
    }
}

/// What stands between `$` and `*` of the sentence.
pub open spec fn zda_body(
    talker: Seq<char>,
    at: CalendarTime,
    offset_seconds: int,
    include_millis: bool,
) -> Seq<char> {
    talker + "ZDA,"@ + time_field(at, include_millis) + seq![','] + padded(at.day as nat, 2)
        + seq![','] + padded(at.month as nat, 2) + seq![','] + year_field(at.year) + seq![',']
        + zone_fields(offset_seconds).0 + seq![','] + zone_fields(offset_seconds).1
}

/// A body between `$` and its checksum.
pub open spec fn framed(body: Seq<char>) -> Seq<char> {
    seq!['$'] + body + seq!['*'] + hex_pair(xor_of(encode_utf8(body)))
}

/// The sentence, without line ending.
pub open spec fn zda_text(
    talker: Seq<char>,
    at: CalendarTime,
    offset_seconds: int,
    include_millis: bool,
) -> Seq<char> {
    framed(zda_body(talker, at, offset_seconds, include_millis))
}

/// The ZDA sentence for the UTC time `at`, without line ending. The zone fields carry
/// the offset of the local time zone from UTC, in seconds east.
pub fn zda_sentence_at(
    talker: &str,
    at: CalendarTime,
    offset_seconds: i32,
    include_millis: bool,
) -> (r: Result<String, ZdaTalkerIdError>)
    ensures
        r is Ok <==> talker_fault(talker@) is None,
        r matches Ok(s) ==> s@ == zda_text(talker@, at, offset_seconds as int, include_millis),
        r matches Err(e) ==> talker_fault(talker@) == Some(e),
{
    match validate_zda_talker_id(talker) {
        Ok(_) => {},
        Err(e) => {
            return Err(e);
        },
    }
    let mut body: String = talker.to_owned();
    body.append("ZDA,");
    push_padded(&mut body, at.hour as u64, 2);
    push_padded(&mut body, at.minute as u64, 2);
    push_padded(&mut body, at.second as u64, 2);
    if include_millis {
        body.push('.');
        push_padded(&mut body, at.millis as u64, 3);
    }
    assert(body@ =~= talker@ + "ZDA,"@ + time_field(at, include_millis));
    let ghost a = body@;
    body.push(',');
    push_padded(&mut body, at.day as u64, 2);
    body.push(',');
    push_padded(&mut body, at.month as u64, 2);
    body.push(',');
    assert(body@ =~= a + seq![','] + padded(at.day as nat, 2) + seq![','] + padded(
        at.month as nat,
        2,
    ) + seq![',']);
    let ghost b = body@;
    if at.year < 0 {
        body.push('-');
        let positive: i64 = -(at.year as i64);
        push_padded(&mut body, positive as u64, 3);
        assert(body@ =~= b + year_field(at.year));
    } else {
        push_padded(&mut body, at.year as u64, 4);
    }
    let (hours, minutes) = zda_zone_fields(offset_seconds);
    let ghost c = body@;
    body.push(',');
    body.append(hours.as_str());
    body.push(',');
    body.append(minutes.as_str());
    assert(body@ =~= zda_body(talker@, at, offset_seconds as int, include_millis));
    let mut out: String = String::new();
    out.push('$');
    out.append(body.as_str());
    out.push('*');
    let bytes: &[u8] = body.as_str().as_bytes();
    let sum: u8 = xor(bytes, 0, bytes.len());
    assert(bytes@.subrange(0, bytes.len() as int) =~= bytes@);
    push_hex_pair(&mut out, sum);
    assert(out@ =~= zda_text(talker@, at, offset_seconds as int, include_millis));
    Ok(out)
}

/// The zone fields of a UTC offset in seconds east.
pub fn zda_zone_fields(offset_seconds: i32) -> (r: (String, String))
    ensures
        (r.0@, r.1@) == zone_fields(offset_seconds as int),
{
    let seconds: i64 = offset_seconds as i64;
    let absolute: u64 = if seconds < 0 {
        (-seconds) as u64
    } else {
        seconds as u64
    };
    assert(seconds % 60 == 0 <==> absolute % 60 == 0);
    if absolute % 60 != 0 || absolute / 60 > 13 * 60 + 59 {
        return (String::new(), String::new());
    }
    let total: u64 = absolute / 60;
    let mut hours: String = String::new();
    if seconds < 0 {
        hours.push('-');
    } else if seconds > 0 {
        hours.push('+');
    }
    push_padded(&mut hours, total / 60, 2);
    let mut minutes: String = String::new();
    push_padded(&mut minutes, total % 60, 2);
    assert(hours@ =~= zone_fields(offset_seconds as int).0);
    assert(minutes@ =~= zone_fields(offset_seconds as int).1);
    (hours, minutes)
}

/// The ZDA sentence for the wall-clock time `at`. Clock and date are UTC; the zone
/// fields are for the machine's time zone to say.
pub fn zda_sentence(talker: &str, at: i128, include_millis: bool) -> (r: Result<
    String,
    ZdaTalkerIdError,
>)
    requires
        in_calendar(at),
    ensures
        r is Ok <==> talker_fault(talker@) is None,
        r matches Ok(s) ==> exists|offset: int|
            -86_400 < offset < 86_400 && s@ == #[trigger] zda_text(
                talker@,
                utc_time(at),
                offset,
                include_millis,
            ),
        r matches Err(e) ==> talker_fault(talker@) == Some(e),
{
    let (seconds, nanos) = split_time(at);
    let utc: CalendarTime = utc_fields(seconds, nanos);
    assert(utc == utc_time(at));
    zda_sentence_at(talker, utc, local_offset_seconds(at), include_millis)
}

/// Every character is ASCII and no line end.
#[verifier::opaque]
spec fn plain(t: Seq<char>) -> bool {
    forall|i: int| 0 <= i < t.len() ==> '!' <= #[trigger] t[i] <= '~'
}

proof fn lemma_plain_concat(a: Seq<char>, b: Seq<char>)
    requires
        plain(a),
        plain(b),
    ensures
        plain(a + b),
{
    reveal(plain);
}

proof fn lemma_decimal_plain(n: nat)
    ensures
        plain(decimal(n)),
    decreases n,
{
    reveal(plain);
    if n >= 10 {
        lemma_decimal_plain(n / 10);
    }
}

proof fn lemma_padded_plain(n: nat, width: nat)
    ensures
        plain(padded(n, width)),
{
    reveal(plain);
    lemma_decimal_plain(n);
}

proof fn lemma_talker_plain(t: Seq<char>)
    requires
        first_bad(t) is None,
    ensures
        plain(t),
        forall|i: int| 0 <= i < t.len() ==> talker_char(#[trigger] t[i]),
    decreases t.len(),
{
    reveal(plain);
    if t.len() > 0 {
        lemma_talker_plain(t.skip(1));
        assert forall|i: int| 0 <= i < t.len() implies talker_char(#[trigger] t[i]) by {
            if i > 0 {
                assert(t.skip(1)[i - 1] == t[i]);
            }
        }
    }
}

proof fn lemma_char_plain(c: char)
    requires
        '!' <= c <= '~',
    ensures
        plain(seq![c]),
{
    reveal(plain);
}

proof fn lemma_empty_plain()
    ensures
        plain(Seq::empty()),
{
    reveal(plain);
}

proof fn lemma_time_plain(at: CalendarTime, include_millis: bool)
    ensures
        plain(time_field(at, include_millis)),
{
    let h = padded(at.hour as nat, 2);
    let m = padded(at.minute as nat, 2);
    let s = padded(at.second as nat, 2);
    let ms = padded(at.millis as nat, 3);
    lemma_padded_plain(at.hour as nat, 2);
    lemma_padded_plain(at.minute as nat, 2);
    lemma_padded_plain(at.second as nat, 2);
    lemma_padded_plain(at.millis as nat, 3);
    lemma_char_plain('.');
    lemma_plain_concat(h, m);
    lemma_plain_concat(h + m, s);
    lemma_plain_concat(h + m + s, seq!['.']);
    lemma_plain_concat(h + m + s + seq!['.'], ms);
}

proof fn lemma_year_plain(year: i32)
    ensures
        plain(year_field(year)),
{
    lemma_padded_plain((-year) as nat, 3);
    lemma_padded_plain(year as nat, 4);
    lemma_char_plain('-');
    lemma_plain_concat(seq!['-'], padded((-year) as nat, 3));
}

proof fn lemma_zone_plain(offset_seconds: int)
    ensures
        plain(zone_fields(offset_seconds).0),
        plain(zone_fields(offset_seconds).1),
{
    let minutes = if offset_seconds < 0 {
        (-offset_seconds) / 60
    } else {
        offset_seconds / 60
    };
    let hours = padded((minutes / 60) as nat, 2);
    lemma_empty_plain();
    lemma_char_plain('-');
    lemma_char_plain('+');
    lemma_padded_plain((minutes / 60) as nat, 2);
    lemma_padded_plain((minutes % 60) as nat, 2);
    lemma_plain_concat(seq!['-'], hours);
    lemma_plain_concat(seq!['+'], hours);
    lemma_plain_concat(Seq::empty(), hours);
}

proof fn lemma_body_plain(
    talker: Seq<char>,
    at: CalendarTime,
    offset_seconds: int,
    include_millis: bool,
)
    requires
        first_bad(talker) is None,
    ensures
        plain(zda_body(talker, at, offset_seconds, include_millis)),
{
    assert(plain("ZDA,"@)) by {
        reveal_strlit("ZDA,");
        reveal(plain);
    }
    lemma_char_plain(',');
    lemma_talker_plain(talker);
    lemma_time_plain(at, include_millis);
    lemma_year_plain(at.year);
    lemma_zone_plain(offset_seconds);
    lemma_padded_plain(at.day as nat, 2);
    lemma_padded_plain(at.month as nat, 2);
    let comma = seq![','];
    let a = talker + "ZDA,"@;
    lemma_plain_concat(talker, "ZDA,"@);
    let b = a + time_field(at, include_millis);
    lemma_plain_concat(a, time_field(at, include_millis));
    lemma_plain_concat(b, comma);
    let c = b + comma + padded(at.day as nat, 2);
    lemma_plain_concat(b + comma, padded(at.day as nat, 2));
    lemma_plain_concat(c, comma);
    let d = c + comma + padded(at.month as nat, 2);
    lemma_plain_concat(c + comma, padded(at.month as nat, 2));
    lemma_plain_concat(d, comma);
    let e = d + comma + year_field(at.year);
    lemma_plain_concat(d + comma, year_field(at.year));
    lemma_plain_concat(e, comma);
    let f = e + comma + zone_fields(offset_seconds).0;
    lemma_plain_concat(e + comma, zone_fields(offset_seconds).0);
    lemma_plain_concat(f, comma);
    lemma_plain_concat(f + comma, zone_fields(offset_seconds).1);
}

proof fn lemma_plain_bytes(t: Seq<char>)
    requires
        plain(t),
    ensures
        encode_utf8(t) == Seq::new(t.len(), |i: int| t[i] as u8),
        is_ascii_bytes(encode_utf8(t)),
{
    reveal(plain);
    assert(is_ascii_chars(t));
    is_ascii_chars_encode_utf8(t);
    assert(encode_utf8(t) =~= Seq::new(t.len(), |i: int| t[i] as u8));
    assert forall|i: int| 0 <= i < t.len() implies #[trigger] encode_utf8(t)[i] < 0x80 by {
        assert('!' <= t[i] <= '~');
    }
}

/// A checksum field holds the value that its digits were written from.
proof fn lemma_declared(sum: u8, suffix: Seq<u8>)
    requires
        suffix.len() == 3,
        suffix[0] == 42,
        suffix[1] == hex_pair(sum)[0] as u8,
        suffix[2] == hex_pair(sum)[1] as u8,
    ensures
        declared(suffix) == Some(sum),
{
}

/// The sentence as bytes.
pub open spec fn zda_bytes(
    talker: Seq<char>,
    at: CalendarTime,
    offset_seconds: int,
    include_millis: bool,
) -> Seq<u8> {
    encode_utf8(zda_text(talker, at, offset_seconds, include_millis))
}

/// Bytes are a body behind `$`, with its checksum behind it.
spec fn frames(bytes: Seq<u8>, body: Seq<u8>) -> bool {
    &&& is_ascii_bytes(bytes)
    &&& without_line_end(bytes) == bytes
    &&& bytes.len() == body.len() + 4
    &&& bytes[0] == 36
    &&& last_index(bytes.skip(1), 42) == body.len()
    &&& body_of(bytes) == body
    &&& declared(bytes.skip(1).skip(body.len() as int)) == Some(xor_of(body))
}

proof fn lemma_framed_plain(body: Seq<char>)
    requires
        plain(body),
    ensures
        plain(framed(body)),
{
    let sum = xor_of(encode_utf8(body));
    lemma_char_plain('$');
    lemma_char_plain('*');
    assert(plain(hex_pair(sum))) by {
        reveal(plain);
    }
    lemma_plain_concat(seq!['$'], body);
    lemma_plain_concat(seq!['$'] + body, seq!['*']);
    lemma_plain_concat(seq!['$'] + body + seq!['*'], hex_pair(sum));
}

/// How a plain body is laid out in bytes.
proof fn lemma_framed(body: Seq<char>)
    requires
        plain(body),
    ensures
        frames(encode_utf8(framed(body)), encode_utf8(body)),
        encode_utf8(body).len() == body.len(),
{
    let text = framed(body);
    let sum = xor_of(encode_utf8(body));
    let bytes = encode_utf8(text);
    lemma_framed_plain(body);
    lemma_plain_bytes(text);
    lemma_plain_bytes(body);
    let n = text.len() as int;
    let k = body.len() as int;
    assert(n == k + 4);
    assert(text[0] == '$' && text[k + 1] == '*' && text[k + 2] == hex_pair(sum)[0] && text[k + 3]
        == hex_pair(sum)[1]);
    assert forall|i: int| 0 <= i < k implies bytes[i + 1] == #[trigger] encode_utf8(body)[i] by {
        assert(text[i + 1] == body[i]);
    }
    let after = bytes.skip(1);
    lemma_last_index(after, 42);
    assert(after[k] == 42);
    assert(after[k + 1] == hex_pair(sum)[0] as u8);
    assert(after[k + 2] == hex_pair(sum)[1] as u8);
    assert(after[k + 1] != 42 && after[k + 2] != 42);
    assert(bytes.last() == after[k + 2]);
    assert(bytes.last() != 13 && bytes.last() != 10);
    assert(last_index(after, 42) == k);
    assert(after.take(k) =~= encode_utf8(body));
    lemma_declared(sum, after.skip(k));
}

/// The address of a sentence is its talker and `ZDA`.
proof fn lemma_zda_address(
    talker: Seq<char>,
    at: CalendarTime,
    offset_seconds: int,
    include_millis: bool,
)
    requires
        first_bad(talker) is None,
    ensures
        ({
            let body = zda_body(talker, at, offset_seconds, include_millis);
            let whole = encode_utf8(body);
            let address = whole.take(first_index(whole, 44));
            let m = talker.len() as int;
            &&& address.len() == m + 3
            &&& address.take(m) == encode_utf8(talker)
            &&& address.skip(m) == encode_utf8("ZDA"@)
            &&& m > 0 ==> address[0] == talker[0] as u8
        }),
{
    reveal_strlit("ZDA,");
    reveal_strlit("ZDA");
    let body = zda_body(talker, at, offset_seconds, include_millis);
    lemma_body_plain(talker, at, offset_seconds, include_millis);
    lemma_plain_bytes(body);
    lemma_talker_plain(talker);
    let m = talker.len() as int;
    let whole = encode_utf8(body);
    assert forall|i: int| 0 <= i < m implies body[i] == talker[i] by {}
    assert(body[m] == 'Z' && body[m + 1] == 'D' && body[m + 2] == 'A' && body[m + 3] == ',');
    lemma_first_index(whole, 44);
    assert(whole[m + 3] == 44);
    assert forall|i: int| 0 <= i < m + 3 implies #[trigger] whole[i] != 44 by {
        if i < m {
            assert(talker_char(talker[i]));
        }
    }
    assert(first_index(whole, 44) == m + 3);
    let address = whole.take(m + 3);
    lemma_plain_bytes(talker);
    assert(plain("ZDA"@)) by {
        reveal(plain);
    }
    lemma_plain_bytes("ZDA"@);
    assert(address.take(m) =~= encode_utf8(talker));
    assert(address.skip(m) =~= encode_utf8("ZDA"@));
}

/// Every ZDA sentence decodes: its checksum is valid in either mode, and where the
/// talker has at least two characters and does not begin with `P`, talker and sentence
/// type come back as they went in.
pub proof fn law_zda_sentence_decodes(
    talker: Seq<char>,
    at: CalendarTime,
    offset_seconds: int,
    include_millis: bool,
    mode: NmeaValidationMode,
)
    requires
        talker_fault(talker) is None,
    ensures
        ({
            let bytes = zda_bytes(talker, at, offset_seconds, include_millis);
            let reading = nmea_reading(bytes, mode);
            &&& reading.identity is Some
            &&& reading.identity->0.integrity[0].status == IntegrityStatus::Valid
            &&& talker.len() >= 2 && talker[0] != 'P' ==> {
                &&& reading.faults.len() == 0
                &&& reading.identity->0.message_type == Some("ZDA"@)
                &&& reading.identity->0.attributes == Map::<Seq<char>, Seq<char>>::empty().insert(
                    "talker_id"@,
                    talker,
                )
            }
        }),
{
    let bytes = zda_bytes(talker, at, offset_seconds, include_millis);
    lemma_body_plain(talker, at, offset_seconds, include_millis);
    lemma_framed(zda_body(talker, at, offset_seconds, include_millis));
    lemma_ascii_address(bytes);
    lemma_ascii_valid(bytes);
    if talker.len() >= 2 && talker[0] != 'P' {
        lemma_zda_address(talker, at, offset_seconds, include_millis);
        lemma_talker_plain(talker);
        assert(talker_char(talker[0]));
        law_text_round_trip(talker);
        law_text_round_trip("ZDA"@);
    }
}

} // verus!
