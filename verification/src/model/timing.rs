//! Chunk-arrival timing and the local timestamps of marks.
//!
//! Per-byte arrival time is not available from the operating system, so all timing is
//! chunk-granular: a chunk's time is captured when the transport reads it.

use chrono::Offset;
use vstd::prelude::*;
use vstd::string::*;

use crate::text::padded;

verus! {

/// A single timing capture taken when a transport chunk is read.
///
/// `monotonic`, in nanoseconds of the process's own clock, orders chunks and measures
/// durations; `wall_clock`, in nanoseconds since the Unix epoch, renders local and UTC
/// times.
#[derive(Clone, Copy, Debug, PartialEq, Eq, Structural)]
pub struct ChunkTime {
    pub monotonic: u64,
    pub wall_clock: i128,
}

/// A moment of the process's monotonic clock.
#[verifier::external_type_specification]
#[verifier::external_body]
pub struct ExInstant(std::time::Instant);

/// `std::time::Instant::now`. Nothing is claimed of the moment that it reads.
#[verifier::external_body]
fn monotonic_now() -> (r: std::time::Instant) {
    std::time::Instant::now()
}

/// `std::time::Instant::elapsed`, in nanoseconds. Nothing is claimed of how much time has
/// gone by.
#[verifier::external_body]
fn elapsed_nanos(origin: &std::time::Instant) -> (r: u64) {
    origin.elapsed().as_nanos() as u64
}

/// The clock that chunk times are captured with: it counts from the moment when it was
/// made.
#[derive(Clone, Copy, Debug)]
pub struct Clock {
    origin: std::time::Instant,
}

impl Clock {
    pub fn start() -> (r: Clock) {
        Clock { origin: monotonic_now() }
    }
}

impl ChunkTime {
    /// Captures the current monotonic and wall-clock time together. The wall-clock time
    /// has a calendar date, so that it can be formatted; how late it is, and how much time
    /// the clock has counted, is for the machine to say.
    pub fn now(clock: &Clock) -> (r: ChunkTime)
        ensures
            in_calendar(r.wall_clock),
    {
        ChunkTime { monotonic: elapsed_nanos(&clock.origin), wall_clock: wall_clock_now() }
    }
}

/// The wall-clock times, in nanoseconds since the Unix epoch, that have a calendar date:
/// from the first instant of the year -262143 to the last of 262142.
pub open spec fn in_calendar(at: i128) -> bool {
    -8_334_601_228_800_000_000_000 <= at <= 8_210_266_876_799_999_999_999
}

/// Whether `at` has a calendar date.
pub fn has_calendar_date(at: i128) -> (r: bool)
    ensures
        r == in_calendar(at),
{
    -8_334_601_228_800_000_000_000 <= at && at <= 8_210_266_876_799_999_999_999
}

/// The whole seconds since the Unix epoch at `at`.
pub open spec fn seconds_of(at: i128) -> int {
    at as int / 1_000_000_000
}

/// The nanoseconds of `at` since the last whole second.
pub open spec fn nanos_of(at: i128) -> int {
    at as int % 1_000_000_000
}

/// The seconds that have a calendar date.
pub open spec fn seconds_in_calendar(seconds: i64) -> bool {
    -8_334_601_228_800 <= seconds <= 8_210_266_876_799
}

/// A wall-clock time as whole seconds and nanoseconds since.
pub(crate) fn split_time(at: i128) -> (r: (i64, u32))
    requires
        in_calendar(at),
    ensures
        r.0 == seconds_of(at),
        r.1 == nanos_of(at),
        seconds_in_calendar(r.0),
        r.1 < 1_000_000_000,
{
    if at >= 0 {
        let n: u128 = at as u128;
        ((n / 1_000_000_000) as i64, (n % 1_000_000_000) as u32)
    } else {
        let n: u128 = (-(at + 1)) as u128;
        let seconds: i64 = (n / 1_000_000_000) as i64;
        (-seconds - 1, 999_999_999 - (n % 1_000_000_000) as u32)
    }
}

/// `std::time::SystemTime::now`, as the seconds and nanoseconds since the Unix epoch that
/// chrono has for it (`chrono::DateTime::<Utc>::from`). The time is one that chrono has a
/// date for, and no leap second. Nothing else is claimed of it.
#[verifier::external_body]
fn system_time() -> (r: (i64, u32))
    ensures
        seconds_in_calendar(r.0),
        r.1 < 1_000_000_000,
{
    let utc = chrono::DateTime::<chrono::Utc>::from(std::time::SystemTime::now());
    (utc.timestamp(), utc.timestamp_subsec_nanos())
}

/// The time of the machine's wall clock, in nanoseconds since the Unix epoch. It has a
/// calendar date; which, is for the machine to say.
pub(crate) fn wall_clock_now() -> (r: i128)
    ensures
        in_calendar(r),
{
    let (seconds, nanos) = system_time();
    seconds as i128 * 1_000_000_000 + nanos as i128
}

/// The offset of the machine's time zone from UTC at a time, in seconds east
/// (`chrono::Local` and `chrono::FixedOffset::local_minus_utc`). It is less than a day;
/// which it is depends on the machine.
#[verifier::external_body]
fn zone_offset(seconds: i64, nanos: u32) -> (r: i32)
    requires
        seconds_in_calendar(seconds),
        nanos < 1_000_000_000,
    ensures
        -86_400 < r < 86_400,
{
    let utc = chrono::DateTime::from_timestamp(seconds, nanos).unwrap_or_default();
    utc.with_timezone(&chrono::Local).offset().fix().local_minus_utc()
}

/// The offset of the machine's time zone from UTC at `at`, in seconds east.
pub(crate) fn local_offset_seconds(at: i128) -> (r: i32)
    requires
        in_calendar(at),
    ensures
        -86_400 < r < 86_400,
{
    let (seconds, nanos) = split_time(at);
    zone_offset(seconds, nanos)
}

/// The text that chrono gives for a time, in seconds and nanoseconds since the Unix epoch,
/// in a zone with a UTC offset, in seconds east, under a format pattern.
pub uninterp spec fn zoned(
    seconds: i64,
    nanos: u32,
    offset_seconds: i32,
    pattern: Seq<char>,
) -> Seq<char>;

/// The date at `at` in the zone of a UTC offset, as chrono computes it, before the time of
/// day.
pub open spec fn date_text(at: i128, offset_seconds: i32) -> Seq<char> {
    zoned(seconds_of(at) as i64, nanos_of(at) as u32, offset_seconds, "%Y-%m-%dT"@)
}

/// The time of day in the zone of a UTC offset, in seconds east: hours, minutes and
/// seconds.
pub open spec fn clock_text(seconds: int, offset_seconds: i32) -> Seq<char> {
    let second = (seconds + offset_seconds) % 86_400;
    padded((second / 3600) as nat, 2) + seq![':'] + padded((second / 60 % 60) as nat, 2) + seq![
        ':',
    ] + padded((second % 60) as nat, 2)
}

/// Nanoseconds of a second as milliseconds, behind a point. An offset of whole seconds
/// leaves them as they are.
pub open spec fn millis_text(nanos: int) -> Seq<char> {
    seq!['.'] + padded((nanos / 1_000_000) as nat, 3)
}

/// A UTC offset, in seconds east, to the nearest minute: its sign, hours and minutes.
pub open spec fn offset_text(offset_seconds: i32) -> Seq<char> {
    let minutes = (if offset_seconds < 0 {
        -offset_seconds
    } else {
        offset_seconds as int
    } + 30) / 60;
    seq![
        if offset_seconds < 0 {
            '-'
        } else {
            '+'
        },
    ] + padded((minutes / 60) as nat, 2) + seq![':'] + padded((minutes % 60) as nat, 2)
}

/// A time in the zone of a UTC offset (`chrono::DateTime::with_timezone` with a
/// `chrono::FixedOffset`), formatted by `chrono::DateTime::format` with one of four
/// patterns. The text depends on the arguments alone. The time of day, the milliseconds
/// and the offset are stated; how the date is computed is not said here.
#[verifier::external_body]
fn zoned_text(seconds: i64, nanos: u32, offset_seconds: i32, pattern: &str) -> (r: String)
    requires
        seconds_in_calendar(seconds),
        nanos < 1_000_000_000,
        -86_400 < offset_seconds < 86_400,
        pattern@ == "%Y-%m-%dT"@ || pattern@ == "%H:%M:%S"@ || pattern@ == "%.3f"@ || pattern@
            == "%:z"@,
    ensures
        r@ == zoned(seconds, nanos, offset_seconds, pattern@),
        pattern@ == "%H:%M:%S"@ ==> r@ == clock_text(seconds as int, offset_seconds),
        pattern@ == "%.3f"@ ==> r@ == millis_text(nanos as int),
        pattern@ == "%:z"@ ==> r@ == offset_text(offset_seconds),
{
    let utc = chrono::DateTime::from_timestamp(seconds, nanos).unwrap_or_default();
    let zone = chrono::FixedOffset::east_opt(offset_seconds);
    match zone {
        Some(zone) => utc.with_timezone(&zone).format(pattern).to_string(),
        None => String::new(),
    }
}

/// Configuration of an inline timestamp. Time-of-day is always present; the date, the
/// milliseconds and the UTC offset are toggled independently.
#[derive(Clone, Copy, Debug, PartialEq, Eq, Structural)]
pub struct TimestampConfig {
    pub include_date: bool,
    pub include_millis: bool,
    pub include_timezone: bool,
}

impl Default for TimestampConfig {
    fn default() -> (r: TimestampConfig)
        ensures
            !r.include_date && !r.include_millis && !r.include_timezone,
    {
        TimestampConfig { include_date: false, include_millis: false, include_timezone: false }
    }
}

impl TimestampConfig {
    /// The parts that the configuration asks for, in order.
    pub open spec fn parts(
        self,
        date: Seq<char>,
        time: Seq<char>,
        millis: Seq<char>,
        zone: Seq<char>,
    ) -> Seq<char> {
        let a = if self.include_date {
            date
        } else {
            Seq::empty()
        };
        let b = if self.include_millis {
            millis
        } else {
            Seq::empty()
        };
        let c = if self.include_timezone {
            zone
        } else {
            Seq::empty()
        };
        a + time + b + c
    }

    /// Puts the parts of a timestamp together: the date where it is asked for, the time
    /// of day, then milliseconds and UTC offset where they are asked for.
    pub fn assemble(&self, date: &str, time: &str, millis: &str, zone: &str) -> (r: String)
        ensures
            r@ == self.parts(date@, time@, millis@, zone@),
    {
        let mut s: String = String::new();
        if self.include_date {
            s.append(date);
        }
        s.append(time);
        if self.include_millis {
            s.append(millis);
        }
        if self.include_timezone {
            s.append(zone);
        }
        assert(s@ =~= self.parts(date@, time@, millis@, zone@));
        s
    }

    /// The timestamp of a wall-clock time in the zone of a UTC offset.
    pub open spec fn stamp(self, at: i128, offset_seconds: i32) -> Seq<char> {
        self.parts(
            date_text(at, offset_seconds),
            clock_text(seconds_of(at), offset_seconds),
            millis_text(nanos_of(at)),
            offset_text(offset_seconds),
        )
    }

    /// Formats a wall-clock time as a timestamp in the zone of a UTC offset, in seconds
    /// east. The offset reads as one (e.g. `-07:00`), never as `Z`.
    pub fn format_at(&self, at: i128, offset_seconds: i32) -> (r: String)
        requires
            in_calendar(at),
            -86_400 < offset_seconds < 86_400,
        ensures
            r@ == self.stamp(at, offset_seconds),
    {
        let (seconds, nanos) = split_time(at);
        let date: String = zoned_text(seconds, nanos, offset_seconds, "%Y-%m-%dT");
        let time: String = zoned_text(seconds, nanos, offset_seconds, "%H:%M:%S");
        let millis: String = zoned_text(seconds, nanos, offset_seconds, "%.3f");
        let zone: String = zoned_text(seconds, nanos, offset_seconds, "%:z");
        self.assemble(date.as_str(), time.as_str(), millis.as_str(), zone.as_str())
    }

    /// Formats a wall-clock time as a local timestamp. Which offset the local zone has is
    /// for the machine to say.
    pub fn format(&self, at: i128) -> (r: String)
        requires
            in_calendar(at),
        ensures
            exists|offset: i32|
                -86_400 < offset < 86_400 && r@ == #[trigger] self.stamp(at, offset),
    {
        let offset: i32 = local_offset_seconds(at);
        self.format_at(at, offset)
    }
}

} // verus!
