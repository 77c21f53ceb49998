//! Identifiers, states, messages, timestamps and ZDA sentences.

use chrono::{DateTime, Local, TimeZone, Timelike};
use listener::decode::nmea::NmeaDecoder;
use listener::decode::Decoder;
use listener::model::error::RecordError;
use listener::model::ids::{
    ChannelId, ChannelName, DisplayViewId, MatchRuleId, StableConfigId,
};
use listener::model::message::{Message, MessageBytes, MessageMetadata, MessageTimestamp};
use listener::model::metadata::{Attributes, IntegrityStatus, ProtocolMetadata};
use listener::model::state::ChannelState;
use listener::model::timing::{has_calendar_date, ChunkTime, Clock, TimestampConfig};
use listener::model::zda::{
    validate_zda_talker_id, zda_sentence, zda_sentence_at, zda_zone_fields, CalendarTime,
    ZdaTalkerIdError, MAX_ZDA_TALKER_ID_BYTES,
};

fn now() -> ChunkTime {
    ChunkTime::now(&Clock::start())
}

fn local_sample() -> DateTime<Local> {
    Local
        .with_ymd_and_hms(2026, 5, 22, 14, 30, 45)
        .unwrap()
        .with_nanosecond(123_000_000)
        .unwrap()
}

/// Nanoseconds since the Unix epoch.
fn nanos<Tz: chrono::TimeZone>(at: &chrono::DateTime<Tz>) -> i128 {
    i128::from(at.timestamp()) * 1_000_000_000 + i128::from(at.timestamp_subsec_nanos())
}

fn sample() -> i128 {
    nanos(&local_sample())
}

fn parse(sentence: &str) -> ProtocolMetadata {
    let message = Message {
        channel_id: ChannelId::new(),
        number: 1,
        bytes: sentence.as_bytes().to_vec(),
        metadata: MessageMetadata {
            total_byte_count: sentence.len(),
            arrival_timestamp: MessageTimestamp::from(now()),
            reception_duration: None,
        },
    };
    let result = NmeaDecoder::strict().decode(&message);
    assert!(result.errors.is_empty(), "{:?}", result.errors);
    let metadata = result.metadata.unwrap();
    assert_eq!(metadata.integrity[0].status, IntegrityStatus::Valid);
    metadata
}

fn utc_sample() -> CalendarTime {
    CalendarTime {
        year: 2026,
        month: 5,
        day: 22,
        hour: 0,
        minute: 30,
        second: 45,
        millis: 123,
    }
}

#[test]
fn channel_ids_are_unique() {
    assert_ne!(ChannelId::new(), ChannelId::new());
}

#[test]
fn channel_name_round_trips() {
    let name = ChannelName::new("GPS Receiver");
    assert_eq!(name.as_str(), "GPS Receiver");
    assert_eq!(name.to_string(), "GPS Receiver");
}


#[test]
fn single_chunk_message_has_zero_reception_duration() {
    let t = now();
    let mb = MessageBytes {
        bytes: b"$GPGLL".to_vec(),
        first_chunk: t,
        last_chunk: t,
    };
    assert_eq!(mb.reception_duration(), 0);
}

#[test]
fn arrival_timestamp_is_taken_from_the_first_chunk() {
    let first = now();
    let last = now();
    let mb = MessageBytes {
        bytes: b"data".to_vec(),
        first_chunk: first,
        last_chunk: last,
    };
    let ts = MessageTimestamp::from(mb.first_chunk);
    assert_eq!(ts.monotonic, first.monotonic);
}


#[test]
fn permitted_transitions_are_allowed() {
    assert!(ChannelState::Stopped.can_transition_to(ChannelState::Starting));
    assert!(ChannelState::Starting.can_transition_to(ChannelState::Running));
    assert!(ChannelState::Running.can_transition_to(ChannelState::Stopping));
    assert!(ChannelState::Stopping.can_transition_to(ChannelState::Stopped));
    assert!(ChannelState::Starting.can_transition_to(ChannelState::Faulted));
    assert!(ChannelState::Running.can_transition_to(ChannelState::Faulted));
    assert!(ChannelState::Faulted.can_transition_to(ChannelState::Stopped));
}

#[test]
fn explicitly_forbidden_transitions_are_rejected() {
    assert!(!ChannelState::Stopped.can_transition_to(ChannelState::Running));
    assert!(!ChannelState::Running.can_transition_to(ChannelState::Starting));
    assert!(!ChannelState::Faulted.can_transition_to(ChannelState::Running));
}

#[test]
fn self_transitions_are_rejected() {
    for state in [ChannelState::Stopped, ChannelState::Starting, ChannelState::Running, ChannelState::Stopping, ChannelState::Faulted] {
        assert!(
            !state.can_transition_to(state),
            "{state:?} should not transition to itself"
        );
    }
}

#[test]
fn stopping_and_stopped_cannot_fault_directly() {
    assert!(!ChannelState::Stopping.can_transition_to(ChannelState::Faulted));
    assert!(!ChannelState::Stopped.can_transition_to(ChannelState::Faulted));
}


#[test]
fn time_only_is_the_default() {
    assert_eq!(TimestampConfig::default().format(sample()), "14:30:45");
}

#[test]
fn time_and_millis_only() {
    let cfg = TimestampConfig {
        include_date: false,
        include_millis: true,
        include_timezone: false,
    };
    assert_eq!(cfg.format(sample()), "14:30:45.123");
}

#[test]
fn date_and_time_no_millis() {
    let cfg = TimestampConfig {
        include_date: true,
        include_millis: false,
        include_timezone: false,
    };
    assert_eq!(cfg.format(sample()), "2026-05-22T14:30:45");
}

#[test]
fn timezone_offset_matches_the_local_offset() {
    let cfg = TimestampConfig {
        include_date: false,
        include_millis: false,
        include_timezone: true,
    };
    let local = local_sample();
    let expected = format!("14:30:45{}", local.format("%:z"));
    assert_eq!(cfg.format(sample()), expected);
}


#[test]
fn zda_accepts_long_custom_talker_and_emits_valid_checksum_without_crlf() {
    let text = zda_sentence_at(
        "RECEIVER_A",
        utc_sample(),
        -(3 * 3600 + 30 * 60),
        true,
    )
    .unwrap();

    assert_eq!(
        text.split('*').next().unwrap(),
        "$RECEIVER_AZDA,003045.123,22,05,2026,-03,30"
    );
    assert!(!text.contains(['\r', '\n']));
    let parsed = parse(&text);
    assert_eq!(parsed.attributes.get("talker_id").map(String::as_str), Some("RECEIVER_A"));
    assert_eq!(parsed.message_type.as_deref(), Some("ZDA"));
}

#[test]
fn zda_uses_utc_calendar_fields_not_local_calendar_date() {
    let text = zda_sentence_at(
        "GP",
        utc_sample(),
        -(5 * 3600),
        false,
    )
    .unwrap();
    parse(&text);
    let body = text.split('*').next().unwrap();
    let fields: Vec<&str> = body.split(',').skip(1).collect();

    assert_eq!(fields, ["003045", "22", "05", "2026", "-05", "00"]);
}

#[test]
fn zda_zone_fields_cover_zero_positive_and_nonstandard_offsets() {
    assert_eq!(
        zda_zone_fields(0),
        ("00".to_string(), "00".to_string())
    );
    assert_eq!(
        zda_zone_fields(13 * 3600 + 45 * 60),
        ("+13".to_string(), "45".to_string())
    );
    assert_eq!(
        zda_zone_fields(14 * 3600),
        (String::new(), String::new())
    );
    assert_eq!(
        zda_zone_fields(3601),
        (String::new(), String::new())
    );
}

#[test]
fn zda_talker_validation_rejects_framing_controls_and_oversize_ids() {
    assert!(validate_zda_talker_id("A").is_ok());
    assert!(validate_zda_talker_id("CUSTOM_RECEIVER_123").is_ok());
    assert_eq!(validate_zda_talker_id(""), Err(ZdaTalkerIdError::Empty));
    assert_eq!(
        validate_zda_talker_id("G,P"),
        Err(ZdaTalkerIdError::InvalidCharacter(','))
    );
    assert_eq!(
        validate_zda_talker_id("GP\n"),
        Err(ZdaTalkerIdError::InvalidCharacter('\n'))
    );
    assert_eq!(
        validate_zda_talker_id(&"X".repeat(MAX_ZDA_TALKER_ID_BYTES + 1)),
        Err(ZdaTalkerIdError::TooLong)
    );
}


#[test]
fn ids_read_as_hyphenated_digits() {
    let id = ChannelId(0x0123_4567_89ab_cdef_0011_2233_4455_6677);
    assert_eq!(id.to_string(), "01234567-89ab-cdef-0011-223344556677");
    assert_eq!(
        MatchRuleId(0).to_string(),
        "00000000-0000-0000-0000-000000000000"
    );
    assert_eq!(
        StableConfigId(1).to_string(),
        "00000000-0000-0000-0000-000000000001"
    );
    assert_eq!(
        DisplayViewId(0xf).to_string(),
        "00000000-0000-0000-0000-00000000000f"
    );
}

#[test]
fn every_kind_of_id_is_minted_fresh() {
    assert_ne!(MatchRuleId::new(), MatchRuleId::new());
    assert_ne!(StableConfigId::new(), StableConfigId::new());
    assert_ne!(DisplayViewId::new(), DisplayViewId::new());
}

#[test]
fn the_clock_reads_the_present() {
    let clock = Clock::start();
    let a = ChunkTime::now(&clock);
    let b = ChunkTime::now(&clock);
    assert!(b.monotonic >= a.monotonic);
    assert!(a.wall_clock > 1_700_000_000_000_000_000);
    assert!(has_calendar_date(a.wall_clock));
    assert!(!has_calendar_date(i128::MAX));
}

#[test]
fn all_parts_of_a_timestamp_in_order() {
    let cfg = TimestampConfig {
        include_date: true,
        include_millis: true,
        include_timezone: true,
    };
    assert_eq!(
        cfg.assemble("2026-05-22T", "14:30:45", ".123", "-07:00"),
        "2026-05-22T14:30:45.123-07:00"
    );
    assert_eq!(
        cfg.format(sample()),
        local_sample().format("%Y-%m-%dT%H:%M:%S%.3f%:z").to_string()
    );
}

#[test]
fn a_zda_sentence_of_a_wall_clock_time_is_utc() {
    let whole = chrono::Utc
        .with_ymd_and_hms(2024, 2, 29, 23, 59, 58)
        .unwrap();
    let at = nanos(&whole) + 7_999_999;
    let text = zda_sentence("GP", at, true).unwrap();
    assert!(
        text.starts_with("$GPZDA,235958.007,29,02,2024,"),
        "{text}"
    );
    parse(&text);
    assert_eq!(
        zda_sentence("G P", at, true),
        Err(ZdaTalkerIdError::InvalidCharacter(' '))
    );
}

#[test]
fn a_zda_sentence_ends_in_its_checksum() {
    let text = zda_sentence_at("GP", utc_sample(), 0, false).unwrap();
    let body = &text[1..text.len() - 3];
    let sum = body.bytes().fold(0u8, |a, b| a ^ b);
    assert_eq!(text, format!("$GPZDA,003045,22,05,2026,00,00*{sum:02X}"));
}

#[test]
fn talker_errors_read_as_text() {
    assert_eq!(ZdaTalkerIdError::Empty.to_string(), "the ID is empty");
    assert!(ZdaTalkerIdError::InvalidCharacter('*')
        .to_string()
        .contains("'*'"));
    assert!(validate_zda_talker_id("GPé").is_err());
    assert!(!ZdaTalkerIdError::TooLong.to_string().is_empty());
}

#[test]
fn record_errors_read_as_text() {
    assert_eq!(
        RecordError::Io("disk full".to_string()).to_string(),
        "recording I/O failed: disk full"
    );
    assert_eq!(
        RecordError::QueueOverflow.to_string(),
        "recorder queue overflow; recording faulted"
    );
}

#[test]
fn the_last_value_of_an_attribute_counts() {
    let mut a = Attributes::new();
    assert_eq!(a.get("k"), None);
    a.insert("k".to_string(), "1".to_string());
    a.insert("other".to_string(), "x".to_string());
    a.insert("k".to_string(), "2".to_string());
    assert_eq!(a.get("k").map(String::as_str), Some("2"));
    assert_eq!(a.get("other").map(String::as_str), Some("x"));
    let names: Vec<&str> = a.entries().iter().map(|(name, _)| name.as_str()).collect();
    assert_eq!(names, ["k", "other"]);
}

#[test]
fn attributes_are_equal_where_their_names_and_values_are() {
    let pair = |a: &mut Attributes, name: &str, value: &str| {
        a.insert(name.to_string(), value.to_string());
    };
    let mut a = Attributes::new();
    pair(&mut a, "b", "2");
    pair(&mut a, "a", "1");
    pair(&mut a, "\u{e9}", "3");
    pair(&mut a, "ab", "4");
    let mut b = Attributes::new();
    pair(&mut b, "ab", "0");
    pair(&mut b, "\u{e9}", "3");
    pair(&mut b, "a", "1");
    pair(&mut b, "b", "2");
    assert_ne!(a, b);
    pair(&mut b, "ab", "4");
    assert_eq!(a, b);
    assert_eq!(a, b.clone());
    let mut sorted: Vec<String> = a.entries().iter().map(|(name, _)| name.clone()).collect();
    assert_eq!(sorted.len(), 4);
    sorted.sort();
    assert!(a.entries().iter().map(|(name, _)| name).eq(sorted.iter()));
}

#[test]
fn a_timestamp_follows_the_zone_that_it_is_given() {
    let whole = chrono::Utc
        .with_ymd_and_hms(2026, 5, 22, 21, 30, 45)
        .unwrap();
    let at = nanos(&whole) + 123_999_999;
    let all = TimestampConfig {
        include_date: true,
        include_millis: true,
        include_timezone: true,
    };
    assert_eq!(
        all.format_at(at, -7 * 3600),
        "2026-05-22T14:30:45.123-07:00"
    );
    assert_eq!(
        all.format_at(at, 3 * 3600 + 1800),
        "2026-05-23T01:00:45.123+03:30"
    );
    assert_eq!(TimestampConfig::default().format_at(-1, 0), "23:59:59");
}

#[test]
fn an_offset_reads_to_the_nearest_minute() {
    let zoned = TimestampConfig {
        include_date: false,
        include_millis: true,
        include_timezone: true,
    };
    assert_eq!(zoned.format_at(0, 29), "00:00:29.000+00:00");
    assert_eq!(zoned.format_at(0, 30), "00:00:30.000+00:01");
    assert_eq!(zoned.format_at(0, -1), "23:59:59.000-00:00");
    assert_eq!(zoned.format_at(-1, 86_399), "23:59:58.999+24:00");
}

#[test]
fn the_calendar_has_a_first_and_a_last_instant() {
    let first = -8_334_601_228_800_000_000_000;
    let last = 8_210_266_876_799_999_999_999;
    assert_eq!(nanos(&chrono::DateTime::<chrono::Utc>::MIN_UTC), first);
    assert_eq!(nanos(&chrono::DateTime::<chrono::Utc>::MAX_UTC), last);
    assert!(has_calendar_date(first) && !has_calendar_date(first - 1));
    assert!(has_calendar_date(last) && !has_calendar_date(last + 1));
    let all = TimestampConfig {
        include_date: true,
        include_millis: true,
        include_timezone: true,
    };
    assert_eq!(all.format_at(first, 0), "-262143-01-01T00:00:00.000+00:00");
    assert_eq!(all.format_at(first, -60), "-262144-12-31T23:59:00.000-00:01");
    assert_eq!(all.format_at(last, 0), "+262142-12-31T23:59:59.999+00:00");
    assert_eq!(all.format_at(last, 60), "+262143-01-01T00:00:59.999+00:01");
}

#[test]
fn fresh_ids_are_random_uuids() {
    for text in [
        ChannelId::new().to_string(),
        DisplayViewId::new().to_string(),
        MatchRuleId::new().to_string(),
        StableConfigId::new().to_string(),
        ChannelId::default().to_string(),
    ] {
        assert_eq!(text.as_bytes()[14], b'4', "{text}");
        assert!(b"89ab".contains(&text.as_bytes()[19]), "{text}");
    }
}

#[test]
fn a_captured_time_can_be_formatted() {
    let at = now().wall_clock;
    assert!(at >= 0 && has_calendar_date(at));
    assert_eq!(TimestampConfig::default().format(at).len(), 8);
}
