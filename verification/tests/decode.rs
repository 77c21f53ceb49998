//! Decoding of NMEA 0183 sentences.

use listener::decode::checksum::{from_hex, xor};
use listener::decode::nmea::{decode_nmea, NmeaDecoder, NmeaValidationMode};
use listener::decode::{DecodeResult, Decoder};
use listener::model::error::DecodeError;
use listener::model::ids::ChannelId;
use listener::model::message::{Message, MessageMetadata, MessageTimestamp};
use listener::model::metadata::{IntegrityScope, IntegrityStatus, ProtocolId};
use listener::model::timing::{ChunkTime, Clock};

fn sum(body: &str) -> u8 {
    body.bytes().fold(0, |a, b| a ^ b)
}

fn wire(start: &str, body: &str) -> String {
    format!("{start}{body}*{:02X}\r\n", sum(body))
}

fn decode(s: &str, mode: NmeaValidationMode) -> DecodeResult {
    let message = Message {
        channel_id: ChannelId::new(),
        number: 1,
        bytes: s.as_bytes().to_vec(),
        metadata: MessageMetadata {
            total_byte_count: s.len(),
            arrival_timestamp: MessageTimestamp::from(ChunkTime::now(&Clock::start())),
            reception_duration: None,
        },
    };
    NmeaDecoder::new(mode).decode(&message)
}

fn status(result: &DecodeResult) -> IntegrityStatus {
    result.metadata.as_ref().unwrap().integrity[0].status
}

#[test]
fn valid_standard_sentence_is_identified() {
    let wire = wire("$", "GPGLL");
    let r = decode(&wire, NmeaValidationMode::Standard);
    let meta = r.metadata.as_ref().unwrap();
    assert_eq!(meta.protocol, ProtocolId::Nmea0183);
    assert_eq!(meta.message_type.as_deref(), Some("GLL"));
    assert_eq!(
        meta.attributes.get("talker_id").map(String::as_str),
        Some("GP")
    );
    assert_eq!(status(&r), IntegrityStatus::Valid);
    assert_eq!(meta.integrity[0].algorithm.as_deref(), Some("NMEA XOR"));
    assert!(r.errors.is_empty());
}

#[test]
fn sentence_without_crlf_still_decodes() {
    let wire = wire("$", "GPGLL");
    let r = decode(wire.trim_end(), NmeaValidationMode::Standard);
    assert_eq!(status(&r), IntegrityStatus::Valid);
}

#[test]
fn invalid_checksum_is_marked_in_both_modes() {
    let right = sum("GPHDT,123.4");
    let wire = format!("$GPHDT,123.4*{:02X}\r\n", right ^ 0xFF);
    for mode in [NmeaValidationMode::Standard, NmeaValidationMode::Strict] {
        let r = decode(&wire, mode);
        assert_eq!(status(&r), IntegrityStatus::Invalid);
        assert_eq!(r.metadata.unwrap().message_type.as_deref(), Some("HDT"));
        assert!(!r.errors.is_empty());
    }
}

#[test]
fn missing_checksum_differs_by_mode() {
    let wire = "$GPHDT,123.4,T\r\n".to_string();

    let standard = decode(&wire, NmeaValidationMode::Standard);
    assert_eq!(status(&standard), IntegrityStatus::NotPresent);
    assert!(standard.errors.is_empty());

    let strict = decode(&wire, NmeaValidationMode::Strict);
    assert_eq!(status(&strict), IntegrityStatus::Invalid);
    assert!(!strict.errors.is_empty());

    assert_eq!(
        standard.metadata.unwrap().message_type,
        strict.metadata.unwrap().message_type
    );
}

#[test]
fn malformed_checksum_field_is_invalid() {
    let r = decode("$GPGLL*ZZ\r\n", NmeaValidationMode::Standard);
    assert_eq!(status(&r), IntegrityStatus::Invalid);
    assert!(r
        .errors
        .iter()
        .any(|e| matches!(e, DecodeError::Integrity(_))));
}

#[test]
fn proprietary_identifier_is_exposed() {
    let wire = wire("$", "PGRMZ,93,f,3");
    let r = decode(&wire, NmeaValidationMode::Standard);
    let meta = r.metadata.as_ref().unwrap();
    assert_eq!(
        meta.attributes.get("proprietary_id").map(String::as_str),
        Some("GRMZ")
    );
    assert_eq!(meta.message_type, None);
    assert_eq!(status(&r), IntegrityStatus::Valid);
}

#[test]
fn ais_fragment_is_identified_as_ai_vdm() {
    let received = wire("!", "AIVDM,1,1,,A,0@83,0");
    let r = decode(&received, NmeaValidationMode::Standard);
    let meta = r.metadata.as_ref().unwrap();
    assert_eq!(
        meta.attributes.get("talker_id").map(String::as_str),
        Some("AI")
    );
    assert_eq!(meta.message_type.as_deref(), Some("VDM"));
    assert_eq!(status(&r), IntegrityStatus::Valid);

    let own = wire("!", "AIVDO,1,1,,B,b`,4");
    let r = decode(&own, NmeaValidationMode::Standard);
    assert_eq!(r.metadata.unwrap().message_type.as_deref(), Some("VDO"));
}

#[test]
fn missing_start_delimiter_is_not_recognized() {
    let r = decode("GPGGA,1,2*00\r\n", NmeaValidationMode::Standard);
    assert!(r.metadata.is_none());
    assert!(matches!(r.errors[0], DecodeError::Malformed(_)));
}

#[test]
fn short_address_is_flagged_independently_of_checksum() {
    let body = "GP";
    let cs = xor(body.as_bytes(), 0, body.len());
    let wire = format!("${body}*{cs:02X}");
    let r = decode(&wire, NmeaValidationMode::Standard);
    assert_eq!(status(&r), IntegrityStatus::Valid);
    assert_eq!(r.metadata.unwrap().message_type, None);
    assert!(r
        .errors
        .iter()
        .any(|e| matches!(e, DecodeError::Malformed(_))));
}

#[test]
fn a_known_sentence_checks() {
    let r = decode(
        "$GPGGA,123519,4807.038,N,01131.000,E,1,08,0.9,545.4,M,46.9,M,,*47\r\n",
        NmeaValidationMode::Strict,
    );
    assert_eq!(status(&r), IntegrityStatus::Valid);
    assert!(r.errors.is_empty());
    assert_eq!(xor(b"xAB", 1, 3), 0x41 ^ 0x42);
}

#[test]
fn two_hex_digits_of_either_case_are_a_checksum() {
    assert_eq!(from_hex(b"*4f", 0, 3), Some(0x4F));
    assert_eq!(from_hex(b"x*4F", 1, 4), Some(0x4F));
    assert_eq!(from_hex(b"*4", 0, 2), None);
    assert_eq!(from_hex(b"*4G", 0, 3), None);
    assert_eq!(from_hex(b"4F", 0, 2), None);
}

#[test]
fn bytes_that_are_no_text_are_malformed() {
    let bytes = [b'$', 0xFF, 0xFE];
    let r = decode_nmea(&bytes, NmeaValidationMode::Standard);
    assert!(r.metadata.is_none());
    assert!(matches!(r.errors[0], DecodeError::Malformed(_)));
}

#[test]
fn a_talker_that_ends_inside_a_character_is_no_sentence() {
    let malformed =
        [DecodeError::Malformed("message is not valid UTF-8/ASCII text".to_string())];
    for text in ["$aéab", "$GPé12", "!é€12,3*00\r\n"] {
        for mode in [NmeaValidationMode::Standard, NmeaValidationMode::Strict] {
            let r = decode_nmea(text.as_bytes(), mode);
            assert!(r.metadata.is_none());
            assert_eq!(r.errors, malformed);
        }
    }
}

#[test]
fn an_address_beyond_ascii_is_identified_where_it_can_be_parted() {
    let read = |text: &str| decode_nmea(text.as_bytes(), NmeaValidationMode::Standard);
    let r = read("$Pé1,2");
    assert!(r.errors.is_empty());
    let identity = r.metadata.unwrap();
    assert_eq!(identity.message_type, None);
    assert_eq!(identity.attributes.get("proprietary_id").map(String::as_str), Some("é1"));
    let r = read("$éGGA,1");
    let identity = r.metadata.unwrap();
    assert_eq!(identity.message_type, Some("GGA".to_string()));
    assert_eq!(identity.attributes.get("talker_id").map(String::as_str), Some("é"));
    let r = read("!é");
    assert!(r.metadata.unwrap().message_type.is_none());
    assert_eq!(r.errors.len(), 1);
}

#[test]
fn text_behind_the_address_may_be_any() {
    let r = decode_nmea("$GPTXT,é".as_bytes(), NmeaValidationMode::Standard);
    assert!(r.errors.is_empty());
    assert_eq!(r.metadata.unwrap().message_type, Some("TXT".to_string()));
}

#[test]
fn what_is_wrong_names_the_field() {
    let r = decode("$GPGLL*ZZ\r\n", NmeaValidationMode::Standard);
    assert_eq!(
        r.errors,
        [DecodeError::Integrity(
            "malformed checksum field \"*ZZ\"".to_string()
        )]
    );
    assert_eq!(
        r.metadata.unwrap().integrity[0].scope,
        IntegrityScope::Protocol
    );
}

#[test]
fn the_mode_does_not_change_what_a_sentence_is() {
    for text in ["$GPGLL,1*00", "$PGRMZ", "!AIVDM,1", "$GP", "x"] {
        let a = decode_nmea(text.as_bytes(), NmeaValidationMode::Standard);
        let b = decode_nmea(text.as_bytes(), NmeaValidationMode::Strict);
        assert_eq!(
            a.metadata.as_ref().map(|m| m.message_type.clone()),
            b.metadata.as_ref().map(|m| m.message_type.clone()),
            "{text}"
        );
    }
}

#[test]
fn the_line_end_is_not_part_of_a_sentence() {
    let bare = decode("$GPHDT,1", NmeaValidationMode::Strict);
    let ended = decode("$GPHDT,1\r\n", NmeaValidationMode::Strict);
    assert_eq!(bare.errors, ended.errors);
    assert_eq!(status(&bare), status(&ended));
}
