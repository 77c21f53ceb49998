//! Message extraction.

use listener::extract::delimiter::DelimiterExtractor;
use listener::extract::fixed_length::FixedLengthExtractor;
use listener::extract::stream::StreamExtractor;
use listener::extract::MessageExtractor;
use listener::model::message::MessageBytes;
use listener::model::timing::{ChunkTime, Clock};

fn now() -> ChunkTime {
    ChunkTime::now(&Clock::start())
}

fn at(n: u64) -> ChunkTime {
    ChunkTime {
        monotonic: n,
        wall_clock: 0,
    }
}

fn payloads(msgs: &[MessageBytes]) -> Vec<Vec<u8>> {
    msgs.iter().map(|m| m.bytes.to_vec()).collect()
}

#[test]
fn splits_on_single_byte_delimiter_excluded() {
    let mut ex = DelimiterExtractor::new(vec![b'\n'], false);
    let out = ex.push_chunk(b"A\nB\n", now());
    assert_eq!(payloads(&out), vec![b"A".to_vec(), b"B".to_vec()]);
}

#[test]
fn delimiter_can_be_included_in_payload() {
    let mut ex = DelimiterExtractor::new(vec![b'\n'], true);
    let out = ex.push_chunk(b"A\nB\n", now());
    assert_eq!(payloads(&out), vec![b"A\n".to_vec(), b"B\n".to_vec()]);
}

#[test]
fn single_byte_delimiter_across_buffer_boundary() {
    let mut ex = DelimiterExtractor::new(vec![b'\n'], false);
    let t1 = now();
    let t2 = now();
    assert!(ex.push_chunk(b"AB", t1).is_empty());
    let out = ex.push_chunk(b"C\nD\n", t2);
    assert_eq!(payloads(&out), vec![b"ABC".to_vec(), b"D".to_vec()]);
    assert_eq!(out[0].first_chunk.monotonic, t1.monotonic);
    assert_eq!(out[0].last_chunk.monotonic, t2.monotonic);
    assert_eq!(out[1].first_chunk.monotonic, t2.monotonic);
}

#[test]
fn multi_byte_delimiter_across_buffer_boundary() {
    let mut ex = DelimiterExtractor::new(b"\r\n".to_vec(), false);
    assert!(ex.push_chunk(b"X\r", now()).is_empty());
    let out = ex.push_chunk(b"\nY\r\n", now());
    assert_eq!(payloads(&out), vec![b"X".to_vec(), b"Y".to_vec()]);
}

#[test]
fn consecutive_delimiters_yield_empty_messages() {
    let mut ex = DelimiterExtractor::new(vec![b'\n'], false);
    let out = ex.push_chunk(b"\n\n", now());
    assert_eq!(out.len(), 2);
    assert!(out.iter().all(|m| m.bytes.is_empty()));
}

#[test]
fn consecutive_delimiters_included_keep_the_delimiter() {
    let mut ex = DelimiterExtractor::new(vec![b'\n'], true);
    let out = ex.push_chunk(b"A\n\nB\n", now());
    assert_eq!(
        payloads(&out),
        vec![b"A\n".to_vec(), b"\n".to_vec(), b"B\n".to_vec()]
    );
}

#[test]
fn missing_delimiter_emits_nothing_and_discards_on_finish() {
    let mut ex = DelimiterExtractor::new(vec![b'\n'], false);
    assert!(ex.push_chunk(b"ABC", now()).is_empty());
    assert!(ex.finish().is_empty());
}


#[test]
fn immediate_sync_collects_back_to_back_frames() {
    let mut ex = FixedLengthExtractor::new(4, None);
    let out = ex.push_chunk(b"ABCDEFGH", now());
    assert_eq!(payloads(&out), vec![b"ABCD".to_vec(), b"EFGH".to_vec()]);
}

#[test]
fn frame_spanning_buffer_boundary_completes_in_later_chunk() {
    let mut ex = FixedLengthExtractor::new(4, None);
    let t1 = now();
    let t2 = now();
    assert!(ex.push_chunk(b"AB", t1).is_empty());
    let out = ex.push_chunk(b"CDEF", t2);
    assert_eq!(payloads(&out), vec![b"ABCD".to_vec()]);
    assert_eq!(out[0].first_chunk.monotonic, t1.monotonic);
    assert_eq!(out[0].last_chunk.monotonic, t2.monotonic);
    assert!(ex.finish().is_empty());
}

#[test]
fn sync_marker_frames_each_message_and_excludes_the_marker() {
    let mut ex = FixedLengthExtractor::new(3, Some(vec![0xAA, 0x55]));
    let input = [
        0x00, 0xAA, 0x55, 0x01, 0x02, 0x03,
        0xAA, 0x55, 0x04, 0x05, 0x06,
    ];
    let out = ex.push_chunk(&input, now());
    assert_eq!(
        payloads(&out),
        vec![vec![0x01, 0x02, 0x03], vec![0x04, 0x05, 0x06]]
    );
}

#[test]
fn sync_marker_detected_across_buffer_boundary() {
    let mut ex = FixedLengthExtractor::new(3, Some(vec![0xAA, 0x55]));
    assert!(ex.push_chunk(&[0x00, 0xAA], now()).is_empty());
    let out = ex.push_chunk(&[0x55, 0x01, 0x02, 0x03], now());
    assert_eq!(payloads(&out), vec![vec![0x01, 0x02, 0x03]]);
}

#[test]
fn bytes_before_first_marker_are_discarded() {
    let mut ex = FixedLengthExtractor::new(2, Some(vec![0x7E]));
    let out = ex.push_chunk(&[0x11, 0x22, 0x33, 0x7E, 0xAB, 0xCD], now());
    assert_eq!(payloads(&out), vec![vec![0xAB, 0xCD]]);
}


#[test]
fn stream_mode_never_emits_messages() {
    let mut ex = StreamExtractor::new();
    assert!(ex
        .push_chunk(b"anything\r\nat all", now())
        .is_empty());
    assert!(ex.finish().is_empty());
}


#[test]
fn delimited_messages_do_not_depend_on_the_chunks() {
    let data = b"one\r\ntwo\r\n\r\nthree";
    let mut whole = DelimiterExtractor::new(b"\r\n".to_vec(), false);
    let expected = payloads(&whole.push_chunk(data, at(0)));
    assert_eq!(
        expected,
        vec![b"one".to_vec(), b"two".to_vec(), b"".to_vec()]
    );
    for size in 1..data.len() {
        let mut ex = DelimiterExtractor::new(b"\r\n".to_vec(), false);
        let mut got = Vec::new();
        for chunk in data.chunks(size) {
            got.extend(payloads(&ex.push_chunk(chunk, at(0))));
        }
        assert_eq!(got, expected, "chunks of {size}");
    }
}

#[test]
fn fixed_length_messages_do_not_depend_on_the_chunks() {
    let data = [9, 9, 0xAA, 0xAA, 0x55, 1, 2, 3, 0xAA, 0x55, 4, 5, 6, 0xAA];
    let marker = || Some(vec![0xAA, 0x55]);
    let mut whole = FixedLengthExtractor::new(3, marker());
    let expected = payloads(&whole.push_chunk(&data, at(0)));
    assert_eq!(expected, vec![vec![1, 2, 3], vec![4, 5, 6]]);
    for size in 1..data.len() {
        let mut ex = FixedLengthExtractor::new(3, marker());
        let mut got = Vec::new();
        for chunk in data.chunks(size) {
            got.extend(payloads(&ex.push_chunk(chunk, at(0))));
        }
        assert_eq!(got, expected, "chunks of {size}");
    }
}

#[test]
fn without_a_marker_messages_are_runs_of_the_stream() {
    let stream: Vec<u8> = (0..=99).collect();
    for length in [1usize, 3, 7, 100, 101] {
        for cut in [1usize, 2, 5, 33] {
            let mut ex = FixedLengthExtractor::new(length, None);
            let mut out = Vec::new();
            for (k, chunk) in stream.chunks(cut).enumerate() {
                out.extend(ex.push_chunk(chunk, at(k as u64)));
            }
            assert_eq!(out.len(), stream.len() / length);
            for (i, m) in out.iter().enumerate() {
                assert_eq!(m.bytes[..], stream[i * length..(i + 1) * length]);
                assert_eq!(m.first_chunk, at((i * length / cut) as u64));
                assert_eq!(m.last_chunk, at((((i + 1) * length - 1) / cut) as u64));
            }
        }
    }
}

#[test]
fn messages_carry_the_times_of_their_chunks() {
    let mut ex = DelimiterExtractor::new(vec![b';'], false);
    assert!(ex.push_chunk(b"a", at(1)).is_empty());
    assert!(ex.push_chunk(b"b", at(5)).is_empty());
    let out = ex.push_chunk(b"c;", at(9));
    assert_eq!(out[0].first_chunk, at(1));
    assert_eq!(out[0].last_chunk, at(9));
    assert_eq!(out[0].reception_duration(), 8);
}
