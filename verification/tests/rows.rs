//! The rows of the stream view.

use listener::display::render::DisplayView;
use listener::display::rows::split_stream_rows;
use listener::display::stream::StreamRenderer;
use listener::display::{CharacterRendering, DisplayEncoding, DisplayMode, WrappingMode};
use listener::gui::marks::{merge_marks, trim_marks, StreamMark};
use listener::gui::rows::{
    delta_annotations, marks_signature_below, rebuild_rows, refresh_rows, row_batch_quantum,
    StreamRefresh, StreamRenderCache, MAX_ROW_BATCHES,
};
use listener::gui::snapshot::{MarkRender, TriggeredMatch};
use listener::model::ids::{ChannelId, MatchRuleId};

fn view(mode: DisplayMode) -> DisplayView {
    DisplayView {
        mode,
        encoding: DisplayEncoding::Utf8,
        character_rendering: CharacterRendering::Native,
        wrapping: WrappingMode::NoWrap,
        wrap_width: None,
        hex_separator: " ".to_string(),
        hex_bytes_per_line: 16,
    }
}

fn mark(offset: u64, before: bool, text: &str) -> StreamMark {
    StreamMark {
        offset,
        rule_id: MatchRuleId::new(),
        before,
        text: text.to_string(),
    }
}

fn incremental_rows(
    data: &[u8],
    chunk: usize,
    marks: &Vec<StreamMark>,
    v: &DisplayView,
    cols: usize,
) -> Vec<String> {
    let id = ChannelId::new();
    let mut cache = None;
    let mut fed = 0usize;
    while fed < data.len() {
        let end = (fed + chunk).min(data.len());
        refresh_rows(
            &mut cache,
            &StreamRefresh {
                channel: id,
                window: &data[..end],
                window_start: 0,
                cursor: end as u64,
                marks,
                marks_version: 0,
                view: v,
                wrap_cols: cols,
            },
        );
        fed = end;
    }
    cache.expect("fed at least one delta").rows
}

fn batch_rows(data: &[u8], marks: &Vec<StreamMark>, v: &DisplayView, cols: usize) -> Vec<String> {
    let annotations = delta_annotations(marks, 0, data.len());
    let mut r = StreamRenderer::new(v.clone());
    split_stream_rows(&r.render_chunk(data, &annotations), cols)
}

#[test]
fn incremental_rows_equal_one_shot_rows() {
    let data = "alpha\n\nbravo-charlie delta echo\nfoxtrot golf hotel\r\nindia".as_bytes();
    for mode in [DisplayMode::Rendered, DisplayMode::Raw, DisplayMode::Hex] {
        let v = view(mode);
        for cols in [8usize, 10, 80] {
            let want = batch_rows(data, &vec![], &v, cols);
            for chunk in [1usize, 3, 7, 64] {
                let got = incremental_rows(data, chunk, &vec![], &v, cols);
                assert_eq!(got, want, "mode {mode:?} cols {cols} chunk {chunk}");
            }
        }
    }
}

#[test]
fn batches_account_for_every_row_however_many_windows() {
    let data: Vec<u8> = (0..600 * 300).map(|i| if i % 40 == 39 { b'\n' } else { b'a' }).collect();
    let v = view(DisplayMode::Rendered);
    let marks = vec![];
    let id = ChannelId::new();
    let mut cache = None;
    for end in (0..=data.len()).step_by(300) {
        refresh_rows(
            &mut cache,
            &StreamRefresh {
                channel: id,
                window: &data[..end],
                window_start: 0,
                cursor: end as u64,
                marks: &marks,
                marks_version: 0,
                view: &v,
                wrap_cols: 80,
            },
        );
    }
    let cache = cache.unwrap();
    assert_eq!(cache.rows, batch_rows(&data, &marks, &v, 80));
    let owned: usize = cache.row_batches.iter().map(|(_, n)| n).sum();
    assert_eq!(owned, cache.rows.len());
    assert!(cache.row_batches.len() <= MAX_ROW_BATCHES);
}

#[test]
fn split_character_across_deltas_never_shows_a_replacement() {
    let data = "ab \u{e9} cd".as_bytes();
    let v = view(DisplayMode::Rendered);
    let got = incremental_rows(data, 1, &vec![], &v, 80);
    assert_eq!(got, vec!["ab \u{e9} cd".to_string()]);
}

#[test]
fn hex_separators_continue_across_deltas() {
    let v = view(DisplayMode::Hex);
    let got = incremental_rows(b"ABCD", 2, &vec![], &v, 80);
    assert_eq!(got, vec!["41 42 43 44".to_string()]);
}

#[test]
fn marks_for_new_bytes_ride_the_incremental_path() {
    let data = b"hello world";
    let marks = vec![mark(6, true, "[T]")];
    let v = view(DisplayMode::Rendered);
    let got = incremental_rows(data, 4, &marks, &v, 80);
    assert_eq!(got, vec!["hello [T]world".to_string()]);
}

#[test]
fn late_mark_for_rendered_bytes_forces_a_rebuild() {
    let id = ChannelId::new();
    let v = view(DisplayMode::Rendered);
    let mut cache = None;
    let data = b"hello world";
    refresh_rows(
        &mut cache,
        &StreamRefresh {
            channel: id,
            window: data,
            window_start: 0,
            cursor: data.len() as u64,
            marks: &vec![],
            marks_version: 0,
            view: &v,
            wrap_cols: 80,
        },
    );
    assert_eq!(
        cache.as_ref().unwrap().rows,
        vec!["hello world".to_string()]
    );
    let marks = vec![mark(0, true, "[LATE]")];
    refresh_rows(
        &mut cache,
        &StreamRefresh {
            channel: id,
            window: data,
            window_start: 0,
            cursor: data.len() as u64,
            marks: &marks,
            marks_version: 1,
            view: &v,
            wrap_cols: 80,
        },
    );
    assert_eq!(
        cache.as_ref().unwrap().rows,
        vec!["[LATE]hello world".to_string()]
    );
}

#[test]
fn unchanged_marks_version_skips_the_history_signature_check() {
    let id = ChannelId::new();
    let v = view(DisplayMode::Rendered);
    let mut cache = None;
    let data = b"hello world";
    let refresh = |cache: &mut Option<StreamRenderCache>, marks: &Vec<StreamMark>, version: u64| {
        refresh_rows(
            cache,
            &StreamRefresh {
                channel: id,
                window: data,
                window_start: 0,
                cursor: data.len() as u64,
                marks,
                marks_version: version,
                view: &v,
                wrap_cols: 80,
            },
        );
    };
    refresh(&mut cache, &vec![], 0);
    let marks = vec![mark(0, true, "[LATE]")];
    refresh(&mut cache, &marks, 0);
    assert_eq!(
        cache.as_ref().unwrap().rows,
        vec!["hello world".to_string()]
    );
    refresh(&mut cache, &marks, 1);
    assert_eq!(
        cache.as_ref().unwrap().rows,
        vec!["[LATE]hello world".to_string()]
    );
}

#[test]
fn eviction_trims_front_rows_and_keeps_the_tail_exact() {
    let id = ChannelId::new();
    let v = view(DisplayMode::Rendered);
    let mut cache = None;
    let cap = 32usize;
    let mut all: Vec<u8> = Vec::new();
    for i in 0..40 {
        all.extend_from_slice(format!("line {i:02}\n").as_bytes());
        let start = all.len().saturating_sub(cap);
        refresh_rows(
            &mut cache,
            &StreamRefresh {
                channel: id,
                window: &all[start..],
                window_start: start as u64,
                cursor: all.len() as u64,
                marks: &vec![],
                marks_version: 0,
                view: &v,
                wrap_cols: 80,
            },
        );
    }
    let c = cache.unwrap();
    assert!(
        c.rows.len() <= 8,
        "front rows not trimmed: {} rows",
        c.rows.len()
    );
    let want = batch_rows(&all, &vec![], &v, 80);
    let tail = 3;
    assert_eq!(
        &c.rows[c.rows.len() - tail..],
        &want[want.len() - tail..],
        "tail rows diverged from one-shot render"
    );
}

#[test]
fn cursor_regression_rebuilds() {
    let id = ChannelId::new();
    let v = view(DisplayMode::Rendered);
    let mut cache = None;
    refresh_rows(
        &mut cache,
        &StreamRefresh {
            channel: id,
            window: b"old data",
            window_start: 0,
            cursor: 8,
            marks: &vec![],
            marks_version: 0,
            view: &v,
            wrap_cols: 80,
        },
    );
    refresh_rows(
        &mut cache,
        &StreamRefresh {
            channel: id,
            window: b"new",
            window_start: 0,
            cursor: 3,
            marks: &vec![],
            marks_version: 0,
            view: &v,
            wrap_cols: 80,
        },
    );
    assert_eq!(cache.unwrap().rows, vec!["new".to_string()]);
}

#[test]
fn wrap_change_rebuilds_with_new_columns() {
    let id = ChannelId::new();
    let v = view(DisplayMode::Rendered);
    let mut cache = None;
    let data = b"abcdefghijklmnop";
    for cols in [8usize, 16] {
        refresh_rows(
            &mut cache,
            &StreamRefresh {
                channel: id,
                window: data,
                window_start: 0,
                cursor: data.len() as u64,
                marks: &vec![],
                marks_version: 0,
                view: &v,
                wrap_cols: cols,
            },
        );
    }
    assert_eq!(cache.unwrap().rows, vec!["abcdefghijklmnop".to_string()]);
}

#[test]
fn tiny_deltas_with_a_sliding_window_keep_rows_bounded() {
    let id = ChannelId::new();
    let v = view(DisplayMode::Rendered);
    let mut cache = None;
    let cap = 2048usize;
    let mut all: Vec<u8> = Vec::new();
    for i in 0..6000 {
        all.push(if i % 8 == 7 { b'\n' } else { b'x' });
        let start = all.len().saturating_sub(cap);
        refresh_rows(
            &mut cache,
            &StreamRefresh {
                channel: id,
                window: &all[start..],
                window_start: start as u64,
                cursor: all.len() as u64,
                marks: &vec![],
                marks_version: 0,
                view: &v,
                wrap_cols: 80,
            },
        );
    }
    let c = cache.unwrap();
    assert!(
        c.rows.len() <= 320,
        "rows not bounded by the window: {} rows",
        c.rows.len()
    );
    assert!(c.row_batches.len() <= MAX_ROW_BATCHES);
    let owned: usize = c.row_batches.iter().map(|&(_, n)| n).sum();
    assert_eq!(owned, c.rows.len());
    let want = batch_rows(&all[all.len() - cap..], &vec![], &v, 80);
    let tail = 3;
    assert_eq!(
        &c.rows[c.rows.len() - tail..],
        &want[want.len() - tail..],
        "tail rows diverged from one-shot render"
    );
}

#[test]
fn batch_bookkeeping_stays_bounded() {
    let id = ChannelId::new();
    let v = view(DisplayMode::Rendered);
    let mut cache = None;
    let mut all = Vec::new();
    for i in 0..(MAX_ROW_BATCHES * 3) {
        all.push(if i % 10 == 9 { b'\n' } else { b'x' });
        refresh_rows(
            &mut cache,
            &StreamRefresh {
                channel: id,
                window: &all,
                window_start: 0,
                cursor: all.len() as u64,
                marks: &vec![],
                marks_version: 0,
                view: &v,
                wrap_cols: 80,
            },
        );
    }
    let c = cache.unwrap();
    assert!(c.row_batches.len() <= MAX_ROW_BATCHES);
    let owned: usize = c.row_batches.iter().map(|&(_, n)| n).sum();
    assert_eq!(owned, c.rows.len());
}

#[test]
fn batches_grow_with_the_window() {
    assert_eq!(row_batch_quantum(0), 256);
    assert_eq!(row_batch_quantum(256 * 1024), 2048);
}

#[test]
fn annotations_are_relative_to_the_new_bytes() {
    let marks = vec![
        mark(4, true, "early"),
        mark(5, true, "a"),
        mark(6, false, "b"),
        mark(8, true, "late"),
    ];
    let found = delta_annotations(&marks, 5, 3);
    let texts: Vec<(usize, &str)> = found.iter().map(|a| (a.offset, a.text.as_str())).collect();
    assert_eq!(texts, [(0, "a"), (1, "b")]);
}

#[test]
fn signatures_tell_rendered_marks_apart() {
    let a = vec![mark(1, true, "x"), mark(9, true, "y")];
    let b = vec![mark(1, true, "x")];
    let c = vec![mark(1, false, "x")];
    assert!(marks_signature_below(&a, 9).same(&marks_signature_below(&b, 9)));
    assert!(!marks_signature_below(&a, 10).same(&marks_signature_below(&b, 10)));
    assert!(!marks_signature_below(&b, 9).same(&marks_signature_below(&c, 9)));
}

#[test]
fn rebuilding_shows_the_whole_window() {
    let marks = vec![mark(12, true, "[T]")];
    let v = view(DisplayMode::Rendered);
    let built = rebuild_rows(&StreamRefresh {
        channel: ChannelId::new(),
        window: b"ab\ncd",
        window_start: 10,
        cursor: 15,
        marks: &marks,
        marks_version: 0,
        view: &v,
        wrap_cols: 80,
    });
    assert_eq!(built.rows, ["ab[T]", "cd"]);
    assert_eq!(built.rendered_cursor, 15);
}

fn firing(rule_id: MatchRuleId, offset: u64) -> TriggeredMatch {
    TriggeredMatch {
        rule_id,
        byte_offset: Some(offset),
        view_offset: Some(offset),
        mark: Some(MarkRender {
            text: format!("{offset}"),
            before: true,
        }),
    }
}

#[test]
fn merging_keeps_the_marks_and_adds_the_keys_of_the_firings() {
    let (a, b) = (MatchRuleId::new(), MatchRuleId::new());
    let mut marks: Vec<StreamMark> = Vec::new();
    merge_marks(&mut marks, &vec![firing(a, 4), firing(a, 8)]);
    let before = marks.clone();
    let mut unmarked = firing(b, 1);
    unmarked.mark = None;
    let firings = vec![firing(b, 8), firing(a, 8), unmarked, firing(b, 6), firing(b, 8)];
    merge_marks(&mut marks, &firings);
    let keys: Vec<(u64, MatchRuleId)> = marks.iter().map(|m| (m.offset, m.rule_id)).collect();
    assert_eq!(keys, [(4, a), (6, b), (8, a), (8, b)]);
    let kept: Vec<&StreamMark> = marks.iter().filter(|m| before.contains(m)).collect();
    assert_eq!(kept, before.iter().collect::<Vec<_>>());
    let once = marks.clone();
    assert!(!merge_marks(&mut marks, &firings));
    assert_eq!(marks, once);
}

#[test]
fn marks_are_kept_in_order_and_once() {
    let rule = MatchRuleId::new();
    let mut marks: Vec<StreamMark> = Vec::new();
    assert!(merge_marks(
        &mut marks,
        &vec![firing(rule, 5), firing(rule, 2), firing(rule, 5)]
    ));
    let offsets: Vec<u64> = marks.iter().map(|m| m.offset).collect();
    assert_eq!(offsets, [2, 5]);
    assert!(!merge_marks(&mut marks, &vec![firing(rule, 2)]));
    let mut idle = firing(rule, 9);
    idle.view_offset = None;
    assert!(!merge_marks(&mut marks, &vec![idle]));
    assert!(trim_marks(&mut marks, 3));
    assert!(!trim_marks(&mut marks, 3));
    assert_eq!(marks.len(), 1);
}
