//! Display: decoding, rendering, annotations and the stream renderer.

use listener::display::encoding::{decode_with_offsets, incomplete_tail};
use listener::display::render::{AnnotationPlacement, DisplayView, RenderAnnotation};
use listener::display::rows::{split_stream_rows, wrap_lines};
use listener::display::stream::StreamRenderer;
use listener::display::{
    CharacterRendering, DisplayEncoding, DisplayMode, RenderedOutput, WrappingMode,
};
use listener::model::ids::ChannelId;
use listener::unicode::text_of;

fn decode(bytes: &[u8], encoding: DisplayEncoding) -> Vec<char> {
    decode_with_offsets(bytes, encoding)
        .into_iter()
        .map(|(c, _)| c)
        .collect()
}

#[test]
fn ascii_marks_high_bytes_as_replacement() {
    assert_eq!(
        decode(&[0x41, 0x80, 0x42], DisplayEncoding::Ascii),
        ['A', '\u{FFFD}', 'B']
    );
}

#[test]
fn latin1_maps_every_byte() {
    assert_eq!(decode(&[0xE9], DisplayEncoding::Latin1), ['é']);
}

#[test]
fn utf8_is_lossy_on_invalid_sequences() {
    assert_eq!(
        decode(&[0x41, 0xFF], DisplayEncoding::Utf8),
        ['A', '\u{FFFD}']
    );
}

#[test]
fn offsets_track_multibyte_utf8() {
    assert_eq!(
        decode_with_offsets("aéb".as_bytes(), DisplayEncoding::Utf8),
        [('a', 0), ('é', 1), ('b', 3)]
    );
}

#[test]
fn offsets_are_one_per_byte_for_ascii_and_latin1() {
    assert_eq!(
        decode_with_offsets(b"AB", DisplayEncoding::Ascii),
        [('A', 0), ('B', 1)]
    );
    assert_eq!(
        decode_with_offsets(&[0xE9, 0x41], DisplayEncoding::Latin1),
        [('é', 0), ('A', 1)]
    );
}

#[test]
fn offsets_track_utf16_units_and_pairs() {
    let bytes = [0x41, 0x00, 0x3D, 0xD8, 0x00, 0xDE];
    assert_eq!(
        decode_with_offsets(&bytes, DisplayEncoding::Utf16Le),
        [('A', 0), ('😀', 2)]
    );
}

#[test]
fn incomplete_tails_hold_back_split_sequences_only() {
    assert_eq!(incomplete_tail("aé".as_bytes(), DisplayEncoding::Utf8), 0);
    assert_eq!(incomplete_tail(&[b'a', 0xC3], DisplayEncoding::Utf8), 1);
    assert_eq!(incomplete_tail(&[0xE2, 0x82], DisplayEncoding::Utf8), 2);
    assert_eq!(incomplete_tail(&[0xF0, 0x9F, 0x98], DisplayEncoding::Utf8), 3);
    assert_eq!(incomplete_tail(&[0x80, 0x80], DisplayEncoding::Utf8), 0);
    assert_eq!(incomplete_tail(&[b'a', 0xFF], DisplayEncoding::Utf8), 0);
    for never_lead in [0xC0, 0xC1, 0xF5, 0xF6, 0xF7] {
        assert_eq!(incomplete_tail(&[b'a', never_lead], DisplayEncoding::Utf8), 0);
        assert_eq!(incomplete_tail(&[never_lead, 0x80], DisplayEncoding::Utf8), 0);
    }
    assert_eq!(incomplete_tail(&[0xC2], DisplayEncoding::Utf8), 1);
    assert_eq!(incomplete_tail(&[0xF4, 0x80], DisplayEncoding::Utf8), 2);
    assert_eq!(incomplete_tail(&[0xC3], DisplayEncoding::Ascii), 0);
    assert_eq!(incomplete_tail(&[0xC3], DisplayEncoding::Latin1), 0);
    assert_eq!(incomplete_tail(&[0x41, 0x00, 0x42], DisplayEncoding::Utf16Le), 1);
    assert_eq!(incomplete_tail(&[0x3D, 0xD8], DisplayEncoding::Utf16Le), 2);
    assert_eq!(incomplete_tail(&[0x3D, 0xD8, 0x01], DisplayEncoding::Utf16Le), 3);
    assert_eq!(incomplete_tail(&[0x41, 0x00], DisplayEncoding::Utf16Le), 0);
}

#[test]
fn utf16_respects_byte_order_and_odd_tail() {
    assert_eq!(decode(&[0x41, 0x00], DisplayEncoding::Utf16Le), ['A']);
    assert_eq!(decode(&[0x00, 0x41], DisplayEncoding::Utf16Be), ['A']);
    assert_eq!(
        decode(&[0x41, 0x00, 0x42], DisplayEncoding::Utf16Le),
        ['A', '\u{FFFD}']
    );
}


fn view(mode: DisplayMode, rendering: CharacterRendering) -> DisplayView {
    DisplayView {
        mode,
        character_rendering: rendering,
        ..DisplayView::default()
    }
}

#[test]
fn hex_is_uppercase_two_digit_space_separated() {
    let v = view(DisplayMode::Hex, CharacterRendering::Native);
    assert_eq!(v.render_text(b"Hi\n"), "48 69 0A");
}

#[test]
fn hex_wraps_at_bytes_per_line() {
    let mut v = view(DisplayMode::Hex, CharacterRendering::Native);
    v.wrapping = WrappingMode::Wrap;
    v.hex_bytes_per_line = 2;
    assert_eq!(v.render_text(b"ABCDE"), "41 42\n43 44\n45");
}

#[test]
fn raw_native_passes_control_bytes_through_unchanged() {
    let v = view(DisplayMode::Raw, CharacterRendering::Native);
    assert_eq!(v.render_text(b"A\r\nB"), "A\r\nB");
}

#[test]
fn raw_token_names_controls_and_space() {
    let v = view(DisplayMode::Raw, CharacterRendering::Token);
    assert_eq!(v.render_text(b"A\r\n B"), "A[CR][LF][SP]B");
}

#[test]
fn raw_glyph_uses_control_pictures() {
    let v = view(DisplayMode::Raw, CharacterRendering::Glyph);
    assert_eq!(v.render_text(b"\t\n "), "␉␊␠");
}

#[test]
fn raw_hex_escape_escapes_controls_and_space() {
    let v = view(DisplayMode::Raw, CharacterRendering::HexEscape);
    assert_eq!(v.render_text(b"A\r\n B"), "A<0D><0A><20>B");
}

#[test]
fn raw_wraps_by_cells_keeping_tokens_intact() {
    let mut v = view(DisplayMode::Raw, CharacterRendering::Native);
    v.wrapping = WrappingMode::Wrap;
    v.wrap_width = Some(3);
    assert_eq!(v.render_text(b"ABCDEFG"), "ABC\nDEF\nG");
}

#[test]
fn raw_wrapping_breaks_only_where_a_cell_does_not_fit() {
    let mut v = view(DisplayMode::Raw, CharacterRendering::Token);
    let whole = v.render_text(b"ab\ncd\x00e");
    v.wrapping = WrappingMode::Wrap;
    for (width, text) in [
        (2, "ab\n[LF]\ncd\n[NUL]\ne"),
        (5, "ab\n[LF]c\nd\n[NUL]\ne"),
        (6, "ab[LF]\ncd\n[NUL]e"),
        (7, "ab[LF]c\nd[NUL]e"),
        (100, "ab[LF]cd[NUL]e"),
    ] {
        v.wrap_width = Some(width);
        let shown = v.render_text(b"ab\ncd\x00e");
        assert_eq!(shown, text);
        assert_eq!(shown.replace('\n', ""), whole);
    }
}

#[test]
fn rendered_interprets_crlf_and_tabs() {
    let v = view(DisplayMode::Rendered, CharacterRendering::Native);
    assert_eq!(v.render_text(b"a\r\nb"), "a\nb");
    assert_eq!(v.render_text(b"a\tb"), "a       b");
    assert_eq!(v.render_text(b"a\x07b"), "ab");
}

#[test]
fn rendered_preserves_literal_spaces() {
    let v = view(DisplayMode::Rendered, CharacterRendering::Native);
    assert_eq!(v.render_text(b"a b  c"), "a b  c");
    assert_eq!(v.render_text(b"$GPGGA, 123, 45"), "$GPGGA, 123, 45");
    assert_eq!(v.render_text(b"ab \tX"), "ab      X");
}

fn ann(offset: usize, placement: AnnotationPlacement, text: &str) -> RenderAnnotation {
    RenderAnnotation {
        offset,
        placement,
        text: text.to_string(),
    }
}

#[test]
fn rendered_splices_timestamp_before_the_match() {
    let v = view(DisplayMode::Rendered, CharacterRendering::Native);
    let anns = [ann(3, AnnotationPlacement::Before, "[17:42:03]")];
    assert_eq!(
        v.render_text_annotated(b"ab\n$GPGGA", &anns),
        "ab\n[17:42:03]$GPGGA"
    );
}

#[test]
fn rendered_splices_timestamp_after_the_match() {
    let v = view(DisplayMode::Rendered, CharacterRendering::Native);
    let anns = [ann(2, AnnotationPlacement::After, "<T>")];
    assert_eq!(v.render_text_annotated(b"abbc", &anns), "abb<T>c");
}

#[test]
fn raw_splices_annotation_as_its_own_cell() {
    let v = view(DisplayMode::Raw, CharacterRendering::HexEscape);
    let anns = [ann(1, AnnotationPlacement::Before, "[T]")];
    assert_eq!(v.render_text_annotated(b"A\nB", &anns), "A[T]<0A>B");
}

#[test]
fn raw_annotation_cell_is_kept_intact_when_wrapping() {
    let mut v = view(DisplayMode::Raw, CharacterRendering::Native);
    v.wrapping = WrappingMode::Wrap;
    v.wrap_width = Some(3);
    let anns = [ann(2, AnnotationPlacement::Before, "[TS]")];
    assert_eq!(v.render_text_annotated(b"ABCDE", &anns), "AB\n[TS]\nCDE");
}

#[test]
fn hex_splices_annotation_as_its_own_cell() {
    let v = view(DisplayMode::Hex, CharacterRendering::Native);
    let anns = [ann(1, AnnotationPlacement::Before, "[T]")];
    assert_eq!(v.render_text_annotated(b"ABC", &anns), "41 [T] 42 43");
}

#[test]
fn hex_wrap_counts_annotation_as_a_cell() {
    let mut v = view(DisplayMode::Hex, CharacterRendering::Native);
    v.wrapping = WrappingMode::Wrap;
    v.hex_bytes_per_line = 2;
    let anns = [ann(1, AnnotationPlacement::Before, "[T]")];
    assert_eq!(v.render_text_annotated(b"ABC", &anns), "41 [T]\n42 43");
}

#[test]
fn multiline_annotation_resets_raw_wrap_state() {
    let mut v = view(DisplayMode::Raw, CharacterRendering::Native);
    v.wrapping = WrappingMode::Wrap;
    v.wrap_width = Some(4);
    let anns = [ann(1, AnnotationPlacement::After, "X\n")];
    assert_eq!(v.render_text_annotated(b"ABCD", &anns), "ABX\nCD");
}

#[test]
fn multiline_annotation_resets_rendered_tab_column() {
    let v = view(DisplayMode::Rendered, CharacterRendering::Native);
    let anns = [ann(0, AnnotationPlacement::After, "<T>\n")];
    assert_eq!(v.render_text_annotated(b"a\tX", &anns), "a<T>\n        X");
}


#[test]
fn stream_renderer_is_chunking_invariant() {
    let data = "a\tb€é\r\nx\x07y $GPGGA,1*77\r\n".as_bytes();
    for (mode, chars) in [
        (DisplayMode::Rendered, CharacterRendering::Native),
        (DisplayMode::Raw, CharacterRendering::HexEscape),
        (DisplayMode::Raw, CharacterRendering::Token),
        (DisplayMode::Hex, CharacterRendering::Native),
    ] {
        let v = view(mode, chars);
        let whole = {
            let mut r = StreamRenderer::new(v.clone());
            let mut out = r.render_chunk(data, &[]);
            out.push_str(&r.finish());
            out
        };
        let byte_at_a_time = {
            let mut r = StreamRenderer::new(v);
            let mut out = String::new();
            for b in data {
                out.push_str(&r.render_chunk(std::slice::from_ref(b), &[]));
            }
            out.push_str(&r.finish());
            out
        };
        assert_eq!(
            byte_at_a_time, whole,
            "chunking changed {mode:?}/{chars:?} output"
        );
    }
}

#[test]
fn stream_renderer_rejoins_a_split_utf8_character() {
    let v = view(DisplayMode::Rendered, CharacterRendering::Native);
    let mut r = StreamRenderer::new(v);
    let bytes = "é".as_bytes();
    let first = r.render_chunk(&bytes[..1], &[]);
    assert!(first.is_empty(), "the lead byte is carried, not replaced");
    let second = r.render_chunk(&bytes[1..], &[]);
    assert_eq!(second, "é");
    assert!(r.finish().is_empty());
}

#[test]
fn finishing_leaves_the_pen_where_the_text_ends() {
    let mut hex = StreamRenderer::new(view(DisplayMode::Hex, CharacterRendering::Native));
    assert_eq!(hex.render_chunk(b"A", &[]), "41");
    assert_eq!(hex.finish(), "");
    assert_eq!(hex.render_chunk(b"B", &[]), " 42");
    let mut text = StreamRenderer::new(view(DisplayMode::Rendered, CharacterRendering::Native));
    assert_eq!(text.render_chunk(&[b'a', 0xC3], &[]), "a");
    assert_eq!(text.finish(), "\u{FFFD}");
    assert_eq!(text.render_chunk(b"\tb", &[]), "      b");
}

#[test]
fn stream_renderer_finish_renders_a_truncated_tail_lossily() {
    let v = view(DisplayMode::Rendered, CharacterRendering::Native);
    let mut r = StreamRenderer::new(v);
    assert!(r.render_chunk(&[b'a', 0xC3], &[]).ends_with('a'));
    assert_eq!(r.finish(), "\u{FFFD}");
}

#[test]
fn stream_renderer_hex_separates_across_chunks_and_tabs_keep_columns() {
    let v = view(DisplayMode::Hex, CharacterRendering::Native);
    let mut r = StreamRenderer::new(v);
    let mut out = r.render_chunk(b"AB", &[]);
    out.push_str(&r.render_chunk(b"CD", &[]));
    assert_eq!(out, "41 42 43 44");

    let v = view(DisplayMode::Rendered, CharacterRendering::Native);
    let mut r = StreamRenderer::new(v);
    let mut out = r.render_chunk(b"ab", &[]);
    out.push_str(&r.render_chunk(b"\tX", &[]));
    assert_eq!(out, "ab      X");
}

#[test]
fn multiline_annotation_resets_hex_continuation_across_chunks() {
    let v = view(DisplayMode::Hex, CharacterRendering::Native);
    let mut r = StreamRenderer::new(v);
    let anns = [ann(0, AnnotationPlacement::After, "<T>\r\n")];
    let mut out = r.render_chunk(b"A", &anns);
    out.push_str(&r.render_chunk(b"B", &[]));
    assert_eq!(out, "41 <T>\r\n42");
}

#[test]
fn stream_renderer_defers_an_annotation_for_a_carried_byte() {
    let v = view(DisplayMode::Rendered, CharacterRendering::Native);
    let mut r = StreamRenderer::new(v);
    let bytes = "xé".as_bytes();
    let anns = [ann(1, AnnotationPlacement::Before, "[T]")];
    let first = r.render_chunk(&bytes[..2], &anns);
    assert_eq!(first, "x", "the annotated byte is still in the carry");
    let second = r.render_chunk(&bytes[2..], &[]);
    assert_eq!(second, "[T]é", "the deferred mark splices before its byte");
}

#[test]
fn unsorted_annotations_all_splice() {
    let v = view(DisplayMode::Rendered, CharacterRendering::Native);
    let anns = [
        ann(5, AnnotationPlacement::Before, "[B]"),
        ann(2, AnnotationPlacement::Before, "[A]"),
    ];
    assert_eq!(
        v.render_text_annotated(b"xxAxxBxx", &anns),
        "xx[A]Axx[B]Bxx"
    );
    let v = view(DisplayMode::Hex, CharacterRendering::Native);
    assert_eq!(
        v.render_text_annotated(
            b"abc",
            &[
                ann(2, AnnotationPlacement::Before, "[2]"),
                ann(0, AnnotationPlacement::Before, "[0]"),
            ]
        ),
        "[0] 61 62 [2] 63"
    );
}

#[test]
fn annotation_at_end_offset_is_a_trailing_mark() {
    let v = view(DisplayMode::Rendered, CharacterRendering::Native);
    let anns = [ann(2, AnnotationPlacement::Before, "<end>")];
    assert_eq!(v.render_text_annotated(b"ab", &anns), "ab<end>");
}

#[test]
fn annotation_maps_onto_multibyte_utf8_boundary() {
    let v = view(DisplayMode::Rendered, CharacterRendering::Native);
    let anns = [ann(3, AnnotationPlacement::Before, "|")];
    assert_eq!(v.render_text_annotated("aéb".as_bytes(), &anns), "aé|b");
}


#[test]
fn utf8_replaces_each_byte_of_a_broken_sequence() {
    assert_eq!(
        decode(&[0xE2, 0x82, 0x41], DisplayEncoding::Utf8),
        ['\u{FFFD}', '\u{FFFD}', 'A']
    );
    assert_eq!(
        decode_with_offsets(&[0xFF, 0xC3, 0xA9], DisplayEncoding::Utf8),
        [('\u{FFFD}', 0), ('é', 1)]
    );
}

#[test]
fn utf16_lone_surrogates_become_replacements() {
    assert_eq!(
        decode(&[0x3D, 0xD8, 0x41, 0x00], DisplayEncoding::Utf16Le),
        ['\u{FFFD}', 'A']
    );
    assert_eq!(
        decode(&[0xDE, 0x00], DisplayEncoding::Utf16Be),
        ['\u{FFFD}']
    );
}

#[test]
fn well_formed_text_loses_nothing() {
    let text = "aé€😀";
    let bytes = text.as_bytes();
    assert_eq!(text_of(bytes, 0, bytes.len()), text);
    assert_eq!(text_of(bytes, 1, 3), "é");
}

#[test]
fn rows_split_at_line_ends_and_at_the_width() {
    assert_eq!(split_stream_rows("ab\n\ncd", 80), ["ab", "", "cd"]);
    assert_eq!(split_stream_rows("0123456789", 8), ["01234567", "89"]);
    assert_eq!(split_stream_rows("0123456789", 1), ["01234567", "89"]);
    assert_eq!(split_stream_rows("", 8), [""]);
}

#[test]
fn wrapping_joins_the_rows_of_each_line() {
    assert_eq!(wrap_lines("abcdef\ng".to_string(), Some(4)), "abcd\nef\ng");
    assert_eq!(wrap_lines("abcdef".to_string(), None), "abcdef");
    assert_eq!(wrap_lines("abcdef".to_string(), Some(0)), "abcdef");
}

#[test]
fn chunks_of_every_size_render_like_the_whole() {
    let data = "x€\ty\r\n\u{7}z😀".as_bytes();
    for mode in [DisplayMode::Rendered, DisplayMode::Raw, DisplayMode::Hex] {
        let v = view(mode, CharacterRendering::Glyph);
        let whole = v.render_text(data);
        for size in 1..=data.len() {
            let mut r = StreamRenderer::new(v.clone());
            let mut out = String::new();
            for chunk in data.chunks(size) {
                out.push_str(&r.render_chunk(chunk, &[]));
            }
            out.push_str(&r.finish());
            assert_eq!(out, whole, "{mode:?} in chunks of {size}");
        }
    }
}

#[test]
fn two_marks_on_one_byte_keep_their_order() {
    let v = view(DisplayMode::Rendered, CharacterRendering::Native);
    let anns = [
        ann(1, AnnotationPlacement::Before, "1"),
        ann(1, AnnotationPlacement::After, "3"),
        ann(1, AnnotationPlacement::Before, "2"),
    ];
    assert_eq!(v.render_text_annotated(b"ab", &anns), "a12b3");
}

#[test]
fn rendered_output_carries_its_channel() {
    let id = ChannelId::new();
    let out = RenderedOutput {
        channel_id: id,
        text: "x".to_string(),
        timestamp: None,
    };
    assert_eq!(out.channel_id, id);
    assert_eq!(out.clone(), out);
}
