//! The rows of the stream viewer, kept up to date as bytes arrive.
//!
//! Only new bytes are rendered, through a renderer that carries its state, and appended
//! as rows. Rows whose bytes have left the window are dropped from the front. The rows
//! are built anew only when a setting changes, when a mark appears or disappears among
//! bytes already rendered, or when the stream jumps.

use std::collections::VecDeque;

use vstd::prelude::*;
use vstd::string::*;

use crate::display::render::{
    lemma_marks_push, marks_of, AnnotationPlacement, DisplayView, Mark, RenderAnnotation,
};
use crate::display::rows::{
    law_last_row_is_open, law_rows_append, row_width, split_stream_rows, strings_view, text_rows,
};
use crate::display::seam::law_incomplete_bounds;
use crate::display::stream::{
    chunk_items, chunk_next, chunk_text, joined_marks, law_chunks_join, no_marks, stream_start, valid_marks,
    Marks, StreamRenderer, StreamState,
};
use crate::display::{CharacterRendering, DisplayMode};
use crate::gui::marks::{pins, Pin, StreamMark};
use crate::model::ids::ChannelId;

verus! {

/// The most batches that rows are accounted in.
pub const MAX_ROW_BATCHES: usize = 512;

/// The smallest number of bytes that a batch grows to.
pub const MIN_BATCH_QUANTUM: u64 = 256;

/// How many bytes a batch grows to before its end is fixed.
pub open spec fn quantum_of(window_len: usize) -> u64 {
    if window_len / 128 < 256 {
        256
    } else {
        (window_len / 128) as u64
    }
}

/// How many bytes a batch grows to before its end is fixed: the rows lag behind the
/// window by that much at most.
pub fn row_batch_quantum(window_len: usize) -> (r: u64)
    ensures
        r == quantum_of(window_len),
        r >= MIN_BATCH_QUANTUM,
{
    let part: u64 = (window_len / 128) as u64;
    if part < 256 {
        256
    } else {
        part
    }
}

/// The marks pinned at `offset`, in order.
pub open spec fn pins_at(p: Seq<Pin>, offset: int) -> Seq<Mark>
    decreases p.len(),
{
    if p.len() == 0 {
        Seq::empty()
    } else {
        let front = pins_at(p.drop_last(), offset);
        if p.last().offset == offset {
            front.push(
                Mark {
                    placement: if p.last().before {
                        AnnotationPlacement::Before
                    } else {
                        AnnotationPlacement::After
                    },
                    text: p.last().text,
                },
            )
        } else {
            front
        }
    }
}

/// The marks pinned to the `len` bytes from `start` on, counted from `start`. A mark at
/// the end belongs to the bytes that follow.
pub open spec fn span_marks(p: Seq<Pin>, start: int, len: int) -> Marks {
    |offset: int|
        if 0 <= offset < len {
            pins_at(p, start + offset)
        } else {
            Seq::empty()
        }
}

/// The annotations of the marks pinned to the `delta_len` bytes from `delta_start` on.
pub fn delta_annotations(marks: &Vec<StreamMark>, delta_start: u64, delta_len: usize) -> (r: Vec<
    RenderAnnotation,
>)
    ensures
        marks_of(r@) == span_marks(pins(marks@), delta_start as int, delta_len as int),
        forall|i: int| 0 <= i < r@.len() ==> (#[trigger] r@[i]).offset < delta_len,
{
    let mut out: Vec<RenderAnnotation> = Vec::new();
    let mut i: usize = 0;
    let ghost p = pins(marks@);
    assert(p.take(0) =~= Seq::empty());
    assert(marks_of(out@) =~= span_marks(p.take(0), delta_start as int, delta_len as int));
    while i < marks.len()
        invariant
            i <= marks.len(),
            p == pins(marks@),
            marks_of(out@) == span_marks(p.take(i as int), delta_start as int, delta_len as int),
            forall|k: int| 0 <= k < out@.len() ==> (#[trigger] out@[k]).offset < delta_len,
        decreases marks.len() - i,
    {
        let ghost was = out@;
        let ghost pin = p[i as int];
        assert(pin == marks@[i as int]@);
        assert(p.take(i + 1).drop_last() =~= p.take(i as int));
        if marks[i].offset >= delta_start && marks[i].offset - delta_start < delta_len as u64 {
            let within: usize = (marks[i].offset - delta_start) as usize;
            let a = RenderAnnotation {
                offset: within,
                placement: if marks[i].before {
                    AnnotationPlacement::Before
                } else {
                    AnnotationPlacement::After
                },
                text: marks[i].text.clone(),
            };
            out.push(a);
            proof {
                assert forall|o: int| #[trigger] marks_of(out@)(o) == span_marks(
                    p.take(i + 1),
                    delta_start as int,
                    delta_len as int,
                )(o) by {
                    lemma_marks_push(was, a, o);
                    assert(marks_of(was)(o) == span_marks(
                        p.take(i as int),
                        delta_start as int,
                        delta_len as int,
                    )(o));
                }
            }
        } else {
            proof {
                assert forall|o: int| #[trigger] marks_of(out@)(o) == span_marks(
                    p.take(i + 1),
                    delta_start as int,
                    delta_len as int,
                )(o) by {
                    assert(marks_of(was)(o) == span_marks(
                        p.take(i as int),
                        delta_start as int,
                        delta_len as int,
                    )(o));
                }
            }
        }
        i = i + 1;
        assert(marks_of(out@) =~= span_marks(
            p.take(i as int),
            delta_start as int,
            delta_len as int,
        ));
    }
    assert(p.take(i as int) =~= p);
    out
}

/// What a mark shows, and where.
pub ghost struct Trace {
    pub offset: u64,
    pub before: bool,
    pub text: Seq<char>,
}

/// What the marks before `below` show, in a sorted list.
pub open spec fn history(p: Seq<Pin>, below: u64) -> Seq<Trace>
    decreases p.len(),
{
    if p.len() == 0 || p[0].offset >= below {
        Seq::empty()
    } else {
        seq![Trace { offset: p[0].offset, before: p[0].before, text: p[0].text }] + history(
            p.skip(1),
            below,
        )
    }
}

/// What marks show, as far as it is needed to tell two lists apart.
#[derive(Debug, PartialEq, Eq)]
pub struct MarkSignature {
    entries: Vec<(u64, bool, String)>,
}

impl View for MarkSignature {
    type V = Seq<Trace>;

    closed spec fn view(&self) -> Seq<Trace> {
        self.entries@.map_values(
            |e: (u64, bool, String)| Trace { offset: e.0, before: e.1, text: e.2@ },
        )
    }
}

impl MarkSignature {
    /// Whether both say the same.
    pub fn same(&self, other: &MarkSignature) -> (r: bool)
        ensures
            r == (self@ == other@),
    {
        if self.entries.len() != other.entries.len() {
            assert(self@.len() != other@.len());
            return false;
        }
        let mut i: usize = 0;
        while i < self.entries.len()
            invariant
                i <= self.entries.len(),
                self.entries.len() == other.entries.len(),
                forall|j: int| 0 <= j < i ==> #[trigger] self@[j] == other@[j],
            decreases self.entries.len() - i,
        {
            assert(self@[i as int].text == self.entries@[i as int].2@);
            assert(other@[i as int].text == other.entries@[i as int].2@);
            let a = &self.entries[i];
            let b = &other.entries[i];
            if a.0 != b.0 || a.1 != b.1 || a.2 != b.2 {
                assert(self@[i as int] != other@[i as int]);
                return false;
            }
            i = i + 1;
        }
        assert(self@ =~= other@);
        true
    }
}

/// The signature of the marks before `below`: those that are rendered already.
pub fn marks_signature_below(marks: &Vec<StreamMark>, below: u64) -> (r: MarkSignature)
    ensures
        r@ == history(pins(marks@), below),
{
    let mut entries: Vec<(u64, bool, String)> = Vec::new();
    let mut i: usize = 0;
    let ghost p = pins(marks@);
    let ghost as_trace = |e: (u64, bool, String)| Trace { offset: e.0, before: e.1, text: e.2@ };
    assert(p.skip(0) =~= p);
    assert(entries@.map_values(as_trace) + history(p, below) =~= history(p, below));
    while i < marks.len() && marks[i].offset < below
        invariant
            i <= marks.len(),
            p == pins(marks@),
            as_trace == (|e: (u64, bool, String)|
                Trace { offset: e.0, before: e.1, text: e.2@ }),
            entries@.map_values(as_trace) + history(p.skip(i as int), below) == history(p, below),
        decreases marks.len() - i,
    {
        let ghost was = entries@;
        let ghost rest = p.skip(i as int);
        assert(rest[0] == marks@[i as int]@);
        assert(rest.skip(1) =~= p.skip(i + 1));
        entries.push((marks[i].offset, marks[i].before, marks[i].text.clone()));
        i = i + 1;
        proof {
            let head = Trace {
                offset: rest[0].offset,
                before: rest[0].before,
                text: rest[0].text,
            };
            assert(entries@.map_values(as_trace) =~= was.map_values(as_trace).push(head));
            assert(entries@.map_values(as_trace) + history(p.skip(i as int), below)
                =~= was.map_values(as_trace) + history(rest, below));
        }
    }
    proof {
        if i < marks.len() {
            assert(p.skip(i as int)[0] == marks@[i as int]@);
        }
        assert(entries@.map_values(as_trace) + history(p.skip(i as int), below)
            =~= entries@.map_values(as_trace));
    }
    MarkSignature { entries }
}

/// What the rows are refreshed from.
pub struct StreamRefresh<'a> {
    pub channel: ChannelId,
    /// The bytes in view.
    pub window: &'a [u8],
    /// The offset of the first of them.
    pub window_start: u64,
    /// The offset behind the last of them.
    pub cursor: u64,
    /// The marks pinned to them, in the order of their offsets.
    pub marks: &'a Vec<StreamMark>,
    /// How many times the list of marks has changed.
    pub marks_version: u64,
    pub view: &'a DisplayView,
    pub wrap_cols: usize,
}

impl<'a> StreamRefresh<'a> {
    /// The window reaches from its start to the cursor.
    pub open spec fn wf(self) -> bool {
        &&& self.window_start + self.window@.len() == self.cursor
        &&& self.window@.len() + 3 <= usize::MAX
    }

    /// The width of the rows.
    pub open spec fn width(self) -> int {
        row_width(self.wrap_cols)
    }
}

/// A batch of rows: the offset behind the bytes that they show, and their number.
pub open spec fn owned(batches: Seq<(u64, usize)>) -> int
    decreases batches.len(),
{
    if batches.len() == 0 {
        0
    } else {
        owned(batches.drop_last()) + batches.last().1
    }
}

/// How many bytes batch `i` covers.
pub open spec fn span(batches: Seq<(u64, usize)>, i: int) -> int {
    batches[i].0 - batches[i - 1].0
}

/// The ends of the batches grow, and all but the first and the last cover at least the
/// smallest quantum.
pub open spec fn batches_ok(batches: Seq<(u64, usize)>) -> bool {
    &&& 1 <= batches.len() <= MAX_ROW_BATCHES
    &&& batches_grow(batches)
}

/// See `batches_ok`.
#[verifier::opaque]
pub open spec fn batches_grow(batches: Seq<(u64, usize)>) -> bool {
    &&& batches.len() >= 1
    &&& batches.last().1 >= 1
    &&& forall|i: int, j: int|
        0 <= i <= j < batches.len() ==> (#[trigger] batches[i]).0 <= (#[trigger] batches[j]).0
    &&& forall|i: int|
        1 <= i < batches.len() - 1 ==> #[trigger] span(batches, i) >= MIN_BATCH_QUANTUM
}

/// The batches without those at the front whose bytes have left the window. The last one
/// stays in any case.
pub open spec fn trimmed_batches(batches: Seq<(u64, usize)>, window_start: u64) -> Seq<(u64, usize)>
    decreases batches.len(),
{
    if batches.len() > 1 && window_start >= batches[0].0 {
        trimmed_batches(batches.skip(1), window_start)
    } else {
        batches
    }
}

/// The batches after the open row and new text made `added` rows: the last batch takes
/// them until it covers the quantum, and a new one does from then on. More batches than
/// there may be are merged at the front.
pub open spec fn batches_after(
    batches: Seq<(u64, usize)>,
    added: usize,
    end: u64,
    quantum: u64,
) -> Seq<(u64, usize)> {
    let n = batches.len() as int;
    let last = batches.last();
    let kept = (last.1 - 1) as usize;
    let grown = if n >= 2 && span(batches, n - 1) < quantum {
        batches.drop_last().push((end, (kept + added) as usize))
    } else {
        batches.drop_last().push((last.0, kept)).push((end, added))
    };
    if grown.len() > MAX_ROW_BATCHES {
        seq![(grown[1].0, (grown[0].1 + grown[1].1) as usize)] + grown.skip(2)
    } else {
        grown
    }
}

/// The rows of the viewer.
pub struct StreamRenderCache {
    pub channel: ChannelId,
    pub mode: DisplayMode,
    pub chars: CharacterRendering,
    pub wrap_cols: usize,
    /// What the marks among rendered bytes show.
    pub history_marks: MarkSignature,
    pub marks_version: u64,
    /// The offset behind the last rendered byte.
    pub rendered_cursor: u64,
    pub renderer: StreamRenderer,
    pub rows: Vec<String>,
    pub row_batches: VecDeque<(u64, usize)>,
}

/// What the rows and what comes next depend on.
pub ghost struct RowsModel {
    pub channel: ChannelId,
    pub mode: DisplayMode,
    pub chars: CharacterRendering,
    pub wrap_cols: usize,
    pub history: Seq<Trace>,
    pub marks_version: u64,
    pub cursor: u64,
    pub settings: DisplayView,
    pub state: StreamState,
    pub rows: Seq<Seq<char>>,
}

impl View for StreamRenderCache {
    type V = RowsModel;

    open spec fn view(&self) -> RowsModel {
        RowsModel {
            channel: self.channel,
            mode: self.mode,
            chars: self.chars,
            wrap_cols: self.wrap_cols,
            history: self.history_marks@,
            marks_version: self.marks_version,
            cursor: self.rendered_cursor,
            settings: self.renderer.settings(),
            state: self.renderer.state(),
            rows: strings_view(self.rows@),
        }
    }
}

/// The rows of a text behind an open row.
pub open spec fn rows_after(rows: Seq<Seq<char>>, text: Seq<char>, width: int) -> Seq<Seq<char>> {
    rows.drop_last() + text_rows(rows.last() + text, width)
}

/// The rows of a window rendered as a whole.
pub open spec fn built(p: StreamRefresh) -> RowsModel {
    let marks = span_marks(pins(p.marks@), p.window_start as int, p.window@.len() as int);
    RowsModel {
        channel: p.channel,
        mode: p.view.mode,
        chars: p.view.character_rendering,
        wrap_cols: p.wrap_cols,
        history: history(pins(p.marks@), p.cursor),
        marks_version: p.marks_version,
        cursor: p.cursor,
        settings: *p.view,
        state: chunk_next(*p.view, stream_start(), p.window@, marks),
        rows: text_rows(chunk_text(*p.view, stream_start(), p.window@, marks), p.width()),
    }
}

/// Whether the rows cannot be continued.
pub open spec fn outdated(c: RowsModel, p: StreamRefresh) -> bool {
    ||| c.channel != p.channel
    ||| c.mode != p.view.mode
    ||| c.chars != p.view.character_rendering
    ||| c.wrap_cols != p.wrap_cols
    ||| p.cursor < c.cursor
    ||| p.window_start > c.cursor
    ||| (c.marks_version != p.marks_version && history(pins(p.marks@), c.cursor) != c.history)
}

/// The rows with those of new bytes behind them.
pub open spec fn continued(c: RowsModel, p: StreamRefresh) -> RowsModel {
    let delta = p.window@.skip(c.cursor - p.window_start);
    let marks = span_marks(pins(p.marks@), c.cursor as int, delta.len() as int);
    RowsModel {
        marks_version: p.marks_version,
        history: history(pins(p.marks@), p.cursor),
        cursor: p.cursor,
        state: chunk_next(c.settings, c.state, delta, marks),
        rows: rows_after(
            c.rows,
            chunk_text(c.settings, c.state, delta, marks),
            row_width(c.wrap_cols),
        ),
        ..c
    }
}

proof fn lemma_owned_push(batches: Seq<(u64, usize)>, b: (u64, usize))
    ensures
        owned(batches.push(b)) == owned(batches) + b.1,
{
    assert(batches.push(b).drop_last() =~= batches);
}

proof fn lemma_owned_front(batches: Seq<(u64, usize)>)
    requires
        batches.len() > 0,
    ensures
        owned(batches) == batches[0].1 + owned(batches.skip(1)),
        owned(batches.skip(1)) >= 0,
    decreases batches.len(),
{
    if batches.len() == 1 {
        assert(batches.drop_last() =~= Seq::empty());
        assert(batches.skip(1) =~= Seq::empty());
    } else {
        lemma_owned_front(batches.drop_last());
        assert(batches.drop_last().skip(1) =~= batches.skip(1).drop_last());
        assert(batches.skip(1).last() == batches.last());
    }
}

/// The last batch grows.
proof fn lemma_batch_grows(batches: Seq<(u64, usize)>, last: (u64, usize))
    requires
        batches_grow(batches),
        last.0 >= batches.last().0,
        last.1 >= 1,
    ensures
        batches_grow(batches.drop_last().push(last)),
        owned(batches.drop_last().push(last)) == owned(batches) - batches.last().1 + last.1,
{
    reveal(batches_grow);
    let next = batches.drop_last().push(last);
    lemma_owned_push(batches.drop_last(), last);
    let n = batches.len() - 1;
    assert forall|i: int, j: int| 0 <= i <= j < next.len() implies (#[trigger] next[i]).0 <= (
    #[trigger] next[j]).0 by {
        if j < n {
            assert(next[i] == batches[i] && next[j] == batches[j]);
        } else if i < n {
            assert(next[i] == batches[i]);
            assert(batches[i].0 <= batches[n].0);
        }
    }
    assert forall|i: int| 1 <= i < next.len() - 1 implies #[trigger] span(next, i)
        >= MIN_BATCH_QUANTUM by {
        assert(span(next, i) == span(batches, i));
    }
}

/// A batch is added behind one that is full, or behind the only one.
proof fn lemma_batch_added(batches: Seq<(u64, usize)>, count: usize, last: (u64, usize))
    requires
        batches_grow(batches),
        last.0 >= batches.last().0,
        last.1 >= 1,
        batches.len() >= 2 ==> span(batches, batches.len() - 1) >= MIN_BATCH_QUANTUM,
    ensures
        batches_grow(batches.drop_last().push((batches.last().0, count)).push(last)),
        owned(batches.drop_last().push((batches.last().0, count)).push(last)) == owned(batches)
            - batches.last().1 + count + last.1,
{
    reveal(batches_grow);
    let mid = batches.drop_last().push((batches.last().0, count));
    let next = mid.push(last);
    lemma_owned_push(batches.drop_last(), (batches.last().0, count));
    lemma_owned_push(mid, last);
    let n = batches.len() as int;
    assert forall|i: int| 0 <= i < n implies (#[trigger] next[i]).0 == batches[i].0 by {}
    assert forall|i: int, j: int| 0 <= i <= j < next.len() implies (#[trigger] next[i]).0 <= (
    #[trigger] next[j]).0 by {
        if j < n {
            assert(batches[i].0 <= batches[j].0);
        } else if i < n {
            assert(batches[i].0 <= batches[n - 1].0);
        }
    }
    assert forall|i: int| 1 <= i < next.len() - 1 implies #[trigger] span(next, i)
        >= MIN_BATCH_QUANTUM by {
        assert(span(next, i) == span(batches, i));
    }
}

/// The first batch is dropped, or becomes part of the second.
proof fn lemma_batch_dropped(batches: Seq<(u64, usize)>, count: usize)
    requires
        batches_grow(batches),
        batches.len() >= 2,
        count >= batches[1].1,
    ensures
        ({
            let rest = batches.skip(2);
            let next = seq![(batches[1].0, count)] + rest;
            &&& batches_grow(next)
            &&& owned(next) == owned(batches) - batches[0].1 - batches[1].1 + count
            &&& next.last().0 == batches.last().0
        }),
{
    reveal(batches_grow);
    let next = seq![(batches[1].0, count)] + batches.skip(2);
    assert forall|i: int| 0 <= i < next.len() implies (#[trigger] next[i]).0 == batches[i + 1].0 by {}
    assert forall|i: int, j: int| 0 <= i <= j < next.len() implies (#[trigger] next[i]).0 <= (
    #[trigger] next[j]).0 by {
        assert(batches[i + 1].0 <= batches[j + 1].0);
    }
    assert forall|i: int| 1 <= i < next.len() - 1 implies #[trigger] span(next, i)
        >= MIN_BATCH_QUANTUM by {
        assert(span(next, i) == span(batches, i + 1));
    }
    lemma_owned_front(batches);
    lemma_owned_front(batches.skip(1));
    lemma_owned_front(next);
    assert(next.skip(1) =~= batches.skip(2));
    assert(batches.skip(1).skip(1) =~= batches.skip(2));
}

impl StreamRenderCache {
    /// Every row belongs to one batch.
    pub open spec fn wf(self) -> bool {
        &&& self.renderer.wf()
        &&& batches_ok(self.row_batches@)
        &&& owned(self.row_batches@) == self.rows@.len()
        &&& self.row_batches@.last().0 == self.rendered_cursor
    }

    /// Appends newly rendered text: the open last row is cut anew together with it.
    fn append_text(&mut self, text: &str, end_offset: u64, quantum: u64)
        requires
            old(self).wf(),
            end_offset >= old(self).rendered_cursor,
            quantum >= MIN_BATCH_QUANTUM,
        ensures
            final(self).channel == old(self).channel,
            final(self).mode == old(self).mode,
            final(self).chars == old(self).chars,
            final(self).wrap_cols == old(self).wrap_cols,
            final(self).history_marks == old(self).history_marks,
            final(self).marks_version == old(self).marks_version,
            final(self).rendered_cursor == end_offset,
            final(self).renderer == old(self).renderer,
            final(self).wf(),
            strings_view(final(self).rows@) == rows_after(
                strings_view(old(self).rows@),
                text@,
                row_width(old(self).wrap_cols),
            ),
            final(self).row_batches@ == batches_after(
                old(self).row_batches@,
                (final(self).rows@.len() - (old(self).rows@.len() - 1)) as usize,
                end_offset,
                quantum,
            ),
    {
        let ghost w = row_width(self.wrap_cols);
        let ghost before = strings_view(self.rows@);
        let ghost batches = self.row_batches@;
        proof {
            reveal(batches_grow);
            lemma_owned_positive(batches);
        }
        let mut combined: String = self.rows.pop().unwrap();
        assert(strings_view(self.rows@) =~= before.drop_last());
        combined.append(text);
        let kept: usize = self.rows.len();
        let mut more: Vec<String> = split_stream_rows(combined.as_str(), self.wrap_cols);
        let added: usize = more.len();
        proof {
            law_last_row_is_open(before.last() + text@, w);
            assert(strings_view(more@).len() == added);
        }
        let ghost fresh = more@;
        let ghost rows0 = self.rows@;
        self.rows.append(&mut more);
        assert(strings_view(self.rows@) =~= before.drop_last() + strings_view(fresh));
        let (end, owns) = self.row_batches.pop_back().unwrap();
        let count: usize = owns - 1;
        let ghost front = self.row_batches@;
        assert(front =~= batches.drop_last());
        assert(owned(batches) == owned(front) + owns);
        assert(count <= kept);
        assert(kept + added == self.rows.len());
        let n: usize = self.row_batches.len();
        let grows: bool = if n == 0 {
            false
        } else {
            let prev_end: u64 = self.row_batches[n - 1].0;
            proof {
                reveal(batches_grow);
                assert(batches[n - 1].0 <= batches[n as int].0);
            }
            end - prev_end < quantum
        };
        if grows {
            proof {
                lemma_batch_grows(batches, (end_offset, (count + added) as usize));
            }
            self.row_batches.push_back((end_offset, count + added));
            assert(self.row_batches@ =~= front.push((end_offset, (count + added) as usize)));
        } else {
            proof {
                lemma_batch_added(batches, count, (end_offset, added));
            }
            self.row_batches.push_back((end, count));
            self.row_batches.push_back((end_offset, added));
            assert(self.row_batches@ =~= front.push((end, count)).push((end_offset, added)));
        }
        self.rendered_cursor = end_offset;
        if self.row_batches.len() > MAX_ROW_BATCHES {
            let ghost full = self.row_batches@;
            let (_, n1) = self.row_batches.pop_front().unwrap();
            let (e2, n2) = self.row_batches.pop_front().unwrap();
            proof {
                lemma_owned_front(full);
                lemma_owned_front(full.skip(1));
                assert(full.skip(1).skip(1) =~= full.skip(2));
                assert(n1 + n2 <= owned(full));
                lemma_batch_dropped(full, (n1 + n2) as usize);
            }
            self.row_batches.push_front((e2, n1 + n2));
            assert(self.row_batches@ =~= seq![(e2, (n1 + n2) as usize)] + full.skip(2));
        }
        assert(self.row_batches@ =~= batches_after(batches, added, end_offset, quantum));
    }

    /// Drops the rows of front batches whose bytes have left the window.
    fn trim_evicted(&mut self, window_start: u64)
        requires
            old(self).wf(),
        ensures
            final(self).channel == old(self).channel,
            final(self).mode == old(self).mode,
            final(self).chars == old(self).chars,
            final(self).wrap_cols == old(self).wrap_cols,
            final(self).history_marks == old(self).history_marks,
            final(self).marks_version == old(self).marks_version,
            final(self).rendered_cursor == old(self).rendered_cursor,
            final(self).renderer == old(self).renderer,
            final(self).wf(),
            final(self).row_batches@ == trimmed_batches(old(self).row_batches@, window_start),
            final(self).rows@.len() <= old(self).rows@.len(),
            final(self).rows@ == old(self).rows@.skip(
                old(self).rows@.len() - final(self).rows@.len(),
            ),
    {
        assert(self.rows@ =~= old(self).rows@.skip(0));
        while self.row_batches.len() > 1 && window_start >= self.row_batches[0].0
            invariant
                self.channel == old(self).channel,
                self.mode == old(self).mode,
                self.chars == old(self).chars,
                self.wrap_cols == old(self).wrap_cols,
                self.history_marks == old(self).history_marks,
                self.marks_version == old(self).marks_version,
                self.rendered_cursor == old(self).rendered_cursor,
                self.renderer == old(self).renderer,
                self.wf(),
                trimmed_batches(self.row_batches@, window_start) == trimmed_batches(
                    old(self).row_batches@,
                    window_start,
                ),
                self.rows@.len() <= old(self).rows@.len(),
                self.rows@ == old(self).rows@.skip(old(self).rows@.len() - self.rows@.len()),
            decreases self.row_batches@.len(),
        {
            let ghost full = self.row_batches@;
            proof {
                lemma_owned_front(full);
                lemma_batch_dropped(full, full[1].1);
                assert(full.skip(1) =~= seq![(full[1].0, full[1].1)] + full.skip(2));
            }
            let (_, n) = self.row_batches.pop_front().unwrap();
            assert(self.row_batches@ =~= full.skip(1));
            let ghost rows0 = self.rows@;
            let kept: Vec<String> = self.rows.split_off(n);
            self.rows = kept;
            proof {
                assert(self.rows@ =~= rows0.skip(n as int));
                assert(self.rows@ =~= old(self).rows@.skip(
                    old(self).rows@.len() - self.rows@.len(),
                ));
            }
        }
    }
}

proof fn lemma_owned_positive(batches: Seq<(u64, usize)>)
    requires
        batches.len() > 0,
        batches.last().1 >= 1,
    ensures
        owned(batches) >= 1,
        owned(batches.drop_last()) >= 0,
{
    lemma_owned_nonneg(batches.drop_last());
}

proof fn lemma_owned_nonneg(batches: Seq<(u64, usize)>)
    ensures
        owned(batches) >= 0,
    decreases batches.len(),
{
    if batches.len() > 0 {
        lemma_owned_nonneg(batches.drop_last());
    }
}

/// Renders the whole window.
pub fn rebuild_rows(p: &StreamRefresh) -> (r: StreamRenderCache)
    requires
        p.wf(),
    ensures
        r.wf(),
        r@ == built(*p),
        r.row_batches@ == seq![(p.cursor, built(*p).rows.len() as usize)],
{
    let annotations: Vec<RenderAnnotation> = delta_annotations(
        p.marks,
        p.window_start,
        p.window.len(),
    );
    let mut renderer: StreamRenderer = StreamRenderer::new(p.view.clone());
    let text: String = renderer.render_chunk(p.window, annotations.as_slice());
    let rows: Vec<String> = split_stream_rows(text.as_str(), p.wrap_cols);
    let count: usize = rows.len();
    proof {
        law_last_row_is_open(text@, p.width());
        assert(strings_view(rows@).len() == count);
    }
    let mut row_batches: VecDeque<(u64, usize)> = VecDeque::new();
    row_batches.push_back((p.cursor, count));
    assert(row_batches@ =~= seq![(p.cursor, count)]);
    proof {
        reveal(batches_grow);
        assert(row_batches@.drop_last() =~= Seq::empty());
        assert(owned(row_batches@.drop_last()) == 0);
    }
    StreamRenderCache {
        channel: p.channel,
        mode: p.view.mode,
        chars: p.view.character_rendering,
        wrap_cols: p.wrap_cols,
        history_marks: marks_signature_below(p.marks, p.cursor),
        marks_version: p.marks_version,
        rendered_cursor: p.cursor,
        renderer,
        rows,
        row_batches,
    }
}

/// Where the rows stand after a refresh.
pub open spec fn refreshed(before: Option<RowsModel>, p: StreamRefresh, after: RowsModel) -> bool {
    match before {
        None => after == built(p),
        Some(c) => if outdated(c, p) {
            after == built(p)
        } else if p.cursor == c.cursor {
            after == (RowsModel { marks_version: p.marks_version, ..c })
        } else {
            let whole = continued(c, p);
            &&& after.rows.len() <= whole.rows.len() <= usize::MAX
            &&& after == (RowsModel {
                rows: whole.rows.skip(whole.rows.len() - after.rows.len()),
                ..whole
            })
        },
    }
}

/// The batches after a refresh.
pub open spec fn refreshed_batches(before: Option<StreamRenderCache>, p: StreamRefresh) -> Seq<
    (u64, usize),
> {
    match before {
        None => seq![(p.cursor, built(p).rows.len() as usize)],
        Some(c) => if outdated(c@, p) {
            seq![(p.cursor, built(p).rows.len() as usize)]
        } else if p.cursor == c@.cursor {
            c.row_batches@
        } else {
            trimmed_batches(
                batches_after(
                    c.row_batches@,
                    (continued(c@, p).rows.len() - (c@.rows.len() - 1)) as usize,
                    p.cursor,
                    quantum_of(p.window@.len() as usize),
                ),
                p.window_start,
            )
        },
    }
}

/// What a cache says, if there is one.
pub open spec fn cache_model(cache: Option<StreamRenderCache>) -> Option<RowsModel> {
    match cache {
        Some(c) => Some(c@),
        None => None,
    }
}

/// Where a cache stands after a refresh.
pub open spec fn refreshed_cache(
    before: Option<StreamRenderCache>,
    p: StreamRefresh,
    after: StreamRenderCache,
) -> bool {
    &&& after.wf()
    &&& refreshed(cache_model(before), p, after@)
    &&& after.row_batches@ == refreshed_batches(before, p)
}

/// Brings the rows up to date: they are continued where only bytes are new, and built
/// anew where a setting, the marks among rendered bytes or the stream's base changed.
pub fn refresh_rows(cache: &mut Option<StreamRenderCache>, p: &StreamRefresh)
    requires
        p.wf(),
        *old(cache) matches Some(c) ==> c.wf(),
    ensures
        *final(cache) matches Some(c) && refreshed_cache(*old(cache), *p, c),
{
    let mut current: Option<StreamRenderCache> = None;
    core::mem::swap(&mut current, cache);
    match current {
        None => {
            *cache = Some(rebuild_rows(p));
        },
        Some(c) => {
            *cache = Some(refresh_cache(c, p));
        },
    }
}

fn refresh_cache(cache: StreamRenderCache, p: &StreamRefresh) -> (r: StreamRenderCache)
    requires
        p.wf(),
        cache.wf(),
    ensures
        refreshed_cache(Some(cache), *p, r),
{
    let mut c: StreamRenderCache = cache;
    let moved: bool = c.channel != p.channel || c.mode != p.view.mode || c.chars
        != p.view.character_rendering || c.wrap_cols != p.wrap_cols || p.cursor < c.rendered_cursor
        || p.window_start > c.rendered_cursor;
    let rewritten: bool = !moved && c.marks_version != p.marks_version && !marks_signature_below(
        p.marks,
        c.rendered_cursor,
    ).same(&c.history_marks);
    if moved || rewritten {
        return rebuild_rows(p);
    }
    assert(!outdated(cache@, *p));
    c.marks_version = p.marks_version;
    if p.cursor == c.rendered_cursor {
        return c;
    }
    let from: usize = (c.rendered_cursor - p.window_start) as usize;
    let delta: &[u8] = vstd::slice::slice_subrange(p.window, from, p.window.len());
    assert(delta@ =~= p.window@.skip(from as int));
    let annotations: Vec<RenderAnnotation> = delta_annotations(
        p.marks,
        c.rendered_cursor,
        delta.len(),
    );
    proof {
        c.renderer.law_carry_is_short();
    }
    let text: String = c.renderer.render_chunk(delta, annotations.as_slice());
    let ghost whole = continued(cache@, *p);
    c.append_text(text.as_str(), p.cursor, row_batch_quantum(p.window.len()));
    assert(c@.rows == whole.rows);
    assert(c.rows.len() == whole.rows.len());
    c.history_marks = marks_signature_below(p.marks, p.cursor);
    let ghost rows0 = c.rows@;
    c.trim_evicted(p.window_start);
    proof {
        let d = rows0.len() - c.rows@.len();
        assert(strings_view(c.rows@) =~= strings_view(rows0).skip(d as int));
    }
    c
}

/// Rows that are continued are those that the whole has: what arrives in two parts is
/// shown as it is shown at once.
pub proof fn law_continued_is_built(first: StreamRefresh, both: StreamRefresh)
    requires
        first.wf(),
        both.wf(),
        first.channel == both.channel,
        *first.view == *both.view,
        first.wrap_cols == both.wrap_cols,
        first.window_start == both.window_start,
        first.window@.len() <= both.window@.len(),
        first.window@ == both.window@.take(first.window@.len() as int),
        pins(first.marks@) == pins(both.marks@),
    ensures
        continued(built(first), both) == built(both),
{
    let p = pins(both.marks@);
    let view = *both.view;
    let w = both.width();
    let a = first.window@;
    let b = both.window@.skip(a.len() as int);
    let start = both.window_start as int;
    let ma = span_marks(p, start, a.len() as int);
    let mb = span_marks(p, start + a.len(), b.len() as int);
    let mab = span_marks(p, start, both.window@.len() as int);
    assert(a + b =~= both.window@);
    assert forall|o: int| #[trigger] joined_marks(a.len() as int, ma, mb)(o) == mab(o) by {
        if 0 <= o < a.len() {
            assert(ma(o) + mb(o - a.len()) =~= ma(o));
        } else {
            assert(ma(o) + mb(o - a.len()) =~= mb(o - a.len()));
        }
    }
    assert(joined_marks(a.len() as int, ma, mb) =~= mab);
    assert(valid_marks(no_marks()));
    law_chunks_join(view, stream_start(), a, ma, b, mb);
    let t1 = chunk_text(view, stream_start(), a, ma);
    let t2 = chunk_text(view, chunk_next(view, stream_start(), a, ma), b, mb);
    law_rows_append(t1, t2, w);
    assert(both.window@.skip(first.cursor - both.window_start) =~= b);
}

/// A window that grows in place, with the same marks and the same settings.
pub open spec fn growing(steps: Seq<StreamRefresh>) -> bool {
    forall|i: int, j: int|
        0 <= i <= j < steps.len() ==> {
            let p = #[trigger] steps[i];
            let q = #[trigger] steps[j];
            &&& p.wf()
            &&& q.wf()
            &&& p.channel == q.channel
            &&& *p.view == *q.view
            &&& p.wrap_cols == q.wrap_cols
            &&& p.window_start == q.window_start
            &&& p.window@.len() <= q.window@.len()
            &&& p.window@ == q.window@.take(p.window@.len() as int)
            &&& pins(p.marks@) == pins(q.marks@)
        }
}

/// The caches that one refresh after the other leaves, the first without a cache.
pub open spec fn refreshed_in_turn(
    steps: Seq<StreamRefresh>,
    caches: Seq<StreamRenderCache>,
) -> bool {
    &&& caches.len() == steps.len()
    &&& forall|i: int|
        0 <= i < steps.len() ==> refreshed_cache(
            if i == 0 {
                None
            } else {
                Some(caches[i - 1])
            },
            #[trigger] steps[i],
            caches[i],
        )
}

/// No batch has left a window that starts at `window_start`, but for one that shows
/// nothing yet.
spec fn in_window(batches: Seq<(u64, usize)>, window_start: u64) -> bool {
    batches[0].0 > window_start || batches == seq![(window_start, 1usize)]
}

/// An empty window has one empty row.
proof fn lemma_built_empty(p: StreamRefresh)
    requires
        p.window@.len() == 0,
    ensures
        built(p).rows.len() == 1,
{
    let view = *p.view;
    let all = stream_start().carry + p.window@;
    law_incomplete_bounds(all, view.encoding);
    let marks = span_marks(pins(p.marks@), p.window_start as int, 0);
    assert(chunk_items(view, stream_start(), p.window@, marks) =~= Seq::empty());
    assert(chunk_text(view, stream_start(), p.window@, marks) =~= Seq::empty());
}

/// Batches account for the rows that are added, and none is dropped while the window
/// grows in place.
proof fn lemma_batches_after(
    batches: Seq<(u64, usize)>,
    added: usize,
    end: u64,
    quantum: u64,
    window_start: u64,
)
    requires
        batches_ok(batches),
        in_window(batches, window_start),
        added >= 1,
        end >= batches.last().0,
        end > window_start,
        quantum >= MIN_BATCH_QUANTUM,
        owned(batches) - 1 + added <= usize::MAX,
    ensures
        ({
            let next = trimmed_batches(
                batches_after(batches, added, end, quantum),
                window_start,
            );
            &&& owned(next) == owned(batches) - 1 + added
            &&& in_window(next, window_start)
        }),
{
    let n = batches.len() as int;
    let last = batches.last();
    assert(last.1 >= 1) by {
        reveal(batches_grow);
    }
    lemma_owned_positive(batches);
    let kept = (last.1 - 1) as usize;
    let grows = n >= 2 && span(batches, n - 1) < quantum;
    let grown = if grows {
        batches.drop_last().push((end, (kept + added) as usize))
    } else {
        batches.drop_last().push((last.0, kept)).push((end, added))
    };
    if grows {
        lemma_batch_grows(batches, (end, (kept + added) as usize));
    } else {
        lemma_batch_added(batches, kept, (end, added));
    }
    let next = batches_after(batches, added, end, quantum);
    if batches == seq![(window_start, 1usize)] {
        assert(next =~= seq![(window_start, 0usize), (end, added)]);
        assert(next.skip(1) =~= seq![(end, added)]);
        assert(trimmed_batches(next.skip(1), window_start) == next.skip(1));
        lemma_owned_front(next);
    } else {
        assert(grown[0].0 == batches[0].0);
        if grown.len() > MAX_ROW_BATCHES {
            lemma_owned_front(grown);
            lemma_owned_front(grown.skip(1));
            lemma_batch_dropped(grown, (grown[0].1 + grown[1].1) as usize);
            assert(grown[0].0 <= grown[1].0) by {
                reveal(batches_grow);
            }
        }
        assert(trimmed_batches(next, window_start) == next);
    }
}

/// One more refresh of a window that grew in place.
proof fn lemma_refreshed_is_built(
    before: StreamRenderCache,
    first: StreamRefresh,
    both: StreamRefresh,
    after: StreamRenderCache,
)
    requires
        growing(seq![first, both]),
        before.wf(),
        before@ == built(first),
        in_window(before.row_batches@, first.window_start),
        refreshed_cache(Some(before), both, after),
    ensures
        after@ == built(both),
        in_window(after.row_batches@, both.window_start),
{
    let steps = seq![first, both];
    assert(steps[0] == first && steps[1] == both);
    assert(!outdated(before@, both));
    if both.cursor == before@.cursor {
        assert(first.window@ =~= both.window@);
        assert(after@ == built(both));
    } else {
        law_continued_is_built(first, both);
        let whole = continued(before@, both);
        assert(both.window@.skip(before@.cursor - both.window_start).len() > 0);
        let text = chunk_text(
            before@.settings,
            before@.state,
            both.window@.skip(before@.cursor - both.window_start),
            span_marks(
                pins(both.marks@),
                before@.cursor as int,
                both.window@.len() - (before@.cursor - both.window_start),
            ),
        );
        law_last_row_is_open(before@.rows.last() + text, row_width(before.wrap_cols));
        assert(before@.rows.len() == before.rows@.len());
        assert(before.row_batches@.last().1 >= 1) by {
            reveal(batches_grow);
        }
        lemma_owned_positive(before.row_batches@);
        lemma_batches_after(
            before.row_batches@,
            (whole.rows.len() - (before@.rows.len() - 1)) as usize,
            both.cursor,
            quantum_of(both.window@.len() as usize),
            both.window_start,
        );
        assert(after@.rows.len() == whole.rows.len());
        assert(after@.rows =~= whole.rows);
    }
}

/// However small the parts that a stream arrives in, refreshing the rows part by part
/// leaves those of the whole, rendered at once. The batches account for every row, and
/// their number is bounded.
pub proof fn law_incremental_rows_equal_one_shot_rows(
    steps: Seq<StreamRefresh>,
    caches: Seq<StreamRenderCache>,
)
    requires
        steps.len() > 0,
        growing(steps),
        refreshed_in_turn(steps, caches),
    ensures
        ({
            let p = steps.last();
            let cache = caches.last();
            let marks = span_marks(pins(p.marks@), p.window_start as int, p.window@.len() as int);
            &&& cache@ == built(p)
            &&& cache@.rows == text_rows(
                chunk_text(*p.view, stream_start(), p.window@, marks),
                p.width(),
            )
            &&& owned(cache.row_batches@) == cache.rows@.len()
            &&& cache.row_batches@.len() <= MAX_ROW_BATCHES
        }),
{
    lemma_in_turn(steps, caches, steps.len() - 1);
}

proof fn lemma_in_turn(steps: Seq<StreamRefresh>, caches: Seq<StreamRenderCache>, k: int)
    requires
        0 <= k < steps.len(),
        growing(steps),
        refreshed_in_turn(steps, caches),
    ensures
        caches[k].wf(),
        caches[k]@ == built(steps[k]),
        in_window(caches[k].row_batches@, steps[k].window_start),
    decreases k,
{
    let p = steps[k];
    assert(p.wf()) by {
        assert(steps[k].wf() && steps[k].wf());
    }
    if k == 0 {
        assert(refreshed_cache(None, steps[0], caches[0]));
        if p.window@.len() == 0 {
            lemma_built_empty(p);
            assert(caches[0].row_batches@ =~= seq![(p.window_start, 1usize)]);
        }
    } else {
        lemma_in_turn(steps, caches, k - 1);
        assert(refreshed_cache(Some(caches[k - 1]), steps[k], caches[k]));
        let two = seq![steps[k - 1], steps[k]];
        assert(growing(two)) by {
            assert forall|i: int, j: int| 0 <= i <= j < two.len() implies two[i] == steps[k - 1 + i]
                && two[j] == steps[k - 1 + j] by {}
        }
        lemma_refreshed_is_built(caches[k - 1], steps[k - 1], steps[k], caches[k]);
    }
}

/// Rows that lost some at the front are continued as those that did not: what is
/// dropped makes no difference to what follows.
pub proof fn law_trimmed_rows_continue(
    rows: Seq<Seq<char>>,
    dropped: int,
    text: Seq<char>,
    width: int,
)
    requires
        0 <= dropped < rows.len(),
        width > 0,
    ensures
        rows_after(rows.skip(dropped), text, width) == rows_after(rows, text, width).skip(dropped),
{
    assert(rows.skip(dropped).last() == rows.last());
    assert(rows_after(rows.skip(dropped), text, width) =~= rows_after(rows, text, width).skip(
        dropped,
    ));
}

/// Only batches whose bytes have all left the window are dropped: what is in view keeps
/// its rows.
pub proof fn law_rows_in_view_are_kept(batches: Seq<(u64, usize)>, window_start: u64) -> (dropped:
    int)
    requires
        batches.len() > 0,
    ensures
        0 <= dropped < batches.len(),
        trimmed_batches(batches, window_start) == batches.skip(dropped),
        forall|i: int| 0 <= i < dropped ==> (#[trigger] batches[i]).0 <= window_start,
        dropped == batches.len() - 1 || window_start < batches[dropped].0,
    decreases batches.len(),
{
    if batches.len() > 1 && window_start >= batches[0].0 {
        let rest = batches.skip(1);
        let k = law_rows_in_view_are_kept(rest, window_start);
        assert(rest.skip(k) =~= batches.skip(k + 1));
        assert forall|i: int| 0 <= i < k + 1 implies (#[trigger] batches[i]).0 <= window_start by {
            if i > 0 {
                assert(rest[i - 1] == batches[i]);
            }
        }
        assert(rest[k] == batches[k + 1]);
        k + 1
    } else {
        assert(batches.skip(0) =~= batches);
        0
    }
}

/// The number of batches is bounded by the bytes that they cover: rows follow the
/// window, not the length of the stream.
pub proof fn law_batches_follow_the_window(batches: Seq<(u64, usize)>)
    requires
        batches_ok(batches),
        batches.len() >= 2,
    ensures
        (batches.len() - 2) * MIN_BATCH_QUANTUM <= batches[batches.len() - 2].0 - batches[0].0,
{
    lemma_spans(batches, batches.len() - 2);
}

proof fn lemma_spans(batches: Seq<(u64, usize)>, k: int)
    requires
        batches_ok(batches),
        0 <= k < batches.len() - 1,
    ensures
        k * MIN_BATCH_QUANTUM <= batches[k].0 - batches[0].0,
    decreases k,
{
    if k > 0 {
        reveal(batches_grow);
        lemma_spans(batches, k - 1);
        assert(span(batches, k) >= MIN_BATCH_QUANTUM);
        assert(k * MIN_BATCH_QUANTUM == (k - 1) * MIN_BATCH_QUANTUM + MIN_BATCH_QUANTUM)
            by (nonlinear_arith);
    }
}

} // verus!
