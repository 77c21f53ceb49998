//! Rendering a stream chunk by chunk into the text that it has as a whole.

use vstd::prelude::*;

use crate::display::encoding::{decoded, decoded_from, incomplete_tail};
use crate::display::paint::{law_paint_concat, lemma_line_unused, paint, pen_start, Item, Painter, Pen, Style};
use crate::display::render::{
    char_items, items_of, law_offsets_grow, lemma_marks_push, marks_at, marks_of, merge_sorted,
    paint_span, sorted, span_items, DisplayView, Mark, RenderAnnotation,
};
use crate::display::seam::{
    kept, law_decode_split, law_incomplete_bounds, law_incomplete_split, law_kept_is_seam,
    law_single_bytes_split, law_utf16_cut_is_even,
};
use crate::display::{DisplayEncoding, DisplayMode};

verus! {

/// Marks by the offset that they target.
pub type Marks = spec_fn(int) -> Seq<Mark>;

/// No marks.
pub open spec fn no_marks() -> Marks {
    |offset: int| Seq::empty()
}

/// Marks that target bytes: none stands before the first byte.
pub open spec fn valid_marks(marks: Marks) -> bool {
    forall|offset: int| offset < 0 ==> (#[trigger] marks(offset)).len() == 0
}

/// What a streaming renderer carries from one chunk to the next: the bytes held back,
/// the marks not yet shown (counted from the first of those bytes), and the pen.
pub ghost struct StreamState {
    pub carry: Seq<u8>,
    pub marks: Marks,
    pub pen: Pen,
}

/// The state before the first chunk.
pub open spec fn stream_start() -> StreamState {
    StreamState { carry: Seq::empty(), marks: no_marks(), pen: pen_start() }
}

/// How a stream is painted: as the view paints, but with no line breaks of its own.
pub open spec fn stream_style(view: DisplayView) -> Style {
    Style {
        mode: view.mode,
        rendering: view.character_rendering,
        width: None,
        per_line: None,
        separator: view.hex_separator@,
    }
}

/// The marks of a chunk behind those not yet shown.
pub open spec fn chunk_marks(state: StreamState, marks: Marks) -> Marks {
    |offset: int| (state.marks)(offset) + marks(offset - state.carry.len())
}

/// The items that a chunk makes complete.
pub open spec fn chunk_items(view: DisplayView, state: StreamState, bytes: Seq<u8>, marks: Marks) -> Seq<
    Item,
> {
    let all = state.carry + bytes;
    items_of(
        decoded(all.take(kept(all, view.encoding)), view.units()),
        chunk_marks(state, marks),
    )
}

/// The text that a chunk adds.
pub open spec fn chunk_text(view: DisplayView, state: StreamState, bytes: Seq<u8>, marks: Marks) -> Seq<
    char,
> {
    paint(stream_style(view), state.pen, chunk_items(view, state, bytes, marks)).0
}

/// The state after a chunk.
pub open spec fn chunk_next(view: DisplayView, state: StreamState, bytes: Seq<u8>, marks: Marks) -> StreamState {
    let all = state.carry + bytes;
    let shown = kept(all, view.encoding);
    StreamState {
        carry: all.skip(shown),
        marks: |offset: int|
            if offset < 0 {
                Seq::empty()
            } else {
                chunk_marks(state, marks)(offset + shown)
            },
        pen: paint(stream_style(view), state.pen, chunk_items(view, state, bytes, marks)).1,
    }
}

/// The text that is still to come when the stream ends.
pub open spec fn rest_text(view: DisplayView, state: StreamState) -> Seq<char> {
    paint(
        stream_style(view),
        state.pen,
        span_items(state.carry, view.units(), state.marks),
    ).0
}

/// Where the pen stands when the stream has ended.
pub open spec fn rest_pen(view: DisplayView, state: StreamState) -> Pen {
    paint(
        stream_style(view),
        state.pen,
        span_items(state.carry, view.units(), state.marks),
    ).1
}

/// A chunk of a stream: its bytes, and its marks counted from its first byte.
pub ghost struct Chunk {
    pub bytes: Seq<u8>,
    pub marks: Marks,
}

/// The text of a stream that arrived as `chunks` so far, and the state after them.
pub open spec fn streamed(view: DisplayView, chunks: Seq<Chunk>) -> (Seq<char>, StreamState)
    decreases chunks.len(),
{
    if chunks.len() == 0 {
        (Seq::empty(), stream_start())
    } else {
        let (text, state) = streamed(view, chunks.drop_last());
        let last = chunks.last();
        (
            text + chunk_text(view, state, last.bytes, last.marks),
            chunk_next(view, state, last.bytes, last.marks),
        )
    }
}

/// Chunks as one.
pub open spec fn whole(chunks: Seq<Chunk>) -> Chunk
    decreases chunks.len(),
{
    if chunks.len() == 0 {
        Chunk { bytes: Seq::empty(), marks: no_marks() }
    } else {
        let front = whole(chunks.drop_last());
        let last = chunks.last();
        Chunk {
            bytes: front.bytes + last.bytes,
            marks: joined_marks(front.bytes.len() as int, front.marks, last.marks),
        }
    }
}

/// The marks of two chunks, the second of which begins at `at`.
pub open spec fn joined_marks(at: int, first: Marks, second: Marks) -> Marks {
    |offset: int| first(offset) + second(offset - at)
}

proof fn lemma_items_concat(a: Seq<(char, int)>, b: Seq<(char, int)>, marks: Marks)
    ensures
        items_of(a + b, marks) == items_of(a, marks) + items_of(b, marks),
    decreases b.len(),
{
    if b.len() == 0 {
        assert(a + b =~= a);
        assert(items_of(a, marks) + items_of(b, marks) =~= items_of(a, marks));
    } else {
        lemma_items_concat(a, b.drop_last(), marks);
        assert((a + b).drop_last() =~= a + b.drop_last());
        let x = items_of(a, marks);
        let y = items_of(b.drop_last(), marks);
        let z = char_items(b.last().0, marks(b.last().1));
        assert((x + y) + z =~= x + (y + z));
    }
}

proof fn lemma_items_agree(chars: Seq<(char, int)>, m: Marks, n: Marks)
    requires
        forall|i: int| 0 <= i < chars.len() ==> m((#[trigger] chars[i]).1) == n(chars[i].1),
    ensures
        items_of(chars, m) == items_of(chars, n),
    decreases chars.len(),
{
    if chars.len() > 0 {
        let front = chars.drop_last();
        assert forall|i: int| 0 <= i < front.len() implies m((#[trigger] front[i]).1) == n(
            front[i].1,
        ) by {
            assert(front[i] == chars[i]);
        }
        lemma_items_agree(front, m, n);
        assert(m(chars[chars.len() - 1].1) == n(chars[chars.len() - 1].1));
    }
}

proof fn lemma_items_one(c: char, offset: int, marks: Marks)
    ensures
        items_of(seq![(c, offset)], marks) == char_items(c, marks(offset)),
{
    let one = seq![(c, offset)];
    assert(one.drop_last() =~= Seq::empty());
    assert(items_of(one.drop_last(), marks) == Seq::<Item>::empty());
    assert(Seq::<Item>::empty() + char_items(c, marks(offset)) =~= char_items(c, marks(offset)));
}

/// The marks as they are counted from a byte `k` further on.
pub open spec fn marks_from(marks: Marks, k: int) -> Marks {
    |offset: int| marks(offset + k)
}

/// Where a stream is counted from changes its offsets only.
proof fn lemma_items_shift(
    bytes: Seq<u8>,
    encoding: DisplayEncoding,
    base: int,
    k: int,
    marks: Marks,
)
    ensures
        items_of(decoded_from(bytes, encoding, base + k), marks) == items_of(
            decoded_from(bytes, encoding, base),
            marks_from(marks, k),
        ),
    decreases bytes.len(),
{
    if bytes.len() > 0 {
        let (c, n) = crate::display::encoding::first_char(bytes, encoding);
        lemma_items_shift(bytes.skip(n), encoding, base + n, k, marks);
        let far = seq![(c, base + k)];
        let near = seq![(c, base)];
        lemma_items_concat(far, decoded_from(bytes.skip(n), encoding, base + k + n), marks);
        lemma_items_concat(
            near,
            decoded_from(bytes.skip(n), encoding, base + n),
            marks_from(marks, k),
        );
        lemma_items_one(c, base + k, marks);
        lemma_items_one(c, base, marks_from(marks, k));
    }
}

/// Where two chunks are cut, one after the other and as one.
proof fn lemma_cuts(carry: Seq<u8>, a: Seq<u8>, b: Seq<u8>, view: DisplayView)
    ensures
        ({
            let all = carry + a;
            let r1 = kept(all, view.encoding);
            let all2 = all.skip(r1) + b;
            let r2 = kept(all2, view.encoding);
            let both = carry + (a + b);
            let r = kept(both, view.encoding);
            &&& 0 <= r1 <= all.len()
            &&& 0 <= r2 <= all2.len()
            &&& r == r1 + r2
            &&& both.take(r) == all.take(r1) + all2.take(r2)
            &&& both.skip(r) == all2.skip(r2)
            &&& decoded(both.take(r), view.units()) == decoded(all.take(r1), view.units())
                + decoded_from(all2.take(r2), view.units(), r1)
        }),
{
    let enc = view.encoding;
    let all = carry + a;
    let r1 = kept(all, enc);
    law_incomplete_bounds(all, enc);
    let all2 = all.skip(r1) + b;
    let r2 = kept(all2, enc);
    law_incomplete_bounds(all2, enc);
    let both = carry + (a + b);
    law_incomplete_split(all, b, enc);
    assert(both =~= all + b);
    let r = kept(both, enc);
    assert(r == r1 + r2);
    let p = all.take(r1);
    let q = all2.take(r2);
    assert(both.take(r) =~= p + q);
    assert(both.skip(r) =~= all2.skip(r2));
    if !(view.mode is Hex) {
        if enc is Utf16Le || enc is Utf16Be {
            law_utf16_cut_is_even(all2, enc);
        }
        law_kept_is_seam(all, b, r2, enc);
    } else {
        law_single_bytes_split(p, q);
    }
    law_decode_split(p, q, view.units(), 0);
}

/// The marks of two chunks, one after the other and as one.
proof fn lemma_marks_join(state: StreamState, next: StreamState, a: int, ma: Marks, mb: Marks, r1: int)
    requires
        valid_marks(state.marks),
        valid_marks(ma),
        valid_marks(mb),
        0 <= r1 <= state.carry.len() + a,
        next.carry.len() == state.carry.len() + a - r1,
        forall|o: int|
            o >= 0 ==> #[trigger] (next.marks)(o) == chunk_marks(state, ma)(o + r1),
    ensures
        forall|o: int|
            o < r1 ==> #[trigger] chunk_marks(state, joined_marks(a, ma, mb))(o) == chunk_marks(
                state,
                ma,
            )(o),
        forall|o: int|
            o >= 0 ==> #[trigger] marks_from(
                chunk_marks(state, joined_marks(a, ma, mb)),
                r1,
            )(o) == chunk_marks(next, mb)(o),
{
    let c = state.carry.len() as int;
    let mab = joined_marks(a, ma, mb);
    assert forall|o: int| o < r1 implies #[trigger] chunk_marks(state, mab)(o) == chunk_marks(
        state,
        ma,
    )(o) by {
        assert(mb(o - c - a).len() == 0);
        assert(mab(o - c) =~= ma(o - c));
    }
    assert forall|o: int| o >= 0 implies #[trigger] marks_from(chunk_marks(state, mab), r1)(o)
        == chunk_marks(next, mb)(o) by {
        let x = (state.marks)(o + r1);
        let y = ma(o + r1 - c);
        let z = mb(o + r1 - c - a);
        assert((next.marks)(o) == x + y);
        assert(chunk_marks(next, mb)(o) == (x + y) + z);
        assert(x + (y + z) =~= (x + y) + z);
    }
}

/// Rendering two chunks one after the other gives the text, and leaves the state, of
/// rendering them as one: where a stream is cut into chunks leaves no trace.
pub proof fn law_chunks_join(
    view: DisplayView,
    state: StreamState,
    a: Seq<u8>,
    ma: Marks,
    b: Seq<u8>,
    mb: Marks,
)
    requires
        valid_marks(state.marks),
        valid_marks(ma),
        valid_marks(mb),
    ensures
        chunk_text(view, state, a + b, joined_marks(a.len() as int, ma, mb)) == chunk_text(
            view,
            state,
            a,
            ma,
        ) + chunk_text(view, chunk_next(view, state, a, ma), b, mb),
        chunk_next(view, state, a + b, joined_marks(a.len() as int, ma, mb)) == chunk_next(
            view,
            chunk_next(view, state, a, ma),
            b,
            mb,
        ),
{
    let units = view.units();
    let mab = joined_marks(a.len() as int, ma, mb);
    let all = state.carry + a;
    let r1 = kept(all, view.encoding);
    let next = chunk_next(view, state, a, ma);
    let all2 = next.carry + b;
    let r2 = kept(all2, view.encoding);
    lemma_cuts(state.carry, a, b, view);
    lemma_marks_join(state, next, a.len() as int, ma, mb, r1);
    let marks = chunk_marks(state, mab);
    let p = all.take(r1);
    let q = all2.take(r2);
    lemma_items_concat(decoded(p, units), decoded_from(q, units, r1), marks);
    lemma_items_shift(q, units, 0, r1, marks);
    law_offsets_grow(p, units, 0);
    lemma_items_agree(decoded(p, units), marks, chunk_marks(state, ma));
    law_offsets_grow(q, units, 0);
    lemma_items_agree(decoded(q, units), marks_from(marks, r1), chunk_marks(next, mb));
    let ia = chunk_items(view, state, a, ma);
    let ib = chunk_items(view, next, b, mb);
    assert(chunk_items(view, state, a + b, mab) == ia + ib);
    law_paint_concat(stream_style(view), state.pen, ia, ib);
    let end = chunk_next(view, state, a + b, mab);
    let end2 = chunk_next(view, next, b, mb);
    assert forall|o: int| #[trigger] (end.marks)(o) == (end2.marks)(o) by {
        if o >= 0 {
            assert(marks_from(marks, r1)(o + r2) == chunk_marks(next, mb)(o + r2));
        }
    }
    assert(end.marks =~= end2.marks);
}

/// What is left of a stream after one chunk is the rest of its text: rendering a chunk
/// and ending the stream is rendering it at once.
pub proof fn law_chunk_and_rest(view: DisplayView, bytes: Seq<u8>, marks: Marks)
    requires
        valid_marks(marks),
    ensures
        chunk_text(view, stream_start(), bytes, marks) + rest_text(
            view,
            chunk_next(view, stream_start(), bytes, marks),
        ) == paint(stream_style(view), pen_start(), span_items(bytes, view.units(), marks)).0,
{
    let start = stream_start();
    let style = stream_style(view);
    let units = view.units();
    let enc = view.encoding;
    let all = start.carry + bytes;
    assert(all =~= bytes);
    let r = kept(all, enc);
    law_incomplete_bounds(all, enc);
    let next = chunk_next(view, start, bytes, marks);
    let p = all.take(r);
    let q = all.skip(r);
    assert(p + q =~= bytes);
    if !(view.mode is Hex) {
        law_kept_is_seam(all, Seq::empty(), q.len() as int, enc);
        assert((all.skip(r) + Seq::<u8>::empty()).take(q.len() as int) =~= q);
    } else {
        law_single_bytes_split(p, q);
    }
    law_decode_split(p, q, units, 0);
    lemma_items_concat(decoded(p, units), decoded_from(q, units, r), marks);
    lemma_items_shift(q, units, 0, r, marks);
    let seen = chunk_marks(start, marks);
    assert forall|o: int| #[trigger] seen(o) == marks(o) by {
        assert(Seq::<Mark>::empty() + marks(o) =~= marks(o));
    }
    assert(seen =~= marks);
    law_offsets_grow(q, units, 0);
    let dq = decoded(q, units);
    assert forall|i: int| 0 <= i < dq.len() implies marks_from(marks, r)((#[trigger] dq[i]).1) == (
    next.marks)(dq[i].1) by {
        assert(0 <= dq[i].1);
        assert(seen(dq[i].1 + r) == marks(dq[i].1 + r));
    }
    lemma_items_agree(dq, marks_from(marks, r), next.marks);
    assert(seen(q.len() + r) == marks(q.len() + r));
    let ia = chunk_items(view, start, bytes, marks);
    let ib = span_items(q, units, next.marks);
    assert(span_items(bytes, units, marks) =~= ia + ib);
    law_paint_concat(style, pen_start(), ia, ib);
}

/// The marks of chunks are valid.
pub open spec fn valid_chunks(chunks: Seq<Chunk>) -> bool {
    forall|i: int| 0 <= i < chunks.len() ==> valid_marks((#[trigger] chunks[i]).marks)
}

proof fn lemma_streamed_is_one_chunk(view: DisplayView, chunks: Seq<Chunk>)
    requires
        valid_chunks(chunks),
    ensures
        valid_marks(whole(chunks).marks),
        streamed(view, chunks) == (
            chunk_text(view, stream_start(), whole(chunks).bytes, whole(chunks).marks),
            chunk_next(view, stream_start(), whole(chunks).bytes, whole(chunks).marks),
        ),
    decreases chunks.len(),
{
    let start = stream_start();
    if chunks.len() == 0 {
        let none = Seq::<u8>::empty();
        let all = start.carry + none;
        assert(all =~= none);
        law_incomplete_bounds(all, view.encoding);
        assert(all.take(kept(all, view.encoding)) =~= none);
        assert(chunk_items(view, start, none, no_marks()) =~= Seq::empty());
        let next = chunk_next(view, start, none, no_marks());
        assert forall|o: int| #[trigger] (next.marks)(o) == (start.marks)(o) by {
            assert((next.marks)(o) =~= Seq::empty());
        }
        assert(next.marks =~= start.marks);
        assert(next.carry =~= start.carry);
    } else {
        let front = chunks.drop_last();
        let last = chunks.last();
        assert(chunks[chunks.len() - 1] == last);
        assert forall|i: int| 0 <= i < front.len() implies valid_marks((#[trigger] front[i]).marks) by {
            assert(front[i] == chunks[i]);
        }
        lemma_streamed_is_one_chunk(view, front);
        let w = whole(front);
        law_chunks_join(view, start, w.bytes, w.marks, last.bytes, last.marks);
        assert forall|o: int| o < 0 implies (#[trigger] (whole(chunks).marks)(o)).len() == 0 by {
            assert((w.marks)(o).len() == 0);
            assert((last.marks)(o - w.bytes.len()).len() == 0);
        }
    }
}

/// The text of a stream does not depend on the chunks that it arrives in: however it is
/// cut, the chunks' texts and what is left at the end make up the text of the whole.
pub proof fn law_chunking_leaves_no_trace(view: DisplayView, chunks: Seq<Chunk>)
    requires
        valid_chunks(chunks),
    ensures
        streamed(view, chunks).0 + rest_text(view, streamed(view, chunks).1) == paint(
            stream_style(view),
            pen_start(),
            span_items(whole(chunks).bytes, view.units(), whole(chunks).marks),
        ).0,
{
    lemma_streamed_is_one_chunk(view, chunks);
    law_chunk_and_rest(view, whole(chunks).bytes, whole(chunks).marks);
}

/// For a view that does not wrap, the streamed text is the text that the view shows of
/// the whole stream.
pub proof fn law_stream_is_one_shot(view: DisplayView, chunks: Seq<Chunk>)
    requires
        valid_chunks(chunks),
        view.wrapping is NoWrap,
    ensures
        streamed(view, chunks).0 + rest_text(view, streamed(view, chunks).1) == view.shown(
            whole(chunks).bytes,
            whole(chunks).marks,
        ),
{
    law_chunking_leaves_no_trace(view, chunks);
}

/// The marks of annotations are valid.
pub proof fn lemma_marks_valid(annotations: Seq<RenderAnnotation>)
    ensures
        valid_marks(marks_of(annotations)),
    decreases annotations.len(),
{
    if annotations.len() > 0 {
        lemma_marks_valid(annotations.drop_last());
        assert forall|o: int| o < 0 implies (#[trigger] marks_of(annotations)(o)).len() == 0 by {
            assert(marks_of(annotations.drop_last())(o).len() == 0);
        }
    }
}

/// A streaming renderer: renders the received stream chunk by chunk into the text that
/// the whole stream has. A character split across reads decodes as itself, tab stops
/// keep their column, and hex cells get exactly one separator between them.
///
/// No hard wraps are emitted: line breaks come only from the data and the annotations.
pub struct StreamRenderer {
    view: DisplayView,
    carry: Vec<u8>,
    pending: Vec<RenderAnnotation>,
    col: usize,
    hex_cells_on_line: usize,
}

impl StreamRenderer {
    /// The settings that it renders with.
    pub closed spec fn settings(self) -> DisplayView {
        self.view
    }

    /// What it carries to the next chunk.
    pub closed spec fn state(self) -> StreamState {
        StreamState {
            carry: self.carry@,
            marks: marks_of(self.pending@),
            pen: Pen {
                col: self.col as int,
                cells: self.hex_cells_on_line as int,
                line: 0,
            },
        }
    }

    pub closed spec fn wf(self) -> bool {
        &&& sorted(self.pending@)
        &&& self.col < 8
        &&& self.carry@.len() <= 3
    }

    /// No more than three bytes are ever held back.
    pub proof fn law_carry_is_short(self)
        requires
            self.wf(),
        ensures
            self.state().carry.len() <= 3,
            valid_marks(self.state().marks),
    {
        lemma_marks_valid(self.pending@);
    }

    pub fn new(view: DisplayView) -> (r: StreamRenderer)
        ensures
            r.wf(),
            r.settings() == view,
            r.state() == stream_start(),
    {
        let r = StreamRenderer {
            view,
            carry: Vec::new(),
            pending: Vec::new(),
            col: 0,
            hex_cells_on_line: 0,
        };
        assert(r.state().carry =~= stream_start().carry);
        assert(r.state().marks =~= stream_start().marks);
        r
    }

    /// Renders one received chunk, with `annotations` (in any order) whose offsets count
    /// from its first byte. Gives the text to append, which may be empty: an incomplete
    /// tail is held back, and so is an annotation at or past what can be shown, until
    /// its byte arrives.
    pub fn render_chunk(&mut self, bytes: &[u8], annotations: &[RenderAnnotation]) -> (r: String)
        requires
            old(self).wf(),
            forall|i: int|
                0 <= i < annotations@.len() ==> (#[trigger] annotations@[i]).offset + old(
                    self,
                ).state().carry.len() <= usize::MAX,
        ensures
            final(self).wf(),
            final(self).settings() == old(self).settings(),
            r@ == chunk_text(
                old(self).settings(),
                old(self).state(),
                bytes@,
                marks_of(annotations@),
            ),
            final(self).state() == chunk_next(
                old(self).settings(),
                old(self).state(),
                bytes@,
                marks_of(annotations@),
            ),
    {
        let ghost start = self.state();
        let ghost given = marks_of(annotations@);
        let ghost view = self.view;
        let carry_len: usize = self.carry.len();
        let mut all: Vec<u8> = Vec::new();
        core::mem::swap(&mut all, &mut self.carry);
        all.extend_from_slice(bytes);
        assert(all@ =~= start.carry + bytes@);
        let mut marks: Vec<RenderAnnotation> = Vec::new();
        core::mem::swap(&mut marks, &mut self.pending);
        merge_sorted(&mut marks, annotations, carry_len);
        let ghost seen = chunk_marks(start, given);
        assert(marks_of(marks@) =~= seen);
        let tail: usize = incomplete_tail(all.as_slice(), self.view.encoding);
        let shown: usize = all.len() - tail;
        let (now, later) = split_marks(&marks, shown);
        let held: Vec<u8> = all.split_off(shown);
        proof {
            lemma_marks_valid(now@);
            let nm = marks_of(now@);
            let dec = decoded(all@, view.units());
            law_offsets_grow(all@, view.units(), 0);
            assert forall|i: int| 0 <= i < dec.len() implies nm((#[trigger] dec[i]).1) == seen(
                dec[i].1,
            ) by {
                assert(dec[i].1 < shown);
                assert(marks_at(now@, dec[i].1) == marks_at(marks@, dec[i].1));
                assert(marks_of(marks@)(dec[i].1) == seen(dec[i].1));
            }
            lemma_items_agree(dec, nm, seen);
            assert(nm(shown as int) == marks_at(now@, shown as int));
            assert(span_items(all@, view.units(), nm) =~= items_of(dec, seen));
        }
        let out: String = self.render_slice(all.as_slice(), now.as_slice());
        self.carry = held;
        self.pending = later;
        proof {
            let end = chunk_next(view, start, bytes@, given);
            let whole = start.carry + bytes@;
            assert(all@ =~= whole.take(kept(whole, view.encoding)));
            assert(held@ =~= end.carry);
            lemma_marks_valid(later@);
            assert forall|o: int| #[trigger] marks_of(later@)(o) == (end.marks)(o) by {
                if o >= 0 {
                    assert(marks_at(later@, o) == marks_at(marks@, o + shown));
                    assert(marks_of(marks@)(o + shown) == seen(o + shown));
                } else {
                    assert(marks_of(later@)(o) =~= Seq::empty());
                }
            }
            assert(marks_of(later@) =~= end.marks);
        }
        out
    }

    /// Ends the stream: renders what is still held back, now as truncated data, and the
    /// annotations not yet shown.
    pub fn finish(&mut self) -> (r: String)
        requires
            old(self).wf(),
        ensures
            final(self).wf(),
            final(self).settings() == old(self).settings(),
            r@ == rest_text(old(self).settings(), old(self).state()),
            final(self).state().carry.len() == 0,
            final(self).state().marks == no_marks(),
            final(self).state().pen == rest_pen(old(self).settings(), old(self).state()),
    {
        let mut carry: Vec<u8> = Vec::new();
        core::mem::swap(&mut carry, &mut self.carry);
        let mut pending: Vec<RenderAnnotation> = Vec::new();
        core::mem::swap(&mut pending, &mut self.pending);
        let out: String = self.render_slice(carry.as_slice(), pending.as_slice());
        assert(marks_of(self.pending@) =~= no_marks());
        out
    }

    /// Paints a span with this stream's settings, from where its pen stands.
    fn render_slice(&mut self, bytes: &[u8], annotations: &[RenderAnnotation]) -> (r: String)
        requires
            old(self).wf(),
            sorted(annotations@),
        ensures
            final(self).wf(),
            final(self).view == old(self).view,
            final(self).carry == old(self).carry,
            final(self).pending == old(self).pending,
            (r@, final(self).state().pen) == paint(
                stream_style(old(self).view),
                old(self).state().pen,
                span_items(bytes@, old(self).view.units(), marks_of(annotations@)),
            ),
    {
        let encoding: DisplayEncoding = if self.view.mode == DisplayMode::Hex {
            DisplayEncoding::Latin1
        } else {
            self.view.encoding
        };
        let mut painter = Painter {
            mode: self.view.mode,
            rendering: self.view.character_rendering,
            width: None,
            per_line: None,
            separator: self.view.hex_separator.as_str(),
            out: String::new(),
            col: self.col,
            cells: self.hex_cells_on_line,
            line: 0,
        };
        assert(painter.style() == stream_style(self.view));
        paint_span(&mut painter, bytes, encoding, annotations);
        let col: usize = painter.col;
        let cells: usize = painter.cells;
        let out: String = painter.out;
        self.col = col;
        self.hex_cells_on_line = cells;
        proof {
            lemma_line_unused(
                stream_style(old(self).view),
                old(self).state().pen,
                span_items(bytes@, old(self).view.units(), marks_of(annotations@)),
            );
        }
        assert(out@ =~= paint(
            stream_style(old(self).view),
            old(self).state().pen,
            span_items(bytes@, old(self).view.units(), marks_of(annotations@)),
        ).0);
        out
    }
}

/// Parts sorted annotations into those that target bytes before `at` and the others,
/// the latter counted from `at`.
fn split_marks(marks: &Vec<RenderAnnotation>, at: usize) -> (r: (
    Vec<RenderAnnotation>,
    Vec<RenderAnnotation>,
))
    requires
        sorted(marks@),
    ensures
        sorted(r.0@),
        sorted(r.1@),
        forall|o: int| o < at ==> #[trigger] marks_at(r.0@, o) == marks_at(marks@, o),
        forall|o: int| o >= at ==> #[trigger] marks_at(r.0@, o) == Seq::<Mark>::empty(),
        forall|o: int| o >= 0 ==> #[trigger] marks_at(r.1@, o) == marks_at(marks@, o + at),
{
    let mut now: Vec<RenderAnnotation> = Vec::new();
    let mut later: Vec<RenderAnnotation> = Vec::new();
    let mut i: usize = 0;
    assert(marks@.take(0) =~= Seq::empty());
    while i < marks.len()
        invariant
            i <= marks.len(),
            sorted(marks@),
            sorted(now@),
            sorted(later@),
            forall|j: int|
                0 <= j < now@.len() ==> exists|k: int|
                    0 <= k < i && (#[trigger] now@[j]).offset == (#[trigger] marks@[k]).offset,
            forall|j: int|
                0 <= j < later@.len() ==> exists|k: int|
                    0 <= k < i && (#[trigger] later@[j]).offset + at == (#[trigger] marks@[k]).offset,
            forall|o: int|
                o < at ==> #[trigger] marks_at(now@, o) == marks_at(marks@.take(i as int), o),
            forall|o: int| o >= at ==> #[trigger] marks_at(now@, o) == Seq::<Mark>::empty(),
            forall|o: int|
                o >= 0 ==> #[trigger] marks_at(later@, o) == marks_at(
                    marks@.take(i as int),
                    o + at,
                ),
        decreases marks.len() - i,
    {
        let ghost was = now@;
        let ghost then_later = later@;
        let ghost a = marks@[i as int];
        let ghost done = marks@.take(i as int);
        assert(marks@.take(i + 1) =~= done.push(a));
        if marks[i].offset < at {
            let kept = marks[i].moved_to(marks[i].offset);
            now.push(kept);
            proof {
                assert forall|o: int| true implies #[trigger] marks_at(now@, o) == (if a.offset
                    == o {
                    marks_at(was, o).push(a.mark())
                } else {
                    marks_at(was, o)
                }) by {
                    lemma_marks_push(was, kept, o);
                }
                assert forall|o: int| o < at implies #[trigger] marks_at(now@, o) == marks_at(
                    done.push(a),
                    o,
                ) by {
                    lemma_marks_push(done, a, o);
                    assert(marks_at(was, o) == marks_at(done, o));
                }
                assert forall|o: int| o >= 0 implies #[trigger] marks_at(later@, o) == marks_at(
                    done.push(a),
                    o + at,
                ) by {
                    lemma_marks_push(done, a, o + at);
                }
                assert forall|o: int| o >= at implies #[trigger] marks_at(now@, o) == Seq::<
                    Mark,
                >::empty() by {
                    assert(marks_at(was, o) == Seq::<Mark>::empty());
                }
                assert forall|p: int, q: int| 0 <= p <= q < now@.len() implies (
                #[trigger] now@[p]).offset <= (#[trigger] now@[q]).offset by {
                    if p < was.len() && q == was.len() {
                        assert(was[p] == now@[p]);
                        let k = choose|k: int|
                            0 <= k < i && was[p].offset == (#[trigger] marks@[k]).offset;
                        assert(marks@[k].offset <= marks@[i as int].offset);
                    } else if q < was.len() {
                        assert(was[p].offset <= was[q].offset);
                    }
                }
                assert forall|j: int| 0 <= j < now@.len() implies exists|k: int|
                    0 <= k < i + 1 && (#[trigger] now@[j]).offset == (
                    #[trigger] marks@[k]).offset by {
                    if j == was.len() {
                        assert(marks@[i as int].offset == now@[j].offset);
                    } else {
                        assert(was[j] == now@[j]);
                        let k = choose|k: int|
                            0 <= k < i && was[j].offset == (#[trigger] marks@[k]).offset;
                        assert(0 <= k < i + 1 && now@[j].offset == marks@[k].offset);
                    }
                }
                assert forall|j: int| 0 <= j < later@.len() implies exists|k: int|
                    0 <= k < i + 1 && (#[trigger] later@[j]).offset + at == (
                    #[trigger] marks@[k]).offset by {
                    let k = choose|k: int|
                        0 <= k < i && later@[j].offset + at == (#[trigger] marks@[k]).offset;
                    assert(0 <= k < i + 1 && later@[j].offset + at == marks@[k].offset);
                }
            }
        } else {
            let kept = marks[i].moved_to(marks[i].offset - at);
            later.push(kept);
            proof {
                assert forall|o: int| o < at implies #[trigger] marks_at(now@, o) == marks_at(
                    done.push(a),
                    o,
                ) by {
                    lemma_marks_push(done, a, o);
                }
                assert forall|o: int| o >= 0 implies #[trigger] marks_at(later@, o) == marks_at(
                    done.push(a),
                    o + at,
                ) by {
                    lemma_marks_push(then_later, kept, o);
                    lemma_marks_push(done, a, o + at);
                    assert(marks_at(then_later, o) == marks_at(done, o + at));
                }
                assert forall|p: int, q: int| 0 <= p <= q < later@.len() implies (
                #[trigger] later@[p]).offset <= (#[trigger] later@[q]).offset by {
                    if p < then_later.len() && q == then_later.len() {
                        assert(then_later[p] == later@[p]);
                        let k = choose|k: int|
                            0 <= k < i && then_later[p].offset + at == (
                            #[trigger] marks@[k]).offset;
                        assert(marks@[k].offset <= marks@[i as int].offset);
                    } else if q < then_later.len() {
                        assert(then_later[p].offset <= then_later[q].offset);
                    }
                }
                assert forall|j: int| 0 <= j < later@.len() implies exists|k: int|
                    0 <= k < i + 1 && (#[trigger] later@[j]).offset + at == (
                    #[trigger] marks@[k]).offset by {
                    if j == then_later.len() {
                        assert(marks@[i as int].offset == later@[j].offset + at);
                    } else {
                        assert(then_later[j] == later@[j]);
                        let k = choose|k: int|
                            0 <= k < i && then_later[j].offset + at == (
                            #[trigger] marks@[k]).offset;
                        assert(0 <= k < i + 1 && later@[j].offset + at == marks@[k].offset);
                    }
                }
                assert forall|j: int| 0 <= j < now@.len() implies exists|k: int|
                    0 <= k < i + 1 && (#[trigger] now@[j]).offset == (
                    #[trigger] marks@[k]).offset by {
                    let k = choose|k: int|
                        0 <= k < i && now@[j].offset == (#[trigger] marks@[k]).offset;
                    assert(0 <= k < i + 1 && now@[j].offset == marks@[k].offset);
                }
            }
        }
        i = i + 1;
    }
    assert(marks@.take(i as int) =~= marks@);
    (now, later)
}

} // verus!
