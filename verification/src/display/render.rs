//! The configured view renderer: bytes to text, with inline annotations.

use vstd::prelude::*;
use vstd::string::*;

use crate::display::encoding::{decode_with_offsets, decoded, decoded_from, first_char};
use crate::display::paint::{limit, paint, pen_start, Item, Painter, Style, law_paint_concat};
use crate::display::rows::{wrap_lines, wrapped};
use crate::display::{CharacterRendering, DisplayEncoding, DisplayMode, WrappingMode};

verus! {

/// Where an inline annotation is spliced relative to the byte that it targets.
#[derive(Clone, Copy, Debug, PartialEq, Eq, Structural)]
pub enum AnnotationPlacement {
    /// Immediately before the target byte's rendering.
    Before,
    /// Immediately after the target byte's rendering.
    After,
}

/// An inline text annotation to splice into rendered output at a byte offset, counted
/// from the first byte of the rendered span.
#[derive(Clone, Debug)]
pub struct RenderAnnotation {
    pub offset: usize,
    pub placement: AnnotationPlacement,
    pub text: String,
}

/// What an annotation says, apart from where it stands.
pub ghost struct Mark {
    pub placement: AnnotationPlacement,
    pub text: Seq<char>,
}

impl RenderAnnotation {
    pub open spec fn mark(self) -> Mark {
        Mark { placement: self.placement, text: self.text@ }
    }

    /// A copy that targets `offset`.
    pub fn moved_to(&self, offset: usize) -> (r: RenderAnnotation)
        ensures
            r.offset == offset,
            r.mark() == self.mark(),
    {
        RenderAnnotation { offset, placement: self.placement, text: self.text.clone() }
    }
}

/// What a list of annotations says, in order.
pub open spec fn marks_seq(annotations: Seq<RenderAnnotation>) -> Seq<Mark> {
    annotations.map_values(|a: RenderAnnotation| a.mark())
}

/// The marks of those annotations that target `offset`, in the order of the list.
pub open spec fn marks_at(annotations: Seq<RenderAnnotation>, offset: int) -> Seq<Mark>
    decreases annotations.len(),
{
    if annotations.len() == 0 {
        Seq::empty()
    } else {
        let front = marks_at(annotations.drop_last(), offset);
        if annotations.last().offset == offset {
            front.push(annotations.last().mark())
        } else {
            front
        }
    }
}

/// The marks of a list by the offset that they target.
pub open spec fn marks_of(annotations: Seq<RenderAnnotation>) -> spec_fn(int) -> Seq<Mark> {
    |offset: int| marks_at(annotations, offset)
}

/// The annotations among `marks` with the given placement, in order.
pub open spec fn notes(marks: Seq<Mark>, placement: AnnotationPlacement) -> Seq<Item>
    decreases marks.len(),
{
    if marks.len() == 0 {
        Seq::empty()
    } else {
        let front = notes(marks.drop_last(), placement);
        if marks.last().placement == placement {
            front.push(Item::Note(marks.last().text))
        } else {
            front
        }
    }
}

/// A character between the annotations that target its first byte.
pub open spec fn char_items(c: char, marks: Seq<Mark>) -> Seq<Item> {
    notes(marks, AnnotationPlacement::Before).push(Item::Glyph(c)) + notes(
        marks,
        AnnotationPlacement::After,
    )
}

/// Decoded characters, each between the annotations that target its first byte.
pub open spec fn items_of(chars: Seq<(char, int)>, marks: spec_fn(int) -> Seq<Mark>) -> Seq<Item>
    decreases chars.len(),
{
    if chars.len() == 0 {
        Seq::empty()
    } else {
        items_of(chars.drop_last(), marks) + char_items(chars.last().0, marks(chars.last().1))
    }
}

/// All that a span shows: its characters with their annotations, then the annotations
/// placed before the end of the span.
pub open spec fn span_items(
    bytes: Seq<u8>,
    encoding: DisplayEncoding,
    marks: spec_fn(int) -> Seq<Mark>,
) -> Seq<Item> {
    items_of(decoded(bytes, encoding), marks) + notes(
        marks(bytes.len() as int),
        AnnotationPlacement::Before,
    )
}

/// The annotations stand in the order of their offsets.
pub open spec fn sorted(annotations: Seq<RenderAnnotation>) -> bool {
    forall|i: int, j: int|
        0 <= i <= j < annotations.len() ==> (#[trigger] annotations[i]).offset <= (
        #[trigger] annotations[j]).offset
}

/// Of a sorted list, the marks at one offset are a run of neighbours.
proof fn lemma_run(annotations: Seq<RenderAnnotation>, offset: int, lo: int, hi: int)
    requires
        0 <= lo <= hi <= annotations.len(),
        forall|j: int| 0 <= j < lo ==> (#[trigger] annotations[j]).offset != offset,
        forall|j: int| lo <= j < hi ==> (#[trigger] annotations[j]).offset == offset,
        forall|j: int| hi <= j < annotations.len() ==> (#[trigger] annotations[j]).offset != offset,
    ensures
        marks_at(annotations, offset) == marks_seq(annotations.subrange(lo, hi)),
    decreases annotations.len(),
{
    let n = annotations.len() as int;
    if n == 0 {
        assert(marks_seq(annotations.subrange(lo, hi)) =~= Seq::empty());
    } else {
        let front = annotations.drop_last();
        assert forall|j: int| 0 <= j < n - 1 implies front[j] == annotations[j] by {}
        assert(annotations.last() == annotations[n - 1]);
        if hi == n && lo < hi {
            lemma_run(front, offset, lo, hi - 1);
            assert(annotations.subrange(lo, hi) =~= front.subrange(lo, hi - 1).push(
                annotations.last(),
            ));
            assert(marks_seq(annotations.subrange(lo, hi)) =~= marks_seq(
                front.subrange(lo, hi - 1),
            ).push(annotations.last().mark()));
        } else if hi == n {
            lemma_run(front, offset, lo - 1, hi - 1);
            assert(marks_seq(annotations.subrange(lo, hi)) =~= Seq::empty());
            assert(marks_seq(front.subrange(lo - 1, hi - 1)) =~= Seq::empty());
        } else {
            lemma_run(front, offset, lo, hi);
            assert(annotations.subrange(lo, hi) =~= front.subrange(lo, hi));
        }
    }
}

/// The offsets of decoded characters lie in the span and grow.
pub proof fn law_offsets_grow(bytes: Seq<u8>, encoding: DisplayEncoding, base: int)
    ensures
        bytes.len() > 0 ==> decoded_from(bytes, encoding, base).len() > 0 && decoded_from(
            bytes,
            encoding,
            base,
        )[0].1 == base,
        forall|i: int|
            0 <= i < decoded_from(bytes, encoding, base).len() ==> base <= (
            #[trigger] decoded_from(bytes, encoding, base)[i]).1 < base + bytes.len(),
        forall|i: int, j: int|
            0 <= i < j < decoded_from(bytes, encoding, base).len() ==> (
            #[trigger] decoded_from(bytes, encoding, base)[i]).1 < (
            #[trigger] decoded_from(bytes, encoding, base)[j]).1,
    decreases bytes.len(),
{
    if bytes.len() > 0 {
        let (c, n) = first_char(bytes, encoding);
        law_offsets_grow(bytes.skip(n), encoding, base + n);
        let tail = decoded_from(bytes.skip(n), encoding, base + n);
        let all = decoded_from(bytes, encoding, base);
        assert(all =~= seq![(c, base)] + tail);
        assert forall|i: int| 0 <= i < all.len() implies base <= (#[trigger] all[i]).1 < base
            + bytes.len() by {
            if i > 0 {
                assert(all[i] == tail[i - 1]);
            }
        }
        assert forall|i: int, j: int| 0 <= i < j < all.len() implies (#[trigger] all[i]).1 < (
        #[trigger] all[j]).1 by {
            assert(all[j] == tail[j - 1]);
            if i > 0 {
                assert(all[i] == tail[i - 1]);
            }
        }
    }
}

/// Moving the marks at one offset out of a longer list and into a run leaves the order
/// of the list alone: inserting `a` behind all that do not target a later byte.
proof fn lemma_insert(list: Seq<RenderAnnotation>, at: int, a: RenderAnnotation, offset: int)
    requires
        0 <= at <= list.len(),
        forall|j: int| at <= j < list.len() ==> (#[trigger] list[j]).offset > a.offset,
    ensures
        marks_at(list.insert(at, a), offset) == marks_at(list.push(a), offset),
    decreases list.len(),
{
    if at == list.len() {
        assert(list.insert(at, a) =~= list.push(a));
    } else {
        let front = list.drop_last();
        let b = list.last();
        assert(b == list[list.len() - 1]);
        assert forall|j: int| at <= j < front.len() implies (#[trigger] front[j]).offset
            > a.offset by {
            assert(front[j] == list[j]);
        }
        lemma_insert(front, at, a, offset);
        assert(list.insert(at, a) =~= front.insert(at, a).push(b));
        assert(list =~= front.push(b));
        lemma_marks_push(front.insert(at, a), b, offset);
        lemma_marks_push(front, b, offset);
        lemma_marks_push(front, a, offset);
        lemma_marks_push(list, a, offset);
    }
}

/// Adds `a` to a sorted list, behind those that target the same byte.
fn insert_sorted(list: &mut Vec<RenderAnnotation>, a: RenderAnnotation)
    requires
        sorted(old(list)@),
    ensures
        sorted(final(list)@),
        final(list)@.len() == old(list)@.len() + 1,
        marks_of(final(list)@) == marks_of(old(list)@.push(a)),
{
    let mut at: usize = list.len();
    while at > 0 && list[at - 1].offset > a.offset
        invariant
            at <= list.len(),
            list@ == old(list)@,
            sorted(list@),
            forall|j: int| at <= j < list.len() ==> (#[trigger] list@[j]).offset > a.offset,
        decreases at,
    {
        at = at - 1;
    }
    let ghost before = list@;
    proof {
        assert forall|offset: int| marks_at(before.insert(at as int, a), offset) == marks_at(
            before.push(a),
            offset,
        ) by {
            lemma_insert(before, at as int, a, offset);
        }
        assert(marks_of(before.insert(at as int, a)) =~= marks_of(before.push(a)));
    }
    list.insert(at, a);
    proof {
        assert(list@ == before.insert(at as int, a));
        assert forall|i: int, j: int| 0 <= i <= j < list@.len() implies (#[trigger] list@[i]).offset
            <= (#[trigger] list@[j]).offset by {
            if i < at && j > at {
                assert(list@[j] == before[j - 1]);
            }
        }
    }
}

/// One more annotation adds one more mark.
pub proof fn lemma_marks_push(list: Seq<RenderAnnotation>, a: RenderAnnotation, offset: int)
    ensures
        marks_at(list.push(a), offset) == if a.offset == offset {
            marks_at(list, offset).push(a.mark())
        } else {
            marks_at(list, offset)
        },
{
    assert(list.push(a).drop_last() =~= list);
}

/// The marks of two lists one after the other.
pub proof fn lemma_marks_concat(a: Seq<RenderAnnotation>, b: Seq<RenderAnnotation>, offset: int)
    ensures
        marks_at(a + b, offset) == marks_at(a, offset) + marks_at(b, offset),
    decreases b.len(),
{
    if b.len() == 0 {
        assert(a + b =~= a);
        assert(marks_at(a, offset) + marks_at(b, offset) =~= marks_at(a, offset));
    } else {
        lemma_marks_concat(a, b.drop_last(), offset);
        assert((a + b).drop_last() =~= a + b.drop_last());
        if b.last().offset == offset {
            assert((marks_at(a, offset) + marks_at(b.drop_last(), offset)).push(b.last().mark())
                =~= marks_at(a, offset) + marks_at(b.drop_last(), offset).push(b.last().mark()));
        }
    }
}

/// Adds the annotations of `more`, moved by `shift`, to a sorted list.
pub fn merge_sorted(list: &mut Vec<RenderAnnotation>, more: &[RenderAnnotation], shift: usize)
    requires
        sorted(old(list)@),
        forall|i: int|
            0 <= i < more@.len() ==> (#[trigger] more@[i]).offset + shift <= usize::MAX,
    ensures
        sorted(final(list)@),
        forall|offset: int| #[trigger]
            marks_at(final(list)@, offset) == marks_at(old(list)@, offset) + marks_at(
                more@,
                offset - shift,
            ),
{
    let mut i: usize = 0;
    proof {
        assert(more@.take(0) =~= Seq::empty());
        assert forall|offset: int| #[trigger]
            marks_at(list@, offset) == marks_at(old(list)@, offset) + marks_at(
                more@.take(0),
                offset - shift,
            ) by {
            assert(marks_at(list@, offset) =~= marks_at(old(list)@, offset) + marks_at(
                more@.take(0),
                offset - shift,
            ));
        }
    }
    while i < more.len()
        invariant
            i <= more.len(),
            sorted(list@),
            forall|i: int|
                0 <= i < more@.len() ==> (#[trigger] more@[i]).offset + shift <= usize::MAX,
            forall|offset: int| #[trigger]
                marks_at(list@, offset) == marks_at(old(list)@, offset) + marks_at(
                    more@.take(i as int),
                    offset - shift,
                ),
        decreases more.len() - i,
    {
        let a = more[i].moved_to(more[i].offset + shift);
        let ghost before = list@;
        insert_sorted(list, a);
        i = i + 1;
        proof {
            assert(more@.take(i as int) =~= more@.take(i - 1).push(more@[i - 1]));
            assert forall|offset: int| #[trigger]
                marks_at(list@, offset) == marks_at(old(list)@, offset) + marks_at(
                    more@.take(i as int),
                    offset - shift,
                ) by {
                assert(marks_of(list@)(offset) == marks_of(before.push(a))(offset));
                lemma_marks_push(before, a, offset);
                lemma_marks_push(more@.take(i - 1), more@[i - 1], offset - shift);
                assert(marks_at(before, offset) == marks_at(old(list)@, offset) + marks_at(
                    more@.take(i - 1),
                    offset - shift,
                ));
                assert(marks_at(list@, offset) =~= marks_at(old(list)@, offset) + marks_at(
                    more@.take(i as int),
                    offset - shift,
                ));
            }
        }
    }
    assert(more@.take(i as int) =~= more@);
}

/// Whether the annotations stand in the order of their offsets.
fn is_sorted(annotations: &[RenderAnnotation]) -> (r: bool)
    ensures
        r == sorted(annotations@),
{
    let mut i: usize = 1;
    while i < annotations.len()
        invariant
            1 <= i,
            annotations.len() > 0 ==> i <= annotations.len(),
            forall|p: int, q: int|
                0 <= p <= q < i && q < annotations.len() ==> (#[trigger] annotations@[p]).offset
                    <= (#[trigger] annotations@[q]).offset,
        decreases annotations.len() - i,
    {
        if annotations[i - 1].offset > annotations[i].offset {
            assert(annotations@[i - 1].offset > annotations@[i as int].offset);
            return false;
        }
        i = i + 1;
    }
    true
}

/// Paints those of `annotations[from..to]` that have the given placement.
fn paint_notes(
    painter: &mut Painter,
    annotations: &[RenderAnnotation],
    from: usize,
    to: usize,
    placement: AnnotationPlacement,
)
    requires
        from <= to <= annotations.len(),
        old(painter).wf(),
    ensures
        painted_all(
            *old(painter),
            notes(marks_seq(annotations@.subrange(from as int, to as int)), placement),
            *final(painter),
        ),
{
    let mut i: usize = from;
    assert(marks_seq(annotations@.subrange(from as int, from as int)) =~= Seq::empty());
    assert(painter.out@ =~= old(painter).out@ + Seq::<char>::empty());
    while i < to
        invariant
            from <= i <= to <= annotations.len(),
            painted_all(
                *old(painter),
                notes(marks_seq(annotations@.subrange(from as int, i as int)), placement),
                *painter,
            ),
        decreases to - i,
    {
        let ghost done = notes(
            marks_seq(annotations@.subrange(from as int, i as int)),
            placement,
        );
        let ghost before = *painter;
        let ghost next = marks_seq(annotations@.subrange(from as int, i + 1));
        assert(next.drop_last() =~= marks_seq(annotations@.subrange(from as int, i as int)));
        assert(next.last() == annotations@[i as int].mark());
        if annotations[i].placement == placement {
            painter.note(annotations[i].text.as_str());
            proof {
                lemma_painted_push(
                    *old(painter),
                    done,
                    before,
                    Item::Note(annotations@[i as int].text@),
                    *painter,
                );
            }
        }
        i = i + 1;
    }
}

/// Paints `c` between the annotations `annotations[from..to]`.
fn paint_char(
    painter: &mut Painter,
    annotations: &[RenderAnnotation],
    from: usize,
    to: usize,
    c: char,
)
    requires
        from <= to <= annotations.len(),
        old(painter).wf(),
    ensures
        painted_all(
            *old(painter),
            char_items(c, marks_seq(annotations@.subrange(from as int, to as int))),
            *final(painter),
        ),
{
    let ghost here = marks_seq(annotations@.subrange(from as int, to as int));
    paint_notes(painter, annotations, from, to, AnnotationPlacement::Before);
    let ghost mid = *painter;
    painter.glyph(c);
    let ghost late = *painter;
    paint_notes(painter, annotations, from, to, AnnotationPlacement::After);
    proof {
        let lead = notes(here, AnnotationPlacement::Before);
        let tail = notes(here, AnnotationPlacement::After);
        lemma_painted_push(*old(painter), lead, mid, Item::Glyph(c), late);
        lemma_painted_concat(*old(painter), lead.push(Item::Glyph(c)), late, tail, *painter);
    }
}

/// `next` is `start` after painting `items`.
pub open spec fn painted_all(start: Painter, items: Seq<Item>, next: Painter) -> bool {
    let (text, pen) = paint(start.style(), start.pen(), items);
    &&& next.wf()
    &&& next.style() == start.style()
    &&& next.out@ == start.out@ + text
    &&& next.pen() == pen
}

proof fn lemma_painted_push(
    start: Painter,
    items: Seq<Item>,
    mid: Painter,
    item: Item,
    end: Painter,
)
    requires
        painted_all(start, items, mid),
        mid.painted(item, end),
    ensures
        painted_all(start, items.push(item), end),
{
    assert(items.push(item).drop_last() =~= items);
    let (text, pen) = paint(start.style(), start.pen(), items);
    let (more, _) = crate::display::paint::paint_item(start.style(), pen, item);
    assert(start.out@ + text + more =~= start.out@ + (text + more));
}

proof fn lemma_painted_concat(start: Painter, a: Seq<Item>, mid: Painter, b: Seq<Item>, end: Painter)
    requires
        painted_all(start, a, mid),
        painted_all(mid, b, end),
    ensures
        painted_all(start, a + b, end),
{
    law_paint_concat(start.style(), start.pen(), a, b);
    let (s, p) = paint(start.style(), start.pen(), a);
    let (t, q) = paint(start.style(), p, b);
    assert(start.out@ + s + t =~= start.out@ + (s + t));
}

/// Paints a span: its characters, each between the annotations that target it, then
/// the annotations placed before the end. Annotations past the end, and those that
/// target a byte inside a character, are not shown.
pub fn paint_span(
    painter: &mut Painter,
    bytes: &[u8],
    encoding: DisplayEncoding,
    annotations: &[RenderAnnotation],
)
    requires
        old(painter).wf(),
        sorted(annotations@),
    ensures
        painted_all(
            *old(painter),
            span_items(bytes@, encoding, marks_of(annotations@)),
            *final(painter),
        ),
{
    let chars: Vec<(char, usize)> = decode_with_offsets(bytes, encoding);
    let ghost model = decoded(bytes@, encoding);
    let ghost marks = marks_of(annotations@);
    let n: usize = annotations.len();
    let mut next: usize = 0;
    let mut i: usize = 0;
    proof {
        law_offsets_grow(bytes@, encoding, 0);
        assert(model.len() == chars@.len());
        assert forall|k: int| 0 <= k < model.len() implies model[k] == (
            chars@[k].0,
            chars@[k].1 as int,
        ) by {
            assert(chars@.map_values(|p: (char, usize)| (p.0, p.1 as int))[k] == model[k]);
        }
        assert(model.take(0) =~= Seq::empty());
        assert(painter.out@ =~= old(painter).out@ + Seq::<char>::empty());
    }
    while i < chars.len()
        invariant
            i <= chars.len(),
            next <= n,
            n == annotations.len(),
            sorted(annotations@),
            marks == marks_of(annotations@),
            model == decoded(bytes@, encoding),
            model.len() == chars@.len(),
            forall|k: int|
                0 <= k < model.len() ==> #[trigger] model[k] == (chars@[k].0, chars@[k].1 as int),
            forall|p: int, q: int|
                0 <= p < q < model.len() ==> (#[trigger] model[p]).1 < (#[trigger] model[q]).1,
            forall|j: int|
                0 <= j < next ==> exists|k: int|
                    0 <= k < i && (#[trigger] annotations@[j]).offset <= (#[trigger] model[k]).1,
            painted_all(*old(painter), items_of(model.take(i as int), marks), *painter),
        decreases chars.len() - i,
    {
        let (c, offset) = chars[i];
        assert(model[i as int] == (c, offset as int));
        let ghost before = *painter;
        proof {
            assert forall|j: int| 0 <= j < next implies (#[trigger] annotations@[j]).offset
                < offset by {
                let k = choose|k: int|
                    0 <= k < i && annotations@[j].offset <= (#[trigger] model[k]).1;
                assert(model[k].1 < model[i as int].1);
            }
        }
        let (start, end) = run_at(annotations, next, offset);
        next = end;
        proof {
            lemma_run(annotations@, offset as int, start as int, end as int);
            assert(marks(offset as int) == marks_seq(
                annotations@.subrange(start as int, end as int),
            ));
        }
        paint_char(painter, annotations, start, end, c);
        proof {
            let done = items_of(model.take(i as int), marks);
            let here = char_items(c, marks(offset as int));
            lemma_painted_concat(*old(painter), done, before, here, *painter);
            assert(model.take(i + 1).drop_last() =~= model.take(i as int));
            assert(model.take(i + 1).last() == model[i as int]);
            assert forall|j: int| 0 <= j < next implies exists|k: int|
                0 <= k < i + 1 && (#[trigger] annotations@[j]).offset <= (#[trigger] model[k]).1 by {
                assert(annotations@[j].offset <= model[i as int].1);
            }
        }
        i = i + 1;
    }
    let ghost before = *painter;
    proof {
        assert(model.take(i as int) =~= model);
        assert forall|j: int| 0 <= j < next implies (#[trigger] annotations@[j]).offset
            < bytes.len() by {
            let k = choose|k: int| 0 <= k < i && annotations@[j].offset <= (#[trigger] model[k]).1;
            assert(decoded_from(bytes@, encoding, 0)[k].1 < bytes.len());
        }
    }
    let (start, end) = run_at(annotations, next, bytes.len());
    proof {
        lemma_run(annotations@, bytes.len() as int, start as int, end as int);
    }
    paint_notes(painter, annotations, start, end, AnnotationPlacement::Before);
    proof {
        lemma_painted_concat(
            *old(painter),
            items_of(model, marks),
            before,
            notes(marks(bytes.len() as int), AnnotationPlacement::Before),
            *painter,
        );
    }
}

/// The run of annotations that target `offset`, searched from `next` on.
fn run_at(annotations: &[RenderAnnotation], next: usize, offset: usize) -> (r: (usize, usize))
    requires
        next <= annotations.len(),
        sorted(annotations@),
        forall|j: int| 0 <= j < next ==> (#[trigger] annotations@[j]).offset < offset,
    ensures
        next <= r.0 <= r.1 <= annotations.len(),
        forall|j: int| 0 <= j < r.0 ==> (#[trigger] annotations@[j]).offset < offset,
        forall|j: int| r.0 <= j < r.1 ==> (#[trigger] annotations@[j]).offset == offset,
        forall|j: int| r.1 <= j < annotations.len() ==> (#[trigger] annotations@[j]).offset > offset,
{
    let mut start: usize = next;
    while start < annotations.len() && annotations[start].offset < offset
        invariant
            next <= start <= annotations.len(),
            forall|j: int| 0 <= j < start ==> (#[trigger] annotations@[j]).offset < offset,
        decreases annotations.len() - start,
    {
        start = start + 1;
    }
    let mut end: usize = start;
    proof {
        assert forall|j: int| start <= j < annotations.len() implies (
        #[trigger] annotations@[j]).offset >= offset by {
            assert(annotations@[start as int].offset <= annotations@[j].offset);
        }
    }
    while end < annotations.len() && annotations[end].offset == offset
        invariant
            start <= end <= annotations.len(),
            forall|j: int| start <= j < end ==> (#[trigger] annotations@[j]).offset == offset,
        decreases annotations.len() - end,
    {
        end = end + 1;
    }
    proof {
        assert forall|j: int| end <= j < annotations.len() implies (
        #[trigger] annotations@[j]).offset > offset by {
            assert(annotations@[end as int].offset <= annotations@[j].offset);
        }
    }
    (start, end)
}

/// The settings of a view that affect its text. Purely visual options (font, colors)
/// live in the configuration.
#[derive(Debug)]
pub struct DisplayView {
    pub mode: DisplayMode,
    pub encoding: DisplayEncoding,
    pub character_rendering: CharacterRendering,
    pub wrapping: WrappingMode,
    /// View width in columns; wrapping is applied only when this is `Some`.
    pub wrap_width: Option<usize>,
    pub hex_separator: String,
    /// Bytes per line for Hex display when wrapping.
    pub hex_bytes_per_line: usize,
}

impl Clone for DisplayView {
    fn clone(&self) -> (r: DisplayView)
        ensures
            r == *self,
    {
        DisplayView {
            mode: self.mode,
            encoding: self.encoding,
            character_rendering: self.character_rendering,
            wrapping: self.wrapping,
            wrap_width: self.wrap_width,
            hex_separator: self.hex_separator.clone(),
            hex_bytes_per_line: self.hex_bytes_per_line,
        }
    }
}

impl Default for DisplayView {
    fn default() -> (r: DisplayView)
        ensures
            r.mode == DisplayMode::Raw,
            r.encoding == DisplayEncoding::Utf8,
            r.character_rendering == CharacterRendering::Native,
            r.wrapping == WrappingMode::NoWrap,
            r.wrap_width is None,
            r.hex_separator@ == " "@,
            r.hex_bytes_per_line == 16,
    {
        DisplayView {
            mode: DisplayMode::Raw,
            encoding: DisplayEncoding::Utf8,
            character_rendering: CharacterRendering::Native,
            wrapping: WrappingMode::NoWrap,
            wrap_width: None,
            hex_separator: " ".to_owned(),
            hex_bytes_per_line: 16,
        }
    }
}

impl DisplayView {
    /// The units that the view shows: bytes in Hex mode, characters otherwise.
    pub open spec fn units(self) -> DisplayEncoding {
        if self.mode is Hex {
            DisplayEncoding::Latin1
        } else {
            self.encoding
        }
    }

    /// How the view paints a whole span at once.
    pub open spec fn style(self) -> Style {
        Style {
            mode: self.mode,
            rendering: self.character_rendering,
            width: if self.wrapping is Wrap {
                limit(self.wrap_width)
            } else {
                None
            },
            per_line: if self.wrapping is Wrap {
                limit(Some(self.hex_bytes_per_line))
            } else {
                None
            },
            separator: self.hex_separator@,
        }
    }

    /// The text of a span with its marks.
    pub open spec fn shown(self, bytes: Seq<u8>, marks: spec_fn(int) -> Seq<Mark>) -> Seq<char> {
        let text = paint(self.style(), pen_start(), span_items(bytes, self.units(), marks)).0;
        if self.mode is Rendered && self.wrapping is Wrap {
            wrapped(text, self.wrap_width)
        } else {
            text
        }
    }

    /// Renders received bytes to the view's text.
    pub fn render_text(&self, bytes: &[u8]) -> (r: String)
        ensures
            r@ == self.shown(bytes@, |offset: int| Seq::empty()),
    {
        let none: Vec<RenderAnnotation> = Vec::new();
        proof {
            assert(marks_of(none@) =~= (|offset: int| Seq::<Mark>::empty()));
        }
        self.render_text_annotated(bytes, none.as_slice())
    }

    /// Renders received bytes, with `annotations` spliced before or after their target
    /// bytes in every mode. They may come in any order; those that target one byte keep
    /// theirs. Offsets past the end of the span are ignored.
    pub fn render_text_annotated(&self, bytes: &[u8], annotations: &[RenderAnnotation]) -> (r:
        String)
        ensures
            r@ == self.shown(bytes@, marks_of(annotations@)),
    {
        let wrap: bool = self.wrapping == WrappingMode::Wrap;
        let mut painter = Painter {
            mode: self.mode,
            rendering: self.character_rendering,
            width: if wrap {
                self.wrap_width
            } else {
                None
            },
            per_line: if wrap {
                Some(self.hex_bytes_per_line)
            } else {
                None
            },
            separator: self.hex_separator.as_str(),
            out: String::new(),
            col: 0,
            cells: 0,
            line: 0,
        };
        let encoding: DisplayEncoding = if self.mode == DisplayMode::Hex {
            DisplayEncoding::Latin1
        } else {
            self.encoding
        };
        assert(painter.style() == self.style());
        if is_sorted(annotations) {
            paint_span(&mut painter, bytes, encoding, annotations);
        } else {
            let mut ordered: Vec<RenderAnnotation> = Vec::new();
            merge_sorted(&mut ordered, annotations, 0);
            proof {
                let none = Seq::<RenderAnnotation>::empty();
                assert forall|offset: int| marks_at(ordered@, offset) == #[trigger] marks_at(
                    annotations@,
                    offset,
                ) by {
                    assert(marks_at(none, offset) + marks_at(annotations@, offset) =~= marks_at(
                        annotations@,
                        offset,
                    ));
                }
                assert(marks_of(ordered@) =~= marks_of(annotations@));
            }
            paint_span(&mut painter, bytes, encoding, ordered.as_slice());
        }
        let text = painter.out;
        assert(text@ =~= paint(
            self.style(),
            pen_start(),
            span_items(bytes@, self.units(), marks_of(annotations@)),
        ).0);
        if wrap && self.mode == DisplayMode::Rendered {
            wrap_lines(text, self.wrap_width)
        } else {
            text
        }
    }
}

} // verus!
