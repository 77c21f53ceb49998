//! How a view renders characters, and where annotations stand.

use vstd::prelude::*;

use crate::display::encoding::decoded;
use crate::display::paint::{
    break_at, char_text, paint, paint_item, pen_start, raw_lines, special, Item, Pen, Style,
};
use crate::display::render::{
    char_items, items_of, marks_at, marks_of, notes, span_items, AnnotationPlacement, DisplayView,
    RenderAnnotation,
};
use crate::laws::display::{lemma_unmarked_items, unmarked};
use crate::laws::encoding::chars_in;

verus! {

/// How many characters stand behind the last line feed.
pub open spec fn column(t: Seq<char>) -> nat
    decreases t.len(),
{
    if t.len() == 0 || t.last() == '\n' {
        0
    } else {
        column(t.drop_last()) + 1
    }
}

/// What one more character adds to text that is rendered as a terminal would: a line feed
/// begins a line, a tab fills up to the next column that is a multiple of eight, other
/// control characters and DEL show nothing, all else shows as it is.
pub open spec fn terminal_step(before: Seq<char>, c: char, after: Seq<char>) -> bool {
    let code = c as u32;
    if code == 10 {
        after == before.push('\n')
    } else if code == 9 {
        &&& after.len() > before.len()
        &&& after.len() <= before.len() + 8
        &&& after.subrange(0, before.len() as int) == before
        &&& forall|i: int| before.len() <= i < after.len() ==> #[trigger] after[i] == ' '
        &&& column(after) % 8 == 0
    } else if code < 32 || code == 127 {
        after == before
    } else {
        after == before.push(c)
    }
}

proof fn lemma_column_push(t: Seq<char>, c: char)
    ensures
        column(t.push(c)) == if c == '\n' {
            0
        } else {
            column(t) + 1
        },
{
    assert(t.push(c).drop_last() =~= t);
}

proof fn lemma_column_spaces(t: Seq<char>, n: nat)
    ensures
        column(t + Seq::new(n, |i: int| ' ')) == column(t) + n,
    decreases n,
{
    let s = Seq::new(n, |i: int| ' ');
    if n == 0 {
        assert(t + s =~= t);
    } else {
        let less = Seq::new((n - 1) as nat, |i: int| ' ');
        lemma_column_spaces(t, (n - 1) as nat);
        assert(t + s =~= (t + less).push(' '));
        lemma_column_push(t + less, ' ');
    }
}

proof fn lemma_rendered_column(style: Style, items: Seq<Item>)
    requires
        style.mode is Rendered,
        forall|i: int| 0 <= i < items.len() ==> #[trigger] items[i] is Glyph,
    ensures
        paint(style, pen_start(), items).1.col == column(paint(style, pen_start(), items).0) % 8,
    decreases items.len(),
{
    if items.len() > 0 {
        let front = items.drop_last();
        assert forall|i: int| 0 <= i < front.len() implies #[trigger] front[i] is Glyph by {
            assert(front[i] == items[i]);
        }
        lemma_rendered_column(style, front);
        let (text, pen) = paint(style, pen_start(), front);
        assert(items.last() == items[items.len() - 1]);
        lemma_terminal_step(style, text, pen, items.last()->Glyph_0);
    }
}

proof fn lemma_terminal_step(style: Style, text: Seq<char>, pen: Pen, c: char)
    requires
        style.mode is Rendered,
        pen.col == column(text) % 8,
    ensures
        ({
            let (more, p) = paint_item(style, pen, Item::Glyph(c));
            &&& terminal_step(text, c, text + more)
            &&& p.col == column(text + more) % 8
        }),
{
    let (more, p) = paint_item(style, pen, Item::Glyph(c));
    if c == '\n' {
        assert(text + more =~= text.push('\n'));
        lemma_column_push(text, '\n');
    } else if c == '\t' {
        let n = (8 - pen.col) as nat;
        assert(more =~= Seq::new(n, |i: int| ' '));
        lemma_column_spaces(text, n);
        assert(text + more =~= text + Seq::new(n, |i: int| ' '));
        assert((text + more).subrange(0, text.len() as int) =~= text);
    } else if special(c) && c != ' ' {
        assert(text + more =~= text);
    } else {
        assert(text + more =~= text.push(c));
        lemma_column_push(text, c);
    }
}

proof fn lemma_one_more(a: Seq<(char, int)>, b: Seq<(char, int)>, c: char)
    requires
        chars_in(b) == chars_in(a).push(c),
    ensures
        b.len() == a.len() + 1,
        forall|i: int| 0 <= i < a.len() ==> (#[trigger] b[i]).0 == a[i].0,
        b[a.len() as int].0 == c,
{
    assert(chars_in(a).len() == a.len());
    assert(chars_in(b).len() == b.len());
    assert forall|i: int| 0 <= i < a.len() implies (#[trigger] b[i]).0 == a[i].0 by {
        assert(chars_in(b)[i] == chars_in(a)[i]);
    }
    assert(chars_in(b)[a.len() as int] == c);
}

/// In Rendered mode without wrapping one more character adds what it adds on a terminal.
pub proof fn law_rendered_is_terminal_text(view: DisplayView, a: Seq<u8>, b: Seq<u8>, c: char)
    requires
        view.mode is Rendered,
        view.wrapping is NoWrap,
        chars_in(decoded(b, view.encoding)) == chars_in(decoded(a, view.encoding)).push(c),
    ensures
        terminal_step(view.shown(a, unmarked()), c, view.shown(b, unmarked())),
{
    let da = decoded(a, view.encoding);
    let db = decoded(b, view.encoding);
    lemma_unmarked_items(da);
    lemma_unmarked_items(db);
    let ia = span_items(a, view.units(), unmarked());
    let ib = span_items(b, view.units(), unmarked());
    assert(ia =~= items_of(da, unmarked()));
    assert(ib =~= items_of(db, unmarked()));
    lemma_one_more(da, db, c);
    assert forall|i: int| 0 <= i < ia.len() implies ib.drop_last()[i] == ia[i] by {
        assert(db[i].0 == da[i].0);
        assert(ia[i] == Item::Glyph(da[i].0));
        assert(ib[i] == Item::Glyph(db[i].0));
    }
    assert(db.len() == da.len() + 1);
    assert(ib.drop_last() =~= ia);
    assert(ib.last() == Item::Glyph(c)) by {
        assert(ib[da.len() as int] == Item::Glyph(db[da.len() as int].0));
    }
    assert forall|i: int| 0 <= i < ia.len() implies #[trigger] ia[i] is Glyph by {
        assert(ia[i] == Item::Glyph(da[i].0));
    }
    lemma_rendered_column(view.style(), ia);
    let (text, pen) = paint(view.style(), pen_start(), ia);
    lemma_terminal_step(view.style(), text, pen, c);
}

/// Nothing received, nothing shown.
pub proof fn law_nothing_received_shows_nothing(view: DisplayView)
    ensures
        view.wrapping is NoWrap ==> view.shown(Seq::empty(), unmarked()).len() == 0,
{
    let none = Seq::<u8>::empty();
    assert(decoded(none, view.units()) =~= Seq::empty());
    assert(span_items(none, view.units(), unmarked()) =~= Seq::empty());
}

/// The texts of the annotations that target `offset` with a placement, in the order of the
/// list.
pub open spec fn texts_at(
    list: Seq<RenderAnnotation>,
    offset: int,
    placement: AnnotationPlacement,
) -> Seq<char>
    decreases list.len(),
{
    if list.len() == 0 {
        Seq::empty()
    } else {
        let front = texts_at(list.drop_last(), offset, placement);
        if list.last().offset == offset && list.last().placement == placement {
            front + list.last().text@
        } else {
            front
        }
    }
}

/// The text of what is shown, where nothing is wrapped.
spec fn item_texts(style: Style, items: Seq<Item>) -> Seq<char>
    decreases items.len(),
{
    if items.len() == 0 {
        Seq::empty()
    } else {
        item_texts(style, items.drop_last()) + match items.last() {
            Item::Glyph(c) => char_text(style.rendering, c),
            Item::Note(t) => t,
        }
    }
}

proof fn lemma_break_within(t: Seq<char>)
    ensures
        0 <= break_at(t) <= t.len(),
    decreases t.len(),
{
    if t.len() > 0 {
        lemma_break_within(t.skip(1));
    }
}

proof fn lemma_unwrapped_note(style: Style, line: int, t: Seq<char>)
    requires
        style.width is None,
    ensures
        raw_lines(style, line, t).0 == t,
    decreases t.len(),
{
    lemma_break_within(t);
    let i = break_at(t);
    if i < t.len() {
        lemma_unwrapped_note(style, 0, t.skip(i + 1));
    }
    assert(raw_lines(style, line, t).0 =~= t);
}

proof fn lemma_raw_texts(style: Style, pen: Pen, items: Seq<Item>)
    requires
        style.mode is Raw,
        style.width is None,
    ensures
        paint(style, pen, items).0 == item_texts(style, items),
    decreases items.len(),
{
    if items.len() > 0 {
        lemma_raw_texts(style, pen, items.drop_last());
        let (text, p) = paint(style, pen, items.drop_last());
        if let Item::Note(t) = items.last() {
            lemma_unwrapped_note(style, p.line, t);
        }
    }
}

proof fn lemma_texts_concat(style: Style, a: Seq<Item>, b: Seq<Item>)
    ensures
        item_texts(style, a + b) == item_texts(style, a) + item_texts(style, b),
    decreases b.len(),
{
    if b.len() == 0 {
        assert(a + b =~= a);
        assert(item_texts(style, a) + item_texts(style, b) =~= item_texts(style, a));
    } else {
        lemma_texts_concat(style, a, b.drop_last());
        assert((a + b).drop_last() =~= a + b.drop_last());
        let last = match b.last() {
            Item::Glyph(c) => char_text(style.rendering, c),
            Item::Note(t) => t,
        };
        assert(item_texts(style, a) + item_texts(style, b.drop_last()) + last =~= item_texts(
            style,
            a,
        ) + (item_texts(style, b.drop_last()) + last));
    }
}

proof fn lemma_note_texts(
    style: Style,
    list: Seq<RenderAnnotation>,
    offset: int,
    placement: AnnotationPlacement,
)
    ensures
        item_texts(style, notes(marks_at(list, offset), placement)) == texts_at(
            list,
            offset,
            placement,
        ),
    decreases list.len(),
{
    if list.len() > 0 {
        let front = list.drop_last();
        lemma_note_texts(style, front, offset, placement);
        assert(front.push(list.last()) =~= list);
        crate::display::render::lemma_marks_push(front, list.last(), offset);
        let m = marks_at(list, offset);
        let less = marks_at(front, offset);
        if list.last().offset == offset {
            assert(m.drop_last() =~= less);
            let n = notes(less, placement);
            if list.last().placement == placement {
                assert(notes(m, placement) == n.push(Item::Note(list.last().text@)));
                assert(notes(m, placement).drop_last() =~= n);
            }
        }
    }
}

/// A character between the annotations of its byte, in Raw mode.
pub open spec fn splice(
    view: DisplayView,
    c: char,
    offset: int,
    list: Seq<RenderAnnotation>,
) -> Seq<char> {
    texts_at(list, offset, AnnotationPlacement::Before) + char_text(view.character_rendering, c)
        + texts_at(list, offset, AnnotationPlacement::After)
}

/// What Raw mode shows of characters and their annotations: before each character the
/// texts placed before it, behind it those placed after it.
pub open spec fn spliced(
    view: DisplayView,
    chars: Seq<(char, int)>,
    list: Seq<RenderAnnotation>,
) -> Seq<char>
    decreases chars.len(),
{
    if chars.len() == 0 {
        Seq::empty()
    } else {
        spliced(view, chars.drop_last(), list) + splice(
            view,
            chars.last().0,
            chars.last().1,
            list,
        )
    }
}

proof fn lemma_splice(view: DisplayView, c: char, offset: int, list: Seq<RenderAnnotation>)
    ensures
        item_texts(view.style(), char_items(c, marks_at(list, offset))) == splice(
            view,
            c,
            offset,
            list,
        ),
{
    let style = view.style();
    let marks = marks_at(list, offset);
    let front = notes(marks, AnnotationPlacement::Before);
    let back = notes(marks, AnnotationPlacement::After);
    lemma_note_texts(style, list, offset, AnnotationPlacement::Before);
    lemma_note_texts(style, list, offset, AnnotationPlacement::After);
    lemma_glyph_text(style, front, c);
    lemma_texts_concat(style, front.push(Item::Glyph(c)), back);
}

proof fn lemma_spliced(view: DisplayView, chars: Seq<(char, int)>, list: Seq<RenderAnnotation>)
    ensures
        item_texts(view.style(), items_of(chars, marks_of(list))) == spliced(view, chars, list),
    decreases chars.len(),
{
    if chars.len() > 0 {
        lemma_spliced(view, chars.drop_last(), list);
        lemma_splice(view, chars.last().0, chars.last().1, list);
        lemma_texts_concat(
            view.style(),
            items_of(chars.drop_last(), marks_of(list)),
            char_items(chars.last().0, marks_at(list, chars.last().1)),
        );
    }
}

proof fn lemma_glyph_text(style: Style, items: Seq<Item>, c: char)
    ensures
        item_texts(style, items.push(Item::Glyph(c))) == item_texts(style, items) + char_text(
            style.rendering,
            c,
        ),
{
    assert(items.push(Item::Glyph(c)).drop_last() =~= items);
}

/// In Raw mode without wrapping an annotation stands right before or right behind the
/// character that its byte begins, those for one byte in the order of the list, and those
/// placed before the end of the span at its end. All else is shown as without them.
pub proof fn law_annotations_stand_at_their_bytes(
    view: DisplayView,
    bytes: Seq<u8>,
    list: Seq<RenderAnnotation>,
)
    requires
        view.mode is Raw,
        view.wrapping is NoWrap,
    ensures
        view.shown(bytes, marks_of(list)) == spliced(view, decoded(bytes, view.encoding), list)
            + texts_at(list, bytes.len() as int, AnnotationPlacement::Before),
{
    let chars = decoded(bytes, view.encoding);
    let items = items_of(chars, marks_of(list));
    let end = notes(marks_at(list, bytes.len() as int), AnnotationPlacement::Before);
    lemma_raw_texts(view.style(), pen_start(), items + end);
    lemma_texts_concat(view.style(), items, end);
    lemma_spliced(view, chars, list);
    lemma_note_texts(view.style(), list, bytes.len() as int, AnnotationPlacement::Before);
}

} // verus!
