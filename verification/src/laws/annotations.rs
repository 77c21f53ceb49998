//! How annotations take part in the layout of rendered text and hex dumps.

use vstd::prelude::*;

use crate::display::paint::{
    advance, advance_all, is_break, last_break, paint, paint_item, Item, Pen, Style,
};
use crate::laws::display::two_digits;
use crate::laws::text::law_hex_pair_says_the_byte;

verus! {

/// A character that ends a line.
pub open spec fn ends_line(c: char) -> bool {
    c as u32 == 10 || c as u32 == 13
}

/// No character of a text ends a line.
pub open spec fn one_line(t: Seq<char>) -> bool {
    forall|i: int| 0 <= i < t.len() ==> !ends_line(#[trigger] t[i])
}

/// The column behind a text that begins a line: a tab goes on to the next multiple of
/// eight, other control characters and DEL take no room, all else takes one column.
pub open spec fn screen_column(t: Seq<char>) -> int
    decreases t.len(),
{
    if t.len() == 0 {
        0
    } else {
        let before = screen_column(t.drop_last());
        let code = t.last() as u32;
        if code == 9 {
            before - before % 8 + 8
        } else if code < 32 || code == 127 {
            before
        } else {
            before + 1
        }
    }
}

proof fn lemma_screen_column(t: Seq<char>)
    ensures
        screen_column(t) >= 0,
        advance_all(0, t) == screen_column(t) % 8,
    decreases t.len(),
{
    if t.len() > 0 {
        lemma_screen_column(t.drop_last());
        lemma_advance(screen_column(t.drop_last()), t.last());
    }
}

proof fn lemma_advance(before: int, c: char)
    requires
        before >= 0,
    ensures
        advance(before % 8, c) == (if c as u32 == 9 {
            before - before % 8 + 8
        } else if (c as u32) < 32 || c as u32 == 127 {
            before
        } else {
            before + 1
        }) % 8,
{
}

proof fn lemma_ends_line(c: char)
    ensures
        is_break(c) <==> ends_line(c),
{
}

/// Where the last line of a text begins.
proof fn lemma_last_break(t: Seq<char>, k: int)
    requires
        -1 <= k < t.len(),
        k >= 0 ==> ends_line(t[k]),
        one_line(t.skip(k + 1)),
    ensures
        last_break(t) == k,
    decreases t.len() - k,
{
    if t.len() > 0 {
        lemma_ends_line(t.last());
        if k == t.len() - 1 {
        } else {
            let front = t.drop_last();
            let rest = t.skip(k + 1);
            assert(rest[rest.len() - 1] == t.last());
            assert forall|i: int| 0 <= i < front.skip(k + 1).len() implies !ends_line(
                #[trigger] front.skip(k + 1)[i],
            ) by {
                assert(front.skip(k + 1)[i] == rest[i]);
            }
            lemma_last_break(front, k);
        }
    }
}

/// In Rendered mode an annotation stands as it is. One without a line end takes no room
/// for tabs: a tab behind it goes to the stop that it goes to without it. Behind one with a
/// line end columns count from the last one.
pub proof fn law_tabs_behind_annotations(style: Style, pen: Pen, t: Seq<char>, k: int)
    requires
        style.mode is Rendered,
        0 <= pen.col < 8,
        -1 <= k < t.len(),
        k >= 0 ==> ends_line(t[k]),
        one_line(t.skip(k + 1)),
    ensures
        ({
            let shown = paint(style, pen, seq![Item::Note(t), Item::Glyph('\t')]).0;
            let column = if k < 0 {
                pen.col
            } else {
                screen_column(t.skip(k + 1))
            };
            let blanks = shown.len() - t.len();
            &&& 1 <= blanks <= 8
            &&& shown.take(t.len() as int) == t
            &&& forall|i: int| t.len() <= i < shown.len() ==> #[trigger] shown[i] == ' '
            &&& (column + blanks) % 8 == 0
        }),
{
    let items = seq![Item::Note(t), Item::Glyph('\t')];
    lemma_two(style, pen, items[0], items[1]);
    lemma_last_break(t, k);
    lemma_screen_column(t.skip(k + 1));
    let shown = paint(style, pen, items).0;
    assert(shown.take(t.len() as int) =~= t);
}

proof fn lemma_two(style: Style, pen: Pen, a: Item, b: Item)
    ensures
        ({
            let (x, p) = paint_item(style, pen, a);
            let (y, q) = paint_item(style, p, b);
            paint(style, pen, seq![a, b]) == (x + y, q)
        }),
{
    let items = seq![a, b];
    reveal_with_fuel(paint, 3);
    assert(items.drop_last() =~= seq![a]);
    assert(seq![a].drop_last() =~= Seq::<Item>::empty());
    let (x, p) = paint_item(style, pen, a);
    assert(Seq::<char>::empty() + x =~= x);
}

/// What stands before a cell of a hex dump that `cells` cells precede on its line.
pub open spec fn gap(separator: Seq<char>, per_line: Option<int>, cells: int) -> Seq<char> {
    if cells == 0 {
        Seq::empty()
    } else if per_line is Some && per_line->0 <= cells {
        seq!['\n']
    } else {
        separator
    }
}

/// In a hex dump an annotation stands as it is, as one cell of its line. Behind one that
/// ends in a line end a line begins; behind the last line of one that holds a line end the
/// dump goes on as behind a first cell.
#[verifier::rlimit(40)]
pub proof fn law_annotations_are_cells_of_a_hex_dump(
    style: Style,
    pen: Pen,
    t: Seq<char>,
    k: int,
    b: u8,
)
    requires
        style.mode is Hex,
        0 <= pen.cells < usize::MAX - 1,
        style.per_line is Some ==> style.per_line->0 > 0,
        -1 <= k < t.len(),
        k >= 0 ==> ends_line(t[k]),
        one_line(t.skip(k + 1)),
    ensures
        ({
            let full = style.per_line is Some && style.per_line->0 <= pen.cells;
            let cells = if k < 0 {
                if full {
                    1
                } else {
                    pen.cells + 1
                }
            } else if k == t.len() - 1 {
                0
            } else {
                1
            };
            paint(style, pen, seq![Item::Note(t), Item::Glyph(b as char)]).0 == gap(
                style.separator,
                style.per_line,
                pen.cells,
            ) + t + gap(style.separator, style.per_line, cells) + two_digits(b)
        }),
{
    let items = seq![Item::Note(t), Item::Glyph(b as char)];
    lemma_two(style, pen, items[0], items[1]);
    lemma_last_break(t, k);
    law_hex_pair_says_the_byte(b);
    assert((b as char) as u8 == b);
    let (x, p) = paint_item(style, pen, items[0]);
    let (y, q) = paint_item(style, p, items[1]);
    let lead = gap(style.separator, style.per_line, pen.cells);
    assert(crate::text::hex_pair(b) =~= two_digits(b));
    assert(x =~= lead + t);
    let next = gap(style.separator, style.per_line, p.cells);
    assert(y =~= next + two_digits(b));
    assert(x + y =~= lead + t + next + two_digits(b));
}

} // verus!
