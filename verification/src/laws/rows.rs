//! How text is cut into rows.

use vstd::prelude::*;

use crate::display::rows::{joined, law_last_row_is_open, law_rows_push, text_rows, wrapped};

verus! {

/// The rows one after the other, with a line feed between two where `feeds` says so.
pub open spec fn glued(rows: Seq<Seq<char>>, feeds: Seq<bool>) -> Seq<char>
    decreases rows.len(),
{
    if rows.len() == 0 {
        Seq::empty()
    } else if rows.len() == 1 {
        rows[0]
    } else {
        let front = glued(rows.drop_last(), feeds.drop_last());
        if feeds.last() {
            front + seq!['\n'] + rows.last()
        } else {
            front + rows.last()
        }
    }
}

/// Rows of at most `width` characters without line feeds. Between two of them the text
/// has a line feed, or the first is full and the text goes on.
pub open spec fn cut(rows: Seq<Seq<char>>, feeds: Seq<bool>, width: int) -> bool {
    &&& rows.len() > 0
    &&& feeds.len() == rows.len() - 1
    &&& forall|i: int| 0 <= i < rows.len() ==> (#[trigger] rows[i]).len() <= width
    &&& forall|i: int| 0 <= i < rows.len() ==> !(#[trigger] rows[i]).contains('\n')
    &&& forall|i: int|
        0 <= i < feeds.len() && !(#[trigger] feeds[i]) ==> rows[i].len() == width && rows[i
            + 1].len() > 0
}

/// The rows of a text hold all of it, in order: a row ends where a line ends, or where it
/// is full.
pub proof fn law_rows_hold_the_text(t: Seq<char>, width: int) -> (feeds: Seq<bool>)
    requires
        width > 0,
    ensures
        cut(text_rows(t, width), feeds, width),
        glued(text_rows(t, width), feeds) == t,
    decreases t.len(),
{
    let rows = text_rows(t, width);
    law_last_row_is_open(t, width);
    if t.len() == 0 {
        assert(rows =~= seq![t]);
        Seq::empty()
    } else {
        let front = t.drop_last();
        let c = t.last();
        let before = text_rows(front, width);
        let feeds = law_rows_hold_the_text(front, width);
        law_last_row_is_open(front, width);
        assert(front.push(c) =~= t);
        law_rows_push(front, c, width);
        lemma_row_pushed(before, feeds, rows, c, width, front)
    }
}

proof fn lemma_row_pushed(
    before: Seq<Seq<char>>,
    feeds: Seq<bool>,
    rows: Seq<Seq<char>>,
    c: char,
    width: int,
    front: Seq<char>,
) -> (next: Seq<bool>)
    requires
        width > 0,
        cut(before, feeds, width),
        glued(before, feeds) == front,
        rows == crate::display::rows::push_char(before, c, width),
    ensures
        cut(rows, next, width),
        glued(rows, next) == front.push(c),
{
    let n = before.len() - 1;
    if c == '\n' || before.last().len() >= width {
        let feed = c == '\n';
        let next = feeds.push(feed);
        let row = if feed {
            Seq::<char>::empty()
        } else {
            seq![c]
        };
        assert(rows =~= before.push(row));
        assert(rows.drop_last() =~= before);
        assert(next.drop_last() =~= feeds);
        assert(glued(rows, next) =~= front.push(c));
        assert(!row.contains('\n'));
        assert forall|i: int| 0 <= i < rows.len() implies !(#[trigger] rows[i]).contains('\n') by {
            if i < before.len() {
                assert(rows[i] == before[i]);
            }
        }
        assert forall|i: int| 0 <= i < next.len() && !(#[trigger] next[i]) implies rows[i].len()
            == width && rows[i + 1].len() > 0 by {
            if i < feeds.len() {
                assert(!feeds[i]);
                assert(rows[i] == before[i] && rows[i + 1] == before[i + 1]);
            } else {
                assert(rows[i] == before[n]);
            }
        }
        next
    } else {
        let last = before.last().push(c);
        assert(rows =~= before.drop_last().push(last));
        assert(rows.drop_last() =~= before.drop_last());
        assert(!last.contains('\n')) by {
            assert(!before[n].contains('\n'));
            assert forall|j: int| 0 <= j < last.len() implies last[j] != '\n' by {
                if j < before.last().len() {
                    assert(before[n].contains(before[n][j]));
                }
            }
        }
        assert forall|i: int| 0 <= i < rows.len() implies !(#[trigger] rows[i]).contains('\n') by {
            if i < n {
                assert(rows[i] == before[i]);
            }
        }
        assert forall|i: int| 0 <= i < feeds.len() && !(#[trigger] feeds[i]) implies rows[i].len()
            == width && rows[i + 1].len() > 0 by {
            assert(rows[i] == before[i]);
            if i + 1 < n {
                assert(rows[i + 1] == before[i + 1]);
            }
        }
        if rows.len() == 1 {
            assert(glued(rows, feeds) =~= front.push(c));
        } else {
            assert(glued(rows, feeds) =~= front.push(c));
        }
        feeds
    }
}

/// Wrapping cuts a text into rows of at most the width and puts a line feed between them:
/// the line feeds of the text, and more only where a row is full. A width of 0, or none,
/// leaves the text as it is.
pub proof fn law_wrapping_adds_line_feeds_at_full_rows(t: Seq<char>, width: Option<usize>) -> (r: (
    Seq<Seq<char>>,
    Seq<bool>,
))
    ensures
        width is None || width->0 == 0 ==> wrapped(t, width) == t,
        width is Some && width->0 > 0 ==> {
            &&& cut(r.0, r.1, width->0 as int)
            &&& glued(r.0, r.1) == t
            &&& glued(r.0, Seq::new(r.1.len(), |i: int| true)) == wrapped(t, width)
        },
{
    if width is Some && width->0 > 0 {
        let rows = text_rows(t, width->0 as int);
        let feeds = law_rows_hold_the_text(t, width->0 as int);
        lemma_joined(rows);
        (rows, feeds)
    } else {
        (Seq::empty(), Seq::empty())
    }
}

proof fn lemma_joined(rows: Seq<Seq<char>>)
    requires
        rows.len() > 0,
    ensures
        joined(rows) == glued(rows, Seq::new((rows.len() - 1) as nat, |i: int| true)),
    decreases rows.len(),
{
    if rows.len() > 1 {
        lemma_joined(rows.drop_last());
        assert(Seq::new((rows.len() - 1) as nat, |i: int| true).drop_last() =~= Seq::new(
            (rows.len() - 2) as nat,
            |i: int| true,
        ));
    }
}

/// The rows of the viewer are at least eight columns wide, and otherwise as wide as asked.
pub proof fn law_viewer_rows_are_never_too_narrow(cols: usize)
    ensures
        crate::display::rows::row_width(cols) >= 8,
        cols >= 8 ==> crate::display::rows::row_width(cols) == cols,
        cols < 8 ==> crate::display::rows::row_width(cols) == 8,
{
}

} // verus!
