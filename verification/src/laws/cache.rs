//! When rows are kept, and when they are made anew.

use vstd::prelude::*;

use crate::gui::marks::{pins, pins_sorted, Pin};
use crate::gui::rows::{built, history, outdated, refreshed, RowsModel, StreamRefresh};

verus! {

/// What the marks below an offset show is told for each of them, in their order, and for
/// no other one.
pub proof fn law_history_tells_the_marks_below(p: Seq<Pin>, below: u64)
    requires
        pins_sorted(p),
    ensures
        ({
            let h = history(p, below);
            &&& h.len() <= p.len()
            &&& forall|i: int|
                0 <= i < h.len() ==> (#[trigger] h[i]).offset == p[i].offset && h[i].before
                    == p[i].before && h[i].text == p[i].text && p[i].offset < below
            &&& forall|i: int| h.len() <= i < p.len() ==> (#[trigger] p[i]).offset >= below
        }),
    decreases p.len(),
{
    let h = history(p, below);
    if p.len() > 0 && p[0].offset < below {
        let rest = p.skip(1);
        assert forall|i: int, j: int| 0 <= i <= j < rest.len() implies (#[trigger] rest[i]).offset
            <= (#[trigger] rest[j]).offset by {
            assert(rest[i] == p[i + 1] && rest[j] == p[j + 1]);
        }
        law_history_tells_the_marks_below(rest, below);
        let t = history(rest, below);
        assert forall|i: int| 0 <= i < h.len() implies (#[trigger] h[i]).offset == p[i].offset
            && h[i].before == p[i].before && h[i].text == p[i].text && p[i].offset < below by {
            if i > 0 {
                assert(h[i] == t[i - 1]);
                assert(rest[i - 1] == p[i]);
            }
        }
        assert forall|i: int| h.len() <= i < p.len() implies (#[trigger] p[i]).offset >= below by {
            assert(rest[i - 1] == p[i]);
        }
    } else if p.len() > 0 {
        assert forall|i: int| h.len() <= i < p.len() implies (#[trigger] p[i]).offset >= below by {
            assert(p[0].offset <= p[i].offset);
        }
    }
}

/// Rows are made anew where they show another channel, another mode, other characters or
/// another width, where the stream began again or was cut off from what they show, and
/// where a mark within what they show has changed.
pub proof fn law_stale_rows_are_made_anew(c: RowsModel, p: StreamRefresh, after: RowsModel)
    requires
        refreshed(Some(c), p, after),
        c.channel != p.channel || c.mode != p.view.mode || c.chars != p.view.character_rendering
            || c.wrap_cols != p.wrap_cols || p.cursor < c.cursor || p.window_start > c.cursor || (
        c.marks_version != p.marks_version && history(pins(p.marks@), c.cursor) != c.history),
    ensures
        after == built(p),
{
}

/// Rows that show the stream up to its end, as it is asked for, stay.
pub proof fn law_current_rows_stay(c: RowsModel, p: StreamRefresh, after: RowsModel)
    requires
        refreshed(Some(c), p, after),
        c.channel == p.channel,
        c.mode == p.view.mode,
        c.chars == p.view.character_rendering,
        c.wrap_cols == p.wrap_cols,
        c.cursor == p.cursor,
        p.window_start <= c.cursor,
        history(pins(p.marks@), c.cursor) == c.history || c.marks_version == p.marks_version,
    ensures
        after.rows == c.rows,
        after.cursor == c.cursor,
        after.marks_version == p.marks_version,
{
}

/// Rows that are made anew are those of the channel, the mode, the characters and the width
/// that are asked for, up to the end of the stream.
pub proof fn law_new_rows_are_those_asked_for(p: StreamRefresh, after: RowsModel)
    requires
        refreshed(None, p, after),
    ensures
        after.channel == p.channel,
        after.mode == p.view.mode,
        after.chars == p.view.character_rendering,
        after.wrap_cols == p.wrap_cols,
        after.cursor == p.cursor,
        after.marks_version == p.marks_version,
        after.settings == *p.view,
        !outdated(after, p) || p.window_start > p.cursor,
{
}

} // verus!
