//! Where the marks of match firings stand.

use vstd::prelude::*;

use crate::gui::marks::{capped, has_key, pin_of, pins_sorted, run_end, with_pin, Pin, MAX_STREAM_MARKS};
use crate::gui::snapshot::TriggeredMatch;

verus! {

proof fn lemma_run(p: Seq<Pin>, offset: u64)
    requires
        pins_sorted(p),
    ensures
        0 <= run_end(p, offset) <= p.len(),
        forall|i: int| 0 <= i < run_end(p, offset) ==> (#[trigger] p[i]).offset <= offset,
        forall|i: int| run_end(p, offset) <= i < p.len() ==> (#[trigger] p[i]).offset > offset,
    decreases p.len(),
{
    if p.len() > 0 {
        if p.last().offset > offset {
            let front = p.drop_last();
            assert forall|i: int, j: int| 0 <= i <= j < front.len() implies (
            #[trigger] front[i]).offset <= (#[trigger] front[j]).offset by {
                assert(front[i] == p[i] && front[j] == p[j]);
            }
            lemma_run(front, offset);
            let k = run_end(p, offset);
            assert forall|i: int| 0 <= i < k implies (#[trigger] p[i]).offset <= offset by {
                assert(front[i] == p[i]);
            }
            assert forall|i: int| k <= i < p.len() implies (#[trigger] p[i]).offset > offset by {
                if i < front.len() {
                    assert(front[i] == p[i]);
                }
            }
        } else {
            assert forall|i: int| 0 <= i < p.len() implies (#[trigger] p[i]).offset <= offset by {
                assert(p[i].offset <= p[p.len() - 1].offset);
            }
        }
    }
}

/// A rule marks an offset once: a second mark for both changes nothing. A new mark comes
/// between those at its offset or before it and those behind it.
pub proof fn law_new_marks_stand_behind_those_at_their_offset(p: Seq<Pin>, pin: Pin) -> (k: int)
    requires
        pins_sorted(p),
    ensures
        (exists|i: int|
            0 <= i < p.len() && (#[trigger] p[i]).offset == pin.offset && p[i].rule_id
                == pin.rule_id) ==> with_pin(p, pin) == p,
        (forall|i: int|
            0 <= i < p.len() ==> (#[trigger] p[i]).offset != pin.offset || p[i].rule_id
                != pin.rule_id) ==> {
            &&& 0 <= k <= p.len()
            &&& with_pin(p, pin).len() == p.len() + 1
            &&& with_pin(p, pin)[k] == pin
            &&& forall|i: int|
                0 <= i < k ==> (#[trigger] with_pin(p, pin)[i]) == p[i] && p[i].offset <= pin.offset
            &&& forall|i: int|
                k < i <= p.len() ==> (#[trigger] with_pin(p, pin)[i]) == p[i - 1] && p[i - 1].offset
                    > pin.offset
        },
{
    lemma_run(p, pin.offset);
    if exists|i: int|
        0 <= i < p.len() && (#[trigger] p[i]).offset == pin.offset && p[i].rule_id == pin.rule_id {
        assert(has_key(p, pin.offset, pin.rule_id));
    } else {
        assert(!has_key(p, pin.offset, pin.rule_id));
    }
    run_end(p, pin.offset)
}

/// A firing makes a mark where it stands in the view and asks for one: of its rule, on the
/// side and with the text that it asks for.
pub proof fn law_firings_make_the_marks_they_ask_for(m: TriggeredMatch)
    ensures
        pin_of(m) is Some <==> m.view_offset is Some && m.mark is Some,
        pin_of(m) matches Some(pin) ==> pin.offset == m.view_offset->0 && pin.rule_id == m.rule_id
            && pin.before == m.mark->0.before && pin.text == m.mark->0.text@,
{
}

/// Of too many marks the last ones stay.
pub proof fn law_the_last_marks_stay(p: Seq<Pin>)
    ensures
        p.len() <= MAX_STREAM_MARKS ==> capped(p) == p,
        p.len() > MAX_STREAM_MARKS ==> capped(p).len() == MAX_STREAM_MARKS && forall|i: int|
            0 <= i < MAX_STREAM_MARKS ==> #[trigger] capped(p)[i] == p[p.len() - MAX_STREAM_MARKS
                + i],
{
}

} // verus!
