//! Timestamps pinned to the bytes of a stream.
//!
//! The runtime reports recent firings in a rolling window. They are folded into a list
//! of their own, which keeps each one as long as its byte is in view.

use vstd::prelude::*;

use crate::gui::snapshot::TriggeredMatch;
use crate::model::ids::MatchRuleId;

verus! {

/// The most marks that are kept of a channel.
pub const MAX_STREAM_MARKS: usize = 4096;

/// A mark pinned to the byte at an offset of the view's stream.
#[derive(Debug, PartialEq, Eq)]
pub struct StreamMark {
    pub offset: u64,
    /// The firing rule: with `offset`, it tells marks apart.
    pub rule_id: MatchRuleId,
    /// Before (or after) the annotated byte.
    pub before: bool,
    pub text: String,
}

/// What a stream mark says.
pub ghost struct Pin {
    pub offset: u64,
    pub rule_id: MatchRuleId,
    pub before: bool,
    pub text: Seq<char>,
}

impl View for StreamMark {
    type V = Pin;

    open spec fn view(&self) -> Pin {
        Pin {
            offset: self.offset,
            rule_id: self.rule_id,
            before: self.before,
            text: self.text@,
        }
    }
}

impl Clone for StreamMark {
    fn clone(&self) -> (r: StreamMark)
        ensures
            r == *self,
    {
        StreamMark {
            offset: self.offset,
            rule_id: self.rule_id,
            before: self.before,
            text: self.text.clone(),
        }
    }
}

/// What a list of marks says.
pub open spec fn pins(marks: Seq<StreamMark>) -> Seq<Pin> {
    marks.map_values(|m: StreamMark| m@)
}

/// The marks stand in the order of their offsets.
pub open spec fn pins_sorted(p: Seq<Pin>) -> bool {
    forall|i: int, j: int|
        0 <= i <= j < p.len() ==> (#[trigger] p[i]).offset <= (#[trigger] p[j]).offset
}

/// A mark of rule `rule_id` stands at `offset`.
pub open spec fn has_key(p: Seq<Pin>, offset: u64, rule_id: MatchRuleId) -> bool {
    exists|i: int| 0 <= i < p.len() && (#[trigger] p[i]).offset == offset && p[i].rule_id == rule_id
}

/// No rule has two marks at the same offset.
pub open spec fn keys_distinct(p: Seq<Pin>) -> bool {
    forall|i: int, j: int|
        0 <= i < j < p.len() ==> (#[trigger] p[i]).offset != (#[trigger] p[j]).offset
            || p[i].rule_id != p[j].rule_id
}

/// `a` is what is left of `b` when some of its marks are taken out.
pub open spec fn subsequence(a: Seq<Pin>, b: Seq<Pin>) -> bool
    decreases b.len(),
{
    a.len() == 0 || (b.len() > 0 && ((a.last() == b.last() && subsequence(
        a.drop_last(),
        b.drop_last(),
    )) || subsequence(a, b.drop_last())))
}

/// Some firing asks for a mark of rule `rule_id` at `offset`.
pub open spec fn asked_for(
    matches: Seq<TriggeredMatch>,
    offset: u64,
    rule_id: MatchRuleId,
) -> bool {
    exists|i: int|
        0 <= i < matches.len() && (#[trigger] matches[i]).view_offset == Some(offset)
            && matches[i].rule_id == rule_id && matches[i].mark is Some
}

/// The mark that a firing asks for: one that has a text and a place in the view.
pub open spec fn pin_of(m: TriggeredMatch) -> Option<Pin> {
    match (m.view_offset, m.mark) {
        (Some(offset), Some(mark)) => Some(
            Pin { offset, rule_id: m.rule_id, before: mark.before, text: mark.text@ },
        ),
        _ => None,
    }
}

/// A mark of the same rule at the same offset is there already.
pub open spec fn pinned(p: Seq<Pin>, pin: Pin) -> bool {
    has_key(p, pin.offset, pin.rule_id)
}

/// Where the marks up to `offset` end, in a sorted list.
pub open spec fn run_end(p: Seq<Pin>, offset: u64) -> int
    decreases p.len(),
{
    if p.len() == 0 {
        0
    } else if p.last().offset <= offset {
        p.len() as int
    } else {
        run_end(p.drop_last(), offset)
    }
}

/// The list with a mark in its place, unless it is there already.
pub open spec fn with_pin(p: Seq<Pin>, pin: Pin) -> Seq<Pin> {
    if pinned(p, pin) {
        p
    } else {
        p.insert(run_end(p, pin.offset), pin)
    }
}

/// The list with the marks of all firings.
pub open spec fn with_matches(p: Seq<Pin>, matches: Seq<TriggeredMatch>) -> Seq<Pin>
    decreases matches.len(),
{
    if matches.len() == 0 {
        p
    } else {
        let front = with_matches(p, matches.drop_last());
        match pin_of(matches.last()) {
            Some(pin) => with_pin(front, pin),
            None => front,
        }
    }
}

/// The list without its lowest offsets beyond the most that are kept.
pub open spec fn capped(p: Seq<Pin>) -> Seq<Pin> {
    if p.len() > MAX_STREAM_MARKS {
        p.skip(p.len() - MAX_STREAM_MARKS)
    } else {
        p
    }
}

/// The list after a snapshot's firings.
pub open spec fn merged(p: Seq<Pin>, matches: Seq<TriggeredMatch>) -> Seq<Pin> {
    capped(with_matches(p, matches))
}

/// The list without the marks before `start`, in a sorted list.
pub open spec fn pins_from(p: Seq<Pin>, start: u64) -> Seq<Pin>
    decreases p.len(),
{
    if p.len() > 0 && p[0].offset < start {
        pins_from(p.skip(1), start)
    } else {
        p
    }
}

pub proof fn lemma_run_end(p: Seq<Pin>, offset: u64)
    requires
        pins_sorted(p),
    ensures
        0 <= run_end(p, offset) <= p.len(),
        forall|i: int| 0 <= i < run_end(p, offset) ==> (#[trigger] p[i]).offset <= offset,
        forall|i: int| run_end(p, offset) <= i < p.len() ==> (#[trigger] p[i]).offset > offset,
    decreases p.len(),
{
    if p.len() > 0 {
        if p.last().offset > offset {
            let front = p.drop_last();
            assert forall|i: int, j: int| 0 <= i <= j < front.len() implies (
            #[trigger] front[i]).offset <= (#[trigger] front[j]).offset by {
                assert(front[i] == p[i] && front[j] == p[j]);
            }
            lemma_run_end(front, offset);
            assert forall|i: int| 0 <= i < run_end(p, offset) implies (#[trigger] p[i]).offset
                <= offset by {
                assert(front[i] == p[i]);
            }
            assert forall|i: int| run_end(p, offset) <= i < p.len() implies (
            #[trigger] p[i]).offset > offset by {
                if i < front.len() {
                    assert(front[i] == p[i]);
                }
            }
        } else {
            assert forall|i: int| 0 <= i < p.len() implies (#[trigger] p[i]).offset <= offset by {
                assert(p[i].offset <= p[p.len() - 1].offset);
            }
        }
    }
}

/// A mark is put where the order of offsets is kept.
pub proof fn law_pin_keeps_order(p: Seq<Pin>, pin: Pin)
    requires
        pins_sorted(p),
    ensures
        pins_sorted(with_pin(p, pin)),
        pinned(with_pin(p, pin), pin),
        forall|other: Pin| pinned(p, other) ==> #[trigger] pinned(with_pin(p, pin), other),
{
    if !pinned(p, pin) {
        lemma_run_end(p, pin.offset);
        let k = run_end(p, pin.offset);
        let q = p.insert(k, pin);
        assert forall|i: int, j: int| 0 <= i <= j < q.len() implies (#[trigger] q[i]).offset <= (
        #[trigger] q[j]).offset by {
            if i < k && j > k {
                assert(q[i] == p[i] && q[j] == p[j - 1]);
            } else if j < k {
                assert(q[i] == p[i] && q[j] == p[j]);
            } else if i > k {
                assert(q[i] == p[i - 1] && q[j] == p[j - 1]);
            }
        }
        assert(q[k] == pin);
        assert forall|other: Pin| pinned(p, other) implies #[trigger] pinned(q, other) by {
            let i = choose|i: int|
                0 <= i < p.len() && (#[trigger] p[i]).offset == other.offset && p[i].rule_id
                    == other.rule_id;
            let j = if i < k {
                i
            } else {
                i + 1
            };
            assert(q[j] == p[i]);
        }
    }
}

/// Folding in firings keeps the order, keeps every mark that was there, and pins every
/// firing that has a mark.
pub proof fn law_matches_are_additive(p: Seq<Pin>, matches: Seq<TriggeredMatch>)
    requires
        pins_sorted(p),
    ensures
        pins_sorted(with_matches(p, matches)),
        forall|other: Pin| pinned(p, other) ==> #[trigger] pinned(with_matches(p, matches), other),
        forall|i: int|
            0 <= i < matches.len() && pin_of(#[trigger] matches[i]) is Some ==> pinned(
                with_matches(p, matches),
                pin_of(matches[i])->0,
            ),
    decreases matches.len(),
{
    if matches.len() > 0 {
        let front = matches.drop_last();
        law_matches_are_additive(p, front);
        let q = with_matches(p, front);
        match pin_of(matches.last()) {
            Some(pin) => {
                law_pin_keeps_order(q, pin);
            },
            None => {},
        }
        let r = with_matches(p, matches);
        assert forall|other: Pin| pinned(p, other) implies #[trigger] pinned(r, other) by {
            assert(pinned(q, other));
        }
        assert forall|i: int|
            0 <= i < matches.len() && pin_of(#[trigger] matches[i]) is Some implies pinned(
            r,
            pin_of(matches[i])->0,
        ) by {
            if i < front.len() {
                assert(front[i] == matches[i]);
                assert(pinned(q, pin_of(matches[i])->0));
            }
        }
    }
}

proof fn lemma_nothing_new(p: Seq<Pin>, matches: Seq<TriggeredMatch>)
    requires
        forall|i: int|
            0 <= i < matches.len() && pin_of(#[trigger] matches[i]) is Some ==> pinned(
                p,
                pin_of(matches[i])->0,
            ),
    ensures
        with_matches(p, matches) == p,
    decreases matches.len(),
{
    if matches.len() > 0 {
        let front = matches.drop_last();
        assert forall|i: int|
            0 <= i < front.len() && pin_of(#[trigger] front[i]) is Some implies pinned(
            p,
            pin_of(front[i])->0,
        ) by {
            assert(front[i] == matches[i]);
        }
        lemma_nothing_new(p, front);
        assert(matches[matches.len() - 1] == matches.last());
    }
}

/// Folding in the same firings again changes nothing, as long as none had to be dropped.
pub proof fn law_merge_is_idempotent(p: Seq<Pin>, matches: Seq<TriggeredMatch>)
    requires
        pins_sorted(p),
        with_matches(p, matches).len() <= MAX_STREAM_MARKS,
    ensures
        merged(merged(p, matches), matches) == merged(p, matches),
{
    law_matches_are_additive(p, matches);
    lemma_nothing_new(with_matches(p, matches), matches);
}

/// A merged list is sorted and within its limit.
pub proof fn law_merge_is_bounded(p: Seq<Pin>, matches: Seq<TriggeredMatch>)
    requires
        pins_sorted(p),
    ensures
        pins_sorted(merged(p, matches)),
        merged(p, matches).len() <= MAX_STREAM_MARKS,
{
    law_matches_are_additive(p, matches);
    let q = with_matches(p, matches);
    let r = capped(q);
    assert forall|i: int, j: int| 0 <= i <= j < r.len() implies (#[trigger] r[i]).offset <= (
    #[trigger] r[j]).offset by {
        if q.len() > MAX_STREAM_MARKS {
            let d = q.len() - MAX_STREAM_MARKS;
            assert(r[i] == q[i + d] && r[j] == q[j + d]);
        }
    }
}

proof fn lemma_subsequence_of_itself(p: Seq<Pin>)
    ensures
        subsequence(p, p),
    decreases p.len(),
{
    if p.len() > 0 {
        lemma_subsequence_of_itself(p.drop_last());
    }
}

proof fn lemma_subsequence_of_inserted(p: Seq<Pin>, k: int, pin: Pin)
    requires
        0 <= k <= p.len(),
    ensures
        subsequence(p, p.insert(k, pin)),
    decreases p.len(),
{
    let q = p.insert(k, pin);
    if k == p.len() {
        assert(q.drop_last() =~= p);
        lemma_subsequence_of_itself(p);
    } else {
        assert(q.drop_last() =~= p.drop_last().insert(k, pin));
        lemma_subsequence_of_inserted(p.drop_last(), k, pin);
        assert(p.last() == q.last());
    }
}

proof fn lemma_subsequence_transitive(a: Seq<Pin>, b: Seq<Pin>, c: Seq<Pin>)
    requires
        subsequence(a, b),
        subsequence(b, c),
    ensures
        subsequence(a, c),
    decreases c.len(),
{
    if a.len() > 0 {
        if b.last() == c.last() && subsequence(b.drop_last(), c.drop_last()) {
            if a.last() == b.last() && subsequence(a.drop_last(), b.drop_last()) {
                lemma_subsequence_transitive(a.drop_last(), b.drop_last(), c.drop_last());
            } else {
                lemma_subsequence_transitive(a, b.drop_last(), c.drop_last());
            }
        } else {
            lemma_subsequence_transitive(a, b, c.drop_last());
        }
    }
}

/// One more mark leaves the others as they are, and adds its own key at most.
proof fn lemma_pin_adds_its_key(p: Seq<Pin>, pin: Pin)
    requires
        pins_sorted(p),
        keys_distinct(p),
    ensures
        keys_distinct(with_pin(p, pin)),
        subsequence(p, with_pin(p, pin)),
        forall|offset: u64, rule_id: MatchRuleId| #[trigger]
            has_key(with_pin(p, pin), offset, rule_id) <==> has_key(p, offset, rule_id) || (offset
                == pin.offset && rule_id == pin.rule_id),
{
    if pinned(p, pin) {
        lemma_subsequence_of_itself(p);
    } else {
        lemma_run_end(p, pin.offset);
        let k = run_end(p, pin.offset);
        let q = p.insert(k, pin);
        lemma_subsequence_of_inserted(p, k, pin);
        assert forall|i: int, j: int| 0 <= i < j < q.len() implies (#[trigger] q[i]).offset != (
        #[trigger] q[j]).offset || q[i].rule_id != q[j].rule_id by {
            let a = if i < k {
                i
            } else {
                i - 1
            };
            let b = if j < k {
                j
            } else {
                j - 1
            };
            if i == k {
                assert(q[j] == p[b]);
            } else if j == k {
                assert(q[i] == p[a]);
            } else {
                assert(q[i] == p[a] && q[j] == p[b]);
            }
        }
        assert forall|offset: u64, rule_id: MatchRuleId| #[trigger]
            has_key(q, offset, rule_id) <==> has_key(p, offset, rule_id) || (offset == pin.offset
                && rule_id == pin.rule_id) by {
            if has_key(q, offset, rule_id) {
                let i = choose|i: int|
                    0 <= i < q.len() && (#[trigger] q[i]).offset == offset && q[i].rule_id
                        == rule_id;
                if i < k {
                    assert(p[i] == q[i]);
                } else if i > k {
                    assert(p[i - 1] == q[i]);
                }
            }
            if has_key(p, offset, rule_id) {
                let i = choose|i: int|
                    0 <= i < p.len() && (#[trigger] p[i]).offset == offset && p[i].rule_id
                        == rule_id;
                let j = if i < k {
                    i
                } else {
                    i + 1
                };
                assert(q[j] == p[i]);
            }
            assert(q[k] == pin);
        }
    }
}

/// Folding in firings keeps the keys distinct, leaves the marks that were there as they
/// are, in their order, and adds the keys that firings ask for and no others.
pub proof fn law_matches_add_their_keys(p: Seq<Pin>, matches: Seq<TriggeredMatch>)
    requires
        pins_sorted(p),
        keys_distinct(p),
    ensures
        pins_sorted(with_matches(p, matches)),
        keys_distinct(with_matches(p, matches)),
        subsequence(p, with_matches(p, matches)),
        forall|offset: u64, rule_id: MatchRuleId| #[trigger]
            has_key(with_matches(p, matches), offset, rule_id) <==> has_key(p, offset, rule_id)
                || asked_for(matches, offset, rule_id),
    decreases matches.len(),
{
    if matches.len() == 0 {
        lemma_subsequence_of_itself(p);
    } else {
        let front = matches.drop_last();
        let last = matches.last();
        law_matches_add_their_keys(p, front);
        law_matches_are_additive(p, matches);
        let q = with_matches(p, front);
        let r = with_matches(p, matches);
        if let Some(pin) = pin_of(last) {
            lemma_pin_adds_its_key(q, pin);
            lemma_subsequence_transitive(p, q, r);
        }
        assert forall|offset: u64, rule_id: MatchRuleId| #[trigger]
            has_key(r, offset, rule_id) <==> has_key(p, offset, rule_id) || asked_for(
                matches,
                offset,
                rule_id,
            ) by {
            assert(has_key(q, offset, rule_id) <==> has_key(p, offset, rule_id) || asked_for(
                front,
                offset,
                rule_id,
            ));
            assert(matches[matches.len() - 1] == last);
            if asked_for(front, offset, rule_id) {
                let i = choose|i: int|
                    0 <= i < front.len() && (#[trigger] front[i]).view_offset == Some(offset)
                        && front[i].rule_id == rule_id && front[i].mark is Some;
                assert(matches[i] == front[i]);
            }
            if asked_for(matches, offset, rule_id) {
                let i = choose|i: int|
                    0 <= i < matches.len() && (#[trigger] matches[i]).view_offset == Some(offset)
                        && matches[i].rule_id == rule_id && matches[i].mark is Some;
                if i < front.len() {
                    assert(matches[i] == front[i]);
                }
            }
        }
    }
}

/// A merge keeps the list sorted with distinct keys. As long as none has to be dropped,
/// the marks that were there stay as they are, in their order, the keys are those that
/// were there and those that firings ask for, and merging the same firings again changes
/// nothing.
pub proof fn law_merge_keeps_marks_and_adds_keys(p: Seq<Pin>, matches: Seq<TriggeredMatch>)
    requires
        pins_sorted(p),
        keys_distinct(p),
    ensures
        pins_sorted(merged(p, matches)),
        keys_distinct(merged(p, matches)),
        with_matches(p, matches).len() <= MAX_STREAM_MARKS ==> {
            &&& subsequence(p, merged(p, matches))
            &&& forall|offset: u64, rule_id: MatchRuleId| #[trigger]
                has_key(merged(p, matches), offset, rule_id) <==> has_key(p, offset, rule_id)
                    || asked_for(matches, offset, rule_id)
            &&& merged(merged(p, matches), matches) == merged(p, matches)
        },
{
    law_matches_add_their_keys(p, matches);
    law_merge_is_bounded(p, matches);
    let q = with_matches(p, matches);
    let r = capped(q);
    assert forall|i: int, j: int| 0 <= i < j < r.len() implies (#[trigger] r[i]).offset != (
    #[trigger] r[j]).offset || r[i].rule_id != r[j].rule_id by {
        if q.len() > MAX_STREAM_MARKS {
            let d = q.len() - MAX_STREAM_MARKS;
            assert(r[i] == q[i + d] && r[j] == q[j + d]);
        }
    }
    if q.len() <= MAX_STREAM_MARKS {
        law_merge_is_idempotent(p, matches);
    }
}

/// Of a sorted list, exactly the marks before `start` are dropped.
pub proof fn law_trim_keeps_the_rest(p: Seq<Pin>, start: u64)
    requires
        pins_sorted(p),
    ensures
        pins_sorted(pins_from(p, start)),
        pins_from(p, start).len() <= p.len(),
        pins_from(p, start) == p.skip(p.len() - pins_from(p, start).len()),
        forall|i: int|
            0 <= i < pins_from(p, start).len() ==> (#[trigger] pins_from(p, start)[i]).offset
                >= start,
        forall|i: int|
            0 <= i < p.len() - pins_from(p, start).len() ==> (#[trigger] p[i]).offset < start,
        keys_distinct(p) ==> keys_distinct(pins_from(p, start)),
    decreases p.len(),
{
    if p.len() > 0 && p[0].offset < start {
        let rest = p.skip(1);
        assert forall|i: int, j: int| 0 <= i <= j < rest.len() implies (
        #[trigger] rest[i]).offset <= (#[trigger] rest[j]).offset by {
            assert(rest[i] == p[i + 1] && rest[j] == p[j + 1]);
        }
        law_trim_keeps_the_rest(rest, start);
        if keys_distinct(p) {
            assert forall|i: int, j: int| 0 <= i < j < rest.len() implies (
            #[trigger] rest[i]).offset != (#[trigger] rest[j]).offset || rest[i].rule_id
                != rest[j].rule_id by {
                assert(rest[i] == p[i + 1] && rest[j] == p[j + 1]);
            }
        }
        let k = rest.len() - pins_from(rest, start).len();
        assert(rest.skip(k) =~= p.skip(k + 1));
        assert forall|i: int| 0 <= i < p.len() - pins_from(p, start).len() implies (
        #[trigger] p[i]).offset < start by {
            if i > 0 {
                assert(rest[i - 1] == p[i]);
            }
        }
    } else {
        assert(p.skip(0) =~= p);
        assert forall|i: int| 0 <= i < p.len() implies (#[trigger] p[i]).offset >= start by {
            assert(p[0].offset <= p[i].offset);
        }
    }
}

/// Whether a mark of the same rule stands at the same offset.
fn is_pinned(marks: &Vec<StreamMark>, offset: u64, rule_id: MatchRuleId) -> (r: bool)
    ensures
        r == (exists|i: int|
            0 <= i < pins(marks@).len() && (#[trigger] pins(marks@)[i]).offset == offset && pins(
                marks@,
            )[i].rule_id == rule_id),
{
    let mut i: usize = 0;
    while i < marks.len()
        invariant
            i <= marks.len(),
            forall|j: int|
                0 <= j < i ==> !((#[trigger] pins(marks@)[j]).offset == offset && pins(
                    marks@,
                )[j].rule_id == rule_id),
        decreases marks.len() - i,
    {
        if marks[i].offset == offset && marks[i].rule_id == rule_id {
            assert(pins(marks@)[i as int].offset == offset);
            return true;
        }
        i = i + 1;
    }
    false
}

/// Folds firings into a list of marks, and says whether any was new.
pub fn merge_marks(marks: &mut Vec<StreamMark>, matches: &Vec<TriggeredMatch>) -> (new: bool)
    requires
        pins_sorted(pins(old(marks)@)),
    ensures
        pins(final(marks)@) == merged(pins(old(marks)@), matches@),
        new == (with_matches(pins(old(marks)@), matches@).len() > pins(old(marks)@).len()),
{
    let ghost start = pins(marks@);
    let mut new: bool = false;
    let mut i: usize = 0;
    assert(matches@.take(0) =~= Seq::empty());
    while i < matches.len()
        invariant
            i <= matches.len(),
            start == pins(old(marks)@),
            pins_sorted(start),
            pins_sorted(pins(marks@)),
            pins(marks@) == with_matches(start, matches@.take(i as int)),
            pins(marks@).len() >= start.len(),
            new == (pins(marks@).len() > start.len()),
        decreases matches.len() - i,
    {
        let ghost before = pins(marks@);
        assert(matches@.take(i + 1).drop_last() =~= matches@.take(i as int));
        assert(matches@.take(i + 1).last() == matches@[i as int]);
        match (matches[i].view_offset, &matches[i].mark) {
            (Some(offset), Some(mark)) => {
                let rule_id: MatchRuleId = matches[i].rule_id;
                let ghost pin = Pin { offset, rule_id, before: mark.before, text: mark.text@ };
                assert(pin_of(matches@[i as int]) == Some(pin));
                if !is_pinned(marks, offset, rule_id) {
                    let mut at: usize = marks.len();
                    assert(before.take(at as int) =~= before);
                    while at > 0 && marks[at - 1].offset > offset
                        invariant
                            at <= marks.len(),
                            before == pins(marks@),
                            run_end(before.take(at as int), offset) == run_end(before, offset),
                        decreases at,
                    {
                        assert(before.take(at as int).last() == pins(marks@)[at - 1]);
                        assert(before.take(at as int).drop_last() =~= before.take(at - 1));
                        at = at - 1;
                    }
                    proof {
                        if at > 0 {
                            assert(before.take(at as int).last() == pins(marks@)[at - 1]);
                        }
                        assert(run_end(before, offset) == at);
                        law_pin_keeps_order(before, pin);
                    }
                    let ghost was = marks@;
                    let fresh = StreamMark {
                        offset,
                        rule_id,
                        before: mark.before,
                        text: mark.text.clone(),
                    };
                    marks.insert(at, fresh);
                    new = true;
                    assert(pins(marks@) =~= before.insert(at as int, pin));
                }
            },
            _ => {},
        }
        i = i + 1;
    }
    assert(matches@.take(i as int) =~= matches@);
    if marks.len() > MAX_STREAM_MARKS {
        let excess: usize = marks.len() - MAX_STREAM_MARKS;
        let ghost before = marks@;
        let kept: Vec<StreamMark> = marks.split_off(excess);
        *marks = kept;
        assert(pins(marks@) =~= pins(before).skip(excess as int));
    }
    new
}

/// Drops the marks before `start`, and says whether there were any.
pub fn trim_marks(marks: &mut Vec<StreamMark>, start: u64) -> (gone: bool)
    requires
        pins_sorted(pins(old(marks)@)),
    ensures
        pins(final(marks)@) == pins_from(pins(old(marks)@), start),
        gone == (pins(final(marks)@).len() < pins(old(marks)@).len()),
{
    let ghost p = pins(marks@);
    let mut k: usize = 0;
    assert(p.skip(0) =~= p);
    while k < marks.len() && marks[k].offset < start
        invariant
            k <= marks.len(),
            p == pins(marks@),
            pins_from(p.skip(k as int), start) == pins_from(p, start),
        decreases marks.len() - k,
    {
        assert(p.skip(k as int)[0] == pins(marks@)[k as int]);
        assert(p.skip(k as int).skip(1) =~= p.skip(k + 1));
        k = k + 1;
    }
    proof {
        if k < marks.len() {
            assert(p.skip(k as int)[0] == pins(marks@)[k as int]);
        }
        assert(pins_from(p, start) == p.skip(k as int));
    }
    if k > 0 {
        let ghost before = marks@;
        let kept: Vec<StreamMark> = marks.split_off(k);
        *marks = kept;
        assert(pins(marks@) =~= p.skip(k as int));
    }
    k > 0
}

} // verus!
