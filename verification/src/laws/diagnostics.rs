//! What the diagnostics log keeps.

use vstd::prelude::*;

use crate::diagnostics::{
    limit_or_backstop, recorded, recorded_all, Diagnostic, DiagnosticSeverity, LogLimits, LogState,
};
use crate::model::message::{frames_view, MessageBytes};
use crate::retention::newest;

verus! {

/// What is kept of a history is its end: as much as fits, and nothing else.
pub proof fn law_the_newest_are_the_end<T>(s: Seq<T>, cap: nat)
    ensures
        newest(s, cap).len() == if s.len() < cap {
            s.len()
        } else {
            cap
        },
        forall|i: int|
            0 <= i < newest(s, cap).len() ==> #[trigger] newest(s, cap)[i] == s[s.len()
                - newest(s, cap).len() + i],
{
}

/// The records of one severity in a log.
pub open spec fn of_severity(state: LogState, severity: DiagnosticSeverity) -> Seq<Diagnostic> {
    match severity {
        DiagnosticSeverity::Event => state.events,
        DiagnosticSeverity::Warning => state.warnings,
        DiagnosticSeverity::Error => state.errors,
    }
}

/// The limit of one severity.
pub open spec fn limit_of(limits: LogLimits, severity: DiagnosticSeverity) -> nat {
    match severity {
        DiagnosticSeverity::Event => limits.events,
        DiagnosticSeverity::Warning => limits.warnings,
        DiagnosticSeverity::Error => limits.errors,
    }
}

/// One more record stands last among those of its severity; those before it keep their
/// order, and only the oldest leaves where there would be too many. The other severities
/// are left alone, and the revision counts the record.
pub proof fn law_a_record_stands_last(state: LogState, limits: LogLimits, d: Diagnostic)
    requires
        of_severity(state, d.severity).len() <= limit_of(limits, d.severity),
    ensures
        ({
            let after = recorded(state, limits, d);
            let old_list = of_severity(state, d.severity);
            let list = of_severity(after, d.severity);
            let limit = limit_of(limits, d.severity);
            &&& limit > 0 ==> list.len() > 0 && list[list.len() - 1] == d
            &&& list.len() == if old_list.len() < limit {
                old_list.len() + 1
            } else {
                limit
            }
            &&& forall|i: int|
                0 <= i < list.len() - 1 ==> #[trigger] list[i] == old_list[old_list.len()
                    - (list.len() - 1) + i]
            &&& forall|other: DiagnosticSeverity|
                other != d.severity ==> #[trigger] of_severity(after, other) == of_severity(
                    state,
                    other,
                )
            &&& after.revision == if state.revision >= u64::MAX {
                u64::MAX as int
            } else {
                state.revision + 1
            }
        }),
{
    law_the_newest_are_the_end(
        of_severity(state, d.severity).push(d),
        limit_of(limits, d.severity),
    );
}

/// The records of one severity among many, in their order.
pub open spec fn only(list: Seq<Diagnostic>, severity: DiagnosticSeverity) -> Seq<Diagnostic>
    decreases list.len(),
{
    if list.len() == 0 {
        Seq::empty()
    } else {
        let front = only(list.drop_last(), severity);
        if list.last().severity == severity {
            front.push(list.last())
        } else {
            front
        }
    }
}

/// However many records come, of each severity the log holds the end of all that came: as
/// many as its limit lets it.
pub proof fn law_the_log_holds_the_newest_of_each_severity(
    limits: LogLimits,
    list: Seq<Diagnostic>,
    severity: DiagnosticSeverity,
)
    ensures
        ({
            let empty = LogState {
                events: Seq::empty(),
                warnings: Seq::empty(),
                errors: Seq::empty(),
                revision: 0,
            };
            let all = only(list, severity);
            let kept = of_severity(recorded_all(empty, limits, list), severity);
            let limit = limit_of(limits, severity);
            &&& kept.len() == if all.len() < limit {
                all.len()
            } else {
                limit
            }
            &&& kept == all.subrange(all.len() - kept.len(), all.len() as int)
        }),
    decreases list.len(),
{
    let empty = LogState {
        events: Seq::empty(),
        warnings: Seq::empty(),
        errors: Seq::empty(),
        revision: 0,
    };
    let all = only(list, severity);
    let kept = of_severity(recorded_all(empty, limits, list), severity);
    if list.len() == 0 {
        assert(kept =~= all.subrange(0, 0));
    } else {
        let front = list.drop_last();
        law_the_log_holds_the_newest_of_each_severity(limits, front, severity);
        let state = recorded_all(empty, limits, front);
        let d = list.last();
        if d.severity == severity {
            law_a_record_stands_last(state, limits, d);
            assert(kept =~= all.subrange(all.len() - kept.len(), all.len() as int));
        } else {
            assert(of_severity(recorded(state, limits, d), severity) == of_severity(
                state,
                severity,
            ));
        }
    }
}

/// A limit that is set applies; without one ten thousand records are kept.
pub proof fn law_limits_apply(limit: Option<usize>)
    ensures
        limit is Some ==> limit_or_backstop(limit) == limit->0,
        limit is None ==> limit_or_backstop(limit) == 10_000,
{
}

/// What a message holds is its bytes and the times of its chunks.
pub proof fn law_messages_say_every_field(messages: Seq<MessageBytes>)
    ensures
        frames_view(messages).len() == messages.len(),
        forall|i: int|
            0 <= i < messages.len() ==> (#[trigger] frames_view(messages)[i]).bytes
                == messages[i].bytes@ && frames_view(messages)[i].first_chunk
                == messages[i].first_chunk && frames_view(messages)[i].last_chunk
                == messages[i].last_chunk,
{
}

} // verus!
