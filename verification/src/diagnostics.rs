//! Diagnostics: records of what happened, and their bounded history.

use vstd::prelude::*;

use crate::model::timing::{in_calendar, wall_clock_now};
use crate::retention::{newest, CountBounded, DEFAULT_BACKSTOP};

verus! {

/// Severity of a diagnostic, from low to high.
#[derive(Clone, Copy, Debug, PartialEq, Eq, PartialOrd, Ord, Structural)]
pub enum DiagnosticSeverity {
    /// Something happened.
    Event,
    /// May affect operation but does not prevent it.
    Warning,
    /// Failure to complete or continue an operation.
    Error,
}

/// A diagnostic record. `timestamp` is the time when it was created, in nanoseconds
/// since the Unix epoch.
#[derive(Debug, PartialEq, Eq)]
pub struct Diagnostic {
    pub severity: DiagnosticSeverity,
    pub message: String,
    pub timestamp: i128,
}

impl Clone for Diagnostic {
    fn clone(&self) -> (r: Diagnostic)
        ensures
            r == *self,
    {
        Diagnostic {
            severity: self.severity,
            message: self.message.clone(),
            timestamp: self.timestamp,
        }
    }
}

impl Diagnostic {
    /// A record of this moment.
    pub fn new(severity: DiagnosticSeverity, message: &str) -> (r: Diagnostic)
        ensures
            r.severity == severity,
            r.message@ == message@,
            in_calendar(r.timestamp),
    {
        Diagnostic::at(severity, message, wall_clock_now())
    }

    /// A record of the given time.
    pub fn at(severity: DiagnosticSeverity, message: &str, timestamp: i128) -> (r: Diagnostic)
        ensures
            r.severity == severity,
            r.message@ == message@,
            r.timestamp == timestamp,
    {
        Diagnostic { severity, message: message.to_owned(), timestamp }
    }

    pub fn event(message: &str) -> (r: Diagnostic)
        ensures
            r.severity == DiagnosticSeverity::Event,
            r.message@ == message@,
            in_calendar(r.timestamp),
    {
        Diagnostic::new(DiagnosticSeverity::Event, message)
    }

    pub fn warning(message: &str) -> (r: Diagnostic)
        ensures
            r.severity == DiagnosticSeverity::Warning,
            r.message@ == message@,
            in_calendar(r.timestamp),
    {
        Diagnostic::new(DiagnosticSeverity::Warning, message)
    }

    pub fn error(message: &str) -> (r: Diagnostic)
        ensures
            r.severity == DiagnosticSeverity::Error,
            r.message@ == message@,
            in_calendar(r.timestamp),
    {
        Diagnostic::new(DiagnosticSeverity::Error, message)
    }
}

/// How many entries of `list` are older than `at`, from its beginning on.
pub open spec fn older(list: Seq<Diagnostic>, at: i128) -> int
    decreases list.len(),
{
    if list.len() == 0 || list[0].timestamp >= at {
        0
    } else {
        1 + older(list.skip(1), at)
    }
}

/// Records in the order of their timestamps; records of the same time keep theirs.
pub open spec fn chronological(list: Seq<Diagnostic>) -> Seq<Diagnostic>
    decreases list.len(),
{
    if list.len() == 0 {
        Seq::empty()
    } else {
        let rest = chronological(list.skip(1));
        rest.insert(older(rest, list[0].timestamp), list[0])
    }
}

/// The records are in the order of their timestamps.
pub open spec fn in_order(list: Seq<Diagnostic>) -> bool {
    forall|i: int, j: int|
        0 <= i <= j < list.len() ==> (#[trigger] list[i]).timestamp <= (
        #[trigger] list[j]).timestamp
}

proof fn lemma_older(list: Seq<Diagnostic>, at: i128)
    ensures
        0 <= older(list, at) <= list.len(),
        forall|j: int| 0 <= j < older(list, at) ==> (#[trigger] list[j]).timestamp < at,
        older(list, at) < list.len() ==> list[older(list, at)].timestamp >= at,
    decreases list.len(),
{
    if list.len() > 0 && list[0].timestamp < at {
        let rest = list.skip(1);
        lemma_older(rest, at);
        assert forall|j: int| 0 <= j < older(list, at) implies (#[trigger] list[j]).timestamp
            < at by {
            if j > 0 {
                assert(rest[j - 1] == list[j]);
            }
        }
    }
}

/// The chronological order is one.
pub proof fn law_chronological_is_ordered(list: Seq<Diagnostic>)
    ensures
        in_order(chronological(list)),
        chronological(list).len() == list.len(),
    decreases list.len(),
{
    if list.len() > 0 {
        let rest = chronological(list.skip(1));
        let d = list[0];
        law_chronological_is_ordered(list.skip(1));
        lemma_older(rest, d.timestamp);
        let k = older(rest, d.timestamp);
        let all = rest.insert(k, d);
        assert forall|i: int, j: int| 0 <= i <= j < all.len() implies (#[trigger] all[i]).timestamp
            <= (#[trigger] all[j]).timestamp by {
            if i < k && j > k {
                assert(all[i] == rest[i] && all[j] == rest[j - 1]);
            } else if i < k && j < k {
                assert(all[i] == rest[i] && all[j] == rest[j]);
            } else if i > k {
                assert(all[i] == rest[i - 1] && all[j] == rest[j - 1]);
            } else if i == k && j > k {
                assert(rest[k].timestamp <= rest[j - 1].timestamp);
            }
        }
    }
}

proof fn lemma_insert_one(list: Seq<Diagnostic>, k: int, d: Diagnostic)
    requires
        0 <= k <= list.len(),
    ensures
        list.insert(k, d).to_multiset() == list.to_multiset().insert(d),
{
    let all = list.insert(k, d);
    assert(all[k] == d);
    assert(all.remove(k) =~= list);
    vstd::seq_lib::to_multiset_remove(all, k);
    all.to_multiset_ensures();
    assert(all.contains(d));
    assert(all.to_multiset() =~= all.to_multiset().remove(d).insert(d));
}

/// Ordering loses no record and adds none.
pub proof fn law_chronological_keeps_records(list: Seq<Diagnostic>)
    ensures
        chronological(list).to_multiset() == list.to_multiset(),
    decreases list.len(),
{
    if list.len() > 0 {
        let rest = chronological(list.skip(1));
        let d = list[0];
        law_chronological_keeps_records(list.skip(1));
        lemma_older(rest, d.timestamp);
        lemma_insert_one(rest, older(rest, d.timestamp), d);
        assert(list =~= list.skip(1).insert(0, d));
        lemma_insert_one(list.skip(1), 0, d);
    } else {
        assert(list =~= Seq::empty());
    }
}

/// The records of one time, in order.
pub open spec fn of_time(list: Seq<Diagnostic>, at: i128) -> Seq<Diagnostic>
    decreases list.len(),
{
    if list.len() == 0 {
        Seq::empty()
    } else if list[0].timestamp == at {
        seq![list[0]] + of_time(list.skip(1), at)
    } else {
        of_time(list.skip(1), at)
    }
}

proof fn lemma_of_time_insert(list: Seq<Diagnostic>, d: Diagnostic, at: i128)
    ensures
        of_time(list.insert(older(list, d.timestamp), d), at) == if d.timestamp == at {
            seq![d] + of_time(list, at)
        } else {
            of_time(list, at)
        },
    decreases list.len(),
{
    let k = older(list, d.timestamp);
    lemma_older(list, d.timestamp);
    let all = list.insert(k, d);
    if k == 0 {
        assert(all.skip(1) =~= list);
    } else {
        assert(all[0] == list[0]);
        assert(all.skip(1) =~= list.skip(1).insert(k - 1, d));
        lemma_of_time_insert(list.skip(1), d, at);
    }
}

/// Records of the same time keep their order.
pub proof fn law_chronological_is_stable(list: Seq<Diagnostic>, at: i128)
    ensures
        of_time(chronological(list), at) == of_time(list, at),
    decreases list.len(),
{
    if list.len() > 0 {
        law_chronological_is_stable(list.skip(1), at);
        lemma_of_time_insert(chronological(list.skip(1)), list[0], at);
    }
}

/// Orders records by their timestamps.
pub fn sort_by_time(list: Vec<Diagnostic>) -> (r: Vec<Diagnostic>)
    ensures
        r@ == chronological(list@),
{
    let mut rest: Vec<Diagnostic> = list;
    let mut out: Vec<Diagnostic> = Vec::new();
    let ghost all = list@;
    assert(all.skip(all.len() as int) =~= Seq::empty());
    while rest.len() > 0
        invariant
            rest@ == all.take(rest@.len() as int),
            rest@.len() <= all.len(),
            out@ == chronological(all.skip(rest@.len() as int)),
        decreases rest.len(),
    {
        let ghost n = rest@.len() as int;
        let d: Diagnostic = rest.pop().unwrap();
        assert(d == all[n - 1]);
        assert(all.skip(n - 1).skip(1) =~= all.skip(n));
        assert(all.skip(n - 1)[0] == d);
        let mut at: usize = 0;
        assert(out@.skip(0) =~= out@);
        while at < out.len() && out[at].timestamp < d.timestamp
            invariant
                at <= out.len(),
                older(out@, d.timestamp) == at + older(out@.skip(at as int), d.timestamp),
            decreases out.len() - at,
        {
            assert(out@.skip(at as int).skip(1) =~= out@.skip(at + 1));
            at = at + 1;
        }
        out.insert(at, d);
        assert(rest@ =~= all.take(n - 1));
    }
    assert(all.skip(0) =~= all);
    out
}

/// What a log holds: the newest records of each severity, oldest first, and how many
/// times it has changed.
pub ghost struct LogState {
    pub events: Seq<Diagnostic>,
    pub warnings: Seq<Diagnostic>,
    pub errors: Seq<Diagnostic>,
    pub revision: int,
}

/// How many records of each severity are kept.
pub ghost struct LogLimits {
    pub events: nat,
    pub warnings: nat,
    pub errors: nat,
}

/// A count of changes that stays at the machine's largest once it is reached.
pub open spec fn next_revision(n: int) -> int {
    if n >= u64::MAX {
        u64::MAX as int
    } else {
        n + 1
    }
}

/// A log after one more record.
pub open spec fn recorded(state: LogState, limits: LogLimits, d: Diagnostic) -> LogState {
    let revision = next_revision(state.revision);
    match d.severity {
        DiagnosticSeverity::Event => LogState {
            events: newest(state.events.push(d), limits.events),
            revision,
            ..state
        },
        DiagnosticSeverity::Warning => LogState {
            warnings: newest(state.warnings.push(d), limits.warnings),
            revision,
            ..state
        },
        DiagnosticSeverity::Error => LogState {
            errors: newest(state.errors.push(d), limits.errors),
            revision,
            ..state
        },
    }
}

/// A log after more records, in order.
pub open spec fn recorded_all(state: LogState, limits: LogLimits, list: Seq<Diagnostic>) -> LogState
    decreases list.len(),
{
    if list.len() == 0 {
        state
    } else {
        recorded(recorded_all(state, limits, list.drop_last()), limits, list.last())
    }
}

/// Within the limits.
pub open spec fn within(state: LogState, limits: LogLimits) -> bool {
    &&& state.events.len() <= limits.events
    &&& state.warnings.len() <= limits.warnings
    &&& state.errors.len() <= limits.errors
}

/// However many records come, each severity stays within its limit.
pub proof fn law_log_is_bounded(state: LogState, limits: LogLimits, list: Seq<Diagnostic>)
    requires
        within(state, limits),
    ensures
        within(recorded_all(state, limits, list), limits),
    decreases list.len(),
{
    if list.len() > 0 {
        law_log_is_bounded(state, limits, list.drop_last());
    }
}

/// Every record moves the revision, until it can move no further.
pub proof fn law_record_moves_revision(state: LogState, limits: LogLimits, d: Diagnostic)
    requires
        0 <= state.revision < u64::MAX,
    ensures
        recorded(state, limits, d).revision > state.revision,
{
}

/// A record leaves the other severities alone.
pub proof fn law_severities_are_separate(state: LogState, limits: LogLimits, d: Diagnostic)
    ensures
        !(d.severity is Event) ==> recorded(state, limits, d).events == state.events,
        !(d.severity is Warning) ==> recorded(state, limits, d).warnings == state.warnings,
        !(d.severity is Error) ==> recorded(state, limits, d).errors == state.errors,
{
}

/// Bounded diagnostic history: each severity is kept separately, and the oldest record
/// makes room for the newest.
#[derive(Debug)]
pub struct DiagnosticLog {
    events: CountBounded<Diagnostic>,
    warnings: CountBounded<Diagnostic>,
    errors: CountBounded<Diagnostic>,
    revision: u64,
}

impl DiagnosticLog {
    pub closed spec fn state(self) -> LogState {
        LogState {
            events: self.events.entries(),
            warnings: self.warnings.entries(),
            errors: self.errors.entries(),
            revision: self.revision as int,
        }
    }

    pub closed spec fn limits(self) -> LogLimits {
        LogLimits {
            events: self.events.capacity(),
            warnings: self.warnings.capacity(),
            errors: self.errors.capacity(),
        }
    }

    pub open spec fn wf(self) -> bool {
        within(self.state(), self.limits())
    }

    /// An empty log. A limit that is not set falls back to the backstop, so that memory
    /// stays bounded.
    pub fn new(
        event_limit: Option<usize>,
        warning_limit: Option<usize>,
        error_limit: Option<usize>,
    ) -> (r: DiagnosticLog)
        ensures
            r.wf(),
            r.state() == (LogState {
                events: Seq::empty(),
                warnings: Seq::empty(),
                errors: Seq::empty(),
                revision: 0,
            }),
            r.limits() == (LogLimits {
                events: limit_or_backstop(event_limit),
                warnings: limit_or_backstop(warning_limit),
                errors: limit_or_backstop(error_limit),
            }),
    {
        DiagnosticLog {
            events: CountBounded::new(event_limit.unwrap_or(DEFAULT_BACKSTOP)),
            warnings: CountBounded::new(warning_limit.unwrap_or(DEFAULT_BACKSTOP)),
            errors: CountBounded::new(error_limit.unwrap_or(DEFAULT_BACKSTOP)),
            revision: 0,
        }
    }

    /// How many times the log has changed.
    pub fn revision(&self) -> (r: u64)
        ensures
            r == self.state().revision,
    {
        self.revision
    }

    /// Adds a record to those of its severity.
    pub fn record(&mut self, diagnostic: Diagnostic)
        requires
            old(self).wf(),
        ensures
            final(self).wf(),
            final(self).limits() == old(self).limits(),
            final(self).state() == recorded(old(self).state(), old(self).limits(), diagnostic),
    {
        match diagnostic.severity {
            DiagnosticSeverity::Event => self.events.push(diagnostic),
            DiagnosticSeverity::Warning => self.warnings.push(diagnostic),
            DiagnosticSeverity::Error => self.errors.push(diagnostic),
        }
        self.revision = self.revision.saturating_add(1);
    }

    /// The events, oldest first.
    pub fn events(&self) -> (r: Vec<&Diagnostic>)
        ensures
            holds(r@, self.state().events),
    {
        listed(&self.events)
    }

    /// The warnings, oldest first.
    pub fn warnings(&self) -> (r: Vec<&Diagnostic>)
        ensures
            holds(r@, self.state().warnings),
    {
        listed(&self.warnings)
    }

    /// The errors, oldest first.
    pub fn errors(&self) -> (r: Vec<&Diagnostic>)
        ensures
            holds(r@, self.state().errors),
    {
        listed(&self.errors)
    }

    /// Drops all records.
    pub fn clear(&mut self)
        ensures
            final(self).wf(),
            final(self).limits() == old(self).limits(),
            final(self).state() == (LogState {
                events: Seq::empty(),
                warnings: Seq::empty(),
                errors: Seq::empty(),
                revision: next_revision(old(self).state().revision),
            }),
    {
        self.events.clear();
        self.warnings.clear();
        self.errors.clear();
        self.revision = self.revision.saturating_add(1);
    }

    /// Adds the records of an earlier run in the order of their timestamps, within the
    /// limits.
    pub fn seed(&mut self, prior: Vec<Diagnostic>)
        requires
            old(self).wf(),
        ensures
            final(self).wf(),
            final(self).limits() == old(self).limits(),
            final(self).state() == recorded_all(
                old(self).state(),
                old(self).limits(),
                chronological(prior@),
            ),
    {
        let sorted: Vec<Diagnostic> = sort_by_time(prior);
        let ghost all = sorted@;
        let mut i: usize = 0;
        assert(all.take(0) =~= Seq::empty());
        while i < sorted.len()
            invariant
                i <= sorted.len(),
                sorted@ == all,
                self.wf(),
                self.limits() == old(self).limits(),
                self.state() == recorded_all(
                    old(self).state(),
                    old(self).limits(),
                    all.take(i as int),
                ),
            decreases sorted.len() - i,
        {
            self.record(sorted[i].clone());
            i = i + 1;
            assert(all.take(i as int).drop_last() =~= all.take(i - 1));
        }
        assert(all.take(i as int) =~= all);
    }
}

/// The limit that applies.
pub open spec fn limit_or_backstop(limit: Option<usize>) -> nat {
    match limit {
        Some(n) => n as nat,
        None => DEFAULT_BACKSTOP as nat,
    }
}

/// `r` refers to the entries of `s`, in order.
pub open spec fn holds(r: Seq<&Diagnostic>, s: Seq<Diagnostic>) -> bool {
    &&& r.len() == s.len()
    &&& forall|i: int| 0 <= i < r.len() ==> *(#[trigger] r[i]) == s[i]
}

fn listed(store: &CountBounded<Diagnostic>) -> (r: Vec<&Diagnostic>)
    ensures
        holds(r@, store.entries()),
{
    let mut out: Vec<&Diagnostic> = Vec::new();
    let mut i: usize = 0;
    while i < store.len()
        invariant
            i <= store.entries().len(),
            holds(out@, store.entries().take(i as int)),
        decreases store.entries().len() - i,
    {
        out.push(store.get(i));
        i = i + 1;
    }
    out
}

} // verus!
