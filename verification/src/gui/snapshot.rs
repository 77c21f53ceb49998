//! What the runtime hands to the interface about a channel.

use vstd::prelude::*;

use crate::diagnostics::{chronological, sort_by_time, Diagnostic};
use crate::model::float::{doubles_equal, same_double};
use crate::model::ids::{ChannelId, DisplayViewId, MatchRuleId};
use crate::model::state::{ChannelState, RecordingState};

verus! {

/// Occupancy of a bounded queue.
#[derive(Clone, Copy, Debug, PartialEq, Eq, Structural)]
pub struct QueueDepth {
    pub current: usize,
    pub peak: usize,
    pub capacity: usize,
}

impl Default for QueueDepth {
    fn default() -> (r: QueueDepth)
        ensures
            r == (QueueDepth { current: 0, peak: 0, capacity: 0 }),
    {
        QueueDepth { current: 0, peak: 0, capacity: 0 }
    }
}

/// A rate per second, as the bits of its IEEE 754 double. It is compared as the number.
#[derive(Clone, Copy, Debug)]
pub struct Rate {
    pub bits: u64,
}

impl PartialEq for Rate {
    fn eq(&self, other: &Rate) -> (r: bool) {
        doubles_equal(self.bits, other.bits)
    }
}

impl vstd::std_specs::cmp::PartialEqSpecImpl for Rate {
    open spec fn obeys_eq_spec() -> bool {
        true
    }

    open spec fn eq_spec(&self, other: &Rate) -> bool {
        same_double(self.bits, other.bits)
    }
}

/// How active a channel is.
#[derive(Clone, Copy, Debug, PartialEq)]
pub struct ChannelActivity {
    /// When data last arrived, in nanoseconds since the Unix epoch.
    pub last_data_at: Option<i128>,
    pub bytes_per_sec: Rate,
    pub total_bytes: u64,
}

/// The text that a firing rule splices into the view.
#[derive(Clone, Debug, PartialEq, Eq)]
pub struct MarkRender {
    pub text: String,
    /// Before (or after) the annotated byte.
    pub before: bool,
}

/// A recent firing of a match rule.
#[derive(Clone, Debug, PartialEq, Eq)]
pub struct TriggeredMatch {
    pub rule_id: MatchRuleId,
    pub byte_offset: Option<u64>,
    /// Where it stands in the view's stream, if anywhere.
    pub view_offset: Option<u64>,
    pub mark: Option<MarkRender>,
}

/// Whether one of the channel's display views is paused.
#[derive(Clone, Copy, Debug, PartialEq, Eq, Structural)]
pub struct DisplayViewState {
    pub id: DisplayViewId,
    pub paused: bool,
}

/// The retained diagnostics of a channel, oldest first.
#[derive(Clone, Debug, PartialEq, Eq)]
pub struct DiagnosticsSnapshot {
    pub events: Vec<Diagnostic>,
    pub warnings: Vec<Diagnostic>,
    pub errors: Vec<Diagnostic>,
}

impl Default for DiagnosticsSnapshot {
    fn default() -> (r: DiagnosticsSnapshot)
        ensures
            r.events@.len() == 0,
            r.warnings@.len() == 0,
            r.errors@.len() == 0,
    {
        DiagnosticsSnapshot { events: Vec::new(), warnings: Vec::new(), errors: Vec::new() }
    }
}

impl DiagnosticsSnapshot {
    /// All records in one chronological timeline.
    pub open spec fn timeline(self) -> Seq<Diagnostic> {
        chronological(self.events@ + self.warnings@ + self.errors@)
    }

    /// All records in one chronological timeline.
    pub fn sorted_vec(&self) -> (r: Vec<Diagnostic>)
        ensures
            r@ == self.timeline(),
    {
        let mut all: Vec<Diagnostic> = Vec::new();
        append_copies(&mut all, &self.events);
        append_copies(&mut all, &self.warnings);
        append_copies(&mut all, &self.errors);
        assert(all@ =~= self.events@ + self.warnings@ + self.errors@);
        sort_by_time(all)
    }
}

fn append_copies(to: &mut Vec<Diagnostic>, from: &Vec<Diagnostic>)
    ensures
        final(to)@ == old(to)@ + from@,
{
    let mut i: usize = 0;
    assert(to@ =~= old(to)@ + from@.take(0));
    while i < from.len()
        invariant
            i <= from.len(),
            to@ == old(to)@ + from@.take(i as int),
        decreases from.len() - i,
    {
        to.push(from[i].clone());
        i = i + 1;
        assert(to@ =~= old(to)@ + from@.take(i as int));
    }
    assert(from@.take(i as int) =~= from@);
}

/// What became of a run of a channel that has ended.
#[derive(Clone, Copy, Debug, PartialEq, Eq, Structural)]
pub struct ListenerRunSummary {
    /// When the run started and finished, in nanoseconds since the Unix epoch.
    pub started: i128,
    pub finished: i128,
    /// How long it took, in nanoseconds.
    pub elapsed: u64,
    pub total_bytes: u64,
    pub chunk_count: u64,
    pub ingest_queue: QueueDepth,
    pub diagnostics_warnings: usize,
    pub diagnostics_errors: usize,
    /// Whether the counts were taken once everything had been processed.
    pub final_snapshot_complete: bool,
}

/// The observable state of the selected channel.
#[derive(Clone, Debug, PartialEq)]
pub struct ChannelSnapshot {
    pub channel_id: ChannelId,
    pub state: ChannelState,
    pub reconnect_pending: bool,
    pub display_views: Vec<DisplayViewState>,
    pub diagnostics: DiagnosticsSnapshot,
    pub raw_recording: Option<RecordingState>,
    pub display_recording: Option<RecordingState>,
    pub activity: ChannelActivity,
    /// A bounded, rolling window of recent firings.
    pub matches: Vec<TriggeredMatch>,
    pub match_boundary_saves: u64,
    pub stream_end_offset: u64,
    pub ingest_queue: QueueDepth,
    pub raw_recording_queue: Option<QueueDepth>,
    /// The last run that has ended.
    pub last_run_summary: Option<ListenerRunSummary>,
}

/// The liveness of a channel that is not selected.
#[derive(Clone, Copy, Debug, PartialEq)]
pub struct ChannelStats {
    pub state: ChannelState,
    pub reconnect_pending: bool,
    pub activity: ChannelActivity,
    pub event_count: usize,
    pub warning_count: usize,
    pub error_count: usize,
    pub raw_recording: Option<RecordingState>,
    pub display_recording: Option<RecordingState>,
    pub match_boundary_saves: u64,
    pub ingest_queue: QueueDepth,
    pub raw_recording_queue: Option<QueueDepth>,
}

/// The bytes of a stream that are new since the last poll, from `base_offset` to
/// `end_offset`.
#[derive(Clone, Debug, PartialEq, Eq)]
pub struct StreamDelta {
    pub base_offset: u64,
    pub bytes: Vec<u8>,
    pub end_offset: u64,
}

/// Levels of a serial port's control and status lines.
#[derive(Clone, Copy, Debug, PartialEq, Eq, Structural)]
pub struct SerialControlLines {
    pub rts: bool,
    pub dtr: bool,
    pub cts: bool,
    pub dsr: bool,
    pub dcd: bool,
    pub ri: bool,
}

} // verus!
