//! What the runtime reports to the presentation layers.

use vstd::prelude::*;

use crate::model::ids::{ChannelId, MatchRuleId};

verus! {

/// Which recording lane an event refers to. A Channel runs its Raw (verbatim bytes) and
/// Display (rendered text) recordings independently, and their faults and recoveries
/// are independent too.
#[derive(Clone, Copy, Debug, PartialEq, Eq, Structural)]
pub enum RecordingTap {
    Raw,
    Display,
}

impl RecordingTap {
    pub open spec fn label_spec(self) -> Seq<char> {
        match self {
            RecordingTap::Raw => "Raw"@,
            RecordingTap::Display => "Display"@,
        }
    }

    /// The lane's name in messages.
    pub fn label(self) -> (r: &'static str)
        ensures
            r@ == self.label_spec(),
    {
        match self {
            RecordingTap::Raw => "Raw",
            RecordingTap::Display => "Display",
        }
    }
}

/// Something the runtime reports.
#[derive(Clone, Copy, Debug, PartialEq, Eq, Structural)]
#[non_exhaustive]
pub enum RuntimeEvent {
    ChannelStarted(ChannelId),
    ChannelStopped(ChannelId),
    ChannelFaulted(ChannelId),
    /// A recording on the carried lane faulted: a begin that could not open the file, a
    /// write failure while running, or a dirty stop.
    RecordingFaulted(ChannelId, RecordingTap),
    /// A recording on the carried lane began: the file is open and recording.
    RecordingStarted(ChannelId, RecordingTap),
    WarningRaised(ChannelId),
    TcpClientConnected(ChannelId),
    TcpClientDisconnected(ChannelId),
    /// A sustained reader stall, with its length in nanoseconds.
    ReceptionStalled(ChannelId, u64),
    /// A serial Channel's control or status lines changed.
    ControlLinesChanged(ChannelId),
    /// Auto-reconnect is attempting to start a faulted Channel again; carries the
    /// attempt number, counted from 1.
    ChannelReconnecting(ChannelId, u32),
    /// Auto-reconnect succeeded.
    ChannelReconnected(ChannelId),
    /// Auto-reconnect gave up; the Channel stays Faulted.
    ChannelReconnectGaveUp(ChannelId),
    /// Free disk space for a Channel's recording fell below its guard threshold.
    DiskSpaceLow(ChannelId),
    /// A recording was stopped and finalized because of low disk space.
    RecordingStoppedLowDisk(ChannelId),
    /// A match rule fired on a Channel.
    MatchTriggered(ChannelId, MatchRuleId),
}

} // verus!
