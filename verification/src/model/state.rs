//! Channel kinds, the lifecycle states and the transitions between them.

use vstd::prelude::*;

verus! {

/// The four supported Channel kinds.
#[derive(Clone, Copy, Debug, PartialEq, Eq, Structural)]
pub enum ChannelKind {
    Serial,
    Udp,
    TcpListener,
    TcpConnection,
}

/// Channel lifecycle state.
#[derive(Clone, Copy, Debug, PartialEq, Eq, Structural)]
pub enum ChannelState {
    Stopped,
    Starting,
    Running,
    Stopping,
    Faulted,
}

impl ChannelState {
    /// The states that may follow directly.
    pub open spec fn successors(self) -> Set<ChannelState> {
        match self {
            ChannelState::Stopped => set![ChannelState::Starting],
            ChannelState::Starting => set![ChannelState::Running, ChannelState::Faulted],
            ChannelState::Running => set![ChannelState::Stopping, ChannelState::Faulted],
            ChannelState::Stopping => set![ChannelState::Stopped],
            ChannelState::Faulted => set![ChannelState::Stopped],
        }
    }

    /// Whether a direct transition to `next` is permitted:
    /// `Stopped → Starting → Running`, `Running → Stopping → Stopped`,
    /// `Starting → Faulted`, `Running → Faulted`, `Faulted → Stopped`, and no other.
    pub fn can_transition_to(self, next: ChannelState) -> (r: bool)
        ensures
            r == self.successors().contains(next),
    {
        match self {
            ChannelState::Stopped => next == ChannelState::Starting,
            ChannelState::Starting => next == ChannelState::Running || next
                == ChannelState::Faulted,
            ChannelState::Running => next == ChannelState::Stopping || next
                == ChannelState::Faulted,
            ChannelState::Stopping => next == ChannelState::Stopped,
            ChannelState::Faulted => next == ChannelState::Stopped,
        }
    }
}

/// No state follows itself.
pub proof fn law_no_self_transition(state: ChannelState)
    ensures
        !state.successors().contains(state),
{
}

/// Only a channel that is starting or running can fault.
pub proof fn law_faults_come_from_live_states(state: ChannelState)
    ensures
        state.successors().contains(ChannelState::Faulted) <==> state is Starting || state is Running,
{
}

/// A channel runs only by starting, and stops only out of Stopping or Faulted.
pub proof fn law_running_and_stopped_are_guarded(state: ChannelState)
    ensures
        state.successors().contains(ChannelState::Running) <==> state is Starting,
        state.successors().contains(ChannelState::Starting) <==> state is Stopped,
        state.successors().contains(ChannelState::Stopped) <==> state is Stopping || state is Faulted,
{
}

/// Per-view display presentation state. Runtime-only; never persisted.
#[derive(Clone, Copy, Debug, PartialEq, Eq, Structural)]
pub enum DisplayState {
    Active,
    Paused,
}

/// Recording state, independent of Channel state: a Channel may be running while its
/// recording is faulted.
#[derive(Clone, Copy, Debug, PartialEq, Eq, Structural)]
pub enum RecordingState {
    Disabled,
    Enabled,
    Faulted,
}

} // verus!
