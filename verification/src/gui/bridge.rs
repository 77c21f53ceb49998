//! Between the interface and the runtime: what each command asks of the runtime, and
//! what the interface is told of the outcome.
//!
//! The driver decides; performing a step, and handing back its outcome, is left to the
//! loop that owns the runtime.

use vstd::prelude::*;
use vstd::string::*;

use crate::config::schema::{
    ChannelConfig, ChannelConfigModel, DisplayConfig, DisplayConfigModel, RecordingConfig,
    RecordingConfigModel, RetentionConfig,
};
use crate::config::validate::{Profile, CURRENT_VERSION};
use crate::gui::phrases::{describe_interface, interface_line, profile_name_from_path};
use crate::gui::snapshot::StreamDelta;
use crate::gui::state::UiUpdate;
use crate::model::command::RuntimeEvent;
use crate::model::ids::{ChannelId, ChannelName, DisplayViewId};
use crate::model::metadata::optional_text;

verus! {

/// A command from the interface to the runtime.
#[derive(Debug)]
pub enum UiCommand {
    /// Register a channel.
    AddChannel(ChannelConfig),
    Start(ChannelId),
    Stop(ChannelId),
    /// Stop every channel that is not stopped.
    StopAll,
    /// Remove a channel, stopping it first where it runs.
    RemoveChannel(ChannelId),
    /// Replace a channel's configuration.
    Reconfigure(ChannelId, ChannelConfig),
    /// Rename a channel in place, without a restart.
    Rename(ChannelId, ChannelName),
    ApplyPending(ChannelId),
    /// Install a configuration, where one is given, and start the channel where asked to.
    CommitAndStart { id: ChannelId, config: Option<ChannelConfig>, start: bool },
    /// Install a configuration on each of several channels and start them.
    StartAll(Vec<(ChannelId, ChannelConfig)>),
    PauseDisplay(ChannelId, DisplayViewId),
    ResumeDisplay(ChannelId, DisplayViewId),
    SetRts(ChannelId, bool),
    SetDtr(ChannelId, bool),
    /// Begin or stop the Raw recording of a running channel with the settings given.
    SetRecording(ChannelId, bool, RecordingConfig),
    /// Begin or stop the Display recording of a running channel with the settings given.
    SetDisplayRecording(ChannelId, bool, RecordingConfig),
    /// Keep new settings of the Raw recording.
    SetRawRecordingConfig(ChannelId, RecordingConfig),
    /// Keep new settings of the Display recording.
    SetDisplayRecordingConfig(ChannelId, RecordingConfig),
    /// Keep new view settings.
    SetViewConfig(ChannelId, DisplayConfig, RetentionConfig),
    /// The channel on screen.
    Select(Option<ChannelId>),
    /// Save every registered channel to a profile file.
    SaveProfile(String),
    /// Replace the workspace by that of a profile file.
    LoadProfile(String),
    /// Stop all channels and end the driver.
    Shutdown,
}

/// What a command says.
pub ghost enum UiCommandModel {
    AddChannel(ChannelConfigModel),
    Start(ChannelId),
    Stop(ChannelId),
    StopAll,
    RemoveChannel(ChannelId),
    Reconfigure(ChannelId, ChannelConfigModel),
    Rename(ChannelId, Seq<char>),
    ApplyPending(ChannelId),
    CommitAndStart(ChannelId, Option<ChannelConfigModel>, bool),
    StartAll(Seq<(ChannelId, ChannelConfigModel)>),
    PauseDisplay(ChannelId, DisplayViewId),
    ResumeDisplay(ChannelId, DisplayViewId),
    SetRts(ChannelId, bool),
    SetDtr(ChannelId, bool),
    SetRecording(ChannelId, bool, RecordingConfigModel),
    SetDisplayRecording(ChannelId, bool, RecordingConfigModel),
    SetRawRecordingConfig(ChannelId, RecordingConfigModel),
    SetDisplayRecordingConfig(ChannelId, RecordingConfigModel),
    SetViewConfig(ChannelId, DisplayConfigModel, RetentionConfig),
    Select(Option<ChannelId>),
    SaveProfile(Seq<char>),
    LoadProfile(Seq<char>),
    Shutdown,
}

/// What a batch of configurations says.
pub open spec fn batch_view(batch: Seq<(ChannelId, ChannelConfig)>) -> Seq<
    (ChannelId, ChannelConfigModel),
> {
    batch.map_values(|e: (ChannelId, ChannelConfig)| (e.0, e.1@))
}

impl View for UiCommand {
    type V = UiCommandModel;

    open spec fn view(&self) -> UiCommandModel {
        match *self {
            UiCommand::AddChannel(config) => UiCommandModel::AddChannel(config@),
            UiCommand::Start(id) => UiCommandModel::Start(id),
            UiCommand::Stop(id) => UiCommandModel::Stop(id),
            UiCommand::StopAll => UiCommandModel::StopAll,
            UiCommand::RemoveChannel(id) => UiCommandModel::RemoveChannel(id),
            UiCommand::Reconfigure(id, config) => UiCommandModel::Reconfigure(id, config@),
            UiCommand::Rename(id, name) => UiCommandModel::Rename(id, name@),
            UiCommand::ApplyPending(id) => UiCommandModel::ApplyPending(id),
            UiCommand::CommitAndStart { id, config, start } => UiCommandModel::CommitAndStart(
                id,
                match config {
                    Some(config) => Some(config@),
                    None => None,
                },
                start,
            ),
            UiCommand::StartAll(batch) => UiCommandModel::StartAll(batch_view(batch@)),
            UiCommand::PauseDisplay(id, view) => UiCommandModel::PauseDisplay(id, view),
            UiCommand::ResumeDisplay(id, view) => UiCommandModel::ResumeDisplay(id, view),
            UiCommand::SetRts(id, on) => UiCommandModel::SetRts(id, on),
            UiCommand::SetDtr(id, on) => UiCommandModel::SetDtr(id, on),
            UiCommand::SetRecording(id, on, rec) => UiCommandModel::SetRecording(id, on, rec@),
            UiCommand::SetDisplayRecording(id, on, rec) => UiCommandModel::SetDisplayRecording(
                id,
                on,
                rec@,
            ),
            UiCommand::SetRawRecordingConfig(id, rec) => UiCommandModel::SetRawRecordingConfig(
                id,
                rec@,
            ),
            UiCommand::SetDisplayRecordingConfig(
                id,
                rec,
            ) => UiCommandModel::SetDisplayRecordingConfig(id, rec@),
            UiCommand::SetViewConfig(id, display, retention) => UiCommandModel::SetViewConfig(
                id,
                display@,
                retention,
            ),
            UiCommand::Select(id) => UiCommandModel::Select(id),
            UiCommand::SaveProfile(path) => UiCommandModel::SaveProfile(path@),
            UiCommand::LoadProfile(path) => UiCommandModel::LoadProfile(path@),
            UiCommand::Shutdown => UiCommandModel::Shutdown,
        }
    }
}

/// What is to be done with the runtime.
#[derive(Debug)]
pub enum Step {
    /// Nothing.
    Rest,
    Add(ChannelConfig),
    /// Set the pending configuration and apply it.
    Reconfigure(ChannelId, ChannelConfig),
    Start(ChannelId),
    Stop(ChannelId),
    Remove(ChannelId),
    Rename(ChannelId, ChannelName),
    ApplyPending(ChannelId),
    Commit(ChannelId, Option<ChannelConfig>, bool),
    CommitAll(Vec<(ChannelId, ChannelConfig)>),
    /// Hand the command on. Whether it succeeds shows in later snapshots.
    Forward(UiCommand),
    /// Save the configurations of the registered channels to a file.
    Save(String),
    /// Read and check a profile file.
    Load(String),
    /// Stop all channels and end.
    Shutdown,
}

/// What became of a step.
#[derive(Debug)]
pub enum Outcome {
    /// A channel was registered under an id.
    Added(ChannelId, ChannelConfig),
    Reconfigured(ChannelId, ChannelConfig, Result<(), String>),
    Started(ChannelId, Result<(), String>),
    Stopped(ChannelId, Result<(), String>),
    Removed(ChannelId),
    /// Whether the name was taken.
    Renamed(ChannelId, ChannelName, bool),
    Applied(ChannelId, Result<(), String>),
    Committed(ChannelId, Option<ChannelConfig>, Result<(), String>),
    /// A profile was saved to a file of this name.
    Saved(Option<String>, Result<(), String>),
    /// A profile file could not be read, or is no profile.
    LoadFailed(String),
    /// The channels of the profile of this name have been registered.
    Loaded(String),
}

/// What an update says, of those that the driver makes.
pub ghost enum Told {
    Added(ChannelId, Seq<char>, Seq<char>, ChannelConfigModel),
    Reconfigured(ChannelId, Seq<char>, ChannelConfigModel),
    Renamed(ChannelId, Seq<char>),
    Removed(ChannelId),
    Failed(ChannelId, Seq<char>),
    Saved(Option<Seq<char>>),
    Loaded(Seq<char>),
    ProfileFailed(Seq<char>),
    Other,
}

/// What an update says.
pub open spec fn told(u: UiUpdate) -> Told {
    match u {
        UiUpdate::ChannelAdded(id, name, details, config) => Told::Added(
            id,
            name@,
            details@,
            config@,
        ),
        UiUpdate::ChannelReconfigured(id, details, config) => Told::Reconfigured(
            id,
            details@,
            config@,
        ),
        UiUpdate::ChannelRenamed(id, name) => Told::Renamed(id, name@),
        UiUpdate::ChannelRemoved(id) => Told::Removed(id),
        UiUpdate::ChannelError(id, reason) => Told::Failed(id, reason@),
        UiUpdate::ProfileSaved(name) => Told::Saved(optional_text(name)),
        UiUpdate::ProfileLoaded(name) => Told::Loaded(name@),
        UiUpdate::ProfileError(reason) => Told::ProfileFailed(reason@),
        _ => Told::Other,
    }
}

/// What is told of a command that may fail: its reason, if it did.
pub open spec fn failure(id: ChannelId, result: Result<(), String>) -> Option<Told> {
    match result {
        Ok(_) => None,
        Err(reason) => Some(Told::Failed(id, reason@)),
    }
}

/// What is told of an outcome, if anything.
pub open spec fn reply(outcome: Outcome) -> Option<Told> {
    match outcome {
        Outcome::Added(id, config) => Some(
            Told::Added(id, config@.name, interface_line(config@.interface), config@),
        ),
        Outcome::Reconfigured(id, config, result) => match result {
            Ok(_) => Some(Told::Reconfigured(id, interface_line(config@.interface), config@)),
            Err(reason) => Some(Told::Failed(id, reason@)),
        },
        Outcome::Started(id, result) => failure(id, result),
        Outcome::Stopped(id, result) => failure(id, result),
        Outcome::Removed(id) => Some(Told::Removed(id)),
        Outcome::Renamed(id, name, taken) => if taken {
            Some(Told::Renamed(id, name@))
        } else {
            None
        },
        Outcome::Applied(id, result) => failure(id, result),
        Outcome::Committed(id, config, result) => match (config, result) {
            (_, Err(reason)) => Some(Told::Failed(id, reason@)),
            (Some(config), Ok(_)) => Some(
                Told::Reconfigured(id, interface_line(config@.interface), config@),
            ),
            (None, Ok(_)) => None,
        },
        Outcome::Saved(name, result) => match result {
            Ok(_) => Some(Told::Saved(optional_text(name))),
            Err(reason) => Some(Told::ProfileFailed("save failed: "@ + reason@)),
        },
        Outcome::LoadFailed(reason) => Some(Told::ProfileFailed("load failed: "@ + reason@)),
        Outcome::Loaded(name) => Some(Told::Loaded(name@)),
    }
}

/// The state of the driver.
pub ghost struct DriverModel {
    pub channels: Seq<ChannelId>,
    pub selected: Option<ChannelId>,
    pub cursor: u64,
}

/// The step of a command.
pub open spec fn step_of(cmd: UiCommand) -> Step {
    match cmd {
        UiCommand::AddChannel(config) => Step::Add(config),
        UiCommand::Reconfigure(id, config) => Step::Reconfigure(id, config),
        UiCommand::Start(id) => Step::Start(id),
        UiCommand::Stop(id) => Step::Stop(id),
        UiCommand::RemoveChannel(id) => Step::Remove(id),
        UiCommand::Rename(id, name) => Step::Rename(id, name),
        UiCommand::ApplyPending(id) => Step::ApplyPending(id),
        UiCommand::CommitAndStart { id, config, start } => Step::Commit(id, config, start),
        UiCommand::StartAll(batch) => Step::CommitAll(batch),
        UiCommand::Select(_) => Step::Rest,
        UiCommand::SaveProfile(path) => Step::Save(path),
        UiCommand::LoadProfile(path) => Step::Load(path),
        UiCommand::Shutdown => Step::Shutdown,
        other => Step::Forward(other),
    }
}

/// The driver after a command: a selection is shown from its first byte that is still
/// there; nothing else changes before its outcome is known.
pub open spec fn commanded(d: DriverModel, cmd: UiCommand) -> DriverModel {
    match cmd {
        UiCommand::Select(id) => DriverModel { selected: id, cursor: 0, ..d },
        _ => d,
    }
}

/// The driver after an outcome: channels are kept in the order of their registration.
pub open spec fn settled(d: DriverModel, outcome: Outcome) -> DriverModel {
    match outcome {
        Outcome::Added(id, _) => DriverModel { channels: d.channels.push(id), ..d },
        Outcome::Removed(id) => DriverModel {
            channels: d.channels.filter(|c: ChannelId| c != id),
            ..d
        },
        _ => d,
    }
}

/// The driver after a runtime event: a stream that starts again is read from its first
/// byte.
pub open spec fn notified(d: DriverModel, event: RuntimeEvent) -> DriverModel {
    match event {
        RuntimeEvent::ChannelStarted(id) => if d.selected == Some(id) {
            DriverModel { cursor: 0, ..d }
        } else {
            d
        },
        RuntimeEvent::ChannelReconnected(id) => if d.selected == Some(id) {
            DriverModel { cursor: 0, ..d }
        } else {
            d
        },
        _ => d,
    }
}

/// What is asked of the runtime about a channel, besides its serial lines.
#[derive(Clone, Copy, Debug, PartialEq, Eq, Structural)]
pub enum Poll {
    /// A snapshot, and the bytes from an offset on.
    Full(ChannelId, u64),
    /// Liveness only.
    Stats(ChannelId),
}

/// What is asked about a channel: only the selected one is polled in full.
pub open spec fn poll_of(d: DriverModel, id: ChannelId) -> Poll {
    if d.selected == Some(id) {
        Poll::Full(id, d.cursor)
    } else {
        Poll::Stats(id)
    }
}

/// The driver: which channels there are, which one is on screen, and up to where its
/// stream was read.
#[derive(Debug)]
pub struct Driver {
    pub channels: Vec<ChannelId>,
    pub selected: Option<ChannelId>,
    pub stream_cursor: u64,
}

impl View for Driver {
    type V = DriverModel;

    open spec fn view(&self) -> DriverModel {
        DriverModel {
            channels: self.channels@,
            selected: self.selected,
            cursor: self.stream_cursor,
        }
    }
}

/// Whether a channel is the selected one.
fn is_selected(selected: Option<ChannelId>, id: ChannelId) -> (r: bool)
    ensures
        r == (selected == Some(id)),
{
    match selected {
        Some(s) => s == id,
        None => false,
    }
}

impl Driver {
    /// A driver without channels.
    pub fn new() -> (r: Driver)
        ensures
            r@ == (DriverModel { channels: Seq::empty(), selected: None, cursor: 0 }),
    {
        let d = Driver { channels: Vec::new(), selected: None, stream_cursor: 0 };
        assert(d@.channels =~= Seq::empty());
        d
    }

    /// Takes a command, and says what is to be done for it.
    pub fn handle(&mut self, cmd: UiCommand) -> (r: Step)
        ensures
            final(self)@ == commanded(old(self)@, cmd),
            r == step_of(cmd),
    {
        match cmd {
            UiCommand::AddChannel(config) => Step::Add(config),
            UiCommand::Reconfigure(id, config) => Step::Reconfigure(id, config),
            UiCommand::Start(id) => Step::Start(id),
            UiCommand::Stop(id) => Step::Stop(id),
            UiCommand::RemoveChannel(id) => Step::Remove(id),
            UiCommand::Rename(id, name) => Step::Rename(id, name),
            UiCommand::ApplyPending(id) => Step::ApplyPending(id),
            UiCommand::CommitAndStart { id, config, start } => Step::Commit(id, config, start),
            UiCommand::StartAll(batch) => Step::CommitAll(batch),
            UiCommand::Select(id) => {
                self.selected = id;
                self.stream_cursor = 0;
                Step::Rest
            },
            UiCommand::SaveProfile(path) => Step::Save(path),
            UiCommand::LoadProfile(path) => Step::Load(path),
            UiCommand::Shutdown => Step::Shutdown,
            other => Step::Forward(other),
        }
    }

    /// Takes the outcome of a step, and says what the interface is told.
    pub fn settle(&mut self, outcome: Outcome) -> (r: Option<UiUpdate>)
        ensures
            final(self)@ == settled(old(self)@, outcome),
            match (r, reply(outcome)) {
                (Some(u), Some(t)) => told(u) == t,
                (None, None) => true,
                _ => false,
            },
    {
        match outcome {
            Outcome::Added(id, config) => {
                let name: String = config.name.as_str().to_owned();
                let details: String = describe_interface(&config.interface);
                self.channels.push(id);
                Some(UiUpdate::ChannelAdded(id, name, details, config))
            },
            Outcome::Reconfigured(id, config, result) => match result {
                Ok(_) => {
                    let details: String = describe_interface(&config.interface);
                    Some(UiUpdate::ChannelReconfigured(id, details, config))
                },
                Err(reason) => Some(UiUpdate::ChannelError(id, reason)),
            },
            Outcome::Started(id, result) => told_failure(id, result),
            Outcome::Stopped(id, result) => told_failure(id, result),
            Outcome::Removed(id) => {
                self.forget(id);
                Some(UiUpdate::ChannelRemoved(id))
            },
            Outcome::Renamed(id, name, taken) => if taken {
                Some(UiUpdate::ChannelRenamed(id, name.as_str().to_owned()))
            } else {
                None
            },
            Outcome::Applied(id, result) => told_failure(id, result),
            Outcome::Committed(id, config, result) => match (config, result) {
                (_, Err(reason)) => Some(UiUpdate::ChannelError(id, reason)),
                (Some(config), Ok(_)) => {
                    let details: String = describe_interface(&config.interface);
                    Some(UiUpdate::ChannelReconfigured(id, details, config))
                },
                (None, Ok(_)) => None,
            },
            Outcome::Saved(name, result) => match result {
                Ok(_) => Some(UiUpdate::ProfileSaved(name)),
                Err(reason) => {
                    let mut text: String = "save failed: ".to_owned();
                    text.append(reason.as_str());
                    Some(UiUpdate::ProfileError(text))
                },
            },
            Outcome::LoadFailed(reason) => {
                let mut text: String = "load failed: ".to_owned();
                text.append(reason.as_str());
                Some(UiUpdate::ProfileError(text))
            },
            Outcome::Loaded(name) => Some(UiUpdate::ProfileLoaded(name)),
        }
    }

    /// Drops a channel.
    fn forget(&mut self, id: ChannelId)
        ensures
            final(self)@ == (DriverModel {
                channels: old(self)@.channels.filter(|c: ChannelId| c != id),
                ..old(self)@
            }),
    {
        let mut kept: Vec<ChannelId> = Vec::new();
        let mut i: usize = 0;
        let ghost keep = |c: ChannelId| c != id;
        assert(self.channels@.take(0).filter(keep) =~= Seq::<ChannelId>::empty()) by {
            reveal(Seq::filter);
        }
        while i < self.channels.len()
            invariant
                i <= self.channels.len(),
                keep == (|c: ChannelId| c != id),
                kept@ == self.channels@.take(i as int).filter(keep),
            decreases self.channels.len() - i,
        {
            proof {
                reveal(Seq::filter);
                assert(self.channels@.take(i + 1).drop_last() =~= self.channels@.take(i as int));
            }
            if self.channels[i] != id {
                kept.push(self.channels[i]);
            }
            i = i + 1;
        }
        assert(self.channels@.take(i as int) =~= self.channels@);
        self.channels = kept;
    }

    /// Empties the workspace for a profile that was read and checked: gives the channels
    /// to remove, each before any channel of the profile is added.
    pub fn begin_load(&mut self) -> (r: Vec<ChannelId>)
        ensures
            r@ == old(self)@.channels,
            final(self)@ == (DriverModel { channels: Seq::empty(), selected: None, cursor: 0 }),
    {
        let mut old_channels: Vec<ChannelId> = Vec::new();
        core::mem::swap(&mut self.channels, &mut old_channels);
        self.selected = None;
        self.stream_cursor = 0;
        assert(self@.channels =~= Seq::empty());
        old_channels
    }

    /// Takes a runtime event, before it is handed to the interface.
    pub fn notify(&mut self, event: &RuntimeEvent)
        ensures
            final(self)@ == notified(old(self)@, *event),
    {
        match event {
            RuntimeEvent::ChannelStarted(id) => {
                if is_selected(self.selected, *id) {
                    self.stream_cursor = 0;
                }
            },
            RuntimeEvent::ChannelReconnected(id) => {
                if is_selected(self.selected, *id) {
                    self.stream_cursor = 0;
                }
            },
            _ => {},
        }
    }

    /// What is to be asked of the runtime, channel by channel.
    pub fn poll_plan(&self) -> (r: Vec<Poll>)
        ensures
            r@ == self@.channels.map_values(|id: ChannelId| poll_of(self@, id)),
    {
        let mut out: Vec<Poll> = Vec::new();
        let mut i: usize = 0;
        while i < self.channels.len()
            invariant
                i <= self.channels.len(),
                out.len() == i,
                forall|j: int| 0 <= j < i ==> out@[j] == poll_of(self@, self.channels@[j]),
            decreases self.channels.len() - i,
        {
            let id: ChannelId = self.channels[i];
            if is_selected(self.selected, id) {
                out.push(Poll::Full(id, self.stream_cursor));
            } else {
                out.push(Poll::Stats(id));
            }
            i = i + 1;
        }
        assert(out@ =~= self@.channels.map_values(|id: ChannelId| poll_of(self@, id)));
        out
    }

    /// Takes the new bytes of the selected channel. They are handed on only where there
    /// are any.
    pub fn take_delta(&mut self, delta: StreamDelta) -> (r: Option<StreamDelta>)
        ensures
            final(self)@ == (DriverModel { cursor: delta.end_offset, ..old(self)@ }),
            r == if delta.bytes@.len() == 0 {
                None
            } else {
                Some(delta)
            },
    {
        self.stream_cursor = delta.end_offset;
        if delta.bytes.len() == 0 {
            None
        } else {
            Some(delta)
        }
    }
}

/// What is told of a command that may fail.
fn told_failure(id: ChannelId, result: Result<(), String>) -> (r: Option<UiUpdate>)
    ensures
        match (r, failure(id, result)) {
            (Some(u), Some(t)) => told(u) == t,
            (None, None) => true,
            _ => false,
        },
{
    match result {
        Ok(_) => None,
        Err(reason) => Some(UiUpdate::ChannelError(id, reason)),
    }
}

/// The configurations that are there, in order.
pub open spec fn present(configs: Seq<Option<ChannelConfig>>) -> Seq<ChannelConfig>
    decreases configs.len(),
{
    if configs.len() == 0 {
        Seq::empty()
    } else {
        match configs.last() {
            Some(config) => present(configs.drop_last()).push(config),
            None => present(configs.drop_last()),
        }
    }
}

/// The profile of a workspace, named after its file: the configurations of the
/// registered channels in order. One that has gone meanwhile is left out.
pub fn workspace_profile(stem: Option<&str>, configs: Vec<Option<ChannelConfig>>) -> (r: Profile)
    ensures
        r.schema_version == CURRENT_VERSION,
        r.name@ == match stem {
            Some(name) => name@,
            None => "workspace"@,
        },
        r.channels@ == present(configs@),
        r.defaults.display is None,
        r.defaults.retention is None,
{
    let name: String = profile_name_from_path(stem);
    let mut profile = Profile::new(name.as_str());
    let mut rest: Vec<Option<ChannelConfig>> = configs;
    let ghost all = rest@;
    let mut backwards: Vec<ChannelConfig> = Vec::new();
    assert(present(rest@) + backwards@.reverse() =~= present(all));
    while rest.len() > 0
        invariant
            present(rest@) + backwards@.reverse() == present(all),
        decreases rest.len(),
    {
        let ghost before = rest@;
        let ghost taken = backwards@;
        if let Some(entry) = rest.pop() {
            assert(before.drop_last() =~= rest@);
            assert(before.last() == entry);
            if let Some(config) = entry {
                backwards.push(config);
                assert(backwards@.reverse() =~= seq![config] + taken.reverse());
                assert(present(before) =~= present(rest@) + seq![config]);
                assert(present(rest@) + backwards@.reverse() =~= present(before) + taken.reverse());
            }
        }
    }
    assert(backwards@.reverse() =~= present(all));
    while backwards.len() > 0
        invariant
            profile.channels@ + backwards@.reverse() == present(all),
            profile.schema_version == CURRENT_VERSION,
            profile.name@ == name@,
            profile.defaults.display is None,
            profile.defaults.retention is None,
        decreases backwards.len(),
    {
        let ghost before = backwards@;
        let ghost done = profile.channels@;
        if let Some(config) = backwards.pop() {
            assert(before.reverse() =~= seq![config] + backwards@.reverse());
            profile.channels.push(config);
            assert(profile.channels@ + backwards@.reverse() =~= done + before.reverse());
        }
    }
    assert(profile.channels@ =~= present(all));
    profile
}

/// The driver after several outcomes.
pub open spec fn settled_all(d: DriverModel, outcomes: Seq<Outcome>) -> DriverModel
    decreases outcomes.len(),
{
    if outcomes.len() == 0 {
        d
    } else {
        settled(settled_all(d, outcomes.drop_last()), outcomes.last())
    }
}

/// The outcomes of registering channels, under the ids that they got.
pub open spec fn registrations(ids: Seq<ChannelId>, outcomes: Seq<Outcome>) -> bool {
    &&& outcomes.len() == ids.len()
    &&& forall|i: int|
        0 <= i < ids.len() ==> (#[trigger] outcomes[i]) is Added && outcomes[i]->Added_0 == ids[i]
}

proof fn lemma_registered(d: DriverModel, ids: Seq<ChannelId>, outcomes: Seq<Outcome>)
    requires
        registrations(ids, outcomes),
    ensures
        settled_all(d, outcomes) == (DriverModel { channels: d.channels + ids, ..d }),
    decreases ids.len(),
{
    if ids.len() == 0 {
        assert(d.channels + ids =~= d.channels);
    } else {
        lemma_registered(d, ids.drop_last(), outcomes.drop_last());
        assert(outcomes.last()->Added_0 == ids.last());
        assert((d.channels + ids.drop_last()).push(ids.last()) =~= d.channels + ids);
    }
}

/// Loading a profile replaces the workspace: once its channels are registered they are
/// the only ones, in the profile's order, and none is selected.
pub proof fn law_load_replaces_the_workspace(ids: Seq<ChannelId>, outcomes: Seq<Outcome>)
    requires
        registrations(ids, outcomes),
    ensures
        settled_all(
            DriverModel { channels: Seq::empty(), selected: None, cursor: 0 },
            outcomes,
        ) == (DriverModel { channels: ids, selected: None, cursor: 0 }),
{
    let d = DriverModel { channels: Seq::empty(), selected: None, cursor: 0 };
    lemma_registered(d, ids, outcomes);
    assert(d.channels + ids =~= ids);
}

/// A profile that cannot be loaded leaves the workspace as it is, and the reason is told.
pub proof fn law_failed_load_changes_nothing(d: DriverModel, reason: String)
    ensures
        settled(d, Outcome::LoadFailed(reason)) == d,
        reply(Outcome::LoadFailed(reason)) == Some(
            Told::ProfileFailed("load failed: "@ + reason@),
        ),
{
}

/// A command that fails is told with its reason, and changes nothing.
pub proof fn law_failures_are_told(d: DriverModel, id: ChannelId, reason: String)
    ensures
        reply(Outcome::Started(id, Err(reason))) == Some(Told::Failed(id, reason@)),
        reply(Outcome::Stopped(id, Err(reason))) == Some(Told::Failed(id, reason@)),
        reply(Outcome::Applied(id, Err(reason))) == Some(Told::Failed(id, reason@)),
        settled(d, Outcome::Started(id, Err(reason))) == d,
        settled(d, Outcome::Stopped(id, Err(reason))) == d,
        settled(d, Outcome::Applied(id, Err(reason))) == d,
{
}

proof fn lemma_kept_were_there(s: Seq<ChannelId>, keep: spec_fn(ChannelId) -> bool, x: ChannelId)
    requires
        s.filter(keep).contains(x),
    ensures
        s.contains(x),
        keep(x),
    decreases s.len(),
{
    reveal(Seq::filter);
    if s.len() > 0 {
        let front = s.drop_last();
        let f = s.filter(keep);
        let i = choose|i: int| 0 <= i < f.len() && f[i] == x;
        if keep(s.last()) && i == f.len() - 1 {
            assert(s[s.len() - 1] == x);
        } else {
            assert(front.filter(keep)[i] == x);
            lemma_kept_were_there(front, keep, x);
            let j = choose|j: int| 0 <= j < front.len() && front[j] == x;
            assert(s[j] == x);
        }
    }
}

/// A channel that was removed is polled no more, and the others are polled as before.
pub proof fn law_removed_channels_are_not_polled(d: DriverModel, id: ChannelId, other: ChannelId)
    ensures
        ({
            let after = settled(d, Outcome::Removed(id));
            &&& !after.channels.contains(id)
            &&& other != id ==> (after.channels.contains(other) <==> d.channels.contains(other))
            &&& poll_of(after, other) == poll_of(d, other)
        }),
{
    let keep = |c: ChannelId| c != id;
    let after = d.channels.filter(keep);
    if after.contains(id) {
        lemma_kept_were_there(d.channels, keep, id);
    }
    if other != id {
        if d.channels.contains(other) {
            let j = choose|j: int| 0 <= j < d.channels.len() && d.channels[j] == other;
            d.channels.lemma_filter_contains(keep, j);
        }
        if after.contains(other) {
            lemma_kept_were_there(d.channels, keep, other);
        }
    }
}

/// A stream is read from its start after its channel is selected, and after it starts
/// again while selected.
pub proof fn law_streams_are_read_from_the_start(d: DriverModel, id: ChannelId)
    ensures
        poll_of(commanded(d, UiCommand::Select(Some(id))), id) == Poll::Full(id, 0),
        d.selected == Some(id) ==> poll_of(notified(d, RuntimeEvent::ChannelStarted(id)), id)
            == Poll::Full(id, 0),
        d.selected == Some(id) ==> poll_of(notified(d, RuntimeEvent::ChannelReconnected(id)), id)
            == Poll::Full(id, 0),
{
}

} // verus!
