//! The model behind the interface: one view per channel, folded from updates.

use vstd::prelude::*;
use vstd::string::*;

use crate::config::schema::{ChannelConfig, ChannelConfigModel};
use crate::diagnostics::Diagnostic;
use crate::gui::marks::{
    keys_distinct, law_merge_keeps_marks_and_adds_keys, law_trim_keeps_the_rest, merge_marks, merged,
    pins, pins_from, pins_sorted, trim_marks, with_matches, Pin, StreamMark,
};
use crate::gui::points::points_text;
use crate::gui::snapshot::{
    ChannelSnapshot, ChannelStats, QueueDepth, Rate, SerialControlLines, StreamDelta,
};
use crate::gui::view_prefs::{settings_of, Settings, ViewPrefs};
use crate::model::command::{RecordingTap, RuntimeEvent};
use crate::model::ids::{ChannelId, ChannelName};
use crate::model::metadata::optional_text;
use crate::model::state::{ChannelState, RecordingState};
use crate::retention::newest;

verus! {

/// A channel's lifecycle as the interface understands it.
#[derive(Clone, Copy, Debug, PartialEq, Eq, Structural)]
pub enum ChannelStatus {
    Stopped,
    Running,
    Faulted,
    Reconnecting,
}

impl Default for ChannelStatus {
    fn default() -> (r: ChannelStatus)
        ensures
            r == ChannelStatus::Stopped,
    {
        ChannelStatus::Stopped
    }
}

/// An update from the runtime to the interface.
#[derive(Debug)]
pub enum UiUpdate {
    /// A channel was registered: its id, name, connection description and configuration.
    ChannelAdded(ChannelId, String, String, ChannelConfig),
    /// A channel's configuration changed: its new description and configuration.
    ChannelReconfigured(ChannelId, String, ChannelConfig),
    /// A channel was renamed in place.
    ChannelRenamed(ChannelId, String),
    /// A channel was removed.
    ChannelRemoved(ChannelId),
    /// A command on a channel failed, for the reason given.
    ChannelError(ChannelId, String),
    /// A runtime event.
    Event(RuntimeEvent),
    /// The state of the selected channel.
    Snapshot(ChannelId, ChannelSnapshot),
    /// The liveness of a channel that is not selected.
    Stats(ChannelId, ChannelStats),
    /// The levels of a serial channel's lines.
    ControlLines(ChannelId, SerialControlLines),
    /// Bytes of the selected channel that are new.
    StreamDelta(ChannelId, StreamDelta),
    /// The workspace was saved to a file of this name.
    ProfileSaved(Option<String>),
    /// A profile of this name was loaded.
    ProfileLoaded(String),
    /// Saving or loading a profile failed, for the reason given.
    ProfileError(String),
}

/// One channel as the interface shows it.
#[derive(Debug)]
pub struct ChannelView {
    pub id: ChannelId,
    pub name: String,
    /// A one-line connection description.
    pub details: String,
    pub config: ChannelConfig,
    pub status: ChannelStatus,
    /// Bytes received since the start.
    pub bytes_total: u64,
    pub bytes_per_sec: Rate,
    pub info: usize,
    pub warnings: usize,
    pub errors: usize,
    /// Why the last command on this channel failed, or which recording faulted.
    pub last_error: Option<String>,
    /// Which recording `last_error` is about, if it is about one.
    pub recording_fault: Option<RecordingTap>,
    pub snapshot: Option<ChannelSnapshot>,
    /// The snapshot's diagnostics in one chronological timeline.
    pub sorted_diagnostics: Vec<Diagnostic>,
    pub control_lines: Option<SerialControlLines>,
    pub recording: Option<RecordingState>,
    pub display_recording: Option<RecordingState>,
    pub ingest_queue: QueueDepth,
    pub raw_recording_queue: Option<QueueDepth>,
    /// The bytes that are in view.
    pub stream_bytes: Vec<u8>,
    /// Marks pinned to the bytes in view, in the order of their offsets.
    pub marks: Vec<StreamMark>,
    /// How many times the list of marks has changed.
    pub marks_version: u64,
    /// The offset behind the last byte in view.
    pub stream_cursor: u64,
    pub view_prefs: ViewPrefs,
}

/// What a channel view says.
pub ghost struct ViewModel {
    pub id: ChannelId,
    pub name: Seq<char>,
    pub details: Seq<char>,
    pub config: ChannelConfigModel,
    pub status: ChannelStatus,
    pub bytes_total: u64,
    pub bytes_per_sec: Rate,
    pub info: usize,
    pub warnings: usize,
    pub errors: usize,
    pub last_error: Option<Seq<char>>,
    pub recording_fault: Option<RecordingTap>,
    pub snapshot: Option<ChannelSnapshot>,
    pub timeline: Seq<Diagnostic>,
    pub control_lines: Option<SerialControlLines>,
    pub recording: Option<RecordingState>,
    pub display_recording: Option<RecordingState>,
    pub ingest_queue: QueueDepth,
    pub raw_recording_queue: Option<QueueDepth>,
    pub stream: Seq<u8>,
    pub marks: Seq<Pin>,
    pub marks_version: u64,
    pub cursor: u64,
    pub prefs: Settings,
    /// The text in the font-size field.
    pub font_text: Seq<char>,
}

impl View for ChannelView {
    type V = ViewModel;

    open spec fn view(&self) -> ViewModel {
        ViewModel {
            id: self.id,
            name: self.name@,
            details: self.details@,
            config: self.config@,
            status: self.status,
            bytes_total: self.bytes_total,
            bytes_per_sec: self.bytes_per_sec,
            info: self.info,
            warnings: self.warnings,
            errors: self.errors,
            last_error: optional_text(self.last_error),
            recording_fault: self.recording_fault,
            snapshot: self.snapshot,
            timeline: self.sorted_diagnostics@,
            control_lines: self.control_lines,
            recording: self.recording,
            display_recording: self.display_recording,
            ingest_queue: self.ingest_queue,
            raw_recording_queue: self.raw_recording_queue,
            stream: self.stream_bytes@,
            marks: pins(self.marks@),
            marks_version: self.marks_version,
            cursor: self.stream_cursor,
            prefs: self.view_prefs@,
            font_text: self.view_prefs.font_text@,
        }
    }
}

/// No queue.
pub open spec fn empty_queue() -> QueueDepth {
    QueueDepth { current: 0, peak: 0, capacity: 0 }
}

/// A channel that was just registered.
pub open spec fn new_view(
    id: ChannelId,
    name: Seq<char>,
    details: Seq<char>,
    config: ChannelConfigModel,
) -> ViewModel {
    ViewModel {
        id,
        name,
        details,
        config,
        status: ChannelStatus::Stopped,
        bytes_total: 0,
        bytes_per_sec: Rate { bits: 0 },
        info: 0,
        warnings: 0,
        errors: 0,
        last_error: None,
        recording_fault: None,
        snapshot: None,
        timeline: Seq::empty(),
        control_lines: None,
        recording: None,
        display_recording: None,
        ingest_queue: empty_queue(),
        raw_recording_queue: None,
        stream: Seq::empty(),
        marks: Seq::empty(),
        marks_version: 0,
        cursor: 0,
        prefs: settings_of(config),
        font_text: points_text(settings_of(config).font_size),
    }
}

/// A count of changes.
pub open spec fn bumped(version: u64, changed: bool) -> u64 {
    if changed {
        if version == u64::MAX {
            0
        } else {
            (version + 1) as u64
        }
    } else {
        version
    }
}

fn bump(version: u64, changed: bool) -> (r: u64)
    ensures
        r == bumped(version, changed),
{
    if changed {
        if version == u64::MAX {
            0
        } else {
            version + 1
        }
    } else {
        version
    }
}

/// The status that a polled state corrects to. The states in between leave it alone;
/// a fault that is still being retried reads as reconnecting.
pub open spec fn reconciled(status: ChannelStatus, state: ChannelState, pending: bool) -> ChannelStatus {
    match state {
        ChannelState::Running => ChannelStatus::Running,
        ChannelState::Stopped => ChannelStatus::Stopped,
        ChannelState::Faulted => if pending {
            ChannelStatus::Reconnecting
        } else {
            ChannelStatus::Faulted
        },
        ChannelState::Starting | ChannelState::Stopping => status,
    }
}

fn reconcile_status(status: ChannelStatus, state: ChannelState, pending: bool) -> (r: ChannelStatus)
    ensures
        r == reconciled(status, state, pending),
{
    match state {
        ChannelState::Running => ChannelStatus::Running,
        ChannelState::Stopped => ChannelStatus::Stopped,
        ChannelState::Faulted => if pending {
            ChannelStatus::Reconnecting
        } else {
            ChannelStatus::Faulted
        },
        ChannelState::Starting | ChannelState::Stopping => status,
    }
}

/// The recording that faulted is running again.
pub open spec fn lane_recovered(v: ViewModel) -> bool {
    match v.recording_fault {
        Some(RecordingTap::Raw) => v.recording == Some(RecordingState::Enabled),
        Some(RecordingTap::Display) => v.display_recording == Some(RecordingState::Enabled),
        None => false,
    }
}

/// A recording fault is over once its own recording runs again. An error of a command
/// is never cleared that way.
pub open spec fn cleared_if_recovered(v: ViewModel) -> ViewModel {
    if lane_recovered(v) {
        ViewModel { last_error: None, recording_fault: None, ..v }
    } else {
        v
    }
}

/// A view after a snapshot.
pub open spec fn after_snapshot(v: ViewModel, s: ChannelSnapshot) -> ViewModel {
    cleared_if_recovered(
        ViewModel {
            status: reconciled(v.status, s.state, s.reconnect_pending),
            bytes_total: s.activity.total_bytes,
            bytes_per_sec: s.activity.bytes_per_sec,
            info: s.diagnostics.events@.len() as usize,
            warnings: s.diagnostics.warnings@.len() as usize,
            errors: s.diagnostics.errors@.len() as usize,
            recording: s.raw_recording,
            display_recording: s.display_recording,
            ingest_queue: s.ingest_queue,
            raw_recording_queue: s.raw_recording_queue,
            marks: merged(v.marks, s.matches@),
            marks_version: bumped(
                v.marks_version,
                with_matches(v.marks, s.matches@).len() > v.marks.len(),
            ),
            timeline: s.diagnostics.timeline(),
            snapshot: Some(s),
            ..v
        },
    )
}

/// A view after stats.
pub open spec fn after_stats(v: ViewModel, s: ChannelStats) -> ViewModel {
    cleared_if_recovered(
        ViewModel {
            status: reconciled(v.status, s.state, s.reconnect_pending),
            bytes_total: s.activity.total_bytes,
            bytes_per_sec: s.activity.bytes_per_sec,
            info: s.event_count,
            warnings: s.warning_count,
            errors: s.error_count,
            recording: s.raw_recording,
            display_recording: s.display_recording,
            ingest_queue: s.ingest_queue,
            raw_recording_queue: s.raw_recording_queue,
            ..v
        },
    )
}

/// The bytes in view after a delta: behind those already there, or alone where the
/// window has moved past them; the newest of them, up to the scroll buffer.
pub open spec fn stream_after(v: ViewModel, base: u64, bytes: Seq<u8>) -> Seq<u8> {
    newest(
        if base > v.cursor {
            bytes
        } else {
            v.stream + bytes
        },
        v.prefs.scroll_buffer_bytes as nat,
    )
}

/// A delta leaves no more bytes in view than there are up to its end.
pub open spec fn delta_fits(v: ViewModel, d: StreamDelta) -> bool {
    stream_after(v, d.base_offset, d.bytes@).len() <= d.end_offset
}

/// A view after a delta. Marks go with their bytes.
pub open spec fn after_delta(v: ViewModel, d: StreamDelta) -> ViewModel {
    let stream = stream_after(v, d.base_offset, d.bytes@);
    let marks = pins_from(v.marks, (d.end_offset - stream.len()) as u64);
    ViewModel {
        stream,
        cursor: d.end_offset,
        marks,
        marks_version: bumped(v.marks_version, marks.len() < v.marks.len()),
        ..v
    }
}

/// A view after a fresh start: what belongs to the earlier run is gone.
pub open spec fn after_start(v: ViewModel) -> ViewModel {
    ViewModel {
        status: ChannelStatus::Running,
        last_error: None,
        recording_fault: None,
        stream: Seq::empty(),
        marks: Seq::empty(),
        marks_version: bumped(v.marks_version, v.marks.len() > 0),
        cursor: 0,
        bytes_total: 0,
        bytes_per_sec: Rate { bits: 0 },
        ..v
    }
}

/// A view without what only a running pipeline can tell.
pub open spec fn without_live_state(v: ViewModel) -> ViewModel {
    ViewModel {
        recording: None,
        display_recording: None,
        ingest_queue: empty_queue(),
        raw_recording_queue: None,
        ..v
    }
}

/// What a recording fault reads as.
pub open spec fn recording_fault_text(name: Seq<char>, tap: RecordingTap) -> Seq<char> {
    name + ": "@ + tap.label_spec()
        + " recording faulted — see Diagnostics for the reason (check the destination and on-exists policy)"@
}

/// A view after an event about its channel.
pub open spec fn after_event(v: ViewModel, event: RuntimeEvent) -> ViewModel {
    match event {
        RuntimeEvent::ChannelStarted(_) => after_start(v),
        RuntimeEvent::ChannelStopped(_) => without_live_state(
            ViewModel { status: ChannelStatus::Stopped, control_lines: None, ..v },
        ),
        RuntimeEvent::ChannelFaulted(_) => without_live_state(
            ViewModel { status: ChannelStatus::Faulted, ..v },
        ),
        RuntimeEvent::ChannelReconnecting(_, _) => ViewModel {
            status: ChannelStatus::Reconnecting,
            ..v
        },
        RuntimeEvent::ChannelReconnected(_) => ViewModel { status: ChannelStatus::Running, ..v },
        RuntimeEvent::ChannelReconnectGaveUp(_) => ViewModel {
            status: ChannelStatus::Faulted,
            ..v
        },
        RuntimeEvent::RecordingFaulted(_, tap) => ViewModel {
            last_error: Some(recording_fault_text(v.name, tap)),
            recording_fault: Some(tap),
            ..v
        },
        RuntimeEvent::RecordingStarted(_, tap) => if v.recording_fault == Some(tap) {
            ViewModel { last_error: None, recording_fault: None, ..v }
        } else {
            v
        },
        _ => v,
    }
}

/// The whole model: the channels in the order of their registration, and the outcome of
/// the last profile operation.
pub ghost struct AppModel {
    pub views: Seq<ViewModel>,
    pub status: Option<Seq<char>>,
}

/// The views with that of channel `id` changed.
pub open spec fn changed(views: Seq<ViewModel>, id: ChannelId, f: spec_fn(ViewModel) -> ViewModel) -> Seq<
    ViewModel,
> {
    views.map_values(
        |v: ViewModel|
            if v.id == id {
                f(v)
            } else {
                v
            },
    )
}

/// A channel is registered.
pub open spec fn known(views: Seq<ViewModel>, id: ChannelId) -> bool {
    exists|i: int| 0 <= i < views.len() && (#[trigger] views[i]).id == id
}

/// The views without that of channel `id`.
pub open spec fn without(views: Seq<ViewModel>, id: ChannelId) -> Seq<ViewModel>
    decreases views.len(),
{
    if views.len() == 0 {
        Seq::empty()
    } else if views.last().id == id {
        without(views.drop_last(), id)
    } else {
        without(views.drop_last(), id).push(views.last())
    }
}

/// The model with a channel renamed.
pub open spec fn with_name(app: AppModel, id: ChannelId, name: Seq<char>) -> AppModel {
    AppModel {
        views: changed(
            app.views,
            id,
            |v: ViewModel|
                ViewModel { name, config: ChannelConfigModel { name, ..v.config }, ..v },
        ),
        ..app
    }
}

/// The model with an error on a channel.
pub open spec fn with_error(app: AppModel, id: ChannelId, message: Seq<char>) -> AppModel {
    AppModel {
        views: changed(
            app.views,
            id,
            |v: ViewModel| ViewModel { last_error: Some(message), recording_fault: None, ..v },
        ),
        ..app
    }
}

/// The model after an update. Updates about channels that are not registered change
/// nothing.
pub open spec fn folded(app: AppModel, update: UiUpdate) -> AppModel {
    match update {
        UiUpdate::ChannelAdded(id, name, details, config) => if known(app.views, id) {
            app
        } else {
            AppModel {
                views: app.views.push(new_view(id, name@, details@, config@)),
                ..app
            }
        },
        UiUpdate::ChannelReconfigured(id, details, config) => AppModel {
            views: changed(
                app.views,
                id,
                |v: ViewModel|
                    ViewModel { details: details@, name: config@.name, config: config@, ..v },
            ),
            ..app
        },
        UiUpdate::ChannelRenamed(id, name) => with_name(app, id, name@),
        UiUpdate::ChannelRemoved(id) => AppModel { views: without(app.views, id), ..app },
        UiUpdate::ChannelError(id, message) => with_error(app, id, message@),
        UiUpdate::Event(event) => AppModel {
            views: changed(
                app.views,
                crate::cli::event_channel(event),
                |v: ViewModel| after_event(v, event),
            ),
            ..app
        },
        UiUpdate::Snapshot(id, snapshot) => AppModel {
            views: changed(app.views, id, |v: ViewModel| after_snapshot(v, snapshot)),
            ..app
        },
        UiUpdate::Stats(id, stats) => AppModel {
            views: changed(app.views, id, |v: ViewModel| after_stats(v, stats)),
            ..app
        },
        UiUpdate::ControlLines(id, lines) => AppModel {
            views: changed(
                app.views,
                id,
                |v: ViewModel| ViewModel { control_lines: Some(lines), ..v },
            ),
            ..app
        },
        UiUpdate::StreamDelta(id, delta) => AppModel {
            views: changed(app.views, id, |v: ViewModel| after_delta(v, delta)),
            ..app
        },
        UiUpdate::ProfileSaved(file) => AppModel {
            status: Some(
                "Saved "@ + match file {
                    Some(name) => name@,
                    None => "profile"@,
                },
            ),
            ..app
        },
        UiUpdate::ProfileLoaded(name) => AppModel {
            status: Some("Loaded “"@ + name@ + "”"@),
            ..app
        },
        UiUpdate::ProfileError(message) => AppModel { status: Some(message@), ..app },
    }
}

/// An update that can be folded in: a delta must fit its view.
pub open spec fn acceptable(app: AppModel, update: UiUpdate) -> bool {
    match update {
        UiUpdate::StreamDelta(id, delta) => forall|i: int|
            0 <= i < app.views.len() && (#[trigger] app.views[i]).id == id ==> delta_fits(
                app.views[i],
                delta,
            ),
        _ => true,
    }
}

/// What holds of every view: its marks are in order and told apart by their keys, no more
/// bytes are in view than have arrived, and a recording fault is noted only together with
/// the error that it is about.
pub open spec fn valid_view(v: ViewModel) -> bool {
    &&& pins_sorted(v.marks)
    &&& keys_distinct(v.marks)
    &&& v.stream.len() <= v.cursor
    &&& v.last_error is None ==> v.recording_fault is None
}

/// No channel is listed twice, and every view is valid.
pub open spec fn valid_views(views: Seq<ViewModel>) -> bool {
    &&& forall|i: int, j: int|
        0 <= i < views.len() && 0 <= j < views.len() && (#[trigger] views[i]).id == (
        #[trigger] views[j]).id ==> i == j
    &&& forall|i: int|
        0 <= i < views.len() ==> valid_view(#[trigger] views[i])
}

pub proof fn lemma_changed_at(
    views: Seq<ViewModel>,
    id: ChannelId,
    f: spec_fn(ViewModel) -> ViewModel,
    i: int,
)
    requires
        valid_views(views),
        0 <= i < views.len(),
        views[i].id == id,
    ensures
        changed(views, id, f) == views.update(i, f(views[i])),
{
    assert forall|j: int| 0 <= j < views.len() implies #[trigger] changed(views, id, f)[j]
        == views.update(i, f(views[i]))[j] by {
        if j != i {
            assert(views[j].id != views[i].id);
        }
    }
    assert(changed(views, id, f) =~= views.update(i, f(views[i])));
}

pub proof fn lemma_changed_unknown(
    views: Seq<ViewModel>,
    id: ChannelId,
    f: spec_fn(ViewModel) -> ViewModel,
)
    requires
        !known(views, id),
    ensures
        changed(views, id, f) == views,
{
    assert(changed(views, id, f) =~= views);
}

pub proof fn lemma_valid_update(views: Seq<ViewModel>, i: int, v: ViewModel)
    requires
        valid_views(views),
        0 <= i < views.len(),
        v.id == views[i].id,
        valid_view(v),
    ensures
        valid_views(views.update(i, v)),
{
    let next = views.update(i, v);
    assert forall|a: int, b: int|
        0 <= a < next.len() && 0 <= b < next.len() && (#[trigger] next[a]).id == (
        #[trigger] next[b]).id implies a == b by {
        assert(views[a].id == next[a].id && views[b].id == next[b].id);
    }
}

proof fn lemma_without(views: Seq<ViewModel>, id: ChannelId)
    requires
        valid_views(views),
    ensures
        valid_views(without(views, id)),
        !known(without(views, id), id),
        forall|i: int|
            0 <= i < without(views, id).len() ==> known(
                views,
                (#[trigger] without(views, id)[i]).id,
            ),
    decreases views.len(),
{
    if views.len() > 0 {
        let front = views.drop_last();
        assert forall|a: int, b: int|
            0 <= a < front.len() && 0 <= b < front.len() && (#[trigger] front[a]).id == (
            #[trigger] front[b]).id implies a == b by {
            assert(front[a] == views[a] && front[b] == views[b]);
        }
        assert forall|i: int| 0 <= i < front.len() implies valid_view(#[trigger] front[i]) by {
            assert(front[i] == views[i]);
        }
        lemma_without(front, id);
        let rest = without(front, id);
        let last = views.last();
        let all = without(views, id);
        assert(views[views.len() - 1] == last);
        assert forall|i: int| 0 <= i < all.len() implies known(views, (#[trigger] all[i]).id) by {
            if i < rest.len() {
                assert(all[i] == rest[i]);
                let k = choose|k: int| 0 <= k < front.len() && (#[trigger] front[k]).id == rest[i].id;
                assert(views[k].id == all[i].id);
            } else {
                assert(views[views.len() - 1].id == all[i].id);
            }
        }
        if last.id != id {
            assert forall|i: int| 0 <= i < rest.len() implies (#[trigger] rest[i]).id != last.id by {
                let k = choose|k: int| 0 <= k < front.len() && (#[trigger] front[k]).id == rest[i].id;
                assert(views[k] == front[k]);
                if rest[i].id == last.id {
                    assert(views[k].id == views[views.len() - 1].id);
                }
            }
            assert forall|a: int, b: int|
                0 <= a < all.len() && 0 <= b < all.len() && (#[trigger] all[a]).id == (
                #[trigger] all[b]).id implies a == b by {
                if a < rest.len() && b < rest.len() {
                    assert(all[a] == rest[a] && all[b] == rest[b]);
                } else if a < rest.len() {
                    assert(all[a] == rest[a]);
                } else if b < rest.len() {
                    assert(all[b] == rest[b]);
                }
            }
            assert forall|i: int| 0 <= i < all.len() implies valid_view(#[trigger] all[i]) by {
                if i < rest.len() {
                    assert(all[i] == rest[i]);
                }
            }
            if known(all, id) {
                let i = choose|i: int| 0 <= i < all.len() && (#[trigger] all[i]).id == id;
                if i < rest.len() {
                    assert(rest[i].id == id);
                }
            }
        }
    }
}

/// Updates about channels that are not registered change no channel.
pub proof fn law_unknown_channels_are_ignored(app: AppModel, event: RuntimeEvent)
    requires
        !known(app.views, crate::cli::event_channel(event)),
    ensures
        folded(app, UiUpdate::Event(event)) == app,
{
    lemma_changed_unknown(
        app.views,
        crate::cli::event_channel(event),
        |v: ViewModel| after_event(v, event),
    );
}

/// An event changes its own channel only, and no channel moves in the list.
pub proof fn law_events_stay_with_their_channel(app: AppModel, event: RuntimeEvent, i: int)
    requires
        0 <= i < app.views.len(),
    ensures
        folded(app, UiUpdate::Event(event)).views.len() == app.views.len(),
        folded(app, UiUpdate::Event(event)).views[i].id == app.views[i].id,
        app.views[i].id != crate::cli::event_channel(event) ==> folded(
            app,
            UiUpdate::Event(event),
        ).views[i] == app.views[i],
{
}

/// A recording fault is not cleared by the other recording.
pub proof fn law_recording_faults_are_separate(v: ViewModel, event: RuntimeEvent, tap: RecordingTap)
    requires
        v.recording_fault == Some(tap),
        event matches RuntimeEvent::RecordingStarted(_, other) && other != tap,
    ensures
        after_event(v, event) == v,
{
}

/// Totals belong to a run: a stop keeps them, a start zeroes them.
pub proof fn law_totals_belong_to_a_run(v: ViewModel, id: ChannelId)
    ensures
        after_event(v, RuntimeEvent::ChannelStopped(id)).bytes_total == v.bytes_total,
        after_event(v, RuntimeEvent::ChannelFaulted(id)).bytes_total == v.bytes_total,
        after_event(v, RuntimeEvent::ChannelStarted(id)).bytes_total == 0,
{
}

/// A fault or a stop keeps the diagnostics.
pub proof fn law_diagnostics_outlive_a_run(v: ViewModel, id: ChannelId)
    ensures
        after_event(v, RuntimeEvent::ChannelStopped(id)).snapshot == v.snapshot,
        after_event(v, RuntimeEvent::ChannelFaulted(id)).snapshot == v.snapshot,
        after_event(v, RuntimeEvent::ChannelStarted(id)).snapshot == v.snapshot,
        after_event(v, RuntimeEvent::ChannelStarted(id)).timeline == v.timeline,
{
}

/// However a stream arrives, the view holds the newest of its bytes.
pub proof fn law_deltas_accumulate(v: ViewModel, a: StreamDelta, b: StreamDelta)
    requires
        a.base_offset == v.cursor,
        b.base_offset == a.end_offset,
        v.stream.len() <= v.prefs.scroll_buffer_bytes,
    ensures
        after_delta(after_delta(v, a), b).stream == newest(
            v.stream + a.bytes@ + b.bytes@,
            v.prefs.scroll_buffer_bytes as nat,
        ),
        after_delta(after_delta(v, a), b).cursor == b.end_offset,
{
    let cap = v.prefs.scroll_buffer_bytes as nat;
    let x = v.stream + a.bytes@;
    assert(newest(newest(x, cap) + b.bytes@, cap) =~= newest(x + b.bytes@, cap));
}

impl ChannelView {
    pub open spec fn wf(self) -> bool {
        valid_view(self@)
    }

    fn new(id: ChannelId, name: String, details: String, config: ChannelConfig) -> (r: ChannelView)
        ensures
            r@ == new_view(id, name@, details@, config@),
    {
        let view_prefs: ViewPrefs = ViewPrefs::from_config(&config);
        let r = ChannelView {
            id,
            name,
            details,
            config,
            status: ChannelStatus::Stopped,
            bytes_total: 0,
            bytes_per_sec: Rate { bits: 0 },
            info: 0,
            warnings: 0,
            errors: 0,
            last_error: None,
            recording_fault: None,
            snapshot: None,
            sorted_diagnostics: Vec::new(),
            control_lines: None,
            recording: None,
            display_recording: None,
            ingest_queue: QueueDepth::default(),
            raw_recording_queue: None,
            stream_bytes: Vec::new(),
            marks: Vec::new(),
            marks_version: 0,
            stream_cursor: 0,
            view_prefs,
        };
        assert(r@.marks =~= Seq::empty());
        assert(r@.stream =~= Seq::empty());
        assert(r@.timeline =~= Seq::empty());
        r
    }

    fn clear_if_recovered(&mut self)
        ensures
            final(self)@ == cleared_if_recovered(old(self)@),
    {
        let lane_ok: bool = match self.recording_fault {
            Some(RecordingTap::Raw) => is_enabled(self.recording),
            Some(RecordingTap::Display) => is_enabled(self.display_recording),
            None => false,
        };
        if lane_ok {
            self.last_error = None;
            self.recording_fault = None;
        }
    }

    fn fold_snapshot(&mut self, snapshot: ChannelSnapshot)
        requires
            old(self).wf(),
        ensures
            final(self)@ == after_snapshot(old(self)@, snapshot),
            final(self).wf(),
    {
        self.status = reconcile_status(self.status, snapshot.state, snapshot.reconnect_pending);
        self.bytes_total = snapshot.activity.total_bytes;
        self.bytes_per_sec = snapshot.activity.bytes_per_sec;
        self.info = snapshot.diagnostics.events.len();
        self.warnings = snapshot.diagnostics.warnings.len();
        self.errors = snapshot.diagnostics.errors.len();
        self.recording = snapshot.raw_recording;
        self.display_recording = snapshot.display_recording;
        self.ingest_queue = snapshot.ingest_queue;
        self.raw_recording_queue = snapshot.raw_recording_queue;
        proof {
            law_merge_keeps_marks_and_adds_keys(old(self)@.marks, snapshot.matches@);
        }
        let new: bool = merge_marks(&mut self.marks, &snapshot.matches);
        self.marks_version = bump(self.marks_version, new);
        self.sorted_diagnostics = snapshot.diagnostics.sorted_vec();
        self.snapshot = Some(snapshot);
        self.clear_if_recovered();
    }

    fn fold_stats(&mut self, stats: ChannelStats)
        requires
            old(self).wf(),
        ensures
            final(self)@ == after_stats(old(self)@, stats),
            final(self).wf(),
    {
        self.status = reconcile_status(self.status, stats.state, stats.reconnect_pending);
        self.bytes_total = stats.activity.total_bytes;
        self.bytes_per_sec = stats.activity.bytes_per_sec;
        self.info = stats.event_count;
        self.warnings = stats.warning_count;
        self.errors = stats.error_count;
        self.recording = stats.raw_recording;
        self.display_recording = stats.display_recording;
        self.ingest_queue = stats.ingest_queue;
        self.raw_recording_queue = stats.raw_recording_queue;
        self.clear_if_recovered();
    }

    /// Whether a delta leaves no more bytes in view than there are up to its end.
    fn accepts_delta(&self, delta: &StreamDelta) -> (r: bool)
        ensures
            r == delta_fits(self@, *delta),
    {
        let cap: usize = self.view_prefs.scroll_buffer_bytes;
        let held: usize = if delta.base_offset > self.stream_cursor {
            0
        } else {
            self.stream_bytes.len()
        };
        let shown: usize = if held >= cap || delta.bytes.len() >= cap - held {
            cap
        } else {
            held + delta.bytes.len()
        };
        shown as u64 <= delta.end_offset
    }

    /// Adds the bytes of a delta to the view, within the scroll buffer, and drops the
    /// marks whose bytes are gone.
    fn apply_stream_delta(&mut self, delta: &StreamDelta)
        requires
            old(self).wf(),
            delta_fits(old(self)@, *delta),
        ensures
            final(self)@ == after_delta(old(self)@, *delta),
            final(self).wf(),
    {
        let ghost v = self@;
        if delta.base_offset > self.stream_cursor {
            self.stream_bytes.clear();
        }
        self.stream_bytes.extend_from_slice(delta.bytes.as_slice());
        self.stream_cursor = delta.end_offset;
        let ghost all = if delta.base_offset > v.cursor {
            delta.bytes@
        } else {
            v.stream + delta.bytes@
        };
        assert(self.stream_bytes@ =~= all);
        let cap: usize = self.view_prefs.scroll_buffer_bytes;
        if self.stream_bytes.len() > cap {
            let overflow: usize = self.stream_bytes.len() - cap;
            let kept: Vec<u8> = self.stream_bytes.split_off(overflow);
            self.stream_bytes = kept;
        }
        assert(self.stream_bytes@ =~= stream_after(v, delta.base_offset, delta.bytes@));
        let window_start: u64 = self.stream_cursor - self.stream_bytes.len() as u64;
        proof {
            law_trim_keeps_the_rest(v.marks, window_start);
        }
        let gone: bool = trim_marks(&mut self.marks, window_start);
        self.marks_version = bump(self.marks_version, gone);
    }

    fn clear_live_pipeline_state(&mut self)
        ensures
            final(self)@ == without_live_state(old(self)@),
    {
        self.recording = None;
        self.display_recording = None;
        self.ingest_queue = QueueDepth::default();
        self.raw_recording_queue = None;
    }

    fn fold_event(&mut self, event: RuntimeEvent)
        requires
            old(self).wf(),
        ensures
            final(self)@ == after_event(old(self)@, event),
            final(self).wf(),
    {
        match event {
            RuntimeEvent::ChannelStarted(_) => {
                self.status = ChannelStatus::Running;
                self.last_error = None;
                self.recording_fault = None;
                self.stream_bytes.clear();
                self.marks_version = bump(self.marks_version, self.marks.len() > 0);
                self.marks.clear();
                self.stream_cursor = 0;
                self.bytes_total = 0;
                self.bytes_per_sec = Rate { bits: 0 };
                assert(self@.marks =~= Seq::empty());
                assert(self@.stream =~= Seq::empty());
            },
            RuntimeEvent::ChannelStopped(_) => {
                self.status = ChannelStatus::Stopped;
                self.control_lines = None;
                self.clear_live_pipeline_state();
            },
            RuntimeEvent::ChannelFaulted(_) => {
                self.status = ChannelStatus::Faulted;
                self.clear_live_pipeline_state();
            },
            RuntimeEvent::ChannelReconnecting(_, _) => {
                self.status = ChannelStatus::Reconnecting;
            },
            RuntimeEvent::ChannelReconnected(_) => {
                self.status = ChannelStatus::Running;
            },
            RuntimeEvent::ChannelReconnectGaveUp(_) => {
                self.status = ChannelStatus::Faulted;
            },
            RuntimeEvent::RecordingFaulted(_, tap) => {
                let mut message: String = self.name.clone();
                message.append(": ");
                message.append(tap.label());
                message.append(
                    " recording faulted — see Diagnostics for the reason (check the destination and on-exists policy)",
                );
                self.last_error = Some(message);
                self.recording_fault = Some(tap);
            },
            RuntimeEvent::RecordingStarted(_, tap) => {
                let same: bool = match self.recording_fault {
                    Some(faulted) => faulted == tap,
                    None => false,
                };
                if same {
                    self.last_error = None;
                    self.recording_fault = None;
                }
            },
            _ => {},
        }
    }

    /// The offset of the first byte in view.
    pub fn stream_base_offset(&self) -> (r: u64)
        requires
            self.wf(),
        ensures
            r == self@.cursor - self@.stream.len(),
    {
        self.stream_cursor - self.stream_bytes.len() as u64
    }

    /// The bytes in view.
    pub fn stream_contiguous(&self) -> (r: &[u8])
        ensures
            r@ == self@.stream,
    {
        self.stream_bytes.as_slice()
    }
}

fn is_enabled(state: Option<RecordingState>) -> (r: bool)
    ensures
        r == (state == Some(RecordingState::Enabled)),
{
    match state {
        Some(s) => s == RecordingState::Enabled,
        None => false,
    }
}

/// The interface's whole model.
#[derive(Debug)]
pub struct AppState {
    views: Vec<ChannelView>,
    workspace_status: Option<String>,
}

/// What a list of channel views says.
pub open spec fn views_model(views: Seq<ChannelView>) -> Seq<ViewModel> {
    views.map_values(|v: ChannelView| v@)
}

impl View for AppState {
    type V = AppModel;

    closed spec fn view(&self) -> AppModel {
        AppModel { views: views_model(self.views@), status: optional_text(self.workspace_status) }
    }
}

impl Default for AppState {
    fn default() -> (r: AppState)
        ensures
            r.wf(),
            r@.views.len() == 0,
            r@.status is None,
    {
        AppState { views: Vec::new(), workspace_status: None }
    }
}

/// The ids of the channels, in order.
pub open spec fn ids_of(views: Seq<ViewModel>) -> Seq<ChannelId> {
    views.map_values(|v: ViewModel| v.id)
}

/// The index of channel `id`, in a list where it occurs once at most.
pub open spec fn index_of(views: Seq<ViewModel>, id: ChannelId) -> int {
    choose|i: int| 0 <= i < views.len() && (#[trigger] views[i]).id == id
}

/// The channel above `id` in the list, or below it where it is the first.
pub open spec fn neighbor_of(views: Seq<ViewModel>, id: ChannelId) -> Option<ChannelId> {
    if !known(views, id) {
        None
    } else if index_of(views, id) > 0 {
        Some(views[index_of(views, id) - 1].id)
    } else if views.len() > 1 {
        Some(views[1].id)
    } else {
        None
    }
}

/// The channel before or after `id` in the list, around the ends.
pub open spec fn cycled(views: Seq<ViewModel>, id: ChannelId, forward: bool) -> Option<ChannelId> {
    if !known(views, id) {
        None
    } else {
        let n = views.len() as int;
        let i = index_of(views, id);
        Some(
            views[if forward {
                (i + 1) % n
            } else {
                (i + n - 1) % n
            }].id,
        )
    }
}

/// The first channel in the list.
pub open spec fn first_of(views: Seq<ViewModel>) -> Option<ChannelId> {
    if views.len() > 0 {
        Some(views[0].id)
    } else {
        None
    }
}

/// The ids of those channels that a bulk start brings up: the stopped and the faulted.
pub open spec fn startable(views: Seq<ViewModel>) -> Seq<ChannelId>
    decreases views.len(),
{
    if views.len() == 0 {
        Seq::empty()
    } else {
        let front = startable(views.drop_last());
        let v = views.last();
        if v.status is Stopped || v.status is Faulted {
            front.push(v.id)
        } else {
            front
        }
    }
}

impl AppState {
    pub open spec fn wf(self) -> bool {
        valid_views(self@.views)
    }

    /// The channels, in the order of their registration.
    pub fn channels(&self) -> (r: &[ChannelView])
        ensures
            views_model(r@) == self@.views,
    {
        self.views.as_slice()
    }

    fn position(&self, id: ChannelId) -> (r: Option<usize>)
        ensures
            r is Some <==> known(self@.views, id),
            r matches Some(i) ==> i < self.views@.len() && self@.views[i as int].id == id,
    {
        let mut i: usize = 0;
        while i < self.views.len()
            invariant
                i <= self.views.len(),
                forall|j: int| 0 <= j < i ==> (#[trigger] self@.views[j]).id != id,
            decreases self.views.len() - i,
        {
            if self.views[i].id == id {
                assert(self@.views[i as int].id == id);
                return Some(i);
            }
            i = i + 1;
        }
        None
    }

    /// One channel's view.
    pub fn channel(&self, id: ChannelId) -> (r: Option<&ChannelView>)
        requires
            self.wf(),
        ensures
            r is Some <==> known(self@.views, id),
            r matches Some(v) ==> v@ == self@.views[index_of(self@.views, id)] && v@.id == id
                && v.wf(),
    {
        match self.position(id) {
            Some(i) => {
                proof {
                    let j = index_of(self@.views, id);
                    assert(self@.views[i as int].id == self@.views[j].id);
                }
                Some(&self.views[i])
            },
            None => None,
        }
    }

    /// The channel above `id` in the list, or below it where it is the first: what to
    /// select once it is removed.
    pub fn neighbor(&self, id: ChannelId) -> (r: Option<ChannelId>)
        requires
            self.wf(),
        ensures
            r == neighbor_of(self@.views, id),
    {
        match self.position(id) {
            Some(i) => {
                proof {
                    let j = index_of(self@.views, id);
                    assert(self@.views[i as int].id == self@.views[j].id);
                }
                if i > 0 {
                    assert(self@.views[i - 1].id == self.views@[i - 1].id);
                    Some(self.views[i - 1].id)
                } else if self.views.len() > 1 {
                    assert(self@.views[1].id == self.views@[1].id);
                    Some(self.views[1].id)
                } else {
                    None
                }
            },
            None => None,
        }
    }

    /// The channel before or after `id` in the list, around the ends.
    pub fn cycle(&self, id: ChannelId, forward: bool) -> (r: Option<ChannelId>)
        requires
            self.wf(),
        ensures
            r == cycled(self@.views, id, forward),
    {
        match self.position(id) {
            Some(i) => {
                proof {
                    let j = index_of(self@.views, id);
                    assert(self@.views[i as int].id == self@.views[j].id);
                }
                let n: usize = self.views.len();
                let next: usize = if forward {
                    if i + 1 == n {
                        0
                    } else {
                        i + 1
                    }
                } else if i == 0 {
                    n - 1
                } else {
                    i - 1
                };
                proof {
                    let m = n as int;
                    let k = i as int;
                    if forward {
                        assert((k + 1) % m == next as int) by (nonlinear_arith)
                            requires
                                0 <= k < m,
                                next as int == if k + 1 == m {
                                    0int
                                } else {
                                    k + 1
                                },
                        ;
                    } else {
                        assert((k + m - 1) % m == next as int) by (nonlinear_arith)
                            requires
                                0 <= k < m,
                                next as int == if k == 0 {
                                    m - 1
                                } else {
                                    k - 1
                                },
                        ;
                    }
                    assert(self@.views[next as int].id == self.views@[next as int].id);
                }
                Some(self.views[next].id)
            },
            None => None,
        }
    }

    /// The first channel in the list.
    pub fn first(&self) -> (r: Option<ChannelId>)
        ensures
            r == first_of(self@.views),
    {
        if self.views.len() > 0 {
            assert(self@.views[0].id == self.views@[0].id);
            Some(self.views[0].id)
        } else {
            None
        }
    }

    /// The ids of all channels, in order.
    pub fn channel_ids(&self) -> (r: Vec<ChannelId>)
        ensures
            r@ == ids_of(self@.views),
    {
        let mut out: Vec<ChannelId> = Vec::new();
        let mut i: usize = 0;
        while i < self.views.len()
            invariant
                i <= self.views.len(),
                out@ == ids_of(self@.views.take(i as int)),
            decreases self.views.len() - i,
        {
            out.push(self.views[i].id);
            i = i + 1;
            assert(out@ =~= ids_of(self@.views.take(i as int)));
        }
        assert(self@.views.take(i as int) =~= self@.views);
        out
    }

    /// The channels that a bulk start brings up. A faulted channel is among them, so
    /// that it is tried again once what faulted it is fixed; a channel that runs or
    /// reconnects is not.
    pub fn startable_channel_ids(&self) -> (r: Vec<ChannelId>)
        ensures
            r@ == startable(self@.views),
    {
        let mut out: Vec<ChannelId> = Vec::new();
        let mut i: usize = 0;
        assert(self@.views.take(0) =~= Seq::empty());
        while i < self.views.len()
            invariant
                i <= self.views.len(),
                out@ == startable(self@.views.take(i as int)),
            decreases self.views.len() - i,
        {
            let status: ChannelStatus = self.views[i].status;
            assert(self@.views.take(i + 1).drop_last() =~= self@.views.take(i as int));
            assert(self@.views.take(i + 1).last() == self.views@[i as int]@);
            if status == ChannelStatus::Stopped || status == ChannelStatus::Faulted {
                out.push(self.views[i].id);
            }
            i = i + 1;
        }
        assert(self@.views.take(i as int) =~= self@.views);
        out
    }

    /// The outcome of the last profile operation.
    pub fn workspace_status(&self) -> (r: Option<&str>)
        ensures
            r is Some <==> self@.status is Some,
            r matches Some(t) ==> Some(t@) == self@.status,
    {
        match &self.workspace_status {
            Some(s) => Some(s.as_str()),
            None => None,
        }
    }

    /// Whether an update can be folded in.
    pub fn accepts(&self, update: &UiUpdate) -> (r: bool)
        requires
            self.wf(),
        ensures
            r == acceptable(self@, *update),
    {
        match update {
            UiUpdate::StreamDelta(id, delta) => match self.position(*id) {
                Some(i) => {
                    let v = &self.views[i];
                    assert(self@.views[i as int] == v@);
                    let fits: bool = v.accepts_delta(delta);
                    proof {
                        assert forall|j: int|
                            0 <= j < self@.views.len() && (#[trigger] self@.views[j]).id
                                == *id implies j == i by {
                            assert(self@.views[i as int].id == self@.views[j].id);
                        }
                    }
                    fits
                },
                None => true,
            },
            _ => true,
        }
    }

    /// Folds one update into the model.
    pub fn apply(&mut self, update: UiUpdate)
        requires
            old(self).wf(),
            acceptable(old(self)@, update),
        ensures
            final(self).wf(),
            final(self)@ == folded(old(self)@, update),
    {
        match update {
            UiUpdate::ChannelAdded(id, name, details, config) => {
                self.fold_added(id, name, details, config);
            },
            UiUpdate::ChannelReconfigured(id, details, config) => {
                self.fold_reconfigured(id, details, config);
            },
            UiUpdate::ChannelRenamed(id, name) => {
                self.fold_renamed(id, name);
            },
            UiUpdate::ChannelRemoved(id) => {
                self.remove(id);
            },
            UiUpdate::ChannelError(id, message) => {
                self.fold_error(id, message);
            },
            UiUpdate::Event(event) => {
                self.apply_event(event);
            },
            UiUpdate::Snapshot(id, snapshot) => {
                self.fold_snapshot(id, snapshot);
            },
            UiUpdate::Stats(id, stats) => {
                self.fold_stats(id, stats);
            },
            UiUpdate::ControlLines(id, lines) => {
                self.fold_lines(id, lines);
            },
            UiUpdate::StreamDelta(id, delta) => {
                self.fold_delta(id, delta);
            },
            UiUpdate::ProfileSaved(file) => {
                let mut text: String = "Saved ".to_owned();
                match &file {
                    Some(name) => text.append(name.as_str()),
                    None => text.append("profile"),
                }
                self.workspace_status = Some(text);
            },
            UiUpdate::ProfileLoaded(name) => {
                let mut text: String = "Loaded “".to_owned();
                text.append(name.as_str());
                text.append("”");
                self.workspace_status = Some(text);
            },
            UiUpdate::ProfileError(message) => {
                self.workspace_status = Some(message);
            },
        }
    }

    fn fold_added(&mut self, id: ChannelId, name: String, details: String, config: ChannelConfig)
        requires
            old(self).wf(),
        ensures
            final(self).wf(),
            final(self)@ == folded(
                old(self)@,
                UiUpdate::ChannelAdded(id, name, details, config),
            ),
    {
        let ghost app = self@;
        if self.position(id).is_none() {
            let ghost v = new_view(id, name@, details@, config@);
            let view = ChannelView::new(id, name, details, config);
            self.views.push(view);
            proof {
                assert(self@.views =~= app.views.push(v));
                let next = self@.views;
                assert forall|a: int, b: int|
                    0 <= a < next.len() && 0 <= b < next.len() && (#[trigger] next[a]).id == (
                    #[trigger] next[b]).id implies a == b by {
                    if a < app.views.len() && b < app.views.len() {
                        assert(next[a] == app.views[a] && next[b] == app.views[b]);
                    } else if a < app.views.len() {
                        assert(app.views[a].id == next[a].id);
                    } else if b < app.views.len() {
                        assert(app.views[b].id == next[b].id);
                    }
                }
                assert forall|i: int| 0 <= i < next.len() implies valid_view(#[trigger] next[i]) by {
                    if i < app.views.len() {
                        assert(next[i] == app.views[i]);
                    }
                }
            }
        }
    }

    fn fold_reconfigured(&mut self, id: ChannelId, details: String, config: ChannelConfig)
        requires
            old(self).wf(),
        ensures
            final(self).wf(),
            final(self)@ == folded(old(self)@, UiUpdate::ChannelReconfigured(id, details, config)),
    {
        let ghost app = self@;
        let ghost f = |v: ViewModel|
            ViewModel { details: details@, name: config@.name, config: config@, ..v };
        match self.position(id) {
            Some(i) => {
                assert(app.views[i as int] == self.views@[i as int]@);
                let name: String = config.name.to_string();
                self.views[i].details = details;
                self.views[i].name = name;
                self.views[i].config = config;
                proof {
                    self.lemma_settled(app, id, f, i as int);
                }
            },
            None => {
                proof {
                    lemma_changed_unknown(app.views, id, f);
                }
            },
        }
    }

    fn fold_renamed(&mut self, id: ChannelId, name: String)
        requires
            old(self).wf(),
        ensures
            final(self).wf(),
            final(self)@ == folded(old(self)@, UiUpdate::ChannelRenamed(id, name)),
    {
        let ghost app = self@;
        let ghost f = |v: ViewModel|
            ViewModel {
                name: name@,
                config: ChannelConfigModel { name: name@, ..v.config },
                ..v
            };
        match self.position(id) {
            Some(i) => {
                assert(app.views[i as int] == self.views@[i as int]@);
                self.views[i].config.name = ChannelName::new(name.as_str());
                self.views[i].name = name;
                proof {
                    self.lemma_settled(app, id, f, i as int);
                }
            },
            None => {
                proof {
                    lemma_changed_unknown(app.views, id, f);
                }
            },
        }
    }

    fn fold_error(&mut self, id: ChannelId, message: String)
        requires
            old(self).wf(),
        ensures
            final(self).wf(),
            final(self)@ == folded(old(self)@, UiUpdate::ChannelError(id, message)),
    {
        let ghost app = self@;
        let ghost f = |v: ViewModel|
            ViewModel { last_error: Some(message@), recording_fault: None, ..v };
        match self.position(id) {
            Some(i) => {
                assert(app.views[i as int] == self.views@[i as int]@);
                self.views[i].last_error = Some(message);
                self.views[i].recording_fault = None;
                proof {
                    self.lemma_settled(app, id, f, i as int);
                }
            },
            None => {
                proof {
                    lemma_changed_unknown(app.views, id, f);
                }
            },
        }
    }

    /// Folds a runtime event. Events of channels that are not registered are ignored.
    fn apply_event(&mut self, event: RuntimeEvent)
        requires
            old(self).wf(),
        ensures
            final(self).wf(),
            final(self)@ == folded(old(self)@, UiUpdate::Event(event)),
    {
        let ghost app = self@;
        let ghost f = |v: ViewModel| after_event(v, event);
        let id: ChannelId = crate::cli::channel_of(&event);
        match self.position(id) {
            Some(i) => {
                assert(app.views[i as int] == self.views@[i as int]@);
                self.views[i].fold_event(event);
                proof {
                    self.lemma_settled(app, id, f, i as int);
                }
            },
            None => {
                proof {
                    lemma_changed_unknown(app.views, id, f);
                }
            },
        }
    }

    fn fold_snapshot(&mut self, id: ChannelId, snapshot: ChannelSnapshot)
        requires
            old(self).wf(),
        ensures
            final(self).wf(),
            final(self)@ == folded(old(self)@, UiUpdate::Snapshot(id, snapshot)),
    {
        let ghost app = self@;
        let ghost f = |v: ViewModel| after_snapshot(v, snapshot);
        match self.position(id) {
            Some(i) => {
                assert(app.views[i as int] == self.views@[i as int]@);
                self.views[i].fold_snapshot(snapshot);
                proof {
                    self.lemma_settled(app, id, f, i as int);
                }
            },
            None => {
                proof {
                    lemma_changed_unknown(app.views, id, f);
                }
            },
        }
    }

    fn fold_stats(&mut self, id: ChannelId, stats: ChannelStats)
        requires
            old(self).wf(),
        ensures
            final(self).wf(),
            final(self)@ == folded(old(self)@, UiUpdate::Stats(id, stats)),
    {
        let ghost app = self@;
        let ghost f = |v: ViewModel| after_stats(v, stats);
        match self.position(id) {
            Some(i) => {
                assert(app.views[i as int] == self.views@[i as int]@);
                self.views[i].fold_stats(stats);
                proof {
                    self.lemma_settled(app, id, f, i as int);
                }
            },
            None => {
                proof {
                    lemma_changed_unknown(app.views, id, f);
                }
            },
        }
    }

    fn fold_lines(&mut self, id: ChannelId, lines: SerialControlLines)
        requires
            old(self).wf(),
        ensures
            final(self).wf(),
            final(self)@ == folded(old(self)@, UiUpdate::ControlLines(id, lines)),
    {
        let ghost app = self@;
        let ghost f = |v: ViewModel| ViewModel { control_lines: Some(lines), ..v };
        match self.position(id) {
            Some(i) => {
                assert(app.views[i as int] == self.views@[i as int]@);
                self.views[i].control_lines = Some(lines);
                proof {
                    self.lemma_settled(app, id, f, i as int);
                }
            },
            None => {
                proof {
                    lemma_changed_unknown(app.views, id, f);
                }
            },
        }
    }

    fn fold_delta(&mut self, id: ChannelId, delta: StreamDelta)
        requires
            old(self).wf(),
            acceptable(old(self)@, UiUpdate::StreamDelta(id, delta)),
        ensures
            final(self).wf(),
            final(self)@ == folded(old(self)@, UiUpdate::StreamDelta(id, delta)),
    {
        let ghost app = self@;
        let ghost f = |v: ViewModel| after_delta(v, delta);
        match self.position(id) {
            Some(i) => {
                assert(app.views[i as int] == self.views@[i as int]@);
                self.views[i].apply_stream_delta(&delta);
                proof {
                    self.lemma_settled(app, id, f, i as int);
                }
            },
            None => {
                proof {
                    lemma_changed_unknown(app.views, id, f);
                }
            },
        }
    }

    /// A channel's view, to be changed in place.
    pub fn channel_mut(&mut self, id: ChannelId) -> (r: Option<&mut ChannelView>)
        requires
            old(self).wf(),
        ensures
            r is Some <==> known(old(self)@.views, id),
            r is None ==> *final(self) == *old(self),
            r matches Some(v) ==> v@ == old(self)@.views[index_of(old(self)@.views, id)],
            r matches Some(v) ==> final(self)@ == (AppModel {
                views: old(self)@.views.update(index_of(old(self)@.views, id), final(v)@),
                ..old(self)@
            }),
    {
        match self.position(id) {
            Some(i) => {
                let ghost before = self.views@;
                proof {
                    let j = index_of(self@.views, id);
                    assert(self@.views[i as int].id == self@.views[j].id);
                }
                let r = &mut self.views[i];
                proof {
                    assert(views_model(before.update(i as int, *final(r))) =~= views_model(
                        before,
                    ).update(i as int, final(r)@));
                }
                Some(r)
            },
            None => None,
        }
    }

    /// One view was changed in place.
    proof fn lemma_settled(
        self,
        app: AppModel,
        id: ChannelId,
        f: spec_fn(ViewModel) -> ViewModel,
        i: int,
    )
        requires
            valid_views(app.views),
            0 <= i < app.views.len(),
            app.views[i].id == id,
            self.views@.len() == app.views.len(),
            self.views@[i]@ == f(app.views[i]),
            f(app.views[i]).id == id,
            valid_view(f(app.views[i])),
            forall|j: int|
                0 <= j < app.views.len() && j != i ==> (#[trigger] self.views@[j])@
                    == app.views[j],
        ensures
            self@.views == changed(app.views, id, f),
            valid_views(self@.views),
    {
        lemma_changed_at(app.views, id, f, i);
        assert(self@.views =~= app.views.update(i, f(app.views[i])));
        lemma_valid_update(app.views, i, f(app.views[i]));
    }

    fn remove(&mut self, id: ChannelId)
        requires
            old(self).wf(),
        ensures
            final(self).wf(),
            final(self)@ == (AppModel { views: without(old(self)@.views, id), ..old(self)@ }),
    {
        let ghost app = self@;
        proof {
            lemma_without(app.views, id);
        }
        match self.position(id) {
            Some(i) => {
                proof {
                    lemma_without_at(app.views, id, i as int);
                }
                let _ = self.views.remove(i);
                assert(self@.views =~= app.views.remove(i as int));
            },
            None => {
                proof {
                    lemma_without_unknown(app.views, id);
                }
            },
        }
    }
}

proof fn lemma_without_unknown(views: Seq<ViewModel>, id: ChannelId)
    requires
        !known(views, id),
    ensures
        without(views, id) == views,
    decreases views.len(),
{
    if views.len() > 0 {
        assert(views[views.len() - 1].id != id);
        let front = views.drop_last();
        assert(!known(front, id)) by {
            if known(front, id) {
                let k = choose|k: int| 0 <= k < front.len() && (#[trigger] front[k]).id == id;
                assert(views[k].id == id);
            }
        }
        lemma_without_unknown(front, id);
        assert(front.push(views.last()) =~= views);
    }
}

proof fn lemma_without_at(views: Seq<ViewModel>, id: ChannelId, i: int)
    requires
        valid_views(views),
        0 <= i < views.len(),
        views[i].id == id,
    ensures
        without(views, id) == views.remove(i),
    decreases views.len(),
{
    let front = views.drop_last();
    if i == views.len() - 1 {
        assert(!known(front, id)) by {
            if known(front, id) {
                let k = choose|k: int| 0 <= k < front.len() && (#[trigger] front[k]).id == id;
                assert(views[k].id == views[i].id);
            }
        }
        lemma_without_unknown(front, id);
        assert(views.remove(i) =~= front);
    } else {
        assert forall|a: int, b: int|
            0 <= a < front.len() && 0 <= b < front.len() && (#[trigger] front[a]).id == (
            #[trigger] front[b]).id implies a == b by {
            assert(front[a] == views[a] && front[b] == views[b]);
        }
        assert forall|k: int| 0 <= k < front.len() implies valid_view(#[trigger] front[k]) by {
            assert(front[k] == views[k]);
        }
        lemma_without_at(front, id, i);
        assert(views[views.len() - 1].id != views[i].id);
        assert(views.remove(i) =~= front.remove(i).push(views.last()));
    }
}

/// Removing a channel leaves the others in their order, and it is gone.
pub proof fn law_removal_keeps_the_others(app: AppModel, id: ChannelId)
    requires
        valid_views(app.views),
    ensures
        !known(folded(app, UiUpdate::ChannelRemoved(id)).views, id),
        known(app.views, id) ==> folded(app, UiUpdate::ChannelRemoved(id)).views
            == app.views.remove(index_of(app.views, id)),
        !known(app.views, id) ==> folded(app, UiUpdate::ChannelRemoved(id)).views == app.views,
{
    lemma_without(app.views, id);
    if known(app.views, id) {
        lemma_without_at(app.views, id, index_of(app.views, id));
    } else {
        lemma_without_unknown(app.views, id);
    }
}

/// Registering a channel again changes nothing.
pub proof fn law_registration_is_stable(app: AppModel, update: UiUpdate)
    requires
        update matches UiUpdate::ChannelAdded(id, _, _, _) && known(app.views, id),
    ensures
        folded(app, update) == app,
{
}

} // verus!
