//! How updates change what the interface shows of its channels.

use vstd::prelude::*;
use vstd::string::*;

use crate::cli::event_channel;
use crate::gui::app::{
    all_checked, drafted, error_cleared, selection_after, start_checked, ListenerApp, Session,
};
use crate::gui::marks::{law_trim_keeps_the_rest, pins_sorted};
use crate::gui::snapshot::{ChannelSnapshot, ChannelStats, StreamDelta};
use crate::gui::state::{
    after_delta, after_event, after_snapshot, after_stats, cycled, first_of, folded, index_of,
    known, startable, valid_views, AppModel, ChannelStatus, ChannelView, UiUpdate, ViewModel,
};
use crate::model::command::{RecordingTap, RuntimeEvent};
use crate::model::ids::ChannelId;
use crate::model::state::{ChannelState, RecordingState};

verus! {

/// What a view says holds every field of it.
pub proof fn law_views_say_every_field(v: ChannelView)
    ensures
        v@.id == v.id,
        v@.name == v.name@,
        v@.details == v.details@,
        v@.config == v.config@,
        v@.status == v.status,
        v@.bytes_total == v.bytes_total,
        v@.bytes_per_sec == v.bytes_per_sec,
        v@.info == v.info,
        v@.warnings == v.warnings,
        v@.errors == v.errors,
        v@.last_error is Some <==> v.last_error is Some,
        v.last_error is Some ==> v@.last_error->0 == v.last_error->0@,
        v@.recording_fault == v.recording_fault,
        v@.snapshot == v.snapshot,
        v@.timeline == v.sorted_diagnostics@,
        v@.control_lines == v.control_lines,
        v@.recording == v.recording,
        v@.display_recording == v.display_recording,
        v@.ingest_queue == v.ingest_queue,
        v@.raw_recording_queue == v.raw_recording_queue,
        v@.stream == v.stream_bytes@,
        v@.marks.len() == v.marks@.len(),
        forall|i: int|
            0 <= i < v.marks@.len() ==> (#[trigger] v@.marks[i]).offset == v.marks@[i].offset
                && v@.marks[i].rule_id == v.marks@[i].rule_id && v@.marks[i].before
                == v.marks@[i].before && v@.marks[i].text == v.marks@[i].text@,
        v@.marks_version == v.marks_version,
        v@.cursor == v.stream_cursor,
        v@.prefs.mode == v.view_prefs.mode,
        v@.prefs.chars == v.view_prefs.chars,
        v@.prefs.font_size == v.view_prefs.font_size,
        v@.prefs.mono == v.view_prefs.mono,
        v@.prefs.colors == v.view_prefs.colors,
        v@.prefs.scroll_buffer_bytes == v.view_prefs.scroll_buffer_bytes,
        v@.font_text == v.view_prefs.font_text@,
{
}

/// What the application says holds every field of it.
pub proof fn law_the_session_says_every_field(a: ListenerApp)
    ensures
        a@.app == a.state@,
        a@.selected == a.selected,
        a@.sent == a.last_selected_sent,
        a@.draft is Some <==> a.edit_draft is Some,
        a.edit_draft is Some ==> (a@.draft->0).0 == (a.edit_draft->0).0 && (a@.draft->0).1
            == (a.edit_draft->0).1@,
        a@.confirm_remove == a.confirm_remove,
        a@.force_open == a.force_config_open,
        a@.name_duplicate == a.name_duplicate,
        a@.seq == a.channel_seq,
        a@.path is Some <==> a.current_profile_path is Some,
        a.current_profile_path is Some ==> a@.path->0 == a.current_profile_path->0@,
        a@.recent.len() == a.recent_profiles@.len(),
        forall|i: int|
            0 <= i < a.recent_profiles@.len() ==> #[trigger] a@.recent[i]
                == a.recent_profiles@[i]@,
        a@.drop == a.command_drop,
{
}

/// The channel that an update is about.
pub open spec fn subject(update: UiUpdate) -> Option<ChannelId> {
    match update {
        UiUpdate::ChannelReconfigured(id, _, _) => Some(id),
        UiUpdate::ChannelRenamed(id, _) => Some(id),
        UiUpdate::ChannelError(id, _) => Some(id),
        UiUpdate::Event(event) => Some(event_channel(event)),
        UiUpdate::Snapshot(id, _) => Some(id),
        UiUpdate::Stats(id, _) => Some(id),
        UiUpdate::ControlLines(id, _) => Some(id),
        UiUpdate::StreamDelta(id, _) => Some(id),
        _ => None,
    }
}

/// An update about a channel changes that channel and no other, and moves none.
pub proof fn law_updates_change_their_channel_only(app: AppModel, update: UiUpdate, i: int)
    requires
        subject(update) is Some,
        0 <= i < app.views.len(),
    ensures
        folded(app, update).views.len() == app.views.len(),
        folded(app, update).status == app.status,
        folded(app, update).views[i].id == app.views[i].id,
        app.views[i].id != subject(update)->0 ==> folded(app, update).views[i] == app.views[i],
{
}

/// The channel that an event names.
pub proof fn law_events_name_their_channel(id: ChannelId, tap: RecordingTap, n: u32)
    ensures
        event_channel(RuntimeEvent::ChannelStarted(id)) == id,
        event_channel(RuntimeEvent::ChannelStopped(id)) == id,
        event_channel(RuntimeEvent::ChannelFaulted(id)) == id,
        event_channel(RuntimeEvent::RecordingFaulted(id, tap)) == id,
        event_channel(RuntimeEvent::RecordingStarted(id, tap)) == id,
        event_channel(RuntimeEvent::WarningRaised(id)) == id,
        event_channel(RuntimeEvent::ChannelReconnecting(id, n)) == id,
        event_channel(RuntimeEvent::ChannelReconnected(id)) == id,
        event_channel(RuntimeEvent::ChannelReconnectGaveUp(id)) == id,
{
}

/// Who a channel is and how it is set up stay as they are.
pub open spec fn same_channel(v: ViewModel, w: ViewModel) -> bool {
    &&& w.id == v.id
    &&& w.name == v.name
    &&& w.details == v.details
    &&& w.config == v.config
    &&& w.prefs == v.prefs
    &&& w.font_text == v.font_text
}

/// The bytes and the marks in view stay as they are.
pub open spec fn same_stream(v: ViewModel, w: ViewModel) -> bool {
    &&& w.stream == v.stream
    &&& w.cursor == v.cursor
    &&& w.marks == v.marks
    &&& w.marks_version == v.marks_version
}

/// The last snapshot and its timeline stay as they are.
pub open spec fn same_log(v: ViewModel, w: ViewModel) -> bool {
    &&& w.snapshot == v.snapshot
    &&& w.timeline == v.timeline
    &&& w.info == v.info
    &&& w.warnings == v.warnings
    &&& w.errors == v.errors
}

/// What is recorded and queued stays as it is.
pub open spec fn same_live(v: ViewModel, w: ViewModel) -> bool {
    &&& w.recording == v.recording
    &&& w.display_recording == v.display_recording
    &&& w.ingest_queue == v.ingest_queue
    &&& w.raw_recording_queue == v.raw_recording_queue
}

/// What was received in total stays as it is.
pub open spec fn same_totals(v: ViewModel, w: ViewModel) -> bool {
    w.bytes_total == v.bytes_total && w.bytes_per_sec == v.bytes_per_sec
}

/// The error stays as it is.
pub open spec fn same_error(v: ViewModel, w: ViewModel) -> bool {
    w.last_error == v.last_error && w.recording_fault == v.recording_fault
}

/// A start shows the channel as running, without an error, and begins its stream, marks
/// and totals anew. The log of the run before stays.
pub proof fn law_a_start_begins_afresh(v: ViewModel, id: ChannelId)
    ensures
        ({
            let w = after_event(v, RuntimeEvent::ChannelStarted(id));
            &&& w.status is Running
            &&& w.last_error is None && w.recording_fault is None
            &&& w.stream.len() == 0 && w.marks.len() == 0 && w.cursor == 0
            &&& w.bytes_total == 0 && w.bytes_per_sec.bits == 0
            &&& v.marks.len() > 0 ==> w.marks_version != v.marks_version
            &&& v.marks.len() == 0 ==> w.marks_version == v.marks_version
            &&& same_channel(v, w) && same_log(v, w) && same_live(v, w)
            &&& w.control_lines == v.control_lines
        }),
{
}

/// A stop, and a fault, show the channel as such and end what only a running channel can
/// say: recordings and queues, and at a stop the serial lines. All that was received and
/// logged stays.
pub proof fn law_a_stop_ends_the_live_state(v: ViewModel, id: ChannelId)
    ensures
        ({
            let w = after_event(v, RuntimeEvent::ChannelStopped(id));
            let f = after_event(v, RuntimeEvent::ChannelFaulted(id));
            &&& w.status is Stopped && f.status is Faulted
            &&& w.control_lines is None && f.control_lines == v.control_lines
            &&& w.recording is None && w.display_recording is None
            &&& f.recording is None && f.display_recording is None
            &&& w.raw_recording_queue is None && f.raw_recording_queue is None
            &&& w.ingest_queue.current == 0 && w.ingest_queue.peak == 0 && w.ingest_queue.capacity
                == 0
            &&& f.ingest_queue.current == 0 && f.ingest_queue.peak == 0 && f.ingest_queue.capacity
                == 0
            &&& same_channel(v, w) && same_stream(v, w) && same_log(v, w) && same_totals(v, w)
                && same_error(v, w)
            &&& same_channel(v, f) && same_stream(v, f) && same_log(v, f) && same_totals(v, f)
                && same_error(v, f)
        }),
{
}

/// Reconnecting changes the status and nothing else.
pub proof fn law_reconnecting_changes_the_status_only(v: ViewModel, id: ChannelId, n: u32)
    ensures
        ({
            let a = after_event(v, RuntimeEvent::ChannelReconnecting(id, n));
            let b = after_event(v, RuntimeEvent::ChannelReconnected(id));
            let c = after_event(v, RuntimeEvent::ChannelReconnectGaveUp(id));
            &&& a.status is Reconnecting && b.status is Running && c.status is Faulted
            &&& (ViewModel { status: v.status, ..a }) == v
            &&& (ViewModel { status: v.status, ..b }) == v
            &&& (ViewModel { status: v.status, ..c }) == v
        }),
{
}

/// A recording fault is noted with its lane; only that lane's start clears it, and clears
/// nothing else. Other events leave the view as it is.
pub proof fn law_recording_faults_are_cleared_by_their_lane(
    v: ViewModel,
    id: ChannelId,
    faulted: RecordingTap,
    started: RecordingTap,
)
    ensures
        ({
            let f = after_event(v, RuntimeEvent::RecordingFaulted(id, faulted));
            let s = after_event(f, RuntimeEvent::RecordingStarted(id, started));
            let u = after_event(v, RuntimeEvent::RecordingStarted(id, started));
            &&& f.last_error is Some && f.recording_fault == Some(faulted)
            &&& (ViewModel {
                last_error: v.last_error,
                recording_fault: v.recording_fault,
                ..f
            }) == v
            &&& started != faulted ==> s == f
            &&& started == faulted ==> s.last_error is None && s.recording_fault is None
            &&& (ViewModel {
                last_error: f.last_error,
                recording_fault: f.recording_fault,
                ..s
            }) == f
            &&& v.recording_fault is None ==> u == v
            &&& after_event(v, RuntimeEvent::WarningRaised(id)) == v
            &&& after_event(v, RuntimeEvent::TcpClientConnected(id)) == v
            &&& after_event(v, RuntimeEvent::TcpClientDisconnected(id)) == v
            &&& after_event(v, RuntimeEvent::ControlLinesChanged(id)) == v
            &&& after_event(v, RuntimeEvent::DiskSpaceLow(id)) == v
            &&& after_event(v, RuntimeEvent::RecordingStoppedLowDisk(id)) == v
        }),
{
}

/// The status that a polled state shows.
pub open spec fn shows_state(before: ChannelStatus, state: ChannelState, pending: bool, after: ChannelStatus) -> bool {
    &&& state is Running ==> after is Running
    &&& state is Stopped ==> after is Stopped
    &&& state is Faulted && pending ==> after is Reconnecting
    &&& state is Faulted && !pending ==> after is Faulted
    &&& state is Starting || state is Stopping ==> after == before
}

/// The error after a poll: it is gone exactly where it was about a recording that the poll
/// shows running.
pub open spec fn polled_error(v: ViewModel, w: ViewModel, raw: Option<RecordingState>, display: Option<RecordingState>) -> bool {
    let over = (v.recording_fault == Some(RecordingTap::Raw) && raw == Some(
        RecordingState::Enabled,
    )) || (v.recording_fault == Some(RecordingTap::Display) && display == Some(
        RecordingState::Enabled,
    ));
    if over {
        w.last_error is None && w.recording_fault is None
    } else {
        same_error(v, w)
    }
}

/// A snapshot replaces what was shown of the channel's activity, log, recordings and
/// queues, and adds marks; bytes in view and setup stay.
pub proof fn law_snapshots_show_what_they_report(v: ViewModel, s: ChannelSnapshot)
    ensures
        ({
            let w = after_snapshot(v, s);
            &&& shows_state(v.status, s.state, s.reconnect_pending, w.status)
            &&& w.bytes_total == s.activity.total_bytes && w.bytes_per_sec
                == s.activity.bytes_per_sec
            &&& w.info == s.diagnostics.events@.len() as usize
            &&& w.warnings == s.diagnostics.warnings@.len() as usize
            &&& w.errors == s.diagnostics.errors@.len() as usize
            &&& w.recording == s.raw_recording && w.display_recording == s.display_recording
            &&& w.ingest_queue == s.ingest_queue && w.raw_recording_queue == s.raw_recording_queue
            &&& w.snapshot == Some(s)
            &&& polled_error(v, w, s.raw_recording, s.display_recording)
            &&& w.stream == v.stream && w.cursor == v.cursor && w.control_lines == v.control_lines
            &&& same_channel(v, w)
            &&& w.timeline.len() == s.diagnostics.events@.len() + s.diagnostics.warnings@.len()
                + s.diagnostics.errors@.len()
        }),
{
    crate::diagnostics::law_chronological_is_ordered(
        s.diagnostics.events@ + s.diagnostics.warnings@ + s.diagnostics.errors@,
    );
}

/// Stats replace what was shown of the channel's activity, counts, recordings and queues,
/// and nothing else.
pub proof fn law_stats_show_what_they_report(v: ViewModel, s: ChannelStats)
    ensures
        ({
            let w = after_stats(v, s);
            &&& shows_state(v.status, s.state, s.reconnect_pending, w.status)
            &&& w.bytes_total == s.activity.total_bytes && w.bytes_per_sec
                == s.activity.bytes_per_sec
            &&& w.info == s.event_count && w.warnings == s.warning_count && w.errors
                == s.error_count
            &&& w.recording == s.raw_recording && w.display_recording == s.display_recording
            &&& w.ingest_queue == s.ingest_queue && w.raw_recording_queue == s.raw_recording_queue
            &&& polled_error(v, w, s.raw_recording, s.display_recording)
            &&& same_channel(v, w) && same_stream(v, w)
            &&& w.snapshot == v.snapshot && w.timeline == v.timeline && w.control_lines
                == v.control_lines
        }),
{
}

/// A delta shows its bytes behind those in view, or alone where they do not join; of all
/// of them the last ones that the scroll buffer holds. The marks of bytes in view stay in
/// their order, the others go. Nothing else changes.
pub proof fn law_deltas_show_the_last_bytes(v: ViewModel, d: StreamDelta)
    requires
        pins_sorted(v.marks),
    ensures
        ({
            let w = after_delta(v, d);
            let all = if d.base_offset > v.cursor {
                d.bytes@
            } else {
                v.stream + d.bytes@
            };
            let cap = v.prefs.scroll_buffer_bytes as int;
            let n = w.stream.len() as int;
            &&& n == if all.len() <= cap {
                all.len() as int
            } else {
                cap
            }
            &&& w.stream == all.subrange(all.len() - n, all.len() as int)
            &&& w.cursor == d.end_offset
            &&& n <= d.end_offset ==> {
                let gone = v.marks.len() - w.marks.len();
                &&& gone >= 0
                &&& w.marks == v.marks.subrange(gone, v.marks.len() as int)
                &&& forall|i: int|
                    0 <= i < v.marks.len() ==> (i < gone <==> (#[trigger] v.marks[i]).offset
                        < d.end_offset - n)
                &&& gone > 0 ==> w.marks_version != v.marks_version
                &&& gone == 0 ==> w.marks_version == v.marks_version
            }
            &&& same_channel(v, w) && same_log(v, w) && same_live(v, w) && same_totals(v, w)
                && same_error(v, w)
            &&& w.status == v.status && w.control_lines == v.control_lines
        }),
{
    let w = after_delta(v, d);
    let all = if d.base_offset > v.cursor {
        d.bytes@
    } else {
        v.stream + d.bytes@
    };
    let n = w.stream.len() as int;
    assert(w.stream =~= all.subrange(all.len() - n, all.len() as int));
    if n <= d.end_offset {
        law_trim_keeps_the_rest(v.marks, (d.end_offset - n) as u64);
        let gone = v.marks.len() - w.marks.len();
        assert(w.marks =~= v.marks.subrange(gone, v.marks.len() as int));
        assert forall|i: int| 0 <= i < v.marks.len() implies (i < gone <==> (
        #[trigger] v.marks[i]).offset < d.end_offset - n) by {
            if i >= gone {
                assert(w.marks[i - gone] == v.marks[i]);
            }
        }
    }
}

/// What else is folded in: errors of commands, names, configurations, serial lines, and
/// the outcome of a profile operation.
pub proof fn law_other_updates_are_folded_in(app: AppModel, update: UiUpdate, i: int)
    requires
        0 <= i < app.views.len(),
        subject(update) == Some(app.views[i].id),
    ensures
        ({
            let v = app.views[i];
            let w = folded(app, update).views[i];
            &&& update matches UiUpdate::ChannelError(_, message) ==> w.last_error == Some(message@)
                && w.recording_fault is None && (ViewModel {
                last_error: v.last_error,
                recording_fault: v.recording_fault,
                ..w
            }) == v
            &&& update matches UiUpdate::ChannelRenamed(_, name) ==> w.name == name@
                && w.config.name == name@ && (ViewModel { name: v.name, config: v.config, ..w }) == v
                && (crate::config::schema::ChannelConfigModel { name: v.config.name, ..w.config })
                == v.config
            &&& update matches UiUpdate::ChannelReconfigured(_, details, config) ==> w.details
                == details@ && w.name == config.name@ && w.config == config@ && (ViewModel {
                details: v.details,
                name: v.name,
                config: v.config,
                ..w
            }) == v
            &&& update matches UiUpdate::ControlLines(_, lines) ==> w.control_lines == Some(lines)
                && (ViewModel { control_lines: v.control_lines, ..w }) == v
        }),
{
}

/// A profile operation changes no channel; its outcome is told.
pub proof fn law_profile_outcomes_are_told(app: AppModel, text: String, file: Option<String>)
    ensures
        folded(app, UiUpdate::ProfileError(text)).views == app.views,
        folded(app, UiUpdate::ProfileLoaded(text)).views == app.views,
        folded(app, UiUpdate::ProfileSaved(file)).views == app.views,
        folded(app, UiUpdate::ProfileError(text)).status == Some(text@),
        folded(app, UiUpdate::ProfileLoaded(text)).status is Some,
        folded(app, UiUpdate::ProfileSaved(file)).status is Some,
        file is Some ==> ({
            let t = folded(app, UiUpdate::ProfileSaved(file)).status->0;
            t.len() >= file->0@.len() && t.subrange(t.len() - file->0@.len(), t.len() as int)
                == file->0@
        }),
        ({
            let t = folded(app, UiUpdate::ProfileLoaded(text)).status->0;
            t.len() > text@.len() && t.subrange(t.len() - 1 - text@.len(), t.len() - 1) == text@
        }),
{
    reveal_strlit("Loaded “");
    reveal_strlit("”");
    let t = folded(app, UiUpdate::ProfileLoaded(text)).status->0;
    assert(t.subrange(t.len() - 1 - text@.len(), t.len() - 1) =~= text@);
    if file is Some {
        let s = folded(app, UiUpdate::ProfileSaved(file)).status->0;
        assert(s.subrange(s.len() - file->0@.len(), s.len() as int) =~= file->0@);
    }
}

/// A channel that is registered stands last, stopped, with nothing received or wrong. One
/// that is registered already stays as it is.
pub proof fn law_channels_are_registered_once(
    app: AppModel,
    id: ChannelId,
    name: String,
    details: String,
    config: crate::config::schema::ChannelConfig,
)
    ensures
        ({
            let after = folded(app, UiUpdate::ChannelAdded(id, name, details, config));
            &&& known(app.views, id) ==> after == app
            &&& !known(app.views, id) ==> {
                let n = app.views.len() as int;
                let v = after.views[n];
                &&& after.views.len() == n + 1
                &&& forall|i: int| 0 <= i < n ==> #[trigger] after.views[i] == app.views[i]
                &&& v.id == id && v.name == name@ && v.details == details@ && v.config == config@
                &&& v.status is Stopped
                &&& v.bytes_total == 0 && v.bytes_per_sec.bits == 0
                &&& v.info == 0 && v.warnings == 0 && v.errors == 0
                &&& v.last_error is None && v.recording_fault is None
                &&& v.snapshot is None && v.timeline.len() == 0 && v.control_lines is None
                &&& v.recording is None && v.display_recording is None
                &&& v.ingest_queue.capacity == 0 && v.raw_recording_queue is None
                &&& v.stream.len() == 0 && v.marks.len() == 0 && v.cursor == 0
            }
        }),
{
}

/// A channel that is removed is gone, and the others stay as they are in their order.
pub proof fn law_removed_channels_leave_the_others(app: AppModel, id: ChannelId, i: int)
    requires
        valid_views(app.views),
        0 <= i < app.views.len(),
        app.views[i].id == id,
    ensures
        ({
            let after = folded(app, UiUpdate::ChannelRemoved(id)).views;
            &&& after.len() == app.views.len() - 1
            &&& forall|j: int| 0 <= j < i ==> #[trigger] after[j] == app.views[j]
            &&& forall|j: int| i <= j < after.len() ==> #[trigger] after[j] == app.views[j + 1]
        }),
{
    crate::gui::state::law_removal_keeps_the_others(app, id);
    lemma_index(app.views, id, i);
}

proof fn lemma_index(views: Seq<ViewModel>, id: ChannelId, i: int)
    requires
        valid_views(views),
        0 <= i < views.len(),
        views[i].id == id,
    ensures
        known(views, id),
        index_of(views, id) == i,
{
    let j = index_of(views, id);
    assert(views[j].id == views[i].id);
}

/// The selection goes to a new channel, and from a selected channel that is removed to the
/// one above it in the list, or to the one below where it was the first.
pub proof fn law_the_selection_follows_the_list(s: Session, update: UiUpdate, i: int)
    requires
        valid_views(s.app.views),
        0 <= i < s.app.views.len(),
    ensures
        update matches UiUpdate::ChannelAdded(id, _, _, _) ==> selection_after(s, update) == Some(
            id,
        ),
        update matches UiUpdate::ChannelRemoved(id) ==> {
            &&& s.selected != Some(id) ==> selection_after(s, update) == s.selected
            &&& s.selected == Some(id) && s.app.views[i].id == id ==> selection_after(s, update)
                == if i > 0 {
                Some(s.app.views[i - 1].id)
            } else if s.app.views.len() > 1 {
                Some(s.app.views[1].id)
            } else {
                None
            }
        },
        !(update is ChannelAdded) && !(update is ChannelRemoved) ==> selection_after(s, update)
            == s.selected,
{
    if let UiUpdate::ChannelRemoved(id) = update {
        if s.app.views[i].id == id {
            lemma_index(s.app.views, id, i);
        }
    }
}

/// Cycling goes to the next channel in the list, or to the one before, around its ends; a
/// step forward and a step back end where they began.
pub proof fn law_cycling_steps_through_the_list(views: Seq<ViewModel>, i: int)
    requires
        valid_views(views),
        0 <= i < views.len(),
    ensures
        cycled(views, views[i].id, true) == Some(
            views[if i == views.len() - 1 {
                0
            } else {
                i + 1
            }].id,
        ),
        cycled(views, views[i].id, false) == Some(
            views[if i == 0 {
                views.len() - 1
            } else {
                i - 1
            }].id,
        ),
        cycled(views, cycled(views, views[i].id, true)->0, false) == Some(views[i].id),
        first_of(views) == Some(views[0].id),
{
    let n = views.len() as int;
    lemma_index(views, views[i].id, i);
    assert((i + 1) % n == if i == n - 1 {
        0
    } else {
        i + 1
    }) by {
        if i == n - 1 {
            vstd::arithmetic::div_mod::lemma_mod_self_0(n);
        } else {
            vstd::arithmetic::div_mod::lemma_small_mod((i + 1) as nat, n as nat);
        }
    }
    lemma_back(i, n);
    let k = if i == n - 1 {
        0
    } else {
        i + 1
    };
    lemma_index(views, views[k].id, k);
    lemma_back(k, n);
}

proof fn lemma_back(i: int, n: int)
    requires
        0 <= i < n,
    ensures
        (i + n - 1) % n == if i == 0 {
            n - 1
        } else {
            i - 1
        },
{
    if i == 0 {
        vstd::arithmetic::div_mod::lemma_small_mod((n - 1) as nat, n as nat);
    } else {
        vstd::arithmetic::div_mod::lemma_mod_add_multiples_vanish(i - 1, n);
        vstd::arithmetic::div_mod::lemma_small_mod((i - 1) as nat, n as nat);
    }
}

/// A bulk start takes the stopped and the faulted channels, each of them, in their order.
pub proof fn law_bulk_starts_take_all_at_rest(views: Seq<ViewModel>) -> (taken: Seq<int>)
    ensures
        startable(views).len() == taken.len(),
        forall|k: int|
            0 <= k < taken.len() ==> 0 <= #[trigger] taken[k] < views.len() && startable(views)[k]
                == views[taken[k]].id && (views[taken[k]].status is Stopped
                || views[taken[k]].status is Faulted),
        forall|j: int, k: int| 0 <= j < k < taken.len() ==> #[trigger] taken[j] < #[trigger] taken[k],
        forall|i: int|
            0 <= i < views.len() && ((#[trigger] views[i]).status is Stopped
                || views[i].status is Faulted) ==> taken.contains(i),
    decreases views.len(),
{
    if views.len() == 0 {
        Seq::empty()
    } else {
        let front = views.drop_last();
        let before = law_bulk_starts_take_all_at_rest(front);
        let n = front.len() as int;
        assert(views.last() == views[n]);
        assert forall|k: int| 0 <= k < before.len() implies front[#[trigger] before[k]]
            == views[before[k]] by {}
        if views.last().status is Stopped || views.last().status is Faulted {
            let taken = before.push(n);
            assert(taken[before.len() as int] == n);
            assert forall|i: int|
                0 <= i < views.len() && ((#[trigger] views[i]).status is Stopped
                    || views[i].status is Faulted) implies taken.contains(i) by {
                if i < n {
                    assert(front[i] == views[i]);
                    assert(before.contains(i));
                    let k = choose|k: int| 0 <= k < before.len() && before[k] == i;
                    assert(taken[k] == i);
                }
            }
            taken
        } else {
            assert forall|i: int|
                0 <= i < views.len() && ((#[trigger] views[i]).status is Stopped
                    || views[i].status is Faulted) implies before.contains(i) by {
                assert(front[i] == views[i]);
            }
            before
        }
    }
}

/// A start takes what is being edited, or else the channel's own configuration. Without a
/// port or a device it is refused with an error on the channel, and nothing else changes
/// but that its configuration is opened where it is selected.
pub proof fn law_starts_need_a_port(s: Session, i: int)
    requires
        valid_views(s.app.views),
        0 <= i < s.app.views.len(),
    ensures
        ({
            let id = s.app.views[i].id;
            let (after, config) = start_checked(s, id);
            let meant = if s.draft is Some && (s.draft->0).0 == id {
                (s.draft->0).1
            } else {
                s.app.views[i].config
            };
            let ready = !crate::gui::widgets::incomplete_config(meant);
            &&& ready ==> after == s && config == Some(meant)
            &&& !ready ==> {
                &&& config is None
                &&& after.app.views[i].last_error is Some
                &&& after.app.views[i].recording_fault is None
                &&& (ViewModel {
                    last_error: s.app.views[i].last_error,
                    recording_fault: s.app.views[i].recording_fault,
                    ..after.app.views[i]
                }) == s.app.views[i]
                &&& after.force_open == (s.force_open || s.selected == Some(id))
                &&& (Session { app: s.app, force_open: s.force_open, ..after }) == s
            }
        }),
{
    lemma_index(s.app.views, s.app.views[i].id, i);
}

/// A channel without a port, or a serial one whose device is blank, is not configured.
pub proof fn law_configured_channels_have_a_port(c: crate::config::schema::ChannelConfigModel)
    ensures
        ({
            is_configured(c) <==> !crate::gui::widgets::incomplete_config(c)
        }),
{
    if let crate::config::schema::InterfaceConfigModel::Serial(s) = c.interface {
        crate::laws::text::law_blank_is_all_white(s.port);
    }
}

/// A port is set, or a serial device is named.
pub open spec fn is_configured(c: crate::config::schema::ChannelConfigModel) -> bool {
    match c.interface {
        crate::config::schema::InterfaceConfigModel::Udp(u) => u.port != 0,
        crate::config::schema::InterfaceConfigModel::TcpListener(t) => t.port != 0,
        crate::config::schema::InterfaceConfigModel::Serial(s) => exists|i: int|
            0 <= i < s.port.len() && !crate::laws::text::white_char(#[trigger] s.port[i]),
    }
}

/// A channel that comes on screen is edited from its own configuration, unless it is being
/// edited already; nothing of the channels changes.
pub proof fn law_drafts_begin_with_the_configuration(s: Session, i: int)
    requires
        valid_views(s.app.views),
        0 <= i < s.app.views.len(),
    ensures
        ({
            let id = s.app.views[i].id;
            let after = drafted(s, id);
            let edited = s.draft is Some && (s.draft->0).0 == id;
            &&& edited ==> after == s
            &&& !edited ==> {
                &&& after.draft == Some((id, s.app.views[i].config))
                &&& !after.name_duplicate
                &&& after.force_open == (!is_configured(s.app.views[i].config)
                    || s.app.views[i].status is Faulted)
                &&& (Session {
                    draft: s.draft,
                    name_duplicate: s.name_duplicate,
                    force_open: s.force_open,
                    ..after
                }) == s
            }
        }),
{
    lemma_index(s.app.views, s.app.views[i].id, i);
    law_configured_channels_have_a_port(s.app.views[i].config);
}

/// Clearing the error of a channel clears it, with what it was about, and nothing else.
pub proof fn law_clearing_an_error_changes_nothing_else(s: Session, id: ChannelId, i: int)
    requires
        0 <= i < s.app.views.len(),
    ensures
        ({
            let after = error_cleared(s, id);
            let v = s.app.views[i];
            let w = after.app.views[i];
            &&& after.app.views.len() == s.app.views.len()
            &&& v.id != id ==> w == v
            &&& v.id == id ==> w.last_error is None && w.recording_fault is None && (ViewModel {
                last_error: v.last_error,
                recording_fault: v.recording_fault,
                ..w
            }) == v
            &&& (Session { app: s.app, ..after }) == s
            &&& after.app.status == s.app.status
        }),
{
}

/// Two sessions have the same channels with the same configurations, and the same draft.
spec fn same_configurations(s: Session, t: Session) -> bool {
    &&& t.draft == s.draft
    &&& t.app.views.len() == s.app.views.len()
    &&& forall|i: int|
        0 <= i < s.app.views.len() ==> (#[trigger] t.app.views[i]).id == s.app.views[i].id
            && t.app.views[i].config == s.app.views[i].config
}

proof fn lemma_same_start(s: Session, t: Session, id: ChannelId)
    requires
        valid_views(s.app.views),
        same_configurations(s, t),
    ensures
        start_checked(t, id).1 == start_checked(s, id).1,
        same_configurations(s, start_checked(t, id).0),
{
    if known(s.app.views, id) {
        let i = index_of(s.app.views, id);
        assert(t.app.views[i].id == id);
        assert(known(t.app.views, id));
        let j = index_of(t.app.views, id);
        assert(s.app.views[j].id == id);
        assert(i == j);
    } else if known(t.app.views, id) {
        let j = index_of(t.app.views, id);
        assert(s.app.views[j].id == id);
    }
}

proof fn lemma_checked(s: Session, ids: Seq<ChannelId>)
    requires
        valid_views(s.app.views),
    ensures
        same_configurations(s, all_checked(s, ids).0),
    decreases ids.len(),
{
    if ids.len() > 0 {
        lemma_checked(s, ids.drop_last());
        lemma_same_start(s, all_checked(s, ids.drop_last()).0, ids.last());
    }
}

/// Of several channels those start that could start alone, each of them, in their order
/// and with the configuration that it would start with alone: one that cannot holds up no
/// other.
#[verifier::rlimit(40)]
pub proof fn law_bulk_starts_take_each_channel_alone(s: Session, ids: Seq<ChannelId>) -> (taken: Seq<
    int,
>)
    requires
        valid_views(s.app.views),
    ensures
        all_checked(s, ids).1.len() == taken.len(),
        forall|k: int|
            0 <= k < taken.len() ==> 0 <= #[trigger] taken[k] < ids.len() && all_checked(
                s,
                ids,
            ).1[k].0 == ids[taken[k]] && start_checked(s, ids[taken[k]]).1 == Some(
                all_checked(s, ids).1[k].1,
            ),
        forall|j: int, k: int| 0 <= j < k < taken.len() ==> #[trigger] taken[j] < #[trigger] taken[k],
        forall|i: int|
            0 <= i < ids.len() && start_checked(s, #[trigger] ids[i]).1 is Some ==> taken.contains(i),
    decreases ids.len(),
{
    if ids.len() == 0 {
        Seq::empty()
    } else {
        let front = ids.drop_last();
        let n = front.len() as int;
        let before = law_bulk_starts_take_each_channel_alone(s, front);
        lemma_checked(s, front);
        lemma_same_start(s, all_checked(s, front).0, ids.last());
        assert(ids.last() == ids[n]);
        let taken = if start_checked(s, ids.last()).1 is Some {
            before.push(n)
        } else {
            before
        };
        let batch = all_checked(s, ids).1;
        assert forall|k: int| 0 <= k < taken.len() implies 0 <= #[trigger] taken[k] < ids.len()
            && batch[k].0 == ids[taken[k]] && start_checked(s, ids[taken[k]]).1 == Some(
            batch[k].1,
        ) by {
            if k < before.len() {
                assert(taken[k] == before[k]);
                assert(front[before[k]] == ids[before[k]]);
                assert(batch[k] == all_checked(s, front).1[k]);
            }
        }
        assert forall|i: int|
            0 <= i < ids.len() && start_checked(s, #[trigger] ids[i]).1 is Some implies taken.contains(
            i,
        ) by {
            if i < n {
                assert(front[i] == ids[i]);
                assert(before.contains(i));
                let k = choose|k: int| 0 <= k < before.len() && before[k] == i;
                assert(taken[k] == i);
            } else {
                assert(taken[before.len() as int] == n);
            }
        }
        taken
    }
}

} // verus!
