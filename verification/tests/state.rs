//! The view-model: how updates are folded, and what the application decides on them.

use listener::config::schema::{FontSize, InterfaceConfig};
use listener::config::templates::udp_template;
use listener::diagnostics::Diagnostic;
use listener::display::{CharacterRendering, DisplayMode};
use listener::gui::fonts::MonoFont;
use listener::gui::points::size_text;
use listener::gui::snapshot::{
    ChannelActivity, ChannelSnapshot, ChannelStats, DiagnosticsSnapshot, MarkRender, QueueDepth,
    Rate, StreamDelta, TriggeredMatch,
};
use listener::gui::state::{AppState, ChannelStatus, UiUpdate};
use listener::gui::view_prefs::{ColorScheme, ViewPrefs, DEFAULT_FONT_SIZE_BITS};
use listener::model::command::{RecordingTap, RuntimeEvent};
use listener::model::ids::{ChannelId, MatchRuleId};
use listener::model::state::{ChannelState, RecordingState};

fn rate(per_sec: f64) -> Rate {
    Rate {
        bits: per_sec.to_bits(),
    }
}

fn added(id: ChannelId, name: &str, details: &str) -> UiUpdate {
    UiUpdate::ChannelAdded(
        id,
        name.into(),
        details.into(),
        udp_template(),
    )
}

fn snapshot_with(
    id: ChannelId,
    total_bytes: u64,
    bps: f64,
    warnings: usize,
) -> ChannelSnapshot {
    ChannelSnapshot {
        channel_id: id,
        state: ChannelState::Running,
        reconnect_pending: false,
        display_views: vec![],
        diagnostics: DiagnosticsSnapshot {
            warnings: vec![Diagnostic::warning("w"); warnings],
            ..DiagnosticsSnapshot::default()
        },
        raw_recording: None,
        display_recording: None,
        activity: ChannelActivity {
            last_data_at: None,
            bytes_per_sec: rate(bps),
            total_bytes,
        },
        matches: vec![],
        match_boundary_saves: 0,
        stream_end_offset: total_bytes,
        ingest_queue: QueueDepth::default(),
        raw_recording_queue: None,
        last_run_summary: None,
    }
}

#[test]
fn folds_registration_and_lifecycle() {
    let mut state = AppState::default();
    let id = ChannelId::new();

    state.apply(added(id, "udp", "UDP · test"));
    assert_eq!(state.channel(id).unwrap().status, ChannelStatus::Stopped);
    assert_eq!(state.channels().len(), 1);

    state.apply(UiUpdate::Event(RuntimeEvent::ChannelStarted(id)));
    assert_eq!(state.channel(id).unwrap().status, ChannelStatus::Running);

    state.apply(UiUpdate::Event(RuntimeEvent::ChannelFaulted(id)));
    assert_eq!(state.channel(id).unwrap().status, ChannelStatus::Faulted);
}

#[test]
fn reconnect_events_drive_status() {
    let mut state = AppState::default();
    let id = ChannelId::new();
    state.apply(added(id, "serial", "Serial · COM3"));

    state.apply(UiUpdate::Event(RuntimeEvent::ChannelReconnecting(id, 1)));
    assert_eq!(
        state.channel(id).unwrap().status,
        ChannelStatus::Reconnecting
    );
    state.apply(UiUpdate::Event(RuntimeEvent::ChannelReconnected(id)));
    assert_eq!(state.channel(id).unwrap().status, ChannelStatus::Running);
    state.apply(UiUpdate::Event(RuntimeEvent::ChannelReconnectGaveUp(id)));
    assert_eq!(state.channel(id).unwrap().status, ChannelStatus::Faulted);
}

#[test]
fn snapshot_fold_caches_the_sorted_diagnostics() {
    let mut state = AppState::default();
    let id = ChannelId::new();
    state.apply(added(id, "udp", "UDP · test"));
    assert!(state.channel(id).unwrap().sorted_diagnostics.is_empty());

    state.apply(UiUpdate::Snapshot(
        id,
        snapshot_with(id, 1, 0.0, 2),
    ));
    assert_eq!(state.channel(id).unwrap().sorted_diagnostics.len(), 2);
}

#[test]
fn snapshot_updates_liveness_and_is_retained() {
    let mut state = AppState::default();
    let id = ChannelId::new();
    state.apply(added(id, "udp", "UDP · test"));

    state.apply(UiUpdate::Snapshot(
        id,
        snapshot_with(id, 4096, 42.0, 2),
    ));
    let view = state.channel(id).unwrap();
    assert_eq!(view.bytes_total, 4096);
    assert_eq!(view.bytes_per_sec, rate(42.0));
    assert_eq!(view.warnings, 2);
    assert!(view.snapshot.is_some());
}

#[test]
fn faulting_keeps_the_diagnostics_log_but_clears_live_indicators() {
    let mut state = AppState::default();
    let id = ChannelId::new();
    state.apply(added(id, "udp", "UDP · test"));
    let mut snap = snapshot_with(id, 4096, 42.0, 0);
    snap.raw_recording = Some(RecordingState::Enabled);
    state.apply(UiUpdate::Snapshot(id, snap));
    assert!(state.channel(id).unwrap().snapshot.is_some());

    state.apply(UiUpdate::Event(RuntimeEvent::ChannelFaulted(id)));
    let view = state.channel(id).unwrap();
    assert_eq!(view.status, ChannelStatus::Faulted);
    assert!(
        view.snapshot.is_some(),
        "the diagnostics log is kept across a fault"
    );
    assert_eq!(
        view.recording, None,
        "no recording indicator on a faulted channel"
    );
    assert_eq!(view.bytes_total, 4096, "byte liveness is kept");
}

fn stats_with_state(id: ChannelId, state: ChannelState, reconnect_pending: bool) -> UiUpdate {
    UiUpdate::Stats(
        id,
        ChannelStats {
            state,
            reconnect_pending,
            activity: ChannelActivity {
                last_data_at: None,
                bytes_per_sec: rate(0.0),
                total_bytes: 0,
            },
            event_count: 0,
            warning_count: 0,
            error_count: 0,
            raw_recording: None,
            display_recording: None,
            match_boundary_saves: 0,
            ingest_queue: QueueDepth::default(),
            raw_recording_queue: None,
        },
    )
}

#[test]
fn a_dropped_lifecycle_event_self_corrects_on_the_next_poll() {
    let mut state = AppState::default();
    let id = ChannelId::new();
    state.apply(added(id, "udp", "UDP · test"));
    state.apply(UiUpdate::Event(RuntimeEvent::ChannelStarted(id)));
    assert_eq!(state.channel(id).unwrap().status, ChannelStatus::Running);

    state.apply(stats_with_state(id, ChannelState::Faulted, false));
    assert_eq!(
        state.channel(id).unwrap().status,
        ChannelStatus::Faulted,
        "polled state corrects a dropped ChannelFaulted"
    );

    state.apply(stats_with_state(id, ChannelState::Stopped, false));
    assert_eq!(state.channel(id).unwrap().status, ChannelStatus::Stopped);
}

#[test]
fn polled_fault_with_reconnect_pending_reads_reconnecting() {
    let mut state = AppState::default();
    let id = ChannelId::new();
    state.apply(added(id, "serial", "Serial · COM3"));

    state.apply(stats_with_state(id, ChannelState::Faulted, true));
    assert_eq!(
        state.channel(id).unwrap().status,
        ChannelStatus::Reconnecting
    );
    state.apply(stats_with_state(id, ChannelState::Faulted, false));
    assert_eq!(state.channel(id).unwrap().status, ChannelStatus::Faulted);
}

#[test]
fn transitional_polled_states_do_not_flap_the_row() {
    let mut state = AppState::default();
    let id = ChannelId::new();
    state.apply(added(id, "udp", "UDP · test"));
    state.apply(UiUpdate::Event(RuntimeEvent::ChannelStarted(id)));

    state.apply(stats_with_state(id, ChannelState::Stopping, false));
    assert_eq!(state.channel(id).unwrap().status, ChannelStatus::Running);
    state.apply(stats_with_state(id, ChannelState::Starting, false));
    assert_eq!(state.channel(id).unwrap().status, ChannelStatus::Running);
}

#[test]
fn recording_fault_clearing_is_tap_aware() {
    let mut state = AppState::default();
    let id = ChannelId::new();
    state.apply(added(id, "udp", "UDP · test"));

    state.apply(UiUpdate::Event(RuntimeEvent::RecordingFaulted(
        id,
        RecordingTap::Display,
    )));
    assert!(state.channel(id).unwrap().last_error.is_some());

    state.apply(UiUpdate::Event(RuntimeEvent::RecordingStarted(
        id,
        RecordingTap::Raw,
    )));
    assert!(
        state.channel(id).unwrap().last_error.is_some(),
        "a Raw start must not clear a Display recording fault"
    );

    let mut snap = snapshot_with(id, 0, 0.0, 0);
    snap.raw_recording = Some(RecordingState::Enabled);
    state.apply(UiUpdate::Snapshot(id, snap));
    assert!(
        state.channel(id).unwrap().last_error.is_some(),
        "the Raw lane polling Enabled must not clear a Display fault"
    );

    state.apply(UiUpdate::Event(RuntimeEvent::RecordingStarted(
        id,
        RecordingTap::Display,
    )));
    assert!(state.channel(id).unwrap().last_error.is_none());
}

#[test]
fn polled_recording_state_clears_only_the_faulted_lane() {
    let mut state = AppState::default();
    let id = ChannelId::new();
    state.apply(added(id, "udp", "UDP · test"));

    state.apply(UiUpdate::Event(RuntimeEvent::RecordingFaulted(
        id,
        RecordingTap::Display,
    )));
    let mut snap = snapshot_with(id, 0, 0.0, 0);
    snap.display_recording = Some(RecordingState::Enabled);
    state.apply(UiUpdate::Snapshot(id, snap));
    assert!(
        state.channel(id).unwrap().last_error.is_none(),
        "the faulted lane polling Enabled clears its fault"
    );

    state.apply(UiUpdate::ChannelError(id, "illegal transition".into()));
    let mut snap = snapshot_with(id, 0, 0.0, 0);
    snap.raw_recording = Some(RecordingState::Enabled);
    snap.display_recording = Some(RecordingState::Enabled);
    state.apply(UiUpdate::Snapshot(id, snap));
    assert!(
        state.channel(id).unwrap().last_error.is_some(),
        "recording state must not clear a command error"
    );
}

#[test]
fn totals_survive_stop_and_reset_on_start() {
    let mut state = AppState::default();
    let id = ChannelId::new();
    state.apply(added(id, "udp", "UDP · test"));
    state.apply(UiUpdate::Snapshot(
        id,
        snapshot_with(id, 22278, 42.0, 0),
    ));

    state.apply(UiUpdate::Event(RuntimeEvent::ChannelStopped(id)));
    let view = state.channel(id).unwrap();
    assert_eq!(view.bytes_total, 22278, "totals survive Stop");

    state.apply(UiUpdate::Event(RuntimeEvent::ChannelStarted(id)));
    let view = state.channel(id).unwrap();
    assert_eq!(view.bytes_total, 0, "a fresh run zeroes the totals");
    assert_eq!(view.bytes_per_sec, rate(0.0));
}

fn delta(base: u64, bytes: &[u8], end: u64) -> StreamDelta {
    StreamDelta {
        base_offset: base,
        bytes: bytes.to_vec(),
        end_offset: end,
    }
}

#[test]
fn stream_deltas_accumulate_incrementally() {
    let mut state = AppState::default();
    let id = ChannelId::new();
    state.apply(added(id, "udp", "UDP · test"));

    state.apply(UiUpdate::StreamDelta(id, delta(0, b"alpha", 5)));
    state.apply(UiUpdate::StreamDelta(id, delta(5, b"bravo", 10)));
    let view = state.channel_mut(id).unwrap();
    assert_eq!(view.stream_contiguous(), b"alphabravo");
    assert_eq!(view.stream_cursor, 10);
}

#[test]
fn stream_delta_reset_on_eviction_replaces_rather_than_appends() {
    let mut state = AppState::default();
    let id = ChannelId::new();
    state.apply(added(id, "udp", "UDP · test"));

    state.apply(UiUpdate::StreamDelta(id, delta(0, b"old", 3)));
    state.apply(UiUpdate::StreamDelta(id, delta(10, b"new", 13)));
    let view = state.channel_mut(id).unwrap();
    assert_eq!(view.stream_contiguous(), b"new");
    assert_eq!(view.stream_cursor, 13);
}

fn mark_match(rule: MatchRuleId, view_offset: u64, text: &str) -> TriggeredMatch {
    TriggeredMatch {
        rule_id: rule,
        byte_offset: Some(view_offset),
        view_offset: Some(view_offset),
        mark: Some(MarkRender {
            text: text.into(),
            before: true,
        }),
    }
}

#[test]
fn marks_outlive_the_snapshot_match_window() {
    let mut state = AppState::default();
    let id = ChannelId::new();
    state.apply(added(id, "udp", "UDP · test"));
    state.apply(UiUpdate::StreamDelta(id, delta(0, b"abcdef", 6)));

    let rule = MatchRuleId::new();
    let mut snap = snapshot_with(id, 6, 0.0, 0);
    snap.matches = vec![mark_match(rule, 2, "[12:00:00]")];
    state.apply(UiUpdate::Snapshot(id, snap));
    assert_eq!(state.channel(id).unwrap().marks.len(), 1);

    let mut again = snapshot_with(id, 6, 0.0, 0);
    again.matches = vec![mark_match(rule, 2, "[12:00:00]")];
    state.apply(UiUpdate::Snapshot(id, again));
    assert_eq!(
        state.channel(id).unwrap().marks.len(),
        1,
        "idempotent merge"
    );

    state.apply(UiUpdate::Snapshot(
        id,
        snapshot_with(id, 6, 0.0, 0),
    ));
    let view = state.channel(id).unwrap();
    assert_eq!(view.marks.len(), 1, "the mark outlives the rolling window");
    assert_eq!(view.marks[0].offset, 2);
}

#[test]
fn marks_trim_with_the_window_and_clear_on_restart() {
    let mut state = AppState::default();
    let id = ChannelId::new();
    state.apply(added(id, "udp", "UDP · test"));
    state.apply(UiUpdate::StreamDelta(id, delta(0, b"abc", 3)));
    let mut snap = snapshot_with(id, 3, 0.0, 0);
    snap.matches = vec![mark_match(MatchRuleId::new(), 1, "[t]")];
    state.apply(UiUpdate::Snapshot(id, snap));
    assert_eq!(state.channel(id).unwrap().marks.len(), 1);

    state.apply(UiUpdate::StreamDelta(id, delta(10, b"xyz", 13)));
    assert!(
        state.channel(id).unwrap().marks.is_empty(),
        "trimmed with its byte"
    );

    let mut snap = snapshot_with(id, 13, 0.0, 0);
    snap.matches = vec![mark_match(MatchRuleId::new(), 11, "[t]")];
    state.apply(UiUpdate::Snapshot(id, snap));
    assert_eq!(state.channel(id).unwrap().marks.len(), 1);
    state.apply(UiUpdate::Event(RuntimeEvent::ChannelStarted(id)));
    assert!(
        state.channel(id).unwrap().marks.is_empty(),
        "cleared on restart"
    );
}

#[test]
fn restart_clears_accumulated_stream() {
    let mut state = AppState::default();
    let id = ChannelId::new();
    state.apply(added(id, "udp", "UDP · test"));

    state.apply(UiUpdate::StreamDelta(id, delta(0, b"before", 6)));
    state.apply(UiUpdate::Event(RuntimeEvent::ChannelStarted(id)));
    let view = state.channel_mut(id).unwrap();
    assert!(view.stream_contiguous().is_empty());
    assert_eq!(view.stream_cursor, 0);
}

#[test]
fn channel_error_is_recorded_and_cleared_on_a_successful_start() {
    let mut state = AppState::default();
    let id = ChannelId::new();
    state.apply(added(id, "udp", "UDP · :9000"));
    assert!(state.channel(id).unwrap().last_error.is_none());
    assert_eq!(state.channel(id).unwrap().details, "UDP · :9000");

    state.apply(UiUpdate::ChannelError(
        id,
        "failed to bind: address in use".into(),
    ));
    assert_eq!(
        state.channel(id).unwrap().last_error.as_deref(),
        Some("failed to bind: address in use")
    );

    state.apply(UiUpdate::Event(RuntimeEvent::ChannelStarted(id)));
    assert!(state.channel(id).unwrap().last_error.is_none());
    assert_eq!(state.channel(id).unwrap().status, ChannelStatus::Running);
}

#[test]
fn channel_reconfigured_updates_details_and_config() {
    let mut state = AppState::default();
    let id = ChannelId::new();
    state.apply(added(id, "udp", "UDP · :9000"));

    let mut new_config = udp_template();
    if let InterfaceConfig::Udp(udp) = &mut new_config.interface {
        udp.port = 9100;
    }
    state.apply(UiUpdate::ChannelReconfigured(
        id,
        "UDP · :9100".into(),
        new_config,
    ));

    let view = state.channel(id).unwrap();
    assert_eq!(view.details, "UDP · :9100");
    match &view.config.interface {
        InterfaceConfig::Udp(udp) => assert_eq!(udp.port, 9100),
        other => panic!("expected UDP, got {other:?}"),
    }
}

#[test]
fn channel_removed_drops_it_from_the_model() {
    let mut state = AppState::default();
    let a = ChannelId::new();
    let b = ChannelId::new();
    state.apply(added(a, "a", "UDP"));
    state.apply(added(b, "b", "TCP"));

    state.apply(UiUpdate::ChannelRemoved(a));
    assert_eq!(state.channels().len(), 1);
    assert!(state.channel(a).is_none());
    assert!(state.channel(b).is_some());
}

#[test]
fn events_for_unknown_channels_are_ignored() {
    let mut state = AppState::default();
    let known = ChannelId::new();
    state.apply(added(known, "a", "UDP"));

    state.apply(UiUpdate::Event(RuntimeEvent::ChannelStarted(
        ChannelId::new(),
    )));
    assert_eq!(state.channels().len(), 1);
    assert_eq!(state.channel(known).unwrap().status, ChannelStatus::Stopped);
}

#[test]
fn registration_order_is_stable() {
    let mut state = AppState::default();
    let (a, b, c) = (ChannelId::new(), ChannelId::new(), ChannelId::new());
    state.apply(added(a, "a", "UDP"));
    state.apply(added(b, "b", "TCP"));
    state.apply(added(c, "c", "Serial"));
    state.apply(added(a, "a-again", "UDP"));

    let names: Vec<&str> = state.channels().iter().map(|v| v.name.as_str()).collect();
    assert_eq!(names, vec!["a", "b", "c"]);
}

#[test]
fn neighbor_picks_the_channel_above_then_below() {
    let mut state = AppState::default();
    let (a, b, c) = (ChannelId::new(), ChannelId::new(), ChannelId::new());
    state.apply(added(a, "a", "UDP"));
    state.apply(added(b, "b", "TCP"));
    state.apply(added(c, "c", "Serial"));

    assert_eq!(state.neighbor(b), Some(a));
    assert_eq!(state.neighbor(c), Some(b));
    assert_eq!(state.neighbor(a), Some(b));

    state.apply(UiUpdate::ChannelRemoved(b));
    state.apply(UiUpdate::ChannelRemoved(c));
    assert_eq!(state.neighbor(a), None);
    assert_eq!(state.neighbor(ChannelId::new()), None);
}

#[test]
fn cycle_wraps_in_both_directions() {
    let mut state = AppState::default();
    let (a, b, c) = (ChannelId::new(), ChannelId::new(), ChannelId::new());
    state.apply(added(a, "a", "UDP"));
    state.apply(added(b, "b", "TCP"));
    state.apply(added(c, "c", "Serial"));

    assert_eq!(state.cycle(a, true), Some(b));
    assert_eq!(state.cycle(c, true), Some(a));
    assert_eq!(state.cycle(a, false), Some(c));
    assert_eq!(state.first(), Some(a));
}

#[test]
fn renamed_updates_both_the_label_and_the_editor_seed() {
    let mut state = AppState::default();
    let a = ChannelId::new();
    state.apply(added(a, "a", "UDP"));

    state.apply(UiUpdate::ChannelRenamed(a, "Bridge".into()));
    let v = state.channel(a).unwrap();
    assert_eq!(v.name, "Bridge");
    assert_eq!(v.config.name.as_str(), "Bridge");
}

#[test]
fn start_all_includes_faulted_channels_so_a_freed_resource_retries() {
    let mut state = AppState::default();
    let stopped = ChannelId::new();
    let faulted = ChannelId::new();
    let running = ChannelId::new();
    let reconnecting = ChannelId::new();
    for (id, name) in [
        (stopped, "stopped"),
        (faulted, "faulted"),
        (running, "running"),
        (reconnecting, "reconnecting"),
    ] {
        state.apply(added(id, name, "UDP"));
    }
    state.apply(UiUpdate::Event(RuntimeEvent::ChannelFaulted(faulted)));
    state.apply(UiUpdate::Event(RuntimeEvent::ChannelStarted(running)));
    state.apply(UiUpdate::Event(RuntimeEvent::ChannelReconnecting(
        reconnecting,
        1,
    )));

    let startable = state.startable_channel_ids();
    assert!(startable.contains(&stopped));
    assert!(
        startable.contains(&faulted),
        "faulted must be retried by Start all"
    );
    assert!(!startable.contains(&running), "running is already up");
    assert!(
        !startable.contains(&reconnecting),
        "reconnecting can't legally Start (only Stop)"
    );
}

fn font(size: f32) -> FontSize {
    FontSize {
        bits: size.to_bits(),
    }
}

#[test]
fn view_prefs_round_trip_through_a_channel_config() {
    let mut config = udp_template();
    let mut prefs = ViewPrefs::from_config(&config);
    prefs.mode = DisplayMode::Hex;
    prefs.chars = CharacterRendering::Token;
    prefs.font_size = font(20.0);
    prefs.mono = MonoFont::JetBrains;
    prefs.colors = ColorScheme::GreenOnBlack;

    prefs.apply_to_config(&mut config);
    let restored = ViewPrefs::from_config(&config);
    assert!(restored.eq_settings(&prefs), "settings should round-trip");
    assert_eq!(restored.font_text, "20");
}

#[test]
fn a_config_without_view_font_size_seeds_the_default() {
    let config = udp_template();
    let prefs = ViewPrefs::from_config(&config);
    assert_eq!(prefs.font_size.bits, DEFAULT_FONT_SIZE_BITS);
    assert_eq!(prefs.font_text, "13");
}

#[test]
fn the_font_of_a_view_is_always_kept_as_a_token() {
    let mut config = udp_template();
    assert_eq!(config.display.views[0].font, None);
    ViewPrefs::from_config(&config).apply_to_config(&mut config);
    assert_eq!(config.display.views[0].font.as_deref(), Some(MonoFont::default().name()));
    config.display.views[0].font = Some("no such face".to_string());
    let prefs = ViewPrefs::from_config(&config);
    assert_eq!(prefs.mono, MonoFont::Cascadia);
    prefs.apply_to_config(&mut config);
    assert_eq!(config.display.views[0].font.as_deref(), Some("cascadia"));
    for font in MonoFont::all() {
        assert_eq!(MonoFont::from_name(&Some(font.name().to_string())), font);
        assert!(!font.label().is_empty());
    }
}

#[test]
fn font_sizes_are_compared_as_numbers() {
    assert_eq!(font(0.0), font(-0.0));
    assert_ne!(font(f32::NAN), font(f32::NAN));
    assert_ne!(font(1.0), font(-1.0));
    assert_eq!(font(f32::INFINITY), font(f32::INFINITY));
    let mut a = ViewPrefs::from_config(&udp_template());
    let mut b = a.clone();
    a.font_size = font(0.0);
    b.font_size = font(-0.0);
    assert!(a.eq_settings(&b));
    a.font_size = font(f32::NAN);
    assert!(!a.eq_settings(&a));
    assert_eq!(rate(0.0), rate(-0.0));
    assert_ne!(rate(f64::NAN), rate(f64::NAN));
    assert_eq!(rate(1.5), rate(1.5));
}

#[test]
fn a_font_size_reads_as_whole_points() {
    for points in [
        0.0, -0.0, 0.4, 0.5, 0.500001, 1.0, 1.5, 2.5, 3.5, 12.49, 12.5, 13.0, 13.5, 72.0, -2.5, 100.5,
        8_388_607.5, 8_388_608.0, 16_777_216.0, 3.0e10, 1.0e-40, f32::MAX, f32::MIN, f32::EPSILON,
        f32::INFINITY, f32::NEG_INFINITY, f32::NAN,
    ] {
        assert_eq!(size_text(font(points)), format!("{points:.0}"));
    }
    assert_eq!(size_text(font(12.5)), "12");
    assert_eq!(size_text(font(13.5)), "14");
    assert_eq!(size_text(font(72.0)), "72");
}


#[test]
fn a_delta_that_ends_before_its_bytes_is_not_accepted() {
    let mut state = AppState::default();
    let id = ChannelId::new();
    state.apply(added(id, "udp", "UDP"));
    let first = UiUpdate::StreamDelta(id, delta(0, b"abcde", 5));
    assert!(state.accepts(&first));
    state.apply(first);
    assert!(state.accepts(&UiUpdate::StreamDelta(id, delta(5, b"fg", 7))));
    assert!(!state.accepts(&UiUpdate::StreamDelta(id, delta(0, b"abcde", 5))));
    assert!(state.accepts(&UiUpdate::StreamDelta(id, delta(9, b"xy", 11))));
    assert!(state.accepts(&UiUpdate::StreamDelta(ChannelId::new(), delta(0, b"a", 0))));
    assert!(state.accepts(&UiUpdate::ChannelRemoved(id)));
}
