//! The application's decisions, the driver and the panels.

use listener::config::schema::{ChannelConfig, FontSize, InterfaceConfig};
use listener::config::templates::{serial_template, udp_template};
use listener::diagnostics::{Diagnostic, DiagnosticSeverity};
use listener::display::{CharacterRendering, DisplayMode};
use listener::gui::app::{ListenerApp, COMMAND_DROP_NOTICE_TTL};
use listener::gui::bridge::{workspace_profile, Driver, Outcome, Poll, Step, UiCommand};
use listener::gui::detail::{
    edit_view, refresh_stream_rows, show_detail, stream_view, DetailPane, ViewEdit,
};
use listener::gui::fonts::MonoFont;
use listener::gui::names::{is_duplicate_name, next_channel_name, ChannelSeq};
use listener::gui::panes::{
    boundary_note, channel_rows, count_text, diagnostics_counts, diagnostics_headline,
    filter_label, first_view, last_run, log_line, match_lines, pause_command, port_in_question,
    received_line, record_button, record_command, run_heading, run_pressure, run_times, shown_log,
    stream_note, LogFilter,
};
use listener::gui::recents::{
    dark_preference, join_recent, recent_label, remember_recent_profile, split_recent,
    MAX_RECENT_PROFILES,
};
use listener::gui::snapshot::{
    ChannelActivity, ChannelSnapshot, DiagnosticsSnapshot, DisplayViewState, ListenerRunSummary,
    QueueDepth, Rate, StreamDelta, TriggeredMatch,
};
use listener::gui::state::{ChannelStatus, UiUpdate};
use listener::gui::view_prefs::ColorScheme;
use listener::gui::widgets::{Accent, AddKind};
use listener::model::command::{RecordingTap, RuntimeEvent};
use listener::model::ids::{ChannelId, ChannelName, DisplayViewId, MatchRuleId};
use listener::model::state::{ChannelState, RecordingState};

fn udp(port: u16) -> ChannelConfig {
    let mut config = udp_template();
    if let InterfaceConfig::Udp(udp) = &mut config.interface {
        udp.port = port;
    }
    config
}

fn app_with(ports: &[u16]) -> (ListenerApp, Vec<ChannelId>) {
    let mut app = ListenerApp::new(Vec::new());
    let mut ids = Vec::new();
    for (n, port) in ports.iter().enumerate() {
        let id = ChannelId::new();
        app.take_update(UiUpdate::ChannelAdded(
            id,
            format!("c{n}"),
            "UDP".to_string(),
            udp(*port),
        ));
        ids.push(id);
    }
    (app, ids)
}

fn snapshot(id: ChannelId) -> ChannelSnapshot {
    ChannelSnapshot {
        channel_id: id,
        state: ChannelState::Running,
        reconnect_pending: false,
        display_views: vec![],
        diagnostics: DiagnosticsSnapshot::default(),
        raw_recording: None,
        display_recording: None,
        activity: ChannelActivity {
            last_data_at: None,
            bytes_per_sec: Rate { bits: 0 },
            total_bytes: 0,
        },
        matches: vec![],
        match_boundary_saves: 0,
        stream_end_offset: 0,
        ingest_queue: QueueDepth::default(),
        raw_recording_queue: None,
        last_run_summary: None,
    }
}

#[test]
fn a_new_channel_is_selected_and_a_removed_one_leaves_to_its_neighbor() {
    let (mut app, ids) = app_with(&[1, 2, 3]);
    assert_eq!(app.selected, Some(ids[2]));
    app.take_update(UiUpdate::ChannelRemoved(ids[0]));
    assert_eq!(app.selected, Some(ids[2]));
    app.take_update(UiUpdate::ChannelRemoved(ids[2]));
    assert_eq!(app.selected, Some(ids[1]));
    app.take_update(UiUpdate::ChannelRemoved(ids[1]));
    assert_eq!(app.selected, None);
}

#[test]
fn the_driver_is_told_of_a_selection_once() {
    let (mut app, ids) = app_with(&[1]);
    assert!(matches!(
        app.select_command(),
        Some(UiCommand::Select(Some(id))) if id == ids[0]
    ));
    assert!(app.select_command().is_none());
    app.selected = None;
    assert!(matches!(
        app.select_command(),
        Some(UiCommand::Select(None))
    ));
}

#[test]
fn names_of_new_channels_are_never_given_out_again() {
    let mut app = ListenerApp::new(Vec::new());
    let name = |cmd: UiCommand| match cmd {
        UiCommand::AddChannel(config) => config.name.to_string(),
        other => panic!("expected an addition, got {other:?}"),
    };
    assert_eq!(name(app.add_channel(AddKind::Udp)), "UDP_Channel1");
    assert_eq!(name(app.add_channel(AddKind::Udp)), "UDP_Channel2");
    assert_eq!(name(app.add_channel(AddKind::Tcp)), "TCP_Listener1");
    app.take_update(UiUpdate::ChannelAdded(
        ChannelId::new(),
        "udp_channel3".to_string(),
        String::new(),
        udp(1),
    ));
    assert_eq!(name(app.add_channel(AddKind::Udp)), "UDP_Channel4");

    let mut seq = ChannelSeq::new();
    let first = next_channel_name(&mut seq, &app.state, AddKind::Serial, "S");
    assert_eq!(first.as_str(), "S1");
    assert_eq!(seq.serial, 1);
    assert_eq!(seq.udp, 0);
}

#[test]
fn a_channel_that_needs_attention_opens_its_configuration() {
    let (mut app, ids) = app_with(&[0, 9]);
    app.sync_edit_draft(ids[1]);
    assert!(!app.force_config_open);
    app.sync_edit_draft(ids[0]);
    assert!(app.force_config_open);
    assert_eq!(app.edit_draft.as_ref().map(|d| d.0), Some(ids[0]));
    app.force_config_open = false;
    app.sync_edit_draft(ids[0]);
    assert!(!app.force_config_open, "an edited channel stays as it is");
    app.take_update(UiUpdate::Event(RuntimeEvent::ChannelFaulted(ids[1])));
    app.sync_edit_draft(ids[1]);
    assert!(app.force_config_open);
}

#[test]
fn a_start_uses_the_draft_and_clears_the_error() {
    let (mut app, ids) = app_with(&[7]);
    app.sync_edit_draft(ids[0]);
    assert!(!app.config_changed(ids[0]));
    app.edit_draft = Some((ids[0], udp(8)));
    assert!(app.config_changed(ids[0]));
    app.take_update(UiUpdate::ChannelError(ids[0], "in use".to_string()));
    match app.try_start(ids[0]) {
        Some(UiCommand::CommitAndStart {
            id,
            config: Some(config),
            start,
        }) => {
            assert_eq!(id, ids[0]);
            assert!(start);
            assert_eq!(config, udp(8));
        }
        other => panic!("expected a start, got {other:?}"),
    }
    assert_eq!(app.state.channel(ids[0]).unwrap().last_error, None);
}

#[test]
fn a_start_clears_the_recording_fault_with_its_message() {
    let (mut app, ids) = app_with(&[7]);
    app.take_update(UiUpdate::Event(RuntimeEvent::RecordingFaulted(ids[0], RecordingTap::Raw)));
    let view = app.state.channel(ids[0]).unwrap();
    assert!(view.last_error.is_some());
    assert_eq!(view.recording_fault, Some(RecordingTap::Raw));
    assert!(app.try_start(ids[0]).is_some());
    let view = app.state.channel(ids[0]).unwrap();
    assert_eq!(view.last_error, None);
    assert_eq!(view.recording_fault, None);
}

#[test]
fn an_unconfigured_channel_is_complained_of() {
    let (mut app, ids) = app_with(&[0]);
    assert!(app.try_start(ids[0]).is_none());
    assert!(app.force_config_open);
    assert_eq!(
        app.state.channel(ids[0]).unwrap().last_error.as_deref(),
        Some("Not configured \u{2014} set a port before starting.")
    );
    assert!(app.try_start(ChannelId::new()).is_none());
}

#[test]
fn a_bulk_start_takes_the_channels_that_can() {
    let (mut app, ids) = app_with(&[5, 0, 6]);
    app.take_update(UiUpdate::Event(RuntimeEvent::ChannelFaulted(ids[2])));
    match app.start_all() {
        Some(UiCommand::StartAll(batch)) => {
            let started: Vec<ChannelId> = batch.iter().map(|e| e.0).collect();
            assert_eq!(started, [ids[0], ids[2]]);
        }
        other => panic!("expected a batch, got {other:?}"),
    }
    assert!(app.state.channel(ids[1]).unwrap().last_error.is_some());
    let (mut none, _) = app_with(&[0]);
    assert!(none.start_all().is_none());
}

#[test]
fn tabs_are_cycled_with_the_keyboard() {
    let (mut app, ids) = app_with(&[1, 2, 3]);
    app.handle_tab_keys(true, false, true);
    assert_eq!(app.selected, Some(ids[0]));
    app.handle_tab_keys(true, true, true);
    assert_eq!(app.selected, Some(ids[2]));
    app.handle_tab_keys(true, false, false);
    assert_eq!(app.selected, Some(ids[2]));
    app.selected = None;
    app.handle_tab_keys(true, false, true);
    assert_eq!(app.selected, Some(ids[0]));
}

#[test]
fn a_name_in_use_is_not_taken() {
    let (mut app, ids) = app_with(&[1, 2]);
    assert!(app.rename(ids[0], "x").is_none(), "nothing is being edited");
    app.sync_edit_draft(ids[0]);
    assert!(app.rename(ids[0], "C1").is_none());
    assert!(app.name_duplicate);
    assert_eq!(app.state.channel(ids[0]).unwrap().name, "c0");
    assert!(is_duplicate_name(&app.state, ids[0], "C1"));
    assert!(matches!(
        app.rename(ids[0], "C0"),
        Some(UiCommand::Rename(id, name)) if id == ids[0] && name == ChannelName::new("C0")
    ));
    assert!(!app.name_duplicate);
    assert_eq!(app.state.channel(ids[0]).unwrap().name, "C0");
}

#[test]
fn a_removal_is_confirmed_first() {
    let (mut app, ids) = app_with(&[1]);
    assert!(app.remove_question().is_none());
    app.ask_remove(ids[0]);
    assert_eq!(
        app.remove_question().unwrap(),
        "\u{201C}c0\u{201D} will be stopped and removed. This can't be undone."
    );
    assert!(app.answer_remove(false).is_none());
    assert!(app.answer_remove(true).is_none());
    app.ask_remove(ids[0]);
    assert!(matches!(
        app.answer_remove(true),
        Some(UiCommand::RemoveChannel(id)) if id == ids[0]
    ));
}

#[test]
fn edited_recordings_are_kept_at_once() {
    let (mut app, ids) = app_with(&[1]);
    let id = ids[0];
    assert!(app.persist_recording(id, RecordingTap::Raw).is_none());
    app.sync_edit_draft(id);
    assert!(app.persist_recording(id, RecordingTap::Raw).is_none());
    if let Some((_, draft)) = &mut app.edit_draft {
        draft.raw_recording.destination = Some("/x".to_string());
        draft.display_recording.enabled = true;
    }
    assert!(matches!(
        app.persist_recording(id, RecordingTap::Raw),
        Some(UiCommand::SetRawRecordingConfig(_, rec)) if rec.destination.as_deref() == Some("/x")
    ));
    assert!(matches!(
        app.persist_recording(id, RecordingTap::Display),
        Some(UiCommand::SetDisplayRecordingConfig(_, rec)) if rec.enabled
    ));
    assert!(app.persist_recording(id, RecordingTap::Raw).is_none());
    let config = &app.state.channel(id).unwrap().config;
    assert_eq!(config.raw_recording.destination.as_deref(), Some("/x"));
    assert!(config.display_recording.enabled);
}

#[test]
fn edited_view_settings_are_kept_at_once() {
    let (mut app, ids) = app_with(&[1]);
    let mut prefs = app.state.channel(ids[0]).unwrap().view_prefs.clone();
    assert!(app.persist_view(ids[0], &prefs).is_none());
    prefs.scroll_buffer_bytes = 4096;
    assert!(matches!(
        app.persist_view(ids[0], &prefs),
        Some(UiCommand::SetViewConfig(_, _, retention)) if retention.byte_limit == Some(4096)
    ));
    assert_eq!(
        app.state.channel(ids[0]).unwrap().config.retention.byte_limit,
        Some(4096)
    );
    assert!(app.persist_view(ids[0], &prefs).is_none());
    assert!(app.persist_view(ChannelId::new(), &prefs).is_none());
}

#[test]
fn the_font_size_field_is_kept_with_the_settings() {
    let (mut app, ids) = app_with(&[1]);
    let mut prefs = app.state.channel(ids[0]).unwrap().view_prefs.clone();
    assert_eq!(prefs.font_text, "13");
    prefs.font_text = "1".to_string();
    assert!(app.persist_view(ids[0], &prefs).is_none());
    assert_eq!(app.state.channel(ids[0]).unwrap().view_prefs.font_text, "13");
    prefs.font_text = "18.5".to_string();
    prefs.font_size = FontSize { bits: 18.5f32.to_bits() };
    assert!(app.persist_view(ids[0], &prefs).is_some());
    assert_eq!(app.state.channel(ids[0]).unwrap().view_prefs.font_text, "18.5");
}

#[test]
fn the_current_profile_follows_saves_and_loads() {
    let mut app = ListenerApp::new(vec!["/old".to_string()]);
    assert!(app.save_profile().is_none());
    assert!(matches!(app.save_profile_as("/a"), UiCommand::SaveProfile(p) if p == "/a"));
    assert!(matches!(app.save_profile(), Some(UiCommand::SaveProfile(p)) if p == "/a"));
    assert!(matches!(app.load_profile_path("/old"), UiCommand::LoadProfile(p) if p == "/old"));
    assert_eq!(app.recent_profiles, ["/old", "/a"]);
    assert_eq!(app.current_profile_path.as_deref(), Some("/old"));
}

#[test]
fn the_notice_of_a_dropped_command_goes_by_itself() {
    let mut app = ListenerApp::new(Vec::new());
    assert!(app.drop_notice(0).is_none());
    app.note_drop(100);
    assert!(app.drop_notice(100 + COMMAND_DROP_NOTICE_TTL).is_some());
    assert!(app.drop_notice(101 + COMMAND_DROP_NOTICE_TTL).is_none());
    assert_eq!(app.command_drop, None);
    app.note_drop(5);
    app.dismiss_drop();
    assert!(app.drop_notice(5).is_none());
}

#[test]
fn recent_profiles_are_kept_once_and_within_the_limit() {
    let mut recent = Vec::new();
    for n in 0..10 {
        remember_recent_profile(&mut recent, &format!("/p{n}"));
    }
    remember_recent_profile(&mut recent, "/p5");
    assert_eq!(recent.len(), MAX_RECENT_PROFILES);
    assert_eq!(recent[0], "/p5");
    assert_eq!(recent[1], "/p9");
    assert_eq!(recent.iter().filter(|p| *p == "/p5").count(), 1);
    assert_eq!(split_recent(&join_recent(&recent)), recent);
    assert_eq!(split_recent("a\r\n\nb"), ["a", "b"]);
    assert_eq!(split_recent(""), Vec::<String>::new());
    assert_eq!(join_recent(&vec![]), "");
    assert_eq!(recent_label(Some("x.toml"), Some("/x.toml")), "x.toml");
    assert_eq!(recent_label(None, Some("/")), "/");
    assert_eq!(recent_label(None, None), "profile");
    assert!(dark_preference(Some("true")));
    assert!(!dark_preference(Some("false")));
    assert!(!dark_preference(None));
}

#[test]
fn the_driver_reports_what_it_registers() {
    let mut driver = Driver::new();
    let step = driver.handle(UiCommand::AddChannel(udp(9000)));
    let config = match step {
        Step::Add(config) => config,
        other => panic!("expected an addition, got {other:?}"),
    };
    let id = ChannelId::new();
    match driver.settle(Outcome::Added(id, config)) {
        Some(UiUpdate::ChannelAdded(added, name, details, _)) => {
            assert_eq!(added, id);
            assert_eq!(name, "UDP_Channel");
            assert_eq!(details, "UDP unicast \u{b7} bind 0.0.0.0:9000");
        }
        other => panic!("expected a registration, got {other:?}"),
    }
    assert_eq!(driver.channels, [id]);
    assert_eq!(driver.poll_plan(), [Poll::Stats(id)]);
    assert!(matches!(driver.handle(UiCommand::Select(Some(id))), Step::Rest));
    assert_eq!(driver.poll_plan(), [Poll::Full(id, 0)]);
}

#[test]
fn a_stream_is_read_from_where_it_was_left() {
    let mut driver = Driver::new();
    let id = ChannelId::new();
    driver.settle(Outcome::Added(id, udp(1)));
    driver.handle(UiCommand::Select(Some(id)));
    let delta = |bytes: &[u8], end: u64| StreamDelta {
        base_offset: end - bytes.len() as u64,
        bytes: bytes.to_vec(),
        end_offset: end,
    };
    assert!(driver.take_delta(delta(b"abc", 3)).is_some());
    assert!(driver.take_delta(delta(b"", 3)).is_none());
    assert_eq!(driver.poll_plan(), [Poll::Full(id, 3)]);
    driver.notify(&RuntimeEvent::ChannelStarted(ChannelId::new()));
    assert_eq!(driver.stream_cursor, 3);
    driver.notify(&RuntimeEvent::ChannelReconnected(id));
    assert_eq!(driver.stream_cursor, 0);
}

#[test]
fn failures_are_told_with_their_reason() {
    let mut driver = Driver::new();
    let id = ChannelId::new();
    let err = || Err("address in use".to_string());
    for outcome in [
        Outcome::Started(id, err()),
        Outcome::Stopped(id, err()),
        Outcome::Applied(id, err()),
        Outcome::Reconfigured(id, udp(1), err()),
        Outcome::Committed(id, None, err()),
    ] {
        assert!(matches!(
            driver.settle(outcome),
            Some(UiUpdate::ChannelError(e, reason)) if e == id && reason == "address in use"
        ));
    }
    assert!(driver.settle(Outcome::Started(id, Ok(()))).is_none());
    assert!(driver.settle(Outcome::Committed(id, None, Ok(()))).is_none());
    assert!(matches!(
        driver.settle(Outcome::Committed(id, Some(udp(4)), Ok(()))),
        Some(UiUpdate::ChannelReconfigured(_, details, _)) if details.ends_with(":4")
    ));
    assert!(matches!(
        driver.settle(Outcome::Reconfigured(id, udp(5), Ok(()))),
        Some(UiUpdate::ChannelReconfigured(_, details, _)) if details.ends_with(":5")
    ));
    assert!(matches!(
        driver.settle(Outcome::Renamed(id, ChannelName::new("n"), true)),
        Some(UiUpdate::ChannelRenamed(_, name)) if name == "n"
    ));
    assert!(driver
        .settle(Outcome::Renamed(id, ChannelName::new("n"), false))
        .is_none());
}

#[test]
fn a_load_replaces_the_workspace_and_a_failed_one_keeps_it() {
    let mut driver = Driver::new();
    let (a, b, c) = (ChannelId::new(), ChannelId::new(), ChannelId::new());
    driver.settle(Outcome::Added(a, udp(1)));
    driver.settle(Outcome::Added(b, udp(2)));
    driver.handle(UiCommand::Select(Some(b)));
    assert!(matches!(
        driver.handle(UiCommand::LoadProfile("/p".to_string())),
        Step::Load(path) if path == "/p"
    ));
    assert!(matches!(
        driver.settle(Outcome::LoadFailed("no file".to_string())),
        Some(UiUpdate::ProfileError(text)) if text == "load failed: no file"
    ));
    assert_eq!(driver.channels, [a, b]);
    assert_eq!(driver.selected, Some(b));

    assert_eq!(driver.begin_load(), [a, b]);
    assert_eq!(driver.selected, None);
    for id in [a, b] {
        assert!(matches!(
            driver.settle(Outcome::Removed(id)),
            Some(UiUpdate::ChannelRemoved(gone)) if gone == id
        ));
    }
    driver.settle(Outcome::Added(c, udp(3)));
    assert_eq!(driver.channels, [c]);
    assert!(matches!(
        driver.settle(Outcome::Loaded("p".to_string())),
        Some(UiUpdate::ProfileLoaded(name)) if name == "p"
    ));
}

#[test]
fn a_removed_channel_is_polled_no_more() {
    let mut driver = Driver::new();
    let (a, b) = (ChannelId::new(), ChannelId::new());
    driver.settle(Outcome::Added(a, udp(1)));
    driver.settle(Outcome::Added(b, udp(2)));
    driver.settle(Outcome::Removed(a));
    assert_eq!(driver.poll_plan(), [Poll::Stats(b)]);
}

#[test]
fn commands_without_a_reply_are_handed_on() {
    let mut driver = Driver::new();
    let id = ChannelId::new();
    assert!(matches!(
        driver.handle(UiCommand::SetRts(id, true)),
        Step::Forward(UiCommand::SetRts(_, true))
    ));
    assert!(matches!(driver.handle(UiCommand::Shutdown), Step::Shutdown));
    assert!(matches!(driver.handle(UiCommand::Stop(id)), Step::Stop(_)));
}

#[test]
fn a_saved_profile_has_the_channels_that_are_there() {
    let profile = workspace_profile(Some("bench"), vec![Some(udp(1)), None, Some(udp(2))]);
    assert_eq!(profile.name, "bench");
    assert_eq!(profile.channels, [udp(1), udp(2)]);
    let mut driver = Driver::new();
    assert!(matches!(
        driver.settle(Outcome::Saved(Some("bench.toml".to_string()), Ok(()))),
        Some(UiUpdate::ProfileSaved(Some(name))) if name == "bench.toml"
    ));
    assert!(matches!(
        driver.settle(Outcome::Saved(None, Err("disk full".to_string()))),
        Some(UiUpdate::ProfileError(text)) if text == "save failed: disk full"
    ));
}

#[test]
fn rows_show_the_channels() {
    let (app, ids) = app_with(&[1, 2]);
    let rows = channel_rows(&app.state);
    assert_eq!(rows.len(), 2);
    assert_eq!(rows[1].id, ids[1]);
    assert_eq!(rows[1].name, "c1");
    assert_eq!(rows[0].status, ChannelStatus::Stopped);
    assert_eq!(count_text(3, "warn"), "3 warn");
}

#[test]
fn the_log_leads_with_its_latest_entry() {
    assert_eq!(
        diagnostics_headline(&vec![]),
        ("no diagnostics yet".to_string(), Accent::Idle)
    );
    let entries = vec![
        Diagnostic::at(DiagnosticSeverity::Error, "bind failed", 1),
        Diagnostic::at(DiagnosticSeverity::Event, "x: up: really", 2),
    ];
    assert_eq!(
        diagnostics_headline(&entries),
        ("INFO  x: up".to_string(), Accent::Event)
    );
    assert_eq!(
        diagnostics_counts(1, 0, 2),
        "(1 info \u{b7} 0 warn \u{b7} 2 err)"
    );
    assert_eq!(filter_label("Info", 1), "Info (1)");
}

#[test]
fn the_log_follows_its_filters() {
    let entries = vec![
        Diagnostic::at(DiagnosticSeverity::Event, "a", 1),
        Diagnostic::at(DiagnosticSeverity::Warning, "b", 2),
        Diagnostic::at(DiagnosticSeverity::Error, "c", 3),
    ];
    let shown = |info: bool, warn: bool, error: bool| -> Vec<String> {
        shown_log(&entries, LogFilter { info, warn, error })
            .iter()
            .map(|d| d.message.clone())
            .collect()
    };
    assert_eq!(shown(true, true, true), ["c", "b", "a"]);
    assert_eq!(shown(true, false, true), ["c", "a"]);
    assert_eq!(shown(false, false, false), Vec::<String>::new());
    assert_eq!(
        log_line("12:00:00.000", &entries[1]),
        "12:00:00.000  WARN   b"
    );
}

#[test]
fn match_firings_are_listed_newest_first() {
    let firing = |n: u64| TriggeredMatch {
        rule_id: MatchRuleId(0xabcd_0000_u128 << 96),
        byte_offset: if n == 24 { None } else { Some(n) },
        view_offset: None,
        mark: None,
    };
    let lines = match_lines(&(0..25).map(firing).collect());
    assert_eq!(lines.len(), 20);
    assert_eq!(lines[0], "(idle)  rule abcd0000");
    assert_eq!(lines[1], "@23  rule abcd0000");
    assert_eq!(boundary_note(0), None);
    assert!(boundary_note(1).unwrap().contains("1 match spanned"));
    assert!(boundary_note(2).unwrap().contains("2 matches spanned"));
}

#[test]
fn a_recording_is_begun_with_what_is_on_screen() {
    let (mut app, ids) = app_with(&[1]);
    let id = ids[0];
    let button = |app: &ListenerApp, status, recording| {
        record_button(app, id, status, recording, RecordingTap::Raw)
    };
    assert!(button(&app, ChannelStatus::Stopped, None).is_none());
    let off = button(&app, ChannelStatus::Running, None).unwrap();
    assert_eq!((off.label, off.enabled), ("Record", false));
    assert_eq!(off.hint, Some("Set a destination below first"));
    let on = button(&app, ChannelStatus::Running, Some(RecordingState::Enabled)).unwrap();
    assert_eq!((on.label, on.enabled, on.hint), ("Stop", true, None));
    app.sync_edit_draft(id);
    if let Some((_, draft)) = &mut app.edit_draft {
        draft.raw_recording.destination = Some("/x".to_string());
    }
    assert!(button(&app, ChannelStatus::Running, None).unwrap().enabled);
    assert!(matches!(
        record_command(&app, id, None, RecordingTap::Raw),
        UiCommand::SetRecording(_, true, rec) if rec.destination.as_deref() == Some("/x")
    ));
    assert!(matches!(
        record_command(&app, id, Some(RecordingState::Enabled), RecordingTap::Display),
        UiCommand::SetDisplayRecording(_, false, _)
    ));
}

#[test]
fn views_are_paused_and_resumed() {
    let id = ChannelId::new();
    let view = DisplayViewId::new();
    assert_eq!(first_view(&None), None);
    let mut snap = snapshot(id);
    assert_eq!(first_view(&Some(snap.clone())), None);
    snap.display_views = vec![DisplayViewState {
        id: view,
        paused: true,
    }];
    assert_eq!(first_view(&Some(snap)), Some((view, true)));
    assert!(matches!(
        pause_command(id, view, true),
        UiCommand::ResumeDisplay(_, _)
    ));
    assert!(matches!(
        pause_command(id, view, false),
        UiCommand::PauseDisplay(_, _)
    ));
    assert_eq!(stream_note(true), "no data received yet");
    assert!(stream_note(false).starts_with("waiting"));
}

#[test]
fn a_serial_channel_in_trouble_asks_about_its_port() {
    let mut app = ListenerApp::new(Vec::new());
    let id = ChannelId::new();
    let mut config = serial_template();
    if let InterfaceConfig::Serial(serial) = &mut config.interface {
        serial.port = "COM9".to_string();
    }
    app.take_update(UiUpdate::ChannelAdded(
        id,
        "s".to_string(),
        String::new(),
        config,
    ));
    assert_eq!(port_in_question(app.state.channel(id).unwrap()), None);
    app.take_update(UiUpdate::Event(RuntimeEvent::ChannelFaulted(id)));
    assert_eq!(
        port_in_question(app.state.channel(id).unwrap()).as_deref(),
        Some("COM9")
    );
}

#[test]
fn run_summaries_read_as_lines() {
    let mut run = ListenerRunSummary {
        started: 0,
        finished: 1_000_000,
        elapsed: 1_000_000_000,
        total_bytes: 2000,
        chunk_count: 3,
        ingest_queue: QueueDepth {
            current: 0,
            peak: 4,
            capacity: 8,
        },
        diagnostics_warnings: 1,
        diagnostics_errors: 2,
        final_snapshot_complete: true,
    };
    assert_eq!(
        run_heading(&run, "1 s", "2 kB"),
        "Last completed run \u{b7} 1 s \u{b7} 2 kB \u{b7} 3 chunks"
    );
    assert_eq!(run_times("0:00", "0:01"), "Started 0:00 \u{b7} finished 0:01");
    assert_eq!(
        run_pressure(&run),
        "Ingest queue peak 4/8 \u{b7} 1 warnings \u{b7} 2 errors"
    );
    let (mut app, ids) = app_with(&[1]);
    assert_eq!(last_run(app.state.channel(ids[0]).unwrap()), None);
    let mut reported = snapshot(ids[0]);
    reported.last_run_summary = Some(run);
    app.take_update(UiUpdate::Snapshot(ids[0], reported));
    assert_eq!(last_run(app.state.channel(ids[0]).unwrap()), Some(run));
    run.final_snapshot_complete = false;
    assert!(run_pressure(&run).ends_with("final snapshot incomplete"));
    assert_eq!(
        received_line("2 kB", "1 kB/s"),
        "Received: 2 kB    Throughput: 1 kB/s"
    );
}

#[test]
fn the_pane_shows_the_selected_channel() {
    let mut app = ListenerApp::new(Vec::new());
    assert!(matches!(show_detail(&mut app), DetailPane::NoSelection));
    app.selected = Some(ChannelId::new());
    assert!(matches!(show_detail(&mut app), DetailPane::Gone));

    let (mut app, ids) = app_with(&[0]);
    app.take_update(UiUpdate::Event(RuntimeEvent::ChannelStarted(ids[0])));
    app.take_update(UiUpdate::ChannelError(ids[0], "lost".to_string()));
    match show_detail(&mut app) {
        DetailPane::Channel(header) => {
            assert_eq!(header.id, ids[0]);
            assert_eq!(header.start, ("Start Channel", false));
            assert!(header.stop);
            assert_eq!(header.error.as_deref(), Some("\u{26A0} lost"));
            assert_eq!(header.port, None);
            assert!(header.open_config);
        }
        other => panic!("expected the channel, got {other:?}"),
    }
    app.edit_draft = Some((ids[0], udp(5)));
    match show_detail(&mut app) {
        DetailPane::Channel(header) => {
            assert_eq!(header.start, ("Apply & Restart", true));
            assert!(!header.open_config, "the section is opened once");
        }
        other => panic!("expected the channel, got {other:?}"),
    }
}

#[test]
fn view_settings_are_edited() {
    let (app, ids) = app_with(&[1]);
    let mut prefs = app.state.channel(ids[0]).unwrap().view_prefs.clone();
    prefs.mode = DisplayMode::Hex;
    let before = prefs.chars;
    edit_view(&mut prefs, &ViewEdit::Chars(CharacterRendering::HexEscape));
    assert_eq!(prefs.chars, before, "only Raw mode offers it");
    edit_view(&mut prefs, &ViewEdit::Mode(DisplayMode::Raw));
    edit_view(&mut prefs, &ViewEdit::Chars(CharacterRendering::HexEscape));
    assert_eq!(prefs.chars, CharacterRendering::HexEscape);
    let size = |points: f32| FontSize {
        bits: points.to_bits(),
    };
    edit_view(&mut prefs, &ViewEdit::FontPreset(size(20.0)));
    assert_eq!(prefs.font_text, "20");
    edit_view(&mut prefs, &ViewEdit::FontText("x".to_string(), None));
    assert_eq!(prefs.font_size, size(20.0));
    assert_eq!(prefs.font_text, "x");
    edit_view(
        &mut prefs,
        &ViewEdit::FontText("18".to_string(), Some(size(18.0))),
    );
    assert_eq!(prefs.font_size, size(18.0));
    edit_view(&mut prefs, &ViewEdit::Colors(ColorScheme::AmberOnBlack));
    edit_view(&mut prefs, &ViewEdit::Mono(MonoFont::JetBrains));
    edit_view(&mut prefs, &ViewEdit::ScrollBuffer(8));
    assert_eq!(prefs.scroll_buffer_bytes, 8192);
    edit_view(&mut prefs, &ViewEdit::ScrollBuffer(usize::MAX));
    assert_eq!(prefs.scroll_buffer_bytes, 256 * 1024);
    let view = stream_view(&prefs);
    assert_eq!(view.mode, DisplayMode::Raw);
    assert_eq!(view.render_text(b"a\n"), "a<0A>");
}

#[test]
fn the_rows_of_a_channel_follow_its_stream() {
    let (mut app, ids) = app_with(&[1]);
    let feed = |app: &mut ListenerApp, base: u64, bytes: &[u8]| {
        app.take_update(UiUpdate::StreamDelta(
            ids[0],
            StreamDelta {
                base_offset: base,
                bytes: bytes.to_vec(),
                end_offset: base + bytes.len() as u64,
            },
        ));
    };
    let view = stream_view(&app.state.channel(ids[0]).unwrap().view_prefs);
    let mut cache = None;
    feed(&mut app, 0, b"one\ntw");
    refresh_stream_rows(&app.state, &mut cache, ids[0], &view, 80);
    assert_eq!(cache.as_ref().unwrap().rows, ["one", "tw"]);
    feed(&mut app, 6, b"o\n");
    refresh_stream_rows(&app.state, &mut cache, ids[0], &view, 80);
    assert_eq!(cache.as_ref().unwrap().rows, ["one", "two", ""]);
    refresh_stream_rows(&app.state, &mut cache, ChannelId::new(), &view, 80);
    assert!(cache.is_none());
}

#[test]
fn loading_a_missing_profile_errors_without_touching_the_workspace() {
    let mut driver = Driver::new();
    let id = ChannelId::new();
    driver.settle(Outcome::Added(id, udp(9000)));
    let step = driver.handle(UiCommand::LoadProfile("listener-no-such-profile.toml".to_string()));
    assert!(matches!(step, Step::Load(_)));
    let reply = driver.settle(Outcome::LoadFailed("No such file or directory".to_string()));
    assert!(matches!(reply, Some(UiUpdate::ProfileError(_))));
    assert_eq!(driver.channels, [id]);
}
