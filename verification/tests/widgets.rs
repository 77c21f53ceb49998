//! Controls and editors.

use listener::config::schema::{
    DataBits, FileRotationPolicy, FlowControl, FontSize, InterfaceConfig, MarkPosition,
    MarkTimestamp, MarkTimestampStyle, MatchAction, MatchCondition, MatchRule, OverwritePolicy,
    Parity, RecordingConfig, StopBits, UdpMode,
};
use listener::config::templates::{serial_template, tcp_listener_template, udp_template};
use listener::diagnostics::Diagnostic;
use listener::gui::editors::{
    destination_label, destination_warning, edit_interface, edit_recording, refuse_hint,
    InterfaceEdit, RecordingEdit,
};
use listener::gui::escape::{format_escaped_bytes, parse_escaped_bytes};
use listener::gui::mark_rules::{
    edit_mark_rules, is_mark_timestamp_rule, mark_rows, MarkEdit, MarkRulesEdit,
};
use listener::gui::snapshot::DiagnosticsSnapshot;
use listener::gui::state::ChannelStatus;
use listener::gui::view_prefs::{
    clamp_scroll_buffer, scroll_buffer_label, scroll_buffer_presets_kb, ColorScheme, Rgb,
};
use listener::gui::widgets::{
    baud_rates, bind_hint, config_differs_ignoring_name, config_incomplete, config_needs_restart,
    data_bits_label, flow_control_label, latest_diagnostic, line_glyph, line_label,
    line_toggle_hint, optional_field, parity_label, plan_config_commit, port_text,
    recording_indicator, scrollbar_colors, serial_port_label, short_id, shows_group, start_button,
    status_color, status_glyph, status_label, step_port, stop_bits_label, stop_enabled,
    template_for, truncate, Accent, AddKind, CommitStep,
};
use listener::model::ids::ChannelName;
use listener::model::state::RecordingState;
use listener::model::timing::TimestampConfig;

#[test]
fn truncate_keeps_short_strings_and_clips_long_ones_on_char_boundaries() {
    assert_eq!(truncate("short", 70), "short");
    assert_eq!(truncate("abcdef", 4), "abc\u{2026}");
    let s = "ééééééé";
    let out = truncate(s, 4);
    assert_eq!(out.chars().count(), 4);
    assert!(out.ends_with('\u{2026}'));
}

#[test]
fn widgets_config_incomplete_flags_missing_port_or_serial_device() {
    let mut udp = udp_template();
    if let InterfaceConfig::Udp(u) = &mut udp.interface {
        u.port = 18180;
    }
    assert!(!config_incomplete(&udp));
    if let InterfaceConfig::Udp(u) = &mut udp.interface {
        u.port = 0;
    }
    assert!(config_incomplete(&udp));

    let serial = serial_template();
    assert!(config_incomplete(&serial));
}

#[test]
fn widgets_start_button_reflects_state_and_pending_edits() {
    assert_eq!(
        start_button(ChannelStatus::Stopped, false),
        ("Start Channel", true)
    );
    assert_eq!(
        start_button(ChannelStatus::Running, false),
        ("Start Channel", false)
    );
    assert_eq!(
        start_button(ChannelStatus::Running, true),
        ("Apply & Restart", true)
    );
    assert_eq!(
        start_button(ChannelStatus::Faulted, false),
        ("Retry Channel", true)
    );
    assert_eq!(
        start_button(ChannelStatus::Faulted, true),
        ("Retry Channel", true)
    );
    assert_eq!(
        start_button(ChannelStatus::Reconnecting, false),
        ("Start Channel", false)
    );
}

#[test]
fn widgets_stop_enabled_only_for_stoppable_states() {
    assert!(stop_enabled(ChannelStatus::Running));
    assert!(stop_enabled(ChannelStatus::Faulted));
    assert!(stop_enabled(ChannelStatus::Reconnecting));
    assert!(!stop_enabled(ChannelStatus::Stopped));
}

#[test]
fn widgets_recording_indicator_maps_state_to_label() {
    assert_eq!(
        recording_indicator(Some(RecordingState::Enabled)).2,
        "recording"
    );
    assert_eq!(
        recording_indicator(Some(RecordingState::Faulted)).2,
        "faulted"
    );
    assert_eq!(recording_indicator(Some(RecordingState::Disabled)).2, "off");
    assert_eq!(recording_indicator(None).2, "off");
}

#[test]
fn config_commit_sequences_by_state() {
    assert_eq!(
        plan_config_commit(ChannelStatus::Running, false),
        Some(vec![CommitStep::Stop, CommitStep::Reconfigure, CommitStep::Start])
    );
    assert_eq!(
        plan_config_commit(ChannelStatus::Stopped, false),
        Some(vec![CommitStep::Reconfigure, CommitStep::Start])
    );
    for s in [ChannelStatus::Faulted, ChannelStatus::Reconnecting] {
        assert_eq!(
            plan_config_commit(s, false),
            Some(vec![CommitStep::Stop, CommitStep::Reconfigure, CommitStep::Start]),
            "{s:?}"
        );
    }
    for s in [
        ChannelStatus::Running,
        ChannelStatus::Stopped,
        ChannelStatus::Faulted,
        ChannelStatus::Reconnecting,
    ] {
        assert_eq!(plan_config_commit(s, true), None, "{s:?}");
    }
}

#[test]
fn config_change_detection_ignores_the_name() {
    let base = udp_template();
    assert!(!config_differs_ignoring_name(&base, &base));
    let mut renamed = base.clone();
    renamed.name = ChannelName::new("different");
    assert!(!config_differs_ignoring_name(&renamed, &base));
    let mut edited = base.clone();
    edited.raw_recording.destination = Some("/tmp/x.raw".to_string());
    assert!(config_differs_ignoring_name(&edited, &base));
}

#[test]
fn latest_diagnostic_headlines_errors_then_warnings_then_events() {
    let mut diag = DiagnosticsSnapshot::default();
    assert_eq!(latest_diagnostic(&diag).0, "no activity yet");

    diag.events.push(Diagnostic::event("connected"));
    assert_eq!(latest_diagnostic(&diag).0, "connected");

    diag.warnings.push(Diagnostic::warning("checksum"));
    assert_eq!(latest_diagnostic(&diag).0, "checksum");

    diag.errors.push(Diagnostic::error("bind failed"));
    assert_eq!(latest_diagnostic(&diag).0, "bind failed");
    diag.errors.push(Diagnostic::error("port lost"));
    assert_eq!(latest_diagnostic(&diag).0, "port lost");
}

#[test]
fn add_menu_defines_the_shared_transport_order() {
    assert_eq!(
        AddKind::add_menu().map(AddKind::label),
        ["UDP", "TCP", "Serial"]
    );
}

#[test]
fn mod_config_incomplete_flags_missing_port_or_serial_device() {
    let mut udp = udp_template();
    if let InterfaceConfig::Udp(u) = &mut udp.interface {
        u.port = 18180;
    }
    assert!(!config_incomplete(&udp));
    if let InterfaceConfig::Udp(u) = &mut udp.interface {
        u.port = 0;
    }
    assert!(config_incomplete(&udp));

    let serial = serial_template();
    assert!(config_incomplete(&serial));
}

#[test]
fn mod_start_button_reflects_state_and_pending_edits() {
    assert_eq!(
        start_button(ChannelStatus::Stopped, false),
        ("Start Channel", true)
    );
    assert_eq!(
        start_button(ChannelStatus::Running, false),
        ("Start Channel", false)
    );
    assert_eq!(
        start_button(ChannelStatus::Running, true),
        ("Apply & Restart", true)
    );
    assert_eq!(
        start_button(ChannelStatus::Faulted, false),
        ("Retry Channel", true)
    );
    assert_eq!(
        start_button(ChannelStatus::Faulted, true),
        ("Retry Channel", true)
    );
    assert_eq!(
        start_button(ChannelStatus::Reconnecting, false),
        ("Start Channel", false)
    );
}

#[test]
fn mod_stop_enabled_only_for_stoppable_states() {
    assert!(stop_enabled(ChannelStatus::Running));
    assert!(stop_enabled(ChannelStatus::Faulted));
    assert!(stop_enabled(ChannelStatus::Reconnecting));
    assert!(!stop_enabled(ChannelStatus::Stopped));
}

#[test]
fn mod_recording_indicator_maps_state_to_label() {
    assert_eq!(
        recording_indicator(Some(RecordingState::Enabled)).2,
        "recording"
    );
    assert_eq!(
        recording_indicator(Some(RecordingState::Faulted)).2,
        "faulted"
    );
    assert_eq!(
        recording_indicator(Some(RecordingState::Disabled)).2,
        "off"
    );
    assert_eq!(recording_indicator(None).2, "off");
}

#[test]
fn config_change_detection_excludes_live_applied_fields() {
    let base = udp_template();
    assert!(!config_needs_restart(&base, &base));

    let mut unnumbered = base.clone();
    unnumbered.reconnect.multiplier.bits = f64::NAN.to_bits();
    assert!(config_needs_restart(&unnumbered, &unnumbered));
    assert!(config_differs_ignoring_name(&unnumbered, &unnumbered));
    let mut zero = base.clone();
    let mut minus_zero = base.clone();
    zero.reconnect.multiplier.bits = 0.0f64.to_bits();
    minus_zero.reconnect.multiplier.bits = (-0.0f64).to_bits();
    assert!(!config_needs_restart(&zero, &minus_zero));

    let mut renamed = base.clone();
    renamed.name = ChannelName::new("different");
    assert!(!config_needs_restart(&renamed, &base));

    let mut raw = base.clone();
    raw.raw_recording.destination = Some("/tmp/x.raw".to_string());
    raw.raw_recording.file_rotation = FileRotationPolicy::Hourly;
    assert!(
        !config_needs_restart(&raw, &base),
        "editing raw recording must not require an Apply & Restart"
    );

    let mut disp = base.clone();
    disp.display_recording.destination = Some("/tmp/x.disp".to_string());
    disp.display_recording.enabled = true;
    assert!(
        !config_needs_restart(&disp, &base),
        "editing display recording must not require an Apply & Restart"
    );

    let mut view = base.clone();
    view.retention.byte_limit = Some(256 * 1024);
    if let Some(v) = view.display.views.first_mut() {
        v.font_size = Some(FontSize { bits: 20.0f32.to_bits() });
    }
    assert!(!config_needs_restart(&view, &base));

    let mut iface = base.clone();
    if let InterfaceConfig::Udp(udp) = &mut iface.interface {
        udp.port = udp.port.wrapping_add(1);
    }
    assert!(config_needs_restart(&iface, &base));
}

#[test]
fn recognizes_only_single_timestamped_mark_rules() {
    let mut rule = MatchRule {
        name: "m".into(),
        condition: MatchCondition::BytePattern {
            pattern: b"$".to_vec(),
        },
        actions: vec![MatchAction::Mark {
            timestamp: Some(MarkTimestamp {
                position: MarkPosition::Before,
                style: Default::default(),
                format: TimestampConfig::default(),
                separator: String::new(),
            }),
        }],
        enabled: true,
    };
    assert!(is_mark_timestamp_rule(&rule));

    rule.actions = vec![MatchAction::Mark { timestamp: None }];
    assert!(!is_mark_timestamp_rule(&rule));

    rule.condition = MatchCondition::Idle { timeout_ms: 1000 };
    assert!(!is_mark_timestamp_rule(&rule));
}

#[test]
fn hex_escapes_parse_to_bytes_and_incomplete_ones_stay_literal() {
    assert_eq!(parse_escaped_bytes("$GPGGA"), b"$GPGGA");
    assert_eq!(parse_escaped_bytes("GGA<0D><0A>"), b"GGA\r\n");
    assert_eq!(parse_escaped_bytes("a<0d>b"), b"a\rb");
    assert_eq!(parse_escaped_bytes("<FF>"), &[0xFF]);
    assert_eq!(parse_escaped_bytes("<0"), b"<0");
    assert_eq!(parse_escaped_bytes("<ZZ>"), b"<ZZ>");
    assert_eq!(parse_escaped_bytes("a<b"), b"a<b");
}

#[test]
fn format_escapes_controls_and_round_trips() {
    assert_eq!(format_escaped_bytes(b"$GPGGA\r\n"), "$GPGGA<0D><0A>");
    assert_eq!(format_escaped_bytes(&[0x00, 0x7F]), "<00><7F>");
    assert_eq!(format_escaped_bytes(&[0xFF]), "<FF>");
    assert_eq!(format_escaped_bytes(" ok".as_bytes()), " ok");

    for bytes in [
        &b"$GPGGA\r\n"[..],
        &[0x00, 0x1F, 0x7F, 0xFF],
        "aéb".as_bytes(),
        b"$GP<0",
    ] {
        assert_eq!(
            parse_escaped_bytes(&format_escaped_bytes(bytes)),
            bytes,
            "round trip failed for {bytes:?}"
        );
    }
}

#[test]
fn ignores_channels_with_unrelated_rules() {
    let channel = udp_template();
    assert!(!channel.match_rules.iter().any(is_mark_timestamp_rule));
}

#[test]
fn control_line_levels_differ_without_colour() {
    let high = line_glyph(true);
    let low = line_glyph(false);
    assert_ne!(
        high, low,
        "high and low would read identically in greyscale"
    );
    assert!(!high.is_empty() && !low.is_empty());
    assert_eq!(high, "\u{25CF}");
    assert_eq!(low, "\u{25CB}");
}

#[test]
fn texts_are_cut_to_the_limit() {
    assert_eq!(truncate("ab", 0), "\u{2026}");
    assert_eq!(truncate("ab", 1), "\u{2026}");
    assert_eq!(truncate("ab", 2), "ab");
    assert_eq!(short_id("0123-45-6"), "0123");
    assert_eq!(short_id("none"), "none");
}

#[test]
fn each_status_has_its_own_symbol_and_color() {
    let all = [
        (ChannelStatus::Stopped, "\u{25A0}", Accent::Idle, "stopped"),
        (ChannelStatus::Running, "\u{25CF}", Accent::Running, "running"),
        (ChannelStatus::Faulted, "\u{26A0}", Accent::Fault, "faulted"),
        (
            ChannelStatus::Reconnecting,
            "\u{25D0}",
            Accent::Warning,
            "reconnecting",
        ),
    ];
    for (status, glyph, color, label) in all {
        assert_eq!(status_glyph(status), glyph);
        assert_eq!(status_color(status), color);
        assert_eq!(status_label(status), label);
        assert!(start_button(status, false).1 || stop_enabled(status));
    }
}

#[test]
fn lines_say_their_level() {
    assert_eq!(line_label("CTS", true), "\u{25CF} CTS");
    assert_eq!(line_label("RI", false), "\u{25CB} RI");
    assert_eq!(
        line_toggle_hint("RTS", true),
        "RTS output is high \u{2014} click to set it low"
    );
    assert_eq!(
        line_toggle_hint("DTR", false),
        "DTR output is low \u{2014} click to set it high"
    );
}

#[test]
fn a_new_udp_channel_listens_to_broadcasts() {
    match template_for(AddKind::Udp).interface {
        InterfaceConfig::Udp(udp) => assert_eq!(udp.mode, UdpMode::Broadcast),
        other => panic!("expected UDP, got {other:?}"),
    }
    assert_eq!(template_for(AddKind::Tcp), tcp_listener_template());
    assert_eq!(template_for(AddKind::Serial), serial_template());
}

#[test]
fn ports_are_typed_and_stepped() {
    let mut config = udp_template();
    let mut baud = String::new();
    let port = |config: &listener::config::schema::ChannelConfig| match &config.interface {
        InterfaceConfig::Udp(udp) => udp.port,
        _ => panic!("expected UDP"),
    };
    edit_interface(&mut config, &mut baud, &InterfaceEdit::PortDown);
    assert_eq!(port(&config), 0);
    edit_interface(&mut config, &mut baud, &InterfaceEdit::PortText(" 9000 ".to_string()));
    assert_eq!(port(&config), 9000);
    edit_interface(&mut config, &mut baud, &InterfaceEdit::PortText("70000".to_string()));
    assert_eq!(port(&config), 9000);
    edit_interface(&mut config, &mut baud, &InterfaceEdit::PortUp);
    assert_eq!(port(&config), 9001);
    assert_eq!(baud, "");
    assert_eq!(port_text(0), "");
    assert_eq!(port_text(9001), "9001");
    assert_eq!(step_port(u16::MAX, true), u16::MAX);
    assert_eq!(step_port(0, false), 0);
}

#[test]
fn the_group_is_edited_in_multicast_only() {
    let mut config = udp_template();
    let mut baud = String::new();
    let group = |config: &listener::config::schema::ChannelConfig| match &config.interface {
        InterfaceConfig::Udp(udp) => udp.multicast_group.clone(),
        _ => panic!("expected UDP"),
    };
    let edit = InterfaceEdit::Group(" 239.0.0.1 ".to_string());
    edit_interface(&mut config, &mut baud, &edit);
    assert_eq!(group(&config), None);
    edit_interface(&mut config, &mut baud, &InterfaceEdit::Mode(UdpMode::Multicast));
    edit_interface(&mut config, &mut baud, &edit);
    assert_eq!(group(&config).as_deref(), Some("239.0.0.1"));
    edit_interface(&mut config, &mut baud, &InterfaceEdit::Group("  ".to_string()));
    assert_eq!(group(&config), None);
    assert!(shows_group(UdpMode::Multicast));
    assert!(!shows_group(UdpMode::Unicast));
    assert!(bind_hint(UdpMode::Multicast).contains("join the group"));
    assert_eq!(optional_field("  x "), Some("x".to_string()));
    assert_eq!(optional_field("   "), None);
}

#[test]
fn a_baud_rate_can_be_typed_digit_by_digit() {
    let mut config = serial_template();
    let mut text = "9600".to_string();
    let rate = |config: &listener::config::schema::ChannelConfig| match &config.interface {
        InterfaceConfig::Serial(serial) => serial.baud_rate,
        _ => panic!("expected serial"),
    };
    for (typed, expected) in [("2", 2), ("", 2), ("0", 2), ("25", 25), ("250000", 250000)] {
        edit_interface(
            &mut config,
            &mut text,
            &InterfaceEdit::BaudText(typed.to_string()),
        );
        assert_eq!(rate(&config), expected);
        assert_eq!(text, typed);
    }
    edit_interface(&mut config, &mut text, &InterfaceEdit::Baud(4800));
    assert_eq!(rate(&config), 4800);
    assert_eq!(text, "4800");
    assert_eq!(
        baud_rates(),
        [4800, 9600, 19200, 38400, 57600, 115200, 230400]
    );
}

#[test]
fn serial_settings_are_picked() {
    let mut config = serial_template();
    let mut text = String::new();
    for edit in [
        InterfaceEdit::Device("COM4".to_string()),
        InterfaceEdit::DataBits(DataBits::Seven),
        InterfaceEdit::Parity(Parity::Even),
        InterfaceEdit::StopBits(StopBits::Two),
        InterfaceEdit::Flow(FlowControl::RtsCts),
        InterfaceEdit::PortUp,
    ] {
        edit_interface(&mut config, &mut text, &edit);
    }
    match &config.interface {
        InterfaceConfig::Serial(s) => {
            assert_eq!(s.port, "COM4");
            assert_eq!(s.data_bits, DataBits::Seven);
            assert_eq!(s.parity, Parity::Even);
            assert_eq!(s.stop_bits, StopBits::Two);
            assert_eq!(s.flow_control, FlowControl::RtsCts);
        }
        other => panic!("expected serial, got {other:?}"),
    }
    assert_eq!(serial_port_label(""), "select port\u{2026}");
    assert_eq!(serial_port_label("COM4"), "COM4");
    assert_eq!(data_bits_label(DataBits::Eight), "8");
    assert_eq!(parity_label(Parity::NoParity), "None");
    assert_eq!(stop_bits_label(StopBits::OnePointFive), "1.5");
    assert_eq!(flow_control_label(FlowControl::XonXoff), "Xon/Xoff");
}

#[test]
fn a_tcp_interface_takes_address_and_port() {
    let mut config = tcp_listener_template();
    let mut text = String::new();
    edit_interface(
        &mut config,
        &mut text,
        &InterfaceEdit::BindAddress("127.0.0.1".to_string()),
    );
    edit_interface(&mut config, &mut text, &InterfaceEdit::PortText("80".to_string()));
    edit_interface(&mut config, &mut text, &InterfaceEdit::KernelTimestamps(true));
    match &config.interface {
        InterfaceConfig::TcpListener(tcp) => {
            assert_eq!(tcp.bind_address, "127.0.0.1");
            assert_eq!(tcp.port, 80);
        }
        other => panic!("expected TCP, got {other:?}"),
    }
}

#[test]
fn rotation_settles_the_overwrite_policy() {
    let mut rec = RecordingConfig::default();
    assert_eq!(destination_label(rec.file_rotation), "File");
    assert!(destination_warning(&rec).is_some());
    edit_recording(&mut rec, &RecordingEdit::DestinationText(" /tmp/x ".to_string()));
    assert_eq!(rec.destination.as_deref(), Some("/tmp/x"));
    assert!(destination_warning(&rec).is_none());
    edit_recording(&mut rec, &RecordingEdit::Rotation(FileRotationPolicy::Daily));
    assert_eq!(rec.overwrite_policy, OverwritePolicy::Refuse);
    edit_recording(&mut rec, &RecordingEdit::Keep);
    assert_eq!(rec.overwrite_policy, OverwritePolicy::AppendIfExists);
    edit_recording(&mut rec, &RecordingEdit::Overwrite(OverwritePolicy::Refuse));
    assert_eq!(rec.overwrite_policy, OverwritePolicy::AppendIfExists);
    edit_recording(&mut rec, &RecordingEdit::Overwrite(OverwritePolicy::Overwrite));
    assert_eq!(rec.overwrite_policy, OverwritePolicy::Overwrite);
    assert_eq!(destination_label(rec.file_rotation), "Folder");
    assert!(refuse_hint(rec.file_rotation).starts_with("Not available"));
    edit_recording(&mut rec, &RecordingEdit::Picked("/data".to_string()));
    assert_eq!(rec.destination.as_deref(), Some("/data"));
    edit_recording(&mut rec, &RecordingEdit::DestinationText(" ".to_string()));
    assert_eq!(rec.destination, None);
}

#[test]
fn timestamp_marks_are_added_edited_and_deleted() {
    let mut config = udp_template();
    config.match_rules.push(MatchRule {
        name: "quiet".to_string(),
        condition: MatchCondition::Idle { timeout_ms: 5 },
        actions: vec![],
        enabled: true,
    });
    edit_mark_rules(&mut config, &MarkRulesEdit::AddMark);
    edit_mark_rules(&mut config, &MarkRulesEdit::AddMark);
    assert_eq!(config.match_rules[1].name, "mark 1");
    assert_eq!(config.match_rules[2].name, "mark 2");
    for edit in [
        MarkEdit::Pattern("GGA<0D>".to_string()),
        MarkEdit::Position(MarkPosition::After),
        MarkEdit::Talker("ignored".to_string()),
        MarkEdit::Zda(true),
        MarkEdit::Talker("gn*".to_string()),
        MarkEdit::IncludeMillis(true),
        MarkEdit::Separator(", <0A>".to_string()),
        MarkEdit::Enabled(false),
    ] {
        edit_mark_rules(&mut config, &MarkRulesEdit::Change(1, edit));
    }
    let rows = mark_rows(&config);
    assert_eq!(rows.len(), 2);
    assert_eq!(rows[0].index, 1);
    assert_eq!(rows[0].pattern, "GGA<0D>");
    assert!(!rows[0].empty && !rows[0].enabled);
    assert_eq!(rows[0].position, "after");
    assert_eq!(rows[0].style, "NMEA ZDA");
    assert_eq!(rows[0].talker.as_deref(), Some("GN*"));
    assert!(rows[0].talker_fault.is_some());
    assert!(rows[0].format.include_millis);
    assert_eq!(rows[0].separator, ", <0A>");
    assert!(rows[1].empty);
    assert_eq!(rows[1].style, "Time");
    assert_eq!(rows[1].talker, None);

    edit_mark_rules(&mut config, &MarkRulesEdit::Change(1, MarkEdit::Zda(false)));
    assert_eq!(mark_rows(&config)[0].talker, None);
    edit_mark_rules(&mut config, &MarkRulesEdit::Delete(0));
    assert_eq!(config.match_rules.len(), 3, "a rule of another kind stays");
    edit_mark_rules(&mut config, &MarkRulesEdit::Delete(1));
    assert_eq!(config.match_rules.len(), 2);
    edit_mark_rules(&mut config, &MarkRulesEdit::Delete(9));
    assert_eq!(config.match_rules.len(), 2);
}

#[test]
fn a_zda_mark_starts_with_the_talker_gp() {
    let mut config = udp_template();
    edit_mark_rules(&mut config, &MarkRulesEdit::AddMark);
    edit_mark_rules(&mut config, &MarkRulesEdit::Change(0, MarkEdit::Zda(true)));
    match &config.match_rules[0].actions[0] {
        MatchAction::Mark {
            timestamp: Some(ts),
        } => assert_eq!(
            ts.style,
            MarkTimestampStyle::NmeaZda {
                talker: "GP".to_string()
            }
        ),
        other => panic!("expected a mark, got {other:?}"),
    }
}

#[test]
fn escapes_that_are_no_text_become_a_replacement() {
    let mut config = udp_template();
    edit_mark_rules(&mut config, &MarkRulesEdit::AddMark);
    let edit = MarkEdit::Separator("<FF>é".to_string());
    edit_mark_rules(&mut config, &MarkRulesEdit::Change(0, edit));
    match &config.match_rules[0].actions[0] {
        MatchAction::Mark {
            timestamp: Some(ts),
        } => assert_eq!(ts.separator, "\u{FFFD}é"),
        other => panic!("expected a mark, got {other:?}"),
    }
}

#[test]
fn color_schemes_come_back_by_name() {
    for scheme in [
        ColorScheme::BlackOnWhite,
        ColorScheme::GreenOnBlack,
        ColorScheme::GreenOnBlackDim,
        ColorScheme::AmberOnBlack,
        ColorScheme::WhiteOnBlack,
    ] {
        assert_eq!(ColorScheme::from_name(&Some(scheme.name().to_string())), scheme);
    }
    assert_eq!(ColorScheme::from_name(&None), ColorScheme::BlackOnWhite);
    assert_eq!(
        ColorScheme::GreenOnBlack.fg(),
        Rgb {
            r: 60,
            g: 230,
            b: 60
        }
    );
    assert_eq!(ColorScheme::AmberOnBlack.label(), "Amber on black");
    assert_eq!(scrollbar_colors(ColorScheme::BlackOnWhite.bg()), (225, 150));
    assert_eq!(scrollbar_colors(ColorScheme::WhiteOnBlack.bg()), (95, 200));
}

#[test]
fn the_scroll_buffer_has_presets() {
    let presets = scroll_buffer_presets_kb();
    for kb in presets {
        assert_eq!(clamp_scroll_buffer(kb * 1024), kb * 1024);
    }
    assert_eq!(scroll_buffer_label(256 * 1024), "256 kB");
    assert_eq!(clamp_scroll_buffer(usize::MAX), 256 * 1024);
    assert_eq!(clamp_scroll_buffer(0), 2 * 1024);
}
