//! Command line, profiles and their validation.

use listener::cli::{build_channel_configs, format_event, Cli, NoSource};
use listener::config::schema::{
    ChannelConfig, DefaultConfig, InterfaceConfig, MatchAction, MatchCondition, MatchRule,
    RetentionConfig, UdpMode,
};
use listener::config::templates::{serial_template, tcp_listener_template, udp_template};
use listener::config::validate::{
    channel_warnings, validate_channel, ChannelConfigError, ConfigError, Profile, CURRENT_VERSION,
};
use listener::model::command::{RecordingTap, RuntimeEvent};
use listener::model::ids::{ChannelId, ChannelName, MatchRuleId};
use listener::model::state::ChannelKind;

fn base_cli() -> Cli {
    Cli {
        profile: None,
        udp: None,
        tcp: None,
        serial: None,
        baud: 9600,
        gui: false,
        cli: false,
    }
}

#[test]
fn bare_invocation_defaults_to_the_gui() {
    let cli = base_cli();
    assert!(cli.wants_gui());
    assert!(cli.is_bare_launch());
}

#[test]
fn a_source_flag_selects_headless() {
    let cli = Cli {
        udp: Some(9000),
        ..base_cli()
    };
    assert!(!cli.wants_gui());
    assert!(!cli.is_bare_launch());
}

#[test]
fn explicit_flags_override_the_default() {
    let gui = Cli {
        gui: true,
        ..base_cli()
    };
    assert!(gui.wants_gui());
    assert!(!gui.is_bare_launch());

    let headless = Cli {
        cli: true,
        ..base_cli()
    };
    assert!(!headless.wants_gui());
    assert!(!headless.is_bare_launch());

    let gui_with_source = Cli {
        gui: true,
        udp: Some(9000),
        ..base_cli()
    };
    assert!(gui_with_source.wants_gui());
}

#[test]
fn udp_quick_start_sets_the_port() {
    let cli = Cli {
        udp: Some(9000),
        ..base_cli()
    };
    let configs = build_channel_configs(&cli, None).unwrap();
    assert_eq!(configs.len(), 1);
    match &configs[0].interface {
        InterfaceConfig::Udp(udp) => assert_eq!(udp.port, 9000),
        other => panic!("expected UDP, got {other:?}"),
    }
}

#[test]
fn serial_quick_start_sets_port_and_baud() {
    let cli = Cli {
        serial: Some("COM7".to_string()),
        baud: 4800,
        ..base_cli()
    };
    let configs = build_channel_configs(&cli, None).unwrap();
    match &configs[0].interface {
        InterfaceConfig::Serial(serial) => {
            assert_eq!(serial.port, "COM7");
            assert_eq!(serial.baud_rate, 4800);
        }
        other => panic!("expected serial, got {other:?}"),
    }
}

#[test]
fn no_source_is_an_error() {
    assert!(build_channel_configs(&base_cli(), None).is_err());
}

#[test]
fn profile_loads_valid_channels_and_skips_invalid() {
    let mut profile = Profile::new("test workspace");
    let mut good = udp_template();
    good.name = ChannelName::new("Good");
    let mut bad = udp_template();
    bad.name = ChannelName::new("Bad");
    bad.retention = RetentionConfig::default();
    profile.channels = vec![good, bad];

    let cli = Cli {
        profile: Some("workspace.toml".to_string()),
        ..base_cli()
    };
    let configs = build_channel_configs(&cli, Some(&profile)).unwrap();
    assert_eq!(configs.len(), 1);
    assert_eq!(configs[0].name.as_str(), "Good");
}

#[test]
fn empty_byte_pattern_match_rule_is_rejected() {
    let mut channel = udp_template();
    channel.match_rules = vec![MatchRule {
        name: "everything".to_string(),
        condition: MatchCondition::BytePattern { pattern: vec![] },
        actions: vec![MatchAction::Mark { timestamp: None }],
        enabled: true,
    }];
    let errs = validate_channel(&channel, &DefaultConfig::default()).unwrap_err();
    assert!(errs.contains(&ChannelConfigError::EmptyMatchPattern));

    channel.match_rules[0].condition = MatchCondition::BytePattern {
        pattern: b"GGA".to_vec(),
    };
    assert!(validate_channel(&channel, &DefaultConfig::default()).is_ok());
}

#[test]
fn templates_are_valid() {
    let mut profile = Profile::new("templates");
    profile.channels = vec![
        serial_template(),
        udp_template(),
        tcp_listener_template(),
    ];
    for (name, result) in profile.validate() {
        assert!(result.is_ok(), "{name} should be valid: {result:?}");
    }
}

#[test]
fn newer_schema_version_is_refused() {
    let mut profile = Profile::new("x");
    profile.schema_version = CURRENT_VERSION + 1;
    assert!(matches!(
        profile.check_version(),
        Err(ConfigError::SchemaTooNew { .. })
    ));
}

#[test]
fn older_schema_version_is_refused() {
    let mut profile = Profile::new("x");
    profile.schema_version = 0;
    assert!(matches!(
        profile.check_version(),
        Err(ConfigError::SchemaTooOld { .. })
    ));
}

#[test]
fn unbounded_retention_is_rejected() {
    let mut channel = udp_template();
    channel.retention = RetentionConfig::default();
    let err = validate_channel(&channel, &DefaultConfig::default()).unwrap_err();
    assert!(err.contains(&ChannelConfigError::UnboundedRetention));
}

#[test]
fn profile_default_retention_satisfies_a_channel_without_one() {
    let mut channel = udp_template();
    channel.retention = RetentionConfig::default();
    let defaults = DefaultConfig {
        retention: Some(RetentionConfig::with_byte_limit(500)),
        ..DefaultConfig::default()
    };
    assert!(validate_channel(&channel, &defaults).is_ok());
}

#[test]
fn duplicate_channel_names_are_rejected_for_every_carrier() {
    let mut profile = Profile::new("dupes");
    let mut a = udp_template();
    a.name = ChannelName::new("Feed");
    let mut b = udp_template();
    b.name = ChannelName::new("feed");
    let mut c = udp_template();
    c.name = ChannelName::new("Other");
    profile.channels = vec![a, b, c];

    let results = profile.validate();
    let dup = |name: &str| {
        results
            .iter()
            .find(|(n, _)| n == name)
            .map(|(_, r)| {
                r.as_ref()
                    .err()
                    .is_some_and(|e| e.contains(&ChannelConfigError::DuplicateChannelName))
            })
            .unwrap()
    };
    assert!(dup("Feed"), "both duplicate carriers are flagged");
    assert!(dup("feed"), "both duplicate carriers are flagged");
    assert!(!dup("Other"), "the unique name stays valid");
}

#[test]
fn kind_interface_mismatch_is_caught() {
    let mut channel = udp_template();
    channel.kind = ChannelKind::Serial;
    let err = validate_channel(&channel, &DefaultConfig::default()).unwrap_err();
    assert!(err.contains(&ChannelConfigError::KindInterfaceMismatch));
}

#[test]
fn profiles_never_carry_tcp_connection_channels() {
    let mut channel = tcp_listener_template();
    channel.kind = ChannelKind::TcpConnection;
    let err = validate_channel(&channel, &DefaultConfig::default()).unwrap_err();
    assert!(err.contains(&ChannelConfigError::TcpConnectionNotPersistable));
}

#[test]
fn a_blank_multicast_group_is_rejected() {
    let mut channel = udp_template();
    if let InterfaceConfig::Udp(udp) = &mut channel.interface {
        udp.mode = UdpMode::Multicast;
        udp.multicast_group = Some("  ".to_string());
    }
    let err = validate_channel(&channel, &DefaultConfig::default()).unwrap_err();
    assert_eq!(err, [ChannelConfigError::MissingMulticastGroup]);
}

#[test]
fn a_rotating_recording_needs_a_safe_name() {
    let mut channel = udp_template();
    channel.name = ChannelName::new("a/b");
    channel.raw_recording.file_rotation =
        listener::config::schema::FileRotationPolicy::Daily;
    assert!(validate_channel(&channel, &DefaultConfig::default()).is_ok());
    channel.raw_recording.enabled = true;
    let err = validate_channel(&channel, &DefaultConfig::default()).unwrap_err();
    assert_eq!(err, [ChannelConfigError::InvalidChannelName]);
    assert!(channel_warnings(&channel).is_empty());
}

#[test]
fn channels_of_a_profile_are_judged_one_by_one() {
    let mut bad = udp_template();
    bad.retention = RetentionConfig::default();
    bad.name = ChannelName::new("bad");
    let mut profile = Profile::new("p");
    profile.channels = vec![bad, tcp_listener_template()];
    let results = profile.validate();
    assert!(results[0].1.is_err());
    assert!(results[1].1.is_ok());
    let valid: Vec<ChannelConfig> = profile.valid_channels();
    assert_eq!(valid.len(), 1);
    assert_eq!(valid[0].name.as_str(), "TCP_Listener");
}

#[test]
fn errors_read_as_text() {
    let mut profile = Profile::new("p");
    assert_eq!(profile.check_version(), Ok(()));
    profile.schema_version = CURRENT_VERSION + 1;
    assert_eq!(
        profile.check_version().unwrap_err().to_string(),
        "profile schema version 4 is newer than this build supports (3)"
    );
    profile.schema_version = 1;
    assert_eq!(
        profile.check_version().unwrap_err().to_string(),
        "profile schema version 1 is older than 3 and has no migration"
    );
    assert_eq!(
        ConfigError::Io("x".to_string()).to_string(),
        "config I/O error: x"
    );
    assert_eq!(
        ConfigError::Parse("x".to_string()).to_string(),
        "profile parse error: x"
    );
    assert_eq!(
        ConfigError::Serialize("x".to_string()).to_string(),
        "profile serialize error: x"
    );
    for e in [
        ChannelConfigError::KindInterfaceMismatch,
        ChannelConfigError::TcpConnectionNotPersistable,
        ChannelConfigError::MissingMulticastGroup,
        ChannelConfigError::UnboundedRetention,
        ChannelConfigError::InvalidChannelName,
        ChannelConfigError::DuplicateChannelName,
        ChannelConfigError::EmptyMatchPattern,
    ] {
        assert!(!e.to_string().is_empty());
    }
}

#[test]
fn tcp_quick_start_sets_the_port() {
    let cli = Cli {
        tcp: Some(4001),
        serial: Some("COM1".to_string()),
        ..base_cli()
    };
    let configs = build_channel_configs(&cli, None).unwrap();
    match &configs[0].interface {
        InterfaceConfig::TcpListener(tcp) => assert_eq!(tcp.port, 4001),
        other => panic!("expected TCP, got {other:?}"),
    }
}

#[test]
fn a_missing_source_names_the_flags() {
    assert_eq!(
        NoSource.to_string(),
        "specify --profile, --udp, --tcp, or --serial (see --help)"
    );
}

#[test]
fn only_a_bare_launch_is_pointed_to_headless_mode() {
    assert_eq!(
        base_cli().gui_failure("no display"),
        "could not open the graphical interface (no display); for headless use pass a source \
         (--udp/--tcp/--serial/--profile), or run with --cli"
    );
    let asked = Cli {
        gui: true,
        ..base_cli()
    };
    assert_eq!(asked.gui_failure("no display"), "no display");
}

#[test]
fn events_read_as_lines() {
    let id = ChannelId(1);
    let line = |what: &str| format!("[00000000-0000-0000-0000-000000000001] {what}");
    assert_eq!(
        format_event(&RuntimeEvent::ChannelStarted(id)),
        line("started")
    );
    assert_eq!(
        format_event(&RuntimeEvent::ReceptionStalled(id, 2_500_000)),
        line("reception stalled 2 ms")
    );
    assert_eq!(
        format_event(&RuntimeEvent::ChannelReconnecting(id, 3)),
        line("reconnecting (attempt 3)")
    );
    assert_eq!(
        format_event(&RuntimeEvent::RecordingFaulted(id, RecordingTap::Raw)),
        line("recording faulted")
    );
    assert_eq!(
        format_event(&RuntimeEvent::MatchTriggered(id, MatchRuleId(2))),
        line("match rule 00000000-0000-0000-0000-000000000002 fired")
    );
}
