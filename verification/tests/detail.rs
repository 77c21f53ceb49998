//! Headlines, summaries and the receive diagnostics.

use listener::config::schema::{FileRotationPolicy, MatchCondition, MatchRule, OverwritePolicy};
use listener::config::templates::{serial_template, udp_template};
use listener::gui::cards::{
    callouts, card_tone, diagnostics_badge, pipeline_signal, pressure_signal,
    queue_level_reaches_half, receive_card, recent_timing_signal, timing_window, transport_signal,
    ArrivalTimestampStatus, ArrivalTimestamps, ChunkSummary, CounterAvailability, IdleTimerCounts,
    ReceiveFacts, SerialStallSummary, SignalTone, TimingSummary, TransportHealth,
};
use listener::gui::details::{has_idle_rule, receive_transport_details, Emphasis, HelpTopic};
use listener::gui::help::{
    ARRIVAL_TIMESTAMP_TOOLTIP, CHUNK_SHAPE_TOOLTIP, FINAL_SNAPSHOT_TOOLTIP,
    IDLE_RULE_TIMING_TOOLTIP, IDLE_TIMER_TOOLTIP, PIPELINE_TOOLTIP, PRESSURE_TOOLTIP,
    RAW_QUEUE_ACTIVE_TOOLTIP, RAW_QUEUE_FAULTED_TOOLTIP, SERIAL_BACKPRESSURE_TOOLTIP,
    THROUGHPUT_TOOLTIP, TRANSPORT_TOOLTIP, UDP_AVAILABLE_TOOLTIP, UDP_DROP_CALLOUT_TOOLTIP,
    UDP_UNAVAILABLE_TOOLTIP,
};
use listener::gui::phrases::{
    describe_interface, headline_phrase, profile_name_from_path, record_summary, shorten_path,
};
use listener::gui::snapshot::QueueDepth;
use listener::gui::state::ChannelStatus;
use listener::model::state::RecordingState;

#[test]
fn headline_phrase_cuts_at_natural_boundaries() {
    assert_eq!(
        headline_phrase("Raw recording started → C:\\Users\\me\\Desktop\\poop"),
        "Raw recording started"
    );
    assert_eq!(
        headline_phrase(
            "UDP_Channel3: failed to bind interface: Only one usage of each socket \
             address (os error 10048)"
        ),
        "UDP_Channel3: failed to bind interface"
    );
    assert_eq!(
        headline_phrase("recording could not start — check the destination"),
        "recording could not start"
    );
    assert_eq!(headline_phrase("connected"), "connected");
    assert_eq!(headline_phrase("  spaced  "), "spaced");
}

#[test]
fn throughput_and_final_snapshot_help_prevent_false_precision() {
    assert!(THROUGHPUT_TOOLTIP.contains("divided by five seconds"));
    assert!(THROUGHPUT_TOOLTIP.contains("full five-second denominator"));
    assert!(THROUGHPUT_TOOLTIP.contains("after Stop the rate is zero"));
    assert!(FINAL_SNAPSHOT_TOOLTIP.contains("channel's final snapshot"));
    assert!(FINAL_SNAPSHOT_TOOLTIP.contains("must not be read as measured zero"));
}

#[test]
fn timing_window_names_the_live_and_completed_windows() {
    assert_eq!(timing_window(ChannelStatus::Running), "~last 10 s");
    assert_eq!(timing_window(ChannelStatus::Stopped), "~final 10 s");
}
#[test]
fn active_queue_pressure_preserves_the_existing_half_capacity_reference() {
    assert!(!queue_level_reaches_half(4, 10));
    assert!(queue_level_reaches_half(5, 10));
    assert!(!queue_level_reaches_half(1, 3));
    assert!(queue_level_reaches_half(2, 3));
    assert!(!queue_level_reaches_half(0, 0));
}

#[test]
fn transport_signal_names_kernel_counter_scope_without_claiming_no_loss() {
    let cases = [
        (
            CounterAvailability::Available(0),
            "Kernel drops reported 0",
            SignalTone::Neutral,
        ),
        (
            CounterAvailability::Unsupported,
            "Kernel drops unavailable",
            SignalTone::Neutral,
        ),
        (
            CounterAvailability::NotApplicable,
            "Kernel drops not applicable",
            SignalTone::Neutral,
        ),
        (
            CounterAvailability::Available(3),
            "Kernel drops reported ≥3",
            SignalTone::Fault,
        ),
    ];

    for (availability, expected, tone) in cases {
        let signal = transport_signal(&TransportHealth {
            udp_kernel_drops: availability,
            ..TransportHealth::default()
        });
        assert_eq!(signal.value, expected);
        assert_eq!(signal.tone, tone);
        assert!(!signal.value.to_ascii_lowercase().contains("no loss"));
    }
}

#[test]
fn serial_stalls_separate_completed_and_active_measurements() {
    let signal = transport_signal(&TransportHealth {
        serial_stalls: Some(SerialStallSummary {
            episodes: 2,
            total: "7 ms".to_string(),
            max: "5 ms".to_string(),
            active_for: Some("3 ms".to_string()),
        }),
        ..TransportHealth::default()
    });

    assert_eq!(signal.tone, SignalTone::Warning);
    assert!(signal.value.contains("2 completed episodes"));
    assert!(signal.value.contains("active 3 ms"));
    assert!(!signal.value.contains("estimated"));
}

#[test]
fn pressure_signal_escalates_current_raw_pressure_but_not_historical_peaks() {
    let ingest = QueueDepth {
        current: 1,
        peak: 9,
        capacity: 10,
    };
    let raw = QueueDepth {
        current: 2,
        peak: 7,
        capacity: 8,
    };
    let quiet = pressure_signal(ingest, Some(raw), Some(RecordingState::Enabled));
    assert_eq!(quiet.tone, SignalTone::Neutral);
    assert_eq!(
        quiet.value,
        "Ingest highest sampled 9/10 · Raw latest sample 2 · highest observed 7/8"
    );

    let pressured = pressure_signal(
        ingest,
        Some(QueueDepth { current: 4, ..raw }),
        Some(RecordingState::Enabled),
    );
    assert_eq!(pressured.tone, SignalTone::Warning);

    let retained = pressure_signal(ingest, Some(raw), Some(RecordingState::Disabled));
    assert_eq!(retained.tone, SignalTone::Neutral);
    assert_eq!(
        retained.value,
        "Ingest highest sampled 9/10 · Raw retained highest observed 7/8"
    );

    let faulted = pressure_signal(ingest, Some(raw), Some(RecordingState::Faulted));
    assert_eq!(faulted.tone, SignalTone::Fault);
    assert!(faulted.value.contains("Raw faulted"));

    let awaiting = pressure_signal(QueueDepth::default(), None, None);
    assert_eq!(awaiting.value, "Ingest awaiting data · Raw not recording");
}

#[test]
fn pressure_help_locates_both_queues_inside_listener() {
    assert!(PRESSURE_TOOLTIP.contains("Listener's in-memory processing queue"));
    assert!(PRESSURE_TOOLTIP.contains("recorder's in-memory queue"));
    assert!(PRESSURE_TOOLTIP.contains("not device or driver buffers"));
    assert!(PRESSURE_TOOLTIP.contains("not a live current depth"));
    assert!(PRESSURE_TOOLTIP.contains("does not escalate the card by itself"));
    assert!(PRESSURE_TOOLTIP.contains("not proof of data loss"));
}

#[test]
fn technician_help_preserves_measurement_boundaries() {
    assert!(TRANSPORT_TOOLTIP.contains("reader's authoritative state"));
    assert!(TRANSPORT_TOOLTIP.contains("current unfinished stall"));
    assert!(UDP_UNAVAILABLE_TOOLTIP.contains("unknown, not zero"));
    assert!(UDP_AVAILABLE_TOOLTIP.contains("actual run total may be higher"));
    assert!(UDP_AVAILABLE_TOOLTIP.contains("not that no packets were lost"));
    assert!(PIPELINE_TOOLTIP.contains("approximate"));
    assert!(PIPELINE_TOOLTIP.contains("background recorder I/O may run concurrently"));
    assert!(PIPELINE_TOOLTIP.contains("no universal good/bad latency limit"));
}

#[test]
fn technician_help_states_timing_timestamp_and_retention_limits() {
    assert!(SERIAL_BACKPRESSURE_TOOLTIP.contains("authoritative"));
    assert!(SERIAL_BACKPRESSURE_TOOLTIP.contains("completed stalls only"));
    assert!(SERIAL_BACKPRESSURE_TOOLTIP.contains("warnings may be dropped"));
    assert!(IDLE_RULE_TIMING_TOOLTIP.contains("processor contention"));
    assert!(IDLE_RULE_TIMING_TOOLTIP.contains("handling recording before evaluation"));
    assert!(IDLE_TIMER_TOOLTIP.contains("completed Idle-deadline wakes"));
    assert!(IDLE_TIMER_TOOLTIP.contains("One completed wake can fire several rules"));
    assert!(CHUNK_SHAPE_TOOLTIP.contains("full channel run"));
    assert!(CHUNK_SHAPE_TOOLTIP.contains("not the recent ten-second window"));
    assert!(ARRIVAL_TIMESTAMP_TOOLTIP.contains("does not imply nanosecond accuracy"));
    assert!(ARRIVAL_TIMESTAMP_TOOLTIP.contains("Handoff and Read gap always use post-read"));
    assert!(RAW_QUEUE_ACTIVE_TOOLTIP.contains("most recent status snapshot"));
    assert!(RAW_QUEUE_ACTIVE_TOOLTIP.contains("reception continues"));
    assert!(RAW_QUEUE_FAULTED_TOOLTIP.contains("terminal for Raw recording"));
}

#[test]
fn card_badge_escalates_only_from_actionable_transport_or_pressure_evidence() {
    assert_eq!(
        card_tone(SignalTone::Fault, SignalTone::Neutral),
        SignalTone::Fault
    );
    assert_eq!(
        card_tone(SignalTone::Neutral, SignalTone::Warning),
        SignalTone::Warning
    );
    assert_eq!(
        card_tone(SignalTone::Neutral, SignalTone::Neutral),
        SignalTone::Neutral
    );
}

#[test]
fn neutral_badge_distinguishes_live_completed_and_empty_states() {
    assert_eq!(
        diagnostics_badge(SignalTone::Neutral, ChannelStatus::Running, false),
        "MONITORING"
    );
    assert_eq!(
        diagnostics_badge(SignalTone::Neutral, ChannelStatus::Reconnecting, true),
        "MONITORING"
    );
    assert_eq!(
        diagnostics_badge(SignalTone::Neutral, ChannelStatus::Stopped, true),
        "LAST RUN"
    );
    assert_eq!(
        diagnostics_badge(SignalTone::Neutral, ChannelStatus::Stopped, false),
        "AWAITING DATA"
    );
    assert_eq!(
        diagnostics_badge(SignalTone::Warning, ChannelStatus::Stopped, true),
        "ATTENTION"
    );
}

#[test]
fn recent_timing_uses_warmup_max_then_bounded_p99() {
    let timing = |samples: u64| TimingSummary {
        samples,
        max: "2 ms".to_string(),
        p99: "2 ms".to_string(),
    };
    let warmup = recent_timing_signal("Handoff", &timing(19), &timing(19));
    assert!(warmup.contains("warm-up (19)"));
    assert!(warmup.contains("max"));
    assert!(!warmup.contains("p99"));

    let mature = recent_timing_signal("Handoff", &timing(20), &timing(20));
    assert!(mature.contains("p99 ≤"));
}

#[test]
fn long_paths_keep_their_file_name() {
    assert_eq!(shorten_path("/tmp/a.raw", None, '/'), "/tmp/a.raw");
    assert_eq!(
        shorten_path("/home/me/logs/a.raw", Some("logs/a.raw"), '/'),
        "~/logs/a.raw"
    );
    assert_eq!(
        shorten_path("/very/long/directory/names/gps.raw", None, '/'),
        "/very/long/directo\u{2026}/gps.raw"
    );
    let one = "a_single_name_that_is_longer_than_the_limit";
    assert_eq!(shorten_path(one, None, '/'), one);
    assert_eq!(
        shorten_path("/d/a_single_name_that_is_longer_than_the_limit", None, '/'),
        format!("\u{2026}/{one}")
    );
}

#[test]
fn a_setup_reads_on_one_line() {
    assert_eq!(
        record_summary(
            Some("/x"),
            FileRotationPolicy::Daily,
            OverwritePolicy::AppendIfExists
        ),
        "/x \u{b7} Daily \u{b7} Append"
    );
    assert_eq!(
        record_summary(
            None,
            FileRotationPolicy::NoRotation,
            OverwritePolicy::Refuse
        ),
        "(no destination) \u{b7} no rotation \u{b7} Refuse"
    );
}

#[test]
fn interfaces_read_on_one_line() {
    assert_eq!(
        describe_interface(&udp_template().interface),
        "UDP unicast \u{b7} bind 0.0.0.0:0"
    );
    assert_eq!(
        describe_interface(&serial_template().interface),
        "Serial \u{b7}  @ 9600 baud"
    );
    assert_eq!(profile_name_from_path(Some("bench")), "bench");
    assert_eq!(profile_name_from_path(None), "workspace");
}

fn timing(samples: u64) -> TimingSummary {
    TimingSummary {
        samples,
        max: format!("{samples} ms"),
        p99: "1 ms".to_string(),
    }
}

fn facts() -> ReceiveFacts {
    ReceiveFacts {
        transport: TransportHealth::default(),
        ingest_queue: QueueDepth::default(),
        raw_queue: None,
        raw_recording: None,
        handoff_run: timing(0),
        handoff_recent: timing(0),
        processing_run: timing(30),
        processing_recent: timing(30),
        chunks: ChunkSummary {
            count: 0,
            mean_size: String::new(),
            max_size: String::new(),
            p50_size: String::new(),
            p99_size: String::new(),
            gaps: timing(0),
        },
        idle_run: timing(0),
        idle_recent: timing(0),
        idle_timer: IdleTimerCounts {
            native_waits: 0,
            windows_one_millisecond_waits: 0,
            windows_request_failures: 0,
        },
        has_completed_run: false,
    }
}

#[test]
fn the_card_is_put_together() {
    let card = receive_card(&facts(), ChannelStatus::Running);
    assert_eq!(card.badge, "MONITORING");
    assert_eq!(card.tone, SignalTone::Neutral);
    assert_eq!(
        card.pipeline.value,
        "Handoff awaiting first chunk \u{b7} Processing p99 \u{2264} 1 ms \u{b7} ~last 10 s"
    );
    assert_eq!(
        pipeline_signal(&facts(), ChannelStatus::Running),
        card.pipeline
    );
    assert!(card.callouts.is_empty());

    let mut dropping = facts();
    dropping.transport.udp_kernel_drops = CounterAvailability::Available(2);
    let card = receive_card(&dropping, ChannelStatus::Stopped);
    assert_eq!(card.badge, "ISSUE");
    assert_eq!(card.callouts.len(), 1);
    assert_eq!(
        card.callouts[0].text,
        "Kernel receive queue reported at least 2 dropped datagrams."
    );
    assert_eq!(card.callouts[0].help, UDP_DROP_CALLOUT_TOOLTIP);
}

#[test]
fn stalls_are_called_out() {
    let health = TransportHealth {
        serial_stalls: Some(SerialStallSummary {
            episodes: 1,
            total: "9 ms".to_string(),
            max: "9 ms".to_string(),
            active_for: None,
        }),
        ..TransportHealth::default()
    };
    let found = callouts(&health);
    assert_eq!(found.len(), 1);
    assert_eq!(found[0].tone, SignalTone::Warning);
    assert_eq!(
        found[0].text,
        "Serial backpressure: 1 completed episodes, 9 ms completed total, 9 ms completed maximum."
    );
    assert_eq!(found[0].help, SERIAL_BACKPRESSURE_TOOLTIP);
}

#[test]
fn details_list_idle_timing_only_where_a_rule_needs_it() {
    let plain = receive_transport_details(&facts(), ChannelStatus::Running, false, false);
    let idle = receive_transport_details(&facts(), ChannelStatus::Running, true, false);
    assert_eq!(idle.len(), plain.len() + 2);
    assert!(plain.iter().all(|line| line.help != HelpTopic::IdleTimer));
    assert!(idle.iter().any(|line| line.help == HelpTopic::IdleTimer));
    assert!(HelpTopic::IdleTimer.tooltip() == IDLE_TIMER_TOOLTIP);

    let rule = |condition: MatchCondition| MatchRule {
        name: "r".to_string(),
        condition,
        actions: vec![],
        enabled: true,
    };
    assert!(has_idle_rule(&vec![rule(MatchCondition::Idle { timeout_ms: 1 })]));
    assert!(!has_idle_rule(&vec![rule(MatchCondition::BytePattern {
        pattern: vec![1]
    })]));
}

#[test]
fn a_faulted_recorder_stands_out() {
    let mut broken = facts();
    broken.raw_recording = Some(RecordingState::Faulted);
    broken.raw_queue = Some(QueueDepth {
        current: 1,
        peak: 2,
        capacity: 8,
    });
    broken.transport.arrival_timestamps = ArrivalTimestamps {
        status: ArrivalTimestampStatus::KernelSoftware,
        post_read_samples: 1,
        kernel_samples: 2,
    };
    let lines = receive_transport_details(&broken, ChannelStatus::Running, false, false);
    let raw = lines
        .iter()
        .find(|line| line.help == HelpTopic::RawQueueFaulted)
        .unwrap();
    assert_eq!(raw.emphasis, Emphasis::Fault);
    assert_eq!(raw.text, "Raw record queue (faulted): highest observed 2/8");
}
