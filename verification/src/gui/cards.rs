//! The receive diagnostics: a card that answers what the transport itself can report,
//! whether a queue is under pressure and how long the receive path takes, and the
//! measurements behind it.
//!
//! Durations and byte counts come in as the texts that the interface shows for them. A
//! zero drop count never implies that nothing was lost, and there is no universal good
//! or bad latency.

use vstd::prelude::*;
use vstd::string::*;

use crate::gui::help::{SERIAL_BACKPRESSURE_TOOLTIP, UDP_DROP_CALLOUT_TOOLTIP};
use crate::gui::snapshot::QueueDepth;
use crate::gui::state::ChannelStatus;
use crate::model::state::RecordingState;
use crate::text::{decimal, push_decimal};

verus! {

/// From how many samples on a percentile is shown.
pub const TIMING_WARMUP_SAMPLES: u64 = 20;

/// How much a signal asks for attention.
#[derive(Clone, Copy, Debug, PartialEq, Eq, Structural)]
pub enum SignalTone {
    Neutral,
    Healthy,
    Warning,
    Fault,
}

/// One line of the card.
#[derive(Debug, PartialEq, Eq)]
pub struct DecisionSignal {
    pub value: String,
    pub tone: SignalTone,
}

/// A counter that a transport may or may not have.
#[derive(Clone, Copy, Debug, PartialEq, Eq, Structural)]
pub enum CounterAvailability {
    NotApplicable,
    Unsupported,
    Available(u64),
}

/// Serial backpressure: completed stalls, and the one that lasts.
#[derive(Debug, PartialEq, Eq)]
pub struct SerialStallSummary {
    pub episodes: u64,
    /// How long the completed stalls took together.
    pub total: String,
    /// How long the longest completed stall took.
    pub max: String,
    /// How long the current stall has lasted.
    pub active_for: Option<String>,
}

/// Where the wall-clock arrival times come from.
#[derive(Clone, Copy, Debug, PartialEq, Eq, Structural)]
pub enum ArrivalTimestampStatus {
    PostRead,
    KernelSoftware,
    KernelRequestedUnavailable,
}

/// How many arrival times came from where.
#[derive(Clone, Copy, Debug, PartialEq, Eq, Structural)]
pub struct ArrivalTimestamps {
    pub status: ArrivalTimestampStatus,
    pub post_read_samples: u64,
    pub kernel_samples: u64,
}

/// What a transport reports of itself.
#[derive(Debug, PartialEq, Eq)]
pub struct TransportHealth {
    pub udp_kernel_drops: CounterAvailability,
    pub serial_stalls: Option<SerialStallSummary>,
    pub arrival_timestamps: ArrivalTimestamps,
}

impl Default for TransportHealth {
    fn default() -> (r: TransportHealth)
        ensures
            r.udp_kernel_drops == CounterAvailability::NotApplicable,
            r.serial_stalls is None,
            r.arrival_timestamps == (ArrivalTimestamps {
                status: ArrivalTimestampStatus::PostRead,
                post_read_samples: 0,
                kernel_samples: 0,
            }),
    {
        TransportHealth {
            udp_kernel_drops: CounterAvailability::NotApplicable,
            serial_stalls: None,
            arrival_timestamps: ArrivalTimestamps {
                status: ArrivalTimestampStatus::PostRead,
                post_read_samples: 0,
                kernel_samples: 0,
            },
        }
    }
}

/// A distribution of durations: how many there are, the longest, and the bound that at
/// least 99% of them keep. The texts count only where there are samples.
#[derive(Debug, PartialEq, Eq)]
pub struct TimingSummary {
    pub samples: u64,
    pub max: String,
    pub p99: String,
}

/// Sizes and gaps of the blocks that were read.
#[derive(Debug, PartialEq, Eq)]
pub struct ChunkSummary {
    pub count: u64,
    pub mean_size: String,
    pub max_size: String,
    pub p50_size: String,
    pub p99_size: String,
    pub gaps: TimingSummary,
}

/// How the waits for idle deadlines were done.
#[derive(Clone, Copy, Debug, PartialEq, Eq, Structural)]
pub struct IdleTimerCounts {
    pub native_waits: u64,
    pub windows_one_millisecond_waits: u64,
    pub windows_request_failures: u64,
}

/// Everything that the card shows.
#[derive(Debug, PartialEq, Eq)]
pub struct ReceiveFacts {
    pub transport: TransportHealth,
    pub ingest_queue: QueueDepth,
    pub raw_queue: Option<QueueDepth>,
    pub raw_recording: Option<RecordingState>,
    pub handoff_run: TimingSummary,
    pub handoff_recent: TimingSummary,
    pub processing_run: TimingSummary,
    pub processing_recent: TimingSummary,
    pub chunks: ChunkSummary,
    pub idle_run: TimingSummary,
    pub idle_recent: TimingSummary,
    pub idle_timer: IdleTimerCounts,
    pub has_completed_run: bool,
}

/// Whether a queue is at least half full.
pub fn queue_level_reaches_half(level: usize, capacity: usize) -> (r: bool)
    ensures
        r == (capacity > 0 && 2 * level >= capacity),
{
    capacity > 0 && level >= capacity / 2 + capacity % 2
}

/// What a drop count reads as: a lower bound, unless it is zero.
pub open spec fn drops_text(dropped: u64) -> Seq<char> {
    if dropped == 0 {
        "reported 0"@
    } else {
        "reported ≥"@ + decimal(dropped as nat)
    }
}

/// What a drop count reads as.
pub fn reported_udp_drops(dropped: u64) -> (r: String)
    ensures
        r@ == drops_text(dropped),
{
    if dropped == 0 {
        "reported 0".to_owned()
    } else {
        let mut out: String = "reported ≥".to_owned();
        push_decimal(&mut out, dropped);
        out
    }
}

/// The running stall behind a lead, if there is one.
pub open spec fn active_text(lead: Seq<char>, active: Option<String>) -> Seq<char> {
    match active {
        Some(t) => lead + t@,
        None => Seq::empty(),
    }
}

/// Appends the running stall behind a lead, if there is one.
pub fn push_active(out: &mut String, lead: &str, active: &Option<String>)
    ensures
        final(out)@ == old(out)@ + active_text(lead@, *active),
{
    match active {
        Some(t) => {
            out.append(lead);
            out.append(t.as_str());
            assert(out@ =~= old(out)@ + active_text(lead@, *active));
        },
        None => {
            assert(out@ =~= old(out)@ + active_text(lead@, *active));
        },
    }
}

/// A stall was seen, or lasts.
pub open spec fn has_stalled(s: SerialStallSummary) -> bool {
    s.episodes > 0 || s.active_for is Some
}

/// The card's line on the transport.
pub open spec fn transport_line(health: TransportHealth) -> (Seq<char>, SignalTone) {
    match health.serial_stalls {
        Some(s) => (
            "Serial: "@ + decimal(s.episodes as nat) + " completed episodes · total "@ + s.total@
                + " · max "@ + s.max@ + active_text(" · active "@, s.active_for),
            if has_stalled(s) {
                SignalTone::Warning
            } else {
                SignalTone::Neutral
            },
        ),
        None => match health.udp_kernel_drops {
            CounterAvailability::Available(dropped) => (
                "Kernel drops "@ + drops_text(dropped),
                if dropped > 0 {
                    SignalTone::Fault
                } else {
                    SignalTone::Neutral
                },
            ),
            CounterAvailability::Unsupported => (
                "Kernel drops unavailable"@,
                SignalTone::Neutral,
            ),
            CounterAvailability::NotApplicable => (
                "Kernel drops not applicable"@,
                SignalTone::Neutral,
            ),
        },
    }
}

/// The card's line on the transport.
pub fn transport_signal(health: &TransportHealth) -> (r: DecisionSignal)
    ensures
        (r.value@, r.tone) == transport_line(*health),
{
    match &health.serial_stalls {
        Some(s) => {
            let mut value: String = "Serial: ".to_owned();
            push_decimal(&mut value, s.episodes);
            value.append(" completed episodes · total ");
            value.append(s.total.as_str());
            value.append(" · max ");
            value.append(s.max.as_str());
            push_active(&mut value, " · active ", &s.active_for);
            DecisionSignal {
                value,
                tone: if s.episodes > 0 || s.active_for.is_some() {
                    SignalTone::Warning
                } else {
                    SignalTone::Neutral
                },
            }
        },
        None => match health.udp_kernel_drops {
            CounterAvailability::Available(dropped) => {
                let mut value: String = "Kernel drops ".to_owned();
                let count: String = reported_udp_drops(dropped);
                value.append(count.as_str());
                DecisionSignal {
                    value,
                    tone: if dropped > 0 {
                        SignalTone::Fault
                    } else {
                        SignalTone::Neutral
                    },
                }
            },
            CounterAvailability::Unsupported => DecisionSignal {
                value: "Kernel drops unavailable".to_owned(),
                tone: SignalTone::Neutral,
            },
            CounterAvailability::NotApplicable => DecisionSignal {
                value: "Kernel drops not applicable".to_owned(),
                tone: SignalTone::Neutral,
            },
        },
    }
}

/// Two numbers with a slash between them.
pub open spec fn ratio(a: usize, b: usize) -> Seq<char> {
    decimal(a as nat) + "/"@ + decimal(b as nat)
}

/// Appends two numbers with a slash between them.
pub fn push_ratio(out: &mut String, a: usize, b: usize)
    ensures
        final(out)@ == old(out)@ + ratio(a, b),
{
    push_decimal(out, a as u64);
    out.append("/");
    push_decimal(out, b as u64);
    assert(out@ =~= old(out)@ + ratio(a, b));
}

/// What is said of the ingest queue.
pub open spec fn ingest_phrase(ingest: QueueDepth) -> Seq<char> {
    if ingest.capacity == 0 {
        "Ingest awaiting data"@
    } else {
        "Ingest highest sampled "@ + ratio(ingest.peak, ingest.capacity)
    }
}

/// What is said of the Raw recorder's queue.
pub open spec fn raw_phrase(raw: Option<QueueDepth>, recording: Option<RecordingState>) -> Seq<char> {
    match (raw, recording) {
        (Some(queue), Some(RecordingState::Faulted)) => "Raw faulted · highest observed "@ + ratio(
            queue.peak,
            queue.capacity,
        ),
        (None, Some(RecordingState::Faulted)) => "Raw faulted"@,
        (Some(queue), Some(RecordingState::Enabled)) => "Raw latest sample "@ + decimal(
            queue.current as nat,
        ) + " · highest observed "@ + ratio(queue.peak, queue.capacity),
        (Some(queue), _) => "Raw retained highest observed "@ + ratio(queue.peak, queue.capacity),
        (None, _) => "Raw not recording"@,
    }
}

/// A faulted recording is a fault; a queue that is half full while recording is a
/// warning; a peak of the past is neither.
pub open spec fn pressure_tone(raw: Option<QueueDepth>, recording: Option<RecordingState>) -> SignalTone {
    if recording == Some(RecordingState::Faulted) {
        SignalTone::Fault
    } else if recording == Some(RecordingState::Enabled) && raw is Some && raw->0.capacity > 0 && 2
        * raw->0.current >= raw->0.capacity {
        SignalTone::Warning
    } else {
        SignalTone::Neutral
    }
}

fn push_raw_phrase(out: &mut String, raw: Option<QueueDepth>, recording: Option<RecordingState>)
    ensures
        final(out)@ == old(out)@ + raw_phrase(raw, recording),
{
    match (raw, recording) {
        (Some(queue), Some(RecordingState::Faulted)) => {
            out.append("Raw faulted · highest observed ");
            push_ratio(out, queue.peak, queue.capacity);
        },
        (None, Some(RecordingState::Faulted)) => {
            out.append("Raw faulted");
        },
        (Some(queue), Some(RecordingState::Enabled)) => {
            out.append("Raw latest sample ");
            push_decimal(out, queue.current as u64);
            out.append(" · highest observed ");
            push_ratio(out, queue.peak, queue.capacity);
        },
        (Some(queue), _) => {
            out.append("Raw retained highest observed ");
            push_ratio(out, queue.peak, queue.capacity);
        },
        (None, _) => {
            out.append("Raw not recording");
        },
    }
    assert(out@ =~= old(out)@ + raw_phrase(raw, recording));
}

/// The card's line on queue pressure.
pub fn pressure_signal(
    ingest: QueueDepth,
    raw: Option<QueueDepth>,
    raw_recording: Option<RecordingState>,
) -> (r: DecisionSignal)
    ensures
        r.value@ == ingest_phrase(ingest) + " · "@ + raw_phrase(raw, raw_recording),
        r.tone == pressure_tone(raw, raw_recording),
{
    let mut value: String = String::new();
    if ingest.capacity == 0 {
        value.append("Ingest awaiting data");
    } else {
        value.append("Ingest highest sampled ");
        push_ratio(&mut value, ingest.peak, ingest.capacity);
    }
    assert(value@ =~= ingest_phrase(ingest));
    value.append(" · ");
    push_raw_phrase(&mut value, raw, raw_recording);
    let tone: SignalTone = match (raw, raw_recording) {
        (_, Some(RecordingState::Faulted)) => SignalTone::Fault,
        (Some(queue), Some(RecordingState::Enabled)) => if queue_level_reaches_half(
            queue.current,
            queue.capacity,
        ) {
            SignalTone::Warning
        } else {
            SignalTone::Neutral
        },
        _ => SignalTone::Neutral,
    };
    DecisionSignal { value, tone }
}

/// How the recent window is called: the last seconds of a live channel, the final ones
/// of a channel at rest.
pub open spec fn window_name(status: ChannelStatus) -> Seq<char> {
    if status is Running || status is Reconnecting {
        "~last 10 s"@
    } else {
        "~final 10 s"@
    }
}

/// How the recent window is called.
pub fn timing_window(status: ChannelStatus) -> (r: &'static str)
    ensures
        r@ == window_name(status),
{
    match status {
        ChannelStatus::Running | ChannelStatus::Reconnecting => "~last 10 s",
        _ => "~final 10 s",
    }
}

/// What is said of one timing on the card: the longest until there are enough samples
/// for a percentile.
pub open spec fn recent_text(label: Seq<char>, run: TimingSummary, recent: TimingSummary) -> Seq<char> {
    if run.samples == 0 {
        label + " awaiting first chunk"@
    } else if recent.samples == 0 {
        label + " no recent chunks · run max "@ + run.max@
    } else if recent.samples < TIMING_WARMUP_SAMPLES {
        label + " warm-up ("@ + decimal(recent.samples as nat) + ") · max "@ + recent.max@
    } else {
        label + " p99 ≤ "@ + recent.p99@
    }
}

/// What is said of one timing on the card.
pub fn recent_timing_signal(label: &str, cumulative: &TimingSummary, recent: &TimingSummary) -> (r:
    String)
    ensures
        r@ == recent_text(label@, *cumulative, *recent),
{
    let mut out: String = label.to_owned();
    if cumulative.samples == 0 {
        out.append(" awaiting first chunk");
    } else if recent.samples == 0 {
        out.append(" no recent chunks · run max ");
        out.append(cumulative.max.as_str());
    } else if recent.samples < TIMING_WARMUP_SAMPLES {
        out.append(" warm-up (");
        push_decimal(&mut out, recent.samples);
        out.append(") · max ");
        out.append(recent.max.as_str());
    } else {
        out.append(" p99 ≤ ");
        out.append(recent.p99.as_str());
    }
    out
}

/// The card's line on the receive path. Its measurements are facts, not a judgment.
pub fn pipeline_signal(facts: &ReceiveFacts, status: ChannelStatus) -> (r: DecisionSignal)
    ensures
        r.value@ == recent_text("Handoff"@, facts.handoff_run, facts.handoff_recent) + " · "@
            + recent_text("Processing"@, facts.processing_run, facts.processing_recent) + " · "@
            + window_name(status),
        r.tone == SignalTone::Neutral,
{
    let mut value: String = recent_timing_signal(
        "Handoff",
        &facts.handoff_run,
        &facts.handoff_recent,
    );
    let processing: String = recent_timing_signal(
        "Processing",
        &facts.processing_run,
        &facts.processing_recent,
    );
    value.append(" · ");
    value.append(processing.as_str());
    value.append(" · ");
    value.append(timing_window(status));
    DecisionSignal { value, tone: SignalTone::Neutral }
}

/// A fault outranks a warning, and a warning everything else.
pub open spec fn worst(a: SignalTone, b: SignalTone) -> SignalTone {
    if a is Fault || b is Fault {
        SignalTone::Fault
    } else if a is Warning || b is Warning {
        SignalTone::Warning
    } else {
        SignalTone::Neutral
    }
}

/// The tone of the card: that of its worse line.
pub fn card_tone(transport: SignalTone, pressure: SignalTone) -> (r: SignalTone)
    ensures
        r == worst(transport, pressure),
{
    if transport == SignalTone::Fault || pressure == SignalTone::Fault {
        SignalTone::Fault
    } else if transport == SignalTone::Warning || pressure == SignalTone::Warning {
        SignalTone::Warning
    } else {
        SignalTone::Neutral
    }
}

/// The word on the card.
pub open spec fn badge(tone: SignalTone, status: ChannelStatus, has_completed_run: bool) -> Seq<char> {
    if tone is Fault {
        "ISSUE"@
    } else if tone is Warning {
        "ATTENTION"@
    } else if status is Running || status is Reconnecting {
        "MONITORING"@
    } else if has_completed_run {
        "LAST RUN"@
    } else {
        "AWAITING DATA"@
    }
}

/// The word on the card.
pub fn diagnostics_badge(tone: SignalTone, status: ChannelStatus, has_completed_run: bool) -> (r:
    &'static str)
    ensures
        r@ == badge(tone, status, has_completed_run),
{
    match tone {
        SignalTone::Fault => "ISSUE",
        SignalTone::Warning => "ATTENTION",
        _ => match status {
            ChannelStatus::Running | ChannelStatus::Reconnecting => "MONITORING",
            _ => if has_completed_run {
                "LAST RUN"
            } else {
                "AWAITING DATA"
            },
        },
    }
}

/// What a callout under the card says.
pub struct Callout {
    pub text: String,
    pub tone: SignalTone,
    /// The explanation.
    pub help: &'static str,
}

/// The callout on kernel drops: at least so many datagrams were discarded.
pub open spec fn drop_callout_text(dropped: u64) -> Seq<char> {
    "Kernel receive queue reported at least "@ + decimal(dropped as nat) + " dropped datagrams."@
}

/// The callout on serial backpressure.
pub open spec fn stall_callout_text(s: SerialStallSummary) -> Seq<char> {
    "Serial backpressure: "@ + decimal(s.episodes as nat) + " completed episodes, "@ + s.total@
        + " completed total, "@ + s.max@ + " completed maximum"@ + active_text(
        ", active for "@,
        s.active_for,
    ) + "."@
}

/// The callouts under the card: one for kernel drops, one for serial stalls.
pub open spec fn callout_texts(health: TransportHealth) -> Seq<(Seq<char>, SignalTone, Seq<char>)> {
    let drops = match health.udp_kernel_drops {
        CounterAvailability::Available(dropped) => if dropped > 0 {
            seq![(drop_callout_text(dropped), SignalTone::Fault, UDP_DROP_CALLOUT_TOOLTIP@)]
        } else {
            Seq::empty()
        },
        _ => Seq::empty(),
    };
    let stalls = match health.serial_stalls {
        Some(s) => if has_stalled(s) {
            seq![(stall_callout_text(s), SignalTone::Warning, SERIAL_BACKPRESSURE_TOOLTIP@)]
        } else {
            Seq::empty()
        },
        None => Seq::empty(),
    };
    drops + stalls
}

/// What a list of callouts says.
pub open spec fn callouts_view(v: Seq<Callout>) -> Seq<(Seq<char>, SignalTone, Seq<char>)> {
    v.map_values(|c: Callout| (c.text@, c.tone, c.help@))
}

/// The callouts under the card.
pub fn callouts(health: &TransportHealth) -> (r: Vec<Callout>)
    ensures
        callouts_view(r@) == callout_texts(*health),
{
    let mut out: Vec<Callout> = Vec::new();
    if let CounterAvailability::Available(dropped) = health.udp_kernel_drops {
        if dropped > 0 {
            let mut text: String = "Kernel receive queue reported at least ".to_owned();
            push_decimal(&mut text, dropped);
            text.append(" dropped datagrams.");
            out.push(Callout { text, tone: SignalTone::Fault, help: UDP_DROP_CALLOUT_TOOLTIP });
        }
    }
    let ghost drops = callouts_view(out@);
    if let Some(s) = &health.serial_stalls {
        if s.episodes > 0 || s.active_for.is_some() {
            let mut text: String = "Serial backpressure: ".to_owned();
            push_decimal(&mut text, s.episodes);
            text.append(" completed episodes, ");
            text.append(s.total.as_str());
            text.append(" completed total, ");
            text.append(s.max.as_str());
            text.append(" completed maximum");
            push_active(&mut text, ", active for ", &s.active_for);
            text.append(".");
            out.push(
                Callout { text, tone: SignalTone::Warning, help: SERIAL_BACKPRESSURE_TOOLTIP },
            );
        }
    }
    assert(callouts_view(out@) =~= callout_texts(*health));
    out
}

/// The card as it is shown.
pub struct ReceiveCard {
    pub badge: &'static str,
    pub tone: SignalTone,
    pub transport: DecisionSignal,
    pub pressure: DecisionSignal,
    pub pipeline: DecisionSignal,
    pub callouts: Vec<Callout>,
}

/// Puts the card together.
pub fn receive_card(facts: &ReceiveFacts, status: ChannelStatus) -> (r: ReceiveCard)
    ensures
        (r.transport.value@, r.transport.tone) == transport_line(facts.transport),
        r.pressure.value@ == ingest_phrase(facts.ingest_queue) + " · "@ + raw_phrase(
            facts.raw_queue,
            facts.raw_recording,
        ),
        r.pressure.tone == pressure_tone(facts.raw_queue, facts.raw_recording),
        r.pipeline.value@ == recent_text("Handoff"@, facts.handoff_run, facts.handoff_recent)
            + " · "@ + recent_text("Processing"@, facts.processing_run, facts.processing_recent)
            + " · "@ + window_name(status),
        r.pipeline.tone == SignalTone::Neutral,
        r.tone == worst(r.transport.tone, r.pressure.tone),
        r.badge@ == badge(r.tone, status, facts.has_completed_run),
        callouts_view(r.callouts@) == callout_texts(facts.transport),
{
    let transport: DecisionSignal = transport_signal(&facts.transport);
    let pressure: DecisionSignal = pressure_signal(
        facts.ingest_queue,
        facts.raw_queue,
        facts.raw_recording,
    );
    let pipeline: DecisionSignal = pipeline_signal(facts, status);
    let tone: SignalTone = card_tone(transport.tone, pressure.tone);
    ReceiveCard {
        badge: diagnostics_badge(tone, status, facts.has_completed_run),
        tone,
        transport,
        pressure,
        pipeline,
        callouts: callouts(&facts.transport),
    }
}

/// The card calls for attention exactly where there is evidence: stalls of a serial
/// transport or reported drops of another one, a faulted recording, or a Raw queue that is
/// half full now.
pub proof fn law_badge_needs_evidence(
    health: TransportHealth,
    raw: Option<QueueDepth>,
    recording: Option<RecordingState>,
)
    ensures
        worst(transport_line(health).1, pressure_tone(raw, recording)) != SignalTone::Neutral
            <==> callout_texts(health).len() > 0 && (health.serial_stalls is None || has_stalled(
            health.serial_stalls->0,
        )) || recording == Some(RecordingState::Faulted) || (recording == Some(
            RecordingState::Enabled,
        ) && raw is Some && raw->0.capacity > 0 && 2 * raw->0.current >= raw->0.capacity),
{
}

} // verus!
