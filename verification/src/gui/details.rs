//! The measurements behind the receive diagnostics, line by line.

use vstd::prelude::*;
use vstd::string::*;

use crate::config::schema::{MatchCondition, MatchRule};
use crate::gui::cards::{
    active_text, drops_text, ratio, reported_udp_drops, timing_window, window_name,
    ArrivalTimestampStatus, ArrivalTimestamps, ChunkSummary, CounterAvailability, IdleTimerCounts,
    ReceiveFacts, SerialStallSummary, TimingSummary, TIMING_WARMUP_SAMPLES, push_active,
    push_ratio, queue_level_reaches_half,
};
use crate::gui::help::{
    ARRIVAL_TIMESTAMP_TOOLTIP, CHUNK_SHAPE_TOOLTIP, HANDOFF_TOOLTIP, IDLE_RULE_TIMING_TOOLTIP,
    IDLE_TIMER_TOOLTIP, INGEST_QUEUE_TOOLTIP, PROCESSING_TOOLTIP, RAW_QUEUE_ACTIVE_TOOLTIP,
    RAW_QUEUE_FAULTED_TOOLTIP, RAW_QUEUE_INACTIVE_TOOLTIP, RAW_QUEUE_RETAINED_TOOLTIP,
    SERIAL_BACKPRESSURE_TOOLTIP, UDP_AVAILABLE_TOOLTIP, UDP_NOT_APPLICABLE_TOOLTIP,
    UDP_UNAVAILABLE_TOOLTIP,
};
use crate::gui::snapshot::QueueDepth;
use crate::gui::state::ChannelStatus;
use crate::model::state::RecordingState;
use crate::text::{decimal, push_decimal};

verus! {

/// How a line stands out.
#[derive(Clone, Copy, Debug, PartialEq, Eq, Structural)]
pub enum Emphasis {
    Weak,
    Warning,
    Fault,
}

/// What a line is explained by.
#[derive(Clone, Copy, Debug, PartialEq, Eq, Structural)]
pub enum HelpTopic {
    Handoff,
    Processing,
    ChunkShape,
    SerialBackpressure,
    ArrivalTimestamp,
    UdpNotApplicable,
    UdpUnavailable,
    UdpAvailable,
    IdleRuleTiming,
    IdleTimer,
    IngestQueue,
    RawQueueActive,
    RawQueueRetained,
    RawQueueFaulted,
    RawQueueInactive,
}

impl HelpTopic {
    /// The explanation.
    pub fn tooltip(self) -> (r: &'static str)
        ensures
            r@ == match self {
                HelpTopic::Handoff => HANDOFF_TOOLTIP@,
                HelpTopic::Processing => PROCESSING_TOOLTIP@,
                HelpTopic::ChunkShape => CHUNK_SHAPE_TOOLTIP@,
                HelpTopic::SerialBackpressure => SERIAL_BACKPRESSURE_TOOLTIP@,
                HelpTopic::ArrivalTimestamp => ARRIVAL_TIMESTAMP_TOOLTIP@,
                HelpTopic::UdpNotApplicable => UDP_NOT_APPLICABLE_TOOLTIP@,
                HelpTopic::UdpUnavailable => UDP_UNAVAILABLE_TOOLTIP@,
                HelpTopic::UdpAvailable => UDP_AVAILABLE_TOOLTIP@,
                HelpTopic::IdleRuleTiming => IDLE_RULE_TIMING_TOOLTIP@,
                HelpTopic::IdleTimer => IDLE_TIMER_TOOLTIP@,
                HelpTopic::IngestQueue => INGEST_QUEUE_TOOLTIP@,
                HelpTopic::RawQueueActive => RAW_QUEUE_ACTIVE_TOOLTIP@,
                HelpTopic::RawQueueRetained => RAW_QUEUE_RETAINED_TOOLTIP@,
                HelpTopic::RawQueueFaulted => RAW_QUEUE_FAULTED_TOOLTIP@,
                HelpTopic::RawQueueInactive => RAW_QUEUE_INACTIVE_TOOLTIP@,
            },
    {
        match self {
            HelpTopic::Handoff => HANDOFF_TOOLTIP,
            HelpTopic::Processing => PROCESSING_TOOLTIP,
            HelpTopic::ChunkShape => CHUNK_SHAPE_TOOLTIP,
            HelpTopic::SerialBackpressure => SERIAL_BACKPRESSURE_TOOLTIP,
            HelpTopic::ArrivalTimestamp => ARRIVAL_TIMESTAMP_TOOLTIP,
            HelpTopic::UdpNotApplicable => UDP_NOT_APPLICABLE_TOOLTIP,
            HelpTopic::UdpUnavailable => UDP_UNAVAILABLE_TOOLTIP,
            HelpTopic::UdpAvailable => UDP_AVAILABLE_TOOLTIP,
            HelpTopic::IdleRuleTiming => IDLE_RULE_TIMING_TOOLTIP,
            HelpTopic::IdleTimer => IDLE_TIMER_TOOLTIP,
            HelpTopic::IngestQueue => INGEST_QUEUE_TOOLTIP,
            HelpTopic::RawQueueActive => RAW_QUEUE_ACTIVE_TOOLTIP,
            HelpTopic::RawQueueRetained => RAW_QUEUE_RETAINED_TOOLTIP,
            HelpTopic::RawQueueFaulted => RAW_QUEUE_FAULTED_TOOLTIP,
            HelpTopic::RawQueueInactive => RAW_QUEUE_INACTIVE_TOOLTIP,
        }
    }
}

/// One line of the details.
#[derive(Debug, PartialEq, Eq)]
pub struct DetailLine {
    pub text: String,
    pub emphasis: Emphasis,
    pub help: HelpTopic,
}

/// What a line says.
pub ghost struct Line {
    pub text: Seq<char>,
    pub emphasis: Emphasis,
    pub help: HelpTopic,
}

impl View for DetailLine {
    type V = Line;

    open spec fn view(&self) -> Line {
        Line { text: self.text@, emphasis: self.emphasis, help: self.help }
    }
}

/// What a list of lines says.
pub open spec fn lines_view(v: Seq<DetailLine>) -> Seq<Line> {
    v.map_values(|l: DetailLine| l@)
}

/// A weak line.
pub open spec fn weak(text: Seq<char>, help: HelpTopic) -> Line {
    Line { text, emphasis: Emphasis::Weak, help }
}

/// The words that a timing is told in.
#[derive(Clone, Copy, Debug)]
pub struct TimingWords {
    pub title: &'static str,
    pub none_yet: &'static str,
    pub none_recent: &'static str,
    pub count_lead: &'static str,
    pub count_tail: &'static str,
    pub bound: &'static str,
}

/// What the words say.
pub ghost struct Phrases {
    pub title: Seq<char>,
    pub none_yet: Seq<char>,
    pub none_recent: Seq<char>,
    pub count_lead: Seq<char>,
    pub count_tail: Seq<char>,
    pub bound: Seq<char>,
}

impl View for TimingWords {
    type V = Phrases;

    open spec fn view(&self) -> Phrases {
        Phrases {
            title: self.title@,
            none_yet: self.none_yet@,
            none_recent: self.none_recent@,
            count_lead: self.count_lead@,
            count_tail: self.count_tail@,
            bound: self.bound@,
        }
    }
}

/// How the handoff is told.
pub open spec fn handoff_phrases() -> Phrases {
    Phrases {
        title: "Handoff timing"@,
        none_yet: "awaiting first chunk"@,
        none_recent: "no chunks"@,
        count_lead: "warming up ("@,
        count_tail: " chunks)"@,
        bound: "post-read to pipeline p99 ≤ "@,
    }
}

/// How the processing is told.
pub open spec fn processing_phrases() -> Phrases {
    Phrases {
        title: "Processing timing"@,
        none_yet: "awaiting first chunk"@,
        none_recent: "no chunks"@,
        count_lead: "warming up ("@,
        count_tail: " chunks)"@,
        bound: "p99 ≤ "@,
    }
}

/// How the firing of idle rules is told.
pub open spec fn idle_phrases() -> Phrases {
    Phrases {
        title: "Idle rule timing"@,
        none_yet: "awaiting first firing"@,
        none_recent: "no firings"@,
        count_lead: ""@,
        count_tail: " firings"@,
        bound: "lateness p99 ≤ "@,
    }
}

/// A timing: nothing yet, nothing recently, the longest until there are enough samples,
/// then the bound that at least 99% keep; and the longest of the run.
pub open spec fn timing_text(
    words: Phrases,
    window: Seq<char>,
    run: TimingSummary,
    recent: TimingSummary,
) -> Seq<char> {
    let lead = words.title + " ("@ + window + "): "@;
    let tail = " · run max "@ + run.max@;
    if run.samples == 0 {
        words.title + ": "@ + words.none_yet
    } else if recent.samples == 0 {
        lead + words.none_recent + tail
    } else if recent.samples < TIMING_WARMUP_SAMPLES {
        lead + words.count_lead + decimal(recent.samples as nat) + words.count_tail + " · max "@
            + recent.max@ + tail
    } else {
        lead + words.bound + recent.p99@ + tail
    }
}

fn timing_line(
    words: TimingWords,
    window: &str,
    run: &TimingSummary,
    recent: &TimingSummary,
    help: HelpTopic,
) -> (r: DetailLine)
    ensures
        r@ == weak(timing_text(words@, window@, *run, *recent), help),
{
    let mut out: String = words.title.to_owned();
    if run.samples == 0 {
        out.append(": ");
        out.append(words.none_yet);
    } else {
        out.append(" (");
        out.append(window);
        out.append("): ");
        if recent.samples == 0 {
            out.append(words.none_recent);
        } else if recent.samples < TIMING_WARMUP_SAMPLES {
            out.append(words.count_lead);
            push_decimal(&mut out, recent.samples);
            out.append(words.count_tail);
            out.append(" · max ");
            out.append(recent.max.as_str());
        } else {
            out.append(words.bound);
            out.append(recent.p99.as_str());
        }
        out.append(" · run max ");
        out.append(run.max.as_str());
    }
    assert(out@ =~= timing_text(words@, window@, *run, *recent));
    DetailLine { text: out, emphasis: Emphasis::Weak, help }
}

fn handoff_words() -> (r: TimingWords)
    ensures
        r@ == handoff_phrases(),
{
    TimingWords {
        title: "Handoff timing",
        none_yet: "awaiting first chunk",
        none_recent: "no chunks",
        count_lead: "warming up (",
        count_tail: " chunks)",
        bound: "post-read to pipeline p99 ≤ ",
    }
}

fn processing_words() -> (r: TimingWords)
    ensures
        r@ == processing_phrases(),
{
    TimingWords {
        title: "Processing timing",
        none_yet: "awaiting first chunk",
        none_recent: "no chunks",
        count_lead: "warming up (",
        count_tail: " chunks)",
        bound: "p99 ≤ ",
    }
}

fn idle_words() -> (r: TimingWords)
    ensures
        r@ == idle_phrases(),
{
    TimingWords {
        title: "Idle rule timing",
        none_yet: "awaiting first firing",
        none_recent: "no firings",
        count_lead: "",
        count_tail: " firings",
        bound: "lateness p99 ≤ ",
    }
}

/// The sizes of the blocks that were read.
pub open spec fn size_text(c: ChunkSummary) -> Seq<char> {
    if c.count < TIMING_WARMUP_SAMPLES {
        "size mean "@ + c.mean_size@ + " · max "@ + c.max_size@
    } else {
        "size p50 ≤ "@ + c.p50_size@ + " · p99 ≤ "@ + c.p99_size@ + " · max "@ + c.max_size@
    }
}

/// The gaps between reads.
pub open spec fn gap_text(gaps: TimingSummary) -> Seq<char> {
    if gaps.samples == 0 {
        "read gap awaiting second chunk"@
    } else if gaps.samples < TIMING_WARMUP_SAMPLES {
        "read gap max "@ + gaps.max@
    } else {
        "read gap p99 ≤ "@ + gaps.p99@
    }
}

/// The blocks that were read.
pub open spec fn chunk_line_text(c: ChunkSummary) -> Seq<char> {
    if c.count == 0 {
        "Chunk shape: awaiting first chunk"@
    } else {
        "Chunks (run): "@ + decimal(c.count as nat) + " · "@ + size_text(c) + " · "@ + gap_text(
            c.gaps,
        )
    }
}

fn chunk_line(c: &ChunkSummary) -> (r: DetailLine)
    ensures
        r@ == weak(chunk_line_text(*c), HelpTopic::ChunkShape),
{
    let mut out: String = String::new();
    if c.count == 0 {
        out.append("Chunk shape: awaiting first chunk");
    } else {
        out.append("Chunks (run): ");
        push_decimal(&mut out, c.count);
        out.append(" · ");
        let ghost a = out@;
        if c.count < TIMING_WARMUP_SAMPLES {
            out.append("size mean ");
            out.append(c.mean_size.as_str());
            out.append(" · max ");
            out.append(c.max_size.as_str());
        } else {
            out.append("size p50 ≤ ");
            out.append(c.p50_size.as_str());
            out.append(" · p99 ≤ ");
            out.append(c.p99_size.as_str());
            out.append(" · max ");
            out.append(c.max_size.as_str());
        }
        assert(out@ =~= a + size_text(*c));
        out.append(" · ");
        let ghost b = out@;
        if c.gaps.samples == 0 {
            out.append("read gap awaiting second chunk");
        } else if c.gaps.samples < TIMING_WARMUP_SAMPLES {
            out.append("read gap max ");
            out.append(c.gaps.max.as_str());
        } else {
            out.append("read gap p99 ≤ ");
            out.append(c.gaps.p99.as_str());
        }
        assert(out@ =~= b + gap_text(c.gaps));
    }
    assert(out@ =~= chunk_line_text(*c));
    DetailLine { text: out, emphasis: Emphasis::Weak, help: HelpTopic::ChunkShape }
}

/// Serial backpressure.
pub open spec fn stall_line_text(s: SerialStallSummary) -> Seq<char> {
    "Serial backpressure (run): "@ + decimal(s.episodes as nat)
        + " completed episodes · completed total "@ + s.total@ + " · completed max "@ + s.max@
        + active_text(" · active "@, s.active_for)
}

/// Where arrival times come from.
pub open spec fn arrival_text(a: ArrivalTimestamps) -> Seq<char> {
    match a.status {
        ArrivalTimestampStatus::PostRead => "Arrival timestamps: post-read · "@ + decimal(
            a.post_read_samples as nat,
        ) + " chunks"@,
        ArrivalTimestampStatus::KernelSoftware => "Arrival timestamps: Linux kernel software · "@
            + decimal(a.kernel_samples as nat) + " chunks"@ + if a.post_read_samples > 0 {
            " · "@ + decimal(a.post_read_samples as nat) + " post-read fallbacks"@
        } else {
            Seq::empty()
        },
        ArrivalTimestampStatus::KernelRequestedUnavailable =>
            "Arrival timestamps: kernel unavailable · post-read fallback · "@ + decimal(
                a.post_read_samples as nat,
            ) + " chunks"@,
    }
}

fn arrival_line(a: ArrivalTimestamps) -> (r: DetailLine)
    ensures
        r@ == weak(arrival_text(a), HelpTopic::ArrivalTimestamp),
{
    let mut out: String = String::new();
    match a.status {
        ArrivalTimestampStatus::PostRead => {
            out.append("Arrival timestamps: post-read · ");
            push_decimal(&mut out, a.post_read_samples);
            out.append(" chunks");
        },
        ArrivalTimestampStatus::KernelSoftware => {
            out.append("Arrival timestamps: Linux kernel software · ");
            push_decimal(&mut out, a.kernel_samples);
            out.append(" chunks");
            if a.post_read_samples > 0 {
                out.append(" · ");
                push_decimal(&mut out, a.post_read_samples);
                out.append(" post-read fallbacks");
            }
        },
        ArrivalTimestampStatus::KernelRequestedUnavailable => {
            out.append("Arrival timestamps: kernel unavailable · post-read fallback · ");
            push_decimal(&mut out, a.post_read_samples);
            out.append(" chunks");
        },
    }
    assert(out@ =~= arrival_text(a));
    DetailLine { text: out, emphasis: Emphasis::Weak, help: HelpTopic::ArrivalTimestamp }
}

/// The kernel's drop counter.
pub open spec fn udp_line_model(c: CounterAvailability) -> Line {
    match c {
        CounterAvailability::NotApplicable => weak(
            "UDP kernel drops: not applicable"@,
            HelpTopic::UdpNotApplicable,
        ),
        CounterAvailability::Unsupported => weak(
            "UDP kernel drops: counter unavailable"@,
            HelpTopic::UdpUnavailable,
        ),
        CounterAvailability::Available(dropped) => Line {
            text: "UDP kernel receive-queue drops: "@ + drops_text(dropped),
            emphasis: if dropped > 0 {
                Emphasis::Warning
            } else {
                Emphasis::Weak
            },
            help: HelpTopic::UdpAvailable,
        },
    }
}

fn udp_line(c: CounterAvailability) -> (r: DetailLine)
    ensures
        r@ == udp_line_model(c),
{
    match c {
        CounterAvailability::NotApplicable => DetailLine {
            text: "UDP kernel drops: not applicable".to_owned(),
            emphasis: Emphasis::Weak,
            help: HelpTopic::UdpNotApplicable,
        },
        CounterAvailability::Unsupported => DetailLine {
            text: "UDP kernel drops: counter unavailable".to_owned(),
            emphasis: Emphasis::Weak,
            help: HelpTopic::UdpUnavailable,
        },
        CounterAvailability::Available(dropped) => {
            let mut text: String = "UDP kernel receive-queue drops: ".to_owned();
            let count: String = reported_udp_drops(dropped);
            text.append(count.as_str());
            DetailLine {
                text,
                emphasis: if dropped > 0 {
                    Emphasis::Warning
                } else {
                    Emphasis::Weak
                },
                help: HelpTopic::UdpAvailable,
            }
        },
    }
}

/// A rule that is enabled and waits for silence.
pub open spec fn is_idle_rule(rule: MatchRule) -> bool {
    rule.enabled && rule.condition is Idle
}

/// Whether a rule waits for silence.
pub fn has_idle_rule(rules: &Vec<MatchRule>) -> (r: bool)
    ensures
        r == (exists|i: int| 0 <= i < rules@.len() && is_idle_rule(#[trigger] rules@[i])),
{
    let mut i: usize = 0;
    while i < rules.len()
        invariant
            i <= rules.len(),
            forall|j: int| 0 <= j < i ==> !is_idle_rule(#[trigger] rules@[j]),
        decreases rules.len() - i,
    {
        let idle: bool = match &rules[i].condition {
            MatchCondition::Idle { timeout_ms: _ } => true,
            MatchCondition::BytePattern { pattern: _ } => false,
        };
        if rules[i].enabled && idle {
            assert(is_idle_rule(rules@[i as int]));
            return true;
        }
        i = i + 1;
    }
    false
}

/// How the waits for idle deadlines were done.
pub open spec fn idle_timer_text(t: IdleTimerCounts, windows: bool) -> Seq<char> {
    if windows {
        let sum = t.windows_one_millisecond_waits as nat + t.windows_request_failures as nat;
        "Idle timer: completed wakes "@ + decimal(
            if sum > u64::MAX {
                u64::MAX as nat
            } else {
                sum
            },
        ) + " · 1 ms effective "@ + decimal(t.windows_one_millisecond_waits as nat)
            + " · 1 ms unavailable "@ + decimal(t.windows_request_failures as nat)
    } else {
        "Idle timer: completed native deadline wakes "@ + decimal(t.native_waits as nat)
    }
}

fn idle_timer_line(t: IdleTimerCounts, windows: bool) -> (r: DetailLine)
    ensures
        r@ == weak(idle_timer_text(t, windows), HelpTopic::IdleTimer),
{
    let mut out: String = String::new();
    if windows {
        out.append("Idle timer: completed wakes ");
        push_decimal(
            &mut out,
            t.windows_one_millisecond_waits.saturating_add(t.windows_request_failures),
        );
        out.append(" · 1 ms effective ");
        push_decimal(&mut out, t.windows_one_millisecond_waits);
        out.append(" · 1 ms unavailable ");
        push_decimal(&mut out, t.windows_request_failures);
    } else {
        out.append("Idle timer: completed native deadline wakes ");
        push_decimal(&mut out, t.native_waits);
    }
    assert(out@ =~= idle_timer_text(t, windows));
    DetailLine { text: out, emphasis: Emphasis::Weak, help: HelpTopic::IdleTimer }
}

/// The ingest queue.
pub open spec fn ingest_line_text(q: QueueDepth) -> Seq<char> {
    if q.capacity == 0 {
        "Ingest pressure: awaiting first block"@
    } else {
        "Ingest pressure (run): peak "@ + ratio(q.peak, q.capacity) + " · last sample "@ + decimal(
            q.current as nat,
        )
    }
}

fn ingest_line(q: QueueDepth) -> (r: DetailLine)
    ensures
        r@ == weak(ingest_line_text(q), HelpTopic::IngestQueue),
{
    let mut out: String = String::new();
    if q.capacity == 0 {
        out.append("Ingest pressure: awaiting first block");
    } else {
        out.append("Ingest pressure (run): peak ");
        push_ratio(&mut out, q.peak, q.capacity);
        out.append(" · last sample ");
        push_decimal(&mut out, q.current as u64);
    }
    assert(out@ =~= ingest_line_text(q));
    DetailLine { text: out, emphasis: Emphasis::Weak, help: HelpTopic::IngestQueue }
}

/// The Raw recorder's queue.
pub open spec fn raw_line_model(raw: Option<QueueDepth>, recording: Option<RecordingState>) -> Line {
    match raw {
        Some(q) => if recording == Some(RecordingState::Faulted) {
            Line {
                text: "Raw record queue (faulted): highest observed "@ + ratio(q.peak, q.capacity),
                emphasis: Emphasis::Fault,
                help: HelpTopic::RawQueueFaulted,
            }
        } else if recording == Some(RecordingState::Enabled) {
            Line {
                text: "Raw record queue: latest sample "@ + ratio(q.current, q.capacity)
                    + " · highest observed "@ + decimal(q.peak as nat),
                emphasis: if q.capacity > 0 && 2 * q.current >= q.capacity {
                    Emphasis::Warning
                } else {
                    Emphasis::Weak
                },
                help: HelpTopic::RawQueueActive,
            }
        } else {
            weak(
                "Raw record queue (retained): highest observed "@ + ratio(q.peak, q.capacity),
                HelpTopic::RawQueueRetained,
            )
        },
        None => weak("Raw record queue: (not recording)"@, HelpTopic::RawQueueInactive),
    }
}

fn raw_line(raw: Option<QueueDepth>, recording: Option<RecordingState>) -> (r: DetailLine)
    ensures
        r@ == raw_line_model(raw, recording),
{
    match (raw, recording) {
        (Some(q), Some(RecordingState::Faulted)) => {
            let mut text: String = "Raw record queue (faulted): highest observed ".to_owned();
            push_ratio(&mut text, q.peak, q.capacity);
            DetailLine { text, emphasis: Emphasis::Fault, help: HelpTopic::RawQueueFaulted }
        },
        (Some(q), Some(RecordingState::Enabled)) => {
            let mut text: String = "Raw record queue: latest sample ".to_owned();
            push_ratio(&mut text, q.current, q.capacity);
            text.append(" · highest observed ");
            push_decimal(&mut text, q.peak as u64);
            DetailLine {
                text,
                emphasis: if queue_level_reaches_half(q.current, q.capacity) {
                    Emphasis::Warning
                } else {
                    Emphasis::Weak
                },
                help: HelpTopic::RawQueueActive,
            }
        },
        (Some(q), _) => {
            let mut text: String = "Raw record queue (retained): highest observed ".to_owned();
            push_ratio(&mut text, q.peak, q.capacity);
            DetailLine { text, emphasis: Emphasis::Weak, help: HelpTopic::RawQueueRetained }
        },
        (None, _) => DetailLine {
            text: "Raw record queue: (not recording)".to_owned(),
            emphasis: Emphasis::Weak,
            help: HelpTopic::RawQueueInactive,
        },
    }
}

/// The stall line, where there is anything to say of stalls.
pub open spec fn stall_lines(s: Option<SerialStallSummary>) -> Seq<Line> {
    match s {
        Some(stalls) => seq![weak(stall_line_text(stalls), HelpTopic::SerialBackpressure)],
        None => Seq::empty(),
    }
}

/// The idle rules are told of where there is one, or was one in this run.
pub open spec fn shows_idle(facts: ReceiveFacts, has_idle_rule: bool) -> bool {
    has_idle_rule || facts.idle_run.samples > 0
}

/// What is told of idle rules and their timer, where they matter.
pub open spec fn idle_lines(
    facts: ReceiveFacts,
    window: Seq<char>,
    has_idle_rule: bool,
    windows: bool,
) -> Seq<Line> {
    if shows_idle(facts, has_idle_rule) {
        seq![
            weak(
                timing_text(idle_phrases(), window, facts.idle_run, facts.idle_recent),
                HelpTopic::IdleRuleTiming,
            ),
            weak(idle_timer_text(facts.idle_timer, windows), HelpTopic::IdleTimer),
        ]
    } else {
        Seq::empty()
    }
}

/// The lines in their order: handoff, processing, chunks, stalls, arrival times, kernel
/// drops, idle rules, the ingest queue and the Raw recorder's queue.
pub open spec fn detail_lines(
    facts: ReceiveFacts,
    status: ChannelStatus,
    has_idle_rule: bool,
    windows: bool,
) -> Seq<Line> {
    let window = window_name(status);
    seq![
        weak(
            timing_text(
                handoff_phrases(),
                window,
                facts.handoff_run,
                facts.handoff_recent,
            ),
            HelpTopic::Handoff,
        ),
        weak(
            timing_text(
                processing_phrases(),
                window,
                facts.processing_run,
                facts.processing_recent,
            ),
            HelpTopic::Processing,
        ),
        weak(chunk_line_text(facts.chunks), HelpTopic::ChunkShape),
    ] + stall_lines(facts.transport.serial_stalls) + seq![
        weak(arrival_text(facts.transport.arrival_timestamps), HelpTopic::ArrivalTimestamp),
        udp_line_model(facts.transport.udp_kernel_drops),
    ] + idle_lines(facts, window, has_idle_rule, windows) + seq![
        weak(ingest_line_text(facts.ingest_queue), HelpTopic::IngestQueue),
        raw_line_model(facts.raw_queue, facts.raw_recording),
    ]
}

/// The details of the receive diagnostics, line by line.
pub fn receive_transport_details(
    facts: &ReceiveFacts,
    status: ChannelStatus,
    has_idle_rule: bool,
    windows: bool,
) -> (r: Vec<DetailLine>)
    ensures
        lines_view(r@) == detail_lines(*facts, status, has_idle_rule, windows),
{
    let window: &str = timing_window(status);
    let mut out: Vec<DetailLine> = Vec::new();
    out.push(
        timing_line(
            handoff_words(),
            window,
            &facts.handoff_run,
            &facts.handoff_recent,
            HelpTopic::Handoff,
        ),
    );
    out.push(
        timing_line(
            processing_words(),
            window,
            &facts.processing_run,
            &facts.processing_recent,
            HelpTopic::Processing,
        ),
    );
    out.push(chunk_line(&facts.chunks));
    let ghost first = lines_view(out@);
    if let Some(s) = &facts.transport.serial_stalls {
        let mut text: String = "Serial backpressure (run): ".to_owned();
        push_decimal(&mut text, s.episodes);
        text.append(" completed episodes · completed total ");
        text.append(s.total.as_str());
        text.append(" · completed max ");
        text.append(s.max.as_str());
        push_active(&mut text, " · active ", &s.active_for);
        out.push(
            DetailLine { text, emphasis: Emphasis::Weak, help: HelpTopic::SerialBackpressure },
        );
    }
    assert(lines_view(out@) =~= first + stall_lines(facts.transport.serial_stalls));
    let ghost second = lines_view(out@);
    out.push(arrival_line(facts.transport.arrival_timestamps));
    out.push(udp_line(facts.transport.udp_kernel_drops));
    let ghost third = lines_view(out@);
    if has_idle_rule || facts.idle_run.samples > 0 {
        out.push(
            timing_line(
                idle_words(),
                window,
                &facts.idle_run,
                &facts.idle_recent,
                HelpTopic::IdleRuleTiming,
            ),
        );
        out.push(idle_timer_line(facts.idle_timer, windows));
    }
    assert(lines_view(out@) =~= third + idle_lines(*facts, window@, has_idle_rule, windows));
    out.push(ingest_line(facts.ingest_queue));
    out.push(raw_line(facts.raw_queue, facts.raw_recording));
    assert(lines_view(out@) =~= detail_lines(*facts, status, has_idle_rule, windows));
    out
}

} // verus!
