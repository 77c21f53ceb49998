//! What the lines of the receive details tell.

use vstd::prelude::*;
use vstd::string::*;

use crate::gui::cards::{
    active_text, drops_text, ratio, window_name, ArrivalTimestampStatus, ArrivalTimestamps, ChunkSummary,
    CounterAvailability, IdleTimerCounts, ReceiveFacts, SerialStallSummary, TimingSummary,
};
use crate::gui::details::{
    arrival_text, chunk_line_text, detail_lines, gap_text, handoff_phrases, idle_lines,
    idle_phrases, idle_timer_text, ingest_line_text, processing_phrases, raw_line_model, size_text,
    stall_line_text, stall_lines, timing_text, udp_line_model, Emphasis, HelpTopic, Line, Phrases,
};
use crate::gui::snapshot::QueueDepth;
use crate::gui::state::ChannelStatus;
use crate::laws::cards::{law_drops_are_told, lemma_ratio, lemma_stalls, stall_parts};
use crate::laws::telling::{
    lemma_after, lemma_behind, lemma_nothing, lemma_number, lemma_words, tells, Part,
};
use crate::laws::text::is_digit;
use crate::model::state::RecordingState;
use crate::text::decimal;

verus! {

/// Words that a timing can be told in: no number runs into them.
pub open spec fn plain_words(w: Phrases) -> bool {
    &&& w.count_lead.len() > 0 ==> !is_digit(w.count_lead.last())
    &&& w.count_tail.len() > 0 && !is_digit(w.count_tail[0])
}

/// What is told of a timing once there is one: its window, the number of samples and the
/// longest while there are fewer than twenty, then the bound, and last the longest of the
/// run.
pub open spec fn timing_parts(window: Seq<char>, run: TimingSummary, recent: TimingSummary) -> Seq<Part> {
    seq![Part::Words(window)] + if recent.samples == 0 {
        seq![Part::Words(run.max@)]
    } else if recent.samples < 20 {
        seq![
            Part::Number(recent.samples as nat),
            Part::Words(recent.max@),
            Part::Words(run.max@),
        ]
    } else {
        seq![Part::Words(recent.p99@), Part::Words(run.max@)]
    }
}

/// A timing begins with its title and tells what was measured, once anything was.
#[verifier::rlimit(40)]
pub proof fn law_measured_timings_are_told(
    words: Phrases,
    window: Seq<char>,
    run: TimingSummary,
    recent: TimingSummary,
)
    requires
        plain_words(words),
    ensures
        ({
            let t = timing_text(words, window, run, recent);
            &&& t.len() >= words.title.len() && t.take(words.title.len() as int) == words.title
            &&& run.samples > 0 ==> tells(t, timing_parts(window, run, recent))
        }),
{
    reveal_strlit(" (");
    reveal_strlit("): ");
    reveal_strlit(": ");
    reveal_strlit(" · run max ");
    reveal_strlit(" · max ");
    let t = timing_text(words, window, run, recent);
    assert(t.take(words.title.len() as int) =~= words.title);
    if run.samples > 0 {
        let tail = " · run max "@ + run.max@ + Seq::empty();
        let last = seq![Part::Words(run.max@)];
        lemma_nothing(Seq::empty());
        lemma_words(" · run max "@, run.max@, Seq::empty(), Seq::empty());
        assert(last + Seq::empty() =~= last);
        assert(tail[0] == " · run max "@[0]);
        lemma_middle(words, tail, last, run, recent);
        let middle = timing_middle(words, tail, run, recent);
        let b = "): "@ + middle;
        lemma_behind("): "@, middle, middle_parts(last, recent));
        assert(b[0] == "): "@[0]);
        lemma_words(words.title + " ("@, window, b, middle_parts(last, recent));
        assert(words.title + " ("@ + window + b =~= t);
        assert(seq![Part::Words(window)] + middle_parts(last, recent) =~= timing_parts(
            window,
            run,
            recent,
        ));
    }
}

spec fn timing_middle(words: Phrases, tail: Seq<char>, run: TimingSummary, recent: TimingSummary) -> Seq<
    char,
> {
    if recent.samples == 0 {
        words.none_recent + tail
    } else if recent.samples < 20 {
        words.count_lead + decimal(recent.samples as nat) + words.count_tail + " · max "@
            + recent.max@ + tail
    } else {
        words.bound + recent.p99@ + tail
    }
}

spec fn middle_parts(last: Seq<Part>, recent: TimingSummary) -> Seq<Part> {
    (if recent.samples == 0 {
        Seq::empty()
    } else if recent.samples < 20 {
        seq![Part::Number(recent.samples as nat), Part::Words(recent.max@)]
    } else {
        seq![Part::Words(recent.p99@)]
    }) + last
}

proof fn lemma_middle(
    words: Phrases,
    tail: Seq<char>,
    last: Seq<Part>,
    run: TimingSummary,
    recent: TimingSummary,
)
    requires
        plain_words(words),
        tells(tail, last),
        tail.len() > 0 && !is_digit(tail[0]),
    ensures
        tells(timing_middle(words, tail, run, recent), middle_parts(last, recent)),
{
    reveal_strlit(" · max ");
    if recent.samples == 0 {
        lemma_after(words.none_recent, tail, last);
        assert(middle_parts(last, recent) =~= last);
    } else if recent.samples < 20 {
        let x = words.count_tail + " · max "@;
        lemma_words(x, recent.max@, tail, last);
        let b = x + recent.max@ + tail;
        assert(b[0] == words.count_tail[0]);
        lemma_number(
            words.count_lead,
            recent.samples as nat,
            b,
            seq![Part::Words(recent.max@)] + last,
        );
        assert(words.count_lead + decimal(recent.samples as nat) + b =~= timing_middle(
            words,
            tail,
            run,
            recent,
        ));
        assert(seq![Part::Number(recent.samples as nat)] + (seq![Part::Words(recent.max@)] + last)
            =~= middle_parts(last, recent));
    } else {
        lemma_words(words.bound, recent.p99@, tail, last);
    }
}

/// The words of the three timings are fit, and their titles differ.
pub proof fn law_timings_have_their_own_titles()
    ensures
        plain_words(handoff_phrases()),
        plain_words(processing_phrases()),
        plain_words(idle_phrases()),
        handoff_phrases().title != processing_phrases().title,
        handoff_phrases().title != idle_phrases().title,
        processing_phrases().title != idle_phrases().title,
{
    reveal_strlit("Handoff timing");
    reveal_strlit("Processing timing");
    reveal_strlit("Idle rule timing");
    reveal_strlit("warming up (");
    reveal_strlit(" chunks)");
    reveal_strlit("");
    reveal_strlit(" firings");
    assert("Handoff timing"@.len() == 14 && "Processing timing"@.len() == 17
        && "Idle rule timing"@.len() == 16);
}

/// What is told of the sizes of blocks: mean and longest while there are fewer than
/// twenty, then the median, the bound and the longest.
pub open spec fn size_parts(c: ChunkSummary) -> Seq<Part> {
    if c.count < 20 {
        seq![Part::Words(c.mean_size@), Part::Words(c.max_size@)]
    } else {
        seq![Part::Words(c.p50_size@), Part::Words(c.p99_size@), Part::Words(c.max_size@)]
    }
}

/// What is told of the gaps between blocks.
pub open spec fn gap_parts(g: TimingSummary) -> Seq<Part> {
    if g.samples == 0 {
        Seq::empty()
    } else if g.samples < 20 {
        seq![Part::Words(g.max@)]
    } else {
        seq![Part::Words(g.p99@)]
    }
}

proof fn lemma_gap(g: TimingSummary)
    ensures
        tells(" · "@ + gap_text(g), gap_parts(g)),
        (" · "@ + gap_text(g)).len() > 0,
        !is_digit((" · "@ + gap_text(g))[0]),
{
    reveal_strlit(" · ");
    reveal_strlit("read gap max ");
    reveal_strlit("read gap p99 ≤ ");
    lemma_nothing(Seq::empty());
    let t = " · "@ + gap_text(g);
    assert(t[0] == " · "@[0]);
    if g.samples == 0 {
        lemma_nothing(t);
    } else if g.samples < 20 {
        let a = " · "@ + "read gap max "@;
        lemma_words(a, g.max@, Seq::empty(), Seq::empty());
        assert(a + g.max@ + Seq::empty() =~= t);
        assert(seq![Part::Words(g.max@)] + Seq::empty() =~= gap_parts(g));
    } else {
        let a = " · "@ + "read gap p99 ≤ "@;
        lemma_words(a, g.p99@, Seq::empty(), Seq::empty());
        assert(a + g.p99@ + Seq::empty() =~= t);
        assert(seq![Part::Words(g.p99@)] + Seq::empty() =~= gap_parts(g));
    }
}

proof fn lemma_size(c: ChunkSummary, tail: Seq<char>, parts: Seq<Part>)
    requires
        tells(tail, parts),
        tail.len() > 0 && !is_digit(tail[0]),
    ensures
        tells(" · "@ + size_text(c) + tail, size_parts(c) + parts),
        !is_digit((" · "@ + size_text(c) + tail)[0]),
{
    reveal_strlit(" · ");
    reveal_strlit("size mean ");
    reveal_strlit(" · max ");
    reveal_strlit("size p50 ≤ ");
    reveal_strlit(" · p99 ≤ ");
    let t = " · "@ + size_text(c) + tail;
    assert(t[0] == " · "@[0]);
    lemma_words(" · max "@, c.max_size@, tail, parts);
    let last = " · max "@ + c.max_size@ + tail;
    assert(last[0] == " · max "@[0]);
    let one = seq![Part::Words(c.max_size@)] + parts;
    if c.count < 20 {
        let a = " · "@ + "size mean "@;
        lemma_words(a, c.mean_size@, last, one);
        assert(a + c.mean_size@ + last =~= t);
        assert(seq![Part::Words(c.mean_size@)] + one =~= size_parts(c) + parts);
    } else {
        lemma_words(" · p99 ≤ "@, c.p99_size@, last, one);
        let more = " · p99 ≤ "@ + c.p99_size@ + last;
        assert(more[0] == " · p99 ≤ "@[0]);
        let two = seq![Part::Words(c.p99_size@)] + one;
        let a = " · "@ + "size p50 ≤ "@;
        lemma_words(a, c.p50_size@, more, two);
        assert(a + c.p50_size@ + more =~= t);
        assert(seq![Part::Words(c.p50_size@)] + two =~= size_parts(c) + parts);
    }
}

/// The line on blocks tells how many there were, their sizes and their gaps, once there
/// was one.
pub proof fn law_blocks_are_told(c: ChunkSummary)
    ensures
        c.count > 0 ==> tells(
            chunk_line_text(c),
            seq![Part::Number(c.count as nat)] + (size_parts(c) + gap_parts(c.gaps)),
        ),
        c.count == 0 ==> forall|i: int|
            0 <= i < chunk_line_text(c).len() ==> !is_digit(#[trigger] chunk_line_text(c)[i]),
{
    reveal_strlit("Chunk shape: awaiting first chunk");
    reveal_strlit("Chunks (run): ");
    if c.count > 0 {
        let tail = " · "@ + gap_text(c.gaps);
        lemma_gap(c.gaps);
        lemma_size(c, tail, gap_parts(c.gaps));
        let b = " · "@ + size_text(c) + tail;
        lemma_number("Chunks (run): "@, c.count as nat, b, size_parts(c) + gap_parts(c.gaps));
        assert("Chunks (run): "@ + decimal(c.count as nat) + b =~= chunk_line_text(c));
    }
}

/// The line on stalls tells them.
pub proof fn law_stall_lines_tell_the_stalls(s: SerialStallSummary)
    ensures
        tells(stall_line_text(s), stall_parts(s)),
{
    reveal_strlit("Serial backpressure (run): ");
    reveal_strlit(" completed episodes · completed total ");
    reveal_strlit(" · completed max ");
    reveal_strlit(" · active ");
    lemma_stalls(
        s,
        "Serial backpressure (run): "@,
        " completed episodes · completed total "@,
        " · completed max "@,
        Seq::empty(),
        " · active "@,
        Seq::empty(),
    );
    assert("Serial backpressure (run): "@ + decimal(s.episodes as nat)
        + " completed episodes · completed total "@ + s.total@ + " · completed max "@ + s.max@ + (
    Seq::empty() + active_text(" · active "@, s.active_for) + Seq::empty()) =~= stall_line_text(s));
}

/// The line on arrival times tells how many came from where: those of the kernel first
/// where it gives them, with the others behind them where there are any.
pub proof fn law_arrival_times_are_told(a: ArrivalTimestamps)
    ensures
        tells(
            arrival_text(a),
            if a.status is KernelSoftware {
                if a.post_read_samples > 0 {
                    seq![
                        Part::Number(a.kernel_samples as nat),
                        Part::Number(a.post_read_samples as nat),
                    ]
                } else {
                    seq![Part::Number(a.kernel_samples as nat)]
                }
            } else {
                seq![Part::Number(a.post_read_samples as nat)]
            },
        ),
{
    reveal_strlit("Arrival timestamps: post-read · ");
    reveal_strlit("Arrival timestamps: Linux kernel software · ");
    reveal_strlit("Arrival timestamps: kernel unavailable · post-read fallback · ");
    reveal_strlit(" chunks");
    reveal_strlit(" · ");
    reveal_strlit(" post-read fallbacks");
    lemma_nothing(" chunks"@);
    let post = seq![Part::Number(a.post_read_samples as nat)];
    let kernel = seq![Part::Number(a.kernel_samples as nat)];
    assert(post + Seq::empty() =~= post);
    assert(kernel + Seq::empty() =~= kernel);
    match a.status {
        ArrivalTimestampStatus::PostRead => {
            lemma_number(
                "Arrival timestamps: post-read · "@,
                a.post_read_samples as nat,
                " chunks"@,
                Seq::empty(),
            );
        },
        ArrivalTimestampStatus::KernelSoftware => {
            let lead = "Arrival timestamps: Linux kernel software · "@;
            if a.post_read_samples > 0 {
                lemma_nothing(" post-read fallbacks"@);
                let mid = " chunks"@ + " · "@;
                lemma_number(
                    mid,
                    a.post_read_samples as nat,
                    " post-read fallbacks"@,
                    Seq::empty(),
                );
                let b = mid + decimal(a.post_read_samples as nat) + " post-read fallbacks"@;
                assert(b[0] == " chunks"@[0]);
                lemma_number(lead, a.kernel_samples as nat, b, post + Seq::empty());
                assert(lead + decimal(a.kernel_samples as nat) + b =~= arrival_text(a));
                assert(kernel + post =~= seq![
                    Part::Number(a.kernel_samples as nat),
                    Part::Number(a.post_read_samples as nat),
                ]);
            } else {
                lemma_number(lead, a.kernel_samples as nat, " chunks"@, Seq::empty());
                assert(lead + decimal(a.kernel_samples as nat) + " chunks"@ =~= arrival_text(a));
            }
        },
        ArrivalTimestampStatus::KernelRequestedUnavailable => {
            lemma_number(
                "Arrival timestamps: kernel unavailable · post-read fallback · "@,
                a.post_read_samples as nat,
                " chunks"@,
                Seq::empty(),
            );
        },
    }
}

/// The line on kernel drops tells their count where there is one, stands out where it is
/// not zero, and is explained by whether there is one.
pub proof fn law_drop_lines_tell_the_drops(c: CounterAvailability)
    ensures
        c matches CounterAvailability::Available(n) ==> tells(
            udp_line_model(c).text,
            seq![Part::Number(n as nat)],
        ) && (udp_line_model(c).emphasis == Emphasis::Warning <==> n > 0) && udp_line_model(c).help
            == HelpTopic::UdpAvailable,
        !(c is Available) ==> udp_line_model(c).emphasis == Emphasis::Weak,
        c is Unsupported ==> udp_line_model(c).help == HelpTopic::UdpUnavailable,
        c is NotApplicable ==> udp_line_model(c).help == HelpTopic::UdpNotApplicable,
        udp_line_model(c).emphasis != Emphasis::Fault,
{
    reveal_strlit("UDP kernel receive-queue drops: ");
    if let CounterAvailability::Available(n) = c {
        law_drops_are_told(n);
        lemma_behind(
            "UDP kernel receive-queue drops: "@,
            drops_text(n),
            seq![Part::Number(n as nat)],
        );
    }
}

/// The line on the idle timer tells the wakes: on Windows all of them, as far as they can
/// be counted, those that were precise and those that could not be; elsewhere all of them.
pub proof fn law_idle_wakes_are_told(t: IdleTimerCounts)
    ensures
        tells(idle_timer_text(t, false), seq![Part::Number(t.native_waits as nat)]),
        tells(
            idle_timer_text(t, true),
            seq![
                Part::Number(
                    if t.windows_one_millisecond_waits + t.windows_request_failures
                        > 0xFFFF_FFFF_FFFF_FFFF {
                        0xFFFF_FFFF_FFFF_FFFF
                    } else {
                        (t.windows_one_millisecond_waits + t.windows_request_failures) as nat
                    },
                ),
                Part::Number(t.windows_one_millisecond_waits as nat),
                Part::Number(t.windows_request_failures as nat),
            ],
        ),
{
    reveal_strlit("Idle timer: completed native deadline wakes ");
    reveal_strlit("Idle timer: completed wakes ");
    reveal_strlit(" · 1 ms effective ");
    reveal_strlit(" · 1 ms unavailable ");
    lemma_nothing(Seq::empty());
    let native = seq![Part::Number(t.native_waits as nat)];
    assert(native + Seq::empty() =~= native);
    let lead = "Idle timer: completed native deadline wakes "@;
    lemma_number(lead, t.native_waits as nat, Seq::empty(), Seq::empty());
    assert(lead + decimal(t.native_waits as nat) + Seq::empty() =~= idle_timer_text(t, false));
    let sum: nat = if t.windows_one_millisecond_waits + t.windows_request_failures
        > 0xFFFF_FFFF_FFFF_FFFF {
        0xFFFF_FFFF_FFFF_FFFF
    } else {
        (t.windows_one_millisecond_waits + t.windows_request_failures) as nat
    };
    let x = t.windows_one_millisecond_waits as nat;
    let y = t.windows_request_failures as nat;
    lemma_number(" · 1 ms unavailable "@, y, Seq::empty(), Seq::empty());
    let b = " · 1 ms unavailable "@ + decimal(y) + Seq::empty();
    assert(b[0] == " · 1 ms unavailable "@[0]);
    let one = seq![Part::Number(y)] + Seq::empty();
    lemma_number(" · 1 ms effective "@, x, b, one);
    let c = " · 1 ms effective "@ + decimal(x) + b;
    assert(c[0] == " · 1 ms effective "@[0]);
    let two = seq![Part::Number(x)] + one;
    lemma_number("Idle timer: completed wakes "@, sum, c, two);
    assert("Idle timer: completed wakes "@ + decimal(sum) + c =~= idle_timer_text(t, true));
    assert(seq![Part::Number(sum)] + two =~= seq![
        Part::Number(sum),
        Part::Number(x),
        Part::Number(y),
    ]);
}

/// The line on the ingest queue tells its highest level, its capacity and its level, once
/// it has a capacity.
pub proof fn law_ingest_lines_tell_the_queue(q: QueueDepth)
    requires
        q.capacity > 0,
    ensures
        tells(
            ingest_line_text(q),
            seq![
                Part::Number(q.peak as nat),
                Part::Number(q.capacity as nat),
                Part::Number(q.current as nat),
            ],
        ),
{
    reveal_strlit("Ingest pressure (run): peak ");
    reveal_strlit(" · last sample ");
    lemma_nothing(Seq::empty());
    let last = seq![Part::Number(q.current as nat)] + Seq::empty();
    lemma_number(" · last sample "@, q.current as nat, Seq::empty(), Seq::empty());
    let b = " · last sample "@ + decimal(q.current as nat) + Seq::empty();
    assert(b[0] == " · last sample "@[0]);
    lemma_ratio("Ingest pressure (run): peak "@, q.peak, q.capacity, b, last);
    assert("Ingest pressure (run): peak "@ + ratio(q.peak, q.capacity) + b =~= ingest_line_text(q));
    assert(seq![Part::Number(q.peak as nat), Part::Number(q.capacity as nat)] + last =~= seq![
        Part::Number(q.peak as nat),
        Part::Number(q.capacity as nat),
        Part::Number(q.current as nat),
    ]);
}

/// The line on the recorder's queue tells its level, its capacity and its highest level
/// while it records, and the highest level and the capacity afterwards. It is a fault
/// where the recording failed, and a warning only while it records with a queue that is
/// at least half full.
#[verifier::rlimit(40)]
pub proof fn law_raw_lines_tell_the_queue(q: QueueDepth, recording: Option<RecordingState>)
    ensures
        ({
            let on = recording == Some(RecordingState::Enabled);
            let bad = recording == Some(RecordingState::Faulted);
            let line = raw_line_model(Some(q), recording);
            &&& on ==> tells(
                line.text,
                seq![
                    Part::Number(q.current as nat),
                    Part::Number(q.capacity as nat),
                    Part::Number(q.peak as nat),
                ],
            )
            &&& !on ==> tells(
                line.text,
                seq![Part::Number(q.peak as nat), Part::Number(q.capacity as nat)],
            )
            &&& line.emphasis == Emphasis::Fault <==> bad
            &&& line.emphasis == Emphasis::Warning <==> on && q.capacity > 0 && q.current
                + q.current >= q.capacity
            &&& line.help == if bad {
                HelpTopic::RawQueueFaulted
            } else if on {
                HelpTopic::RawQueueActive
            } else {
                HelpTopic::RawQueueRetained
            }
            &&& raw_line_model(None, recording).help == HelpTopic::RawQueueInactive
            &&& raw_line_model(None, recording).emphasis == Emphasis::Weak
        }),
{
    reveal_strlit("Raw record queue (faulted): highest observed ");
    reveal_strlit("Raw record queue: latest sample ");
    reveal_strlit(" · highest observed ");
    reveal_strlit("Raw record queue (retained): highest observed ");
    lemma_nothing(Seq::empty());
    let line = raw_line_model(Some(q), recording).text;
    let two = seq![Part::Number(q.peak as nat), Part::Number(q.capacity as nat)];
    assert(two + Seq::empty() =~= two);
    if recording == Some(RecordingState::Enabled) {
        let last = seq![Part::Number(q.peak as nat)] + Seq::empty();
        lemma_number(" · highest observed "@, q.peak as nat, Seq::empty(), Seq::empty());
        let b = " · highest observed "@ + decimal(q.peak as nat) + Seq::empty();
        assert(b[0] == " · highest observed "@[0]);
        lemma_ratio("Raw record queue: latest sample "@, q.current, q.capacity, b, last);
        assert("Raw record queue: latest sample "@ + ratio(q.current, q.capacity) + b =~= line);
        assert(seq![Part::Number(q.current as nat), Part::Number(q.capacity as nat)] + last
            =~= seq![
            Part::Number(q.current as nat),
            Part::Number(q.capacity as nat),
            Part::Number(q.peak as nat),
        ]);
    } else if recording == Some(RecordingState::Faulted) {
        let a = "Raw record queue (faulted): highest observed "@;
        lemma_ratio(a, q.peak, q.capacity, Seq::empty(), Seq::empty());
        assert(a + ratio(q.peak, q.capacity) + Seq::empty() =~= line);
    } else {
        let a = "Raw record queue (retained): highest observed "@;
        lemma_ratio(a, q.peak, q.capacity, Seq::empty(), Seq::empty());
        assert(a + ratio(q.peak, q.capacity) + Seq::empty() =~= line);
    }
}

/// The topics of the lines, in their order.
pub open spec fn topics(lines: Seq<Line>) -> Seq<HelpTopic> {
    lines.map_values(|l: Line| l.help)
}

/// The details stand in a fixed order. Stalls are told of a serial transport only, and
/// idle rules where there is one or one has fired.
#[verifier::rlimit(40)]
pub proof fn law_details_stand_in_order(
    facts: ReceiveFacts,
    status: ChannelStatus,
    has_idle_rule: bool,
    windows: bool,
)
    ensures
        ({
            let t = topics(detail_lines(facts, status, has_idle_rule, windows));
            let serial = facts.transport.serial_stalls is Some;
            let idle = has_idle_rule || facts.idle_run.samples > 0;
            t =~= seq![HelpTopic::Handoff, HelpTopic::Processing, HelpTopic::ChunkShape] + (
            if serial {
                seq![HelpTopic::SerialBackpressure]
            } else {
                Seq::empty()
            }) + seq![
                HelpTopic::ArrivalTimestamp,
                udp_line_model(facts.transport.udp_kernel_drops).help,
            ] + (if idle {
                seq![HelpTopic::IdleRuleTiming, HelpTopic::IdleTimer]
            } else {
                Seq::empty()
            }) + seq![
                HelpTopic::IngestQueue,
                raw_line_model(facts.raw_queue, facts.raw_recording).help,
            ]
        }),
{
    let lines = detail_lines(facts, status, has_idle_rule, windows);
    assert(stall_lines(facts.transport.serial_stalls).len() <= 1);
    assert(idle_lines(
        facts,
        window_name(status),
        has_idle_rule,
        windows,
    ).len() <= 2);
}

/// The first lines tell the timings of the handoff and of the processing, each its own.
pub proof fn law_the_first_lines_tell_the_timings(
    facts: ReceiveFacts,
    status: ChannelStatus,
    has_idle_rule: bool,
    windows: bool,
)
    ensures
        ({
            let lines = detail_lines(facts, status, has_idle_rule, windows);
            let window = window_name(status);
            &&& facts.handoff_run.samples > 0 ==> tells(
                lines[0].text,
                timing_parts(window, facts.handoff_run, facts.handoff_recent),
            )
            &&& facts.processing_run.samples > 0 ==> tells(
                lines[1].text,
                timing_parts(window, facts.processing_run, facts.processing_recent),
            )
            &&& lines[2].text == chunk_line_text(facts.chunks)
            &&& lines[lines.len() - 2].text == ingest_line_text(facts.ingest_queue)
            &&& lines[lines.len() - 1] == raw_line_model(facts.raw_queue, facts.raw_recording)
        }),
{
    let window = window_name(status);
    law_timings_have_their_own_titles();
    law_measured_timings_are_told(
        handoff_phrases(),
        window,
        facts.handoff_run,
        facts.handoff_recent,
    );
    law_measured_timings_are_told(
        processing_phrases(),
        window,
        facts.processing_run,
        facts.processing_recent,
    );
}

} // verus!
