//! What the receive diagnostics say, and when they call for attention.

use vstd::prelude::*;
use vstd::string::*;

use crate::gui::cards::{
    active_text, badge, callout_texts, drop_callout_text, drops_text, has_stalled, ingest_phrase,
    pressure_tone, ratio, raw_phrase, recent_text, stall_callout_text, transport_line, window_name,
    worst, CounterAvailability, SerialStallSummary, SignalTone, TimingSummary, TransportHealth,
};
use crate::gui::snapshot::QueueDepth;
use crate::gui::state::ChannelStatus;
use crate::laws::text::{is_digit, law_decimal_reads_back};
use crate::laws::telling::{lemma_nothing, lemma_number, lemma_words, tells, Part};
use crate::model::state::RecordingState;
use crate::text::decimal;

verus! {

/// What is told of stalls: how many were completed, how long they took together, how long
/// the longest took, and how long one has lasted, where one lasts.
pub open spec fn stall_parts(s: SerialStallSummary) -> Seq<Part> {
    seq![Part::Number(s.episodes as nat), Part::Words(s.total@), Part::Words(s.max@)] + active_part(
        s.active_for,
    )
}

/// What is told of a stall that lasts.
pub open spec fn active_part(active: Option<String>) -> Seq<Part> {
    match active {
        Some(t) => seq![Part::Words(t@)],
        None => Seq::empty(),
    }
}

proof fn lemma_active(d: Seq<char>, lead: Seq<char>, active: Option<String>, e: Seq<char>)
    requires
        e.len() > 0 ==> !is_digit(e[0]),
    ensures
        tells(d + active_text(lead, active) + e, active_part(active)),
{
    match active {
        Some(t) => {
            lemma_nothing(e);
            lemma_words(d + lead, t@, e, Seq::empty());
            assert(d + lead + t@ + e =~= d + active_text(lead, active) + e);
            assert(seq![Part::Words(t@)] + Seq::empty() =~= active_part(active));
        },
        None => {
            lemma_nothing(d + active_text(lead, active) + e);
        },
    }
}

/// A number and two texts before what another text tells.
proof fn lemma_three(
    a: Seq<char>,
    n: nat,
    b: Seq<char>,
    x: Seq<char>,
    c: Seq<char>,
    y: Seq<char>,
    tail: Seq<char>,
    parts: Seq<Part>,
)
    requires
        a.len() > 0 ==> !is_digit(a.last()),
        b.len() > 0 && !is_digit(b[0]),
        c.len() > 0 && !is_digit(c[0]),
        tail.len() > 0 ==> !is_digit(tail[0]),
        tells(tail, parts),
    ensures
        tells(
            a + decimal(n) + b + x + c + y + tail,
            seq![Part::Number(n), Part::Words(x), Part::Words(y)] + parts,
        ),
{
    lemma_words(c, y, tail, parts);
    let behind = c + y + tail;
    assert(behind[0] == c[0]);
    lemma_words(b, x, behind, seq![Part::Words(y)] + parts);
    let rest = b + x + behind;
    assert(rest[0] == b[0]);
    lemma_number(a, n, rest, seq![Part::Words(x)] + (seq![Part::Words(y)] + parts));
    assert(a + decimal(n) + rest =~= a + decimal(n) + b + x + c + y + tail);
    assert(seq![Part::Number(n)] + (seq![Part::Words(x)] + (seq![Part::Words(y)] + parts)) =~= seq![
        Part::Number(n),
        Part::Words(x),
        Part::Words(y),
    ] + parts);
}

/// The parts of a line on stalls, in its words.
pub proof fn lemma_stalls(
    s: SerialStallSummary,
    a: Seq<char>,
    b: Seq<char>,
    c: Seq<char>,
    d: Seq<char>,
    lead: Seq<char>,
    e: Seq<char>,
)
    requires
        a.len() > 0 && !is_digit(a.last()),
        b.len() > 0 && !is_digit(b[0]),
        c.len() > 0 && !is_digit(c[0]),
        d.len() > 0 ==> !is_digit(d[0]),
        lead.len() > 0 && !is_digit(lead[0]),
        e.len() > 0 ==> !is_digit(e[0]),
    ensures
        tells(
            a + decimal(s.episodes as nat) + b + s.total@ + c + s.max@ + (d + active_text(
                lead,
                s.active_for,
            ) + e),
            stall_parts(s),
        ),
{
    let tail = d + active_text(lead, s.active_for) + e;
    lemma_active(d, lead, s.active_for, e);
    if tail.len() > 0 {
        if d.len() > 0 {
            assert(tail[0] == d[0]);
        } else if s.active_for is Some {
            assert(tail[0] == lead[0]);
        } else {
            assert(tail[0] == e[0]);
        }
    }
    lemma_three(
        a,
        s.episodes as nat,
        b,
        s.total@,
        c,
        s.max@,
        tail,
        active_part(s.active_for),
    );
}

/// The line on a serial transport tells its stalls, and warns where there was one or one
/// lasts.
pub proof fn law_serial_transports_tell_their_stalls(h: TransportHealth)
    requires
        h.serial_stalls is Some,
    ensures
        ({
            let s = h.serial_stalls->0;
            let line = transport_line(h);
            &&& tells(line.0, stall_parts(s))
            &&& line.1 == if s.episodes > 0 || s.active_for is Some {
                SignalTone::Warning
            } else {
                SignalTone::Neutral
            }
        }),
{
    reveal_strlit("Serial: ");
    reveal_strlit(" completed episodes · total ");
    reveal_strlit(" · max ");
    reveal_strlit(" · active ");
    let s = h.serial_stalls->0;
    lemma_stalls(
        s,
        "Serial: "@,
        " completed episodes · total "@,
        " · max "@,
        Seq::empty(),
        " · active "@,
        Seq::empty(),
    );
    assert("Serial: "@ + decimal(s.episodes as nat) + " completed episodes · total "@ + s.total@
        + " · max "@ + s.max@ + (Seq::empty() + active_text(" · active "@, s.active_for)
        + Seq::empty()) =~= transport_line(h).0);
}

/// A drop count is told: as itself, and that it is no more than a lower bound, unless it
/// is zero.
pub proof fn law_drops_are_told(dropped: u64)
    ensures
        tells(drops_text(dropped), seq![Part::Number(dropped as nat)]),
        dropped > 0 ==> drops_text(dropped).contains('\u{2265}'),
        dropped == 0 ==> !drops_text(dropped).contains('\u{2265}'),
{
    reveal_strlit("reported 0");
    reveal_strlit("reported ≥");
    lemma_nothing(Seq::empty());
    let parts = seq![Part::Number(dropped as nat)];
    assert(parts + Seq::empty() =~= parts);
    if dropped == 0 {
        law_decimal_reads_back(0);
        let a = "reported 0"@.take(9);
        lemma_number(a, 0, Seq::empty(), Seq::empty());
        assert(a + decimal(0) + Seq::empty() =~= drops_text(0));
    } else {
        lemma_number("reported ≥"@, dropped as nat, Seq::empty(), Seq::empty());
        assert("reported ≥"@ + decimal(dropped as nat) + Seq::empty() =~= drops_text(dropped));
        assert(drops_text(dropped)[9] == '\u{2265}');
    }
}

/// The line on a transport that is not serial tells the count of drops where it has one,
/// which is a fault where it is not zero; where it has none it says so, and it makes a
/// difference whether there could be one.
pub proof fn law_other_transports_tell_their_drops(h: TransportHealth)
    requires
        h.serial_stalls is None,
    ensures
        h.udp_kernel_drops matches CounterAvailability::Available(n) ==> tells(
            transport_line(h).0,
            seq![Part::Number(n as nat)],
        ) && transport_line(h).1 == if n > 0 {
            SignalTone::Fault
        } else {
            SignalTone::Neutral
        },
        !(h.udp_kernel_drops is Available) ==> transport_line(h).1 == SignalTone::Neutral,
        transport_line(
            (TransportHealth { udp_kernel_drops: CounterAvailability::Unsupported, ..h }),
        ).0 != transport_line(
            (TransportHealth { udp_kernel_drops: CounterAvailability::NotApplicable, ..h }),
        ).0,
{
    reveal_strlit("Kernel drops unavailable");
    reveal_strlit("Kernel drops not applicable");
    assert("Kernel drops unavailable"@.len() == 24 && "Kernel drops not applicable"@.len() == 27);
    if let CounterAvailability::Available(n) = h.udp_kernel_drops {
        reveal_strlit("Kernel drops ");
        reveal_strlit("reported 0");
        reveal_strlit("reported ≥");
        lemma_nothing(Seq::empty());
        let parts = seq![Part::Number(n as nat)];
        assert(parts + Seq::empty() =~= parts);
        if n == 0 {
            law_decimal_reads_back(0);
            let a = "Kernel drops "@ + "reported 0"@.take(9);
            lemma_number(a, 0, Seq::empty(), Seq::empty());
            assert(a + decimal(0) + Seq::empty() =~= transport_line(h).0);
        } else {
            let a = "Kernel drops "@ + "reported ≥"@;
            lemma_number(a, n as nat, Seq::empty(), Seq::empty());
            assert(a + decimal(n as nat) + Seq::empty() =~= transport_line(h).0);
        }
    }
}

/// Two numbers with a slash behind a lead and before a tail.
pub proof fn lemma_ratio(lead: Seq<char>, a: usize, b: usize, tail: Seq<char>, parts: Seq<Part>)
    requires
        lead.len() > 0 ==> !is_digit(lead.last()),
        tail.len() > 0 ==> !is_digit(tail[0]),
        tells(tail, parts),
    ensures
        tells(
            lead + ratio(a, b) + tail,
            seq![Part::Number(a as nat), Part::Number(b as nat)] + parts,
        ),
{
    reveal_strlit("/");
    lemma_number("/"@, b as nat, tail, parts);
    let rest = "/"@ + decimal(b as nat) + tail;
    assert(rest[0] == "/"@[0]);
    lemma_number(lead, a as nat, rest, seq![Part::Number(b as nat)] + parts);
    assert(lead + decimal(a as nat) + rest =~= lead + ratio(a, b) + tail);
    assert(seq![Part::Number(a as nat)] + (seq![Part::Number(b as nat)] + parts) =~= seq![
        Part::Number(a as nat),
        Part::Number(b as nat),
    ] + parts);
}

/// Of the ingest queue the highest level and the capacity are told, once it has one.
pub proof fn law_the_ingest_queue_is_told(q: QueueDepth)
    ensures
        q.capacity > 0 ==> tells(
            ingest_phrase(q),
            seq![Part::Number(q.peak as nat), Part::Number(q.capacity as nat)],
        ),
        q.capacity == 0 ==> forall|i: int|
            0 <= i < ingest_phrase(q).len() ==> !is_digit(
                #[trigger] ingest_phrase(q)[i],
            ),
{
    reveal_strlit("Ingest awaiting data");
    reveal_strlit("Ingest highest sampled ");
    lemma_nothing(Seq::empty());
    lemma_ratio("Ingest highest sampled "@, q.peak, q.capacity, Seq::empty(), Seq::empty());
    if q.capacity > 0 {
        assert("Ingest highest sampled "@ + ratio(q.peak, q.capacity) + Seq::empty()
            =~= ingest_phrase(q));
        let parts = seq![Part::Number(q.peak as nat), Part::Number(q.capacity as nat)];
        assert(parts + Seq::empty() =~= parts);
    }
}

/// Of the recorder's queue the highest level and the capacity are told, before them the
/// level now while it records. A fault is told without a queue too.
#[verifier::rlimit(40)]
pub proof fn law_the_raw_queue_is_told(q: QueueDepth, recording: Option<RecordingState>)
    ensures
        recording == Some(RecordingState::Enabled) ==> tells(
            raw_phrase(Some(q), recording),
            seq![
                Part::Number(q.current as nat),
                Part::Number(q.peak as nat),
                Part::Number(q.capacity as nat),
            ],
        ),
        recording != Some(RecordingState::Enabled) ==> tells(
            raw_phrase(Some(q), recording),
            seq![Part::Number(q.peak as nat), Part::Number(q.capacity as nat)],
        ),
        raw_phrase(None, Some(RecordingState::Faulted)) != raw_phrase(None, None),
        recording != Some(RecordingState::Faulted) ==> raw_phrase(None, recording) == raw_phrase(
            None,
            None,
        ),
        recording != Some(RecordingState::Faulted) ==> raw_phrase(Some(q), recording) != raw_phrase(
            Some(q),
            Some(RecordingState::Faulted),
        ),
{
    reveal_strlit("Raw faulted · highest observed ");
    reveal_strlit("Raw faulted");
    reveal_strlit("Raw latest sample ");
    reveal_strlit(" · highest observed ");
    reveal_strlit("Raw retained highest observed ");
    reveal_strlit("Raw not recording");
    lemma_nothing(Seq::empty());
    let two = seq![Part::Number(q.peak as nat), Part::Number(q.capacity as nat)];
    assert(two + Seq::empty() =~= two);
    assert("Raw faulted"@.len() == 11 && "Raw not recording"@.len() == 17);
    let bad = raw_phrase(Some(q), Some(RecordingState::Faulted));
    assert(bad[4] == 'f');
    if recording == Some(RecordingState::Enabled) {
        let tail = " · highest observed "@ + ratio(q.peak, q.capacity) + Seq::empty();
        lemma_ratio(" · highest observed "@, q.peak, q.capacity, Seq::empty(), Seq::empty());
        assert(tail[0] == " · highest observed "@[0]);
        lemma_number("Raw latest sample "@, q.current as nat, tail, two);
        assert("Raw latest sample "@ + decimal(q.current as nat) + tail =~= raw_phrase(
            Some(q),
            recording,
        ));
        assert(seq![Part::Number(q.current as nat)] + two =~= seq![
            Part::Number(q.current as nat),
            Part::Number(q.peak as nat),
            Part::Number(q.capacity as nat),
        ]);
        assert(raw_phrase(Some(q), recording)[4] == 'l');
    } else if recording == Some(RecordingState::Faulted) {
        lemma_ratio(
            "Raw faulted · highest observed "@,
            q.peak,
            q.capacity,
            Seq::empty(),
            Seq::empty(),
        );
        assert("Raw faulted · highest observed "@ + ratio(q.peak, q.capacity) + Seq::empty()
            =~= raw_phrase(Some(q), recording));
    } else {
        lemma_ratio(
            "Raw retained highest observed "@,
            q.peak,
            q.capacity,
            Seq::empty(),
            Seq::empty(),
        );
        assert("Raw retained highest observed "@ + ratio(q.peak, q.capacity) + Seq::empty()
            =~= raw_phrase(Some(q), recording));
        assert(raw_phrase(Some(q), recording)[4] == 'r');
    }
}

/// A failed recording is a fault whatever the queue holds; otherwise a queue calls for
/// attention only while it records and is at least half full, by its level now and not by
/// its highest.
pub proof fn law_pressure_needs_a_half_full_queue(
    raw: Option<QueueDepth>,
    recording: Option<RecordingState>,
)
    ensures
        pressure_tone(raw, recording) is Fault <==> recording == Some(RecordingState::Faulted),
        pressure_tone(raw, recording) is Warning <==> recording == Some(RecordingState::Enabled) && (
        raw matches Some(q) && q.capacity > 0 && q.current + q.current >= q.capacity),
        pressure_tone(raw, recording) !is Healthy,
{
}

/// The worse of two tones counts, whichever comes first.
pub proof fn law_the_worse_tone_counts(a: SignalTone, b: SignalTone)
    ensures
        worst(a, b) == worst(b, a),
        worst(a, b) is Fault <==> a is Fault || b is Fault,
        worst(a, b) is Warning <==> !(a is Fault) && !(b is Fault) && (a is Warning || b is Warning),
        worst(a, b) !is Healthy,
{
}

/// What is told of a timing depends on how much was measured: nothing yet, only of the
/// run, the longest of a few samples with their number, or the bound from twenty samples on.
#[verifier::rlimit(40)]
pub proof fn law_timings_are_told(label: Seq<char>, run: TimingSummary, recent: TimingSummary)
    ensures
        ({
            let t = recent_text(label, run, recent);
            &&& t.len() > label.len() && t.take(label.len() as int) == label
            &&& run.samples > 0 && recent.samples == 0 ==> t.skip(t.len() - run.max@.len())
                == run.max@
            &&& run.samples > 0 && 0 < recent.samples < 20 ==> tells(
                t.skip(label.len() as int),
                seq![Part::Number(recent.samples as nat), Part::Words(recent.max@)],
            ) && t.skip(t.len() - recent.max@.len()) == recent.max@
            &&& run.samples > 0 && recent.samples >= 20 ==> t.skip(t.len() - recent.p99@.len())
                == recent.p99@
        }),
{
    reveal_strlit(" awaiting first chunk");
    reveal_strlit(" no recent chunks · run max ");
    reveal_strlit(" warm-up (");
    reveal_strlit(") · max ");
    reveal_strlit(" p99 ≤ ");
    let t = recent_text(label, run, recent);
    assert(t.take(label.len() as int) =~= label);
    if run.samples == 0 {
    } else if recent.samples == 0 {
        assert(t.skip(t.len() - run.max@.len()) =~= run.max@);
    } else if recent.samples < 20 {
        lemma_nothing(Seq::empty());
        lemma_words(") · max "@, recent.max@, Seq::empty(), Seq::empty());
        let tail = ") · max "@ + recent.max@ + Seq::empty();
        assert(tail[0] == ") · max "@[0]);
        lemma_number(
            " warm-up ("@,
            recent.samples as nat,
            tail,
            seq![Part::Words(recent.max@)] + Seq::empty(),
        );
        assert(" warm-up ("@ + decimal(recent.samples as nat) + tail =~= t.skip(
            label.len() as int,
        ));
        assert(seq![Part::Number(recent.samples as nat)] + (seq![Part::Words(recent.max@)]
            + Seq::empty()) =~= seq![
            Part::Number(recent.samples as nat),
            Part::Words(recent.max@),
        ]);
        assert(t.skip(t.len() - recent.max@.len()) =~= recent.max@);
    } else {
        assert(t.skip(t.len() - recent.p99@.len()) =~= recent.p99@);
    }
}

/// A live channel is measured up to now, another one up to its end.
pub proof fn law_windows_are_those_of_live_channels(a: ChannelStatus, b: ChannelStatus)
    ensures
        window_name(a) == window_name(b) <==> ((a is Running || a is Reconnecting) <==> (
        b is Running || b is Reconnecting)),
{
    reveal_strlit("~last 10 s");
    reveal_strlit("~final 10 s");
    assert("~last 10 s"@.len() == 10 && "~final 10 s"@.len() == 11);
}

/// Which of its words the card bears.
pub open spec fn badge_class(tone: SignalTone, status: ChannelStatus, has_completed_run: bool) -> int {
    if tone is Fault {
        4
    } else if tone is Warning {
        3
    } else if status is Running || status is Reconnecting {
        2
    } else if has_completed_run {
        1
    } else {
        0
    }
}

/// The word on the card tells five cases apart, and only those: a fault, a warning, a live
/// channel, one that has run, and one that has not.
pub proof fn law_badges_tell_five_cases_apart(
    t: SignalTone,
    s: ChannelStatus,
    h: bool,
    t2: SignalTone,
    s2: ChannelStatus,
    h2: bool,
)
    ensures
        badge(t, s, h) == badge(t2, s2, h2) <==> badge_class(t, s, h) == badge_class(t2, s2, h2),
{
    reveal_strlit("ISSUE");
    reveal_strlit("ATTENTION");
    reveal_strlit("MONITORING");
    reveal_strlit("LAST RUN");
    reveal_strlit("AWAITING DATA");
    assert("ISSUE"@.len() == 5 && "ATTENTION"@.len() == 9 && "MONITORING"@.len() == 10
        && "LAST RUN"@.len() == 8 && "AWAITING DATA"@.len() == 13);
}

/// Below the card stand a fault that tells the drops, where there were any, and then a
/// warning that tells the stalls, where there were any or one lasts.
#[verifier::rlimit(40)]
pub proof fn law_callouts_tell_losses(h: TransportHealth)
    ensures
        ({
            let c = callout_texts(h);
            let drops = h.udp_kernel_drops is Available && h.udp_kernel_drops->Available_0 > 0;
            let stalls = h.serial_stalls is Some && has_stalled(h.serial_stalls->0);
            &&& c.len() == (if drops {
                1int
            } else {
                0
            }) + (if stalls {
                1int
            } else {
                0
            })
            &&& drops ==> c[0].1 is Fault && tells(
                c[0].0,
                seq![Part::Number(h.udp_kernel_drops->Available_0 as nat)],
            )
            &&& stalls ==> c[c.len() - 1].1 is Warning && tells(
                c[c.len() - 1].0,
                stall_parts(h.serial_stalls->0),
            )
        }),
{
    reveal_strlit("Kernel receive queue reported at least ");
    reveal_strlit(" dropped datagrams.");
    reveal_strlit("Serial backpressure: ");
    reveal_strlit(" completed episodes, ");
    reveal_strlit(" completed total, ");
    reveal_strlit(" completed maximum");
    reveal_strlit(", active for ");
    reveal_strlit(".");
    if let CounterAvailability::Available(n) = h.udp_kernel_drops {
        lemma_nothing(" dropped datagrams."@);
        lemma_number(
            "Kernel receive queue reported at least "@,
            n as nat,
            " dropped datagrams."@,
            Seq::empty(),
        );
        assert("Kernel receive queue reported at least "@ + decimal(n as nat)
            + " dropped datagrams."@ =~= drop_callout_text(n));
        let parts = seq![Part::Number(n as nat)];
        assert(parts + Seq::empty() =~= parts);
    }
    if let Some(s) = h.serial_stalls {
        lemma_stalls(
            s,
            "Serial backpressure: "@,
            " completed episodes, "@,
            " completed total, "@,
            " completed maximum"@,
            ", active for "@,
            "."@,
        );
        assert("Serial backpressure: "@ + decimal(s.episodes as nat) + " completed episodes, "@
            + s.total@ + " completed total, "@ + s.max@ + (" completed maximum"@ + active_text(
            ", active for "@,
            s.active_for,
        ) + "."@) =~= stall_callout_text(s));
    }
}

/// A serial transport has stalled where it did so before, or does so now.
pub proof fn law_stalls_are_past_or_present(s: SerialStallSummary)
    ensures
        has_stalled(s) <==> s.episodes > 0 || s.active_for is Some,
{
}

} // verus!
