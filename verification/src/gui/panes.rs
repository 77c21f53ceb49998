//! What the panels show: the rows of the channel list, the diagnostics log, the
//! recording buttons and the stream view.

use vstd::prelude::*;
use vstd::string::*;

use crate::config::schema::{ChannelConfig, InterfaceConfig, RecordingConfig};
use crate::diagnostics::{Diagnostic, DiagnosticSeverity};
use crate::gui::app::{draft_of, tap_recording, ListenerApp, Session};
use crate::gui::bridge::{UiCommand, UiCommandModel};
use crate::gui::phrases::{headline_of, headline_phrase};
use crate::gui::snapshot::{ChannelSnapshot, ListenerRunSummary, Rate, TriggeredMatch};
use crate::gui::state::{views_model, AppState, ChannelStatus, ChannelView, ViewModel};
use crate::gui::widgets::{short_id, Accent};
use crate::model::command::RecordingTap;
use crate::model::ids::{hyphenated, ChannelId, DisplayViewId};
use crate::model::state::RecordingState;
use crate::text::{before, decimal, push_decimal};

verus! {

/// One row of the channel list.
#[derive(Debug)]
pub struct ChannelRow {
    pub id: ChannelId,
    pub name: String,
    pub details: String,
    pub status: ChannelStatus,
    pub bytes_total: u64,
    pub bytes_per_sec: Rate,
    pub info: usize,
    pub warnings: usize,
    pub errors: usize,
}

/// A row shows a channel.
pub open spec fn shows_channel(row: ChannelRow, v: ViewModel) -> bool {
    &&& row.id == v.id
    &&& row.name@ == v.name
    &&& row.details@ == v.details
    &&& row.status == v.status
    &&& row.bytes_total == v.bytes_total
    &&& row.bytes_per_sec == v.bytes_per_sec
    &&& row.info == v.info
    &&& row.warnings == v.warnings
    &&& row.errors == v.errors
}

/// The rows of the channel list, in the order of registration.
pub fn channel_rows(state: &AppState) -> (r: Vec<ChannelRow>)
    ensures
        r.len() == state@.views.len(),
        forall|i: int| 0 <= i < r.len() ==> shows_channel(#[trigger] r@[i], state@.views[i]),
{
    let views: &[ChannelView] = state.channels();
    let mut out: Vec<ChannelRow> = Vec::new();
    let mut i: usize = 0;
    while i < views.len()
        invariant
            i <= views.len(),
            out.len() == i,
            views_model(views@) == state@.views,
            forall|j: int| 0 <= j < i ==> shows_channel(#[trigger] out@[j], state@.views[j]),
        decreases views.len() - i,
    {
        let v = &views[i];
        assert(state@.views[i as int] == views@[i as int]@);
        out.push(
            ChannelRow {
                id: v.id,
                name: v.name.clone(),
                details: v.details.clone(),
                status: v.status,
                bytes_total: v.bytes_total,
                bytes_per_sec: v.bytes_per_sec,
                info: v.info,
                warnings: v.warnings,
                errors: v.errors,
            },
        );
        i = i + 1;
    }
    out
}

/// A count and what is counted.
pub fn count_text(count: usize, what: &str) -> (r: String)
    ensures
        r@ == decimal(count as nat) + " "@ + what@,
{
    let mut out: String = String::new();
    push_decimal(&mut out, count as u64);
    out.append(" ");
    out.append(what);
    assert(out@ =~= decimal(count as nat) + " "@ + what@);
    out
}

/// How a severity reads in the headline.
pub open spec fn level_word(severity: DiagnosticSeverity) -> Seq<char> {
    match severity {
        DiagnosticSeverity::Event => "INFO"@,
        DiagnosticSeverity::Warning => "WARN"@,
        DiagnosticSeverity::Error => "ERROR"@,
    }
}

/// The color of a severity.
pub open spec fn level_accent(severity: DiagnosticSeverity) -> Accent {
    match severity {
        DiagnosticSeverity::Event => Accent::Event,
        DiagnosticSeverity::Warning => Accent::Warning,
        DiagnosticSeverity::Error => Accent::Fault,
    }
}

/// The headline of a log: its latest entry, cut down to a phrase.
pub open spec fn log_headline(entries: Seq<Diagnostic>) -> (Seq<char>, Accent) {
    if entries.len() == 0 {
        (headline_of("no diagnostics yet"@), Accent::Idle)
    } else {
        let d = entries.last();
        (level_word(d.severity) + "  "@ + headline_of(d.message@), level_accent(d.severity))
    }
}

/// The headline of a log, and its color.
pub fn diagnostics_headline(entries: &Vec<Diagnostic>) -> (r: (String, Accent))
    ensures
        (r.0@, r.1) == log_headline(entries@),
{
    if entries.len() == 0 {
        return (headline_phrase("no diagnostics yet"), Accent::Idle);
    }
    let d = &entries[entries.len() - 1];
    let mut out: String = match d.severity {
        DiagnosticSeverity::Event => "INFO".to_owned(),
        DiagnosticSeverity::Warning => "WARN".to_owned(),
        DiagnosticSeverity::Error => "ERROR".to_owned(),
    };
    let color: Accent = match d.severity {
        DiagnosticSeverity::Event => Accent::Event,
        DiagnosticSeverity::Warning => Accent::Warning,
        DiagnosticSeverity::Error => Accent::Fault,
    };
    out.append("  ");
    let phrase: String = headline_phrase(d.message.as_str());
    out.append(phrase.as_str());
    (out, color)
}

/// The score of a log.
pub fn diagnostics_counts(events: usize, warnings: usize, errors: usize) -> (r: String)
    ensures
        r@ == "("@ + decimal(events as nat) + " info \u{b7} "@ + decimal(warnings as nat)
            + " warn \u{b7} "@ + decimal(errors as nat) + " err)"@,
{
    let mut out: String = "(".to_owned();
    push_decimal(&mut out, events as u64);
    out.append(" info \u{b7} ");
    push_decimal(&mut out, warnings as u64);
    out.append(" warn \u{b7} ");
    push_decimal(&mut out, errors as u64);
    out.append(" err)");
    out
}

/// The label of a filter: what it shows, and how many there are.
pub fn filter_label(what: &str, count: usize) -> (r: String)
    ensures
        r@ == what@ + " ("@ + decimal(count as nat) + ")"@,
{
    let mut out: String = what.to_owned();
    out.append(" (");
    push_decimal(&mut out, count as u64);
    out.append(")");
    out
}

/// Which severities the log shows.
#[derive(Clone, Copy, Debug, PartialEq, Eq, Structural)]
pub struct LogFilter {
    pub info: bool,
    pub warn: bool,
    pub error: bool,
}

impl LogFilter {
    pub open spec fn lets(self, severity: DiagnosticSeverity) -> bool {
        match severity {
            DiagnosticSeverity::Event => self.info,
            DiagnosticSeverity::Warning => self.warn,
            DiagnosticSeverity::Error => self.error,
        }
    }

    /// Whether a severity is shown.
    pub fn shows(&self, severity: DiagnosticSeverity) -> (r: bool)
        ensures
            r == self.lets(severity),
    {
        match severity {
            DiagnosticSeverity::Event => self.info,
            DiagnosticSeverity::Warning => self.warn,
            DiagnosticSeverity::Error => self.error,
        }
    }
}

/// The entries that are shown, the newest first.
pub open spec fn log_shown(entries: Seq<Diagnostic>, filter: LogFilter) -> Seq<Diagnostic>
    decreases entries.len(),
{
    if entries.len() == 0 {
        Seq::empty()
    } else {
        let older = log_shown(entries.drop_last(), filter);
        if filter.lets(entries.last().severity) {
            seq![entries.last()] + older
        } else {
            older
        }
    }
}

/// The entries that are shown, the newest first.
pub fn shown_log<'a>(entries: &'a Vec<Diagnostic>, filter: LogFilter) -> (r: Vec<&'a Diagnostic>)
    ensures
        r@.map_values(|d: &Diagnostic| *d) == log_shown(entries@, filter),
{
    let mut out: Vec<&'a Diagnostic> = Vec::new();
    let mut end: usize = entries.len();
    let ghost all = log_shown(entries@, filter);
    let ghost plain = |d: &Diagnostic| *d;
    assert(entries@.take(end as int) =~= entries@);
    assert(out@.map_values(plain) + log_shown(entries@.take(end as int), filter) =~= all);
    while end > 0
        invariant
            end <= entries.len(),
            plain == (|d: &Diagnostic| *d),
            out@.map_values(plain) + log_shown(entries@.take(end as int), filter) == all,
        decreases end,
    {
        let ghost done = out@.map_values(plain);
        let ghost rest = entries@.take(end as int);
        assert(rest.last() == entries@[end - 1]);
        assert(rest.drop_last() =~= entries@.take(end - 1));
        if filter.shows(entries[end - 1].severity) {
            out.push(&entries[end - 1]);
            assert(out@.map_values(plain) =~= done.push(entries@[end - 1]));
            assert(out@.map_values(plain) + log_shown(entries@.take(end - 1), filter) =~= done
                + log_shown(rest, filter));
        }
        end = end - 1;
    }
    assert(out@.map_values(plain) =~= all);
    out
}

/// The log shows the entries whose severity is let through and no others, the newest
/// first, in the order that they have without any filter.
pub proof fn law_log_follows_the_filter(entries: Seq<Diagnostic>, filter: LogFilter)
    ensures
        log_shown(entries, filter) == entries.reverse().filter(
            |d: Diagnostic| filter.lets(d.severity),
        ),
    decreases entries.len(),
{
    let lets = |d: Diagnostic| filter.lets(d.severity);
    if entries.len() > 0 {
        let front = entries.drop_last();
        let first = seq![entries.last()];
        law_log_follows_the_filter(front, filter);
        assert(entries.reverse() =~= first + front.reverse());
        Seq::filter_distributes_over_add(first, front.reverse(), lets);
        assert(first.filter(lets) =~= if filter.lets(entries.last().severity) {
            first
        } else {
            Seq::empty()
        }) by {
            reveal_with_fuel(Seq::filter, 2);
            assert(first.drop_last() =~= Seq::<Diagnostic>::empty());
            assert(first.last() == entries.last());
        }
        assert(log_shown(entries, filter) =~= first.filter(lets) + front.reverse().filter(lets));
    } else {
        assert(entries.reverse() =~= Seq::<Diagnostic>::empty());
        assert(entries.reverse().filter(lets) =~= Seq::<Diagnostic>::empty()) by {
            reveal(Seq::filter);
        }
    }
}

/// The color of a line of the log.
pub fn log_color(d: &Diagnostic) -> (r: Accent)
    ensures
        r == match d.severity {
            DiagnosticSeverity::Event => Accent::Info,
            DiagnosticSeverity::Warning => Accent::Warning,
            DiagnosticSeverity::Error => Accent::Fault,
        },
{
    match d.severity {
        DiagnosticSeverity::Event => Accent::Info,
        DiagnosticSeverity::Warning => Accent::Warning,
        DiagnosticSeverity::Error => Accent::Fault,
    }
}

/// One line of the log, with the time as it reads.
pub fn log_line(time: &str, d: &Diagnostic) -> (r: String)
    ensures
        r@ == time@ + "  "@ + (match d.severity {
            DiagnosticSeverity::Event => "INFO "@,
            DiagnosticSeverity::Warning => "WARN "@,
            DiagnosticSeverity::Error => "ERROR"@,
        }) + "  "@ + d.message@,
{
    let mut out: String = time.to_owned();
    out.append("  ");
    out.append(
        match d.severity {
            DiagnosticSeverity::Event => "INFO ",
            DiagnosticSeverity::Warning => "WARN ",
            DiagnosticSeverity::Error => "ERROR",
        },
    );
    out.append("  ");
    out.append(d.message.as_str());
    out
}

/// How many match firings are listed.
pub const LISTED_MATCHES: usize = 20;

/// How a match firing reads: where it was, and the start of its rule's id.
pub open spec fn match_text(m: TriggeredMatch) -> Seq<char> {
    (match m.byte_offset {
        Some(n) => "@"@ + decimal(n as nat),
        None => "(idle)"@,
    }) + "  rule "@ + before(hyphenated(m.rule_id.0), '-')
}

/// How a match firing reads.
fn match_line(m: &TriggeredMatch) -> (r: String)
    ensures
        r@ == match_text(*m),
{
    let mut out: String = match m.byte_offset {
        Some(n) => {
            let mut at: String = "@".to_owned();
            push_decimal(&mut at, n);
            at
        },
        None => "(idle)".to_owned(),
    };
    out.append("  rule ");
    let id: String = m.rule_id.to_string();
    let short: String = short_id(id.as_str());
    out.append(short.as_str());
    out
}

/// The newest match firings, the newest first.
pub fn match_lines(matches: &Vec<TriggeredMatch>) -> (r: Vec<String>)
    ensures
        r.len() == if matches.len() < LISTED_MATCHES {
            matches.len()
        } else {
            LISTED_MATCHES
        },
        forall|k: int|
            0 <= k < r.len() ==> (#[trigger] r@[k])@ == match_text(matches@[matches.len() - 1 - k]),
{
    let mut out: Vec<String> = Vec::new();
    let mut end: usize = matches.len();
    while end > 0 && out.len() < LISTED_MATCHES
        invariant
            end <= matches.len(),
            out.len() == matches.len() - end,
            out.len() <= LISTED_MATCHES,
            forall|k: int|
                0 <= k < out.len() ==> (#[trigger] out@[k])@ == match_text(
                    matches@[matches.len() - 1 - k],
                ),
        decreases end,
    {
        end = end - 1;
        out.push(match_line(&matches[end]));
    }
    out
}

/// The note on matches that spanned the end of a read, if there were any.
pub fn boundary_note(saves: u64) -> (r: Option<String>)
    ensures
        r is Some <==> saves > 0,
        r matches Some(text) ==> text@ == "\u{2BA7} "@ + decimal(saves as nat) + " match"@ + (
        if saves == 1 {
            ""@
        } else {
            "es"@
        }) + " spanned a read-chunk boundary (recovered; see Diagnostics for where)"@,
{
    if saves == 0 {
        return None;
    }
    let mut out: String = "\u{2BA7} ".to_owned();
    push_decimal(&mut out, saves);
    out.append(" match");
    if saves == 1 {
        out.append("");
    } else {
        out.append("es");
    }
    out.append(" spanned a read-chunk boundary (recovered; see Diagnostics for where)");
    Some(out)
}

/// The live button of a recording.
#[derive(Clone, Copy, Debug, PartialEq, Eq)]
pub struct RecordButton {
    pub label: &'static str,
    pub enabled: bool,
    pub hint: Option<&'static str>,
}

/// Whether channel `id` has a draft with a destination for a tap.
pub open spec fn has_destination(s: Session, id: ChannelId, tap: RecordingTap) -> bool {
    match draft_of(s, id) {
        Some(config) => tap_recording(config, tap).destination is Some,
        None => false,
    }
}

/// The live button of a recording: there is one while the channel runs. A recording can
/// be stopped in any case, and begun once it has a destination.
pub open spec fn record_button_fits(
    r: Option<RecordButton>,
    status: ChannelStatus,
    recording: Option<RecordingState>,
    destination: bool,
) -> bool {
    &&& r is Some <==> status is Running
    &&& r matches Some(b) ==> {
        let on = recording == Some(RecordingState::Enabled);
        &&& b.label@ == if on {
            "Stop"@
        } else {
            "Record"@
        }
        &&& b.enabled == (destination || on)
        &&& b.hint is Some <==> !b.enabled
        &&& b.hint matches Some(t) ==> t@ == "Set a destination below first"@
    }
}

/// Whether a recording is on.
fn is_recording(recording: Option<RecordingState>) -> (r: bool)
    ensures
        r == (recording == Some(RecordingState::Enabled)),
{
    match recording {
        Some(RecordingState::Enabled) => true,
        _ => false,
    }
}

/// The draft of a channel.
fn draft<'a>(app: &'a ListenerApp, id: ChannelId) -> (r: Option<&'a ChannelConfig>)
    ensures
        r is Some <==> draft_of(app@, id) is Some,
        r matches Some(config) ==> Some(config@) == draft_of(app@, id),
{
    match &app.edit_draft {
        Some((e, config)) => if *e == id {
            Some(config)
        } else {
            None
        },
        None => None,
    }
}

/// The live button of a recording.
pub fn record_button(
    app: &ListenerApp,
    id: ChannelId,
    status: ChannelStatus,
    recording: Option<RecordingState>,
    tap: RecordingTap,
) -> (r: Option<RecordButton>)
    ensures
        record_button_fits(r, status, recording, has_destination(app@, id, tap)),
{
    match status {
        ChannelStatus::Running => {},
        _ => {
            return None;
        },
    }
    let destination: bool = match draft(app, id) {
        Some(config) => match tap {
            RecordingTap::Raw => config.raw_recording.destination.is_some(),
            RecordingTap::Display => config.display_recording.destination.is_some(),
        },
        None => false,
    };
    let on: bool = is_recording(recording);
    Some(
        RecordButton {
            label: if on {
                "Stop"
            } else {
                "Record"
            },
            enabled: destination || on,
            hint: if destination || on {
                None
            } else {
                Some("Set a destination below first")
            },
        },
    )
}

/// The command of the live button of a recording: it begins or stops with the settings
/// that are on screen.
pub fn record_command(
    app: &ListenerApp,
    id: ChannelId,
    recording: Option<RecordingState>,
    tap: RecordingTap,
) -> (r: UiCommand)
    ensures
        ({
            let begin = recording != Some(RecordingState::Enabled);
            let rec = match draft_of(app@, id) {
                Some(config) => tap_recording(config, tap),
                None => crate::config::schema::default_recording(),
            };
            r@ == match tap {
                RecordingTap::Raw => UiCommandModel::SetRecording(id, begin, rec),
                RecordingTap::Display => UiCommandModel::SetDisplayRecording(id, begin, rec),
            }
        }),
{
    let rec: RecordingConfig = match draft(app, id) {
        Some(config) => match tap {
            RecordingTap::Raw => config.raw_recording.clone(),
            RecordingTap::Display => config.display_recording.clone(),
        },
        None => RecordingConfig::default(),
    };
    let begin: bool = !is_recording(recording);
    match tap {
        RecordingTap::Raw => UiCommand::SetRecording(id, begin, rec),
        RecordingTap::Display => UiCommand::SetDisplayRecording(id, begin, rec),
    }
}

/// The first view of a channel, and whether it is paused.
pub fn first_view(snapshot: &Option<ChannelSnapshot>) -> (r: Option<(DisplayViewId, bool)>)
    ensures
        r == match *snapshot {
            Some(s) => if s.display_views@.len() > 0 {
                Some((s.display_views@[0].id, s.display_views@[0].paused))
            } else {
                None
            },
            None => None,
        },
{
    match snapshot {
        Some(s) => if s.display_views.len() > 0 {
            Some((s.display_views[0].id, s.display_views[0].paused))
        } else {
            None
        },
        None => None,
    }
}

/// The command of the button that pauses a view, or resumes it.
pub fn pause_command(id: ChannelId, view: DisplayViewId, paused: bool) -> (r: UiCommand)
    ensures
        r@ == if paused {
            UiCommandModel::ResumeDisplay(id, view)
        } else {
            UiCommandModel::PauseDisplay(id, view)
        },
{
    if paused {
        UiCommand::ResumeDisplay(id, view)
    } else {
        UiCommand::PauseDisplay(id, view)
    }
}

/// What an empty stream view says.
pub fn stream_note(has_snapshot: bool) -> (r: &'static str)
    ensures
        r@ == if has_snapshot {
            "no data received yet"@
        } else {
            "waiting for data \u{2014} Start the channel"@
        },
{
    if has_snapshot {
        "no data received yet"
    } else {
        "waiting for data \u{2014} Start the channel"
    }
}

/// The serial device that a hint is due for: that of a channel in trouble.
pub fn port_in_question(view: &ChannelView) -> (r: Option<String>)
    ensures
        r is Some <==> (view@.status is Faulted || view@.last_error is Some)
            && view.config.interface is Serial && view.config.interface->Serial_0.port@.len() > 0,
        r matches Some(port) ==> port@ == view.config.interface->Serial_0.port@,
{
    let faulted: bool = match view.status {
        ChannelStatus::Faulted => true,
        _ => false,
    };
    if !faulted && view.last_error.is_none() {
        return None;
    }
    match &view.config.interface {
        InterfaceConfig::Serial(serial) => if serial.port.as_str().is_empty() {
            None
        } else {
            Some(serial.port.clone())
        },
        _ => None,
    }
}

/// The last completed run of a channel.
pub fn last_run(view: &ChannelView) -> (r: Option<ListenerRunSummary>)
    ensures
        r == match view@.snapshot {
            Some(snapshot) => snapshot.last_run_summary,
            None => None,
        },
{
    match &view.snapshot {
        Some(snapshot) => snapshot.last_run_summary,
        None => None,
    }
}

/// The heading of the last completed run, with its length and bytes as they read.
pub fn run_heading(summary: &ListenerRunSummary, elapsed: &str, bytes: &str) -> (r: String)
    ensures
        r@ == "Last completed run \u{b7} "@ + elapsed@ + " \u{b7} "@ + bytes@ + " \u{b7} "@
            + decimal(summary.chunk_count as nat) + " chunks"@,
{
    let mut out: String = "Last completed run \u{b7} ".to_owned();
    out.append(elapsed);
    out.append(" \u{b7} ");
    out.append(bytes);
    out.append(" \u{b7} ");
    push_decimal(&mut out, summary.chunk_count);
    out.append(" chunks");
    out
}

/// When the last completed run started and finished, as the times read.
pub fn run_times(started: &str, finished: &str) -> (r: String)
    ensures
        r@ == "Started "@ + started@ + " \u{b7} finished "@ + finished@,
{
    let mut out: String = "Started ".to_owned();
    out.append(started);
    out.append(" \u{b7} finished ");
    out.append(finished);
    out
}

/// The pressure and the diagnostics of the last completed run.
pub fn run_pressure(summary: &ListenerRunSummary) -> (r: String)
    ensures
        r@ == "Ingest queue peak "@ + decimal(summary.ingest_queue.peak as nat) + "/"@ + decimal(
            summary.ingest_queue.capacity as nat,
        ) + " \u{b7} "@ + decimal(summary.diagnostics_warnings as nat) + " warnings \u{b7} "@
            + decimal(summary.diagnostics_errors as nat) + " errors"@ + (
        if summary.final_snapshot_complete {
            ""@
        } else {
            " \u{b7} final snapshot incomplete"@
        }),
{
    let mut out: String = "Ingest queue peak ".to_owned();
    push_decimal(&mut out, summary.ingest_queue.peak as u64);
    out.append("/");
    push_decimal(&mut out, summary.ingest_queue.capacity as u64);
    out.append(" \u{b7} ");
    push_decimal(&mut out, summary.diagnostics_warnings as u64);
    out.append(" warnings \u{b7} ");
    push_decimal(&mut out, summary.diagnostics_errors as u64);
    out.append(" errors");
    if summary.final_snapshot_complete {
        out.append("");
    } else {
        out.append(" \u{b7} final snapshot incomplete");
    }
    out
}

/// The readout of what was received, with both numbers as they read.
pub fn received_line(bytes: &str, rate: &str) -> (r: String)
    ensures
        r@ == "Received: "@ + bytes@ + "    Throughput: "@ + rate@,
{
    let mut out: String = "Received: ".to_owned();
    out.append(bytes);
    out.append("    Throughput: ");
    out.append(rate);
    out
}

} // verus!
