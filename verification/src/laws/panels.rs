//! What the panels show in one line, and what their buttons do.

use vstd::prelude::*;
use vstd::string::*;

use crate::config::schema::{InterfaceConfigModel, UdpMode};
use crate::diagnostics::{Diagnostic, DiagnosticSeverity};
use crate::gui::app::{draft_of, Session};
use crate::gui::detail::{restart_due, shows_detail, DetailHeader};
use crate::gui::panes::{
    has_destination, level_accent, level_word, log_headline, match_text, record_button_fits,
    RecordButton,
};
use crate::gui::phrases::{detail_start, headline_of, home_path, interface_line, last_of, short_path};
use crate::gui::rows::pins_at;
use crate::gui::snapshot::TriggeredMatch;
use crate::gui::state::{index_of, known, ChannelStatus, ViewModel};
use crate::gui::widgets::Accent;
use crate::laws::telling::{lemma_nothing, lemma_number, lemma_words, tells, Part};
use crate::laws::text::{
    is_digit, law_before_stops_at_the_first, law_search_finds_the_first,
    law_trimming_takes_white_space_only, lemma_trimmed_end, white_char,
};
use crate::model::command::RecordingTap;
use crate::model::ids::{hyphenated, ChannelId};
use crate::model::state::RecordingState;
use crate::text::{before, decimal, first_in, trimmed};

verus! {

/// A dash with a blank on either side stands at a place.
pub open spec fn dash_at(t: Seq<char>, k: int) -> bool {
    0 <= k && k + 3 <= t.len() && t[k] == ' ' && t[k + 1] == '\u{2014}' && t[k + 2] == ' '
}

/// A colon with a blank behind it stands at a place.
pub open spec fn colon_at(t: Seq<char>, k: int) -> bool {
    0 <= k && k + 2 <= t.len() && t[k] == ':' && t[k + 1] == ' '
}

proof fn lemma_marks(t: Seq<char>, k: int)
    requires
        0 <= k,
    ensures
        k + 3 <= t.len() ==> (t.subrange(k, k + 3) == " \u{2014} "@ <==> dash_at(t, k)),
        k + 2 <= t.len() ==> (t.subrange(k, k + 2) == ": "@ <==> colon_at(t, k)),
        " \u{2014} "@.len() == 3,
        ": "@.len() == 2,
{
    reveal_strlit(" \u{2014} ");
    reveal_strlit(": ");
    let d = " \u{2014} "@;
    let c = ": "@;
    if k + 3 <= t.len() {
        let s = t.subrange(k, k + 3);
        assert(s[0] == t[k] && s[1] == t[k + 1] && s[2] == t[k + 2]);
        assert(d[0] == ' ' && d[1] == '\u{2014}' && d[2] == ' ');
        if dash_at(t, k) {
            assert(s =~= d);
        }
    }
    if k + 2 <= t.len() {
        let s = t.subrange(k, k + 2);
        assert(s[0] == t[k] && s[1] == t[k + 1]);
        assert(c[0] == ':' && c[1] == ' ');
        if colon_at(t, k) {
            assert(s =~= c);
        }
    }
}

/// The detail of a headline begins at the first dash, or at the second colon that comes
/// behind the first one, whichever is first; without either the headline has none.
#[verifier::rlimit(40)]
pub proof fn law_details_begin_at_a_mark(head: Seq<char>)
    ensures
        ({
            let cut = detail_start(head) as int;
            &&& cut <= head.len()
            &&& forall|k: int| 0 <= k < cut ==> !#[trigger] dash_at(head, k)
            &&& forall|k: int, l: int|
                0 <= k && k + 2 <= l < cut && #[trigger] colon_at(head, k)
                    ==> !#[trigger] colon_at(head, l)
            &&& cut < head.len() ==> dash_at(head, cut) || (colon_at(head, cut) && exists|k: int|
                0 <= k && k + 2 <= cut && #[trigger] colon_at(head, k))
        }),
{
    let dash = " \u{2014} "@;
    let colon = ": "@;
    let cut = detail_start(head) as int;
    lemma_marks(head, 0);
    law_search_finds_the_first(head, dash);
    law_search_finds_the_first(head, colon);
    assert forall|k: int| 0 <= k < cut implies !#[trigger] dash_at(head, k) by {
        lemma_marks(head, k);
        if dash_at(head, k) {
            assert(head.subrange(k, k + dash.len()) == dash);
        }
    }
    if let Some(n) = first_in(head, dash) {
        lemma_marks(head, n as int);
    }
    match first_in(head, colon) {
        Some(first) => {
            let rest = head.skip(first as int + 2);
            lemma_marks(head, first as int);
            law_search_finds_the_first(rest, colon);
            assert forall|k: int, l: int|
                0 <= k && k + 2 <= l < cut && #[trigger] colon_at(head, k) implies !#[trigger] colon_at(
                head,
                l,
            ) by {
                lemma_marks(head, k);
                if k < first {
                    assert(head.subrange(k, k + colon.len()) == colon);
                }
                if colon_at(head, l) {
                    let m = l - first - 2;
                    assert(rest[m] == head[l] && rest[m + 1] == head[l + 1]);
                    lemma_marks(rest, m);
                    assert(rest.subrange(m, m + colon.len()) == colon);
                }
            }
            if let Some(n) = first_in(rest, colon) {
                lemma_marks(rest, n as int);
                assert(colon_at(head, (first + 2 + n) as int));
            }
            assert(colon_at(head, first as int));
        },
        None => {
            assert forall|k: int, l: int|
                0 <= k && k + 2 <= l < cut && #[trigger] colon_at(head, k) implies !#[trigger] colon_at(
                head,
                l,
            ) by {
                lemma_marks(head, k);
                assert(head.subrange(k, k + colon.len()) == colon);
            }
        },
    }
}

/// A headline is a part of its message: white space at most stands before it, no arrow
/// stands in it or before it, it holds no dash and no second colon, and it ends in no
/// white space.
#[verifier::rlimit(40)]
pub proof fn law_headlines_are_the_start_of_the_message(m: Seq<char>) -> (r: (int, int))
    ensures
        0 <= r.0 <= r.1 <= m.len(),
        headline_of(m) == m.subrange(r.0, r.1),
        forall|i: int| 0 <= i < r.1 ==> #[trigger] m[i] != '\u{2192}',
        headline_of(m).len() > 0 ==> forall|i: int| 0 <= i < r.0 ==> white_char(#[trigger] m[i]),
        headline_of(m).len() > 0 ==> !white_char(headline_of(m).last()),
        forall|k: int| !#[trigger] dash_at(headline_of(m), k),
        forall|k: int, l: int|
            0 <= k && k + 2 <= l && #[trigger] colon_at(headline_of(m), k)
                ==> !#[trigger] colon_at(headline_of(m), l),
{
    let subject = before(m, '\u{2192}');
    law_before_stops_at_the_first(m, '\u{2192}');
    let (from, to) = law_trimming_takes_white_space_only(subject);
    let head = trimmed(subject);
    let cut = detail_start(head) as int;
    law_details_begin_at_a_mark(head);
    let short = head.take(cut);
    let len = lemma_trimmed_end(short);
    let h = headline_of(m);
    assert(h == short.subrange(0, len));
    assert forall|i: int| 0 <= i < len implies #[trigger] h[i] == m[from + i] by {
        assert(h[i] == short[i] && short[i] == head[i] && head[i] == subject[from + i]);
        assert(subject[from + i] == m.subrange(0, subject.len() as int)[from + i]);
    }
    assert(h =~= m.subrange(from, from + len));
    assert forall|i: int| 0 <= i < from implies white_char(#[trigger] m[i]) by {
        assert(subject[i] == m.subrange(0, subject.len() as int)[i]);
        assert(white_char(subject[i]));
    }
    assert forall|k: int| !#[trigger] dash_at(h, k) by {
        if dash_at(h, k) {
            assert(h[k] == head[k] && h[k + 1] == head[k + 1] && h[k + 2] == head[k + 2]);
            assert(dash_at(head, k));
        }
    }
    assert forall|k: int, l: int|
        0 <= k && k + 2 <= l && #[trigger] colon_at(h, k) implies !#[trigger] colon_at(h, l) by {
        if colon_at(h, l) {
            assert(h[k] == head[k] && h[k + 1] == head[k + 1]);
            assert(h[l] == head[l] && h[l + 1] == head[l + 1]);
            assert(colon_at(head, k) && colon_at(head, l));
        }
    }
    if len > 0 {
        assert(h.last() == short[len - 1]);
    }
    (from, from + len)
}

/// The headline of a log is that of its newest entry, behind the word for its severity and
/// in its color.
pub proof fn law_logs_are_headed_by_the_newest(entries: Seq<Diagnostic>)
    ensures
        entries.len() > 0 ==> {
            let d = entries[entries.len() - 1];
            let shown = log_headline(entries);
            let h = headline_of(d.message@);
            &&& shown.1 == level_accent(d.severity)
            &&& shown.0.len() >= h.len() && shown.0.skip(shown.0.len() - h.len()) == h
            &&& shown.0.take(level_word(d.severity).len() as int) == level_word(d.severity)
        },
        entries.len() == 0 ==> log_headline(entries).1 == Accent::Idle,
{
    if entries.len() > 0 {
        let d = entries[entries.len() - 1];
        let shown = log_headline(entries).0;
        let h = headline_of(d.message@);
        assert(shown.skip(shown.len() - h.len()) =~= h);
        assert(shown.take(level_word(d.severity).len() as int) =~= level_word(d.severity));
    }
}

/// Severities differ in their words and in their colors.
pub proof fn law_severities_differ(a: DiagnosticSeverity, b: DiagnosticSeverity)
    requires
        a != b,
    ensures
        level_word(a) != level_word(b),
        level_accent(a) != level_accent(b),
        level_accent(DiagnosticSeverity::Error) == Accent::Fault,
        level_accent(DiagnosticSeverity::Warning) == Accent::Warning,
{
    reveal_strlit("INFO");
    reveal_strlit("WARN");
    reveal_strlit("ERROR");
    assert("INFO"@[0] == 'I' && "WARN"@[0] == 'W' && "ERROR"@[0] == 'E');
}

/// Where a character last occurs, it stands, and behind it no more.
pub proof fn law_the_last_occurrence_is_found(t: Seq<char>, c: char)
    ensures
        match last_of(t, c) {
            Some(n) => n < t.len() && t[n as int] == c && forall|i: int|
                n < i < t.len() ==> #[trigger] t[i] != c,
            None => forall|i: int| 0 <= i < t.len() ==> #[trigger] t[i] != c,
        },
    decreases t.len(),
{
    if t.len() > 0 && t.last() != c {
        let front = t.drop_last();
        law_the_last_occurrence_is_found(front, c);
        assert forall|i: int| 0 <= i < front.len() implies #[trigger] front[i] == t[i] by {}
        assert forall|i: int| 0 <= i < t.len() && t[i] == c implies i < front.len() && front[i]
            == c by {}
    }
}

/// A long path keeps its file name whole, behind a separator and an ellipsis, and of its
/// beginning as much as there is room for in 28 characters. A short one, and one without
/// directories, stays as it is.
pub proof fn law_paths_keep_their_file_names(path: Seq<char>, separator: char, at: int)
    requires
        0 <= at < path.len(),
        path[at] == separator,
        forall|i: int| at < i < path.len() ==> #[trigger] path[i] != separator,
    ensures
        path.len() <= 28 ==> short_path(path, separator) == path,
        path.len() > 28 ==> {
            let s = short_path(path, separator);
            let file = path.skip(at + 1);
            let kept = s.len() - file.len() - 2;
            &&& 0 <= kept <= at
            &&& s.skip(kept + 2) == file
            &&& s[kept] == '\u{2026}' && s[kept + 1] == separator
            &&& s.take(kept) == path.take(kept)
            &&& kept > 0 ==> s.len() <= 27
            &&& kept < at ==> s.len() >= 27
        },
{
    law_the_last_occurrence_is_found(path, separator);
    let s = short_path(path, separator);
    let file = path.skip(at + 1);
    assert(last_of(path, separator) == Some(at as nat)) by {
        match last_of(path, separator) {
            Some(n) => {
                if n < at {
                    assert(path[at] != separator);
                } else if n > at {
                    assert(path[n as int] != separator);
                }
            },
            None => {
                assert(path[at] != separator);
            },
        }
    }
    if path.len() > 28 {
        let kept = s.len() - file.len() - 2;
        assert(s.skip(kept + 2) =~= file);
        assert(s.take(kept) =~= path.take(kept));
    }
}

/// A path without a separator stays as it is. One below the home directory begins with a
/// tilde.
pub proof fn law_plain_names_stay(path: Seq<char>, separator: char, rest: Seq<char>)
    ensures
        (forall|i: int| 0 <= i < path.len() ==> #[trigger] path[i] != separator) ==> short_path(
            path,
            separator,
        ) == path,
        home_path(path, None, separator) == path,
        ({
            let h = home_path(path, Some(rest), separator);
            h.len() == rest.len() + 2 && h[0] == '~' && h[1] == separator && h.skip(2) == rest
        }),
{
    law_the_last_occurrence_is_found(path, separator);
    if let Some(n) = last_of(path, separator) {
        assert(path[n as int] == separator);
    }
    assert(home_path(path, Some(rest), separator).skip(2) =~= rest);
}

/// The line on an interface tells the endpoint: the address and the port of a network
/// interface, the device and the rate of a serial one.
#[verifier::rlimit(40)]
pub proof fn law_interfaces_tell_their_endpoint(i: InterfaceConfigModel)
    ensures
        i matches InterfaceConfigModel::Udp(u) ==> tells(
            interface_line(i),
            seq![Part::Words(u.bind_address), Part::Number(u.port as nat)],
        ),
        i matches InterfaceConfigModel::TcpListener(t) ==> tells(
            interface_line(i),
            seq![Part::Words(t.bind_address), Part::Number(t.port as nat)],
        ),
        i matches InterfaceConfigModel::Serial(s) ==> tells(
            interface_line(i),
            seq![Part::Words(s.port), Part::Number(s.baud_rate as nat)],
        ),
{
    reveal_strlit("UDP ");
    reveal_strlit(" \u{b7} bind ");
    reveal_strlit(":");
    reveal_strlit("TCP listener \u{b7} ");
    reveal_strlit("Serial \u{b7} ");
    reveal_strlit(" @ ");
    reveal_strlit(" baud");
    lemma_nothing(Seq::empty());
    lemma_nothing(" baud"@);
    match i {
        InterfaceConfigModel::Udp(u) => {
            let mode = match u.mode {
                UdpMode::Unicast => "unicast"@,
                UdpMode::Broadcast => "broadcast"@,
                UdpMode::Multicast => "multicast"@,
            };
            let lead = "UDP "@ + mode + " \u{b7} bind "@;
            lemma_endpoint(lead, u.bind_address, ":"@, u.port as nat, Seq::empty());
            assert(lead + u.bind_address + ":"@ + decimal(u.port as nat) + Seq::empty()
                =~= interface_line(i));
        },
        InterfaceConfigModel::TcpListener(t) => {
            let lead = "TCP listener \u{b7} "@;
            lemma_endpoint(lead, t.bind_address, ":"@, t.port as nat, Seq::empty());
            assert(lead + t.bind_address + ":"@ + decimal(t.port as nat) + Seq::empty()
                =~= interface_line(i));
        },
        InterfaceConfigModel::Serial(s) => {
            let lead = "Serial \u{b7} "@;
            lemma_endpoint(lead, s.port, " @ "@, s.baud_rate as nat, " baud"@);
        },
    }
}

proof fn lemma_endpoint(lead: Seq<char>, name: Seq<char>, mid: Seq<char>, n: nat, tail: Seq<char>)
    requires
        mid.len() > 0 && !is_digit(mid[0]) && !is_digit(mid.last()),
        tail.len() > 0 ==> !is_digit(tail[0]),
    ensures
        tells(lead + name + mid + decimal(n) + tail, seq![Part::Words(name), Part::Number(n)]),
{
    lemma_nothing(tail);
    lemma_number(mid, n, tail, Seq::empty());
    let b = mid + decimal(n) + tail;
    assert(b[0] == mid[0]);
    lemma_words(lead, name, b, seq![Part::Number(n)] + Seq::empty());
    assert(lead + name + b =~= lead + name + mid + decimal(n) + tail);
    assert(seq![Part::Words(name)] + (seq![Part::Number(n)] + Seq::empty()) =~= seq![
        Part::Words(name),
        Part::Number(n),
    ]);
}

/// The way of addressing a UDP channel shows in its line.
pub proof fn law_modes_show_in_the_line(u: crate::config::schema::UdpConfigModel, a: UdpMode, b: UdpMode)
    requires
        a != b,
    ensures
        interface_line(
            InterfaceConfigModel::Udp(crate::config::schema::UdpConfigModel { mode: a, ..u }),
        ) != interface_line(
            InterfaceConfigModel::Udp(crate::config::schema::UdpConfigModel { mode: b, ..u }),
        ),
{
    reveal_strlit("UDP ");
    reveal_strlit("unicast");
    reveal_strlit("broadcast");
    reveal_strlit("multicast");
    let x = interface_line(
        InterfaceConfigModel::Udp(crate::config::schema::UdpConfigModel { mode: a, ..u }),
    );
    let y = interface_line(
        InterfaceConfigModel::Udp(crate::config::schema::UdpConfigModel { mode: b, ..u }),
    );
    assert(x[4] == match a {
        UdpMode::Unicast => 'u',
        UdpMode::Broadcast => 'b',
        UdpMode::Multicast => 'm',
    });
    assert(y[4] == match b {
        UdpMode::Unicast => 'u',
        UdpMode::Broadcast => 'b',
        UdpMode::Multicast => 'm',
    });
}

/// The line on a match tells where it was, if anywhere, and ends with the first group of
/// the rule's identifier.
pub proof fn law_matches_tell_place_and_rule(m: TriggeredMatch)
    ensures
        ({
            let t = match_text(m);
            let id = hyphenated(m.rule_id.0).take(8);
            &&& t.len() > 8 && t.skip(t.len() - 8) == id
            &&& m.byte_offset matches Some(n) ==> tells(t, seq![Part::Number(n as nat)])
        }),
{
    reveal_strlit("@");
    reveal_strlit("  rule ");
    let id = hyphenated(m.rule_id.0);
    let short = before(id, '-');
    crate::laws::identity::law_identifiers_say_their_value(m.rule_id.0);
    law_before_stops_at_the_first(id, '-');
    assert(short.len() == 8) by {
        if short.len() < 8 {
            assert(id[short.len() as int] == '-');
            assert(crate::laws::identity::is_hyphen_place(short.len() as int));
        } else if short.len() > 8 {
            assert(crate::laws::identity::is_hyphen_place(8));
            assert(id[8] == '-');
        }
    }
    let t = match_text(m);
    assert(short =~= id.take(8));
    assert(t.skip(t.len() - 8) =~= short);
    if let Some(n) = m.byte_offset {
        let b = "  rule "@ + short;
        assert(b[0] == "  rule "@[0]);
        lemma_nothing(b);
        lemma_number("@"@, n as nat, b, Seq::empty());
        assert("@"@ + decimal(n as nat) + b =~= t);
        let parts = seq![Part::Number(n as nat)];
        assert(parts + Seq::empty() =~= parts);
    }
}

/// The button of a recording is there while the channel runs. It stops a recording that
/// is on in any case; it begins one only with a destination, and says so without one.
pub proof fn law_recordings_begin_with_a_destination(
    r: Option<RecordButton>,
    r2: Option<RecordButton>,
    status: ChannelStatus,
    recording: Option<RecordingState>,
    destination: bool,
)
    requires
        record_button_fits(r, status, recording, destination),
        record_button_fits(r2, status, Some(RecordingState::Enabled), destination),
    ensures
        r is Some <==> status is Running,
        r matches Some(b) ==> {
            &&& recording == Some(RecordingState::Enabled) ==> b.enabled
            &&& recording != Some(RecordingState::Enabled) ==> b.enabled == destination && (b.hint
                is Some <==> !destination) && b.label@ != r2->0.label@
            &&& recording == Some(RecordingState::Enabled) ==> b.label@ == r2->0.label@
                && b.hint is None
        },
{
    reveal_strlit("Stop");
    reveal_strlit("Record");
    assert("Stop"@.len() == 4 && "Record"@.len() == 6);
}

/// A tap has a destination where the draft of its channel gives it one, and that of the
/// other tap does not count.
pub proof fn law_destinations_are_those_of_the_tap(s: Session, id: ChannelId)
    ensures
        has_destination(s, id, RecordingTap::Raw) <==> (draft_of(s, id) matches Some(c)
            && c.raw_recording.destination is Some),
        has_destination(s, id, RecordingTap::Display) <==> (draft_of(s, id) matches Some(c)
            && c.display_recording.destination is Some),
        draft_of(s, id) is Some <==> (s.draft matches Some(d) && d.0 == id),
        draft_of(s, id) matches Some(c) ==> (s.draft matches Some(d) && d.1 == c),
{
}

/// Edits of the interface, of the match rules or of the kind wait for a restart; without a
/// draft nothing does.
pub proof fn law_drafts_wait_for_a_restart(s: Session, id: ChannelId)
    ensures
        draft_of(s, id) is None ==> !restart_due(s, id),
        !known(s.app.views, id) ==> !restart_due(s, id),
        known(s.app.views, id) ==> (draft_of(s, id) matches Some(d) ==> {
            let c = s.app.views[index_of(s.app.views, id)].config;
            d.interface != c.interface || d.match_rules != c.match_rules || d.kind != c.kind
                ==> restart_due(s, id)
        }),
{
}

/// What the pane shows of a channel is that channel's: it can be stopped unless it is
/// stopped, started where that does something, and an error is shown as it was told.
pub proof fn law_the_pane_shows_its_channel(h: DetailHeader, s: Session, v: ViewModel)
    requires
        shows_detail(h, s, v),
    ensures
        h.id == v.id && h.status == v.status && h.bytes_total == v.bytes_total && h.bytes_per_sec
            == v.bytes_per_sec && h.details@ == v.details,
        h.recording == v.recording && h.display_recording == v.display_recording
            && h.control_lines == v.control_lines && h.open_config == s.force_open,
        h.stop <==> !(v.status is Stopped),
        h.start.1 <==> v.status is Stopped || v.status is Faulted || (v.status is Running
            && restart_due(s, v.id)),
        h.error is Some <==> v.last_error is Some,
        v.last_error matches Some(e) ==> h.error->0@.len() >= e.len() && h.error->0@.skip(
            h.error->0@.len() - e.len(),
        ) == e,
        h.port is Some <==> (v.status is Faulted || v.last_error is Some) && (
        v.config.interface matches InterfaceConfigModel::Serial(p) && p.port.len() > 0),
        h.port is Some ==> (v.config.interface matches InterfaceConfigModel::Serial(p)
            && h.port->0@ == p.port),
        h.view is Some <==> (v.snapshot matches Some(snap) && snap.display_views@.len() > 0),
        h.view is Some ==> (h.view->0).0 == v.snapshot->0.display_views@[0].id && (h.view->0).1
            == v.snapshot->0.display_views@[0].paused,
{
    crate::laws::controls::law_starts_are_offered_where_they_do_something(
        v.status,
        restart_due(s, v.id),
    );
    if let Some(e) = v.last_error {
        let line = h.error->0@;
        assert(line == "\u{26A0} "@ + e);
        assert(line.skip(line.len() - e.len()) =~= e);
    }
}

/// The marks at an offset are those pinned to it, each of them, in their order.
pub proof fn law_pins_mark_their_offset(p: Seq<crate::gui::marks::Pin>, offset: int) -> (at: Seq<int>)
    ensures
        pins_at(p, offset).len() == at.len(),
        forall|k: int|
            0 <= k < at.len() ==> 0 <= #[trigger] at[k] < p.len() && p[at[k]].offset == offset
                && pins_at(p, offset)[k].text == p[at[k]].text && (pins_at(p, offset)[k].placement
                is Before <==> p[at[k]].before),
        forall|j: int, k: int| 0 <= j < k < at.len() ==> #[trigger] at[j] < #[trigger] at[k],
        forall|i: int|
            0 <= i < p.len() && (#[trigger] p[i]).offset == offset ==> at.contains(i),
    decreases p.len(),
{
    if p.len() == 0 {
        Seq::empty()
    } else {
        let front = p.drop_last();
        let n = front.len() as int;
        let old_at = law_pins_mark_their_offset(front, offset);
        assert forall|k: int| 0 <= k < old_at.len() implies front[#[trigger] old_at[k]]
            == p[old_at[k]] by {}
        let at = if p.last().offset == offset {
            old_at.push(n)
        } else {
            old_at
        };
        let marks = pins_at(p, offset);
        let front_marks = pins_at(front, offset);
        assert forall|k: int| 0 <= k < at.len() implies 0 <= #[trigger] at[k] < p.len()
            && p[at[k]].offset == offset && marks[k].text == p[at[k]].text && (
        marks[k].placement is Before <==> p[at[k]].before) by {
            if k < old_at.len() {
                assert(at[k] == old_at[k]);
                assert(marks[k] == front_marks[k]);
            } else {
                assert(at[k] == n && p[n] == p.last());
            }
        }
        assert forall|i: int| 0 <= i < p.len() && (#[trigger] p[i]).offset == offset implies at.contains(
            i,
        ) by {
            if i < n {
                assert(front[i] == p[i]);
                assert(old_at.contains(i));
                let k = choose|k: int| 0 <= k < old_at.len() && old_at[k] == i;
                assert(at[k] == i);
            } else {
                assert(at[old_at.len() as int] == n);
            }
        }
        at
    }
}

} // verus!
