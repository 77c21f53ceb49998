//! What the controls allow, and which names are given out.

use vstd::prelude::*;
use vstd::string::*;

use crate::config::schema::{ChannelConfigModel, InterfaceConfigModel};
use crate::gui::names::{is_next_number, name_taken, name_taken_by_other, numbered, ChannelSeq};
use crate::gui::snapshot::DiagnosticsSnapshot;
use crate::gui::state::{ChannelStatus, ViewModel};
use crate::gui::widgets::{
    commit_plan, headline, incomplete_config, indicator_spec, shortened, start_button_spec,
    status_word, template_of, Accent, AddKind, CommitStep,
};
use crate::laws::config::alike;
use crate::laws::text::{
    all_digits, digits_value, law_blank_is_all_white, law_decimal_reads_back,
    law_lowered_forgets_case_only, white_char,
};
use crate::model::ids::ChannelId;
use crate::model::state::{ChannelKind, RecordingState};
use crate::text::lowered;

verus! {

/// A channel can be started where it rests or has failed, and while it runs only to take
/// up edits; each of the three reads differently.
pub proof fn law_starts_are_offered_where_they_do_something(status: ChannelStatus, edited: bool)
    ensures
        start_button_spec(status, edited).1 <==> status is Stopped || status is Faulted || (
        status is Running && edited),
        !start_button_spec(status, edited).1 ==> start_button_spec(status, edited).0
            == start_button_spec(ChannelStatus::Stopped, edited).0,
        start_button_spec(ChannelStatus::Faulted, edited).0 != start_button_spec(
            ChannelStatus::Stopped,
            edited,
        ).0,
        start_button_spec(ChannelStatus::Running, true).0 != start_button_spec(
            ChannelStatus::Stopped,
            edited,
        ).0,
        start_button_spec(ChannelStatus::Running, true).0 != start_button_spec(
            ChannelStatus::Faulted,
            edited,
        ).0,
{
    reveal_strlit("Start Channel");
    reveal_strlit("Retry Channel");
    reveal_strlit("Apply & Restart");
    assert("Start Channel"@[0] == 'S');
    assert("Retry Channel"@[0] == 'R');
    assert("Apply & Restart"@[0] == 'A');
}

/// The recording indicator tells a running recording, a failed one and none apart, by its
/// symbol, its color and its label.
pub proof fn law_indicators_tell_recordings_apart(recording: Option<RecordingState>)
    ensures
        ({
            let on = indicator_spec(Some(RecordingState::Enabled));
            let bad = indicator_spec(Some(RecordingState::Faulted));
            let off = indicator_spec(None);
            let shown = indicator_spec(recording);
            &&& on.0 != bad.0 && on.0 != off.0 && bad.0 != off.0
            &&& on.1 == Accent::Running && bad.1 == Accent::Fault && off.1 == Accent::Idle
            &&& on.2 != bad.2 && on.2 != off.2 && bad.2 != off.2
            &&& recording != Some(RecordingState::Enabled) && recording != Some(
                RecordingState::Faulted,
            ) ==> shown == off
        }),
{
    reveal_strlit("\u{25CF}");
    reveal_strlit("\u{26A0}");
    reveal_strlit("\u{25A0}");
    reveal_strlit("recording");
    reveal_strlit("faulted");
    reveal_strlit("off");
    assert("\u{25CF}"@[0] == '\u{25CF}');
    assert("\u{26A0}"@[0] == '\u{26A0}');
    assert("\u{25A0}"@[0] == '\u{25A0}');
    assert("recording"@.len() == 9 && "faulted"@.len() == 7 && "off"@.len() == 3);
}

/// No two statuses share a word.
pub proof fn law_statuses_have_their_own_words(a: ChannelStatus, b: ChannelStatus)
    requires
        a != b,
    ensures
        status_word(a) != status_word(b),
{
    reveal_strlit("stopped");
    reveal_strlit("running");
    reveal_strlit("faulted");
    reveal_strlit("reconnecting");
    assert("stopped"@[0] == 's');
    assert("running"@.len() == 7 && "running"@[0] == 'r');
    assert("faulted"@[0] == 'f');
    assert("reconnecting"@.len() == 12);
}

/// Edits are committed to a channel at rest: an incomplete configuration is refused;
/// otherwise the channel is stopped first, exactly where it is not, then the edits are
/// installed, and a start comes last.
pub proof fn law_edits_are_installed_at_rest(status: ChannelStatus, incomplete: bool)
    ensures
        commit_plan(status, incomplete) is None <==> incomplete,
        commit_plan(status, incomplete) matches Some(steps) ==> {
            let n = steps.len() as int;
            &&& n >= 2
            &&& steps[n - 1] == CommitStep::Start
            &&& steps[n - 2] == CommitStep::Reconfigure
            &&& n == 2 <==> status is Stopped
            &&& n > 2 ==> n == 3 && steps[0] == CommitStep::Stop
        },
{
}

/// A configuration cannot start without a port: a network channel without a number, a
/// serial one without a device.
pub proof fn law_incomplete_configurations_lack_a_port(c: ChannelConfigModel)
    ensures
        c.interface matches InterfaceConfigModel::Udp(u) ==> (incomplete_config(c) <==> u.port == 0),
        c.interface matches InterfaceConfigModel::TcpListener(t) ==> (incomplete_config(c)
            <==> t.port == 0),
        c.interface matches InterfaceConfigModel::Serial(s) ==> (incomplete_config(c)
            <==> forall|i: int| 0 <= i < s.port.len() ==> white_char(#[trigger] s.port[i])),
{
    if let InterfaceConfigModel::Serial(s) = c.interface {
        law_blank_is_all_white(s.port);
    }
}

/// A new channel has the interface that was asked for, waits for its port, records
/// nothing and marks nothing; a UDP channel listens to broadcasts on any address.
pub proof fn law_new_channels_wait_for_their_port(kind: AddKind)
    ensures
        ({
            let c = template_of(kind);
            &&& incomplete_config(c)
            &&& c.name.len() > 0
            &&& !c.raw_recording.enabled && !c.display_recording.enabled
            &&& c.match_rules.len() == 0
            &&& c.retention.byte_limit is Some
            &&& kind == AddKind::Udp ==> c.kind == ChannelKind::Udp && (
            c.interface matches InterfaceConfigModel::Udp(u) && u.mode is Broadcast
                && u.multicast_group is None)
            &&& kind == AddKind::Tcp ==> c.kind == ChannelKind::TcpListener
                && c.interface is TcpListener
            &&& kind == AddKind::Serial ==> c.kind == ChannelKind::Serial && (
            c.interface matches InterfaceConfigModel::Serial(s) && s.baud_rate == 9600)
        }),
{
    reveal_strlit("UDP_Channel");
    reveal_strlit("TCP_Listener");
    reveal_strlit("Serial_Channel");
    law_incomplete_configurations_lack_a_port(template_of(kind));
}

/// The line above a channel is the newest of what is worst: an error, without one a
/// warning, without one an event.
pub proof fn law_the_worst_heads_a_channel(d: DiagnosticsSnapshot)
    ensures
        d.errors@.len() > 0 ==> headline(d) == (
            d.errors@[d.errors@.len() - 1].message@,
            Accent::Fault,
        ),
        d.errors@.len() == 0 && d.warnings@.len() > 0 ==> headline(d) == (
            d.warnings@[d.warnings@.len() - 1].message@,
            Accent::Warning,
        ),
        d.errors@.len() == 0 && d.warnings@.len() == 0 && d.events@.len() > 0 ==> headline(d) == (
            d.events@[d.events@.len() - 1].message@,
            Accent::Event,
        ),
        d.errors@.len() == 0 && d.warnings@.len() == 0 && d.events@.len() == 0 ==> headline(d).1
            == Accent::Idle,
{
}

/// A text that fits stays as it is. One that does not has the length that is allowed, at
/// least that of the ellipsis that it ends with, and begins as it did.
pub proof fn law_texts_are_cut_to_length(t: Seq<char>, max: usize)
    ensures
        t.len() <= max ==> shortened(t, max) == t,
        t.len() > max ==> {
            let s = shortened(t, max);
            &&& s.len() == if max == 0 {
                1
            } else {
                max as int
            }
            &&& s[s.len() - 1] == '\u{2026}'
            &&& forall|i: int| 0 <= i < s.len() - 1 ==> #[trigger] s[i] == t[i]
        },
{
}

/// A name is taken where a channel has it, the case of ASCII letters apart; a channel does
/// not take it from itself.
pub proof fn law_names_are_taken_in_any_case(views: Seq<ViewModel>, id: ChannelId, name: Seq<char>)
    ensures
        name_taken(views, name) <==> exists|i: int|
            0 <= i < views.len() && alike((#[trigger] views[i]).name, name),
        name_taken_by_other(views, id, name) <==> exists|i: int|
            0 <= i < views.len() && (#[trigger] views[i]).id != id && alike(views[i].name, name),
{
    assert forall|i: int| 0 <= i < views.len() implies (lowered((#[trigger] views[i]).name)
        == lowered(name) <==> alike(views[i].name, name)) by {
        law_lowered_forgets_case_only(views[i].name, name);
    }
    if name_taken(views, name) {
        let i = choose|i: int|
            0 <= i < views.len() && lowered((#[trigger] views[i]).name) == lowered(name);
        assert(alike(views[i].name, name));
    }
    if name_taken_by_other(views, id, name) {
        let i = choose|i: int|
            0 <= i < views.len() && (#[trigger] views[i]).id != id && lowered(views[i].name)
                == lowered(name);
        assert(alike(views[i].name, name));
    }
}

/// The name of a new channel is its base with a number behind it: the least above the last
/// one that makes a name that no channel has.
pub proof fn law_new_names_are_the_next_free_ones(
    views: Seq<ViewModel>,
    base: Seq<char>,
    from: u32,
    n: u32,
    m: u32,
)
    requires
        is_next_number(views, base, from, n),
    ensures
        n > from,
        ({
            let name = numbered(base, n as int);
            let tail = name.skip(base.len() as int);
            &&& name.len() > base.len() && name.take(base.len() as int) == base
            &&& all_digits(tail) && digits_value(tail) == n
        }),
        forall|i: int|
            0 <= i < views.len() ==> !alike((#[trigger] views[i]).name, numbered(base, n as int)),
        from < m < n ==> exists|i: int|
            0 <= i < views.len() && alike((#[trigger] views[i]).name, numbered(base, m as int)),
{
    let name = numbered(base, n as int);
    law_decimal_reads_back(n as nat);
    assert(name.take(base.len() as int) =~= base);
    assert(name.skip(base.len() as int) =~= crate::text::decimal(n as nat));
    law_names_are_taken_in_any_case(views, ChannelId(0), name);
    law_names_are_taken_in_any_case(views, ChannelId(0), numbered(base, m as int));
    if from < m < n {
        assert(name_taken(views, numbered(base, m as int)));
    }
}

/// Each kind of channel is counted on its own.
pub proof fn law_kinds_are_counted_apart(seq: ChannelSeq, n: u32)
    ensures
        seq.at(AddKind::Udp) == seq.udp,
        seq.at(AddKind::Tcp) == seq.tcp,
        seq.at(AddKind::Serial) == seq.serial,
        seq.with(AddKind::Udp, n) == (ChannelSeq { udp: n, tcp: seq.tcp, serial: seq.serial }),
        seq.with(AddKind::Tcp, n) == (ChannelSeq { udp: seq.udp, tcp: n, serial: seq.serial }),
        seq.with(AddKind::Serial, n) == (ChannelSeq { udp: seq.udp, tcp: seq.tcp, serial: n }),
{
}

} // verus!
