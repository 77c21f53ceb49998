//! What a command line asks for, and how events read in a terminal.

use vstd::prelude::*;
use vstd::string::*;

use crate::cli::{event_phrase, requested, serial_on, tcp_on, udp_on, Cli};
use crate::config::schema::{ChannelConfigModel, InterfaceConfigModel};
use crate::config::validate::{valid_models, Profile};
use crate::laws::telling::{lemma_nothing, lemma_number, tells, Part};
use crate::model::command::RuntimeEvent;
use crate::model::ids::hyphenated;
use crate::model::state::ChannelKind;

verus! {

/// A command line names a source where it gives a profile, a port for UDP or TCP, or a
/// serial port.
pub proof fn law_sources_are_any_of_four(cli: Cli)
    ensures
        !cli.names_source() <==> cli.profile is None && cli.udp is None && cli.tcp is None
            && cli.serial is None,
{
}

/// A profile runs its valid channels, whatever else is asked for. Without one the first of
/// UDP, TCP and serial runs, alone, on the port that was given; without any, nothing does.
pub proof fn law_the_first_source_runs(cli: Cli, profile: Option<Profile>)
    ensures
        requested(cli, profile) is None <==> profile is None && cli.udp is None && cli.tcp is None
            && cli.serial is None,
        profile matches Some(p) ==> requested(cli, profile)->0 == valid_models(
            p,
            p.channels@.len() as int,
        ),
        profile is None && cli.udp is Some ==> requested(cli, profile)->0.len() == 1
            && requested(cli, profile)->0[0].kind == ChannelKind::Udp && (requested(
            cli,
            profile,
        )->0[0].interface matches InterfaceConfigModel::Udp(u) && u.port == cli.udp->0),
        profile is None && cli.udp is None && cli.tcp is Some ==> requested(cli, profile)->0.len()
            == 1 && requested(cli, profile)->0[0].kind == ChannelKind::TcpListener && (requested(
            cli,
            profile,
        )->0[0].interface matches InterfaceConfigModel::TcpListener(t) && t.port == cli.tcp->0),
        profile is None && cli.udp is None && cli.tcp is None && cli.serial is Some ==> requested(
            cli,
            profile,
        )->0.len() == 1 && requested(cli, profile)->0[0].kind == ChannelKind::Serial && (requested(
            cli,
            profile,
        )->0[0].interface matches InterfaceConfigModel::Serial(s) && s.port == cli.serial->0@
            && s.baud_rate == cli.baud),
{
}

/// What all templates have in common: they record nothing, match nothing and bound what
/// they retain.
pub open spec fn harmless(c: ChannelConfigModel) -> bool {
    &&& c.id is None
    &&& !c.raw_recording.enabled && !c.display_recording.enabled
    &&& c.raw_recording.destination is None && c.display_recording.destination is None
    &&& c.match_rules.len() == 0
    &&& c.retention.byte_limit == Some(65_536usize)
    &&& c.display.views.len() == 2
    &&& c.display.views[0].mode is Raw && c.display.views[1].mode is Hex
}

/// A channel from the command line receives from any address, on the port that was given,
/// and does nothing else.
pub proof fn law_sources_are_harmless(port: u16, device: Seq<char>, baud: u32)
    ensures
        harmless(udp_on(port)),
        harmless(tcp_on(port)),
        harmless(serial_on(device, baud)),
        udp_on(port).interface matches InterfaceConfigModel::Udp(u) && u.mode is Unicast
            && u.multicast_group is None && !u.kernel_timestamps,
        tcp_on(port).interface matches InterfaceConfigModel::TcpListener(t)
            && t.max_connections is None,
        serial_on(device, baud).interface matches InterfaceConfigModel::Serial(s)
            && s.data_bits is Eight && s.parity is NoParity && s.stop_bits is One
            && s.flow_control is NoControl && s.rts is None && s.dtr is None,
{
}

/// Which event it is, its contents apart.
pub open spec fn event_kind(event: RuntimeEvent) -> int {
    match event {
        RuntimeEvent::ChannelStarted(_) => 0,
        RuntimeEvent::ChannelStopped(_) => 1,
        RuntimeEvent::ChannelFaulted(_) => 2,
        RuntimeEvent::RecordingFaulted(_, _) => 3,
        RuntimeEvent::RecordingStarted(_, _) => 4,
        RuntimeEvent::WarningRaised(_) => 5,
        RuntimeEvent::TcpClientConnected(_) => 6,
        RuntimeEvent::TcpClientDisconnected(_) => 7,
        RuntimeEvent::ReceptionStalled(_, _) => 8,
        RuntimeEvent::ControlLinesChanged(_) => 9,
        RuntimeEvent::ChannelReconnecting(_, _) => 10,
        RuntimeEvent::ChannelReconnected(_) => 11,
        RuntimeEvent::ChannelReconnectGaveUp(_) => 12,
        RuntimeEvent::DiskSpaceLow(_) => 13,
        RuntimeEvent::RecordingStoppedLowDisk(_) => 14,
        RuntimeEvent::MatchTriggered(_, _) => 15,
    }
}

/// Some characters of a phrase, by which it is known.
spec fn fingerprint(t: Seq<char>) -> (char, char, char, char) {
    (
        t[0],
        t[3],
        if t.len() > 9 {
            t[9]
        } else {
            '.'
        },
        if t.len() > 12 {
            t[12]
        } else {
            '.'
        },
    )
}

spec fn fingerprint_of(kind: int) -> (char, char, char, char) {
    if kind == 0 {
        ('s', 'r', '.', '.')
    } else if kind == 1 {
        ('s', 'p', '.', '.')
    } else if kind == 2 {
        ('F', 'L', '.', '.')
    } else if kind == 3 {
        ('r', 'o', ' ', 'u')
    } else if kind == 4 {
        ('r', 'o', ' ', 'a')
    } else if kind == 5 {
        ('w', 'n', 'a', 'e')
    } else if kind == 6 {
        ('T', ' ', 't', 'o')
    } else if kind == 7 {
        ('T', ' ', 't', 'i')
    } else if kind == 8 {
        ('r', 'e', ' ', 'a')
    } else if kind == 9 {
        ('c', 't', 'i', 's')
    } else if kind == 10 {
        ('r', 'o', 'i', ' ')
    } else if kind == 11 {
        ('r', 'o', 'e', '.')
    } else if kind == 12 {
        ('r', 'o', ' ', 'v')
    } else if kind == 13 {
        ('L', ' ', '.', '.')
    } else if kind == 14 {
        ('r', 'o', ' ', 'o')
    } else {
        ('m', 'c', 'e', '.')
    }
}

#[verifier::rlimit(40)]
proof fn lemma_fingerprint(event: RuntimeEvent)
    requires
        !(event is ReceptionStalled) && !(event is ChannelReconnecting) && !(
        event is MatchTriggered),
    ensures
        event_phrase(event).len() >= 4,
        fingerprint(event_phrase(event)) == fingerprint_of(event_kind(event)),
{
    reveal_strlit("started");
    reveal_strlit("stopped");
    reveal_strlit("FAULTED");
    reveal_strlit("recording faulted");
    reveal_strlit("recording started");
    reveal_strlit("warning raised");
    reveal_strlit("TCP client connected");
    reveal_strlit("TCP client disconnected");
    reveal_strlit("control lines changed");
    reveal_strlit("reconnected");
    reveal_strlit("reconnect gave up");
    reveal_strlit("LOW DISK");
    reveal_strlit("recording stopped (low disk)");
}

#[verifier::rlimit(40)]
proof fn lemma_long_fingerprint(event: RuntimeEvent)
    requires
        event is ReceptionStalled || event is ChannelReconnecting || event is MatchTriggered,
    ensures
        event_phrase(event).len() >= 13,
        ({
            let f = fingerprint(event_phrase(event));
            let g = fingerprint_of(event_kind(event));
            f.0 == g.0 && f.1 == g.1 && f.2 == g.2 && (!(event is MatchTriggered) ==> f.3 == g.3)
        }),
{
    reveal_strlit("reception stalled ");
    reveal_strlit(" ms");
    reveal_strlit("reconnecting (attempt ");
    reveal_strlit(")");
    reveal_strlit("match rule ");
    reveal_strlit(" fired");
    let t = event_phrase(event);
    match event {
        RuntimeEvent::ReceptionStalled(_, _) => {
            let lead = "reception stalled "@;
            assert(t[0] == lead[0] && t[3] == lead[3] && t[9] == lead[9] && t[12] == lead[12]);
        },
        RuntimeEvent::ChannelReconnecting(_, _) => {
            let lead = "reconnecting (attempt "@;
            assert(t[0] == lead[0] && t[3] == lead[3] && t[9] == lead[9] && t[12] == lead[12]);
        },
        RuntimeEvent::MatchTriggered(_, rule) => {
            let lead = "match rule "@;
            assert(hyphenated(rule.0).len() == 36);
            assert(t[0] == lead[0] && t[3] == lead[3] && t[9] == lead[9]);
        },
        _ => {},
    }
}

/// Events of different kinds read differently.
#[verifier::rlimit(40)]
pub proof fn law_events_read_differently(a: RuntimeEvent, b: RuntimeEvent)
    requires
        event_kind(a) != event_kind(b),
    ensures
        event_phrase(a) != event_phrase(b),
{
    if a is ReceptionStalled || a is ChannelReconnecting || a is MatchTriggered {
        lemma_long_fingerprint(a);
    } else {
        lemma_fingerprint(a);
    }
    if b is ReceptionStalled || b is ChannelReconnecting || b is MatchTriggered {
        lemma_long_fingerprint(b);
    } else {
        lemma_fingerprint(b);
    }
}

/// A stall is told in whole milliseconds, a reconnection with the number of its attempt,
/// and a match with its rule.
pub proof fn law_events_tell_their_contents(event: RuntimeEvent)
    ensures
        event matches RuntimeEvent::ReceptionStalled(_, nanos) ==> tells(
            event_phrase(event),
            seq![Part::Number(nanos as nat / 1_000_000)],
        ),
        event matches RuntimeEvent::ChannelReconnecting(_, n) ==> tells(
            event_phrase(event),
            seq![Part::Number(n as nat)],
        ),
        event matches RuntimeEvent::MatchTriggered(_, rule) ==> event_phrase(event).subrange(
            11,
            47,
        ) == hyphenated(rule.0),
{
    reveal_strlit("reception stalled ");
    reveal_strlit(" ms");
    reveal_strlit("reconnecting (attempt ");
    reveal_strlit(")");
    reveal_strlit("match rule ");
    reveal_strlit(" fired");
    match event {
        RuntimeEvent::ReceptionStalled(_, nanos) => {
            let n = nanos as nat / 1_000_000;
            lemma_nothing(" ms"@);
            lemma_number("reception stalled "@, n, " ms"@, Seq::empty());
            let parts = seq![Part::Number(n)];
            assert(parts + Seq::empty() =~= parts);
        },
        RuntimeEvent::ChannelReconnecting(_, n) => {
            lemma_nothing(")"@);
            lemma_number("reconnecting (attempt "@, n as nat, ")"@, Seq::empty());
            let parts = seq![Part::Number(n as nat)];
            assert(parts + Seq::empty() =~= parts);
        },
        RuntimeEvent::MatchTriggered(_, rule) => {
            assert(event_phrase(event).subrange(11, 47) =~= hyphenated(rule.0));
        },
        _ => {},
    }
}

} // verus!
