//! The command line: which interface to launch, which channels to run, and how runtime
//! events read in a terminal.

use vstd::prelude::*;
use vstd::string::*;

use crate::config::schema::{
    channel_configs_view, ChannelConfig, ChannelConfigModel, InterfaceConfig, InterfaceConfigModel,
    SerialConfigModel, TcpListenerConfigModel, UdpConfigModel,
};
use crate::config::templates::{serial_template, tcp_listener_template, template_model, udp_template};
use crate::config::validate::{valid_models, Profile};
use crate::model::command::RuntimeEvent;
use crate::model::ids::{hyphenated, ChannelId};
use crate::model::state::ChannelKind;
use crate::text::{decimal, push_decimal};

verus! {

/// What was asked for on the command line.
#[derive(Clone, Debug, PartialEq, Eq)]
pub struct Cli {
    /// A profile to load, by its path.
    pub profile: Option<String>,
    /// A port to receive UDP datagrams on.
    pub udp: Option<u16>,
    /// A port to accept TCP clients on.
    pub tcp: Option<u16>,
    /// A serial port to open.
    pub serial: Option<String>,
    /// Serial baud rate.
    pub baud: u32,
    /// Launch the graphical interface.
    pub gui: bool,
    /// Run headless.
    pub cli: bool,
}

impl Cli {
    /// A data source was requested.
    pub open spec fn names_source(self) -> bool {
        self.profile is Some || self.udp is Some || self.tcp is Some || self.serial is Some
    }

    fn has_source(&self) -> (r: bool)
        ensures
            r == self.names_source(),
    {
        self.profile.is_some() || self.udp.is_some() || self.tcp.is_some() || self.serial.is_some()
    }

    /// Whether to launch the graphical interface: always with `gui`; otherwise only
    /// where neither `cli` nor a source asks for headless.
    pub fn wants_gui(&self) -> (r: bool)
        ensures
            r == (self.gui || (!self.cli && !self.names_source())),
    {
        if self.gui {
            true
        } else if self.cli {
            false
        } else {
            !self.has_source()
        }
    }

    /// Whether nothing at all was asked for.
    pub fn is_bare_launch(&self) -> (r: bool)
        ensures
            r == (!self.gui && !self.cli && !self.names_source()),
    {
        !self.gui && !self.cli && !self.has_source()
    }

    /// Why the graphical interface did not open. After a bare launch, where nobody asked
    /// for it, the way to run without it is named.
    pub fn gui_failure(&self, reason: &str) -> (r: String)
        ensures
            r@ == if !self.gui && !self.cli && !self.names_source() {
                "could not open the graphical interface ("@ + reason@
                    + "); for headless use pass a source (--udp/--tcp/--serial/--profile), or run with --cli"@
            } else {
                reason@
            },
    {
        if self.is_bare_launch() {
            let mut out: String = "could not open the graphical interface (".to_owned();
            out.append(reason);
            out.append(
                "); for headless use pass a source (--udp/--tcp/--serial/--profile), or run with --cli",
            );
            out
        } else {
            reason.to_owned()
        }
    }
}

/// No profile and no source was given.
#[derive(Clone, Copy, Debug, PartialEq, Eq, Structural)]
pub struct NoSource;

impl NoSource {
    /// The error as text.
    pub fn to_string(&self) -> (r: String)
        ensures
            r@ == "specify --profile, --udp, --tcp, or --serial (see --help)"@,
    {
        "specify --profile, --udp, --tcp, or --serial (see --help)".to_owned()
    }
}

/// The UDP template on a port.
pub open spec fn udp_on(port: u16) -> ChannelConfigModel {
    template_model(
        "UDP_Channel"@,
        ChannelKind::Udp,
        InterfaceConfigModel::Udp(
            UdpConfigModel {
                bind_address: "0.0.0.0"@,
                port,
                mode: crate::config::schema::UdpMode::Unicast,
                multicast_group: None,
                multicast_interface: None,
                recv_buffer_bytes: None,
                kernel_timestamps: false,
            },
        ),
    )
}

/// The TCP template on a port.
pub open spec fn tcp_on(port: u16) -> ChannelConfigModel {
    template_model(
        "TCP_Listener"@,
        ChannelKind::TcpListener,
        InterfaceConfigModel::TcpListener(
            TcpListenerConfigModel {
                bind_address: "0.0.0.0"@,
                port,
                max_connections: None,
                recv_buffer_bytes: None,
            },
        ),
    )
}

/// The serial template on a port at a baud rate.
pub open spec fn serial_on(port: Seq<char>, baud_rate: u32) -> ChannelConfigModel {
    template_model(
        "Serial_Channel"@,
        ChannelKind::Serial,
        InterfaceConfigModel::Serial(
            SerialConfigModel {
                port,
                baud_rate,
                data_bits: crate::config::schema::DataBits::Eight,
                parity: crate::config::schema::Parity::NoParity,
                stop_bits: crate::config::schema::StopBits::One,
                flow_control: crate::config::schema::FlowControl::NoControl,
                rts: None,
                dtr: None,
            },
        ),
    )
}

/// What the channels to run say.
pub open spec fn requested(cli: Cli, profile: Option<Profile>) -> Option<Seq<ChannelConfigModel>> {
    match profile {
        Some(p) => Some(valid_models(p, p.channels@.len() as int)),
        None => match cli.udp {
            Some(port) => Some(seq![udp_on(port)]),
            None => match cli.tcp {
                Some(port) => Some(seq![tcp_on(port)]),
                None => match cli.serial {
                    Some(port) => Some(seq![serial_on(port@, cli.baud)]),
                    None => None,
                },
            },
        },
    }
}

/// An optional profile behind a reference.
pub open spec fn profile_value(profile: Option<&Profile>) -> Option<Profile> {
    match profile {
        Some(p) => Some(*p),
        None => None,
    }
}

/// The channels to run: the valid ones of the loaded profile where there is one,
/// otherwise the first source among UDP, TCP and serial on its template.
pub fn build_channel_configs(cli: &Cli, profile: Option<&Profile>) -> (r: Result<
    Vec<ChannelConfig>,
    NoSource,
>)
    ensures
        r is Ok <==> requested(*cli, profile_value(profile)) is Some,
        r matches Ok(configs) ==> channel_configs_view(configs@) == requested(
            *cli,
            profile_value(profile),
        )->0,
{
    if let Some(p) = profile {
        return Ok(p.valid_channels());
    }
    let config: ChannelConfig = if let Some(port) = cli.udp {
        let mut config = udp_template();
        if let InterfaceConfig::Udp(udp) = &mut config.interface {
            udp.port = port;
        }
        assert(config@ == udp_on(port));
        config
    } else if let Some(port) = cli.tcp {
        let mut config = tcp_listener_template();
        if let InterfaceConfig::TcpListener(tcp) = &mut config.interface {
            tcp.port = port;
        }
        assert(config@ == tcp_on(port));
        config
    } else if let Some(port) = &cli.serial {
        let mut config = serial_template();
        if let InterfaceConfig::Serial(serial) = &mut config.interface {
            serial.port = port.clone();
            serial.baud_rate = cli.baud;
        }
        assert(config@ == serial_on(port@, cli.baud));
        config
    } else {
        return Err(NoSource);
    };
    let mut out: Vec<ChannelConfig> = Vec::new();
    out.push(config);
    assert(channel_configs_view(out@) =~= seq![config@]);
    Ok(out)
}

/// The channel that an event is about.
pub open spec fn event_channel(event: RuntimeEvent) -> ChannelId {
    match event {
        RuntimeEvent::ChannelStarted(id) => id,
        RuntimeEvent::ChannelStopped(id) => id,
        RuntimeEvent::ChannelFaulted(id) => id,
        RuntimeEvent::RecordingFaulted(id, _) => id,
        RuntimeEvent::RecordingStarted(id, _) => id,
        RuntimeEvent::WarningRaised(id) => id,
        RuntimeEvent::TcpClientConnected(id) => id,
        RuntimeEvent::TcpClientDisconnected(id) => id,
        RuntimeEvent::ReceptionStalled(id, _) => id,
        RuntimeEvent::ControlLinesChanged(id) => id,
        RuntimeEvent::ChannelReconnecting(id, _) => id,
        RuntimeEvent::ChannelReconnected(id) => id,
        RuntimeEvent::ChannelReconnectGaveUp(id) => id,
        RuntimeEvent::DiskSpaceLow(id) => id,
        RuntimeEvent::RecordingStoppedLowDisk(id) => id,
        RuntimeEvent::MatchTriggered(id, _) => id,
    }
}

/// What an event says of its channel.
pub open spec fn event_phrase(event: RuntimeEvent) -> Seq<char> {
    match event {
        RuntimeEvent::ChannelStarted(_) => "started"@,
        RuntimeEvent::ChannelStopped(_) => "stopped"@,
        RuntimeEvent::ChannelFaulted(_) => "FAULTED"@,
        RuntimeEvent::RecordingFaulted(_, _) => "recording faulted"@,
        RuntimeEvent::RecordingStarted(_, _) => "recording started"@,
        RuntimeEvent::WarningRaised(_) => "warning raised"@,
        RuntimeEvent::TcpClientConnected(_) => "TCP client connected"@,
        RuntimeEvent::TcpClientDisconnected(_) => "TCP client disconnected"@,
        RuntimeEvent::ReceptionStalled(_, nanos) => "reception stalled "@ + decimal(
            nanos as nat / 1_000_000,
        ) + " ms"@,
        RuntimeEvent::ControlLinesChanged(_) => "control lines changed"@,
        RuntimeEvent::ChannelReconnecting(_, attempt) => "reconnecting (attempt "@ + decimal(
            attempt as nat,
        ) + ")"@,
        RuntimeEvent::ChannelReconnected(_) => "reconnected"@,
        RuntimeEvent::ChannelReconnectGaveUp(_) => "reconnect gave up"@,
        RuntimeEvent::DiskSpaceLow(_) => "LOW DISK"@,
        RuntimeEvent::RecordingStoppedLowDisk(_) => "recording stopped (low disk)"@,
        RuntimeEvent::MatchTriggered(_, rule) => "match rule "@ + hyphenated(rule.0) + " fired"@,
    }
}

pub fn channel_of(event: &RuntimeEvent) -> (r: ChannelId)
    ensures
        r == event_channel(*event),
{
    match event {
        RuntimeEvent::ChannelStarted(id) => *id,
        RuntimeEvent::ChannelStopped(id) => *id,
        RuntimeEvent::ChannelFaulted(id) => *id,
        RuntimeEvent::RecordingFaulted(id, _) => *id,
        RuntimeEvent::RecordingStarted(id, _) => *id,
        RuntimeEvent::WarningRaised(id) => *id,
        RuntimeEvent::TcpClientConnected(id) => *id,
        RuntimeEvent::TcpClientDisconnected(id) => *id,
        RuntimeEvent::ReceptionStalled(id, _) => *id,
        RuntimeEvent::ControlLinesChanged(id) => *id,
        RuntimeEvent::ChannelReconnecting(id, _) => *id,
        RuntimeEvent::ChannelReconnected(id) => *id,
        RuntimeEvent::ChannelReconnectGaveUp(id) => *id,
        RuntimeEvent::DiskSpaceLow(id) => *id,
        RuntimeEvent::RecordingStoppedLowDisk(id) => *id,
        RuntimeEvent::MatchTriggered(id, _) => *id,
    }
}

fn push_phrase(out: &mut String, event: &RuntimeEvent)
    ensures
        final(out)@ == old(out)@ + event_phrase(*event),
{
    match event {
        RuntimeEvent::ChannelStarted(_) => out.append("started"),
        RuntimeEvent::ChannelStopped(_) => out.append("stopped"),
        RuntimeEvent::ChannelFaulted(_) => out.append("FAULTED"),
        RuntimeEvent::RecordingFaulted(_, _) => out.append("recording faulted"),
        RuntimeEvent::RecordingStarted(_, _) => out.append("recording started"),
        RuntimeEvent::WarningRaised(_) => out.append("warning raised"),
        RuntimeEvent::TcpClientConnected(_) => out.append("TCP client connected"),
        RuntimeEvent::TcpClientDisconnected(_) => out.append("TCP client disconnected"),
        RuntimeEvent::ReceptionStalled(_, nanos) => {
            out.append("reception stalled ");
            push_decimal(out, *nanos / 1_000_000);
            out.append(" ms");
        },
        RuntimeEvent::ControlLinesChanged(_) => out.append("control lines changed"),
        RuntimeEvent::ChannelReconnecting(_, attempt) => {
            out.append("reconnecting (attempt ");
            push_decimal(out, *attempt as u64);
            out.append(")");
        },
        RuntimeEvent::ChannelReconnected(_) => out.append("reconnected"),
        RuntimeEvent::ChannelReconnectGaveUp(_) => out.append("reconnect gave up"),
        RuntimeEvent::DiskSpaceLow(_) => out.append("LOW DISK"),
        RuntimeEvent::RecordingStoppedLowDisk(_) => out.append("recording stopped (low disk)"),
        RuntimeEvent::MatchTriggered(_, rule) => {
            let id: String = rule.to_string();
            out.append("match rule ");
            out.append(id.as_str());
            out.append(" fired");
        },
    }
    assert(out@ =~= old(out)@ + event_phrase(*event));
}

/// An event as a line of text.
pub fn format_event(event: &RuntimeEvent) -> (r: String)
    ensures
        r@ == "["@ + hyphenated(event_channel(*event).0) + "] "@ + event_phrase(*event),
{
    let mut out: String = "[".to_owned();
    let id: String = channel_of(event).to_string();
    out.append(id.as_str());
    out.append("] ");
    push_phrase(&mut out, event);
    out
}

} // verus!
