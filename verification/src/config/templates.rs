//! Safe, valid starting configurations. The serial port, and the port of a network
//! channel, are placeholders to be filled in before a start.

use vstd::prelude::*;
use vstd::string::*;

use crate::config::schema::{
    default_reconnect, default_recording, display_view_configs_view, ChannelConfig,
    ChannelConfigModel, DataBits, DefaultConfig, DisplayConfig, DisplayConfigModel,
    DisplayViewConfig, DisplayViewConfigModel, FlowControl, InterfaceConfig, InterfaceConfigModel,
    Parity, RecordingConfig, ReconnectPolicy, RetentionConfig, SerialConfig, SerialConfigModel,
    StopBits, TcpListenerConfig, TcpListenerConfigModel, UdpConfig, UdpConfigModel, UdpMode,
    no_retention, match_rules_view,
};
use crate::config::validate::{
    channel_faults, group_faults, kind_faults, name_faults, retention_faults, rule_faults,
};
use crate::display::{CharacterRendering, DisplayEncoding, DisplayMode, WrappingMode};
use crate::model::ids::ChannelName;
use crate::model::state::ChannelKind;

verus! {

/// A plain view in the given mode.
pub open spec fn plain_view(mode: DisplayMode) -> DisplayViewConfigModel {
    DisplayViewConfigModel {
        mode,
        encoding: DisplayEncoding::Utf8,
        character_rendering: CharacterRendering::Native,
        font: None,
        font_size: None,
        foreground_color: None,
        background_color: None,
        wrapping: WrappingMode::NoWrap,
    }
}

/// What all templates share, around a name, a kind and an interface.
pub open spec fn template_model(name: Seq<char>, kind: ChannelKind, interface: InterfaceConfigModel) -> ChannelConfigModel {
    ChannelConfigModel {
        id: None,
        name,
        kind,
        interface,
        display: DisplayConfigModel {
            views: seq![plain_view(DisplayMode::Raw), plain_view(DisplayMode::Hex)],
        },
        raw_recording: default_recording(),
        display_recording: default_recording(),
        retention: RetentionConfig { byte_limit: Some(65_536), ..no_retention() },
        reconnect: default_reconnect(),
        match_rules: Seq::empty(),
    }
}

fn view(mode: DisplayMode) -> (r: DisplayViewConfig)
    ensures
        r@ == plain_view(mode),
{
    DisplayViewConfig {
        mode,
        encoding: DisplayEncoding::Utf8,
        character_rendering: CharacterRendering::Native,
        font: None,
        font_size: None,
        foreground_color: None,
        background_color: None,
        wrapping: WrappingMode::NoWrap,
    }
}

fn template(name: &str, kind: ChannelKind, interface: InterfaceConfig) -> (r: ChannelConfig)
    ensures
        r@ == template_model(name@, kind, interface@),
        r.interface == interface,
{
    let mut views: Vec<DisplayViewConfig> = Vec::new();
    views.push(view(DisplayMode::Raw));
    views.push(view(DisplayMode::Hex));
    assert(display_view_configs_view(views@) =~= seq![
        plain_view(DisplayMode::Raw),
        plain_view(DisplayMode::Hex),
    ]);
    let r = ChannelConfig {
        id: None,
        name: ChannelName::new(name),
        kind,
        interface,
        display: DisplayConfig { views },
        raw_recording: RecordingConfig::default(),
        display_recording: RecordingConfig::default(),
        retention: RetentionConfig::with_byte_limit(64 * 1024),
        reconnect: ReconnectPolicy::default(),
        match_rules: Vec::new(),
    };
    assert(match_rules_view(r.match_rules@) =~= Seq::empty());
    r
}

/// Generic serial channel: 9600 8N1.
pub fn serial_template() -> (r: ChannelConfig)
    ensures
        r@ == template_model(
            "Serial_Channel"@,
            ChannelKind::Serial,
            InterfaceConfigModel::Serial(
                SerialConfigModel {
                    port: Seq::empty(),
                    baud_rate: 9600,
                    data_bits: DataBits::Eight,
                    parity: Parity::NoParity,
                    stop_bits: StopBits::One,
                    flow_control: FlowControl::NoControl,
                    rts: None,
                    dtr: None,
                },
            ),
        ),
{
    template(
        "Serial_Channel",
        ChannelKind::Serial,
        InterfaceConfig::Serial(
            SerialConfig {
                port: String::new(),
                baud_rate: 9600,
                data_bits: DataBits::Eight,
                parity: Parity::NoParity,
                stop_bits: StopBits::One,
                flow_control: FlowControl::NoControl,
                rts: None,
                dtr: None,
            },
        ),
    )
}

/// UDP channel: bound to all interfaces, unicast.
pub fn udp_template() -> (r: ChannelConfig)
    ensures
        r@ == template_model(
            "UDP_Channel"@,
            ChannelKind::Udp,
            InterfaceConfigModel::Udp(
                UdpConfigModel {
                    bind_address: "0.0.0.0"@,
                    port: 0,
                    mode: UdpMode::Unicast,
                    multicast_group: None,
                    multicast_interface: None,
                    recv_buffer_bytes: None,
                    kernel_timestamps: false,
                },
            ),
        ),
{
    template(
        "UDP_Channel",
        ChannelKind::Udp,
        InterfaceConfig::Udp(
            UdpConfig {
                bind_address: "0.0.0.0".to_owned(),
                port: 0,
                mode: UdpMode::Unicast,
                multicast_group: None,
                multicast_interface: None,
                recv_buffer_bytes: None,
                kernel_timestamps: false,
            },
        ),
    )
}

/// TCP listener: bound to all interfaces, any number of connections.
pub fn tcp_listener_template() -> (r: ChannelConfig)
    ensures
        r@ == template_model(
            "TCP_Listener"@,
            ChannelKind::TcpListener,
            InterfaceConfigModel::TcpListener(
                TcpListenerConfigModel {
                    bind_address: "0.0.0.0"@,
                    port: 0,
                    max_connections: None,
                    recv_buffer_bytes: None,
                },
            ),
        ),
{
    template(
        "TCP_Listener",
        ChannelKind::TcpListener,
        InterfaceConfig::TcpListener(
            TcpListenerConfig {
                bind_address: "0.0.0.0".to_owned(),
                port: 0,
                max_connections: None,
                recv_buffer_bytes: None,
            },
        ),
    )
}

/// A configuration that says what a template says, of a kind that its interface has and
/// not multicast, is valid under any defaults.
pub proof fn law_templates_are_valid(channel: ChannelConfig, defaults: DefaultConfig)
    requires
        channel@ == template_model(channel.name@, channel.kind, channel.interface@),
        crate::config::validate::kind_fits(channel.kind, channel.interface),
        channel.interface matches InterfaceConfig::Udp(udp) ==> !(udp.mode is Multicast),
    ensures
        channel_faults(channel, defaults).len() == 0,
{
    assert(channel.match_rules@.len() == 0) by {
        assert(match_rules_view(channel.match_rules@).len() == channel.match_rules@.len());
    }
    assert(channel.raw_recording@ == default_recording());
    assert(channel.display_recording@ == default_recording());
    assert(!channel.raw_recording@.enabled);
    assert(kind_faults(channel).len() == 0);
    assert(group_faults(channel).len() == 0);
    assert(name_faults(channel).len() == 0);
    assert(rule_faults(channel.match_rules@).len() == 0);
    assert(retention_faults(channel, defaults).len() == 0);
}

} // verus!
