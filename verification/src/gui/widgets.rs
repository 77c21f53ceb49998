//! What the controls say and allow, from the state of a channel.

use vstd::prelude::*;
use vstd::string::*;

use crate::config::schema::{
    equal_configs, equal_policies, same_config_id, same_match_rules, ChannelConfig, ChannelConfigModel, DataBits, FlowControl,
    InterfaceConfig, InterfaceConfigModel, Parity, ReconnectPolicy, RetentionConfig, StopBits,
    UdpConfigModel, UdpMode,
};
use crate::config::templates::{serial_template, tcp_listener_template, udp_template};
use crate::gui::snapshot::DiagnosticsSnapshot;
use crate::gui::state::ChannelStatus;
use crate::gui::view_prefs::Rgb;
use crate::model::float::doubles_equal;
use crate::model::state::RecordingState;
use crate::text::{
    before, chars_of, decimal, decimal_text, is_blank, parse_unsigned, string_of, text_before, trim,
    trimmed, unsigned_of,
};

verus! {

/// What a color stands for.
#[derive(Clone, Copy, Debug, PartialEq, Eq, Structural)]
pub enum Accent {
    Running,
    Idle,
    Fault,
    Warning,
    Event,
    Info,
}

/// The start button: its label, and whether it can be pressed. A channel at rest starts,
/// a faulted one is retried, a running one is restarted where edits wait; a channel that
/// reconnects can only be stopped.
pub open spec fn start_button_spec(status: ChannelStatus, config_changed: bool) -> (Seq<char>, bool) {
    match status {
        ChannelStatus::Stopped => ("Start Channel"@, true),
        ChannelStatus::Running => if config_changed {
            ("Apply & Restart"@, true)
        } else {
            ("Start Channel"@, false)
        },
        ChannelStatus::Faulted => ("Retry Channel"@, true),
        ChannelStatus::Reconnecting => ("Start Channel"@, false),
    }
}

/// The start button: its label, and whether it can be pressed.
pub fn start_button(status: ChannelStatus, config_changed: bool) -> (r: (&'static str, bool))
    ensures
        (r.0@, r.1) == start_button_spec(status, config_changed),
{
    match status {
        ChannelStatus::Stopped => ("Start Channel", true),
        ChannelStatus::Running => if config_changed {
            ("Apply & Restart", true)
        } else {
            ("Start Channel", false)
        },
        ChannelStatus::Faulted => ("Retry Channel", true),
        ChannelStatus::Reconnecting => ("Start Channel", false),
    }
}

/// Whether the stop button can be pressed: in every state but Stopped.
pub fn stop_enabled(status: ChannelStatus) -> (r: bool)
    ensures
        r == !(status is Stopped),
{
    match status {
        ChannelStatus::Stopped => false,
        _ => true,
    }
}

/// In every state something can be done: a channel can be started or it can be stopped.
pub proof fn law_some_action_is_possible(status: ChannelStatus, config_changed: bool)
    ensures
        start_button_spec(status, config_changed).1 || !(status is Stopped),
{
}

/// The recording indicator: its symbol, color and label.
pub open spec fn indicator_spec(recording: Option<RecordingState>) -> (Seq<char>, Accent, Seq<char>) {
    match recording {
        Some(RecordingState::Enabled) => ("\u{25CF}"@, Accent::Running, "recording"@),
        Some(RecordingState::Faulted) => ("\u{26A0}"@, Accent::Fault, "faulted"@),
        _ => ("\u{25A0}"@, Accent::Idle, "off"@),
    }
}

/// The recording indicator: its symbol, color and label.
pub fn recording_indicator(recording: Option<RecordingState>) -> (r: (
    &'static str,
    Accent,
    &'static str,
))
    ensures
        (r.0@, r.1, r.2@) == indicator_spec(recording),
{
    match recording {
        Some(RecordingState::Enabled) => ("\u{25CF}", Accent::Running, "recording"),
        Some(RecordingState::Faulted) => ("\u{26A0}", Accent::Fault, "faulted"),
        _ => ("\u{25A0}", Accent::Idle, "off"),
    }
}

/// A short word for a status.
pub open spec fn status_word(status: ChannelStatus) -> Seq<char> {
    match status {
        ChannelStatus::Stopped => "stopped"@,
        ChannelStatus::Running => "running"@,
        ChannelStatus::Faulted => "faulted"@,
        ChannelStatus::Reconnecting => "reconnecting"@,
    }
}

/// A short word for a status.
pub fn status_label(status: ChannelStatus) -> (r: &'static str)
    ensures
        r@ == status_word(status),
{
    match status {
        ChannelStatus::Stopped => "stopped",
        ChannelStatus::Running => "running",
        ChannelStatus::Faulted => "faulted",
        ChannelStatus::Reconnecting => "reconnecting",
    }
}

/// The symbol of a status. Each status has its own, so that it can be told without
/// color.
pub open spec fn status_symbol(status: ChannelStatus) -> Seq<char> {
    match status {
        ChannelStatus::Stopped => "\u{25A0}"@,
        ChannelStatus::Faulted => "\u{26A0}"@,
        ChannelStatus::Running => "\u{25CF}"@,
        ChannelStatus::Reconnecting => "\u{25D0}"@,
    }
}

/// The symbol of a status.
pub fn status_glyph(status: ChannelStatus) -> (r: &'static str)
    ensures
        r@ == status_symbol(status),
{
    match status {
        ChannelStatus::Stopped => "\u{25A0}",
        ChannelStatus::Faulted => "\u{26A0}",
        ChannelStatus::Running => "\u{25CF}",
        ChannelStatus::Reconnecting => "\u{25D0}",
    }
}

/// No two statuses share a symbol.
pub proof fn law_statuses_differ_without_color(a: ChannelStatus, b: ChannelStatus)
    requires
        a != b,
    ensures
        status_symbol(a) != status_symbol(b),
{
    reveal_strlit("\u{25A0}");
    reveal_strlit("\u{26A0}");
    reveal_strlit("\u{25CF}");
    reveal_strlit("\u{25D0}");
    assert("\u{25A0}"@[0] == '\u{25A0}');
    assert("\u{26A0}"@[0] == '\u{26A0}');
    assert("\u{25CF}"@[0] == '\u{25CF}');
    assert("\u{25D0}"@[0] == '\u{25D0}');
}

/// The color of a status.
pub fn status_color(status: ChannelStatus) -> (r: Accent)
    ensures
        r == match status {
            ChannelStatus::Running => Accent::Running,
            ChannelStatus::Stopped => Accent::Idle,
            ChannelStatus::Faulted => Accent::Fault,
            ChannelStatus::Reconnecting => Accent::Warning,
        },
{
    match status {
        ChannelStatus::Running => Accent::Running,
        ChannelStatus::Stopped => Accent::Idle,
        ChannelStatus::Faulted => Accent::Fault,
        ChannelStatus::Reconnecting => Accent::Warning,
    }
}

/// The symbol of a line's level: filled for high, hollow for low.
pub open spec fn line_symbol(high: bool) -> Seq<char> {
    if high {
        "\u{25CF}"@
    } else {
        "\u{25CB}"@
    }
}

/// The symbol of a line's level.
pub fn line_glyph(high: bool) -> (r: &'static str)
    ensures
        r@ == line_symbol(high),
{
    if high {
        "\u{25CF}"
    } else {
        "\u{25CB}"
    }
}

/// The two levels of a line can be told apart without color.
pub proof fn law_line_levels_differ()
    ensures
        line_symbol(true) != line_symbol(false),
{
    reveal_strlit("\u{25CF}");
    reveal_strlit("\u{25CB}");
    assert("\u{25CF}"@[0] == '\u{25CF}');
    assert("\u{25CB}"@[0] == '\u{25CB}');
}

/// A line's level and name.
pub fn line_label(name: &str, high: bool) -> (r: String)
    ensures
        r@ == line_symbol(high) + " "@ + name@,
{
    let mut out: String = line_glyph(high).to_owned();
    out.append(" ");
    out.append(name);
    out
}

/// What a click on an output line does.
pub fn line_toggle_hint(name: &str, high: bool) -> (r: String)
    ensures
        r@ == name@ + " output is "@ + (if high {
            "high"@
        } else {
            "low"@
        }) + " — click to set it "@ + (if high {
            "low"@
        } else {
            "high"@
        }),
{
    let mut out: String = name.to_owned();
    out.append(" output is ");
    if high {
        out.append("high");
    } else {
        out.append("low");
    }
    out.append(" — click to set it ");
    if high {
        out.append("low");
    } else {
        out.append("high");
    }
    out
}

/// Which interface a new channel uses.
#[derive(Clone, Copy, Debug, PartialEq, Eq, Hash, Structural)]
pub enum AddKind {
    Udp,
    Tcp,
    Serial,
}

impl AddKind {
    /// The kinds in the order of the menu.
    pub fn add_menu() -> (r: [AddKind; 3])
        ensures
            r@ == seq![AddKind::Udp, AddKind::Tcp, AddKind::Serial],
    {
        let r = [AddKind::Udp, AddKind::Tcp, AddKind::Serial];
        assert(r@ =~= seq![AddKind::Udp, AddKind::Tcp, AddKind::Serial]);
        r
    }

    pub open spec fn label_spec(self) -> Seq<char> {
        match self {
            AddKind::Udp => "UDP"@,
            AddKind::Tcp => "TCP"@,
            AddKind::Serial => "Serial"@,
        }
    }

    /// What the kind is called in the menu.
    pub fn label(self) -> (r: &'static str)
        ensures
            r@ == self.label_spec(),
    {
        match self {
            AddKind::Udp => "UDP",
            AddKind::Tcp => "TCP",
            AddKind::Serial => "Serial",
        }
    }
}

/// A new channel of a kind: its template, but a UDP channel listens to broadcasts.
pub open spec fn template_of(kind: AddKind) -> ChannelConfigModel {
    match kind {
        AddKind::Udp => ChannelConfigModel {
            interface: InterfaceConfigModel::Udp(
                UdpConfigModel {
                    mode: UdpMode::Broadcast,
                    ..crate::cli::udp_on(0).interface->Udp_0
                },
            ),
            ..crate::cli::udp_on(0)
        },
        AddKind::Tcp => crate::cli::tcp_on(0),
        AddKind::Serial => crate::cli::serial_on(Seq::empty(), 9600),
    }
}

/// A new channel of a kind.
pub fn template_for(kind: AddKind) -> (r: ChannelConfig)
    ensures
        r@ == template_of(kind),
{
    match kind {
        AddKind::Udp => {
            let mut config = udp_template();
            if let InterfaceConfig::Udp(udp) = &mut config.interface {
                udp.mode = UdpMode::Broadcast;
            }
            config
        },
        AddKind::Tcp => tcp_listener_template(),
        AddKind::Serial => serial_template(),
    }
}

/// A configuration that cannot start yet: without a port, or without a serial device.
pub open spec fn incomplete_config(config: ChannelConfigModel) -> bool {
    match config.interface {
        InterfaceConfigModel::Udp(u) => u.port == 0,
        InterfaceConfigModel::TcpListener(t) => t.port == 0,
        InterfaceConfigModel::Serial(s) => trimmed(s.port).len() == 0,
    }
}

/// Whether a configuration cannot start yet.
pub fn config_incomplete(config: &ChannelConfig) -> (r: bool)
    ensures
        r == incomplete_config(config@),
{
    match &config.interface {
        InterfaceConfig::Udp(u) => u.port == 0,
        InterfaceConfig::TcpListener(t) => t.port == 0,
        InterfaceConfig::Serial(s) => is_blank(s.port.as_str()),
    }
}

/// Whether two reconnect policies are equal.
fn same_reconnect(a: ReconnectPolicy, b: ReconnectPolicy) -> (r: bool)
    ensures
        r == equal_policies(a, b),
{
    a.enabled == b.enabled && a.initial_backoff_ms == b.initial_backoff_ms && a.max_backoff_ms
        == b.max_backoff_ms && doubles_equal(a.multiplier.bits, b.multiplier.bits)
        && crate::config::schema::same_count(a.max_attempts, b.max_attempts)
}

fn same_retention(a: RetentionConfig, b: RetentionConfig) -> (r: bool)
    ensures
        r == (a == b),
{
    crate::config::schema::same_size(a.byte_limit, b.byte_limit)
        && crate::config::schema::same_size(a.event_limit, b.event_limit)
        && crate::config::schema::same_size(a.warning_limit, b.warning_limit)
        && crate::config::schema::same_size(a.error_limit, b.error_limit)
}

/// A draft with what is applied live taken from the committed configuration: the name,
/// both recordings, the display and the retention.
pub open spec fn without_live_fields(draft: ChannelConfigModel, committed: ChannelConfigModel) -> ChannelConfigModel {
    ChannelConfigModel {
        name: committed.name,
        raw_recording: committed.raw_recording,
        display_recording: committed.display_recording,
        display: committed.display,
        retention: committed.retention,
        ..draft
    }
}

/// Whether an edited configuration differs from the committed one in a way that takes a
/// restart: in anything but what is applied live.
pub fn config_needs_restart(draft: &ChannelConfig, committed: &ChannelConfig) -> (r: bool)
    ensures
        r == !equal_configs(without_live_fields(draft@, committed@), committed@),
{
    let same: bool = committed.display.same(&committed.display) && same_config_id(draft.id, committed.id) && draft.kind == committed.kind
        && draft.interface.same(&committed.interface) && same_reconnect(
        draft.reconnect,
        committed.reconnect,
    ) && same_match_rules(&draft.match_rules, &committed.match_rules);
    !same
}

/// Whether two configurations differ in anything but the name.
pub fn config_differs_ignoring_name(draft: &ChannelConfig, committed: &ChannelConfig) -> (r: bool)
    ensures
        r == !equal_configs(
            (ChannelConfigModel { name: committed@.name, ..draft@ }),
            committed@,
        ),
{
    let same: bool = same_config_id(draft.id, committed.id) && draft.kind == committed.kind
        && draft.interface.same(&committed.interface) && draft.display.same(&committed.display)
        && draft.raw_recording.same(&committed.raw_recording) && draft.display_recording.same(
        &committed.display_recording,
    ) && same_retention(draft.retention, committed.retention) && same_reconnect(
        draft.reconnect,
        committed.reconnect,
    ) && same_match_rules(&draft.match_rules, &committed.match_rules);
    !same
}

/// Editing what is applied live never asks for a restart, where the committed
/// configuration holds no number that is none.
pub proof fn law_live_edits_need_no_restart(
    committed: ChannelConfigModel,
    name: Seq<char>,
    raw: crate::config::schema::RecordingConfigModel,
    shown: crate::config::schema::RecordingConfigModel,
    display: crate::config::schema::DisplayConfigModel,
    retention: RetentionConfig,
)
    requires
        equal_configs(committed, committed),
    ensures
        equal_configs(
            without_live_fields(
                ChannelConfigModel {
                    name,
                    raw_recording: raw,
                    display_recording: shown,
                    display,
                    retention,
                    ..committed
                },
                committed,
            ),
            committed,
        ),
{
}

/// One step of committing an edited configuration.
#[derive(Clone, Copy, Debug, PartialEq, Eq, Structural)]
pub enum CommitStep {
    Stop,
    Reconfigure,
    Start,
}

/// The steps that install an edited configuration and bring the channel up: whatever is
/// not stopped is stopped first. An incomplete configuration is refused.
pub open spec fn commit_plan(status: ChannelStatus, incomplete: bool) -> Option<Seq<CommitStep>> {
    if incomplete {
        None
    } else if status is Stopped {
        Some(seq![CommitStep::Reconfigure, CommitStep::Start])
    } else {
        Some(seq![CommitStep::Stop, CommitStep::Reconfigure, CommitStep::Start])
    }
}

/// The steps that install an edited configuration and bring the channel up.
pub fn plan_config_commit(status: ChannelStatus, config_incomplete: bool) -> (r: Option<
    Vec<CommitStep>,
>)
    ensures
        r is Some <==> commit_plan(status, config_incomplete) is Some,
        r matches Some(steps) ==> steps@ == commit_plan(status, config_incomplete)->0,
{
    if config_incomplete {
        return None;
    }
    let mut steps: Vec<CommitStep> = Vec::new();
    match status {
        ChannelStatus::Stopped => {},
        _ => {
            steps.push(CommitStep::Stop);
        },
    }
    steps.push(CommitStep::Reconfigure);
    steps.push(CommitStep::Start);
    assert(steps@ =~= commit_plan(status, config_incomplete)->0);
    Some(steps)
}

/// The diagnostic that heads a channel: its last error, or its last warning, or its last
/// event.
pub open spec fn headline(diag: DiagnosticsSnapshot) -> (Seq<char>, Accent) {
    if diag.errors@.len() > 0 {
        (diag.errors@.last().message@, Accent::Fault)
    } else if diag.warnings@.len() > 0 {
        (diag.warnings@.last().message@, Accent::Warning)
    } else if diag.events@.len() > 0 {
        (diag.events@.last().message@, Accent::Event)
    } else {
        ("no activity yet"@, Accent::Idle)
    }
}

/// The diagnostic that heads a channel.
pub fn latest_diagnostic(diag: &DiagnosticsSnapshot) -> (r: (String, Accent))
    ensures
        (r.0@, r.1) == headline(*diag),
{
    if diag.errors.len() > 0 {
        (diag.errors[diag.errors.len() - 1].message.clone(), Accent::Fault)
    } else if diag.warnings.len() > 0 {
        (diag.warnings[diag.warnings.len() - 1].message.clone(), Accent::Warning)
    } else if diag.events.len() > 0 {
        (diag.events[diag.events.len() - 1].message.clone(), Accent::Event)
    } else {
        ("no activity yet".to_owned(), Accent::Idle)
    }
}

/// A text of at most `max` characters: a longer one is cut, with an ellipsis as its last
/// character. Where `max` is 0, a text that is not empty gives the lone ellipsis.
pub open spec fn shortened(t: Seq<char>, max: usize) -> Seq<char> {
    if t.len() <= max {
        t
    } else if max == 0 {
        seq!['\u{2026}']
    } else {
        t.take(max - 1).push('\u{2026}')
    }
}

/// A text cut to `max` characters, the ellipsis among them. An ellipsis is shown even
/// where `max` is 0.
pub fn truncate(s: &str, max: usize) -> (r: String)
    ensures
        r@ == shortened(s@, max),
{
    let chars: Vec<char> = chars_of(s);
    if chars.len() <= max {
        return s.to_owned();
    }
    let keep: usize = max.saturating_sub(1);
    let mut out: String = string_of(&chars, 0, keep);
    out.push('\u{2026}');
    assert(out@ =~= shortened(s@, max));
    out
}

/// The first part of an identifier, enough to tell it at a glance.
pub fn short_id(id: &str) -> (r: String)
    ensures
        r@ == before(id@, '-'),
{
    text_before(id, '-')
}

/// A port as its field shows it: nothing while there is none.
pub fn port_text(port: u16) -> (r: String)
    ensures
        r@ == if port == 0 {
            Seq::empty()
        } else {
            decimal(port as nat)
        },
{
    if port == 0 {
        String::new()
    } else {
        decimal_text(port as u64)
    }
}

/// The port that a text in the field sets: itself, where it is one; otherwise the port
/// stays.
pub fn port_from_text(text: &str, port: u16) -> (r: u16)
    ensures
        r == match unsigned_of(trimmed(text@), 65_535) {
            Some(n) => n as u16,
            None => port,
        },
{
    let t: String = trim(text);
    match parse_unsigned(t.as_str(), 65_535) {
        Some(n) => n as u16,
        None => port,
    }
}

/// One port down or up, within the range of ports.
pub fn step_port(port: u16, up: bool) -> (r: u16)
    ensures
        up ==> r == if port == u16::MAX {
            port as int
        } else {
            port + 1
        },
        !up ==> r == if port == 0 {
            0
        } else {
            port - 1
        },
{
    if up {
        port.saturating_add(1)
    } else {
        port.saturating_sub(1)
    }
}

/// The baud rate that a text in the custom field sets: itself, where it is a positive
/// number; otherwise the rate stays.
pub fn baud_from_text(text: &str, baud: u32) -> (r: u32)
    ensures
        r == match unsigned_of(trimmed(text@), 4_294_967_295) {
            Some(n) => if n > 0 {
                n as u32
            } else {
                baud
            },
            None => baud,
        },
{
    let t: String = trim(text);
    match parse_unsigned(t.as_str(), 4_294_967_295) {
        Some(n) => if n > 0 {
            n as u32
        } else {
            baud
        },
        None => baud,
    }
}

/// A field that may be left empty: its text without white space around it, if any is
/// left.
pub fn optional_field(text: &str) -> (r: Option<String>)
    ensures
        r is Some <==> trimmed(text@).len() > 0,
        r matches Some(t) ==> t@ == trimmed(text@),
{
    let t: String = trim(text);
    if t.as_str().is_empty() {
        None
    } else {
        Some(t)
    }
}

/// Whether the row for the multicast group is shown.
pub fn shows_group(mode: UdpMode) -> (r: bool)
    ensures
        r == (mode is Multicast),
{
    mode == UdpMode::Multicast
}

/// What the serial port picker shows.
pub fn serial_port_label(port: &str) -> (r: String)
    ensures
        r@ == if port@.len() == 0 {
            "select port\u{2026}"@
        } else {
            port@
        },
{
    if port.is_empty() {
        "select port\u{2026}".to_owned()
    } else {
        port.to_owned()
    }
}

/// What a bind address means in each mode.
pub open spec fn bind_hint_spec(mode: UdpMode) -> Seq<char> {
    match mode {
        UdpMode::Broadcast =>
            "The local network interface(s) to receive on. 0.0.0.0 means \"any network interface\" — the usual choice for broadcast, since the sender targets the subnet, not a specific host."@,
        UdpMode::Unicast =>
            "The local network interface(s) to receive on. 0.0.0.0 means \"any network interface\" (accept on all NICs); use a specific local IP to receive only on that NIC."@,
        UdpMode::Multicast =>
            "The local network interface to join the group on. 0.0.0.0 means \"any network interface\" — fine for most setups; use a specific local IP to join on just that NIC."@,
    }
}

/// What a bind address means in each mode.
pub fn bind_hint(mode: UdpMode) -> (r: &'static str)
    ensures
        r@ == bind_hint_spec(mode),
{
    match mode {
        UdpMode::Broadcast =>
            "The local network interface(s) to receive on. 0.0.0.0 means \"any network interface\" — the usual choice for broadcast, since the sender targets the subnet, not a specific host.",
        UdpMode::Unicast =>
            "The local network interface(s) to receive on. 0.0.0.0 means \"any network interface\" (accept on all NICs); use a specific local IP to receive only on that NIC.",
        UdpMode::Multicast =>
            "The local network interface to join the group on. 0.0.0.0 means \"any network interface\" — fine for most setups; use a specific local IP to join on just that NIC.",
    }
}

/// What the options of a serial line are called.
pub fn data_bits_label(v: DataBits) -> (r: &'static str)
    ensures
        r@ == match v {
            DataBits::Five => "5"@,
            DataBits::Six => "6"@,
            DataBits::Seven => "7"@,
            DataBits::Eight => "8"@,
        },
{
    match v {
        DataBits::Five => "5",
        DataBits::Six => "6",
        DataBits::Seven => "7",
        DataBits::Eight => "8",
    }
}

pub fn parity_label(v: Parity) -> (r: &'static str)
    ensures
        r@ == match v {
            Parity::NoParity => "None"@,
            Parity::Even => "Even"@,
            Parity::Odd => "Odd"@,
            Parity::Mark => "Mark"@,
            Parity::Space => "Space"@,
        },
{
    match v {
        Parity::NoParity => "None",
        Parity::Even => "Even",
        Parity::Odd => "Odd",
        Parity::Mark => "Mark",
        Parity::Space => "Space",
    }
}

pub fn stop_bits_label(v: StopBits) -> (r: &'static str)
    ensures
        r@ == match v {
            StopBits::One => "1"@,
            StopBits::OnePointFive => "1.5"@,
            StopBits::Two => "2"@,
        },
{
    match v {
        StopBits::One => "1",
        StopBits::OnePointFive => "1.5",
        StopBits::Two => "2",
    }
}

pub fn flow_control_label(v: FlowControl) -> (r: &'static str)
    ensures
        r@ == match v {
            FlowControl::NoControl => "None"@,
            FlowControl::XonXoff => "Xon/Xoff"@,
            FlowControl::RtsCts => "RTS/CTS"@,
        },
{
    match v {
        FlowControl::NoControl => "None",
        FlowControl::XonXoff => "Xon/Xoff",
        FlowControl::RtsCts => "RTS/CTS",
    }
}

/// The baud rates that are offered.
pub fn baud_rates() -> (r: [u32; 7])
    ensures
        r@ == seq![4800u32, 9600, 19200, 38400, 57600, 115200, 230400],
{
    let r = [4800u32, 9600, 19200, 38400, 57600, 115200, 230400];
    assert(r@ =~= seq![4800u32, 9600, 19200, 38400, 57600, 115200, 230400]);
    r
}

/// The grays of a scrollbar's track and handle: both stand out against the background,
/// the handle more than the track.
pub fn scrollbar_colors(bg: Rgb) -> (r: (u8, u8))
    ensures
        r == if (bg.r + bg.g + bg.b) / 3 > 128 {
            (225u8, 150u8)
        } else {
            (95u8, 200u8)
        },
{
    let sum: u32 = bg.r as u32 + bg.g as u32 + bg.b as u32;
    if sum / 3 > 128 {
        (225, 150)
    } else {
        (95, 200)
    }
}

} // verus!
