//! The profile schema: configuration only, no behavior and no runtime state.

use vstd::prelude::*;

use crate::diagnostics::DiagnosticSeverity;
use crate::display::{CharacterRendering, DisplayEncoding, DisplayMode, WrappingMode};
use crate::model::float::{doubles_equal, same_double, same_single, singles_equal};
use crate::model::ids::{ChannelName, StableConfigId};
use crate::model::metadata::optional_text;
use crate::model::state::ChannelKind;
use crate::model::timing::TimestampConfig;

verus! {

/// Number of data bits of a serial character.
#[derive(Clone, Copy, Debug, PartialEq, Eq, Structural)]
pub enum DataBits {
    Five,
    Six,
    Seven,
    Eight,
}

impl Default for DataBits {
    fn default() -> (r: DataBits)
        ensures
            r == DataBits::Eight,
    {
        DataBits::Eight
    }
}

/// Parity of a serial character.
#[derive(Clone, Copy, Debug, PartialEq, Eq, Structural)]
pub enum Parity {
    NoParity,
    Even,
    Odd,
    Mark,
    Space,
}

impl Default for Parity {
    fn default() -> (r: Parity)
        ensures
            r == Parity::NoParity,
    {
        Parity::NoParity
    }
}

/// Number of stop bits of a serial character.
#[derive(Clone, Copy, Debug, PartialEq, Eq, Structural)]
pub enum StopBits {
    One,
    OnePointFive,
    Two,
}

impl Default for StopBits {
    fn default() -> (r: StopBits)
        ensures
            r == StopBits::One,
    {
        StopBits::One
    }
}

/// Flow control of a serial line.
#[derive(Clone, Copy, Debug, PartialEq, Eq, Structural)]
pub enum FlowControl {
    NoControl,
    /// Software flow control (XON/XOFF).
    XonXoff,
    /// Hardware flow control (RTS/CTS).
    RtsCts,
}

impl Default for FlowControl {
    fn default() -> (r: FlowControl)
        ensures
            r == FlowControl::NoControl,
    {
        FlowControl::NoControl
    }
}

/// How a UDP socket receives datagrams.
#[derive(Clone, Copy, Debug, PartialEq, Eq, Structural)]
pub enum UdpMode {
    Unicast,
    Broadcast,
    Multicast,
}

/// What to do when the destination of a recording already exists.
#[derive(Clone, Copy, Debug, PartialEq, Eq, Structural)]
pub enum OverwritePolicy {
    Refuse,
    Overwrite,
    AppendIfExists,
}

impl Default for OverwritePolicy {
    fn default() -> (r: OverwritePolicy)
        ensures
            r == OverwritePolicy::Refuse,
    {
        OverwritePolicy::Refuse
    }
}

/// Whether a recording starts a fresh file each time period.
#[derive(Clone, Copy, Debug, PartialEq, Eq, Structural)]
pub enum FileRotationPolicy {
    /// One file that grows for the whole session.
    NoRotation,
    Hourly,
    Daily,
}

impl Default for FileRotationPolicy {
    fn default() -> (r: FileRotationPolicy)
        ensures
            r == FileRotationPolicy::NoRotation,
    {
        FileRotationPolicy::NoRotation
    }
}

/// What to do when free disk space is low.
#[derive(Clone, Copy, Debug, PartialEq, Eq, Structural)]
pub enum LowDiskAction {
    /// Warn only; recording continues.
    Warn,
    /// Finalize and stop the recording; reception continues.
    StopRecording,
}

impl Default for LowDiskAction {
    fn default() -> (r: LowDiskAction)
        ensures
            r == LowDiskAction::Warn,
    {
        LowDiskAction::Warn
    }
}

/// Which recordings a `Record` action controls.
#[derive(Clone, Copy, Debug, PartialEq, Eq, Structural)]
pub enum RecordTarget {
    Raw,
    Display,
    Both,
}

/// Whether a `Record` action begins or stops recording.
#[derive(Clone, Copy, Debug, PartialEq, Eq, Structural)]
pub enum RecordControl {
    Begin,
    Stop,
}

/// Where a mark's timestamp stands relative to the match.
#[derive(Clone, Copy, Debug, PartialEq, Eq, Structural)]
pub enum MarkPosition {
    Before,
    After,
}

impl Default for MarkPosition {
    fn default() -> (r: MarkPosition)
        ensures
            r == MarkPosition::Before,
    {
        MarkPosition::Before
    }
}

/// A factor, as the bits of its IEEE 754 double. It is compared as the number.
#[derive(Clone, Copy, Debug)]
pub struct Factor {
    pub bits: u64,
}

impl PartialEq for Factor {
    fn eq(&self, other: &Factor) -> (r: bool) {
        doubles_equal(self.bits, other.bits)
    }
}

impl vstd::std_specs::cmp::PartialEqSpecImpl for Factor {
    open spec fn obeys_eq_spec() -> bool {
        true
    }

    open spec fn eq_spec(&self, other: &Factor) -> bool {
        same_double(self.bits, other.bits)
    }
}

/// A font size in points, as the bits of its IEEE 754 single. It is compared as the
/// number.
#[derive(Clone, Copy, Debug)]
pub struct FontSize {
    pub bits: u32,
}

impl PartialEq for FontSize {
    fn eq(&self, other: &FontSize) -> (r: bool) {
        singles_equal(self.bits, other.bits)
    }
}

impl vstd::std_specs::cmp::PartialEqSpecImpl for FontSize {
    open spec fn obeys_eq_spec() -> bool {
        true
    }

    open spec fn eq_spec(&self, other: &FontSize) -> bool {
        same_single(self.bits, other.bits)
    }
}

/// Opt-in auto-reconnect. When `enabled`, a Channel that faults while it was meant to be
/// running is started again with exponential backoff.
#[derive(Clone, Copy, Debug, PartialEq)]
pub struct ReconnectPolicy {
    pub enabled: bool,
    pub initial_backoff_ms: u64,
    pub max_backoff_ms: u64,
    pub multiplier: Factor,
    /// `None` retries indefinitely.
    pub max_attempts: Option<u32>,
}

/// Two policies are equal: their factors as numbers, and all else.
pub open spec fn equal_policies(a: ReconnectPolicy, b: ReconnectPolicy) -> bool {
    same_double(a.multiplier.bits, b.multiplier.bits) && (ReconnectPolicy {
        multiplier: b.multiplier,
        ..a
    }) == b
}

/// The default policy: off; if switched on, from one second doubling to thirty.
pub open spec fn default_reconnect() -> ReconnectPolicy {
    ReconnectPolicy {
        enabled: false,
        initial_backoff_ms: 1_000,
        max_backoff_ms: 30_000,
        multiplier: Factor { bits: 0x4000_0000_0000_0000 },
        max_attempts: None,
    }
}

impl Default for ReconnectPolicy {
    fn default() -> (r: ReconnectPolicy)
        ensures
            r == default_reconnect(),
    {
        ReconnectPolicy {
            enabled: false,
            initial_backoff_ms: 1_000,
            max_backoff_ms: 30_000,
            multiplier: Factor { bits: 0x4000_0000_0000_0000 },
            max_attempts: None,
        }
    }
}

/// A low-disk threshold: absolute bytes or a percentage of the filesystem.
#[derive(Clone, Copy, Debug, PartialEq, Eq, Structural)]
pub enum DiskThreshold {
    Bytes { bytes: u64 },
    Percent { percent: u8 },
}

/// Disk-space guard for a recording: what to do once free space falls below a threshold.
#[derive(Clone, Copy, Debug, PartialEq, Eq, Structural)]
pub struct DiskGuard {
    pub min_free: DiskThreshold,
    pub on_low: LowDiskAction,
}

/// Retention limits. At least one must be set, on the channel or in the defaults.
#[derive(Clone, Copy, Debug, PartialEq, Eq, Structural)]
pub struct RetentionConfig {
    /// Limit of the stream scrollback in bytes.
    pub byte_limit: Option<usize>,
    pub event_limit: Option<usize>,
    pub warning_limit: Option<usize>,
    pub error_limit: Option<usize>,
}

impl Default for RetentionConfig {
    fn default() -> (r: RetentionConfig)
        ensures
            r == no_retention(),
    {
        RetentionConfig {
            byte_limit: None,
            event_limit: None,
            warning_limit: None,
            error_limit: None,
        }
    }
}

/// No limit at all.
pub open spec fn no_retention() -> RetentionConfig {
    RetentionConfig { byte_limit: None, event_limit: None, warning_limit: None, error_limit: None }
}

impl RetentionConfig {
    /// Whether no limit is set.
    pub fn is_unbounded(&self) -> (r: bool)
        ensures
            r == (*self == no_retention()),
    {
        self.byte_limit.is_none() && self.event_limit.is_none() && self.warning_limit.is_none()
            && self.error_limit.is_none()
    }

    /// A retention bounded by a byte count.
    pub fn with_byte_limit(limit: usize) -> (r: RetentionConfig)
        ensures
            r == (RetentionConfig { byte_limit: Some(limit), ..no_retention() }),
    {
        RetentionConfig {
            byte_limit: Some(limit),
            event_limit: None,
            warning_limit: None,
            error_limit: None,
        }
    }
}

/// A copy of an optional text.
pub fn copy_text(t: &Option<String>) -> (r: Option<String>)
    ensures
        r == *t,
{
    match t {
        Some(s) => Some(s.clone()),
        None => None,
    }
}

/// Whether two optional texts are equal.
pub fn same_optional_text(a: &Option<String>, b: &Option<String>) -> (r: bool)
    ensures
        r == (optional_text(*a) == optional_text(*b)),
{
    match (a, b) {
        (Some(x), Some(y)) => *x == *y,
        (None, None) => true,
        _ => false,
    }
}

/// A copy of bytes.
pub fn copy_bytes(v: &Vec<u8>) -> (r: Vec<u8>)
    ensures
        r@ == v@,
{
    let mut out: Vec<u8> = Vec::new();
    let mut i: usize = 0;
    while i < v.len()
        invariant
            i <= v.len(),
            out@ == v@.take(i as int),
        decreases v.len() - i,
    {
        out.push(v[i]);
        i = i + 1;
        assert(out@ =~= v@.take(i as int));
    }
    assert(v@.take(i as int) =~= v@);
    out
}

/// Whether two byte sequences are equal.
pub fn same_bytes(a: &Vec<u8>, b: &Vec<u8>) -> (r: bool)
    ensures
        r == (a@ == b@),
{
    if a.len() != b.len() {
        return false;
    }
    let mut i: usize = 0;
    while i < a.len()
        invariant
            i <= a.len(),
            a.len() == b.len(),
            forall|j: int| 0 <= j < i ==> #[trigger] a@[j] == b@[j],
        decreases a.len() - i,
    {
        if a[i] != b[i] {
            return false;
        }
        i = i + 1;
    }
    assert(a@ =~= b@);
    true
}

/// Whether two optional values are equal.
pub fn same_flag(a: Option<bool>, b: Option<bool>) -> (r: bool)
    ensures
        r == (a == b),
{
    match (a, b) {
        (Some(x), Some(y)) => x == y,
        (None, None) => true,
        _ => false,
    }
}

/// Whether two optional values are equal.
pub fn same_size(a: Option<usize>, b: Option<usize>) -> (r: bool)
    ensures
        r == (a == b),
{
    match (a, b) {
        (Some(x), Some(y)) => x == y,
        (None, None) => true,
        _ => false,
    }
}

/// Whether two optional values are equal.
pub fn same_count(a: Option<u32>, b: Option<u32>) -> (r: bool)
    ensures
        r == (a == b),
{
    match (a, b) {
        (Some(x), Some(y)) => x == y,
        (None, None) => true,
        _ => false,
    }
}

/// Two optional font sizes are equal.
pub open spec fn equal_sizes(a: Option<FontSize>, b: Option<FontSize>) -> bool {
    match (a, b) {
        (Some(x), Some(y)) => same_single(x.bits, y.bits),
        (None, None) => true,
        _ => false,
    }
}

/// Whether two optional font sizes are equal.
pub fn same_font_size(a: Option<FontSize>, b: Option<FontSize>) -> (r: bool)
    ensures
        r == equal_sizes(a, b),
{
    match (a, b) {
        (Some(x), Some(y)) => singles_equal(x.bits, y.bits),
        (None, None) => true,
        _ => false,
    }
}

/// Whether two optional identities are equal.
pub fn same_config_id(a: Option<StableConfigId>, b: Option<StableConfigId>) -> (r: bool)
    ensures
        r == (a == b),
{
    match (a, b) {
        (Some(x), Some(y)) => x == y,
        (None, None) => true,
        _ => false,
    }
}

/// Serial interface configuration.
#[derive(Debug, PartialEq, Eq)]
pub struct SerialConfig {
    pub port: String,
    pub baud_rate: u32,
    pub data_bits: DataBits,
    pub parity: Parity,
    pub stop_bits: StopBits,
    pub flow_control: FlowControl,
    pub rts: Option<bool>,
    pub dtr: Option<bool>,
}

/// What a `SerialConfig` says.
pub ghost struct SerialConfigModel {
    pub port: Seq<char>,
    pub baud_rate: u32,
    pub data_bits: DataBits,
    pub parity: Parity,
    pub stop_bits: StopBits,
    pub flow_control: FlowControl,
    pub rts: Option<bool>,
    pub dtr: Option<bool>,
}

impl View for SerialConfig {
    type V = SerialConfigModel;

    open spec fn view(&self) -> SerialConfigModel {
        SerialConfigModel {
            port: self.port@,
            baud_rate: self.baud_rate,
            data_bits: self.data_bits,
            parity: self.parity,
            stop_bits: self.stop_bits,
            flow_control: self.flow_control,
            rts: self.rts,
            dtr: self.dtr,
        }
    }
}

impl Clone for SerialConfig {
    fn clone(&self) -> (r: SerialConfig)
        ensures
            r@ == self@,
    {
        SerialConfig {
            port: self.port.clone(),
            baud_rate: self.baud_rate,
            data_bits: self.data_bits,
            parity: self.parity,
            stop_bits: self.stop_bits,
            flow_control: self.flow_control,
            rts: self.rts,
            dtr: self.dtr,
        }
    }
}

impl SerialConfig {
    /// Whether both say the same.
    pub fn same(&self, other: &SerialConfig) -> (r: bool)
        ensures
            r == (self@ == other@),
    {
        self.port == other.port && self.baud_rate == other.baud_rate && self.data_bits == other.data_bits && self.parity == other.parity && self.stop_bits == other.stop_bits && self.flow_control == other.flow_control && same_flag(self.rts, other.rts) && same_flag(self.dtr, other.dtr)
    }
}

/// UDP interface configuration.
#[derive(Debug, PartialEq, Eq)]
pub struct UdpConfig {
    pub bind_address: String,
    pub port: u16,
    pub mode: UdpMode,
    pub multicast_group: Option<String>,
    /// A local IPv4 address that selects the interface to join on.
    pub multicast_interface: Option<String>,
    /// Size of the socket's receive buffer; `None` leaves it to the system.
    pub recv_buffer_bytes: Option<usize>,
    /// Whether arrival times are requested from the kernel.
    pub kernel_timestamps: bool,
}

/// What a `UdpConfig` says.
pub ghost struct UdpConfigModel {
    pub bind_address: Seq<char>,
    pub port: u16,
    pub mode: UdpMode,
    pub multicast_group: Option<Seq<char>>,
    pub multicast_interface: Option<Seq<char>>,
    pub recv_buffer_bytes: Option<usize>,
    pub kernel_timestamps: bool,
}

impl View for UdpConfig {
    type V = UdpConfigModel;

    open spec fn view(&self) -> UdpConfigModel {
        UdpConfigModel {
            bind_address: self.bind_address@,
            port: self.port,
            mode: self.mode,
            multicast_group: optional_text(self.multicast_group),
            multicast_interface: optional_text(self.multicast_interface),
            recv_buffer_bytes: self.recv_buffer_bytes,
            kernel_timestamps: self.kernel_timestamps,
        }
    }
}

impl Clone for UdpConfig {
    fn clone(&self) -> (r: UdpConfig)
        ensures
            r@ == self@,
    {
        UdpConfig {
            bind_address: self.bind_address.clone(),
            port: self.port,
            mode: self.mode,
            multicast_group: copy_text(&self.multicast_group),
            multicast_interface: copy_text(&self.multicast_interface),
            recv_buffer_bytes: self.recv_buffer_bytes,
            kernel_timestamps: self.kernel_timestamps,
        }
    }
}

impl UdpConfig {
    /// Whether both say the same.
    pub fn same(&self, other: &UdpConfig) -> (r: bool)
        ensures
            r == (self@ == other@),
    {
        self.bind_address == other.bind_address && self.port == other.port && self.mode == other.mode && same_optional_text(&self.multicast_group, &other.multicast_group) && same_optional_text(&self.multicast_interface, &other.multicast_interface) && same_size(self.recv_buffer_bytes, other.recv_buffer_bytes) && self.kernel_timestamps == other.kernel_timestamps
    }
}

/// TCP listener interface configuration.
#[derive(Debug, PartialEq, Eq)]
pub struct TcpListenerConfig {
    pub bind_address: String,
    pub port: u16,
    pub max_connections: Option<u32>,
    pub recv_buffer_bytes: Option<usize>,
}

/// What a `TcpListenerConfig` says.
pub ghost struct TcpListenerConfigModel {
    pub bind_address: Seq<char>,
    pub port: u16,
    pub max_connections: Option<u32>,
    pub recv_buffer_bytes: Option<usize>,
}

impl View for TcpListenerConfig {
    type V = TcpListenerConfigModel;

    open spec fn view(&self) -> TcpListenerConfigModel {
        TcpListenerConfigModel {
            bind_address: self.bind_address@,
            port: self.port,
            max_connections: self.max_connections,
            recv_buffer_bytes: self.recv_buffer_bytes,
        }
    }
}

impl Clone for TcpListenerConfig {
    fn clone(&self) -> (r: TcpListenerConfig)
        ensures
            r@ == self@,
    {
        TcpListenerConfig {
            bind_address: self.bind_address.clone(),
            port: self.port,
            max_connections: self.max_connections,
            recv_buffer_bytes: self.recv_buffer_bytes,
        }
    }
}

impl TcpListenerConfig {
    /// Whether both say the same.
    pub fn same(&self, other: &TcpListenerConfig) -> (r: bool)
        ensures
            r == (self@ == other@),
    {
        self.bind_address == other.bind_address && self.port == other.port && same_count(self.max_connections, other.max_connections) && same_size(self.recv_buffer_bytes, other.recv_buffer_bytes)
    }
}

/// Interface configuration. Connection channels are runtime-only and have none.
#[derive(Debug, PartialEq, Eq)]
pub enum InterfaceConfig {
    Serial(SerialConfig),
    Udp(UdpConfig),
    TcpListener(TcpListenerConfig),
}

/// What a `InterfaceConfig` says.
pub ghost enum InterfaceConfigModel {
    Serial(SerialConfigModel),
    Udp(UdpConfigModel),
    TcpListener(TcpListenerConfigModel),
}

impl View for InterfaceConfig {
    type V = InterfaceConfigModel;

    open spec fn view(&self) -> InterfaceConfigModel {
        match *self {
            InterfaceConfig::Serial(x) => InterfaceConfigModel::Serial(x@),
            InterfaceConfig::Udp(x) => InterfaceConfigModel::Udp(x@),
            InterfaceConfig::TcpListener(x) => InterfaceConfigModel::TcpListener(x@),
        }
    }
}

impl Clone for InterfaceConfig {
    fn clone(&self) -> (r: InterfaceConfig)
        ensures
            r@ == self@,
    {
        match self {
            InterfaceConfig::Serial(x) => InterfaceConfig::Serial(x.clone()),
            InterfaceConfig::Udp(x) => InterfaceConfig::Udp(x.clone()),
            InterfaceConfig::TcpListener(x) => InterfaceConfig::TcpListener(x.clone()),
        }
    }
}

impl InterfaceConfig {
    /// Whether both say the same.
    pub fn same(&self, other: &InterfaceConfig) -> (r: bool)
        ensures
            r == (self@ == other@),
    {
        match (self, other) {
            (InterfaceConfig::Serial(x), InterfaceConfig::Serial(y)) => x.same(y),
            (InterfaceConfig::Udp(x), InterfaceConfig::Udp(y)) => x.same(y),
            (InterfaceConfig::TcpListener(x), InterfaceConfig::TcpListener(y)) => x.same(y),
            _ => false,
        }
    }
}

/// One display view's configuration. Font and colors do not affect the produced text.
#[derive(Debug, PartialEq)]
pub struct DisplayViewConfig {
    pub mode: DisplayMode,
    pub encoding: DisplayEncoding,
    pub character_rendering: CharacterRendering,
    pub font: Option<String>,
    pub font_size: Option<FontSize>,
    pub foreground_color: Option<String>,
    pub background_color: Option<String>,
    pub wrapping: WrappingMode,
}

/// What a `DisplayViewConfig` says.
pub ghost struct DisplayViewConfigModel {
    pub mode: DisplayMode,
    pub encoding: DisplayEncoding,
    pub character_rendering: CharacterRendering,
    pub font: Option<Seq<char>>,
    pub font_size: Option<FontSize>,
    pub foreground_color: Option<Seq<char>>,
    pub background_color: Option<Seq<char>>,
    pub wrapping: WrappingMode,
}

impl View for DisplayViewConfig {
    type V = DisplayViewConfigModel;

    open spec fn view(&self) -> DisplayViewConfigModel {
        DisplayViewConfigModel {
            mode: self.mode,
            encoding: self.encoding,
            character_rendering: self.character_rendering,
            font: optional_text(self.font),
            font_size: self.font_size,
            foreground_color: optional_text(self.foreground_color),
            background_color: optional_text(self.background_color),
            wrapping: self.wrapping,
        }
    }
}

impl Clone for DisplayViewConfig {
    fn clone(&self) -> (r: DisplayViewConfig)
        ensures
            r@ == self@,
    {
        DisplayViewConfig {
            mode: self.mode,
            encoding: self.encoding,
            character_rendering: self.character_rendering,
            font: copy_text(&self.font),
            font_size: self.font_size,
            foreground_color: copy_text(&self.foreground_color),
            background_color: copy_text(&self.background_color),
            wrapping: self.wrapping,
        }
    }
}

/// Two view configurations are equal: their font sizes as numbers, and all else.
pub open spec fn equal_views(a: DisplayViewConfigModel, b: DisplayViewConfigModel) -> bool {
    equal_sizes(a.font_size, b.font_size) && (DisplayViewConfigModel {
        font_size: b.font_size,
        ..a
    }) == b
}

/// Two display configurations are equal, view by view.
pub open spec fn equal_displays(a: DisplayConfigModel, b: DisplayConfigModel) -> bool {
    &&& a.views.len() == b.views.len()
    &&& forall|i: int| 0 <= i < a.views.len() ==> equal_views(#[trigger] a.views[i], b.views[i])
}

impl DisplayViewConfig {
    /// Whether both are equal.
    pub fn same(&self, other: &DisplayViewConfig) -> (r: bool)
        ensures
            r == equal_views(self@, other@),
    {
        self.mode == other.mode && self.encoding == other.encoding && self.character_rendering == other.character_rendering && same_optional_text(&self.font, &other.font) && same_font_size(self.font_size, other.font_size) && same_optional_text(&self.foreground_color, &other.foreground_color) && same_optional_text(&self.background_color, &other.background_color) && self.wrapping == other.wrapping
    }
}

/// What a list of `DisplayViewConfig` says.
pub open spec fn display_view_configs_view(v: Seq<DisplayViewConfig>) -> Seq<DisplayViewConfigModel> {
    v.map_values(|x: DisplayViewConfig| x@)
}

/// A copy of a list.
pub fn copy_display_view_configs(v: &Vec<DisplayViewConfig>) -> (r: Vec<DisplayViewConfig>)
    ensures
        display_view_configs_view(r@) == display_view_configs_view(v@),
{
    let mut out: Vec<DisplayViewConfig> = Vec::new();
    let mut i: usize = 0;
    assert(display_view_configs_view(out@) =~= display_view_configs_view(v@.take(0)));
    while i < v.len()
        invariant
            i <= v.len(),
            display_view_configs_view(out@) == display_view_configs_view(v@.take(i as int)),
        decreases v.len() - i,
    {
        let ghost before = out@;
        out.push(v[i].clone());
        i = i + 1;
        assert(display_view_configs_view(out@) =~= display_view_configs_view(before).push(v@[i - 1]@));
        assert(display_view_configs_view(v@.take(i as int)) =~= display_view_configs_view(v@.take(i - 1)).push(v@[i - 1]@));
    }
    assert(v@.take(i as int) =~= v@);
    out
}

/// Display configuration: a set of views.
#[derive(Debug, PartialEq)]
pub struct DisplayConfig {
    pub views: Vec<DisplayViewConfig>,
}

/// What a `DisplayConfig` says.
pub ghost struct DisplayConfigModel {
    pub views: Seq<DisplayViewConfigModel>,
}

impl View for DisplayConfig {
    type V = DisplayConfigModel;

    open spec fn view(&self) -> DisplayConfigModel {
        DisplayConfigModel {
            views: display_view_configs_view(self.views@),
        }
    }
}

impl Clone for DisplayConfig {
    fn clone(&self) -> (r: DisplayConfig)
        ensures
            r@ == self@,
    {
        DisplayConfig {
            views: copy_display_view_configs(&self.views),
        }
    }
}

impl DisplayConfig {
    /// Whether both are equal.
    pub fn same(&self, other: &DisplayConfig) -> (r: bool)
        ensures
            r == equal_displays(self@, other@),
    {
        if self.views.len() != other.views.len() {
            return false;
        }
        let mut i: usize = 0;
        while i < self.views.len()
            invariant
                i <= self.views.len(),
                self.views.len() == other.views.len(),
                forall|j: int|
                    0 <= j < i ==> equal_views(#[trigger] self@.views[j], other@.views[j]),
            decreases self.views.len() - i,
        {
            assert(self@.views[i as int] == self.views@[i as int]@);
            assert(other@.views[i as int] == other.views@[i as int]@);
            if !self.views[i].same(&other.views[i]) {
                return false;
            }
            i = i + 1;
        }
        true
    }
}

impl Default for DisplayConfig {
    fn default() -> (r: DisplayConfig)
        ensures
            r.views@.len() == 0,
    {
        DisplayConfig { views: Vec::new() }
    }
}

/// Whether two optional guards are equal.
pub fn same_guard(a: Option<DiskGuard>, b: Option<DiskGuard>) -> (r: bool)
    ensures
        r == (a == b),
{
    match (a, b) {
        (Some(x), Some(y)) => x == y,
        (None, None) => true,
        _ => false,
    }
}

/// The configuration of one recording, Raw or Display.
#[derive(Debug, PartialEq, Eq)]
pub struct RecordingConfig {
    /// Whether recording begins when the channel starts.
    pub enabled: bool,
    /// A file when the recording does not rotate, a directory otherwise.
    pub destination: Option<String>,
    pub timestamp_enabled: bool,
    pub overwrite_policy: OverwritePolicy,
    pub file_rotation: FileRotationPolicy,
    /// `None` is no guard.
    pub disk_guard: Option<DiskGuard>,
}

/// What a `RecordingConfig` says.
pub ghost struct RecordingConfigModel {
    pub enabled: bool,
    pub destination: Option<Seq<char>>,
    pub timestamp_enabled: bool,
    pub overwrite_policy: OverwritePolicy,
    pub file_rotation: FileRotationPolicy,
    pub disk_guard: Option<DiskGuard>,
}

impl View for RecordingConfig {
    type V = RecordingConfigModel;

    open spec fn view(&self) -> RecordingConfigModel {
        RecordingConfigModel {
            enabled: self.enabled,
            destination: optional_text(self.destination),
            timestamp_enabled: self.timestamp_enabled,
            overwrite_policy: self.overwrite_policy,
            file_rotation: self.file_rotation,
            disk_guard: self.disk_guard,
        }
    }
}

impl Clone for RecordingConfig {
    fn clone(&self) -> (r: RecordingConfig)
        ensures
            r@ == self@,
    {
        RecordingConfig {
            enabled: self.enabled,
            destination: copy_text(&self.destination),
            timestamp_enabled: self.timestamp_enabled,
            overwrite_policy: self.overwrite_policy,
            file_rotation: self.file_rotation,
            disk_guard: self.disk_guard,
        }
    }
}

impl RecordingConfig {
    /// Whether both say the same.
    pub fn same(&self, other: &RecordingConfig) -> (r: bool)
        ensures
            r == (self@ == other@),
    {
        self.enabled == other.enabled && same_optional_text(&self.destination, &other.destination)
            && self.timestamp_enabled == other.timestamp_enabled && self.overwrite_policy
            == other.overwrite_policy && self.file_rotation == other.file_rotation
            && same_guard(self.disk_guard, other.disk_guard)
    }
}

impl Default for RecordingConfig {
    fn default() -> (r: RecordingConfig)
        ensures
            r@ == default_recording(),
    {
        RecordingConfig {
            enabled: false,
            destination: None,
            timestamp_enabled: false,
            overwrite_policy: OverwritePolicy::Refuse,
            file_rotation: FileRotationPolicy::NoRotation,
            disk_guard: None,
        }
    }
}

/// No recording.
pub open spec fn default_recording() -> RecordingConfigModel {
    RecordingConfigModel {
        enabled: false,
        destination: None,
        timestamp_enabled: false,
        overwrite_policy: OverwritePolicy::Refuse,
        file_rotation: FileRotationPolicy::NoRotation,
        disk_guard: None,
    }
}

/// The configuration of the Raw recording.
pub type RawRecordingConfig = RecordingConfig;

/// The configuration of the Display recording.
pub type DisplayRecordingConfig = RecordingConfig;

/// How a `Highlight` action styles a matched item.
#[derive(Debug, PartialEq, Eq)]
pub struct HighlightStyle {
    pub foreground: Option<String>,
    pub background: Option<String>,
    pub label: Option<String>,
}

/// What a `HighlightStyle` says.
pub ghost struct HighlightStyleModel {
    pub foreground: Option<Seq<char>>,
    pub background: Option<Seq<char>>,
    pub label: Option<Seq<char>>,
}

impl View for HighlightStyle {
    type V = HighlightStyleModel;

    open spec fn view(&self) -> HighlightStyleModel {
        HighlightStyleModel {
            foreground: optional_text(self.foreground),
            background: optional_text(self.background),
            label: optional_text(self.label),
        }
    }
}

impl Clone for HighlightStyle {
    fn clone(&self) -> (r: HighlightStyle)
        ensures
            r@ == self@,
    {
        HighlightStyle {
            foreground: copy_text(&self.foreground),
            background: copy_text(&self.background),
            label: copy_text(&self.label),
        }
    }
}

impl HighlightStyle {
    /// Whether both say the same.
    pub fn same(&self, other: &HighlightStyle) -> (r: bool)
        ensures
            r == (self@ == other@),
    {
        same_optional_text(&self.foreground, &other.foreground) && same_optional_text(&self.background, &other.background) && same_optional_text(&self.label, &other.label)
    }
}

/// What a mark shows: a local time, or an NMEA ZDA sentence of the given talker.
#[derive(Debug, PartialEq, Eq)]
pub enum MarkTimestampStyle {
    Plain,
    NmeaZda { talker: String },
}

/// What a `MarkTimestampStyle` says.
pub ghost enum MarkTimestampStyleModel {
    Plain,
    NmeaZda { talker: Seq<char> },
}

impl View for MarkTimestampStyle {
    type V = MarkTimestampStyleModel;

    open spec fn view(&self) -> MarkTimestampStyleModel {
        match *self {
            MarkTimestampStyle::Plain => MarkTimestampStyleModel::Plain,
            MarkTimestampStyle::NmeaZda { talker } => MarkTimestampStyleModel::NmeaZda { talker: talker@ },
        }
    }
}

impl Clone for MarkTimestampStyle {
    fn clone(&self) -> (r: MarkTimestampStyle)
        ensures
            r@ == self@,
    {
        match self {
            MarkTimestampStyle::Plain => MarkTimestampStyle::Plain,
            MarkTimestampStyle::NmeaZda { talker } => MarkTimestampStyle::NmeaZda { talker: talker.clone() },
        }
    }
}

impl MarkTimestampStyle {
    /// Whether both say the same.
    pub fn same(&self, other: &MarkTimestampStyle) -> (r: bool)
        ensures
            r == (self@ == other@),
    {
        match (self, other) {
            (MarkTimestampStyle::Plain, MarkTimestampStyle::Plain) => true,
            (MarkTimestampStyle::NmeaZda { talker: talker_a }, MarkTimestampStyle::NmeaZda { talker: talker_b }) => *talker_a == *talker_b,
            _ => false,
        }
    }
}

impl Default for MarkTimestampStyle {
    fn default() -> (r: MarkTimestampStyle)
        ensures
            r is Plain,
    {
        MarkTimestampStyle::Plain
    }
}

/// The inline timestamp of a mark.
#[derive(Debug, PartialEq, Eq)]
pub struct MarkTimestamp {
    pub position: MarkPosition,
    pub style: MarkTimestampStyle,
    pub format: TimestampConfig,
    /// Text that stands right behind the timestamp.
    pub separator: String,
}

/// What a `MarkTimestamp` says.
pub ghost struct MarkTimestampModel {
    pub position: MarkPosition,
    pub style: MarkTimestampStyleModel,
    pub format: TimestampConfig,
    pub separator: Seq<char>,
}

impl View for MarkTimestamp {
    type V = MarkTimestampModel;

    open spec fn view(&self) -> MarkTimestampModel {
        MarkTimestampModel {
            position: self.position,
            style: self.style@,
            format: self.format,
            separator: self.separator@,
        }
    }
}

impl Clone for MarkTimestamp {
    fn clone(&self) -> (r: MarkTimestamp)
        ensures
            r@ == self@,
    {
        MarkTimestamp {
            position: self.position,
            style: self.style.clone(),
            format: self.format,
            separator: self.separator.clone(),
        }
    }
}

impl MarkTimestamp {
    /// Whether both say the same.
    pub fn same(&self, other: &MarkTimestamp) -> (r: bool)
        ensures
            r == (self@ == other@),
    {
        self.position == other.position && self.style.same(&other.style) && self.format == other.format && self.separator == other.separator
    }
}

/// What an optional `MarkTimestamp` says.
pub open spec fn optional_mark_timestamp(x: Option<MarkTimestamp>) -> Option<MarkTimestampModel> {
    match x {
        Some(v) => Some(v@),
        None => None,
    }
}

/// A copy of an optional value.
pub fn copy_mark_timestamp(x: &Option<MarkTimestamp>) -> (r: Option<MarkTimestamp>)
    ensures
        optional_mark_timestamp(r) == optional_mark_timestamp(*x),
{
    match x {
        Some(v) => Some(v.clone()),
        None => None,
    }
}

/// Whether two optional values say the same.
pub fn same_mark_timestamp(a: &Option<MarkTimestamp>, b: &Option<MarkTimestamp>) -> (r: bool)
    ensures
        r == (optional_mark_timestamp(*a) == optional_mark_timestamp(*b)),
{
    match (a, b) {
        (Some(x), Some(y)) => x.same(y),
        (None, None) => true,
        _ => false,
    }
}

/// What a match rule tests.
#[derive(Debug, PartialEq, Eq)]
pub enum MatchCondition {
    /// A byte pattern in the received stream, across chunk boundaries.
    BytePattern { pattern: Vec<u8> },
    /// No data for the given time: fires once, and again only after data has resumed.
    Idle { timeout_ms: u64 },
}

/// What a `MatchCondition` says.
pub ghost enum MatchConditionModel {
    BytePattern { pattern: Seq<u8> },
    Idle { timeout_ms: u64 },
}

impl View for MatchCondition {
    type V = MatchConditionModel;

    open spec fn view(&self) -> MatchConditionModel {
        match *self {
            MatchCondition::BytePattern { pattern } => MatchConditionModel::BytePattern { pattern: pattern@ },
            MatchCondition::Idle { timeout_ms } => MatchConditionModel::Idle { timeout_ms: timeout_ms },
        }
    }
}

impl Clone for MatchCondition {
    fn clone(&self) -> (r: MatchCondition)
        ensures
            r@ == self@,
    {
        match self {
            MatchCondition::BytePattern { pattern } => MatchCondition::BytePattern { pattern: copy_bytes(pattern) },
            MatchCondition::Idle { timeout_ms } => MatchCondition::Idle { timeout_ms: *timeout_ms },
        }
    }
}

impl MatchCondition {
    /// Whether both say the same.
    pub fn same(&self, other: &MatchCondition) -> (r: bool)
        ensures
            r == (self@ == other@),
    {
        match (self, other) {
            (MatchCondition::BytePattern { pattern: pattern_a }, MatchCondition::BytePattern { pattern: pattern_b }) => same_bytes(pattern_a, pattern_b),
            (MatchCondition::Idle { timeout_ms: timeout_ms_a }, MatchCondition::Idle { timeout_ms: timeout_ms_b }) => *timeout_ms_a == *timeout_ms_b,
            _ => false,
        }
    }
}

/// What a matched rule does. Presentation and control only.
#[derive(Debug, PartialEq, Eq)]
pub enum MatchAction {
    /// Style the matched item in the display.
    Highlight { style: HighlightStyle },
    /// Begin or stop recording from the match on.
    Record { target: RecordTarget, control: RecordControl },
    /// Drop a correlation marker into the display, optionally with a timestamp.
    Mark { timestamp: Option<MarkTimestamp> },
    /// Raise a diagnostic.
    Notify { severity: DiagnosticSeverity },
    /// Freeze a display view, or all of them.
    PauseDisplay { view: Option<usize> },
}

/// What a `MatchAction` says.
pub ghost enum MatchActionModel {
    Highlight { style: HighlightStyleModel },
    Record { target: RecordTarget, control: RecordControl },
    Mark { timestamp: Option<MarkTimestampModel> },
    Notify { severity: DiagnosticSeverity },
    PauseDisplay { view: Option<usize> },
}

impl View for MatchAction {
    type V = MatchActionModel;

    open spec fn view(&self) -> MatchActionModel {
        match *self {
            MatchAction::Highlight { style } => MatchActionModel::Highlight { style: style@ },
            MatchAction::Record { target, control } => MatchActionModel::Record { target: target, control: control },
            MatchAction::Mark { timestamp } => MatchActionModel::Mark { timestamp: optional_mark_timestamp(timestamp) },
            MatchAction::Notify { severity } => MatchActionModel::Notify { severity: severity },
            MatchAction::PauseDisplay { view } => MatchActionModel::PauseDisplay { view: view },
        }
    }
}

impl Clone for MatchAction {
    fn clone(&self) -> (r: MatchAction)
        ensures
            r@ == self@,
    {
        match self {
            MatchAction::Highlight { style } => MatchAction::Highlight { style: style.clone() },
            MatchAction::Record { target, control } => MatchAction::Record { target: *target, control: *control },
            MatchAction::Mark { timestamp } => MatchAction::Mark { timestamp: copy_mark_timestamp(timestamp) },
            MatchAction::Notify { severity } => MatchAction::Notify { severity: *severity },
            MatchAction::PauseDisplay { view } => MatchAction::PauseDisplay { view: *view },
        }
    }
}

impl MatchAction {
    /// Whether both say the same.
    pub fn same(&self, other: &MatchAction) -> (r: bool)
        ensures
            r == (self@ == other@),
    {
        match (self, other) {
            (MatchAction::Highlight { style: style_a }, MatchAction::Highlight { style: style_b }) => style_a.same(style_b),
            (MatchAction::Record { target: target_a, control: control_a }, MatchAction::Record { target: target_b, control: control_b }) => *target_a == *target_b && *control_a == *control_b,
            (MatchAction::Mark { timestamp: timestamp_a }, MatchAction::Mark { timestamp: timestamp_b }) => same_mark_timestamp(timestamp_a, timestamp_b),
            (MatchAction::Notify { severity: severity_a }, MatchAction::Notify { severity: severity_b }) => *severity_a == *severity_b,
            (MatchAction::PauseDisplay { view: view_a }, MatchAction::PauseDisplay { view: view_b }) => same_size(*view_a, *view_b),
            _ => false,
        }
    }
}

/// What a list of `MatchAction` says.
pub open spec fn match_actions_view(v: Seq<MatchAction>) -> Seq<MatchActionModel> {
    v.map_values(|x: MatchAction| x@)
}

/// A copy of a list.
pub fn copy_match_actions(v: &Vec<MatchAction>) -> (r: Vec<MatchAction>)
    ensures
        match_actions_view(r@) == match_actions_view(v@),
{
    let mut out: Vec<MatchAction> = Vec::new();
    let mut i: usize = 0;
    assert(match_actions_view(out@) =~= match_actions_view(v@.take(0)));
    while i < v.len()
        invariant
            i <= v.len(),
            match_actions_view(out@) == match_actions_view(v@.take(i as int)),
        decreases v.len() - i,
    {
        let ghost before = out@;
        out.push(v[i].clone());
        i = i + 1;
        assert(match_actions_view(out@) =~= match_actions_view(before).push(v@[i - 1]@));
        assert(match_actions_view(v@.take(i as int)) =~= match_actions_view(v@.take(i - 1)).push(v@[i - 1]@));
    }
    assert(v@.take(i as int) =~= v@);
    out
}

/// Whether two lists say the same.
pub fn same_match_actions(a: &Vec<MatchAction>, b: &Vec<MatchAction>) -> (r: bool)
    ensures
        r == (match_actions_view(a@) == match_actions_view(b@)),
{
    if a.len() != b.len() {
        assert(match_actions_view(a@).len() != match_actions_view(b@).len());
        return false;
    }
    let mut i: usize = 0;
    while i < a.len()
        invariant
            i <= a.len(),
            a.len() == b.len(),
            forall|j: int| 0 <= j < i ==> (#[trigger] a@[j])@ == b@[j]@,
        decreases a.len() - i,
    {
        if !a[i].same(&b[i]) {
            assert(match_actions_view(a@)[i as int] != match_actions_view(b@)[i as int]);
            return false;
        }
        i = i + 1;
    }
    assert(match_actions_view(a@) =~= match_actions_view(b@));
    true
}

/// A per-channel match rule: a predicate over received data with the actions that it fires.
#[derive(Debug, PartialEq, Eq)]
pub struct MatchRule {
    pub name: String,
    pub condition: MatchCondition,
    pub actions: Vec<MatchAction>,
    pub enabled: bool,
}

/// What a `MatchRule` says.
pub ghost struct MatchRuleModel {
    pub name: Seq<char>,
    pub condition: MatchConditionModel,
    pub actions: Seq<MatchActionModel>,
    pub enabled: bool,
}

impl View for MatchRule {
    type V = MatchRuleModel;

    open spec fn view(&self) -> MatchRuleModel {
        MatchRuleModel {
            name: self.name@,
            condition: self.condition@,
            actions: match_actions_view(self.actions@),
            enabled: self.enabled,
        }
    }
}

impl Clone for MatchRule {
    fn clone(&self) -> (r: MatchRule)
        ensures
            r@ == self@,
    {
        MatchRule {
            name: self.name.clone(),
            condition: self.condition.clone(),
            actions: copy_match_actions(&self.actions),
            enabled: self.enabled,
        }
    }
}

impl MatchRule {
    /// Whether both say the same.
    pub fn same(&self, other: &MatchRule) -> (r: bool)
        ensures
            r == (self@ == other@),
    {
        self.name == other.name && self.condition.same(&other.condition) && same_match_actions(&self.actions, &other.actions) && self.enabled == other.enabled
    }
}

/// What a list of `MatchRule` says.
pub open spec fn match_rules_view(v: Seq<MatchRule>) -> Seq<MatchRuleModel> {
    v.map_values(|x: MatchRule| x@)
}

/// A copy of a list.
pub fn copy_match_rules(v: &Vec<MatchRule>) -> (r: Vec<MatchRule>)
    ensures
        match_rules_view(r@) == match_rules_view(v@),
{
    let mut out: Vec<MatchRule> = Vec::new();
    let mut i: usize = 0;
    assert(match_rules_view(out@) =~= match_rules_view(v@.take(0)));
    while i < v.len()
        invariant
            i <= v.len(),
            match_rules_view(out@) == match_rules_view(v@.take(i as int)),
        decreases v.len() - i,
    {
        let ghost before = out@;
        out.push(v[i].clone());
        i = i + 1;
        assert(match_rules_view(out@) =~= match_rules_view(before).push(v@[i - 1]@));
        assert(match_rules_view(v@.take(i as int)) =~= match_rules_view(v@.take(i - 1)).push(v@[i - 1]@));
    }
    assert(v@.take(i as int) =~= v@);
    out
}

/// Whether two lists say the same.
pub fn same_match_rules(a: &Vec<MatchRule>, b: &Vec<MatchRule>) -> (r: bool)
    ensures
        r == (match_rules_view(a@) == match_rules_view(b@)),
{
    if a.len() != b.len() {
        assert(match_rules_view(a@).len() != match_rules_view(b@).len());
        return false;
    }
    let mut i: usize = 0;
    while i < a.len()
        invariant
            i <= a.len(),
            a.len() == b.len(),
            forall|j: int| 0 <= j < i ==> (#[trigger] a@[j])@ == b@[j]@,
        decreases a.len() - i,
    {
        if !a[i].same(&b[i]) {
            assert(match_rules_view(a@)[i as int] != match_rules_view(b@)[i as int]);
            return false;
        }
        i = i + 1;
    }
    assert(match_rules_view(a@) =~= match_rules_view(b@));
    true
}

/// One configured Channel.
#[derive(Debug, PartialEq)]
pub struct ChannelConfig {
    pub id: Option<StableConfigId>,
    pub name: ChannelName,
    pub kind: ChannelKind,
    pub interface: InterfaceConfig,
    pub display: DisplayConfig,
    pub raw_recording: RecordingConfig,
    pub display_recording: RecordingConfig,
    pub retention: RetentionConfig,
    pub reconnect: ReconnectPolicy,
    pub match_rules: Vec<MatchRule>,
}

/// What a `ChannelConfig` says.
pub ghost struct ChannelConfigModel {
    pub id: Option<StableConfigId>,
    pub name: Seq<char>,
    pub kind: ChannelKind,
    pub interface: InterfaceConfigModel,
    pub display: DisplayConfigModel,
    pub raw_recording: RecordingConfigModel,
    pub display_recording: RecordingConfigModel,
    pub retention: RetentionConfig,
    pub reconnect: ReconnectPolicy,
    pub match_rules: Seq<MatchRuleModel>,
}

impl View for ChannelConfig {
    type V = ChannelConfigModel;

    open spec fn view(&self) -> ChannelConfigModel {
        ChannelConfigModel {
            id: self.id,
            name: self.name@,
            kind: self.kind,
            interface: self.interface@,
            display: self.display@,
            raw_recording: self.raw_recording@,
            display_recording: self.display_recording@,
            retention: self.retention,
            reconnect: self.reconnect,
            match_rules: match_rules_view(self.match_rules@),
        }
    }
}

impl Clone for ChannelConfig {
    fn clone(&self) -> (r: ChannelConfig)
        ensures
            r@ == self@,
    {
        ChannelConfig {
            id: self.id,
            name: self.name.clone(),
            kind: self.kind,
            interface: self.interface.clone(),
            display: self.display.clone(),
            raw_recording: self.raw_recording.clone(),
            display_recording: self.display_recording.clone(),
            retention: self.retention,
            reconnect: self.reconnect,
            match_rules: copy_match_rules(&self.match_rules),
        }
    }
}

/// What a list of `ChannelConfig` says.
pub open spec fn channel_configs_view(v: Seq<ChannelConfig>) -> Seq<ChannelConfigModel> {
    v.map_values(|x: ChannelConfig| x@)
}

/// A copy of a list.
pub fn copy_channel_configs(v: &Vec<ChannelConfig>) -> (r: Vec<ChannelConfig>)
    ensures
        channel_configs_view(r@) == channel_configs_view(v@),
{
    let mut out: Vec<ChannelConfig> = Vec::new();
    let mut i: usize = 0;
    assert(channel_configs_view(out@) =~= channel_configs_view(v@.take(0)));
    while i < v.len()
        invariant
            i <= v.len(),
            channel_configs_view(out@) == channel_configs_view(v@.take(i as int)),
        decreases v.len() - i,
    {
        let ghost before = out@;
        out.push(v[i].clone());
        i = i + 1;
        assert(channel_configs_view(out@) =~= channel_configs_view(before).push(v@[i - 1]@));
        assert(channel_configs_view(v@.take(i as int)) =~= channel_configs_view(v@.take(i - 1)).push(v@[i - 1]@));
    }
    assert(v@.take(i as int) =~= v@);
    out
}

/// What an optional `DisplayConfig` says.
pub open spec fn optional_display_config(x: Option<DisplayConfig>) -> Option<DisplayConfigModel> {
    match x {
        Some(v) => Some(v@),
        None => None,
    }
}

/// A copy of an optional value.
pub fn copy_display_config(x: &Option<DisplayConfig>) -> (r: Option<DisplayConfig>)
    ensures
        optional_display_config(r) == optional_display_config(*x),
{
    match x {
        Some(v) => Some(v.clone()),
        None => None,
    }
}

/// Two channel configurations are equal: their numbers as numbers, and all else.
pub open spec fn equal_configs(a: ChannelConfigModel, b: ChannelConfigModel) -> bool {
    &&& equal_displays(a.display, b.display)
    &&& equal_policies(a.reconnect, b.reconnect)
    &&& (ChannelConfigModel { display: b.display, reconnect: b.reconnect, ..a }) == b
}

/// Profile-level defaults for channels that do not override them.
#[derive(Debug, PartialEq)]
pub struct DefaultConfig {
    pub display: Option<DisplayConfig>,
    pub retention: Option<RetentionConfig>,
}

/// What a `DefaultConfig` says.
pub ghost struct DefaultConfigModel {
    pub display: Option<DisplayConfigModel>,
    pub retention: Option<RetentionConfig>,
}

impl View for DefaultConfig {
    type V = DefaultConfigModel;

    open spec fn view(&self) -> DefaultConfigModel {
        DefaultConfigModel {
            display: optional_display_config(self.display),
            retention: self.retention,
        }
    }
}

impl Clone for DefaultConfig {
    fn clone(&self) -> (r: DefaultConfig)
        ensures
            r@ == self@,
    {
        DefaultConfig {
            display: copy_display_config(&self.display),
            retention: self.retention,
        }
    }
}

impl Default for DefaultConfig {
    fn default() -> (r: DefaultConfig)
        ensures
            r.display is None,
            r.retention is None,
    {
        DefaultConfig { display: None, retention: None }
    }
}

} // verus!
