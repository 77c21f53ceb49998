//! Structural validation of profiles and their channels. Whether a resource exists is
//! left to the start of a channel.

use vstd::prelude::*;
use vstd::string::*;

use crate::config::schema::{
    ChannelConfig, DefaultConfig, FileRotationPolicy, InterfaceConfig, MatchCondition, MatchRule,
    RetentionConfig, UdpMode, no_retention,
};
use crate::model::metadata::optional_text;
use crate::model::state::ChannelKind;
use crate::record::{is_filesystem_safe, safe_name};
use crate::text::{is_blank, lowered, push_decimal, decimal, same_ignoring_case, trimmed};

verus! {

/// The schema version that this build understands.
pub const CURRENT_VERSION: u32 = 3;

/// Errors from loading or saving a profile.
#[derive(Clone, Debug, PartialEq, Eq)]
pub enum ConfigError {
    Io(String),
    Parse(String),
    Serialize(String),
    SchemaTooNew { found: u32, supported: u32 },
    SchemaTooOld { found: u32, supported: u32 },
}

impl ConfigError {
    pub open spec fn message_spec(self) -> Seq<char> {
        match self {
            ConfigError::Io(reason) => "config I/O error: "@ + reason@,
            ConfigError::Parse(reason) => "profile parse error: "@ + reason@,
            ConfigError::Serialize(reason) => "profile serialize error: "@ + reason@,
            ConfigError::SchemaTooNew { found, supported } => "profile schema version "@ + decimal(
                found as nat,
            ) + " is newer than this build supports ("@ + decimal(supported as nat) + ")"@,
            ConfigError::SchemaTooOld { found, supported } => "profile schema version "@ + decimal(
                found as nat,
            ) + " is older than "@ + decimal(supported as nat) + " and has no migration"@,
        }
    }

    /// The error as text.
    pub fn to_string(&self) -> (r: String)
        ensures
            r@ == self.message_spec(),
    {
        match self {
            ConfigError::Io(reason) => {
                let mut out: String = "config I/O error: ".to_owned();
                out.append(reason.as_str());
                out
            },
            ConfigError::Parse(reason) => {
                let mut out: String = "profile parse error: ".to_owned();
                out.append(reason.as_str());
                out
            },
            ConfigError::Serialize(reason) => {
                let mut out: String = "profile serialize error: ".to_owned();
                out.append(reason.as_str());
                out
            },
            ConfigError::SchemaTooNew { found, supported } => {
                let mut out: String = "profile schema version ".to_owned();
                push_decimal(&mut out, *found as u64);
                out.append(" is newer than this build supports (");
                push_decimal(&mut out, *supported as u64);
                out.append(")");
                out
            },
            ConfigError::SchemaTooOld { found, supported } => {
                let mut out: String = "profile schema version ".to_owned();
                push_decimal(&mut out, *found as u64);
                out.append(" is older than ");
                push_decimal(&mut out, *supported as u64);
                out.append(" and has no migration");
                out
            },
        }
    }
}

/// A structural problem in one channel's configuration.
#[derive(Clone, Copy, Debug, PartialEq, Eq, Structural)]
pub enum ChannelConfigError {
    KindInterfaceMismatch,
    TcpConnectionNotPersistable,
    MissingMulticastGroup,
    UnboundedRetention,
    InvalidChannelName,
    DuplicateChannelName,
    EmptyMatchPattern,
}

impl ChannelConfigError {
    pub open spec fn message_spec(self) -> Seq<char> {
        match self {
            ChannelConfigError::KindInterfaceMismatch =>
                "channel kind does not match its interface configuration"@,
            ChannelConfigError::TcpConnectionNotPersistable =>
                "TCP Connection channels are runtime-only and cannot be persisted"@,
            ChannelConfigError::MissingMulticastGroup =>
                "multicast UDP requires a multicast group address"@,
            ChannelConfigError::UnboundedRetention =>
                "retention is unbounded: set a limit on the channel or in defaults"@,
            ChannelConfigError::InvalidChannelName =>
                "channel name is not filesystem-safe but recording file rotation uses it in filenames"@,
            ChannelConfigError::DuplicateChannelName =>
                "channel name duplicates another channel's — names must be unique"@,
            ChannelConfigError::EmptyMatchPattern =>
                "a match rule's byte pattern is empty (it would match at every byte offset)"@,
        }
    }

    /// The problem as text.
    pub fn to_string(&self) -> (r: String)
        ensures
            r@ == self.message_spec(),
    {
        match self {
            ChannelConfigError::KindInterfaceMismatch =>
                "channel kind does not match its interface configuration".to_owned(),
            ChannelConfigError::TcpConnectionNotPersistable =>
                "TCP Connection channels are runtime-only and cannot be persisted".to_owned(),
            ChannelConfigError::MissingMulticastGroup =>
                "multicast UDP requires a multicast group address".to_owned(),
            ChannelConfigError::UnboundedRetention =>
                "retention is unbounded: set a limit on the channel or in defaults".to_owned(),
            ChannelConfigError::InvalidChannelName =>
                "channel name is not filesystem-safe but recording file rotation uses it in filenames".to_owned(),
            ChannelConfigError::DuplicateChannelName =>
                "channel name duplicates another channel's — names must be unique".to_owned(),
            ChannelConfigError::EmptyMatchPattern =>
                "a match rule's byte pattern is empty (it would match at every byte offset)".to_owned(),
        }
    }
}

/// A configuration that is valid but likely a mistake. There is no such condition yet.
#[derive(Clone, Debug, PartialEq, Eq)]
#[non_exhaustive]
pub struct ChannelConfigWarning {
    pub message: String,
}

/// A persisted workspace: configured channels and defaults for them.
#[derive(Debug, PartialEq)]
pub struct Profile {
    pub schema_version: u32,
    pub name: String,
    pub channels: Vec<ChannelConfig>,
    pub defaults: DefaultConfig,
}

/// The kind of a channel is that of its interface.
pub open spec fn kind_fits(kind: ChannelKind, interface: InterfaceConfig) -> bool {
    match interface {
        InterfaceConfig::Serial(_) => kind is Serial,
        InterfaceConfig::Udp(_) => kind is Udp,
        InterfaceConfig::TcpListener(_) => kind is TcpListener,
    }
}

pub open spec fn kind_faults(channel: ChannelConfig) -> Seq<ChannelConfigError> {
    if channel.kind is TcpConnection {
        seq![ChannelConfigError::TcpConnectionNotPersistable]
    } else if !kind_fits(channel.kind, channel.interface) {
        seq![ChannelConfigError::KindInterfaceMismatch]
    } else {
        Seq::empty()
    }
}

/// A multicast channel names a group that is not blank.
pub open spec fn group_faults(channel: ChannelConfig) -> Seq<ChannelConfigError> {
    match channel.interface {
        InterfaceConfig::Udp(udp) => if udp.mode is Multicast && (optional_text(
            udp.multicast_group,
        ) is None || trimmed(optional_text(udp.multicast_group)->0).len() == 0) {
            seq![ChannelConfigError::MissingMulticastGroup]
        } else {
            Seq::empty()
        },
        _ => Seq::empty(),
    }
}

/// A recording that begins with the channel and starts fresh files.
pub open spec fn rotates(enabled: bool, rotation: FileRotationPolicy) -> bool {
    enabled && !(rotation is NoRotation)
}

/// The name of a channel with a rotating recording becomes part of file names.
pub open spec fn name_faults(channel: ChannelConfig) -> Seq<ChannelConfigError> {
    if (rotates(channel.raw_recording.enabled, channel.raw_recording.file_rotation) || rotates(
        channel.display_recording.enabled,
        channel.display_recording.file_rotation,
    )) && !safe_name(channel.name@) {
        seq![ChannelConfigError::InvalidChannelName]
    } else {
        Seq::empty()
    }
}

/// An empty pattern would match everywhere.
pub open spec fn is_empty_pattern(rule: MatchRule) -> bool {
    match rule.condition {
        MatchCondition::BytePattern { pattern } => pattern@.len() == 0,
        MatchCondition::Idle { timeout_ms } => false,
    }
}

/// One fault for each rule with an empty pattern.
pub open spec fn rule_faults(rules: Seq<MatchRule>) -> Seq<ChannelConfigError>
    decreases rules.len(),
{
    if rules.len() == 0 {
        Seq::empty()
    } else {
        let front = rule_faults(rules.drop_last());
        if is_empty_pattern(rules.last()) {
            front.push(ChannelConfigError::EmptyMatchPattern)
        } else {
            front
        }
    }
}

/// The limits that apply to a channel: its own, or the defaults where it has none.
pub open spec fn effective_retention(channel: ChannelConfig, defaults: DefaultConfig) -> RetentionConfig {
    if channel.retention == no_retention() && defaults.retention is Some {
        defaults.retention->0
    } else {
        channel.retention
    }
}

pub open spec fn retention_faults(channel: ChannelConfig, defaults: DefaultConfig) -> Seq<
    ChannelConfigError,
> {
    if effective_retention(channel, defaults) == no_retention() {
        seq![ChannelConfigError::UnboundedRetention]
    } else {
        Seq::empty()
    }
}

/// Everything that is wrong with a channel on its own.
pub open spec fn channel_faults(channel: ChannelConfig, defaults: DefaultConfig) -> Seq<
    ChannelConfigError,
> {
    kind_faults(channel) + group_faults(channel) + name_faults(channel) + rule_faults(
        channel.match_rules@,
    ) + retention_faults(channel, defaults)
}

/// Another channel has the same name, the case of ASCII letters apart.
pub open spec fn duplicated(channels: Seq<ChannelConfig>, i: int) -> bool {
    exists|j: int|
        0 <= j < channels.len() && j != i && lowered((#[trigger] channels[j]).name@) == lowered(
            channels[i].name@,
        )
}

/// Everything that is wrong with a channel of a profile.
pub open spec fn profile_faults(profile: Profile, i: int) -> Seq<ChannelConfigError> {
    let own = channel_faults(profile.channels@[i], profile.defaults);
    if duplicated(profile.channels@, i) {
        own.push(ChannelConfigError::DuplicateChannelName)
    } else {
        own
    }
}

/// The verdict on a channel with the given faults.
pub open spec fn verdict(r: Result<(), Vec<ChannelConfigError>>, faults: Seq<ChannelConfigError>) -> bool {
    match r {
        Ok(_) => faults.len() == 0,
        Err(errors) => errors@ == faults && faults.len() > 0,
    }
}

/// Validates one channel on its own.
pub fn validate_channel(channel: &ChannelConfig, defaults: &DefaultConfig) -> (r: Result<
    (),
    Vec<ChannelConfigError>,
>)
    ensures
        verdict(r, channel_faults(*channel, *defaults)),
{
    let errors: Vec<ChannelConfigError> = channel_errors(channel, defaults);
    if errors.len() == 0 {
        Ok(())
    } else {
        Err(errors)
    }
}

fn channel_errors(channel: &ChannelConfig, defaults: &DefaultConfig) -> (errors: Vec<
    ChannelConfigError,
>)
    ensures
        errors@ == channel_faults(*channel, *defaults),
{
    let mut errors: Vec<ChannelConfigError> = Vec::new();
    let kind_matches: bool = match &channel.interface {
        InterfaceConfig::Serial(_) => channel.kind == ChannelKind::Serial,
        InterfaceConfig::Udp(_) => channel.kind == ChannelKind::Udp,
        InterfaceConfig::TcpListener(_) => channel.kind == ChannelKind::TcpListener,
    };
    if channel.kind == ChannelKind::TcpConnection {
        errors.push(ChannelConfigError::TcpConnectionNotPersistable);
    } else if !kind_matches {
        errors.push(ChannelConfigError::KindInterfaceMismatch);
    }
    assert(errors@ =~= kind_faults(*channel));
    let ghost a = errors@;
    if let InterfaceConfig::Udp(udp) = &channel.interface {
        let blank: bool = match &udp.multicast_group {
            Some(group) => is_blank(group.as_str()),
            None => true,
        };
        if udp.mode == UdpMode::Multicast && blank {
            errors.push(ChannelConfigError::MissingMulticastGroup);
        }
    }
    assert(errors@ =~= a + group_faults(*channel));
    let ghost b = errors@;
    let raw_rotates: bool = channel.raw_recording.enabled && channel.raw_recording.file_rotation
        != FileRotationPolicy::NoRotation;
    let display_rotates: bool = channel.display_recording.enabled
        && channel.display_recording.file_rotation != FileRotationPolicy::NoRotation;
    if (raw_rotates || display_rotates) && !is_filesystem_safe(channel.name.as_str()) {
        errors.push(ChannelConfigError::InvalidChannelName);
    }
    assert(errors@ =~= b + name_faults(*channel));
    let ghost c = errors@;
    let mut i: usize = 0;
    assert(channel.match_rules@.take(0) =~= Seq::empty());
    assert(errors@ =~= c + rule_faults(channel.match_rules@.take(0)));
    while i < channel.match_rules.len()
        invariant
            i <= channel.match_rules.len(),
            errors@ == c + rule_faults(channel.match_rules@.take(i as int)),
        decreases channel.match_rules.len() - i,
    {
        let ghost done = channel.match_rules@.take(i as int);
        assert(channel.match_rules@.take(i + 1).drop_last() =~= done);
        let empty: bool = match &channel.match_rules[i].condition {
            MatchCondition::BytePattern { pattern } => pattern.len() == 0,
            MatchCondition::Idle { timeout_ms: _ } => false,
        };
        if empty {
            errors.push(ChannelConfigError::EmptyMatchPattern);
        }
        i = i + 1;
        assert(errors@ =~= c + rule_faults(channel.match_rules@.take(i as int)));
    }
    assert(channel.match_rules@.take(i as int) =~= channel.match_rules@);
    let ghost d = errors@;
    let effective: RetentionConfig = if channel.retention.is_unbounded() {
        match defaults.retention {
            Some(retention) => retention,
            None => channel.retention,
        }
    } else {
        channel.retention
    };
    if effective.is_unbounded() {
        errors.push(ChannelConfigError::UnboundedRetention);
    }
    assert(errors@ =~= d + retention_faults(*channel, *defaults));
    assert(errors@ =~= channel_faults(*channel, *defaults));
    errors
}

/// Conditions that are valid but likely a mistake: none exists yet.
pub fn channel_warnings(channel: &ChannelConfig) -> (r: Vec<ChannelConfigWarning>)
    ensures
        r@.len() == 0,
{
    Vec::new()
}

impl Profile {
    /// A new, empty profile of the current schema version.
    pub fn new(name: &str) -> (r: Profile)
        ensures
            r.schema_version == CURRENT_VERSION,
            r.name@ == name@,
            r.channels@.len() == 0,
            r.defaults.display is None,
            r.defaults.retention is None,
    {
        Profile {
            schema_version: CURRENT_VERSION,
            name: name.to_owned(),
            channels: Vec::new(),
            defaults: DefaultConfig::default(),
        }
    }

    /// Only the current schema version loads: a newer one is refused, and so is an
    /// older one, for which there is no migration.
    pub fn check_version(&self) -> (r: Result<(), ConfigError>)
        ensures
            r is Ok <==> self.schema_version == CURRENT_VERSION,
            self.schema_version > CURRENT_VERSION ==> r == Err::<(), ConfigError>(
                ConfigError::SchemaTooNew {
                    found: self.schema_version,
                    supported: CURRENT_VERSION,
                },
            ),
            self.schema_version < CURRENT_VERSION ==> r == Err::<(), ConfigError>(
                ConfigError::SchemaTooOld {
                    found: self.schema_version,
                    supported: CURRENT_VERSION,
                },
            ),
    {
        if self.schema_version == CURRENT_VERSION {
            Ok(())
        } else if self.schema_version > CURRENT_VERSION {
            Err(
                ConfigError::SchemaTooNew {
                    found: self.schema_version,
                    supported: CURRENT_VERSION,
                },
            )
        } else {
            Err(
                ConfigError::SchemaTooOld {
                    found: self.schema_version,
                    supported: CURRENT_VERSION,
                },
            )
        }
    }

    /// Validates every channel, each on its own account: one invalid channel does not
    /// invalidate the others. Names have to be unique, the case of ASCII letters apart;
    /// a shared name invalidates every channel that carries it.
    pub fn validate(&self) -> (r: Vec<(String, Result<(), Vec<ChannelConfigError>>)>)
        ensures
            r@.len() == self.channels@.len(),
            forall|i: int|
                0 <= i < r@.len() ==> (#[trigger] r@[i]).0@ == self.channels@[i].name@ && verdict(
                    r@[i].1,
                    profile_faults(*self, i),
                ),
    {
        let mut out: Vec<(String, Result<(), Vec<ChannelConfigError>>)> = Vec::new();
        let mut i: usize = 0;
        while i < self.channels.len()
            invariant
                i <= self.channels.len(),
                out@.len() == i,
                forall|k: int|
                    0 <= k < i ==> (#[trigger] out@[k]).0@ == self.channels@[k].name@ && verdict(
                        out@[k].1,
                        profile_faults(*self, k),
                    ),
            decreases self.channels.len() - i,
        {
            let mut errors: Vec<ChannelConfigError> = channel_errors(
                &self.channels[i],
                &self.defaults,
            );
            if self.is_duplicated(i) {
                errors.push(ChannelConfigError::DuplicateChannelName);
            }
            let result: Result<(), Vec<ChannelConfigError>> = if errors.len() == 0 {
                Ok(())
            } else {
                Err(errors)
            };
            out.push((self.channels[i].name.to_string(), result));
            i = i + 1;
        }
        out
    }

    /// Whether another channel has the name of the `i`-th.
    fn is_duplicated(&self, i: usize) -> (r: bool)
        requires
            i < self.channels@.len(),
        ensures
            r == duplicated(self.channels@, i as int),
    {
        let mut j: usize = 0;
        while j < self.channels.len()
            invariant
                j <= self.channels.len(),
                i < self.channels.len(),
                forall|k: int|
                    0 <= k < j && k != i ==> lowered((#[trigger] self.channels@[k]).name@)
                        != lowered(self.channels@[i as int].name@),
            decreases self.channels.len() - j,
        {
            if j != i && same_ignoring_case(
                self.channels[j].name.as_str(),
                self.channels[i].name.as_str(),
            ) {
                return true;
            }
            j = j + 1;
        }
        false
    }

    /// The channels that validate, in order.
    pub fn valid_channels(&self) -> (r: Vec<ChannelConfig>)
        ensures
            crate::config::schema::channel_configs_view(r@) == valid_models(*self, self.channels@.len() as int),
    {
        let mut out: Vec<ChannelConfig> = Vec::new();
        let verdicts = self.validate();
        let mut i: usize = 0;
        assert(crate::config::schema::channel_configs_view(out@) =~= valid_models(*self, 0));
        while i < self.channels.len()
            invariant
                i <= self.channels.len(),
                verdicts@.len() == self.channels@.len(),
                forall|k: int|
                    0 <= k < verdicts@.len() ==> verdict(
                        (#[trigger] verdicts@[k]).1,
                        profile_faults(*self, k),
                    ),
                crate::config::schema::channel_configs_view(out@) == valid_models(*self, i as int),
            decreases self.channels.len() - i,
        {
            let ghost before = out@;
            assert(verdict(verdicts@[i as int].1, profile_faults(*self, i as int)));
            if verdicts[i].1.is_ok() {
                out.push(self.channels[i].clone());
                assert(crate::config::schema::channel_configs_view(out@)
                    =~= crate::config::schema::channel_configs_view(before).push(
                    self.channels@[i as int]@,
                ));
            }
            i = i + 1;
        }
        out
    }
}

/// What the valid ones among the first `n` channels say.
pub open spec fn valid_models(profile: Profile, n: int) -> Seq<
    crate::config::schema::ChannelConfigModel,
>
    decreases n,
{
    if n <= 0 {
        Seq::empty()
    } else if profile_faults(profile, n - 1).len() == 0 {
        valid_models(profile, n - 1).push(profile.channels@[n - 1]@)
    } else {
        valid_models(profile, n - 1)
    }
}

/// A shared name invalidates every channel that carries it.
pub proof fn law_duplicates_are_mutual(profile: Profile, i: int, j: int)
    requires
        0 <= i < profile.channels@.len(),
        0 <= j < profile.channels@.len(),
        i != j,
        lowered(profile.channels@[i].name@) == lowered(profile.channels@[j].name@),
    ensures
        profile_faults(profile, i).len() > 0,
        profile_faults(profile, j).len() > 0,
        profile_faults(profile, i).last() == ChannelConfigError::DuplicateChannelName,
        profile_faults(profile, j).last() == ChannelConfigError::DuplicateChannelName,
{
    assert(duplicated(profile.channels@, i));
    assert(duplicated(profile.channels@, j));
}

/// Whether a channel is valid does not depend on the others as long as its name is its
/// own.
pub proof fn law_channels_are_independent(profile: Profile, i: int)
    requires
        0 <= i < profile.channels@.len(),
        !duplicated(profile.channels@, i),
    ensures
        profile_faults(profile, i) == channel_faults(profile.channels@[i], profile.defaults),
{
}

} // verus!
