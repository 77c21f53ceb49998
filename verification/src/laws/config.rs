//! When a channel's configuration is valid, and when an edit of it takes a restart.

use vstd::prelude::*;

use crate::config::schema::{
    equal_configs, equal_displays, equal_views, ChannelConfig, ChannelConfigModel, DefaultConfig,
    DisplayViewConfig, FileRotationPolicy, InterfaceConfig, InterfaceConfigModel, MarkTimestamp,
    MatchAction, MatchCondition, MatchRule, OverwritePolicy, RecordingConfig, RetentionConfig,
};
use crate::config::validate::{
    channel_faults, duplicated, group_faults, is_empty_pattern, kind_faults, name_faults,
    profile_faults, retention_faults, rule_faults, valid_models, verdict, ChannelConfigError,
    Profile,
};
use crate::gui::widgets::without_live_fields;
use crate::laws::text::{
    law_blank_is_all_white, law_lowered_forgets_case_only, same_letter, white_char,
};
use crate::model::float::{same_double, same_single};
use crate::model::state::{ChannelKind, ChannelState};
use crate::record::{overwrite_under, safe_name};

verus! {

/// No limit is set.
pub open spec fn has_no_limit(r: RetentionConfig) -> bool {
    r.byte_limit is None && r.event_limit is None && r.warning_limit is None && r.error_limit is None
}

/// A recording that begins with the channel and starts a fresh file now and then.
pub open spec fn makes_files(r: RecordingConfig) -> bool {
    r.enabled && (r.file_rotation is Hourly || r.file_rotation is Daily)
}

/// A rule that looks for no bytes.
pub open spec fn looks_for_nothing(rule: MatchRule) -> bool {
    rule.condition matches MatchCondition::BytePattern { pattern } && pattern@.len() == 0
}

/// The kind of channel that an interface belongs to.
pub open spec fn kind_of(interface: InterfaceConfig) -> ChannelKind {
    match interface {
        InterfaceConfig::Serial(_) => ChannelKind::Serial,
        InterfaceConfig::Udp(_) => ChannelKind::Udp,
        InterfaceConfig::TcpListener(_) => ChannelKind::TcpListener,
    }
}

/// A character that some filesystem does not take: a control character, or one of
/// `<>:"/\|?*`.
pub open spec fn unsafe_code(c: char) -> bool {
    let n = c as u32;
    n < 32 || n == 127 || n == 60 || n == 62 || n == 58 || n == 34 || n == 47 || n == 92 || n == 124
        || n == 63 || n == 42
}

/// A name that can be part of a file name: not empty, without such characters, and not
/// ending in a space or a dot.
pub open spec fn fits_in_file_names(t: Seq<char>) -> bool {
    &&& t.len() > 0
    &&& forall|i: int| 0 <= i < t.len() ==> !unsafe_code(#[trigger] t[i])
    &&& t[t.len() - 1] as u32 != 32
    &&& t[t.len() - 1] as u32 != 46
}

proof fn lemma_unsafe(c: char)
    ensures
        crate::record::is_reserved_char(c) <==> unsafe_code(c),
        c as u32 == 32 <==> c == ' ',
        c as u32 == 46 <==> c == '.',
{
}

/// Which names can be part of a file name.
pub proof fn law_safe_names_fit_in_file_names(t: Seq<char>)
    ensures
        safe_name(t) <==> fits_in_file_names(t),
{
    assert forall|i: int| 0 <= i < t.len() implies (crate::record::is_reserved_char(#[trigger] t[i])
        <==> unsafe_code(t[i])) by {
        lemma_unsafe(t[i]);
    }
    if t.len() > 0 {
        lemma_unsafe(t[t.len() - 1]);
    }
}

/// What has to be wrong with a channel for each of its faults.
pub open spec fn explains(channel: ChannelConfig, defaults: DefaultConfig, e: ChannelConfigError) -> bool {
    match e {
        ChannelConfigError::TcpConnectionNotPersistable => channel.kind is TcpConnection,
        ChannelConfigError::KindInterfaceMismatch => !(channel.kind is TcpConnection)
            && channel.kind != kind_of(channel.interface),
        ChannelConfigError::MissingMulticastGroup => channel.interface matches InterfaceConfig::Udp(
            udp,
        ) && udp.mode is Multicast && (udp.multicast_group matches Some(group) ==> forall|i: int|
            0 <= i < group@.len() ==> white_char(#[trigger] group@[i])),
        ChannelConfigError::InvalidChannelName => (makes_files(channel.raw_recording)
            || makes_files(channel.display_recording)) && !fits_in_file_names(channel.name@),
        ChannelConfigError::EmptyMatchPattern => exists|i: int|
            0 <= i < channel.match_rules@.len() && looks_for_nothing(
                #[trigger] channel.match_rules@[i],
            ),
        ChannelConfigError::UnboundedRetention => has_no_limit(channel.retention) && (
        defaults.retention matches Some(r) ==> has_no_limit(r)),
        ChannelConfigError::DuplicateChannelName => false,
    }
}

proof fn lemma_rule_faults(rules: Seq<MatchRule>)
    ensures
        forall|e: ChannelConfigError|
            #[trigger] rule_faults(rules).contains(e) ==> e is EmptyMatchPattern,
        rule_faults(rules).contains(ChannelConfigError::EmptyMatchPattern) <==> exists|i: int|
            0 <= i < rules.len() && looks_for_nothing(#[trigger] rules[i]),
        rule_faults(rules).len() == rules.filter(|r: MatchRule| looks_for_nothing(r)).len(),
    decreases rules.len(),
{
    reveal(Seq::filter);
    let all = rule_faults(rules);
    if rules.len() > 0 {
        let front = rules.drop_last();
        lemma_rule_faults(front);
        let less = rule_faults(front);
        assert(rules.last() == rules[rules.len() - 1]);
        assert forall|e: ChannelConfigError| #[trigger] all.contains(e) implies
            e is EmptyMatchPattern by {
            let i = choose|i: int| 0 <= i < all.len() && all[i] == e;
            if i < less.len() {
                assert(less.contains(less[i]));
            }
        }
        if is_empty_pattern(rules.last()) {
            assert(all[all.len() - 1] == ChannelConfigError::EmptyMatchPattern);
            assert(looks_for_nothing(rules[rules.len() - 1]));
        } else {
            if all.contains(ChannelConfigError::EmptyMatchPattern) {
                let i = choose|i: int|
                    0 <= i < front.len() && looks_for_nothing(#[trigger] front[i]);
                assert(looks_for_nothing(rules[i]));
            }
            if exists|i: int| 0 <= i < rules.len() && looks_for_nothing(#[trigger] rules[i]) {
                let i = choose|i: int|
                    0 <= i < rules.len() && looks_for_nothing(#[trigger] rules[i]);
                assert(i < front.len());
                assert(looks_for_nothing(front[i]));
            }
        }
    }
}

/// A channel has exactly the faults that something in it explains.
pub proof fn law_faults_are_explained(
    channel: ChannelConfig,
    defaults: DefaultConfig,
    e: ChannelConfigError,
)
    ensures
        channel_faults(channel, defaults).contains(e) <==> explains(channel, defaults, e),
{
    let a = kind_faults(channel);
    let b = group_faults(channel);
    let c = name_faults(channel);
    let d = rule_faults(channel.match_rules@);
    let f = retention_faults(channel, defaults);
    lemma_rule_faults(channel.match_rules@);
    law_safe_names_fit_in_file_names(channel.name@);
    if let InterfaceConfig::Udp(udp) = channel.interface {
        if let Some(group) = udp.multicast_group {
            law_blank_is_all_white(group@);
        }
    }
    let all = channel_faults(channel, defaults);
    assert(all == a + b + c + d + f);
    lemma_five(a, b, c, d, f, e);
    lemma_few(a, e);
    lemma_few(b, e);
    lemma_few(c, e);
    lemma_few(f, e);
}

/// What a list of at most one entry holds.
proof fn lemma_few(s: Seq<ChannelConfigError>, e: ChannelConfigError)
    requires
        s.len() <= 1,
    ensures
        s.contains(e) <==> s.len() == 1 && s[0] == e,
{
    if s.len() == 1 && s[0] == e {
        assert(s.contains(e));
    }
}

proof fn lemma_five(
    a: Seq<ChannelConfigError>,
    b: Seq<ChannelConfigError>,
    c: Seq<ChannelConfigError>,
    d: Seq<ChannelConfigError>,
    f: Seq<ChannelConfigError>,
    e: ChannelConfigError,
)
    ensures
        (a + b + c + d + f).contains(e) <==> a.contains(e) || b.contains(e) || c.contains(e)
            || d.contains(e) || f.contains(e),
{
    lemma_in_either(a, b, e);
    lemma_in_either(a + b, c, e);
    lemma_in_either(a + b + c, d, e);
    lemma_in_either(a + b + c + d, f, e);
}

proof fn lemma_in_either(
    a: Seq<ChannelConfigError>,
    b: Seq<ChannelConfigError>,
    e: ChannelConfigError,
)
    ensures
        (a + b).contains(e) <==> a.contains(e) || b.contains(e),
{
    let s = a + b;
    if a.contains(e) {
        let i = choose|i: int| 0 <= i < a.len() && a[i] == e;
        assert(s[i] == e);
    }
    if b.contains(e) {
        let i = choose|i: int| 0 <= i < b.len() && b[i] == e;
        assert(s[a.len() + i] == e);
    }
}

/// A channel counts as valid exactly where nothing explains a fault; otherwise every fault
/// that something explains is reported, and no other.
pub proof fn law_valid_channels_have_no_fault(
    channel: ChannelConfig,
    defaults: DefaultConfig,
    r: Result<(), Vec<ChannelConfigError>>,
)
    requires
        verdict(r, channel_faults(channel, defaults)),
    ensures
        r is Ok <==> forall|e: ChannelConfigError| !#[trigger] explains(channel, defaults, e),
        r matches Err(errors) ==> forall|e: ChannelConfigError| #[trigger]
            errors@.contains(e) <==> explains(channel, defaults, e),
{
    let all = channel_faults(channel, defaults);
    assert forall|e: ChannelConfigError| #[trigger]
        all.contains(e) <==> explains(channel, defaults, e) by {
        law_faults_are_explained(channel, defaults, e);
    }
    if all.len() > 0 {
        law_faults_are_explained(channel, defaults, all[0]);
        assert(all.contains(all[0]));
    }
    if r is Ok {
        assert forall|e: ChannelConfigError| !#[trigger] explains(channel, defaults, e) by {
            law_faults_are_explained(channel, defaults, e);
        }
    }
}

/// A valid multicast channel names a group that is not blank.
pub proof fn law_valid_multicast_channels_name_a_group(
    channel: ChannelConfig,
    defaults: DefaultConfig,
    r: Result<(), Vec<ChannelConfigError>>,
)
    requires
        verdict(r, channel_faults(channel, defaults)),
        r is Ok,
        channel.interface matches InterfaceConfig::Udp(udp) && udp.mode is Multicast,
    ensures
        ({
            let group = channel.interface->Udp_0.multicast_group;
            group is Some && exists|i: int|
                0 <= i < group->0@.len() && !white_char(#[trigger] group->0@[i])
        }),
{
    law_valid_channels_have_no_fault(channel, defaults, r);
    assert(!explains(channel, defaults, ChannelConfigError::MissingMulticastGroup));
}

/// There is one report for each rule that looks for no bytes.
pub proof fn law_every_empty_pattern_is_reported(channel: ChannelConfig)
    ensures
        rule_faults(channel.match_rules@).len() == channel.match_rules@.filter(
            |r: MatchRule| looks_for_nothing(r),
        ).len(),
{
    lemma_rule_faults(channel.match_rules@);
}

/// In a profile a channel has its own faults, and one more exactly where another channel
/// has its name, the case of ASCII letters apart.
pub proof fn law_names_are_unique_in_a_profile(profile: Profile, i: int, e: ChannelConfigError)
    requires
        0 <= i < profile.channels@.len(),
    ensures
        profile_faults(profile, i).contains(e) <==> explains(
            profile.channels@[i],
            profile.defaults,
            e,
        ) || (e is DuplicateChannelName && exists|j: int|
            0 <= j < profile.channels@.len() && j != i && alike(
                (#[trigger] profile.channels@[j]).name@,
                profile.channels@[i].name@,
            )),
{
    let channels = profile.channels@;
    law_faults_are_explained(channels[i], profile.defaults, e);
    let own = channel_faults(channels[i], profile.defaults);
    assert forall|j: int| 0 <= j < channels.len() implies (alike(
        (#[trigger] channels[j]).name@,
        channels[i].name@,
    ) <==> crate::text::lowered(channels[j].name@) == crate::text::lowered(channels[i].name@)) by {
        law_lowered_forgets_case_only(channels[j].name@, channels[i].name@);
    }
    if duplicated(channels, i) {
        lemma_pushed(own, ChannelConfigError::DuplicateChannelName, e);
    }
}

proof fn lemma_pushed(s: Seq<ChannelConfigError>, last: ChannelConfigError, e: ChannelConfigError)
    ensures
        s.push(last).contains(e) <==> s.contains(e) || e == last,
{
    let t = s.push(last);
    assert(t[s.len() as int] == last);
    if s.contains(e) {
        let i = choose|i: int| 0 <= i < s.len() && s[i] == e;
        assert(t[i] == e);
    }
}

/// Two names differ in the case of ASCII letters at most.
pub open spec fn alike(a: Seq<char>, b: Seq<char>) -> bool {
    a.len() == b.len() && forall|i: int| 0 <= i < a.len() ==> same_letter(#[trigger] a[i], b[i])
}

/// The channels that validate are those without a fault, each of them, in their order.
pub proof fn law_valid_channels_are_kept_in_order(profile: Profile, n: int) -> (kept: Seq<int>)
    requires
        0 <= n <= profile.channels@.len(),
    ensures
        valid_models(profile, n).len() == kept.len(),
        forall|k: int|
            0 <= k < kept.len() ==> 0 <= #[trigger] kept[k] < n && profile_faults(
                profile,
                kept[k],
            ).len() == 0 && valid_models(profile, n)[k] == profile.channels@[kept[k]]@,
        forall|j: int, k: int| 0 <= j < k < kept.len() ==> #[trigger] kept[j] < #[trigger] kept[k],
        forall|i: int|
            0 <= i < n && (#[trigger] profile_faults(profile, i)).len() == 0 ==> kept.contains(i),
    decreases n,
{
    if n == 0 {
        Seq::empty()
    } else {
        let front = law_valid_channels_are_kept_in_order(profile, n - 1);
        if profile_faults(profile, n - 1).len() == 0 {
            let kept = front.push(n - 1);
            assert(kept[front.len() as int] == n - 1);
            assert forall|i: int|
                0 <= i < n && (#[trigger] profile_faults(profile, i)).len() == 0 implies
                kept.contains(i) by {
                if i < n - 1 {
                    assert(front.contains(i));
                    let k = choose|k: int| 0 <= k < front.len() && front[k] == i;
                    assert(kept[k] == i);
                }
            }
            kept
        } else {
            front
        }
    }
}

/// The bits of a double that is no number: the largest exponent, and a fraction.
pub open spec fn no_number(bits: u64) -> bool {
    bits / 0x10_0000_0000_0000 % 2048 == 2047 && bits % 0x10_0000_0000_0000 != 0
}

/// The bits of either zero.
pub open spec fn is_zero(bits: u64) -> bool {
    bits == 0 || bits == 0x8000_0000_0000_0000
}

/// Doubles are equal where their bits are, or where both are zero; what is no number
/// equals nothing.
pub proof fn law_doubles_compare_as_numbers(a: u64, b: u64)
    ensures
        same_double(a, b) <==> !no_number(a) && !no_number(b) && (a == b || (is_zero(a)
            && is_zero(b))),
{
    lemma_no_number(a);
    lemma_no_number(b);
}

proof fn lemma_no_number(a: u64)
    ensures
        no_number(a) <==> crate::model::float::double_is_nan(a),
        is_zero(a) <==> a % 0x8000_0000_0000_0000 == 0,
{
    assert((a / 0x10_0000_0000_0000 % 2048 == 2047 && a % 0x10_0000_0000_0000 != 0) <==> (a
        % 0x8000_0000_0000_0000 > 0x7FF0_0000_0000_0000)) by (bit_vector);
    assert((a == 0 || a == 0x8000_0000_0000_0000) <==> a % 0x8000_0000_0000_0000 == 0)
        by (bit_vector);
}

/// Singles are equal where their bits are, or where both are zero; what is no number
/// equals nothing.
pub proof fn law_singles_compare_as_numbers(a: u32, b: u32)
    ensures
        same_single(a, b) <==> !(a / 0x80_0000 % 256 == 255 && a % 0x80_0000 != 0) && !(b
            / 0x80_0000 % 256 == 255 && b % 0x80_0000 != 0) && (a == b || ((a == 0 || a
            == 0x8000_0000) && (b == 0 || b == 0x8000_0000))),
{
    lemma_no_single(a);
    lemma_no_single(b);
}

proof fn lemma_no_single(a: u32)
    ensures
        (a / 0x80_0000 % 256 == 255 && a % 0x80_0000 != 0)
            <==> crate::model::float::single_is_nan(a),
        (a == 0 || a == 0x8000_0000) <==> a % 0x8000_0000 == 0,
{
    assert((a / 0x80_0000 % 256 == 255 && a % 0x80_0000 != 0) <==> (a % 0x8000_0000
        > 0x7F80_0000)) by (bit_vector);
    assert((a == 0 || a == 0x8000_0000) <==> a % 0x8000_0000 == 0) by (bit_vector);
}

/// A draft that differs from the committed configuration in its identity, kind, interface,
/// match rules or reconnect policy takes a restart, whatever else it holds.
pub proof fn law_other_edits_need_a_restart(draft: ChannelConfigModel, committed: ChannelConfigModel)
    requires
        draft.id != committed.id || draft.kind != committed.kind || draft.interface
            != committed.interface || draft.match_rules != committed.match_rules
            || draft.reconnect.enabled != committed.reconnect.enabled
            || draft.reconnect.initial_backoff_ms != committed.reconnect.initial_backoff_ms
            || draft.reconnect.max_backoff_ms != committed.reconnect.max_backoff_ms
            || draft.reconnect.max_attempts != committed.reconnect.max_attempts || !same_double(
            draft.reconnect.multiplier.bits,
            committed.reconnect.multiplier.bits,
        ),
    ensures
        !equal_configs(without_live_fields(draft, committed), committed),
{
}

/// A draft that agrees with the committed configuration in these takes no restart,
/// whatever its name, recordings, display and retention are.
pub proof fn law_only_other_edits_need_a_restart(
    draft: ChannelConfigModel,
    committed: ChannelConfigModel,
)
    requires
        equal_displays(committed.display, committed.display),
        draft.id == committed.id,
        draft.kind == committed.kind,
        draft.interface == committed.interface,
        draft.match_rules == committed.match_rules,
        draft.reconnect == committed.reconnect,
        !no_number(draft.reconnect.multiplier.bits),
    ensures
        equal_configs(without_live_fields(draft, committed), committed),
{
    law_doubles_compare_as_numbers(
        draft.reconnect.multiplier.bits,
        draft.reconnect.multiplier.bits,
    );
    assert(without_live_fields(draft, committed) == committed);
}

/// Two configurations whose font sizes and factors are numbers are equal exactly where all
/// of their parts are, the font sizes and factors as numbers.
pub proof fn law_equal_configurations_agree_in_everything(
    a: ChannelConfigModel,
    b: ChannelConfigModel,
)
    ensures
        equal_configs(a, b) ==> {
            &&& a.id == b.id
            &&& a.name == b.name
            &&& a.kind == b.kind
            &&& a.interface == b.interface
            &&& a.raw_recording == b.raw_recording
            &&& a.display_recording == b.display_recording
            &&& a.retention == b.retention
            &&& a.match_rules == b.match_rules
            &&& a.reconnect.enabled == b.reconnect.enabled
            &&& a.reconnect.initial_backoff_ms == b.reconnect.initial_backoff_ms
            &&& a.reconnect.max_backoff_ms == b.reconnect.max_backoff_ms
            &&& a.reconnect.max_attempts == b.reconnect.max_attempts
            &&& a.display.views.len() == b.display.views.len()
            &&& forall|i: int|
                0 <= i < a.display.views.len() ==> {
                    let v = #[trigger] a.display.views[i];
                    let w = b.display.views[i];
                    &&& v.mode == w.mode
                    &&& v.encoding == w.encoding
                    &&& v.character_rendering == w.character_rendering
                    &&& v.font == w.font
                    &&& v.foreground_color == w.foreground_color
                    &&& v.background_color == w.background_color
                    &&& v.wrapping == w.wrapping
                    &&& v.font_size is Some <==> w.font_size is Some
                    &&& v.font_size is Some ==> same_single(
                        v.font_size->0.bits,
                        w.font_size->0.bits,
                    )
                }
        },
{
    if equal_configs(a, b) {
        assert forall|i: int| 0 <= i < a.display.views.len() implies {
            let v = #[trigger] a.display.views[i];
            let w = b.display.views[i];
            &&& v.mode == w.mode
            &&& v.encoding == w.encoding
            &&& v.character_rendering == w.character_rendering
            &&& v.font == w.font
            &&& v.foreground_color == w.foreground_color
            &&& v.background_color == w.background_color
            &&& v.wrapping == w.wrapping
            &&& v.font_size is Some <==> w.font_size is Some
            &&& v.font_size is Some ==> same_single(v.font_size->0.bits, w.font_size->0.bits)
        } by {
            assert(equal_views(a.display.views[i], b.display.views[i]));
        }
    }
}

/// What a configuration says holds every field of it.
pub proof fn law_configurations_say_every_field(c: ChannelConfig)
    ensures
        c@.id == c.id,
        c@.name == c.name@,
        c@.kind == c.kind,
        c@.interface == c.interface@,
        c@.display.views.len() == c.display.views@.len(),
        forall|i: int|
            0 <= i < c.display.views@.len() ==> #[trigger] c@.display.views[i]
                == c.display.views@[i]@,
        c@.raw_recording == c.raw_recording@,
        c@.display_recording == c.display_recording@,
        c@.retention == c.retention,
        c@.reconnect == c.reconnect,
        c@.match_rules.len() == c.match_rules@.len(),
        forall|i: int|
            0 <= i < c.match_rules@.len() ==> #[trigger] c@.match_rules[i] == c.match_rules@[i]@,
{
}

/// What an interface says holds every field of it.
pub proof fn law_interfaces_say_every_field(i: InterfaceConfig)
    ensures
        i matches InterfaceConfig::Serial(s) ==> i@ == InterfaceConfigModel::Serial(s@) && s@.port
            == s.port@ && s@.baud_rate == s.baud_rate && s@.data_bits == s.data_bits && s@.parity
            == s.parity && s@.stop_bits == s.stop_bits && s@.flow_control == s.flow_control
            && s@.rts == s.rts && s@.dtr == s.dtr,
        i matches InterfaceConfig::Udp(u) ==> i@ == InterfaceConfigModel::Udp(u@) && u@.bind_address
            == u.bind_address@ && u@.port == u.port && u@.mode == u.mode && (u@.multicast_group is Some
            <==> u.multicast_group is Some) && (u.multicast_group is Some ==> u@.multicast_group->0
            == u.multicast_group->0@) && (u@.multicast_interface is Some
            <==> u.multicast_interface is Some) && (u.multicast_interface is Some
            ==> u@.multicast_interface->0 == u.multicast_interface->0@) && u@.recv_buffer_bytes
            == u.recv_buffer_bytes && u@.kernel_timestamps == u.kernel_timestamps,
        i matches InterfaceConfig::TcpListener(t) ==> i@ == InterfaceConfigModel::TcpListener(t@)
            && t@.bind_address == t.bind_address@ && t@.port == t.port && t@.max_connections
            == t.max_connections && t@.recv_buffer_bytes == t.recv_buffer_bytes,
{
}

/// What a recording and a view say holds every field of them.
pub proof fn law_recordings_and_views_say_every_field(r: RecordingConfig, v: DisplayViewConfig)
    ensures
        r@.enabled == r.enabled,
        r@.destination is Some <==> r.destination is Some,
        r.destination is Some ==> r@.destination->0 == r.destination->0@,
        r@.timestamp_enabled == r.timestamp_enabled,
        r@.overwrite_policy == r.overwrite_policy,
        r@.file_rotation == r.file_rotation,
        r@.disk_guard == r.disk_guard,
        v@.mode == v.mode,
        v@.encoding == v.encoding,
        v@.character_rendering == v.character_rendering,
        v@.font is Some <==> v.font is Some,
        v.font is Some ==> v@.font->0 == v.font->0@,
        v@.font_size == v.font_size,
        v@.foreground_color is Some <==> v.foreground_color is Some,
        v.foreground_color is Some ==> v@.foreground_color->0 == v.foreground_color->0@,
        v@.background_color is Some <==> v.background_color is Some,
        v.background_color is Some ==> v@.background_color->0 == v.background_color->0@,
        v@.wrapping == v.wrapping,
{
}

/// What a match rule says holds every field of it.
pub proof fn law_match_rules_say_every_field(r: MatchRule, a: MatchAction, t: MarkTimestamp)
    ensures
        r@.name == r.name@,
        r@.enabled == r.enabled,
        r@.actions.len() == r.actions@.len(),
        forall|i: int| 0 <= i < r.actions@.len() ==> #[trigger] r@.actions[i] == r.actions@[i]@,
        r.condition matches MatchCondition::BytePattern { pattern } ==> r@.condition is BytePattern
            && r@.condition->pattern == pattern@,
        r.condition matches MatchCondition::Idle { timeout_ms } ==> r@.condition is Idle
            && r@.condition->timeout_ms == timeout_ms,
        a matches MatchAction::Record { target, control } ==> a@ is Record && a@->target == target
            && a@->control == control,
        a matches MatchAction::Notify { severity } ==> a@ is Notify && a@->severity == severity,
        a matches MatchAction::PauseDisplay { view } ==> a@ is PauseDisplay && a@->view == view,
        a matches MatchAction::Highlight { style } ==> a@ is Highlight && a@->style == style@,
        a matches MatchAction::Mark { timestamp } ==> a@ is Mark && (a@->timestamp is Some
            <==> timestamp is Some) && (timestamp is Some ==> a@->timestamp->0 == timestamp->0@),
        t@.position == t.position,
        t@.style == t.style@,
        t@.format == t.format,
        t@.separator == t.separator@,
{
}

/// Under a rotation a refusal becomes an append, and nothing else changes.
pub proof fn law_rotation_turns_refusals_into_appends(
    policy: OverwritePolicy,
    rotation: FileRotationPolicy,
)
    ensures
        overwrite_under(policy, FileRotationPolicy::NoRotation) == policy,
        policy is Refuse && (rotation is Hourly || rotation is Daily) ==> overwrite_under(
            policy,
            rotation,
        ) is AppendIfExists,
        !(policy is Refuse) ==> overwrite_under(policy, rotation) == policy,
{
}

/// A channel stops running by stopping or by a fault, and begins to stop only while it
/// runs.
pub proof fn law_channels_stop_through_stopping(state: ChannelState)
    ensures
        state.successors().contains(ChannelState::Stopping) <==> state is Running,
        forall|next: ChannelState| #[trigger]
            ChannelState::Stopping.successors().contains(next) <==> next is Stopped,
        forall|next: ChannelState| #[trigger]
            ChannelState::Faulted.successors().contains(next) <==> next is Stopped,
{
}

} // verus!
