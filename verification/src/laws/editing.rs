//! What an edit changes, and what it leaves.

use vstd::prelude::*;
use vstd::string::*;
use vstd::utf8::*;

use crate::config::schema::{
    ChannelConfigModel, InterfaceConfigModel, MarkTimestampStyleModel, MatchConditionModel,
    MatchRuleModel, RecordingConfigModel, SerialConfigModel, TcpListenerConfigModel, UdpConfigModel,
};
use crate::gui::detail::{edited_font_text, edited_settings, ViewEdit};
use crate::gui::editors::{
    edited_baud_text, edited_interface, edited_recording, InterfaceEdit, RecordingEdit,
};
use crate::gui::escape::{escape_of, escaped, is_control, unescaped};
use crate::gui::fonts::MonoFont;
use crate::gui::mark_rules::{
    edited_rule, edited_rules, owned, owned_indices, MarkEdit, MarkRulesEdit,
};
use crate::gui::points::{nearest_even, points_text};
use crate::gui::recents::{remembered, without_path};
use crate::gui::view_prefs::{config_with, scroll_limit, settings_of, ColorScheme, Settings};
use crate::laws::decode::says;
use crate::laws::text::{
    all_digits, digits_value, hex_alphabet, law_decimal_reads_back, law_hex_pair_says_the_byte,
    law_numbers_are_read,
};
use crate::text::{trimmed, uppered};
use crate::unicode::replaced_text;

verus! {

/// A typed text says a number: decimal digits behind a plus sign at most, white space
/// around them apart, and not above `max`.
pub open spec fn typed(t: Seq<char>, n: nat, max: nat) -> bool {
    let inner = trimmed(t);
    let digits = if inner.len() > 0 && inner[0] == '+' {
        inner.subrange(1, inner.len() as int)
    } else {
        inner
    };
    digits.len() > 0 && all_digits(digits) && digits_value(digits) == n && n <= max
}

/// A port after an edit: a typed port, or one step, within the range of ports.
pub open spec fn port_follows(before: u16, edit: InterfaceEdit, after: u16) -> bool {
    match edit {
        InterfaceEdit::PortText(t) => if exists|n: nat| typed(t@, n, 65_535) {
            typed(t@, after as nat, 65_535)
        } else {
            after == before
        },
        InterfaceEdit::PortUp => after == before + 1 || (before == 65_535 && after == before),
        InterfaceEdit::PortDown => after == before - 1 || (before == 0 && after == before),
        _ => after == before,
    }
}

proof fn lemma_typed(t: Seq<char>, max: nat)
    ensures
        match crate::text::unsigned_of(trimmed(t), max) {
            Some(n) => typed(t, n, max),
            None => forall|n: nat| !typed(t, n, max),
        },
{
    law_numbers_are_read(trimmed(t), max);
}

/// An edit of a UDP interface changes what it names and nothing else; the group only while
/// the mode is multicast, and blank text removes it.
pub proof fn law_udp_edits_change_what_they_name(u: UdpConfigModel, edit: InterfaceEdit)
    ensures
        edited_interface(InterfaceConfigModel::Udp(u), edit) is Udp,
        ({
            let w = edited_interface(InterfaceConfigModel::Udp(u), edit)->Udp_0;
            &&& port_follows(u.port, edit, w.port)
            &&& w.mode == if edit is Mode {
                edit->Mode_0
            } else {
                u.mode
            }
            &&& w.bind_address == if edit is BindAddress {
                edit->BindAddress_0@
            } else {
                u.bind_address
            }
            &&& w.kernel_timestamps == if edit is KernelTimestamps {
                edit->KernelTimestamps_0
            } else {
                u.kernel_timestamps
            }
            &&& !(edit is Group && u.mode is Multicast) ==> w.multicast_group == u.multicast_group
            &&& edit is Group && u.mode is Multicast ==> {
                let t = trimmed(edit->Group_0@);
                &&& t.len() == 0 ==> w.multicast_group is None
                &&& t.len() > 0 ==> w.multicast_group == Some(t)
            }
            &&& w.multicast_interface == u.multicast_interface
            &&& w.recv_buffer_bytes == u.recv_buffer_bytes
        }),
{
    if let InterfaceEdit::PortText(t) = edit {
        lemma_typed(t@, 65_535);
    }
}

/// An edit of a TCP or serial interface changes what it names and nothing else.
pub proof fn law_tcp_and_serial_edits_change_what_they_name(
    t: TcpListenerConfigModel,
    s: SerialConfigModel,
    edit: InterfaceEdit,
)
    ensures
        edited_interface(InterfaceConfigModel::TcpListener(t), edit) is TcpListener,
        ({
            let w = edited_interface(InterfaceConfigModel::TcpListener(t), edit)->TcpListener_0;
            &&& port_follows(t.port, edit, w.port)
            &&& w.bind_address == if edit is BindAddress {
                edit->BindAddress_0@
            } else {
                t.bind_address
            }
            &&& w.max_connections == t.max_connections
            &&& w.recv_buffer_bytes == t.recv_buffer_bytes
        }),
        edited_interface(InterfaceConfigModel::Serial(s), edit) is Serial,
        ({
            let w = edited_interface(InterfaceConfigModel::Serial(s), edit)->Serial_0;
            &&& w.port == if edit is Device {
                edit->Device_0@
            } else {
                s.port
            }
            &&& edit is Baud ==> w.baud_rate == edit->Baud_0
            &&& edit is BaudText ==> if exists|n: nat|
                typed(edit->BaudText_0@, n, 4_294_967_295) && n > 0 {
                typed(edit->BaudText_0@, w.baud_rate as nat, 4_294_967_295)
            } else {
                w.baud_rate == s.baud_rate
            }
            &&& !(edit is Baud) && !(edit is BaudText) ==> w.baud_rate == s.baud_rate
            &&& w.data_bits == if edit is DataBits {
                edit->DataBits_0
            } else {
                s.data_bits
            }
            &&& w.parity == if edit is Parity {
                edit->Parity_0
            } else {
                s.parity
            }
            &&& w.stop_bits == if edit is StopBits {
                edit->StopBits_0
            } else {
                s.stop_bits
            }
            &&& w.flow_control == if edit is Flow {
                edit->Flow_0
            } else {
                s.flow_control
            }
            &&& w.rts == s.rts
            &&& w.dtr == s.dtr
        }),
{
    if let InterfaceEdit::PortText(t) = edit {
        lemma_typed(t@, 65_535);
    }
    if let InterfaceEdit::BaudText(t) = edit {
        lemma_typed(t@, 4_294_967_295);
    }
}

/// The field for a custom baud rate shows what was typed, or a picked rate that is new.
pub proof fn law_baud_field_shows_what_was_typed(
    text: Seq<char>,
    s: SerialConfigModel,
    edit: InterfaceEdit,
)
    ensures
        ({
            let after = edited_baud_text(text, InterfaceConfigModel::Serial(s), edit);
            &&& edit is BaudText ==> after == edit->BaudText_0@
            &&& edit is Baud && edit->Baud_0 != s.baud_rate ==> all_digits(after) && digits_value(
                after,
            ) == edit->Baud_0
            &&& edit is Baud && edit->Baud_0 == s.baud_rate ==> after == text
            &&& !(edit is Baud) && !(edit is BaudText) ==> after == text
        }),
{
    if let InterfaceEdit::Baud(b) = edit {
        law_decimal_reads_back(b as nat);
    }
}

/// An edit of a recording changes what it names. While it rotates, a refusal is an append;
/// whether it records, its timestamps and its guard stay.
pub proof fn law_recording_edits_change_what_they_name(rec: RecordingConfigModel, edit: RecordingEdit)
    ensures
        ({
            let w = edited_recording(rec, edit);
            let rotating = rec.file_rotation is Hourly || rec.file_rotation is Daily;
            let settled = if rotating && rec.overwrite_policy is Refuse {
                crate::config::schema::OverwritePolicy::AppendIfExists
            } else {
                rec.overwrite_policy
            };
            &&& edit is DestinationText && trimmed(edit->DestinationText_0@).len() == 0
                ==> w.destination is None
            &&& edit is DestinationText && trimmed(edit->DestinationText_0@).len() > 0
                ==> w.destination == Some(trimmed(edit->DestinationText_0@))
            &&& edit is Picked ==> w.destination == Some(edit->Picked_0@)
            &&& !(edit is DestinationText) && !(edit is Picked) ==> w.destination
                == rec.destination
            &&& edit is Overwrite && !(edit->Overwrite_0 is Refuse && rotating)
                ==> w.overwrite_policy == edit->Overwrite_0
            &&& edit is Overwrite && edit->Overwrite_0 is Refuse && rotating ==> w.overwrite_policy
                == settled
            &&& !(edit is Overwrite) ==> w.overwrite_policy == settled
            &&& w.file_rotation == if edit is Rotation {
                edit->Rotation_0
            } else {
                rec.file_rotation
            }
            &&& w.enabled == rec.enabled
            &&& w.timestamp_enabled == rec.timestamp_enabled
            &&& w.disk_guard == rec.disk_guard
        }),
{
}

/// An edit of a timestamp mark changes what it names: the pattern, whether it is enabled,
/// or one part of its timestamp. A mark that becomes a sentence has the talker `GP`, and
/// a typed talker is in upper case.
pub proof fn law_mark_edits_change_what_they_name(rule: MatchRuleModel, edit: MarkEdit)
    requires
        owned(rule),
    ensures
        ({
            let w = edited_rule(rule, edit);
            let a = rule.actions[0]->timestamp->0;
            let b = w.actions[0]->timestamp->0;
            &&& w.name == rule.name
            &&& w.enabled == if edit is Enabled {
                edit->Enabled_0
            } else {
                rule.enabled
            }
            &&& edit is Pattern ==> w.condition == MatchConditionModel::BytePattern {
                pattern: unescaped(encode_utf8(edit->Pattern_0@)),
            }
            &&& !(edit is Pattern) ==> w.condition == rule.condition
            &&& w.actions.len() == 1 && w.actions[0] is Mark && w.actions[0]->timestamp is Some
            &&& b.position == if edit is Position {
                edit->Position_0
            } else {
                a.position
            }
            &&& b.format.include_date == if edit is IncludeDate {
                edit->IncludeDate_0
            } else {
                a.format.include_date
            }
            &&& b.format.include_millis == if edit is IncludeMillis {
                edit->IncludeMillis_0
            } else {
                a.format.include_millis
            }
            &&& b.format.include_timezone == if edit is IncludeTimezone {
                edit->IncludeTimezone_0
            } else {
                a.format.include_timezone
            }
            &&& edit is Separator ==> b.separator == replaced_text(
                unescaped(encode_utf8(edit->Separator_0@)),
            )
            &&& !(edit is Separator) ==> b.separator == a.separator
            &&& edit is Zda && edit->Zda_0 && a.style is Plain ==> b.style
                == MarkTimestampStyleModel::NmeaZda { talker: seq!['G', 'P'] }
            &&& edit is Zda && edit->Zda_0 && a.style is NmeaZda ==> b.style == a.style
            &&& edit is Zda && !edit->Zda_0 ==> b.style is Plain
            &&& edit is Talker && a.style is NmeaZda ==> b.style
                == MarkTimestampStyleModel::NmeaZda { talker: uppered(edit->Talker_0@) }
            &&& edit is Talker && a.style is Plain ==> b.style is Plain
            &&& !(edit is Zda) && !(edit is Talker) ==> b.style == a.style
        }),
{
    reveal_strlit("GP");
    assert("GP"@ =~= seq!['G', 'P']);
}

/// Which rules the editor works on: those with a byte pattern and a mark with a timestamp
/// as their only action.
pub proof fn law_the_editor_owns_timestamp_marks(rule: MatchRuleModel)
    ensures
        owned(rule) <==> rule.condition is BytePattern && rule.actions.len() == 1
            && rule.actions[0] is Mark && rule.actions[0]->timestamp is Some,
{
}

/// Editing the rules of a channel changes or deletes the one that is named, or appends one;
/// every other rule stays as it is, in its order.
pub proof fn law_rule_edits_leave_the_others(rules: Seq<MatchRuleModel>, edit: MarkRulesEdit)
    ensures
        ({
            let after = edited_rules(rules, edit);
            &&& edit matches MarkRulesEdit::Change(i, e) ==> {
                &&& after.len() == rules.len()
                &&& forall|k: int| 0 <= k < rules.len() && k != i ==> #[trigger] after[k] == rules[k]
                &&& i < rules.len() && !owned(rules[i as int]) ==> after[i as int] == rules[i as int]
                &&& i < rules.len() && owned(rules[i as int]) ==> after[i as int] == edited_rule(
                    rules[i as int],
                    e,
                )
            }
            &&& edit matches MarkRulesEdit::Delete(i) ==> if i < rules.len() && owned(
                rules[i as int],
            ) {
                &&& after.len() == rules.len() - 1
                &&& forall|k: int| 0 <= k < i ==> #[trigger] after[k] == rules[k]
                &&& forall|k: int| i <= k < after.len() ==> #[trigger] after[k] == rules[k + 1]
            } else {
                after == rules
            }
            &&& edit is AddMark ==> {
                let n = rules.len() as int;
                let new = after[n];
                let stamp = new.actions[0]->timestamp->0;
                &&& after.len() == n + 1
                &&& forall|k: int| 0 <= k < n ==> #[trigger] after[k] == rules[k]
                &&& owned(new) && new.enabled
                &&& new.condition == MatchConditionModel::BytePattern { pattern: Seq::empty() }
                &&& stamp.position is Before && stamp.style is Plain && stamp.separator.len() == 0
                &&& !stamp.format.include_date && !stamp.format.include_millis
                    && !stamp.format.include_timezone
            }
        }),
{
    if edit is AddMark {
        let after = edited_rules(rules, edit);
        assert(after[rules.len() as int].actions[0] is Mark);
    }
}

/// The editor lists the rules that it owns, each once, in their order.
pub proof fn law_the_editor_lists_what_it_owns(rules: Seq<MatchRuleModel>)
    ensures
        ({
            let shown = owned_indices(rules);
            &&& forall|k: int|
                0 <= k < shown.len() ==> 0 <= #[trigger] shown[k] < rules.len() && owned(
                    rules[shown[k]],
                )
            &&& forall|j: int, k: int|
                0 <= j < k < shown.len() ==> #[trigger] shown[j] < #[trigger] shown[k]
            &&& forall|i: int|
                0 <= i < rules.len() && owned(#[trigger] rules[i]) ==> shown.contains(i)
        }),
    decreases rules.len(),
{
    if rules.len() > 0 {
        let front = rules.drop_last();
        law_the_editor_lists_what_it_owns(front);
        let less = owned_indices(front);
        let shown = owned_indices(rules);
        let n = front.len() as int;
        assert(rules.last() == rules[n]);
        assert forall|k: int| 0 <= k < less.len() implies front[#[trigger] less[k]]
            == rules[less[k]] by {}
        assert forall|i: int| 0 <= i < rules.len() && owned(#[trigger] rules[i]) implies
            shown.contains(i) by {
            if i < n {
                assert(front[i] == rules[i]);
                assert(less.contains(i));
                let k = choose|k: int| 0 <= k < less.len() && less[k] == i;
                assert(shown[k] == i);
            } else {
                assert(shown[less.len() as int] == n);
            }
        }
    }
}

/// In a field an escape says the byte of its two digits, in either case; any byte that
/// begins no escape says itself.
pub proof fn law_escapes_say_their_byte(high: u8, low: u8, h: int, l: int, rest: Seq<u8>)
    requires
        says(high, h),
        says(low, l),
    ensures
        unescaped(seq![60u8, high, low, 62u8] + rest) == seq![(16 * h + l) as u8] + unescaped(rest),
{
    let b = seq![60u8, high, low, 62u8] + rest;
    crate::laws::decode::lemma_says(high, h);
    crate::laws::decode::lemma_says(low, l);
    assert(b.skip(4) =~= rest);
}

/// What is no escape stays as it is.
pub proof fn law_other_bytes_stay(b: Seq<u8>)
    requires
        b.len() > 0,
        b[0] != 60 || b.len() < 4 || b[3] != 62 || (forall|v: int| !says(b[1], v)) || (forall|v: int|
            !says(b[2], v)),
    ensures
        unescaped(b) == seq![b[0]] + unescaped(b.skip(1)),
{
    if b.len() >= 4 {
        crate::laws::decode::lemma_digit_says(b[1]);
        crate::laws::decode::lemma_digit_says(b[2]);
    }
}

/// The scroll buffer is kept between two and 256 kilobytes.
pub proof fn law_scroll_buffers_are_clamped(n: usize)
    ensures
        2_048 <= scroll_limit(n) <= 262_144,
        2_048 <= n <= 262_144 ==> scroll_limit(n) == n,
        n < 2_048 ==> scroll_limit(n) == 2_048,
        n > 262_144 ==> scroll_limit(n) == 262_144,
{
}

/// The settings of a channel are those of its first view, with 13 points where it sets no
/// size, and of its retention; a channel without a view has the defaults.
pub proof fn law_settings_come_from_the_first_view(c: ChannelConfigModel)
    ensures
        ({
            let s = settings_of(c);
            &&& c.retention.byte_limit is None ==> s.scroll_buffer_bytes == 65_536
            &&& c.retention.byte_limit is Some ==> s.scroll_buffer_bytes == scroll_limit(
                c.retention.byte_limit->0,
            )
            &&& c.display.views.len() > 0 ==> {
                let v = c.display.views[0];
                &&& s.mode == v.mode
                &&& s.chars == v.character_rendering
                &&& v.font_size is Some ==> s.font_size == v.font_size->0
                &&& v.font_size is None ==> s.font_size.bits == 0x4150_0000
                &&& s.mono == MonoFont::of_name(v.font)
                &&& s.colors == ColorScheme::of_name(v.foreground_color)
            }
            &&& c.display.views.len() == 0 ==> s.mode is Rendered && s.chars is Glyph
                && s.font_size.bits == 0x4150_0000 && s.mono is Cascadia && s.colors is BlackOnWhite
        }),
{
}

/// Settings that are put into a configuration change its first view and the limit of its
/// retention, and nothing else.
pub proof fn law_settings_change_the_first_view_only(c: ChannelConfigModel, s: Settings)
    ensures
        ({
            let w = config_with(c, s);
            &&& w.id == c.id && w.name == c.name && w.kind == c.kind && w.interface == c.interface
            &&& w.raw_recording == c.raw_recording && w.display_recording == c.display_recording
            &&& w.reconnect == c.reconnect && w.match_rules == c.match_rules
            &&& w.retention.byte_limit == Some(s.scroll_buffer_bytes)
            &&& w.retention.event_limit == c.retention.event_limit
            &&& w.retention.warning_limit == c.retention.warning_limit
            &&& w.retention.error_limit == c.retention.error_limit
            &&& w.display.views.len() == c.display.views.len()
            &&& forall|i: int|
                1 <= i < c.display.views.len() ==> #[trigger] w.display.views[i]
                    == c.display.views[i]
            &&& c.display.views.len() > 0 ==> {
                let v = w.display.views[0];
                let u = c.display.views[0];
                &&& v.mode == s.mode && v.character_rendering == s.chars
                &&& v.font == Some(s.mono.name_spec()) && v.font_size == Some(s.font_size)
                &&& v.foreground_color == Some(s.colors.name_spec())
                &&& v.encoding == u.encoding && v.background_color == u.background_color
                    && v.wrapping == u.wrapping
            }
        }),
{
}

/// An edit of the view settings changes what it names and nothing else; how control
/// characters read can be picked in Raw mode only.
pub proof fn law_view_edits_change_what_they_name(s: Settings, text: Seq<char>, edit: ViewEdit)
    ensures
        ({
            let w = edited_settings(s, edit);
            let t = edited_font_text(text, edit);
            &&& w.mode == if edit is Mode {
                edit->Mode_0
            } else {
                s.mode
            }
            &&& w.chars == if edit is Chars && s.mode is Raw {
                edit->Chars_0
            } else {
                s.chars
            }
            &&& edit is FontPreset ==> w.font_size == edit->FontPreset_0 && t == points_text(
                edit->FontPreset_0,
            )
            &&& edit matches ViewEdit::FontText(typed_text, size) ==> t == typed_text@ && (
            size is Some ==> w.font_size == size->0) && (size is None ==> w.font_size == s.font_size)
            &&& !(edit is FontPreset) && !(edit is FontText) ==> w.font_size == s.font_size && t
                == text
            &&& w.mono == if edit is Mono {
                edit->Mono_0
            } else {
                s.mono
            }
            &&& w.colors == if edit is Colors {
                edit->Colors_0
            } else {
                s.colors
            }
            &&& edit matches ViewEdit::ScrollBuffer(kb) ==> kb * 1024 <= usize::MAX
                ==> w.scroll_buffer_bytes == scroll_limit((kb * 1024) as usize)
            &&& !(edit is ScrollBuffer) ==> w.scroll_buffer_bytes == s.scroll_buffer_bytes
        }),
{
}

/// A fraction is shown as the nearest whole number, and as the even one of two.
pub proof fn law_rounding_is_to_the_nearest_even(m: nat, d: nat)
    requires
        d > 0,
    ensures
        ({
            let r = nearest_even(m, d);
            let error = if r * d >= m {
                r * d - m
            } else {
                m - r * d
            };
            &&& 2 * error <= d
            &&& 2 * error == d ==> r % 2 == 0
        }),
{
    let q = m / d;
    vstd::arithmetic::div_mod::lemma_fundamental_div_mod(m as int, d as int);
    assert(d * q == q * d) by (nonlinear_arith);
    assert((q + 1) * d == q * d + d) by (nonlinear_arith);
}

/// The list of recent profiles begins with the one that was used; the others keep their
/// order, up to eight in all.
pub proof fn law_used_profiles_come_first(recent: Seq<Seq<char>>, path: Seq<char>)
    ensures
        ({
            let after = remembered(recent, path);
            let others = recent.filter(|p: Seq<char>| p != path);
            &&& after.len() == if others.len() + 1 < 8 {
                others.len() + 1
            } else {
                8
            }
            &&& after[0] == path
            &&& forall|i: int| 1 <= i < after.len() ==> #[trigger] after[i] == others[i - 1]
        }),
{
    lemma_others(recent, path);
}

proof fn lemma_others(recent: Seq<Seq<char>>, path: Seq<char>)
    ensures
        without_path(recent, path) == recent.filter(|p: Seq<char>| p != path),
    decreases recent.len(),
{
    reveal(Seq::filter);
    if recent.len() > 0 {
        lemma_others(recent.drop_last(), path);
    } else {
        assert(recent.filter(|p: Seq<char>| p != path) =~= Seq::empty());
    }
}

/// A character that shows: no control character, and not DEL.
pub open spec fn shows(c: char) -> bool {
    c as u32 >= 32 && c as u32 != 127
}

proof fn lemma_shows(c: char)
    ensures
        is_control(c) <==> !shows(c),
        (c as u32) as char == c,
{
}

proof fn lemma_escape_shows(b: u8)
    ensures
        escape_of(b) == seq![
            '<',
            hex_alphabet()[(b / 16) as int],
            hex_alphabet()[(b % 16) as int],
            '>',
        ],
        forall|i: int| 0 <= i < 4 ==> shows(#[trigger] escape_of(b)[i]),
{
    law_hex_pair_says_the_byte(b);
    assert(escape_of(b) =~= seq![
        '<',
        hex_alphabet()[(b / 16) as int],
        hex_alphabet()[(b % 16) as int],
        '>',
    ]);
    let high = (b / 16) as int;
    let low = (b % 16) as int;
    assert forall|d: int| 0 <= d < 16 implies shows(#[trigger] hex_alphabet()[d]) by {}
    assert(shows(hex_alphabet()[high]) && shows(hex_alphabet()[low]));
}

/// In the field of a pattern everything shows: a control character and a byte of no
/// character stand there as their byte, in hexadecimal between angle brackets.
#[verifier::rlimit(40)]
pub proof fn law_patterns_show_everything(b: Seq<u8>)
    ensures
        forall|i: int| 0 <= i < escaped(b).len() ==> shows(#[trigger] escaped(b)[i]),
        b.len() > 0 && (!valid_first_scalar(b) || b[0] < 32 || b[0] == 127) ==> escaped(b).len()
            >= 4 && escaped(b).take(4) == seq![
            '<',
            hex_alphabet()[(b[0] / 16) as int],
            hex_alphabet()[(b[0] % 16) as int],
            '>',
        ],
    decreases b.len(),
{
    let t = escaped(b);
    if b.len() > 0 {
        lemma_escape_shows(b[0]);
        let n = if valid_first_scalar(b) {
            length_of_first_scalar(b)
        } else {
            1
        };
        law_patterns_show_everything(b.skip(n));
        let rest = escaped(b.skip(n));
        if valid_first_scalar(b) {
            let c = decode_first_scalar(b) as char;
            lemma_shows(c);
            lemma_small_scalar(b);
            if !is_control(c) {
                assert(t =~= seq![c] + rest);
                assert forall|i: int| 0 <= i < t.len() implies shows(#[trigger] t[i]) by {
                    if i > 0 {
                        assert(t[i] == rest[i - 1]);
                    }
                }
            }
        }
        if !valid_first_scalar(b) || is_control(decode_first_scalar(b) as char) {
            assert(t =~= escape_of(b[0]) + rest);
            assert(t.take(4) =~= escape_of(b[0]));
            assert forall|i: int| 0 <= i < t.len() implies shows(#[trigger] t[i]) by {
                if i < 4 {
                    assert(t[i] == escape_of(b[0])[i]);
                } else {
                    assert(t[i] == rest[i - 4]);
                }
            }
        }
    }
}

/// A byte below 128 is its character.
proof fn lemma_small_scalar(b: Seq<u8>)
    requires
        valid_first_scalar(b),
    ensures
        b[0] < 128 ==> decode_first_scalar(b) == b[0],
{
    let x = b[0];
    assert(x < 128 ==> (x & 0x7F) == x) by (bit_vector);
}

/// A text in which everything shows stands in the field as it is.
pub proof fn law_plain_patterns_stand_as_they_are(text: Seq<char>)
    requires
        forall|i: int| 0 <= i < text.len() ==> shows(#[trigger] text[i]),
    ensures
        escaped(encode_utf8(text)) == text,
    decreases text.len(),
{
    let b = encode_utf8(text);
    if text.len() > 0 {
        let c = text[0];
        let rest = text.drop_first();
        encode_utf8_first_scalar(text);
        let n = length_of_first_scalar(b);
        assert(b.skip(n) =~= encode_utf8(rest));
        assert forall|i: int| 0 <= i < rest.len() implies shows(#[trigger] rest[i]) by {
            assert(rest[i] == text[i + 1]);
        }
        law_plain_patterns_stand_as_they_are(rest);
        lemma_shows(c);
        assert(b.len() > 0);
        assert(decode_first_scalar(b) as char == c);
        assert(seq![c] + rest =~= text);
    }
}

} // verus!
