//! What is kept of a channel while it runs, and what its rows show.

use vstd::prelude::*;
use vstd::string::*;
use vstd::utf8::*;

use crate::config::schema::{
    ChannelConfigModel, MarkTimestampStyleModel, MatchCondition, MatchRule, MatchRuleModel,
    RecordingConfigModel,
};
use crate::display::render::DisplayView;
use crate::gui::app::{keep_recording, reconfigured, tap_recording, with_recording, Session};
use crate::gui::bridge::UiCommandModel;
use crate::gui::detail::is_stream_view;
use crate::gui::details::is_idle_rule;
use crate::gui::escape::{law_escape_round_trip, no_literal_escape, unescaped};
use crate::gui::mark_rules::{shows_rule, stamp_of, MarkRow};
use crate::gui::panes::{shows_channel, ChannelRow};
use crate::gui::state::{bumped, ViewModel};
use crate::gui::view_prefs::{equal_settings, Settings};
use crate::model::command::RecordingTap;
use crate::model::float::same_single;
use crate::model::ids::ChannelId;

verus! {

/// A recording is kept under its tap: the other one and all else of the configuration
/// stay, and the command names the tap that was changed.
pub proof fn law_recordings_are_kept_under_their_tap(
    c: ChannelConfigModel,
    rec: RecordingConfigModel,
    id: ChannelId,
)
    ensures
        with_recording(c, RecordingTap::Raw, rec) == (ChannelConfigModel { raw_recording: rec, ..c }),
        with_recording(c, RecordingTap::Display, rec) == (ChannelConfigModel {
            display_recording: rec,
            ..c
        }),
        tap_recording(c, RecordingTap::Raw) == c.raw_recording,
        tap_recording(c, RecordingTap::Display) == c.display_recording,
        keep_recording(id, RecordingTap::Raw, rec) == UiCommandModel::SetRawRecordingConfig(id, rec),
        keep_recording(id, RecordingTap::Display, rec)
            == UiCommandModel::SetDisplayRecordingConfig(id, rec),
        RecordingTap::Raw.label_spec() != RecordingTap::Display.label_spec(),
{
    reveal_strlit("Raw");
    reveal_strlit("Display");
    assert("Raw"@.len() == 3 && "Display"@.len() == 7);
}

/// A configuration that is kept is that of its channel: no other channel changes, and of
/// that one nothing else.
pub proof fn law_kept_configurations_are_their_channels(
    s: Session,
    id: ChannelId,
    config: ChannelConfigModel,
    i: int,
)
    requires
        0 <= i < s.app.views.len(),
    ensures
        ({
            let t = reconfigured(s, id, config);
            &&& t.app.views.len() == s.app.views.len()
            &&& s.app.views[i].id != id ==> t.app.views[i] == s.app.views[i]
            &&& s.app.views[i].id == id ==> t.app.views[i] == (ViewModel {
                config,
                ..s.app.views[i]
            })
            &&& t.app.status == s.app.status && t.selected == s.selected && t.draft == s.draft
                && t.force_open == s.force_open
        }),
{
}

/// A row of the list shows its channel in every column.
pub proof fn law_rows_show_their_channel(row: ChannelRow, v: ViewModel)
    requires
        shows_channel(row, v),
    ensures
        row.id == v.id && row.name@ == v.name && row.details@ == v.details && row.status
            == v.status,
        row.bytes_total == v.bytes_total && row.bytes_per_sec == v.bytes_per_sec,
        row.info == v.info && row.warnings == v.warnings && row.errors == v.errors,
{
}

/// A rule waits for silence where it is enabled and has a timeout for its condition.
pub proof fn law_idle_rules_have_a_timeout(rule: MatchRule)
    ensures
        rule.condition matches MatchCondition::Idle { timeout_ms: _ } ==> (is_idle_rule(rule)
            <==> rule.enabled),
        rule.condition is BytePattern ==> !is_idle_rule(rule),
{
}

/// A row of the mark editor shows its rule: its pattern can be read back, an empty one is
/// pointed out, and a talker stands there exactly with the style that has one.
pub proof fn law_mark_rows_show_their_rule(row: MarkRow, index: int, rule: MatchRuleModel)
    requires
        shows_rule(row, index, rule),
    ensures
        row.index == index && row.enabled == rule.enabled,
        row.empty <==> rule.condition->pattern.len() == 0,
        no_literal_escape(rule.condition->pattern) ==> unescaped(encode_utf8(row.pattern@))
            == rule.condition->pattern,
        row.talker is Some <==> stamp_of(rule).style is NmeaZda,
        stamp_of(rule).style matches MarkTimestampStyleModel::NmeaZda { talker } ==> row.talker->0@
            == talker,
        row.talker_fault is Some ==> row.talker is Some,
        row.format == stamp_of(rule).format,
        stamp_of(rule).position is Before ==> row.position@ == "before"@,
        stamp_of(rule).position is After ==> row.position@ == "after"@,
{
    if no_literal_escape(rule.condition->pattern) {
        law_escape_round_trip(rule.condition->pattern);
    }
}

/// Settings are equal where all of them agree, sizes as numbers.
pub proof fn law_equal_settings_agree_in_everything(a: Settings, b: Settings)
    ensures
        equal_settings(a, b) ==> a.mode == b.mode && a.chars == b.chars && a.mono == b.mono
            && a.colors == b.colors && a.scroll_buffer_bytes == b.scroll_buffer_bytes
            && same_single(a.font_size.bits, b.font_size.bits),
        a == b && same_single(a.font_size.bits, a.font_size.bits)
            ==> equal_settings(a, b),
{
}

/// The stream view shows the bytes in the mode and the characters that are set, wraps
/// nothing of its own, and separates the bytes of a dump by a blank.
pub proof fn law_stream_views_follow_the_settings(v: DisplayView, s: Settings)
    requires
        is_stream_view(v, s),
    ensures
        v.mode == s.mode && v.character_rendering == s.chars,
        v.encoding is Utf8,
        v.wrapping is NoWrap && v.wrap_width is None,
        v.hex_separator@ == seq![' '],
{
    reveal_strlit(" ");
    assert(" "@ =~= seq![' ']);
}

/// The version of the marks moves exactly where they have changed.
pub proof fn law_versions_move_with_changes(version: u64, changed: bool)
    ensures
        bumped(version, changed) != version <==> changed,
        changed && version < 0xFFFF_FFFF_FFFF_FFFF ==> bumped(version, changed) == version + 1,
{
}

} // verus!
