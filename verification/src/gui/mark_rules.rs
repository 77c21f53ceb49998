//! The editor for timestamp marks: rules that put a timestamp beside a byte pattern.
//!
//! The editor owns the rules that consist of one byte pattern and one timestamped mark.
//! Every other rule is left as it is.

use vstd::prelude::*;
use vstd::string::*;
use vstd::utf8::*;

use crate::config::schema::{
    match_rules_view, ChannelConfig, ChannelConfigModel, MarkPosition, MarkTimestamp,
    MarkTimestampModel, MarkTimestampStyle, MarkTimestampStyleModel, MatchAction, MatchActionModel,
    MatchCondition, MatchConditionModel, MatchRule, MatchRuleModel,
};
use crate::gui::escape::{escaped, format_escaped_bytes, parse_escaped_bytes, unescaped};
use crate::model::timing::TimestampConfig;
use crate::model::zda::{talker_fault, validate_zda_talker_id};
use crate::text::{decimal, push_decimal, to_upper, uppered};
use crate::unicode::{replaced_text, utf8_lossy};

verus! {

/// A rule of the editor: one byte pattern, and one action, a mark with a timestamp.
pub open spec fn owned(rule: MatchRuleModel) -> bool {
    &&& rule.condition is BytePattern
    &&& rule.actions.len() == 1
    &&& rule.actions[0] is Mark
    &&& rule.actions[0]->timestamp is Some
}

/// The timestamp of a rule of the editor.
pub open spec fn stamp_of(rule: MatchRuleModel) -> MarkTimestampModel {
    rule.actions[0]->timestamp->0
}

/// Whether the editor owns a rule.
pub fn is_mark_timestamp_rule(rule: &MatchRule) -> (r: bool)
    ensures
        r == owned(rule@),
{
    match &rule.condition {
        MatchCondition::Idle { .. } => {
            return false;
        },
        MatchCondition::BytePattern { .. } => {},
    }
    if rule.actions.len() != 1 {
        return false;
    }
    assert(rule@.actions[0] == rule.actions@[0]@);
    match &rule.actions[0] {
        MatchAction::Mark { timestamp: Some(_) } => true,
        _ => false,
    }
}

/// One edit of a rule.
#[derive(Debug)]
pub enum MarkEdit {
    Enabled(bool),
    /// The pattern, as text with escapes.
    Pattern(String),
    Position(MarkPosition),
    /// Whether the mark is an NMEA ZDA sentence instead of the time of day.
    Zda(bool),
    /// The talker of a ZDA sentence.
    Talker(String),
    IncludeDate(bool),
    IncludeMillis(bool),
    IncludeTimezone(bool),
    /// The text behind the timestamp, with escapes.
    Separator(String),
}

/// A timestamp after an edit. A mark that becomes a ZDA sentence gets the talker `GP`; a
/// talker is kept in upper case, and only a sentence has one.
pub open spec fn edited_stamp(ts: MarkTimestampModel, edit: MarkEdit) -> MarkTimestampModel {
    match edit {
        MarkEdit::Enabled(_) => ts,
        MarkEdit::Pattern(_) => ts,
        MarkEdit::Position(p) => MarkTimestampModel { position: p, ..ts },
        MarkEdit::Zda(zda) => MarkTimestampModel {
            style: if zda && ts.style is Plain {
                MarkTimestampStyleModel::NmeaZda { talker: "GP"@ }
            } else if !zda {
                MarkTimestampStyleModel::Plain
            } else {
                ts.style
            },
            ..ts
        },
        MarkEdit::Talker(t) => MarkTimestampModel {
            style: if ts.style is NmeaZda {
                MarkTimestampStyleModel::NmeaZda { talker: uppered(t@) }
            } else {
                ts.style
            },
            ..ts
        },
        MarkEdit::IncludeDate(on) => MarkTimestampModel {
            format: TimestampConfig { include_date: on, ..ts.format },
            ..ts
        },
        MarkEdit::IncludeMillis(on) => MarkTimestampModel {
            format: TimestampConfig { include_millis: on, ..ts.format },
            ..ts
        },
        MarkEdit::IncludeTimezone(on) => MarkTimestampModel {
            format: TimestampConfig { include_timezone: on, ..ts.format },
            ..ts
        },
        MarkEdit::Separator(t) => MarkTimestampModel {
            separator: replaced_text(unescaped(encode_utf8(t@))),
            ..ts
        },
    }
}

/// A rule of the editor after an edit.
pub open spec fn edited_rule(rule: MatchRuleModel, edit: MarkEdit) -> MatchRuleModel {
    MatchRuleModel {
        name: rule.name,
        condition: match edit {
            MarkEdit::Pattern(t) => MatchConditionModel::BytePattern {
                pattern: unescaped(encode_utf8(t@)),
            },
            _ => rule.condition,
        },
        actions: seq![
            MatchActionModel::Mark { timestamp: Some(edited_stamp(stamp_of(rule), edit)) },
        ],
        enabled: match edit {
            MarkEdit::Enabled(on) => on,
            _ => rule.enabled,
        },
    }
}

/// A timestamp after an edit.
fn edit_stamp(ts: &MarkTimestamp, edit: &MarkEdit) -> (r: MarkTimestamp)
    ensures
        r@ == edited_stamp(ts@, *edit),
{
    let mut out = ts.clone();
    match edit {
        MarkEdit::Enabled(_) => {},
        MarkEdit::Pattern(_) => {},
        MarkEdit::Position(p) => {
            out.position = *p;
        },
        MarkEdit::Zda(zda) => {
            let plain: bool = match &ts.style {
                MarkTimestampStyle::Plain => true,
                MarkTimestampStyle::NmeaZda { .. } => false,
            };
            if *zda && plain {
                out.style = MarkTimestampStyle::NmeaZda { talker: "GP".to_owned() };
            } else if !*zda {
                out.style = MarkTimestampStyle::Plain;
            }
        },
        MarkEdit::Talker(t) => {
            let plain: bool = match &ts.style {
                MarkTimestampStyle::Plain => true,
                MarkTimestampStyle::NmeaZda { .. } => false,
            };
            if !plain {
                out.style = MarkTimestampStyle::NmeaZda { talker: to_upper(t.as_str()) };
            }
        },
        MarkEdit::IncludeDate(on) => {
            out.format.include_date = *on;
        },
        MarkEdit::IncludeMillis(on) => {
            out.format.include_millis = *on;
        },
        MarkEdit::IncludeTimezone(on) => {
            out.format.include_timezone = *on;
        },
        MarkEdit::Separator(t) => {
            let bytes: Vec<u8> = parse_escaped_bytes(t.as_str());
            out.separator = utf8_lossy(bytes.as_slice());
        },
    }
    out
}

/// A rule of the editor after an edit.
fn edit_rule(rule: &MatchRule, edit: &MarkEdit) -> (r: MatchRule)
    requires
        owned(rule@),
    ensures
        r@ == edited_rule(rule@, *edit),
{
    let mut out = rule.clone();
    match edit {
        MarkEdit::Pattern(t) => {
            out.condition = MatchCondition::BytePattern { pattern: parse_escaped_bytes(t.as_str()) };
        },
        MarkEdit::Enabled(on) => {
            out.enabled = *on;
        },
        _ => {},
    }
    assert(rule@.actions[0] == rule.actions@[0]@);
    if let MatchAction::Mark { timestamp: Some(ts) } = &rule.actions[0] {
        let stamp = edit_stamp(ts, edit);
        let mut actions: Vec<MatchAction> = Vec::new();
        actions.push(MatchAction::Mark { timestamp: Some(stamp) });
        out.actions = actions;
        assert(out@.actions =~= edited_rule(rule@, *edit).actions);
    }
    out
}

/// A rule for a new timestamp mark: a pattern that is still to be typed, and the time of
/// day in front of it.
pub open spec fn new_rule(number: nat) -> MatchRuleModel {
    MatchRuleModel {
        name: "mark "@ + decimal(number),
        condition: MatchConditionModel::BytePattern { pattern: Seq::empty() },
        actions: seq![
            MatchActionModel::Mark {
                timestamp: Some(
                    MarkTimestampModel {
                        position: MarkPosition::Before,
                        style: MarkTimestampStyleModel::Plain,
                        format: TimestampConfig {
                            include_date: false,
                            include_millis: false,
                            include_timezone: false,
                        },
                        separator: Seq::empty(),
                    },
                ),
            },
        ],
        enabled: true,
    }
}

/// How many rules the editor owns.
pub open spec fn owned_count(rules: Seq<MatchRuleModel>) -> nat {
    rules.filter(|r: MatchRuleModel| owned(r)).len()
}

/// What can be done to the rules of a channel.
#[derive(Debug)]
pub enum MarkRulesEdit {
    /// Edits the rule at an index.
    Change(usize, MarkEdit),
    /// Deletes the rule at an index.
    Delete(usize),
    /// Appends a new timestamp mark.
    AddMark,
}

/// The rules after an edit. What the editor does not own stays, and so does everything
/// where an index is out of range.
pub open spec fn edited_rules(rules: Seq<MatchRuleModel>, edit: MarkRulesEdit) -> Seq<MatchRuleModel> {
    match edit {
        MarkRulesEdit::Change(i, e) => if i < rules.len() && owned(rules[i as int]) {
            rules.update(i as int, edited_rule(rules[i as int], e))
        } else {
            rules
        },
        MarkRulesEdit::Delete(i) => if i < rules.len() && owned(rules[i as int]) {
            rules.remove(i as int)
        } else {
            rules
        },
        MarkRulesEdit::AddMark => rules.push(new_rule(owned_count(rules) + 1)),
    }
}

/// How many rules of the editor there are.
fn count_owned(rules: &Vec<MatchRule>) -> (r: usize)
    ensures
        r == owned_count(match_rules_view(rules@)),
        r <= rules.len(),
{
    let mut n: usize = 0;
    let mut i: usize = 0;
    let ghost all = match_rules_view(rules@);
    assert(all.take(0).filter(|r: MatchRuleModel| owned(r)) =~= Seq::<MatchRuleModel>::empty()) by {
        reveal(Seq::filter);
    }
    while i < rules.len()
        invariant
            i <= rules.len(),
            n <= i,
            all == match_rules_view(rules@),
            n == owned_count(all.take(i as int)),
        decreases rules.len() - i,
    {
        proof {
            reveal(Seq::filter);
            assert(all.take(i + 1).drop_last() =~= all.take(i as int));
            assert(all.take(i + 1).last() == rules@[i as int]@);
        }
        if is_mark_timestamp_rule(&rules[i]) {
            n = n + 1;
        }
        i = i + 1;
    }
    assert(all.take(i as int) =~= all);
    n
}

/// Applies one edit to the timestamp marks of a channel; the rest of its configuration
/// stays. The edits take effect when the channel restarts.
pub fn edit_mark_rules(config: &mut ChannelConfig, edit: &MarkRulesEdit)
    requires
        old(config)@.match_rules.len() < usize::MAX,
    ensures
        final(config)@ == (ChannelConfigModel {
            match_rules: edited_rules(old(config)@.match_rules, *edit),
            ..old(config)@
        }),
{
    let ghost before = config.match_rules@;
    let ghost model = match_rules_view(before);
    match edit {
        MarkRulesEdit::Change(i, e) => {
            if *i < config.match_rules.len() && is_mark_timestamp_rule(&config.match_rules[*i]) {
                let rule = edit_rule(&config.match_rules[*i], e);
                config.match_rules.set(*i, rule);
            }
        },
        MarkRulesEdit::Delete(i) => {
            if *i < config.match_rules.len() && is_mark_timestamp_rule(&config.match_rules[*i]) {
                let _gone = config.match_rules.remove(*i);
            }
        },
        MarkRulesEdit::AddMark => {
            let n: usize = count_owned(&config.match_rules);
            let mut name: String = "mark ".to_owned();
            push_decimal(&mut name, n as u64 + 1);
            let mut actions: Vec<MatchAction> = Vec::new();
            actions.push(
                MatchAction::Mark {
                    timestamp: Some(
                        MarkTimestamp {
                            position: MarkPosition::Before,
                            style: MarkTimestampStyle::Plain,
                            format: TimestampConfig::default(),
                            separator: String::new(),
                        },
                    ),
                },
            );
            let rule = MatchRule {
                name,
                condition: MatchCondition::BytePattern { pattern: Vec::new() },
                actions,
                enabled: true,
            };
            assert(rule@.condition->pattern =~= Seq::empty());
            assert(rule@.actions =~= new_rule((n + 1) as nat).actions);
            config.match_rules.push(rule);
        },
    }
    assert(match_rules_view(config.match_rules@) =~= edited_rules(model, *edit));
}

/// The rules that the editor does not own.
pub open spec fn foreign(rules: Seq<MatchRuleModel>) -> Seq<MatchRuleModel> {
    rules.filter(|r: MatchRuleModel| !owned(r))
}

/// An edited rule is still one of the editor's.
pub proof fn law_edited_rules_stay_owned(rule: MatchRuleModel, edit: MarkEdit)
    requires
        owned(rule),
    ensures
        owned(edited_rule(rule, edit)),
        edited_rule(rule, edit).name == rule.name,
{
}

proof fn lemma_foreign_concat(a: Seq<MatchRuleModel>, b: Seq<MatchRuleModel>)
    ensures
        foreign(a + b) == foreign(a) + foreign(b),
{
    Seq::filter_distributes_over_add(a, b, |r: MatchRuleModel| !owned(r));
}

proof fn lemma_owned_leaves_nothing(rule: MatchRuleModel)
    requires
        owned(rule),
    ensures
        foreign(seq![rule]) == Seq::<MatchRuleModel>::empty(),
{
    reveal_with_fuel(Seq::filter, 2);
    assert(seq![rule].drop_last() =~= Seq::<MatchRuleModel>::empty());
    assert(seq![rule].last() == rule);
    assert(foreign(seq![rule]) =~= Seq::<MatchRuleModel>::empty());
}

/// No edit changes, moves or drops a rule that the editor does not own.
pub proof fn law_foreign_rules_are_kept(rules: Seq<MatchRuleModel>, edit: MarkRulesEdit)
    ensures
        foreign(edited_rules(rules, edit)) == foreign(rules),
{
    let after = edited_rules(rules, edit);
    match edit {
        MarkRulesEdit::Change(i, e) => {
            if i < rules.len() && owned(rules[i as int]) {
                let k = i as int;
                let front = rules.take(k);
                let back = rules.skip(k + 1);
                assert(rules =~= front + seq![rules[k]] + back);
                assert(after =~= front + seq![after[k]] + back);
                lemma_foreign_concat(front + seq![rules[k]], back);
                lemma_foreign_concat(front, seq![rules[k]]);
                lemma_foreign_concat(front + seq![after[k]], back);
                lemma_foreign_concat(front, seq![after[k]]);
                lemma_owned_leaves_nothing(rules[k]);
                lemma_owned_leaves_nothing(after[k]);
            }
        },
        MarkRulesEdit::Delete(i) => {
            if i < rules.len() && owned(rules[i as int]) {
                let k = i as int;
                let front = rules.take(k);
                let back = rules.skip(k + 1);
                assert(rules =~= front + seq![rules[k]] + back);
                assert(after =~= front + back);
                lemma_foreign_concat(front + seq![rules[k]], back);
                lemma_foreign_concat(front, seq![rules[k]]);
                lemma_foreign_concat(front, back);
                lemma_owned_leaves_nothing(rules[k]);
                assert(foreign(front) + Seq::<MatchRuleModel>::empty() =~= foreign(front));
            }
        },
        MarkRulesEdit::AddMark => {
            let rule = new_rule(owned_count(rules) + 1);
            assert(after =~= rules + seq![rule]);
            lemma_foreign_concat(rules, seq![rule]);
            lemma_owned_leaves_nothing(rule);
            assert(foreign(rules) + Seq::<MatchRuleModel>::empty() =~= foreign(rules));
        },
    }
}

/// One line of the editor.
#[derive(Debug)]
pub struct MarkRow {
    /// Where the rule stands in the configuration.
    pub index: usize,
    pub enabled: bool,
    /// The pattern, as text with escapes.
    pub pattern: String,
    /// Whether there is no pattern yet.
    pub empty: bool,
    pub position: &'static str,
    pub style: &'static str,
    /// The talker of a ZDA sentence.
    pub talker: Option<String>,
    /// What is wrong with the talker.
    pub talker_fault: Option<String>,
    pub format: TimestampConfig,
    /// The separator, as text with escapes.
    pub separator: String,
}

/// A line shows a rule.
pub open spec fn shows_rule(row: MarkRow, index: int, rule: MatchRuleModel) -> bool {
    let ts = stamp_of(rule);
    let pattern = rule.condition->pattern;
    &&& row.index == index
    &&& row.enabled == rule.enabled
    &&& row.pattern@ == escaped(pattern)
    &&& row.empty == (pattern.len() == 0)
    &&& row.position@ == if ts.position is Before {
        "before"@
    } else {
        "after"@
    }
    &&& row.style@ == if ts.style is NmeaZda {
        "NMEA ZDA"@
    } else {
        "Time"@
    }
    &&& crate::model::metadata::optional_text(row.talker) == match ts.style {
        MarkTimestampStyleModel::NmeaZda { talker } => Some(talker),
        MarkTimestampStyleModel::Plain => None,
    }
    &&& crate::model::metadata::optional_text(row.talker_fault) == match ts.style {
        MarkTimestampStyleModel::NmeaZda { talker } => match talker_fault(talker) {
            Some(fault) => Some(fault.message_spec()),
            None => None,
        },
        MarkTimestampStyleModel::Plain => None,
    }
    &&& row.format == ts.format
    &&& row.separator@ == escaped(encode_utf8(ts.separator))
}

/// The indices of the rules that the editor owns, in order.
pub open spec fn owned_indices(rules: Seq<MatchRuleModel>) -> Seq<int>
    decreases rules.len(),
{
    if rules.len() == 0 {
        Seq::empty()
    } else if owned(rules.last()) {
        owned_indices(rules.drop_last()).push(rules.len() - 1)
    } else {
        owned_indices(rules.drop_last())
    }
}

/// The line of a rule.
fn mark_row(index: usize, rule: &MatchRule) -> (r: Option<MarkRow>)
    ensures
        r is Some <==> owned(rule@),
        r matches Some(row) ==> shows_rule(row, index as int, rule@),
{
    if !is_mark_timestamp_rule(rule) {
        return None;
    }
    assert(rule@.actions[0] == rule.actions@[0]@);
    match (&rule.condition, &rule.actions[0]) {
        (MatchCondition::BytePattern { pattern }, MatchAction::Mark { timestamp: Some(ts) }) => {
            let mut talker: Option<String> = None;
            let mut fault: Option<String> = None;
            let mut style: &'static str = "Time";
            if let MarkTimestampStyle::NmeaZda { talker: t } = &ts.style {
                style = "NMEA ZDA";
                talker = Some(t.clone());
                if let Err(e) = validate_zda_talker_id(t.as_str()) {
                    fault = Some(e.to_string());
                }
            }
            Some(
                MarkRow {
                    index,
                    enabled: rule.enabled,
                    pattern: format_escaped_bytes(pattern.as_slice()),
                    empty: pattern.len() == 0,
                    position: match ts.position {
                        MarkPosition::Before => "before",
                        MarkPosition::After => "after",
                    },
                    style,
                    talker,
                    talker_fault: fault,
                    format: ts.format,
                    separator: format_escaped_bytes(ts.separator.as_str().as_bytes()),
                },
            )
        },
        _ => None,
    }
}

/// The lines of the editor: one for each rule that it owns.
pub fn mark_rows(config: &ChannelConfig) -> (r: Vec<MarkRow>)
    ensures
        r.len() == owned_indices(config@.match_rules).len(),
        forall|k: int|
            0 <= k < r.len() ==> shows_rule(
                #[trigger] r@[k],
                owned_indices(config@.match_rules)[k],
                config@.match_rules[owned_indices(config@.match_rules)[k]],
            ),
{
    let mut out: Vec<MarkRow> = Vec::new();
    let mut i: usize = 0;
    let ghost rules = config@.match_rules;
    while i < config.match_rules.len()
        invariant
            i <= config.match_rules.len(),
            rules == config@.match_rules,
            out.len() == owned_indices(rules.take(i as int)).len(),
            forall|k: int|
                0 <= k < out.len() ==> shows_rule(
                    #[trigger] out@[k],
                    owned_indices(rules.take(i as int))[k],
                    rules[owned_indices(rules.take(i as int))[k]],
                ),
        decreases config.match_rules.len() - i,
    {
        proof {
            assert(rules.take(i + 1).drop_last() =~= rules.take(i as int));
            assert(rules.take(i + 1).last() == config.match_rules@[i as int]@);
            assert(rules[i as int] == config.match_rules@[i as int]@);
        }
        if let Some(row) = mark_row(i, &config.match_rules[i]) {
            out.push(row);
        }
        i = i + 1;
    }
    assert(rules.take(i as int) =~= rules);
    out
}

} // verus!
