//! What the driver does for a command, and what it tells of the outcome.

use vstd::prelude::*;
use vstd::string::*;

use crate::config::schema::ChannelConfig;
use crate::gui::bridge::{
    commanded, notified, poll_of, present, reply, settled, step_of, told, DriverModel, Outcome,
    Poll, Step, Told, UiCommand, UiCommandModel,
};
use crate::gui::state::UiUpdate;
use crate::model::command::RuntimeEvent;
use crate::model::ids::ChannelId;

verus! {

/// The step carries out what the command says, with the same channel and contents; a
/// selection needs none, and what the runtime takes as it is is handed on.
pub open spec fn carries_out(cmd: UiCommand, step: Step) -> bool {
    match cmd {
        UiCommand::AddChannel(config) => step is Add && step->Add_0 == config,
        UiCommand::Start(id) => step is Start && step->Start_0 == id,
        UiCommand::Stop(id) => step is Stop && step->Stop_0 == id,
        UiCommand::RemoveChannel(id) => step is Remove && step->Remove_0 == id,
        UiCommand::Reconfigure(id, config) => step is Reconfigure && step->Reconfigure_0 == id
            && step->Reconfigure_1 == config,
        UiCommand::Rename(id, name) => step is Rename && step->Rename_0 == id && step->Rename_1
            == name,
        UiCommand::ApplyPending(id) => step is ApplyPending && step->ApplyPending_0 == id,
        UiCommand::CommitAndStart { id, config, start } => step is Commit && step->Commit_0 == id
            && step->Commit_1 == config && step->Commit_2 == start,
        UiCommand::StartAll(batch) => step is CommitAll && step->CommitAll_0 == batch,
        UiCommand::Select(_) => step is Rest,
        UiCommand::SaveProfile(path) => step is Save && step->Save_0 == path,
        UiCommand::LoadProfile(path) => step is Load && step->Load_0 == path,
        UiCommand::Shutdown => step is Shutdown,
        _ => step is Forward && step->Forward_0 == cmd,
    }
}

/// Every command is carried out, and changes nothing of the driver before its outcome but
/// for a selection, which is read from the start.
pub proof fn law_commands_are_carried_out(d: DriverModel, cmd: UiCommand)
    ensures
        carries_out(cmd, step_of(cmd)),
        cmd matches UiCommand::Select(id) ==> {
            let after = commanded(d, cmd);
            after.selected == id && after.cursor == 0 && after.channels == d.channels
        },
        !(cmd is Select) ==> commanded(d, cmd) == d,
{
}

/// What is told of an outcome names its channel. A failure is told with its reason, a
/// success of a start, a stop or a pending edit shows by itself.
pub proof fn law_outcomes_are_told(outcome: Outcome)
    ensures
        outcome matches Outcome::Added(id, config) ==> (reply(outcome) matches Some(Told::Added(
            a,
            name,
            _,
            c,
        )) && a == id && name == config.name@ && c == config@),
        outcome matches Outcome::Reconfigured(id, config, result) ==> if result is Ok {
            reply(outcome) matches Some(Told::Reconfigured(a, _, c)) && a == id && c == config@
        } else {
            reply(outcome) == Some(Told::Failed(id, result->Err_0@))
        },
        outcome matches Outcome::Started(id, result) ==> reply(outcome) == (if result is Ok {
            None
        } else {
            Some(Told::Failed(id, result->Err_0@))
        }),
        outcome matches Outcome::Stopped(id, result) ==> reply(outcome) == (if result is Ok {
            None
        } else {
            Some(Told::Failed(id, result->Err_0@))
        }),
        outcome matches Outcome::Applied(id, result) ==> reply(outcome) == (if result is Ok {
            None
        } else {
            Some(Told::Failed(id, result->Err_0@))
        }),
        outcome matches Outcome::Committed(id, config, result) ==> {
            &&& result is Err ==> reply(outcome) == Some(Told::Failed(id, result->Err_0@))
            &&& result is Ok && config is None ==> reply(outcome) is None
            &&& result is Ok && config is Some ==> (reply(outcome) matches Some(Told::Reconfigured(
                a,
                _,
                c,
            )) && a == id && c == config->0@)
        },
        outcome matches Outcome::Removed(id) ==> reply(outcome) == Some(Told::Removed(id)),
        outcome matches Outcome::Renamed(id, name, taken) ==> reply(outcome) == (if taken {
            Some(Told::Renamed(id, name@))
        } else {
            None
        }),
        outcome matches Outcome::Loaded(name) ==> reply(outcome) == Some(Told::Loaded(name@)),
        outcome matches Outcome::Saved(_, result) ==> {
            &&& result is Ok <==> reply(outcome)->0 is Saved
            &&& result is Err <==> reply(outcome)->0 is ProfileFailed
        },
        outcome is LoadFailed ==> reply(outcome)->0 is ProfileFailed,
{
}

/// The reason of a profile operation that failed stands at the end of what is told.
pub proof fn law_profile_failures_end_in_their_reason(reason: String, file: Option<String>)
    ensures
        ({
            let a = reply(Outcome::LoadFailed(reason))->0->ProfileFailed_0;
            let b = reply(Outcome::Saved(file, Err(reason)))->0->ProfileFailed_0;
            let n = reason@.len() as int;
            &&& a.len() > n && a.subrange(a.len() - n, a.len() as int) == reason@
            &&& b.len() > n && b.subrange(b.len() - n, b.len() as int) == reason@
            &&& a != b
        }),
{
    reveal_strlit("load failed: ");
    reveal_strlit("save failed: ");
    let a = reply(Outcome::LoadFailed(reason))->0->ProfileFailed_0;
    let b = reply(Outcome::Saved(file, Err(reason)))->0->ProfileFailed_0;
    let n = reason@.len() as int;
    assert(a.subrange(a.len() - n, a.len() as int) =~= reason@);
    assert(b.subrange(b.len() - n, b.len() as int) =~= reason@);
    assert(a[0] == 'l' && b[0] == 's');
}

/// What an update tells is what it holds.
pub proof fn law_updates_tell_what_they_hold(u: UiUpdate)
    ensures
        u matches UiUpdate::ChannelAdded(id, name, details, config) ==> told(u) == Told::Added(
            id,
            name@,
            details@,
            config@,
        ),
        u matches UiUpdate::ChannelReconfigured(id, details, config) ==> told(u)
            == Told::Reconfigured(id, details@, config@),
        u matches UiUpdate::ChannelRenamed(id, name) ==> told(u) == Told::Renamed(id, name@),
        u matches UiUpdate::ChannelRemoved(id) ==> told(u) == Told::Removed(id),
        u matches UiUpdate::ChannelError(id, reason) ==> told(u) == Told::Failed(id, reason@),
        u matches UiUpdate::ProfileLoaded(name) ==> told(u) == Told::Loaded(name@),
        u matches UiUpdate::ProfileError(reason) ==> told(u) == Told::ProfileFailed(reason@),
        u matches UiUpdate::ProfileSaved(Some(name)) ==> told(u) == Told::Saved(Some(name@)),
        u matches UiUpdate::ProfileSaved(None) ==> told(u) == Told::Saved(None),
{
}

/// A command says its channel and contents.
pub proof fn law_commands_say_what_they_hold(cmd: UiCommand)
    ensures
        cmd matches UiCommand::AddChannel(c) ==> cmd@ == UiCommandModel::AddChannel(c@),
        cmd matches UiCommand::Start(id) ==> cmd@ == UiCommandModel::Start(id),
        cmd matches UiCommand::Stop(id) ==> cmd@ == UiCommandModel::Stop(id),
        cmd is StopAll ==> cmd@ is StopAll,
        cmd matches UiCommand::RemoveChannel(id) ==> cmd@ == UiCommandModel::RemoveChannel(id),
        cmd matches UiCommand::Reconfigure(id, c) ==> cmd@ == UiCommandModel::Reconfigure(id, c@),
        cmd matches UiCommand::Rename(id, n) ==> cmd@ == UiCommandModel::Rename(id, n@),
        cmd matches UiCommand::ApplyPending(id) ==> cmd@ == UiCommandModel::ApplyPending(id),
        cmd matches UiCommand::CommitAndStart { id, config, start } ==> cmd@ is CommitAndStart
            && cmd@->CommitAndStart_0 == id && cmd@->CommitAndStart_2 == start && (
        cmd@->CommitAndStart_1 is Some <==> config is Some) && (config is Some
            ==> cmd@->CommitAndStart_1->0 == config->0@),
        cmd matches UiCommand::StartAll(batch) ==> cmd@ is StartAll && cmd@->StartAll_0.len()
            == batch@.len() && forall|i: int|
            0 <= i < batch@.len() ==> (#[trigger] cmd@->StartAll_0[i]).0 == batch@[i].0
                && cmd@->StartAll_0[i].1 == batch@[i].1@,
        cmd matches UiCommand::PauseDisplay(id, v) ==> cmd@ == UiCommandModel::PauseDisplay(id, v),
        cmd matches UiCommand::ResumeDisplay(id, v) ==> cmd@ == UiCommandModel::ResumeDisplay(id, v),
        cmd matches UiCommand::SetRts(id, on) ==> cmd@ == UiCommandModel::SetRts(id, on),
        cmd matches UiCommand::SetDtr(id, on) ==> cmd@ == UiCommandModel::SetDtr(id, on),
        cmd matches UiCommand::SetRecording(id, on, r) ==> cmd@ == UiCommandModel::SetRecording(
            id,
            on,
            r@,
        ),
        cmd matches UiCommand::SetDisplayRecording(id, on, r) ==> cmd@
            == UiCommandModel::SetDisplayRecording(id, on, r@),
        cmd matches UiCommand::SetRawRecordingConfig(id, r) ==> cmd@
            == UiCommandModel::SetRawRecordingConfig(id, r@),
        cmd matches UiCommand::SetDisplayRecordingConfig(id, r) ==> cmd@
            == UiCommandModel::SetDisplayRecordingConfig(id, r@),
        cmd matches UiCommand::SetViewConfig(id, d, r) ==> cmd@ == UiCommandModel::SetViewConfig(
            id,
            d@,
            r,
        ),
        cmd matches UiCommand::Select(id) ==> cmd@ == UiCommandModel::Select(id),
        cmd matches UiCommand::SaveProfile(p) ==> cmd@ == UiCommandModel::SaveProfile(p@),
        cmd matches UiCommand::LoadProfile(p) ==> cmd@ == UiCommandModel::LoadProfile(p@),
        cmd is Shutdown ==> cmd@ is Shutdown,
{
}

/// The driver's list grows at its end by a channel that was added, and loses every
/// occurrence of one that was removed; all else leaves it. No outcome moves the selection
/// or the place in the stream.
pub proof fn law_the_list_follows_the_outcomes(d: DriverModel, outcome: Outcome)
    ensures
        settled(d, outcome).selected == d.selected,
        settled(d, outcome).cursor == d.cursor,
        outcome matches Outcome::Added(id, _) ==> settled(d, outcome).channels == d.channels + seq![
            id,
        ],
        outcome matches Outcome::Removed(id) ==> !settled(d, outcome).channels.contains(id)
            && forall|other: ChannelId|
            other != id ==> (#[trigger] settled(d, outcome).channels.contains(other)
                <==> d.channels.contains(other)),
        !(outcome is Added) && !(outcome is Removed) ==> settled(d, outcome) == d,
{
    if let Outcome::Added(id, _) = outcome {
        assert(d.channels.push(id) =~= d.channels + seq![id]);
    }
    if let Outcome::Removed(id) = outcome {
        lemma_filtered(d.channels, id);
    }
}

proof fn lemma_filtered(s: Seq<ChannelId>, id: ChannelId)
    ensures
        ({
            let f = s.filter(|c: ChannelId| c != id);
            &&& !f.contains(id)
            &&& forall|other: ChannelId|
                other != id ==> (#[trigger] f.contains(other) <==> s.contains(other))
        }),
    decreases s.len(),
{
    reveal(Seq::filter);
    let f = s.filter(|c: ChannelId| c != id);
    if s.len() > 0 {
        let front = s.drop_last();
        lemma_filtered(front, id);
        let g = front.filter(|c: ChannelId| c != id);
        let last = s.last();
        assert(s =~= front.push(last));
        assert forall|c: ChannelId| #[trigger] s.contains(c) <==> front.contains(c) || c == last by {
            lemma_push_contains(front, last, c);
        }
        if last != id {
            assert forall|c: ChannelId| #[trigger] f.contains(c) <==> g.contains(c) || c == last by {
                lemma_push_contains(g, last, c);
            }
        }
        assert forall|other: ChannelId| other != id implies (#[trigger] f.contains(other)
            <==> s.contains(other)) by {
            assert(g.contains(other) <==> front.contains(other));
        }
    }
}

proof fn lemma_push_contains(s: Seq<ChannelId>, last: ChannelId, c: ChannelId)
    ensures
        s.push(last).contains(c) <==> s.contains(c) || c == last,
{
    let t = s.push(last);
    assert(t[s.len() as int] == last);
    if s.contains(c) {
        let i = choose|i: int| 0 <= i < s.len() && s[i] == c;
        assert(t[i] == c);
    }
}

/// The selected channel is asked for a snapshot and the bytes from where its stream was
/// read to, every other for its liveness only.
pub proof fn law_only_the_selected_channel_is_read(d: DriverModel, id: ChannelId)
    ensures
        d.selected == Some(id) ==> poll_of(d, id) == Poll::Full(id, d.cursor),
        d.selected != Some(id) ==> poll_of(d, id) == Poll::Stats(id),
{
}

/// A stream that begins again is read from its first byte: after a start or a reconnect of
/// the selected channel, and nothing else moves the place.
pub proof fn law_a_new_stream_is_read_from_its_start(d: DriverModel, id: ChannelId, event: RuntimeEvent)
    ensures
        notified(d, event).channels == d.channels,
        notified(d, event).selected == d.selected,
        d.selected == Some(id) ==> notified(d, RuntimeEvent::ChannelStarted(id)).cursor == 0
            && notified(d, RuntimeEvent::ChannelReconnected(id)).cursor == 0,
        d.selected != Some(id) ==> notified(d, RuntimeEvent::ChannelStarted(id)) == d && notified(
            d,
            RuntimeEvent::ChannelReconnected(id),
        ) == d,
        !(event is ChannelStarted) && !(event is ChannelReconnected) ==> notified(d, event) == d,
{
}

/// A saved workspace holds the configurations that are there, each of them, in the order of
/// the channels.
pub proof fn law_saved_configurations_keep_their_order(configs: Seq<Option<ChannelConfig>>) -> (kept: Seq<
    int,
>)
    ensures
        present(configs).len() == kept.len(),
        forall|k: int|
            0 <= k < kept.len() ==> 0 <= #[trigger] kept[k] < configs.len() && configs[kept[k]]
                == Some(present(configs)[k]),
        forall|j: int, k: int| 0 <= j < k < kept.len() ==> #[trigger] kept[j] < #[trigger] kept[k],
        forall|i: int|
            0 <= i < configs.len() && (#[trigger] configs[i]) is Some ==> kept.contains(i),
    decreases configs.len(),
{
    if configs.len() == 0 {
        Seq::empty()
    } else {
        let front = configs.drop_last();
        let before = law_saved_configurations_keep_their_order(front);
        let n = front.len() as int;
        assert(configs.last() == configs[n]);
        assert forall|k: int| 0 <= k < before.len() implies front[#[trigger] before[k]]
            == configs[before[k]] by {}
        let kept = if configs.last() is Some {
            before.push(n)
        } else {
            before
        };
        assert forall|i: int|
            0 <= i < configs.len() && (#[trigger] configs[i]) is Some implies kept.contains(i) by {
            if i < n {
                assert(front[i] == configs[i]);
                assert(before.contains(i));
                let k = choose|k: int| 0 <= k < before.len() && before[k] == i;
                assert(kept[k] == i);
            } else {
                assert(kept[before.len() as int] == n);
            }
        }
        assert forall|k: int| 0 <= k < kept.len() implies 0 <= #[trigger] kept[k] < configs.len()
            && configs[kept[k]] == Some(present(configs)[k]) by {
            if k < before.len() {
                assert(kept[k] == before[k]);
                assert(present(configs)[k] == present(front)[k]);
            }
        }
        kept
    }
}

} // verus!
