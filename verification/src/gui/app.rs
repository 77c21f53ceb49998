//! The decisions of the application: what is selected, what is being edited, and which
//! command each action sends.

use vstd::prelude::*;
use vstd::string::*;

use crate::config::schema::{
    equal_configs, ChannelConfig, ChannelConfigModel, RecordingConfig, RecordingConfigModel,
};
use crate::gui::bridge::{batch_view, UiCommand, UiCommandModel};
use crate::gui::names::{
    is_duplicate_name, is_next_number, name_taken_by_other, next_channel_name, numbered, ChannelSeq,
};
use crate::gui::recents::{remember_recent_profile, remembered, texts};
use crate::gui::state::{
    acceptable, changed, cycled, first_of, folded, index_of, known, neighbor_of, startable,
    valid_view, valid_views, with_error, with_name, AppModel, AppState, ChannelStatus, UiUpdate, ViewModel,
};
use crate::gui::view_prefs::{config_with, equal_settings, ViewPrefs};
use crate::gui::widgets::{
    config_incomplete, config_needs_restart, incomplete_config, template_for, template_of,
    without_live_fields, AddKind,
};
use crate::model::command::RecordingTap;
use crate::model::ids::{ChannelId, ChannelName};
use crate::model::metadata::optional_text;

verus! {

/// How long the notice of a dropped command stays up, in nanoseconds.
pub const COMMAND_DROP_NOTICE_TTL: u64 = 8_000_000_000;

/// The application, without what is drawn.
#[derive(Debug)]
pub struct ListenerApp {
    pub state: AppState,
    pub selected: Option<ChannelId>,
    /// The selection that the driver was last told of.
    pub last_selected_sent: Option<ChannelId>,
    /// A working copy of a channel's configuration.
    pub edit_draft: Option<(ChannelId, ChannelConfig)>,
    /// The channel whose removal waits for a confirmation.
    pub confirm_remove: Option<ChannelId>,
    /// The configuration section is to be opened once.
    pub force_config_open: bool,
    /// The name being typed is that of another channel.
    pub name_duplicate: bool,
    pub channel_seq: ChannelSeq,
    /// The file that the workspace was last saved to or loaded from.
    pub current_profile_path: Option<String>,
    /// Recently used profiles, the last one first.
    pub recent_profiles: Vec<String>,
    /// When a command could last not be handed over, in nanoseconds.
    pub command_drop: Option<u64>,
}

/// What the application is in the middle of.
pub ghost struct Session {
    pub app: AppModel,
    pub selected: Option<ChannelId>,
    pub sent: Option<ChannelId>,
    pub draft: Option<(ChannelId, ChannelConfigModel)>,
    pub confirm_remove: Option<ChannelId>,
    pub force_open: bool,
    pub name_duplicate: bool,
    pub seq: ChannelSeq,
    pub path: Option<Seq<char>>,
    pub recent: Seq<Seq<char>>,
    pub drop: Option<u64>,
}

/// What a draft says.
pub open spec fn draft_view(draft: Option<(ChannelId, ChannelConfig)>) -> Option<
    (ChannelId, ChannelConfigModel),
> {
    match draft {
        Some((id, config)) => Some((id, config@)),
        None => None,
    }
}

impl View for ListenerApp {
    type V = Session;

    open spec fn view(&self) -> Session {
        Session {
            app: self.state@,
            selected: self.selected,
            sent: self.last_selected_sent,
            draft: draft_view(self.edit_draft),
            confirm_remove: self.confirm_remove,
            force_open: self.force_config_open,
            name_duplicate: self.name_duplicate,
            seq: self.channel_seq,
            path: optional_text(self.current_profile_path),
            recent: texts(self.recent_profiles@),
            drop: self.command_drop,
        }
    }
}

/// The selection after an update: a new channel takes it, and a selected channel that
/// goes leaves it to its neighbor.
pub open spec fn selection_after(s: Session, update: UiUpdate) -> Option<ChannelId> {
    match update {
        UiUpdate::ChannelAdded(id, _, _, _) => Some(id),
        UiUpdate::ChannelRemoved(id) => if s.selected == Some(id) {
            neighbor_of(s.app.views, id)
        } else {
            s.selected
        },
        _ => s.selected,
    }
}

/// The draft of channel `id`, where it is the one being edited.
pub open spec fn draft_of(s: Session, id: ChannelId) -> Option<ChannelConfigModel> {
    match s.draft {
        Some((edited, config)) => if edited == id {
            Some(config)
        } else {
            None
        },
        None => None,
    }
}

/// The session once channel `id` is on screen: its configuration becomes the draft,
/// unless it is being edited already. A channel that is incomplete or faulted has its
/// configuration opened.
pub open spec fn drafted(s: Session, id: ChannelId) -> Session {
    if draft_of(s, id) is Some || !known(s.app.views, id) {
        s
    } else {
        let v = s.app.views[index_of(s.app.views, id)];
        Session {
            force_open: incomplete_config(v.config) || v.status is Faulted,
            draft: Some((id, v.config)),
            name_duplicate: false,
            ..s
        }
    }
}

/// The configuration that channel `id` is to start with: the draft, where it is being
/// edited, and its own otherwise.
pub open spec fn config_to_start(s: Session, id: ChannelId) -> Option<ChannelConfigModel> {
    match draft_of(s, id) {
        Some(config) => Some(config),
        None => if known(s.app.views, id) {
            Some(s.app.views[index_of(s.app.views, id)].config)
        } else {
            None
        },
    }
}

/// The session after a complaint that channel `id` is not configured.
pub open spec fn complained(s: Session, id: ChannelId) -> Session {
    Session {
        app: with_error(
            s.app,
            id,
            "Not configured \u{2014} set a port before starting."@,
        ),
        force_open: s.force_open || s.selected == Some(id),
        ..s
    }
}

/// The configuration that channel `id` starts with, if it can; an incomplete one is
/// complained of.
pub open spec fn start_checked(s: Session, id: ChannelId) -> (Session, Option<ChannelConfigModel>) {
    match config_to_start(s, id) {
        None => (s, None),
        Some(config) => if incomplete_config(config) {
            (complained(s, id), None)
        } else {
            (s, Some(config))
        },
    }
}

/// The session without the error of channel `id`, and without the fault that it was about.
pub open spec fn error_cleared(s: Session, id: ChannelId) -> Session {
    Session {
        app: AppModel {
            views: changed(
                s.app.views,
                id,
                |v: ViewModel| ViewModel { last_error: None, recording_fault: None, ..v },
            ),
            ..s.app
        },
        ..s
    }
}

/// The channels among `ids` that can start, with their configurations, and the session
/// after the others were complained of.
pub open spec fn all_checked(s: Session, ids: Seq<ChannelId>) -> (
    Session,
    Seq<(ChannelId, ChannelConfigModel)>,
)
    decreases ids.len(),
{
    if ids.len() == 0 {
        (s, Seq::empty())
    } else {
        let (before, batch) = all_checked(s, ids.drop_last());
        let (after, config) = start_checked(before, ids.last());
        match config {
            Some(config) => (after, batch.push((ids.last(), config))),
            None => (after, batch),
        }
    }
}

/// The recording of a tap.
pub open spec fn tap_recording(config: ChannelConfigModel, tap: RecordingTap) -> RecordingConfigModel {
    match tap {
        RecordingTap::Raw => config.raw_recording,
        RecordingTap::Display => config.display_recording,
    }
}

/// A configuration with the recording of a tap.
pub open spec fn with_recording(
    config: ChannelConfigModel,
    tap: RecordingTap,
    rec: RecordingConfigModel,
) -> ChannelConfigModel {
    match tap {
        RecordingTap::Raw => ChannelConfigModel { raw_recording: rec, ..config },
        RecordingTap::Display => ChannelConfigModel { display_recording: rec, ..config },
    }
}

/// The session with the configuration of channel `id` replaced.
pub open spec fn reconfigured(s: Session, id: ChannelId, config: ChannelConfigModel) -> Session {
    Session {
        app: AppModel {
            views: changed(s.app.views, id, |v: ViewModel| ViewModel { config, ..v }),
            ..s.app
        },
        ..s
    }
}

/// The command that keeps new settings of a recording.
pub open spec fn keep_recording(id: ChannelId, tap: RecordingTap, rec: RecordingConfigModel) -> UiCommandModel {
    match tap {
        RecordingTap::Raw => UiCommandModel::SetRawRecordingConfig(id, rec),
        RecordingTap::Display => UiCommandModel::SetDisplayRecordingConfig(id, rec),
    }
}

/// Whether two optional channels are the same.
fn same_channel(a: Option<ChannelId>, b: Option<ChannelId>) -> (r: bool)
    ensures
        r == (a == b),
{
    match (a, b) {
        (Some(x), Some(y)) => x == y,
        (None, None) => true,
        _ => false,
    }
}

impl ListenerApp {
    pub open spec fn wf(self) -> bool {
        self.state.wf()
    }

    /// An application without channels, with the profiles that were recently used.
    pub fn new(recent_profiles: Vec<String>) -> (r: ListenerApp)
        ensures
            r.wf(),
            r@ == (Session {
                app: AppModel { views: Seq::empty(), status: None },
                selected: None,
                sent: None,
                draft: None,
                confirm_remove: None,
                force_open: false,
                name_duplicate: false,
                seq: ChannelSeq { udp: 0, tcp: 0, serial: 0 },
                path: None,
                recent: texts(recent_profiles@),
                drop: None,
            }),
    {
        let r = ListenerApp {
            state: AppState::default(),
            selected: None,
            last_selected_sent: None,
            edit_draft: None,
            confirm_remove: None,
            force_config_open: false,
            name_duplicate: false,
            channel_seq: ChannelSeq::new(),
            current_profile_path: None,
            recent_profiles,
            command_drop: None,
        };
        assert(r@.app.views =~= Seq::empty());
        r
    }

    /// Folds one update in.
    pub fn take_update(&mut self, update: UiUpdate)
        requires
            old(self).wf(),
            acceptable(old(self)@.app, update),
        ensures
            final(self).wf(),
            final(self)@ == (Session {
                app: folded(old(self)@.app, update),
                selected: selection_after(old(self)@, update),
                ..old(self)@
            }),
    {
        match &update {
            UiUpdate::ChannelAdded(id, _, _, _) => {
                self.selected = Some(*id);
            },
            UiUpdate::ChannelRemoved(id) => {
                if same_channel(self.selected, Some(*id)) {
                    self.selected = self.state.neighbor(*id);
                }
            },
            _ => {},
        }
        self.state.apply(update);
    }

    /// The command that tells the driver of a new selection.
    pub fn select_command(&mut self) -> (r: Option<UiCommand>)
        ensures
            final(self)@ == (Session { sent: old(self)@.selected, ..old(self)@ }),
            final(self).state == old(self).state,
            r is Some <==> old(self)@.selected != old(self)@.sent,
            r matches Some(cmd) ==> cmd@ == UiCommandModel::Select(old(self)@.selected),
    {
        if same_channel(self.selected, self.last_selected_sent) {
            return None;
        }
        self.last_selected_sent = self.selected;
        Some(UiCommand::Select(self.selected))
    }

    /// The command that adds a channel of a kind, under a name of its own.
    pub fn add_channel(&mut self, kind: AddKind) -> (r: UiCommand)
        requires
            old(self)@.seq.at(kind) + old(self)@.app.views.len() < u32::MAX,
        ensures
            final(self)@ == (Session { seq: final(self)@.seq, ..old(self)@ }),
            final(self).state == old(self).state,
            final(self)@.seq == old(self)@.seq.with(kind, final(self)@.seq.at(kind)),
            is_next_number(
                old(self)@.app.views,
                template_of(kind).name,
                old(self)@.seq.at(kind),
                final(self)@.seq.at(kind),
            ),
            r@ == UiCommandModel::AddChannel(
                ChannelConfigModel {
                    name: numbered(template_of(kind).name, final(self)@.seq.at(kind) as int),
                    ..template_of(kind)
                },
            ),
    {
        let mut config = template_for(kind);
        let name = next_channel_name(
            &mut self.channel_seq,
            &self.state,
            kind,
            config.name.as_str(),
        );
        config.name = name;
        UiCommand::AddChannel(config)
    }

    /// Makes the configuration of the channel on screen the draft.
    pub fn sync_edit_draft(&mut self, id: ChannelId)
        requires
            old(self).wf(),
        ensures
            final(self)@ == drafted(old(self)@, id),
            final(self).state == old(self).state,
    {
        let edited: bool = match &self.edit_draft {
            Some((e, _)) => *e == id,
            None => false,
        };
        if !edited {
            if let Some(view) = self.state.channel(id) {
                self.force_config_open = config_incomplete(&view.config) || view.status
                    == ChannelStatus::Faulted;
                self.edit_draft = Some((id, view.config.clone()));
                self.name_duplicate = false;
            }
        }
    }

    /// Whether the draft of a channel differs from what it runs with in a way that takes
    /// a restart.
    pub fn config_changed(&self, id: ChannelId) -> (r: bool)
        requires
            self.wf(),
        ensures
            r == match draft_of(self@, id) {
                Some(draft) => known(self@.app.views, id) && ({
                    let committed = self@.app.views[index_of(self@.app.views, id)].config;
                    !equal_configs(without_live_fields(draft, committed), committed)
                }),
                None => false,
            },
    {
        match (&self.edit_draft, self.state.channel(id)) {
            (Some((e, draft)), Some(view)) => if *e == id {
                config_needs_restart(draft, &view.config)
            } else {
                false
            },
            _ => false,
        }
    }

    /// Complains that a channel is not configured.
    pub fn complain_unconfigured(&mut self, id: ChannelId)
        requires
            old(self).wf(),
        ensures
            final(self).wf(),
            final(self)@ == complained(old(self)@, id),
    {
        let message: String = "Not configured \u{2014} set a port before starting.".to_owned();
        self.state.apply(UiUpdate::ChannelError(id, message));
        if same_channel(self.selected, Some(id)) {
            self.force_config_open = true;
        }
    }

    /// The configuration that a channel starts with, if it can start.
    pub fn start_config(&mut self, id: ChannelId) -> (r: Option<ChannelConfig>)
        requires
            old(self).wf(),
        ensures
            final(self).wf(),
            final(self)@ == start_checked(old(self)@, id).0,
            r is Some <==> start_checked(old(self)@, id).1 is Some,
            r matches Some(config) ==> Some(config@) == start_checked(old(self)@, id).1,
    {
        let edited: bool = match &self.edit_draft {
            Some((e, _)) => *e == id,
            None => false,
        };
        let config: Option<ChannelConfig> = if edited {
            match &self.edit_draft {
                Some((_, config)) => Some(config.clone()),
                None => None,
            }
        } else {
            match self.state.channel(id) {
                Some(view) => Some(view.config.clone()),
                None => None,
            }
        };
        match config {
            None => None,
            Some(config) => {
                if config_incomplete(&config) {
                    self.complain_unconfigured(id);
                    None
                } else {
                    Some(config)
                }
            },
        }
    }

    /// The command that starts a channel on the configuration in the editor. The error
    /// of an earlier attempt is cleared.
    pub fn try_start(&mut self, id: ChannelId) -> (r: Option<UiCommand>)
        requires
            old(self).wf(),
        ensures
            final(self).wf(),
            r is Some <==> start_checked(old(self)@, id).1 is Some,
            r matches Some(cmd) ==> cmd@ == UiCommandModel::CommitAndStart(
                id,
                start_checked(old(self)@, id).1,
                true,
            ),
            final(self)@ == if start_checked(old(self)@, id).1 is Some {
                error_cleared(old(self)@, id)
            } else {
                start_checked(old(self)@, id).0
            },
    {
        let ghost before = self@;
        match self.start_config(id) {
            None => None,
            Some(config) => {
                self.clear_error(id);
                Some(UiCommand::CommitAndStart { id, config: Some(config), start: true })
            },
        }
    }

    /// Clears the error of a channel.
    fn clear_error(&mut self, id: ChannelId)
        requires
            old(self).wf(),
        ensures
            final(self).wf(),
            final(self)@ == error_cleared(old(self)@, id),
    {
        let ghost before = self@;
        let ghost f = |v: ViewModel|
            ViewModel { last_error: None, recording_fault: None, ..v };
        let ghost i = index_of(before.app.views, id);
        if let Some(view) = self.state.channel_mut(id) {
            view.last_error = None;
            view.recording_fault = None;
            proof {
                crate::gui::state::lemma_changed_at(before.app.views, id, f, i);
                crate::gui::state::lemma_valid_update(before.app.views, i, f(before.app.views[i]));
            }
        } else {
            proof {
                crate::gui::state::lemma_changed_unknown(before.app.views, id, f);
            }
        }
    }

    /// The command that starts every channel that is stopped or faulted, if any can.
    pub fn start_all(&mut self) -> (r: Option<UiCommand>)
        requires
            old(self).wf(),
        ensures
            final(self).wf(),
            ({
                let (after, batch) = all_checked(old(self)@, startable(old(self)@.app.views));
                &&& final(self)@ == after
                &&& r is Some <==> batch.len() > 0
                &&& r matches Some(cmd) ==> cmd@ == UiCommandModel::StartAll(batch)
            }),
    {
        let ghost before = self@;
        let ids: Vec<ChannelId> = self.state.startable_channel_ids();
        let mut batch: Vec<(ChannelId, ChannelConfig)> = Vec::new();
        let mut i: usize = 0;
        assert(batch_view(batch@) =~= Seq::empty());
        while i < ids.len()
            invariant
                i <= ids.len(),
                self.wf(),
                self@ == all_checked(before, ids@.take(i as int)).0,
                batch_view(batch@) == all_checked(before, ids@.take(i as int)).1,
            decreases ids.len() - i,
        {
            let ghost so_far = batch@;
            proof {
                assert(ids@.take(i + 1).drop_last() =~= ids@.take(i as int));
            }
            let id: ChannelId = ids[i];
            if let Some(config) = self.start_config(id) {
                batch.push((id, config));
                assert(batch_view(batch@) =~= batch_view(so_far).push((id, config@)));
            }
            i = i + 1;
        }
        assert(ids@.take(i as int) =~= ids@);
        assert(batch_view(batch@).len() == batch.len());
        if batch.len() > 0 {
            Some(UiCommand::StartAll(batch))
        } else {
            None
        }
    }

    /// Switches channels with the keyboard: forward, or back with shift. With nothing
    /// selected the first channel is.
    pub fn handle_tab_keys(&mut self, tab: bool, shift: bool, ctrl: bool)
        requires
            old(self).wf(),
        ensures
            final(self).state == old(self).state,
            final(self)@ == (Session {
                selected: ({
                    let next = match old(self)@.selected {
                        Some(id) => cycled(old(self)@.app.views, id, !shift),
                        None => first_of(old(self)@.app.views),
                    };
                    if tab && ctrl && next is Some {
                        next
                    } else {
                        old(self)@.selected
                    }
                }),
                ..old(self)@
            }),
    {
        if tab && ctrl {
            let next: Option<ChannelId> = match self.selected {
                Some(id) => self.state.cycle(id, !shift),
                None => self.state.first(),
            };
            if next.is_some() {
                self.selected = next;
            }
        }
    }

    /// Takes a name that is being typed for a channel: the draft has it in any case, and
    /// the channel takes it unless another one has it.
    pub fn rename(&mut self, id: ChannelId, name: &str) -> (r: Option<UiCommand>)
        requires
            old(self).wf(),
        ensures
            final(self).wf(),
            ({
                let s = old(self)@;
                let duplicate = name_taken_by_other(s.app.views, id, name@);
                &&& r is Some <==> s.draft is Some && !duplicate
                &&& r matches Some(cmd) ==> cmd@ == UiCommandModel::Rename(id, name@)
                &&& final(self)@ == match s.draft {
                    None => s,
                    Some((edited, config)) => Session {
                        draft: Some((edited, ChannelConfigModel { name: name@, ..config })),
                        name_duplicate: duplicate,
                        app: if duplicate {
                            s.app
                        } else {
                            with_name(s.app, id, name@)
                        },
                        ..s
                    },
                }
            }),
    {
        match &mut self.edit_draft {
            None => {
                return None;
            },
            Some((_, config)) => {
                config.name = ChannelName::new(name);
            },
        }
        let duplicate: bool = is_duplicate_name(&self.state, id, name);
        self.name_duplicate = duplicate;
        if duplicate {
            return None;
        }
        self.state.apply(UiUpdate::ChannelRenamed(id, name.to_owned()));
        Some(UiCommand::Rename(id, ChannelName::new(name)))
    }

    /// Asks for a confirmation before a channel is removed.
    pub fn ask_remove(&mut self, id: ChannelId)
        ensures
            final(self)@ == (Session { confirm_remove: Some(id), ..old(self)@ }),
            final(self).state == old(self).state,
    {
        self.confirm_remove = Some(id);
    }

    /// The answer to the question whether to remove a channel.
    pub fn answer_remove(&mut self, confirmed: bool) -> (r: Option<UiCommand>)
        ensures
            final(self)@ == (Session { confirm_remove: None, ..old(self)@ }),
            final(self).state == old(self).state,
            r is Some <==> confirmed && old(self)@.confirm_remove is Some,
            r matches Some(cmd) ==> cmd@ == UiCommandModel::RemoveChannel(
                old(self)@.confirm_remove->0,
            ),
    {
        let asked: Option<ChannelId> = self.confirm_remove;
        self.confirm_remove = None;
        match asked {
            Some(id) => if confirmed {
                Some(UiCommand::RemoveChannel(id))
            } else {
                None
            },
            None => None,
        }
    }

    /// The question before a channel is removed.
    pub fn remove_question(&self) -> (r: Option<String>)
        requires
            self.wf(),
        ensures
            r is Some <==> self@.confirm_remove is Some,
            r matches Some(text) ==> text@ == "\u{201C}"@ + (if known(
                self@.app.views,
                self@.confirm_remove->0,
            ) {
                self@.app.views[index_of(self@.app.views, self@.confirm_remove->0)].name
            } else {
                Seq::empty()
            }) + "\u{201D} will be stopped and removed. This can't be undone."@,
    {
        match self.confirm_remove {
            None => None,
            Some(id) => {
                let mut out: String = "\u{201C}".to_owned();
                if let Some(view) = self.state.channel(id) {
                    out.append(view.name.as_str());
                }
                out.append("\u{201D} will be stopped and removed. This can't be undone.");
                assert(out@ =~= "\u{201C}"@ + (if known(self@.app.views, id) {
                    self@.app.views[index_of(self@.app.views, id)].name
                } else {
                    Seq::empty()
                }) + "\u{201D} will be stopped and removed. This can't be undone."@);
                Some(out)
            },
        }
    }

    /// Keeps the settings of a recording that were edited: they are applied without a
    /// restart, so that a saved profile has them.
    pub fn persist_recording(&mut self, id: ChannelId, tap: RecordingTap) -> (r: Option<UiCommand>)
        requires
            old(self).wf(),
        ensures
            final(self).wf(),
            ({
                let s = old(self)@;
                let committed = s.app.views[index_of(s.app.views, id)].config;
                let differs = draft_of(s, id) is Some && known(s.app.views, id) && tap_recording(
                    committed,
                    tap,
                ) != tap_recording(draft_of(s, id)->0, tap);
                let rec = tap_recording(draft_of(s, id)->0, tap);
                &&& r is Some <==> differs
                &&& r matches Some(cmd) ==> cmd@ == keep_recording(id, tap, rec)
                &&& final(self)@ == if differs {
                    reconfigured(s, id, with_recording(committed, tap, rec))
                } else {
                    s
                }
            }),
    {
        let ghost before = self@;
        let rec: RecordingConfig = match &self.edit_draft {
            None => {
                return None;
            },
            Some((e, config)) => {
                if *e != id {
                    return None;
                }
                match tap {
                    RecordingTap::Raw => config.raw_recording.clone(),
                    RecordingTap::Display => config.display_recording.clone(),
                }
            },
        };
        let ghost i = index_of(before.app.views, id);
        let ghost committed = before.app.views[i].config;
        let ghost g = |v: ViewModel|
            ViewModel { config: with_recording(committed, tap, rec@), ..v };
        if let Some(view) = self.state.channel_mut(id) {
            let same: bool = match tap {
                RecordingTap::Raw => view.config.raw_recording.same(&rec),
                RecordingTap::Display => view.config.display_recording.same(&rec),
            };
            if same {
                proof {
                    assert(before.app.views.update(i, before.app.views[i]) =~= before.app.views);
                }
                return None;
            }
            match tap {
                RecordingTap::Raw => {
                    view.config.raw_recording = rec.clone();
                },
                RecordingTap::Display => {
                    view.config.display_recording = rec.clone();
                },
            }
            proof {
                crate::gui::state::lemma_changed_at(before.app.views, id, g, i);
                crate::gui::state::lemma_valid_update(before.app.views, i, g(before.app.views[i]));
            }
        } else {
            return None;
        }
        Some(
            match tap {
                RecordingTap::Raw => UiCommand::SetRawRecordingConfig(id, rec),
                RecordingTap::Display => UiCommand::SetDisplayRecordingConfig(id, rec),
            },
        )
    }

    /// Keeps the view settings that were edited, with the text in the font-size field: in
    /// the channel's view and configuration, and with the driver. Where no setting
    /// differs, nothing is kept.
    pub fn persist_view(&mut self, id: ChannelId, prefs: &ViewPrefs) -> (r: Option<UiCommand>)
        requires
            old(self).wf(),
        ensures
            final(self).wf(),
            ({
                let s = old(self)@;
                let v = s.app.views[index_of(s.app.views, id)];
                let differs = known(s.app.views, id) && !equal_settings(v.prefs, prefs@);
                let config = config_with(v.config, prefs@);
                &&& r is Some <==> differs
                &&& r matches Some(cmd) ==> cmd@ == UiCommandModel::SetViewConfig(
                    id,
                    config.display,
                    config.retention,
                )
                &&& final(self)@ == if differs {
                    Session {
                        app: AppModel {
                            views: changed(
                                s.app.views,
                                id,
                                |w: ViewModel|
                                    ViewModel {
                                        config,
                                        prefs: prefs@,
                                        font_text: prefs.font_text@,
                                        ..w
                                    },
                            ),
                            ..s.app
                        },
                        ..s
                    }
                } else {
                    s
                }
            }),
    {
        let ghost before = self@;
        let ghost i = index_of(before.app.views, id);
        let ghost config = config_with(before.app.views[i].config, prefs@);
        let ghost g = |w: ViewModel|
            ViewModel { config, prefs: prefs@, font_text: prefs.font_text@, ..w };
        if let Some(view) = self.state.channel_mut(id) {
            if view.view_prefs.eq_settings(prefs) {
                proof {
                    assert(before.app.views.update(i, before.app.views[i]) =~= before.app.views);
                }
                return None;
            }
            view.view_prefs = prefs.clone();
            prefs.apply_to_config(&mut view.config);
            let display = view.config.display.clone();
            let retention = view.config.retention;
            proof {
                crate::gui::state::lemma_changed_at(before.app.views, id, g, i);
                crate::gui::state::lemma_valid_update(before.app.views, i, g(before.app.views[i]));
            }
            return Some(UiCommand::SetViewConfig(id, display, retention));
        }
        None
    }

    /// The command that saves to the current file. Without one, a file has to be asked
    /// for.
    pub fn save_profile(&self) -> (r: Option<UiCommand>)
        ensures
            r is Some <==> self@.path is Some,
            r matches Some(cmd) ==> cmd@ == UiCommandModel::SaveProfile(self@.path->0),
    {
        match &self.current_profile_path {
            Some(path) => Some(UiCommand::SaveProfile(path.clone())),
            None => None,
        }
    }

    /// The command that saves to a file that was picked, which becomes the current one.
    pub fn save_profile_as(&mut self, path: &str) -> (r: UiCommand)
        ensures
            final(self)@ == (Session {
                path: Some(path@),
                recent: remembered(old(self)@.recent, path@),
                ..old(self)@
            }),
            final(self).state == old(self).state,
            r@ == UiCommandModel::SaveProfile(path@),
    {
        self.current_profile_path = Some(path.to_owned());
        remember_recent_profile(&mut self.recent_profiles, path);
        UiCommand::SaveProfile(path.to_owned())
    }

    /// The command that loads a file, which becomes the current one.
    pub fn load_profile_path(&mut self, path: &str) -> (r: UiCommand)
        ensures
            final(self)@ == (Session {
                path: Some(path@),
                recent: remembered(old(self)@.recent, path@),
                ..old(self)@
            }),
            final(self).state == old(self).state,
            r@ == UiCommandModel::LoadProfile(path@),
    {
        self.current_profile_path = Some(path.to_owned());
        remember_recent_profile(&mut self.recent_profiles, path);
        UiCommand::LoadProfile(path.to_owned())
    }

    /// Notes that a command could not be handed over.
    pub fn note_drop(&mut self, now: u64)
        ensures
            final(self)@ == (Session { drop: Some(now), ..old(self)@ }),
            final(self).state == old(self).state,
    {
        self.command_drop = Some(now);
    }

    /// Takes the notice of a dropped command down.
    pub fn dismiss_drop(&mut self)
        ensures
            final(self)@ == (Session { drop: None, ..old(self)@ }),
            final(self).state == old(self).state,
    {
        self.command_drop = None;
    }

    /// The notice of a dropped command, for as long as it stays up.
    pub fn drop_notice(&mut self, now: u64) -> (r: Option<&'static str>)
        ensures
            ({
                let s = old(self)@;
                let up = s.drop is Some && now - s.drop->0 <= COMMAND_DROP_NOTICE_TTL;
                &&& final(self)@ == if up {
                    s
                } else {
                    Session { drop: None, ..s }
                }
                &&& r is Some <==> up
                &&& r matches Some(text) ==> text@
                    == "a command was not delivered (the runtime is busy or stopped) \u{2014} the last click did nothing; retry it"@
            }),
            final(self).state == old(self).state,
    {
        match self.command_drop {
            None => None,
            Some(at) => {
                if now > at && now - at > COMMAND_DROP_NOTICE_TTL {
                    self.command_drop = None;
                    None
                } else {
                    Some(
                        "a command was not delivered (the runtime is busy or stopped) \u{2014} the last click did nothing; retry it",
                    )
                }
            },
        }
    }
}

/// A removed selection falls to a channel that is still there, as long as there is one.
pub proof fn law_selection_survives_removal(s: Session, update: UiUpdate)
    requires
        valid_views(s.app.views),
        update is ChannelRemoved,
        s.selected matches Some(id) ==> known(s.app.views, id),
        s.selected is Some,
    ensures
        ({
            let after = folded(s.app, update).views;
            let selected = selection_after(s, update);
            &&& after.len() > 0 ==> selected is Some
            &&& selected matches Some(id) ==> known(after, id)
        }),
{
    let gone = update->ChannelRemoved_0;
    let views = s.app.views;
    crate::gui::state::law_removal_keeps_the_others(s.app, gone);
    let after = folded(s.app, update).views;
    if known(views, gone) {
        let g = index_of(views, gone);
        if s.selected == Some(gone) {
            if g > 0 {
                assert(after[g - 1] == views[g - 1]);
            } else if views.len() > 1 {
                assert(after[0] == views[1]);
            }
        } else {
            let k = index_of(views, s.selected->0);
            if k < g {
                assert(after[k] == views[k]);
            } else {
                assert(k != g);
                assert(after[k - 1] == views[k]);
            }
        }
    }
}

/// A channel is never started on an incomplete configuration, and what is edited is what
/// it starts with.
pub proof fn law_starts_are_configured(s: Session, id: ChannelId)
    ensures
        start_checked(s, id).1 matches Some(config) ==> !incomplete_config(config),
        draft_of(s, id) is Some && start_checked(s, id).1 is Some ==> start_checked(s, id).1
            == draft_of(s, id),
{
}

/// What was kept need not be kept again: once the settings of a recording are in the
/// channel's configuration, they are those of the draft.
pub proof fn law_kept_recordings_are_settled(s: Session, id: ChannelId, tap: RecordingTap)
    requires
        valid_views(s.app.views),
        known(s.app.views, id),
        draft_of(s, id) is Some,
    ensures
        ({
            let committed = s.app.views[index_of(s.app.views, id)].config;
            let rec = tap_recording(draft_of(s, id)->0, tap);
            let after = reconfigured(s, id, with_recording(committed, tap, rec));
            &&& known(after.app.views, id)
            &&& draft_of(after, id) == draft_of(s, id)
            &&& tap_recording(after.app.views[index_of(after.app.views, id)].config, tap) == rec
        }),
{
    let i = index_of(s.app.views, id);
    let committed = s.app.views[i].config;
    let rec = tap_recording(draft_of(s, id)->0, tap);
    let config = with_recording(committed, tap, rec);
    let after = reconfigured(s, id, config).app.views;
    assert(after[i].id == id);
    let j = index_of(after, id);
    assert(after[j].id == id);
    assert(s.app.views[j].id == s.app.views[i].id);
}

/// A bulk start hands over exactly those channels that could be started one by one:
/// complaining of a channel decides nothing about another.
pub proof fn law_bulk_start_is_each_start(s: Session, ids: Seq<ChannelId>, id: ChannelId)
    requires
        valid_views(s.app.views),
        ids.contains(id),
    ensures
        start_checked(s, id).1 matches Some(config) ==> all_checked(s, ids).1.contains((id, config)),
        start_checked(s, id).1 is None ==> (forall|config: ChannelConfigModel|
            !#[trigger] all_checked(s, ids).1.contains((id, config))),
    decreases ids.len(),
{
    let front = ids.drop_last();
    let last = ids.last();
    let (before, batch) = all_checked(s, front);
    lemma_complaints_keep_configs(s, front);
    lemma_complaints_keep_configs(s, ids);
    assert(config_to_start(before, last) == config_to_start(s, last));
    let all = all_checked(s, ids).1;
    if start_checked(s, id).1 is Some {
        let config = start_checked(s, id).1->0;
        if id == last {
            assert(all.last() == (id, config));
            assert(all.contains((id, config)));
        } else {
            let k = choose|k: int| 0 <= k < ids.len() && ids[k] == id;
            assert(front[k] == id);
            law_bulk_start_is_each_start(s, front, id);
            let m = choose|m: int| 0 <= m < batch.len() && batch[m] == (id, config);
            assert(all[m] == (id, config));
        }
    } else {
        assert forall|config: ChannelConfigModel| !#[trigger] all.contains((id, config)) by {
            lemma_batch_is_checked(s, ids, id, config);
        }
    }
}

proof fn lemma_batch_is_checked(
    s: Session,
    ids: Seq<ChannelId>,
    id: ChannelId,
    config: ChannelConfigModel,
)
    requires
        valid_views(s.app.views),
    ensures
        all_checked(s, ids).1.contains((id, config)) ==> start_checked(s, id).1 == Some(config),
    decreases ids.len(),
{
    if ids.len() > 0 {
        let front = ids.drop_last();
        let (before, batch) = all_checked(s, front);
        lemma_batch_is_checked(s, front, id, config);
        lemma_complaints_keep_configs(s, front);
        let all = all_checked(s, ids).1;
        if all.contains((id, config)) {
            let m = choose|m: int| 0 <= m < all.len() && all[m] == (id, config);
            if m < batch.len() {
                assert(batch[m] == (id, config));
                assert(batch.contains((id, config)));
            } else {
                assert(ids.last() == id);
                assert(config_to_start(before, id) == config_to_start(s, id));
            }
        }
    }
}

/// Complaining changes no configuration and no draft.
proof fn lemma_complaints_keep_configs(s: Session, ids: Seq<ChannelId>)
    requires
        valid_views(s.app.views),
    ensures
        ({
            let after = all_checked(s, ids).0;
            &&& after.draft == s.draft
            &&& after.app.views.len() == s.app.views.len()
            &&& valid_views(after.app.views)
            &&& forall|i: int|
                0 <= i < s.app.views.len() ==> (#[trigger] after.app.views[i]).id
                    == s.app.views[i].id && after.app.views[i].config == s.app.views[i].config
            &&& forall|id: ChannelId|
                #[trigger] config_to_start(after, id) == config_to_start(s, id)
        }),
    decreases ids.len(),
{
    if ids.len() > 0 {
        lemma_complaints_keep_configs(s, ids.drop_last());
        let before = all_checked(s, ids.drop_last()).0;
        let after = all_checked(s, ids).0;
        let id = ids.last();
        assert forall|i: int| 0 <= i < s.app.views.len() implies (#[trigger] after.app.views[i]).id
            == s.app.views[i].id && after.app.views[i].config == s.app.views[i].config
            && after.app.views[i].marks == before.app.views[i].marks && after.app.views[i].stream
            == before.app.views[i].stream && after.app.views[i].cursor
            == before.app.views[i].cursor by {
            assert(before.app.views[i].id == s.app.views[i].id);
        }
        assert forall|a: int, b: int|
            0 <= a < after.app.views.len() && 0 <= b < after.app.views.len() && (
            #[trigger] after.app.views[a]).id == (#[trigger] after.app.views[b]).id implies a
            == b by {
            assert(s.app.views[a].id == s.app.views[b].id);
        }
        assert forall|i: int| 0 <= i < after.app.views.len() implies valid_view(
            #[trigger] after.app.views[i],
        ) by {
            assert(before.app.views[i].id == s.app.views[i].id);
        }
        assert(valid_views(after.app.views));
        assert(after.draft == s.draft);
        assert forall|k: ChannelId| #[trigger] config_to_start(after, k) == config_to_start(
            s,
            k,
        ) by {
            lemma_same_config(s, after, k);
        }
    } else {
        assert forall|k: ChannelId| #[trigger] config_to_start(all_checked(s, ids).0, k)
            == config_to_start(s, k) by {}
    }
}

proof fn lemma_same_config(s: Session, t: Session, id: ChannelId)
    requires
        valid_views(s.app.views),
        valid_views(t.app.views),
        s.draft == t.draft,
        s.app.views.len() == t.app.views.len(),
        forall|i: int|
            0 <= i < s.app.views.len() ==> (#[trigger] t.app.views[i]).id == s.app.views[i].id
                && t.app.views[i].config == s.app.views[i].config,
    ensures
        config_to_start(t, id) == config_to_start(s, id),
{
    if known(s.app.views, id) {
        let i = index_of(s.app.views, id);
        assert(t.app.views[i].id == id);
        let j = index_of(t.app.views, id);
        assert(t.app.views[j].id == t.app.views[i].id);
    } else if known(t.app.views, id) {
        let j = index_of(t.app.views, id);
        assert(s.app.views[j].id == id);
    }
}

} // verus!
