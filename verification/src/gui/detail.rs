//! The detail pane: what it shows of the selected channel, and what the view controls do.

use vstd::prelude::*;
use vstd::string::*;

use crate::config::schema::{equal_configs, FontSize, InterfaceConfigModel};
use crate::display::render::DisplayView;
use crate::display::{CharacterRendering, DisplayEncoding, DisplayMode, WrappingMode};
use crate::gui::app::{drafted, ListenerApp, Session};
use crate::gui::fonts::MonoFont;
use crate::gui::marks::pins;
use crate::gui::panes::{first_view, port_in_question};
use crate::gui::points::{points_text, size_text};
use crate::gui::rows::{
    cache_model, refresh_rows, refreshed, refreshed_batches, StreamRefresh, StreamRenderCache,
};
use crate::gui::snapshot::{Rate, SerialControlLines};
use crate::gui::state::{index_of, known, AppState, ChannelStatus, ViewModel};
use crate::gui::view_prefs::{clamp_scroll_buffer, scroll_limit, ColorScheme, Settings, ViewPrefs};
use crate::gui::widgets::{
    start_button, start_button_spec, stop_enabled, without_live_fields,
};
use crate::model::ids::{ChannelId, DisplayViewId};
use crate::model::metadata::optional_text;
use crate::model::state::RecordingState;

verus! {

/// What the pane shows of a channel.
#[derive(Debug)]
pub struct DetailHeader {
    pub id: ChannelId,
    pub details: String,
    pub status: ChannelStatus,
    pub bytes_total: u64,
    pub bytes_per_sec: Rate,
    /// The start button: its label, and whether it can be pressed.
    pub start: (&'static str, bool),
    /// Whether the stop button can be pressed.
    pub stop: bool,
    /// The line that says why the last command failed.
    pub error: Option<String>,
    /// The serial device that a hint is due for.
    pub port: Option<String>,
    pub recording: Option<RecordingState>,
    pub display_recording: Option<RecordingState>,
    pub control_lines: Option<SerialControlLines>,
    /// The first display view, and whether it is paused.
    pub view: Option<(DisplayViewId, bool)>,
    /// Whether the configuration section is to be opened now.
    pub open_config: bool,
}

/// The detail pane.
#[derive(Debug)]
pub enum DetailPane {
    /// No channel is selected.
    NoSelection,
    /// The selected channel is not there.
    Gone,
    Channel(DetailHeader),
}

/// The device of a serial interface.
pub open spec fn serial_device(i: InterfaceConfigModel) -> Option<Seq<char>> {
    match i {
        InterfaceConfigModel::Serial(s) => Some(s.port),
        _ => None,
    }
}

/// Whether the draft of a channel waits for a restart.
pub open spec fn restart_due(s: Session, id: ChannelId) -> bool {
    match crate::gui::app::draft_of(s, id) {
        Some(draft) => known(s.app.views, id) && ({
            let committed = s.app.views[index_of(s.app.views, id)].config;
            !equal_configs(without_live_fields(draft, committed), committed)
        }),
        None => false,
    }
}

/// A header shows a channel of a session.
pub open spec fn shows_detail(h: DetailHeader, s: Session, v: ViewModel) -> bool {
    &&& h.id == v.id
    &&& h.details@ == v.details
    &&& h.status == v.status
    &&& h.bytes_total == v.bytes_total
    &&& h.bytes_per_sec == v.bytes_per_sec
    &&& (h.start.0@, h.start.1) == start_button_spec(v.status, restart_due(s, v.id))
    &&& h.stop == !(v.status is Stopped)
    &&& optional_text(h.error) == match v.last_error {
        Some(e) => Some("\u{26A0} "@ + e),
        None => None,
    }
    &&& optional_text(h.port) == if (v.status is Faulted || v.last_error is Some) && serial_device(
        v.config.interface,
    ) is Some && serial_device(v.config.interface)->0.len() > 0 {
        serial_device(v.config.interface)
    } else {
        None
    }
    &&& h.recording == v.recording
    &&& h.display_recording == v.display_recording
    &&& h.control_lines == v.control_lines
    &&& h.view == match v.snapshot {
        Some(snapshot) => if snapshot.display_views@.len() > 0 {
            Some((snapshot.display_views@[0].id, snapshot.display_views@[0].paused))
        } else {
            None
        },
        None => None,
    }
    &&& h.open_config == s.force_open
}

/// Shows the selected channel: its configuration becomes the draft, and a request to open
/// its configuration section is honored once.
pub fn show_detail(app: &mut ListenerApp) -> (r: DetailPane)
    requires
        old(app).wf(),
    ensures
        final(app).wf(),
        match old(app)@.selected {
            None => r is NoSelection && final(app)@ == old(app)@,
            Some(id) => {
                let s = drafted(old(app)@, id);
                if known(s.app.views, id) {
                    &&& r is Channel
                    &&& shows_detail(r->Channel_0, s, s.app.views[index_of(s.app.views, id)])
                    &&& final(app)@ == (Session { force_open: false, ..s })
                } else {
                    r is Gone && final(app)@ == s
                }
            },
        },
{
    let id: ChannelId = match app.selected {
        None => {
            return DetailPane::NoSelection;
        },
        Some(id) => id,
    };
    app.sync_edit_draft(id);
    let config_changed: bool = app.config_changed(id);
    let open_config: bool = app.force_config_open;
    let header: DetailHeader = match app.state.channel(id) {
        None => {
            return DetailPane::Gone;
        },
        Some(view) => {
            let error: Option<String> = match &view.last_error {
                Some(e) => {
                    let mut line: String = "\u{26A0} ".to_owned();
                    line.append(e.as_str());
                    Some(line)
                },
                None => None,
            };
            DetailHeader {
                id,
                details: view.details.clone(),
                status: view.status,
                bytes_total: view.bytes_total,
                bytes_per_sec: view.bytes_per_sec,
                start: start_button(view.status, config_changed),
                stop: stop_enabled(view.status),
                error,
                port: port_in_question(view),
                recording: view.recording,
                display_recording: view.display_recording,
                control_lines: view.control_lines,
                view: first_view(&view.snapshot),
                open_config,
            }
        },
    };
    app.force_config_open = false;
    DetailPane::Channel(header)
}

/// One edit of the view settings.
#[derive(Debug)]
pub enum ViewEdit {
    Mode(DisplayMode),
    /// How control characters read; only Raw mode offers it.
    Chars(CharacterRendering),
    /// Text typed into the font-size field, with the size that it reads as, if it does.
    FontText(String, Option<FontSize>),
    /// One of the offered font sizes.
    FontPreset(FontSize),
    Colors(ColorScheme),
    Mono(MonoFont),
    /// A scroll buffer, in kilobytes.
    ScrollBuffer(usize),
}

/// The settings after an edit.
pub open spec fn edited_settings(s: Settings, edit: ViewEdit) -> Settings {
    match edit {
        ViewEdit::Mode(mode) => Settings { mode, ..s },
        ViewEdit::Chars(chars) => if s.mode is Raw {
            Settings { chars, ..s }
        } else {
            s
        },
        ViewEdit::FontText(_, size) => match size {
            Some(font_size) => Settings { font_size, ..s },
            None => s,
        },
        ViewEdit::FontPreset(font_size) => Settings { font_size, ..s },
        ViewEdit::Colors(colors) => Settings { colors, ..s },
        ViewEdit::Mono(mono) => Settings { mono, ..s },
        ViewEdit::ScrollBuffer(kb) => Settings {
            scroll_buffer_bytes: scroll_limit(
                if kb * 1024 > usize::MAX {
                    usize::MAX
                } else {
                    (kb * 1024) as usize
                },
            ),
            ..s
        },
    }
}

/// What the font-size field holds after an edit.
pub open spec fn edited_font_text(text: Seq<char>, edit: ViewEdit) -> Seq<char> {
    match edit {
        ViewEdit::FontText(t, _) => t@,
        ViewEdit::FontPreset(size) => points_text(size),
        _ => text,
    }
}

/// Applies one edit to the view settings.
pub fn edit_view(prefs: &mut ViewPrefs, edit: &ViewEdit)
    ensures
        final(prefs)@ == edited_settings(old(prefs)@, *edit),
        final(prefs).font_text@ == edited_font_text(old(prefs).font_text@, *edit),
{
    match edit {
        ViewEdit::Mode(mode) => {
            prefs.mode = *mode;
        },
        ViewEdit::Chars(chars) => {
            if prefs.mode == DisplayMode::Raw {
                prefs.chars = *chars;
            }
        },
        ViewEdit::FontText(text, size) => {
            prefs.font_text = text.clone();
            if let Some(font_size) = size {
                prefs.font_size = *font_size;
            }
        },
        ViewEdit::FontPreset(font_size) => {
            prefs.font_size = *font_size;
            prefs.font_text = size_text(*font_size);
        },
        ViewEdit::Colors(colors) => {
            prefs.colors = *colors;
        },
        ViewEdit::Mono(mono) => {
            prefs.mono = *mono;
        },
        ViewEdit::ScrollBuffer(kb) => {
            let largest: usize = usize::MAX / 1024;
            prefs.scroll_buffer_bytes = if *kb > largest {
                clamp_scroll_buffer(usize::MAX)
            } else {
                clamp_scroll_buffer(*kb * 1024)
            };
        },
    }
}

/// Every scroll buffer that can be picked is within its limits.
pub proof fn law_picked_scroll_buffers_fit(s: Settings, kb: usize)
    ensures
        ({
            let picked = edited_settings(s, ViewEdit::ScrollBuffer(kb)).scroll_buffer_bytes;
            scroll_limit(picked) == picked
        }),
{
}

/// How the stream view renders: verbatim, as UTF-8, and wrapped by its rows alone.
pub open spec fn is_stream_view(v: DisplayView, s: Settings) -> bool {
    &&& v.mode == s.mode
    &&& v.encoding == DisplayEncoding::Utf8
    &&& v.character_rendering == s.chars
    &&& v.wrapping == WrappingMode::NoWrap
    &&& v.wrap_width is None
    &&& v.hex_separator@ == " "@
    &&& v.hex_bytes_per_line == 16
}

/// How the stream view renders.
pub fn stream_view(prefs: &ViewPrefs) -> (r: DisplayView)
    ensures
        is_stream_view(r, prefs@),
{
    DisplayView {
        mode: prefs.mode,
        encoding: DisplayEncoding::Utf8,
        character_rendering: prefs.chars,
        wrapping: WrappingMode::NoWrap,
        wrap_width: None,
        hex_separator: " ".to_owned(),
        hex_bytes_per_line: 16,
    }
}

/// A refresh takes what a channel has in view.
pub open spec fn refreshes(p: StreamRefresh, v: ViewModel, view: DisplayView, wrap_cols: usize) -> bool {
    &&& p.channel == v.id
    &&& p.window@ == v.stream
    &&& p.window_start == v.cursor - v.stream.len()
    &&& p.cursor == v.cursor
    &&& pins(p.marks@) == v.marks
    &&& p.marks_version == v.marks_version
    &&& *p.view == view
    &&& p.wrap_cols == wrap_cols
}

/// Brings the rows of a channel up to date. Without the channel there are none.
pub fn refresh_stream_rows(
    state: &AppState,
    cache: &mut Option<StreamRenderCache>,
    id: ChannelId,
    view: &DisplayView,
    wrap_cols: usize,
)
    requires
        state.wf(),
        *old(cache) matches Some(c) ==> c.wf(),
        known(state@.views, id) ==> state@.views[index_of(state@.views, id)].stream.len() + 3
            <= usize::MAX,
    ensures
        known(state@.views, id) ==> (*final(cache) matches Some(c) && c.wf()),
        known(state@.views, id) ==> exists|p: StreamRefresh|
            #![trigger refreshes(p, state@.views[index_of(state@.views, id)], *view, wrap_cols)]
            refreshes(p, state@.views[index_of(state@.views, id)], *view, wrap_cols) && refreshed(
                cache_model(*old(cache)),
                p,
                final(cache)->0@,
            ) && final(cache)->0.row_batches@ == refreshed_batches(*old(cache), p),
        !known(state@.views, id) ==> *final(cache) is None,
{
    match state.channel(id) {
        None => {
            *cache = None;
        },
        Some(v) => {
            let p = StreamRefresh {
                channel: id,
                window: v.stream_contiguous(),
                window_start: v.stream_base_offset(),
                cursor: v.stream_cursor,
                marks: &v.marks,
                marks_version: v.marks_version,
                view,
                wrap_cols,
            };
            assert(refreshes(p, state@.views[index_of(state@.views, id)], *view, wrap_cols));
            refresh_rows(cache, &p);
        },
    }
}

} // verus!
