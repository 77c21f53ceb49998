//! Per-channel presentation of the stream view, and how it is kept in the channel's
//! configuration.

use vstd::prelude::*;
use vstd::string::*;

use crate::config::schema::{
    display_view_configs_view, ChannelConfig, ChannelConfigModel, DisplayConfigModel,
    DisplayViewConfigModel, FontSize, RetentionConfig,
};
use crate::display::{CharacterRendering, DisplayMode};
use crate::gui::fonts::{law_font_round_trip, MonoFont};
use crate::gui::points::{points_text, size_text};
use crate::model::float::{same_single, singles_equal};
use crate::model::metadata::optional_text;
use crate::text::{decimal, push_decimal, same_text};

verus! {

/// A color by its red, green and blue parts.
#[derive(Clone, Copy, Debug, PartialEq, Eq, Structural)]
pub struct Rgb {
    pub r: u8,
    pub g: u8,
    pub b: u8,
}

/// A preset color scheme of the stream view.
#[derive(Clone, Copy, Debug, PartialEq, Eq, Structural)]
pub enum ColorScheme {
    BlackOnWhite,
    GreenOnBlack,
    /// A softer, less saturated green.
    GreenOnBlackDim,
    AmberOnBlack,
    WhiteOnBlack,
}

impl ColorScheme {
    pub open spec fn label_spec(self) -> Seq<char> {
        match self {
            ColorScheme::BlackOnWhite => "Black on white"@,
            ColorScheme::GreenOnBlack => "Green on black"@,
            ColorScheme::GreenOnBlackDim => "Green on black (dim)"@,
            ColorScheme::AmberOnBlack => "Amber on black"@,
            ColorScheme::WhiteOnBlack => "White on black"@,
        }
    }

    /// What the scheme is called in the picker.
    pub fn label(self) -> (r: &'static str)
        ensures
            r@ == self.label_spec(),
    {
        match self {
            ColorScheme::BlackOnWhite => "Black on white",
            ColorScheme::GreenOnBlack => "Green on black",
            ColorScheme::GreenOnBlackDim => "Green on black (dim)",
            ColorScheme::AmberOnBlack => "Amber on black",
            ColorScheme::WhiteOnBlack => "White on black",
        }
    }

    /// The color of the text.
    pub fn fg(self) -> (r: Rgb)
        ensures
            r == match self {
                ColorScheme::BlackOnWhite => Rgb { r: 20, g: 20, b: 20 },
                ColorScheme::GreenOnBlack => Rgb { r: 60, g: 230, b: 60 },
                ColorScheme::GreenOnBlackDim => Rgb { r: 90, g: 170, b: 100 },
                ColorScheme::AmberOnBlack => Rgb { r: 255, g: 190, b: 70 },
                ColorScheme::WhiteOnBlack => Rgb { r: 235, g: 235, b: 235 },
            },
    {
        match self {
            ColorScheme::BlackOnWhite => Rgb { r: 20, g: 20, b: 20 },
            ColorScheme::GreenOnBlack => Rgb { r: 60, g: 230, b: 60 },
            ColorScheme::GreenOnBlackDim => Rgb { r: 90, g: 170, b: 100 },
            ColorScheme::AmberOnBlack => Rgb { r: 255, g: 190, b: 70 },
            ColorScheme::WhiteOnBlack => Rgb { r: 235, g: 235, b: 235 },
        }
    }

    pub open spec fn bg_spec(self) -> Rgb {
        match self {
            ColorScheme::BlackOnWhite => Rgb { r: 252, g: 252, b: 252 },
            _ => Rgb { r: 16, g: 16, b: 16 },
        }
    }

    /// The color of the background.
    pub fn bg(self) -> (r: Rgb)
        ensures
            r == self.bg_spec(),
    {
        match self {
            ColorScheme::BlackOnWhite => Rgb { r: 252, g: 252, b: 252 },
            _ => Rgb { r: 16, g: 16, b: 16 },
        }
    }

    pub open spec fn name_spec(self) -> Seq<char> {
        match self {
            ColorScheme::BlackOnWhite => "black_on_white"@,
            ColorScheme::GreenOnBlack => "green_on_black"@,
            ColorScheme::GreenOnBlackDim => "green_on_black_dim"@,
            ColorScheme::AmberOnBlack => "amber_on_black"@,
            ColorScheme::WhiteOnBlack => "white_on_black"@,
        }
    }

    /// The token that a profile keeps of the scheme.
    pub fn name(self) -> (r: &'static str)
        ensures
            r@ == self.name_spec(),
    {
        match self {
            ColorScheme::BlackOnWhite => "black_on_white",
            ColorScheme::GreenOnBlack => "green_on_black",
            ColorScheme::GreenOnBlackDim => "green_on_black_dim",
            ColorScheme::AmberOnBlack => "amber_on_black",
            ColorScheme::WhiteOnBlack => "white_on_black",
        }
    }

    /// The scheme of a token. An unknown token, and none, is the default scheme.
    pub open spec fn of_name(name: Option<Seq<char>>) -> ColorScheme {
        if name == Some("green_on_black"@) {
            ColorScheme::GreenOnBlack
        } else if name == Some("green_on_black_dim"@) {
            ColorScheme::GreenOnBlackDim
        } else if name == Some("amber_on_black"@) {
            ColorScheme::AmberOnBlack
        } else if name == Some("white_on_black"@) {
            ColorScheme::WhiteOnBlack
        } else {
            ColorScheme::BlackOnWhite
        }
    }

    /// The scheme of a token.
    pub fn from_name(name: &Option<String>) -> (r: ColorScheme)
        ensures
            r == ColorScheme::of_name(optional_text(*name)),
    {
        match name {
            Some(n) => {
                let t: &str = n.as_str();
                if same_text(t, "green_on_black") {
                    ColorScheme::GreenOnBlack
                } else if same_text(t, "green_on_black_dim") {
                    ColorScheme::GreenOnBlackDim
                } else if same_text(t, "amber_on_black") {
                    ColorScheme::AmberOnBlack
                } else if same_text(t, "white_on_black") {
                    ColorScheme::WhiteOnBlack
                } else {
                    ColorScheme::BlackOnWhite
                }
            },
            None => ColorScheme::BlackOnWhite,
        }
    }
}

/// A scheme comes back from its token.
pub proof fn law_scheme_round_trip(scheme: ColorScheme)
    ensures
        ColorScheme::of_name(Some(scheme.name_spec())) == scheme,
{
    reveal_strlit("black_on_white");
    reveal_strlit("green_on_black");
    reveal_strlit("green_on_black_dim");
    reveal_strlit("amber_on_black");
    reveal_strlit("white_on_black");
    match scheme {
        ColorScheme::BlackOnWhite => {
            assert("black_on_white"@[0] == 'b');
            assert("green_on_black"@[0] == 'g');
            assert("green_on_black_dim"@[0] == 'g');
            assert("amber_on_black"@[0] == 'a');
            assert("white_on_black"@[0] == 'w');
        },
        ColorScheme::GreenOnBlack => {},
        ColorScheme::GreenOnBlackDim => {
            assert("green_on_black"@.len() == 14);
            assert("green_on_black_dim"@.len() == 18);
        },
        ColorScheme::AmberOnBlack => {
            assert("amber_on_black"@[0] == 'a');
            assert("green_on_black"@[0] == 'g');
            assert("green_on_black_dim"@[0] == 'g');
        },
        ColorScheme::WhiteOnBlack => {
            assert("white_on_black"@[0] == 'w');
            assert("green_on_black"@[0] == 'g');
            assert("green_on_black_dim"@[0] == 'g');
            assert("amber_on_black"@[0] == 'a');
        },
    }
}

/// The smallest scroll buffer, in bytes.
pub const MIN_SCROLL_BUFFER_BYTES: usize = 2048;

/// The largest scroll buffer, in bytes.
pub const MAX_SCROLL_BUFFER_BYTES: usize = 262_144;

/// The scroll buffer of a channel that configures none, in bytes.
pub const DEFAULT_SCROLL_BUFFER_BYTES: usize = 65_536;

/// The bits of the font size of a view that configures none: 13 points.
pub const DEFAULT_FONT_SIZE_BITS: u32 = 0x4150_0000;

/// A scroll buffer within its limits.
pub open spec fn scroll_limit(bytes: usize) -> usize {
    if bytes < MIN_SCROLL_BUFFER_BYTES {
        MIN_SCROLL_BUFFER_BYTES
    } else if bytes > MAX_SCROLL_BUFFER_BYTES {
        MAX_SCROLL_BUFFER_BYTES
    } else {
        bytes
    }
}

/// A scroll buffer within its limits.
pub fn clamp_scroll_buffer(bytes: usize) -> (r: usize)
    ensures
        r == scroll_limit(bytes),
{
    if bytes < MIN_SCROLL_BUFFER_BYTES {
        MIN_SCROLL_BUFFER_BYTES
    } else if bytes > MAX_SCROLL_BUFFER_BYTES {
        MAX_SCROLL_BUFFER_BYTES
    } else {
        bytes
    }
}

/// The scroll buffer sizes that are offered, in kilobytes.
pub fn scroll_buffer_presets_kb() -> (r: Vec<usize>)
    ensures
        r@ == seq![2usize, 4, 8, 16, 32, 64, 128, 256],
        forall|i: int|
            0 <= i < r@.len() ==> scroll_limit((#[trigger] r@[i] * 1024) as usize) == r@[i] * 1024,
{
    let mut v: Vec<usize> = Vec::new();
    v.push(2);
    v.push(4);
    v.push(8);
    v.push(16);
    v.push(32);
    v.push(64);
    v.push(128);
    v.push(256);
    assert(v@ =~= seq![2usize, 4, 8, 16, 32, 64, 128, 256]);
    v
}

/// What a scroll buffer size reads as.
pub fn scroll_buffer_label(bytes: usize) -> (r: String)
    ensures
        r@ == decimal(bytes as nat / 1024) + " kB"@,
{
    let mut out: String = String::new();
    push_decimal(&mut out, (bytes / 1024) as u64);
    out.append(" kB");
    assert(out@ =~= decimal(bytes as nat / 1024) + " kB"@);
    out
}

/// One channel's presentation settings.
#[derive(Debug, PartialEq)]
pub struct ViewPrefs {
    pub mode: DisplayMode,
    pub chars: CharacterRendering,
    pub font_size: FontSize,
    /// The text in the font-size field, which may be in the middle of being edited.
    pub font_text: String,
    pub mono: MonoFont,
    pub colors: ColorScheme,
    pub scroll_buffer_bytes: usize,
}

/// The settings that are kept, without the text being edited.
pub ghost struct Settings {
    pub mode: DisplayMode,
    pub chars: CharacterRendering,
    pub font_size: FontSize,
    pub mono: MonoFont,
    pub colors: ColorScheme,
    pub scroll_buffer_bytes: usize,
}

impl View for ViewPrefs {
    type V = Settings;

    open spec fn view(&self) -> Settings {
        Settings {
            mode: self.mode,
            chars: self.chars,
            font_size: self.font_size,
            mono: self.mono,
            colors: self.colors,
            scroll_buffer_bytes: self.scroll_buffer_bytes,
        }
    }
}

/// Two settings are equal: their font sizes as numbers, and all else.
pub open spec fn equal_settings(a: Settings, b: Settings) -> bool {
    same_single(a.font_size.bits, b.font_size.bits) && (Settings {
        font_size: b.font_size,
        ..a
    }) == b
}

/// The settings of a channel without a view.
pub open spec fn default_settings(scroll_buffer_bytes: usize) -> Settings {
    Settings {
        mode: DisplayMode::Rendered,
        chars: CharacterRendering::Glyph,
        font_size: FontSize { bits: DEFAULT_FONT_SIZE_BITS },
        mono: MonoFont::Cascadia,
        colors: ColorScheme::BlackOnWhite,
        scroll_buffer_bytes,
    }
}

/// The scroll buffer of a channel.
pub open spec fn scroll_of(retention: RetentionConfig) -> usize {
    match retention.byte_limit {
        Some(n) => scroll_limit(n),
        None => DEFAULT_SCROLL_BUFFER_BYTES,
    }
}

/// The settings that a configuration keeps: those of its first view.
pub open spec fn settings_of(config: ChannelConfigModel) -> Settings {
    let scroll = scroll_of(config.retention);
    if config.display.views.len() == 0 {
        default_settings(scroll)
    } else {
        let view = config.display.views[0];
        Settings {
            mode: view.mode,
            chars: view.character_rendering,
            font_size: match view.font_size {
                Some(size) => size,
                None => FontSize { bits: DEFAULT_FONT_SIZE_BITS },
            },
            mono: MonoFont::of_name(view.font),
            colors: ColorScheme::of_name(view.foreground_color),
            scroll_buffer_bytes: scroll,
        }
    }
}

/// A view with the settings in it.
pub open spec fn view_with(view: DisplayViewConfigModel, s: Settings) -> DisplayViewConfigModel {
    DisplayViewConfigModel {
        mode: s.mode,
        character_rendering: s.chars,
        font: Some(s.mono.name_spec()),
        font_size: Some(s.font_size),
        foreground_color: Some(s.colors.name_spec()),
        ..view
    }
}

/// A configuration with the settings in it: in its first view, where it has one, and in
/// its retention.
pub open spec fn config_with(config: ChannelConfigModel, s: Settings) -> ChannelConfigModel {
    ChannelConfigModel {
        display: if config.display.views.len() == 0 {
            config.display
        } else {
            DisplayConfigModel {
                views: config.display.views.update(0, view_with(config.display.views[0], s)),
            }
        },
        retention: RetentionConfig {
            byte_limit: Some(s.scroll_buffer_bytes),
            ..config.retention
        },
        ..config
    }
}

/// Settings that were put into a configuration with a view come back from it.
pub proof fn law_settings_round_trip(config: ChannelConfigModel, s: Settings)
    requires
        config.display.views.len() > 0,
        scroll_limit(s.scroll_buffer_bytes) == s.scroll_buffer_bytes,
    ensures
        settings_of(config_with(config, s)) == s,
{
    law_scheme_round_trip(s.colors);
    law_font_round_trip(s.mono);
}

impl Clone for ViewPrefs {
    fn clone(&self) -> (r: ViewPrefs)
        ensures
            r@ == self@,
            r.font_text@ == self.font_text@,
    {
        ViewPrefs {
            mode: self.mode,
            chars: self.chars,
            font_size: self.font_size,
            font_text: self.font_text.clone(),
            mono: self.mono,
            colors: self.colors,
            scroll_buffer_bytes: self.scroll_buffer_bytes,
        }
    }
}

impl ViewPrefs {
    /// Whether both keep the same settings, whatever is being edited.
    pub fn eq_settings(&self, other: &ViewPrefs) -> (r: bool)
        ensures
            r == equal_settings(self@, other@),
    {
        self.mode == other.mode && self.chars == other.chars && singles_equal(
            self.font_size.bits,
            other.font_size.bits,
        )
            && self.mono == other.mono && self.colors == other.colors
            && self.scroll_buffer_bytes == other.scroll_buffer_bytes
    }

    /// The settings that a configuration keeps, and the font size as its field shows it.
    pub fn from_config(config: &ChannelConfig) -> (r: ViewPrefs)
        ensures
            r@ == settings_of(config@),
            r.font_text@ == points_text(r@.font_size),
    {
        let scroll: usize = match config.retention.byte_limit {
            Some(n) => clamp_scroll_buffer(n),
            None => DEFAULT_SCROLL_BUFFER_BYTES,
        };
        if config.display.views.len() == 0 {
            let font_size = FontSize { bits: DEFAULT_FONT_SIZE_BITS };
            return ViewPrefs {
                mode: DisplayMode::Rendered,
                chars: CharacterRendering::Glyph,
                font_size,
                font_text: size_text(font_size),
                mono: MonoFont::Cascadia,
                colors: ColorScheme::BlackOnWhite,
                scroll_buffer_bytes: scroll,
            };
        }
        let view = &config.display.views[0];
        assert(config@.display.views[0] == view@);
        let font_size = match view.font_size {
            Some(size) => size,
            None => FontSize { bits: DEFAULT_FONT_SIZE_BITS },
        };
        ViewPrefs {
            mode: view.mode,
            chars: view.character_rendering,
            font_size,
            font_text: size_text(font_size),
            mono: MonoFont::from_name(&view.font),
            colors: ColorScheme::from_name(&view.foreground_color),
            scroll_buffer_bytes: scroll,
        }
    }

    /// Puts the settings into a configuration.
    pub fn apply_to_config(&self, config: &mut ChannelConfig)
        ensures
            final(config)@ == config_with(old(config)@, self@),
    {
        let ghost before = config@;
        if config.display.views.len() > 0 {
            let mut view = config.display.views[0].clone();
            assert(view@ == before.display.views[0]);
            view.mode = self.mode;
            view.character_rendering = self.chars;
            view.font_size = Some(self.font_size);
            view.font = Some(self.mono.name().to_owned());
            view.foreground_color = Some(self.colors.name().to_owned());
            assert(view@ == view_with(before.display.views[0], self@));
            config.display.views.set(0, view);
            assert(display_view_configs_view(config.display.views@)
                =~= before.display.views.update(0, view@));
        }
        config.retention = RetentionConfig {
            byte_limit: Some(self.scroll_buffer_bytes),
            event_limit: config.retention.event_limit,
            warning_limit: config.retention.warning_limit,
            error_limit: config.retention.error_limit,
        };
    }
}

} // verus!
