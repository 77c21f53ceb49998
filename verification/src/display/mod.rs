//! Raw, rendered and hex display of received bytes.
//!
//! Display is presentation only: it never alters bytes or recordings. Bytes are decoded
//! under the display encoding into characters, each character is rendered under the
//! character rendering mode, and the display mode assembles them.

use vstd::prelude::*;

use crate::model::ids::ChannelId;
use crate::model::timing::ChunkTime;

pub mod encoding;
pub mod paint;
pub mod render;
pub mod rows;
pub mod seam;
pub mod stream;
pub mod wrapping;

pub use render::{AnnotationPlacement, DisplayView, RenderAnnotation};
pub use stream::StreamRenderer;

verus! {

/// How received data is assembled for a view.
#[derive(Clone, Copy, Debug, PartialEq, Eq, Structural)]
pub enum DisplayMode {
    Raw,
    Rendered,
    Hex,
}

/// How bytes are decoded into characters.
#[derive(Clone, Copy, Debug, PartialEq, Eq, Structural)]
pub enum DisplayEncoding {
    Ascii,
    Utf8,
    Utf16Le,
    Utf16Be,
    Latin1,
}

/// How each character is displayed.
#[derive(Clone, Copy, Debug, PartialEq, Eq, Structural)]
pub enum CharacterRendering {
    /// The actual character, unchanged (controls are passed through).
    Native,
    /// `[CR]` `[LF]` `[TAB]` `[NUL]` `[SP]` …
    Token,
    /// `␍` `␊` `␉` `␀` `␠` (Unicode Control Pictures).
    Glyph,
    /// `<0D>` `<0A>` `<09>` `<00>` `<20>`
    HexEscape,
}

/// Whether a view wraps its lines.
#[derive(Clone, Copy, Debug, PartialEq, Eq, Structural)]
pub enum WrappingMode {
    NoWrap,
    Wrap,
}

/// Rendered text on its way to a display recording. It is not byte-exact.
#[derive(Clone, Debug, PartialEq, Eq)]
pub struct RenderedOutput {
    pub channel_id: ChannelId,
    pub text: String,
    /// When the rendered chunk arrived, which says the period that a rotating recording
    /// files it under. A text without a source chunk has none.
    pub timestamp: Option<ChunkTime>,
}

} // verus!
