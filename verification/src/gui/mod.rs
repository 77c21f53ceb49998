//! What the graphical interface decides and shows, apart from drawing it.

pub mod app;
pub mod bridge;
pub mod cards;
pub mod detail;
pub mod details;
pub mod editors;
pub mod escape;
pub mod fonts;
pub mod help;
pub mod mark_rules;
pub mod marks;
pub mod names;
pub mod panes;
pub mod phrases;
pub mod recents;
pub mod points;
pub mod rows;
pub mod snapshot;
pub mod state;
pub mod view_prefs;
pub mod widgets;
