//! What the library promises, stated of inputs and results in plain terms: characters and
//! bytes, positions, and how two results relate.

pub mod annotations;
pub mod cache;
pub mod cards;
pub mod command_line;
pub mod config;
pub mod controls;
pub mod decode;
pub mod details;
pub mod diagnostics;
pub mod display;
pub mod driver;
pub mod editing;
pub mod encoding;
pub mod errors;
pub mod extract;
pub mod identity;
pub mod live;
pub mod marks;
pub mod panels;
pub mod rendering;
pub mod rows;
pub mod state;
pub mod tails;
pub mod telling;
pub mod text;
pub mod timing;
