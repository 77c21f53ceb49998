//! Listener: receive, frame, identify and present byte streams.

pub mod cli;
pub mod config;
pub mod decode;
pub mod diagnostics;
pub mod display;
pub mod extract;
pub mod gui;
pub mod laws;
pub mod model;
pub mod record;
pub mod retention;
pub mod text;
pub mod unicode;
