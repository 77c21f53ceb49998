//! Common types: identifiers, states, events, messages, timing and shared errors.

pub mod command;
pub mod error;
pub mod float;
pub mod ids;
pub mod message;
pub mod metadata;
pub mod state;
pub mod timing;
pub mod zda;

pub use command::RuntimeEvent;
pub use error::{ErrorCategory, RecordError};
pub use ids::{ChannelId, ChannelName, DisplayViewId, MatchRuleId, StableConfigId};
pub use state::{ChannelKind, ChannelState, DisplayState, RecordingState};
pub use timing::ChunkTime;
