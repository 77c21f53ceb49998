//! Profiles: schema, validation and templates.

pub mod schema;
pub mod templates;
pub mod validate;

pub use validate::{
    channel_warnings, validate_channel, ChannelConfigError, ChannelConfigWarning, ConfigError,
    Profile, CURRENT_VERSION,
};
