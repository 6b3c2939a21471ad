//! Decisions, parsers and state of a volume controller for Stream Deck keys
//! and dials.

pub mod app_column;
pub mod application_targets;
pub mod audio;
pub mod device_dial;
pub mod dial;
pub mod dynamic;
pub mod feedback;
pub mod icons;
pub mod mixer;
pub mod path;
pub mod percent;
pub mod plugin;
pub mod sort;
pub mod table;
pub mod text;
pub mod utils;
