//! The PulseAudio sound server.

pub mod backend;
pub mod client;
pub mod pulse_monitor;
