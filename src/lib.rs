//! Playback core of a dual-output soundboard: the registry of running
//! playbacks, the integer resampling cursor that drives each output stream,
//! the supervision state machine of one playback, and the decisions around
//! the virtual cable device.

pub mod registry;
pub mod signal_log;
pub mod render;
pub mod session;
pub mod text;
pub mod devices;
pub mod hotkeys;

pub use registry::AudioManager;
