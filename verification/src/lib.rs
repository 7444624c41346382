//! Meeting-capture engine: a dual-source audio pipeline (mono down-mix,
//! linear resampling, soft-clip mixing), a WAV finalizer, a realtime
//! transcription scheduler, a session state machine, and a relational
//! store of meetings and their transcript segments.
//!
//! Audio samples are carried as fixed-point values: the `i32` value
//! [`sample::FX_ONE`] stands for full scale (1.0). The host shell converts
//! device samples to and from this representation at the boundary.

pub mod commands;
pub mod devices;
pub mod errors;
pub mod export;
pub mod host;
pub mod minutes;
pub mod mixer;
pub mod reconcile;
pub mod sample;
pub mod session;
pub mod store;
pub mod transcript;
pub mod time;
pub mod util;
pub mod wav;
