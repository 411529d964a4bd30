//! Core library of a screen-recording post-processor: it compiles a log of
//! recorded mouse events into a non-overlapping camera path, evaluates that
//! path at arbitrary playback times, and drives a frame-by-frame transcode
//! plan with a passthrough fast path and motion-health telemetry.
//!
//! All camera quantities are held in fixed-point "milli" units (one unit is
//! 1/1000): a zoom of 1500 means 1.5x, a centre coordinate of 500 means the
//! middle of the frame. Times are milliseconds. The unverified shell around
//! this crate converts to the floating-point values its GPU and video
//! libraries expect.

pub mod camera;
pub mod codec;
pub mod config;
pub mod diagnostics;
pub mod event_log;
pub mod fixed;
pub mod keyframes;
pub mod pipeline;
pub mod recorder;
