//! Recording-session state. Each flag is an explicit state value owned by
//! the capture controller and passed by reference rather than held in
//! process-wide global state, so what every transition does stands in its
//! contract.

use vstd::prelude::*;

verus! {

/// Recorder configuration: where to write and at what size and rate. The
/// default leaves the output path as a bare file name for the shell to place
/// in its recordings directory.
#[derive(Clone, Debug)]
pub struct RecorderConfig {
    pub output_path: String,
    pub width: u32,
    pub height: u32,
    pub fps: u32,
}

impl Default for RecorderConfig {
    fn default() -> (c: Self)
        ensures
            c.output_path@ === "recording.mp4"@,
            c.width == 1920,
            c.height == 1080,
            c.fps == 30,
    {
        RecorderConfig {
            output_path: "recording.mp4".to_string(),
            width: 1920,
            height: 1080,
            fps: 30,
        }
    }
}

/// Whether a capture is currently running.
#[derive(Clone, Copy, Debug, PartialEq, Eq, Structural)]
pub struct RecorderState {
    pub recording: bool,
}

impl Default for RecorderState {
    fn default() -> (s: Self)
        ensures
            !s.recording,
    {
        RecorderState { recording: false }
    }
}

/// Check if currently recording.
pub fn is_recording(state: &RecorderState) -> (r: bool)
    ensures
        r == state.recording,
{
    state.recording
}

/// Set the recording flag.
pub fn set_recording(state: &mut RecorderState, value: bool)
    ensures
        final(state).recording == value,
{
    state.recording = value;
}

/// Stop the current recording.
pub fn stop_recording(state: &mut RecorderState)
    ensures
        !final(state).recording,
{
    set_recording(state, false);
}

/// Cross-thread toggle requests: the hotkey listener raises the flag, the
/// controller consumes it.
#[derive(Clone, Copy, Debug, PartialEq, Eq, Structural)]
pub struct SharedState {
    pub hotkey_toggle_requested: bool,
}

impl Default for SharedState {
    fn default() -> (s: Self)
        ensures
            !s.hotkey_toggle_requested,
    {
        SharedState { hotkey_toggle_requested: false }
    }
}

/// Consume a pending toggle request: reports whether one was pending and
/// clears it.
pub fn take_hotkey_toggle(state: &mut SharedState) -> (r: bool)
    ensures
        r == old(state).hotkey_toggle_requested,
        !final(state).hotkey_toggle_requested,
{
    let r = state.hotkey_toggle_requested;
    state.hotkey_toggle_requested = false;
    r
}

/// Request a toggle (raised from the hotkey listener).
pub fn request_hotkey_toggle(state: &mut SharedState)
    ensures
        final(state).hotkey_toggle_requested,
{
    state.hotkey_toggle_requested = true;
}

} // verus!
