//! Application settings. The on-disk JSON form, with its float zoom level,
//! lives in the unverified shell; this is the bare settings type the library
//! works with, zoom in milli fixed point.

use vstd::prelude::*;

verus! {

/// Output container format for recordings.
#[derive(Clone, Copy, Debug, PartialEq, Eq, Structural)]
pub enum OutputFormat {
    Mp4,
    WebM,
    Gif,
}

/// Audio recording mode.
#[derive(Clone, Copy, Debug, PartialEq, Eq, Structural)]
pub enum AudioMode {
    Off,
    System,
    Microphone,
    Both,
}

/// Zoom behaviour while recording.
#[derive(Clone, Copy, Debug, PartialEq, Eq, Structural)]
pub enum ZoomMode {
    Off,
    FollowCursor,
    ClickToZoom,
    SmartAI,
}

/// What to capture.
#[derive(Clone, Copy, Debug, PartialEq, Eq, Structural)]
pub enum CaptureTarget {
    PrimaryMonitor,
    ForegroundWindow,
}

impl Default for OutputFormat {
    fn default() -> (r: Self)
        ensures
            r == OutputFormat::Mp4,
    {
        OutputFormat::Mp4
    }
}

impl Default for AudioMode {
    fn default() -> (r: Self)
        ensures
            r == AudioMode::Off,
    {
        AudioMode::Off
    }
}

impl Default for ZoomMode {
    fn default() -> (r: Self)
        ensures
            r == ZoomMode::Off,
    {
        ZoomMode::Off
    }
}

impl Default for CaptureTarget {
    fn default() -> (r: Self)
        ensures
            r == CaptureTarget::PrimaryMonitor,
    {
        CaptureTarget::PrimaryMonitor
    }
}

/// Application configuration. `zoom_level` is in milli units (1500 = 1.5x);
/// `output_folder` is a path the shell resolves (the default leaves it empty
/// and the shell fills in its platform's videos directory).
#[derive(Clone, Debug)]
pub struct Config {
    pub hotkey: String,
    pub output_format: OutputFormat,
    pub audio_mode: AudioMode,
    pub zoom_mode: ZoomMode,
    pub zoom_level: i64,
    pub output_folder: String,
    pub fps: u32,
    pub show_countdown: bool,
    pub countdown_seconds: u32,
    pub capture_target: CaptureTarget,
}

impl Default for Config {
    /// The recorder's defaults: toggle on Ctrl+Shift+F9, mp4, no audio, no
    /// live zoom, 1.5x click zoom, 30 fps, a 3 second countdown.
    fn default() -> (c: Self)
        ensures
            c.hotkey@ === "Ctrl+Shift+F9"@,
            c.output_format == OutputFormat::Mp4,
            c.audio_mode == AudioMode::Off,
            c.zoom_mode == ZoomMode::Off,
            c.zoom_level == 1500,
            c.output_folder@ === Seq::<char>::empty(),
            c.fps == 30,
            c.show_countdown,
            c.countdown_seconds == 3,
            c.capture_target == CaptureTarget::PrimaryMonitor,
    {
        Config {
            hotkey: "Ctrl+Shift+F9".to_string(),
            output_format: OutputFormat::Mp4,
            audio_mode: AudioMode::Off,
            zoom_mode: ZoomMode::Off,
            zoom_level: 1500,
            output_folder: String::new(),
            fps: 30,
            show_countdown: true,
            countdown_seconds: 3,
            capture_target: CaptureTarget::PrimaryMonitor,
        }
    }
}

} // verus!
