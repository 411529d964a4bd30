use demo_recorder::config::{AudioMode, CaptureTarget, Config, OutputFormat, ZoomMode};
use demo_recorder::event_log::{
    finish_event_log, start_event_logging, stop_event_logging, update_event_logging, RecordedEvent,
};
use demo_recorder::keyframes::PostProcessConfig;
use demo_recorder::recorder::{
    is_recording, request_hotkey_toggle, set_recording, stop_recording, take_hotkey_toggle,
    RecorderConfig, RecorderState, SharedState,
};

#[test]
fn click_edges_and_sampling_cadence() {
    let mut s = start_event_logging(1920, 1080);
    // t=0: button press; the press edge logs a click, but no cursor sample
    // is due yet.
    let clicked = update_event_logging(&mut s, 100, 200, true, 0);
    assert!(clicked);
    // t=20: button still held: no new click; 20 ms since the last sample, so
    // a cursor sample is stored.
    let clicked = update_event_logging(&mut s, 110, 210, true, 20);
    assert!(!clicked);
    // t=30: button released, only 10 ms since the last sample: nothing.
    let clicked = update_event_logging(&mut s, 120, 220, false, 30);
    assert!(!clicked);
    // t=50: pressed again: click edge plus a due cursor sample.
    let clicked = update_event_logging(&mut s, 130, 230, true, 50);
    assert!(clicked);
    let events = stop_event_logging(s);
    assert_eq!(
        events,
        vec![
            RecordedEvent::Click { x: 100, y: 200, timestamp_ms: 0 },
            RecordedEvent::CursorMove { x: 110, y: 210, timestamp_ms: 20 },
            RecordedEvent::Click { x: 130, y: 230, timestamp_ms: 50 },
            RecordedEvent::CursorMove { x: 130, y: 230, timestamp_ms: 50 },
        ]
    );
}

#[test]
fn finished_session_carries_resolution() {
    let mut s = start_event_logging(2560, 1440);
    update_event_logging(&mut s, 1, 2, false, 100);
    let log = finish_event_log(s);
    assert_eq!(log.metadata.width, 2560);
    assert_eq!(log.metadata.height, 1440);
    assert_eq!(log.events.len(), 1);
}

#[test]
fn recorder_flag_transitions() {
    let mut state = RecorderState::default();
    assert!(!is_recording(&state));
    set_recording(&mut state, true);
    assert!(is_recording(&state));
    stop_recording(&mut state);
    assert!(!is_recording(&state));
}

#[test]
fn hotkey_toggle_is_consumed_once() {
    let mut shared = SharedState::default();
    assert!(!take_hotkey_toggle(&mut shared));
    request_hotkey_toggle(&mut shared);
    assert!(take_hotkey_toggle(&mut shared));
    assert!(!take_hotkey_toggle(&mut shared));
}

#[test]
fn recorder_config_defaults() {
    let c = RecorderConfig::default();
    assert_eq!(c.output_path, "recording.mp4");
    assert_eq!(c.width, 1920);
    assert_eq!(c.height, 1080);
    assert_eq!(c.fps, 30);
}

#[test]
fn app_config_defaults() {
    let c = Config::default();
    assert_eq!(c.hotkey, "Ctrl+Shift+F9");
    assert_eq!(c.output_format, OutputFormat::Mp4);
    assert_eq!(c.audio_mode, AudioMode::Off);
    assert_eq!(c.zoom_mode, ZoomMode::Off);
    assert_eq!(c.zoom_level, 1500);
    assert_eq!(c.fps, 30);
    assert!(c.show_countdown);
    assert_eq!(c.countdown_seconds, 3);
    assert_eq!(c.capture_target, CaptureTarget::PrimaryMonitor);
}

#[test]
fn post_process_config_defaults() {
    let c = PostProcessConfig::default();
    assert_eq!(c.width, 1920);
    assert_eq!(c.height, 1080);
    assert_eq!(c.fps, 30);
    assert_eq!(c.zoom_level, 1500);
    assert_eq!(c.zoom_duration, 300);
    assert_eq!(c.hold_duration, 2000);
    assert!(c.is_wf());
}
