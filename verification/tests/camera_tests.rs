use demo_recorder::camera::{calculate_camera_at_time, ease_in_out, get_cursor_pos_at};
use demo_recorder::event_log::{EventLog, RecordedEvent, RecordingMetadata};
use demo_recorder::keyframes::{generate_keyframes, PostProcessConfig};

fn test_config() -> PostProcessConfig {
    PostProcessConfig {
        input_path: String::new(),
        output_path: String::new(),
        width: 1920,
        height: 1080,
        fps: 30,
        zoom_level: 1500,
        zoom_duration: 300,
        hold_duration: 2000,
    }
}

#[test]
fn ease_curve_fixed_points() {
    assert_eq!(ease_in_out(0), 0);
    assert_eq!(ease_in_out(500), 500);
    assert_eq!(ease_in_out(1000), 1000);
    // 4 * 0.25^3 = 0.0625
    assert_eq!(ease_in_out(250), 62);
    // 1 - (2 - 1.5)^3 / 2 = 0.9375
    assert_eq!(ease_in_out(750), 938);
}

#[test]
fn zoom_at_keyframe_boundaries() {
    // At the start of a keyframe the zoom is exactly 1.0; one zoom_duration
    // later it is exactly the configured level.
    let config = test_config();
    let log = EventLog {
        metadata: RecordingMetadata { width: 1920, height: 1080 },
        events: vec![RecordedEvent::Click { x: 960, y: 540, timestamp_ms: 1000 }],
    };
    let kfs = generate_keyframes(&log, &config);
    let at_start = calculate_camera_at_time(1000, &kfs, &log, &config);
    assert_eq!(at_start.zoom, 1000);
    let at_zoomed = calculate_camera_at_time(1300, &kfs, &log, &config);
    assert_eq!(at_zoomed.zoom, 1500);
}

#[test]
fn zoom_halfway_through_zoom_in() {
    // Phase progress 0.5 through the zoom-in: zoom = 1 + 0.5 * ease(0.5)
    // = 1.25 exactly on the milli grid.
    let config = test_config();
    let log = EventLog {
        metadata: RecordingMetadata { width: 1920, height: 1080 },
        events: vec![RecordedEvent::Click { x: 960, y: 540, timestamp_ms: 1000 }],
    };
    let kfs = generate_keyframes(&log, &config);
    let st = calculate_camera_at_time(1150, &kfs, &log, &config);
    assert_eq!(st.zoom, 1250);
}

#[test]
fn neutral_outside_every_keyframe() {
    let config = test_config();
    let log = EventLog {
        metadata: RecordingMetadata { width: 1920, height: 1080 },
        events: vec![RecordedEvent::Click { x: 960, y: 540, timestamp_ms: 1000 }],
    };
    let kfs = generate_keyframes(&log, &config);
    for t in [0u64, 999, 3601, 50_000] {
        let st = calculate_camera_at_time(t, &kfs, &log, &config);
        assert_eq!(st.zoom, 1000);
        assert_eq!(st.cx, 500);
        assert_eq!(st.cy, 500);
    }
}

#[test]
fn cursor_interpolates_between_samples() {
    let log = EventLog {
        metadata: RecordingMetadata { width: 1000, height: 1000 },
        events: vec![
            RecordedEvent::CursorMove { x: 0, y: 0, timestamp_ms: 0 },
            RecordedEvent::CursorMove { x: 1000, y: 1000, timestamp_ms: 1000 },
        ],
    };
    assert_eq!(get_cursor_pos_at(500, &log), (500, 500));
    assert_eq!(get_cursor_pos_at(250, &log), (250, 250));
    // Past the last sample: clamp to the nearest endpoint.
    assert_eq!(get_cursor_pos_at(5000, &log), (1000, 1000));
}

#[test]
fn cursor_defaults_to_centre_on_empty_log() {
    let log = EventLog {
        metadata: RecordingMetadata { width: 1920, height: 1080 },
        events: vec![],
    };
    assert_eq!(get_cursor_pos_at(1234, &log), (500, 500));
}

#[test]
fn cursor_before_first_sample_uses_it() {
    let log = EventLog {
        metadata: RecordingMetadata { width: 1000, height: 1000 },
        events: vec![RecordedEvent::CursorMove { x: 800, y: 600, timestamp_ms: 5000 }],
    };
    assert_eq!(get_cursor_pos_at(100, &log), (800, 600));
}

#[test]
fn magnetic_drift_pulls_toward_cursor_in_hold() {
    // During the hold phase the centre blends toward the live cursor; the
    // pull ramps in over the first fifth of the hold and caps at 35%.
    let config = test_config();
    let log = EventLog {
        metadata: RecordingMetadata { width: 1000, height: 1000 },
        events: vec![
            RecordedEvent::Click { x: 500, y: 500, timestamp_ms: 1000 },
            RecordedEvent::CursorMove { x: 900, y: 900, timestamp_ms: 2000 },
        ],
    };
    let kfs = generate_keyframes(&log, &config);
    // t = 2000: inside the hold (zoom-in ends at 1300, hold ends at 3300).
    // hold progress = 350/1000, so the weight caps at 0.35; the cursor sits
    // at (900, 900), so the centre moves from 500 to 500 + 400 * 0.35 = 640.
    let st = calculate_camera_at_time(2000, &kfs, &log, &config);
    assert_eq!(st.zoom, 1500);
    assert_eq!(st.cx, 640);
    assert_eq!(st.cy, 640);
    assert_eq!(st.mouse_cx, 900);
    assert_eq!(st.target_cx, 500);
}

#[test]
fn pan_starts_from_previous_keyframe_centre() {
    // The second keyframe pans from the first keyframe's centre toward its
    // own; at its start the centre is still the previous one.
    let config = test_config();
    let log = EventLog {
        metadata: RecordingMetadata { width: 1000, height: 1000 },
        events: vec![
            RecordedEvent::Click { x: 200, y: 200, timestamp_ms: 1000 },
            RecordedEvent::Click { x: 800, y: 800, timestamp_ms: 5000 },
        ],
    };
    let kfs = generate_keyframes(&log, &config);
    let st = calculate_camera_at_time(5000, &kfs, &log, &config);
    assert_eq!(st.cx, 200);
    assert_eq!(st.cy, 200);
    // Halfway through the pan the ease curve sits at 0.5.
    let mid = calculate_camera_at_time(5150, &kfs, &log, &config);
    assert_eq!(mid.target_cx, 800);
    assert_eq!(mid.cx, 500);
}
