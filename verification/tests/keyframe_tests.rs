use demo_recorder::event_log::{EventLog, RecordedEvent, RecordingMetadata};
use demo_recorder::keyframes::{generate_keyframes, merge_overlapping_keyframes, PostProcessConfig, ZoomKeyframe};
use demo_recorder::pipeline::should_copy_directly;

fn test_config() -> PostProcessConfig {
    PostProcessConfig {
        input_path: String::new(),
        output_path: String::new(),
        width: 1920,
        height: 1080,
        fps: 30,
        zoom_level: 1500,
        zoom_duration: 300,
        hold_duration: 2000,
    }
}

fn log_with(events: Vec<RecordedEvent>) -> EventLog {
    EventLog {
        metadata: RecordingMetadata { width: 1920, height: 1080 },
        events,
    }
}

#[test]
fn single_click_scenario() {
    // One click at (960, 540) at t = 1.0 s on a 1920x1080 recording with
    // zoom 1.5x, 0.3 s animation, 2.0 s hold.
    let log = log_with(vec![RecordedEvent::Click { x: 960, y: 540, timestamp_ms: 1000 }]);
    let kfs = generate_keyframes(&log, &test_config());
    assert_eq!(kfs.len(), 1);
    let kf = &kfs[0];
    assert_eq!(kf.start_time, 1000);
    assert_eq!(kf.end_time, 3600);
    assert_eq!(kf.center_x, 500);
    assert_eq!(kf.center_y, 500);
    assert_eq!(kf.zoom, 1500);
}

#[test]
fn two_clicks_truncate_first() {
    // A second click 0.5 s after the first cuts the first keyframe short at
    // the exact moment the second starts.
    let log = log_with(vec![
        RecordedEvent::Click { x: 960, y: 540, timestamp_ms: 1000 },
        RecordedEvent::Click { x: 480, y: 270, timestamp_ms: 1500 },
    ]);
    let kfs = generate_keyframes(&log, &test_config());
    assert_eq!(kfs.len(), 2);
    assert_eq!(kfs[0].start_time, 1000);
    assert_eq!(kfs[0].end_time, 1500);
    assert_eq!(kfs[1].start_time, 1500);
    assert_eq!(kfs[1].end_time, 4100);
    assert!(kfs[0].end_time <= kfs[1].start_time);
}

#[test]
fn unsorted_clicks_are_sorted() {
    let log = log_with(vec![
        RecordedEvent::Click { x: 0, y: 0, timestamp_ms: 9000 },
        RecordedEvent::Click { x: 960, y: 540, timestamp_ms: 500 },
        RecordedEvent::Click { x: 1920, y: 1080, timestamp_ms: 4000 },
    ]);
    let kfs = generate_keyframes(&log, &test_config());
    assert_eq!(kfs.len(), 3);
    assert_eq!(kfs[0].start_time, 500);
    assert_eq!(kfs[1].start_time, 4000);
    assert_eq!(kfs[2].start_time, 9000);
    for i in 0..kfs.len() - 1 {
        assert!(kfs[i].start_time <= kfs[i + 1].start_time);
        assert!(kfs[i].end_time <= kfs[i + 1].start_time);
    }
}

#[test]
fn cursor_moves_produce_no_keyframes() {
    let log = log_with(vec![
        RecordedEvent::CursorMove { x: 10, y: 10, timestamp_ms: 100 },
        RecordedEvent::CursorMove { x: 20, y: 20, timestamp_ms: 200 },
    ]);
    let kfs = generate_keyframes(&log, &test_config());
    assert!(kfs.is_empty());
    assert!(should_copy_directly(&kfs));
}

#[test]
fn empty_log_compiles_to_nothing() {
    let log = log_with(vec![]);
    let kfs = generate_keyframes(&log, &test_config());
    assert!(kfs.is_empty());
    assert!(should_copy_directly(&kfs));
}

#[test]
fn coordinates_clamped_to_frame() {
    // Coordinates outside the recording resolution clamp to the frame edge.
    let log = log_with(vec![RecordedEvent::Click { x: -100, y: 5000, timestamp_ms: 0 }]);
    let kfs = generate_keyframes(&log, &test_config());
    assert_eq!(kfs.len(), 1);
    assert_eq!(kfs[0].center_x, 0);
    assert_eq!(kfs[0].center_y, 1000);
}

#[test]
fn merge_pass_only_touches_ends() {
    let mut kfs = vec![
        ZoomKeyframe { start_time: 2000, end_time: 4600, center_x: 100, center_y: 200, zoom: 1500 },
        ZoomKeyframe { start_time: 1000, end_time: 3600, center_x: 300, center_y: 400, zoom: 1500 },
    ];
    merge_overlapping_keyframes(&mut kfs);
    assert_eq!(kfs[0].start_time, 1000);
    assert_eq!(kfs[0].end_time, 2000);
    assert_eq!(kfs[0].center_x, 300);
    assert_eq!(kfs[1].start_time, 2000);
    assert_eq!(kfs[1].end_time, 4600);
    assert_eq!(kfs[1].center_x, 100);
}

#[test]
fn simultaneous_clicks_collapse_first_span() {
    let log = log_with(vec![
        RecordedEvent::Click { x: 0, y: 0, timestamp_ms: 700 },
        RecordedEvent::Click { x: 1920, y: 1080, timestamp_ms: 700 },
    ]);
    let kfs = generate_keyframes(&log, &test_config());
    assert_eq!(kfs.len(), 2);
    assert_eq!(kfs[0].end_time, 700);
    assert_eq!(kfs[1].end_time, 700 + 2000 + 600);
}
