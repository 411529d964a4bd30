use demo_recorder::event_log::{EventLog, RecordedEvent, RecordingMetadata};
use demo_recorder::keyframes::{generate_keyframes, PostProcessConfig};
use demo_recorder::pipeline::{
    passthrough_frame_bytes, plan_frame, rgb_to_rgba, rgba_to_rgb, should_copy_directly,
    FrameAction, PipelineState,
};

fn test_config() -> PostProcessConfig {
    PostProcessConfig {
        input_path: "in.mp4".to_string(),
        output_path: "out.mp4".to_string(),
        width: 1920,
        height: 1080,
        fps: 30,
        zoom_level: 1500,
        zoom_duration: 300,
        hold_duration: 2000,
    }
}

fn one_click_log() -> EventLog {
    EventLog {
        metadata: RecordingMetadata { width: 1920, height: 1080 },
        events: vec![RecordedEvent::Click { x: 960, y: 540, timestamp_ms: 1000 }],
    }
}

#[test]
fn frames_outside_keyframes_pass_through() {
    // Two consecutive frames whose times lie outside every keyframe window:
    // the second is planned as passthrough and its bytes are unchanged.
    let config = test_config();
    let log = one_click_log();
    let kfs = generate_keyframes(&log, &config);
    let mut state = PipelineState::new("in.mp4".to_string(), "out.mp4".to_string());
    let a0 = plan_frame(&mut state, 0, &kfs, &log, &config);
    let a1 = plan_frame(&mut state, 33, &kfs, &log, &config);
    assert_eq!(a0, FrameAction::Passthrough);
    assert_eq!(a1, FrameAction::Passthrough);
    let frame = vec![1u8, 2, 3, 4, 5];
    let out = passthrough_frame_bytes(&frame);
    assert_eq!(out, frame);
}

#[test]
fn zoomed_frame_renders_with_pose_uniforms() {
    let config = test_config();
    let log = one_click_log();
    let kfs = generate_keyframes(&log, &config);
    let mut state = PipelineState::new("in.mp4".to_string(), "out.mp4".to_string());
    let action = plan_frame(&mut state, 1300, &kfs, &log, &config);
    match action {
        FrameAction::Render(u) => {
            assert_eq!(u.zoom, 1500);
            assert_eq!(u.center_x, 500);
            assert_eq!(u.center_y, 500);
            assert_eq!(u.prev_zoom, 1000);
            assert_eq!(u.prev_center_x, 500);
            assert_eq!(u.blur_samples, 5);
            assert_eq!(u.width, 1920);
            assert_eq!(u.height, 1080);
        }
        FrameAction::Passthrough => panic!("a zoomed frame must render"),
    }
    assert_eq!(state.current_zoom, 1500);
}

#[test]
fn frame_after_zoom_still_renders_once() {
    // The frame right after the zoom ends is not passthrough: the previous
    // frame was still zoomed, so motion blur needs one more render.
    let config = test_config();
    let log = one_click_log();
    let kfs = generate_keyframes(&log, &config);
    let mut state = PipelineState::new("in.mp4".to_string(), "out.mp4".to_string());
    let inside = plan_frame(&mut state, 2000, &kfs, &log, &config);
    assert!(matches!(inside, FrameAction::Render(_)));
    let outside = plan_frame(&mut state, 4000, &kfs, &log, &config);
    assert!(matches!(outside, FrameAction::Render(_)));
    let settled = plan_frame(&mut state, 4033, &kfs, &log, &config);
    assert_eq!(settled, FrameAction::Passthrough);
}

#[test]
fn telemetry_records_velocity() {
    let config = test_config();
    let log = one_click_log();
    let kfs = generate_keyframes(&log, &config);
    let mut state = PipelineState::new("in.mp4".to_string(), "out.mp4".to_string());
    plan_frame(&mut state, 0, &kfs, &log, &config);
    plan_frame(&mut state, 1150, &kfs, &log, &config);
    assert_eq!(state.frames_processed, 2);
    assert_eq!(state.telemetry.frames.len(), 2);
    let f0 = &state.telemetry.frames[0];
    assert_eq!(f0.frame_index, 0);
    assert_eq!(f0.time_ms, 0);
    assert_eq!(f0.zoom, 1000);
    assert_eq!(f0.velocity_cx, 0);
    let f1 = &state.telemetry.frames[1];
    assert_eq!(f1.frame_index, 1);
    assert_eq!(f1.zoom, 1250);
    assert_eq!(f1.velocity_cx, f1.cx - f0.cx);
}

#[test]
fn no_keyframes_means_straight_copy() {
    let config = test_config();
    let log = EventLog {
        metadata: RecordingMetadata { width: 1920, height: 1080 },
        events: vec![RecordedEvent::CursorMove { x: 5, y: 5, timestamp_ms: 100 }],
    };
    let kfs = generate_keyframes(&log, &config);
    assert!(should_copy_directly(&kfs));
}

#[test]
fn passthrough_preserves_bytes_exactly() {
    let frame: Vec<u8> = (0..=255).collect();
    assert_eq!(passthrough_frame_bytes(&frame), frame);
    let empty: Vec<u8> = vec![];
    assert_eq!(passthrough_frame_bytes(&empty), empty);
}

#[test]
fn rgb_rgba_conversion_round_trips() {
    let rgb: Vec<u8> = vec![10, 20, 30, 40, 50, 60];
    let rgba = rgb_to_rgba(&rgb);
    assert_eq!(rgba, vec![10, 20, 30, 255, 40, 50, 60, 255]);
    assert_eq!(rgba_to_rgb(&rgba), rgb);
}

#[test]
fn rgba_to_rgb_drops_alpha_only() {
    let rgba: Vec<u8> = vec![1, 2, 3, 77, 4, 5, 6, 99];
    assert_eq!(rgba_to_rgb(&rgba), vec![1, 2, 3, 4, 5, 6]);
}
