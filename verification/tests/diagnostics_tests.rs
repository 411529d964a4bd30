use demo_recorder::diagnostics::{analyze_motion_health, TelemetryFrame, TelemetrySession};

fn frame(index: u64, cx: i64, cy: i64) -> TelemetryFrame {
    TelemetryFrame {
        frame_index: index,
        time_ms: index * 33,
        zoom: 1000,
        cx,
        cy,
        target_cx: 500,
        target_cy: 500,
        mouse_cx: 500,
        mouse_cy: 500,
        velocity_cx: 0,
        velocity_cy: 0,
    }
}

fn session_of(frames: Vec<TelemetryFrame>) -> TelemetrySession {
    TelemetrySession {
        input_path: "in.mp4".to_string(),
        output_path: "out.mp4".to_string(),
        frames,
    }
}

#[test]
fn smooth_session_is_healthy() {
    // All consecutive-frame deltas below the 0.015 threshold (10 milli per
    // frame) and strictly monotone, so no velocity sign reversals.
    let frames: Vec<TelemetryFrame> = (0..60).map(|i| frame(i, 300 + (i as i64) * 10, 300)).collect();
    let report = analyze_motion_health(&session_of(frames));
    assert_eq!(report.velocity_spikes, 0);
    assert_eq!(report.jitter_events, 0);
    assert!(report.healthy);
}

#[test]
fn one_large_delta_is_a_spike() {
    // One injected delta of 0.05 (50 milli) yields a warning with at least
    // one spike.
    let mut frames: Vec<TelemetryFrame> = (0..60).map(|i| frame(i, 300 + (i as i64) * 10, 300)).collect();
    frames[30].cx += 50;
    let report = analyze_motion_health(&session_of(frames));
    assert!(report.velocity_spikes >= 1);
    assert!(!report.healthy);
}

#[test]
fn vertical_motion_counts_for_spikes_too() {
    let mut frames: Vec<TelemetryFrame> = (0..10).map(|i| frame(i, 300, 300)).collect();
    frames[5].cy += 16;
    let report = analyze_motion_health(&session_of(frames));
    assert_eq!(report.velocity_spikes, 2);
    assert!(!report.healthy);
}

#[test]
fn small_oscillation_is_jitter_but_tolerated() {
    // An x oscillation of 11 milli flips velocity sign each frame; a few
    // such events stay under the warning limit.
    let frames: Vec<TelemetryFrame> = (0..8)
        .map(|i| frame(i, if i % 2 == 0 { 300 } else { 311 }, 300))
        .collect();
    let report = analyze_motion_health(&session_of(frames));
    assert_eq!(report.velocity_spikes, 0);
    assert!(report.jitter_events > 0);
    assert!(report.jitter_events <= 10);
    assert!(report.healthy);
}

#[test]
fn sustained_oscillation_is_unhealthy() {
    let frames: Vec<TelemetryFrame> = (0..30)
        .map(|i| frame(i, if i % 2 == 0 { 300 } else { 311 }, 300))
        .collect();
    let report = analyze_motion_health(&session_of(frames));
    assert_eq!(report.velocity_spikes, 0);
    assert!(report.jitter_events > 10);
    assert!(!report.healthy);
}

#[test]
fn tiny_oscillation_is_not_jitter() {
    // The product threshold ignores reversals smaller than 0.0001 in unit
    // terms: a 10-milli swing gives exactly -100, which does not count.
    let frames: Vec<TelemetryFrame> = (0..30)
        .map(|i| frame(i, if i % 2 == 0 { 300 } else { 310 }, 300))
        .collect();
    let report = analyze_motion_health(&session_of(frames));
    assert_eq!(report.jitter_events, 0);
    assert!(report.healthy);
}

#[test]
fn short_sessions_have_nothing_to_flag() {
    let report = analyze_motion_health(&session_of(vec![]));
    assert_eq!(report.velocity_spikes, 0);
    assert_eq!(report.jitter_events, 0);
    assert!(report.healthy);
    let report1 = analyze_motion_health(&session_of(vec![frame(0, 0, 0)]));
    assert!(report1.healthy);
}
