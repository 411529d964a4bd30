//! Per-frame camera telemetry and the motion-health analyzer that scores the
//! smoothness of a finished camera path.

use vstd::prelude::*;

verus! {

/// One frame of camera telemetry. Times are milliseconds; every camera
/// quantity is in milli units, as produced by the interpolator.
#[derive(Clone, Copy, Debug, PartialEq, Eq, Structural)]
pub struct TelemetryFrame {
    pub frame_index: u64,
    pub time_ms: u64,
    pub zoom: i64,
    pub cx: i64,
    pub cy: i64,
    pub target_cx: i64,
    pub target_cy: i64,
    pub mouse_cx: i64,
    pub mouse_cy: i64,
    pub velocity_cx: i64,
    pub velocity_cy: i64,
}

/// A complete telemetry session for one export.
#[derive(Clone, Debug)]
pub struct TelemetrySession {
    pub input_path: String,
    pub output_path: String,
    pub frames: Vec<TelemetryFrame>,
}

impl Default for TelemetrySession {
    /// An empty session with empty paths.
    fn default() -> (s: Self)
        ensures
            s.input_path@ === Seq::<char>::empty(),
            s.output_path@ === Seq::<char>::empty(),
            s.frames@ === Seq::<TelemetryFrame>::empty(),
    {
        TelemetrySession { input_path: String::new(), output_path: String::new(), frames: Vec::new() }
    }
}

/// Per-frame centre velocity above this many milli units counts as a spike
/// (0.015 of the frame, about 5% of screen width per frame at 60 fps). An
/// empirical constant, not a normative invariant.
pub const VELOCITY_SPIKE_THRESHOLD_MILLI: i64 = 15;

/// An x-velocity sign reversal counts as jitter when the product of two
/// consecutive velocities, in milli^2 units, falls below this (the analyzer
/// ignores reversals smaller than 0.0001 in unit terms).
pub const JITTER_PRODUCT_THRESHOLD_MILLI2: i64 = -100;

/// More jitter events than this make the session unhealthy. Empirical.
pub const JITTER_WARN_LIMIT: u64 = 10;

/// Centre coordinates the analyzer accepts; keeps velocity differences and
/// their products inside `i64`.
pub const TELEMETRY_COORD_BOUND: i64 = 1_000_000_000;

/// Absolute value.
pub open spec fn abs_int(v: int) -> int {
    if v < 0 {
        -v
    } else {
        v
    }
}

/// Whether frame `i` moves the centre fast enough from frame `i - 1` to
/// count as a velocity spike.
pub open spec fn is_spike(frames: Seq<TelemetryFrame>, i: int) -> bool {
    &&& 1 <= i < frames.len()
    &&& (abs_int(frames[i].cx - frames[i - 1].cx) > VELOCITY_SPIKE_THRESHOLD_MILLI || abs_int(
        frames[i].cy - frames[i - 1].cy,
    ) > VELOCITY_SPIKE_THRESHOLD_MILLI)
}

/// Whether the x velocity flips direction at frame `i` (an oscillation over
/// frames `i - 2`, `i - 1`, `i`).
pub open spec fn is_jitter(frames: Seq<TelemetryFrame>, i: int) -> bool {
    &&& 3 <= i < frames.len()
    &&& (frames[i].cx - frames[i - 1].cx) * (frames[i - 1].cx - frames[i - 2].cx)
        < JITTER_PRODUCT_THRESHOLD_MILLI2
}

/// Number of spike frames among the first `n`.
pub open spec fn count_spikes(frames: Seq<TelemetryFrame>, n: int) -> int
    decreases n,
{
    if n <= 1 {
        0
    } else {
        count_spikes(frames, n - 1) + if is_spike(frames, n - 1) {
            1int
        } else {
            0int
        }
    }
}

/// Number of jitter events among the first `n` frames.
pub open spec fn count_jitter(frames: Seq<TelemetryFrame>, n: int) -> int
    decreases n,
{
    if n <= 1 {
        0
    } else {
        count_jitter(frames, n - 1) + if is_jitter(frames, n - 1) {
            1int
        } else {
            0int
        }
    }
}

/// A session whose centre coordinates the analyzer accepts.
pub open spec fn session_bounded(s: TelemetrySession) -> bool {
    forall|i: int|
        0 <= i < s.frames@.len() ==> {
            let f = #[trigger] s.frames@[i];
            -TELEMETRY_COORD_BOUND <= f.cx <= TELEMETRY_COORD_BOUND && -TELEMETRY_COORD_BOUND
                <= f.cy <= TELEMETRY_COORD_BOUND
        }
}

/// The analyzer's verdict over one session.
#[derive(Clone, Copy, Debug, PartialEq, Eq, Structural)]
pub struct MotionHealthReport {
    /// Frames whose centre velocity exceeds the spike threshold.
    pub velocity_spikes: u64,
    /// X-velocity sign reversals across three consecutive frames.
    pub jitter_events: u64,
    /// Healthy exactly when there is no spike and jitter stays within
    /// [`JITTER_WARN_LIMIT`].
    pub healthy: bool,
}

/// THE MOTION-HEALTH LAW, as a contract: the report counts exactly the spike
/// frames and jitter events of the session, and the session is healthy if
/// and only if no spike occurred and at most [`JITTER_WARN_LIMIT`] jitter
/// events did. Diagnostic only: nothing here alters rendered output.
pub fn analyze_motion_health(session: &TelemetrySession) -> (report: MotionHealthReport)
    requires
        session_bounded(*session),
    ensures
        report.velocity_spikes == count_spikes(session.frames@, session.frames@.len() as int),
        report.jitter_events == count_jitter(session.frames@, session.frames@.len() as int),
        report.healthy == !(report.velocity_spikes > 0 || report.jitter_events
            > JITTER_WARN_LIMIT),
{
    let frames = &session.frames;
    let n = frames.len();
    let mut velocity_spikes: u64 = 0;
    let mut jitter_events: u64 = 0;
    let mut i: usize = 1;
    while i < n
        invariant
            1 <= i <= n || (n <= 1 && i == 1),
            n == frames.len(),
            session_bounded(*session),
            frames == session.frames,
            velocity_spikes == count_spikes(frames@, i as int),
            jitter_events == count_jitter(frames@, i as int),
            velocity_spikes <= i,
            jitter_events <= i,
        decreases n - i,
    {
        let vel_x = frames[i].cx - frames[i - 1].cx;
        let vel_y = frames[i].cy - frames[i - 1].cy;
        let abs_x = if vel_x < 0 {
            -vel_x
        } else {
            vel_x
        };
        let abs_y = if vel_y < 0 {
            -vel_y
        } else {
            vel_y
        };
        if abs_x > VELOCITY_SPIKE_THRESHOLD_MILLI || abs_y > VELOCITY_SPIKE_THRESHOLD_MILLI {
            velocity_spikes += 1;
        }
        if i > 2 {
            let v1_x = frames[i].cx - frames[i - 1].cx;
            let v2_x = frames[i - 1].cx - frames[i - 2].cx;
            proof {
                assert(v1_x * v2_x <= 4_000_000_000_000_000_000 && v1_x * v2_x
                    >= -4_000_000_000_000_000_000) by (nonlinear_arith)
                    requires
                        -2_000_000_000 <= v1_x <= 2_000_000_000,
                        -2_000_000_000 <= v2_x <= 2_000_000_000,
                ;
            }
            if v1_x * v2_x < JITTER_PRODUCT_THRESHOLD_MILLI2 {
                jitter_events += 1;
            }
        }
        i += 1;
    }
    let healthy = !(velocity_spikes > 0 || jitter_events > JITTER_WARN_LIMIT);
    MotionHealthReport { velocity_spikes, jitter_events, healthy }
}

} // verus!
