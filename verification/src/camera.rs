//! The "magnetic camera" interpolator: a pure function from playback time,
//! compiled keyframes, the event log and the job configuration to a camera
//! pose (zoom and centre, plus the raw target and live-cursor values kept for
//! telemetry).
//!
//! Inside a keyframe the zoom eases in over `zoom_duration`, holds, and eases
//! back out; the centre pans from the previous keyframe's centre (or
//! mid-frame) to the click point, and during the hold phase drifts toward the
//! live cursor position. Outside every keyframe the pose is neutral; the pose
//! snaps there the instant a keyframe ends (a known limitation, kept as it
//! is).

use vstd::prelude::*;
use crate::event_log::{EventLog, MAX_TIMESTAMP_MS, RecordedEvent, RecordingMetadata};
use crate::event_log::log_wf;
use crate::fixed::{clamp_unit_milli, lerp, lerp_milli, norm_coord, norm_milli};
use crate::keyframes::{
    compiled_keyframe_wf, config_wf, keyframes_wf, min_int, PostProcessConfig, ZoomKeyframe,
};

verus! {

/// Cubic ease-in-out on milli progress: `4 t^3` below the midpoint, else
/// `1 - (2 - 2t)^3 / 2`, everything scaled by 1000.
pub open spec fn ease_in_out_milli(t: int) -> int {
    if t < 500 {
        4 * t * t * t / 1_000_000
    } else {
        1000 - (2000 - 2 * t) * (2000 - 2 * t) * (2000 - 2 * t) / 2_000_000
    }
}

/// The ease curve stays inside the unit interval and fixes 0, 500 and 1000.
pub proof fn lemma_ease_in_out_bounds(t: int)
    requires
        0 <= t <= 1000,
    ensures
        0 <= ease_in_out_milli(t) <= 1000,
        ease_in_out_milli(0) == 0,
        ease_in_out_milli(500) == 500,
        ease_in_out_milli(1000) == 1000,
{
    if t < 500 {
        assert(0 <= 4 * t * t * t / 1_000_000 <= 1000) by (nonlinear_arith)
            requires
                0 <= t < 500,
        ;
    } else {
        assert(0 <= (2000 - 2 * t) * (2000 - 2 * t) * (2000 - 2 * t) / 2_000_000 <= 500)
            by (nonlinear_arith)
            requires
                500 <= t <= 1000,
        ;
    }
    assert((2000 - 2 * 1000) * (2000 - 2 * 1000) * (2000 - 2 * 1000) / 2_000_000 == 0)
        by (nonlinear_arith);
    assert((2000 - 2 * 500) * (2000 - 2 * 500) * (2000 - 2 * 500) / 2_000_000 == 500)
        by (nonlinear_arith);
}

/// Executable ease curve.
pub fn ease_in_out(t: i64) -> (r: i64)
    requires
        0 <= t <= 1000,
    ensures
        r == ease_in_out_milli(t as int),
        0 <= r <= 1000,
{
    proof {
        lemma_ease_in_out_bounds(t as int);
    }
    if t < 500 {
        let tu: u64 = t as u64;
        proof {
            assert(tu * tu <= 249_001) by (nonlinear_arith)
                requires
                    tu <= 499,
            ;
        }
        let sq: u64 = tu * tu;
        proof {
            assert(sq * tu <= 124_251_499) by (nonlinear_arith)
                requires
                    sq <= 249_001,
                    tu <= 499,
            ;
        }
        let cube: u64 = sq * tu;
        proof {
            assert(4 * cube == 4 * t * t * t) by (nonlinear_arith)
                requires
                    sq == tu * tu,
                    cube == sq * tu,
                    tu == t,
            ;
        }
        ((4 * cube) / 1_000_000) as i64
    } else {
        let u: u64 = (2000 - 2 * t) as u64;
        proof {
            assert(u * u <= 1_000_000) by (nonlinear_arith)
                requires
                    u <= 1000,
            ;
        }
        let sq: u64 = u * u;
        proof {
            assert(sq * u <= 1_000_000_000) by (nonlinear_arith)
                requires
                    sq <= 1_000_000,
                    u <= 1000,
            ;
        }
        let cube: u64 = sq * u;
        proof {
            assert(cube == (2000 - 2 * t) * (2000 - 2 * t) * (2000 - 2 * t)) by (nonlinear_arith)
                requires
                    sq == u * u,
                    cube == sq * u,
                    u == 2000 - 2 * t,
            ;
        }
        1000 - (cube / 2_000_000) as i64
    }
}

/// Index of the first event whose timestamp exceeds `t`, scanning from `i`;
/// the sequence length when none does.
pub open spec fn first_after_from(events: Seq<RecordedEvent>, t: u64, i: int) -> int
    decreases events.len() - i,
{
    if i < 0 || i >= events.len() {
        events.len() as int
    } else if events[i].timestamp() > t {
        i
    } else {
        first_after_from(events, t, i + 1)
    }
}

/// Index of the first event whose timestamp exceeds `t` (the log's length
/// when none does). The events before it all have timestamps at most `t`.
pub open spec fn first_after(events: Seq<RecordedEvent>, t: u64) -> int {
    first_after_from(events, t, 0)
}

proof fn lemma_first_after_characterization(events: Seq<RecordedEvent>, t: u64, j: int)
    requires
        0 <= j <= events.len(),
        forall|m: int| 0 <= m < j ==> #[trigger] events[m].timestamp() <= t,
        j < events.len() ==> events[j].timestamp() > t,
    ensures
        first_after(events, t) == j,
{
    lemma_first_after_from_characterization(events, t, 0, j);
}

proof fn lemma_first_after_from_characterization(
    events: Seq<RecordedEvent>,
    t: u64,
    i: int,
    j: int,
)
    requires
        0 <= i <= j <= events.len(),
        forall|m: int| i <= m < j ==> #[trigger] events[m].timestamp() <= t,
        j < events.len() ==> events[j].timestamp() > t,
    ensures
        first_after_from(events, t, i) == j,
    decreases events.len() - i,
{
    if i == j {
    } else {
        lemma_first_after_from_characterization(events, t, i + 1, j);
    }
}

/// The x coordinate of an event, normalized against the capture resolution.
pub open spec fn event_norm_x(e: RecordedEvent, meta: RecordingMetadata) -> int {
    norm_milli(e.pos_x() as int, meta.width as int)
}

/// The y coordinate of an event, normalized against the capture resolution.
pub open spec fn event_norm_y(e: RecordedEvent, meta: RecordingMetadata) -> int {
    norm_milli(e.pos_y() as int, meta.height as int)
}

/// The live cursor position at time `t`, in milli units: the two events
/// bracketing `t` interpolated linearly by timestamp, the nearest event when
/// `t` falls outside the log's time range, and mid-frame for an empty log.
pub open spec fn cursor_pos_milli(
    events: Seq<RecordedEvent>,
    t: u64,
    meta: RecordingMetadata,
) -> (int, int) {
    let j = first_after(events, t);
    if events.len() == 0 {
        (500, 500)
    } else if j == 0 {
        (event_norm_x(events[0], meta), event_norm_y(events[0], meta))
    } else if j == events.len() {
        (event_norm_x(events[j - 1], meta), event_norm_y(events[j - 1], meta))
    } else {
        let p = events[j - 1];
        let n = events[j];
        if n.timestamp() > p.timestamp() {
            let ft = (t - p.timestamp()) * 1000 / (n.timestamp() - p.timestamp());
            (
                lerp_milli(event_norm_x(p, meta), event_norm_x(n, meta), ft),
                lerp_milli(event_norm_y(p, meta), event_norm_y(n, meta), ft),
            )
        } else {
            (event_norm_x(p, meta), event_norm_y(p, meta))
        }
    }
}

/// Executable cursor lookup.
pub fn get_cursor_pos_at(time_ms: u64, log: &EventLog) -> (r: (i64, i64))
    requires
        log_wf(*log),
    ensures
        r.0 == cursor_pos_milli(log.events@, time_ms, log.metadata).0,
        r.1 == cursor_pos_milli(log.events@, time_ms, log.metadata).1,
        0 <= r.0 <= 1000,
        0 <= r.1 <= 1000,
{
    let events = &log.events;
    let n = events.len();
    let mut j: usize = 0;
    while j < n && events[j].get_timestamp() <= time_ms
        invariant
            0 <= j <= n,
            n == events.len(),
            forall|m: int| 0 <= m < j ==> #[trigger] events@[m].timestamp() <= time_ms,
        decreases n - j,
    {
        j += 1;
    }
    proof {
        lemma_first_after_characterization(events@, time_ms, j as int);
    }
    if n == 0 {
        (500, 500)
    } else if j == 0 {
        let (x, y) = events[0].get_pos();
        (norm_coord(x, log.metadata.width), norm_coord(y, log.metadata.height))
    } else if j == n {
        let (x, y) = events[j - 1].get_pos();
        (norm_coord(x, log.metadata.width), norm_coord(y, log.metadata.height))
    } else {
        let p = &events[j - 1];
        let nx_ev = &events[j];
        let pt = p.get_timestamp();
        let nt = nx_ev.get_timestamp();
        let (px, py) = p.get_pos();
        let (nx, ny) = nx_ev.get_pos();
        let pxm = norm_coord(px, log.metadata.width);
        let pym = norm_coord(py, log.metadata.height);
        if nt > pt {
            let nxm = norm_coord(nx, log.metadata.width);
            let nym = norm_coord(ny, log.metadata.height);
            proof {
                assert(events@[j as int].timestamp() > time_ms);
                assert(events@[j - 1].timestamp() <= time_ms);
            }
            let ft_num: u64 = (time_ms - pt) * 1000;
            let ft: u64 = ft_num / (nt - pt);
            proof {
                assert((time_ms - pt) * 1000 <= 0x4000_0000_0000_0000) by (nonlinear_arith)
                    requires
                        time_ms - pt <= 0x1_0000_0000_0000,
                ;
                assert((time_ms - pt) * 1000 / (nt - pt) <= 1000) by (nonlinear_arith)
                    requires
                        nt > pt,
                        pt <= time_ms,
                        time_ms < nt,
                ;
                assert((time_ms - pt) * 1000 / (nt - pt) >= 0) by (nonlinear_arith)
                    requires
                        nt > pt,
                        pt <= time_ms,
                ;
            }
            (lerp(pxm, nxm, ft as i64), lerp(pym, nym, ft as i64))
        } else {
            (pxm, pym)
        }
    }
}

/// A camera pose in mathematical integers, the value the executable
/// interpolator is proved to return.
pub struct CameraPose {
    pub zoom: int,
    pub cx: int,
    pub cy: int,
    pub target_cx: int,
    pub target_cy: int,
    pub mouse_cx: int,
    pub mouse_cy: int,
}

/// The neutral pose: no zoom, centred, with target and cursor reported as
/// centred too.
pub open spec fn neutral_pose() -> CameraPose {
    CameraPose {
        zoom: 1000,
        cx: 500,
        cy: 500,
        target_cx: 500,
        target_cy: 500,
        mouse_cx: 500,
        mouse_cy: 500,
    }
}

/// Whether keyframe `k` covers time `t`.
pub open spec fn kf_covers(k: ZoomKeyframe, t: u64) -> bool {
    k.start_time <= t <= k.end_time
}

/// Index of the first keyframe covering `t`, scanning from `i`; the sequence
/// length when none does.
pub open spec fn find_active_from(kfs: Seq<ZoomKeyframe>, t: u64, i: int) -> int
    decreases kfs.len() - i,
{
    if i < 0 || i >= kfs.len() {
        kfs.len() as int
    } else if kf_covers(kfs[i], t) {
        i
    } else {
        find_active_from(kfs, t, i + 1)
    }
}

/// Index of the first keyframe covering `t` (the length when none does).
pub open spec fn find_active(kfs: Seq<ZoomKeyframe>, t: u64) -> int {
    find_active_from(kfs, t, 0)
}

pub proof fn lemma_find_active_characterization(kfs: Seq<ZoomKeyframe>, t: u64, j: int)
    requires
        0 <= j <= kfs.len(),
        forall|m: int| 0 <= m < j ==> !kf_covers(#[trigger] kfs[m], t),
        j < kfs.len() ==> kf_covers(kfs[j], t),
    ensures
        find_active(kfs, t) == j,
{
    lemma_find_active_from_characterization(kfs, t, 0, j);
}

proof fn lemma_find_active_from_characterization(kfs: Seq<ZoomKeyframe>, t: u64, i: int, j: int)
    requires
        0 <= i <= j <= kfs.len(),
        forall|m: int| i <= m < j ==> !kf_covers(#[trigger] kfs[m], t),
        j < kfs.len() ==> kf_covers(kfs[j], t),
    ensures
        find_active_from(kfs, t, i) == j,
    decreases kfs.len() - i,
{
    if i == j {
    } else {
        lemma_find_active_from_characterization(kfs, t, i + 1, j);
    }
}

/// The pose's zoom at time `t` within keyframe `kf`: ease in from 1.0 to the
/// keyframe's zoom, hold, ease back out.
pub open spec fn zoom_at(kf: ZoomKeyframe, t: u64, c: PostProcessConfig) -> int {
    let zoom_in_end = kf.start_time + c.zoom_duration;
    let hold_end = min_int(zoom_in_end + c.hold_duration, kf.end_time as int);
    if t < zoom_in_end {
        lerp_milli(
            1000,
            kf.zoom as int,
            ease_in_out_milli((t - kf.start_time) * 1000 / (c.zoom_duration as int)),
        )
    } else if t < hold_end {
        kf.zoom as int
    } else {
        lerp_milli(
            kf.zoom as int,
            1000,
            ease_in_out_milli(clamp_unit_milli((t - hold_end) * 1000 / (c.zoom_duration as int))),
        )
    }
}

/// The camera pose at time `t`: neutral outside every keyframe; inside one,
/// the eased zoom, the pan from the previous keyframe's centre, and the
/// cursor-follow drift during the hold phase.
pub open spec fn camera_pose_at(
    t: u64,
    kfs: Seq<ZoomKeyframe>,
    events: Seq<RecordedEvent>,
    meta: RecordingMetadata,
    c: PostProcessConfig,
) -> CameraPose {
    let idx = find_active(kfs, t);
    if idx == kfs.len() {
        neutral_pose()
    } else {
        let kf = kfs[idx];
        let zoom_in_end = kf.start_time + c.zoom_duration;
        let hold_end = min_int(zoom_in_end + c.hold_duration, kf.end_time as int);
        let start_cx = if idx > 0 {
            kfs[idx - 1].center_x as int
        } else {
            500
        };
        let start_cy = if idx > 0 {
            kfs[idx - 1].center_y as int
        } else {
            500
        };
        let pan_t = clamp_unit_milli((t - kf.start_time) * 1000 / (c.zoom_duration as int));
        let eased_pan = ease_in_out_milli(pan_t);
        let cx0 = lerp_milli(start_cx, kf.center_x as int, eased_pan);
        let cy0 = lerp_milli(start_cy, kf.center_y as int, eased_pan);
        let mouse = cursor_pos_milli(events, t, meta);
        let follow = zoom_in_end < t < hold_end;
        let cx = if follow {
            let hold_t = (t - zoom_in_end) * 1000 / (hold_end - zoom_in_end);
            lerp_milli(cx0, mouse.0, min_int(hold_t * 5, 1000) * 350 / 1000)
        } else {
            cx0
        };
        let cy = if follow {
            let hold_t = (t - zoom_in_end) * 1000 / (hold_end - zoom_in_end);
            lerp_milli(cy0, mouse.1, min_int(hold_t * 5, 1000) * 350 / 1000)
        } else {
            cy0
        };
        CameraPose {
            zoom: zoom_at(kf, t, c),
            cx,
            cy,
            target_cx: kf.center_x as int,
            target_cy: kf.center_y as int,
            mouse_cx: mouse.0,
            mouse_cy: mouse.1,
        }
    }
}

/// Detailed camera state for one playback time, in milli units.
#[derive(Clone, Copy, Debug, PartialEq, Eq, Structural)]
pub struct CameraState {
    pub zoom: i64,
    pub cx: i64,
    pub cy: i64,
    pub target_cx: i64,
    pub target_cy: i64,
    pub mouse_cx: i64,
    pub mouse_cy: i64,
}

/// Whether an executable camera state equals a pose.
pub open spec fn state_matches_pose(st: CameraState, p: CameraPose) -> bool {
    &&& st.zoom == p.zoom
    &&& st.cx == p.cx
    &&& st.cy == p.cy
    &&& st.target_cx == p.target_cx
    &&& st.target_cy == p.target_cy
    &&& st.mouse_cx == p.mouse_cx
    &&& st.mouse_cy == p.mouse_cy
}

/// Evaluate the camera at a playback time, in milliseconds, against compiled
/// keyframes, the event log, and the job configuration.
pub fn calculate_camera_at_time(
    time_ms: u64,
    keyframes: &Vec<ZoomKeyframe>,
    log: &EventLog,
    config: &PostProcessConfig,
) -> (st: CameraState)
    requires
        keyframes_wf(keyframes@, *config),
        config_wf(*config),
        log_wf(*log),
        time_ms <= MAX_TIMESTAMP_MS,
    ensures
        state_matches_pose(
            st,
            camera_pose_at(time_ms, keyframes@, log.events@, log.metadata, *config),
        ),
        0 <= st.cx <= 1000,
        0 <= st.cy <= 1000,
        0 <= st.zoom <= crate::fixed::MAX_ZOOM_MILLI,
        0 <= st.target_cx <= 1000,
        0 <= st.target_cy <= 1000,
        0 <= st.mouse_cx <= 1000,
        0 <= st.mouse_cy <= 1000,
{
    let n = keyframes.len();
    let mut idx: usize = 0;
    while idx < n && !(keyframes[idx].start_time <= time_ms && time_ms <= keyframes[idx].end_time)
        invariant
            0 <= idx <= n,
            n == keyframes.len(),
            forall|m: int| 0 <= m < idx ==> !kf_covers(#[trigger] keyframes@[m], time_ms),
        decreases n - idx,
    {
        idx += 1;
    }
    proof {
        lemma_find_active_characterization(keyframes@, time_ms, idx as int);
    }
    if idx == n {
        CameraState {
            zoom: 1000,
            cx: 500,
            cy: 500,
            target_cx: 500,
            target_cy: 500,
            mouse_cx: 500,
            mouse_cy: 500,
        }
    } else {
        let kf = keyframes[idx];
        proof {
            assert(compiled_keyframe_wf(keyframes@[idx as int], *config));
        }
        let zoom_in_end: u64 = kf.start_time + config.zoom_duration as u64;
        let hold_all: u64 = zoom_in_end + config.hold_duration as u64;
        let hold_end: u64 = if hold_all <= kf.end_time {
            hold_all
        } else {
            kf.end_time
        };

        // Zoom interpolation
        let zoom: i64 = if time_ms < zoom_in_end {
            let prog: u64 = (time_ms - kf.start_time) * 1000 / (config.zoom_duration as u64);
            proof {
                lemma_phase_progress_bounds(
                    time_ms - kf.start_time,
                    config.zoom_duration as int,
                );
            }
            lerp(1000, kf.zoom, ease_in_out(prog as i64))
        } else if time_ms < hold_end {
            kf.zoom
        } else {
            let raw: u64 = (time_ms - hold_end) * 1000 / (config.zoom_duration as u64);
            let prog: u64 = if raw > 1000 {
                1000
            } else {
                raw
            };
            proof {
                lemma_phase_progress_nonneg(time_ms - hold_end, config.zoom_duration as int);
                assert(prog == clamp_unit_milli(
                    (time_ms - hold_end) * 1000 / (config.zoom_duration as int),
                ));
            }
            lerp(kf.zoom, 1000, ease_in_out(prog as i64))
        };

        // Centre interpolation (panning from the previous keyframe's centre)
        let (start_cx, start_cy): (i64, i64) = if idx > 0 {
            (keyframes[idx - 1].center_x, keyframes[idx - 1].center_y)
        } else {
            (500, 500)
        };
        proof {
            if idx > 0 {
                assert(compiled_keyframe_wf(keyframes@[idx - 1], *config));
            }
        }
        let pan_raw: u64 = (time_ms - kf.start_time) * 1000 / (config.zoom_duration as u64);
        let pan_t: u64 = if pan_raw > 1000 {
            1000
        } else {
            pan_raw
        };
        proof {
            lemma_phase_progress_nonneg(time_ms - kf.start_time, config.zoom_duration as int);
            assert(pan_t == clamp_unit_milli(
                (time_ms - kf.start_time) * 1000 / (config.zoom_duration as int),
            ));
        }
        let eased_pan = ease_in_out(pan_t as i64);
        let mut cx = lerp(start_cx, kf.center_x, eased_pan);
        let mut cy = lerp(start_cy, kf.center_y, eased_pan);

        let (mouse_cx, mouse_cy) = get_cursor_pos_at(time_ms, log);

        // Magnetic drift toward the live cursor during the hold phase
        if zoom_in_end < time_ms && time_ms < hold_end {
            let hold_t: u64 = (time_ms - zoom_in_end) * 1000 / (hold_end - zoom_in_end);
            proof {
                lemma_phase_progress_bounds(time_ms - zoom_in_end, hold_end - zoom_in_end);
            }
            let capped: u64 = if hold_t * 5 > 1000 {
                1000
            } else {
                hold_t * 5
            };
            let weight: u64 = capped * 350 / 1000;
            proof {
                assert(capped == min_int(hold_t * 5, 1000));
                assert(0 <= capped * 350 / 1000 <= 350) by (nonlinear_arith)
                    requires
                        0 <= capped <= 1000,
                ;
            }
            let old_cx = cx;
            let old_cy = cy;
            cx = lerp(old_cx, mouse_cx, weight as i64);
            cy = lerp(old_cy, mouse_cy, weight as i64);
        }

        CameraState { zoom, cx, cy, target_cx: kf.center_x, target_cy: kf.center_y, mouse_cx, mouse_cy }
    }
}

/// THE NEUTRAL-POSE LAW. At a time no keyframe covers, the camera is exactly
/// neutral: zoom 1.0, centred. (This also means the pose can change
/// discontinuously the instant a keyframe ends; there is no eased return to
/// centre, a known gap kept as it is.)
pub proof fn lemma_pose_neutral_outside(
    t: u64,
    kfs: Seq<ZoomKeyframe>,
    events: Seq<RecordedEvent>,
    meta: RecordingMetadata,
    c: PostProcessConfig,
)
    requires
        forall|i: int| 0 <= i < kfs.len() ==> !kf_covers(#[trigger] kfs[i], t),
    ensures
        camera_pose_at(t, kfs, events, meta, c) == neutral_pose(),
{
    lemma_find_active_characterization(kfs, t, kfs.len() as int);
}

/// No keyframe before `i` covers a time at or past keyframe `i`'s start,
/// unless it ends exactly there.
proof fn lemma_earlier_keyframes_closed(kfs: Seq<ZoomKeyframe>, c: PostProcessConfig, i: int, t: u64)
    requires
        keyframes_wf(kfs, c),
        0 <= i < kfs.len(),
        kfs[i].start_time <= t,
        forall|j: int| 0 <= j < i ==> #[trigger] kfs[j].end_time != t,
    ensures
        forall|j: int| 0 <= j < i ==> !kf_covers(#[trigger] kfs[j], t),
{
    assert forall|j: int| 0 <= j < i implies !kf_covers(#[trigger] kfs[j], t) by {
        assert(kfs[j].end_time <= kfs[j + 1].start_time);
        if j + 1 < i {
            assert(kfs[j + 1].start_time <= kfs[i].start_time);
        }
        assert(kfs[j].end_time <= t);
        assert(kfs[j].end_time != t);
    }
}

/// THE ZOOM-IN START LAW. At the exact start of a keyframe (provided no
/// earlier keyframe was cut short at that very instant), the interpolated
/// zoom is exactly 1.0.
pub proof fn lemma_zoom_at_keyframe_start(
    kfs: Seq<ZoomKeyframe>,
    events: Seq<RecordedEvent>,
    meta: RecordingMetadata,
    c: PostProcessConfig,
    i: int,
)
    requires
        keyframes_wf(kfs, c),
        config_wf(c),
        0 <= i < kfs.len(),
        forall|j: int| 0 <= j < i ==> #[trigger] kfs[j].end_time != kfs[i].start_time,
    ensures
        camera_pose_at(kfs[i].start_time, kfs, events, meta, c).zoom == 1000,
{
    let t = kfs[i].start_time;
    let kf = kfs[i];
    assert(compiled_keyframe_wf(kfs[i], c));
    lemma_earlier_keyframes_closed(kfs, c, i, t);
    lemma_find_active_characterization(kfs, t, i);
    assert(t < kf.start_time + c.zoom_duration);
    let prog = (t - kf.start_time) * 1000 / (c.zoom_duration as int);
    assert(prog == 0) by (nonlinear_arith)
        requires
            prog == 0int * 1000 / (c.zoom_duration as int),
            c.zoom_duration >= 1,
    ;
    lemma_ease_in_out_bounds(0);
    crate::fixed::lemma_lerp_milli_bounds(1000, kf.zoom as int, 0);
}

/// THE ZOOM-IN END LAW. One `zoom_duration` after a keyframe starts — if the
/// keyframe still covers that instant — the interpolated zoom is exactly the
/// keyframe's zoom level.
pub proof fn lemma_zoom_at_zoom_in_end(
    kfs: Seq<ZoomKeyframe>,
    events: Seq<RecordedEvent>,
    meta: RecordingMetadata,
    c: PostProcessConfig,
    i: int,
)
    requires
        keyframes_wf(kfs, c),
        config_wf(c),
        0 <= i < kfs.len(),
        kfs[i].start_time + c.zoom_duration <= kfs[i].end_time,
    ensures
        camera_pose_at(
            (kfs[i].start_time + c.zoom_duration) as u64,
            kfs,
            events,
            meta,
            c,
        ).zoom == kfs[i].zoom,
{
    let kf = kfs[i];
    assert(compiled_keyframe_wf(kfs[i], c));
    let t = (kf.start_time + c.zoom_duration) as u64;
    assert forall|j: int| 0 <= j < i implies !kf_covers(#[trigger] kfs[j], t) by {
        assert(kfs[j].end_time <= kfs[j + 1].start_time);
        if j + 1 < i {
            assert(kfs[j + 1].start_time <= kfs[i].start_time);
        }
    }
    lemma_find_active_characterization(kfs, t, i);
    let zoom_in_end = kf.start_time + c.zoom_duration;
    let hold_end = min_int(zoom_in_end + c.hold_duration, kf.end_time as int);
    assert(zoom_in_end <= hold_end);
    if t < hold_end {
    } else {
        assert(t == hold_end);
        let prog = (t - hold_end) * 1000 / (c.zoom_duration as int);
        assert(prog == 0) by (nonlinear_arith)
            requires
                prog == 0int * 1000 / (c.zoom_duration as int),
                c.zoom_duration >= 1,
        ;
        lemma_ease_in_out_bounds(0);
        crate::fixed::lemma_lerp_milli_bounds(kf.zoom as int, 1000, 0);
    }
}

/// A phase progress `d * 1000 / dur` with `d < dur` stays in [0, 1000).
proof fn lemma_phase_progress_bounds(d: int, dur: int)
    requires
        dur >= 1,
        0 <= d < dur,
    ensures
        0 <= d * 1000 / dur < 1000,
{
    assert(0 <= d * 1000 / dur < 1000) by (nonlinear_arith)
        requires
            dur >= 1,
            0 <= d < dur,
    ;
}

/// A phase progress with a nonnegative numerator is nonnegative.
proof fn lemma_phase_progress_nonneg(d: int, dur: int)
    requires
        dur >= 1,
        d >= 0,
    ensures
        0 <= d * 1000 / dur,
{
    assert(0 <= d * 1000 / dur) by (nonlinear_arith)
        requires
            dur >= 1,
            d >= 0,
    ;
}

} // verus!
