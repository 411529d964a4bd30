//! The transcode plan: the verified decisions of the frame loop. The
//! unverified shell decodes a frame, hands its timestamp here, and gets back
//! what to do with it — pass the decoded bytes straight to the encoder, or
//! render through the GPU with a given uniform block — together with the
//! telemetry bookkeeping. A job whose log compiles to zero keyframes never
//! enters the loop at all: the source file is copied unchanged.

use vstd::prelude::*;
use crate::camera::{calculate_camera_at_time, camera_pose_at, kf_covers};
use crate::diagnostics::{TelemetryFrame, TelemetrySession};
use crate::event_log::{EventLog, MAX_TIMESTAMP_MS, RecordedEvent, RecordingMetadata};
use crate::event_log::{events_bounded, log_wf, metadata_wf};
use crate::fixed::MAX_ZOOM_MILLI;
use crate::keyframes::{
    compiled_keyframes, config_wf, count_clicks, keyframes_wf, lemma_compiled_keyframes_sequential,
    PostProcessConfig, ZoomKeyframe,
};

verus! {

/// Number of motion-blur taps the shader takes when rendering.
pub const MOTION_BLUR_SAMPLES: u32 = 5;

/// The per-frame parameter block for the zoom shader, in milli units. The
/// shell converts each field to the packed float layout the GPU expects (and
/// derives the aspect ratio from `width` and `height`).
#[derive(Clone, Copy, Debug, PartialEq, Eq, Structural)]
pub struct RenderUniforms {
    /// Current zoom, milli units
    pub zoom: i64,
    /// Current centre x, milli units
    pub center_x: i64,
    /// Current centre y, milli units
    pub center_y: i64,
    /// Motion-blur taps
    pub blur_samples: u32,
    /// Previous frame's centre x, milli units
    pub prev_center_x: i64,
    /// Previous frame's centre y, milli units
    pub prev_center_y: i64,
    /// Previous frame's zoom, milli units
    pub prev_zoom: i64,
    /// Frame width in pixels
    pub width: u32,
    /// Frame height in pixels
    pub height: u32,
}

/// What the frame loop does with one decoded frame.
#[derive(Clone, Copy, Debug, PartialEq, Eq, Structural)]
pub enum FrameAction {
    /// Hand the decoded bytes to the encoder unchanged.
    Passthrough,
    /// Render the frame through the zoom shader with these uniforms.
    Render(RenderUniforms),
}

/// The passthrough test: both the current and the previous frame's zoom sit
/// exactly at 1.0. (A tolerance band of one part in a thousand around 1.0
/// collapses, on the milli grid, to exactly the value 1000.)
pub open spec fn passthrough_applies(current_zoom: int, prev_zoom: int) -> bool {
    current_zoom == 1000 && prev_zoom == 1000
}

/// Mutable state of one transcode job's frame loop.
pub struct PipelineState {
    /// Zoom of the most recently planned frame (1.0 before the first).
    pub current_zoom: i64,
    /// Centre of the most recently planned frame (mid-frame before the first).
    pub current_cx: i64,
    pub current_cy: i64,
    /// Frames planned so far.
    pub frames_processed: u64,
    /// Telemetry accumulated alongside.
    pub telemetry: TelemetrySession,
}

/// Bounds every planned frame re-establishes.
pub open spec fn pipeline_state_wf(s: PipelineState) -> bool {
    &&& 0 <= s.current_zoom <= MAX_ZOOM_MILLI
    &&& 0 <= s.current_cx <= 1000
    &&& 0 <= s.current_cy <= 1000
}

impl PipelineState {
    /// A fresh job: neutral camera, no frames, empty telemetry keyed by the
    /// job's paths.
    pub fn new(input_path: String, output_path: String) -> (s: Self)
        ensures
            s.current_zoom == 1000,
            s.current_cx == 500,
            s.current_cy == 500,
            s.frames_processed == 0,
            s.telemetry.frames@ === Seq::<TelemetryFrame>::empty(),
            s.telemetry.input_path@ === input_path@,
            s.telemetry.output_path@ === output_path@,
            pipeline_state_wf(s),
    {
        PipelineState {
            current_zoom: 1000,
            current_cx: 500,
            current_cy: 500,
            frames_processed: 0,
            telemetry: TelemetrySession { input_path, output_path, frames: Vec::new() },
        }
    }
}

/// Plan one decoded frame at its original presentation time: evaluate the
/// camera, record telemetry (velocity against the previous frame), and choose
/// the passthrough fast path exactly when neither this frame nor the previous
/// one is zoomed.
pub fn plan_frame(
    state: &mut PipelineState,
    time_ms: u64,
    keyframes: &Vec<ZoomKeyframe>,
    log: &EventLog,
    config: &PostProcessConfig,
) -> (action: FrameAction)
    requires
        pipeline_state_wf(*old(state)),
        old(state).frames_processed < u64::MAX,
        keyframes_wf(keyframes@, *config),
        config_wf(*config),
        log_wf(*log),
        time_ms <= MAX_TIMESTAMP_MS,
    ensures
        pipeline_state_wf(*final(state)),
        final(state).frames_processed == old(state).frames_processed + 1,
        final(state).telemetry.input_path@ === old(state).telemetry.input_path@,
        final(state).telemetry.output_path@ === old(state).telemetry.output_path@,
        final(state).telemetry.frames@.len() == old(state).telemetry.frames@.len() + 1,
        final(state).telemetry.frames@.drop_last() === old(state).telemetry.frames@,
        ({
            let pose = camera_pose_at(time_ms, keyframes@, log.events@, log.metadata, *config);
            let tf = final(state).telemetry.frames@.last();
            &&& final(state).current_zoom == pose.zoom
            &&& final(state).current_cx == pose.cx
            &&& final(state).current_cy == pose.cy
            &&& tf.frame_index == old(state).frames_processed
            &&& tf.time_ms == time_ms
            &&& tf.zoom == pose.zoom
            &&& tf.cx == pose.cx
            &&& tf.cy == pose.cy
            &&& tf.target_cx == pose.target_cx
            &&& tf.target_cy == pose.target_cy
            &&& tf.mouse_cx == pose.mouse_cx
            &&& tf.mouse_cy == pose.mouse_cy
            &&& tf.velocity_cx == pose.cx - old(state).current_cx
            &&& tf.velocity_cy == pose.cy - old(state).current_cy
            &&& (action == FrameAction::Passthrough) == passthrough_applies(
                pose.zoom,
                old(state).current_zoom as int,
            )
            &&& (action matches FrameAction::Render(u) ==> u.zoom == pose.zoom && u.center_x
                == pose.cx && u.center_y == pose.cy && u.blur_samples == MOTION_BLUR_SAMPLES
                && u.prev_center_x == old(state).current_cx && u.prev_center_y == old(
                state,
            ).current_cy && u.prev_zoom == old(state).current_zoom && u.width == config.width
                && u.height == config.height)
        }),
{
    let st = calculate_camera_at_time(time_ms, keyframes, log, config);
    let prev_zoom = state.current_zoom;
    let prev_cx = state.current_cx;
    let prev_cy = state.current_cy;

    let frame = TelemetryFrame {
        frame_index: state.frames_processed,
        time_ms,
        zoom: st.zoom,
        cx: st.cx,
        cy: st.cy,
        target_cx: st.target_cx,
        target_cy: st.target_cy,
        mouse_cx: st.mouse_cx,
        mouse_cy: st.mouse_cy,
        velocity_cx: st.cx - prev_cx,
        velocity_cy: st.cy - prev_cy,
    };
    state.telemetry.frames.push(frame);
    state.current_zoom = st.zoom;
    state.current_cx = st.cx;
    state.current_cy = st.cy;
    state.frames_processed = state.frames_processed + 1;

    if st.zoom == 1000 && prev_zoom == 1000 {
        FrameAction::Passthrough
    } else {
        FrameAction::Render(RenderUniforms {
            zoom: st.zoom,
            center_x: st.cx,
            center_y: st.cy,
            blur_samples: MOTION_BLUR_SAMPLES,
            prev_center_x: prev_cx,
            prev_center_y: prev_cy,
            prev_zoom,
            width: config.width,
            height: config.height,
        })
    }
}

/// A job with no compiled keyframes takes the straight-copy path: the shell
/// copies the source file to the output byte for byte and never decodes.
pub fn should_copy_directly(keyframes: &Vec<ZoomKeyframe>) -> (r: bool)
    ensures
        r == (keyframes@.len() == 0),
{
    keyframes.len() == 0
}

/// The bytes a passthrough frame hands to the encoder: exactly the decoded
/// input bytes.
pub fn passthrough_frame_bytes(frame: &Vec<u8>) -> (out: Vec<u8>)
    ensures
        out@ === frame@,
{
    let mut out: Vec<u8> = Vec::new();
    let n = frame.len();
    for i in 0..n
        invariant
            n == frame.len(),
            out@ === frame@.take(i as int),
    {
        out.push(frame[i]);
    }
    proof {
        assert(frame@.take(n as int) =~= frame@);
    }
    out
}

/// THE STRAIGHT-COPY LAW. A log without a single click event compiles to an
/// empty keyframe sequence, so the job takes the copy path and the output
/// file is the input file unchanged.
pub proof fn lemma_no_clicks_no_keyframes(
    events: Seq<RecordedEvent>,
    c: PostProcessConfig,
    meta: RecordingMetadata,
)
    requires
        events_bounded(events),
        config_wf(c),
        metadata_wf(meta),
        forall|i: int| 0 <= i < events.len() ==> !(#[trigger] events[i].is_click()),
    ensures
        compiled_keyframes(events, c, meta).len() == 0,
{
    lemma_compiled_keyframes_sequential(events, c, meta);
    lemma_count_clicks_zero(events);
}

proof fn lemma_count_clicks_zero(events: Seq<RecordedEvent>)
    requires
        forall|i: int| 0 <= i < events.len() ==> !(#[trigger] events[i].is_click()),
    ensures
        count_clicks(events) == 0,
    decreases events.len(),
{
    if events.len() == 0 {
    } else {
        assert(forall|i: int|
            0 <= i < events.drop_last().len() ==> events.drop_last()[i] == #[trigger] events[i]);
        lemma_count_clicks_zero(events.drop_last());
        assert(!events[events.len() - 1].is_click());
    }
}

/// THE PASSTHROUGH LAW. For a frame whose time lies outside every keyframe's
/// window, and whose immediately preceding frame also lay outside every
/// window, the passthrough test holds: both poses are neutral, so
/// [`plan_frame`] chooses [`FrameAction::Passthrough`] and the encoder
/// receives the decoded bytes unchanged.
pub proof fn lemma_passthrough_for_uncovered_pair(
    t_prev: u64,
    t: u64,
    kfs: Seq<ZoomKeyframe>,
    events: Seq<RecordedEvent>,
    meta: RecordingMetadata,
    c: PostProcessConfig,
)
    requires
        forall|i: int| 0 <= i < kfs.len() ==> !kf_covers(#[trigger] kfs[i], t_prev),
        forall|i: int| 0 <= i < kfs.len() ==> !kf_covers(#[trigger] kfs[i], t),
    ensures
        passthrough_applies(
            camera_pose_at(t, kfs, events, meta, c).zoom,
            camera_pose_at(t_prev, kfs, events, meta, c).zoom,
        ),
{
    crate::camera::lemma_pose_neutral_outside(t_prev, kfs, events, meta, c);
    crate::camera::lemma_pose_neutral_outside(t, kfs, events, meta, c);
}

/// The RGBA bytes of an RGB frame: each pixel keeps its three channels and
/// gains an opaque alpha. A trailing partial pixel is dropped.
pub open spec fn rgb_to_rgba_bytes(s: Seq<u8>) -> Seq<u8> {
    Seq::new(
        s.len() / 3 * 4,
        |i: int|
            if i % 4 == 3 {
                255u8
            } else {
                s[i / 4 * 3 + i % 4]
            },
    )
}

/// The RGB bytes of an RGBA frame: each pixel drops its alpha. A trailing
/// partial pixel is dropped.
pub open spec fn rgba_to_rgb_bytes(s: Seq<u8>) -> Seq<u8> {
    Seq::new(s.len() / 4 * 3, |i: int| s[i / 3 * 4 + i % 3])
}

/// Convert a decoded RGB frame to the RGBA layout the compositor samples.
pub fn rgb_to_rgba(frame: &Vec<u8>) -> (out: Vec<u8>)
    requires
        frame@.len() * 4 <= usize::MAX,
    ensures
        out@ === rgb_to_rgba_bytes(frame@),
{
    let n = frame.len() / 3;
    let mut out: Vec<u8> = Vec::new();
    for p in 0..n
        invariant
            n == frame@.len() / 3,
            frame@.len() * 4 <= usize::MAX,
            out@ === rgb_to_rgba_bytes(frame@).take(4 * p as int),
    {
        out.push(frame[3 * p]);
        out.push(frame[3 * p + 1]);
        out.push(frame[3 * p + 2]);
        out.push(255);
        proof {
            let spec_out = rgb_to_rgba_bytes(frame@);
            assert forall|k: int| 0 <= k < 4 implies #[trigger] spec_out[4 * p + k] == (if k == 3 {
                255u8
            } else {
                frame@[3 * p + k]
            }) by {
                assert((4 * p + k) / 4 == p && (4 * p + k) % 4 == k) by (nonlinear_arith)
                    requires
                        0 <= k < 4,
                        p >= 0,
                ;
            }
            assert(out@ =~= spec_out.take(4 * (p + 1)));
        }
    }
    proof {
        assert(rgb_to_rgba_bytes(frame@).take(4 * n as int) =~= rgb_to_rgba_bytes(frame@));
    }
    out
}

/// Convert a composited RGBA frame back to the encoder's RGB layout.
pub fn rgba_to_rgb(frame: &Vec<u8>) -> (out: Vec<u8>)
    ensures
        out@ === rgba_to_rgb_bytes(frame@),
{
    let n = frame.len() / 4;
    let mut out: Vec<u8> = Vec::new();
    for p in 0..n
        invariant
            n == frame@.len() / 4,
            frame@.len() <= usize::MAX,
            out@ === rgba_to_rgb_bytes(frame@).take(3 * p as int),
    {
        proof {
            assert(4 * p + 3 < frame@.len()) by (nonlinear_arith)
                requires
                    p < n,
                    n == frame@.len() / 4,
            ;
        }
        out.push(frame[4 * p]);
        out.push(frame[4 * p + 1]);
        out.push(frame[4 * p + 2]);
        proof {
            let spec_out = rgba_to_rgb_bytes(frame@);
            assert forall|k: int| 0 <= k < 3 implies #[trigger] spec_out[3 * p + k] == frame@[4 * p
                + k] by {
                assert((3 * p + k) / 3 == p && (3 * p + k) % 3 == k) by (nonlinear_arith)
                    requires
                        0 <= k < 3,
                        p >= 0,
                ;
            }
            assert(out@ =~= spec_out.take(3 * (p + 1)));
        }
    }
    proof {
        assert(rgba_to_rgb_bytes(frame@).take(3 * n as int) =~= rgba_to_rgb_bytes(frame@));
    }
    out
}

/// Converting a whole-pixel RGB frame to RGBA and back returns it unchanged:
/// the compositor's byte plumbing loses nothing.
pub proof fn lemma_rgb_rgba_round_trip(s: Seq<u8>)
    requires
        s.len() % 3 == 0,
    ensures
        rgba_to_rgb_bytes(rgb_to_rgba_bytes(s)) == s,
{
    let rgba = rgb_to_rgba_bytes(s);
    let k = s.len() / 3;
    assert(s.len() == 3 * k) by (nonlinear_arith)
        requires
            s.len() % 3 == 0,
            k == s.len() / 3,
    ;
    assert(rgba.len() == 4 * k) by (nonlinear_arith)
        requires
            rgba.len() == s.len() / 3 * 4,
            k == s.len() / 3,
    ;
    assert(rgba.len() / 4 == k) by (nonlinear_arith)
        requires
            rgba.len() == 4 * k,
            k >= 0,
    ;
    assert forall|i: int| 0 <= i < s.len() implies #[trigger] rgba_to_rgb_bytes(rgba)[i]
        == s[i] by {
        let q = i / 3;
        let r = i % 3;
        assert(i == 3 * q + r && 0 <= r < 3 && q >= 0) by (nonlinear_arith)
            requires
                i >= 0,
                q == i / 3,
                r == i % 3,
        ;
        let j = q * 4 + r;
        assert(q < k);
        assert(0 <= j < rgba.len());
        assert(j % 4 == r && j / 4 == q) by (nonlinear_arith)
            requires
                j == q * 4 + r,
                0 <= r < 3,
                q >= 0,
        ;
        assert(rgba_to_rgb_bytes(rgba)[i] == rgba[j]);
        assert(rgba[j] == s[j / 4 * 3 + j % 4]);
        assert(j / 4 * 3 + j % 4 == i);
    }
    assert(rgba_to_rgb_bytes(rgba) =~= s);
}

} // verus!
