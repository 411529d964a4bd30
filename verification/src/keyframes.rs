//! Keyframe compiler: turns the click events of an [`EventLog`] into a
//! sorted, non-overlapping sequence of zoom spans.
//!
//! Every click yields a keyframe covering `hold_duration + 2 * zoom_duration`
//! milliseconds. The sequentializing pass sorts the keyframes by start time
//! and cuts each one short the instant the next begins, so no two keyframes
//! ever claim the same instant.

use vstd::prelude::*;
use crate::event_log::{EventLog, MAX_TIMESTAMP_MS, RecordedEvent, RecordingMetadata};
use crate::event_log::{events_bounded, log_wf, metadata_wf};
use crate::fixed::{norm_coord, norm_milli, MAX_ZOOM_MILLI};

verus! {

/// Configuration for one post-processing job. Times are milliseconds and the
/// zoom level is in milli units (1500 = 1.5x); the unverified shell converts
/// from the second/float values of its own settings file.
#[derive(Clone, Debug)]
pub struct PostProcessConfig {
    /// Input video path
    pub input_path: String,
    /// Output video path
    pub output_path: String,
    /// Video width
    pub width: u32,
    /// Video height
    pub height: u32,
    /// Frame rate
    pub fps: u32,
    /// Zoom level to apply on clicks, milli units (1500 = 150%)
    pub zoom_level: i64,
    /// Duration of the zoom-in/out animation, milliseconds
    pub zoom_duration: u32,
    /// How long the zoom holds before zooming out, milliseconds
    pub hold_duration: u32,
}

/// A configuration the compiler and interpolator accept: a positive animation
/// length (it divides phase progress) and a zoom level within the fixed-point
/// range.
pub open spec fn config_wf(c: PostProcessConfig) -> bool {
    &&& c.zoom_duration >= 1
    &&& 0 <= c.zoom_level <= MAX_ZOOM_MILLI
}

impl PostProcessConfig {
    /// Executable form of [`config_wf`], for callers outside the proof world.
    pub fn is_wf(&self) -> (r: bool)
        ensures
            r == config_wf(*self),
    {
        self.zoom_duration >= 1 && 0 <= self.zoom_level && self.zoom_level <= MAX_ZOOM_MILLI
    }
}

impl Default for PostProcessConfig {
    /// 1080p at 30 fps, 1.5x zoom, 0.3 s animation, 2 s hold.
    fn default() -> (c: Self)
        ensures
            c.input_path@ === Seq::<char>::empty(),
            c.output_path@ === Seq::<char>::empty(),
            c.width == 1920,
            c.height == 1080,
            c.fps == 30,
            c.zoom_level == 1500,
            c.zoom_duration == 300,
            c.hold_duration == 2000,
            config_wf(c),
    {
        PostProcessConfig {
            input_path: String::new(),
            output_path: String::new(),
            width: 1920,
            height: 1080,
            fps: 30,
            zoom_level: 1500,
            zoom_duration: 300,
            hold_duration: 2000,
        }
    }
}

/// One compiled zoom span. Times are milliseconds; the centre is normalized
/// to [0, 1000] milli units against the recording's resolution; the zoom is
/// in milli units.
#[derive(Clone, Copy, Debug, PartialEq, Eq, Structural)]
pub struct ZoomKeyframe {
    /// Start time in milliseconds
    pub start_time: u64,
    /// End time in milliseconds
    pub end_time: u64,
    /// Centre x, milli units in [0, 1000]
    pub center_x: i64,
    /// Centre y, milli units in [0, 1000]
    pub center_y: i64,
    /// Zoom level, milli units
    pub zoom: i64,
}

/// Total span of an untruncated keyframe: zoom in, hold, zoom out.
pub open spec fn keyframe_span_ms(c: PostProcessConfig) -> int {
    c.hold_duration + 2 * c.zoom_duration
}

/// The keyframe a single click compiles to.
pub open spec fn click_keyframe(
    e: RecordedEvent,
    c: PostProcessConfig,
    meta: RecordingMetadata,
) -> ZoomKeyframe {
    ZoomKeyframe {
        start_time: e.timestamp(),
        end_time: (e.timestamp() + keyframe_span_ms(c)) as u64,
        center_x: norm_milli(e.pos_x() as int, meta.width as int) as i64,
        center_y: norm_milli(e.pos_y() as int, meta.height as int) as i64,
        zoom: c.zoom_level,
    }
}

/// Keyframes of the click events, in log order, before sorting/truncation.
pub open spec fn raw_keyframes(
    events: Seq<RecordedEvent>,
    c: PostProcessConfig,
    meta: RecordingMetadata,
) -> Seq<ZoomKeyframe>
    decreases events.len(),
{
    if events.len() == 0 {
        Seq::empty()
    } else {
        raw_keyframes(events.drop_last(), c, meta) + (if events.last().is_click() {
            seq![click_keyframe(events.last(), c, meta)]
        } else {
            Seq::empty()
        })
    }
}

/// Number of click events in a sequence.
pub open spec fn count_clicks(events: Seq<RecordedEvent>) -> int
    decreases events.len(),
{
    if events.len() == 0 {
        0
    } else {
        count_clicks(events.drop_last()) + if events.last().is_click() {
            1int
        } else {
            0int
        }
    }
}

/// Stable insertion of a keyframe into a start-time-sorted sequence: it lands
/// after every element whose start time is not greater than its own.
pub open spec fn insert_sorted(s: Seq<ZoomKeyframe>, k: ZoomKeyframe) -> Seq<ZoomKeyframe>
    decreases s.len(),
{
    if s.len() == 0 {
        seq![k]
    } else if s.last().start_time <= k.start_time {
        s.push(k)
    } else {
        insert_sorted(s.drop_last(), k).push(s.last())
    }
}

/// Stable sort by start time (insertion sort over the sequence).
pub open spec fn sort_by_start(s: Seq<ZoomKeyframe>) -> Seq<ZoomKeyframe>
    decreases s.len(),
{
    if s.len() == 0 {
        Seq::empty()
    } else {
        insert_sorted(sort_by_start(s.drop_last()), s.last())
    }
}

/// Sequentializing pass on a sorted sequence: each keyframe that would still
/// be running when the next begins is cut short at that instant.
pub open spec fn truncate_overlaps(s: Seq<ZoomKeyframe>) -> Seq<ZoomKeyframe> {
    Seq::new(
        s.len(),
        |i: int|
            if i + 1 < s.len() && s[i].end_time > s[i + 1].start_time {
                (ZoomKeyframe { end_time: s[i + 1].start_time, ..s[i] })
            } else {
                s[i]
            },
    )
}

/// The full compilation: clicks to keyframes, sorted, then sequentialized.
pub open spec fn compiled_keyframes(
    events: Seq<RecordedEvent>,
    c: PostProcessConfig,
    meta: RecordingMetadata,
) -> Seq<ZoomKeyframe> {
    truncate_overlaps(sort_by_start(raw_keyframes(events, c, meta)))
}

/// Non-decreasing start times.
pub open spec fn sorted_by_start(s: Seq<ZoomKeyframe>) -> bool {
    forall|i: int, j: int|
        #![trigger s[i], s[j]]
        0 <= i < j < s.len() ==> s[i].start_time <= s[j].start_time
}

/// Well-formedness of one raw (untruncated) keyframe for a given job.
pub open spec fn keyframe_wf(k: ZoomKeyframe, c: PostProcessConfig) -> bool {
    &&& k.start_time <= MAX_TIMESTAMP_MS
    &&& k.end_time == k.start_time + keyframe_span_ms(c)
    &&& 0 <= k.center_x <= 1000
    &&& 0 <= k.center_y <= 1000
    &&& k.zoom == c.zoom_level
}

/// Well-formedness of a keyframe after the sequentializing pass: the span may
/// have been cut short, but never below its start.
pub open spec fn compiled_keyframe_wf(k: ZoomKeyframe, c: PostProcessConfig) -> bool {
    &&& k.start_time <= MAX_TIMESTAMP_MS
    &&& k.start_time <= k.end_time <= k.start_time + keyframe_span_ms(c)
    &&& 0 <= k.center_x <= 1000
    &&& 0 <= k.center_y <= 1000
    &&& k.zoom == c.zoom_level
}

/// A compiled sequence the interpolator accepts: every keyframe well formed,
/// sorted, and non-overlapping.
pub open spec fn keyframes_wf(s: Seq<ZoomKeyframe>, c: PostProcessConfig) -> bool {
    &&& forall|i: int| 0 <= i < s.len() ==> compiled_keyframe_wf(#[trigger] s[i], c)
    &&& sorted_by_start(s)
    &&& forall|i: int|
        0 <= i && i + 1 < s.len() ==> #[trigger] s[i].end_time <= s[i + 1].start_time
}

proof fn lemma_insert_sorted_wf(s: Seq<ZoomKeyframe>, k: ZoomKeyframe, c: PostProcessConfig)
    requires
        forall|i: int| 0 <= i < s.len() ==> keyframe_wf(#[trigger] s[i], c),
        keyframe_wf(k, c),
        sorted_by_start(s),
    ensures
        forall|i: int|
            0 <= i < insert_sorted(s, k).len() ==> keyframe_wf(
                #[trigger] insert_sorted(s, k)[i],
                c,
            ),
        sorted_by_start(insert_sorted(s, k)),
        insert_sorted(s, k).len() == s.len() + 1,
    decreases s.len(),
{
    if s.len() == 0 {
    } else if s.last().start_time <= k.start_time {
    } else {
        lemma_insert_sorted_wf(s.drop_last(), k, c);
        let r = insert_sorted(s.drop_last(), k).push(s.last());
        assert forall|i: int, j: int|
            #![trigger r[i], r[j]]
            0 <= i < j < r.len() implies r[i].start_time <= r[j].start_time by {
            let inner = insert_sorted(s.drop_last(), k);
            if j < r.len() - 1 {
            } else {
                // r[j] is s.last(); every element of inner is either k (whose
                // start is below s.last()) or an element of s.drop_last().
                assert(forall|m: int|
                    0 <= m < inner.len() ==> #[trigger] inner[m].start_time
                        <= s.last().start_time) by {
                    lemma_insert_sorted_membership(s.drop_last(), k);
                    assert(forall|m: int|
                        0 <= m < s.drop_last().len() ==> #[trigger] s.drop_last()[m].start_time
                            <= s.last().start_time);
                }
            }
        }
    }
}

/// Every element of `insert_sorted(s, k)` is `k` or an element of `s`.
proof fn lemma_insert_sorted_membership(s: Seq<ZoomKeyframe>, k: ZoomKeyframe)
    ensures
        insert_sorted(s, k).len() == s.len() + 1,
        forall|m: int|
            0 <= m < insert_sorted(s, k).len() ==> (#[trigger] insert_sorted(s, k)[m] == k
                || exists|n: int| 0 <= n < s.len() && s[n] == #[trigger] insert_sorted(s, k)[m]),
    decreases s.len(),
{
    if s.len() == 0 {
    } else if s.last().start_time <= k.start_time {
    } else {
        lemma_insert_sorted_membership(s.drop_last(), k);
        assert forall|m: int| 0 <= m < insert_sorted(s, k).len() implies (
            #[trigger] insert_sorted(s, k)[m] == k || exists|n: int|
                0 <= n < s.len() && s[n] == insert_sorted(s, k)[m]) by {
            let inner = insert_sorted(s.drop_last(), k);
            if m < inner.len() {
                if inner[m] == k {
                } else {
                    let n = choose|n: int| 0 <= n < s.drop_last().len() && s.drop_last()[n]
                        == inner[m];
                    assert(s[n] == insert_sorted(s, k)[m]);
                }
            } else {
                assert(insert_sorted(s, k)[m] == s.last());
                assert(s[s.len() - 1] == s.last());
            }
        }
    }
}

/// After sorting, every keyframe is still well formed and the sequence is
/// sorted with as many entries as before.
proof fn lemma_sort_by_start_wf(s: Seq<ZoomKeyframe>, c: PostProcessConfig)
    requires
        forall|i: int| 0 <= i < s.len() ==> keyframe_wf(#[trigger] s[i], c),
    ensures
        forall|i: int|
            0 <= i < sort_by_start(s).len() ==> keyframe_wf(#[trigger] sort_by_start(s)[i], c),
        sorted_by_start(sort_by_start(s)),
        sort_by_start(s).len() == s.len(),
    decreases s.len(),
{
    if s.len() == 0 {
    } else {
        lemma_sort_by_start_wf(s.drop_last(), c);
        lemma_insert_sorted_wf(sort_by_start(s.drop_last()), s.last(), c);
    }
}

/// The raw keyframes of bounded click events are all well formed.
proof fn lemma_raw_keyframes_wf(
    events: Seq<RecordedEvent>,
    c: PostProcessConfig,
    meta: RecordingMetadata,
)
    requires
        events_bounded(events),
        config_wf(c),
        metadata_wf(meta),
    ensures
        forall|i: int|
            0 <= i < raw_keyframes(events, c, meta).len() ==> keyframe_wf(
                #[trigger] raw_keyframes(events, c, meta)[i],
                c,
            ),
        raw_keyframes(events, c, meta).len() == count_clicks(events),
    decreases events.len(),
{
    if events.len() == 0 {
    } else {
        assert(events_bounded(events.drop_last())) by {
            assert(forall|i: int|
                0 <= i < events.drop_last().len() ==> events.drop_last()[i]
                    == #[trigger] events[i]);
        }
        lemma_raw_keyframes_wf(events.drop_last(), c, meta);
        if events.last().is_click() {
            let e = events.last();
            assert(e.timestamp() <= MAX_TIMESTAMP_MS);
            assert(keyframe_wf(click_keyframe(e, c, meta), c)) by {
                assert(0 <= norm_milli(e.pos_x() as int, meta.width as int) <= 1000);
                assert(0 <= norm_milli(e.pos_y() as int, meta.height as int) <= 1000);
            }
        }
    }
}

/// THE SEQUENTIAL-PATH LAW. For any event log and well-formed configuration,
/// the compiled keyframe sequence is sorted by start time, adjacent keyframes
/// never overlap (`end_time` of one is at most `start_time` of the next), and
/// every keyframe is well formed. There is one keyframe per click event, and
/// each keyframe's end is exactly the full span cut short at the next start.
pub proof fn lemma_compiled_keyframes_sequential(
    events: Seq<RecordedEvent>,
    c: PostProcessConfig,
    meta: RecordingMetadata,
)
    requires
        events_bounded(events),
        config_wf(c),
        metadata_wf(meta),
    ensures
        keyframes_wf(compiled_keyframes(events, c, meta), c),
        compiled_keyframes(events, c, meta).len() == count_clicks(events),
        forall|i: int|
            #![trigger compiled_keyframes(events, c, meta)[i]]
            0 <= i < compiled_keyframes(events, c, meta).len() ==> {
                let r = compiled_keyframes(events, c, meta);
                (i + 1 < r.len() ==> r[i].end_time == min_int(
                    r[i].start_time + keyframe_span_ms(c),
                    r[i + 1].start_time as int,
                )) && (i + 1 == r.len() ==> r[i].end_time == r[i].start_time + keyframe_span_ms(
                    c,
                ))
            },
{
    let raw = raw_keyframes(events, c, meta);
    let s = sort_by_start(raw);
    let r = compiled_keyframes(events, c, meta);
    lemma_raw_keyframes_wf(events, c, meta);
    lemma_sort_by_start_wf(raw, c);
    lemma_truncate_overlaps_pointwise(s);
    assert(r.len() == s.len());
    assert forall|i: int| 0 <= i < r.len() implies compiled_keyframe_wf(#[trigger] r[i], c) by {
        assert(keyframe_wf(s[i], c));
        if i + 1 < s.len() {
            assert(s[i].start_time <= s[i + 1].start_time);
        }
    }
    assert forall|i: int| 0 <= i && i + 1 < r.len() implies #[trigger] r[i].end_time
        <= r[i + 1].start_time by {
        assert(keyframe_wf(s[i], c));
    }
    assert forall|i: int|
        #![trigger r[i]]
        0 <= i < r.len() implies (i + 1 < r.len() ==> r[i].end_time == min_int(
        r[i].start_time + keyframe_span_ms(c),
        r[i + 1].start_time as int,
    )) && (i + 1 == r.len() ==> r[i].end_time == r[i].start_time + keyframe_span_ms(c)) by {
        assert(keyframe_wf(s[i], c));
    }
    assert(sorted_by_start(r)) by {
        assert(forall|i: int| 0 <= i < r.len() ==> #[trigger] r[i].start_time == s[i].start_time);
    }
}

/// What the sequentializing pass does to each entry: starts, centres and
/// zooms are untouched; an end that runs past the next start is pulled back
/// to it.
proof fn lemma_truncate_overlaps_pointwise(s: Seq<ZoomKeyframe>)
    ensures
        truncate_overlaps(s).len() == s.len(),
        forall|i: int|
            #![trigger truncate_overlaps(s)[i]]
            0 <= i < s.len() ==> {
                let t = truncate_overlaps(s)[i];
                t.start_time == s[i].start_time && t.center_x == s[i].center_x && t.center_y
                    == s[i].center_y && t.zoom == s[i].zoom && t.end_time == (if i + 1 < s.len()
                    && s[i].end_time > s[i + 1].start_time {
                    s[i + 1].start_time
                } else {
                    s[i].end_time
                })
            },
{
    assert forall|i: int|
        #![trigger truncate_overlaps(s)[i]]
        0 <= i < s.len() implies {
        let t = truncate_overlaps(s)[i];
        t.start_time == s[i].start_time && t.center_x == s[i].center_x && t.center_y
            == s[i].center_y && t.zoom == s[i].zoom && t.end_time == (if i + 1 < s.len()
            && s[i].end_time > s[i + 1].start_time {
            s[i + 1].start_time
        } else {
            s[i].end_time
        })
    } by {
        if i + 1 < s.len() && s[i].end_time > s[i + 1].start_time {
            assert(truncate_overlaps(s)[i] == (ZoomKeyframe {
                end_time: s[i + 1].start_time,
                ..s[i]
            }));
        } else {
            assert(truncate_overlaps(s)[i] == s[i]);
        }
    }
}

/// Minimum of two mathematical integers.
pub open spec fn min_int(a: int, b: int) -> int {
    if a <= b {
        a
    } else {
        b
    }
}

/// Compile the click events of a log into keyframes, sorted by start time and
/// sequentialized. Coordinates are normalized against the log's recorded
/// resolution, not the output resolution.
pub fn generate_keyframes(log: &EventLog, config: &PostProcessConfig) -> (r: Vec<ZoomKeyframe>)
    requires
        log_wf(*log),
        config_wf(*config),
    ensures
        r@ === compiled_keyframes(log.events@, *config, log.metadata),
        keyframes_wf(r@, *config),
        r@.len() == count_clicks(log.events@),
{
    let mut raw: Vec<ZoomKeyframe> = Vec::new();
    let span: u64 = (config.hold_duration as u64) + 2 * (config.zoom_duration as u64);
    let n = log.events.len();
    for i in 0..n
        invariant
            n == log.events.len(),
            raw@ === raw_keyframes(log.events@.take(i as int), *config, log.metadata),
            log_wf(*log),
            config_wf(*config),
            span == keyframe_span_ms(*config),
    {
        let e = log.events[i];
        proof {
            assert(log.events@.take(i + 1).drop_last() =~= log.events@.take(i as int));
            assert(log.events@.take(i + 1).last() == log.events@[i as int]);
        }
        if let RecordedEvent::Click { x, y, timestamp_ms } = e {
            proof {
                assert(log.events@[i as int].timestamp() <= MAX_TIMESTAMP_MS);
            }
            let kf = ZoomKeyframe {
                start_time: timestamp_ms,
                end_time: timestamp_ms + span,
                center_x: norm_coord(x, log.metadata.width),
                center_y: norm_coord(y, log.metadata.height),
                zoom: config.zoom_level,
            };
            raw.push(kf);
            proof {
                assert(kf == click_keyframe(log.events@[i as int], *config, log.metadata));
            }
        }
    }
    proof {
        assert(log.events@.take(n as int) =~= log.events@);
    }
    merge_overlapping_keyframes(&mut raw);
    proof {
        lemma_compiled_keyframes_sequential(log.events@, *config, log.metadata);
    }
    raw
}

/// Sort the keyframes by start time (stably) and cut each one short the
/// moment the next begins, yielding a strictly sequential camera path.
pub fn merge_overlapping_keyframes(keyframes: &mut Vec<ZoomKeyframe>)
    ensures
        final(keyframes)@ === truncate_overlaps(sort_by_start(old(keyframes)@)),
{
    let sorted = sort_keyframes(keyframes);
    let mut out: Vec<ZoomKeyframe> = Vec::new();
    let n = sorted.len();
    for i in 0..n
        invariant
            n == sorted.len(),
            out@ === truncate_overlaps(sorted@).take(i as int),
    {
        let mut kf = sorted[i];
        if i + 1 < n && kf.end_time > sorted[i + 1].start_time {
            kf.end_time = sorted[i + 1].start_time;
        }
        out.push(kf);
        proof {
            assert(out@ =~= truncate_overlaps(sorted@).take(i + 1));
        }
    }
    proof {
        assert(truncate_overlaps(sorted@).take(n as int) =~= truncate_overlaps(sorted@));
    }
    *keyframes = out;
}

/// Where a keyframe lands in a sorted prefix: the first index whose start
/// time exceeds the new keyframe's (insertion after all equal starts keeps
/// the sort stable).
proof fn lemma_insert_sorted_is_insert(s: Seq<ZoomKeyframe>, k: ZoomKeyframe, idx: int)
    requires
        sorted_by_start(s),
        0 <= idx <= s.len(),
        forall|m: int| 0 <= m < idx ==> #[trigger] s[m].start_time <= k.start_time,
        idx < s.len() ==> s[idx].start_time > k.start_time,
    ensures
        insert_sorted(s, k) === s.insert(idx, k),
    decreases s.len(),
{
    if s.len() == 0 {
        assert(insert_sorted(s, k) =~= s.insert(0, k));
    } else if s.last().start_time <= k.start_time {
        assert(idx == s.len()) by {
            if idx < s.len() {
                assert(s[idx].start_time <= s[s.len() - 1].start_time);
            }
        }
        assert(s.push(k) =~= s.insert(s.len() as int, k));
    } else {
        assert(idx < s.len()) by {
            if idx == s.len() {
                assert(s[s.len() - 1].start_time <= k.start_time);
            }
        }
        lemma_insert_sorted_is_insert(s.drop_last(), k, idx);
        assert(insert_sorted(s.drop_last(), k).push(s.last()) =~= s.insert(idx, k)) by {
            assert(insert_sorted(s.drop_last(), k) === s.drop_last().insert(idx, k));
        }
    }
}

/// Insertion sort by start time; matches the [`sort_by_start`] specification
/// exactly, so the stable order of equal start times is pinned.
fn sort_keyframes(v: &Vec<ZoomKeyframe>) -> (r: Vec<ZoomKeyframe>)
    ensures
        r@ === sort_by_start(v@),
{
    let mut out: Vec<ZoomKeyframe> = Vec::new();
    let n = v.len();
    for i in 0..n
        invariant
            n == v.len(),
            out@ === sort_by_start(v@.take(i as int)),
    {
        let k = v[i];
        let mut idx: usize = 0;
        proof {
            lemma_sorted_prefix(v@.take(i as int));
        }
        while idx < out.len() && out[idx].start_time <= k.start_time
            invariant
                0 <= idx <= out.len(),
                forall|m: int| 0 <= m < idx ==> #[trigger] out@[m].start_time <= k.start_time,
                out@ === sort_by_start(v@.take(i as int)),
                k == v@[i as int],
                i < v@.len(),
            decreases out.len() - idx,
        {
            idx += 1;
        }
        out.insert(idx, k);
        proof {
            let prefix = sort_by_start(v@.take(i as int));
            lemma_sorted_prefix(v@.take(i as int));
            lemma_insert_sorted_is_insert(prefix, k, idx as int);
            assert(v@.take(i + 1).drop_last() =~= v@.take(i as int));
            assert(v@.take(i + 1).last() == v@[i as int]);
        }
    }
    proof {
        assert(v@.take(n as int) =~= v@);
    }
    out
}

/// Sorting a sequence leaves it sorted (helper where well-formedness facts
/// are not needed).
proof fn lemma_sorted_prefix(s: Seq<ZoomKeyframe>)
    ensures
        sorted_by_start(sort_by_start(s)),
        sort_by_start(s).len() == s.len(),
    decreases s.len(),
{
    if s.len() == 0 {
    } else {
        lemma_sorted_prefix(s.drop_last());
        lemma_insert_sorted_sorted(sort_by_start(s.drop_last()), s.last());
    }
}

/// Inserting into a sorted sequence keeps it sorted.
proof fn lemma_insert_sorted_sorted(s: Seq<ZoomKeyframe>, k: ZoomKeyframe)
    requires
        sorted_by_start(s),
    ensures
        sorted_by_start(insert_sorted(s, k)),
        insert_sorted(s, k).len() == s.len() + 1,
    decreases s.len(),
{
    if s.len() == 0 {
    } else if s.last().start_time <= k.start_time {
    } else {
        lemma_insert_sorted_sorted(s.drop_last(), k);
        let r = insert_sorted(s.drop_last(), k).push(s.last());
        assert forall|i: int, j: int|
            #![trigger r[i], r[j]]
            0 <= i < j < r.len() implies r[i].start_time <= r[j].start_time by {
            let inner = insert_sorted(s.drop_last(), k);
            if j == r.len() - 1 {
                lemma_insert_sorted_membership(s.drop_last(), k);
                assert(forall|m: int|
                    0 <= m < s.drop_last().len() ==> #[trigger] s.drop_last()[m].start_time
                        <= s.last().start_time);
            }
        }
    }
}

} // verus!
