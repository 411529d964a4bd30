//! Recorded mouse events, the event log consumed by the post-processor, and
//! the sampling session that accumulates events while a recording runs.

use vstd::prelude::*;

verus! {

/// Upper bound on event and playback timestamps, in milliseconds.
///
/// 2^48 - 1 ms is roughly 8900 years, far beyond any recording, and keeping
/// timestamps below it lets every time computation in the crate stay inside
/// `u64`/`i64` without overflow.
pub const MAX_TIMESTAMP_MS: u64 = 0xFFFF_FFFF_FFFF;

/// One event captured during recording: a mouse click or a cursor-position
/// sample, with pixel coordinates in the recording's resolution and the time
/// in milliseconds since the recording started.
#[derive(Clone, Copy, Debug, PartialEq, Eq, Structural)]
pub enum RecordedEvent {
    /// Mouse click at position
    Click { x: i32, y: i32, timestamp_ms: u64 },
    /// Cursor position sample
    CursorMove { x: i32, y: i32, timestamp_ms: u64 },
}

impl RecordedEvent {
    /// The event's timestamp, whichever variant it is.
    pub open spec fn timestamp(self) -> u64 {
        match self {
            RecordedEvent::Click { timestamp_ms, .. } => timestamp_ms,
            RecordedEvent::CursorMove { timestamp_ms, .. } => timestamp_ms,
        }
    }

    /// The event's x coordinate, whichever variant it is.
    pub open spec fn pos_x(self) -> i32 {
        match self {
            RecordedEvent::Click { x, .. } => x,
            RecordedEvent::CursorMove { x, .. } => x,
        }
    }

    /// The event's y coordinate, whichever variant it is.
    pub open spec fn pos_y(self) -> i32 {
        match self {
            RecordedEvent::Click { y, .. } => y,
            RecordedEvent::CursorMove { y, .. } => y,
        }
    }

    /// Whether the event is a click (only clicks produce keyframes).
    pub open spec fn is_click(self) -> bool {
        self is Click
    }

    /// Executable timestamp accessor.
    pub fn get_timestamp(&self) -> (t: u64)
        ensures
            t == self.timestamp(),
    {
        match self {
            RecordedEvent::Click { timestamp_ms, .. } => *timestamp_ms,
            RecordedEvent::CursorMove { timestamp_ms, .. } => *timestamp_ms,
        }
    }

    /// Executable position accessor.
    pub fn get_pos(&self) -> (p: (i32, i32))
        ensures
            p.0 == self.pos_x(),
            p.1 == self.pos_y(),
    {
        match self {
            RecordedEvent::Click { x, y, .. } => (*x, *y),
            RecordedEvent::CursorMove { x, y, .. } => (*x, *y),
        }
    }
}

/// The screen resolution the events were captured at.
#[derive(Clone, Copy, Debug, PartialEq, Eq, Structural)]
pub struct RecordingMetadata {
    pub width: u32,
    pub height: u32,
}

/// A complete event log: capture resolution plus the recorded events.
#[derive(Clone, Debug)]
pub struct EventLog {
    pub metadata: RecordingMetadata,
    pub events: Vec<RecordedEvent>,
}

/// A resolution is usable when both dimensions are positive: coordinates are
/// normalized by dividing by them.
pub open spec fn metadata_wf(meta: RecordingMetadata) -> bool {
    meta.width >= 1 && meta.height >= 1
}

/// Every timestamp in the sequence stays below [`MAX_TIMESTAMP_MS`].
pub open spec fn events_bounded(events: Seq<RecordedEvent>) -> bool {
    forall|i: int| 0 <= i < events.len() ==> #[trigger] events[i].timestamp() <= MAX_TIMESTAMP_MS
}

/// An event log the post-processor accepts: usable resolution and bounded
/// timestamps.
pub open spec fn log_wf(log: EventLog) -> bool {
    metadata_wf(log.metadata) && events_bounded(log.events@)
}

/// The data-model invariant of a log: events are ordered by timestamp and
/// are never reordered.
pub open spec fn events_ordered(events: Seq<RecordedEvent>) -> bool {
    forall|i: int, j: int|
        #![trigger events[i], events[j]]
        0 <= i < j < events.len() ==> events[i].timestamp() <= events[j].timestamp()
}

/// The sampling session that collects events while a recording runs. The
/// caller polls the mouse on its own schedule and hands each observation to
/// [`update_event_logging`]; the session turns observations into events.
pub struct EventLoggerSession {
    /// Capture resolution, kept for the final [`EventLog`].
    pub width: u32,
    pub height: u32,
    /// Events recorded so far, in time order of the observations.
    pub events: Vec<RecordedEvent>,
    /// Whether any mouse button was down at the previous observation.
    pub last_buttons_pressed: bool,
    /// Time of the last stored cursor sample (0 before the first).
    pub last_sample_ms: u64,
    /// Time of the most recent observation (0 before the first). The
    /// caller's clock never goes backwards, so every later observation must
    /// carry a timestamp at least this large.
    pub last_observation_ms: u64,
}

/// The session's invariant: the stored events are ordered by timestamp,
/// none of them is later than the last observation, and the sampling
/// watermark never runs ahead of the clock. [`start_event_logging`]
/// establishes it and [`update_event_logging`] preserves it, so the log a
/// session produces always satisfies the data model's ordering.
pub open spec fn session_wf(s: EventLoggerSession) -> bool {
    &&& events_ordered(s.events@)
    &&& forall|i: int|
        0 <= i < s.events@.len() ==> #[trigger] s.events@[i].timestamp() <= s.last_observation_ms
    &&& s.last_sample_ms <= s.last_observation_ms
}

/// Minimum spacing of stored cursor samples, in milliseconds (about 60 Hz).
pub const CURSOR_SAMPLE_INTERVAL_MS: u64 = 16;

/// Start a sampling session for a recording at the given resolution.
pub fn start_event_logging(width: u32, height: u32) -> (s: EventLoggerSession)
    ensures
        s.width == width,
        s.height == height,
        s.events@ === Seq::<RecordedEvent>::empty(),
        !s.last_buttons_pressed,
        s.last_sample_ms == 0,
        s.last_observation_ms == 0,
        session_wf(s),
{
    EventLoggerSession {
        width,
        height,
        events: Vec::new(),
        last_buttons_pressed: false,
        last_sample_ms: 0,
        last_observation_ms: 0,
    }
}

/// The click event recorded for an observation, if the buttons went from
/// released to pressed; otherwise nothing.
pub open spec fn click_of_observation(
    s: EventLoggerSession,
    x: i32,
    y: i32,
    buttons_pressed: bool,
    timestamp_ms: u64,
) -> Seq<RecordedEvent> {
    if buttons_pressed && !s.last_buttons_pressed {
        seq![(RecordedEvent::Click { x, y, timestamp_ms })]
    } else {
        Seq::empty()
    }
}

/// Whether an observation is far enough from the previous stored sample to
/// record a cursor position.
pub open spec fn sample_due(s: EventLoggerSession, timestamp_ms: u64) -> bool {
    timestamp_ms - s.last_sample_ms >= CURSOR_SAMPLE_INTERVAL_MS
}

/// Record one mouse observation: a click event on the released-to-pressed
/// edge, and a cursor sample whenever at least [`CURSOR_SAMPLE_INTERVAL_MS`]
/// has passed since the previous stored sample.
///
/// Observation times never go backwards (the caller reads a monotone
/// clock), so every event this appends carries a timestamp at least as
/// large as every event already stored: the log stays ordered.
pub fn update_event_logging(
    s: &mut EventLoggerSession,
    x: i32,
    y: i32,
    buttons_pressed: bool,
    timestamp_ms: u64,
) -> (clicked: bool)
    requires
        session_wf(*old(s)),
        old(s).last_observation_ms <= timestamp_ms,
    ensures
        session_wf(*final(s)),
        events_ordered(final(s).events@),
        final(s).width == old(s).width,
        final(s).height == old(s).height,
        final(s).last_buttons_pressed == buttons_pressed,
        final(s).last_observation_ms == timestamp_ms,
        clicked == (buttons_pressed && !old(s).last_buttons_pressed),
        final(s).events@ === old(s).events@ + click_of_observation(
            *old(s),
            x,
            y,
            buttons_pressed,
            timestamp_ms,
        ) + (if sample_due(*old(s), timestamp_ms) {
            seq![(RecordedEvent::CursorMove { x, y, timestamp_ms })]
        } else {
            Seq::empty()
        }),
        final(s).last_sample_ms == (if sample_due(*old(s), timestamp_ms) {
            timestamp_ms
        } else {
            old(s).last_sample_ms
        }),
{
    let clicked = buttons_pressed && !s.last_buttons_pressed;
    if clicked {
        s.events.push(RecordedEvent::Click { x, y, timestamp_ms });
    }
    if timestamp_ms - s.last_sample_ms >= CURSOR_SAMPLE_INTERVAL_MS {
        s.events.push(RecordedEvent::CursorMove { x, y, timestamp_ms });
        s.last_sample_ms = timestamp_ms;
    }
    s.last_buttons_pressed = buttons_pressed;
    s.last_observation_ms = timestamp_ms;
    proof {
        let olde = old(s).events@;
        let newe = s.events@;
        assert forall|i: int, j: int|
            #![trigger newe[i], newe[j]]
            0 <= i < j < newe.len() implies newe[i].timestamp() <= newe[j].timestamp() by {
            if j >= olde.len() {
                assert(newe[j].timestamp() == timestamp_ms);
                if i < olde.len() {
                    assert(newe[i] == olde[i]);
                    assert(olde[i].timestamp() <= old(s).last_observation_ms);
                } else {
                    assert(newe[i].timestamp() == timestamp_ms);
                }
            } else {
                assert(newe[i] == olde[i] && newe[j] == olde[j]);
            }
        }
        assert forall|i: int| 0 <= i < newe.len() implies #[trigger] newe[i].timestamp()
            <= timestamp_ms by {
            if i < olde.len() {
                assert(newe[i] == olde[i]);
                assert(olde[i].timestamp() <= old(s).last_observation_ms);
            } else {
                assert(newe[i].timestamp() == timestamp_ms);
            }
        }
    }
    clicked
}

/// End the session and hand back the recorded events; a well-formed
/// session hands back an ordered log.
pub fn stop_event_logging(s: EventLoggerSession) -> (events: Vec<RecordedEvent>)
    ensures
        events@ === s.events@,
        session_wf(s) ==> events_ordered(events@),
{
    s.events
}

/// Package a finished session as an [`EventLog`]; a well-formed session
/// yields a log whose events satisfy the data model's ordering.
pub fn finish_event_log(s: EventLoggerSession) -> (log: EventLog)
    ensures
        log.metadata.width == s.width,
        log.metadata.height == s.height,
        log.events@ === s.events@,
        session_wf(s) ==> events_ordered(log.events@),
{
    EventLog {
        metadata: RecordingMetadata { width: s.width, height: s.height },
        events: s.events,
    }
}

} // verus!
