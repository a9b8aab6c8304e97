//! The event macro recorder: at most one recording at a time, fed with the
//! window events while it runs, and stopped into a replay script.
use vstd::prelude::*;

use crate::macro_record::{
    finish_macro_recording, replay_steps, sat_sub, sorted_by_time, RecordedEvent, StopEventMacroRecordingResult,
};
use crate::recording::{recorded_input, recorded_input_of, RecordedInput, RecordedInputView};
use crate::text::{chars_eq, chars_of, decimal, push_decimal};
use crate::window::UiEvent;

verus! {

/// How a recording answers the request that started it: at once, or, for
/// a recording of a fixed duration, with the recorded script once it stops
/// (`reply_pending` until then).
#[derive(Debug, Clone, Copy, PartialEq, Eq, Structural)]
pub enum RecordingMode {
    Async,
    Timed { reply_pending: bool },
}

/// A running recording.
#[derive(Debug)]
pub struct EventMacroRecordingSession {
    pub id: String,
    pub window_id: Option<u64>,
    pub started_at_ts_unix_ms: u64,
    pub events: Vec<RecordedEvent<RecordedInput>>,
    pub mode: RecordingMode,
}

impl EventMacroRecordingSession {
    /// Whether the start request of a timed recording is to be answered
    /// now: true once, false after that and for a recording that answered
    /// at once.
    pub fn complete_timed_macro_start(&mut self) -> (r: bool)
        ensures
            r == (old(self).mode == RecordingMode::Timed { reply_pending: true }),
            final(self).mode == match old(self).mode {
                RecordingMode::Timed { .. } => RecordingMode::Timed { reply_pending: false },
                RecordingMode::Async => RecordingMode::Async,
            },
            final(self).id == old(self).id,
            final(self).window_id == old(self).window_id,
            final(self).started_at_ts_unix_ms == old(self).started_at_ts_unix_ms,
            final(self).events == old(self).events,
    {
        match self.mode {
            RecordingMode::Timed { reply_pending } => {
                self.mode = RecordingMode::Timed { reply_pending: false };
                reply_pending
            },
            RecordingMode::Async => false,
        }
    }
}

/// What a recording records of an event, in recording time order.
pub open spec fn recorded_view(s: Seq<RecordedEvent<RecordedInput>>) -> Seq<(RecordedInputView, u64)> {
    s.map_values(|e: RecordedEvent<RecordedInput>| (e.event@, e.ts_unix_ms))
}

/// The macro recorder: the running recording, if any, and the number of
/// recordings started so far.
#[derive(Debug)]
pub struct MacroRecorder {
    pub session: Option<EventMacroRecordingSession>,
    pub seq: u64,
}

/// The id of the recording started at `started_at` as the `seq`-th one.
pub open spec fn recording_id(started_at: u64, seq: u64) -> Seq<char> {
    "macro_"@ + decimal(started_at as nat) + "_"@ + decimal(seq as nat)
}

impl MacroRecorder {
    /// A recorder with no recording.
    pub fn new() -> (r: MacroRecorder)
        ensures
            r.session is None,
            r.seq == 0,
    {
        MacroRecorder { session: None, seq: 0 }
    }

    /// Whether a recording runs.
    pub fn is_macro_recording(&self) -> (r: bool)
        ensures
            r == self.session is Some,
    {
        self.session.is_some()
    }

    /// Starts a recording at `started_at`, for `window_id` if given; it is
    /// answered at once unless `timed`. Returns its id; refused while
    /// another recording runs.
    pub fn start(&mut self, window_id: Option<u64>, started_at: u64, timed: bool) -> (r: Result<String, String>)
        ensures
            old(self).session is Some ==> (r matches Err(m) && m@ == "Event macro recording already in progress. Stop it first."@),
            old(self).session is Some ==> final(self).session == old(self).session && final(self).seq == old(self).seq,
            old(self).session is None ==> (r matches Ok(id) && id@ == recording_id(started_at, old(self).seq)),
            old(self).session is None ==> final(self).seq == (if old(self).seq == u64::MAX {
                0
            } else {
                (old(self).seq + 1) as u64
            }),
            old(self).session is None ==> (final(self).session matches Some(s) && s.id@ == recording_id(started_at, old(self).seq)
                && s.window_id == window_id && s.started_at_ts_unix_ms == started_at && s.events@.len() == 0 && s.mode == (
            if timed {
                RecordingMode::Timed { reply_pending: true }
            } else {
                RecordingMode::Async
            })),
    {
        if self.session.is_some() {
            return Err("Event macro recording already in progress. Stop it first.".to_owned());
        }
        let seq = self.seq;
        self.seq = seq.wrapping_add(1);
        let mut id = String::new();
        id.append("macro_");
        push_decimal(&mut id, started_at);
        id.append("_");
        push_decimal(&mut id, seq);
        let mode = if timed { RecordingMode::Timed { reply_pending: true } } else { RecordingMode::Async };
        let session = EventMacroRecordingSession {
            id: id.as_str().to_owned(),
            window_id,
            started_at_ts_unix_ms: started_at,
            events: Vec::new(),
            mode,
        };
        self.session = Some(session);
        Ok(id)
    }

    /// A window event at time `ts`: a running recording keeps what replays
    /// it, when anything does.
    pub fn record_ui_event(&mut self, event: &UiEvent, ts: u64)
        ensures
            final(self).seq == old(self).seq,
            match old(self).session {
                None => final(self).session is None,
                Some(s) => (final(self).session matches Some(f) && f.id == s.id && f.window_id == s.window_id
                    && f.started_at_ts_unix_ms == s.started_at_ts_unix_ms && f.mode == s.mode && recorded_view(f.events@)
                    == match recorded_input_of(event@) {
                    Some(x) => recorded_view(s.events@).push((x, ts)),
                    None => recorded_view(s.events@),
                }),
            },
    {
        if self.session.is_none() {
            return;
        }
        let input = match recorded_input(event) {
            Some(x) => x,
            None => return,
        };
        let mut session = self.session.take().unwrap();
        let ghost before = session.events@;
        session.events.push(RecordedEvent { event: input, ts_unix_ms: ts });
        assert(recorded_view(session.events@) =~= recorded_view(before).push((session.events@.last().event@, ts)));
        self.session = Some(session);
    }

    /// Stops the recording at `end_ts`: the one named by `recording_id`
    /// when given. Returns the replay script and whether the start request
    /// of a timed recording is to be answered with it; refused when no
    /// recording runs or another one does, which then keeps running.
    pub fn stop(&mut self, recording_id: Option<String>, end_ts: u64) -> (r: Result<
        (StopEventMacroRecordingResult<RecordedInput>, bool),
        String,
    >)
        ensures
            final(self).seq == old(self).seq,
            old(self).session is None ==> (r matches Err(m) && m@ == "No active event macro recording session."@),
            old(self).session is None ==> final(self).session is None,
            old(self).session matches Some(s) ==> match recording_id {
                Some(req) => if req@ != s.id@ {
                    r matches Err(m) && m@ == "Recording ID mismatch: requested "@ + req@ + ", active "@ + s.id@
                        && final(self).session == old(self).session
                } else {
                    stopped(r, s, end_ts) && final(self).session is None
                },
                None => stopped(r, s, end_ts) && final(self).session is None,
            },
    {
        let mut session = match self.session.take() {
            Some(s) => s,
            None => return Err("No active event macro recording session.".to_owned()),
        };
        if let Some(req) = &recording_id {
            if !chars_eq(&chars_of(req.as_str()), &chars_of(session.id.as_str())) {
                let mut m = String::new();
                m.append("Recording ID mismatch: requested ");
                m.append(req.as_str());
                m.append(", active ");
                m.append(session.id.as_str());
                self.session = Some(session);
                return Err(m);
            }
        }
        let answer_start = session.complete_timed_macro_start();
        let id = session.id.as_str().to_owned();
        let result = finish_macro_recording(id, session.started_at_ts_unix_ms, session.events, end_ts);
        Ok((result, answer_start))
    }
}

/// `r` holds the stopped recording `s`: its script and duration, and
/// whether its start request is to be answered.
pub open spec fn stopped(
    r: Result<(StopEventMacroRecordingResult<RecordedInput>, bool), String>,
    s: EventMacroRecordingSession,
    end_ts: u64,
) -> bool {
    r matches Ok(p) && p.0.recording_id@ == s.id@ && p.0.events@ == replay_steps(
        sorted_by_time(s.events@),
        s.started_at_ts_unix_ms,
    ) && p.0.duration_ms == sat_sub(end_ts, s.started_at_ts_unix_ms) && p.1 == (s.mode == RecordingMode::Timed {
        reply_pending: true,
    })
}

} // verus!
