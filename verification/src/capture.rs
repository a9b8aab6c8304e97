//! Capture sessions of the debug runtime. At most one capture runs at a time;
//! while it runs it keeps an entry for each frame drawn (when it keeps
//! images), and when it stops its bundle holds the log lines of its time
//! window (when it keeps logs).
use vstd::prelude::*;
use crate::bridge::CaptureError;
use crate::log_ring::{queried_lines, ItemView, LogRing};
use crate::mcp::{copy_text, opt_text};
use crate::text::{chars_eq_str, chars_of, decimal, push_decimal, texts_of};

verus! {

/// What a capture keeps, and how far its log window reaches before its
/// start and after its end.
#[derive(Debug, Clone, Copy, PartialEq, Eq, Structural)]
pub struct CaptureOptions {
    pub with_logs: bool,
    pub with_images: bool,
    pub pre_ms: u64,
    pub post_ms: u64,
}

/// `k` is one of the names of `kinds`.
pub open spec fn names_kind(kinds: Seq<Seq<char>>, k: Seq<char>) -> bool {
    exists|i: int| 0 <= i < kinds.len() && kinds[i] == k
}

/// Whether one of `kinds` is `k`.
pub fn lists_kind(kinds: &Vec<String>, k: &str) -> (r: bool)
    ensures
        r == names_kind(texts_of(kinds@), k@),
{
    let ghost kv = texts_of(kinds@);
    let mut i: usize = 0;
    while i < kinds.len()
        invariant
            i <= kinds@.len(),
            kv == texts_of(kinds@),
            forall|j: int| 0 <= j < i ==> kv[j] != k@,
        decreases kinds.len() - i,
    {
        let item = chars_of(kinds[i].as_str());
        assert(kv[i as int] == kinds@[i as int]@);
        if chars_eq_str(&item, k) {
            return true;
        }
        i = i + 1;
    }
    false
}

/// The options of a capture asked for with `kinds`: logs are kept when
/// `"logs"` is named, images when `"images"` is.
pub fn capture_options(kinds: &Vec<String>, pre_ms: u64, post_ms: u64) -> (r: CaptureOptions)
    ensures
        r == (CaptureOptions {
            with_logs: names_kind(texts_of(kinds@), "logs"@),
            with_images: names_kind(texts_of(kinds@), "images"@),
            pre_ms,
            post_ms,
        }),
{
    let with_logs = lists_kind(kinds, "logs");
    let with_images = lists_kind(kinds, "images");
    CaptureOptions { with_logs, with_images, pre_ms, post_ms }
}

/// A frame kept by a capture: its sequence number, when it was drawn, the
/// path of its image relative to the capture's directory, and the image
/// itself where it is kept inline.
#[derive(Debug)]
pub struct CaptureFrameEntry {
    pub seq: u64,
    pub ts_unix_ms: u64,
    pub path: String,
    pub png_base64: Option<String>,
}

/// A running capture.
#[derive(Debug)]
pub struct CaptureSession {
    pub id: String,
    pub dir: String,
    pub start_ts_unix_ms: u64,
    pub options: CaptureOptions,
    pub filter_at_start: Option<String>,
    pub frames: Vec<CaptureFrameEntry>,
}

/// The capture slot of the runtime: the running capture, if any, and the
/// number of captures started so far.
#[derive(Debug)]
pub struct CaptureSlot {
    pub active: Option<CaptureSession>,
    pub seq: u64,
}

/// The id of the capture started at `start` as the `seq`-th one.
pub open spec fn capture_id(start: u64, seq: u64) -> Seq<char> {
    "cap_"@ + decimal(start as nat) + "_"@ + decimal(seq as nat)
}

/// The image path, relative to the capture's directory, of the frame drawn
/// at `ts` as the `seq`-th.
pub open spec fn frame_path(ts: u64, seq: u64) -> Seq<char> {
    "frames/frame_"@ + decimal(ts as nat) + "_"@ + decimal(seq as nat) + ".webp"@
}

/// The file name of a frame drawn at `ts` as the `seq`-th while recording.
pub open spec fn frame_file(ts: u64, seq: u64) -> Seq<char> {
    "frame_"@ + decimal(ts as nat) + "_"@ + decimal(seq as nat) + ".webp"@
}

/// `n` plus one, wrapping to 0 past the largest `u64`.
pub open spec fn next_seq(n: u64) -> u64 {
    if n == u64::MAX { 0 } else { (n + 1) as u64 }
}

/// `prefix`, then the decimal forms of `a` and `b` joined by `_`.
fn numbered(prefix: &str, a: u64, b: u64) -> (r: String)
    ensures
        r@ == prefix@ + decimal(a as nat) + "_"@ + decimal(b as nat),
{
    let mut s = String::new();
    s.append(prefix);
    push_decimal(&mut s, a);
    s.append("_");
    push_decimal(&mut s, b);
    assert(s@ =~= prefix@ + decimal(a as nat) + "_"@ + decimal(b as nat));
    s
}

/// An image file name: `prefix`, the decimal forms of `a` and `b` joined by
/// `_`, and `.webp`.
fn webp_name(prefix: &str, a: u64, b: u64) -> (r: String)
    ensures
        r@ == prefix@ + decimal(a as nat) + "_"@ + decimal(b as nat) + ".webp"@,
{
    let mut s = numbered(prefix, a, b);
    s.append(".webp");
    s
}

impl CaptureSlot {
    /// A slot with no capture.
    pub fn new() -> (r: CaptureSlot)
        ensures
            r.active is None,
            r.seq == 0,
    {
        CaptureSlot { active: None, seq: 0 }
    }

    /// Whether a capture runs.
    pub fn is_active(&self) -> (r: bool)
        ensures
            r == self.active is Some,
    {
        self.active.is_some()
    }

    /// Reserves the id of a capture starting at `now`, counting it as
    /// started. Refused with a conflict while a capture runs.
    pub fn reserve_id(&mut self, now: u64) -> (r: Result<String, CaptureError>)
        ensures
            old(self).active is Some ==> r == Err::<String, CaptureError>(CaptureError::Conflict)
                && final(self).seq == old(self).seq,
            old(self).active is None ==> (r matches Ok(id) && id@ == capture_id(now, old(self).seq))
                && final(self).seq == next_seq(old(self).seq),
            final(self).active == old(self).active,
    {
        if self.active.is_some() {
            return Err(CaptureError::Conflict);
        }
        let seq = self.seq;
        self.seq = seq.wrapping_add(1);
        Ok(numbered("cap_", now, seq))
    }

    /// Opens the capture reserved as `id`, kept in `dir`, started at `start`,
    /// with the log filter that was set then. It has no frames yet.
    pub fn open(
        &mut self,
        id: String,
        dir: String,
        start: u64,
        options: CaptureOptions,
        filter_at_start: Option<String>,
    )
        requires
            old(self).active is None,
        ensures
            final(self).seq == old(self).seq,
            final(self).active matches Some(s) && s.id == id && s.dir == dir && s.start_ts_unix_ms == start
                && s.options == options && s.filter_at_start == filter_at_start && s.frames@.len() == 0,
    {
        self.active = Some(CaptureSession {
            id,
            dir,
            start_ts_unix_ms: start,
            options,
            filter_at_start,
            frames: Vec::new(),
        });
    }

    /// The number of frames the running capture kept, 0 when none runs.
    pub fn frame_count(&self) -> (r: usize)
        ensures
            r == match self.active {
                Some(s) => s.frames@.len(),
                None => 0,
            },
    {
        match &self.active {
            Some(s) => s.frames.len(),
            None => 0,
        }
    }

    /// A frame was drawn at `ts` as the `seq`-th. A running capture that
    /// keeps images records it; returns the path, relative to the capture's
    /// directory, to write its image to.
    pub fn record_frame(&mut self, seq: u64, ts: u64) -> (r: Option<String>)
        ensures
            final(self).seq == old(self).seq,
            match old(self).active {
                Some(s) => if s.options.with_images {
                    &&& r matches Some(p) && p@ == frame_path(ts, seq)
                    &&& final(self).active matches Some(t) && t.id == s.id && t.dir == s.dir
                        && t.start_ts_unix_ms == s.start_ts_unix_ms && t.options == s.options
                        && t.filter_at_start == s.filter_at_start && t.frames@.len() == s.frames@.len() + 1
                        && t.frames@.take(s.frames@.len() as int) == s.frames@
                        && t.frames@.last().seq == seq && t.frames@.last().ts_unix_ms == ts
                        && t.frames@.last().path@ == frame_path(ts, seq) && t.frames@.last().png_base64 is None
                } else {
                    r is None && final(self).active == old(self).active
                },
                None => r is None && final(self).active is None,
            },
    {
        match &mut self.active {
            Some(session) => {
                if session.options.with_images {
                    let path = webp_name("frames/frame_", ts, seq);
                    let copy = path.clone();
                    let ghost before = session.frames@;
                    session.frames.push(CaptureFrameEntry { seq, ts_unix_ms: ts, path: copy, png_base64: None });
                    assert(session.frames@.take(before.len() as int) =~= before);
                    Some(path)
                } else {
                    None
                }
            },
            None => None,
        }
    }

    /// Ends the running capture and hands it over. Refused with not found
    /// when none runs, or when `capture_id` names another one; the capture
    /// then keeps running.
    pub fn take_capture_session(&mut self, capture_id: &Option<String>) -> (r: Result<CaptureSession, CaptureError>)
        ensures
            final(self).seq == old(self).seq,
            match old(self).active {
                None => r == Err::<CaptureSession, CaptureError>(CaptureError::NotFound) && final(self).active is None,
                Some(s) => if capture_id matches Some(c) && c@ != s.id@ {
                    r == Err::<CaptureSession, CaptureError>(CaptureError::NotFound) && final(self).active == old(self).active
                } else {
                    r == Ok::<CaptureSession, CaptureError>(s) && final(self).active is None
                },
            },
    {
        let matches = match (&self.active, capture_id) {
            (None, _) => false,
            (Some(s), Some(c)) => {
                let cv = chars_of(c.as_str());
                chars_eq_str(&cv, s.id.as_str())
            },
            (Some(_), None) => true,
        };
        if !matches {
            return Err(CaptureError::NotFound);
        }
        match self.active.take() {
            Some(s) => Ok(s),
            None => Err(CaptureError::NotFound),
        }
    }
}

/// `a - b`, or 0 when `b > a`.
pub open spec fn minus_or_zero(a: u64, b: u64) -> u64 {
    if a >= b { (a - b) as u64 } else { 0 }
}

/// `a + b`, or the largest `u64` when the sum exceeds it.
pub open spec fn plus_or_max(a: u64, b: u64) -> u64 {
    if a + b <= u64::MAX { (a + b) as u64 } else { u64::MAX }
}

/// The log window of a capture started at `start` and ended at `end`:
/// from `pre_ms` before its start to `post_ms` after its end.
pub open spec fn log_window(start: u64, end: u64, options: CaptureOptions) -> (u64, u64) {
    (minus_or_zero(start, options.pre_ms), plus_or_max(end, options.post_ms))
}

/// The log lines of a capture's bundle.
#[derive(Debug)]
pub struct CaptureLogsPayload {
    pub lines: Vec<String>,
    pub dropped_total: u64,
    pub since_ts_unix_ms: u64,
    pub until_ts_unix_ms: u64,
}

/// What a stopped capture hands back.
#[derive(Debug)]
pub struct CaptureBundle {
    pub capture_id: String,
    pub start_ts_unix_ms: u64,
    pub end_ts_unix_ms: u64,
    pub options: CaptureOptions,
    pub filter_at_start: Option<String>,
    pub logs: Option<CaptureLogsPayload>,
    pub frames: Option<Vec<CaptureFrameEntry>>,
}

/// `b` is the bundle of `s` ended at `end`, given the buffered log lines
/// `items` and `dropped_total`, the number of log lines lost so far: it
/// holds the lines of the log window when `s` keeps logs, and the frames of
/// `s` when it keeps images.
pub open spec fn bundles(b: CaptureBundle, s: CaptureSession, items: Seq<ItemView>, end: u64, dropped_total: u64) -> bool {
    &&& b.capture_id == s.id
    &&& b.start_ts_unix_ms == s.start_ts_unix_ms
    &&& b.end_ts_unix_ms == end
    &&& b.options == s.options
    &&& b.filter_at_start == s.filter_at_start
    &&& s.options.with_images ==> b.frames == Some(s.frames)
    &&& !s.options.with_images ==> b.frames is None
    &&& !s.options.with_logs ==> b.logs is None
    &&& s.options.with_logs ==> (b.logs matches Some(l) && {
        let (since, until) = log_window(s.start_ts_unix_ms, end, s.options);
        &&& l.since_ts_unix_ms == since
        &&& l.until_ts_unix_ms == until
        &&& l.dropped_total == dropped_total
        &&& texts_of(l.lines@) == queried_lines(items, Some(since), Some(until), None)
    })
}

/// The bundle of `session`, ended at `end`: the log lines of `ring` in its
/// log window when it keeps logs (with `dropped_total`, the number of log
/// lines lost so far), and its frames when it keeps images.
pub fn build_capture_bundle(ring: &LogRing, session: CaptureSession, end: u64, dropped_total: u64) -> (r: CaptureBundle)
    ensures
        bundles(r, session, ring.view_items(), end, dropped_total),
{
    let options = session.options;
    let since: u64 = if session.start_ts_unix_ms >= options.pre_ms { session.start_ts_unix_ms - options.pre_ms } else { 0 };
    let until: u64 = end.saturating_add(options.post_ms);
    let logs = if options.with_logs {
        let lines = ring.query_lines(Some(since), Some(until), None);
        assert(texts_of(lines@) =~= lines@.map_values(|l: String| l@));
        Some(CaptureLogsPayload { lines, dropped_total, since_ts_unix_ms: since, until_ts_unix_ms: until })
    } else {
        None
    };
    let frames = if options.with_images { Some(session.frames) } else { None };
    CaptureBundle {
        capture_id: session.id,
        start_ts_unix_ms: session.start_ts_unix_ms,
        end_ts_unix_ms: end,
        options,
        filter_at_start: session.filter_at_start,
        logs,
        frames,
    }
}

/// Stops the running capture (the one named `capture_id`, if given) at
/// `end` and bundles it; refused with not found as `take_capture_session` is.
pub fn capture_stop_bundle(
    slot: &mut CaptureSlot,
    ring: &LogRing,
    capture_id: &Option<String>,
    end: u64,
    dropped_total: u64,
) -> (r: Result<CaptureBundle, CaptureError>)
    ensures
        final(slot).seq == old(slot).seq,
        match old(slot).active {
            None => r == Err::<CaptureBundle, CaptureError>(CaptureError::NotFound) && final(slot).active is None,
            Some(s) => if capture_id matches Some(c) && c@ != s.id@ {
                r == Err::<CaptureBundle, CaptureError>(CaptureError::NotFound) && final(slot).active == old(slot).active
            } else {
                &&& final(slot).active is None
                &&& r matches Ok(b) && bundles(b, s, ring.view_items(), end, dropped_total)
            },
        },
{
    let session = slot.take_capture_session(capture_id)?;
    Ok(build_capture_bundle(ring, session, end, dropped_total))
}

/// The options of a one-shot capture and how long to let the window settle
/// after a new frame: logs are kept before and after it for 2000 and 1000 ms
/// unless other times are given, and it settles for 150 ms unless told
/// otherwise.
pub fn one_shot_plan(kinds: &Vec<String>, pre_ms: Option<u64>, post_ms: Option<u64>, settle_ms: Option<u64>) -> (r: (
    CaptureOptions,
    u64,
))
    ensures
        r.0 == (CaptureOptions {
            with_logs: names_kind(texts_of(kinds@), "logs"@),
            with_images: names_kind(texts_of(kinds@), "images"@),
            pre_ms: match pre_ms {
                Some(p) => p,
                None => 2000,
            },
            post_ms: match post_ms {
                Some(p) => p,
                None => 1000,
            },
        }),
        r.1 == match settle_ms {
            Some(s) => s,
            None => 150,
        },
{
    let pre = match pre_ms {
        Some(p) => p,
        None => 2000,
    };
    let post = match post_ms {
        Some(p) => p,
        None => 1000,
    };
    let settle = match settle_ms {
        Some(s) => s,
        None => 150,
    };
    (capture_options(kinds, pre, post), settle)
}

/// Ends a one-shot capture at `end`. One that keeps images but saw no new
/// frame in time is stopped and answered with a timeout; otherwise it is
/// stopped and bundled.
pub fn finish_one_shot(
    slot: &mut CaptureSlot,
    ring: &LogRing,
    new_frame_seen: bool,
    end: u64,
    dropped_total: u64,
) -> (r: Result<CaptureBundle, CaptureError>)
    ensures
        final(slot).seq == old(slot).seq,
        final(slot).active is None,
        match old(slot).active {
            None => r == Err::<CaptureBundle, CaptureError>(CaptureError::NotFound),
            Some(s) => if s.options.with_images && !new_frame_seen {
                r == Err::<CaptureBundle, CaptureError>(CaptureError::Timeout)
            } else {
                r matches Ok(b) && bundles(b, s, ring.view_items(), end, dropped_total)
            },
        },
{
    let with_images = match &slot.active {
        Some(s) => s.options.with_images,
        None => false,
    };
    if with_images && !new_frame_seen {
        let _ = capture_stop_bundle(slot, ring, &None, end, dropped_total);
        return Err(CaptureError::Timeout);
    }
    capture_stop_bundle(slot, ring, &None, end, dropped_total)
}

/// What the runtime's status tells of the running capture.
#[derive(Debug)]
pub struct StatusCaptureInfo {
    pub capture_id: String,
    pub capture_dir: String,
    pub start_ts_unix_ms: u64,
    pub options: CaptureOptions,
    pub filter_at_start: Option<String>,
}

/// The status of the running capture, if any.
pub fn status_capture_info(slot: &CaptureSlot) -> (r: Option<StatusCaptureInfo>)
    ensures
        match slot.active {
            None => r is None,
            Some(s) => r matches Some(i) && i.capture_id@ == s.id@ && i.capture_dir@ == s.dir@
                && i.start_ts_unix_ms == s.start_ts_unix_ms && i.options == s.options
                && opt_text(i.filter_at_start) == opt_text(s.filter_at_start),
        },
{
    match &slot.active {
        None => None,
        Some(s) => Some(StatusCaptureInfo {
            capture_id: s.id.as_str().to_owned(),
            capture_dir: s.dir.as_str().to_owned(),
            start_ts_unix_ms: s.start_ts_unix_ms,
            options: s.options,
            filter_at_start: copy_text(&s.filter_at_start),
        }),
    }
}

/// The file to write a frame drawn at `ts` as the `seq`-th to while
/// recording, when no capture runs; a running capture keeps frames itself.
pub fn recording_frame_file(recording: bool, slot: &CaptureSlot, ts: u64, seq: u64) -> (r: Option<String>)
    ensures
        (recording && slot.active is None) ==> (r matches Some(f) && f@ == frame_file(ts, seq)),
        !(recording && slot.active is None) ==> r is None,
{
    if recording && slot.active.is_none() {
        Some(webp_name("frame_", ts, seq))
    } else {
        None
    }
}

} // verus!
