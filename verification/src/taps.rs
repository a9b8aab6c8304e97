//! Multi-tap detection: a listener fires after a given number of taps made
//! with the same pointer and buttons within a short time of the first.
use vstd::prelude::*;
use crate::events::{MouseButtons, PointerType};

verus! {

/// How long after its first tap a run of taps may go on, in milliseconds.
pub const MULTI_TAP_MS: u64 = 250;

/// The run of taps being counted: when it started, how many taps it holds
/// since the last firing, and the pointer and buttons that make it.
#[derive(Debug, Clone, Copy, PartialEq, Eq, Structural)]
pub struct TapRun {
    pub first_tap_ms: u64,
    pub tap_times: u8,
    pub pointer_type: PointerType,
    pub mouse_btns: MouseButtons,
}

/// A listener that fires after `times` taps in a run.
#[derive(Debug, Clone, Copy, PartialEq, Eq, Structural)]
pub struct XTimesTapListener {
    pub times: u8,
    pub run: Option<TapRun>,
}

/// The time from `first` to `now`, 0 when `now` comes first.
pub open spec fn elapsed(first: u64, now: u64) -> int {
    if now >= first { now - first } else { 0 }
}

/// A tap at `now` with `pt` and `btns` goes on with `run`: same pointer and
/// buttons, fewer taps than `times` counted, and within the time window of
/// the run's first tap.
pub open spec fn goes_on(run: Option<TapRun>, times: u8, now: u64, pt: PointerType, btns: MouseButtons) -> bool {
    run matches Some(r) && r.pointer_type == pt && r.mouse_btns == btns && r.tap_times < times
        && elapsed(r.first_tap_ms, now) < MULTI_TAP_MS
}

/// The run after a tap, before any firing: one more tap, or a new run that
/// starts at this tap.
pub open spec fn counted(run: Option<TapRun>, times: u8, now: u64, pt: PointerType, btns: MouseButtons) -> TapRun {
    if goes_on(run, times, now, pt, btns) {
        TapRun { tap_times: (run->0.tap_times + 1) as u8, ..run->0 }
    } else {
        TapRun { first_tap_ms: now, tap_times: 1, pointer_type: pt, mouse_btns: btns }
    }
}

/// The listener after a tap, and whether it fires: it fires when the run
/// reaches `times` taps, and the run's count then starts again from zero
/// (the run keeps its first tap's time).
pub open spec fn after_tap(l: XTimesTapListener, now: u64, pt: PointerType, btns: MouseButtons) -> (XTimesTapListener, bool) {
    let c = counted(l.run, l.times, now, pt, btns);
    if c.tap_times == l.times {
        (XTimesTapListener { run: Some(TapRun { tap_times: 0, ..c }), ..l }, true)
    } else {
        (XTimesTapListener { run: Some(c), ..l }, false)
    }
}

/// The listener after taps at the times of `ts`, all with `pt` and `btns`,
/// and whether it fired at each.
pub open spec fn after_taps(l: XTimesTapListener, ts: Seq<u64>, pt: PointerType, btns: MouseButtons) -> (
    XTimesTapListener,
    Seq<bool>,
)
    decreases ts.len(),
{
    if ts.len() == 0 {
        (l, Seq::empty())
    } else {
        let (l1, fired) = after_taps(l, ts.drop_last(), pt, btns);
        let (l2, f) = after_tap(l1, ts.last(), pt, btns);
        (l2, fired.push(f))
    }
}

impl XTimesTapListener {
    /// A listener firing after `times` taps, with no run counted yet.
    pub fn new(times: u8) -> (r: XTimesTapListener)
        ensures
            r == (XTimesTapListener { times, run: None }),
    {
        XTimesTapListener { times, run: None }
    }

    /// A tap at `now_ms` made with `pointer_type` and `mouse_btns`. Returns
    /// whether the listener fires.
    pub fn on_tap(&mut self, now_ms: u64, pointer_type: PointerType, mouse_btns: MouseButtons) -> (fired: bool)
        ensures
            (*final(self), fired) == after_tap(*old(self), now_ms, pointer_type, mouse_btns),
    {
        let times = self.times;
        let go_on = match self.run {
            Some(r) => {
                let gap: u64 = if now_ms >= r.first_tap_ms { now_ms - r.first_tap_ms } else { 0 };
                r.pointer_type == pointer_type && r.mouse_btns.bits == mouse_btns.bits && r.tap_times < times
                    && gap < MULTI_TAP_MS
            },
            None => false,
        };
        let c = if go_on {
            let r = self.run.unwrap();
            TapRun { tap_times: r.tap_times + 1, ..r }
        } else {
            TapRun { first_tap_ms: now_ms, tap_times: 1, pointer_type, mouse_btns }
        };
        if c.tap_times == times {
            self.run = Some(TapRun { tap_times: 0, ..c });
            true
        } else {
            self.run = Some(c);
            false
        }
    }
}

/// A tap made with other mouse buttons, or with another kind of pointer,
/// than the run being counted does not go on with that run: it starts a
/// new run of one tap at its own time, pointer and buttons, and fires only
/// a listener that waits for a single tap.
pub proof fn law_other_pointer_or_buttons_start_a_new_run(
    l: XTimesTapListener,
    now: u64,
    pt: PointerType,
    btns: MouseButtons,
)
    requires
        l.run matches Some(r) && (r.mouse_btns != btns || r.pointer_type != pt),
    ensures
        after_tap(l, now, pt, btns).1 == (l.times == 1),
        after_tap(l, now, pt, btns).0.times == l.times,
        after_tap(l, now, pt, btns).0.run == Some(TapRun {
            first_tap_ms: now,
            tap_times: if l.times == 1 { 0 } else { 1 },
            pointer_type: pt,
            mouse_btns: btns,
        }),
{
}

/// Quick taps fire once: starting with no run, `times` taps (at least one)
/// made with the same pointer and buttons, in time order and all within the
/// time window of the first, fire the listener on the last tap and on no
/// other.
pub proof fn law_quick_taps_fire_once(times: u8, ts: Seq<u64>, pt: PointerType, btns: MouseButtons)
    requires
        times >= 1,
        ts.len() == times,
        forall|i: int, j: int| 0 <= i <= j < ts.len() ==> ts[i] <= ts[j],
        forall|i: int| 0 <= i < ts.len() ==> #[trigger] ts[i] - ts[0] < MULTI_TAP_MS,
    ensures
        after_taps(XTimesTapListener { times, run: None }, ts, pt, btns).1 == Seq::new(
            times as nat,
            |i: int| i == times - 1,
        ),
{
    lemma_quick_run(times, ts, ts.len() as int, pt, btns);
    let l = XTimesTapListener { times, run: None };
    assert(ts.take(ts.len() as int) =~= ts);
    assert(after_taps(l, ts, pt, btns).1 =~= Seq::new(times as nat, |i: int| i == times - 1));
}

/// After the first `k` of quick taps (fewer than `times`), the run started
/// at the first tap holds `k` taps and nothing fired.
proof fn lemma_quick_run(times: u8, ts: Seq<u64>, k: int, pt: PointerType, btns: MouseButtons)
    requires
        times >= 1,
        ts.len() == times,
        0 <= k <= ts.len(),
        forall|i: int, j: int| 0 <= i <= j < ts.len() ==> ts[i] <= ts[j],
        forall|i: int| 0 <= i < ts.len() ==> #[trigger] ts[i] - ts[0] < MULTI_TAP_MS,
    ensures
        k < times ==> after_taps(XTimesTapListener { times, run: None }, ts.take(k), pt, btns).0 == (XTimesTapListener {
            times,
            run: if k == 0 {
                None
            } else {
                Some(TapRun { first_tap_ms: ts[0], tap_times: k as u8, pointer_type: pt, mouse_btns: btns })
            },
        }),
        after_taps(XTimesTapListener { times, run: None }, ts.take(k), pt, btns).1 == Seq::new(
            k as nat,
            |i: int| i == times - 1,
        ),
    decreases k,
{
    let l = XTimesTapListener { times, run: None };
    if k == 0 {
        assert(after_taps(l, ts.take(0), pt, btns).1 =~= Seq::new(0, |i: int| i == times - 1));
    } else {
        lemma_quick_run(times, ts, k - 1, pt, btns);
        assert(ts.take(k).drop_last() =~= ts.take(k - 1));
        assert(ts.take(k).last() == ts[k - 1]);
        let (l1, fired) = after_taps(l, ts.take(k - 1), pt, btns);
        assert(ts[0] <= ts[k - 1]);
        assert(ts[k - 1] - ts[0] < MULTI_TAP_MS);
        assert(after_taps(l, ts.take(k), pt, btns).1 =~= Seq::new(k as nat, |i: int| i == times - 1));
    }
}

/// Slow taps never fire a multi-tap listener: when each tap comes at least
/// the time window after the one before, every tap starts a new run, and a
/// listener that waits for two taps or more never fires.
pub proof fn law_slow_taps_never_fire(times: u8, ts: Seq<u64>, pt: PointerType, btns: MouseButtons)
    requires
        times >= 2,
        forall|i: int| 0 < i < ts.len() ==> #[trigger] ts[i] >= ts[i - 1] + MULTI_TAP_MS,
    ensures
        forall|i: int| 0 <= i < ts.len() ==> !#[trigger] after_taps(XTimesTapListener { times, run: None }, ts, pt, btns).1[i],
        after_taps(XTimesTapListener { times, run: None }, ts, pt, btns).1.len() == ts.len(),
{
    lemma_slow_run(times, ts, pt, btns);
}

/// After slow taps, the run started at the last tap holds one tap, and
/// nothing fired.
proof fn lemma_slow_run(times: u8, ts: Seq<u64>, pt: PointerType, btns: MouseButtons)
    requires
        times >= 2,
        forall|i: int| 0 < i < ts.len() ==> #[trigger] ts[i] >= ts[i - 1] + MULTI_TAP_MS,
    ensures
        ts.len() > 0 ==> after_taps(XTimesTapListener { times, run: None }, ts, pt, btns).0 == (XTimesTapListener {
            times,
            run: Some(TapRun { first_tap_ms: ts.last(), tap_times: 1, pointer_type: pt, mouse_btns: btns }),
        }),
        ts.len() == 0 ==> after_taps(XTimesTapListener { times, run: None }, ts, pt, btns).0 == (XTimesTapListener { times, run: None }),
        after_taps(XTimesTapListener { times, run: None }, ts, pt, btns).1.len() == ts.len(),
        forall|i: int| 0 <= i < ts.len() ==> !#[trigger] after_taps(XTimesTapListener { times, run: None }, ts, pt, btns).1[i],
    decreases ts.len(),
{
    if ts.len() > 0 {
        let d = ts.drop_last();
        assert forall|i: int| 0 < i < d.len() implies #[trigger] d[i] >= d[i - 1] + MULTI_TAP_MS by {
            assert(d[i] == ts[i] && d[i - 1] == ts[i - 1]);
        }
        lemma_slow_run(times, d, pt, btns);
        if d.len() > 0 {
            assert(d.last() == ts[ts.len() - 2]);
        }
    }
}

} // verus!
