//! Redraw scheduling for windows.
//!
//! Each window is tracked on two axes: its phase in the handshake with the
//! platform (`Idle -> PlatformRequested -> Ready -> InFrame`), and the
//! redraw demand it still owes (none, a normal frame, or a forced frame).
//! The functions here decide; the event loop performs what they return.
use vstd::prelude::*;
use std::collections::HashMap;
use vstd::std_specs::hash::spec_hash_map_iter;
use vstd::std_specs::iter::IteratorSpec;

verus! {

broadcast use vstd::std_specs::hash::group_hash_axioms;

/// How much redrawing a window still owes.
#[derive(Debug, Clone, Copy, PartialEq, Eq, Structural)]
pub enum RedrawDemand {
    Nothing,
    Normal,
    Force,
}

/// The rank of a demand: none < normal < force.
pub open spec fn demand_rank(d: RedrawDemand) -> int {
    match d {
        RedrawDemand::Nothing => 0,
        RedrawDemand::Normal => 1,
        RedrawDemand::Force => 2,
    }
}

/// The stronger of two demands.
pub open spec fn stronger(a: RedrawDemand, b: RedrawDemand) -> RedrawDemand {
    if demand_rank(b) > demand_rank(a) { b } else { a }
}

impl RedrawDemand {
    /// `Force` for a forced redraw, `Normal` otherwise.
    pub fn from_force(force: bool) -> (r: RedrawDemand)
        ensures
            r == if force { RedrawDemand::Force } else { RedrawDemand::Normal },
    {
        if force { RedrawDemand::Force } else { RedrawDemand::Normal }
    }

    /// Raises the demand to at least `other`.
    pub fn promote(&mut self, other: RedrawDemand)
        ensures
            *final(self) == stronger(*old(self), other),
    {
        let raise = match (*self, other) {
            (RedrawDemand::Nothing, RedrawDemand::Normal) => true,
            (RedrawDemand::Nothing, RedrawDemand::Force) => true,
            (RedrawDemand::Normal, RedrawDemand::Force) => true,
            _ => false,
        };
        if raise {
            *self = other;
        }
    }

    /// Whether another frame is owed.
    pub fn requires_frame(&self) -> (r: bool)
        ensures
            r == (*self != RedrawDemand::Nothing),
    {
        !matches!(self, RedrawDemand::Nothing)
    }

    /// Whether the owed frame must be drawn even if nothing changed.
    pub fn requires_forced_draw(&self) -> (r: bool)
        ensures
            r == (*self == RedrawDemand::Force),
    {
        matches!(self, RedrawDemand::Force)
    }
}

/// Where a window stands in the redraw handshake with the platform.
#[derive(Debug, Clone, Copy, PartialEq, Eq, Structural)]
pub enum WindowPhase {
    Idle,
    PlatformRequested,
    Ready,
    InFrame,
}

/// A window's phase and owed demand.
#[derive(Debug, Clone, Copy, PartialEq, Eq, Structural)]
pub struct WindowController {
    pub phase: WindowPhase,
    pub demand: RedrawDemand,
}

/// The controller of a window that has none yet.
pub open spec fn default_controller() -> WindowController {
    WindowController { phase: WindowPhase::Idle, demand: RedrawDemand::Nothing }
}

/// The controller that `m` holds for `wnd_id`, or the default one.
pub open spec fn controller_of(m: Map<u64, WindowController>, wnd_id: u64) -> WindowController {
    if m.contains_key(wnd_id) { m[wnd_id] } else { default_controller() }
}

/// After a controller's demand was raised: if it is idle and owes a frame,
/// the platform is asked for a frame (with the owed demand) and the
/// controller waits for it.
pub open spec fn ask_platform(c: WindowController) -> (WindowController, Option<RedrawDemand>) {
    if c.phase == WindowPhase::Idle && c.demand != RedrawDemand::Nothing {
        (WindowController { phase: WindowPhase::PlatformRequested, demand: c.demand }, Some(c.demand))
    } else {
        (c, None)
    }
}

/// A controller after a redraw request with `demand`: the demand is raised,
/// then the platform is asked if the window is idle.
pub open spec fn after_request(c: WindowController, demand: RedrawDemand) -> (WindowController, Option<RedrawDemand>) {
    ask_platform(WindowController { demand: stronger(c.demand, demand), ..c })
}

/// The controllers and the platform requests after a normal redraw request
/// for each window of `ws`, in order.
pub open spec fn redraw_all(m: Map<u64, WindowController>, ws: Seq<u64>) -> (Map<u64, WindowController>, Seq<(u64, RedrawDemand)>)
    decreases ws.len(),
{
    if ws.len() == 0 {
        (m, Seq::empty())
    } else {
        let prev = redraw_all(m, ws.drop_last());
        let w = ws.last();
        let step = after_request(controller_of(prev.0, w), RedrawDemand::Normal);
        (prev.0.insert(w, step.0), match step.1 {
            Some(d) => prev.1.push((w, d)),
            None => prev.1,
        })
    }
}

/// The redraw scheduler: one controller per window, and the window whose
/// frame is running, if any.
#[derive(Debug)]
pub struct Scheduler {
    pub controllers: HashMap<u64, WindowController>,
    pub active_frame: Option<u64>,
}

impl Scheduler {
    pub open spec fn view(&self) -> Map<u64, WindowController> {
        self.controllers@
    }

    pub fn new() -> (r: Scheduler)
        ensures
            r.view() == Map::<u64, WindowController>::empty(),
            r.active_frame is None,
    {
        Scheduler { controllers: HashMap::new(), active_frame: None }
    }

    /// The controller of `wnd_id`, creating a default one if absent.
    pub fn controller(&mut self, wnd_id: u64) -> (r: WindowController)
        ensures
            r == controller_of(old(self).view(), wnd_id),
            final(self).view() == old(self).view().insert(wnd_id, r),
            final(self).active_frame == old(self).active_frame,
    {
        let c = match self.controllers.get(&wnd_id) {
            Some(c) => *c,
            None => WindowController { phase: WindowPhase::Idle, demand: RedrawDemand::Nothing },
        };
        self.controllers.insert(wnd_id, c);
        c
    }

    /// Replaces the controller of `wnd_id`.
    pub fn set_controller(&mut self, wnd_id: u64, c: WindowController)
        ensures
            final(self).view() == old(self).view().insert(wnd_id, c),
            final(self).active_frame == old(self).active_frame,
    {
        self.controllers.insert(wnd_id, c);
    }

    /// Forgets a closed window.
    pub fn clear_closed_window(&mut self, wnd_id: u64)
        ensures
            final(self).view() == old(self).view().remove(wnd_id),
            final(self).active_frame == old(self).active_frame,
    {
        self.controllers.remove(&wnd_id);
    }

    /// Asks the platform for a frame if the window is idle and owes one;
    /// returns the demand to ask with.
    pub fn ensure_platform_redraw_requested(&mut self, wnd_id: u64) -> (r: Option<RedrawDemand>)
        ensures
            r == ask_platform(controller_of(old(self).view(), wnd_id)).1,
            final(self).view() == old(self).view().insert(wnd_id, ask_platform(controller_of(old(self).view(), wnd_id)).0),
            final(self).active_frame == old(self).active_frame,
    {
        let mut c = self.controller(wnd_id);
        if !matches!(c.phase, WindowPhase::Idle) || !c.demand.requires_frame() {
            return None;
        }
        c.phase = WindowPhase::PlatformRequested;
        self.set_controller(wnd_id, c);
        Some(c.demand)
    }

    /// A window needs redrawing: raises its demand and, if it is idle, asks
    /// the platform for a frame; returns the demand to ask with.
    pub fn request_redraw(&mut self, wnd_id: u64, demand: RedrawDemand) -> (r: Option<RedrawDemand>)
        ensures
            r == after_request(controller_of(old(self).view(), wnd_id), demand).1,
            final(self).view() == old(self).view().insert(wnd_id, after_request(controller_of(old(self).view(), wnd_id), demand).0),
            final(self).active_frame == old(self).active_frame,
    {
        let mut c = self.controller(wnd_id);
        c.demand.promote(demand);
        self.set_controller(wnd_id, c);
        if !matches!(c.phase, WindowPhase::Idle) {
            return None;
        }
        self.ensure_platform_redraw_requested(wnd_id)
    }

    /// The platform delivered a frame request: raises the demand and, unless a
    /// frame is running, marks the window ready.
    pub fn on_redraw_ready(&mut self, wnd_id: u64, demand: RedrawDemand)
        ensures
            ({
                let c0 = controller_of(old(self).view(), wnd_id);
                final(self).view() == old(self).view().insert(wnd_id, WindowController {
                    phase: if c0.phase == WindowPhase::InFrame { WindowPhase::InFrame } else { WindowPhase::Ready },
                    demand: stronger(c0.demand, demand),
                })
            }),
            final(self).active_frame == old(self).active_frame,
    {
        let mut c = self.controller(wnd_id);
        c.demand.promote(demand);
        if !matches!(c.phase, WindowPhase::InFrame) {
            c.phase = WindowPhase::Ready;
        }
        self.set_controller(wnd_id, c);
    }

    /// Whether some window is ready for a frame.
    pub fn has_ready_frame(&self) -> (r: bool)
        ensures
            r == exists|w: u64| #[trigger] self.view().contains_key(w) && self.view()[w].phase == WindowPhase::Ready,
    {
        let ghost v = spec_hash_map_iter(&self.controllers).remaining();
        for p in iter: self.controllers.iter()
            invariant
                iter.seq() == v,
                v == spec_hash_map_iter(&self.controllers).remaining(),
                forall|k: int| 0 <= k < iter.index() ==> (*(#[trigger] v[k]).1).phase != WindowPhase::Ready,
        {
            if matches!(p.1.phase, WindowPhase::Ready) {
                proof {
                    let k = iter.index();
                    assert(p == v[k]);
                    assert(self.view().contains_key(*v[k].0));
                    assert(self.view()[*v[k].0] == *v[k].1);
                }
                return true;
            }
        }
        proof {
            assert forall|w: u64| #[trigger] self.view().contains_key(w) implies self.view()[w].phase != WindowPhase::Ready by {
                assert(v.contains((&w, &self.view()[w])));
            }
        }
        false
    }

    /// The windows that are ready for a frame, each once, in the map's order.
    pub fn ready_windows(&self) -> (r: Vec<u64>)
        ensures
            r@.no_duplicates(),
            forall|w: u64| r@.contains(w) <==> (self.view().contains_key(w) && self.view()[w].phase == WindowPhase::Ready),
    {
        let ghost v = spec_hash_map_iter(&self.controllers).remaining();
        let mut out: Vec<u64> = Vec::new();
        for p in iter: self.controllers.iter()
            invariant
                iter.seq() == v,
                v == spec_hash_map_iter(&self.controllers).remaining(),
                v.no_duplicates(),
                out@.no_duplicates(),
                forall|w: u64| out@.contains(w) <==> exists|k: int| 0 <= k < iter.index() && *(#[trigger] v[k]).0 == w && (*v[k].1).phase == WindowPhase::Ready,
        {
            let ghost k = iter.index();
            assert(p == v[k]);
            if matches!(p.1.phase, WindowPhase::Ready) {
                proof {
                    assert(!out@.contains(*p.0)) by {
                        if out@.contains(*p.0) {
                            let j = choose|j: int| 0 <= j < k && *(#[trigger] v[j]).0 == *p.0 && (*v[j].1).phase == WindowPhase::Ready;
                            assert(self.view()[*v[j].0] == *v[j].1);
                            assert(self.view()[*v[k].0] == *v[k].1);
                            assert(v[j] == v[k]);
                        }
                    }
                }
                let ghost old_out = out@;
                out.push(*p.0);
                proof {
                    assert(out@ == old_out.push(*p.0));
                    assert forall|w: u64| out@.contains(w) <==> exists|j: int| 0 <= j < k + 1 && *(#[trigger] v[j]).0 == w && (*v[j].1).phase == WindowPhase::Ready by {
                        if out@.contains(w) && w != *p.0 {
                            let i = choose|i: int| 0 <= i < out@.len() && out@[i] == w;
                            assert(i < old_out.len());
                            assert(old_out[i] == w);
                            assert(old_out.contains(w));
                        }
                        if exists|j: int| 0 <= j < k + 1 && *(#[trigger] v[j]).0 == w && (*v[j].1).phase == WindowPhase::Ready {
                            if w != *p.0 {
                                let j = choose|j: int| 0 <= j < k + 1 && *(#[trigger] v[j]).0 == w && (*v[j].1).phase == WindowPhase::Ready;
                                assert(j < k);
                                assert(old_out.contains(w));
                                let i = choose|i: int| 0 <= i < old_out.len() && old_out[i] == w;
                                assert(out@[i] == w);
                            } else {
                                assert(out@[out@.len() - 1] == w);
                            }
                        }
                    }
                }
            } else {
                proof {
                    assert forall|w: u64| out@.contains(w) <==> exists|j: int| 0 <= j < k + 1 && *(#[trigger] v[j]).0 == w && (*v[j].1).phase == WindowPhase::Ready by {
                        if exists|j: int| 0 <= j < k + 1 && *(#[trigger] v[j]).0 == w && (*v[j].1).phase == WindowPhase::Ready {
                            let j = choose|j: int| 0 <= j < k + 1 && *(#[trigger] v[j]).0 == w && (*v[j].1).phase == WindowPhase::Ready;
                            assert(j != k);
                        }
                    }
                }
            }
        }
        proof {
            assert forall|w: u64| out@.contains(w) <==> (self.view().contains_key(w) && self.view()[w].phase == WindowPhase::Ready) by {
                if self.view().contains_key(w) && self.view()[w].phase == WindowPhase::Ready {
                    assert(v.contains((&w, &self.view()[w])));
                    let j = choose|j: int| 0 <= j < v.len() && v[j] == (&w, &self.view()[w]);
                    assert(*v[j].0 == w);
                }
                if out@.contains(w) {
                    let j = choose|j: int| 0 <= j < v.len() && *(#[trigger] v[j]).0 == w && (*v[j].1).phase == WindowPhase::Ready;
                    assert(self.view()[*v[j].0] == *v[j].1);
                }
            }
        }
        out
    }

    /// Starts the frame of `wnd_id`: the window enters its frame and the owed
    /// demand is handed to the frame, leaving none owed.
    pub fn begin_frame(&mut self, wnd_id: u64) -> (r: RedrawDemand)
        ensures
            r == controller_of(old(self).view(), wnd_id).demand,
            final(self).view() == old(self).view().insert(wnd_id, WindowController { phase: WindowPhase::InFrame, demand: RedrawDemand::Nothing }),
            final(self).active_frame == Some(wnd_id),
    {
        let c = self.controller(wnd_id);
        self.set_controller(wnd_id, WindowController { phase: WindowPhase::InFrame, demand: RedrawDemand::Nothing });
        self.active_frame = Some(wnd_id);
        c.demand
    }

    /// Data changed somewhere: when `changed`, every window of `windows` is
    /// asked to redraw. Returns whether data changed, and the platform
    /// requests to make.
    pub fn flush_global_changes(&mut self, changed: bool, windows: &Vec<u64>) -> (r: (bool, Vec<(u64, RedrawDemand)>))
        ensures
            r.0 == changed,
            changed ==> final(self).view() == redraw_all(old(self).view(), windows@).0 && r.1@ == redraw_all(old(self).view(), windows@).1,
            !changed ==> final(self).view() == old(self).view() && r.1@.len() == 0,
            final(self).active_frame == old(self).active_frame,
    {
        let mut asked: Vec<(u64, RedrawDemand)> = Vec::new();
        if !changed {
            return (false, asked);
        }
        let ghost m0 = self.view();
        let mut i: usize = 0;
        while i < windows.len()
            invariant
                i <= windows@.len(),
                self.view() == redraw_all(m0, windows@.take(i as int)).0,
                asked@ == redraw_all(m0, windows@.take(i as int)).1,
                self.active_frame == old(self).active_frame,
            decreases windows.len() - i,
        {
            assert(windows@.take(i + 1).drop_last() == windows@.take(i as int));
            assert(windows@.take(i + 1).last() == windows@[i as int]);
            let w = windows[i];
            match self.request_redraw(w, RedrawDemand::Normal) {
                Some(d) => asked.push((w, d)),
                None => {},
            }
            i = i + 1;
        }
        assert(windows@.take(windows@.len() as int) == windows@);
        (true, asked)
    }

    /// The input of window `wnd_id` was handled: if data changed, every
    /// window of `windows` is asked to redraw, else just this one. Returns
    /// the platform requests to make.
    pub fn finish_window_input(&mut self, wnd_id: u64, changed: bool, windows: &Vec<u64>) -> (r: Vec<(u64, RedrawDemand)>)
        ensures
            changed ==> final(self).view() == redraw_all(old(self).view(), windows@).0 && r@ == redraw_all(old(self).view(), windows@).1,
            !changed ==> final(self).view() == redraw_all(old(self).view(), seq![wnd_id]).0 && r@ == redraw_all(old(self).view(), seq![wnd_id]).1,
            final(self).active_frame == old(self).active_frame,
    {
        let (flushed, asked) = self.flush_global_changes(changed, windows);
        if flushed {
            return asked;
        }
        let ghost m0 = self.view();
        assert(seq![wnd_id].drop_last() =~= Seq::<u64>::empty());
        assert(seq![wnd_id].last() == wnd_id);
        assert(redraw_all(m0, Seq::<u64>::empty()) == (m0, Seq::<(u64, RedrawDemand)>::empty()));
        let mut own: Vec<(u64, RedrawDemand)> = Vec::new();
        match self.request_redraw(wnd_id, RedrawDemand::Normal) {
            Some(d) => own.push((wnd_id, d)),
            None => {},
        }
        assert(own@ =~= redraw_all(m0, seq![wnd_id]).1);
        own
    }

    /// Ends the frame of `wnd_id`. A frame that drew owes one more normal
    /// frame, so that the window reaches a stable state; the window goes idle
    /// and the platform is asked for a frame if one is owed.
    pub fn finish_frame(&mut self, wnd_id: u64, did_draw: bool) -> (r: Option<RedrawDemand>)
        ensures
            ({
                let c0 = controller_of(old(self).view(), wnd_id);
                let c1 = WindowController {
                    phase: WindowPhase::Idle,
                    demand: if did_draw { stronger(c0.demand, RedrawDemand::Normal) } else { c0.demand },
                };
                &&& r == ask_platform(c1).1
                &&& final(self).view() == old(self).view().insert(wnd_id, ask_platform(c1).0)
            }),
            final(self).active_frame is None,
    {
        self.active_frame = None;
        let mut c = self.controller(wnd_id);
        if did_draw {
            c.demand.promote(RedrawDemand::Normal);
        }
        c.phase = WindowPhase::Idle;
        self.set_controller(wnd_id, c);
        self.ensure_platform_redraw_requested(wnd_id)
    }
}

/// Raising a demand keeps the strongest one: raising by `b` then `c` is
/// raising by the stronger of `b` and `c`, raising twice by the same demand
/// is raising once, and the order of two raises does not matter.
pub proof fn law_promote_keeps_strongest(a: RedrawDemand, b: RedrawDemand, c: RedrawDemand)
    ensures
        stronger(stronger(a, b), c) == stronger(a, stronger(b, c)),
        stronger(stronger(a, b), b) == stronger(a, b),
        stronger(stronger(a, b), c) == stronger(stronger(a, c), b),
        demand_rank(stronger(a, b)) >= demand_rank(a),
        demand_rank(stronger(a, b)) >= demand_rank(b),
{
}

/// Pending redraws are deduplicated: of two redraw requests in a row, at
/// most the first asks the platform for a frame, and the window then owes
/// the stronger of the two demands.
pub proof fn law_redraw_requests_deduplicated(c: WindowController, d1: RedrawDemand, d2: RedrawDemand)
    ensures
        after_request(after_request(c, d1).0, d2).1 is Some ==> after_request(c, d1).1 is None,
        after_request(c, d1).1 is Some ==> after_request(after_request(c, d1).0, d2).1 is None,
        after_request(after_request(c, d1).0, d2).0.demand == stronger(stronger(c.demand, d1), d2),
{
}

/// A window whose frame is running is never asked for again and never made
/// ready: requests and platform notifications only raise its demand.
pub proof fn law_in_frame_only_accumulates(c: WindowController, d: RedrawDemand)
    requires
        c.phase == WindowPhase::InFrame,
    ensures
        after_request(c, d).1 is None,
        after_request(c, d).0 == (WindowController { phase: WindowPhase::InFrame, demand: stronger(c.demand, d) }),
{
}

/// The platform is asked for a frame exactly when an idle window owes one,
/// and it is asked with the owed demand.
pub proof fn law_ask_platform_when_owed(c: WindowController)
    ensures
        ask_platform(c).1 is Some <==> (c.phase == WindowPhase::Idle && c.demand != RedrawDemand::Nothing),
        ask_platform(c).1 is Some ==> ask_platform(c).1->0 == c.demand && ask_platform(c).0.phase == WindowPhase::PlatformRequested,
        ask_platform(c).0.demand == c.demand,
{
}

/// After a frame, a window that drew runs exactly one follow-up frame: the
/// platform is asked again with at least a normal demand. A frame that did
/// not draw, with no demand raised meanwhile, leaves the window idle and
/// asks nothing.
pub proof fn law_frame_followup(raised: RedrawDemand, did_draw: bool)
    ensures
        ({
            let c1 = WindowController {
                phase: WindowPhase::Idle,
                demand: if did_draw { stronger(raised, RedrawDemand::Normal) } else { raised },
            };
            &&& did_draw ==> ask_platform(c1).1 is Some && demand_rank(ask_platform(c1).1->0) >= 1
            &&& (!did_draw && raised == RedrawDemand::Nothing) ==> ask_platform(c1).1 is None
                && ask_platform(c1).0 == (WindowController { phase: WindowPhase::Idle, demand: RedrawDemand::Nothing })
        }),
{
}

/// When data changed, every window is asked to redraw: each window of the
/// list then owes at least a normal frame or is waiting for one.
pub proof fn law_data_change_redraws_every_window(m: Map<u64, WindowController>, ws: Seq<u64>)
    ensures
        forall|w: u64| #[trigger] ws.contains(w) ==> redraw_all(m, ws).0.contains_key(w) && demand_rank(
            redraw_all(m, ws).0[w].demand,
        ) >= 1,
    decreases ws.len(),
{
    if ws.len() > 0 {
        let rest = ws.drop_last();
        law_data_change_redraws_every_window(m, rest);
        let last = ws.last();
        assert forall|w: u64| #[trigger] ws.contains(w) implies redraw_all(m, ws).0.contains_key(w) && demand_rank(
            redraw_all(m, ws).0[w].demand,
        ) >= 1 by {
            if w != last {
                let k = choose|k: int| 0 <= k < ws.len() && ws[k] == w;
                assert(k < ws.len() - 1);
                assert(rest[k] == w);
                assert(rest.contains(w));
            }
        }
    }
}

} // verus!
