//! The decisions of the event loop: what each message to the loop asks
//! for, and how the redraw scheduler changes with it. Running the frames,
//! handing input to windows and talking to the platform happen outside.
use vstd::prelude::*;

use crate::scheduler::{controller_of, redraw_all, stronger, RedrawDemand, Scheduler, WindowController, WindowPhase};
use crate::window::{event_window, CoreMsg, UiEvent, UiEventView};

verus! {

/// What the loop does after a message.
#[derive(Debug)]
pub enum LoopStep {
    /// Hand the input event to its window, then report the input handled
    /// (`Scheduler::finish_window_input`).
    Input(UiEvent),
    /// Ask the platform for frames of these windows, with these demands.
    Redraw(Vec<(u64, RedrawDemand)>),
    /// Dispose of this window; the application exits when none is left.
    Close(u64),
    /// Stop the loop.
    Exit,
    /// Nothing more to do.
    Idle,
}

/// The controller of a window that the platform made ready: its demand is
/// raised, and it becomes ready unless its frame is running.
pub open spec fn made_ready(c: WindowController, demand: RedrawDemand) -> WindowController {
    WindowController {
        phase: if c.phase == WindowPhase::InFrame { WindowPhase::InFrame } else { WindowPhase::Ready },
        demand: stronger(c.demand, demand),
    }
}

/// Handles one message to the loop. `alive` tells whether the window the
/// message is about still exists (a message about no window counts as
/// alive); `changed` whether data changed, and `windows` the open windows,
/// for a data change. The controller of a window that is gone is dropped.
pub fn on_core_msg(s: &mut Scheduler, msg: CoreMsg, alive: bool, changed: bool, windows: &Vec<u64>) -> (r: LoopStep)
    ensures
        final(s).active_frame == old(s).active_frame,
        match msg {
            CoreMsg::Platform(e) => match e@ {
                UiEventView::RedrawRequest { wnd_id, demand } => r is Idle && final(s).view() == if alive {
                    old(s).view().insert(wnd_id, made_ready(controller_of(old(s).view(), wnd_id), demand))
                } else {
                    old(s).view().remove(wnd_id)
                },
                _ => if alive {
                    r matches LoopStep::Input(x) && x@ == e@ && final(s).view() == old(s).view()
                } else {
                    r is Idle && final(s).view() == old(s).view().remove(event_window(e@))
                },
            },
            CoreMsg::FrameReady { wnd_id, demand } => r is Idle && final(s).view() == if alive {
                old(s).view().insert(wnd_id, made_ready(controller_of(old(s).view(), wnd_id), demand))
            } else {
                old(s).view().remove(wnd_id)
            },
            CoreMsg::DataChanged => if changed {
                r matches LoopStep::Redraw(v) && v@ == redraw_all(old(s).view(), windows@).1 && final(s).view()
                    == redraw_all(old(s).view(), windows@).0
            } else {
                r matches LoopStep::Redraw(v) && v@.len() == 0 && final(s).view() == old(s).view()
            },
            CoreMsg::CloseWindow { wnd_id } => final(s).view() == old(s).view().remove(wnd_id) && if alive {
                r matches LoopStep::Close(w) && w == wnd_id
            } else {
                r is Idle
            },
            CoreMsg::Exit => r is Exit && final(s).view() == old(s).view(),
        },
{
    match msg {
        CoreMsg::Platform(e) => {
            let wnd_id = e.wnd_id();
            if !alive {
                s.clear_closed_window(wnd_id);
                return LoopStep::Idle;
            }
            match e {
                UiEvent::RedrawRequest { wnd_id, demand } => {
                    s.on_redraw_ready(wnd_id, demand);
                    LoopStep::Idle
                },
                other => LoopStep::Input(other),
            }
        },
        CoreMsg::FrameReady { wnd_id, demand } => {
            if alive {
                s.on_redraw_ready(wnd_id, demand);
            } else {
                s.clear_closed_window(wnd_id);
            }
            LoopStep::Idle
        },
        CoreMsg::DataChanged => {
            let (_, asked) = s.flush_global_changes(changed, windows);
            LoopStep::Redraw(asked)
        },
        CoreMsg::CloseWindow { wnd_id } => {
            s.clear_closed_window(wnd_id);
            if alive {
                LoopStep::Close(wnd_id)
            } else {
                LoopStep::Idle
            }
        },
        CoreMsg::Exit => LoopStep::Exit,
    }
}

} // verus!
