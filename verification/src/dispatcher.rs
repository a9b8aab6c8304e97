//! Routing of window input to widgets: the input state, pointer grabs,
//! enter and leave, press, release and tap, and keyboard input to the
//! focused widget. Hit testing is geometry and happens outside; the widget
//! under the cursor comes in as `hit`.
use vstd::prelude::*;

use crate::events::{ElementState, FocusReason, ImePreEdit, ModifiersState, MouseButtons, RibirDeviceId};
use crate::events::DispatchInfo;
use crate::focus::{first_live, focus_change_events, focus_target, lca, FocusManager};
use crate::key_mapping::{KeyLocation, NamedKey, PhysicalKey, VirtualKey};
use crate::widget_tree::{ancestors_of, ids_of, NodeView, WidgetId, WidgetTree};
use crate::window::DelayEvent;

verus! {

/// A pointer grab: while it is held, the grabbing widget receives all pointer
/// events and no other widget receives any.
#[derive(Debug)]
pub struct GrabPointer(pub WidgetId);

/// The input routing state of a window.
#[derive(Debug)]
pub struct Dispatcher {
    pub info: DispatchInfo,
    /// The widget under the pointer and its ancestors, nearest first.
    pub entered_widgets: Vec<WidgetId>,
    /// The widget that grabbed the pointer.
    pub grab_mouse_wid: Option<WidgetId>,
    /// The widget a held button was pressed on.
    pub pointer_down_wid: Option<WidgetId>,
}

impl GrabPointer {
    /// Grabs the pointer for `wid`; nothing when a widget already holds the
    /// grab.
    pub fn grab(wid: WidgetId, dispatcher: &mut Dispatcher) -> (r: Option<GrabPointer>)
        ensures
            old(dispatcher).grab_mouse_wid is None ==> (r matches Some(g) && g.0 == wid) && final(dispatcher).grab_mouse_wid == Some(wid),
            old(dispatcher).grab_mouse_wid is Some ==> r is None && final(dispatcher).grab_mouse_wid == old(dispatcher).grab_mouse_wid,
            final(dispatcher).info == old(dispatcher).info,
            final(dispatcher).entered_widgets@ == old(dispatcher).entered_widgets@,
            final(dispatcher).pointer_down_wid == old(dispatcher).pointer_down_wid,
    {
        dispatcher.grab_pointer(wid)
    }

    /// Releases the grab.
    pub fn release(self, dispatcher: &mut Dispatcher)
        ensures
            final(dispatcher).grab_mouse_wid is None,
            final(dispatcher).info == old(dispatcher).info,
            final(dispatcher).entered_widgets@ == old(dispatcher).entered_widgets@,
            final(dispatcher).pointer_down_wid == old(dispatcher).pointer_down_wid,
    {
        dispatcher.grab_mouse_wid = None;
    }
}

/// The nearest widget of `path` that can take focus.
pub open spec fn first_focusable(t: Seq<NodeView>, path: Seq<usize>) -> Option<WidgetId>
    decreases path.len(),
{
    if path.len() == 0 {
        None
    } else if path[0] < t.len() && t[path[0] as int].attrs.focusable {
        Some(WidgetId(path[0]))
    } else {
        first_focusable(t, path.drop_first())
    }
}

/// The events of the pointer moving from the widgets `entered` to `new_hit`:
/// leave from the old widget up to the common ancestor, enter from the new
/// one up to it.
pub open spec fn enter_leave_events(t: Seq<NodeView>, entered: Seq<WidgetId>, new_hit: Option<WidgetId>) -> Seq<DelayEvent> {
    let old = first_live(t, entered);
    let leave = match old {
        Some(o) => seq![DelayEvent::PointerLeave {
            bottom: o,
            up: match new_hit {
                Some(w) => lca(t, w, o),
                None => None,
            },
        }],
        None => Seq::empty(),
    };
    let enter = match new_hit {
        Some(n) => seq![DelayEvent::PointerEnter {
            bottom: n,
            up: match old {
                Some(o) => lca(t, o, n),
                None => None,
            },
        }],
        None => Seq::empty(),
    };
    leave + enter
}

impl Dispatcher {
    /// No button held, no modifier, nothing entered, grabbed or pressed.
    pub fn new() -> (r: Dispatcher)
        ensures
            r.info.buttons.bits == 0,
            r.info.device_id is None,
            r.info.modifiers.bits == 0,
            r.entered_widgets@.len() == 0,
            r.grab_mouse_wid is None,
            r.pointer_down_wid is None,
    {
        Dispatcher { info: DispatchInfo::new(), entered_widgets: Vec::new(), grab_mouse_wid: None, pointer_down_wid: None }
    }

    /// The widgets that routing remembers lie in a tree of `len` widgets.
    pub open spec fn fits(&self, len: nat) -> bool {
        &&& forall|j: int| 0 <= j < self.entered_widgets@.len() ==> (#[trigger] self.entered_widgets@[j]).0 < len
        &&& self.pointer_down_wid matches Some(w) ==> w.0 < len
    }

    /// Grabs the pointer for `wid` unless a widget already holds the grab.
    pub fn grab_pointer(&mut self, wid: WidgetId) -> (r: Option<GrabPointer>)
        ensures
            old(self).grab_mouse_wid is None ==> (r matches Some(g) && g.0 == wid) && final(self).grab_mouse_wid == Some(wid),
            old(self).grab_mouse_wid is Some ==> r is None && final(self).grab_mouse_wid == old(self).grab_mouse_wid,
            final(self).info == old(self).info,
            final(self).entered_widgets@ == old(self).entered_widgets@,
            final(self).pointer_down_wid == old(self).pointer_down_wid,
    {
        if self.grab_mouse_wid.is_none() {
            self.grab_mouse_wid = Some(wid);
            Some(GrabPointer(wid))
        } else {
            None
        }
    }

    /// The keyboard modifiers changed.
    pub fn dispatch_modifiers_changed(&mut self, state: ModifiersState)
        ensures
            final(self).info == (DispatchInfo { modifiers: state, ..old(self).info }),
            final(self).entered_widgets@ == old(self).entered_widgets@,
            final(self).grab_mouse_wid == old(self).grab_mouse_wid,
            final(self).pointer_down_wid == old(self).pointer_down_wid,
    {
        self.info.set_modifiers(state);
    }

    /// A key went down or up: it goes to the focused widget; without one, a
    /// pressed Tab moves focus.
    pub fn dispatch_keyboard_input(
        &self,
        focusing: Option<WidgetId>,
        physical_key: PhysicalKey,
        key: VirtualKey,
        is_repeat: bool,
        location: KeyLocation,
        state: ElementState,
    ) -> (r: Option<DelayEvent>)
        ensures
            focusing matches Some(id) ==> r == Some(DelayEvent::KeyBoard { id, key, state, physical_key, is_repeat, location }),
            focusing is None ==> r == if key@ == crate::key_mapping::VirtualKeyView::Named(NamedKey::Tab) && state
                == ElementState::Pressed {
                Some(DelayEvent::TabFocusMove)
            } else {
                None::<DelayEvent>
            },
    {
        match focusing {
            Some(id) => Some(DelayEvent::KeyBoard { id, key, state, physical_key, is_repeat, location }),
            None => {
                let is_tab = match &key {
                    VirtualKey::Named(NamedKey::Tab) => true,
                    _ => false,
                };
                if is_tab && state == ElementState::Pressed {
                    Some(DelayEvent::TabFocusMove)
                } else {
                    None
                }
            },
        }
    }

    /// An input method pre-edit goes to the focused widget.
    pub fn dispatch_ime_pre_edit(&self, focusing: Option<WidgetId>, pre_edit: ImePreEdit) -> (r: Option<DelayEvent>)
        ensures
            r == match focusing {
                Some(wid) => Some(DelayEvent::ImePreEdit { wid, pre_edit }),
                None => None::<DelayEvent>,
            },
    {
        match focusing {
            Some(wid) => Some(DelayEvent::ImePreEdit { wid, pre_edit }),
            None => None,
        }
    }

    /// Received characters go to the focused widget.
    pub fn dispatch_receive_chars(&self, focusing: Option<WidgetId>, chars: String) -> (r: Option<DelayEvent>)
        ensures
            r == match focusing {
                Some(id) => Some(DelayEvent::Chars { id, chars }),
                None => None::<DelayEvent>,
            },
    {
        match focusing {
            Some(id) => Some(DelayEvent::Chars { id, chars }),
            None => None,
        }
    }

    /// Queues leave and enter events for the pointer moving onto `new_hit`,
    /// and remembers `new_hit` and its ancestors as entered.
    fn pointer_enter_leave_dispatch(&mut self, new_hit: Option<WidgetId>, tree: &WidgetTree, events: &mut Vec<DelayEvent>)
        requires
            tree.wf(),
            new_hit matches Some(w) ==> w.0 < tree.view().len(),
        ensures
            final(events)@ == old(events)@ + enter_leave_events(tree.view(), old(self).entered_widgets@, new_hit),
            ids_of(final(self).entered_widgets@) == match new_hit {
                Some(w) => ancestors_of(tree.view(), w.0 as int),
                None => Seq::<usize>::empty(),
            },
            final(self).info == old(self).info,
            final(self).grab_mouse_wid == old(self).grab_mouse_wid,
            final(self).pointer_down_wid == old(self).pointer_down_wid,
    {
        let ghost e0 = events@;
        let old = crate::focus::first_live_of(tree, &self.entered_widgets);
        if let Some(o) = old {
            let ancestor = match new_hit {
                Some(w) => tree.lowest_common_ancestor(w, o),
                None => None,
            };
            events.push(DelayEvent::PointerLeave { bottom: o, up: ancestor });
        }
        if let Some(n) = new_hit {
            let ancestor = match old {
                Some(o) => tree.lowest_common_ancestor(o, n),
                None => None,
            };
            events.push(DelayEvent::PointerEnter { bottom: n, up: ancestor });
        }
        assert(events@ =~= e0 + enter_leave_events(tree.view(), self.entered_widgets@, new_hit));
        self.entered_widgets = match new_hit {
            Some(w) => tree.ancestors(w),
            None => Vec::new(),
        };
        proof {
            if new_hit is None {
                assert(ids_of(self.entered_widgets@) =~= Seq::<usize>::empty());
            }
        }
    }

    /// The cursor moved onto `hit`: the grabbing widget gets the move, or
    /// else enter and leave are dispatched and the widget under the cursor
    /// gets the move.
    pub fn cursor_move_to(&mut self, hit: Option<WidgetId>, tree: &WidgetTree, events: &mut Vec<DelayEvent>)
        requires
            tree.wf(),
            hit matches Some(w) ==> w.0 < tree.view().len(),
        ensures
            old(self).grab_mouse_wid matches Some(g) ==> final(events)@ == old(events)@.push(DelayEvent::GrabPointerMove(g))
                && final(self).entered_widgets@ == old(self).entered_widgets@,
            old(self).grab_mouse_wid is None ==> final(events)@ == old(events)@ + enter_leave_events(tree.view(), old(self).entered_widgets@, hit)
                + match hit {
                Some(h) => seq![DelayEvent::PointerMove(h)],
                None => Seq::<DelayEvent>::empty(),
            } && ids_of(final(self).entered_widgets@) == match hit {
                Some(w) => ancestors_of(tree.view(), w.0 as int),
                None => Seq::<usize>::empty(),
            },
            final(self).info == old(self).info,
            final(self).grab_mouse_wid == old(self).grab_mouse_wid,
            final(self).pointer_down_wid == old(self).pointer_down_wid,
    {
        match self.grab_mouse_wid {
            Some(g) => {
                events.push(DelayEvent::GrabPointerMove(g));
            },
            None => {
                self.pointer_enter_leave_dispatch(hit, tree, events);
                let ghost e1 = events@;
                if let Some(h) = hit {
                    events.push(DelayEvent::PointerMove(h));
                }
                assert(events@ =~= e1 + match hit {
                    Some(h) => seq![DelayEvent::PointerMove(h)],
                    None => Seq::<DelayEvent>::empty(),
                });
            },
        }
    }

    /// The cursor left the window; `hit` is what lies under the position
    /// outside the window. Without a grab, enter and leave are dispatched.
    pub fn on_cursor_left(&mut self, hit: Option<WidgetId>, tree: &WidgetTree, events: &mut Vec<DelayEvent>)
        requires
            tree.wf(),
            hit matches Some(w) ==> w.0 < tree.view().len(),
        ensures
            old(self).grab_mouse_wid is Some ==> final(events)@ == old(events)@ && final(self).entered_widgets@
                == old(self).entered_widgets@,
            old(self).grab_mouse_wid is None ==> final(events)@ == old(events)@ + enter_leave_events(tree.view(), old(self).entered_widgets@, hit),
            final(self).info == old(self).info,
            final(self).grab_mouse_wid == old(self).grab_mouse_wid,
            final(self).pointer_down_wid == old(self).pointer_down_wid,
    {
        if self.grab_mouse_wid.is_none() {
            self.pointer_enter_leave_dispatch(hit, tree, events);
        }
    }

    /// The nearest widget of `path[from..]` that can take focus.
    fn nearest_focusable(tree: &WidgetTree, path: &Vec<WidgetId>, from: usize) -> (r: Option<WidgetId>)
        requires
            from <= path@.len(),
        ensures
            r == first_focusable(tree.view(), ids_of(path@).skip(from as int)),
        decreases path@.len() - from,
    {
        let ghost s = ids_of(path@).skip(from as int);
        if from == path.len() {
            assert(s.len() == 0);
            return None;
        }
        assert(s[0] == path@[from as int].0);
        let w = path[from];
        if w.0 < tree.len() && tree.attrs(w).focusable {
            return Some(WidgetId(w.0));
        }
        assert(s.drop_first() =~= ids_of(path@).skip(from + 1));
        Self::nearest_focusable(tree, path, from + 1)
    }

    /// A mouse button went down with the cursor on `hit`: the device and the
    /// buttons are recorded, focus moves to the nearest focusable ancestor
    /// of `hit` (or away), and the grabbing widget, or else `hit`, gets the
    /// press.
    pub fn dispatch_press_mouse(
        &mut self,
        device_id: RibirDeviceId,
        button: MouseButtons,
        hit: Option<WidgetId>,
        tree: &WidgetTree,
        focus_mgr: &mut FocusManager,
        events: &mut Vec<DelayEvent>,
    )
        requires
            tree.wf(),
            hit matches Some(w) ==> w.0 < tree.view().len(),
            old(focus_mgr).wf(),
            old(focus_mgr).fits(tree.view().len()),
        ensures
            final(focus_mgr).wf(),
            final(focus_mgr).fits(tree.view().len()),
            final(self).info.device_id == Some(device_id),
            final(self).info.modifiers == old(self).info.modifiers,
            final(self).info.buttons.bits == (if old(self).info.device_id is Some && old(self).info.device_id->0 != device_id {
                0u8
            } else {
                old(self).info.buttons.bits
            }) | button.bits,
            ({
                let t = tree.view();
                let nf = match hit {
                    Some(h) => first_focusable(t, ancestors_of(t, h.0 as int)),
                    None => None,
                };
                let target = match nf {
                    Some(f) => focus_target(t, old(focus_mgr).nodes(), old(focus_mgr).ids(), old(focus_mgr).focus_widgets@, f),
                    None => None,
                };
                let focus_events = match nf {
                    Some(f) => if target is Some {
                        focus_change_events(t, old(focus_mgr).focusing, first_live(t, old(focus_mgr).focus_widgets@), target, FocusReason::Pointer)
                    } else {
                        Seq::empty()
                    },
                    None => focus_change_events(t, old(focus_mgr).focusing, first_live(t, old(focus_mgr).focus_widgets@), None, FocusReason::Pointer),
                };
                let pointer_events = match old(self).grab_mouse_wid {
                    Some(g) => seq![DelayEvent::GrabPointerDown(g)],
                    None => match hit {
                        Some(h) => seq![DelayEvent::PointerDown(h)],
                        None => Seq::empty(),
                    },
                };
                &&& final(events)@ == old(events)@ + focus_events + pointer_events
                &&& final(focus_mgr).focusing == match nf {
                    Some(f) => if target is Some { target } else { old(focus_mgr).focusing },
                    None => None,
                }
            }),
            final(self).pointer_down_wid == if old(self).grab_mouse_wid is None && hit is Some { hit } else { old(self).pointer_down_wid },
            final(self).grab_mouse_wid == old(self).grab_mouse_wid,
            final(self).entered_widgets@ == old(self).entered_widgets@,
    {
        self.info.set_device_id(device_id);
        self.info.press_button(button);
        let nearest_focus = match hit {
            Some(h) => {
                let anc = tree.ancestors(h);
                assert(ids_of(anc@).skip(0) =~= ids_of(anc@));
                Self::nearest_focusable(tree, &anc, 0)
            },
            None => None,
        };
        let ghost e0 = events@;
        match nearest_focus {
            Some(f) => {
                proof {
                    let h = hit->0;
                    crate::widget_tree::lemma_ancestors_in_range(tree.view(), h.0 as int);
                    lemma_first_focusable_in(tree.view(), ancestors_of(tree.view(), h.0 as int));
                }
                let r = focus_mgr.focus(tree, f, FocusReason::Pointer, events);
                proof {
                    if r is None {
                        assert(events@ =~= e0 + Seq::<DelayEvent>::empty());
                    }
                }
            },
            None => {
                focus_mgr.blur(tree, FocusReason::Pointer, events);
            },
        }
        let ghost e1 = events@;
        match self.grab_mouse_wid {
            Some(g) => {
                events.push(DelayEvent::GrabPointerDown(g));
            },
            None => {
                if let Some(h) = hit {
                    self.pointer_down_wid = Some(h);
                    events.push(DelayEvent::PointerDown(h));
                }
            },
        }
        proof {
            let pointer_events = match self.grab_mouse_wid {
                Some(g) => seq![DelayEvent::GrabPointerDown(g)],
                None => match hit {
                    Some(h) => seq![DelayEvent::PointerDown(h)],
                    None => Seq::<DelayEvent>::empty(),
                },
            };
            assert(events@ =~= e1 + pointer_events);
        }
    }

    /// A mouse button went up with the cursor on `hit`: the grabbing widget,
    /// or else `hit`, gets the release, and `hit` and the widget the press
    /// went to make a tap on their nearest common ancestor.
    pub fn dispatch_release_mouse(
        &mut self,
        device_id: RibirDeviceId,
        button: MouseButtons,
        hit: Option<WidgetId>,
        tree: &WidgetTree,
        events: &mut Vec<DelayEvent>,
    )
        requires
            tree.wf(),
            hit matches Some(w) ==> w.0 < tree.view().len(),
            old(self).fits(tree.view().len()),
        ensures
            final(self).info.device_id == Some(device_id),
            final(self).info.modifiers == old(self).info.modifiers,
            final(self).info.buttons.bits == (if old(self).info.device_id is Some && old(self).info.device_id->0 != device_id {
                0u8
            } else {
                old(self).info.buttons.bits
            }) & !button.bits,
            final(events)@ == old(events)@ + match old(self).grab_mouse_wid {
                Some(g) => seq![DelayEvent::GrabPointerUp(g)],
                None => match hit {
                    Some(h) => seq![DelayEvent::PointerUp(h)] + match old(self).pointer_down_wid {
                        Some(d) => match lca(tree.view(), d, h) {
                            Some(p) => seq![DelayEvent::Tap(p)],
                            None => Seq::<DelayEvent>::empty(),
                        },
                        None => Seq::<DelayEvent>::empty(),
                    },
                    None => Seq::<DelayEvent>::empty(),
                },
            },
            final(self).pointer_down_wid == if old(self).grab_mouse_wid is None { None } else { old(self).pointer_down_wid },
            final(self).grab_mouse_wid == old(self).grab_mouse_wid,
            final(self).entered_widgets@ == old(self).entered_widgets@,
    {
        self.info.set_device_id(device_id);
        let ghost e0 = events@;
        match self.grab_mouse_wid {
            Some(g) => {
                events.push(DelayEvent::GrabPointerUp(g));
            },
            None => {
                if let Some(h) = hit {
                    events.push(DelayEvent::PointerUp(h));
                    let ghost e1 = events@;
                    if let Some(d) = self.pointer_down_wid {
                        if let Some(p) = tree.lowest_common_ancestor(d, h) {
                            events.push(DelayEvent::Tap(p));
                        }
                    }
                    proof {
                        let tail = match self.pointer_down_wid {
                            Some(d) => match lca(tree.view(), d, h) {
                                Some(p) => seq![DelayEvent::Tap(p)],
                                None => Seq::<DelayEvent>::empty(),
                            },
                            None => Seq::<DelayEvent>::empty(),
                        };
                        assert(events@ =~= e1 + tail);
                    }
                }
                self.pointer_down_wid = None;
            },
        }
        self.info.release_button(button);
    }
}

/// The phase in which a widget receives an event.
#[derive(Debug, Clone, Copy, PartialEq, Eq, Structural)]
pub enum Phase {
    /// On the way down from the root to the target.
    Capture,
    /// On the way up from the target to the root.
    Bubble,
}

/// The route of an event fired at `target`: the capture phase from the root
/// down to the target, then the bubble phase from the target up to the root.
pub open spec fn route_of(t: Seq<NodeView>, target: WidgetId) -> Seq<(WidgetId, Phase)> {
    let path = ancestors_of(t, target.0 as int);
    path.reverse().map_values(|w: usize| (WidgetId(w), Phase::Capture)) + path.map_values(|w: usize| (WidgetId(w), Phase::Bubble))
}

/// The widgets an event fired at `target` visits, with their phase.
pub fn event_route(tree: &WidgetTree, target: WidgetId) -> (r: Vec<(WidgetId, Phase)>)
    requires
        tree.wf(),
        target.0 < tree.view().len(),
    ensures
        r@ == route_of(tree.view(), target),
{
    let path = tree.ancestors(target);
    let ghost p = ancestors_of(tree.view(), target.0 as int);
    assert(ids_of(path@) == p);
    let mut out: Vec<(WidgetId, Phase)> = Vec::new();
    let mut i: usize = path.len();
    while i > 0
        invariant
            i <= path@.len(),
            ids_of(path@) == p,
            out@ == p.reverse().take(path@.len() - i).map_values(|w: usize| (WidgetId(w), Phase::Capture)),
        decreases i,
    {
        i = i - 1;
        proof {
            assert(ids_of(path@)[i as int] == path@[i as int].0);
        }
        out.push((WidgetId(path[i].0), Phase::Capture));
        assert(out@ =~= p.reverse().take(path@.len() - i).map_values(|w: usize| (WidgetId(w), Phase::Capture)));
    }
    assert(p.reverse().take(p.len() as int) =~= p.reverse());
    let ghost cap = out@;
    let mut j: usize = 0;
    while j < path.len()
        invariant
            j <= path@.len(),
            ids_of(path@) == p,
            out@ == cap + p.take(j as int).map_values(|w: usize| (WidgetId(w), Phase::Bubble)),
        decreases path.len() - j,
    {
        proof {
            assert(ids_of(path@)[j as int] == path@[j as int].0);
        }
        out.push((WidgetId(path[j].0), Phase::Bubble));
        assert(out@ =~= cap + p.take(j + 1).map_values(|w: usize| (WidgetId(w), Phase::Bubble)));
        j = j + 1;
    }
    assert(p.take(p.len() as int) =~= p);
    out
}

/// The nearest focusable widget of a path of the tree lies in the tree.
proof fn lemma_first_focusable_in(t: Seq<NodeView>, path: Seq<usize>)
    ensures
        first_focusable(t, path) matches Some(w) ==> w.0 < t.len(),
    decreases path.len(),
{
    if path.len() > 0 && !(path[0] < t.len() && t[path[0] as int].attrs.focusable) {
        lemma_first_focusable_in(t, path.drop_first());
    }
}

} // verus!
