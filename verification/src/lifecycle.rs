//! Disposal of widgets, and the handle that keeps a disposed widget alive.
use vstd::prelude::*;

use crate::events::{CommonEvent, DispatchInfo};
use crate::widget_tree::{dispose_order, ids_of, WidgetId, WidgetTree};

verus! {

/// The event a widget receives when it enters the disposal pipeline. Its
/// handler may keep the widget and its subtree alive with `preserve`.
#[derive(Debug)]
pub struct DisposedEvent {
    pub common: CommonEvent,
    pub preserved: bool,
}

/// A handle that keeps a detached subtree alive, in the window it was
/// preserved in, until it is put back into a tree or released.
#[derive(Debug)]
pub struct Preserve {
    pub id: Option<WidgetId>,
    pub wnd_id: u64,
}

impl DisposedEvent {
    /// The disposed event of `target`.
    pub fn new(target: WidgetId, info: DispatchInfo) -> (r: DisposedEvent)
        ensures
            r.common == CommonEvent::new_spec(target, info),
            !r.preserved,
    {
        DisposedEvent { common: CommonEvent::new(target, info), preserved: false }
    }

    /// Keeps the widget the event is at, and its subtree, alive: prevents the
    /// default disposal, adds the widget to `preserving` (the widgets that
    /// the disposal of the widgets of `tree` detaches and leaves alive, see
    /// `WidgetTree::dispose_subtree`), and returns the handle that owns it
    /// from now on. A disposed event is preserved at most once, and the live
    /// root of the tree cannot be preserved.
    pub fn preserve(&mut self, tree: &WidgetTree, preserving: &mut Vec<WidgetId>, wnd_id: u64) -> (r: Preserve)
        requires
            !old(self).preserved,
            old(self).common.id.0 != tree.root,
        ensures
            final(self).preserved,
            final(self).common == (CommonEvent { prevent_default: true, ..old(self).common }),
            final(preserving)@ == old(preserving)@.push(old(self).common.id),
            r.id == Some(old(self).common.id),
            r.wnd_id == wnd_id,
    {
        self.common.prevent_default();
        self.preserved = true;
        let id = self.common.current_target();
        preserving.push(id);
        Preserve::new(id, wnd_id)
    }

    /// Whether the event's widget was preserved.
    pub fn is_preserved(&self) -> (r: bool)
        ensures
            r == self.preserved,
    {
        self.preserved
    }
}

/// The arena index of an owned widget (zero for none).
pub open spec fn widget_index(id: Option<WidgetId>) -> int {
    match id {
        Some(w) => w.0 as int,
        None => 0,
    }
}

impl Preserve {
    /// The handle of widget `id` of window `wnd_id`.
    pub fn new(id: WidgetId, wnd_id: u64) -> (r: Preserve)
        ensures
            r.id == Some(id),
            r.wnd_id == wnd_id,
    {
        Preserve { id: Some(id), wnd_id }
    }

    /// Gives the preserved widget back to be put into the tree of window
    /// `wnd_id`, which must be the window it was preserved in; the handle
    /// then owns nothing.
    pub fn take_widget(&mut self, wnd_id: u64) -> (r: WidgetId)
        requires
            old(self).wnd_id == wnd_id,
            old(self).id is Some,
        ensures
            r == old(self).id->0,
            final(self).id is None,
            final(self).wnd_id == old(self).wnd_id,
    {
        let id = self.id.take();
        id.unwrap()
    }

    /// Releases the handle: a widget it still owns that is alive and was not
    /// put back into the tree (it has no parent) is disposed of with its
    /// subtree. Returns the widgets that received a disposed event.
    pub fn release(&mut self, tree: &mut WidgetTree) -> (r: Vec<WidgetId>)
        requires
            old(tree).wf(),
            old(self).id matches Some(w) ==> w.0 != old(tree).root,
        ensures
            final(tree).wf(),
            final(tree).root == old(tree).root,
            final(self).id is None,
            ({
                let owned = match old(self).id {
                    Some(w) => w.0 < old(tree).view().len() && !old(tree).view()[w.0 as int].dropped
                        && old(tree).view()[w.0 as int].parent is None,
                    None => false,
                };
                &&& !owned ==> *final(tree) == *old(tree) && r@.len() == 0
                &&& owned ==> ids_of(r@) == dispose_order(old(tree).view(), widget_index(old(self).id), Seq::empty())
                    && forall|x: int| 0 <= x < final(tree).view().len() ==> #[trigger] final(tree).view()[x].dropped == (
                    old(tree).view()[x].dropped || ids_of(r@).contains(x as usize))
            }),
    {
        let id = match self.id.take() {
            Some(id) => id,
            None => return Vec::new(),
        };
        if tree.is_dropped(id) || tree.parent(id).is_some() {
            return Vec::new();
        }
        let keep: Vec<WidgetId> = Vec::new();
        assert(ids_of(keep@) =~= Seq::<usize>::empty());
        tree.dispose_subtree(id, &keep)
    }
}

} // verus!
