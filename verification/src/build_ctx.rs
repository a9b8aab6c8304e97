//! The context of building widgets into a window's tree.
use vstd::prelude::*;

use crate::widget_tree::{ancestors_of, ids_of, preorder, tree_appended, tree_detached, tree_inserted_after, NodeView, WidgetId, WidgetTree};
use crate::window::DelayEvent;

verus! {

/// A context provided while widgets are built into the tree of a window:
/// the tree, the window, and the widget the context was created from.
#[derive(Debug)]
pub struct BuildCtx {
    pub tree: WidgetTree,
    pub wnd_id: u64,
    pub ctx_from: Option<WidgetId>,
}

/// A handle of a build context that can be stored and copied, and turned
/// back into the context later.
#[derive(Debug, Clone, Copy, PartialEq, Eq, Hash, Structural)]
pub struct BuildCtxHandle {
    pub ctx_from: Option<WidgetId>,
    pub wnd_id: u64,
}

/// The mounted events of a list of widgets, in order.
pub open spec fn mounted_events(ids: Seq<usize>) -> Seq<DelayEvent> {
    ids.map_values(|w: usize| DelayEvent::Mounted(WidgetId(w)))
}

impl BuildCtx {
    /// A context over `tree` of window `wnd_id`, created from `from`.
    pub fn new(from: Option<WidgetId>, tree: WidgetTree, wnd_id: u64) -> (r: BuildCtx)
        ensures
            r.ctx_from == from,
            r.tree == tree,
            r.wnd_id == wnd_id,
    {
        BuildCtx { tree, wnd_id, ctx_from: from }
    }

    /// The window this context is created from.
    pub fn window(&self) -> (r: u64)
        ensures
            r == self.wnd_id,
    {
        self.wnd_id
    }

    /// The widget this context is created from: the tree's root when none
    /// was given.
    pub fn ctx_from(&self) -> (r: WidgetId)
        ensures
            r == match self.ctx_from {
                Some(w) => w,
                None => WidgetId(self.tree.root),
            },
    {
        match self.ctx_from {
            Some(w) => w,
            None => self.tree.root(),
        }
    }

    /// A handle of this context.
    pub fn handle(&self) -> (r: BuildCtxHandle)
        ensures
            r == (BuildCtxHandle { ctx_from: self.ctx_from, wnd_id: self.wnd_id }),
    {
        BuildCtxHandle { wnd_id: self.window(), ctx_from: self.ctx_from }
    }

    /// Replaces the widget the context is created from; returns the old one.
    pub fn reset_ctx_from(&mut self, reset: Option<WidgetId>) -> (r: Option<WidgetId>)
        ensures
            r == old(self).ctx_from,
            final(self).ctx_from == reset,
            final(self).tree == old(self).tree,
            final(self).wnd_id == old(self).wnd_id,
    {
        let old = self.ctx_from;
        self.ctx_from = reset;
        old
    }

    /// Whether widget `id` is still in the tree.
    pub fn is_valid_widget(&self, id: WidgetId) -> (r: bool)
        ensures
            r == (id.0 < self.tree.view().len() && !self.tree.view()[id.0 as int].dropped),
    {
        !self.tree.is_dropped(id)
    }

    /// Widget `id` was put in the tree: it is told it is mounted.
    pub fn on_widget_mounted(&self, id: WidgetId, events: &mut Vec<DelayEvent>)
        ensures
            final(events)@ == old(events)@.push(DelayEvent::Mounted(id)),
    {
        events.push(DelayEvent::Mounted(id));
    }

    /// The subtree of `id` was put in the tree: each of its widgets is told
    /// it is mounted, in document order, and `id` with its ancestors needs
    /// layout.
    pub fn on_subtree_mounted(&mut self, id: WidgetId, events: &mut Vec<DelayEvent>)
        requires
            old(self).tree.wf(),
            id.0 < old(self).tree.view().len(),
        ensures
            final(events)@ == old(events)@ + mounted_events(preorder(old(self).tree.view(), id.0 as int)),
            final(self).tree.wf(),
            final(self).tree.root == old(self).tree.root,
            final(self).tree.view().len() == old(self).tree.view().len(),
            forall|i: int| 0 <= i < final(self).tree.view().len() ==> #[trigger] final(self).tree.view()[i] == (NodeView {
                laid_out: if ancestors_of(old(self).tree.view(), id.0 as int).contains(i as usize) {
                    false
                } else {
                    old(self).tree.view()[i].laid_out
                },
                ..old(self).tree.view()[i]
            }),
            final(self).wnd_id == old(self).wnd_id,
            final(self).ctx_from == old(self).ctx_from,
    {
        let all = self.tree.descendants(id);
        let ghost order = preorder(self.tree.view(), id.0 as int);
        let ghost start = events@;
        let mut i: usize = 0;
        while i < all.len()
            invariant
                i <= all@.len(),
                ids_of(all@) == order,
                events@ == start + mounted_events(order.take(i as int)),
            decreases all.len() - i,
        {
            assert(ids_of(all@)[i as int] == all@[i as int].0);
            assert(order.take(i + 1) == order.take(i as int).push(order[i as int]));
            self.on_widget_mounted(all[i], events);
            assert(mounted_events(order.take(i + 1)) =~= mounted_events(order.take(i as int)).push(DelayEvent::Mounted(all@[i as int])));
            i = i + 1;
        }
        assert(order.take(all@.len() as int) == order);
        self.dirty(id);
    }

    /// Marks widget `id` as needing layout, and with it its ancestors.
    pub fn dirty(&mut self, id: WidgetId)
        requires
            old(self).tree.wf(),
            id.0 < old(self).tree.view().len(),
        ensures
            final(self).tree.wf(),
            final(self).tree.root == old(self).tree.root,
            final(self).tree.view().len() == old(self).tree.view().len(),
            forall|i: int| 0 <= i < final(self).tree.view().len() ==> #[trigger] final(self).tree.view()[i] == (NodeView {
                laid_out: if ancestors_of(old(self).tree.view(), id.0 as int).contains(i as usize) {
                    false
                } else {
                    old(self).tree.view()[i].laid_out
                },
                ..old(self).tree.view()[i]
            }),
            final(self).wnd_id == old(self).wnd_id,
            final(self).ctx_from == old(self).ctx_from,
    {
        self.tree.mark_dirty(id);
    }

    /// Makes `child` the last child of `parent` in the tree being built.
    pub fn append_child(&mut self, parent: WidgetId, child: WidgetId)
        requires
            old(self).tree.wf(),
            parent.0 < child.0 < old(self).tree.view().len(),
            child.0 != old(self).tree.root,
        ensures
            final(self).tree.wf(),
            final(self).tree.root == old(self).tree.root,
            final(self).tree.view() == tree_appended(tree_detached(old(self).tree.view(), child.0), parent.0, child.0),
            final(self).wnd_id == old(self).wnd_id,
            final(self).ctx_from == old(self).ctx_from,
    {
        self.tree.append(parent, child);
    }

    /// Puts `next` right after `prev` in the tree being built.
    pub fn insert_after(&mut self, prev: WidgetId, next: WidgetId)
        requires
            old(self).tree.wf(),
            prev.0 < old(self).tree.view().len(),
            next.0 < old(self).tree.view().len(),
            prev.0 != next.0,
            next.0 != old(self).tree.root,
            old(self).tree.view()[prev.0 as int].parent matches Some(p) && p < next.0,
        ensures
            final(self).tree.wf(),
            final(self).tree.root == old(self).tree.root,
            final(self).tree.view() == tree_inserted_after(
                tree_detached(old(self).tree.view(), next.0),
                old(self).tree.view()[prev.0 as int].parent->0,
                prev.0,
                next.0,
            ),
            final(self).wnd_id == old(self).wnd_id,
            final(self).ctx_from == old(self).ctx_from,
    {
        self.tree.insert_after(prev, next);
    }
}

/// The identity of a widget generator in the application.
#[derive(Debug, Clone, Copy, Default, PartialEq, Eq, Hash, Structural)]
pub struct GeneratorID(pub usize);

impl GeneratorID {
    /// The identity given to the next generator.
    pub fn next_id(self) -> (r: GeneratorID)
        requires
            self.0 < usize::MAX,
        ensures
            r.0 == self.0 + 1,
    {
        GeneratorID(self.0 + 1)
    }
}

} // verus!
