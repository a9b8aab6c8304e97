//! The widget tree: an arena of widgets, each with an optional parent and
//! ordered children, plus what the event, focus and layout logic reads of a
//! widget.
use vstd::prelude::*;

verus! {

/// The identity of a widget in its window's tree.
#[derive(Debug, Clone, Copy, PartialEq, Eq, Hash, Structural)]
pub struct WidgetId(pub usize);

/// How a focus scope treats keyboard navigation.
#[derive(Debug, Clone, Copy, PartialEq, Eq, Structural)]
pub struct FocusScope {
    /// The scope host itself is skipped by navigation.
    pub skip_host: bool,
    /// The widgets inside the scope are skipped by navigation.
    pub skip_descendants: bool,
}

impl Default for FocusScope {
    /// A scope that skips neither its host nor its descendants.
    fn default() -> (r: FocusScope)
        ensures
            r == (FocusScope { skip_host: false, skip_descendants: false }),
    {
        FocusScope { skip_host: false, skip_descendants: false }
    }
}

/// What the framework reads of a widget: its tab index, whether it asks for
/// focus when mounted, whether it can take focus, its focus scope, and
/// whether its size is decided by its parent's constraints alone.
#[derive(Debug, Clone, Copy, PartialEq, Eq, Structural)]
pub struct WidgetAttrs {
    pub tab_index: Option<i16>,
    pub auto_focus: bool,
    pub focusable: bool,
    pub scope: Option<FocusScope>,
    pub sized_by_parent: bool,
}

/// One widget of the arena.
#[derive(Debug)]
pub struct WidgetNode {
    pub parent: Option<usize>,
    pub children: Vec<usize>,
    pub dropped: bool,
    pub laid_out: bool,
    pub attrs: WidgetAttrs,
}

/// What one widget of the arena holds.
pub struct NodeView {
    pub parent: Option<usize>,
    pub children: Seq<usize>,
    pub dropped: bool,
    pub laid_out: bool,
    pub attrs: WidgetAttrs,
}

pub open spec fn node_view(n: WidgetNode) -> NodeView {
    NodeView { parent: n.parent, children: n.children@, dropped: n.dropped, laid_out: n.laid_out, attrs: n.attrs }
}

/// The widgets of a window.
#[derive(Debug)]
pub struct WidgetTree {
    pub nodes: Vec<WidgetNode>,
    pub root: usize,
}

/// Parent and child links agree, and a parent always comes before its
/// children in the arena.
pub open spec fn links_ok(t: Seq<NodeView>) -> bool {
    &&& t.len() <= usize::MAX
    &&& forall|i: int| 0 <= i < t.len() && (#[trigger] t[i]).parent is Some ==> {
        let p = t[i].parent->0 as int;
        &&& 0 <= p < i
        &&& t[p].children.contains(i as usize)
    }
    &&& forall|i: int, k: int| 0 <= i < t.len() && 0 <= k < t[i].children.len() ==> {
        let c = (#[trigger] t[i].children[k]) as int;
        &&& i < c < t.len()
        &&& t[c].parent == Some(i as usize)
    }
    &&& forall|i: int| 0 <= i < t.len() ==> (#[trigger] t[i]).children.no_duplicates()
}

/// The widgets of `id`'s subtree in document order (a widget before its
/// children, children in order).
pub open spec fn preorder(t: Seq<NodeView>, id: int) -> Seq<usize>
    decreases t.len() - id, 1int, 0int,
{
    if 0 <= id < t.len() {
        seq![id as usize] + preorder_children(t, id, t[id].children)
    } else {
        Seq::empty()
    }
}

/// The subtrees of `cs` (children of `p`) in document order.
pub open spec fn preorder_children(t: Seq<NodeView>, p: int, cs: Seq<usize>) -> Seq<usize>
    decreases t.len() - p, 0int, cs.len(),
{
    if cs.len() == 0 {
        Seq::empty()
    } else {
        preorder_children(t, p, cs.drop_last()) + (if p < cs.last() && cs.last() < t.len() {
            preorder(t, cs.last() as int)
        } else {
            Seq::empty()
        })
    }
}

/// The widgets of `id`'s subtree that are not laid out, children before
/// their parent, children in order; a laid-out widget ends the walk down.
pub open spec fn layout_order(t: Seq<NodeView>, id: int) -> Seq<usize>
    decreases t.len() - id, 1int, 0int,
{
    if 0 <= id < t.len() && !t[id].laid_out {
        layout_children(t, id, t[id].children) + seq![id as usize]
    } else {
        Seq::empty()
    }
}

/// The layout order of the subtrees of `cs` (children of `p`).
pub open spec fn layout_children(t: Seq<NodeView>, p: int, cs: Seq<usize>) -> Seq<usize>
    decreases t.len() - p, 0int, cs.len(),
{
    if cs.len() == 0 {
        Seq::empty()
    } else {
        layout_children(t, p, cs.drop_last()) + (if p < cs.last() && cs.last() < t.len() {
            layout_order(t, cs.last() as int)
        } else {
            Seq::empty()
        })
    }
}

/// The widgets of `id`'s subtree that a disposal reaches, in document
/// order: a widget of `keep` is reached but not what lies below it.
pub open spec fn dispose_order(t: Seq<NodeView>, id: int, keep: Seq<usize>) -> Seq<usize>
    decreases t.len() - id, 1int, 0int,
{
    if 0 <= id < t.len() {
        seq![id as usize] + (if keep.contains(id as usize) {
            Seq::empty()
        } else {
            dispose_children(t, id, t[id].children, keep)
        })
    } else {
        Seq::empty()
    }
}

/// The disposal order of the subtrees of `cs` (children of `p`).
pub open spec fn dispose_children(t: Seq<NodeView>, p: int, cs: Seq<usize>, keep: Seq<usize>) -> Seq<usize>
    decreases t.len() - p, 0int, cs.len(),
{
    if cs.len() == 0 {
        Seq::empty()
    } else {
        dispose_children(t, p, cs.drop_last(), keep) + (if p < cs.last() && cs.last() < t.len() {
            dispose_order(t, cs.last() as int, keep)
        } else {
            Seq::empty()
        })
    }
}

/// The first widget of `a` that `b` holds.
pub open spec fn first_common(a: Seq<usize>, b: Seq<usize>) -> Option<usize>
    decreases a.len(),
{
    if a.len() == 0 {
        None
    } else if b.contains(a[0]) {
        Some(a[0])
    } else {
        first_common(a.drop_first(), b)
    }
}

/// `s` without the occurrences of `v`.
pub open spec fn without(s: Seq<usize>, v: usize) -> Seq<usize>
    decreases s.len(),
{
    if s.len() == 0 {
        s
    } else if s.last() == v {
        without(s.drop_last(), v)
    } else {
        without(s.drop_last(), v).push(s.last())
    }
}

pub proof fn lemma_without(s: Seq<usize>, v: usize)
    ensures
        forall|x: usize| without(s, v).contains(x) <==> (s.contains(x) && x != v),
        s.no_duplicates() ==> without(s, v).no_duplicates(),
        without(s, v).len() <= s.len(),
    decreases s.len(),
{
    if s.len() > 0 {
        let t = s.drop_last();
        lemma_without(t, v);
        let w = without(t, v);
        assert forall|x: usize| without(s, v).contains(x) <==> (s.contains(x) && x != v) by {
            lemma_push_contains(t, s.last(), x);
            assert(s == t.push(s.last()));
            assert(w.contains(x) == (t.contains(x) && x != v));
            if s.last() != v {
                lemma_push_contains(w, s.last(), x);
            }
        }
        if s.no_duplicates() {
            assert(t.no_duplicates());
            if s.last() != v {
                assert(!t.contains(s.last()));
                assert(!w.contains(s.last()));
                let r = w.push(s.last());
                assert forall|a: int, b: int| 0 <= a < r.len() && 0 <= b < r.len() && a != b implies r[a] != r[b] by {
                    if a == w.len() as int {
                        assert(w.contains(r[b]) || b == a);
                    } else if b == w.len() as int {
                        assert(w.contains(r[a]));
                    }
                }
            }
        }
    }
}

/// The arena indices of a list of widgets.
pub open spec fn ids_of(v: Seq<WidgetId>) -> Seq<usize> {
    v.map_values(|w: WidgetId| w.0)
}

/// Some widget of `ids` is `x`.
pub open spec fn listed(ids: Seq<WidgetId>, x: int) -> bool {
    exists|j: int| 0 <= j < ids.len() && (#[trigger] ids[j]).0 as int == x
}

proof fn lemma_listed_push(ids: Seq<WidgetId>, k: int, x: int)
    requires
        0 <= k < ids.len(),
    ensures
        listed(ids.take(k + 1), x) <==> (listed(ids.take(k), x) || ids[k].0 as int == x),
{
    let a = ids.take(k);
    let b = ids.take(k + 1);
    if listed(b, x) {
        let j = choose|j: int| 0 <= j < b.len() && (#[trigger] b[j]).0 as int == x;
        if j < k {
            assert(a[j] == b[j]);
        }
    }
    if listed(a, x) {
        let j = choose|j: int| 0 <= j < a.len() && (#[trigger] a[j]).0 as int == x;
        assert(b[j] == a[j]);
    }
    if ids[k].0 as int == x {
        assert(b[k] == ids[k]);
    }
}

proof fn lemma_push_contains(s: Seq<usize>, v: usize, x: usize)
    ensures
        s.push(v).contains(x) <==> (s.contains(x) || x == v),
{
    if s.push(v).contains(x) && x != v {
        let k = choose|k: int| 0 <= k < s.push(v).len() && s.push(v)[k] == x;
        assert(s[k] == x);
    }
    if s.contains(x) {
        let k = choose|k: int| 0 <= k < s.len() && s[k] == x;
        assert(s.push(v)[k] == x);
    }
    if x == v {
        assert(s.push(v)[s.len() as int] == x);
    }
}

/// `t` after `c` became the last child of `p`.
pub open spec fn tree_appended(t: Seq<NodeView>, p: usize, c: usize) -> Seq<NodeView> {
    t.update(c as int, NodeView { parent: Some(p), ..t[c as int] }).update(
        p as int,
        NodeView { children: t[p as int].children.push(c), ..t[p as int] },
    )
}

/// The place of `s` among the children `cs`.
pub open spec fn child_index(cs: Seq<usize>, s: usize) -> int {
    choose|k: int| 0 <= k < cs.len() && cs[k] == s
}

/// `t` after `n` (a widget without parent) became the child of `p` right
/// after `s`, a child of `p`.
pub open spec fn tree_inserted_after(t: Seq<NodeView>, p: usize, s: usize, n: usize) -> Seq<NodeView> {
    t.update(n as int, NodeView { parent: Some(p), ..t[n as int] }).update(
        p as int,
        NodeView { children: t[p as int].children.insert(child_index(t[p as int].children, s) + 1, n), ..t[p as int] },
    )
}

/// `t` after `n` (a widget without parent) became the child of `p` right
/// after its `k`-th child.
pub open spec fn tree_inserted_at(t: Seq<NodeView>, p: usize, k: int, n: usize) -> Seq<NodeView> {
    t.update(n as int, NodeView { parent: Some(p), ..t[n as int] }).update(
        p as int,
        NodeView { children: t[p as int].children.insert(k + 1, n), ..t[p as int] },
    )
}

proof fn lemma_insert_at_links(t0: Seq<NodeView>, p: usize, k: int, n: usize)
    requires
        links_ok(t0),
        p < n < t0.len(),
        t0[n as int].parent is None,
        0 <= k < t0[p as int].children.len(),
    ensures
        links_ok(tree_inserted_at(t0, p, k, n)),
{
    let t1 = tree_inserted_at(t0, p, k, n);
    let cs = t0[p as int].children;
    let ncs = cs.insert(k + 1, n);
    assert(!cs.contains(n)) by {
        if cs.contains(n) {
            let j = choose|j: int| 0 <= j < cs.len() && cs[j] == n;
            assert(t0[n as int].parent == Some(p));
        }
    }
    assert(t1[p as int].children == ncs);
    assert forall|i: int| 0 <= i < t1.len() && (#[trigger] t1[i]).parent is Some implies ({
        let q = t1[i].parent->0 as int;
        &&& 0 <= q < i
        &&& t1[q].children.contains(i as usize)
    }) by {
        if i == n {
            assert(ncs[k + 1] == n);
        } else {
            let q = t0[i].parent->0 as int;
            assert(t1[i].parent == t0[i].parent);
            if q == p {
                let j = choose|j: int| 0 <= j < cs.len() && cs[j] == i as usize;
                if j <= k {
                    assert(ncs[j] == i as usize);
                } else {
                    assert(ncs[j + 1] == i as usize);
                }
            } else {
                let j = choose|j: int| 0 <= j < t0[q].children.len() && t0[q].children[j] == i as usize;
                assert(t1[q].children[j] == i as usize);
            }
        }
    }
    assert forall|i: int, a: int| 0 <= i < t1.len() && 0 <= a < t1[i].children.len() implies ({
        let c = (#[trigger] t1[i].children[a]) as int;
        &&& i < c < t1.len()
        &&& t1[c].parent == Some(i as usize)
    }) by {
        if i == p {
            if a == k + 1 {
                assert(ncs[a] == n);
            } else {
                let o = if a <= k { a } else { a - 1 };
                assert(ncs[a] == cs[o]);
                assert(cs[o] != n);
            }
        } else {
            assert(t1[i].children == t0[i].children);
            let c = t0[i].children[a] as int;
            if c == n {
                assert(t0[c].parent == Some(i as usize));
            }
        }
    }
    assert forall|i: int| 0 <= i < t1.len() implies (#[trigger] t1[i]).children.no_duplicates() by {
        if i == p {
            assert forall|a: int, b: int| 0 <= a < ncs.len() && 0 <= b < ncs.len() && a != b implies ncs[a] != ncs[b] by {
                let oa = if a <= k { a } else { a - 1 };
                let ob = if b <= k { b } else { b - 1 };
                if a == k + 1 {
                    assert(ncs[b] == cs[ob]);
                } else if b == k + 1 {
                    assert(ncs[a] == cs[oa]);
                } else {
                    assert(ncs[a] == cs[oa] && ncs[b] == cs[ob]);
                    assert(t0[p as int].children.no_duplicates());
                }
            }
        } else {
            assert(t1[i].children == t0[i].children);
        }
    }
}

/// `t` after `id` was taken out of its parent's children.
pub open spec fn tree_detached(t: Seq<NodeView>, id: usize) -> Seq<NodeView> {
    match t[id as int].parent {
        Some(p) => t.update(id as int, NodeView { parent: None, ..t[id as int] }).update(
            p as int,
            NodeView { children: without(t[p as int].children, id), ..t[p as int] },
        ),
        None => t,
    }
}

/// `id` followed by its ancestors, nearest first.
pub open spec fn ancestors_of(t: Seq<NodeView>, id: int) -> Seq<usize>
    decreases id,
{
    if 0 <= id < t.len() {
        match t[id].parent {
            Some(p) => if (p as int) < id { seq![id as usize] + ancestors_of(t, p as int) } else { seq![id as usize] },
            None => seq![id as usize],
        }
    } else {
        Seq::empty()
    }
}

impl WidgetTree {
    pub open spec fn view(&self) -> Seq<NodeView> {
        self.nodes@.map_values(|n: WidgetNode| node_view(n))
    }

    /// The arena is a forest with consistent links, and the root has no parent.
    pub open spec fn wf(&self) -> bool {
        &&& links_ok(self.view())
        &&& self.root == 0
        &&& 0 <= self.root < self.view().len()
        &&& self.view()[self.root as int].parent is None
        &&& !self.view()[self.root as int].dropped
    }

    /// A tree holding only its root.
    pub fn new(root_attrs: WidgetAttrs) -> (r: WidgetTree)
        ensures
            r.wf(),
            r.view().len() == 1,
            r.root == 0,
            r.view()[0].children.len() == 0,
            r.view()[0].attrs == root_attrs,
            !r.view()[0].laid_out,
    {
        let mut nodes: Vec<WidgetNode> = Vec::new();
        nodes.push(WidgetNode { parent: None, children: Vec::new(), dropped: false, laid_out: false, attrs: root_attrs });
        let t = WidgetTree { nodes, root: 0 };
        assert(t.view()[0].children =~= Seq::<usize>::empty());
        t
    }

    /// The root widget.
    pub fn root(&self) -> (r: WidgetId)
        ensures
            r.0 == self.root,
    {
        WidgetId(self.root)
    }

    /// Number of widgets ever allocated.
    pub fn len(&self) -> (r: usize)
        ensures
            r == self.view().len(),
    {
        self.nodes.len()
    }

    /// Adds a widget with no parent and no children.
    pub fn alloc_node(&mut self, attrs: WidgetAttrs) -> (r: WidgetId)
        requires
            old(self).wf(),
        ensures
            final(self).wf(),
            r.0 == old(self).view().len(),
            final(self).root == old(self).root,
            final(self).view() == old(self).view().push(NodeView {
                parent: None,
                children: Seq::empty(),
                dropped: false,
                laid_out: false,
                attrs,
            }),
    {
        let id = self.nodes.len();
        self.nodes.push(WidgetNode { parent: None, children: Vec::new(), dropped: false, laid_out: false, attrs });
        assert(self.nodes@.len() == self.nodes.len());
        assert(self.view() =~= old(self).view().push(NodeView {
            parent: None,
            children: Seq::empty(),
            dropped: false,
            laid_out: false,
            attrs,
        }));
        WidgetId(id)
    }

    /// The parent of `id`.
    pub fn parent(&self, id: WidgetId) -> (r: Option<WidgetId>)
        requires
            id.0 < self.view().len(),
        ensures
            r == match self.view()[id.0 as int].parent {
                Some(p) => Some(WidgetId(p)),
                None => None::<WidgetId>,
            },
    {
        match self.nodes[id.0].parent {
            Some(p) => Some(WidgetId(p)),
            None => None,
        }
    }

    /// Whether `id` was disposed of.
    pub fn is_dropped(&self, id: WidgetId) -> (r: bool)
        ensures
            r == (id.0 >= self.view().len() || self.view()[id.0 as int].dropped),
    {
        if id.0 >= self.nodes.len() {
            return true;
        }
        self.nodes[id.0].dropped
    }

    /// What the framework reads of `id`.
    pub fn attrs(&self, id: WidgetId) -> (r: WidgetAttrs)
        requires
            id.0 < self.view().len(),
        ensures
            r == self.view()[id.0 as int].attrs,
    {
        self.nodes[id.0].attrs
    }

    /// The children of `id`, in order.
    pub fn children(&self, id: WidgetId) -> (r: Vec<WidgetId>)
        requires
            id.0 < self.view().len(),
        ensures
            r@.len() == self.view()[id.0 as int].children.len(),
            forall|k: int| 0 <= k < r@.len() ==> (#[trigger] r@[k]).0 == self.view()[id.0 as int].children[k],
    {
        let cs = &self.nodes[id.0].children;
        let mut out: Vec<WidgetId> = Vec::new();
        let mut i: usize = 0;
        while i < cs.len()
            invariant
                i <= cs@.len(),
                cs@ == self.view()[id.0 as int].children,
                out@.len() == i,
                forall|k: int| 0 <= k < i ==> (#[trigger] out@[k]).0 == cs@[k],
            decreases cs.len() - i,
        {
            out.push(WidgetId(cs[i]));
            i = i + 1;
        }
        out
    }

    /// The first child of `id`, if it has one.
    pub fn first_child(&self, id: WidgetId) -> (r: Option<WidgetId>)
        requires
            id.0 < self.view().len(),
        ensures
            r == if self.view()[id.0 as int].children.len() > 0 {
                Some(WidgetId(self.view()[id.0 as int].children[0]))
            } else {
                None::<WidgetId>
            },
    {
        let cs = &self.nodes[id.0].children;
        if cs.len() > 0 { Some(WidgetId(cs[0])) } else { None }
    }

    /// Whether `id` has a child.
    pub fn has_child(&self, id: WidgetId) -> (r: bool)
        requires
            id.0 < self.view().len(),
        ensures
            r == (self.view()[id.0 as int].children.len() > 0),
    {
        self.nodes[id.0].children.len() > 0
    }

    /// The only child of `id`, if it has one; a widget with more than one
    /// child has no single child to give.
    pub fn single_child(&self, id: WidgetId) -> (r: Option<WidgetId>)
        requires
            id.0 < self.view().len(),
            self.view()[id.0 as int].children.len() <= 1,
        ensures
            r == if self.view()[id.0 as int].children.len() == 1 {
                Some(WidgetId(self.view()[id.0 as int].children[0]))
            } else {
                None::<WidgetId>
            },
    {
        self.first_child(id)
    }

    /// The children of `id`, last first.
    pub fn reverse_children(&self, id: WidgetId) -> (r: Vec<WidgetId>)
        requires
            id.0 < self.view().len(),
        ensures
            ids_of(r@) == self.view()[id.0 as int].children.reverse(),
    {
        let cs = &self.nodes[id.0].children;
        let ghost c = self.view()[id.0 as int].children;
        let mut out: Vec<WidgetId> = Vec::new();
        let mut i: usize = cs.len();
        while i > 0
            invariant
                i <= cs@.len(),
                cs@ == c,
                ids_of(out@) == c.skip(i as int).reverse(),
            decreases i,
        {
            let ghost before = out@;
            i = i - 1;
            out.push(WidgetId(cs[i]));
            assert(ids_of(out@) =~= ids_of(before).push(cs@[i as int]));
            assert(c.skip(i as int).reverse() =~= c.skip(i + 1).reverse().push(c[i as int]));
        }
        assert(c.skip(0) =~= c);
        out
    }

    /// Makes `child` the last child of `parent`, taking it out of its former
    /// parent's children first.
    pub fn append(&mut self, parent: WidgetId, child: WidgetId)
        requires
            old(self).wf(),
            parent.0 < child.0 < old(self).view().len(),
            child.0 != old(self).root,
        ensures
            final(self).wf(),
            final(self).root == old(self).root,
            final(self).view().len() == old(self).view().len(),
            final(self).view() == tree_appended(tree_detached(old(self).view(), child.0), parent.0, child.0),
    {
        self.detach(child);
        assert(self.view()[child.0 as int].parent is None);
        self.attach_last(parent, child);
    }

    /// Puts `next` right after its new sibling `prev`, under `prev`'s parent,
    /// taking it out of its former parent's children first.
    pub fn insert_after(&mut self, prev: WidgetId, next: WidgetId)
        requires
            old(self).wf(),
            prev.0 < old(self).view().len(),
            next.0 < old(self).view().len(),
            prev.0 != next.0,
            next.0 != old(self).root,
            old(self).view()[prev.0 as int].parent matches Some(p) && p < next.0,
        ensures
            final(self).wf(),
            final(self).root == old(self).root,
            final(self).view().len() == old(self).view().len(),
            final(self).view() == tree_inserted_after(
                tree_detached(old(self).view(), next.0),
                old(self).view()[prev.0 as int].parent->0,
                prev.0,
                next.0,
            ),
    {
        let p = match self.nodes[prev.0].parent {
            Some(p) => p,
            None => return,
        };
        self.detach(next);
        let ghost t0 = self.view();
        assert(t0[next.0 as int].parent is None);
        assert(t0[prev.0 as int].parent == Some(p));
        assert(t0[p as int].children.contains(prev.0));
        let mut pnode = self.nodes.remove(p);
        let ghost cs = pnode.children@;
        assert(cs == t0[p as int].children);
        let mut k: usize = 0;
        while k < pnode.children.len() && pnode.children[k] != prev.0
            invariant
                k <= cs.len(),
                pnode.children@ == cs,
                cs.contains(prev.0),
                forall|j: int| 0 <= j < k ==> cs[j] != prev.0,
            decreases cs.len() - k,
        {
            k = k + 1;
        }
        assert(k < cs.len()) by {
            if k == cs.len() {
                let j = choose|j: int| 0 <= j < cs.len() && cs[j] == prev.0;
                assert(cs[j] != prev.0);
            }
        }
        assert(child_index(cs, prev.0) == k) by {
            let j = child_index(cs, prev.0);
            assert(0 <= j < cs.len() && cs[j] == prev.0);
            assert(cs.no_duplicates());
        }
        pnode.children.insert(k + 1, next.0);
        self.nodes.insert(p, pnode);
        let mut nnode = self.nodes.remove(next.0);
        nnode.parent = Some(p);
        self.nodes.insert(next.0, nnode);
        proof {
            lemma_insert_at_links(t0, p, k as int, next.0);
        }
        assert(self.view() =~= tree_inserted_at(t0, p, k as int, next.0));
    }

    /// Makes `child` (a widget without parent) the last child of `parent`.
    fn attach_last(&mut self, parent: WidgetId, child: WidgetId)
        requires
            old(self).wf(),
            parent.0 < child.0 < old(self).view().len(),
            old(self).view()[child.0 as int].parent is None,
            child.0 != old(self).root,
        ensures
            final(self).wf(),
            final(self).root == old(self).root,
            final(self).view().len() == old(self).view().len(),
            final(self).view() == tree_appended(old(self).view(), parent.0, child.0),
    {
        let ghost t0 = self.view();
        let mut cnode = self.nodes.remove(child.0);
        cnode.parent = Some(parent.0);
        self.nodes.insert(child.0, cnode);
        let mut pnode = self.nodes.remove(parent.0);
        pnode.children.push(child.0);
        self.nodes.insert(parent.0, pnode);
        let ghost t1 = self.view();
        assert(t1 =~= t0.update(child.0 as int, NodeView {
            parent: Some(parent.0),
            ..t0[child.0 as int]
        }).update(parent.0 as int, NodeView {
            children: t0[parent.0 as int].children.push(child.0),
            ..t0[parent.0 as int]
        }));
        proof {
            assert(!t0[parent.0 as int].children.contains(child.0)) by {
                if t0[parent.0 as int].children.contains(child.0) {
                    let k = choose|k: int| 0 <= k < t0[parent.0 as int].children.len() && t0[parent.0 as int].children[k] == child.0;
                    assert(t0[child.0 as int].parent == Some(parent.0));
                }
            }
            assert forall|i: int| 0 <= i < t1.len() && (#[trigger] t1[i]).parent is Some implies ({
                let p = t1[i].parent->0 as int;
                &&& 0 <= p < i
                &&& t1[p].children.contains(i as usize)
            }) by {
                if i == child.0 {
                    assert(t1[parent.0 as int].children.last() == child.0);
                } else {
                    let p = t0[i].parent->0 as int;
                    if p == parent.0 {
                        let k = choose|k: int| 0 <= k < t0[p].children.len() && t0[p].children[k] == i as usize;
                        assert(t1[p].children[k] == i as usize);
                    }
                }
            }
            assert forall|i: int, k: int| 0 <= i < t1.len() && 0 <= k < t1[i].children.len() implies ({
                let c = (#[trigger] t1[i].children[k]) as int;
                &&& i < c < t1.len()
                &&& t1[c].parent == Some(i as usize)
            }) by {
                if i == parent.0 && k == t1[i].children.len() - 1 {
                } else {
                    assert(t1[i].children[k] == t0[i].children[k]);
                    let c = t0[i].children[k] as int;
                    if c == child.0 {
                        assert(t0[c].parent == Some(i as usize));
                    }
                }
            }
            assert forall|i: int| 0 <= i < t1.len() implies (#[trigger] t1[i]).children.no_duplicates() by {
                if i == parent.0 {
                    let cs = t1[i].children;
                    assert forall|a: int, b: int| 0 <= a < cs.len() && 0 <= b < cs.len() && a != b implies cs[a] != cs[b] by {
                        if a == cs.len() - 1 || b == cs.len() - 1 {
                            if cs[a] == cs[b] {
                                let o = if a == cs.len() - 1 { b } else { a };
                                assert(t0[parent.0 as int].children[o] == child.0);
                            }
                        } else {
                            assert(t0[parent.0 as int].children.no_duplicates());
                        }
                    }
                }
            }
        }
    }

    /// `id` followed by its ancestors, nearest first.
    pub fn ancestors(&self, id: WidgetId) -> (r: Vec<WidgetId>)
        requires
            self.wf(),
            id.0 < self.view().len(),
        ensures
            ids_of(r@) == ancestors_of(self.view(), id.0 as int),
    {
        let mut out: Vec<WidgetId> = Vec::new();
        let mut cur = id.0;
        let ghost t = self.view();
        loop
            invariant
                self.wf(),
                t == self.view(),
                cur < t.len(),
                ids_of(out@) + ancestors_of(t, cur as int) == ancestors_of(t, id.0 as int),
            decreases cur,
        {
            let ghost before = out@;
            out.push(WidgetId(cur));
            match self.nodes[cur].parent {
                Some(p) => {
                    assert(t[cur as int].parent == Some(p));
                    assert(ids_of(out@) =~= ids_of(before).push(cur));
                    cur = p;
                }
                None => {
                    assert(ids_of(out@) =~= ids_of(before).push(cur));
                    assert(ids_of(out@) =~= ancestors_of(t, id.0 as int));
                    return out;
                }
            }
        }
    }

    /// The nearest widget that is an ancestor of both `a` and `b` (each
    /// counts as its own ancestor), if they share one.
    pub fn lowest_common_ancestor(&self, a: WidgetId, b: WidgetId) -> (r: Option<WidgetId>)
        requires
            self.wf(),
            a.0 < self.view().len(),
            b.0 < self.view().len(),
        ensures
            r == match first_common(ancestors_of(self.view(), a.0 as int), ancestors_of(self.view(), b.0 as int)) {
                Some(x) => Some(WidgetId(x)),
                None => None::<WidgetId>,
            },
    {
        let pa = self.ancestors(a);
        let pb = self.ancestors(b);
        let ghost sa = ancestors_of(self.view(), a.0 as int);
        let ghost sb = ancestors_of(self.view(), b.0 as int);
        assert(sa.skip(0) =~= sa);
        let mut i: usize = 0;
        while i < pa.len()
            invariant
                i <= pa@.len(),
                ids_of(pa@) == sa,
                ids_of(pb@) == sb,
                first_common(sa.skip(i as int), sb) == first_common(sa, sb),
                sa == ancestors_of(self.view(), a.0 as int),
                sb == ancestors_of(self.view(), b.0 as int),
            decreases pa.len() - i,
        {
            let x = pa[i].0;
            assert(pa@[i as int].0 == sa[i as int]);
            assert(sa.skip(i as int)[0] == x);
            let mut j: usize = 0;
            let mut found = false;
            while j < pb.len()
                invariant
                    j <= pb@.len(),
                    ids_of(pb@) == sb,
                    found == exists|k: int| 0 <= k < j && sb[k] == x,
                decreases pb.len() - j,
            {
                assert(pb@[j as int].0 == sb[j as int]);
                if pb[j].0 == x {
                    found = true;
                }
                j = j + 1;
            }
            if found {
                assert(sb.contains(x));
                let ghost s = sa.skip(i as int);
                assert(s.len() > 0 && s[0] == x);
                assert(first_common(s, sb) == Some(x));
                return Some(WidgetId(x));
            }
            assert(!sb.contains(x));
            assert(sa.skip(i as int).drop_first() =~= sa.skip(i + 1));
            i = i + 1;
        }
        assert(sa.skip(i as int).len() == 0);
        None
    }

    proof fn lemma_preorder_children_snoc(t: Seq<NodeView>, p: int, cs: Seq<usize>, k: int)
        requires
            0 <= k < cs.len(),
        ensures
            preorder_children(t, p, cs.take(k + 1)) == preorder_children(t, p, cs.take(k)) + (if p < cs[k] && cs[k] < t.len() {
                preorder(t, cs[k] as int)
            } else {
                Seq::empty()
            }),
    {
        assert(cs.take(k + 1).drop_last() == cs.take(k));
    }

    /// Appends the widgets of `id`'s subtree in document order to `out`.
    fn push_preorder(&self, id: usize, out: &mut Vec<WidgetId>)
        requires
            self.wf(),
            id < self.view().len(),
        ensures
            ids_of(final(out)@) == ids_of(old(out)@) + preorder(self.view(), id as int),
        decreases self.view().len() - id,
    {
        let ghost t = self.view();
        let ghost start = ids_of(old(out)@);
        out.push(WidgetId(id));
        assert(ids_of(out@) =~= start.push(id));
        let cs = &self.nodes[id].children;
        let ghost csv = cs@;
        assert(csv == t[id as int].children);
        let mut k: usize = 0;
        while k < cs.len()
            invariant
                self.wf(),
                t == self.view(),
                id < t.len(),
                csv == cs@,
                csv == t[id as int].children,
                k <= cs@.len(),
                ids_of(out@) == start.push(id) + preorder_children(t, id as int, csv.take(k as int)),
            decreases cs.len() - k,
        {
            let c = cs[k];
            proof {
                Self::lemma_preorder_children_snoc(t, id as int, csv, k as int);
                assert(t[id as int].children[k as int] == c);
            }
            let ghost mid = ids_of(out@);
            self.push_preorder(c, out);
            assert(ids_of(out@) =~= start.push(id) + preorder_children(t, id as int, csv.take(k + 1)));
            k = k + 1;
        }
        assert(csv.take(cs@.len() as int) =~= csv);
        assert(start.push(id) + preorder_children(t, id as int, csv) =~= start + preorder(t, id as int));
    }

    /// The widgets of `id`'s subtree in document order.
    pub fn descendants(&self, id: WidgetId) -> (r: Vec<WidgetId>)
        requires
            self.wf(),
            id.0 < self.view().len(),
        ensures
            ids_of(r@) == preorder(self.view(), id.0 as int),
    {
        let mut out: Vec<WidgetId> = Vec::new();
        self.push_preorder(id.0, &mut out);
        assert(ids_of(Seq::<WidgetId>::empty()) =~= Seq::<usize>::empty());
        assert(ids_of(out@) =~= preorder(self.view(), id.0 as int));
        out
    }

    /// Sets the layout flag of every widget of `ids` to `value`.
    pub(crate) fn set_laid_out(&mut self, ids: &Vec<WidgetId>, value: bool)
        requires
            old(self).wf(),
            forall|k: int| 0 <= k < ids@.len() ==> (#[trigger] ids@[k]).0 < old(self).view().len(),
        ensures
            final(self).wf(),
            final(self).root == old(self).root,
            final(self).view().len() == old(self).view().len(),
            forall|i: int| 0 <= i < final(self).view().len() ==> #[trigger] final(self).view()[i] == (NodeView {
                laid_out: if listed(ids@, i) { value } else { old(self).view()[i].laid_out },
                ..old(self).view()[i]
            }),
    {
        let mut k: usize = 0;
        while k < ids.len()
            invariant
                self.wf(),
                self.root == old(self).root,
                self.view().len() == old(self).view().len(),
                k <= ids@.len(),
                forall|j: int| 0 <= j < ids@.len() ==> (#[trigger] ids@[j]).0 < old(self).view().len(),
                forall|i: int| 0 <= i < self.view().len() ==> #[trigger] self.view()[i] == (NodeView {
                    laid_out: if listed(ids@.take(k as int), i) { value } else { old(self).view()[i].laid_out },
                    ..old(self).view()[i]
                }),
            decreases ids.len() - k,
        {
            let i = ids[k].0;
            let ghost before = self.view();
            proof {
                self.lemma_links_ok_after_flag(i as int, NodeView { laid_out: value, ..before[i as int] });
            }
            let mut n = self.nodes.remove(i);
            n.laid_out = value;
            self.nodes.insert(i, n);
            assert(self.view() =~= before.update(i as int, NodeView { laid_out: value, ..before[i as int] }));
            assert forall|x: int| 0 <= x < self.view().len() implies #[trigger] self.view()[x] == (NodeView {
                laid_out: if listed(ids@.take(k + 1), x) { value } else { old(self).view()[x].laid_out },
                ..old(self).view()[x]
            }) by {
                lemma_listed_push(ids@, k as int, x);
                assert(before[x] == (NodeView {
                    laid_out: if listed(ids@.take(k as int), x) { value } else { old(self).view()[x].laid_out },
                    ..old(self).view()[x]
                }));
            }
            k = k + 1;
        }
        assert(ids@.take(ids@.len() as int) =~= ids@);
    }

    /// Sets the dropped flag of every widget of `ids`.
    fn set_dropped(&mut self, ids: &Vec<WidgetId>)
        requires
            old(self).wf(),
            forall|k: int| 0 <= k < ids@.len() ==> (#[trigger] ids@[k]).0 < old(self).view().len() && ids@[k].0 != old(self).root,
        ensures
            final(self).wf(),
            final(self).root == old(self).root,
            final(self).view().len() == old(self).view().len(),
            forall|i: int| 0 <= i < final(self).view().len() ==> #[trigger] final(self).view()[i] == (NodeView {
                dropped: if listed(ids@, i) { true } else { old(self).view()[i].dropped },
                ..old(self).view()[i]
            }),
    {
        let mut k: usize = 0;
        while k < ids.len()
            invariant
                self.wf(),
                self.root == old(self).root,
                self.view().len() == old(self).view().len(),
                k <= ids@.len(),
                forall|j: int| 0 <= j < ids@.len() ==> (#[trigger] ids@[j]).0 < old(self).view().len() && ids@[j].0 != old(self).root,
                forall|i: int| 0 <= i < self.view().len() ==> #[trigger] self.view()[i] == (NodeView {
                    dropped: if listed(ids@.take(k as int), i) { true } else { old(self).view()[i].dropped },
                    ..old(self).view()[i]
                }),
            decreases ids.len() - k,
        {
            let i = ids[k].0;
            let ghost before = self.view();
            proof {
                self.lemma_links_ok_after_flag(i as int, NodeView { dropped: true, ..before[i as int] });
            }
            let mut n = self.nodes.remove(i);
            n.dropped = true;
            self.nodes.insert(i, n);
            assert(self.view() =~= before.update(i as int, NodeView { dropped: true, ..before[i as int] }));
            assert forall|x: int| 0 <= x < self.view().len() implies #[trigger] self.view()[x] == (NodeView {
                dropped: if listed(ids@.take(k + 1), x) { true } else { old(self).view()[x].dropped },
                ..old(self).view()[x]
            }) by {
                lemma_listed_push(ids@, k as int, x);
                assert(before[x] == (NodeView {
                    dropped: if listed(ids@.take(k as int), x) { true } else { old(self).view()[x].dropped },
                    ..old(self).view()[x]
                }));
            }
            k = k + 1;
        }
        assert(ids@.take(ids@.len() as int) =~= ids@);
    }

    /// Changing a node's flags keeps the links consistent.
    proof fn lemma_links_ok_after_flag(&self, i: int, n: NodeView)
        requires
            links_ok(self.view()),
            0 <= i < self.view().len(),
            n.parent == self.view()[i].parent,
            n.children == self.view()[i].children,
        ensures
            links_ok(self.view().update(i, n)),
    {
        let t = self.view();
        let u = t.update(i, n);
        assert forall|j: int| 0 <= j < u.len() && (#[trigger] u[j]).parent is Some implies ({
            let p = u[j].parent->0 as int;
            &&& 0 <= p < j
            &&& u[p].children.contains(j as usize)
        }) by {
            assert(u[j].parent == t[j].parent);
            let p = t[j].parent->0 as int;
            assert(u[p].children == t[p].children);
        }
        assert forall|j: int, k: int| 0 <= j < u.len() && 0 <= k < u[j].children.len() implies ({
            let c = (#[trigger] u[j].children[k]) as int;
            &&& j < c < u.len()
            &&& u[c].parent == Some(j as usize)
        }) by {
            assert(u[j].children == t[j].children);
            let c = t[j].children[k] as int;
            assert(u[c].parent == t[c].parent);
        }
        assert forall|j: int| 0 <= j < u.len() implies (#[trigger] u[j]).children.no_duplicates() by {
            assert(u[j].children == t[j].children);
        }
    }

    /// Detaches `id` from its parent, if it has one.
    pub fn detach(&mut self, id: WidgetId)
        requires
            old(self).wf(),
            id.0 < old(self).view().len(),
        ensures
            final(self).wf(),
            final(self).root == old(self).root,
            final(self).view().len() == old(self).view().len(),
            final(self).view() == tree_detached(old(self).view(), id.0),
    {
        let p = match self.nodes[id.0].parent {
            Some(p) => p,
            None => return,
        };
        let ghost t0 = self.view();
        let mut pnode = self.nodes.remove(p);
        let ghost cs0 = pnode.children@;
        let mut kept: Vec<usize> = Vec::new();
        let mut k: usize = 0;
        while k < pnode.children.len()
            invariant
                k <= pnode.children@.len(),
                pnode.children@ == cs0,
                kept@ == without(cs0.take(k as int), id.0),
            decreases pnode.children.len() - k,
        {
            assert(cs0.take(k + 1).drop_last() =~= cs0.take(k as int));
            if pnode.children[k] != id.0 {
                kept.push(pnode.children[k]);
            }
            k = k + 1;
        }
        assert(cs0.take(cs0.len() as int) =~= cs0);
        pnode.children = kept;
        self.nodes.insert(p, pnode);
        let mut cnode = self.nodes.remove(id.0);
        cnode.parent = None;
        self.nodes.insert(id.0, cnode);
        let ghost t1 = self.view();
        assert(t1 =~= t0.update(id.0 as int, NodeView { parent: None, ..t0[id.0 as int] }).update(
            p as int,
            NodeView { children: without(t0[p as int].children, id.0), ..t0[p as int] },
        ));
        proof {
            lemma_detach_links(t0, id.0 as int, p);
        }
    }

    /// Marks `id` and its ancestors as needing layout.
    pub fn mark_dirty(&mut self, id: WidgetId)
        requires
            old(self).wf(),
            id.0 < old(self).view().len(),
        ensures
            final(self).wf(),
            final(self).root == old(self).root,
            final(self).view().len() == old(self).view().len(),
            forall|i: int| 0 <= i < final(self).view().len() ==> #[trigger] final(self).view()[i] == (NodeView {
                laid_out: if ancestors_of(old(self).view(), id.0 as int).contains(i as usize) { false } else { old(self).view()[i].laid_out },
                ..old(self).view()[i]
            }),
    {
        let path = self.ancestors(id);
        proof {
            lemma_ancestors_in_range(self.view(), id.0 as int);
            assert forall|k: int| 0 <= k < path@.len() implies (#[trigger] path@[k]).0 < self.view().len() by {
                assert(ids_of(path@)[k] == path@[k].0);
            }
        }
        let ghost t0 = self.view();
        self.set_laid_out(&path, false);
        proof {
            assert forall|i: int| 0 <= i < t0.len() implies listed(path@, i) == ancestors_of(t0, id.0 as int).contains(i as usize) by {
                let m = ids_of(path@);
                if listed(path@, i) {
                    let j = choose|j: int| 0 <= j < path@.len() && (#[trigger] path@[j]).0 as int == i;
                    assert(m[j] == i as usize);
                }
                if m.contains(i as usize) {
                    let j = choose|j: int| 0 <= j < m.len() && m[j] == i as usize;
                    assert(path@[j].0 as int == i);
                }
            }
        }
    }
}

proof fn lemma_detach_links(t0: Seq<NodeView>, id: int, p: usize)
    requires
        links_ok(t0),
        0 <= id < t0.len(),
        t0[id].parent == Some(p),
    ensures
        links_ok(t0.update(id, NodeView { parent: None, ..t0[id] }).update(
            p as int,
            NodeView { children: without(t0[p as int].children, id as usize), ..t0[p as int] },
        )),
{
    let pi = p as int;
    assert(pi < id);
    let cs0 = t0[pi].children;
    let t1 = t0.update(id, NodeView { parent: None, ..t0[id] }).update(
        pi,
        NodeView { children: without(cs0, id as usize), ..t0[pi] },
    );
    lemma_without(cs0, id as usize);
    assert forall|i: int| 0 <= i < t1.len() && i != id implies #[trigger] t1[i].parent == t0[i].parent by {
        if i == pi {
        } else {
            assert(t1[i] == t0[i]);
        }
    }
    assert forall|i: int| 0 <= i < t1.len() && i != pi implies #[trigger] t1[i].children == t0[i].children by {
        if i == id {
        } else {
            assert(t1[i] == t0[i]);
        }
    }
    assert forall|i: int| 0 <= i < t1.len() && (#[trigger] t1[i]).parent is Some implies ({
        let q = t1[i].parent->0 as int;
        &&& 0 <= q < i
        &&& t1[q].children.contains(i as usize)
    }) by {
        assert(i != id);
        assert(t1[i].parent == t0[i].parent);
        let q = t0[i].parent->0 as int;
        if q == pi {
            assert(cs0.contains(i as usize));
            assert(without(cs0, id as usize).contains(i as usize));
        } else {
            assert(t1[q].children == t0[q].children);
        }
    }
    assert forall|i: int, k: int| 0 <= i < t1.len() && 0 <= k < t1[i].children.len() implies ({
        let c = (#[trigger] t1[i].children[k]) as int;
        &&& i < c < t1.len()
        &&& t1[c].parent == Some(i as usize)
    }) by {
        if i == pi {
            let c = t1[i].children[k];
            assert(without(cs0, id as usize).contains(c));
            assert(cs0.contains(c));
            let j = choose|j: int| 0 <= j < cs0.len() && cs0[j] == c;
            assert(t0[i].children[j] == c);
            assert(c as int != id);
            assert(t1[c as int].parent == t0[c as int].parent);
        } else {
            assert(t1[i].children == t0[i].children);
            let c = t0[i].children[k] as int;
            assert(t0[i].children[k] == t1[i].children[k]);
            if c == id {
                assert(t0[c].parent == Some(i as usize));
                assert(i == pi);
            } else {
                assert(t1[c].parent == t0[c].parent);
            }
        }
    }
    assert forall|i: int| 0 <= i < t1.len() implies (#[trigger] t1[i]).children.no_duplicates() by {
        if i != pi {
            assert(t1[i].children == t0[i].children);
        }
    }
}

/// Every widget on the ancestor path is in the arena.
pub proof fn lemma_ancestors_in_range(t: Seq<NodeView>, id: int)
    requires
        links_ok(t),
        0 <= id < t.len(),
    ensures
        forall|k: int| 0 <= k < ancestors_of(t, id).len() ==> (#[trigger] ancestors_of(t, id)[k]) < t.len(),
        forall|k: int| 0 < k < ancestors_of(t, id).len() ==> (#[trigger] ancestors_of(t, id)[k]) < id,
        ancestors_of(t, id).len() > 0,
        ancestors_of(t, id)[0] == id,
        t[id].parent is Some ==> ancestors_of(t, id).len() > 1,
    decreases id,
{
    match t[id].parent {
        Some(p) => {
            if (p as int) < id {
                lemma_ancestors_in_range(t, p as int);
                let a = ancestors_of(t, id);
                let b = ancestors_of(t, p as int);
                assert(a == seq![id as usize] + b);
                assert forall|k: int| 0 < k < a.len() implies (#[trigger] a[k]) < id by {
                    assert(a[k] == b[k - 1]);
                    if k > 1 {
                        assert(b[k - 1] < p);
                    }
                }
            }
        },
        None => {},
    }
}

/// A disposal reaches only widgets at or after `id` in the arena.
pub proof fn lemma_dispose_order_ge(t: Seq<NodeView>, id: int, keep: Seq<usize>)
    requires
        t.len() <= usize::MAX,
    ensures
        forall|k: int| 0 <= k < dispose_order(t, id, keep).len() ==> id <= #[trigger] dispose_order(t, id, keep)[k] < t.len(),
    decreases t.len() - id, 1int, 0int,
{
    if 0 <= id < t.len() {
        if !keep.contains(id as usize) {
            lemma_dispose_children_ge(t, id, t[id].children, keep);
        }
        let d = dispose_order(t, id, keep);
        let rest = if keep.contains(id as usize) { Seq::<usize>::empty() } else { dispose_children(t, id, t[id].children, keep) };
        assert(d == seq![id as usize] + rest);
        assert forall|k: int| 0 <= k < d.len() implies id <= #[trigger] d[k] < t.len() by {
            if k > 0 {
                assert(d[k] == rest[k - 1]);
                if keep.contains(id as usize) {
                    assert(rest.len() == 0);
                } else {
                    assert(id < rest[k - 1]);
                }
            } else {
                assert(d[0] == id as usize);
            }
        }
    }
}

proof fn lemma_dispose_children_ge(t: Seq<NodeView>, p: int, cs: Seq<usize>, keep: Seq<usize>)
    requires
        t.len() <= usize::MAX,
    ensures
        forall|k: int| 0 <= k < dispose_children(t, p, cs, keep).len() ==> p < #[trigger] dispose_children(t, p, cs, keep)[k] < t.len(),
    decreases t.len() - p, 0int, cs.len(),
{
    if cs.len() > 0 {
        lemma_dispose_children_ge(t, p, cs.drop_last(), keep);
        let a = dispose_children(t, p, cs.drop_last(), keep);
        let c = cs.last();
        let b = if p < c && c < t.len() { dispose_order(t, c as int, keep) } else { Seq::<usize>::empty() };
        if p < c && c < t.len() {
            lemma_dispose_order_ge(t, c as int, keep);
        }
        let d = dispose_children(t, p, cs, keep);
        assert(d == a + b);
        assert forall|k: int| 0 <= k < d.len() implies p < #[trigger] d[k] < t.len() by {
            if k < a.len() {
                assert(d[k] == a[k]);
            } else {
                assert(d[k] == b[k - a.len()]);
            }
        }
    }
}

/// Whether `ids` lists widget `w`.
pub fn lists_widget(ids: &Vec<WidgetId>, w: usize) -> (r: bool)
    ensures
        r == ids_of(ids@).contains(w),
{
    let ghost s = ids_of(ids@);
    let mut i: usize = 0;
    while i < ids.len()
        invariant
            i <= ids@.len(),
            s == ids_of(ids@),
            forall|j: int| 0 <= j < i ==> s[j] != w,
        decreases ids.len() - i,
    {
        if ids[i].0 == w {
            assert(s[i as int] == w);
            return true;
        }
        i = i + 1;
    }
    false
}

impl WidgetTree {
    /// Appends the disposal order of `id`'s subtree to `out`.
    fn push_dispose_order(&self, id: usize, keep: &Vec<WidgetId>, out: &mut Vec<WidgetId>)
        requires
            self.wf(),
            id < self.view().len(),
        ensures
            ids_of(final(out)@) == ids_of(old(out)@) + dispose_order(
                self.view(),
                id as int,
                ids_of(keep@),
            ),
        decreases self.view().len() - id,
    {
        let ghost t = self.view();
        let ghost kv = ids_of(keep@);
        let ghost start = ids_of(old(out)@);
        out.push(WidgetId(id));
        assert(ids_of(out@) =~= start.push(id));
        if lists_widget(keep, id) {
            assert(start.push(id) =~= start + dispose_order(t, id as int, kv));
            return;
        }
        let cs = &self.nodes[id].children;
        let ghost csv = cs@;
        assert(csv == t[id as int].children);
        let mut k: usize = 0;
        while k < cs.len()
            invariant
                self.wf(),
                t == self.view(),
                kv == ids_of(keep@),
                id < t.len(),
                csv == cs@,
                csv == t[id as int].children,
                k <= cs@.len(),
                ids_of(out@) == start.push(id) + dispose_children(t, id as int, csv.take(k as int), kv),
            decreases cs.len() - k,
        {
            let c = cs[k];
            proof {
                assert(csv.take(k + 1).drop_last() == csv.take(k as int));
                assert(t[id as int].children[k as int] == c);
            }
            self.push_dispose_order(c, keep, out);
            assert(ids_of(out@) =~= start.push(id) + dispose_children(t, id as int, csv.take(k + 1), kv));
            k = k + 1;
        }
        assert(csv.take(cs@.len() as int) =~= csv);
        assert(start.push(id) + dispose_children(t, id as int, csv, kv) =~= start + dispose_order(t, id as int, kv));
    }

    /// Disposes of `id`'s subtree: detaches `id`, then drops each widget the
    /// disposal reaches, except the widgets of `keep`, which preserved
    /// themselves: they are detached and stay alive with their subtrees.
    /// Returns the widgets that received a disposed event, in order.
    pub fn dispose_subtree(&mut self, id: WidgetId, keep: &Vec<WidgetId>) -> (r: Vec<WidgetId>)
        requires
            old(self).wf(),
            id.0 < old(self).view().len(),
            id.0 != old(self).root,
        ensures
            final(self).wf(),
            final(self).root == old(self).root,
            final(self).view().len() == old(self).view().len(),
            ids_of(r@) == dispose_order(old(self).view(), id.0 as int, ids_of(keep@)),
            forall|x: int| 0 <= x < final(self).view().len() ==> #[trigger] final(self).view()[x].dropped == (old(self).view()[x].dropped
                || (ids_of(r@).contains(x as usize) && !ids_of(keep@).contains(x as usize))),
            final(self).view()[id.0 as int].parent is None,
            forall|x: usize| #[trigger] ids_of(r@).contains(x) && ids_of(keep@).contains(x)
                ==> final(self).view()[x as int].parent is None,
            forall|x: usize| x < final(self).view().len() && #[trigger] ids_of(keep@).contains(x)
                ==> final(self).view()[x as int].dropped == old(self).view()[x as int].dropped,
    {
        let ghost t0 = self.view();
        let ghost kv = ids_of(keep@);
        let mut order: Vec<WidgetId> = Vec::new();
        self.push_dispose_order(id.0, keep, &mut order);
        let ghost ov = ids_of(order@);
        assert(ids_of(Seq::<WidgetId>::empty()) =~= Seq::<usize>::empty());
        assert(ov =~= dispose_order(t0, id.0 as int, kv));
        proof {
            lemma_dispose_order_ge(t0, id.0 as int, kv);
        }
        self.detach(id);
        let mut dropped: Vec<WidgetId> = Vec::new();
        let mut kept: Vec<WidgetId> = Vec::new();
        let mut i: usize = 0;
        while i < order.len()
            invariant
                i <= order@.len(),
                ov == ids_of(order@),
                ov == dispose_order(t0, id.0 as int, kv),
                kv == ids_of(keep@),
                forall|k: int| 0 <= k < ov.len() ==> id.0 <= #[trigger] ov[k] < t0.len(),
                forall|k: int| 0 <= k < dropped@.len() ==> ov.contains((#[trigger] dropped@[k]).0) && !kv.contains(dropped@[k].0),
                forall|k: int| 0 <= k < kept@.len() ==> ov.contains((#[trigger] kept@[k]).0) && kv.contains(kept@[k].0),
                forall|x: usize| #[trigger] ov.take(i as int).contains(x) ==> (kv.contains(x) ==> ids_of(kept@).contains(x))
                    && (!kv.contains(x) ==> listed(dropped@, x as int)),
            decreases order.len() - i,
        {
            let w = order[i];
            assert(ov[i as int] == w.0);
            let ghost kb = kept@;
            let ghost db = dropped@;
            if lists_widget(keep, w.0) {
                kept.push(w);
                proof {
                    assert(ids_of(kept@) =~= ids_of(kb).push(w.0));
                    assert forall|x: usize| #[trigger] ids_of(kb).contains(x) implies ids_of(kept@).contains(x) by {
                        let j = choose|j: int| 0 <= j < ids_of(kb).len() && ids_of(kb)[j] == x;
                        assert(ids_of(kept@)[j] == x);
                    }
                    assert(ids_of(kept@)[kb.len() as int] == w.0);
                }
            } else {
                dropped.push(w);
                proof {
                    assert forall|x: int| listed(db, x) implies listed(dropped@, x) by {
                        let j = choose|j: int| 0 <= j < db.len() && (#[trigger] db[j]).0 as int == x;
                        assert(dropped@[j] == db[j]);
                    }
                    assert(dropped@[db.len() as int] == w);
                }
            }
            proof {
                assert forall|x: usize| #[trigger] ov.take(i + 1).contains(x) implies (kv.contains(x) ==> ids_of(kept@).contains(x))
                    && (!kv.contains(x) ==> listed(dropped@, x as int)) by {
                    let s1 = ov.take(i + 1);
                    let j = choose|j: int| 0 <= j < s1.len() && s1[j] == x;
                    if j < i {
                        assert(ov.take(i as int).contains(x)) by {
                            assert(ov.take(i as int)[j] == x);
                        }
                    }
                }
                assert forall|k: int| 0 <= k < dropped@.len() implies ov.contains((#[trigger] dropped@[k]).0) && !kv.contains(dropped@[k].0) by {
                    if k == dropped@.len() - 1 && dropped@.len() > db.len() {
                        assert(ov[i as int] == dropped@[k].0);
                    } else {
                        assert(dropped@[k] == db[k]);
                    }
                }
                assert forall|k: int| 0 <= k < kept@.len() implies ov.contains((#[trigger] kept@[k]).0) && kv.contains(kept@[k].0) by {
                    if k == kept@.len() - 1 && kept@.len() > kb.len() {
                        assert(ov[i as int] == kept@[k].0);
                    } else {
                        assert(kept@[k] == kb[k]);
                    }
                }
            }
            i = i + 1;
        }
        assert(ov.take(ov.len() as int) =~= ov);
        let ghost t1 = self.view();
        proof {
            assert forall|k: int| 0 <= k < dropped@.len() implies (#[trigger] dropped@[k]).0 < t1.len() && dropped@[k].0 != self.root by {
                let j = choose|j: int| 0 <= j < ov.len() && ov[j] == dropped@[k].0;
                assert(id.0 <= ov[j]);
            }
        }
        self.set_dropped(&dropped);
        let ghost t2 = self.view();
        let mut j: usize = 0;
        while j < kept.len()
            invariant
                self.wf(),
                self.root == old(self).root,
                self.view().len() == t0.len(),
                j <= kept@.len(),
                forall|k: int| 0 <= k < kept@.len() ==> ov.contains((#[trigger] kept@[k]).0),
                forall|k: int| 0 <= k < ov.len() ==> id.0 <= #[trigger] ov[k] < t0.len(),
                forall|x: int| 0 <= x < self.view().len() ==> #[trigger] self.view()[x].dropped == t2[x].dropped,
                forall|k: int| 0 <= k < j ==> self.view()[(#[trigger] kept@[k]).0 as int].parent is None,
                self.view()[id.0 as int].parent is None,
            decreases kept.len() - j,
        {
            let w = kept[j];
            proof {
                let l = choose|l: int| 0 <= l < ov.len() && ov[l] == kept@[j as int].0;
                assert(id.0 <= ov[l]);
            }
            let ghost before = self.view();
            self.detach(w);
            proof {
                assert forall|k: int| 0 <= k < j + 1 implies self.view()[(#[trigger] kept@[k]).0 as int].parent is None by {
                    let x = kept@[k].0 as int;
                    match before[w.0 as int].parent {
                        Some(p) => {
                            if x != w.0 {
                                if x == p {
                                    assert(before[x].parent is None);
                                }
                            }
                        },
                        None => {},
                    }
                }
                match before[w.0 as int].parent {
                    Some(p) => {
                        if id.0 as int == p {
                            assert(before[id.0 as int].parent is None);
                        }
                    },
                    None => {},
                }
            }
            j = j + 1;
        }
        proof {
            assert forall|x: int| 0 <= x < self.view().len() implies #[trigger] self.view()[x].dropped == (t0[x].dropped
                || (ov.contains(x as usize) && !kv.contains(x as usize))) by {
                assert(t1[x].dropped == t0[x].dropped);
                if ov.contains(x as usize) && !kv.contains(x as usize) {
                    assert(ov.take(ov.len() as int).contains(x as usize));
                    assert(listed(dropped@, x));
                } else if listed(dropped@, x) {
                    let k = choose|k: int| 0 <= k < dropped@.len() && (#[trigger] dropped@[k]).0 as int == x;
                    assert(ov.contains(dropped@[k].0) && !kv.contains(dropped@[k].0));
                }
            }
            assert forall|x: usize| #[trigger] ov.contains(x) && kv.contains(x) implies self.view()[x as int].parent is None by {
                assert(ov.take(ov.len() as int).contains(x));
                let k = choose|k: int| 0 <= k < ids_of(kept@).len() && ids_of(kept@)[k] == x;
                assert(kept@[k].0 == x);
            }
        }
        order
    }
}

impl WidgetTree {
    /// Appends the layout order of `id`'s subtree to `out`.
    fn push_layout_order(&self, id: usize, out: &mut Vec<WidgetId>)
        requires
            self.wf(),
            id < self.view().len(),
        ensures
            ids_of(final(out)@) == ids_of(old(out)@) + layout_order(self.view(), id as int),
        decreases self.view().len() - id,
    {
        let ghost t = self.view();
        let ghost start = ids_of(old(out)@);
        if self.nodes[id].laid_out {
            assert(start =~= start + layout_order(t, id as int));
            return;
        }
        let cs = &self.nodes[id].children;
        let ghost csv = cs@;
        assert(csv == t[id as int].children);
        let mut k: usize = 0;
        assert(ids_of(out@) =~= start + layout_children(t, id as int, csv.take(0)));
        while k < cs.len()
            invariant
                self.wf(),
                t == self.view(),
                id < t.len(),
                csv == cs@,
                csv == t[id as int].children,
                k <= cs@.len(),
                ids_of(out@) == start + layout_children(t, id as int, csv.take(k as int)),
            decreases cs.len() - k,
        {
            let c = cs[k];
            proof {
                assert(csv.take(k + 1).drop_last() == csv.take(k as int));
                assert(t[id as int].children[k as int] == c);
            }
            self.push_layout_order(c, out);
            assert(ids_of(out@) =~= start + layout_children(t, id as int, csv.take(k + 1)));
            k = k + 1;
        }
        assert(csv.take(cs@.len() as int) =~= csv);
        let ghost mid = ids_of(out@);
        out.push(WidgetId(id));
        assert(ids_of(out@) =~= mid.push(id));
        assert(ids_of(out@) =~= start + layout_order(t, id as int));
    }

    /// Lays out `id`'s subtree: every widget that needs layout is laid out,
    /// children before their parent. Returns them in that order.
    pub fn perform_layout(&mut self, id: WidgetId) -> (r: Vec<WidgetId>)
        requires
            old(self).wf(),
            id.0 < old(self).view().len(),
        ensures
            final(self).wf(),
            final(self).root == old(self).root,
            final(self).view().len() == old(self).view().len(),
            ids_of(r@) == layout_order(old(self).view(), id.0 as int),
            forall|i: int| 0 <= i < final(self).view().len() ==> #[trigger] final(self).view()[i] == (NodeView {
                laid_out: if listed(r@, i) { true } else { old(self).view()[i].laid_out },
                ..old(self).view()[i]
            }),
    {
        let mut out: Vec<WidgetId> = Vec::new();
        self.push_layout_order(id.0, &mut out);
        assert(ids_of(Seq::<WidgetId>::empty()) =~= Seq::<usize>::empty());
        assert(ids_of(out@) =~= layout_order(self.view(), id.0 as int));
        proof {
            lemma_layout_order_in(self.view(), id.0 as int);
            assert forall|k: int| 0 <= k < out@.len() implies (#[trigger] out@[k]).0 < self.view().len() by {
                assert(ids_of(out@)[k] == out@[k].0);
            }
        }
        self.set_laid_out(&out, true);
        out
    }
}

/// The layout order of a subtree lists widgets of the arena.
pub proof fn lemma_layout_order_in(t: Seq<NodeView>, id: int)
    ensures
        forall|k: int| 0 <= k < layout_order(t, id).len() ==> 0 <= #[trigger] layout_order(t, id)[k] < t.len(),
    decreases t.len() - id, 1int, 0int,
{
    if 0 <= id < t.len() && !t[id].laid_out {
        lemma_layout_children_in(t, id, t[id].children);
        let a = layout_children(t, id, t[id].children);
        let d = layout_order(t, id);
        assert(d == a + seq![id as usize]);
        assert forall|k: int| 0 <= k < d.len() implies 0 <= #[trigger] d[k] < t.len() by {
            if k < a.len() {
                assert(d[k] == a[k]);
            } else {
                assert(d[k] == id as usize);
            }
        }
    }
}

proof fn lemma_layout_children_in(t: Seq<NodeView>, p: int, cs: Seq<usize>)
    ensures
        forall|k: int| 0 <= k < layout_children(t, p, cs).len() ==> 0 <= #[trigger] layout_children(t, p, cs)[k] < t.len(),
    decreases t.len() - p, 0int, cs.len(),
{
    if cs.len() > 0 {
        lemma_layout_children_in(t, p, cs.drop_last());
        let a = layout_children(t, p, cs.drop_last());
        let c = cs.last();
        let b = if p < c && c < t.len() { layout_order(t, c as int) } else { Seq::<usize>::empty() };
        if p < c && c < t.len() {
            lemma_layout_order_in(t, c as int);
        }
        let d = layout_children(t, p, cs);
        assert(d == a + b);
        assert forall|k: int| 0 <= k < d.len() implies 0 <= #[trigger] d[k] < t.len() by {
            if k < a.len() {
                assert(d[k] == a[k]);
            } else {
                assert(d[k] == b[k - a.len()]);
            }
        }
    }
}

/// Removing from a list a widget it does not hold leaves the list as it is.
proof fn lemma_without_absent(s: Seq<usize>, v: usize)
    requires
        !s.contains(v),
    ensures
        without(s, v) == s,
    decreases s.len(),
{
    if s.len() > 0 {
        assert(!s.drop_last().contains(v)) by {
            if s.drop_last().contains(v) {
                let j = choose|j: int| 0 <= j < s.drop_last().len() && s.drop_last()[j] == v;
                assert(s[j] == v);
            }
        }
        lemma_without_absent(s.drop_last(), v);
        assert(s.last() != v) by {
            assert(s[s.len() - 1] == s.last());
        }
        assert(s.drop_last().push(s.last()) =~= s);
    }
}

/// Detaching a widget undoes appending it: appending a parentless widget
/// and detaching it again gives back the tree.
pub proof fn law_detach_undoes_append(t: Seq<NodeView>, p: usize, c: usize)
    requires
        links_ok(t),
        p < c < t.len(),
        t[c as int].parent is None,
    ensures
        tree_detached(tree_appended(t, p, c), c) == t,
{
    let a = tree_appended(t, p, c);
    assert(a[c as int].parent == Some(p));
    let cs = t[p as int].children;
    assert(!cs.contains(c)) by {
        if cs.contains(c) {
            let k = choose|k: int| 0 <= k < cs.len() && cs[k] == c;
            assert(t[p as int].children[k] == c);
        }
    }
    assert(cs.push(c).drop_last() =~= cs);
    assert(cs.push(c).last() == c);
    lemma_without_absent(cs, c);
    assert(without(cs.push(c), c) == cs);
    let d = tree_detached(a, c);
    assert(d =~= t);
}

} // verus!
