//! Which widgets to lay out again after some widgets changed. A changed
//! widget that was laid out loses its layout, and so do its nearest
//! ancestors up to the first one whose size its parent alone decides; the
//! farthest of them is laid out again. The widgets to lay out again come
//! deepest first.
use vstd::prelude::*;
use crate::widget_tree::{ancestors_of, ids_of, lemma_ancestors_in_range, listed, NodeView, WidgetId, WidgetTree};

verus! {

/// How many leading widgets of `s` do not have their size decided by their
/// parent alone.
pub open spec fn unsized_count(t: Seq<NodeView>, s: Seq<usize>) -> nat
    decreases s.len(),
{
    if s.len() == 0 || t[s[0] as int].attrs.sized_by_parent {
        0
    } else {
        1 + unsized_count(t, s.drop_first())
    }
}

/// The ancestors of `id` whose layout goes with its own: the nearest ones,
/// up to (and without) the first one sized by its parent alone.
pub open spec fn relayout_ancestors(t: Seq<NodeView>, id: int) -> Seq<usize> {
    let up = ancestors_of(t, id).drop_first();
    up.take(unsized_count(t, up) as int)
}

/// The widgets whose layout is forgotten when `id` changed: none if it has
/// no layout, else `id` and its relayout ancestors.
pub open spec fn forgotten_layouts(t: Seq<NodeView>, id: int) -> Seq<usize> {
    if t[id].laid_out {
        seq![id as usize] + relayout_ancestors(t, id)
    } else {
        Seq::empty()
    }
}

/// The widget to lay out again when `id` changed: the farthest widget whose
/// layout is forgotten, or `id` itself.
pub open spec fn relayout_root(t: Seq<NodeView>, id: int) -> usize {
    if t[id].laid_out && relayout_ancestors(t, id).len() > 0 {
        relayout_ancestors(t, id).last()
    } else {
        id as usize
    }
}

/// `t` with the layouts of the widgets of `s` forgotten.
pub open spec fn forget(t: Seq<NodeView>, s: Seq<usize>) -> Seq<NodeView> {
    Seq::new(t.len(), |i: int| NodeView { laid_out: if s.contains(i as usize) { false } else { t[i].laid_out }, ..t[i] })
}

/// The widget arena and the widgets to lay out again after the widgets of
/// `changed` changed, taken in order; widgets no longer in the tree are
/// passed over.
pub open spec fn layout_pass(t: Seq<NodeView>, changed: Seq<usize>) -> (Seq<NodeView>, Seq<usize>)
    decreases changed.len(),
{
    if changed.len() == 0 {
        (t, Seq::empty())
    } else {
        let (t1, roots) = layout_pass(t, changed.drop_last());
        let id = changed.last() as int;
        if id >= t1.len() || t1[id].dropped {
            (t1, roots)
        } else {
            (forget(t1, forgotten_layouts(t1, id)), roots.push(relayout_root(t1, id)))
        }
    }
}

/// The depth of `w`: the number of widgets on its ancestor path, itself
/// included.
pub open spec fn depth(t: Seq<NodeView>, w: usize) -> nat {
    ancestors_of(t, w as int).len()
}

/// `x` inserted into `s` after every widget at least as deep.
pub open spec fn insert_deeper_first(t: Seq<NodeView>, s: Seq<usize>, x: usize) -> Seq<usize>
    decreases s.len(),
{
    if s.len() == 0 {
        seq![x]
    } else if depth(t, s.last()) >= depth(t, x) {
        s.push(x)
    } else {
        insert_deeper_first(t, s.drop_last(), x).push(s.last())
    }
}

/// `s` stably sorted deepest first: widgets of equal depth keep their order.
pub open spec fn deeper_first(t: Seq<NodeView>, s: Seq<usize>) -> Seq<usize>
    decreases s.len(),
{
    if s.len() == 0 {
        Seq::empty()
    } else {
        insert_deeper_first(t, deeper_first(t, s.drop_last()), s.last())
    }
}

/// `s` comes deepest first.
pub open spec fn deepest_first(t: Seq<NodeView>, s: Seq<usize>) -> bool {
    forall|i: int, j: int| 0 <= i < j < s.len() ==> depth(t, #[trigger] s[i]) >= depth(t, #[trigger] s[j])
}

proof fn lemma_unsized_count_is(t: Seq<NodeView>, s: Seq<usize>, k: int)
    requires
        0 <= k <= s.len(),
        forall|j: int| 0 <= j < k ==> !t[#[trigger] s[j] as int].attrs.sized_by_parent,
        k == s.len() || t[s[k] as int].attrs.sized_by_parent,
    ensures
        unsized_count(t, s) == k,
    decreases s.len(),
{
    if s.len() > 0 && k > 0 {
        assert forall|j: int| 0 <= j < k - 1 implies !t[#[trigger] s.drop_first()[j] as int].attrs.sized_by_parent by {
            assert(s.drop_first()[j] == s[j + 1]);
        }
        lemma_unsized_count_is(t, s.drop_first(), k - 1);
    }
}

proof fn lemma_listed_ids(w: Seq<WidgetId>, i: int)
    requires
        0 <= i <= usize::MAX,
    ensures
        listed(w, i) == ids_of(w).contains(i as usize),
{
    if listed(w, i) {
        let j = choose|j: int| 0 <= j < w.len() && (#[trigger] w[j]).0 as int == i;
        assert(ids_of(w)[j] == i as usize);
    }
    if ids_of(w).contains(i as usize) {
        let j = choose|j: int| 0 <= j < ids_of(w).len() && ids_of(w)[j] == i as usize;
        assert(w[j].0 as int == i);
    }
}

proof fn lemma_insert_deeper_first_at(t: Seq<NodeView>, s: Seq<usize>, x: usize, j: int)
    requires
        0 <= j <= s.len(),
        forall|k: int| j <= k < s.len() ==> depth(t, #[trigger] s[k]) < depth(t, x),
        j == 0 || depth(t, s[j - 1]) >= depth(t, x),
    ensures
        insert_deeper_first(t, s, x) == s.take(j).push(x) + s.skip(j),
    decreases s.len(),
{
    if s.len() == j {
        if j == 0 {
            assert(s.take(0).push(x) + s.skip(0) =~= seq![x]);
        } else {
            assert(s.take(j).push(x) + s.skip(j) =~= s.push(x));
        }
    } else {
        lemma_insert_deeper_first_at(t, s.drop_last(), x, j);
        assert(s.drop_last().take(j).push(x) + s.drop_last().skip(j) + seq![s.last()] =~= s.take(j).push(x) + s.skip(j));
    }
}

proof fn lemma_insert_keeps_order(t: Seq<NodeView>, s: Seq<usize>, x: usize)
    requires
        deepest_first(t, s),
    ensures
        deepest_first(t, insert_deeper_first(t, s, x)),
        insert_deeper_first(t, s, x).len() == s.len() + 1,
        forall|k: int| 0 <= k < s.len() + 1 ==> (#[trigger] insert_deeper_first(t, s, x)[k] == x
            || s.contains(insert_deeper_first(t, s, x)[k])),
    decreases s.len(),
{
    let r = insert_deeper_first(t, s, x);
    if s.len() == 0 {
    } else if depth(t, s.last()) >= depth(t, x) {
        assert forall|k: int| 0 <= k < s.len() + 1 implies (#[trigger] r[k] == x || s.contains(r[k])) by {
            if k < s.len() {
                assert(r[k] == s[k]);
            }
        }
    } else {
        let d = s.drop_last();
        assert(deepest_first(t, d)) by {
            assert forall|i: int, j: int| 0 <= i < j < d.len() implies depth(t, #[trigger] d[i]) >= depth(t, #[trigger] d[j]) by {
                assert(d[i] == s[i] && d[j] == s[j]);
            }
        }
        lemma_insert_keeps_order(t, d, x);
        let m = insert_deeper_first(t, d, x);
        assert(r == m.push(s.last()));
        assert forall|k: int| 0 <= k < s.len() + 1 implies (#[trigger] r[k] == x || s.contains(r[k])) by {
            if k < m.len() {
                assert(r[k] == m[k]);
                if m[k] != x {
                    let a = choose|a: int| 0 <= a < d.len() && d[a] == m[k];
                    assert(s[a] == m[k]);
                }
            } else {
                assert(r[k] == s[s.len() - 1]);
            }
        }
        assert forall|i: int, j: int| 0 <= i < j < r.len() implies depth(t, #[trigger] r[i]) >= depth(t, #[trigger] r[j]) by {
            if j == r.len() - 1 {
                assert(r[j] == s.last());
                assert(r[i] == m[i]);
                if m[i] == x {
                } else {
                    let a = choose|a: int| 0 <= a < d.len() && d[a] == m[i];
                    assert(s[a] == m[i]);
                    assert(depth(t, s[a]) >= depth(t, s[s.len() - 1]));
                }
            } else {
                assert(r[i] == m[i] && r[j] == m[j]);
            }
        }
    }
}

/// A stable deepest-first sort comes deepest first.
pub proof fn lemma_deeper_first_sorted(t: Seq<NodeView>, s: Seq<usize>)
    ensures
        deepest_first(t, deeper_first(t, s)),
        deeper_first(t, s).len() == s.len(),
    decreases s.len(),
{
    if s.len() > 0 {
        lemma_deeper_first_sorted(t, s.drop_last());
        lemma_insert_keeps_order(t, deeper_first(t, s.drop_last()), s.last());
    }
}

/// Finding the widgets to lay out again forgets layouts and changes
/// nothing else of the tree: no widget gains a layout, and every widget
/// keeps its parent, children, flags and attributes.
pub proof fn law_layout_pass_only_forgets(t: Seq<NodeView>, changed: Seq<usize>)
    ensures
        layout_pass(t, changed).0.len() == t.len(),
        forall|i: int| 0 <= i < t.len() ==> (#[trigger] layout_pass(t, changed).0[i]) == (NodeView {
            laid_out: layout_pass(t, changed).0[i].laid_out,
            ..t[i]
        }),
        forall|i: int| 0 <= i < t.len() && (#[trigger] layout_pass(t, changed).0[i]).laid_out ==> t[i].laid_out,
    decreases changed.len(),
{
    if changed.len() > 0 {
        law_layout_pass_only_forgets(t, changed.drop_last());
        let (t1, roots) = layout_pass(t, changed.drop_last());
        let id = changed.last() as int;
        if !(id >= t1.len() || t1[id].dropped) {
            let t2 = forget(t1, forgotten_layouts(t1, id));
            assert(layout_pass(t, changed).0 == t2);
            assert forall|i: int| 0 <= i < t.len() implies (#[trigger] t2[i]) == (NodeView { laid_out: t2[i].laid_out, ..t[i] }) by {
                assert(t1[i] == (NodeView { laid_out: t1[i].laid_out, ..t[i] }));
            }
        }
    }
}

impl WidgetTree {
    /// Forgets the layout that goes with a change of `id` (a widget of the
    /// tree) and returns the widget to lay out again.
    fn forget_changed(&mut self, id: WidgetId) -> (r: WidgetId)
        requires
            old(self).wf(),
            id.0 < old(self).view().len(),
        ensures
            final(self).wf(),
            final(self).root == old(self).root,
            final(self).view() == forget(old(self).view(), forgotten_layouts(old(self).view(), id.0 as int)),
            r.0 == relayout_root(old(self).view(), id.0 as int),
            r.0 < old(self).view().len(),
    {
        let ghost t = self.view();
        if !self.nodes[id.0].laid_out {
            assert(self.view() =~= forget(t, forgotten_layouts(t, id.0 as int)));
            return id;
        }
        let anc = self.ancestors(id);
        proof {
            lemma_ancestors_in_range(t, id.0 as int);
        }
        let ghost up = ancestors_of(t, id.0 as int).drop_first();
        assert forall|k: int| 0 <= k < anc@.len() implies (#[trigger] anc@[k]).0 < t.len() by {
            assert(ids_of(anc@)[k] == anc@[k].0);
        }
        let mut gone: Vec<WidgetId> = Vec::new();
        gone.push(id);
        let mut root = id;
        let mut j: usize = 1;
        while j < anc.len() && !self.nodes[anc[j].0].attrs.sized_by_parent
            invariant
                self.wf(),
                t == self.view(),
                ids_of(anc@) == ancestors_of(t, id.0 as int),
                forall|k: int| 0 <= k < anc@.len() ==> (#[trigger] anc@[k]).0 < t.len(),
                up == ancestors_of(t, id.0 as int).drop_first(),
                forall|k: int| 0 <= k < ancestors_of(t, id.0 as int).len() ==> (#[trigger] ancestors_of(t, id.0 as int)[k]) < t.len(),
                1 <= j <= anc@.len(),
                forall|k: int| 0 <= k < j - 1 ==> !t[#[trigger] up[k] as int].attrs.sized_by_parent,
                ids_of(gone@) == seq![id.0] + up.take(j - 1),
                root.0 == (if j == 1 { id.0 } else { up[j - 2] }),
                root.0 < t.len(),
            decreases anc.len() - j,
        {
            assert(ids_of(anc@)[j as int] == anc@[j as int].0);
            assert(up[j - 1] == anc@[j as int].0);
            let ghost before = gone@;
            gone.push(anc[j]);
            root = anc[j];
            assert(ids_of(gone@) =~= ids_of(before).push(anc@[j as int].0));
            assert(up.take(j as int) =~= up.take(j - 1).push(up[j - 1]));
            assert(ids_of(gone@) =~= seq![id.0] + up.take(j as int));
            j = j + 1;
        }
        proof {
            if j < anc@.len() {
                assert(ids_of(anc@)[j as int] == anc@[j as int].0);
                assert(up[j - 1] == anc@[j as int].0);
            }
            lemma_unsized_count_is(t, up, j - 1);
            assert(relayout_ancestors(t, id.0 as int) == up.take(j - 1));
            assert forall|k: int| 0 <= k < gone@.len() implies (#[trigger] gone@[k]).0 < t.len() by {
                assert(ids_of(gone@)[k] == gone@[k].0);
                if k > 0 {
                    assert(up[k - 1] == ancestors_of(t, id.0 as int)[k]);
                }
            }
        }
        self.set_laid_out(&gone, false);
        proof {
            let f = forgotten_layouts(t, id.0 as int);
            assert(f == ids_of(gone@));
            assert forall|i: int| 0 <= i < t.len() implies #[trigger] self.view()[i] == forget(t, f)[i] by {
                lemma_listed_ids(gone@, i);
            }
            assert(self.view() =~= forget(t, f));
        }
        root
    }

    /// The widgets to lay out again after the widgets of `changed` changed,
    /// taken in the order given: `None` when nothing changed. Each changed
    /// widget still in the tree loses its layout, with its nearest
    /// ancestors up to the first one sized by its parent alone, and the
    /// farthest of them is laid out again. The widgets come deepest first;
    /// those of equal depth keep their order.
    pub fn layout_list(&mut self, changed: &Vec<WidgetId>) -> (r: Option<Vec<WidgetId>>)
        requires
            old(self).wf(),
        ensures
            final(self).wf(),
            final(self).root == old(self).root,
            changed@.len() == 0 ==> r is None && final(self).view() == old(self).view(),
            changed@.len() > 0 ==> {
                let (t1, roots) = layout_pass(old(self).view(), ids_of(changed@));
                &&& final(self).view() == t1
                &&& r matches Some(v) && ids_of(v@) == deeper_first(t1, roots) && deepest_first(t1, ids_of(v@))
            },
    {
        if changed.len() == 0 {
            return None;
        }
        let ghost t0 = self.view();
        let ghost cs = ids_of(changed@);
        let mut roots: Vec<WidgetId> = Vec::new();
        let mut k: usize = 0;
        while k < changed.len()
            invariant
                self.wf(),
                self.root == old(self).root,
                t0 == old(self).view(),
                cs == ids_of(changed@),
                k <= changed@.len(),
                (self.view(), ids_of(roots@)) == layout_pass(t0, cs.take(k as int)),
                forall|j: int| 0 <= j < roots@.len() ==> (#[trigger] roots@[j]).0 < self.view().len(),
            decreases changed.len() - k,
        {
            let id = changed[k];
            proof {
                assert(cs.take(k + 1).drop_last() =~= cs.take(k as int));
                assert(cs.take(k + 1).last() == id.0);
            }
            if !self.is_dropped(id) {
                let ghost rv = roots@;
                let w = self.forget_changed(id);
                roots.push(w);
                assert(ids_of(roots@) =~= ids_of(rv).push(w.0));
            }
            k = k + 1;
        }
        assert(cs.take(changed@.len() as int) =~= cs);
        let ghost t = self.view();
        let ghost rs = ids_of(roots@);
        let mut out: Vec<WidgetId> = Vec::new();
        let mut depths: Vec<usize> = Vec::new();
        let mut n: usize = 0;
        while n < roots.len()
            invariant
                self.wf(),
                t == self.view(),
                rs == ids_of(roots@),
                forall|j: int| 0 <= j < roots@.len() ==> (#[trigger] roots@[j]).0 < t.len(),
                n <= roots@.len(),
                ids_of(out@) == deeper_first(t, rs.take(n as int)),
                depths@.len() == out@.len(),
                forall|j: int| 0 <= j < out@.len() ==> #[trigger] depths@[j] == depth(t, out@[j].0),
            decreases roots.len() - n,
        {
            let w = roots[n];
            let d = self.ancestors(w).len();
            let mut j: usize = out.len();
            while j > 0 && depths[j - 1] < d
                invariant
                    j <= out@.len(),
                    depths@.len() == out@.len(),
                    forall|m: int| j <= m < out@.len() ==> #[trigger] depths@[m] < d,
                decreases j,
            {
                j = j - 1;
            }
            let ghost s = ids_of(out@);
            proof {
                assert forall|m: int| j <= m < s.len() implies depth(t, #[trigger] s[m]) < depth(t, w.0) by {
                    assert(depths@[m] == depth(t, out@[m].0));
                }
                if j > 0 {
                    assert(depths@[j - 1] == depth(t, out@[j - 1].0));
                }
                lemma_insert_deeper_first_at(t, s, w.0, j as int);
                assert(rs.take(n + 1).drop_last() =~= rs.take(n as int));
                assert(rs.take(n + 1).last() == w.0);
            }
            let ghost od = depths@;
            let ghost oo = out@;
            out.insert(j, w);
            depths.insert(j, d);
            assert(ids_of(out@) =~= s.take(j as int).push(w.0) + s.skip(j as int));
            assert forall|m: int| 0 <= m < out@.len() implies #[trigger] depths@[m] == depth(t, out@[m].0) by {
                if m < j {
                    assert(depths@[m] == od[m] && out@[m] == oo[m]);
                } else if m > j {
                    assert(depths@[m] == od[m - 1] && out@[m] == oo[m - 1]);
                }
            }
            n = n + 1;
        }
        assert(rs.take(roots@.len() as int) =~= rs);
        proof {
            lemma_deeper_first_sorted(t, rs);
        }
        Some(out)
    }
}

} // verus!
