//! The focus manager of a window: which widgets take focus, in which order
//! keyboard navigation visits them, and which widget has focus.
use vstd::prelude::*;

use indextree::Arena;
use std::collections::HashMap;

use crate::focus_arena::{
    appended, arena_append, arena_children, arena_info, arena_insert_after, arena_insert_before,
    arena_new, arena_new_node, arena_parent, arena_remove, arena_set_info, detached, focus_arena,
    on_chain, placed_beside, removed, seq_insert_after, seq_insert_before, seq_splice, FocusNodeInfo,
    FocusSlot,
};
use crate::events::FocusReason;
use crate::widget_tree::{
    ancestors_of, first_common, lemma_ancestors_in_range, links_ok, without, FocusScope, NodeView, WidgetId, WidgetTree,
};
use crate::window::DelayEvent;

verus! {

broadcast use vstd::std_specs::hash::group_hash_axioms;

/// Whether a widget registers a focus node or a focus scope.
#[derive(Debug, Clone, Copy, PartialEq, Eq, Structural)]
pub enum FocusType {
    Scope,
    Node,
}

/// The order of a node in the focus arena: its widget's index plus one, and
/// zero for the arena's root. A parent always ranks below its children.
pub open spec fn rank(s: FocusSlot) -> int {
    match s.info.wid {
        Some(w) => w.0 + 1,
        None => 0,
    }
}

/// The widget index of a node (zero for the root).
pub open spec fn wid_of(s: FocusSlot) -> usize {
    match s.info.wid {
        Some(w) => w.0,
        None => 0,
    }
}

/// The focus arena is a tree under `root`: parents and children agree,
/// every node below the root belongs to a widget, and ranks grow downwards.
pub open spec fn arena_ok(m: Map<usize, FocusSlot>, root: usize) -> bool {
    &&& m.dom().finite()
    &&& m.dom().contains(root)
    &&& m[root].parent is None
    &&& m[root].info.wid is None
    &&& forall|k: usize| #[trigger] m.dom().contains(k) ==> k >= 1
    &&& forall|k: usize| #[trigger] m.dom().contains(k) && k != root ==> {
        &&& m[k].info.wid is Some
        &&& m[k].parent is Some
        &&& m.dom().contains(m[k].parent->0)
        &&& rank(m[m[k].parent->0]) < rank(m[k])
        &&& m[m[k].parent->0].children.contains(k)
    }
    &&& forall|k: usize, j: int| #![trigger m[k].children[j]] m.dom().contains(k) && 0 <= j < m[k].children.len() ==> {
        &&& m.dom().contains(m[k].children[j])
        &&& m[m[k].children[j]].parent == Some(k)
    }
    &&& forall|k: usize| #[trigger] m.dom().contains(k) ==> m[k].children.no_duplicates()
}

/// `ids` maps each widget with a focus node to that node, both ways, and no
/// node below the root is empty.
pub open spec fn index_ok(ids: Map<usize, usize>, m: Map<usize, FocusSlot>, root: usize) -> bool {
    &&& forall|w: usize| #[trigger] ids.contains_key(w) ==> {
        &&& m.dom().contains(ids[w])
        &&& ids[w] != root
        &&& m[ids[w]].info.wid == Some(WidgetId(w))
    }
    &&& forall|k: usize| #[trigger] m.dom().contains(k) && k != root ==> {
        &&& ids.contains_key(wid_of(m[k]))
        &&& ids[wid_of(m[k])] == k
        &&& (m[k].info.node_cnt > 0 || m[k].info.scope_cnt > 0)
    }
}

proof fn lemma_seq_insert_before(cs: Seq<usize>, s: usize, n: usize)
    ensures
        forall|x: usize| #[trigger] seq_insert_before(cs, s, n).contains(x) <==> (cs.contains(x) || (x == n && cs.contains(s))),
        cs.no_duplicates() && !cs.contains(n) ==> seq_insert_before(cs, s, n).no_duplicates(),
    decreases cs.len(),
{
    if cs.len() > 0 {
        let r = seq_insert_before(cs, s, n);
        let t = cs.drop_first();
        lemma_seq_insert_before(t, s, n);
        assert(cs == seq![cs[0]] + t);
        lemma_seq_contains_cons(cs[0], t);
        if cs[0] == s {
            assert(r == seq![n] + cs);
            assert(cs.contains(s));
            lemma_seq_contains_cons(n, cs);
            assert forall|x: usize| r.contains(x) <==> (cs.contains(x) || (x == n && cs.contains(s))) by {
                assert((seq![n] + cs).contains(x) <==> (x == n || cs.contains(x)));
            }
            if cs.no_duplicates() && !cs.contains(n) {
                lemma_no_dup_cons(n, cs);
            }
        } else {
            let rt = seq_insert_before(t, s, n);
            assert(r == seq![cs[0]] + rt);
            lemma_seq_contains_cons(cs[0], rt);
            assert forall|x: usize| r.contains(x) <==> (cs.contains(x) || (x == n && cs.contains(s))) by {
                assert((seq![cs[0]] + rt).contains(x) <==> (x == cs[0] || rt.contains(x)));
                assert(rt.contains(x) <==> (t.contains(x) || (x == n && t.contains(s))));
                assert((seq![cs[0]] + t).contains(x) <==> (x == cs[0] || t.contains(x)));
                assert((seq![cs[0]] + t).contains(s) <==> (s == cs[0] || t.contains(s)));
            }
            if cs.no_duplicates() && !cs.contains(n) {
                assert(t.no_duplicates());
                assert(!t.contains(n));
                assert(!rt.contains(cs[0])) by {
                    assert(!t.contains(cs[0]));
                    assert(cs[0] != n);
                }
                lemma_no_dup_cons(cs[0], rt);
            }
        }
    }
}

proof fn lemma_seq_insert_after(cs: Seq<usize>, s: usize, n: usize)
    ensures
        forall|x: usize| #[trigger] seq_insert_after(cs, s, n).contains(x) <==> (cs.contains(x) || (x == n && cs.contains(s))),
        cs.no_duplicates() && !cs.contains(n) ==> seq_insert_after(cs, s, n).no_duplicates(),
    decreases cs.len(),
{
    if cs.len() > 0 {
        let t = cs.drop_first();
        lemma_seq_insert_after(t, s, n);
        assert(cs == seq![cs[0]] + t);
        lemma_seq_contains_cons(cs[0], t);
        let r = seq_insert_after(cs, s, n);
        if cs[0] == s {
            assert(r == seq![s] + (seq![n] + t));
            assert(cs.contains(s));
            lemma_seq_contains_cons(n, t);
            lemma_seq_contains_cons(s, seq![n] + t);
            assert forall|x: usize| r.contains(x) <==> (cs.contains(x) || (x == n && cs.contains(s))) by {
                assert((seq![s] + (seq![n] + t)).contains(x) <==> (x == s || (seq![n] + t).contains(x)));
                assert((seq![n] + t).contains(x) <==> (x == n || t.contains(x)));
                assert((seq![cs[0]] + t).contains(x) <==> (x == cs[0] || t.contains(x)));
            }
            if cs.no_duplicates() && !cs.contains(n) {
                lemma_no_dup_cons(n, t);
                lemma_no_dup_cons(s, seq![n] + t);
            }
        } else {
            let rt = seq_insert_after(t, s, n);
            assert(r == seq![cs[0]] + rt);
            lemma_seq_contains_cons(cs[0], rt);
            assert forall|x: usize| r.contains(x) <==> (cs.contains(x) || (x == n && cs.contains(s))) by {
                assert((seq![cs[0]] + rt).contains(x) <==> (x == cs[0] || rt.contains(x)));
                assert(rt.contains(x) <==> (t.contains(x) || (x == n && t.contains(s))));
                assert((seq![cs[0]] + t).contains(x) <==> (x == cs[0] || t.contains(x)));
                assert((seq![cs[0]] + t).contains(s) <==> (s == cs[0] || t.contains(s)));
            }
            if cs.no_duplicates() && !cs.contains(n) {
                assert(!rt.contains(cs[0])) by {
                    assert(!t.contains(cs[0]));
                    assert(cs[0] != n);
                }
                lemma_no_dup_cons(cs[0], rt);
            }
        }
    }
}

proof fn lemma_seq_splice(cs: Seq<usize>, k: usize, kids: Seq<usize>)
    requires
        cs.contains(k),
    ensures
        cs.no_duplicates() ==> forall|x: usize| #[trigger] seq_splice(cs, k, kids).contains(x) <==> ((cs.contains(x) && x != k) || kids.contains(x)),
        cs.no_duplicates() && kids.no_duplicates() && (forall|x: usize| kids.contains(x) ==> !cs.contains(x))
            ==> seq_splice(cs, k, kids).no_duplicates(),
    decreases cs.len(),
{
    let t = cs.drop_first();
    assert(cs == seq![cs[0]] + t);
    lemma_seq_contains_cons(cs[0], t);
    if cs[0] == k {
        lemma_seq_concat_contains(kids, t);
        if cs.no_duplicates() && kids.no_duplicates() && (forall|x: usize| kids.contains(x) ==> !cs.contains(x)) {
            lemma_no_dup_concat(kids, t);
        }
    } else {
        lemma_seq_splice(t, k, kids);
        let rt = seq_splice(t, k, kids);
        lemma_seq_contains_cons(cs[0], rt);
        if cs.no_duplicates() && kids.no_duplicates() && (forall|x: usize| kids.contains(x) ==> !cs.contains(x)) {
            assert(!rt.contains(cs[0])) by {
                assert(!t.contains(cs[0]));
                assert(!kids.contains(cs[0]));
            }
            lemma_no_dup_cons(cs[0], rt);
        }
    }
}

proof fn lemma_seq_contains_cons(a: usize, s: Seq<usize>)
    ensures
        forall|x: usize| #[trigger] (seq![a] + s).contains(x) <==> (x == a || s.contains(x)),
{
    let r = seq![a] + s;
    assert forall|x: usize| r.contains(x) <==> (x == a || s.contains(x)) by {
        if r.contains(x) && x != a {
            let i = choose|i: int| 0 <= i < r.len() && r[i] == x;
            assert(s[i - 1] == x);
        }
        if x == a {
            assert(r[0] == x);
        }
        if s.contains(x) {
            let i = choose|i: int| 0 <= i < s.len() && s[i] == x;
            assert(r[i + 1] == x);
        }
    }
}

proof fn lemma_seq_concat_contains(a: Seq<usize>, b: Seq<usize>)
    ensures
        forall|x: usize| #[trigger] (a + b).contains(x) <==> (a.contains(x) || b.contains(x)),
{
    let r = a + b;
    assert forall|x: usize| r.contains(x) <==> (a.contains(x) || b.contains(x)) by {
        if r.contains(x) {
            let i = choose|i: int| 0 <= i < r.len() && r[i] == x;
            if i < a.len() {
                assert(a[i] == x);
            } else {
                assert(b[i - a.len()] == x);
            }
        }
        if a.contains(x) {
            let i = choose|i: int| 0 <= i < a.len() && a[i] == x;
            assert(r[i] == x);
        }
        if b.contains(x) {
            let i = choose|i: int| 0 <= i < b.len() && b[i] == x;
            assert(r[i + a.len()] == x);
        }
    }
}

proof fn lemma_no_dup_cons(a: usize, s: Seq<usize>)
    requires
        s.no_duplicates(),
        !s.contains(a),
    ensures
        (seq![a] + s).no_duplicates(),
{
    let r = seq![a] + s;
    assert forall|i: int, j: int| 0 <= i < r.len() && 0 <= j < r.len() && i != j implies r[i] != r[j] by {
        if i == 0 {
            assert(s[j - 1] == r[j]);
        } else if j == 0 {
            assert(s[i - 1] == r[i]);
        } else {
            assert(r[i] == s[i - 1] && r[j] == s[j - 1]);
        }
    }
}

proof fn lemma_no_dup_concat(a: Seq<usize>, b: Seq<usize>)
    requires
        a.no_duplicates(),
        b.no_duplicates(),
        forall|x: usize| a.contains(x) ==> !b.contains(x),
    ensures
        (a + b).no_duplicates(),
{
    let r = a + b;
    assert forall|i: int, j: int| 0 <= i < r.len() && 0 <= j < r.len() && i != j implies r[i] != r[j] by {
        if i < a.len() && j >= a.len() {
            assert(a.contains(r[i]));
            assert(b[j - a.len()] == r[j]);
        } else if j < a.len() && i >= a.len() {
            assert(a.contains(r[j]));
            assert(b[i - a.len()] == r[i]);
        } else if i < a.len() {
            assert(r[i] == a[i] && r[j] == a[j]);
        } else {
            assert(r[i] == b[i - a.len()] && r[j] == b[j - a.len()]);
        }
    }
}

/// Along a chain of parents ranks only go down, so a node that ranks above
/// `y` is not on `y`'s chain.
proof fn lemma_chain_rank(m: Map<usize, FocusSlot>, root: usize, y: usize, x: usize, fuel: nat)
    requires
        arena_ok(m, root),
        m.dom().contains(x),
        rank(m[y]) < rank(m[x]),
    ensures
        !on_chain(m, y, x, fuel),
    decreases fuel,
{
    if fuel > 0 && m.dom().contains(y) {
        match m[y].parent {
            Some(p) => {
                if y != root {
                    lemma_chain_rank(m, root, p, x, (fuel - 1) as nat);
                }
            },
            None => {},
        }
    }
}

/// A node that is nobody's parent is on no other node's chain.
proof fn lemma_chain_childless(m: Map<usize, FocusSlot>, y: usize, n: usize, fuel: nat)
    requires
        y != n,
        forall|k: usize| #[trigger] m.dom().contains(k) ==> m[k].parent != Some(n),
    ensures
        !on_chain(m, y, n, fuel),
    decreases fuel,
{
    if fuel > 0 && m.dom().contains(y) {
        match m[y].parent {
            Some(p) => {
                lemma_chain_childless(m, p, n, (fuel - 1) as nat);
            },
            None => {},
        }
    }
}

/// A fresh, detached node holding `info`.
pub open spec fn fresh_slot(info: FocusNodeInfo) -> FocusSlot {
    FocusSlot { info, parent: None, children: Seq::empty() }
}

/// Putting a fresh node beside `s`, whose parent ranks below it, keeps the
/// arena a tree.
proof fn lemma_place_fresh(m0: Map<usize, FocusSlot>, root: usize, n: usize, info: FocusNodeInfo, s: usize, before: bool)
    requires
        arena_ok(m0, root),
        !m0.dom().contains(n),
        n >= 1,
        info.wid is Some,
        m0.dom().contains(s),
        s != root,
        rank(m0[m0[s].parent->0]) < rank(fresh_slot(info)),
    ensures
        !on_chain(m0.insert(n, fresh_slot(info)), s, n, m0.insert(n, fresh_slot(info)).dom().len()),
        arena_ok(placed_beside(m0.insert(n, fresh_slot(info)), s, n, before), root),
        placed_beside(m0.insert(n, fresh_slot(info)), s, n, before)[n].parent == m0[s].parent,
{
    let m1 = m0.insert(n, fresh_slot(info));
    assert forall|k: usize| #[trigger] m1.dom().contains(k) implies m1[k].parent != Some(n) by {
        if k != n && k != root {
            assert(m0.dom().contains(m0[k].parent->0));
        }
    }
    lemma_chain_childless(m1, s, n, m1.dom().len());
    let q = m0[s].parent->0;
    assert(detached(m1, n) == m1);
    let cs0 = m0[q].children;
    let cs = if before { seq_insert_before(cs0, s, n) } else { seq_insert_after(cs0, s, n) };
    let r = placed_beside(m1, s, n, before);
    assert(r == m1.insert(q, FocusSlot { children: cs, ..m1[q] }).insert(n, FocusSlot { parent: Some(q), ..m1[n] }));
    assert(cs0.contains(s));
    assert(!cs0.contains(n)) by {
        if cs0.contains(n) {
            let j = choose|j: int| 0 <= j < cs0.len() && cs0[j] == n;
            assert(m0.dom().contains(m0[q].children[j]));
        }
    }
    lemma_seq_insert_before(cs0, s, n);
    lemma_seq_insert_after(cs0, s, n);
    assert(forall|x: usize| #[trigger] cs.contains(x) <==> (cs0.contains(x) || x == n));
    assert(cs.no_duplicates());
    assert(q != n);
    assert(r.dom() =~= m0.dom().insert(n));
    assert forall|k: usize| #[trigger] r.dom().contains(k) && k != root implies {
        &&& r[k].info.wid is Some
        &&& r[k].parent is Some
        &&& r.dom().contains(r[k].parent->0)
        &&& rank(r[r[k].parent->0]) < rank(r[k])
        &&& r[r[k].parent->0].children.contains(k)
    } by {
        if k == n {
            assert(r[k].parent == Some(q));
            assert(r[q].children == cs);
        } else {
            let p = m0[k].parent->0;
            assert(r[k].parent == m0[k].parent);
            assert(r[k].info == m0[k].info);
            assert(m0[p].children.contains(k));
            if p == q {
                assert(r[p].children == cs);
            } else {
                assert(p != n);
                assert(r[p] == m0[p]);
            }
        }
    }
    assert forall|k: usize, j: int| #![trigger r[k].children[j]] r.dom().contains(k) && 0 <= j < r[k].children.len() implies {
        &&& r.dom().contains(r[k].children[j])
        &&& r[r[k].children[j]].parent == Some(k)
    } by {
        let c = r[k].children[j];
        if k == n {
            assert(r[n].children == m1[n].children);
        } else if k == q {
            assert(r[q].children == cs);
            assert(cs.contains(c));
            if c != n {
                assert(cs0.contains(c));
                let i = choose|i: int| 0 <= i < cs0.len() && cs0[i] == c;
                assert(m0[q].children[i] == c);
                assert(m0[c].parent == Some(q));
                assert(c != q);
                assert(r[c].parent == m0[c].parent);
            }
        } else {
            assert(r[k].children == m0[k].children);
            assert(m0[k].children[j] == c);
            assert(m0[c].parent == Some(k));
            assert(c != n);
            if c == q {
                assert(r[c].parent == m0[q].parent);
            } else {
                assert(r[c] == m0[c]);
            }
        }
    }
    assert forall|k: usize| #[trigger] r.dom().contains(k) implies r[k].children.no_duplicates() by {
        if k == n {
            assert(r[n].children == m1[n].children);
        } else if k == q {
        } else {
            assert(r[k].children == m0[k].children);
        }
    }
}

/// Making a fresh node the last child of `p`, which ranks below it, keeps
/// the arena a tree.
proof fn lemma_append_fresh(m0: Map<usize, FocusSlot>, root: usize, n: usize, info: FocusNodeInfo, p: usize)
    requires
        arena_ok(m0, root),
        !m0.dom().contains(n),
        n >= 1,
        info.wid is Some,
        m0.dom().contains(p),
        rank(m0[p]) < rank(fresh_slot(info)),
    ensures
        !on_chain(m0.insert(n, fresh_slot(info)), p, n, m0.insert(n, fresh_slot(info)).dom().len()),
        arena_ok(appended(m0.insert(n, fresh_slot(info)), p, n), root),
        appended(m0.insert(n, fresh_slot(info)), p, n)[n].parent == Some(p),
{
    let m1 = m0.insert(n, fresh_slot(info));
    assert forall|k: usize| #[trigger] m1.dom().contains(k) implies m1[k].parent != Some(n) by {
        if k != n && k != root {
            assert(m0.dom().contains(m0[k].parent->0));
        }
    }
    assert(p != n);
    lemma_chain_childless(m1, p, n, m1.dom().len());
    assert(detached(m1, n) == m1);
    let cs0 = m0[p].children;
    let cs = cs0.push(n);
    let r = appended(m1, p, n);
    assert(r == m1.insert(p, FocusSlot { children: cs, ..m1[p] }).insert(n, FocusSlot { parent: Some(p), ..m1[n] }));
    assert(!cs0.contains(n)) by {
        if cs0.contains(n) {
            let j = choose|j: int| 0 <= j < cs0.len() && cs0[j] == n;
            assert(m0.dom().contains(m0[p].children[j]));
        }
    }
    assert forall|x: usize| #[trigger] cs.contains(x) <==> (cs0.contains(x) || x == n) by {
        if cs.contains(x) && x != n {
            let i = choose|i: int| 0 <= i < cs.len() && cs[i] == x;
            assert(cs0[i] == x);
        }
        if cs0.contains(x) {
            let i = choose|i: int| 0 <= i < cs0.len() && cs0[i] == x;
            assert(cs[i] == x);
        }
        if x == n {
            assert(cs[cs0.len() as int] == x);
        }
    }
    assert(cs.no_duplicates()) by {
        assert forall|a: int, b: int| 0 <= a < cs.len() && 0 <= b < cs.len() && a != b implies cs[a] != cs[b] by {
            if a == cs0.len() {
                assert(cs0.contains(cs[b]));
            } else if b == cs0.len() {
                assert(cs0.contains(cs[a]));
            } else {
                assert(cs[a] == cs0[a] && cs[b] == cs0[b]);
            }
        }
    }
    assert(r.dom() =~= m0.dom().insert(n));
    assert forall|k: usize| #[trigger] r.dom().contains(k) && k != root implies {
        &&& r[k].info.wid is Some
        &&& r[k].parent is Some
        &&& r.dom().contains(r[k].parent->0)
        &&& rank(r[r[k].parent->0]) < rank(r[k])
        &&& r[r[k].parent->0].children.contains(k)
    } by {
        if k == n {
            assert(r[k].parent == Some(p));
            assert(r[p].children == cs);
        } else {
            let pk = m0[k].parent->0;
            assert(r[k].parent == m0[k].parent);
            assert(r[k].info == m0[k].info);
            assert(m0[pk].children.contains(k));
            if pk == p {
                assert(r[pk].children == cs);
            } else {
                assert(r[pk] == m0[pk]);
            }
        }
    }
    assert forall|k: usize, j: int| #![trigger r[k].children[j]] r.dom().contains(k) && 0 <= j < r[k].children.len() implies {
        &&& r.dom().contains(r[k].children[j])
        &&& r[r[k].children[j]].parent == Some(k)
    } by {
        let c = r[k].children[j];
        if k == n {
            assert(r[n].children == m1[n].children);
        } else if k == p {
            assert(r[p].children == cs);
            if c != n {
                assert(cs[j] == cs0[j]);
                assert(m0[p].children[j] == c);
                assert(m0[c].parent == Some(p));
                assert(c != p);
                assert(r[c] == m0[c]);
            }
        } else {
            assert(r[k].children == m0[k].children);
            assert(m0[k].children[j] == c);
            assert(m0[c].parent == Some(k));
            if c == p {
                assert(r[c].parent == m0[p].parent);
            } else {
                assert(r[c] == m0[c]);
            }
        }
    }
    assert forall|k: usize| #[trigger] r.dom().contains(k) implies r[k].children.no_duplicates() by {
        if k == n {
            assert(r[n].children == m1[n].children);
        } else if k == p {
        } else {
            assert(r[k].children == m0[k].children);
        }
    }
}

proof fn lemma_push_fresh(s: Seq<usize>, v: usize)
    requires
        s.no_duplicates(),
        !s.contains(v),
    ensures
        forall|x: usize| #[trigger] s.push(v).contains(x) <==> (s.contains(x) || x == v),
        s.push(v).no_duplicates(),
{
    let r = s.push(v);
    assert forall|x: usize| #[trigger] r.contains(x) <==> (s.contains(x) || x == v) by {
        if r.contains(x) && x != v {
            let i = choose|i: int| 0 <= i < r.len() && r[i] == x;
            assert(s[i] == x);
        }
        if s.contains(x) {
            let i = choose|i: int| 0 <= i < s.len() && s[i] == x;
            assert(r[i] == x);
        }
        if x == v {
            assert(r[s.len() as int] == x);
        }
    }
    assert forall|a: int, b: int| 0 <= a < r.len() && 0 <= b < r.len() && a != b implies r[a] != r[b] by {
        if a == s.len() {
            assert(s.contains(r[b]));
        } else if b == s.len() {
            assert(s.contains(r[a]));
        } else {
            assert(r[a] == s[a] && r[b] == s[b]);
        }
    }
}

/// Moving node `c` under `p`, which ranks below it, keeps the arena a tree;
/// `c` is then not on `p`'s chain of parents.
proof fn lemma_append_move(m: Map<usize, FocusSlot>, root: usize, p: usize, c: usize)
    requires
        arena_ok(m, root),
        m.dom().contains(p),
        m.dom().contains(c),
        c != root,
        rank(m[p]) < rank(m[c]),
    ensures
        !on_chain(m, p, c, m.dom().len()),
        arena_ok(appended(m, p, c), root),
        appended(m, p, c).dom() == m.dom(),
        forall|x: usize| #[trigger] m.dom().contains(x) ==> appended(m, p, c)[x].info == m[x].info,
        forall|x: usize| #[trigger] m.dom().contains(x) && x != c ==> appended(m, p, c)[x].parent == m[x].parent,
        appended(m, p, c)[c].parent == Some(p),
{
    lemma_chain_rank(m, root, p, c, m.dom().len());
    let q = m[c].parent->0;
    let w = without(m[q].children, c);
    crate::widget_tree::lemma_without(m[q].children, c);
    let d = detached(m, c);
    assert(d == m.insert(q, FocusSlot { children: w, ..m[q] }).insert(c, FocusSlot { parent: None, ..m[c] }));
    let cp = if p == q { w } else { m[p].children };
    let cs = cp.push(c);
    let r = appended(m, p, c);
    assert(d[p].children == cp);
    assert(r == d.insert(p, FocusSlot { children: cs, ..d[p] }).insert(c, FocusSlot { parent: Some(p), ..d[c] }));
    assert(!cp.contains(c)) by {
        if p != q && cp.contains(c) {
            let j = choose|j: int| 0 <= j < cp.len() && cp[j] == c;
            assert(m[m[p].children[j]].parent == Some(p));
        }
    }
    lemma_push_fresh(cp, c);
    assert(r.dom() =~= m.dom());
    assert forall|x: usize| #[trigger] m.dom().contains(x) implies r[x].info == m[x].info by {}
    assert forall|x: usize| #[trigger] m.dom().contains(x) && x != c implies r[x].parent == m[x].parent by {}
    assert forall|k: usize| #[trigger] r.dom().contains(k) && k != root implies {
        &&& r[k].info.wid is Some
        &&& r[k].parent is Some
        &&& r.dom().contains(r[k].parent->0)
        &&& rank(r[r[k].parent->0]) < rank(r[k])
        &&& r[r[k].parent->0].children.contains(k)
    } by {
        if k == c {
            assert(r[p].children == cs);
        } else {
            let pk = m[k].parent->0;
            assert(r[k].parent == m[k].parent);
            assert(m[pk].children.contains(k));
            if pk == p {
                assert(r[pk].children == cs);
                assert(m[p].children.contains(k));
            } else if pk == q {
                assert(r[q].children == w);
            } else if pk == c {
                assert(r[c].children == m[c].children);
            } else {
                assert(r[pk] == m[pk]);
            }
        }
    }
    assert forall|k: usize, j: int| #![trigger r[k].children[j]] r.dom().contains(k) && 0 <= j < r[k].children.len() implies {
        &&& r.dom().contains(r[k].children[j])
        &&& r[r[k].children[j]].parent == Some(k)
    } by {
        let x = r[k].children[j];
        if k == p {
            assert(r[p].children == cs);
            assert(cs.contains(x));
            if x != c {
                assert(cp.contains(x));
                if p == q {
                    assert(w.contains(x) <==> (m[q].children.contains(x) && x != c));
                    assert(m[q].children.contains(x));
                } else {
                    assert(m[p].children.contains(x));
                }
                let i = choose|i: int| 0 <= i < m[p].children.len() && m[p].children[i] == x;
                assert(m[x].parent == Some(p));
                assert(r[x].parent == m[x].parent);
            }
        } else if k == q {
            assert(r[q].children == w);
            assert(w.contains(x));
            assert(w.contains(x) <==> (m[q].children.contains(x) && x != c));
            assert(m[q].children.contains(x));
            let i = choose|i: int| 0 <= i < m[q].children.len() && m[q].children[i] == x;
            assert(m[x].parent == Some(q));
            assert(r[x].parent == m[x].parent);
        } else if k == c {
            assert(r[c].children == m[c].children);
            assert(m[c].children[j] == x);
            assert(m[x].parent == Some(c));
            assert(r[x].parent == m[x].parent);
        } else {
            assert(r[k].children == m[k].children);
            assert(m[k].children[j] == x);
            assert(m[x].parent == Some(k));
            assert(x != c);
            assert(r[x].parent == m[x].parent);
        }
    }
    assert forall|k: usize| #[trigger] r.dom().contains(k) implies r[k].children.no_duplicates() by {
        if k == p {
        } else if k == q {
            assert(r[q].children == w);
        } else if k == c {
            assert(r[c].children == m[c].children);
        } else {
            assert(r[k].children == m[k].children);
        }
    }
}

/// Removing a node below the root keeps the arena a tree.
proof fn lemma_remove_ok(m: Map<usize, FocusSlot>, root: usize, k: usize)
    requires
        arena_ok(m, root),
        m.dom().contains(k),
        k != root,
    ensures
        arena_ok(removed(m, k), root),
        removed(m, k).dom() == m.dom().remove(k),
        forall|x: usize| #[trigger] removed(m, k).dom().contains(x) ==> removed(m, k)[x].info == m[x].info,
{
    let q = m[k].parent->0;
    let kids = m[k].children;
    let cs0 = m[q].children;
    let sp = seq_splice(cs0, k, kids);
    let m1 = m.insert(q, FocusSlot { children: sp, ..m[q] }).remove(k);
    let r = removed(m, k);
    assert(r.dom() =~= m.dom().remove(k));
    assert forall|x: usize| #[trigger] kids.contains(x) implies m.dom().contains(x) && m[x].parent == Some(k) by {
        let j = choose|j: int| 0 <= j < kids.len() && kids[j] == x;
        assert(m[k].children[j] == x);
    }
    assert(forall|x: usize| kids.contains(x) ==> !cs0.contains(x)) by {
        assert forall|x: usize| kids.contains(x) implies !cs0.contains(x) by {
            if cs0.contains(x) {
                let j = choose|j: int| 0 <= j < cs0.len() && cs0[j] == x;
                assert(m[m[q].children[j]].parent == Some(q));
            }
        }
    }
    assert(cs0.contains(k));
    lemma_seq_splice(cs0, k, kids);
    assert(!kids.contains(q)) by {
        if kids.contains(q) {
            assert(m[q].parent == Some(k));
        }
    }
    assert(!kids.contains(root)) by {
        if kids.contains(root) {
            assert(m[root].parent == Some(k));
        }
    }
    assert forall|x: usize| #[trigger] r.dom().contains(x) implies r[x].info == m[x].info by {}
    assert forall|x: usize| #[trigger] r.dom().contains(x) && x != root implies {
        &&& r[x].info.wid is Some
        &&& r[x].parent is Some
        &&& r.dom().contains(r[x].parent->0)
        &&& rank(r[r[x].parent->0]) < rank(r[x])
        &&& r[r[x].parent->0].children.contains(x)
    } by {
        if kids.contains(x) {
            assert(r[x].parent == Some(q));
            assert(r[q].children == sp);
            assert(rank(m[k]) < rank(m[x]));
        } else {
            let px = m[x].parent->0;
            assert(r[x].parent == m[x].parent);
            assert(m[px].children.contains(x));
            assert(px != k) by {
                if px == k {
                    assert(kids.contains(x));
                }
            }
            if px == q {
                assert(r[q].children == sp);
            } else {
                assert(r[px].children == m[px].children);
                assert(r[px].info == m[px].info);
            }
        }
    }
    assert forall|y: usize, j: int| #![trigger r[y].children[j]] r.dom().contains(y) && 0 <= j < r[y].children.len() implies {
        &&& r.dom().contains(r[y].children[j])
        &&& r[r[y].children[j]].parent == Some(y)
    } by {
        let z = r[y].children[j];
        if y == q {
            assert(r[q].children == sp);
            assert(sp.contains(z));
            if kids.contains(z) {
                assert(r[z].parent == Some(q));
            } else {
                assert(cs0.contains(z) && z != k);
                let i = choose|i: int| 0 <= i < cs0.len() && cs0[i] == z;
                assert(m[q].children[i] == z);
                assert(m[z].parent == Some(q));
                assert(r[z].parent == m[z].parent);
            }
        } else {
            assert(r[y].children == m[y].children);
            assert(m[y].children[j] == z);
            assert(m[z].parent == Some(y));
            assert(!kids.contains(z));
            assert(z != k);
            assert(r[z].parent == m[z].parent);
        }
    }
    assert forall|y: usize| #[trigger] r.dom().contains(y) implies r[y].children.no_duplicates() by {
        if y == q {
            assert(r[q].children == sp);
        } else {
            assert(r[y].children == m[y].children);
        }
    }
}

/// The focus node of the nearest widget of `path` that has one, or `root`.
pub open spec fn nearest_node(ids: Map<usize, usize>, path: Seq<usize>, root: usize) -> usize
    decreases path.len(),
{
    if path.len() == 0 {
        root
    } else if ids.contains_key(path[0]) {
        ids[path[0]]
    } else {
        nearest_node(ids, path.drop_first(), root)
    }
}

/// The counts `c` (scopes, nodes) with one more of `ft`.
pub open spec fn bumped(c: (u32, u32), ft: FocusType) -> (int, int) {
    match ft {
        FocusType::Scope => (c.0 + 1, c.1 as int),
        FocusType::Node => (c.0 as int, c.1 + 1),
    }
}

/// The counts `c` (scopes, nodes) with one less of `ft`.
pub open spec fn dropped_one(c: (u32, u32), ft: FocusType) -> (int, int) {
    match ft {
        FocusType::Scope => (c.0 - 1, c.1 as int),
        FocusType::Node => (c.0 as int, c.1 - 1),
    }
}

/// Where a new focus node goes relative to an existing child of its parent.
#[derive(Debug, Clone, Copy, PartialEq, Eq, Structural)]
pub enum TreePosition {
    /// The new node is the sibling before this one.
    BeforeSibling,
    /// This node belongs in the new node's subtree.
    SubTree,
    /// The new node is the sibling after this one.
    AfterSibling,
    /// This node is not in the parent's subtree.
    Skip,
}

/// The focus manager of a window.
#[derive(Debug)]
pub struct FocusManager {
    /// The widget that has focus.
    pub focusing: Option<WidgetId>,
    /// Widgets that asked for focus when mounted during this frame.
    pub frame_auto_focus: Vec<WidgetId>,
    /// The focused widget and its ancestors, nearest first.
    pub focus_widgets: Vec<WidgetId>,
    /// The focus node of each widget that has one, by widget index.
    pub node_ids: HashMap<usize, usize>,
    pub arena: Arena<FocusNodeInfo>,
    pub root: usize,
}

impl FocusManager {
    /// The focus arena's live nodes.
    pub open spec fn nodes(&self) -> Map<usize, FocusSlot> {
        focus_arena(self.arena)
    }

    /// The focus node of each widget that has one.
    pub open spec fn ids(&self) -> Map<usize, usize> {
        self.node_ids@
    }

    pub open spec fn wf(&self) -> bool {
        &&& arena_ok(self.nodes(), self.root)
        &&& index_ok(self.ids(), self.nodes(), self.root)
    }

    /// Every widget with a focus node, and the focused widget, lie in a tree
    /// of `len` widgets.
    pub open spec fn fits(&self, len: nat) -> bool {
        &&& forall|w: usize| #[trigger] self.ids().contains_key(w) ==> w < len
        &&& self.focusing matches Some(f) ==> f.0 < len
    }

    /// How many focus scopes and focus nodes widget `w` registered.
    pub open spec fn counts(&self, w: usize) -> (u32, u32) {
        if self.ids().contains_key(w) {
            let i = self.nodes()[self.ids()[w]].info;
            (i.scope_cnt, i.node_cnt)
        } else {
            (0, 0)
        }
    }

    /// A manager with no focus node and no focus.
    pub fn new() -> (r: FocusManager)
        ensures
            r.wf(),
            r.ids() == Map::<usize, usize>::empty(),
            r.nodes().dom() == set![r.root],
            r.nodes()[r.root].children.len() == 0,
            r.focusing is None,
            r.frame_auto_focus@.len() == 0,
            r.focus_widgets@.len() == 0,
    {
        let mut arena = arena_new();
        let root = arena_new_node(&mut arena, FocusNodeInfo { scope_cnt: 1, node_cnt: 0, wid: None });
        let r = FocusManager {
            focusing: None,
            frame_auto_focus: Vec::new(),
            focus_widgets: Vec::new(),
            node_ids: HashMap::new(),
            arena,
            root,
        };
        assert(r.nodes().dom() =~= set![root]);
        assert(r.ids() =~= Map::<usize, usize>::empty());
        r
    }

    /// The widget that has focus.
    pub fn focusing(&self) -> (r: Option<WidgetId>)
        ensures
            r == self.focusing,
    {
        self.focusing
    }
}

/// The widgets of `a` before the first `p`.
pub open spec fn before_first(a: Seq<WidgetId>, p: WidgetId) -> Seq<WidgetId>
    decreases a.len(),
{
    if a.len() == 0 {
        a
    } else if a[0] == p {
        Seq::empty()
    } else {
        seq![a[0]] + before_first(a.drop_first(), p)
    }
}

/// `w` and its ancestors, nearest first.
pub open spec fn widget_path(t: Seq<NodeView>, w: WidgetId) -> Seq<WidgetId> {
    ancestors_of(t, w.0 as int).map_values(|x: usize| WidgetId(x))
}

/// The path from widget `w` up to `pid`: `w` and its ancestors before
/// `pid`, then `pid`; all of `w`'s ancestors when `pid` is none; nothing
/// for a dropped widget.
pub open spec fn sub_path(t: Seq<NodeView>, w: WidgetId, pid: Option<WidgetId>) -> Seq<WidgetId> {
    if w.0 >= t.len() || t[w.0 as int].dropped {
        Seq::empty()
    } else {
        match pid {
            Some(p) => before_first(widget_path(t, w), p).push(p),
            None => widget_path(t, w),
        }
    }
}

proof fn lemma_before_first_take(a: Seq<WidgetId>, p: WidgetId, i: int)
    requires
        0 <= i <= a.len(),
        forall|j: int| 0 <= j < i ==> a[j] != p,
        i == a.len() || a[i] == p,
    ensures
        before_first(a, p) == a.take(i),
    decreases a.len(),
{
    if a.len() > 0 {
        if i == 0 {
            assert(a.take(0) =~= Seq::<WidgetId>::empty());
        } else {
            lemma_before_first_take(a.drop_first(), p, i - 1);
            assert(seq![a[0]] + a.drop_first().take(i - 1) =~= a.take(i));
        }
    }
}

/// `wid` and its ancestors up to, and with, `pid`; all of them when `pid` is
/// none; nothing for a dropped widget.
fn collect_sub_ancestors(wid: WidgetId, pid: Option<WidgetId>, tree: &WidgetTree) -> (r: Vec<WidgetId>)
    requires
        tree.wf(),
        pid matches Some(p) ==> p.0 < tree.view().len(),
    ensures
        forall|j: int| 0 <= j < r@.len() ==> (#[trigger] r@[j]).0 < tree.view().len(),
        forall|j: int| 0 <= j < r@.len() ==> ancestors_of(tree.view(), wid.0 as int).contains((#[trigger] r@[j]).0) || pid == Some(r@[j]),
        r@.len() > 0 ==> r@[0] == wid,
        (wid.0 < tree.view().len() && !tree.view()[wid.0 as int].dropped && (pid matches Some(p) && p != wid)) ==> r@.len() > 1,
        (wid.0 < tree.view().len() && !tree.view()[wid.0 as int].dropped && pid is None && tree.view()[wid.0 as int].parent is Some) ==> r@.len() > 1,
        r@ == sub_path(tree.view(), wid, pid),
{
    if tree.is_dropped(wid) {
        return Vec::new();
    }
    let anc = tree.ancestors(wid);
    let ghost a = ancestors_of(tree.view(), wid.0 as int);
    proof {
        lemma_ancestors_in_range(tree.view(), wid.0 as int);
        assert forall|j: int| 0 <= j < anc@.len() implies (#[trigger] anc@[j]).0 == a[j] by {
            assert(anc@.map_values(|w: WidgetId| w.0)[j] == anc@[j].0);
        }
        assert(anc@ =~= widget_path(tree.view(), wid));
    }
    match pid {
        Some(p) => {
            let mut arr: Vec<WidgetId> = Vec::new();
            let mut i: usize = 0;
            while i < anc.len() && anc[i] != p
                invariant
                    i <= anc@.len(),
                    anc@.len() == a.len(),
                    a.len() > 0,
                    a[0] == wid.0,
                    forall|j: int| 0 <= j < anc@.len() ==> (#[trigger] anc@[j]).0 == a[j],
                    forall|j: int| 0 <= j < a.len() ==> (#[trigger] a[j]) < tree.view().len(),
                    arr@.len() == i,
                    forall|j: int| 0 <= j < i ==> (#[trigger] arr@[j]) == anc@[j],
                    forall|j: int| 0 <= j < i ==> anc@[j] != p,
                    p != wid ==> (i == 0 ==> anc@[0] != p),
                decreases anc.len() - i,
            {
                arr.push(anc[i]);
                i = i + 1;
            }
            proof {
                assert(arr@ =~= anc@.take(i as int));
                lemma_before_first_take(anc@, p, i as int);
                assert forall|j: int| 0 <= j < arr@.len() implies a.contains((#[trigger] arr@[j]).0) by {
                    assert(a[j] == arr@[j].0);
                }
                if p != wid {
                    assert(anc@[0].0 == wid.0);
                    assert(anc@[0] == wid);
                }
            }
            arr.push(p);
            proof {
                if arr@.len() > 1 {
                    assert(arr@[0] == anc@[0]);
                    assert(anc@[0].0 == a[0]);
                }
            }
            arr
        },
        None => {
            proof {
                assert forall|j: int| 0 <= j < anc@.len() implies a.contains((#[trigger] anc@[j]).0) by {
                    assert(a[j] == anc@[j].0);
                }
                assert(anc@[0].0 == a[0]);
            }
            anc
        },
    }
}

/// The `i`-th widgets from the end of `a` and `b` are the same.
pub open spec fn same_from_end(a: Seq<WidgetId>, b: Seq<WidgetId>, i: int) -> bool {
    a[a.len() - 1 - i] == b[b.len() - 1 - i]
}

/// How many widgets `a` and `b` share at their ends.
pub open spec fn common_suffix(a: Seq<WidgetId>, b: Seq<WidgetId>) -> nat
    decreases a.len(),
{
    if a.len() == 0 || b.len() == 0 || a.last() != b.last() {
        0
    } else {
        1 + common_suffix(a.drop_last(), b.drop_last())
    }
}

/// Whether `lh` comes before `rh` among `cs`: `BeforeSibling` when `lh`
/// comes first, `AfterSibling` otherwise.
pub open spec fn first_of(cs: Seq<usize>, lh: usize, rh: usize) -> TreePosition
    decreases cs.len(),
{
    if cs.len() == 0 {
        TreePosition::AfterSibling
    } else if cs[0] == lh {
        TreePosition::BeforeSibling
    } else if cs[0] == rh {
        TreePosition::AfterSibling
    } else {
        first_of(cs.drop_first(), lh, rh)
    }
}

/// Where the widget of path `dst` goes relative to the widget of path
/// `base`: inside it when `base` runs through `dst`'s widget, nowhere when
/// the paths share nothing, after it when `base` ends on `dst`'s path, and
/// else by the order of the two branches below the widget where the paths
/// meet.
pub open spec fn position_of(t: Seq<NodeView>, dst: Seq<WidgetId>, base: Seq<WidgetId>) -> TreePosition {
    let cnt = common_suffix(dst, base) as int;
    if cnt == dst.len() {
        TreePosition::SubTree
    } else if cnt == 0 {
        TreePosition::Skip
    } else if cnt == base.len() {
        TreePosition::AfterSibling
    } else {
        first_of(t[dst[dst.len() - cnt].0 as int].children, dst[dst.len() - cnt - 1].0, base[base.len() - cnt - 1].0)
    }
}

proof fn lemma_common_suffix(a: Seq<WidgetId>, b: Seq<WidgetId>, c: int)
    requires
        0 <= c <= a.len(),
        c <= b.len(),
        forall|i: int| 0 <= i < c ==> #[trigger] same_from_end(a, b, i),
        c == a.len() || c == b.len() || !same_from_end(a, b, c),
    ensures
        common_suffix(a, b) == c,
    decreases c,
{
    if c == 0 {
        if a.len() > 0 && b.len() > 0 {
            assert(!same_from_end(a, b, 0));
        }
    } else {
        assert(same_from_end(a, b, 0));
        let a2 = a.drop_last();
        let b2 = b.drop_last();
        assert forall|i: int| 0 <= i < c - 1 implies #[trigger] same_from_end(a2, b2, i) by {
            assert(same_from_end(a, b, i + 1));
        }
        if c < a.len() && c < b.len() {
            assert(!same_from_end(a2, b2, c - 1)) by {
                assert(a2[a2.len() - 1 - (c - 1)] == a[a.len() - 1 - c]);
                assert(b2[b2.len() - 1 - (c - 1)] == b[b.len() - 1 - c]);
            }
        }
        lemma_common_suffix(a2, b2, c - 1);
    }
}

/// Where the widget of path `dst` goes relative to the widget of path
/// `base`, both paths ending at the same focus parent.
fn locate_position(dst: &Vec<WidgetId>, base: &Vec<WidgetId>, tree: &WidgetTree) -> (r: TreePosition)
    requires
        tree.wf(),
        dst@.len() > 1,
        forall|j: int| 0 <= j < dst@.len() ==> (#[trigger] dst@[j]).0 < tree.view().len(),
        forall|j: int| 0 <= j < base@.len() ==> (#[trigger] base@[j]).0 < tree.view().len(),
    ensures
        r == TreePosition::SubTree ==> dst@.len() <= base@.len() && base@[base@.len() - dst@.len()] == dst@[0],
        r == position_of(tree.view(), dst@, base@),
{
    let mut cnt: usize = 0;
    while cnt < dst.len() && cnt < base.len() && dst[dst.len() - 1 - cnt] == base[base.len() - 1 - cnt]
        invariant
            cnt <= dst@.len(),
            cnt <= base@.len(),
            forall|i: int| 0 <= i < cnt ==> #[trigger] same_from_end(dst@, base@, i),
        decreases dst.len() - cnt,
    {
        assert(same_from_end(dst@, base@, cnt as int));
        cnt = cnt + 1;
    }
    proof {
        if cnt < dst@.len() && cnt < base@.len() {
            assert(!same_from_end(dst@, base@, cnt as int));
        }
        lemma_common_suffix(dst@, base@, cnt as int);
    }
    if dst.len() == cnt {
        proof {
            let i = dst@.len() - 1;
            assert(same_from_end(dst@, base@, i));
        }
        return TreePosition::SubTree;
    } else if cnt == 0 {
        return TreePosition::Skip;
    }
    if cnt == base.len() {
        // The sibling's whole path lies on the new widget's path.
        return TreePosition::AfterSibling;
    }
    let parent = dst[dst.len() - cnt];
    let lh = dst[dst.len() - cnt - 1];
    let rh = base[base.len() - cnt - 1];
    let cs = tree.children(parent);
    let ghost ids = tree.view()[parent.0 as int].children;
    assert(ids.skip(0) =~= ids);
    let mut i: usize = 0;
    while i < cs.len()
        invariant
            i <= cs@.len(),
            cs@.len() == ids.len(),
            forall|k: int| 0 <= k < cs@.len() ==> (#[trigger] cs@[k]).0 == ids[k],
            first_of(ids.skip(i as int), lh.0, rh.0) == first_of(ids, lh.0, rh.0),
            common_suffix(dst@, base@) == cnt as nat,
            0 < cnt < dst@.len(),
            cnt < base@.len(),
            parent == dst@[dst@.len() - cnt],
            lh == dst@[dst@.len() - cnt - 1],
            rh == base@[base@.len() - cnt - 1],
            ids == tree.view()[parent.0 as int].children,
        decreases cs.len() - i,
    {
        assert(ids.skip(i as int)[0] == ids[i as int]);
        assert(ids.skip(i as int).drop_first() =~= ids.skip(i + 1));
        assert(cs@[i as int].0 == ids[i as int]);
        if cs[i] == lh {
            return TreePosition::BeforeSibling;
        } else if cs[i] == rh {
            return TreePosition::AfterSibling;
        }
        i = i + 1;
    }
    assert(ids.skip(i as int).len() == 0);
    TreePosition::AfterSibling
}

/// Elements of a widget's ancestor path are the widget itself or come
/// before it in the tree.
proof fn lemma_on_path_below(t: Seq<NodeView>, id: int, x: usize)
    requires
        links_ok(t),
        0 <= id < t.len(),
        ancestors_of(t, id).contains(x),
    ensures
        x <= id,
{
    lemma_ancestors_in_range(t, id);
    let a = ancestors_of(t, id);
    let j = choose|j: int| 0 <= j < a.len() && a[j] == x;
    if j > 0 {
        assert(a[j] < id);
    }
}

/// What inserting a new node of path `path` learns from the children
/// `kids` of its parent: the child it goes before, the child it goes after,
/// and the children that move under it. The scan stops at the first child
/// the new node goes before.
pub open spec fn insert_plan(
    t: Seq<NodeView>,
    m: Map<usize, FocusSlot>,
    path: Seq<WidgetId>,
    pwid: Option<WidgetId>,
    kids: Seq<usize>,
) -> (Option<usize>, Option<usize>, Seq<usize>)
    decreases kids.len(),
{
    if kids.len() == 0 {
        (None, None, Seq::empty())
    } else {
        let p = insert_plan(t, m, path, pwid, kids.drop_last());
        if p.0 is Some {
            p
        } else {
            let id = kids.last();
            match position_of(t, path, sub_path(t, WidgetId(wid_of(m[id])), pwid)) {
                TreePosition::BeforeSibling => (Some(id), p.1, p.2),
                TreePosition::SubTree => (p.0, p.1, p.2.push(id)),
                TreePosition::AfterSibling => (p.0, Some(id), p.2),
                TreePosition::Skip => p,
            }
        }
    }
}

proof fn lemma_insert_plan_stops(
    t: Seq<NodeView>,
    m: Map<usize, FocusSlot>,
    path: Seq<WidgetId>,
    pwid: Option<WidgetId>,
    kids: Seq<usize>,
    k: int,
)
    requires
        0 <= k <= kids.len(),
        insert_plan(t, m, path, pwid, kids.take(k)).0 is Some,
    ensures
        insert_plan(t, m, path, pwid, kids) == insert_plan(t, m, path, pwid, kids.take(k)),
    decreases kids.len() - k,
{
    if k < kids.len() {
        assert(kids.take(k + 1).drop_last() =~= kids.take(k));
        lemma_insert_plan_stops(t, m, path, pwid, kids, k + 1);
    } else {
        assert(kids.take(k) =~= kids);
    }
}

/// `m` after each node of `cs` in turn became the last child of `n`.
pub open spec fn moved_under(m: Map<usize, FocusSlot>, n: usize, cs: Seq<usize>) -> Map<usize, FocusSlot>
    decreases cs.len(),
{
    if cs.len() == 0 {
        m
    } else {
        appended(moved_under(m, n, cs.drop_last()), n, cs.last())
    }
}

/// `m` after its fresh node `n` was put under `parent` as `plan` says:
/// before or after a sibling, or as the last child, with the planned
/// children moved under it.
pub open spec fn inserted(
    m: Map<usize, FocusSlot>,
    parent: usize,
    n: usize,
    plan: (Option<usize>, Option<usize>, Seq<usize>),
) -> Map<usize, FocusSlot> {
    let placed = match plan.0 {
        Some(b) => placed_beside(m, b, n, true),
        None => match plan.1 {
            Some(a) => placed_beside(m, a, n, false),
            None => appended(m, parent, n),
        },
    };
    moved_under(placed, n, plan.2)
}

impl FocusManager {
    /// Puts the fresh node `node_id` of `wid` under `parent`, among
    /// `parent`'s children in the order of their widgets, and moves under it
    /// the children of `parent` whose widgets lie inside `wid`.
    fn insert_node(&mut self, parent: usize, node_id: usize, wid: WidgetId, tree: &WidgetTree)
        requires
            tree.wf(),
            wid.0 < tree.view().len(),
            node_id >= 1,
            old(self).nodes().dom().contains(node_id),
            old(self).nodes()[node_id] == fresh_slot(old(self).nodes()[node_id].info),
            old(self).nodes()[node_id].info.wid == Some(wid),
            arena_ok(old(self).nodes().remove(node_id), old(self).root),
            old(self).nodes().remove(node_id).dom().contains(parent),
            rank(old(self).nodes()[parent]) < wid.0 + 1,
            forall|k: usize| #[trigger] old(self).nodes().remove(node_id).dom().contains(k) && k != old(self).root
                ==> wid_of(old(self).nodes()[k]) != wid.0 && wid_of(old(self).nodes()[k]) < tree.view().len(),
            old(self).nodes()[parent].children.len() == 0 || (!tree.view()[wid.0 as int].dropped && (
                old(self).nodes()[parent].info.wid is Some || tree.view()[wid.0 as int].parent is Some)),
        ensures
            arena_ok(final(self).nodes(), final(self).root),
            final(self).root == old(self).root,
            final(self).nodes().dom() == old(self).nodes().dom(),
            forall|x: usize| #[trigger] old(self).nodes().dom().contains(x) ==> final(self).nodes()[x].info == old(self).nodes()[x].info,
            final(self).nodes()[node_id].parent == Some(parent),
            final(self).nodes() == inserted(
                old(self).nodes(),
                parent,
                node_id,
                insert_plan(
                    tree.view(),
                    old(self).nodes(),
                    sub_path(tree.view(), wid, old(self).nodes()[parent].info.wid),
                    old(self).nodes()[parent].info.wid,
                    old(self).nodes()[parent].children,
                ),
            ),
            final(self).node_ids@ == old(self).node_ids@,
            final(self).focusing == old(self).focusing,
            final(self).frame_auto_focus@ == old(self).frame_auto_focus@,
            final(self).focus_widgets@ == old(self).focus_widgets@,
    {
        let ghost m = self.nodes();
        let ghost m0 = m.remove(node_id);
        let ghost root = self.root;
        let ghost info = m[node_id].info;
        assert(m == m0.insert(node_id, fresh_slot(info)));
        assert(!m0.dom().contains(node_id));
        let pwid = arena_info(&self.arena, parent).wid;
        proof {
            if parent != root {
                assert(m0.dom().contains(parent));
                assert(wid_of(m0[parent]) < tree.view().len());
            }
        }
        let path = collect_sub_ancestors(wid, pwid, tree);
        let mut before_sibling: Option<usize> = None;
        let mut after_sibling: Option<usize> = None;
        let mut children: Vec<usize> = Vec::new();
        let kids = arena_children(&self.arena, parent);
        let mut i: usize = 0;
        let ghost t = tree.view();
        assert(kids@.take(0) =~= Seq::<usize>::empty());
        assert(children@ =~= Seq::<usize>::empty());
        assert(kids@.take(kids@.len() as int) =~= kids@);
        assert(insert_plan(t, m, path@, pwid, kids@.take(0)) == (None::<usize>, None::<usize>, Seq::<usize>::empty()));
        while i < kids.len()
            invariant_except_break
                forall|j: int| 0 <= j < children@.len() ==> exists|l: int| 0 <= l < i && kids@[l] == #[trigger] children@[j],
                before_sibling is None,
                (before_sibling, after_sibling, children@) == insert_plan(t, m, path@, pwid, kids@.take(i as int)),
            invariant
                t == tree.view(),
                path@ == sub_path(t, wid, pwid),
                kids@.take(kids@.len() as int) == kids@,
                self.nodes() == m,
                m == m0.insert(node_id, fresh_slot(info)),
                arena_ok(m0, root),
                self.root == root,
                tree.wf(),
                m0.dom().contains(parent),
                kids@ == m[parent].children,
                m[parent].children == m0[parent].children,
                i <= kids@.len(),
                pwid == m0[parent].info.wid,
                pwid matches Some(pw) ==> pw.0 < wid.0,
                forall|k: usize| #[trigger] m0.dom().contains(k) && k != root ==> wid_of(m0[k]) != wid.0 && wid_of(m0[k]) < tree.view().len(),
                forall|j: int| 0 <= j < path@.len() ==> (#[trigger] path@[j]).0 < tree.view().len(),
                path@.len() > 0 ==> path@[0] == wid,
                kids@.len() > 0 ==> path@.len() > 1,
                before_sibling matches Some(b) ==> m0.dom().contains(b) && m0[b].parent == Some(parent),
                after_sibling matches Some(b) ==> m0.dom().contains(b) && m0[b].parent == Some(parent),
                forall|j: int| 0 <= j < children@.len() ==> {
                    &&& m0.dom().contains(#[trigger] children@[j])
                    &&& children@[j] != root
                    &&& wid.0 + 1 < rank(m0[children@[j]])
                    &&& m0[children@[j]].parent == Some(parent)
                },
                children@.no_duplicates(),
                !m0.dom().contains(node_id),
            ensures
                (before_sibling, after_sibling, children@) == insert_plan(t, m, path@, pwid, kids@),
            decreases kids.len() - i,
        {
            let id = kids[i];
            proof {
                assert(kids@.take(i + 1).drop_last() =~= kids@.take(i as int));
                assert(kids@.take(i + 1).last() == id);
                assert(m0[parent].children[i as int] == id);
                assert(m0.dom().contains(id) && m0[id].parent == Some(parent));
                assert(id != root);
                assert(id != node_id);
            }
            let cw = arena_info(&self.arena, id).wid.unwrap();
            proof {
                assert(m[id] == m0[id]);
                assert(WidgetId(wid_of(m[id])) == cw);
            }
            let path2 = collect_sub_ancestors(cw, pwid, tree);
            proof {
                assert(path@.len() > 1);
            }
            match locate_position(&path, &path2, tree) {
                TreePosition::BeforeSibling => before_sibling = Some(id),
                TreePosition::SubTree => {
                    proof {
                        let x = path2@[path2@.len() - path@.len()];
                        assert(x == wid);
                        assert(ancestors_of(tree.view(), cw.0 as int).contains(x.0) || pwid == Some(x));
                        assert(wid_of(m0[id]) == cw.0);
                        assert(cw.0 < tree.view().len());
                        if ancestors_of(tree.view(), cw.0 as int).contains(x.0) {
                            lemma_on_path_below(tree.view(), cw.0 as int, x.0);
                        }
                        assert(!children@.contains(id)) by {
                            if children@.contains(id) {
                                let j = choose|j: int| 0 <= j < children@.len() && children@[j] == id;
                                let l = choose|l: int| 0 <= l < i && kids@[l] == children@[j];
                                assert(m0[parent].children.no_duplicates());
                                assert(kids@[l] == kids@[i as int]);
                            }
                        }
                        lemma_push_fresh(children@, id);
                    }
                    children.push(id);
                    proof {
                        assert forall|j: int| 0 <= j < children@.len() implies exists|l: int| 0 <= l < i + 1 && kids@[l] == #[trigger] children@[j] by {
                            if j == children@.len() - 1 {
                                assert(kids@[i as int] == children@[j]);
                            } else {
                                let l = choose|l: int| 0 <= l < i && kids@[l] == children@[j];
                                assert(kids@[l] == children@[j]);
                            }
                        }
                    }
                },
                TreePosition::AfterSibling => after_sibling = Some(id),
                TreePosition::Skip => {},
            }
            if before_sibling.is_some() {
                proof {
                    lemma_insert_plan_stops(t, m, path@, pwid, kids@, i + 1);
                }
                break;
            }
            i = i + 1;
        }
        match before_sibling {
            Some(b) => {
                proof {
                    lemma_place_fresh(m0, root, node_id, info, b, true);
                }
                arena_insert_before(&mut self.arena, b, node_id);
            },
            None => match after_sibling {
                Some(a) => {
                    proof {
                        lemma_place_fresh(m0, root, node_id, info, a, false);
                    }
                    arena_insert_after(&mut self.arena, a, node_id);
                },
                None => {
                    proof {
                        lemma_append_fresh(m0, root, node_id, info, parent);
                    }
                    arena_append(&mut self.arena, parent, node_id);
                },
            },
        }
        let ghost m2 = self.nodes();
        assert(m2 == inserted(m, parent, node_id, (before_sibling, after_sibling, Seq::<usize>::empty())));
        assert(children@.take(0) =~= Seq::<usize>::empty());
        assert(m2.dom() =~= m.dom());
        assert forall|x: usize| #[trigger] m.dom().contains(x) implies m2[x].info == m[x].info by {}
        let mut j: usize = 0;
        while j < children.len()
            invariant
                arena_ok(self.nodes(), root),
                self.root == root,
                self.nodes().dom() == m.dom(),
                forall|x: usize| #[trigger] m.dom().contains(x) ==> self.nodes()[x].info == m[x].info,
                self.nodes()[node_id].parent == Some(parent),
                self.nodes() == moved_under(m2, node_id, children@.take(j as int)),
                j <= children@.len(),
                m == m0.insert(node_id, fresh_slot(info)),
                info.wid == Some(wid),
                forall|l: int| 0 <= l < children@.len() ==> {
                    &&& m0.dom().contains(#[trigger] children@[l])
                    &&& children@[l] != root
                    &&& wid.0 + 1 < rank(m0[children@[l]])
                },
                self.node_ids@ == old(self).node_ids@,
                self.focusing == old(self).focusing,
                self.frame_auto_focus@ == old(self).frame_auto_focus@,
                self.focus_widgets@ == old(self).focus_widgets@,
                !m0.dom().contains(node_id),
            decreases children.len() - j,
        {
            let c = children[j];
            let ghost mc = self.nodes();
            proof {
                assert(m0.dom().contains(c));
                assert(c != node_id);
                assert(m.dom().contains(c));
                assert(m[c] == m0[c]);
                assert(m.dom().contains(node_id));
                assert(m[node_id] == fresh_slot(info));
                assert(mc[c].info == m0[c].info);
                assert(mc[node_id].info == info);
                assert(rank(mc[node_id]) < rank(mc[c]));
                lemma_append_move(mc, root, node_id, c);
                assert(node_id >= 1 && c >= 1);
            }
            arena_append(&mut self.arena, node_id, c);
            assert(children@.take(j + 1).drop_last() =~= children@.take(j as int));
            assert(children@.take(j + 1).last() == c);
            j = j + 1;
        }
        assert(children@.take(children@.len() as int) =~= children@);
    }
}

/// A node's data after one more registration of `ft`.
pub open spec fn info_bumped(info: FocusNodeInfo, ft: FocusType) -> FocusNodeInfo {
    FocusNodeInfo {
        scope_cnt: bumped((info.scope_cnt, info.node_cnt), ft).0 as u32,
        node_cnt: bumped((info.scope_cnt, info.node_cnt), ft).1 as u32,
        ..info
    }
}

/// A node's data after one registration of `ft` was withdrawn.
pub open spec fn info_dropped(info: FocusNodeInfo, ft: FocusType) -> FocusNodeInfo {
    FocusNodeInfo {
        scope_cnt: dropped_one((info.scope_cnt, info.node_cnt), ft).0 as u32,
        node_cnt: dropped_one((info.scope_cnt, info.node_cnt), ft).1 as u32,
        ..info
    }
}

/// The nodes after widget `w`'s node `k` withdrew one registration of
/// `ft`: the node leaves, its children taking its place, once nothing is
/// registered.
pub open spec fn withdrawn(m: Map<usize, FocusSlot>, k: usize, ft: FocusType) -> Map<usize, FocusSlot> {
    let info = info_dropped(m[k].info, ft);
    let m1 = m.insert(k, FocusSlot { info, ..m[k] });
    if info.scope_cnt == 0 && info.node_cnt == 0 {
        removed(m1, k)
    } else {
        m1
    }
}

/// What a new widget's node holds after its first registration of `ft`.
pub open spec fn first_info(wid: WidgetId, ft: FocusType) -> FocusNodeInfo {
    info_bumped(FocusNodeInfo { scope_cnt: 0, node_cnt: 0, wid: Some(wid) }, ft)
}

impl FocusNodeInfo {
    /// A node for `wid` with no scope and no node registered yet.
    pub fn new(wid: WidgetId) -> (r: FocusNodeInfo)
        ensures
            r == (FocusNodeInfo { scope_cnt: 0, node_cnt: 0, wid: Some(wid) }),
    {
        FocusNodeInfo { scope_cnt: 0, node_cnt: 0, wid: Some(wid) }
    }

    /// Whether the widget registered a focus node.
    pub fn has_focus_node(&self) -> (r: bool)
        ensures
            r == (self.node_cnt > 0),
    {
        self.node_cnt > 0
    }

    /// Whether the widget registered a focus scope.
    pub fn has_focus_scope(&self) -> (r: bool)
        ensures
            r == (self.scope_cnt > 0),
    {
        self.scope_cnt > 0
    }

    /// Counts one more registration of `ft`.
    pub fn add_focus(&mut self, ft: FocusType)
        requires
            ft == FocusType::Node ==> old(self).node_cnt < u32::MAX,
            ft == FocusType::Scope ==> old(self).scope_cnt < u32::MAX,
        ensures
            final(self).wid == old(self).wid,
            final(self).scope_cnt == bumped((old(self).scope_cnt, old(self).node_cnt), ft).0,
            final(self).node_cnt == bumped((old(self).scope_cnt, old(self).node_cnt), ft).1,
    {
        match ft {
            FocusType::Node => self.node_cnt = self.node_cnt + 1,
            FocusType::Scope => self.scope_cnt = self.scope_cnt + 1,
        }
    }

    /// Counts one registration of `ft` less.
    pub fn remove_focus(&mut self, ft: FocusType)
        requires
            ft == FocusType::Node ==> old(self).node_cnt > 0,
            ft == FocusType::Scope ==> old(self).scope_cnt > 0,
        ensures
            final(self).wid == old(self).wid,
            final(self).scope_cnt == dropped_one((old(self).scope_cnt, old(self).node_cnt), ft).0,
            final(self).node_cnt == dropped_one((old(self).scope_cnt, old(self).node_cnt), ft).1,
    {
        match ft {
            FocusType::Node => self.node_cnt = self.node_cnt - 1,
            FocusType::Scope => self.scope_cnt = self.scope_cnt - 1,
        }
    }

    /// Whether nothing is registered any more.
    pub fn is_empty(&self) -> (r: bool)
        ensures
            r == (self.node_cnt == 0 && self.scope_cnt == 0),
    {
        self.node_cnt == 0 && self.scope_cnt == 0
    }
}

/// Changing the counts of a node keeps the arena a tree.
proof fn lemma_set_info_ok(m: Map<usize, FocusSlot>, root: usize, k: usize, info: FocusNodeInfo)
    requires
        arena_ok(m, root),
        m.dom().contains(k),
        info.wid == m[k].info.wid,
    ensures
        arena_ok(m.insert(k, FocusSlot { info, ..m[k] }), root),
{
    let r = m.insert(k, FocusSlot { info, ..m[k] });
    assert(r.dom() =~= m.dom());
    assert forall|x: usize| #[trigger] r.dom().contains(x) implies r[x].parent == m[x].parent && r[x].children == m[x].children
        && rank(r[x]) == rank(m[x]) && r[x].info.wid == m[x].info.wid by {}
    assert forall|x: usize| #[trigger] r.dom().contains(x) && x != root implies {
        &&& r[x].info.wid is Some
        &&& r[x].parent is Some
        &&& r.dom().contains(r[x].parent->0)
        &&& rank(r[r[x].parent->0]) < rank(r[x])
        &&& r[r[x].parent->0].children.contains(x)
    } by {
        assert(m.dom().contains(m[x].parent->0));
    }
    assert forall|y: usize, j: int| #![trigger r[y].children[j]] r.dom().contains(y) && 0 <= j < r[y].children.len() implies {
        &&& r.dom().contains(r[y].children[j])
        &&& r[r[y].children[j]].parent == Some(y)
    } by {
        assert(m[y].children[j] == r[y].children[j]);
        assert(m.dom().contains(m[y].children[j]));
    }
    assert forall|y: usize| #[trigger] r.dom().contains(y) implies r[y].children.no_duplicates() by {}
}

impl FocusManager {
    /// The focus node under which a new node of `wid` goes: that of the
    /// nearest ancestor of `wid` that has one, or the root.
    pub open spec fn focus_parent(&self, t: Seq<NodeView>, wid: WidgetId) -> usize {
        nearest_node(self.ids(), ancestors_of(t, wid.0 as int).drop_first(), self.root)
    }

    /// The focus node of the nearest widget of `path[from..]` that has one,
    /// or the root.
    fn nearest_focus_node(&self, path: &Vec<WidgetId>, from: usize) -> (r: usize)
        requires
            from <= path@.len(),
        ensures
            r == nearest_node(self.ids(), path@.map_values(|w: WidgetId| w.0).skip(from as int), self.root),
        decreases path@.len() - from,
    {
        let ghost s = path@.map_values(|w: WidgetId| w.0).skip(from as int);
        if from == path.len() {
            assert(s.len() == 0);
            return self.root;
        }
        assert(s[0] == path@[from as int].0);
        match self.node_ids.get(&path[from].0) {
            Some(k) => *k,
            None => {
                assert(s.drop_first() =~= path@.map_values(|w: WidgetId| w.0).skip(from + 1));
                self.nearest_focus_node(path, from + 1)
            },
        }
    }

    /// Registers a focus node or a focus scope of `wid`; a widget's first
    /// registration gives it a node in the focus tree.
    #[verifier::spinoff_prover]
    #[verifier::rlimit(40)]
    pub fn add_focus_node(&mut self, tree: &WidgetTree, wid: WidgetId, auto_focus: bool, focus_type: FocusType)
        requires
            old(self).wf(),
            old(self).fits(tree.view().len()),
            tree.wf(),
            wid.0 < tree.view().len(),
            focus_type == FocusType::Node ==> old(self).counts(wid.0).1 < u32::MAX,
            focus_type == FocusType::Scope ==> old(self).counts(wid.0).0 < u32::MAX,
            old(self).ids().contains_key(wid.0) || old(self).nodes()[old(self).focus_parent(tree.view(), wid)].children.len() == 0
                || (!tree.view()[wid.0 as int].dropped && tree.view()[wid.0 as int].parent is Some),
        ensures
            final(self).wf(),
            final(self).fits(tree.view().len()),
            final(self).root == old(self).root,
            final(self).ids().dom() == old(self).ids().dom().insert(wid.0),
            final(self).counts(wid.0).0 == bumped(old(self).counts(wid.0), focus_type).0,
            final(self).counts(wid.0).1 == bumped(old(self).counts(wid.0), focus_type).1,
            forall|w: usize| w != wid.0 ==> #[trigger] final(self).counts(w) == old(self).counts(w),
            !old(self).ids().contains_key(wid.0) ==> final(self).nodes()[final(self).ids()[wid.0]].parent == Some(
                old(self).focus_parent(tree.view(), wid),
            ),
            old(self).ids().contains_key(wid.0) ==> final(self).ids() == old(self).ids() && final(self).nodes()
                == old(self).nodes().insert(
                old(self).ids()[wid.0],
                FocusSlot { info: info_bumped(old(self).nodes()[old(self).ids()[wid.0]].info, focus_type), ..old(self).nodes()[old(self).ids()[wid.0]] },
            ),
            !old(self).ids().contains_key(wid.0) ==> ({
                let k = final(self).ids()[wid.0];
                let p = old(self).focus_parent(tree.view(), wid);
                let m1 = old(self).nodes().insert(k, fresh_slot(first_info(wid, focus_type)));
                &&& !old(self).nodes().dom().contains(k)
                &&& final(self).ids() == old(self).ids().insert(wid.0, k)
                &&& final(self).nodes() == inserted(
                    m1,
                    p,
                    k,
                    insert_plan(
                        tree.view(),
                        m1,
                        sub_path(tree.view(), wid, m1[p].info.wid),
                        m1[p].info.wid,
                        m1[p].children,
                    ),
                )
            }),
            final(self).frame_auto_focus@ == (if auto_focus && focus_type == FocusType::Node {
                old(self).frame_auto_focus@.push(wid)
            } else {
                old(self).frame_auto_focus@
            }),
            final(self).focusing == old(self).focusing,
            final(self).focus_widgets@ == old(self).focus_widgets@,
    {
        let ghost m = self.nodes();
        let ghost ids = self.ids();
        let ghost root = self.root;
        match self.node_ids.get(&wid.0) {
            Some(k) => {
                let k = *k;
                let mut info = arena_info(&self.arena, k);
                info.add_focus(focus_type);
                proof {
                    lemma_set_info_ok(m, root, k, info);
                }
                arena_set_info(&mut self.arena, k, info);
                proof {
                    let m2 = self.nodes();
                    assert forall|w: usize| w != wid.0 implies #[trigger] self.counts(w) == old(self).counts(w) by {
                        if ids.contains_key(w) {
                            assert(ids[w] != k);
                        }
                    }
                    assert forall|x: usize| #[trigger] m2.dom().contains(x) && x != root implies {
                        &&& ids.contains_key(wid_of(m2[x]))
                        &&& ids[wid_of(m2[x])] == x
                        &&& (m2[x].info.node_cnt > 0 || m2[x].info.scope_cnt > 0)
                    } by {
                        assert(m.dom().contains(x));
                    }
                    assert(ids.dom() =~= ids.dom().insert(wid.0));
                }
            },
            None => {
                let anc = tree.ancestors(wid);
                let parent = self.nearest_focus_node(&anc, 1);
                proof {
                    assert(anc@.map_values(|w: WidgetId| w.0).skip(1) =~= ancestors_of(tree.view(), wid.0 as int).drop_first());
                    lemma_ancestors_in_range(tree.view(), wid.0 as int);
                    let path = ancestors_of(tree.view(), wid.0 as int).drop_first();
                    lemma_nearest_node(ids, path, root, m, wid.0);
                }
                let mut info = FocusNodeInfo::new(wid);
                info.add_focus(focus_type);
                let k = arena_new_node(&mut self.arena, info);
                self.node_ids.insert(wid.0, k);
                proof {
                    let m1 = self.nodes();
                    assert(m1.remove(k) =~= m);
                    assert(m1[k] == fresh_slot(info));
                    assert forall|x: usize| #[trigger] m1.remove(k).dom().contains(x) && x != root implies wid_of(m1[x]) != wid.0
                        && wid_of(m1[x]) < tree.view().len() by {
                        assert(m.dom().contains(x));
                        assert(ids.contains_key(wid_of(m[x])));
                    }
                    if parent != root {
                        assert(m[parent].info.wid is Some);
                    }
                }
                self.insert_node(parent, k, wid, tree);
                proof {
                    let m3 = self.nodes();
                    let ids3 = self.ids();
                    assert(ids3 == ids.insert(wid.0, k));
                    assert(!m.dom().contains(k));
                    assert(k != root);
                    assert forall|w: usize| #[trigger] ids3.contains_key(w) implies {
                        &&& m3.dom().contains(ids3[w])
                        &&& ids3[w] != root
                        &&& m3[ids3[w]].info.wid == Some(WidgetId(w))
                    } by {
                        if w != wid.0 {
                            assert(ids.contains_key(w));
                            assert(m.dom().contains(ids[w]));
                        }
                    }
                    assert forall|x: usize| #[trigger] m3.dom().contains(x) && x != root implies {
                        &&& ids3.contains_key(wid_of(m3[x]))
                        &&& ids3[wid_of(m3[x])] == x
                        &&& (m3[x].info.node_cnt > 0 || m3[x].info.scope_cnt > 0)
                    } by {
                        if x != k {
                            assert(m.dom().contains(x));
                            assert(ids.contains_key(wid_of(m[x])));
                        }
                    }
                    assert forall|w: usize| w != wid.0 implies #[trigger] self.counts(w) == old(self).counts(w) by {
                        if ids.contains_key(w) {
                            assert(m.dom().contains(ids[w]));
                        }
                    }
                    assert(ids3.dom() =~= ids.dom().insert(wid.0));
                }
            },
        }
        if auto_focus && focus_type == FocusType::Node {
            self.frame_auto_focus.push(wid);
        }
    }

    /// Withdraws one registration of `focus_type` of `wid`; its node leaves
    /// the focus tree once nothing is registered.
    pub fn remove_focus_node(&mut self, wid: WidgetId, focus_type: FocusType)
        requires
            old(self).wf(),
            old(self).ids().contains_key(wid.0) ==> (focus_type == FocusType::Node ==> old(self).counts(wid.0).1 > 0),
            old(self).ids().contains_key(wid.0) ==> (focus_type == FocusType::Scope ==> old(self).counts(wid.0).0 > 0),
        ensures
            final(self).wf(),
            final(self).root == old(self).root,
            forall|len: nat| old(self).fits(len) ==> #[trigger] final(self).fits(len),
            !old(self).ids().contains_key(wid.0) ==> final(self).ids() == old(self).ids() && final(self).nodes() == old(self).nodes(),
            old(self).ids().contains_key(wid.0) ==> final(self).nodes() == withdrawn(old(self).nodes(), old(self).ids()[wid.0], focus_type),
            old(self).ids().contains_key(wid.0) ==> final(self).counts(wid.0).0 == dropped_one(old(self).counts(wid.0), focus_type).0,
            old(self).ids().contains_key(wid.0) ==> final(self).counts(wid.0).1 == dropped_one(old(self).counts(wid.0), focus_type).1,
            final(self).ids().contains_key(wid.0) <==> (old(self).ids().contains_key(wid.0) && final(self).counts(wid.0) != (0u32, 0u32)),
            forall|w: usize| w != wid.0 ==> #[trigger] final(self).counts(w) == old(self).counts(w),
            final(self).focusing == old(self).focusing,
            final(self).frame_auto_focus@ == old(self).frame_auto_focus@,
            final(self).focus_widgets@ == old(self).focus_widgets@,
    {
        let ghost m = self.nodes();
        let ghost ids = self.ids();
        let ghost root = self.root;
        let k = match self.node_ids.get(&wid.0) {
            Some(k) => *k,
            None => return,
        };
        let mut info = arena_info(&self.arena, k);
        info.remove_focus(focus_type);
        proof {
            lemma_set_info_ok(m, root, k, info);
        }
        arena_set_info(&mut self.arena, k, info);
        let ghost m1 = self.nodes();
        if info.is_empty() {
            proof {
                lemma_remove_ok(m1, root, k);
            }
            arena_remove(&mut self.arena, k);
            self.node_ids.remove(&wid.0);
            proof {
                let m2 = self.nodes();
                let ids2 = self.ids();
                assert(ids2 == ids.remove(wid.0));
                assert forall|w: usize| #[trigger] ids2.contains_key(w) implies {
                    &&& m2.dom().contains(ids2[w])
                    &&& ids2[w] != root
                    &&& m2[ids2[w]].info.wid == Some(WidgetId(w))
                } by {
                    assert(ids.contains_key(w));
                    assert(m.dom().contains(ids[w]));
                    assert(ids[w] != k);
                    assert(m1.dom().contains(ids[w]));
                }
                assert forall|x: usize| #[trigger] m2.dom().contains(x) && x != root implies {
                    &&& ids2.contains_key(wid_of(m2[x]))
                    &&& ids2[wid_of(m2[x])] == x
                    &&& (m2[x].info.node_cnt > 0 || m2[x].info.scope_cnt > 0)
                } by {
                    assert(m1.dom().contains(x));
                    assert(m.dom().contains(x));
                    assert(x != k);
                    assert(ids.contains_key(wid_of(m[x])));
                }
                assert forall|w: usize| w != wid.0 implies #[trigger] self.counts(w) == old(self).counts(w) by {
                    if ids.contains_key(w) {
                        assert(m.dom().contains(ids[w]));
                        assert(ids[w] != k);
                    }
                }
            }
        } else {
            proof {
                let m2 = self.nodes();
                assert forall|x: usize| #[trigger] m2.dom().contains(x) && x != root implies {
                    &&& ids.contains_key(wid_of(m2[x]))
                    &&& ids[wid_of(m2[x])] == x
                    &&& (m2[x].info.node_cnt > 0 || m2[x].info.scope_cnt > 0)
                } by {
                    assert(m.dom().contains(x));
                }
                assert forall|w: usize| w != wid.0 implies #[trigger] self.counts(w) == old(self).counts(w) by {
                    if ids.contains_key(w) {
                        assert(ids[w] != k);
                    }
                }
            }
        }
    }
}

/// The nearest node of a widget's proper ancestors lies in the arena and
/// ranks below the widget.
proof fn lemma_nearest_node(ids: Map<usize, usize>, path: Seq<usize>, root: usize, m: Map<usize, FocusSlot>, w: usize)
    requires
        arena_ok(m, root),
        index_ok(ids, m, root),
        forall|j: int| 0 <= j < path.len() ==> (#[trigger] path[j]) < w,
    ensures
        m.dom().contains(nearest_node(ids, path, root)),
        rank(m[nearest_node(ids, path, root)]) < w + 1,
    decreases path.len(),
{
    if path.len() > 0 {
        if ids.contains_key(path[0]) {
            assert(m[ids[path[0]]].info.wid == Some(WidgetId(path[0])));
        } else {
            assert forall|j: int| 0 <= j < path.drop_first().len() implies (#[trigger] path.drop_first()[j]) < w by {
                assert(path.drop_first()[j] == path[j + 1]);
            }
            lemma_nearest_node(ids, path.drop_first(), root, m, w);
        }
    }
}

/// An entry of a scope's tab order: tab index, focus node, and whether the
/// entry stands for the node itself or for the scope it hosts.
pub type TabEntry = (i16, usize, FocusType);

/// The tab index of a node's widget: zero when it sets none, is dropped, or
/// for the root.
pub open spec fn tab_index_of(t: Seq<NodeView>, s: FocusSlot) -> i16 {
    match s.info.wid {
        Some(w) => if w.0 < t.len() && !t[w.0 as int].dropped {
            match t[w.0 as int].attrs.tab_index {
                Some(i) => i,
                None => 0,
            }
        } else {
            0
        },
        None => 0,
    }
}

/// The focus scope settings of a widget: the default ones when it has none
/// or is dropped.
pub open spec fn scope_prop(t: Seq<NodeView>, wid: Option<WidgetId>) -> FocusScope {
    match wid {
        Some(w) => if w.0 < t.len() && !t[w.0 as int].dropped {
            match t[w.0 as int].attrs.scope {
                Some(sc) => sc,
                None => FocusScope { skip_host: false, skip_descendants: false },
            }
        } else {
            FocusScope { skip_host: false, skip_descendants: false }
        },
        None => FocusScope { skip_host: false, skip_descendants: false },
    }
}

/// The entries a node gets in its scope's tab order: the node itself unless
/// its scope skips its host, and its scope unless it skips its descendants.
pub open spec fn node_types(t: Seq<NodeView>, s: FocusSlot) -> Seq<FocusType> {
    if s.info.scope_cnt > 0 {
        let sc = scope_prop(t, s.info.wid);
        (if s.info.node_cnt > 0 && !sc.skip_host { seq![FocusType::Node] } else { Seq::empty() }) + (if !sc.skip_descendants {
            seq![FocusType::Scope]
        } else {
            Seq::empty()
        })
    } else if s.info.node_cnt > 0 {
        seq![FocusType::Node]
    } else {
        Seq::empty()
    }
}

/// The nodes below `k` in document order, not entering nodes that host a
/// scope.
pub open spec fn walk(m: Map<usize, FocusSlot>, k: usize) -> Seq<usize>
    decreases usize::MAX + 1 - rank(m[k]), 1int, 0int,
{
    walk_kids(m, k, m[k].children)
}

/// The walk below `k` through its children `cs`.
pub open spec fn walk_kids(m: Map<usize, FocusSlot>, k: usize, cs: Seq<usize>) -> Seq<usize>
    decreases usize::MAX + 1 - rank(m[k]), 0int, cs.len(),
{
    if cs.len() == 0 {
        Seq::empty()
    } else {
        let c = cs.last();
        walk_kids(m, k, cs.drop_last()) + (if rank(m[k]) < rank(m[c]) {
            seq![c] + (if m[c].info.scope_cnt > 0 { Seq::empty() } else { walk(m, c) })
        } else {
            Seq::empty()
        })
    }
}

/// The tab entries of the nodes `ks` with a tab index that is not negative.
pub open spec fn entries_of(t: Seq<NodeView>, m: Map<usize, FocusSlot>, ks: Seq<usize>) -> Seq<TabEntry>
    decreases ks.len(),
{
    if ks.len() == 0 {
        Seq::empty()
    } else {
        let k = ks.last();
        let i = tab_index_of(t, m[k]);
        entries_of(t, m, ks.drop_last()) + (if i >= 0 {
            node_types(t, m[k]).map_values(|ft: FocusType| (i, k, ft))
        } else {
            Seq::empty()
        })
    }
}

/// The order of a tab index: positive ones by value, zero after all of them.
pub open spec fn tab_key(i: i16) -> int {
    if i == 0 {
        0x10000
    } else {
        i as int
    }
}

/// `e` inserted into `s` after every entry whose order is not after it.
pub open spec fn insert_entry(s: Seq<TabEntry>, e: TabEntry) -> Seq<TabEntry>
    decreases s.len(),
{
    if s.len() == 0 {
        seq![e]
    } else if tab_key(s.last().0) <= tab_key(e.0) {
        s.push(e)
    } else {
        insert_entry(s.drop_last(), e).push(s.last())
    }
}

/// `s` stably sorted by tab order: entries of equal order keep their order.
pub open spec fn sorted_entries(s: Seq<TabEntry>) -> Seq<TabEntry>
    decreases s.len(),
{
    if s.len() == 0 {
        Seq::empty()
    } else {
        insert_entry(sorted_entries(s.drop_last()), s.last())
    }
}

/// The tab order of the scope hosted by node `scope`, reversed when moving
/// backward.
pub open spec fn tab_order(t: Seq<NodeView>, m: Map<usize, FocusSlot>, scope: usize, backward: bool) -> Seq<TabEntry> {
    let s = sorted_entries(entries_of(t, m, walk(m, scope)));
    if backward {
        s.reverse()
    } else {
        s
    }
}

proof fn lemma_insert_entry_at(s: Seq<TabEntry>, e: TabEntry, j: int)
    requires
        0 <= j <= s.len(),
        forall|k: int| j <= k < s.len() ==> tab_key(e.0) < tab_key(#[trigger] s[k].0),
        j == 0 || tab_key(s[j - 1].0) <= tab_key(e.0),
    ensures
        insert_entry(s, e) == s.take(j).push(e) + s.skip(j),
    decreases s.len(),
{
    if s.len() == j {
        if j == 0 {
            assert(s.take(0).push(e) + s.skip(0) =~= seq![e]);
        } else {
            assert(s.take(j).push(e) + s.skip(j) =~= s.push(e));
        }
    } else {
        lemma_insert_entry_at(s.drop_last(), e, j);
        assert(s.drop_last().take(j).push(e) + s.drop_last().skip(j) + seq![s.last()] =~= s.take(j).push(e) + s.skip(j));
    }
}

/// Every node of a walk below `k` ranks above `k`.
proof fn lemma_walk_ranks(m: Map<usize, FocusSlot>, k: usize)
    ensures
        forall|x: usize| #[trigger] walk(m, k).contains(x) ==> rank(m[k]) < rank(m[x]),
    decreases usize::MAX + 1 - rank(m[k]), 1int, 0int,
{
    lemma_walk_kids_ranks(m, k, m[k].children);
    assert(walk(m, k) == walk_kids(m, k, m[k].children));
}

proof fn lemma_walk_kids_ranks(m: Map<usize, FocusSlot>, k: usize, cs: Seq<usize>)
    ensures
        forall|x: usize| #[trigger] walk_kids(m, k, cs).contains(x) ==> rank(m[k]) < rank(m[x]),
    decreases usize::MAX + 1 - rank(m[k]), 0int, cs.len(),
{
    if cs.len() > 0 {
        let c = cs.last();
        lemma_walk_kids_ranks(m, k, cs.drop_last());
        let a = walk_kids(m, k, cs.drop_last());
        if rank(m[k]) < rank(m[c]) {
            let b = if m[c].info.scope_cnt > 0 { Seq::<usize>::empty() } else { walk(m, c) };
            if m[c].info.scope_cnt == 0 {
                lemma_walk_ranks(m, c);
            }
            lemma_seq_contains_cons(c, b);
            lemma_seq_concat_contains(a, seq![c] + b);
        } else {
            assert(walk_kids(m, k, cs) == a + Seq::<usize>::empty());
            assert(a + Seq::<usize>::empty() =~= a);
        }
    }
}

/// Every entry comes from one of the nodes.
proof fn lemma_entries_from(t: Seq<NodeView>, m: Map<usize, FocusSlot>, ks: Seq<usize>)
    ensures
        forall|j: int| 0 <= j < entries_of(t, m, ks).len() ==> ks.contains(#[trigger] entries_of(t, m, ks)[j].1),
    decreases ks.len(),
{
    if ks.len() > 0 {
        let k = ks.last();
        lemma_entries_from(t, m, ks.drop_last());
        let a = entries_of(t, m, ks.drop_last());
        let i = tab_index_of(t, m[k]);
        let b = if i >= 0 { node_types(t, m[k]).map_values(|ft: FocusType| (i, k, ft)) } else { Seq::<TabEntry>::empty() };
        let r = entries_of(t, m, ks);
        assert(r == a + b);
        assert forall|j: int| 0 <= j < r.len() implies ks.contains(#[trigger] r[j].1) by {
            if j < a.len() {
                assert(r[j] == a[j]);
                let l = choose|l: int| 0 <= l < ks.drop_last().len() && ks.drop_last()[l] == a[j].1;
                assert(ks[l] == a[j].1);
            } else {
                assert(r[j] == b[j - a.len()]);
                assert(ks[ks.len() - 1] == k);
            }
        }
    }
}

/// Sorting keeps the entries.
proof fn lemma_sorted_members(s: Seq<TabEntry>)
    ensures
        sorted_entries(s).len() == s.len(),
        forall|j: int| 0 <= j < sorted_entries(s).len() ==> s.contains(#[trigger] sorted_entries(s)[j]),
    decreases s.len(),
{
    if s.len() > 0 {
        let p = s.drop_last();
        lemma_sorted_members(p);
        lemma_insert_entry_members(sorted_entries(p), s.last());
        let r = sorted_entries(s);
        assert forall|j: int| 0 <= j < r.len() implies s.contains(#[trigger] r[j]) by {
            if r[j] == s.last() {
                assert(s[s.len() - 1] == r[j]);
            } else {
                let l = choose|l: int| 0 <= l < sorted_entries(p).len() && sorted_entries(p)[l] == r[j];
                let l2 = choose|l2: int| 0 <= l2 < p.len() && p[l2] == sorted_entries(p)[l];
                assert(s[l2] == r[j]);
            }
        }
    }
}

proof fn lemma_insert_entry_members(s: Seq<TabEntry>, e: TabEntry)
    ensures
        insert_entry(s, e).len() == s.len() + 1,
        forall|j: int| 0 <= j < insert_entry(s, e).len() ==> (#[trigger] insert_entry(s, e)[j] == e || s.contains(insert_entry(s, e)[j])),
    decreases s.len(),
{
    if s.len() > 0 {
        let r = insert_entry(s, e);
        if tab_key(s.last().0) <= tab_key(e.0) {
            assert forall|j: int| 0 <= j < r.len() implies (#[trigger] r[j] == e || s.contains(r[j])) by {
                if j < s.len() {
                    assert(r[j] == s[j]);
                }
            }
        } else {
            let p = s.drop_last();
            lemma_insert_entry_members(p, e);
            let q = insert_entry(p, e);
            assert forall|j: int| 0 <= j < r.len() implies (#[trigger] r[j] == e || s.contains(r[j])) by {
                if j < q.len() {
                    assert(r[j] == q[j]);
                    if q[j] != e {
                        let l = choose|l: int| 0 <= l < p.len() && p[l] == q[j];
                        assert(s[l] == q[j]);
                    }
                } else {
                    assert(r[j] == s[s.len() - 1]);
                }
            }
        }
    }
}

/// Every entry of a scope's tab order is a node of the walk below the
/// scope, so it ranks above it.
proof fn lemma_tab_order_ranks(t: Seq<NodeView>, m: Map<usize, FocusSlot>, scope: usize, backward: bool)
    ensures
        forall|j: int| 0 <= j < tab_order(t, m, scope, backward).len() ==> rank(m[scope]) < rank(
            m[#[trigger] tab_order(t, m, scope, backward)[j].1],
        ),
        forall|j: int| 0 <= j < tab_order(t, m, scope, backward).len() ==> walk(m, scope).contains(
            #[trigger] tab_order(t, m, scope, backward)[j].1,
        ),
{
    let w = walk(m, scope);
    let e = entries_of(t, m, w);
    let s = sorted_entries(e);
    lemma_walk_ranks(m, scope);
    lemma_entries_from(t, m, w);
    lemma_sorted_members(e);
    let r = tab_order(t, m, scope, backward);
    assert forall|j: int| 0 <= j < r.len() implies rank(m[scope]) < rank(m[#[trigger] r[j].1]) by {
        let x = if backward { s[s.len() - 1 - j] } else { s[j] };
        assert(r[j] == x);
        let jj = if backward { s.len() - 1 - j } else { j };
        assert(s[jj] == x);
        assert(e.contains(x));
        let l = choose|l: int| 0 <= l < e.len() && e[l] == x;
        assert(w.contains(e[l].1));
    }
}

/// Every node of a walk below a node of a tree arena is in the arena.
proof fn lemma_walk_in_dom(m: Map<usize, FocusSlot>, root: usize, k: usize)
    requires
        arena_ok(m, root),
        m.dom().contains(k),
    ensures
        forall|x: usize| #[trigger] walk(m, k).contains(x) ==> m.dom().contains(x),
    decreases usize::MAX + 1 - rank(m[k]), 1int, 0int,
{
    lemma_walk_kids_in_dom(m, root, k, m[k].children);
    assert(walk(m, k) == walk_kids(m, k, m[k].children));
}

proof fn lemma_walk_kids_in_dom(m: Map<usize, FocusSlot>, root: usize, k: usize, cs: Seq<usize>)
    requires
        arena_ok(m, root),
        m.dom().contains(k),
        forall|x: usize| #[trigger] cs.contains(x) ==> m.dom().contains(x),
    ensures
        forall|x: usize| #[trigger] walk_kids(m, k, cs).contains(x) ==> m.dom().contains(x),
    decreases usize::MAX + 1 - rank(m[k]), 0int, cs.len(),
{
    if cs.len() > 0 {
        let c = cs.last();
        assert(cs.contains(c)) by {
            assert(cs[cs.len() - 1] == c);
        }
        assert forall|x: usize| #[trigger] cs.drop_last().contains(x) implies m.dom().contains(x) by {
            let j = choose|j: int| 0 <= j < cs.drop_last().len() && cs.drop_last()[j] == x;
            assert(cs[j] == x);
            assert(cs.contains(x));
        }
        lemma_walk_kids_in_dom(m, root, k, cs.drop_last());
        let a = walk_kids(m, k, cs.drop_last());
        if rank(m[k]) < rank(m[c]) {
            let b = if m[c].info.scope_cnt > 0 { Seq::<usize>::empty() } else { walk(m, c) };
            if m[c].info.scope_cnt == 0 {
                lemma_walk_in_dom(m, root, c);
            }
            lemma_seq_contains_cons(c, b);
            lemma_seq_concat_contains(a, seq![c] + b);
        } else {
            assert(walk_kids(m, k, cs) == a + Seq::<usize>::empty());
            assert(a + Seq::<usize>::empty() =~= a);
        }
    }
}

/// Where the search in a tab order starts: after the first entry of `node`,
/// or at the beginning.
pub open spec fn start_from(v: Seq<TabEntry>, node: Option<usize>, p: int) -> int
    decreases v.len() - p,
{
    if p < 0 || p >= v.len() {
        0
    } else if Some(v[p].1) == node {
        p + 1
    } else {
        start_from(v, node, p + 1)
    }
}

/// The node that keyboard navigation reaches from node `node` (from the
/// beginning when none) in the scope hosted by `scope`, entering nested
/// scopes.
pub open spec fn step_in(t: Seq<NodeView>, m: Map<usize, FocusSlot>, scope: usize, node: Option<usize>, backward: bool) -> Option<usize>
    decreases usize::MAX + 1 - rank(m[scope]), 1int, 0int,
{
    let v = tab_order(t, m, scope, backward);
    first_from(t, m, scope, v, start_from(v, node, 0), backward)
}

/// The first node reachable from entry `j` on of `v`, the tab order of the
/// scope hosted by `scope`.
pub open spec fn first_from(t: Seq<NodeView>, m: Map<usize, FocusSlot>, scope: usize, v: Seq<TabEntry>, j: int, backward: bool) -> Option<usize>
    decreases usize::MAX + 1 - rank(m[scope]), 0int, v.len() - j,
{
    if j < 0 || j >= v.len() {
        None
    } else {
        let e = v[j];
        let next = if e.2 == FocusType::Scope {
            if rank(m[scope]) < rank(m[e.1]) {
                step_in(t, m, e.1, None, backward)
            } else {
                None
            }
        } else {
            Some(e.1)
        };
        if next is Some {
            next
        } else {
            first_from(t, m, scope, v, j + 1, backward)
        }
    }
}

/// The nearest proper ancestor of node `n` that hosts a scope.
pub open spec fn scope_up(m: Map<usize, FocusSlot>, n: usize) -> Option<usize>
    decreases rank(m[n]),
{
    match m[n].parent {
        Some(p) => if m[p].info.scope_cnt > 0 {
            Some(p)
        } else if rank(m[p]) < rank(m[n]) {
            scope_up(m, p)
        } else {
            None
        },
        None => None,
    }
}

/// Navigation from `node` in the scope hosted by `scope`, climbing to the
/// enclosing scopes while nothing is found.
pub open spec fn climb(t: Seq<NodeView>, m: Map<usize, FocusSlot>, node: Option<usize>, scope: usize, backward: bool) -> Option<usize>
    decreases rank(m[scope]),
{
    match step_in(t, m, scope, node, backward) {
        Some(id) => Some(id),
        None => match scope_up(m, scope) {
            Some(s2) => if rank(m[s2]) < rank(m[scope]) {
                climb(t, m, Some(scope), s2, backward)
            } else {
                None
            },
            None => None,
        },
    }
}

proof fn lemma_scope_up(m: Map<usize, FocusSlot>, root: usize, n: usize)
    requires
        arena_ok(m, root),
        m.dom().contains(n),
    ensures
        scope_up(m, n) matches Some(s) ==> m.dom().contains(s) && rank(m[s]) < rank(m[n]) && m[s].info.scope_cnt > 0,
    decreases rank(m[n]),
{
    match m[n].parent {
        Some(p) => {
            assert(n != root);
            if m[p].info.scope_cnt == 0 {
                lemma_scope_up(m, root, p);
            }
        },
        None => {},
    }
}

impl FocusManager {
    /// The tab index of node `k`'s widget.
    fn tab_index(&self, tree: &WidgetTree, k: usize) -> (r: i16)
        requires
            self.wf(),
            self.nodes().dom().contains(k),
        ensures
            r == tab_index_of(tree.view(), self.nodes()[k]),
    {
        let info = arena_info(&self.arena, k);
        match info.wid {
            Some(w) => if !tree.is_dropped(w) {
                match tree.attrs(w).tab_index {
                    Some(i) => i,
                    None => 0,
                }
            } else {
                0
            },
            None => 0,
        }
    }

    /// The focus scope settings of `wid`.
    fn scope_property(&self, tree: &WidgetTree, wid: Option<WidgetId>) -> (r: FocusScope)
        ensures
            r == scope_prop(tree.view(), wid),
    {
        match wid {
            Some(w) => if !tree.is_dropped(w) {
                match tree.attrs(w).scope {
                    Some(sc) => sc,
                    None => FocusScope::default(),
                }
            } else {
                FocusScope::default()
            },
            None => FocusScope::default(),
        }
    }

    /// The entries node `k` gets in its scope's tab order.
    fn node_type(&self, tree: &WidgetTree, k: usize) -> (r: Vec<FocusType>)
        requires
            self.wf(),
            self.nodes().dom().contains(k),
        ensures
            r@ == node_types(tree.view(), self.nodes()[k]),
    {
        let info = arena_info(&self.arena, k);
        let mut v: Vec<FocusType> = Vec::new();
        if info.has_focus_scope() {
            let sc = self.scope_property(tree, info.wid);
            if info.has_focus_node() && !sc.skip_host {
                v.push(FocusType::Node);
            }
            if !sc.skip_descendants {
                v.push(FocusType::Scope);
            }
            proof {
                let a = if info.node_cnt > 0 && !sc.skip_host { seq![FocusType::Node] } else { Seq::<FocusType>::empty() };
                let b = if !sc.skip_descendants { seq![FocusType::Scope] } else { Seq::<FocusType>::empty() };
                assert(v@ =~= a + b);
            }
        } else if info.has_focus_node() {
            v.push(FocusType::Node);
        }
        v
    }

    /// Appends the walk below node `k` to `out`.
    fn walk_into(&self, k: usize, out: &mut Vec<usize>)
        requires
            self.wf(),
            self.nodes().dom().contains(k),
        ensures
            final(out)@ == old(out)@ + walk(self.nodes(), k),
        decreases usize::MAX + 1 - rank(self.nodes()[k]),
    {
        let ghost m = self.nodes();
        let ghost start = old(out)@;
        let cs = arena_children(&self.arena, k);
        let mut i: usize = 0;
        assert(cs@.take(0) =~= Seq::<usize>::empty());
        while i < cs.len()
            invariant
                self.wf(),
                m == self.nodes(),
                m.dom().contains(k),
                cs@ == m[k].children,
                i <= cs@.len(),
                out@ == start + walk_kids(m, k, cs@.take(i as int)),
            decreases cs.len() - i,
        {
            let c = cs[i];
            proof {
                assert(m[k].children[i as int] == c);
                assert(m.dom().contains(c) && m[c].parent == Some(k));
                assert(c != self.root);
                assert(cs@.take(i + 1).drop_last() =~= cs@.take(i as int));
                assert(cs@.take(i + 1).last() == c);
            }
            out.push(c);
            let info = arena_info(&self.arena, c);
            if !info.has_focus_scope() {
                self.walk_into(c, out);
                assert(out@ =~= start + walk_kids(m, k, cs@.take(i + 1)));
            } else {
                assert(out@ =~= start + walk_kids(m, k, cs@.take(i + 1)));
            }
            i = i + 1;
        }
        assert(cs@.take(cs@.len() as int) =~= cs@);
    }

    /// The tab order of the scope hosted by node `scope`, reversed when moving
    /// backward.
    fn collect_tab_index_in_scope(&self, tree: &WidgetTree, scope: usize, backward: bool) -> (r: Vec<TabEntry>)
        requires
            self.wf(),
            self.nodes().dom().contains(scope),
        ensures
            r@ == tab_order(tree.view(), self.nodes(), scope, backward),
    {
        let ghost m = self.nodes();
        let ghost t = tree.view();
        let mut ks: Vec<usize> = Vec::new();
        self.walk_into(scope, &mut ks);
        assert(ks@ =~= walk(m, scope));
        proof {
            lemma_walk_in_dom(m, self.root, scope);
        }
        let mut es: Vec<TabEntry> = Vec::new();
        let mut i: usize = 0;
        assert(ks@.take(0) =~= Seq::<usize>::empty());
        while i < ks.len()
            invariant
                self.wf(),
                m == self.nodes(),
                t == tree.view(),
                ks@ == walk(m, scope),
                forall|x: usize| #[trigger] walk(m, scope).contains(x) ==> m.dom().contains(x),
                i <= ks@.len(),
                es@ == entries_of(t, m, ks@.take(i as int)),
            decreases ks.len() - i,
        {
            let k = ks[i];
            proof {
                assert(ks@.contains(k)) by {
                    assert(ks@[i as int] == k);
                }
                assert(ks@.take(i + 1).drop_last() =~= ks@.take(i as int));
                assert(ks@.take(i + 1).last() == k);
            }
            let ti = self.tab_index(tree, k);
            if ti >= 0 {
                let ts = self.node_type(tree, k);
                let ghost before = es@;
                let mut j: usize = 0;
                while j < ts.len()
                    invariant
                        j <= ts@.len(),
                        es@ == before + ts@.take(j as int).map_values(|ft: FocusType| (ti, k, ft)),
                    decreases ts.len() - j,
                {
                    es.push((ti, k, ts[j]));
                    assert(ts@.take(j + 1).map_values(|ft: FocusType| (ti, k, ft)) =~= ts@.take(j as int).map_values(
                        |ft: FocusType| (ti, k, ft),
                    ).push((ti, k, ts@[j as int])));
                    j = j + 1;
                }
                assert(ts@.take(ts@.len() as int) =~= ts@);
                assert(es@ =~= entries_of(t, m, ks@.take(i + 1)));
            } else {
                assert(es@ =~= entries_of(t, m, ks@.take(i + 1)));
            }
            i = i + 1;
        }
        assert(ks@.take(ks@.len() as int) =~= ks@);
        let ghost e = es@;
        let mut out: Vec<TabEntry> = Vec::new();
        let mut i: usize = 0;
        assert(e.take(0) =~= Seq::<TabEntry>::empty());
        while i < es.len()
            invariant
                e == es@,
                i <= es@.len(),
                out@ == sorted_entries(e.take(i as int)),
            decreases es.len() - i,
        {
            let x = es[i];
            let mut j: usize = out.len();
            while j > 0 && x.0 != 0 && (out[j - 1].0 == 0 || x.0 < out[j - 1].0)
                invariant
                    j <= out@.len(),
                    forall|k: int| j <= k < out@.len() ==> tab_key(x.0) < tab_key(#[trigger] out@[k].0),
                decreases j,
            {
                j = j - 1;
            }
            proof {
                lemma_insert_entry_at(out@, x, j as int);
                assert(e.take(i + 1).drop_last() =~= e.take(i as int));
                assert(e.take(i + 1).last() == x);
            }
            out.insert(j, x);
            assert(out@ =~= sorted_entries(e.take(i as int)).take(j as int).push(x) + sorted_entries(e.take(i as int)).skip(j as int));
            i = i + 1;
        }
        assert(e.take(e.len() as int) =~= e);
        if backward {
            let mut rev: Vec<TabEntry> = Vec::new();
            let mut i: usize = out.len();
            while i > 0
                invariant
                    i <= out@.len(),
                    rev@.len() == out@.len() - i,
                    forall|j: int| 0 <= j < rev@.len() ==> #[trigger] rev@[j] == out@[out@.len() - 1 - j],
                decreases i,
            {
                i = i - 1;
                rev.push(out[i]);
            }
            assert(rev@ =~= out@.reverse());
            rev
        } else {
            out
        }
    }
}

/// The focus node of the nearest widget of `path` that has one.
pub open spec fn first_node(ids: Map<usize, usize>, path: Seq<usize>) -> Option<usize>
    decreases path.len(),
{
    if path.len() == 0 {
        None
    } else if ids.contains_key(path[0]) {
        Some(ids[path[0]])
    } else {
        first_node(ids, path.drop_first())
    }
}

/// Node `s` hosts a scope whose live widget skips its descendants.
pub open spec fn blocks(t: Seq<NodeView>, s: FocusSlot) -> bool {
    match s.info.wid {
        Some(w) => w.0 < t.len() && !t[w.0 as int].dropped && (t[w.0 as int].attrs.scope matches Some(sc)
            && sc.skip_descendants),
        None => false,
    }
}

/// The nearest enclosing scope of node `n` that skips its descendants.
pub open spec fn blocking_scope(t: Seq<NodeView>, m: Map<usize, FocusSlot>, n: usize) -> Option<usize>
    decreases rank(m[n]),
{
    match scope_up(m, n) {
        Some(s) => if rank(m[s]) < rank(m[n]) {
            if blocks(t, m[s]) {
                Some(s)
            } else {
                blocking_scope(t, m, s)
            }
        } else {
            None
        },
        None => None,
    }
}

/// Where keyboard navigation goes from the focused widget `focusing`.
pub open spec fn step_from(
    t: Seq<NodeView>,
    m: Map<usize, FocusSlot>,
    ids: Map<usize, usize>,
    root: usize,
    focusing: Option<WidgetId>,
    backward: bool,
) -> Option<WidgetId> {
    let node = match focusing {
        Some(w) => if ids.contains_key(w.0) { Some(ids[w.0]) } else { None },
        None => None,
    };
    let scope = match node {
        Some(n) => match scope_up(m, n) {
            Some(s) => s,
            None => root,
        },
        None => root,
    };
    match climb(t, m, node, scope, backward) {
        Some(id) => m[id].info.wid,
        None => None,
    }
}

/// Where keyboard navigation goes, starting over once past the end.
pub open spec fn move_circle(t: Seq<NodeView>, m: Map<usize, FocusSlot>, ids: Map<usize, usize>, root: usize, focusing: Option<WidgetId>, backward: bool) -> Option<WidgetId> {
    let w = step_from(t, m, ids, root, focusing, backward);
    if w is None && focusing is Some {
        step_from(t, m, ids, root, None, backward)
    } else {
        w
    }
}

/// The widget that takes focus when `focus` asks for it: none inside a scope
/// that skips its descendants or without a focus node; for a scope host,
/// itself if it takes focus and its scope does not skip it, else the first
/// widget of its scope.
pub open spec fn real_focus(t: Seq<NodeView>, m: Map<usize, FocusSlot>, ids: Map<usize, usize>, focus: WidgetId) -> Option<WidgetId> {
    let ignored = match first_node(ids, ancestors_of(t, focus.0 as int)) {
        Some(n) => blocking_scope(t, m, n) is Some,
        None => false,
    };
    if ignored || !ids.contains_key(focus.0) {
        None
    } else {
        let k = ids[focus.0];
        let info = m[k].info;
        if info.scope_cnt > 0 {
            let sc = scope_prop(t, info.wid);
            if info.node_cnt > 0 && !sc.skip_host {
                info.wid
            } else if !sc.skip_descendants {
                match step_in(t, m, k, None, false) {
                    Some(id) => m[id].info.wid,
                    None => None,
                }
            } else {
                None
            }
        } else {
            info.wid
        }
    }
}

/// The first widget of `ws` that is still in the tree.
pub open spec fn first_live(t: Seq<NodeView>, ws: Seq<WidgetId>) -> Option<WidgetId>
    decreases ws.len(),
{
    if ws.len() == 0 {
        None
    } else if ws[0].0 < t.len() && !t[ws[0].0 as int].dropped {
        Some(ws[0])
    } else {
        first_live(t, ws.drop_first())
    }
}

/// The nearest common ancestor of `a` and `b`.
pub open spec fn lca(t: Seq<NodeView>, a: WidgetId, b: WidgetId) -> Option<WidgetId> {
    match first_common(ancestors_of(t, a.0 as int), ancestors_of(t, b.0 as int)) {
        Some(x) => Some(WidgetId(x)),
        None => None,
    }
}

/// The events that moving focus from `focusing` (with live path `old`) to
/// `node` queues: blur of the old widget, focus-out from the old widget up
/// to the common ancestor, focus of the new one, focus-in up to the common
/// ancestor.
pub open spec fn focus_change_events(
    t: Seq<NodeView>,
    focusing: Option<WidgetId>,
    old: Option<WidgetId>,
    node: Option<WidgetId>,
    reason: FocusReason,
) -> Seq<DelayEvent> {
    let blur = match focusing {
        Some(w) => seq![DelayEvent::Blur { id: w, reason }],
        None => Seq::empty(),
    };
    let out = match old {
        Some(o) => seq![DelayEvent::FocusOut {
            bottom: o,
            up: match node {
                Some(w) => lca(t, w, o),
                None => None,
            },
            reason,
        }],
        None => Seq::empty(),
    };
    let inn = match node {
        Some(w) => seq![
            DelayEvent::Focus { id: w, reason },
            DelayEvent::FocusIn {
                bottom: w,
                up: match old {
                    Some(o) => lca(t, o, w),
                    None => None,
                },
                reason,
            }
        ],
        None => Seq::empty(),
    };
    blur + out + inn
}

impl FocusManager {
    /// The node keyboard navigation reaches from `node` in the scope hosted
    /// by `scope`.
    fn focus_step_in_scope(&self, tree: &WidgetTree, scope: usize, node: Option<usize>, backward: bool) -> (r: Option<usize>)
        requires
            self.wf(),
            self.nodes().dom().contains(scope),
        ensures
            r == step_in(tree.view(), self.nodes(), scope, node, backward),
            r matches Some(id) ==> self.nodes().dom().contains(id),
        decreases usize::MAX + 1 - rank(self.nodes()[scope]),
    {
        let ghost m = self.nodes();
        let ghost t = tree.view();
        let v = self.collect_tab_index_in_scope(tree, scope, backward);
        proof {
            lemma_tab_order_ranks(t, m, scope, backward);
            lemma_walk_in_dom(m, self.root, scope);
            assert forall|l: int| 0 <= l < v@.len() implies m.dom().contains(#[trigger] v@[l].1) by {
                assert(walk(m, scope).contains(v@[l].1));
            }
        }
        let mut p: usize = 0;
        let mut idx: usize = 0;
        let mut found = false;
        while p < v.len() && !found
            invariant
                p <= v@.len(),
                idx <= v@.len(),
                found ==> idx as int == start_from(v@, node, 0),
                !found ==> idx == 0 && start_from(v@, node, 0) == start_from(v@, node, p as int),
            decreases v.len() - p,
        {
            if Some(v[p].1) == node {
                idx = p + 1;
                found = true;
            }
            p = p + 1;
        }
        assert(idx as int == start_from(v@, node, 0));
        let mut j: usize = idx;
        while j < v.len()
            invariant
                self.wf(),
                m == self.nodes(),
                t == tree.view(),
                m.dom().contains(scope),
                v@ == tab_order(t, m, scope, backward),
                forall|l: int| 0 <= l < v@.len() ==> rank(m[scope]) < rank(m[#[trigger] v@[l].1]),
                forall|l: int| 0 <= l < v@.len() ==> m.dom().contains(#[trigger] v@[l].1),
                j <= v@.len(),
                idx as int == start_from(v@, node, 0),
                first_from(t, m, scope, v@, idx as int, backward) == first_from(t, m, scope, v@, j as int, backward),
            decreases v.len() - j,
        {
            let (_, id, ft) = v[j];
            let next = if ft == FocusType::Scope {
                self.focus_step_in_scope(tree, id, None, backward)
            } else {
                Some(id)
            };
            if next.is_some() {
                return next;
            }
            j = j + 1;
        }
        None
    }

    /// The nearest proper ancestor of node `n` that hosts a scope.
    fn scope_id(&self, n: usize) -> (r: Option<usize>)
        requires
            self.wf(),
            self.nodes().dom().contains(n),
        ensures
            r == scope_up(self.nodes(), n),
            r matches Some(s) ==> self.nodes().dom().contains(s) && rank(self.nodes()[s]) < rank(self.nodes()[n]),
        decreases rank(self.nodes()[n]),
    {
        proof {
            lemma_scope_up(self.nodes(), self.root, n);
        }
        match arena_parent(&self.arena, n) {
            Some(p) => {
                assert(n != self.root);
                if arena_info(&self.arena, p).has_focus_scope() {
                    Some(p)
                } else {
                    self.scope_id(p)
                }
            },
            None => None,
        }
    }

    /// Where keyboard navigation goes from `focusing`.
    fn focus_step(&self, tree: &WidgetTree, focusing: Option<WidgetId>, backward: bool) -> (r: Option<WidgetId>)
        requires
            self.wf(),
        ensures
            r == step_from(tree.view(), self.nodes(), self.ids(), self.root, focusing, backward),
            r matches Some(w) ==> self.ids().contains_key(w.0),
    {
        let ghost m = self.nodes();
        let ghost t = tree.view();
        let mut node_id: Option<usize> = match focusing {
            Some(w) => match self.node_ids.get(&w.0) {
                Some(k) => Some(*k),
                None => None,
            },
            None => None,
        };
        let mut scope: usize = match node_id {
            Some(n) => match self.scope_id(n) {
                Some(s) => s,
                None => self.root,
            },
            None => self.root,
        };
        let ghost first = climb(t, m, node_id, scope, backward);
        assert(step_from(t, m, self.ids(), self.root, focusing, backward) == match first {
            Some(id) => m[id].info.wid,
            None => None,
        });
        loop
            invariant
                self.wf(),
                m == self.nodes(),
                t == tree.view(),
                m.dom().contains(scope),
                climb(t, m, node_id, scope, backward) == first,
                step_from(t, m, self.ids(), self.root, focusing, backward) == match first {
                    Some(id) => m[id].info.wid,
                    None => None,
                },
            decreases rank(m[scope]),
        {
            let next = self.focus_step_in_scope(tree, scope, node_id, backward);
            match next {
                Some(id) => {
                    assert(climb(t, m, node_id, scope, backward) == Some(id));
                    let info = arena_info(&self.arena, id);
                    proof {
                        if info.wid is Some {
                            assert(id != self.root);
                        }
                    }
                    return info.wid;
                },
                None => {
                    node_id = Some(scope);
                    match self.scope_id(scope) {
                        Some(s2) => {
                            scope = s2;
                        },
                        None => {
                            return None;
                        },
                    }
                },
            }
        }
    }

    /// Where keyboard navigation goes, starting over once past the end.
    fn focus_move_circle(&self, tree: &WidgetTree, backward: bool) -> (r: Option<WidgetId>)
        requires
            self.wf(),
        ensures
            r == move_circle(tree.view(), self.nodes(), self.ids(), self.root, self.focusing, backward),
            r matches Some(w) ==> self.ids().contains_key(w.0),
    {
        let has_focus = self.focusing.is_some();
        let mut wid = self.focus_step(tree, self.focusing, backward);
        if wid.is_none() && has_focus {
            wid = self.focus_step(tree, wid, backward);
        }
        wid
    }

    /// The focus node of the nearest widget of `path[from..]` that has one.
    fn first_focus_node(&self, path: &Vec<WidgetId>, from: usize) -> (r: Option<usize>)
        requires
            from <= path@.len(),
        ensures
            r == first_node(self.ids(), path@.map_values(|w: WidgetId| w.0).skip(from as int)),
        decreases path@.len() - from,
    {
        let ghost s = path@.map_values(|w: WidgetId| w.0).skip(from as int);
        if from == path.len() {
            assert(s.len() == 0);
            return None;
        }
        assert(s[0] == path@[from as int].0);
        match self.node_ids.get(&path[from].0) {
            Some(k) => Some(*k),
            None => {
                assert(s.drop_first() =~= path@.map_values(|w: WidgetId| w.0).skip(from + 1));
                self.first_focus_node(path, from + 1)
            },
        }
    }

    /// The nearest enclosing scope of `wid`'s focus node that skips its
    /// descendants.
    fn ignore_scope_id(&self, tree: &WidgetTree, wid: WidgetId) -> (r: Option<usize>)
        requires
            self.wf(),
            tree.wf(),
            wid.0 < tree.view().len(),
        ensures
            r == match first_node(self.ids(), ancestors_of(tree.view(), wid.0 as int)) {
                Some(n) => blocking_scope(tree.view(), self.nodes(), n),
                None => None,
            },
    {
        let ghost m = self.nodes();
        let ghost t = tree.view();
        let anc = tree.ancestors(wid);
        assert(anc@.map_values(|w: WidgetId| w.0).skip(0) =~= ancestors_of(t, wid.0 as int));
        let n = match self.first_focus_node(&anc, 0) {
            Some(n) => n,
            None => return None,
        };
        proof {
            lemma_first_node_in(self.ids(), m, self.root, ancestors_of(t, wid.0 as int));
        }
        let mut cur = n;
        loop
            invariant
                self.wf(),
                m == self.nodes(),
                m.dom().contains(cur),
                t == tree.view(),
                first_node(self.ids(), ancestors_of(t, wid.0 as int)) == Some(n),
                blocking_scope(t, m, n) == blocking_scope(t, m, cur),
            decreases rank(m[cur]),
        {
            match self.scope_id(cur) {
                Some(s) => {
                    let info = arena_info(&self.arena, s);
                    let blocked = match info.wid {
                        Some(w) => !tree.is_dropped(w) && match tree.attrs(w).scope {
                            Some(sc) => sc.skip_descendants,
                            None => false,
                        },
                        None => false,
                    };
                    assert(blocked == blocks(t, m[s]));
                    if blocked {
                        assert(blocking_scope(t, m, cur) == Some(s));
                        return Some(s);
                    }
                    cur = s;
                },
                None => {
                    return None;
                },
            }
        }
    }

    /// The widget that takes focus when `focus` asks for it.
    fn find_real_focus_widget(&self, tree: &WidgetTree, focus: WidgetId) -> (r: Option<WidgetId>)
        requires
            self.wf(),
            tree.wf(),
            focus.0 < tree.view().len(),
        ensures
            r == real_focus(tree.view(), self.nodes(), self.ids(), focus),
            r matches Some(w) ==> self.ids().contains_key(w.0),
    {
        if self.ignore_scope_id(tree, focus).is_some() {
            return None;
        }
        let focus_node = match self.node_ids.get(&focus.0) {
            Some(k) => *k,
            None => return None,
        };
        let info = arena_info(&self.arena, focus_node);
        if info.has_focus_scope() {
            let scope = self.scope_property(tree, info.wid);
            if info.has_focus_node() && !scope.skip_host {
                info.wid
            } else if !scope.skip_descendants {
                match self.focus_step_in_scope(tree, focus_node, None, false) {
                    Some(id) => {
                        let w = arena_info(&self.arena, id).wid;
                        proof {
                            if w is Some {
                                assert(id != self.root);
                            }
                        }
                        w
                    },
                    None => None,
                }
            } else {
                None
            }
        } else {
            info.wid
        }
    }
}

proof fn lemma_first_node_in(ids: Map<usize, usize>, m: Map<usize, FocusSlot>, root: usize, path: Seq<usize>)
    requires
        index_ok(ids, m, root),
    ensures
        first_node(ids, path) matches Some(n) ==> m.dom().contains(n),
    decreases path.len(),
{
    if path.len() > 0 && !ids.contains_key(path[0]) {
        lemma_first_node_in(ids, m, root, path.drop_first());
    }
}

/// The first widget of `ws` that is still in the tree.
pub fn first_live_of(tree: &WidgetTree, ws: &Vec<WidgetId>) -> (r: Option<WidgetId>)
    ensures
        r == first_live(tree.view(), ws@),
        r matches Some(w) ==> w.0 < tree.view().len() && !tree.view()[w.0 as int].dropped,
{
    let mut i: usize = 0;
    assert(ws@.skip(0) =~= ws@);
    while i < ws.len()
        invariant
            i <= ws@.len(),
            first_live(tree.view(), ws@) == first_live(tree.view(), ws@.skip(i as int)),
        decreases ws.len() - i,
    {
        let w = ws[i];
        let ghost s = ws@.skip(i as int);
        assert(s[0] == w);
        if !tree.is_dropped(w) {
            return Some(w);
        }
        assert(s.drop_first() =~= ws@.skip(i + 1));
        i = i + 1;
    }
    assert(ws@.skip(i as int).len() == 0);
    None
}

/// The widget that `focus` moves focus to, if focus moves: the widget that
/// takes focus for `wid`, unless it already has it.
pub open spec fn focus_target(t: Seq<NodeView>, m: Map<usize, FocusSlot>, ids: Map<usize, usize>, fw: Seq<WidgetId>, wid: WidgetId) -> Option<WidgetId> {
    match real_focus(t, m, ids, wid) {
        Some(f) => if fw.len() > 0 && fw[0] == f { None } else { Some(f) },
        None => None,
    }
}

impl FocusManager {
    /// Moves focus to `node` (none: nobody has focus), queuing the focus
    /// events; returns the first widget of the old focus path still in the
    /// tree.
    fn change_focusing_to(&mut self, tree: &WidgetTree, node: Option<WidgetId>, reason: FocusReason, events: &mut Vec<DelayEvent>) -> (r: Option<WidgetId>)
        requires
            tree.wf(),
            node matches Some(w) ==> w.0 < tree.view().len(),
        ensures
            r == first_live(tree.view(), old(self).focus_widgets@),
            final(events)@ == old(events)@ + focus_change_events(tree.view(), old(self).focusing, r, node, reason),
            final(self).focusing == node,
            final(self).focus_widgets@.map_values(|w: WidgetId| w.0) == match node {
                Some(w) => ancestors_of(tree.view(), w.0 as int),
                None => Seq::<usize>::empty(),
            },
            final(self).node_ids@ == old(self).node_ids@,
            final(self).arena == old(self).arena,
            final(self).root == old(self).root,
            final(self).frame_auto_focus@ == old(self).frame_auto_focus@,
    {
        let ghost e0 = events@;
        let ghost t = tree.view();
        if let Some(wid) = self.focusing {
            events.push(DelayEvent::Blur { id: wid, reason });
        }
        let ghost e1 = events@;
        let old = first_live_of(tree, &self.focus_widgets);
        if let Some(o) = old {
            let ancestor = match node {
                Some(w) => tree.lowest_common_ancestor(w, o),
                None => None,
            };
            events.push(DelayEvent::FocusOut { bottom: o, up: ancestor, reason });
        }
        let ghost e2 = events@;
        if let Some(new) = node {
            events.push(DelayEvent::Focus { id: new, reason });
            let ancestor = match old {
                Some(o) => tree.lowest_common_ancestor(o, new),
                None => None,
            };
            events.push(DelayEvent::FocusIn { bottom: new, up: ancestor, reason });
        }
        proof {
            let blur = match self.focusing {
                Some(w) => seq![DelayEvent::Blur { id: w, reason }],
                None => Seq::<DelayEvent>::empty(),
            };
            assert(e1 == e0 + blur);
            assert(events@ =~= e0 + focus_change_events(t, self.focusing, old, node, reason));
        }
        self.focus_widgets = match node {
            Some(w) => tree.ancestors(w),
            None => Vec::new(),
        };
        proof {
            if node is None {
                assert(self.focus_widgets@.map_values(|w: WidgetId| w.0) =~= Seq::<usize>::empty());
            }
        }
        self.focusing = node;
        old
    }

    /// Moves focus to the widget that takes it for `wid`, queuing the focus
    /// events, unless that widget already has focus; returns the widget that
    /// got focus.
    pub fn focus(&mut self, tree: &WidgetTree, wid: WidgetId, reason: FocusReason, events: &mut Vec<DelayEvent>) -> (r: Option<WidgetId>)
        requires
            old(self).wf(),
            old(self).fits(tree.view().len()),
            tree.wf(),
            wid.0 < tree.view().len(),
        ensures
            final(self).wf(),
            final(self).fits(tree.view().len()),
            r == focus_target(tree.view(), old(self).nodes(), old(self).ids(), old(self).focus_widgets@, wid),
            r is None ==> final(self).focusing == old(self).focusing && final(self).focus_widgets@ == old(self).focus_widgets@
                && final(events)@ == old(events)@,
            r matches Some(f) ==> final(self).focusing == r && final(self).focus_widgets@.map_values(|w: WidgetId| w.0)
                == ancestors_of(tree.view(), f.0 as int) && final(events)@ == old(events)@ + focus_change_events(
                tree.view(),
                old(self).focusing,
                first_live(tree.view(), old(self).focus_widgets@),
                r,
                reason,
            ),
            final(self).nodes() == old(self).nodes(),
            final(self).ids() == old(self).ids(),
            final(self).root == old(self).root,
            final(self).frame_auto_focus@ == old(self).frame_auto_focus@,
    {
        let focus = match self.find_real_focus_widget(tree, wid) {
            Some(f) => f,
            None => return None,
        };
        if self.focus_widgets.len() > 0 && self.focus_widgets[0] == focus {
            return None;
        }
        self.change_focusing_to(tree, Some(focus), reason, events);
        Some(focus)
    }

    /// Takes focus away, queuing the focus events; returns the first widget of
    /// the old focus path still in the tree.
    pub fn blur(&mut self, tree: &WidgetTree, reason: FocusReason, events: &mut Vec<DelayEvent>) -> (r: Option<WidgetId>)
        requires
            old(self).wf(),
            old(self).fits(tree.view().len()),
            tree.wf(),
        ensures
            final(self).wf(),
            final(self).fits(tree.view().len()),
            r == first_live(tree.view(), old(self).focus_widgets@),
            final(events)@ == old(events)@ + focus_change_events(tree.view(), old(self).focusing, r, None, reason),
            final(self).focusing is None,
            final(self).focus_widgets@.len() == 0,
            final(self).nodes() == old(self).nodes(),
            final(self).ids() == old(self).ids(),
            final(self).root == old(self).root,
            final(self).frame_auto_focus@ == old(self).frame_auto_focus@,
    {
        self.change_focusing_to(tree, None, reason, events)
    }

    /// Moves focus to the next widget in tab order, starting over after the
    /// last; returns the widget that got focus.
    pub fn focus_next_widget(&mut self, tree: &WidgetTree, reason: FocusReason, events: &mut Vec<DelayEvent>) -> (r: Option<WidgetId>)
        requires
            old(self).wf(),
            old(self).fits(tree.view().len()),
            tree.wf(),
        ensures
            final(self).wf(),
            final(self).fits(tree.view().len()),
            r == match move_circle(tree.view(), old(self).nodes(), old(self).ids(), old(self).root, old(self).focusing, false) {
                Some(w) => focus_target(tree.view(), old(self).nodes(), old(self).ids(), old(self).focus_widgets@, w),
                None => None,
            },
            r is None ==> final(self).focusing == old(self).focusing && final(events)@ == old(events)@,
            r is Some ==> final(self).focusing == r,
            final(self).nodes() == old(self).nodes(),
            final(self).ids() == old(self).ids(),
    {
        match self.focus_move_circle(tree, false) {
            Some(w) => self.focus(tree, w, reason, events),
            None => None,
        }
    }

    /// Moves focus to the previous widget in tab order, starting over before
    /// the first; returns the widget that got focus.
    pub fn focus_prev_widget(&mut self, tree: &WidgetTree, reason: FocusReason, events: &mut Vec<DelayEvent>) -> (r: Option<WidgetId>)
        requires
            old(self).wf(),
            old(self).fits(tree.view().len()),
            tree.wf(),
        ensures
            final(self).wf(),
            final(self).fits(tree.view().len()),
            r == match move_circle(tree.view(), old(self).nodes(), old(self).ids(), old(self).root, old(self).focusing, true) {
                Some(w) => focus_target(tree.view(), old(self).nodes(), old(self).ids(), old(self).focus_widgets@, w),
                None => None,
            },
            r is None ==> final(self).focusing == old(self).focusing && final(events)@ == old(events)@,
            r is Some ==> final(self).focusing == r,
            final(self).nodes() == old(self).nodes(),
            final(self).ids() == old(self).ids(),
    {
        match self.focus_move_circle(tree, true) {
            Some(w) => self.focus(tree, w, reason, events),
            None => None,
        }
    }

    /// After the widget tree changed: focuses the first widget that asked for
    /// focus this frame and is still in the tree, or else the focused widget
    /// again (it may have moved into a scope); forgets the requests.
    pub fn on_widget_tree_update(&mut self, tree: &WidgetTree, events: &mut Vec<DelayEvent>)
        requires
            old(self).wf(),
            old(self).fits(tree.view().len()),
            tree.wf(),
        ensures
            final(self).wf(),
            final(self).fits(tree.view().len()),
            final(self).frame_auto_focus@.len() == 0,
            ({
                let a = match first_live(tree.view(), old(self).frame_auto_focus@) {
                    Some(w) => Some(w),
                    None => old(self).focusing,
                };
                let f = match a {
                    Some(w) => focus_target(tree.view(), old(self).nodes(), old(self).ids(), old(self).focus_widgets@, w),
                    None => None,
                };
                &&& f is None ==> final(self).focusing == old(self).focusing && final(events)@ == old(events)@
                &&& f matches Some(x) ==> final(self).focusing == f && final(events)@ == old(events)@ + focus_change_events(
                    tree.view(),
                    old(self).focusing,
                    first_live(tree.view(), old(self).focus_widgets@),
                    f,
                    FocusReason::AutoFocus,
                )
            }),
            final(self).nodes() == old(self).nodes(),
            final(self).ids() == old(self).ids(),
    {
        let ghost t = tree.view();
        let autos = first_live_of(tree, &self.frame_auto_focus);
        self.frame_auto_focus = Vec::new();
        let autos = match autos {
            Some(w) => Some(w),
            None => self.focusing,
        };
        if let Some(f) = autos {
            self.focus(tree, f, FocusReason::AutoFocus, events);
        }
    }
}

/// Entries of `s` are in tab order.
pub open spec fn in_tab_order(s: Seq<TabEntry>) -> bool {
    forall|i: int, j: int| 0 <= i < j < s.len() ==> tab_key(#[trigger] s[i].0) <= tab_key(#[trigger] s[j].0)
}

/// The entries of `s` whose tab index orders as `k`.
pub open spec fn with_key(s: Seq<TabEntry>, k: int) -> Seq<TabEntry> {
    s.filter(|e: TabEntry| tab_key(e.0) == k)
}

proof fn lemma_filter_push(q: Seq<TabEntry>, x: TabEntry, k: int)
    ensures
        with_key(q.push(x), k) == if tab_key(x.0) == k { with_key(q, k).push(x) } else { with_key(q, k) },
{
    reveal(Seq::filter);
    let f = |e: TabEntry| tab_key(e.0) == k;
    let r = q.push(x);
    assert(r.drop_last() =~= q);
    assert(r.last() == x);
    assert(r.len() > 0);
    assert(r.filter(f) == (if f(r.last()) { r.drop_last().filter(f).push(r.last()) } else { r.drop_last().filter(f) }));
}

proof fn lemma_insert_entry_sorted(s: Seq<TabEntry>, e: TabEntry)
    requires
        in_tab_order(s),
    ensures
        in_tab_order(insert_entry(s, e)),
    decreases s.len(),
{
    if s.len() > 0 {
        let r = insert_entry(s, e);
        if tab_key(s.last().0) <= tab_key(e.0) {
            assert forall|i: int, j: int| 0 <= i < j < r.len() implies tab_key(#[trigger] r[i].0) <= tab_key(#[trigger] r[j].0) by {
                if j == s.len() {
                    assert(r[i] == s[i]);
                    if i < s.len() - 1 {
                        assert(tab_key(s[i].0) <= tab_key(s[s.len() - 1].0));
                    }
                } else {
                    assert(r[i] == s[i] && r[j] == s[j]);
                }
            }
        } else {
            let p = s.drop_last();
            assert(in_tab_order(p)) by {
                assert forall|i: int, j: int| 0 <= i < j < p.len() implies tab_key(#[trigger] p[i].0) <= tab_key(#[trigger] p[j].0) by {
                    assert(p[i] == s[i] && p[j] == s[j]);
                }
            }
            lemma_insert_entry_sorted(p, e);
            lemma_insert_entry_members(p, e);
            let q = insert_entry(p, e);
            assert forall|i: int, j: int| 0 <= i < j < r.len() implies tab_key(#[trigger] r[i].0) <= tab_key(#[trigger] r[j].0) by {
                if j == q.len() {
                    assert(r[i] == q[i]);
                    assert(r[j] == s.last());
                    if q[i] != e {
                        let l = choose|l: int| 0 <= l < p.len() && p[l] == q[i];
                        assert(s[l] == q[i]);
                        assert(tab_key(s[l].0) <= tab_key(s[s.len() - 1].0));
                    }
                } else {
                    assert(r[i] == q[i] && r[j] == q[j]);
                }
            }
        }
    }
}

proof fn lemma_insert_entry_key(s: Seq<TabEntry>, e: TabEntry, k: int)
    ensures
        with_key(insert_entry(s, e), k) == if tab_key(e.0) == k { with_key(s, k).push(e) } else { with_key(s, k) },
    decreases s.len(),
{
    if s.len() == 0 {
        lemma_filter_push(s, e, k);
        assert(s.push(e) =~= seq![e]);
        reveal(Seq::filter);
    } else if tab_key(s.last().0) <= tab_key(e.0) {
        lemma_filter_push(s, e, k);
    } else {
        let p = s.drop_last();
        lemma_insert_entry_key(p, e, k);
        let q = insert_entry(p, e);
        lemma_filter_push(q, s.last(), k);
        lemma_filter_push(p, s.last(), k);
        assert(p.push(s.last()) =~= s);
        if tab_key(e.0) == k {
            lemma_filter_push(with_key(p, k), e, k);
        }
    }
}

/// Keyboard navigation visits the entries of a scope by ascending positive
/// tab index, then those with tab index zero; entries that order alike keep
/// their document order.
pub proof fn law_tab_order_by_key(s: Seq<TabEntry>)
    ensures
        in_tab_order(sorted_entries(s)),
        forall|k: int| #[trigger] with_key(sorted_entries(s), k) == with_key(s, k),
    decreases s.len(),
{
    if s.len() > 0 {
        let p = s.drop_last();
        law_tab_order_by_key(p);
        lemma_insert_entry_sorted(sorted_entries(p), s.last());
        assert forall|k: int| #[trigger] with_key(sorted_entries(s), k) == with_key(s, k) by {
            lemma_insert_entry_key(sorted_entries(p), s.last(), k);
            lemma_filter_push(p, s.last(), k);
            assert(p.push(s.last()) =~= s);
        }
    } else {
        assert forall|k: int| #[trigger] with_key(sorted_entries(s), k) == with_key(s, k) by {
            reveal(Seq::filter);
        }
    }
}

/// One registration then its withdrawal leaves a widget's counts as they
/// were.
pub proof fn law_register_then_withdraw(c: (u32, u32), ft: FocusType)
    requires
        ft == FocusType::Node ==> c.1 < u32::MAX,
        ft == FocusType::Scope ==> c.0 < u32::MAX,
    ensures
        dropped_one((bumped(c, ft).0 as u32, bumped(c, ft).1 as u32), ft) == (c.0 as int, c.1 as int),
{
}

proof fn lemma_start_from_at(v: Seq<TabEntry>, n: usize, i: int, p: int)
    requires
        0 <= p <= i < v.len(),
        v[i].1 == n,
        forall|k: int| p <= k < i ==> (#[trigger] v[k]).1 != n,
    ensures
        start_from(v, Some(n), p) == i + 1,
    decreases i - p,
{
    if p < i {
        lemma_start_from_at(v, n, i, p + 1);
    }
}

/// Within a scope whose tab order holds only plain focus nodes, each named
/// once, moving backward undoes moving forward: when forward navigation
/// leads from node `a` to node `b`, backward navigation leads from `b` to
/// `a`.
pub proof fn law_backward_undoes_forward(t: Seq<NodeView>, m: Map<usize, FocusSlot>, scope: usize, a: usize)
    requires
        forall|k: int| 0 <= k < tab_order(t, m, scope, false).len() ==> (#[trigger] tab_order(t, m, scope, false)[k]).2
            == FocusType::Node,
        forall|i: int, j: int|
            0 <= i < j < tab_order(t, m, scope, false).len() ==> (#[trigger] tab_order(t, m, scope, false)[i]).1
                != (#[trigger] tab_order(t, m, scope, false)[j]).1,
        exists|i: int| 0 <= i < tab_order(t, m, scope, false).len() && (#[trigger] tab_order(t, m, scope, false)[i]).1 == a,
    ensures
        step_in(t, m, scope, Some(a), false) matches Some(b) ==> step_in(t, m, scope, Some(b), true) == Some(a),
{
    let v = tab_order(t, m, scope, false);
    let r = tab_order(t, m, scope, true);
    assert(r == v.reverse());
    let n = v.len();
    let i = choose|i: int| 0 <= i < v.len() && (#[trigger] v[i]).1 == a;
    assert forall|k: int| 0 <= k < i implies (#[trigger] v[k]).1 != a by {
        assert(v[k].1 != v[i].1);
    }
    lemma_start_from_at(v, a, i, 0);
    if i + 1 < n {
        let b = v[i + 1].1;
        assert(v[i + 1].2 == FocusType::Node);
        assert(first_from(t, m, scope, v, i + 1, false) == Some(b));
        assert(step_in(t, m, scope, Some(a), false) == Some(b));
        let ri = n - 2 - i;
        assert(r[ri] == v[i + 1]);
        assert forall|k: int| 0 <= k < ri implies (#[trigger] r[k]).1 != b by {
            assert(r[k] == v[n - 1 - k]);
            assert(v[n - 1 - k].1 != v[i + 1].1);
        }
        lemma_start_from_at(r, b, ri, 0);
        assert(r[ri + 1] == v[i]);
        assert(r[ri + 1].2 == FocusType::Node);
        assert(first_from(t, m, scope, r, ri + 1, true) == Some(a));
    } else {
        assert(first_from(t, m, scope, v, i + 1, false) is None);
    }
}

} // verus!
