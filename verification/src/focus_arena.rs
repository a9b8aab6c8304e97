//! The focus tree of a window: one node per widget that registered a focus
//! node or a focus scope, kept in an `indextree` arena. A node is found again
//! by its one-based slot index in the arena.
use vstd::prelude::*;

use indextree::Arena;
use std::num::NonZeroUsize;

use crate::widget_tree::{without, WidgetId};

verus! {

#[verifier::external_type_specification]
#[verifier::external_body]
#[verifier::reject_recursive_types(T)]
pub struct ExArena<T>(Arena<T>);

/// What a focus node records: how many focus scopes and focus nodes its
/// widget registered, and the widget (none for the tree's root).
#[derive(Debug, Clone, Copy, PartialEq, Eq, Structural)]
pub struct FocusNodeInfo {
    pub scope_cnt: u32,
    pub node_cnt: u32,
    pub wid: Option<WidgetId>,
}

/// A live node of the focus arena: its data, its parent and its children in
/// order, all by slot index.
pub struct FocusSlot {
    pub info: FocusNodeInfo,
    pub parent: Option<usize>,
    pub children: Seq<usize>,
}

/// The live nodes of a focus arena, keyed by one-based slot index.
pub uninterp spec fn focus_arena(a: Arena<FocusNodeInfo>) -> Map<usize, FocusSlot>;

/// `m` with `c` taken out of its parent's children.
pub open spec fn detached(m: Map<usize, FocusSlot>, c: usize) -> Map<usize, FocusSlot> {
    match m[c].parent {
        Some(q) => m.insert(q, FocusSlot { children: without(m[q].children, c), ..m[q] }).insert(
            c,
            FocusSlot { parent: None, ..m[c] },
        ),
        None => m,
    }
}

/// `m` after `c` became the last child of `p`.
pub open spec fn appended(m: Map<usize, FocusSlot>, p: usize, c: usize) -> Map<usize, FocusSlot> {
    let d = detached(m, c);
    d.insert(p, FocusSlot { children: d[p].children.push(c), ..d[p] }).insert(
        c,
        FocusSlot { parent: Some(p), ..d[c] },
    )
}

/// `cs` with `n` put right before the first `s`.
pub open spec fn seq_insert_before(cs: Seq<usize>, s: usize, n: usize) -> Seq<usize>
    decreases cs.len(),
{
    if cs.len() == 0 {
        cs
    } else if cs[0] == s {
        seq![n] + cs
    } else {
        seq![cs[0]] + seq_insert_before(cs.drop_first(), s, n)
    }
}

/// `cs` with `n` put right after the first `s`.
pub open spec fn seq_insert_after(cs: Seq<usize>, s: usize, n: usize) -> Seq<usize>
    decreases cs.len(),
{
    if cs.len() == 0 {
        cs
    } else if cs[0] == s {
        seq![s, n] + cs.drop_first()
    } else {
        seq![cs[0]] + seq_insert_after(cs.drop_first(), s, n)
    }
}

/// `cs` with the first `k` replaced by `kids`.
pub open spec fn seq_splice(cs: Seq<usize>, k: usize, kids: Seq<usize>) -> Seq<usize>
    decreases cs.len(),
{
    if cs.len() == 0 {
        cs
    } else if cs[0] == k {
        kids + cs.drop_first()
    } else {
        seq![cs[0]] + seq_splice(cs.drop_first(), k, kids)
    }
}

/// `m` after `n` became the sibling right before (`before`) or right after
/// `s`, under `s`'s parent.
pub open spec fn placed_beside(m: Map<usize, FocusSlot>, s: usize, n: usize, before: bool) -> Map<usize, FocusSlot> {
    let d = detached(m, n);
    let q = d[s].parent->0;
    let cs = if before { seq_insert_before(d[q].children, s, n) } else { seq_insert_after(d[q].children, s, n) };
    d.insert(q, FocusSlot { children: cs, ..d[q] }).insert(n, FocusSlot { parent: Some(q), ..d[n] })
}

/// `m` after `k` left the arena, its children taking its place under its
/// parent.
pub open spec fn removed(m: Map<usize, FocusSlot>, k: usize) -> Map<usize, FocusSlot> {
    let q = m[k].parent->0;
    let kids = m[k].children;
    let m1 = m.insert(q, FocusSlot { children: seq_splice(m[q].children, k, kids), ..m[q] }).remove(k);
    Map::new(
        |x: usize| m1.dom().contains(x),
        |x: usize| if kids.contains(x) { FocusSlot { parent: Some(q), ..m1[x] } } else { m1[x] },
    )
}

/// `x` is `y` or one of the first ancestors of `y`, looking at most `fuel`
/// nodes up.
pub open spec fn on_chain(m: Map<usize, FocusSlot>, y: usize, x: usize, fuel: nat) -> bool
    decreases fuel,
{
    fuel > 0 && m.dom().contains(y) && (y == x || match m[y].parent {
        Some(p) => on_chain(m, p, x, (fuel - 1) as nat),
        None => false,
    })
}

/// A new, empty arena (`Arena::new`).
#[verifier::external_body]
pub(crate) fn arena_new() -> (r: Arena<FocusNodeInfo>)
    ensures
        focus_arena(r).dom().is_empty(),
{
    Arena::new()
}

/// `Arena::new_node`: a new detached node holding `info`, in a slot that
/// holds no live node. The arena only fails here when it already holds
/// `usize::MAX` slots, which memory rules out.
#[verifier::external_body]
pub(crate) fn arena_new_node(a: &mut Arena<FocusNodeInfo>, info: FocusNodeInfo) -> (k: usize)
    ensures
        k >= 1,
        !focus_arena(*old(a)).dom().contains(k),
        focus_arena(*final(a)) == focus_arena(*old(a)).insert(
            k,
            FocusSlot { info, parent: None, children: Seq::empty() },
        ),
{
    usize::from(a.new_node(info))
}

/// The data of node `k` (`Arena::get_data`).
#[verifier::external_body]
pub(crate) fn arena_info(a: &Arena<FocusNodeInfo>, k: usize) -> (r: FocusNodeInfo)
    requires
        k >= 1,
        focus_arena(*a).dom().contains(k),
    ensures
        r == focus_arena(*a)[k].info,
{
    let id = a.get_node_id_at(NonZeroUsize::new(k).unwrap()).unwrap();
    *a.get_data(id).unwrap()
}

/// Replaces the data of node `k` (`Arena::get_data_mut`).
#[verifier::external_body]
pub(crate) fn arena_set_info(a: &mut Arena<FocusNodeInfo>, k: usize, info: FocusNodeInfo)
    requires
        k >= 1,
        focus_arena(*old(a)).dom().contains(k),
    ensures
        focus_arena(*final(a)) == focus_arena(*old(a)).insert(k, FocusSlot { info, ..focus_arena(*old(a))[k] }),
{
    let id = a.get_node_id_at(NonZeroUsize::new(k).unwrap()).unwrap();
    *a.get_data_mut(id).unwrap() = info;
}

/// The parent of node `k` (`NodeId::parent`).
#[verifier::external_body]
pub(crate) fn arena_parent(a: &Arena<FocusNodeInfo>, k: usize) -> (r: Option<usize>)
    requires
        k >= 1,
        focus_arena(*a).dom().contains(k),
    ensures
        r == focus_arena(*a)[k].parent,
{
    let id = a.get_node_id_at(NonZeroUsize::new(k).unwrap()).unwrap();
    id.parent(a).map(usize::from)
}

/// The children of node `k`, in order (`NodeId::children`).
#[verifier::external_body]
pub(crate) fn arena_children(a: &Arena<FocusNodeInfo>, k: usize) -> (r: Vec<usize>)
    requires
        k >= 1,
        focus_arena(*a).dom().contains(k),
    ensures
        r@ == focus_arena(*a)[k].children,
{
    let id = a.get_node_id_at(NonZeroUsize::new(k).unwrap()).unwrap();
    id.children(a).map(usize::from).collect()
}

/// `NodeId::append`: detaches `c` and makes it the last child of `p`. The
/// crate panics when `c` is `p` or one of its ancestors, which `requires`
/// leaves out; an arena has no cycle, so no chain is longer than its node
/// count.
#[verifier::external_body]
pub(crate) fn arena_append(a: &mut Arena<FocusNodeInfo>, p: usize, c: usize)
    requires
        p >= 1,
        c >= 1,
        focus_arena(*old(a)).dom().contains(p),
        focus_arena(*old(a)).dom().contains(c),
        !on_chain(focus_arena(*old(a)), p, c, focus_arena(*old(a)).dom().len()),
    ensures
        focus_arena(*final(a)) == appended(focus_arena(*old(a)), p, c),
{
    let pid = a.get_node_id_at(NonZeroUsize::new(p).unwrap()).unwrap();
    let cid = a.get_node_id_at(NonZeroUsize::new(c).unwrap()).unwrap();
    pid.append(cid, a);
}

/// `NodeId::insert_before`: detaches `n` and puts it right before `s`, under
/// `s`'s parent. The crate panics when `n` is `s` or one of its ancestors,
/// which `requires` leaves out; only a node with a parent is given as `s`.
#[verifier::external_body]
pub(crate) fn arena_insert_before(a: &mut Arena<FocusNodeInfo>, s: usize, n: usize)
    requires
        s >= 1,
        n >= 1,
        focus_arena(*old(a)).dom().contains(s),
        focus_arena(*old(a)).dom().contains(n),
        focus_arena(*old(a))[s].parent is Some,
        !on_chain(focus_arena(*old(a)), s, n, focus_arena(*old(a)).dom().len()),
    ensures
        focus_arena(*final(a)) == placed_beside(focus_arena(*old(a)), s, n, true),
{
    let sid = a.get_node_id_at(NonZeroUsize::new(s).unwrap()).unwrap();
    let nid = a.get_node_id_at(NonZeroUsize::new(n).unwrap()).unwrap();
    sid.insert_before(nid, a);
}

/// `NodeId::insert_after`: detaches `n` and puts it right after `s`, under
/// `s`'s parent. The crate panics when `n` is `s` or one of its ancestors,
/// which `requires` leaves out; only a node with a parent is given as `s`.
#[verifier::external_body]
pub(crate) fn arena_insert_after(a: &mut Arena<FocusNodeInfo>, s: usize, n: usize)
    requires
        s >= 1,
        n >= 1,
        focus_arena(*old(a)).dom().contains(s),
        focus_arena(*old(a)).dom().contains(n),
        focus_arena(*old(a))[s].parent is Some,
        !on_chain(focus_arena(*old(a)), s, n, focus_arena(*old(a)).dom().len()),
    ensures
        focus_arena(*final(a)) == placed_beside(focus_arena(*old(a)), s, n, false),
{
    let sid = a.get_node_id_at(NonZeroUsize::new(s).unwrap()).unwrap();
    let nid = a.get_node_id_at(NonZeroUsize::new(n).unwrap()).unwrap();
    sid.insert_after(nid, a);
}

/// `NodeId::remove`: node `k` leaves the arena and its children take its
/// place under its parent; only a node with a parent is removed here.
#[verifier::external_body]
pub(crate) fn arena_remove(a: &mut Arena<FocusNodeInfo>, k: usize)
    requires
        k >= 1,
        focus_arena(*old(a)).dom().contains(k),
        focus_arena(*old(a))[k].parent is Some,
    ensures
        focus_arena(*final(a)) == removed(focus_arena(*old(a)), k),
{
    let id = a.get_node_id_at(NonZeroUsize::new(k).unwrap()).unwrap();
    id.remove(a);
}

} // verus!
