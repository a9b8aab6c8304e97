//! Finding the widget that a debug request names: by its one-based index
//! (and stamp), or by its debug name.
use vstd::prelude::*;

use crate::text::{
    chars_of, is_prefix, parse_u64, parse_unsigned, split_once_chars, split_once_on, starts_with, string_from_chars,
    trim_chars, trimmed,
};
use crate::widget_tree::{ids_of, preorder, NodeView, WidgetId, WidgetTree};

verus! {

/// What a widget id text names: a one-based index with an optional stamp,
/// a debug name, or nothing.
#[derive(Debug, Clone, PartialEq, Eq)]
pub enum WidgetRef {
    Parts { index1: u64, stamp: Option<u64> },
    Name(String),
    Nothing,
}

/// What a widget id text names, the name as a character sequence.
pub enum WidgetRefView {
    Parts { index1: u64, stamp: Option<u64> },
    Name(Seq<char>),
    Nothing,
}

impl View for WidgetRef {
    type V = WidgetRefView;

    open spec fn view(&self) -> WidgetRefView {
        match self {
            WidgetRef::Parts { index1, stamp } => WidgetRefView::Parts { index1: *index1, stamp: *stamp },
            WidgetRef::Name(n) => WidgetRefView::Name(n@),
            WidgetRef::Nothing => WidgetRefView::Nothing,
        }
    }
}

pub open spec fn u64_of(s: Seq<char>) -> Option<u64> {
    match parse_unsigned(s, u64::MAX as nat) {
        Some(v) => Some(v as u64),
        None => None,
    }
}

/// `s` without a leading `name:`, or else without a leading `debug:`.
pub open spec fn without_name_prefix(s: Seq<char>) -> Seq<char> {
    if is_prefix("name:"@, s) {
        s.skip("name:"@.len() as int)
    } else if is_prefix("debug:"@, s) {
        s.skip("debug:"@.len() as int)
    } else {
        s
    }
}

/// What a widget id text names: `index:stamp` and `index` are numbers;
/// any other text is a debug name, after an optional `name:` or `debug:`
/// prefix and with surrounding white space trimmed.
pub open spec fn widget_ref_of(s: Seq<char>) -> WidgetRefView {
    let parts = match split_once_on(s, ':') {
        Some((a, b)) => match (u64_of(a), u64_of(b)) {
            (Some(i), Some(st)) => Some(WidgetRefView::Parts { index1: i, stamp: Some(st) }),
            _ => None,
        },
        None => None,
    };
    match parts {
        Some(p) => p,
        None => match u64_of(s) {
            Some(i) => WidgetRefView::Parts { index1: i, stamp: None },
            None => {
                let n = trimmed(without_name_prefix(s));
                if n.len() == 0 {
                    WidgetRefView::Nothing
                } else {
                    WidgetRefView::Name(n)
                }
            },
        },
    }
}

/// The rest of `s` after its first `n` characters.
fn skip_chars(s: &Vec<char>, n: usize) -> (r: Vec<char>)
    requires
        n <= s@.len(),
    ensures
        r@ == s@.skip(n as int),
{
    let mut out: Vec<char> = Vec::new();
    let mut k: usize = n;
    while k < s.len()
        invariant
            n <= k <= s@.len(),
            out@ == s@.subrange(n as int, k as int),
        decreases s.len() - k,
    {
        out.push(s[k]);
        assert(s@.subrange(n as int, k + 1) == s@.subrange(n as int, k as int).push(s@[k as int]));
        k = k + 1;
    }
    assert(out@ == s@.skip(n as int));
    out
}

/// What a widget id text names.
pub fn parse_widget_ref(id_str: &str) -> (r: WidgetRef)
    ensures
        r@ == widget_ref_of(id_str@),
{
    let s = chars_of(id_str);
    if let Some((a, b)) = split_once_chars(&s, ':') {
        if let (Some(i), Some(st)) = (parse_u64(&a), parse_u64(&b)) {
            return WidgetRef::Parts { index1: i, stamp: Some(st) };
        }
    }
    if let Some(i) = parse_u64(&s) {
        return WidgetRef::Parts { index1: i, stamp: None };
    }
    let name_p = chars_of("name:");
    let debug_p = chars_of("debug:");
    let rest = if starts_with(&s, &name_p) {
        skip_chars(&s, name_p.len())
    } else if starts_with(&s, &debug_p) {
        skip_chars(&s, debug_p.len())
    } else {
        s
    };
    let n = trim_chars(&rest);
    if n.len() == 0 {
        WidgetRef::Nothing
    } else {
        WidgetRef::Name(string_from_chars(&n))
    }
}

/// The order in which a search from `id` visits its subtree: the widget,
/// then the subtrees of its children, last child first.
pub open spec fn search_order(t: Seq<NodeView>, id: int) -> Seq<usize>
    decreases t.len() - id, 1int, 0int,
{
    if 0 <= id < t.len() {
        seq![id as usize] + search_children(t, id, t[id].children)
    } else {
        Seq::empty()
    }
}

/// The search order of the subtrees of `cs` (children of `p`), last first.
pub open spec fn search_children(t: Seq<NodeView>, p: int, cs: Seq<usize>) -> Seq<usize>
    decreases t.len() - p, 0int, cs.len(),
{
    if cs.len() == 0 {
        Seq::empty()
    } else {
        (if p < cs.last() && cs.last() < t.len() {
            search_order(t, cs.last() as int)
        } else {
            Seq::empty()
        }) + search_children(t, p, cs.drop_last())
    }
}

proof fn lemma_search_order_in(t: Seq<NodeView>, id: int)
    ensures
        forall|k: int| 0 <= k < search_order(t, id).len() ==> 0 <= #[trigger] search_order(t, id)[k] < t.len(),
    decreases t.len() - id, 1int, 0int,
{
    if 0 <= id < t.len() {
        lemma_search_children_in(t, id, t[id].children);
        let a = search_children(t, id, t[id].children);
        let d = search_order(t, id);
        assert(d == seq![id as usize] + a);
        assert forall|k: int| 0 <= k < d.len() implies 0 <= #[trigger] d[k] < t.len() by {
            if k > 0 {
                assert(d[k] == a[k - 1]);
            }
        }
    }
}

proof fn lemma_search_children_in(t: Seq<NodeView>, p: int, cs: Seq<usize>)
    ensures
        forall|k: int| 0 <= k < search_children(t, p, cs).len() ==> 0 <= #[trigger] search_children(t, p, cs)[k] < t.len(),
    decreases t.len() - p, 0int, cs.len(),
{
    if cs.len() > 0 {
        lemma_search_children_in(t, p, cs.drop_last());
        let b = search_children(t, p, cs.drop_last());
        let c = cs.last();
        let a = if p < c && c < t.len() { search_order(t, c as int) } else { Seq::<usize>::empty() };
        if p < c && c < t.len() {
            lemma_search_order_in(t, c as int);
        }
        let d = search_children(t, p, cs);
        assert(d == a + b);
        assert forall|k: int| 0 <= k < d.len() implies 0 <= #[trigger] d[k] < t.len() by {
            if k < a.len() {
                assert(d[k] == a[k]);
            } else {
                assert(d[k] == b[k - a.len()]);
            }
        }
    }
}

/// Appends the search order of `id`'s subtree to `out`.
fn push_search_order(tree: &WidgetTree, id: usize, out: &mut Vec<WidgetId>)
    requires
        tree.wf(),
        id < tree.view().len(),
    ensures
        ids_of(final(out)@) == ids_of(old(out)@) + search_order(tree.view(), id as int),
    decreases tree.view().len() - id,
{
    let ghost t = tree.view();
    let ghost start = ids_of(old(out)@);
    out.push(WidgetId(id));
    assert(ids_of(out@) =~= start.push(id));
    let cs = &tree.nodes[id].children;
    let ghost csv = cs@;
    assert(csv == t[id as int].children);
    assert(csv.take(csv.len() as int) =~= csv);
    let mut k: usize = cs.len();
    while k > 0
        invariant
            tree.wf(),
            t == tree.view(),
            id < t.len(),
            csv == cs@,
            csv == t[id as int].children,
            k <= cs@.len(),
            ids_of(out@) + search_children(t, id as int, csv.take(k as int)) == start.push(id) + search_children(
                t,
                id as int,
                csv,
            ),
        decreases k,
    {
        k = k - 1;
        let c = cs[k];
        assert(csv.take(k + 1).drop_last() =~= csv.take(k as int));
        assert(csv.take(k + 1).last() == c);
        assert(t[id as int].children[k as int] == c);
        let ghost mid = ids_of(out@);
        push_search_order(tree, c, out);
        assert(ids_of(out@) =~= mid + search_order(t, c as int));
        assert(ids_of(out@) + search_children(t, id as int, csv.take(k as int)) =~= mid + search_children(
            t,
            id as int,
            csv.take(k + 1),
        ));
    }
    assert(csv.take(0) =~= Seq::<usize>::empty());
    assert(start.push(id) + search_children(t, id as int, csv) =~= start + search_order(t, id as int));
}

/// The first widget of `order` whose debug name is `name`.
pub open spec fn first_named(order: Seq<usize>, names: Seq<Seq<char>>, name: Seq<char>) -> Option<usize>
    decreases order.len(),
{
    if order.len() == 0 {
        None
    } else if names[order[0] as int] == name {
        Some(order[0])
    } else {
        first_named(order.drop_first(), names, name)
    }
}

/// The widget that `index1` (one-based) and `stamp` name among the widgets
/// under the root. No slot of the tree is reused, so every widget's stamp
/// is 0.
pub open spec fn parts_lookup(t: Seq<NodeView>, index1: u64, stamp: Option<u64>) -> Option<WidgetId> {
    if 1 <= index1 && index1 - 1 <= usize::MAX && preorder(t, 0).contains((index1 - 1) as usize) && (stamp is None
        || stamp == Some(0u64)) {
        Some(WidgetId((index1 - 1) as usize))
    } else {
        None
    }
}

/// A widget id written as JSON, `{"index1":i,"stamp":s}`: its one-based
/// slot index and its stamp.
#[derive(Debug, Clone, Copy, PartialEq, Eq, Structural)]
pub struct JsonWidgetId {
    pub index1: u64,
    pub stamp: u64,
}

/// The widget that a JSON id names: the one in slot `index1 - 1`, whether
/// or not the tree holds it, as a deserialized id is taken as it is. No
/// slot of the tree is reused, so every widget carries stamp 0 and another
/// stamp names none.
pub open spec fn json_widget(j: JsonWidgetId) -> Option<WidgetId> {
    if 1 <= j.index1 && j.index1 - 1 <= usize::MAX && j.stamp == 0 {
        Some(WidgetId((j.index1 - 1) as usize))
    } else {
        None
    }
}

/// The widget that a JSON id names (see `json_widget`).
pub fn widget_id_from_json(j: JsonWidgetId) -> (r: Option<WidgetId>)
    ensures
        r == json_widget(j),
{
    if j.index1 >= 1 && j.index1 - 1 <= usize::MAX as u64 && j.stamp == 0 {
        Some(WidgetId((j.index1 - 1) as usize))
    } else {
        None
    }
}

/// The widget that an id names, among the widgets under the root: the JSON
/// form when the text parsed as one (`json`), else the id text `s`;
/// `names` holds each widget's debug name.
pub open spec fn resolved(t: Seq<NodeView>, names: Seq<Seq<char>>, json: Option<JsonWidgetId>, s: Seq<char>) -> Option<WidgetId> {
    match json {
        Some(j) => json_widget(j),
        None => resolved_text(t, names, s),
    }
}

/// The widget that an id text names, among the widgets under the root;
/// `names` holds each widget's debug name.
pub open spec fn resolved_text(t: Seq<NodeView>, names: Seq<Seq<char>>, s: Seq<char>) -> Option<WidgetId> {
    match widget_ref_of(s) {
        WidgetRefView::Parts { index1, stamp } => parts_lookup(t, index1, stamp),
        WidgetRefView::Name(n) => match first_named(search_order(t, 0), names, n) {
            Some(w) => Some(WidgetId(w)),
            None => None,
        },
        WidgetRefView::Nothing => None,
    }
}

/// The widget under the root that `index1` (one-based) and `stamp` name.
pub fn find_widget_id_by_parts(tree: &WidgetTree, index1: u64, stamp: Option<u64>) -> (r: Option<WidgetId>)
    requires
        tree.wf(),
    ensures
        r == parts_lookup(tree.view(), index1, stamp),
{
    let stamp_ok = match stamp {
        Some(s) => s == 0,
        None => true,
    };
    if index1 == 0 || !stamp_ok {
        return None;
    }
    let all = tree.descendants(tree.root());
    let ghost order = preorder(tree.view(), 0);
    let mut i: usize = 0;
    while i < all.len()
        invariant
            i <= all@.len(),
            ids_of(all@) == order,
            order == preorder(tree.view(), 0),
            stamp is None || stamp == Some(0u64),
            index1 >= 1,
            forall|j: int| 0 <= j < i ==> order[j] as u64 != index1 - 1,
        decreases all.len() - i,
    {
        assert(ids_of(all@)[i as int] == all@[i as int].0);
        if (all[i].0 as u64) == index1 - 1 {
            let w = all[i].0;
            assert(order[i as int] == w);
            assert(w == index1 - 1);
            assert(order.contains(w));
            return Some(WidgetId(w));
        }
        i = i + 1;
    }
    assert(forall|w: usize| order.contains(w) ==> w != index1 - 1) by {
        assert forall|w: usize| order.contains(w) implies w != index1 - 1 by {
            let j = choose|j: int| 0 <= j < order.len() && order[j] == w;
            assert(order[j] as u64 != index1 - 1);
        }
    }
    None
}

/// The first widget of the search order from the root whose debug name
/// is `name`.
fn resolve_widget_id_by_debug_name(tree: &WidgetTree, names: &Vec<String>, name: &Vec<char>) -> (r: Option<WidgetId>)
    requires
        tree.wf(),
        names@.len() == tree.view().len(),
    ensures
        r == match first_named(search_order(tree.view(), 0), names@.map_values(|n: String| n@), name@) {
            Some(w) => Some(WidgetId(w)),
            None => None::<WidgetId>,
        },
{
    let mut order: Vec<WidgetId> = Vec::new();
    push_search_order(tree, tree.root, &mut order);
    let ghost o = search_order(tree.view(), 0);
    let ghost nv = names@.map_values(|n: String| n@);
    proof {
        lemma_search_order_in(tree.view(), 0);
    }
    assert(ids_of(Seq::<WidgetId>::empty()) =~= Seq::<usize>::empty());
    assert(ids_of(order@) =~= o);
    assert(o.skip(0) =~= o);
    let mut i: usize = 0;
    while i < order.len()
        invariant
            i <= order@.len(),
            ids_of(order@) == o,
            o == search_order(tree.view(), 0),
            nv == names@.map_values(|n: String| n@),
            names@.len() == tree.view().len(),
            forall|j: int| 0 <= j < o.len() ==> (#[trigger] o[j]) < tree.view().len(),
            first_named(o.skip(i as int), nv, name@) == first_named(o, nv, name@),
        decreases order.len() - i,
    {
        let w = order[i].0;
        assert(ids_of(order@)[i as int] == w);
        assert(o.skip(i as int)[0] == w);
        assert(o.skip(i as int).drop_first() =~= o.skip(i + 1));
        assert(o[i as int] == w);
        assert(w < names@.len());
        let candidate = chars_of(names[w].as_str());
        assert(nv.len() == names@.len());
        assert(nv[w as int] == names@[w as int]@);
        if crate::text::chars_eq(&candidate, name) {
            assert(nv[w as int] == name@);
            assert(first_named(o.skip(i as int), nv, name@) == Some(w));
            return Some(WidgetId(w));
        }
        i = i + 1;
    }
    None
}

/// The widget that an id names among the widgets under the root. `json` is
/// the id when its text `id_str` parsed as a JSON id, which is tried first;
/// otherwise the text is `index:stamp` or `index` (one-based), or a debug
/// name (first in the search order). `names` holds each widget's debug name.
pub fn resolve_widget_id(id_str: &str, json: Option<JsonWidgetId>, tree: &WidgetTree, names: &Vec<String>) -> (r: Option<WidgetId>)
    requires
        tree.wf(),
        names@.len() == tree.view().len(),
    ensures
        r == resolved(tree.view(), names@.map_values(|n: String| n@), json, id_str@),
{
    if let Some(j) = json {
        return widget_id_from_json(j);
    }
    match parse_widget_ref(id_str) {
        WidgetRef::Parts { index1, stamp } => find_widget_id_by_parts(tree, index1, stamp),
        WidgetRef::Name(n) => resolve_widget_id_by_debug_name(tree, names, &chars_of(n.as_str())),
        WidgetRef::Nothing => None,
    }
}

} // verus!
