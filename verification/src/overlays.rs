//! Debug overlays: colored highlights over widgets, per window.
use vstd::prelude::*;
use std::collections::HashMap;

use crate::text::chars_of;
use vstd::std_specs::iter::IteratorSpec;
use crate::widget_tree::WidgetId;

verus! {

broadcast use vstd::std_specs::hash::group_hash_axioms;

/// The value of a hexadecimal digit, if `c` is one.
pub open spec fn hex_digit(c: char) -> Option<u32> {
    if '0' <= c && c <= '9' {
        Some((c as u32 - '0' as u32) as u32)
    } else if 'a' <= c && c <= 'f' {
        Some((c as u32 - 'a' as u32 + 10) as u32)
    } else if 'A' <= c && c <= 'F' {
        Some((c as u32 - 'A' as u32 + 10) as u32)
    } else {
        None
    }
}

/// `u8::from_str_radix` on two characters in base 16: an optional `+` then
/// one digit, or two digits.
pub open spec fn hex_byte(a: char, b: char) -> Option<u32> {
    if a == '+' {
        hex_digit(b)
    } else {
        match (hex_digit(a), hex_digit(b)) {
            (Some(x), Some(y)) => Some((x * 16 + y) as u32),
            _ => None,
        }
    }
}

/// `s` without its leading `#` characters.
pub open spec fn strip_hashes(s: Seq<char>) -> Seq<char>
    decreases s.len(),
{
    if s.len() > 0 && s[0] == '#' { strip_hashes(s.drop_first()) } else { s }
}

/// The RGBA value (red in the high byte) that a color text names:
/// `#RRGGBBAA` or `#RRGGBB` (opaque), with any number of leading `#`.
pub open spec fn hex_color(s: Seq<char>) -> Option<u32> {
    let h = strip_hashes(s);
    if h.len() == 8 {
        match (hex_byte(h[0], h[1]), hex_byte(h[2], h[3]), hex_byte(h[4], h[5]), hex_byte(h[6], h[7])) {
            (Some(r), Some(g), Some(b), Some(a)) => Some((r * 0x1000000 + g * 0x10000 + b * 0x100 + a) as u32),
            _ => None,
        }
    } else if h.len() == 6 {
        match (hex_byte(h[0], h[1]), hex_byte(h[2], h[3]), hex_byte(h[4], h[5])) {
            (Some(r), Some(g), Some(b)) => Some((r * 0x1000000 + g * 0x10000 + b * 0x100 + 0xFF) as u32),
            _ => None,
        }
    } else {
        None
    }
}

proof fn lemma_hex_byte_small(a: char, b: char)
    ensures
        hex_byte(a, b) matches Some(v) ==> v < 256,
{
}

proof fn lemma_rgba_bytes(r: u32, g: u32, b: u32, a: u32)
    requires
        r < 256,
        g < 256,
        b < 256,
        a < 256,
    ensures
        r * 0x1000000 + g * 0x10000 + b * 0x100 + a <= 0xFFFFFFFF,
        (r * 0x1000000 + g * 0x10000 + b * 0x100 + a) / 0x1000000 == r,
        (r * 0x1000000 + g * 0x10000 + b * 0x100 + a) / 0x10000 % 0x100 == g,
        (r * 0x1000000 + g * 0x10000 + b * 0x100 + a) / 0x100 % 0x100 == b,
        (r * 0x1000000 + g * 0x10000 + b * 0x100 + a) % 0x100 == a,
{
    let v = r * 0x1000000 + g * 0x10000 + b * 0x100 + a;
    assert(v <= 0xFFFFFFFF) by (nonlinear_arith)
        requires r < 256, g < 256, b < 256, a < 256, v == r * 0x1000000 + g * 0x10000 + b * 0x100 + a;
    assert(v / 0x1000000 == r) by (nonlinear_arith)
        requires r < 256, g < 256, b < 256, a < 256, v == r * 0x1000000 + g * 0x10000 + b * 0x100 + a;
    assert(v / 0x10000 == r * 0x100 + g) by (nonlinear_arith)
        requires r < 256, g < 256, b < 256, a < 256, v == r * 0x1000000 + g * 0x10000 + b * 0x100 + a;
    assert((r * 0x100 + g) % 0x100 == g) by (nonlinear_arith)
        requires g < 256;
    assert(v / 0x100 == r * 0x10000 + g * 0x100 + b) by (nonlinear_arith)
        requires r < 256, g < 256, b < 256, a < 256, v == r * 0x1000000 + g * 0x10000 + b * 0x100 + a;
    assert((r * 0x10000 + g * 0x100 + b) % 0x100 == b) by (nonlinear_arith)
        requires b < 256;
    assert(v % 0x100 == a) by (nonlinear_arith)
        requires a < 256, v == r * 0x1000000 + g * 0x10000 + b * 0x100 + a;
}

/// An eight-digit color text names its red, green, blue and alpha bytes in
/// that order: the value's highest byte is the first digit pair, then the
/// second, the third, and the lowest byte is the last pair.
pub proof fn law_hex_color_bytes(h: Seq<char>)
    requires
        h.len() == 8,
        h[0] != '#',
        hex_byte(h[0], h[1]) is Some,
        hex_byte(h[2], h[3]) is Some,
        hex_byte(h[4], h[5]) is Some,
        hex_byte(h[6], h[7]) is Some,
    ensures
        hex_color(h) matches Some(v) && {
            &&& v / 0x1000000 == hex_byte(h[0], h[1])->0
            &&& v / 0x10000 % 0x100 == hex_byte(h[2], h[3])->0
            &&& v / 0x100 % 0x100 == hex_byte(h[4], h[5])->0
            &&& v % 0x100 == hex_byte(h[6], h[7])->0
        },
{
    assert(strip_hashes(h) == h);
    lemma_hex_byte_small(h[0], h[1]);
    lemma_hex_byte_small(h[2], h[3]);
    lemma_hex_byte_small(h[4], h[5]);
    lemma_hex_byte_small(h[6], h[7]);
    lemma_rgba_bytes(hex_byte(h[0], h[1])->0, hex_byte(h[2], h[3])->0, hex_byte(h[4], h[5])->0, hex_byte(h[6], h[7])->0);
}

/// A six-digit color is the eight-digit color with opaque alpha: writing
/// `FF` after a six-digit color text names the same color.
pub proof fn law_six_digits_are_opaque(h: Seq<char>)
    requires
        h.len() == 6,
        h[0] != '#',
    ensures
        hex_color(h.push('F').push('F')) == hex_color(h),
{
    let h8 = h.push('F').push('F');
    assert(strip_hashes(h) == h);
    assert(strip_hashes(h8) == h8);
    assert(hex_byte('F', 'F') == Some(255u32));
    assert(h8[0] == h[0] && h8[1] == h[1] && h8[2] == h[2] && h8[3] == h[3] && h8[4] == h[4] && h8[5] == h[5]);
    assert(h8[6] == 'F' && h8[7] == 'F');
}

fn hex_digit_exec(c: char) -> (r: Option<u32>)
    ensures
        r == hex_digit(c),
{
    if '0' <= c && c <= '9' {
        Some((c as u32) - ('0' as u32))
    } else if 'a' <= c && c <= 'f' {
        Some((c as u32) - ('a' as u32) + 10)
    } else if 'A' <= c && c <= 'F' {
        Some((c as u32) - ('A' as u32) + 10)
    } else {
        None
    }
}

fn hex_byte_exec(a: char, b: char) -> (r: Option<u32>)
    ensures
        r == hex_byte(a, b),
        r is Some ==> r->0 < 256,
{
    if a == '+' {
        return hex_digit_exec(b);
    }
    match (hex_digit_exec(a), hex_digit_exec(b)) {
        (Some(x), Some(y)) => Some(x * 16 + y),
        _ => None,
    }
}

proof fn lemma_strip_hashes_skip(s: Seq<char>, i: int)
    requires
        0 <= i <= s.len(),
        forall|k: int| 0 <= k < i ==> s[k] == '#',
    ensures
        strip_hashes(s) == strip_hashes(s.skip(i)),
    decreases i,
{
    if i > 0 {
        lemma_strip_hashes_skip(s.drop_first(), i - 1);
        assert(s.drop_first().skip(i - 1) == s.skip(i));
    } else {
        assert(s.skip(0) == s);
    }
}

/// The RGBA value of a `#RRGGBBAA` or `#RRGGBB` color text (any number of
/// leading `#`); `None` for any other text.
pub fn parse_hex_color(hex: &str) -> (r: Option<u32>)
    ensures
        r == hex_color(hex@),
{
    let v = chars_of(hex);
    let mut i: usize = 0;
    while i < v.len() && v[i] == '#'
        invariant
            i <= v@.len(),
            forall|k: int| 0 <= k < i ==> v@[k] == '#',
        decreases v.len() - i,
    {
        i = i + 1;
    }
    proof {
        lemma_strip_hashes_skip(v@, i as int);
    }
    let ghost h = v@.skip(i as int);
    assert(strip_hashes(h) == h);
    let n = v.len() - i;
    if n == 8 {
        let r = hex_byte_exec(v[i], v[i + 1]);
        let g = hex_byte_exec(v[i + 2], v[i + 3]);
        let b = hex_byte_exec(v[i + 4], v[i + 5]);
        let a = hex_byte_exec(v[i + 6], v[i + 7]);
        match (r, g, b, a) {
            (Some(r), Some(g), Some(b), Some(a)) => {
                assert(r * 0x1000000 + g * 0x10000 + b * 0x100 + a <= 0xFFFFFFFF) by (nonlinear_arith)
                    requires r < 256, g < 256, b < 256, a < 256;
                Some(r * 0x1000000 + g * 0x10000 + b * 0x100 + a)
            }
            _ => None,
        }
    } else if n == 6 {
        let r = hex_byte_exec(v[i], v[i + 1]);
        let g = hex_byte_exec(v[i + 2], v[i + 3]);
        let b = hex_byte_exec(v[i + 4], v[i + 5]);
        match (r, g, b) {
            (Some(r), Some(g), Some(b)) => {
                assert(r * 0x1000000 + g * 0x10000 + b * 0x100 + 0xFF <= 0xFFFFFFFF) by (nonlinear_arith)
                    requires r < 256, g < 256, b < 256;
                Some(r * 0x1000000 + g * 0x10000 + b * 0x100 + 0xFF)
            }
            _ => None,
        }
    } else {
        None
    }
}

/// The overlays of one window: a color text per widget.
#[derive(Debug)]
pub struct WindowOverlays {
    pub colors: HashMap<usize, String>,
}

/// Overlays of all windows.
#[derive(Debug)]
pub struct OverlayStore {
    pub windows: HashMap<u64, WindowOverlays>,
}

/// The color texts of one window's overlays, by widget.
pub open spec fn window_view(w: WindowOverlays) -> Map<usize, Seq<char>> {
    w.colors@.map_values(|s: String| s@)
}

impl OverlayStore {
    /// The overlays: per window, the color text per widget.
    pub open spec fn view(&self) -> Map<u64, Map<usize, Seq<char>>> {
        self.windows@.map_values(|w: WindowOverlays| window_view(w))
    }

    pub fn new() -> (r: OverlayStore)
        ensures
            r.view() == Map::<u64, Map<usize, Seq<char>>>::empty(),
    {
        let r = OverlayStore { windows: HashMap::new() };
        assert(r.view() =~= Map::<u64, Map<usize, Seq<char>>>::empty());
        r
    }
}

/// The overlays of `w` in `m`, none if the window has none.
pub open spec fn overlays_of(m: Map<u64, Map<usize, Seq<char>>>, w: u64) -> Map<usize, Seq<char>> {
    if m.contains_key(w) { m[w] } else { Map::empty() }
}

/// Highlights `widget_id` in window `win_id` with `color`, if the color text
/// is a valid hex color; `None` (and no change) otherwise.
pub fn set_overlay_hex(store: &mut OverlayStore, win_id: u64, widget_id: WidgetId, color: &str) -> (r: Option<()>)
    ensures
        r is Some <==> hex_color(color@) is Some,
        r is Some ==> final(store).view() == old(store).view().insert(win_id, overlays_of(old(store).view(), win_id).insert(widget_id.0, color@)),
        r is None ==> final(store).view() == old(store).view(),
{
    if parse_hex_color(color).is_none() {
        return None;
    }
    let mut w = match store.windows.remove(&win_id) {
        Some(w) => w,
        None => WindowOverlays { colors: HashMap::new() },
    };
    proof {
        assert(window_view(w) == overlays_of(old(store).view(), win_id));
    }
    let ghost before = window_view(w);
    w.colors.insert(widget_id.0, color.to_owned());
    assert(window_view(w) =~= before.insert(widget_id.0, color@));
    store.windows.insert(win_id, w);
    assert(store.view() =~= old(store).view().insert(win_id, overlays_of(old(store).view(), win_id).insert(widget_id.0, color@)));
    Some(())
}

/// Removes the overlays of one window, or of every window.
pub fn clear_overlays(store: &mut OverlayStore, win_id: Option<u64>)
    ensures
        match win_id {
            Some(w) => final(store).view() == old(store).view().remove(w),
            None => final(store).view() == Map::<u64, Map<usize, Seq<char>>>::empty(),
        },
{
    match win_id {
        Some(w) => {
            store.windows.remove(&w);
            assert(store.view() =~= old(store).view().remove(w));
        }
        None => {
            store.windows.clear();
            assert(store.view() =~= Map::<u64, Map<usize, Seq<char>>>::empty());
        }
    }
}

/// Removes the overlay of one widget; `None` if the window has no overlays.
pub fn remove_overlay(store: &mut OverlayStore, win_id: u64, widget_id: WidgetId) -> (r: Option<()>)
    ensures
        r is Some <==> old(store).view().contains_key(win_id),
        r is Some ==> final(store).view() == old(store).view().insert(win_id, old(store).view()[win_id].remove(widget_id.0)),
        r is None ==> final(store).view() == old(store).view(),
{
    let mut w = match store.windows.remove(&win_id) {
        Some(w) => w,
        None => return None,
    };
    let ghost before = window_view(w);
    w.colors.remove(&widget_id.0);
    assert(window_view(w) =~= before.remove(widget_id.0));
    store.windows.insert(win_id, w);
    assert(store.view() =~= old(store).view().insert(win_id, old(store).view()[win_id].remove(widget_id.0)));
    Some(())
}

/// The (widget index, color) pairs of an overlay list.
pub open spec fn overlay_pairs(r: Seq<(WidgetId, String)>) -> Seq<(usize, Seq<char>)> {
    r.map_values(|p: (WidgetId, String)| (p.0.0, p.1@))
}

/// `p` lists the overlays `m`: each widget once, exactly the widgets of
/// `m`, each with its color. The order is left open.
pub open spec fn lists_overlays(p: Seq<(usize, Seq<char>)>, m: Map<usize, Seq<char>>) -> bool {
    &&& forall|i: int, j: int| 0 <= i < p.len() && 0 <= j < p.len() && i != j ==> p[i].0 != p[j].0
    &&& forall|k: usize| m.contains_key(k) <==> exists|i: int| 0 <= i < p.len() && (#[trigger] p[i]).0 == k
    &&& forall|i: int| 0 <= i < p.len() ==> m.contains_key((#[trigger] p[i]).0) && m[p[i].0] == p[i].1
}

proof fn lemma_lists_overlays(r: Seq<(WidgetId, String)>, m: Map<usize, Seq<char>>)
    requires
        forall|i: int, j: int| 0 <= i < r.len() && 0 <= j < r.len() && i != j ==> r[i].0 != r[j].0,
        forall|k: usize| m.contains_key(k) <==> exists|i: int| 0 <= i < r.len() && (#[trigger] r[i]).0.0 == k,
        forall|i: int| 0 <= i < r.len() ==> m.contains_key((#[trigger] r[i]).0.0) && m[r[i].0.0] == r[i].1@,
    ensures
        lists_overlays(overlay_pairs(r), m),
{
    let p = overlay_pairs(r);
    assert forall|i: int, j: int| 0 <= i < p.len() && 0 <= j < p.len() && i != j implies p[i].0 != p[j].0 by {
        assert(r[i].0 != r[j].0);
    }
    assert forall|k: usize| m.contains_key(k) <==> exists|i: int| 0 <= i < p.len() && (#[trigger] p[i]).0 == k by {
        if m.contains_key(k) {
            let i = choose|i: int| 0 <= i < r.len() && (#[trigger] r[i]).0.0 == k;
            assert(p[i].0 == k);
        }
        if exists|i: int| 0 <= i < p.len() && (#[trigger] p[i]).0 == k {
            let i = choose|i: int| 0 <= i < p.len() && (#[trigger] p[i]).0 == k;
            assert(r[i].0.0 == k);
        }
    }
    assert forall|i: int| 0 <= i < p.len() implies m.contains_key((#[trigger] p[i]).0) && m[p[i].0] == p[i].1 by {
        assert(m.contains_key(r[i].0.0));
    }
}

/// Any two lists of the same overlays hold the same pairs, each once: they
/// differ at most in order. So every list of a window's overlays, whichever
/// function made it, holds each highlighted widget exactly once, with its
/// color.
pub proof fn law_overlay_lists_agree(p1: Seq<(usize, Seq<char>)>, p2: Seq<(usize, Seq<char>)>, m: Map<usize, Seq<char>>)
    requires
        lists_overlays(p1, m),
        lists_overlays(p2, m),
    ensures
        p1.to_multiset() == p2.to_multiset(),
        forall|k: usize, c: Seq<char>| #[trigger] p1.to_multiset().count((k, c)) == if m.contains_key(k) && m[k] == c { 1nat } else { 0nat },
{
    broadcast use vstd::seq_lib::group_to_multiset_ensures;
    assert(p1.no_duplicates()) by {
        assert forall|i: int, j: int| 0 <= i < p1.len() && 0 <= j < p1.len() && i != j implies p1[i] != p1[j] by {
            assert(p1[i].0 != p1[j].0);
        }
    }
    assert(p2.no_duplicates()) by {
        assert forall|i: int, j: int| 0 <= i < p2.len() && 0 <= j < p2.len() && i != j implies p2[i] != p2[j] by {
            assert(p2[i].0 != p2[j].0);
        }
    }
    p1.lemma_multiset_has_no_duplicates();
    p2.lemma_multiset_has_no_duplicates();
    assert forall|k: usize, c: Seq<char>| #[trigger] p1.to_multiset().count((k, c)) == if m.contains_key(k) && m[k] == c { 1nat } else { 0nat } by {
        lemma_listed_pair(p1, m, k, c);
    }
    assert forall|x: (usize, Seq<char>)| p1.to_multiset().count(x) == p2.to_multiset().count(x) by {
        lemma_listed_pair(p1, m, x.0, x.1);
        lemma_listed_pair(p2, m, x.0, x.1);
    }
    assert(p1.to_multiset() =~= p2.to_multiset());
}

proof fn lemma_listed_pair(p: Seq<(usize, Seq<char>)>, m: Map<usize, Seq<char>>, k: usize, c: Seq<char>)
    requires
        lists_overlays(p, m),
        forall|x: (usize, Seq<char>)| p.to_multiset().contains(x) ==> p.to_multiset().count(x) == 1,
    ensures
        p.to_multiset().count((k, c)) == if m.contains_key(k) && m[k] == c { 1nat } else { 0nat },
{
    broadcast use vstd::seq_lib::group_to_multiset_ensures;
    if m.contains_key(k) && m[k] == c {
        let i = choose|i: int| 0 <= i < p.len() && (#[trigger] p[i]).0 == k;
        assert(p[i] == (k, c));
        assert(p.contains((k, c)));
    } else if p.contains((k, c)) {
        let i = choose|i: int| 0 <= i < p.len() && p[i] == (k, c);
        assert(m.contains_key(p[i].0));
    }
}

/// The overlays of a window as (widget, color text) pairs, each widget once.
pub fn get_overlays(store: &OverlayStore, win_id: u64) -> (r: Vec<(WidgetId, String)>)
    ensures
        forall|i: int, j: int| 0 <= i < r@.len() && 0 <= j < r@.len() && i != j ==> r@[i].0 != r@[j].0,
        forall|k: usize| overlays_of(store.view(), win_id).contains_key(k) <==> exists|i: int| 0 <= i < r@.len() && (#[trigger] r@[i]).0.0 == k,
        forall|i: int| 0 <= i < r@.len() ==> overlays_of(store.view(), win_id).contains_key((#[trigger] r@[i]).0.0)
            && overlays_of(store.view(), win_id)[r@[i].0.0] == r@[i].1@,
        lists_overlays(overlay_pairs(r@), overlays_of(store.view(), win_id)),
{
    let mut out: Vec<(WidgetId, String)> = Vec::new();
    match store.windows.get(&win_id) {
        Some(w) => {
            let ghost v = vstd::std_specs::hash::spec_hash_map_iter(&w.colors).remaining();
            let ghost m = window_view(*w);
            assert(m == overlays_of(store.view(), win_id));
            for p in iter: w.colors.iter()
                invariant
                    iter.seq() == v,
                    v == vstd::std_specs::hash::spec_hash_map_iter(&w.colors).remaining(),
                    v.no_duplicates(),
                    m == window_view(*w),
                    out@.len() == iter.index(),
                    forall|i: int| 0 <= i < out@.len() ==> (#[trigger] out@[i]).0.0 == *v[i].0 && out@[i].1@ == (*v[i].1)@,
            {
                let ghost k = iter.index();
                assert(p == v[k]);
                out.push((WidgetId(*p.0), p.1.clone()));
            }
            proof {
                assert forall|i: int, j: int| 0 <= i < out@.len() && 0 <= j < out@.len() && i != j implies out@[i].0 != out@[j].0 by {
                    assert(w.colors@.contains_key(*v[i].0) && w.colors@[*v[i].0] == *v[i].1);
                    assert(w.colors@.contains_key(*v[j].0) && w.colors@[*v[j].0] == *v[j].1);
                    if *v[i].0 == *v[j].0 {
                        assert(v[i] == v[j]);
                    }
                }
                assert forall|k: usize| m.contains_key(k) <==> exists|i: int| 0 <= i < out@.len() && (#[trigger] out@[i]).0.0 == k by {
                    if m.contains_key(k) {
                        assert(v.contains((&k, &w.colors@[k])));
                        let i = choose|i: int| 0 <= i < v.len() && v[i] == (&k, &w.colors@[k]);
                        assert(out@[i].0.0 == k);
                    }
                    if exists|i: int| 0 <= i < out@.len() && (#[trigger] out@[i]).0.0 == k {
                        let i = choose|i: int| 0 <= i < out@.len() && (#[trigger] out@[i]).0.0 == k;
                        assert(w.colors@.contains_key(*v[i].0));
                    }
                }
                assert forall|i: int| 0 <= i < out@.len() implies m.contains_key((#[trigger] out@[i]).0.0) && m[out@[i].0.0] == out@[i].1@ by {
                    assert(w.colors@.contains_key(*v[i].0) && w.colors@[*v[i].0] == *v[i].1);
                }
            }
        }
        None => {
            assert(overlays_of(store.view(), win_id) =~= Map::<usize, Seq<char>>::empty());
        }
    }
    proof {
        lemma_lists_overlays(out@, overlays_of(store.view(), win_id));
    }
    out
}

/// Highlights read back: after a widget is highlighted, its window's
/// overlays give its color; after its highlight is removed, it has none; a
/// cleared window has no overlay; other windows are untouched by all three.
pub proof fn law_overlay_read_back(m: Map<u64, Map<usize, Seq<char>>>, w: u64, id: usize, color: Seq<char>, other: u64)
    requires
        other != w,
    ensures
        ({
            let set = m.insert(w, overlays_of(m, w).insert(id, color));
            let removed = set.insert(w, set[w].remove(id));
            let cleared = set.remove(w);
            &&& overlays_of(set, w).contains_key(id) && overlays_of(set, w)[id] == color
            &&& !overlays_of(removed, w).contains_key(id)
            &&& overlays_of(cleared, w) == Map::<usize, Seq<char>>::empty()
            &&& overlays_of(set, other) == overlays_of(m, other)
            &&& overlays_of(removed, other) == overlays_of(m, other)
            &&& overlays_of(cleared, other) == overlays_of(m, other)
        }),
{
}

} // verus!
