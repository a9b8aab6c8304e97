//! Ranking of candidate names by closeness to an input name.
use vstd::prelude::*;

use crate::text::{
    contains, edit_distance, names_view, is_prefix, levenshtein_distance, normalize_chars, normalized, occurs_in,
    chars_of,
};

verus! {

/// How close one candidate is to the input: its edit distance, whether the
/// input is a prefix of it, whether the input occurs in it, and its position
/// among the candidates.
#[derive(Clone, Copy)]
pub struct Score {
    pub dist: usize,
    pub prefix: bool,
    pub inner: bool,
    pub idx: usize,
}

/// `a` ranks strictly before `b`: smaller distance, then a prefix match, then
/// an inner match.
pub open spec fn ranks_before(a: Score, b: Score) -> bool {
    a.dist < b.dist || (a.dist == b.dist && ((a.prefix && !b.prefix) || (a.prefix == b.prefix
        && a.inner && !b.inner)))
}

/// `x` inserted into `s` after every element that does not rank after it.
pub open spec fn insert_ranked(s: Seq<Score>, x: Score) -> Seq<Score>
    decreases s.len(),
{
    if s.len() == 0 {
        seq![x]
    } else if !ranks_before(x, s.last()) {
        s.push(x)
    } else {
        insert_ranked(s.drop_last(), x).push(s.last())
    }
}

/// `s` stably sorted by rank: elements of equal rank keep their order.
pub open spec fn stable_ranked(s: Seq<Score>) -> Seq<Score>
    decreases s.len(),
{
    if s.len() == 0 {
        Seq::empty()
    } else {
        insert_ranked(stable_ranked(s.drop_last()), s.last())
    }
}

proof fn lemma_insert_ranked_at(s: Seq<Score>, x: Score, j: int)
    requires
        0 <= j <= s.len(),
        forall|k: int| j <= k < s.len() ==> ranks_before(x, #[trigger] s[k]),
        j == 0 || !ranks_before(x, s[j - 1]),
    ensures
        insert_ranked(s, x) == s.take(j).push(x) + s.skip(j),
    decreases s.len(),
{
    if s.len() == j {
        if j == 0 {
            assert(s.take(0).push(x) + s.skip(0) =~= seq![x]);
        } else {
            assert(s.take(j).push(x) + s.skip(j) =~= s.push(x));
        }
    } else {
        lemma_insert_ranked_at(s.drop_last(), x, j);
        assert(s.drop_last().take(j).push(x) + s.drop_last().skip(j) + seq![s.last()] =~= s.take(j).push(x) + s.skip(j));
    }
}

/// `v` stably sorted by rank.
pub fn sort_ranked(v: Vec<Score>) -> (r: Vec<Score>)
    ensures
        r@ == stable_ranked(v@),
{
    let mut out: Vec<Score> = Vec::new();
    let mut i: usize = 0;
    while i < v.len()
        invariant
            i <= v.len(),
            out@ == stable_ranked(v@.take(i as int)),
        decreases v.len() - i,
    {
        let x = v[i];
        let mut j: usize = out.len();
        while j > 0 && (x.dist < out[j - 1].dist || (x.dist == out[j - 1].dist && ((x.prefix
            && !out[j - 1].prefix) || (x.prefix == out[j - 1].prefix && x.inner && !out[
            j - 1].inner))))
            invariant
                j <= out@.len(),
                forall|k: int| j <= k < out@.len() ==> ranks_before(x, #[trigger] out@[k]),
            decreases j,
        {
            j = j - 1;
        }
        proof {
            lemma_insert_ranked_at(out@, x, j as int);
            assert(v@.take(i + 1).drop_last() == v@.take(i as int));
        }
        out.insert(j, x);
        assert(out@ =~= stable_ranked(v@.take(i as int)).take(j as int).push(x) + stable_ranked(v@.take(i as int)).skip(j as int));
        i = i + 1;
    }
    assert(v@.take(v.len() as int) == v@);
    out
}

/// The score of the candidate at `idx` against the normalized input `n`.
pub open spec fn score_of(n: Seq<char>, candidate: Seq<char>, idx: int) -> Score {
    Score {
        dist: edit_distance(n, normalized(candidate)) as usize,
        prefix: is_prefix(n, normalized(candidate)),
        inner: occurs_in(n, normalized(candidate)),
        idx: idx as usize,
    }
}

/// The scores of all candidate names, in candidate order.
pub open spec fn scores_of(input: Seq<char>, names: Seq<Seq<char>>) -> Seq<Score> {
    Seq::new(names.len(), |k: int| score_of(normalized(input), names[k], k))
}

/// The candidate names closest to `input`, best first, at most `limit` of them.
pub open spec fn closest_names(input: Seq<char>, names: Seq<Seq<char>>, limit: nat) -> Seq<Seq<char>> {
    let ranked = stable_ranked(scores_of(input, names));
    let kept = if limit < ranked.len() { ranked.take(limit as int) } else { ranked };
    kept.map_values(|s: Score| names[s.idx as int])
}


proof fn lemma_stable_ranked_len(s: Seq<Score>)
    ensures
        stable_ranked(s).len() == s.len(),
    decreases s.len(),
{
    if s.len() > 0 {
        lemma_stable_ranked_len(s.drop_last());
        lemma_insert_ranked_len(stable_ranked(s.drop_last()), s.last());
    }
}

proof fn lemma_insert_ranked_len(s: Seq<Score>, x: Score)
    ensures
        insert_ranked(s, x).len() == s.len() + 1,
    decreases s.len(),
{
    if s.len() > 0 && ranks_before(x, s.last()) {
        lemma_insert_ranked_len(s.drop_last(), x);
    }
}

/// Every element of the stably sorted sequence comes from the input.
proof fn lemma_stable_ranked_members(s: Seq<Score>)
    ensures
        forall|k: int| 0 <= k < stable_ranked(s).len() ==> s.contains(#[trigger] stable_ranked(s)[k]),
    decreases s.len(),
{
    if s.len() > 0 {
        lemma_stable_ranked_members(s.drop_last());
        lemma_insert_ranked_members(stable_ranked(s.drop_last()), s.last());
        assert forall|k: int| 0 <= k < stable_ranked(s).len() implies s.contains(#[trigger] stable_ranked(s)[k]) by {
            let e = stable_ranked(s)[k];
            if e == s.last() {
                assert(s[s.len() - 1] == e);
            } else {
                assert(stable_ranked(s.drop_last()).contains(e));
                let m = choose|m: int| 0 <= m < stable_ranked(s.drop_last()).len() && stable_ranked(s.drop_last())[m] == e;
                assert(s.drop_last().contains(e));
                let q = choose|q: int| 0 <= q < s.drop_last().len() && s.drop_last()[q] == e;
                assert(s[q] == e);
            }
        }
    }
}

proof fn lemma_insert_ranked_members(s: Seq<Score>, x: Score)
    ensures
        forall|k: int| 0 <= k < insert_ranked(s, x).len() ==> (#[trigger] insert_ranked(s, x)[k] == x || s.contains(insert_ranked(s, x)[k])),
    decreases s.len(),
{
    lemma_insert_ranked_len(s, x);
    if s.len() > 0 && ranks_before(x, s.last()) {
        lemma_insert_ranked_members(s.drop_last(), x);
        assert forall|k: int| 0 <= k < insert_ranked(s, x).len() implies (#[trigger] insert_ranked(s, x)[k] == x || s.contains(insert_ranked(s, x)[k])) by {
            let e = insert_ranked(s, x)[k];
            if k == insert_ranked(s, x).len() - 1 {
                assert(s[s.len() - 1] == e);
            } else {
                assert(insert_ranked(s.drop_last(), x)[k] == e);
                if e != x {
                    let q = choose|q: int| 0 <= q < s.drop_last().len() && s.drop_last()[q] == e;
                    assert(s[q] == e);
                }
            }
        }
    } else if s.len() > 0 {
        assert forall|k: int| 0 <= k < insert_ranked(s, x).len() implies (#[trigger] insert_ranked(s, x)[k] == x || s.contains(insert_ranked(s, x)[k])) by {
            if k < s.len() {
                assert(s[k] == insert_ranked(s, x)[k]);
            }
        }
    }
}

/// The candidates closest to `input`: ranked by edit distance between the
/// normalized names, then by whether the input is a prefix, then by whether
/// it occurs inside; equal ranks keep the candidates' order. At most `limit`.
pub fn closest_names_of<'a>(input: &str, candidates: &[&'a str], limit: usize) -> (r: Vec<&'a str>)
    requires
        input@.len() < usize::MAX,
        forall|k: int| 0 <= k < candidates@.len() ==> (#[trigger] candidates@[k])@.len() < usize::MAX,
    ensures
        names_view(r@) == closest_names(input@, names_view(candidates@), limit as nat),
{
    let ghost names = names_view(candidates@);
    let n = normalize_chars(&chars_of(input));
    proof {
        lemma_normalized_len(input@);
    }
    let mut scored: Vec<Score> = Vec::new();
    let mut i: usize = 0;
    while i < candidates.len()
        invariant
            i <= candidates@.len(),
            n@ == normalized(input@),
            n@.len() < usize::MAX,
            forall|k: int| 0 <= k < candidates@.len() ==> (#[trigger] candidates@[k])@.len() < usize::MAX,
            names == names_view(candidates@),
            scored@ == scores_of(input@, names).take(i as int),
        decreases candidates.len() - i,
    {
        let c = normalize_chars(&chars_of(candidates[i]));
        proof {
            lemma_normalized_len(candidates@[i as int]@);
        }
        let dist = levenshtein_distance(&n, &c);
        let prefix = crate::text::starts_with(&c, &n);
        let inner = contains(&c, &n);
        scored.push(Score { dist, prefix, inner, idx: i });
        assert(scored@ =~= scores_of(input@, names).take(i + 1));
        i = i + 1;
    }
    assert(scored@ =~= scores_of(input@, names));
    let ranked = sort_ranked(scored);
    proof {
        lemma_stable_ranked_len(scores_of(input@, names));
        lemma_stable_ranked_members(scores_of(input@, names));
    }
    let ghost all = scores_of(input@, names);
    let keep = if limit < ranked.len() { limit } else { ranked.len() };
    let cl = candidates.len();
    let mut out: Vec<&'a str> = Vec::new();
    let mut k: usize = 0;
    while k < keep
        invariant
            keep <= ranked@.len(),
            ranked@ == stable_ranked(all),
            all == scores_of(input@, names),
            cl == candidates@.len(),
            names == names_view(candidates@),
            forall|q: int| 0 <= q < ranked@.len() ==> all.contains(#[trigger] ranked@[q]),
            k <= keep,
            names_view(out@) == ranked@.take(k as int).map_values(|s: Score| names[s.idx as int]),
        decreases keep - k,
    {
        let s = ranked[k];
        assert(all.contains(ranked@[k as int]));
        proof {
            let q = choose|q: int| 0 <= q < all.len() && all[q] == ranked@[k as int];
            assert(all[q] == score_of(normalized(input@), names[q], q));
            assert(all[q].idx == q as usize);
            assert(s.idx == q);
            assert(q < names.len());
        }
        let ghost before = out@;
        out.push(candidates[s.idx]);
        assert(out@ == before.push(candidates@[s.idx as int]));
        assert(names[s.idx as int] == candidates@[s.idx as int]@);
        assert(ranked@.take(k + 1) == ranked@.take(k as int).push(s));
        assert(names_view(out@) =~= names_view(before).push(candidates@[s.idx as int]@));
        assert(ranked@.take(k + 1).map_values(|s: Score| names[s.idx as int]) =~= ranked@.take(k as int).map_values(|s: Score| names[s.idx as int]).push(names[s.idx as int]));
        assert(names_view(out@) =~= ranked@.take(k + 1).map_values(|s: Score| names[s.idx as int]));
        k = k + 1;
    }
    assert(ranked@.take(keep as int) =~= (if (limit as nat) < ranked@.len() { ranked@.take(limit as int) } else { ranked@ }));
    out
}

proof fn lemma_normalized_len(s: Seq<char>)
    ensures
        normalized(s).len() <= s.len(),
    decreases s.len(),
{
    if s.len() > 0 {
        lemma_normalized_len(s.drop_last());
    }
}

} // verus!
