//! A bounded, time-windowed buffer of log lines.
use vstd::prelude::*;
use std::collections::VecDeque;

verus! {

/// One buffered log line with its sequence number and timestamp.
#[derive(Debug)]
pub struct LogRingItem {
    pub seq: u64,
    pub ts_unix_ms: u64,
    pub line: String,
}

/// What a buffered line holds: sequence number, timestamp, text.
pub struct ItemView {
    pub seq: u64,
    pub ts: u64,
    pub line: Seq<char>,
}

pub open spec fn item_view(i: LogRingItem) -> ItemView {
    ItemView { seq: i.seq, ts: i.ts_unix_ms, line: i.line@ }
}

/// `a - b`, or 0 when `b > a`.
pub open spec fn sat_sub(a: u64, b: u64) -> u64 {
    if a >= b { (a - b) as u64 } else { 0 }
}

/// `s` without its leading items older than `min_ts`.
pub open spec fn drop_older(s: Seq<ItemView>, min_ts: u64) -> Seq<ItemView>
    decreases s.len(),
{
    if s.len() > 0 && s[0].ts < min_ts {
        drop_older(s.drop_first(), min_ts)
    } else {
        s
    }
}

/// The buffer after pushing `item` onto `items`: the oldest items beyond
/// `max_items` are dropped, then leading items older than the newest
/// item's timestamp minus `max_age_ms`.
pub open spec fn pushed(items: Seq<ItemView>, item: ItemView, max_items: nat, max_age_ms: u64) -> Seq<ItemView> {
    let s1 = items.push(item);
    let s2 = if s1.len() > max_items { s1.skip(s1.len() - max_items) } else { s1 };
    let newest = if s2.len() > 0 { s2.last().ts } else { 0 };
    drop_older(s2, sat_sub(newest, max_age_ms))
}

/// Position of the first item with timestamp at least `since` (or the length).
pub open spec fn first_at_or_after_ts(s: Seq<ItemView>, since: u64) -> int
    decreases s.len(),
{
    if s.len() == 0 {
        0
    } else if s[0].ts >= since {
        0
    } else {
        1 + first_at_or_after_ts(s.drop_first(), since)
    }
}

/// Position of the first item with sequence number at least `from` (or the length).
pub open spec fn first_at_or_after_seq(s: Seq<ItemView>, from: u64) -> int
    decreases s.len(),
{
    if s.len() == 0 {
        0
    } else if s[0].seq >= from {
        0
    } else {
        1 + first_at_or_after_seq(s.drop_first(), from)
    }
}

/// The items of `s` not newer than `until`, in order.
pub open spec fn not_after(s: Seq<ItemView>, until: Option<u64>) -> Seq<ItemView>
    decreases s.len(),
{
    if s.len() == 0 {
        Seq::empty()
    } else {
        let rest = not_after(s.drop_last(), until);
        if until is Some && s.last().ts > until->0 { rest } else { rest.push(s.last()) }
    }
}

/// How many items a limit lets through: every item without a limit, else
/// the limit, but always at least one.
pub open spec fn capped<A>(s: Seq<A>, limit: Option<usize>) -> Seq<A> {
    match limit {
        Some(l) => {
            let n: int = if l == 0 { 1 } else { l as int };
            if n < s.len() { s.take(n) } else { s }
        },
        None => s,
    }
}

/// The lines a time query returns.
pub open spec fn queried_lines(s: Seq<ItemView>, since: Option<u64>, until: Option<u64>, limit: Option<usize>) -> Seq<Seq<char>> {
    let start = match since {
        Some(t) => first_at_or_after_ts(s, t),
        None => 0,
    };
    capped(not_after(s.skip(start), until), limit).map_values(|i: ItemView| i.line)
}

/// The (sequence number, line) pairs a sequence query returns.
pub open spec fn queried_from_seq(s: Seq<ItemView>, from_seq: u64, limit: Option<usize>) -> Seq<(u64, Seq<char>)> {
    capped(s.skip(first_at_or_after_seq(s, from_seq)), limit).map_values(|i: ItemView| (i.seq, i.line))
}

proof fn lemma_first_ts_is(s: Seq<ItemView>, since: u64, k: int)
    requires
        0 <= k <= s.len(),
        forall|j: int| 0 <= j < k ==> s[j].ts < since,
        k == s.len() || s[k].ts >= since,
    ensures
        first_at_or_after_ts(s, since) == k,
    decreases s.len(),
{
    if s.len() > 0 && k > 0 {
        lemma_first_ts_is(s.drop_first(), since, k - 1);
    }
}

proof fn lemma_first_seq_is(s: Seq<ItemView>, from: u64, k: int)
    requires
        0 <= k <= s.len(),
        forall|j: int| 0 <= j < k ==> s[j].seq < from,
        k == s.len() || s[k].seq >= from,
    ensures
        first_at_or_after_seq(s, from) == k,
    decreases s.len(),
{
    if s.len() > 0 && k > 0 {
        lemma_first_seq_is(s.drop_first(), from, k - 1);
    }
}

proof fn lemma_drop_older_skip(s: Seq<ItemView>, min_ts: u64, k: int)
    requires
        0 <= k <= s.len(),
        forall|j: int| 0 <= j < k ==> s[j].ts < min_ts,
        k == s.len() || s[k].ts >= min_ts,
    ensures
        drop_older(s, min_ts) == s.skip(k),
    decreases k,
{
    if k > 0 {
        lemma_drop_older_skip(s.drop_first(), min_ts, k - 1);
        assert(s.drop_first().skip(k - 1) == s.skip(k));
    } else {
        assert(s.skip(0) == s);
    }
}

/// A buffer of recent log lines, bounded in count and in age.
#[derive(Debug)]
pub struct LogRing {
    pub items: VecDeque<LogRingItem>,
    pub max_items: usize,
    pub max_age_ms: u64,
}

impl LogRing {
    /// The buffered lines, oldest first.
    pub open spec fn view_items(&self) -> Seq<ItemView> {
        self.items@.map_values(|i: LogRingItem| item_view(i))
    }

    /// An empty buffer keeping at most `max_items` lines, no older than
    /// `max_age_ms` before the newest.
    pub fn new(max_items: usize, max_age_ms: u64) -> (r: LogRing)
        ensures
            r.view_items() == Seq::<ItemView>::empty(),
            r.max_items == max_items,
            r.max_age_ms == max_age_ms,
    {
        let r = LogRing { items: VecDeque::new(), max_items, max_age_ms };
        assert(r.view_items() =~= Seq::<ItemView>::empty());
        r
    }

    /// Adds `item`, then drops the oldest lines beyond the count bound and the
    /// leading lines older than the age bound.
    pub fn push(&mut self, item: LogRingItem)
        ensures
            final(self).view_items() == pushed(old(self).view_items(), item_view(item), old(self).max_items as nat, old(self).max_age_ms),
            final(self).max_items == old(self).max_items,
            final(self).max_age_ms == old(self).max_age_ms,
    {
        let ghost iv = item_view(item);
        let ghost s1 = old(self).view_items().push(iv);
        self.items.push_back(item);
        assert(self.view_items() =~= s1);
        let ghost over: int = if s1.len() > self.max_items { s1.len() - self.max_items } else { 0 };
        while self.items.len() > self.max_items
            invariant
                self.view_items() == s1.skip(over - (self.items@.len() - self.max_items)) || self.items@.len() <= self.max_items,
                over == (if s1.len() > self.max_items { s1.len() - self.max_items } else { 0int }),
                self.items@.len() > self.max_items ==> self.view_items() == s1.skip(s1.len() - self.items@.len()),
                self.items@.len() <= self.max_items ==> self.view_items() == (if s1.len() > self.max_items { s1.skip(s1.len() - self.max_items) } else { s1 }),
                self.items@.len() <= s1.len(),
                self.max_items == old(self).max_items,
                self.max_age_ms == old(self).max_age_ms,
            decreases self.items@.len(),
        {
            let ghost before = self.view_items();
            self.items.pop_front();
            assert(self.view_items() =~= before.drop_first());
            assert(s1.skip(s1.len() - before.len()).drop_first() =~= s1.skip(s1.len() - self.items@.len()));
        }
        let ghost s2 = self.view_items();
        let n = self.items.len();
        let newest: u64 = if n > 0 { self.items[n - 1].ts_unix_ms } else { 0 };
        assert(n > 0 ==> newest == s2.last().ts);
        assert(s2 == (if s1.len() > old(self).max_items { s1.skip(s1.len() - old(self).max_items) } else { s1 }));
        let min_ts: u64 = if newest >= self.max_age_ms { newest - self.max_age_ms } else { 0 };
        let ghost dropped: int = 0;
        while self.items.len() > 0 && self.items[0].ts_unix_ms < min_ts
            invariant
                s2.len() >= self.items@.len(),
                self.view_items() == s2.skip(s2.len() - self.items@.len()),
                forall|j: int| 0 <= j < s2.len() - self.items@.len() ==> s2[j].ts < min_ts,
                self.max_items == old(self).max_items,
                self.max_age_ms == old(self).max_age_ms,
                s2 == (if s1.len() > old(self).max_items { s1.skip(s1.len() - old(self).max_items) } else { s1 }),
                min_ts == sat_sub(if s2.len() > 0 { s2.last().ts } else { 0 }, old(self).max_age_ms),
            decreases self.items@.len(),
        {
            let ghost before = self.view_items();
            assert(before[0] == s2[s2.len() - before.len()]);
            assert(before[0].ts < min_ts);
            self.items.pop_front();
            assert(self.view_items() =~= before.drop_first());
            assert(s2.skip(s2.len() - before.len()).drop_first() =~= s2.skip(s2.len() - self.items@.len()));
        }
        proof {
            let k = s2.len() - self.items@.len();
            if self.items@.len() > 0 {
                assert(self.view_items()[0] == s2[k]);
            }
            lemma_drop_older_skip(s2, min_ts, k);
        }
    }

    /// Number of buffered lines.
    pub fn len(&self) -> (r: usize)
        ensures
            r == self.view_items().len(),
    {
        self.items.len()
    }

    /// Timestamp of the newest line, if any.
    pub fn max_ts(&self) -> (r: Option<u64>)
        ensures
            r == if self.view_items().len() > 0 { Some(self.view_items().last().ts) } else { None },
    {
        let n = self.items.len();
        if n > 0 { Some(self.items[n - 1].ts_unix_ms) } else { None }
    }

    /// Sequence number of the newest line, if any.
    pub fn max_seq(&self) -> (r: Option<u64>)
        ensures
            r == if self.view_items().len() > 0 { Some(self.view_items().last().seq) } else { None },
    {
        let n = self.items.len();
        if n > 0 { Some(self.items[n - 1].seq) } else { None }
    }

    /// The lines from the first one at or after `since_ts`, skipping those
    /// after `until_ts`, at most `limit` of them (a limit of 0 still lets
    /// one through).
    pub fn query_lines(&self, since_ts: Option<u64>, until_ts: Option<u64>, limit: Option<usize>) -> (r: Vec<String>)
        ensures
            r@.map_values(|l: String| l@) == queried_lines(self.view_items(), since_ts, until_ts, limit),
    {
        let ghost s = self.view_items();
        let n = self.items.len();
        let mut start: usize = 0;
        if let Some(since) = since_ts {
            while start < n && self.items[start].ts_unix_ms < since
                invariant
                    n == s.len(),
                    s == self.view_items(),
                    start <= n,
                    forall|j: int| 0 <= j < start ==> s[j].ts < since,
                decreases n - start,
            {
                start = start + 1;
            }
            proof {
                lemma_first_ts_is(s, since, start as int);
            }
        }
        let ghost rest = s.skip(start as int);
        let mut out: Vec<String> = Vec::new();
        let mut i: usize = start;
        while i < n
            invariant
                n == s.len(),
                s == self.view_items(),
                start <= i <= n,
                rest == s.skip(start as int),
                since_ts is Some ==> start == first_at_or_after_ts(s, since_ts->0),
                since_ts is None ==> start == 0,
                out@.map_values(|l: String| l@) == not_after(rest.take(i - start), until_ts).map_values(|v: ItemView| v.line),
                limit is Some ==> out@.len() < (if limit->0 == 0 { 1int } else { limit->0 as int }),
            decreases n - i,
        {
            let ghost t = rest.take(i - start + 1);
            assert(t.drop_last() == rest.take(i - start));
            assert(t.last() == s[i as int]);
            let ts = self.items[i].ts_unix_ms;
            let skip = match until_ts {
                Some(u) => ts > u,
                None => false,
            };
            if !skip {
                let line = self.items[i].line.clone();
                assert(line@ == s[i as int].line);
                let ghost before = out@;
                out.push(line);
                assert(out@ == before.push(line));
                assert(out@.map_values(|l: String| l@) =~= before.map_values(|l: String| l@).push(s[i as int].line));
                assert(not_after(t, until_ts) == not_after(rest.take(i - start), until_ts).push(s[i as int]));
                assert(out@.map_values(|l: String| l@) =~= not_after(t, until_ts).map_values(|v: ItemView| v.line));
                let full = match limit {
                    Some(l) => out.len() >= l,
                    None => false,
                };
                if full {
                    proof {
                        lemma_not_after_prefix(rest, i - start + 1, until_ts);
                        assert(out@.len() == not_after(t, until_ts).len());
                        assert(out@.len() == (if limit->0 == 0 { 1int } else { limit->0 as int }));
                    }
                    assert(capped(not_after(rest, until_ts), limit) =~= not_after(t, until_ts));
                    assert(out@.map_values(|l: String| l@) =~= queried_lines(s, since_ts, until_ts, limit));
                    return out;
                }
            } else {
                assert(out@.map_values(|l: String| l@) =~= not_after(t, until_ts).map_values(|v: ItemView| v.line));
            }
            i = i + 1;
        }
        assert(rest.take(n - start) =~= rest);
        proof {
            lemma_not_after_len(rest, until_ts);
        }
        assert(capped(not_after(rest, until_ts), limit) =~= not_after(rest, until_ts));
        out
    }

    /// The (sequence number, line) pairs from the first line whose sequence
    /// number is at least `from_seq`, at most `limit` of them (a limit of 0
    /// still lets one through).
    pub fn query_lines_from_seq(&self, from_seq: u64, limit: Option<usize>) -> (r: Vec<(u64, String)>)
        ensures
            r@.map_values(|p: (u64, String)| (p.0, p.1@)) == queried_from_seq(self.view_items(), from_seq, limit),
    {
        let ghost s = self.view_items();
        let n = self.items.len();
        let mut start: usize = 0;
        while start < n && self.items[start].seq < from_seq
            invariant
                n == s.len(),
                s == self.view_items(),
                start <= n,
                forall|j: int| 0 <= j < start ==> s[j].seq < from_seq,
            decreases n - start,
        {
            start = start + 1;
        }
        proof {
            lemma_first_seq_is(s, from_seq, start as int);
        }
        let ghost rest = s.skip(start as int);
        let mut out: Vec<(u64, String)> = Vec::new();
        let mut i: usize = start;
        while i < n
            invariant
                n == s.len(),
                s == self.view_items(),
                start <= i <= n,
                rest == s.skip(start as int),
                start == first_at_or_after_seq(s, from_seq),
                out@.map_values(|p: (u64, String)| (p.0, p.1@)) == rest.take(i - start).map_values(|v: ItemView| (v.seq, v.line)),
                limit is Some ==> out@.len() < (if limit->0 == 0 { 1int } else { limit->0 as int }),
            decreases n - i,
        {
            let seq = self.items[i].seq;
            let line = self.items[i].line.clone();
            assert(line@ == s[i as int].line && seq == s[i as int].seq);
            let ghost before = out@;
            out.push((seq, line));
            assert(out@ == before.push((seq, line)));
            assert(rest.take(i - start + 1) == rest.take(i - start).push(s[i as int]));
            assert(out@.map_values(|p: (u64, String)| (p.0, p.1@)) =~= before.map_values(|p: (u64, String)| (p.0, p.1@)).push((seq, line@)));
            assert(out@.map_values(|p: (u64, String)| (p.0, p.1@)) =~= rest.take(i - start + 1).map_values(|v: ItemView| (v.seq, v.line)));
            let full = match limit {
                Some(l) => out.len() >= l,
                None => false,
            };
            if full {
                assert(out@.len() == i - start + 1);
                assert(out@.len() == (if limit->0 == 0 { 1int } else { limit->0 as int }));
                assert(capped(rest, limit) =~= rest.take(i - start + 1));
                assert(out@.map_values(|p: (u64, String)| (p.0, p.1@)) =~= queried_from_seq(s, from_seq, limit));
                return out;
            }
            i = i + 1;
        }
        assert(rest.take(n - start) =~= rest);
        assert(capped(rest, limit) =~= rest);
        out
    }
}

proof fn lemma_not_after_len(s: Seq<ItemView>, until: Option<u64>)
    ensures
        not_after(s, until).len() <= s.len(),
    decreases s.len(),
{
    if s.len() > 0 {
        lemma_not_after_len(s.drop_last(), until);
    }
}

/// Once the kept prefix has reached the limit, the query result is that prefix.
proof fn lemma_not_after_prefix(s: Seq<ItemView>, k: int, until: Option<u64>)
    requires
        0 <= k <= s.len(),
    ensures
        not_after(s.take(k), until).len() <= not_after(s, until).len(),
        not_after(s, until).take(not_after(s.take(k), until).len() as int) == not_after(s.take(k), until),
    decreases s.len() - k,
{
    if k == s.len() {
        assert(s.take(k) == s);
        assert(not_after(s, until).take(not_after(s, until).len() as int) == not_after(s, until));
    } else {
        lemma_not_after_prefix(s, k + 1, until);
        let t = s.take(k + 1);
        assert(t.drop_last() == s.take(k));
        let a = not_after(s.take(k), until);
        let b = not_after(t, until);
        assert(b.take(a.len() as int) == a);
        let full = not_after(s, until);
        assert(full.take(b.len() as int).take(a.len() as int) == full.take(a.len() as int));
    }
}

proof fn lemma_drop_older_suffix(s: Seq<ItemView>, min_ts: u64)
    ensures
        drop_older(s, min_ts).len() <= s.len(),
        drop_older(s, min_ts) == s.skip(s.len() - drop_older(s, min_ts).len()),
        drop_older(s, min_ts).len() > 0 ==> drop_older(s, min_ts)[0].ts >= min_ts,
    decreases s.len(),
{
    if s.len() > 0 && s[0].ts < min_ts {
        lemma_drop_older_suffix(s.drop_first(), min_ts);
        let d = drop_older(s, min_ts);
        assert(s.drop_first().skip(s.drop_first().len() - d.len()) == s.skip(s.len() - d.len()));
    } else {
        assert(s.skip(0) == s);
    }
}

proof fn lemma_drop_older_dropped(s: Seq<ItemView>, min_ts: u64)
    ensures
        drop_older(s, min_ts).len() <= s.len(),
        forall|j: int| 0 <= j < s.len() - drop_older(s, min_ts).len() ==> (#[trigger] s[j]).ts < min_ts,
    decreases s.len(),
{
    if s.len() > 0 && s[0].ts < min_ts {
        lemma_drop_older_dropped(s.drop_first(), min_ts);
        assert forall|j: int| 0 <= j < s.len() - drop_older(s, min_ts).len() implies (#[trigger] s[j]).ts < min_ts by {
            if j > 0 {
                assert(s[j] == s.drop_first()[j - 1]);
            }
        }
    }
}

/// A push keeps a contiguous run of the old lines and the new one, in
/// order, ending with the newest kept: the buffer is a suffix of the old
/// lines followed by the new one. Each line dropped from its front was
/// beyond the newest `max_items`, or older than the new line's timestamp
/// minus `max_age_ms`.
pub proof fn law_push_keeps_suffix(items: Seq<ItemView>, item: ItemView, max_items: nat, max_age_ms: u64)
    ensures
        ({
            let all = items.push(item);
            let r = pushed(items, item, max_items, max_age_ms);
            &&& r.len() <= all.len()
            &&& r == all.skip(all.len() - r.len())
            &&& forall|j: int| 0 <= j < all.len() - r.len() ==> j < all.len() - max_items
                || (#[trigger] all[j]).ts < sat_sub(item.ts, max_age_ms)
        }),
{
    let all = items.push(item);
    let s2 = if all.len() > max_items { all.skip(all.len() - max_items) } else { all };
    let off = all.len() - s2.len();
    let min_ts = sat_sub(if s2.len() > 0 { s2.last().ts } else { 0 }, max_age_ms);
    lemma_drop_older_suffix(s2, min_ts);
    lemma_drop_older_dropped(s2, min_ts);
    let r = pushed(items, item, max_items, max_age_ms);
    assert(r == drop_older(s2, min_ts));
    assert(s2 == all.skip(off));
    assert(r == all.skip(all.len() - r.len())) by {
        assert(r =~= all.skip(off).skip(s2.len() - r.len()));
        assert(all.skip(off).skip(s2.len() - r.len()) =~= all.skip(all.len() - r.len()));
    }
    assert forall|j: int| 0 <= j < all.len() - r.len() implies j < all.len() - max_items
        || (#[trigger] all[j]).ts < sat_sub(item.ts, max_age_ms) by {
        if j >= off {
            assert(all[j] == s2[j - off]);
            assert(s2[j - off].ts < min_ts);
            assert(s2.len() > 0);
            assert(s2.last() == item);
        }
    }
}

/// A push keeps the buffer within its count bound, keeps the newest line
/// (unless the buffer keeps nothing), and leaves no leading line older than
/// the age bound allows.
pub proof fn law_push_keeps_bounds(items: Seq<ItemView>, item: ItemView, max_items: nat, max_age_ms: u64)
    ensures
        pushed(items, item, max_items, max_age_ms).len() <= max_items,
        max_items > 0 ==> pushed(items, item, max_items, max_age_ms).len() > 0
            && pushed(items, item, max_items, max_age_ms).last() == item,
        pushed(items, item, max_items, max_age_ms).len() > 0 ==> pushed(items, item, max_items, max_age_ms)[0].ts
            >= sat_sub(item.ts, max_age_ms),
{
    let s1 = items.push(item);
    let s2 = if s1.len() > max_items { s1.skip(s1.len() - max_items) } else { s1 };
    lemma_drop_older_suffix(s2, sat_sub(if s2.len() > 0 { s2.last().ts } else { 0 }, max_age_ms));
    let r = pushed(items, item, max_items, max_age_ms);
    if max_items > 0 {
        assert(s2.last() == item);
        assert(r.len() > 0) by {
            if sat_sub(item.ts, max_age_ms) > item.ts {
            }
            assert(item.ts >= sat_sub(item.ts, max_age_ms));
            assert(s2[s2.len() - 1].ts >= sat_sub(item.ts, max_age_ms));
            lemma_drop_older_keeps_last(s2, sat_sub(item.ts, max_age_ms));
        }
        assert(r.last() == s2.last());
    }
}

proof fn lemma_drop_older_keeps_last(s: Seq<ItemView>, min_ts: u64)
    requires
        s.len() > 0,
        s.last().ts >= min_ts,
    ensures
        drop_older(s, min_ts).len() > 0,
    decreases s.len(),
{
    if s[0].ts < min_ts {
        assert(s.len() > 1);
        assert(s.drop_first().last() == s.last());
        lemma_drop_older_keeps_last(s.drop_first(), min_ts);
    }
}

} // verus!
