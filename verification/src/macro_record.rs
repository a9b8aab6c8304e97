//! Event macro recording: recorded input events become a replayable script
//! with delays between them.
use vstd::prelude::*;

verus! {

/// A recorded event with the time it was recorded.
#[derive(Debug)]
pub struct RecordedEvent<E> {
    pub event: E,
    pub ts_unix_ms: u64,
}

/// One step of a replay script: wait, or inject an event.
#[derive(Debug)]
pub enum ReplayStep<E> {
    Delay { ms: u64 },
    Event(E),
}

/// The result of stopping a macro recording.
#[derive(Debug)]
pub struct StopEventMacroRecordingResult<E> {
    pub recording_id: String,
    pub events: Vec<ReplayStep<E>>,
    pub duration_ms: u64,
}

/// `a - b`, or 0 when `b > a`.
pub open spec fn sat_sub(a: u64, b: u64) -> u64 {
    if a >= b { (a - b) as u64 } else { 0 }
}

/// `x` inserted into `s` after every element recorded no later than it.
pub open spec fn insert_by_time<E>(s: Seq<RecordedEvent<E>>, x: RecordedEvent<E>) -> Seq<RecordedEvent<E>>
    decreases s.len(),
{
    if s.len() == 0 {
        seq![x]
    } else if s.last().ts_unix_ms <= x.ts_unix_ms {
        s.push(x)
    } else {
        insert_by_time(s.drop_last(), x).push(s.last())
    }
}

/// `s` stably sorted by recording time: events recorded at the same time
/// keep their order.
pub open spec fn sorted_by_time<E>(s: Seq<RecordedEvent<E>>) -> Seq<RecordedEvent<E>>
    decreases s.len(),
{
    if s.len() == 0 {
        Seq::empty()
    } else {
        insert_by_time(sorted_by_time(s.drop_last()), s.last())
    }
}

/// The replay script of time-ordered events, starting at time `last`: each
/// event is preceded by a delay for the time since the previous one, when
/// that time is not zero.
pub open spec fn replay_steps<E>(s: Seq<RecordedEvent<E>>, last: u64) -> Seq<ReplayStep<E>>
    decreases s.len(),
{
    if s.len() == 0 {
        Seq::empty()
    } else {
        let d = sat_sub(s[0].ts_unix_ms, last);
        let head = if d > 0 {
            seq![ReplayStep::Delay { ms: d }, ReplayStep::Event(s[0].event)]
        } else {
            seq![ReplayStep::Event(s[0].event)]
        };
        head + replay_steps(s.drop_first(), s[0].ts_unix_ms)
    }
}

proof fn lemma_insert_by_time_at<E>(s: Seq<RecordedEvent<E>>, x: RecordedEvent<E>, j: int)
    requires
        0 <= j <= s.len(),
        forall|k: int| j <= k < s.len() ==> (#[trigger] s[k]).ts_unix_ms > x.ts_unix_ms,
        j == 0 || s[j - 1].ts_unix_ms <= x.ts_unix_ms,
    ensures
        insert_by_time(s, x) == s.take(j).push(x) + s.skip(j),
    decreases s.len(),
{
    if s.len() == j {
        if j == 0 {
            assert(s.take(0).push(x) + s.skip(0) =~= seq![x]);
        } else {
            assert(s.take(j).push(x) + s.skip(j) =~= s.push(x));
        }
    } else {
        lemma_insert_by_time_at(s.drop_last(), x, j);
        assert(s.drop_last().take(j).push(x) + s.drop_last().skip(j) + seq![s.last()] =~= s.take(j).push(x) + s.skip(j));
    }
}

/// `events` stably sorted by recording time.
pub fn sort_by_time<E>(events: Vec<RecordedEvent<E>>) -> (r: Vec<RecordedEvent<E>>)
    ensures
        r@ == sorted_by_time(events@),
{
    let ghost all = events@;
    let total = events.len();
    let mut rest = events;
    let mut out: Vec<RecordedEvent<E>> = Vec::new();
    let mut taken: usize = 0;
    while rest.len() > 0
        invariant
            taken + rest@.len() == all.len(),
            total == all.len(),
            rest@ == all.skip(taken as int),
            out@ == sorted_by_time(all.take(taken as int)),
        decreases rest@.len(),
    {
        let x = rest.remove(0);
        assert(x == all[taken as int]);
        let mut j: usize = out.len();
        while j > 0 && out[j - 1].ts_unix_ms > x.ts_unix_ms
            invariant
                j <= out@.len(),
                forall|k: int| j <= k < out@.len() ==> (#[trigger] out@[k]).ts_unix_ms > x.ts_unix_ms,
            decreases j,
        {
            j = j - 1;
        }
        proof {
            lemma_insert_by_time_at(out@, x, j as int);
            assert(all.take(taken + 1).drop_last() == all.take(taken as int));
            assert(all.take(taken + 1).last() == x);
        }
        let ghost before = out@;
        out.insert(j, x);
        assert(out@ =~= before.take(j as int).push(x) + before.skip(j as int));
        taken = taken + 1;
        assert(rest@ =~= all.skip(taken as int));
    }
    assert(all.take(taken as int) =~= all);
    out
}

/// The replay script of recorded events: stably sorted by recording time,
/// each preceded by a delay for the time since the previous one (or since
/// the recording started), when that time is not zero.
pub fn replay_script<E>(events: Vec<RecordedEvent<E>>, started_at: u64) -> (r: Vec<ReplayStep<E>>)
    ensures
        r@ == replay_steps(sorted_by_time(events@), started_at),
{
    let sorted = sort_by_time(events);
    let ghost all = sorted@;
    let mut rest = sorted;
    let mut out: Vec<ReplayStep<E>> = Vec::new();
    let mut last_ts: u64 = started_at;
    let ghost mut done: int = 0;
    while rest.len() > 0
        invariant
            0 <= done <= all.len(),
            rest@ == all.skip(done),
            out@ + replay_steps(rest@, last_ts) == replay_steps(all, started_at),
        decreases rest@.len(),
    {
        let recorded = rest.remove(0);
        let ghost tail = all.skip(done + 1);
        assert(tail =~= rest@);
        let ts = recorded.ts_unix_ms;
        let delay: u64 = if ts >= last_ts { ts - last_ts } else { 0 };
        let ghost before = out@;
        if delay > 0 {
            out.push(ReplayStep::Delay { ms: delay });
        }
        out.push(ReplayStep::Event(recorded.event));
        proof {
            let s = all.skip(done);
            assert(s[0] == recorded);
            assert(s.drop_first() =~= tail);
            assert(out@ + replay_steps(tail, ts) =~= before + replay_steps(s, last_ts));
            done = done + 1;
        }
        last_ts = ts;
    }
    assert(out@ =~= out@ + replay_steps(rest@, last_ts));
    out
}

/// Stops a recording that started at `started_at` and ended at
/// `end_ts_unix_ms`: its replay script and its wall-clock duration.
pub fn finish_macro_recording<E>(
    id: String,
    started_at: u64,
    events: Vec<RecordedEvent<E>>,
    end_ts_unix_ms: u64,
) -> (r: StopEventMacroRecordingResult<E>)
    ensures
        r.recording_id@ == id@,
        r.events@ == replay_steps(sorted_by_time(events@), started_at),
        r.duration_ms == sat_sub(end_ts_unix_ms, started_at),
{
    let script = replay_script(events, started_at);
    let duration: u64 = if end_ts_unix_ms >= started_at { end_ts_unix_ms - started_at } else { 0 };
    StopEventMacroRecordingResult { recording_id: id, events: script, duration_ms: duration }
}

/// The recording times of `s` never decrease.
pub open spec fn ascending<E>(s: Seq<RecordedEvent<E>>) -> bool {
    forall|i: int, j: int| 0 <= i <= j < s.len() ==> (#[trigger] s[i]).ts_unix_ms <= (#[trigger] s[j]).ts_unix_ms
}

/// The sum of the delays of a replay script.
pub open spec fn total_delay<E>(steps: Seq<ReplayStep<E>>) -> int
    decreases steps.len(),
{
    if steps.len() == 0 {
        0
    } else {
        (match steps[0] {
            ReplayStep::Delay { ms } => ms as int,
            ReplayStep::Event(_) => 0,
        }) + total_delay(steps.drop_first())
    }
}

/// The latest recording time of `s` (0 when it is empty).
pub open spec fn latest<E>(s: Seq<RecordedEvent<E>>) -> u64
    decreases s.len(),
{
    if s.len() == 0 {
        0
    } else {
        let m = latest(s.drop_last());
        if s.last().ts_unix_ms > m { s.last().ts_unix_ms } else { m }
    }
}

proof fn lemma_total_delay_concat<E>(a: Seq<ReplayStep<E>>, b: Seq<ReplayStep<E>>)
    ensures
        total_delay(a + b) == total_delay(a) + total_delay(b),
    decreases a.len(),
{
    if a.len() > 0 {
        assert((a + b).drop_first() =~= a.drop_first() + b);
        lemma_total_delay_concat(a.drop_first(), b);
    } else {
        assert(a + b =~= b);
    }
}

proof fn lemma_insert_by_time_props<E>(s: Seq<RecordedEvent<E>>, x: RecordedEvent<E>)
    ensures
        insert_by_time(s, x).len() == s.len() + 1,
        ascending(s) ==> ascending(insert_by_time(s, x)),
        forall|y: RecordedEvent<E>| #[trigger] insert_by_time(s, x).contains(y) <==> (s.contains(y) || y == x),
    decreases s.len(),
{
    let r = insert_by_time(s, x);
    if s.len() == 0 {
        assert(r == seq![x]);
        assert forall|y: RecordedEvent<E>| #[trigger] r.contains(y) <==> (s.contains(y) || y == x) by {
            if r.contains(y) {
                let k = choose|k: int| 0 <= k < r.len() && r[k] == y;
                assert(k == 0);
            }
            if y == x {
                assert(r[0] == y);
            }
        }
    } else if s.last().ts_unix_ms <= x.ts_unix_ms {
        assert(r == s.push(x));
        assert forall|y: RecordedEvent<E>| #[trigger] r.contains(y) <==> (s.contains(y) || y == x) by {
            if r.contains(y) {
                let k = choose|k: int| 0 <= k < r.len() && r[k] == y;
                if k < s.len() {
                    assert(s[k] == y);
                }
            }
            if s.contains(y) {
                let k = choose|k: int| 0 <= k < s.len() && s[k] == y;
                assert(r[k] == y);
            }
            if y == x {
                assert(r[s.len() as int] == y);
            }
        }
        if ascending(s) {
            assert forall|i: int, j: int| 0 <= i <= j < r.len() implies (#[trigger] r[i]).ts_unix_ms <= (
            #[trigger] r[j]).ts_unix_ms by {
                if j == s.len() {
                    if i < s.len() {
                        assert(s[i].ts_unix_ms <= s[s.len() - 1].ts_unix_ms);
                    }
                }
            }
        }
    } else {
        let t = s.drop_last();
        lemma_insert_by_time_props(t, x);
        let it = insert_by_time(t, x);
        assert(r == it.push(s.last()));
        assert forall|y: RecordedEvent<E>| #[trigger] r.contains(y) <==> (s.contains(y) || y == x) by {
            if r.contains(y) {
                let k = choose|k: int| 0 <= k < r.len() && r[k] == y;
                if k < it.len() {
                    assert(it[k] == y);
                    assert(it.contains(y));
                    if t.contains(y) {
                        let m = choose|m: int| 0 <= m < t.len() && t[m] == y;
                        assert(s[m] == y);
                    }
                } else {
                    assert(s[s.len() - 1] == y);
                }
            }
            if s.contains(y) {
                let k = choose|k: int| 0 <= k < s.len() && s[k] == y;
                if k < t.len() {
                    assert(t[k] == y);
                    assert(it.contains(y));
                    let m = choose|m: int| 0 <= m < it.len() && it[m] == y;
                    assert(r[m] == y);
                } else {
                    assert(r[it.len() as int] == y);
                }
            }
            if y == x {
                assert(it.contains(y));
                let m = choose|m: int| 0 <= m < it.len() && it[m] == y;
                assert(r[m] == y);
            }
        }
        if ascending(s) {
            assert(ascending(t)) by {
                assert forall|i: int, j: int| 0 <= i <= j < t.len() implies (#[trigger] t[i]).ts_unix_ms <= (
                #[trigger] t[j]).ts_unix_ms by {
                    assert(s[i] == t[i] && s[j] == t[j]);
                }
            }
            assert forall|i: int, j: int| 0 <= i <= j < r.len() implies (#[trigger] r[i]).ts_unix_ms <= (
            #[trigger] r[j]).ts_unix_ms by {
                if j == it.len() {
                    if i < it.len() {
                        let y = it[i];
                        assert(it.contains(y));
                        if y == x {
                        } else {
                            assert(t.contains(y));
                            let m = choose|m: int| 0 <= m < t.len() && t[m] == y;
                            assert(s[m] == y);
                            assert(s[m].ts_unix_ms <= s[s.len() - 1].ts_unix_ms);
                        }
                    }
                }
            }
        }
    }
}

proof fn lemma_sorted_by_time_props<E>(s: Seq<RecordedEvent<E>>)
    ensures
        sorted_by_time(s).len() == s.len(),
        ascending(sorted_by_time(s)),
        forall|y: RecordedEvent<E>| #[trigger] sorted_by_time(s).contains(y) <==> s.contains(y),
    decreases s.len(),
{
    if s.len() > 0 {
        let t = s.drop_last();
        lemma_sorted_by_time_props(t);
        lemma_insert_by_time_props(sorted_by_time(t), s.last());
        assert forall|y: RecordedEvent<E>| #[trigger] sorted_by_time(s).contains(y) <==> s.contains(y) by {
            if t.contains(y) {
                let m = choose|m: int| 0 <= m < t.len() && t[m] == y;
                assert(s[m] == y);
            }
            if s.contains(y) {
                let m = choose|m: int| 0 <= m < s.len() && s[m] == y;
                if m < t.len() {
                    assert(t[m] == y);
                }
            }
            assert(s[s.len() - 1] == s.last());
        }
    } else {
        assert forall|y: RecordedEvent<E>| #[trigger] sorted_by_time(s).contains(y) <==> s.contains(y) by {}
    }
}

proof fn lemma_replay_delay<E>(s: Seq<RecordedEvent<E>>, last: u64)
    requires
        s.len() > 0,
        ascending(s),
        s[0].ts_unix_ms >= last,
    ensures
        total_delay(replay_steps(s, last)) == s.last().ts_unix_ms - last,
    decreases s.len(),
{
    let d = sat_sub(s[0].ts_unix_ms, last);
    let head = if d > 0 {
        seq![ReplayStep::Delay { ms: d }, ReplayStep::Event(s[0].event)]
    } else {
        seq![ReplayStep::Event(s[0].event)]
    };
    let rest = s.drop_first();
    lemma_total_delay_concat(head, replay_steps(rest, s[0].ts_unix_ms));
    let ev = seq![ReplayStep::Event(s[0].event)];
    assert(ev.drop_first() =~= Seq::<ReplayStep<E>>::empty());
    assert(total_delay(ev.drop_first()) == 0);
    assert(total_delay(ev) == 0);
    if d > 0 {
        assert(head.drop_first() =~= ev);
    } else {
        assert(head == ev);
    }
    assert(total_delay(head) == d as int);
    if rest.len() > 0 {
        assert(ascending(rest)) by {
            assert forall|i: int, j: int| 0 <= i <= j < rest.len() implies (#[trigger] rest[i]).ts_unix_ms <= (
            #[trigger] rest[j]).ts_unix_ms by {
                assert(rest[i] == s[i + 1] && rest[j] == s[j + 1]);
            }
        }
        assert(rest[0] == s[1]);
        assert(s[0].ts_unix_ms <= s[1].ts_unix_ms);
        lemma_replay_delay(rest, s[0].ts_unix_ms);
        assert(rest.last() == s.last());
    } else {
        assert(replay_steps(rest, s[0].ts_unix_ms) == Seq::<ReplayStep<E>>::empty());
        assert(s.len() == 1);
    }
}

proof fn lemma_latest_is_max<E>(s: Seq<RecordedEvent<E>>)
    requires
        s.len() > 0,
    ensures
        forall|k: int| 0 <= k < s.len() ==> (#[trigger] s[k]).ts_unix_ms <= latest(s),
        exists|k: int| 0 <= k < s.len() && (#[trigger] s[k]).ts_unix_ms == latest(s),
    decreases s.len(),
{
    let t = s.drop_last();
    if t.len() > 0 {
        lemma_latest_is_max(t);
        assert forall|k: int| 0 <= k < s.len() implies (#[trigger] s[k]).ts_unix_ms <= latest(s) by {
            if k < t.len() {
                assert(t[k] == s[k]);
            }
        }
        if s.last().ts_unix_ms > latest(t) {
            assert(s[s.len() - 1].ts_unix_ms == latest(s));
        } else {
            let k = choose|k: int| 0 <= k < t.len() && (#[trigger] t[k]).ts_unix_ms == latest(t);
            assert(s[k] == t[k]);
        }
    } else {
        assert(s[0] == s.last());
        assert(latest(t) == 0);
        assert(latest(s) == s[0].ts_unix_ms);
        assert forall|k: int| 0 <= k < s.len() implies (#[trigger] s[k]).ts_unix_ms <= latest(s) by {
            assert(k == 0);
        }
    }
}

/// Replaying takes as long as the recording did: for events recorded at or
/// after the start, the delays of the replay script add up to the time from
/// the start to the latest event.
pub proof fn law_replay_takes_recorded_time<E>(events: Seq<RecordedEvent<E>>, start: u64)
    requires
        forall|k: int| 0 <= k < events.len() ==> (#[trigger] events[k]).ts_unix_ms >= start,
    ensures
        total_delay(replay_steps(sorted_by_time(events), start)) == (if events.len() == 0 {
            0
        } else {
            latest(events) - start
        }),
{
    let s = sorted_by_time(events);
    lemma_sorted_by_time_props(events);
    if events.len() == 0 {
        assert(s.len() == 0);
        assert(replay_steps(s, start) == Seq::<ReplayStep<E>>::empty());
    } else {
        assert(events.contains(s[0])) by {
            assert(s.contains(s[0]));
        }
        let k0 = choose|k: int| 0 <= k < events.len() && events[k] == s[0];
        assert(events[k0].ts_unix_ms >= start);
        lemma_replay_delay(s, start);
        lemma_latest_is_max(events);
        let l = s[s.len() - 1];
        assert(s.contains(l));
        let kl = choose|k: int| 0 <= k < events.len() && events[k] == l;
        assert(events[kl].ts_unix_ms <= latest(events));
        let km = choose|k: int| 0 <= k < events.len() && (#[trigger] events[k]).ts_unix_ms == latest(events);
        assert(s.contains(events[km]));
        let j = choose|j: int| 0 <= j < s.len() && s[j] == events[km];
        assert(s[j].ts_unix_ms <= l.ts_unix_ms);
    }
}

} // verus!
