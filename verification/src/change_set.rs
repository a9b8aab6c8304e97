//! Batched data-change notification. Changes queue up; the first change
//! queued while no notification runs asks for one. A notification takes the
//! queue batch after batch until it stays empty (observers may queue more
//! changes meanwhile), and never runs twice at once.
use vstd::prelude::*;

verus! {

/// The queued changes, and whether a notification runs.
#[derive(Debug)]
pub struct ChangeDataset<D> {
    pub dirty_info: Vec<D>,
    pub in_emit: bool,
}

/// Whether queuing a change onto `dirty` asks for a notification: only the
/// first change queued while no notification runs does.
pub open spec fn asks_notification<D>(dirty: Seq<D>, in_emit: bool) -> bool {
    !in_emit && dirty.len() == 0
}

/// The changes queued by a round, in order: what telling each change
/// returned, one after the other.
pub open spec fn queued_after<D>(outs: Seq<Vec<D>>) -> Seq<D>
    decreases outs.len(),
{
    if outs.len() == 0 {
        Seq::empty()
    } else {
        queued_after(outs.drop_last()) + outs.last()@
    }
}

impl<D> ChangeDataset<D> {
    /// No change queued, no notification running.
    pub fn new() -> (r: ChangeDataset<D>)
        ensures
            r.dirty_info@.len() == 0,
            !r.in_emit,
    {
        ChangeDataset { dirty_info: Vec::new(), in_emit: false }
    }

    /// Queues `info`. Returns whether it asks for a notification: it is the
    /// first change queued while none runs.
    pub fn add_changed(&mut self, info: D) -> (r: bool)
        ensures
            final(self).dirty_info@ == old(self).dirty_info@.push(info),
            final(self).in_emit == old(self).in_emit,
            r == asks_notification(old(self).dirty_info@, old(self).in_emit),
    {
        self.dirty_info.push(info);
        !self.in_emit && self.dirty_info.len() == 1
    }

    /// Starts a notification. Refused, changing nothing, while one runs.
    pub fn begin_emit(&mut self) -> (r: bool)
        ensures
            r == !old(self).in_emit,
            final(self).in_emit,
            final(self).dirty_info@ == old(self).dirty_info@,
    {
        if self.in_emit {
            return false;
        }
        self.in_emit = true;
        true
    }

    /// Hands the queued changes over, oldest first, leaving none queued.
    pub fn take_batch(&mut self) -> (r: Vec<D>)
        ensures
            r@ == old(self).dirty_info@,
            final(self).dirty_info@.len() == 0,
            final(self).in_emit == old(self).in_emit,
    {
        let mut batch: Vec<D> = Vec::new();
        std::mem::swap(&mut batch, &mut self.dirty_info);
        batch
    }

    /// One round of a running notification: takes the queued changes and
    /// tells `notify` of each, oldest first. The changes that telling one
    /// queues (what `notify` returns for it) wait, in order, for the next
    /// round. Returns whether there was any change to tell.
    pub fn emit_round<F: Fn(D) -> Vec<D>>(&mut self, notify: &F) -> (r: bool)
        requires
            old(self).in_emit,
            forall|d: D| notify.requires((d,)),
        ensures
            r == (old(self).dirty_info@.len() > 0),
            final(self).in_emit,
            exists|outs: Seq<Vec<D>>| {
                &&& outs.len() == old(self).dirty_info@.len()
                &&& forall|i: int| 0 <= i < outs.len() ==> notify.ensures((old(self).dirty_info@[i],), #[trigger] outs[i])
                &&& final(self).dirty_info@ == queued_after(outs)
            },
    {
        let ghost all = self.dirty_info@;
        let mut rest = self.take_batch();
        let changed = rest.len() > 0;
        let ghost mut outs: Seq<Vec<D>> = Seq::empty();
        let ghost mut done: int = 0;
        while rest.len() > 0
            invariant
                0 <= done <= all.len(),
                rest@ == all.skip(done),
                outs.len() == done,
                forall|i: int| 0 <= i < done ==> notify.ensures((all[i],), #[trigger] outs[i]),
                self.dirty_info@ == queued_after(outs),
                self.in_emit,
                forall|d: D| notify.requires((d,)),
            decreases rest@.len(),
        {
            let d = rest.remove(0);
            assert(d == all[done]);
            let more = notify(d);
            let ghost produced: Vec<D> = more;
            let ghost before = self.dirty_info@;
            let ghost mut k: int = 0;
            let mut more = more;
            let ghost m = more@;
            while more.len() > 0
                invariant
                    0 <= k <= m.len(),
                    more@ == m.skip(k),
                    self.dirty_info@ == before + m.take(k),
                    self.in_emit,
                decreases more@.len(),
            {
                let x = more.remove(0);
                self.dirty_info.push(x);
                assert(m.take(k + 1) =~= m.take(k).push(x));
                proof {
                    k = k + 1;
                }
                assert(more@ =~= m.skip(k));
            }
            assert(m.take(m.len() as int) =~= m);
            proof {
                let newouts = outs.push(produced);
                assert(newouts.drop_last() =~= outs);
                assert(queued_after(newouts) =~= queued_after(outs) + m);
                outs = newouts;
                done = done + 1;
            }
            assert(rest@ =~= all.skip(done));
        }
        assert(outs.len() == all.len());
        changed
    }

    /// Ends the running notification.
    pub fn end_emit(&mut self)
        ensures
            !final(self).in_emit,
            final(self).dirty_info@ == old(self).dirty_info@,
    {
        self.in_emit = false;
    }
}

/// One notification is asked for per batch: once a change asked for one,
/// the changes queued after it ask for none until the queue is taken.
pub proof fn law_one_request_per_batch<D>(dirty: Seq<D>, in_emit: bool, a: D, b: D)
    requires
        asks_notification(dirty, in_emit),
    ensures
        !asks_notification(dirty.push(a), in_emit),
        !asks_notification(dirty.push(a).push(b), in_emit),
        asks_notification(Seq::<D>::empty(), in_emit),
{
}

/// Changes queued while a notification runs ask for none: that
/// notification takes them.
pub proof fn law_no_request_while_emitting<D>(dirty: Seq<D>)
    ensures
        !asks_notification(dirty, true),
{
}

} // verus!
