//! Processing a batch of input files one at a time: a failure of one item is
//! recorded and the batch goes on.

use vstd::prelude::*;

verus! {

/// The progress of a batch of `total` items, taken in order.
pub struct BatchRun {
    pub total: usize,
    pub next: usize,
    pub succeeded: Vec<usize>,
    pub failed: Vec<usize>,
}

impl BatchRun {
    pub open spec fn wf(&self) -> bool {
        &&& self.next <= self.total
        &&& self.succeeded.len() + self.failed.len() == self.next
        &&& forall|k: int| 0 <= k < self.succeeded.len() ==> #[trigger] self.succeeded@[k] < self.next
        &&& forall|k: int| 0 <= k < self.failed.len() ==> #[trigger] self.failed@[k] < self.next
    }

    /// A batch of `total` items, none processed.
    pub fn new(total: usize) -> (r: BatchRun)
        ensures
            r.wf(),
            r.total == total,
            r.next == 0,
            r.succeeded@.len() == 0,
            r.failed@.len() == 0,
    {
        BatchRun { total, next: 0, succeeded: Vec::new(), failed: Vec::new() }
    }

    /// The item to process next, if any is left.
    pub fn next_item(&self) -> (r: Option<usize>)
        ensures
            r == (if self.next < self.total {
                Some(self.next)
            } else {
                None
            }),
    {
        if self.next < self.total {
            Some(self.next)
        } else {
            None
        }
    }

    /// Records whether the current item succeeded, and moves on.
    pub fn record(&mut self, ok: bool)
        requires
            old(self).wf(),
            old(self).next < old(self).total,
        ensures
            final(self).wf(),
            final(self).total == old(self).total,
            final(self).next == old(self).next + 1,
            ok ==> final(self).succeeded@ == old(self).succeeded@.push(old(self).next),
            ok ==> final(self).failed@ == old(self).failed@,
            !ok ==> final(self).failed@ == old(self).failed@.push(old(self).next),
            !ok ==> final(self).succeeded@ == old(self).succeeded@,
    {
        let item = self.next;
        if ok {
            self.succeeded.push(item);
        } else {
            self.failed.push(item);
        }
        self.next = item + 1;
    }

    pub fn is_done(&self) -> (r: bool)
        ensures
            r == (self.next >= self.total),
    {
        self.next >= self.total
    }

    pub fn succeeded_count(&self) -> (r: usize)
        ensures
            r == self.succeeded.len(),
    {
        self.succeeded.len()
    }

    pub fn failed_count(&self) -> (r: usize)
        ensures
            r == self.failed.len(),
    {
        self.failed.len()
    }
}

/// Once a batch is done, every item is counted once, as a success or a
/// failure.
pub proof fn lemma_batch_accounts_for_every_item(run: BatchRun)
    requires
        run.wf(),
        run.next >= run.total,
    ensures
        run.succeeded.len() + run.failed.len() == run.total,
{
}

} // verus!
