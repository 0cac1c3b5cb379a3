//! Minting of fresh counters.
//!
//! Counters live in one table that only grows, so the index of a counter
//! names it for good. Fresh counters are added in batches whose size grows by
//! half each time, up to a cap that bounds the cost of a single batch.
use vstd::prelude::*;
use crate::lock::{RawLocalCounter, COUNTER_INIT};

verus! {

/// Size of the first batch of fresh counters.
pub const FIRST_BATCH: usize = 32;

/// Largest batch: sixteen mebibytes of word-sized counters.
pub const MAX_CHUNK: usize = 2097152;

/// The size of the batch after one of size `n`.
pub open spec fn grown(n: int) -> int {
    if n + n / 2 < MAX_CHUNK { n + n / 2 } else { MAX_CHUNK as int }
}

/// A counter that has never been handed out.
pub open spec fn is_fresh(c: RawLocalCounter) -> bool {
    c.is_unlocked() && c.counter == COUNTER_INIT
}

/// The table of all counters ever minted, with the unused rest of the last batch.
pub struct CounterArena {
    pub counters: Vec<RawLocalCounter>,
    /// Index of the next counter of the current batch to hand out.
    pub next: usize,
    /// Size of the next batch.
    pub batch: usize,
}

impl CounterArena {
    pub open spec fn wf(&self) -> bool {
        &&& self.next <= self.counters.len()
        &&& 1 <= self.batch <= MAX_CHUNK
        &&& forall|i: int| 0 <= i < self.counters.len() ==> (#[trigger] self.counters@[i]).wf()
        &&& forall|i: int| self.next <= i < self.counters.len() ==> is_fresh(#[trigger] self.counters@[i])
    }

    /// Room left for one more batch in the address space of indices.
    pub open spec fn has_room(&self) -> bool {
        self.counters.len() + MAX_CHUNK <= usize::MAX
    }

    pub fn new() -> (r: CounterArena)
        ensures
            r.wf(),
            r.counters@.len() == 0,
            r.next == 0,
            r.batch == FIRST_BATCH,
    {
        CounterArena { counters: Vec::new(), next: 0, batch: FIRST_BATCH }
    }

    /// Number of counters minted so far.
    pub fn allocations(&self) -> (r: usize)
        ensures
            r == self.counters@.len(),
    {
        self.counters.len()
    }

    /// The size of the batch after one of size `n`.
    pub fn grow(n: usize) -> (r: usize)
        requires
            n <= MAX_CHUNK,
        ensures
            r == grown(n as int),
    {
        if n + n / 2 < MAX_CHUNK {
            n + n / 2
        } else {
            MAX_CHUNK
        }
    }

    /// Appends `n` fresh counters to the table.
    fn reserve(&mut self, n: usize)
        requires
            old(self).wf(),
            old(self).next == old(self).counters.len(),
            old(self).counters.len() + n <= usize::MAX,
        ensures
            final(self).wf(),
            final(self).next == old(self).next,
            final(self).batch == old(self).batch,
            final(self).counters@.len() == old(self).counters@.len() + n,
            final(self).counters@.subrange(0, old(self).counters@.len() as int) == old(self).counters@,
    {
        let ghost before = self.counters@;
        let mut i: usize = 0;
        while i < n
            invariant
                0 <= i <= n,
                self.next == before.len(),
                self.batch == old(self).batch,
                1 <= self.batch <= MAX_CHUNK,
                before.len() + n <= usize::MAX,
                self.counters@.len() == before.len() + i,
                self.counters@.subrange(0, before.len() as int) == before,
                forall|j: int| 0 <= j < self.counters.len() ==> (#[trigger] self.counters@[j]).wf(),
                forall|j: int| self.next <= j < self.counters.len() ==> is_fresh(#[trigger] self.counters@[j]),
            decreases n - i,
        {
            self.counters.push(RawLocalCounter::new());
            i = i + 1;
            assert(self.counters@.subrange(0, before.len() as int) =~= before);
        }
    }

    /// Hands out a counter that was never used, minting a new batch when the
    /// current one is used up. Earlier counters are left as they were.
    pub fn fresh(&mut self) -> (r: usize)
        requires
            old(self).wf(),
            old(self).has_room(),
        ensures
            final(self).wf(),
            r == old(self).next,
            final(self).next == r + 1,
            r < final(self).counters@.len(),
            is_fresh(final(self).counters@[r as int]),
            final(self).counters@.len() >= old(self).counters@.len(),
            final(self).counters@.subrange(0, old(self).counters@.len() as int) == old(self).counters@,
            old(self).next < old(self).counters@.len() ==> final(self).counters@ == old(self).counters@
                && final(self).batch == old(self).batch,
            old(self).next == old(self).counters@.len() ==> final(self).counters@.len()
                == old(self).counters@.len() + old(self).batch
                && final(self).batch == grown(old(self).batch as int),
    {
        if self.next == self.counters.len() {
            let n = self.batch;
            self.reserve(n);
            self.batch = CounterArena::grow(n);
        }
        let r = self.next;
        self.next = self.next + 1;
        assert(self.counters@.subrange(0, old(self).counters@.len() as int) =~= old(self).counters@);
        r
    }
}

} // verus!
