//! Owning, aliasing and accessor handles over the slots of one ledger.
//!
//! A slot pairs a counter of the ledger with a payload. The owning handle
//! (`Strong`) is unique; an aliasing handle (`Weak`) is a copyable pair of a
//! slot and the generation observed when it was made, valid while the slot's
//! generation still matches. Accessors (`Reading`, `Writing`) hold a shared
//! or exclusive lock on the slot's counter.
use vstd::prelude::*;
use crate::ledger::{allocate_outcome, Ledger};
use crate::pool::{DropLater, GenerationLayout};
use crate::stats::Stats;

verus! {

/// The owning handle of one allocation.
pub struct Strong {
    slot: usize,
    gen: u32,
}

/// A copyable alias, valid while its slot keeps the generation it recorded.
#[derive(Clone, Copy)]
pub struct Weak {
    slot: usize,
    gen: u32,
}

/// A shared lock on a slot.
pub struct Reading {
    slot: usize,
}

/// The exclusive lock on a slot.
pub struct Writing {
    slot: usize,
}

impl Strong {
    pub closed spec fn slot(&self) -> int {
        self.slot as int
    }

    pub closed spec fn generation(&self) -> u32 {
        self.gen
    }
}

impl Weak {
    pub closed spec fn slot(&self) -> int {
        self.slot as int
    }

    pub closed spec fn generation(&self) -> u32 {
        self.gen
    }

    /// An alias that refers to nothing: its generation is the zero sentinel,
    /// which no counter ever has.
    pub fn dangling() -> (w: Weak)
        ensures
            w.generation() == 0,
    {
        Weak { slot: usize::MAX, gen: 0 }
    }
}

impl Reading {
    pub closed spec fn slot(&self) -> int {
        self.slot as int
    }
}

impl Writing {
    pub closed spec fn slot(&self) -> int {
        self.slot as int
    }
}

/// Whether `q` queues the payload of `slot`.
pub open spec fn queues(q: Seq<DropLater>, slot: int) -> bool {
    exists|k: int| 0 <= k < q.len() && (#[trigger] q[k]).slot == slot
}

/// Payloads of one type in the slots of a ledger.
pub struct Heap<T> {
    pub ledger: Ledger,
    pub layout: GenerationLayout,
    pub data: Vec<Option<T>>,
}

impl<T> Heap<T> {
    pub open spec fn wf(&self) -> bool {
        &&& self.ledger.wf()
        &&& self.data@.len() == self.ledger.arena.counters@.len()
    }

    pub open spec fn has_room(&self) -> bool {
        self.ledger.has_room()
    }

    /// The generation that slot `i` has now.
    pub open spec fn generation_of(&self, i: int) -> u32 {
        self.ledger.counter(i).counter
    }

    /// `s` owns a live payload of this heap.
    pub open spec fn owns(&self, s: &Strong) -> bool {
        &&& self.ledger.issued(s.slot())
        &&& self.generation_of(s.slot()) == s.generation()
        &&& self.data@[s.slot()] is Some
    }

    /// `w` still refers to the allocation it was made from.
    pub open spec fn valid(&self, w: Weak) -> bool {
        self.ledger.issued(w.slot()) && self.generation_of(w.slot()) == w.generation()
    }

    /// An alias made at some generation of its slot that the slot has since
    /// left behind.
    pub open spec fn stale(&self, w: Weak) -> bool {
        self.ledger.issued(w.slot()) && w.generation() < self.generation_of(w.slot())
    }

    /// The payload held in slot `i`.
    pub open spec fn value(&self, i: int) -> T {
        self.data@[i]->Some_0
    }

    /// Generations only ever grow, from `self` to `later`.
    pub open spec fn advances_to(&self, later: &Heap<T>) -> bool {
        &&& self.ledger.arena.next <= later.ledger.arena.next
        &&& forall|i: int| self.ledger.issued(i) ==> #[trigger] self.generation_of(i) <= later.generation_of(i)
    }

    pub fn new() -> (r: Heap<T>)
        ensures
            r.wf(),
            r.ledger.arena.next == 0,
            r.ledger.arena.counters@.len() == 0,
            r.ledger.local.guards == 0,
            r.ledger.local.dropq@.len() == 0,
            r.layout.size as nat == vstd::layout::size_of::<T>(),
            r.layout.align as nat == vstd::layout::align_of::<T>(),
    {
        Heap { ledger: Ledger::new(), layout: GenerationLayout::of::<T>(), data: Vec::new() }
    }

    /// Places `v` in a slot obtained from the ledger and returns its owner.
    pub fn allocate(&mut self, v: T) -> (s: Strong)
        requires
            old(self).wf(),
            old(self).has_room(),
        ensures
            final(self).wf(),
            final(self).owns(&s),
            final(self).value(s.slot()) == v,
            allocate_outcome(old(self).ledger, old(self).layout, final(self).ledger, s.slot() as usize),
            final(self).layout == old(self).layout,
            forall|i: int| 0 <= i < old(self).data@.len() && i != s.slot() ==> #[trigger] final(self).data@[i] == old(self).data@[i],
            old(self).advances_to(final(self)),
    {
        let slot = self.ledger.allocate(self.layout);
        while self.data.len() < self.ledger.arena.counters.len()
            invariant
                self.ledger.wf(),
                self.data@.len() <= self.ledger.arena.counters@.len(),
                old(self).data@.len() <= self.data@.len(),
                self.ledger.issued(slot as int),
                self.layout == old(self).layout,
                allocate_outcome(old(self).ledger, old(self).layout, self.ledger, slot),
                forall|i: int| 0 <= i < old(self).data@.len() ==> #[trigger] self.data@[i] == old(self).data@[i],
            decreases self.ledger.arena.counters@.len() - self.data@.len(),
        {
            self.data.push(None);
        }
        self.data.set(slot, Some(v));
        let gen = self.ledger.count(slot);
        Strong { slot, gen }
    }

    /// An alias of `s`, recording the current generation.
    pub fn alias(&self, s: &Strong) -> (w: Weak)
        requires
            self.wf(),
            self.owns(s),
        ensures
            w.slot() == s.slot(),
            w.generation() == s.generation(),
            self.valid(w),
    {
        Weak { slot: s.slot, gen: self.ledger.count(s.slot) }
    }

    pub fn is_valid(&self, w: &Weak) -> (r: bool)
        requires
            self.wf(),
        ensures
            r == self.valid(*w),
    {
        w.slot < self.ledger.arena.next && self.ledger.count(w.slot) == w.gen
    }
}

/// Whether a shared lock can be added to a counter with lock word `access`.
pub open spec fn shareable(access: i32) -> bool {
    access >= 0 && access <= i32::MAX - 2
}

/// Heap `b` differs from `a` at most in the lock word of slot `i` and in the
/// number of active guards.
pub open spec fn lock_change<T>(a: Heap<T>, b: Heap<T>, i: int) -> bool {
    &&& b.data@ == a.data@
    &&& b.layout == a.layout
    &&& b.ledger.arena.next == a.ledger.arena.next
    &&& b.ledger.arena.batch == a.ledger.arena.batch
    &&& b.ledger.arena.counters@.len() == a.ledger.arena.counters@.len()
    &&& b.ledger.others_unchanged(&a.ledger, i)
    &&& b.ledger.counter(i).counter == a.ledger.counter(i).counter
    &&& b.ledger.local.pool == a.ledger.local.pool
    &&& b.ledger.local.request_sizes == a.ledger.local.request_sizes
    &&& b.ledger.local.dropq == a.ledger.local.dropq
    &&& b.ledger.global == a.ledger.global
    &&& b.ledger.promoted == a.ledger.promoted
}

/// Heap `b` is heap `a` after the lock on slot `i` was released, with one
/// active guard fewer: once none is left, every queued payload has been
/// dropped and its counter returned to the free lists.
pub open spec fn release_outcome<T>(a: Heap<T>, b: Heap<T>, i: int) -> bool {
    &&& b.layout == a.layout
    &&& b.data@.len() == a.data@.len()
    &&& b.ledger.arena.next == a.ledger.arena.next
    &&& b.ledger.arena.counters@.len() == a.ledger.arena.counters@.len()
    &&& b.ledger.others_unchanged(&a.ledger, i)
    &&& b.ledger.counter(i).counter == a.ledger.counter(i).counter
    &&& b.ledger.local.guards == a.ledger.local.guards - 1
    &&& b.ledger.local.request_sizes == a.ledger.local.request_sizes
    &&& b.ledger.global == a.ledger.global
    &&& b.ledger.promoted == a.ledger.promoted
    &&& b.ledger.local.guards == 0 ==> {
        &&& b.ledger.local.dropq@.len() == 0
        &&& forall|j: int| 0 <= j < a.data@.len() ==> #[trigger] b.data@[j]
            == if queues(a.ledger.local.dropq@, j) { None } else { a.data@[j] }
        &&& forall|l: GenerationLayout| #[trigger] b.ledger.local.pool.list_of(l)
            == a.ledger.local.pool.list_of(l) + crate::pool::released(a.ledger.local.dropq@, l, b.ledger.arena.counters@)
    }
    &&& b.ledger.local.guards != 0 ==> b.data@ == a.data@ && b.ledger.local.dropq == a.ledger.local.dropq
        && b.ledger.local.pool == a.ledger.local.pool
}

impl<T> Heap<T> {
    fn acquire_shared(&mut self, slot: usize) -> (r: Option<Reading>)
        requires
            old(self).wf(),
            old(self).ledger.issued(slot as int),
        ensures
            final(self).wf(),
            lock_change(*old(self), *final(self), slot as int),
            r is Some <==> shareable(old(self).ledger.counter(slot as int).access) && old(self).ledger.local.guards < usize::MAX,
            r matches Some(g) ==> g.slot() == slot
                && final(self).ledger.counter(slot as int).access == old(self).ledger.counter(slot as int).access + 2
                && final(self).ledger.local.guards == old(self).ledger.local.guards + 1,
            r is None ==> final(self).ledger.counter(slot as int) == old(self).ledger.counter(slot as int)
                && final(self).ledger.local.guards == old(self).ledger.local.guards,
    {
        if self.ledger.local.guards == usize::MAX {
            return None;
        }
        if !self.ledger.try_lock_shared(slot) {
            return None;
        }
        self.ledger.local.register_guard();
        Some(Reading { slot })
    }

    fn acquire_exclusive(&mut self, slot: usize) -> (r: Option<Writing>)
        requires
            old(self).wf(),
            old(self).ledger.issued(slot as int),
        ensures
            final(self).wf(),
            lock_change(*old(self), *final(self), slot as int),
            r is Some <==> old(self).ledger.counter(slot as int).is_unlocked() && old(self).ledger.local.guards < usize::MAX,
            r matches Some(g) ==> g.slot() == slot
                && final(self).ledger.counter(slot as int).is_exclusive()
                && final(self).ledger.local.guards == old(self).ledger.local.guards + 1,
            r is None ==> final(self).ledger.counter(slot as int) == old(self).ledger.counter(slot as int)
                && final(self).ledger.local.guards == old(self).ledger.local.guards,
    {
        if self.ledger.local.guards == usize::MAX {
            return None;
        }
        if !self.ledger.try_lock_exclusive(slot) {
            return None;
        }
        self.ledger.local.register_guard();
        Some(Writing { slot })
    }

    /// A shared lock through an alias: `None` where the alias is no longer
    /// valid or the slot is held exclusively. Validity is checked again once
    /// the lock is held, and the lock is given back if it no longer holds.
    pub fn try_read(&mut self, w: &Weak) -> (r: Option<Reading>)
        requires
            old(self).wf(),
        ensures
            final(self).wf(),
            r is Some <==> old(self).valid(*w) && shareable(old(self).ledger.counter(w.slot()).access)
                && old(self).ledger.local.guards < usize::MAX,
            r matches Some(g) ==> g.slot() == w.slot() && lock_change(*old(self), *final(self), w.slot())
                && final(self).ledger.counter(w.slot()).access == old(self).ledger.counter(w.slot()).access + 2
                && final(self).ledger.local.guards == old(self).ledger.local.guards + 1,
            r is None ==> final(self).data@ == old(self).data@ && final(self).ledger.arena.counters@ == old(self).ledger.arena.counters@
                && final(self).ledger.local.guards == old(self).ledger.local.guards,
            old(self).advances_to(final(self)),
    {
        if !self.is_valid(w) {
            return None;
        }
        match self.acquire_shared(w.slot) {
            None => {
                assert(self.ledger.arena.counters@ =~= old(self).ledger.arena.counters@);
                None
            },
            Some(g) => {
                if self.ledger.count(w.slot) != w.gen {
                    self.release_read(g);
                    return None;
                }
                Some(g)
            },
        }
    }

    /// The exclusive lock through an alias: `None` where the alias is no
    /// longer valid or the slot is locked. Validity is checked again once the
    /// lock is held, and the lock is given back if it no longer holds.
    pub fn try_write(&mut self, w: &Weak) -> (r: Option<Writing>)
        requires
            old(self).wf(),
        ensures
            final(self).wf(),
            r is Some <==> old(self).valid(*w) && old(self).ledger.counter(w.slot()).is_unlocked()
                && old(self).ledger.local.guards < usize::MAX,
            r matches Some(g) ==> g.slot() == w.slot() && lock_change(*old(self), *final(self), w.slot())
                && final(self).ledger.counter(w.slot()).is_exclusive()
                && final(self).ledger.local.guards == old(self).ledger.local.guards + 1,
            r is None ==> final(self).data@ == old(self).data@ && final(self).ledger.arena.counters@ == old(self).ledger.arena.counters@
                && final(self).ledger.local.guards == old(self).ledger.local.guards,
            old(self).advances_to(final(self)),
    {
        if !self.is_valid(w) {
            return None;
        }
        match self.acquire_exclusive(w.slot) {
            None => {
                assert(self.ledger.arena.counters@ =~= old(self).ledger.arena.counters@);
                None
            },
            Some(g) => {
                if self.ledger.count(w.slot) != w.gen {
                    self.release_write(g);
                    return None;
                }
                Some(g)
            },
        }
    }

    /// A shared lock through the owner: `None` where the slot is held
    /// exclusively.
    pub fn try_borrow(&mut self, s: &Strong) -> (r: Option<Reading>)
        requires
            old(self).wf(),
            old(self).owns(s),
        ensures
            final(self).wf(),
            lock_change(*old(self), *final(self), s.slot()),
            r is Some <==> shareable(old(self).ledger.counter(s.slot()).access) && old(self).ledger.local.guards < usize::MAX,
            r matches Some(g) ==> g.slot() == s.slot()
                && final(self).ledger.counter(s.slot()).access == old(self).ledger.counter(s.slot()).access + 2
                && final(self).ledger.local.guards == old(self).ledger.local.guards + 1,
            r is None ==> final(self).ledger.counter(s.slot()) == old(self).ledger.counter(s.slot())
                && final(self).ledger.local.guards == old(self).ledger.local.guards,
            old(self).advances_to(final(self)),
    {
        self.acquire_shared(s.slot)
    }

    /// The exclusive lock through the owner: `None` where the slot is locked.
    pub fn try_borrow_mut(&mut self, s: &Strong) -> (r: Option<Writing>)
        requires
            old(self).wf(),
            old(self).owns(s),
        ensures
            final(self).wf(),
            lock_change(*old(self), *final(self), s.slot()),
            r is Some <==> old(self).ledger.counter(s.slot()).is_unlocked() && old(self).ledger.local.guards < usize::MAX,
            r matches Some(g) ==> g.slot() == s.slot()
                && final(self).ledger.counter(s.slot()).is_exclusive()
                && final(self).ledger.local.guards == old(self).ledger.local.guards + 1,
            r is None ==> final(self).ledger.counter(s.slot()) == old(self).ledger.counter(s.slot())
                && final(self).ledger.local.guards == old(self).ledger.local.guards,
            old(self).advances_to(final(self)),
    {
        self.acquire_exclusive(s.slot)
    }

    /// The payload under a shared lock.
    pub fn get(&self, g: &Reading) -> (r: &T)
        requires
            self.wf(),
            0 <= g.slot() < self.data@.len(),
            self.data@[g.slot()] is Some,
        ensures
            *r == self.value(g.slot()),
    {
        self.data[g.slot].as_ref().unwrap()
    }

    /// The payload under the exclusive lock.
    pub fn get_written(&self, g: &Writing) -> (r: &T)
        requires
            self.wf(),
            0 <= g.slot() < self.data@.len(),
            self.data@[g.slot()] is Some,
        ensures
            *r == self.value(g.slot()),
    {
        self.data[g.slot].as_ref().unwrap()
    }

    /// Replaces the payload under the exclusive lock and returns the old one.
    pub fn set(&mut self, g: &Writing, v: T) -> (r: T)
        requires
            old(self).wf(),
            0 <= g.slot() < old(self).data@.len(),
            old(self).data@[g.slot()] is Some,
        ensures
            final(self).wf(),
            r == old(self).value(g.slot()),
            final(self).data@ == old(self).data@.update(g.slot(), Some(v)),
            final(self).ledger == old(self).ledger,
            final(self).layout == old(self).layout,
            old(self).advances_to(final(self)),
    {
        let prev = self.data[g.slot].take();
        self.data.set(g.slot, Some(v));
        prev.unwrap()
    }

    /// Drops the payloads of the given queue entries.
    fn drop_payloads(&mut self, q: &Vec<DropLater>)
        requires
            old(self).wf(),
            forall|k: int| 0 <= k < q@.len() ==> (#[trigger] q@[k]).slot < old(self).data@.len(),
        ensures
            final(self).wf(),
            final(self).ledger == old(self).ledger,
            final(self).layout == old(self).layout,
            final(self).data@.len() == old(self).data@.len(),
            forall|j: int| 0 <= j < old(self).data@.len() ==> #[trigger] final(self).data@[j]
                == if queues(q@, j) { None } else { old(self).data@[j] },
    {
        let mut i: usize = 0;
        while i < q.len()
            invariant
                0 <= i <= q@.len(),
                self.wf(),
                self.ledger == old(self).ledger,
                self.layout == old(self).layout,
                self.data@.len() == old(self).data@.len(),
                forall|k: int| 0 <= k < q@.len() ==> (#[trigger] q@[k]).slot < old(self).data@.len(),
                forall|j: int| 0 <= j < old(self).data@.len() ==> #[trigger] self.data@[j]
                    == if queues(q@.take(i as int), j) { None } else { old(self).data@[j] },
            decreases q@.len() - i,
        {
            let slot = q[i].slot;
            self.data.set(slot, None);
            assert forall|j: int| 0 <= j < old(self).data@.len() implies #[trigger] self.data@[j]
                == if queues(q@.take(i + 1), j) { None } else { old(self).data@[j] } by {
                if queues(q@.take(i as int), j) {
                    let k = choose|k: int| 0 <= k < q@.take(i as int).len() && (#[trigger] q@.take(i as int)[k]).slot == j;
                    assert(q@.take(i + 1)[k] == q@.take(i as int)[k]);
                }
                if j == slot {
                    assert(q@.take(i + 1)[i as int].slot == j);
                } else if queues(q@.take(i + 1), j) {
                    let k = choose|k: int| 0 <= k < q@.take(i + 1).len() && (#[trigger] q@.take(i + 1)[k]).slot == j;
                    assert(q@.take(i as int)[k] == q@.take(i + 1)[k]);
                }
            }
            i = i + 1;
        }
        assert(q@.take(q@.len() as int) == q@);
    }

    /// Gives back a guard's hold on the pool: one active guard fewer, and once
    /// none is left the queued payloads are dropped.
    fn deregister(&mut self)
        requires
            old(self).wf(),
            old(self).ledger.local.guards >= 1,
        ensures
            final(self).wf(),
            release_outcome(*old(self), *final(self), -1),
            final(self).ledger.arena == old(self).ledger.arena,
    {
        let q = self.ledger.local.deregister_guard(&self.ledger.arena);
        proof {
            assert forall|l: GenerationLayout, k: int| 0 <= k < self.ledger.local.pool.list_of(l).len() implies
                #[trigger] self.ledger.local.pool.list_of(l)[k] < self.ledger.arena.next by {
                if self.ledger.local.guards == 0 && k >= old(self).ledger.local.pool.list_of(l).len() {
                    lemma_released_below(old(self).ledger.local.dropq@, l, self.ledger.arena.counters@, self.ledger.arena.next as int);
                }
                if k < old(self).ledger.local.pool.list_of(l).len() {
                    assert(self.ledger.local.pool.list_of(l)[k] == old(self).ledger.local.pool.list_of(l)[k]);
                } else {
                    let rel = crate::pool::released(old(self).ledger.local.dropq@, l, self.ledger.arena.counters@);
                    assert(self.ledger.local.pool.list_of(l)[k] == rel[k - old(self).ledger.local.pool.list_of(l).len()]);
                }
            }
        }
        self.drop_payloads(&q);
        if self.ledger.local.guards != 0 {
            assert forall|j: int| 0 <= j < old(self).data@.len() implies self.data@[j] == old(self).data@[j] by {
                assert(!queues(q@, j));
            }
            assert(self.data@ =~= old(self).data@);
        }
    }

    /// Releases a shared lock.
    pub fn release_read(&mut self, g: Reading)
        requires
            old(self).wf(),
            old(self).ledger.issued(g.slot()),
            old(self).ledger.counter(g.slot()).readers() >= 1,
            old(self).ledger.local.guards >= 1,
        ensures
            final(self).wf(),
            final(self).ledger.counter(g.slot()).access == old(self).ledger.counter(g.slot()).access - 2,
            release_outcome(*old(self), *final(self), g.slot()),
            old(self).advances_to(final(self)),
    {
        self.ledger.unlock_shared(g.slot);
        let ghost mid = *self;
        self.deregister();
        assert forall|j: int| 0 <= j < old(self).ledger.arena.counters@.len() && j != g.slot() implies
            #[trigger] self.ledger.arena.counters@[j] == old(self).ledger.arena.counters@[j] by {
            assert(mid.ledger.arena.counters@[j] == old(self).ledger.arena.counters@[j]);
        }
    }

    /// Releases the exclusive lock.
    pub fn release_write(&mut self, g: Writing)
        requires
            old(self).wf(),
            old(self).ledger.issued(g.slot()),
            old(self).ledger.counter(g.slot()).is_exclusive(),
            old(self).ledger.local.guards >= 1,
        ensures
            final(self).wf(),
            final(self).ledger.counter(g.slot()).is_unlocked(),
            release_outcome(*old(self), *final(self), g.slot()),
            old(self).advances_to(final(self)),
    {
        self.ledger.unlock_exclusive(g.slot);
        let ghost mid = *self;
        self.deregister();
        assert forall|j: int| 0 <= j < old(self).ledger.arena.counters@.len() && j != g.slot() implies
            #[trigger] self.ledger.arena.counters@[j] == old(self).ledger.arena.counters@[j] by {
            assert(mid.ledger.arena.counters@[j] == old(self).ledger.arena.counters@[j]);
        }
    }
}

proof fn lemma_released_below(q: Seq<DropLater>, l: GenerationLayout, counters: Seq<crate::lock::RawLocalCounter>, bound: int)
    requires
        forall|k: int| 0 <= k < q.len() ==> (#[trigger] q[k]).slot < bound,
    ensures
        forall|k: int| 0 <= k < crate::pool::released(q, l, counters).len()
            ==> #[trigger] crate::pool::released(q, l, counters)[k] < bound,
    decreases q.len(),
{
    if q.len() > 0 {
        assert forall|k: int| 0 <= k < q.drop_last().len() implies (#[trigger] q.drop_last()[k]).slot < bound by {
            assert(q.drop_last()[k] == q[k]);
        }
        lemma_released_below(q.drop_last(), l, counters, bound);
        let rest = crate::pool::released(q.drop_last(), l, counters);
        let d = q.last();
        assert(d == q[q.len() - 1]);
        assert(d.slot < bound);
        if d.layout == l && !counters[d.slot as int].end_of_life() {
            assert(crate::pool::released(q, l, counters) == rest.push(d.slot));
            assert forall|k: int| 0 <= k < rest.push(d.slot).len() implies #[trigger] rest.push(d.slot)[k] < bound by {
                if k < rest.len() {
                    assert(rest.push(d.slot)[k] == rest[k]);
                }
            }
        } else {
            assert(crate::pool::released(q, l, counters) == rest);
        }
    }
}

/// The generation after `n`: one more, or the maximum once reached.
pub open spec fn bumped(n: u32) -> u32 {
    if n < u32::MAX { (n + 1) as u32 } else { u32::MAX }
}

/// What dropping the owner of slot `i` does to heap `a`, giving `b`. The
/// generation advances either way. If no lock is held on the slot, the
/// payload is dropped and the counter goes back to the free list (unless it
/// is retired); otherwise the payload stays in place and is queued for the
/// last guard to drop.
pub open spec fn drop_outcome<T>(a: Heap<T>, i: int, b: Heap<T>) -> bool {
    &&& b.layout == a.layout
    &&& b.generation_of(i) == bumped(a.generation_of(i))
    &&& b.ledger.others_unchanged(&a.ledger, i)
    &&& b.ledger.arena.next == a.ledger.arena.next
    &&& b.ledger.arena.counters@.len() == a.ledger.arena.counters@.len()
    &&& b.ledger.local.guards == a.ledger.local.guards
    &&& b.ledger.global == a.ledger.global
    &&& if a.ledger.counter(i).is_unlocked() {
        &&& b.data@ == a.data@.update(i, None)
        &&& b.ledger.counter(i).is_unlocked()
        &&& b.ledger.local.dropq == a.ledger.local.dropq
        &&& !b.ledger.counter(i).end_of_life() ==> b.ledger.local.pool.list_of(a.layout)
            == a.ledger.local.pool.list_of(a.layout).push(i as usize)
        &&& b.ledger.counter(i).end_of_life() ==> b.ledger.local.pool == a.ledger.local.pool
    } else {
        &&& b.data@ == a.data@
        &&& b.ledger.counter(i).access == a.ledger.counter(i).access
        &&& b.ledger.local.pool == a.ledger.local.pool
        &&& b.ledger.local.dropq@ == a.ledger.local.dropq@.push(DropLater { slot: i as usize, layout: a.layout })
    }
}

impl<T> Heap<T> {
    /// Turns the exclusive lock into a shared one.
    pub fn downgrade(&mut self, g: Writing) -> (r: Reading)
        requires
            old(self).wf(),
            old(self).ledger.issued(g.slot()),
            old(self).ledger.counter(g.slot()).is_exclusive(),
        ensures
            final(self).wf(),
            r.slot() == g.slot(),
            lock_change(*old(self), *final(self), g.slot()),
            final(self).ledger.counter(g.slot()).access == 2,
            final(self).ledger.local.guards == old(self).ledger.local.guards,
            old(self).advances_to(final(self)),
    {
        self.ledger.downgrade(g.slot);
        Reading { slot: g.slot }
    }

    /// Turns a shared lock into the exclusive one, which succeeds exactly when
    /// it is the only lock held on the slot; otherwise the shared lock is
    /// handed back and nothing changes.
    pub fn try_upgrade(&mut self, g: Reading) -> (r: Result<Writing, Reading>)
        requires
            old(self).wf(),
            old(self).ledger.issued(g.slot()),
            old(self).ledger.counter(g.slot()).readers() >= 1,
        ensures
            final(self).wf(),
            lock_change(*old(self), *final(self), g.slot()),
            final(self).ledger.local.guards == old(self).ledger.local.guards,
            r is Ok <==> old(self).ledger.counter(g.slot()).readers() == 1 && !old(self).ledger.counter(g.slot()).upgradable(),
            r matches Ok(w) ==> w.slot() == g.slot() && final(self).ledger.counter(g.slot()).is_exclusive(),
            r matches Err(h) ==> h.slot() == g.slot() && final(self).ledger.counter(g.slot()) == old(self).ledger.counter(g.slot()),
            old(self).advances_to(final(self)),
    {
        if self.ledger.try_shared_into_exclusive(g.slot) {
            Ok(Writing { slot: g.slot })
        } else {
            Err(g)
        }
    }

    /// One more shared lock on the slot of `g`.
    pub fn clone_reading(&mut self, g: &Reading) -> (r: Reading)
        requires
            old(self).wf(),
            old(self).ledger.issued(g.slot()),
            shareable(old(self).ledger.counter(g.slot()).access),
            old(self).ledger.local.guards < usize::MAX,
        ensures
            final(self).wf(),
            r.slot() == g.slot(),
            lock_change(*old(self), *final(self), g.slot()),
            final(self).ledger.counter(g.slot()).access == old(self).ledger.counter(g.slot()).access + 2,
            final(self).ledger.local.guards == old(self).ledger.local.guards + 1,
            old(self).advances_to(final(self)),
    {
        let r = self.acquire_shared(g.slot);
        r.unwrap()
    }

    /// Drops the owner: the generation advances, invalidating every alias,
    /// and the payload is dropped now if no lock is held on the slot, or
    /// queued for the last active guard to drop.
    pub fn drop_strong(&mut self, s: Strong)
        requires
            old(self).wf(),
            old(self).owns(&s),
        ensures
            final(self).wf(),
            drop_outcome(*old(self), s.slot(), *final(self)),
            old(self).advances_to(final(self)),
    {
        let slot = s.slot;
        if self.ledger.try_lock_exclusive(slot) {
            self.ledger.unlock_exclusive(slot);
            // The payload is dropped here, at the end of this block.
            let _dropped = self.data[slot].take();
            self.ledger.free(slot, self.layout);
            assert(self.data@ =~= old(self).data@.update(slot as int, None));
        } else {
            self.ledger.invalidate(slot);
            self.ledger.local.drop_later(slot, self.layout);
        }
    }

    /// The payload, where no lock is held on the slot; the generation
    /// advances and the counter is freed as when the owner is dropped.
    /// Otherwise the owner is handed back and nothing changes.
    pub fn try_into_inner(&mut self, s: Strong) -> (r: Result<T, Strong>)
        requires
            old(self).wf(),
            old(self).owns(&s),
        ensures
            final(self).wf(),
            r is Ok <==> old(self).ledger.counter(s.slot()).is_unlocked(),
            r matches Ok(v) ==> v == old(self).value(s.slot()) && drop_outcome(*old(self), s.slot(), *final(self)),
            r matches Err(t) ==> t == s && final(self).data@ == old(self).data@
                && final(self).ledger.arena.counters@ == old(self).ledger.arena.counters@
                && final(self).ledger.local == old(self).ledger.local,
            old(self).advances_to(final(self)),
    {
        let slot = s.slot;
        if self.ledger.try_lock_exclusive(slot) {
            self.ledger.unlock_exclusive(slot);
            let payload = self.data[slot].take();
            self.ledger.free(slot, self.layout);
            assert(self.data@ =~= old(self).data@.update(slot as int, None));
            Ok(payload.unwrap())
        } else {
            assert(self.ledger.arena.counters@ =~= old(self).ledger.arena.counters@);
            Err(s)
        }
    }

    /// Usage statistics of the heap's thread pool.
    pub fn stats(&self) -> (r: Stats)
        requires
            self.wf(),
        ensures
            crate::stats::count_sum(r.by_layout@) == self.ledger.local.pool.total(),
            crate::stats::count_sum(r.drop_queue_info@) == self.ledger.local.dropq@.len(),
            r.guards == self.ledger.local.guards,
    {
        crate::pool::thread_local_stats(&self.ledger.local)
    }
}

/// An alias with the zero generation, such as a dangling one, is valid in no
/// heap.
pub proof fn lemma_dangling_never_valid<T>(h: Heap<T>, w: Weak)
    requires
        h.wf(),
        w.generation() == 0,
    ensures
        !h.valid(w),
{
    if h.ledger.issued(w.slot()) {
        assert(h.ledger.arena.counters@[w.slot()].wf());
    }
}

/// Before its owner is dropped an alias is valid; once the owner is dropped
/// the alias is stale, and a stale alias stays invalid in every later state
/// of the heap.
pub proof fn lemma_invalidation<T>(a: Heap<T>, s: Strong, w: Weak, b: Heap<T>, c: Heap<T>)
    requires
        a.owns(&s),
        w.slot() == s.slot(),
        w.generation() == s.generation(),
        s.generation() < u32::MAX,
        drop_outcome(a, s.slot(), b),
        b.advances_to(&c),
    ensures
        a.valid(w),
        b.stale(w),
        !b.valid(w),
        c.stale(w),
        !c.valid(w),
{
}

/// An owner dropped while a guard holds its slot keeps its payload in place
/// until that guard goes; when the guard that goes is the last active one,
/// the payload is dropped and leaves the queue, so it is dropped once.
pub proof fn lemma_deferred_drop<T>(a: Heap<T>, s: Strong, b: Heap<T>, c: Heap<T>, i: int)
    requires
        a.wf(),
        a.owns(&s),
        !a.ledger.counter(s.slot()).is_unlocked(),
        drop_outcome(a, s.slot(), b),
        b.ledger.local.guards == 1,
        release_outcome(b, c, i),
    ensures
        b.data@[s.slot()] == a.data@[s.slot()],
        b.data@[s.slot()] is Some,
        queues(b.ledger.local.dropq@, s.slot()),
        c.data@[s.slot()] is None,
        c.ledger.local.dropq@.len() == 0,
{
    let q = b.ledger.local.dropq@;
    assert(q[q.len() - 1].slot == s.slot());
}

} // verus!
