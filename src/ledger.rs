//! The counters of one allocation domain: the arena that mints them, the
//! thread pool and global pool that recycle them, and the link of each counter
//! to its promoted form in a shared domain.
use vstd::prelude::*;
use crate::arena::{is_fresh, CounterArena};
use crate::lock::{AccessState, RawLocalCounter};
use crate::pool::{request_outcome, FreeListPool, GenerationLayout, LocalFreeListPool};

verus! {

/// Every counter in a free list of `pool` was handed out by an arena whose
/// next fresh index is `bound`.
pub open spec fn ids_below(pool: FreeListPool, bound: int) -> bool {
    forall|l: GenerationLayout, k: int| 0 <= k < pool.list_of(l).len() ==> #[trigger] pool.list_of(l)[k] < bound
}

pub struct Ledger {
    pub arena: CounterArena,
    pub local: LocalFreeListPool,
    pub global: FreeListPool,
    /// For each counter, the counter of the shared domain it was promoted to.
    pub promoted: Vec<Option<usize>>,
}

impl Ledger {
    pub open spec fn wf(&self) -> bool {
        &&& self.arena.wf()
        &&& self.local.wf()
        &&& self.global.wf()
        &&& self.local.queue_within(&self.arena)
        &&& forall|i: int| 0 <= i < self.local.dropq.len() ==> (#[trigger] self.local.dropq@[i]).slot < self.arena.next
        &&& ids_below(self.local.pool, self.arena.next as int)
        &&& ids_below(self.global, self.arena.next as int)
        &&& self.promoted@.len() == self.arena.counters@.len()
    }

    /// The counter with index `i`.
    pub open spec fn counter(&self, i: int) -> RawLocalCounter {
        self.arena.counters@[i]
    }

    /// Whether `i` names a counter that was handed out.
    pub open spec fn issued(&self, i: int) -> bool {
        0 <= i < self.arena.next
    }

    /// Room for one more batch of fresh counters.
    pub open spec fn has_room(&self) -> bool {
        self.arena.has_room()
    }

    /// Every counter other than `i` is as it was in `old`.
    pub open spec fn others_unchanged(&self, old: &Ledger, i: int) -> bool {
        &&& old.arena.counters@.len() <= self.arena.counters@.len()
        &&& forall|j: int| 0 <= j < old.arena.counters@.len() && j != i ==> #[trigger] self.arena.counters@[j] == old.arena.counters@[j]
    }

    pub fn new() -> (r: Ledger)
        ensures
            r.wf(),
            r.arena.next == 0,
            r.arena.counters@.len() == 0,
            forall|l: GenerationLayout| r.local.pool.list_of(l) == Seq::<usize>::empty(),
            forall|l: GenerationLayout| r.global.list_of(l) == Seq::<usize>::empty(),
            r.local.guards == 0,
            r.local.dropq@.len() == 0,
    {
        Ledger { arena: CounterArena::new(), local: LocalFreeListPool::new(), global: FreeListPool::new(), promoted: Vec::new() }
    }

    /// Number of counters minted so far.
    pub fn allocations(&self) -> (r: usize)
        ensures
            r == self.arena.counters@.len(),
    {
        self.arena.allocations()
    }

    /// Number of counters of `layout` in the thread pool's free list.
    pub fn free_list_size(&self, layout: GenerationLayout) -> (r: usize)
        requires
            self.wf(),
        ensures
            r == self.local.pool.list_of(layout).len(),
    {
        self.local.pool.len_of(layout)
    }

    fn fresh(&mut self) -> (r: usize)
        requires
            old(self).wf(),
            old(self).has_room(),
        ensures
            final(self).wf(),
            r == old(self).arena.next,
            final(self).arena.next == r + 1,
            is_fresh(final(self).counter(r as int)),
            final(self).others_unchanged(old(self), r as int),
            final(self).local == old(self).local,
            final(self).global == old(self).global,
            forall|j: int| 0 <= j < old(self).promoted@.len() ==> #[trigger] final(self).promoted@[j] == old(self).promoted@[j],
            forall|j: int| old(self).promoted@.len() <= j < final(self).promoted@.len() ==> #[trigger] final(self).promoted@[j] is None,
    {
        let r = self.arena.fresh();
        let ghost minted = self.arena;
        while self.promoted.len() < self.arena.counters.len()
            invariant
                self.arena == minted,
                self.local == old(self).local,
                self.global == old(self).global,
                self.arena.wf(),
                self.promoted@.len() <= self.arena.counters@.len(),
                old(self).promoted@.len() <= self.promoted@.len(),
                forall|j: int| 0 <= j < old(self).promoted@.len() ==> #[trigger] self.promoted@[j] == old(self).promoted@[j],
                forall|j: int| old(self).promoted@.len() <= j < self.promoted@.len() ==> #[trigger] self.promoted@[j] is None,
            decreases self.arena.counters@.len() - self.promoted@.len(),
        {
            self.promoted.push(None);
        }
        assert forall|j: int| 0 <= j < old(self).arena.counters@.len() && j != r implies
            #[trigger] self.arena.counters@[j] == old(self).arena.counters@[j] by {
            assert(minted.counters@.subrange(0, old(self).arena.counters@.len() as int)[j] == minted.counters@[j]);
        }
        r
    }

    /// Hands out a counter for a payload of `layout`: the most recently freed
    /// one of the thread pool, else one of a batch requested from the global
    /// pool, else a fresh one.
    pub fn allocate(&mut self, layout: GenerationLayout) -> (r: usize)
        requires
            old(self).wf(),
            old(self).has_room(),
        ensures
            final(self).wf(),
            allocate_outcome(*old(self), layout, *final(self), r),
    {
        let ghost before = *self;
        match self.local.reallocate(layout, &mut self.global) {
            Some(x) => {
                proof {
                    if before.local.pool.list_of(layout).len() > 0 {
                        assert(before.local.pool.list_of(layout).contains(x)) by {
                            assert(before.local.pool.list_of(layout)[before.local.pool.list_of(layout).len() - 1] == x);
                        }
                    } else {
                        let s = before.local.request_size(layout);
                        let g = before.global.list_of(layout);
                        let k = if s < g.len() { s } else { g.len() as int };
                        let local = before.local.pool.list_of(layout) + g.subrange(g.len() - k, g.len() as int);
                        assert(local.last() == g[g.len() - 1]);
                    }
                    assert forall|l: GenerationLayout, k: int| 0 <= k < self.local.pool.list_of(l).len() implies
                        #[trigger] self.local.pool.list_of(l)[k] < self.arena.next by {
                        if l == layout {
                            if before.local.pool.list_of(layout).len() > 0 {
                                assert(self.local.pool.list_of(l)[k] == before.local.pool.list_of(l)[k]);
                            } else {
                                let s = before.local.request_size(layout);
                                let g = before.global.list_of(layout);
                                let kk = if s < g.len() { s } else { g.len() as int };
                                let local = before.local.pool.list_of(layout) + g.subrange(g.len() - kk, g.len() as int);
                                assert(self.local.pool.list_of(l)[k] == local[k]);
                                assert(local[k] == g[g.len() - kk + k]);
                            }
                        }
                    }
                    assert forall|l: GenerationLayout, k: int| 0 <= k < self.global.list_of(l).len() implies
                        #[trigger] self.global.list_of(l)[k] < self.arena.next by {
                        if l == layout && before.local.pool.list_of(layout).len() == 0 {
                            assert(self.global.list_of(l)[k] == before.global.list_of(l)[k]);
                        }
                    }
                }
                x
            },
            None => {
                let ghost mid = *self;
                proof {
                    assert forall|l: GenerationLayout, k: int| 0 <= k < self.local.pool.list_of(l).len() implies
                        #[trigger] self.local.pool.list_of(l)[k] < self.arena.next by {
                        if l == layout {
                            let s = before.local.request_size(layout);
                            if s != 0 {
                                let g = before.global.list_of(layout);
                                let kk = if s < g.len() { s } else { g.len() as int };
                                let local = before.local.pool.list_of(layout) + g.subrange(g.len() - kk, g.len() as int);
                                assert(self.local.pool.list_of(l)[k] == local[k]);
                            }
                        }
                    }
                    assert forall|l: GenerationLayout, k: int| 0 <= k < self.global.list_of(l).len() implies
                        #[trigger] self.global.list_of(l)[k] < self.arena.next by {
                        if l == layout && before.local.request_size(layout) != 0 {
                            assert(self.global.list_of(l)[k] == before.global.list_of(l)[k]);
                        }
                    }
                }
                let r = self.fresh();
                proof {
                    assert forall|l: GenerationLayout, k: int| 0 <= k < self.local.pool.list_of(l).len() implies
                        #[trigger] self.local.pool.list_of(l)[k] < self.arena.next by {
                        assert(self.local.pool.list_of(l)[k] == mid.local.pool.list_of(l)[k]);
                    }
                    assert forall|l: GenerationLayout, k: int| 0 <= k < self.global.list_of(l).len() implies
                        #[trigger] self.global.list_of(l)[k] < self.arena.next by {
                        assert(self.global.list_of(l)[k] == mid.global.list_of(l)[k]);
                    }
                }
                r
            },
        }
    }

    /// Retires the current generation of counter `i`: the count advances, which
    /// invalidates every alias taken at the old count, and the counter goes
    /// back to the thread pool's free list of `layout` unless it reached the
    /// maximum, in which case it is never handed out again.
    pub fn free(&mut self, i: usize, layout: GenerationLayout)
        requires
            old(self).wf(),
            old(self).issued(i as int),
        ensures
            final(self).wf(),
            final(self).counter(i as int).access == old(self).counter(i as int).access,
            final(self).counter(i as int).counter == if old(self).counter(i as int).counter < u32::MAX {
                (old(self).counter(i as int).counter + 1) as u32
            } else {
                u32::MAX
            },
            final(self).others_unchanged(old(self), i as int),
            final(self).arena.next == old(self).arena.next,
            final(self).arena.counters@.len() == old(self).arena.counters@.len(),
            !final(self).counter(i as int).end_of_life() ==> final(self).local.pool.list_of(layout)
                == old(self).local.pool.list_of(layout).push(i),
            final(self).counter(i as int).end_of_life() ==> final(self).local.pool == old(self).local.pool,
            forall|l: GenerationLayout| l != layout ==> #[trigger] final(self).local.pool.list_of(l) == old(self).local.pool.list_of(l),
            final(self).local.guards == old(self).local.guards,
            final(self).local.dropq == old(self).local.dropq,
            final(self).local.request_sizes == old(self).local.request_sizes,
            final(self).global == old(self).global,
            final(self).promoted == old(self).promoted,
    {
        self.arena.counters[i].bump();
        if !self.arena.counters[i].is_end_of_life() {
            self.local.free(layout, i);
        }
        proof {
            assert forall|l: GenerationLayout, k: int| 0 <= k < self.local.pool.list_of(l).len() implies
                #[trigger] self.local.pool.list_of(l)[k] < self.arena.next by {
                if l == layout && !self.counter(i as int).end_of_life() && k < old(self).local.pool.list_of(l).len() {
                    assert(self.local.pool.list_of(l)[k] == old(self).local.pool.list_of(l)[k]);
                }
            }
        }
    }
}

/// What an allocation of `layout` from ledger `a` leaves (`b`) and returns (`r`).
pub open spec fn allocate_outcome(a: Ledger, layout: GenerationLayout, b: Ledger, r: usize) -> bool {
    &&& b.issued(r as int)
    &&& if a.local.pool.list_of(layout).len() > 0 {
        &&& r == a.local.pool.list_of(layout).last()
        &&& b.local.pool.list_of(layout) == a.local.pool.list_of(layout).drop_last()
        &&& forall|l: GenerationLayout| l != layout ==> #[trigger] b.local.pool.list_of(l) == a.local.pool.list_of(l)
        &&& b.local.request_sizes == a.local.request_sizes
        &&& b.local.guards == a.local.guards
        &&& b.local.dropq == a.local.dropq
        &&& b.arena == a.arena
        &&& b.global == a.global
        &&& b.promoted == a.promoted
    } else {
        let recycled = r < a.arena.next;
        &&& request_outcome(a.local, a.global, layout, b.local, b.global, if recycled { Some(r) } else { None })
        &&& recycled ==> b.arena == a.arena && b.promoted == a.promoted
        &&& !recycled ==> r == a.arena.next && b.arena.next == r + 1 && is_fresh(b.counter(r as int))
            && b.others_unchanged(&a, r as int)
            && (forall|j: int| 0 <= j < a.promoted@.len() ==> #[trigger] b.promoted@[j] == a.promoted@[j])
            && (forall|j: int| a.promoted@.len() <= j < b.promoted@.len() ==> #[trigger] b.promoted@[j] is None)
    }
}

/// Ledger `b` differs from `a` only in the lock word of counter `i`.
pub open spec fn lock_step(a: Ledger, b: Ledger, i: int) -> bool {
    &&& b.arena.next == a.arena.next
    &&& b.arena.batch == a.arena.batch
    &&& b.arena.counters@.len() == a.arena.counters@.len()
    &&& b.others_unchanged(&a, i)
    &&& b.counter(i).counter == a.counter(i).counter
    &&& b.local == a.local
    &&& b.global == a.global
    &&& b.promoted == a.promoted
}

impl Ledger {
    /// Advances the generation of counter `i` without freeing it, which
    /// invalidates every alias taken at the old count.
    pub fn invalidate(&mut self, i: usize)
        requires
            old(self).wf(),
            old(self).issued(i as int),
        ensures
            final(self).wf(),
            final(self).counter(i as int).access == old(self).counter(i as int).access,
            final(self).counter(i as int).counter == if old(self).counter(i as int).counter < u32::MAX {
                (old(self).counter(i as int).counter + 1) as u32
            } else {
                u32::MAX
            },
            final(self).others_unchanged(old(self), i as int),
            final(self).arena.next == old(self).arena.next,
            final(self).arena.counters@.len() == old(self).arena.counters@.len(),
            final(self).local == old(self).local,
            final(self).global == old(self).global,
            final(self).promoted == old(self).promoted,
    {
        self.arena.counters[i].bump();
    }

    /// The generation of counter `i`.
    pub fn count(&self, i: usize) -> (r: u32)
        requires
            self.wf(),
            self.issued(i as int),
        ensures
            r == self.counter(i as int).counter,
    {
        self.arena.counters[i].count()
    }

    pub fn try_lock_shared(&mut self, i: usize) -> (r: bool)
        requires
            old(self).wf(),
            old(self).issued(i as int),
        ensures
            final(self).wf(),
            lock_step(*old(self), *final(self), i as int),
            r == (old(self).counter(i as int).access >= 0 && old(self).counter(i as int).access <= i32::MAX - 2),
            r ==> final(self).counter(i as int).access == old(self).counter(i as int).access + 2,
            !r ==> final(self).counter(i as int) == old(self).counter(i as int),
    {
        self.arena.counters[i].try_lock_shared()
    }

    pub fn try_lock_exclusive(&mut self, i: usize) -> (r: bool)
        requires
            old(self).wf(),
            old(self).issued(i as int),
        ensures
            final(self).wf(),
            lock_step(*old(self), *final(self), i as int),
            r == old(self).counter(i as int).is_unlocked(),
            r ==> final(self).counter(i as int).is_exclusive(),
            !r ==> final(self).counter(i as int) == old(self).counter(i as int),
    {
        self.arena.counters[i].try_lock_exclusive()
    }

    pub fn try_lock_upgradable(&mut self, i: usize) -> (r: bool)
        requires
            old(self).wf(),
            old(self).issued(i as int),
        ensures
            final(self).wf(),
            lock_step(*old(self), *final(self), i as int),
            r == (old(self).counter(i as int).access >= 0 && old(self).counter(i as int).access % 2 == 0),
            r ==> final(self).counter(i as int).access == old(self).counter(i as int).access + 1,
            !r ==> final(self).counter(i as int) == old(self).counter(i as int),
    {
        self.arena.counters[i].try_lock_upgradable()
    }

    pub fn downgrade(&mut self, i: usize)
        requires
            old(self).wf(),
            old(self).issued(i as int),
            old(self).counter(i as int).is_exclusive(),
        ensures
            final(self).wf(),
            lock_step(*old(self), *final(self), i as int),
            final(self).counter(i as int).access == 2,
    {
        self.arena.counters[i].downgrade()
    }

    pub fn try_upgrade(&mut self, i: usize) -> (r: bool)
        requires
            old(self).wf(),
            old(self).issued(i as int),
            old(self).counter(i as int).upgradable(),
        ensures
            final(self).wf(),
            lock_step(*old(self), *final(self), i as int),
            r == (old(self).counter(i as int).holders() == 1),
            r ==> final(self).counter(i as int).is_exclusive(),
            !r ==> final(self).counter(i as int) == old(self).counter(i as int),
    {
        let r = self.arena.counters[i].try_upgrade();
        r
    }

    pub fn unlock_shared(&mut self, i: usize)
        requires
            old(self).wf(),
            old(self).issued(i as int),
            old(self).counter(i as int).readers() >= 1,
        ensures
            final(self).wf(),
            lock_step(*old(self), *final(self), i as int),
            final(self).counter(i as int).access == old(self).counter(i as int).access - 2,
    {
        self.arena.counters[i].unlock_shared()
    }

    pub fn unlock_exclusive(&mut self, i: usize)
        requires
            old(self).wf(),
            old(self).issued(i as int),
            old(self).counter(i as int).is_exclusive(),
        ensures
            final(self).wf(),
            lock_step(*old(self), *final(self), i as int),
            final(self).counter(i as int).is_unlocked(),
    {
        self.arena.counters[i].unlock_exclusive()
    }

    pub fn unlock_upgradable(&mut self, i: usize)
        requires
            old(self).wf(),
            old(self).issued(i as int),
            old(self).counter(i as int).upgradable(),
        ensures
            final(self).wf(),
            lock_step(*old(self), *final(self), i as int),
            final(self).counter(i as int).access == old(self).counter(i as int).access - 1,
    {
        self.arena.counters[i].unlock_upgradable()
    }

    pub fn try_shared_into_exclusive(&mut self, i: usize) -> (r: bool)
        requires
            old(self).wf(),
            old(self).issued(i as int),
            old(self).counter(i as int).readers() >= 1,
        ensures
            final(self).wf(),
            lock_step(*old(self), *final(self), i as int),
            r == (old(self).counter(i as int).readers() == 1 && !old(self).counter(i as int).upgradable()),
            r ==> final(self).counter(i as int).is_exclusive(),
            !r ==> final(self).counter(i as int) == old(self).counter(i as int),
    {
        let r = self.arena.counters[i].try_shared_into_exclusive();
        r
    }

    /// The shared-domain counter that counter `i` is promoted to, created on
    /// the first call with the same generation and the same lock state
    /// (replayed one acquisition at a time) and returned again on later calls.
    pub fn globalize(&mut self, i: usize, shared: &mut Ledger) -> (r: usize)
        requires
            old(self).wf(),
            old(self).issued(i as int),
            old(shared).wf(),
            old(shared).has_room(),
        ensures
            final(self).wf(),
            final(shared).wf(),
            globalize_outcome(*old(self), *old(shared), i as int, *final(self), *final(shared), r),
    {
        match self.promoted[i] {
            Some(g) => g,
            None => {
                let g = shared.fresh();
                let c = self.arena.counters[i];
                let state = c.access_state();
                proof {
                    lemma_decode_encode(c.access);
                }
                shared.arena.counters[g].counter = c.counter;
                state.inflict(&mut shared.arena.counters[g]);
                self.promoted.set(i, Some(g));
                g
            },
        }
    }
}

/// Decoding a lock word and encoding the result gives the word back.
proof fn lemma_decode_encode(desc: i32)
    requires
        desc >= -1,
    ensures
        AccessState::decode(desc).encode() == desc,
        AccessState::decode(desc) matches AccessState::Readers { normal, upgrade } ==> normal >= 0,
{
}

/// What promoting counter `i` of `a` into the shared ledger `g` leaves
/// (`b`, `h`) and returns (`r`).
pub open spec fn globalize_outcome(a: Ledger, g: Ledger, i: int, b: Ledger, h: Ledger, r: usize) -> bool {
    match a.promoted@[i] {
        Some(p) => r == p && b == a && h == g,
        None => {
            &&& r == g.arena.next
            &&& h.arena.next == r + 1
            &&& h.counter(r as int).access == a.counter(i).access
            &&& h.counter(r as int).counter == a.counter(i).counter
            &&& h.others_unchanged(&g, r as int)
            &&& h.local == g.local
            &&& h.global == g.global
            &&& b.promoted@ == a.promoted@.update(i, Some(r))
            &&& b.arena == a.arena
            &&& b.local == a.local
            &&& b.global == a.global
        },
    }
}

/// Promoting the same counter twice gives the same shared counter, and the
/// second promotion changes neither ledger.
pub proof fn lemma_promotion_memoized(
    a: Ledger,
    g: Ledger,
    b: Ledger,
    h: Ledger,
    c: Ledger,
    k: Ledger,
    i: int,
    r1: usize,
    r2: usize,
)
    requires
        0 <= i < a.promoted@.len(),
        globalize_outcome(a, g, i, b, h, r1),
        globalize_outcome(b, h, i, c, k, r2),
    ensures
        r1 == r2,
        c == b,
        k == h,
{
}

/// Allocating, one after another, at most as many counters of a layout as
/// its free list holds reuses that many free counters and mints none.
pub proof fn lemma_recycling_mints_nothing(states: Seq<Ledger>, ids: Seq<usize>, layout: GenerationLayout)
    requires
        states.len() == ids.len() + 1,
        ids.len() <= states[0].local.pool.list_of(layout).len(),
        forall|k: int| 0 <= k < ids.len() ==> allocate_outcome(#[trigger] states[k], layout, states[k + 1], ids[k]),
    ensures
        states.last().arena == states[0].arena,
        states.last().local.pool.list_of(layout)
            == states[0].local.pool.list_of(layout).subrange(0, states[0].local.pool.list_of(layout).len() - ids.len()),
    decreases ids.len(),
{
    if ids.len() > 0 {
        let n = ids.len() - 1;
        lemma_recycling_mints_nothing(states.subrange(0, n + 1), ids.subrange(0, n), layout);
        assert(states.subrange(0, n + 1).last() == states[n]);
        assert(allocate_outcome(states[n], layout, states[n + 1], ids[n]));
        let list = states[0].local.pool.list_of(layout);
        assert(states[n].local.pool.list_of(layout) == list.subrange(0, list.len() - n));
        assert(states[n + 1].local.pool.list_of(layout) =~= list.subrange(0, list.len() - ids.len()));
    }
}

/// A thread's ledger together with the shared ledger its counters are
/// promoted to. Once a counter is promoted, its lock operations act on the
/// shared counter, so that locks taken either way are seen by both.
pub struct Domains {
    pub local: Ledger,
    pub shared: Ledger,
}

impl Domains {
    pub open spec fn wf(&self) -> bool {
        &&& self.local.wf()
        &&& self.shared.wf()
        &&& forall|i: int| 0 <= i < self.local.promoted@.len() ==> (#[trigger] self.local.promoted@[i] matches Some(g)
            ==> self.shared.issued(g as int))
    }

    /// The counter that the operations on local counter `i` act on.
    pub open spec fn target(&self, i: int) -> RawLocalCounter {
        match self.local.promoted@[i] {
            Some(g) => self.shared.counter(g as int),
            None => self.local.counter(i),
        }
    }

    /// `b` differs from `a` at most in the lock word of the target of `i`.
    pub open spec fn redirect_step(a: Domains, b: Domains, i: int) -> bool {
        &&& b.local.promoted == a.local.promoted
        &&& match a.local.promoted@[i] {
            Some(g) => lock_step(a.shared, b.shared, g as int) && b.local == a.local,
            None => lock_step(a.local, b.local, i) && b.shared == a.shared,
        }
        &&& b.target(i).counter == a.target(i).counter
    }

    pub fn new() -> (r: Domains)
        ensures
            r.wf(),
            r.local.arena.counters@.len() == 0,
            r.shared.arena.counters@.len() == 0,
    {
        Domains { local: Ledger::new(), shared: Ledger::new() }
    }

    /// A local counter for a payload of `layout`.
    pub fn allocate(&mut self, layout: GenerationLayout) -> (r: usize)
        requires
            old(self).wf(),
            old(self).local.has_room(),
        ensures
            final(self).wf(),
            allocate_outcome(old(self).local, layout, final(self).local, r),
            final(self).shared == old(self).shared,
    {
        let r = self.local.allocate(layout);
        assert forall|i: int| 0 <= i < self.local.promoted@.len() implies (#[trigger] self.local.promoted@[i] matches Some(g)
            ==> self.shared.issued(g as int)) by {
            if r < old(self).local.arena.next && old(self).local.local.pool.list_of(layout).len() == 0 {
                assert(self.local.promoted == old(self).local.promoted);
            }
        }
        r
    }

    /// Promotes local counter `i`, once; see `Ledger::globalize`.
    pub fn globalize(&mut self, i: usize) -> (r: usize)
        requires
            old(self).wf(),
            old(self).local.issued(i as int),
            old(self).shared.has_room(),
        ensures
            final(self).wf(),
            globalize_outcome(old(self).local, old(self).shared, i as int, final(self).local, final(self).shared, r),
            final(self).local.promoted@[i as int] == Some(r),
            final(self).target(i as int) == final(self).shared.counter(r as int),
    {
        let r = self.local.globalize(i, &mut self.shared);
        r
    }
}

impl Domains {
    pub fn try_lock_shared(&mut self, i: usize) -> (r: bool)
        requires
            old(self).wf(),
            old(self).local.issued(i as int),
        ensures
            final(self).wf(),
            Domains::redirect_step(*old(self), *final(self), i as int),
            r == (old(self).target(i as int).access >= 0 && old(self).target(i as int).access <= i32::MAX - 2),
            r ==> final(self).target(i as int).access == old(self).target(i as int).access + 2,
            !r ==> final(self).target(i as int) == old(self).target(i as int),
    {
        match self.local.promoted[i] {
            Some(g) => self.shared.try_lock_shared(g),
            None => self.local.try_lock_shared(i),
        }
    }

    pub fn try_lock_exclusive(&mut self, i: usize) -> (r: bool)
        requires
            old(self).wf(),
            old(self).local.issued(i as int),
        ensures
            final(self).wf(),
            Domains::redirect_step(*old(self), *final(self), i as int),
            r == old(self).target(i as int).is_unlocked(),
            r ==> final(self).target(i as int).is_exclusive(),
            !r ==> final(self).target(i as int) == old(self).target(i as int),
    {
        match self.local.promoted[i] {
            Some(g) => self.shared.try_lock_exclusive(g),
            None => self.local.try_lock_exclusive(i),
        }
    }

    pub fn try_lock_upgradable(&mut self, i: usize) -> (r: bool)
        requires
            old(self).wf(),
            old(self).local.issued(i as int),
        ensures
            final(self).wf(),
            Domains::redirect_step(*old(self), *final(self), i as int),
            r == (old(self).target(i as int).access >= 0 && old(self).target(i as int).access % 2 == 0),
            r ==> final(self).target(i as int).access == old(self).target(i as int).access + 1,
            !r ==> final(self).target(i as int) == old(self).target(i as int),
    {
        match self.local.promoted[i] {
            Some(g) => self.shared.try_lock_upgradable(g),
            None => self.local.try_lock_upgradable(i),
        }
    }

    pub fn unlock_shared(&mut self, i: usize)
        requires
            old(self).wf(),
            old(self).local.issued(i as int),
            old(self).target(i as int).readers() >= 1,
        ensures
            final(self).wf(),
            Domains::redirect_step(*old(self), *final(self), i as int),
            final(self).target(i as int).access == old(self).target(i as int).access - 2,
    {
        match self.local.promoted[i] {
            Some(g) => self.shared.unlock_shared(g),
            None => self.local.unlock_shared(i),
        }
    }

    pub fn unlock_exclusive(&mut self, i: usize)
        requires
            old(self).wf(),
            old(self).local.issued(i as int),
            old(self).target(i as int).is_exclusive(),
        ensures
            final(self).wf(),
            Domains::redirect_step(*old(self), *final(self), i as int),
            final(self).target(i as int).is_unlocked(),
    {
        match self.local.promoted[i] {
            Some(g) => self.shared.unlock_exclusive(g),
            None => self.local.unlock_exclusive(i),
        }
    }
}

} // verus!
