//! Free lists of retired counters, kept apart by the layout of the payload
//! they served, so that a slot is only reused for a payload of the same size
//! and alignment.
use vstd::prelude::*;
use crate::stats::{count_sum, lemma_count_sum_update, Stats};
use crate::arena::CounterArena;
use crate::lock::RawLocalCounter;

verus! {

/// Size and alignment of a payload type.
#[derive(Clone, Copy, PartialEq, Eq, Structural, Debug, Hash)]
pub struct GenerationLayout {
    pub size: usize,
    pub align: usize,
}

impl GenerationLayout {
    /// The layout of a payload of type `T`.
    pub fn of<T>() -> (r: GenerationLayout)
        ensures
            r.size as nat == vstd::layout::size_of::<T>(),
            r.align as nat == vstd::layout::align_of::<T>(),
    {
        GenerationLayout { size: core::mem::size_of::<T>(), align: core::mem::align_of::<T>() }
    }

    pub fn size(&self) -> (r: usize)
        ensures
            r == self.size,
    {
        self.size
    }

    pub fn align(&self) -> (r: usize)
        ensures
            r == self.align,
    {
        self.align
    }
}

/// The free counters of one layout, most recently freed last.
pub struct FreeList {
    pub layout: GenerationLayout,
    pub slots: Vec<usize>,
}

/// Free lists for any number of layouts, at most one per layout.
pub struct FreeListPool {
    pub lists: Vec<FreeList>,
}

impl FreeListPool {
    pub open spec fn wf(&self) -> bool {
        forall|i: int, j: int|
            0 <= i < self.lists.len() && 0 <= j < self.lists.len()
                && (#[trigger] self.lists@[i]).layout == (#[trigger] self.lists@[j]).layout ==> i == j
    }

    pub open spec fn has(&self, layout: GenerationLayout) -> bool {
        exists|i: int| 0 <= i < self.lists.len() && (#[trigger] self.lists@[i]).layout == layout
    }

    /// The free counters of `layout`, empty where the pool has no list for it.
    pub open spec fn list_of(&self, layout: GenerationLayout) -> Seq<usize> {
        if self.has(layout) {
            self.lists@[choose|i: int| 0 <= i < self.lists.len() && (#[trigger] self.lists@[i]).layout == layout].slots@
        } else {
            Seq::empty()
        }
    }

    /// Number of free counters over all layouts.
    pub open spec fn total(&self) -> int
        decreases self.lists@.len(),
    {
        total_of(self.lists@)
    }

    proof fn lemma_list_at(&self, i: int)
        requires
            self.wf(),
            0 <= i < self.lists.len(),
        ensures
            self.has(self.lists@[i].layout),
            self.list_of(self.lists@[i].layout) == self.lists@[i].slots@,
    {
        let layout = self.lists@[i].layout;
        assert(self.has(layout));
        let k = choose|k: int| 0 <= k < self.lists.len() && (#[trigger] self.lists@[k]).layout == layout;
        assert(k == i);
    }

    pub fn new() -> (r: FreeListPool)
        ensures
            r.wf(),
            forall|l: GenerationLayout| r.list_of(l) == Seq::<usize>::empty(),
    {
        FreeListPool { lists: Vec::new() }
    }

    /// Where the list of `layout` stands, if the pool has one.
    pub fn locate(&self, layout: GenerationLayout) -> (r: Option<usize>)
        requires
            self.wf(),
        ensures
            r matches Some(i) ==> i < self.lists.len() && self.lists@[i as int].layout == layout,
            r is None ==> !self.has(layout),
    {
        let mut i: usize = 0;
        while i < self.lists.len()
            invariant
                0 <= i <= self.lists.len(),
                forall|k: int| 0 <= k < i ==> (#[trigger] self.lists@[k]).layout != layout,
            decreases self.lists.len() - i,
        {
            if self.lists[i].layout == layout {
                return Some(i);
            }
            i = i + 1;
        }
        None
    }

    /// The list of `layout`, created empty where there was none. No layout's
    /// free counters change.
    pub fn free_list(&mut self, layout: GenerationLayout) -> (r: usize)
        requires
            old(self).wf(),
        ensures
            final(self).wf(),
            r < final(self).lists.len(),
            final(self).lists@[r as int].layout == layout,
            forall|l: GenerationLayout| #[trigger] final(self).list_of(l) == old(self).list_of(l),
            final(self).total() == old(self).total(),
    {
        match self.locate(layout) {
            Some(i) => i,
            None => {
                let ghost before = *self;
                self.lists.push(FreeList { layout, slots: Vec::new() });
                let r = (self.lists.len() - 1) as usize;
                assert forall|l: GenerationLayout| #[trigger] self.list_of(l) == before.list_of(l) by {
                    if l == layout {
                        self.lemma_list_at(r as int);
                    } else if before.has(l) {
                        let k = choose|k: int| 0 <= k < before.lists.len() && (#[trigger] before.lists@[k]).layout == l;
                        before.lemma_list_at(k);
                        assert(self.lists@[k] == before.lists@[k]);
                        self.lemma_list_at(k);
                    } else {
                        assert(!self.has(l)) by {
                            if self.has(l) {
                                let k = choose|k: int| 0 <= k < self.lists.len() && (#[trigger] self.lists@[k]).layout == l;
                                assert(before.lists@[k] == self.lists@[k]);
                            }
                        }
                    }
                }
                assert(self.lists@ == before.lists@.push(self.lists@.last()));
                proof {
                    lemma_total_push(before.lists@, self.lists@.last());
                }
                r
            },
        }
    }
}

impl FreeListPool {
    proof fn lemma_update_frame(before: FreeListPool, after: FreeListPool, i: int, fl: FreeList)
        requires
            before.wf(),
            0 <= i < before.lists.len(),
            fl.layout == before.lists@[i].layout,
            after.lists@ == before.lists@.update(i, fl),
        ensures
            after.wf(),
            after.list_of(fl.layout) == fl.slots@,
            forall|l: GenerationLayout| l != fl.layout ==> #[trigger] after.list_of(l) == before.list_of(l),
            after.total() == before.total() - before.lists@[i].slots@.len() + fl.slots@.len(),
    {
        assert forall|a: int, b: int|
            0 <= a < after.lists.len() && 0 <= b < after.lists.len()
                && (#[trigger] after.lists@[a]).layout == (#[trigger] after.lists@[b]).layout implies a == b by {
            assert(before.lists@[a].layout == after.lists@[a].layout);
            assert(before.lists@[b].layout == after.lists@[b].layout);
        }
        after.lemma_list_at(i);
        assert forall|l: GenerationLayout| l != fl.layout implies #[trigger] after.list_of(l) == before.list_of(l) by {
            if before.has(l) {
                let k = choose|k: int| 0 <= k < before.lists.len() && (#[trigger] before.lists@[k]).layout == l;
                before.lemma_list_at(k);
                assert(k != i);
                assert(after.lists@[k] == before.lists@[k]);
                after.lemma_list_at(k);
            } else {
                assert(!after.has(l)) by {
                    if after.has(l) {
                        let k = choose|k: int| 0 <= k < after.lists.len() && (#[trigger] after.lists@[k]).layout == l;
                        assert(k != i);
                        assert(before.lists@[k] == after.lists@[k]);
                    }
                }
            }
        }
        lemma_total_update(before.lists@, i, fl);
    }

    /// The list for the layout of `T`, created empty where there was none.
    pub fn free_list_of<T>(&mut self) -> (r: usize)
        requires
            old(self).wf(),
        ensures
            final(self).wf(),
            r < final(self).lists.len(),
            final(self).lists@[r as int].layout.size as nat == vstd::layout::size_of::<T>(),
            final(self).lists@[r as int].layout.align as nat == vstd::layout::align_of::<T>(),
            forall|l: GenerationLayout| #[trigger] final(self).list_of(l) == old(self).list_of(l),
            final(self).total() == old(self).total(),
    {
        self.free_list(GenerationLayout::of::<T>())
    }

    /// Number of free counters of `layout`.
    pub fn len_of(&self, layout: GenerationLayout) -> (r: usize)
        requires
            self.wf(),
        ensures
            r == self.list_of(layout).len(),
    {
        match self.locate(layout) {
            Some(i) => {
                proof {
                    self.lemma_list_at(i as int);
                }
                self.lists[i].slots.len()
            },
            None => 0,
        }
    }

    /// The number of free counters of each layout.
    pub fn get_stats(&self) -> (r: Stats)
        requires
            self.wf(),
        ensures
            r.by_layout@.len() == self.lists@.len(),
            forall|i: int| 0 <= i < self.lists@.len() ==> (#[trigger] r.by_layout@[i]).0 == self.lists@[i].layout
                && r.by_layout@[i].1 == self.lists@[i].slots@.len(),
            count_sum(r.by_layout@) == self.total(),
            r.drop_queue_info@.len() == 0,
            r.guards == 0,
    {
        let mut by_layout: Vec<(GenerationLayout, usize)> = Vec::new();
        let mut i: usize = 0;
        while i < self.lists.len()
            invariant
                0 <= i <= self.lists@.len(),
                by_layout@.len() == i,
                forall|k: int| 0 <= k < i ==> (#[trigger] by_layout@[k]).0 == self.lists@[k].layout
                    && by_layout@[k].1 == self.lists@[k].slots@.len(),
                count_sum(by_layout@) == total_of(self.lists@.take(i as int)),
            decreases self.lists@.len() - i,
        {
            let ghost prev = by_layout@;
            by_layout.push((self.lists[i].layout, self.lists[i].slots.len()));
            assert(by_layout@.drop_last() == prev);
            assert(self.lists@.take(i + 1).drop_last() == self.lists@.take(i as int));
            i = i + 1;
        }
        assert(self.lists@.take(self.lists@.len() as int) == self.lists@);
        Stats { by_layout, drop_queue_info: Vec::new(), guards: 0 }
    }

    /// Appends `slots`, in their order, to the free list of `layout`.
    pub fn free_all(&mut self, layout: GenerationLayout, slots: &mut Vec<usize>)
        requires
            old(self).wf(),
        ensures
            final(self).wf(),
            final(self).list_of(layout) == old(self).list_of(layout) + old(slots)@,
            forall|l: GenerationLayout| l != layout ==> #[trigger] final(self).list_of(l) == old(self).list_of(l),
            final(self).total() == old(self).total() + old(slots)@.len(),
            final(slots)@.len() == 0,
    {
        let i = self.free_list(layout);
        let ghost mid = *self;
        proof {
            mid.lemma_list_at(i as int);
        }
        self.lists[i].slots.append(slots);
        proof {
            FreeListPool::lemma_update_frame(mid, *self, i as int, self.lists@[i as int]);
        }
    }

    /// Returns a counter to the free list of `layout`.
    pub fn free(&mut self, layout: GenerationLayout, slot: usize)
        requires
            old(self).wf(),
        ensures
            final(self).wf(),
            final(self).list_of(layout) == old(self).list_of(layout).push(slot),
            forall|l: GenerationLayout| l != layout ==> #[trigger] final(self).list_of(l) == old(self).list_of(l),
            final(self).total() == old(self).total() + 1,
    {
        let i = self.free_list(layout);
        let ghost mid = *self;
        proof {
            mid.lemma_list_at(i as int);
        }
        self.lists[i].slots.push(slot);
        proof {
            FreeListPool::lemma_update_frame(mid, *self, i as int, self.lists@[i as int]);
        }
    }

    /// Takes the most recently freed counter of `layout`, if any.
    pub fn reallocate(&mut self, layout: GenerationLayout) -> (r: Option<usize>)
        requires
            old(self).wf(),
        ensures
            final(self).wf(),
            old(self).list_of(layout).len() == 0 ==> r is None && final(self).list_of(layout) == old(self).list_of(layout),
            old(self).list_of(layout).len() > 0 ==> r == Some(old(self).list_of(layout).last())
                && final(self).list_of(layout) == old(self).list_of(layout).drop_last(),
            forall|l: GenerationLayout| l != layout ==> #[trigger] final(self).list_of(l) == old(self).list_of(l),
            final(self).total() == old(self).total() - (if r is Some { 1int } else { 0int }),
            r is None ==> *final(self) == *old(self),
    {
        match self.locate(layout) {
            None => None,
            Some(i) => {
                let ghost mid = *self;
                proof {
                    mid.lemma_list_at(i as int);
                }
                if self.lists[i].slots.len() == 0 {
                    return None;
                }
                let r = self.lists[i].slots.pop();
                proof {
                    FreeListPool::lemma_update_frame(mid, *self, i as int, self.lists@[i as int]);
                }
                r
            },
        }
    }

    /// Moves up to `number` of the most recently freed counters of `layout`,
    /// in their order, to the end of `target`, and returns how many the list
    /// keeps.
    pub fn request(&mut self, layout: GenerationLayout, number: usize, target: &mut Vec<usize>) -> (r: usize)
        requires
            old(self).wf(),
        ensures
            final(self).wf(),
            ({
                let list = old(self).list_of(layout);
                let k = if number < list.len() { number as int } else { list.len() as int };
                &&& r == list.len() - k
                &&& final(self).list_of(layout) == list.subrange(0, list.len() - k)
                &&& final(target)@ == old(target)@ + list.subrange(list.len() - k, list.len() as int)
                &&& final(self).total() == old(self).total() - k
            }),
            forall|l: GenerationLayout| l != layout ==> #[trigger] final(self).list_of(l) == old(self).list_of(l),
    {
        let i = self.free_list(layout);
        let ghost mid = *self;
        proof {
            mid.lemma_list_at(i as int);
        }
        let n = self.lists[i].slots.len();
        let k: usize = if number < n { number } else { n };
        let mut tail = self.lists[i].slots.split_off(n - k);
        target.append(&mut tail);
        proof {
            FreeListPool::lemma_update_frame(mid, *self, i as int, self.lists@[i as int]);
        }
        n - k
    }
}

/// A number for each of some layouts, at most one entry per layout.
pub struct LayoutTable {
    pub entries: Vec<(GenerationLayout, usize)>,
}

impl LayoutTable {
    pub open spec fn wf(&self) -> bool {
        forall|i: int, j: int|
            0 <= i < self.entries.len() && 0 <= j < self.entries.len()
                && (#[trigger] self.entries@[i]).0 == (#[trigger] self.entries@[j]).0 ==> i == j
    }

    /// The number recorded for `layout`, if any.
    pub open spec fn get(&self, layout: GenerationLayout) -> Option<usize> {
        if exists|i: int| 0 <= i < self.entries.len() && (#[trigger] self.entries@[i]).0 == layout {
            Some(self.entries@[choose|i: int| 0 <= i < self.entries.len() && (#[trigger] self.entries@[i]).0 == layout].1)
        } else {
            None
        }
    }

    proof fn lemma_entry_at(&self, i: int)
        requires
            self.wf(),
            0 <= i < self.entries.len(),
        ensures
            self.get(self.entries@[i].0) == Some(self.entries@[i].1),
    {
        let layout = self.entries@[i].0;
        assert(0 <= i < self.entries.len() && self.entries@[i].0 == layout);
        let k = choose|k: int| 0 <= k < self.entries.len() && (#[trigger] self.entries@[k]).0 == layout;
        assert(k == i);
    }

    pub fn new() -> (r: LayoutTable)
        ensures
            r.wf(),
            forall|l: GenerationLayout| r.get(l) is None,
            r.entries@.len() == 0,
    {
        LayoutTable { entries: Vec::new() }
    }

    fn position(&self, layout: GenerationLayout) -> (r: Option<usize>)
        requires
            self.wf(),
        ensures
            r matches Some(i) ==> i < self.entries.len() && self.entries@[i as int].0 == layout,
            r is None ==> self.get(layout) is None,
    {
        let mut i: usize = 0;
        while i < self.entries.len()
            invariant
                0 <= i <= self.entries.len(),
                forall|k: int| 0 <= k < i ==> (#[trigger] self.entries@[k]).0 != layout,
            decreases self.entries.len() - i,
        {
            if self.entries[i].0 == layout {
                return Some(i);
            }
            i = i + 1;
        }
        None
    }

    pub fn lookup(&self, layout: GenerationLayout) -> (r: Option<usize>)
        requires
            self.wf(),
        ensures
            r == self.get(layout),
    {
        match self.position(layout) {
            Some(i) => {
                proof {
                    self.lemma_entry_at(i as int);
                }
                Some(self.entries[i].1)
            },
            None => None,
        }
    }

    /// Records `value` for `layout`, leaving the other layouts as they were.
    pub fn set(&mut self, layout: GenerationLayout, value: usize)
        requires
            old(self).wf(),
        ensures
            final(self).wf(),
            final(self).get(layout) == Some(value),
            forall|l: GenerationLayout| l != layout ==> #[trigger] final(self).get(l) == old(self).get(l),
            old(self).get(layout) is Some ==> final(self).entries@.len() == old(self).entries@.len(),
            old(self).get(layout) is None ==> final(self).entries@.len() == old(self).entries@.len() + 1,
            old(self).get(layout) matches Some(v) ==> count_sum(final(self).entries@) == count_sum(old(self).entries@) - v + value,
            old(self).get(layout) is None ==> count_sum(final(self).entries@) == count_sum(old(self).entries@) + value,
    {
        let ghost before = *self;
        match self.position(layout) {
            Some(i) => {
                proof {
                    before.lemma_entry_at(i as int);
                }
                self.entries.set(i, (layout, value));
                proof {
                    lemma_count_sum_update(before.entries@, i as int, (layout, value));
                }
                assert forall|a: int, b: int|
                    0 <= a < self.entries.len() && 0 <= b < self.entries.len()
                        && (#[trigger] self.entries@[a]).0 == (#[trigger] self.entries@[b]).0 implies a == b by {
                    assert(before.entries@[a].0 == self.entries@[a].0);
                    assert(before.entries@[b].0 == self.entries@[b].0);
                }
                proof {
                    self.lemma_entry_at(i as int);
                }
                assert forall|l: GenerationLayout| l != layout implies #[trigger] self.get(l) == before.get(l) by {
                    if before.get(l) is Some {
                        let k = choose|k: int| 0 <= k < before.entries.len() && (#[trigger] before.entries@[k]).0 == l;
                        before.lemma_entry_at(k);
                        assert(self.entries@[k] == before.entries@[k]);
                        self.lemma_entry_at(k);
                    } else {
                        if exists|k: int| 0 <= k < self.entries.len() && (#[trigger] self.entries@[k]).0 == l {
                            let k = choose|k: int| 0 <= k < self.entries.len() && (#[trigger] self.entries@[k]).0 == l;
                            assert(before.entries@[k] == self.entries@[k]);
                        }
                    }
                }
            },
            None => {
                self.entries.push((layout, value));
                assert(self.entries@.drop_last() == before.entries@);
                let r = (self.entries.len() - 1) as usize;
                proof {
                    self.lemma_entry_at(r as int);
                }
                assert forall|l: GenerationLayout| l != layout implies #[trigger] self.get(l) == before.get(l) by {
                    if before.get(l) is Some {
                        let k = choose|k: int| 0 <= k < before.entries.len() && (#[trigger] before.entries@[k]).0 == l;
                        before.lemma_entry_at(k);
                        assert(self.entries@[k] == before.entries@[k]);
                        self.lemma_entry_at(k);
                    } else {
                        if exists|k: int| 0 <= k < self.entries.len() && (#[trigger] self.entries@[k]).0 == l {
                            let k = choose|k: int| 0 <= k < self.entries.len() && (#[trigger] self.entries@[k]).0 == l;
                            assert(before.entries@[k] == self.entries@[k]);
                        }
                    }
                }
            },
        }
    }
}

impl LayoutTable {
    /// Counts one more for `layout`.
    pub fn increment(&mut self, layout: GenerationLayout)
        requires
            old(self).wf(),
            count_sum(old(self).entries@) < usize::MAX,
        ensures
            final(self).wf(),
            final(self).get(layout) == Some(match old(self).get(layout) {
                Some(v) => (v + 1) as usize,
                None => 1usize,
            }),
            forall|l: GenerationLayout| l != layout ==> #[trigger] final(self).get(l) == old(self).get(l),
            count_sum(final(self).entries@) == count_sum(old(self).entries@) + 1,
    {
        match self.lookup(layout) {
            Some(v) => {
                proof {
                    let i = choose|i: int| 0 <= i < self.entries.len() && (#[trigger] self.entries@[i]).0 == layout;
                    self.lemma_entry_at(i);
                    crate::stats::lemma_count_sum_entry(self.entries@, i);
                }
                self.set(layout, v + 1);
            },
            None => {
                self.set(layout, 1);
            },
        }
    }

    /// Replaces every zero with `to`.
    pub fn reset_zeros(&mut self, to: usize)
        requires
            old(self).wf(),
        ensures
            final(self).wf(),
            forall|l: GenerationLayout| #[trigger] final(self).get(l) == match old(self).get(l) {
                Some(v) => Some(if v == 0 { to } else { v }),
                None => None,
            },
    {
        let ghost before = *self;
        let mut i: usize = 0;
        while i < self.entries.len()
            invariant
                0 <= i <= self.entries@.len(),
                self.entries@.len() == before.entries@.len(),
                before.wf(),
                forall|k: int| 0 <= k < self.entries@.len() ==> (#[trigger] self.entries@[k]).0 == before.entries@[k].0,
                forall|k: int| 0 <= k < i ==> (#[trigger] self.entries@[k]).1 == if before.entries@[k].1 == 0 { to } else { before.entries@[k].1 },
                forall|k: int| i <= k < self.entries@.len() ==> (#[trigger] self.entries@[k]) == before.entries@[k],
            decreases self.entries@.len() - i,
        {
            if self.entries[i].1 == 0 {
                let l = self.entries[i].0;
                self.entries.set(i, (l, to));
            }
            i = i + 1;
        }
        assert forall|a: int, b: int|
            0 <= a < self.entries.len() && 0 <= b < self.entries.len()
                && (#[trigger] self.entries@[a]).0 == (#[trigger] self.entries@[b]).0 implies a == b by {
            assert(before.entries@[a].0 == self.entries@[a].0);
            assert(before.entries@[b].0 == self.entries@[b].0);
        }
        assert forall|l: GenerationLayout| #[trigger] self.get(l) == match before.get(l) {
            Some(v) => Some(if v == 0 { to } else { v }),
            None => None,
        } by {
            if before.get(l) is Some {
                let k = choose|k: int| 0 <= k < before.entries.len() && (#[trigger] before.entries@[k]).0 == l;
                before.lemma_entry_at(k);
                self.lemma_entry_at(k);
            } else {
                if exists|k: int| 0 <= k < self.entries.len() && (#[trigger] self.entries@[k]).0 == l {
                    let k = choose|k: int| 0 <= k < self.entries.len() && (#[trigger] self.entries@[k]).0 == l;
                    assert(before.entries@[k].0 == l);
                }
            }
        }
    }
}

/// A payload whose drop waits until no guard of its pool is active.
#[derive(Clone, Copy)]
pub struct DropLater {
    pub slot: usize,
    pub layout: GenerationLayout,
}

/// First number of counters that a thread pool asks the global pool for.
pub const FIRST_REQUEST: usize = 32;

/// The counters of `q` that go back to a free list of `layout` once their
/// payloads are dropped: those of that layout that are not retired.
pub open spec fn released(q: Seq<DropLater>, layout: GenerationLayout, counters: Seq<RawLocalCounter>) -> Seq<usize>
    decreases q.len(),
{
    if q.len() == 0 {
        Seq::empty()
    } else {
        let rest = released(q.drop_last(), layout, counters);
        let d = q.last();
        if d.layout == layout && !counters[d.slot as int].end_of_life() {
            rest.push(d.slot)
        } else {
            rest
        }
    }
}

/// Number of entries of `q` of `layout`.
pub open spec fn queued(q: Seq<DropLater>, layout: GenerationLayout) -> int
    decreases q.len(),
{
    if q.len() == 0 {
        0
    } else {
        queued(q.drop_last(), layout) + if q.last().layout == layout { 1int } else { 0int }
    }
}

/// The pool of one thread: its own free lists, the batch size it asks the
/// global pool for by layout, its number of active guards, and the payloads
/// whose drop waits for those guards to go.
pub struct LocalFreeListPool {
    pub pool: FreeListPool,
    /// Next batch size by layout; zero once the global pool had nothing left.
    pub request_sizes: LayoutTable,
    pub guards: usize,
    pub dropq: Vec<DropLater>,
}

impl LocalFreeListPool {
    pub open spec fn wf(&self) -> bool {
        self.pool.wf() && self.request_sizes.wf()
    }

    /// The batch size that the next request for `layout` asks for.
    pub open spec fn request_size(&self, layout: GenerationLayout) -> int {
        match self.request_sizes.get(layout) {
            Some(n) => n as int,
            None => FIRST_REQUEST as int,
        }
    }

    /// Every queued payload names a counter of `arena`.
    pub open spec fn queue_within(&self, arena: &CounterArena) -> bool {
        forall|i: int| 0 <= i < self.dropq.len() ==> (#[trigger] self.dropq@[i]).slot < arena.counters.len()
    }

    pub fn new() -> (r: LocalFreeListPool)
        ensures
            r.wf(),
            forall|l: GenerationLayout| r.pool.list_of(l) == Seq::<usize>::empty(),
            forall|l: GenerationLayout| r.request_size(l) == FIRST_REQUEST,
            r.guards == 0,
            r.dropq@.len() == 0,
    {
        LocalFreeListPool { pool: FreeListPool::new(), request_sizes: LayoutTable::new(), guards: 0, dropq: Vec::new() }
    }

    /// Whether no guard is active, so that payloads can be dropped at once.
    pub fn is_safe(&self) -> (r: bool)
        ensures
            r == (self.guards == 0),
    {
        self.guards == 0
    }

    pub fn register_guard(&mut self)
        requires
            old(self).guards < usize::MAX,
        ensures
            final(self).guards == old(self).guards + 1,
            final(self).pool == old(self).pool,
            final(self).request_sizes == old(self).request_sizes,
            final(self).dropq == old(self).dropq,
    {
        self.guards = self.guards + 1;
    }

    /// Returns a counter to the free list of `layout`.
    pub fn free(&mut self, layout: GenerationLayout, slot: usize)
        requires
            old(self).wf(),
        ensures
            final(self).wf(),
            final(self).pool.list_of(layout) == old(self).pool.list_of(layout).push(slot),
            forall|l: GenerationLayout| l != layout ==> #[trigger] final(self).pool.list_of(l) == old(self).pool.list_of(l),
            final(self).request_sizes == old(self).request_sizes,
            final(self).guards == old(self).guards,
            final(self).dropq == old(self).dropq,
    {
        self.pool.free(layout, slot);
    }

    /// Queues a payload whose drop must wait for the active guards.
    pub fn drop_later(&mut self, slot: usize, layout: GenerationLayout)
        ensures
            final(self).dropq@ == old(self).dropq@.push(DropLater { slot, layout }),
            final(self).pool == old(self).pool,
            final(self).request_sizes == old(self).request_sizes,
            final(self).guards == old(self).guards,
    {
        self.dropq.push(DropLater { slot, layout });
    }

    /// Where no guard is active, empties the drop queue: the counters that are
    /// not retired go back to their free lists, and the queued entries are
    /// returned so that their payloads can be dropped. Otherwise nothing
    /// changes and nothing is returned.
    pub fn purge_drop_queue(&mut self, arena: &CounterArena) -> (r: Vec<DropLater>)
        requires
            old(self).wf(),
            old(self).queue_within(arena),
        ensures
            final(self).wf(),
            final(self).guards == old(self).guards,
            final(self).request_sizes == old(self).request_sizes,
            old(self).guards == 0 ==> r@ == old(self).dropq@ && final(self).dropq@.len() == 0
                && forall|l: GenerationLayout| #[trigger] final(self).pool.list_of(l)
                    == old(self).pool.list_of(l) + released(old(self).dropq@, l, arena.counters@),
            old(self).guards != 0 ==> r@.len() == 0 && final(self).dropq == old(self).dropq
                && final(self).pool == old(self).pool,
    {
        if self.guards != 0 {
            return Vec::new();
        }
        let mut dropq: Vec<DropLater> = Vec::new();
        std::mem::swap(&mut dropq, &mut self.dropq);
        let ghost start = self.pool;
        let mut i: usize = 0;
        while i < dropq.len()
            invariant
                0 <= i <= dropq@.len(),
                dropq@ == old(self).dropq@,
                self.wf(),
                self.guards == old(self).guards,
                self.request_sizes == old(self).request_sizes,
                self.dropq@.len() == 0,
                old(self).queue_within(arena),
                forall|l: GenerationLayout| #[trigger] self.pool.list_of(l)
                    == start.list_of(l) + released(dropq@.take(i as int), l, arena.counters@),
            decreases dropq@.len() - i,
        {
            let d = dropq[i];
            assert(old(self).dropq@[i as int] == d);
            let ghost before = self.pool;
            assert(dropq@.take(i + 1).drop_last() == dropq@.take(i as int));
            if !arena.counters[d.slot].is_end_of_life() {
                self.pool.free(d.layout, d.slot);
                assert forall|l: GenerationLayout| #[trigger] self.pool.list_of(l)
                    == start.list_of(l) + released(dropq@.take(i + 1), l, arena.counters@) by {
                    if l == d.layout {
                        assert(self.pool.list_of(l) == before.list_of(l).push(d.slot));
                    }
                }
            }
            i = i + 1;
        }
        assert(dropq@.take(dropq@.len() as int) == dropq@);
        dropq
    }

    /// One guard fewer; once none is left, the drop queue is purged and its
    /// entries are returned.
    pub fn deregister_guard(&mut self, arena: &CounterArena) -> (r: Vec<DropLater>)
        requires
            old(self).wf(),
            old(self).guards >= 1,
            old(self).queue_within(arena),
        ensures
            final(self).wf(),
            final(self).guards == old(self).guards - 1,
            final(self).request_sizes == old(self).request_sizes,
            final(self).guards == 0 ==> r@ == old(self).dropq@ && final(self).dropq@.len() == 0
                && forall|l: GenerationLayout| #[trigger] final(self).pool.list_of(l)
                    == old(self).pool.list_of(l) + released(old(self).dropq@, l, arena.counters@),
            final(self).guards != 0 ==> r@.len() == 0 && final(self).dropq == old(self).dropq
                && final(self).pool == old(self).pool,
    {
        self.guards = self.guards - 1;
        self.purge_drop_queue(arena)
    }
}

/// What a request of a thread pool `a` for `layout` from the global pool `g`
/// leaves behind (`b`, `h`) and returns (`r`): the batch size is read; if it
/// is zero nothing happens; otherwise up to that many of the global pool's
/// most recent free counters move over, the next batch size becomes the
/// smaller of twice this one and what the global pool kept, and the most
/// recent local free counter is handed out.
pub open spec fn request_outcome(
    a: LocalFreeListPool,
    g: FreeListPool,
    layout: GenerationLayout,
    b: LocalFreeListPool,
    h: FreeListPool,
    r: Option<usize>,
) -> bool {
    let s = a.request_size(layout);
    if s == 0 {
        r is None && b == a && h == g
    } else {
        let global = g.list_of(layout);
        let k = if s < global.len() { s } else { global.len() as int };
        let kept = global.len() - k;
        let local = a.pool.list_of(layout) + global.subrange(kept, global.len() as int);
        &&& h.list_of(layout) == global.subrange(0, kept)
        &&& forall|l: GenerationLayout| l != layout ==> #[trigger] h.list_of(l) == g.list_of(l)
        &&& b.request_size(layout) == if kept < 2 * s { kept } else { 2 * s }
        &&& forall|l: GenerationLayout| l != layout ==> #[trigger] b.request_size(l) == a.request_size(l)
        &&& forall|l: GenerationLayout| l != layout ==> #[trigger] b.pool.list_of(l) == a.pool.list_of(l)
        &&& local.len() == 0 ==> r is None && b.pool.list_of(layout) == local
        &&& local.len() > 0 ==> r == Some(local.last()) && b.pool.list_of(layout) == local.drop_last()
        &&& b.guards == a.guards
        &&& b.dropq == a.dropq
    }
}

impl LocalFreeListPool {
    /// Asks the global pool for a batch of free counters of `layout` and hands
    /// out one of them.
    pub fn request(&mut self, layout: GenerationLayout, global: &mut FreeListPool) -> (r: Option<usize>)
        requires
            old(self).wf(),
            old(global).wf(),
        ensures
            final(self).wf(),
            final(global).wf(),
            request_outcome(*old(self), *old(global), layout, *final(self), *final(global), r),
    {
        let s = match self.request_sizes.lookup(layout) {
            Some(n) => n,
            None => FIRST_REQUEST,
        };
        if s == 0 {
            return None;
        }
        let mut got: Vec<usize> = Vec::new();
        let kept = global.request(layout, s, &mut got);
        let next = if s <= usize::MAX / 2 && 2 * s < kept { 2 * s } else { kept };
        self.request_sizes.set(layout, next);
        self.pool.free_all(layout, &mut got);
        let r = self.pool.reallocate(layout);
        proof {
            assert forall|l: GenerationLayout| l != layout implies #[trigger] self.request_size(l) == old(self).request_size(l) by {}
        }
        r
    }

    /// A free counter of `layout`: the thread's own most recent one, else one
    /// obtained by a request to the global pool.
    pub fn reallocate(&mut self, layout: GenerationLayout, global: &mut FreeListPool) -> (r: Option<usize>)
        requires
            old(self).wf(),
            old(global).wf(),
        ensures
            final(self).wf(),
            final(global).wf(),
            old(self).pool.list_of(layout).len() > 0 ==> r == Some(old(self).pool.list_of(layout).last())
                && final(self).pool.list_of(layout) == old(self).pool.list_of(layout).drop_last()
                && (forall|l: GenerationLayout| l != layout ==> #[trigger] final(self).pool.list_of(l) == old(self).pool.list_of(l))
                && final(self).request_sizes == old(self).request_sizes
                && final(self).guards == old(self).guards
                && final(self).dropq == old(self).dropq
                && *final(global) == *old(global),
            old(self).pool.list_of(layout).len() == 0 ==> request_outcome(*old(self), *old(global), layout, *final(self), *final(global), r),
    {
        let ghost before = *self;
        match self.pool.reallocate(layout) {
            Some(x) => Some(x),
            None => {
                assert(*self == before);
                self.request(layout, global)
            },
        }
    }

    /// Lets every layout that the global pool once failed to serve ask again,
    /// starting from the first batch size.
    pub fn reset_requests(&mut self)
        requires
            old(self).wf(),
        ensures
            final(self).wf(),
            forall|l: GenerationLayout| #[trigger] final(self).request_size(l)
                == if old(self).request_size(l) == 0 { FIRST_REQUEST as int } else { old(self).request_size(l) },
            final(self).pool == old(self).pool,
            final(self).guards == old(self).guards,
            final(self).dropq == old(self).dropq,
    {
        self.request_sizes.reset_zeros(FIRST_REQUEST);
    }

    /// The free counters of each layout, the waiting payloads of each layout
    /// and the number of active guards.
    pub fn get_stats(&self) -> (r: Stats)
        requires
            self.wf(),
        ensures
            r.by_layout@.len() == self.pool.lists@.len(),
            forall|i: int| 0 <= i < self.pool.lists@.len() ==> (#[trigger] r.by_layout@[i]).0 == self.pool.lists@[i].layout
                && r.by_layout@[i].1 == self.pool.lists@[i].slots@.len(),
            count_sum(r.by_layout@) == self.pool.total(),
            forall|l: GenerationLayout| #[trigger] (LayoutTable { entries: r.drop_queue_info }).get(l)
                == if queued(self.dropq@, l) == 0 { None } else { Some(queued(self.dropq@, l) as usize) },
            count_sum(r.drop_queue_info@) == self.dropq@.len(),
            r.guards == self.guards,
    {
        let mut res = self.pool.get_stats();
        let mut info = LayoutTable::new();
        let mut i: usize = 0;
        while i < self.dropq.len()
            invariant
                0 <= i <= self.dropq@.len(),
                info.wf(),
                count_sum(info.entries@) == i,
                forall|l: GenerationLayout| #[trigger] info.get(l)
                    == if queued(self.dropq@.take(i as int), l) == 0 { None } else { Some(queued(self.dropq@.take(i as int), l) as usize) },
                forall|l: GenerationLayout| 0 <= #[trigger] queued(self.dropq@.take(i as int), l) <= i,
            decreases self.dropq@.len() - i,
        {
            let d = self.dropq[i];
            let ghost prev = info;
            info.increment(d.layout);
            assert(self.dropq@.take(i + 1).drop_last() == self.dropq@.take(i as int));
            assert forall|l: GenerationLayout| 0 <= #[trigger] queued(self.dropq@.take(i + 1), l) <= i + 1 by {
                assert(queued(self.dropq@.take(i as int), l) <= i);
            }
            i = i + 1;
        }
        assert(self.dropq@.take(self.dropq@.len() as int) == self.dropq@);
        res.drop_queue_info = info.entries;
        res.guards = self.guards;
        res
    }
}

impl FreeListPool {
    proof fn lemma_pop_frame(before: FreeListPool, after: FreeListPool)
        requires
            before.wf(),
            before.lists.len() > 0,
            after.lists@ == before.lists@.drop_last(),
        ensures
            after.wf(),
            !after.has(before.lists@.last().layout),
            before.list_of(before.lists@.last().layout) == before.lists@.last().slots@,
            forall|l: GenerationLayout| l != before.lists@.last().layout ==> #[trigger] after.list_of(l) == before.list_of(l),
            forall|l: GenerationLayout| l != before.lists@.last().layout ==> #[trigger] after.has(l) == before.has(l),
    {
        let n = before.lists.len() - 1;
        before.lemma_list_at(n);
        let last = before.lists@.last().layout;
        if after.has(last) {
            let k = choose|k: int| 0 <= k < after.lists.len() && (#[trigger] after.lists@[k]).layout == last;
            assert(before.lists@[k] == after.lists@[k]);
        }
        assert forall|l: GenerationLayout| l != last implies #[trigger] after.list_of(l) == before.list_of(l) by {
            if before.has(l) {
                let k = choose|k: int| 0 <= k < before.lists.len() && (#[trigger] before.lists@[k]).layout == l;
                before.lemma_list_at(k);
                assert(k != n);
                assert(after.lists@[k] == before.lists@[k]);
                after.lemma_list_at(k);
            } else if after.has(l) {
                let k = choose|k: int| 0 <= k < after.lists.len() && (#[trigger] after.lists@[k]).layout == l;
                assert(before.lists@[k] == after.lists@[k]);
            }
        }
        assert forall|l: GenerationLayout| l != last implies #[trigger] after.has(l) == before.has(l) by {
            if before.has(l) {
                let k = choose|k: int| 0 <= k < before.lists.len() && (#[trigger] before.lists@[k]).layout == l;
                assert(k != n);
                assert(after.lists@[k] == before.lists@[k]);
            } else if after.has(l) {
                let k = choose|k: int| 0 <= k < after.lists.len() && (#[trigger] after.lists@[k]).layout == l;
                assert(before.lists@[k] == after.lists@[k]);
            }
        }
    }
}

impl LocalFreeListPool {
    /// The end of the thread: the drop queue is purged whatever guards are
    /// left, and every free counter of the thread goes to the global pool.
    pub fn teardown(&mut self, arena: &CounterArena, global: &mut FreeListPool) -> (r: Vec<DropLater>)
        requires
            old(self).wf(),
            old(self).queue_within(arena),
            old(global).wf(),
        ensures
            final(self).wf(),
            final(global).wf(),
            r@ == old(self).dropq@,
            forall|l: GenerationLayout| #[trigger] final(global).list_of(l)
                == old(global).list_of(l) + (old(self).pool.list_of(l) + released(old(self).dropq@, l, arena.counters@)),
            forall|l: GenerationLayout| #[trigger] final(self).pool.list_of(l) == Seq::<usize>::empty(),
            final(self).guards == 0,
            final(self).dropq@.len() == 0,
    {
        self.guards = 0;
        let r = self.purge_drop_queue(arena);
        let ghost mid = self.pool;
        let ghost g0 = *global;
        assert forall|l: GenerationLayout| #[trigger] global.list_of(l)
            == g0.list_of(l) + (if self.pool.has(l) { Seq::<usize>::empty() } else { mid.list_of(l) }) by {
            assert(g0.list_of(l) + Seq::<usize>::empty() =~= g0.list_of(l));
        }
        while self.pool.lists.len() > 0
            invariant
                self.pool.wf(),
                self.request_sizes.wf(),
                self.guards == 0,
                self.dropq@.len() == 0,
                global.wf(),
                forall|l: GenerationLayout| self.pool.has(l) ==> #[trigger] self.pool.list_of(l) == mid.list_of(l),
                forall|l: GenerationLayout| #[trigger] global.list_of(l)
                    == g0.list_of(l) + (if self.pool.has(l) { Seq::<usize>::empty() } else { mid.list_of(l) }),
            decreases self.pool.lists.len(),
        {
            let ghost before = self.pool;
            let ghost gb = *global;
            match self.pool.lists.pop() {
                Some(fl) => {
                    proof {
                        FreeListPool::lemma_pop_frame(before, self.pool);
                    }
                    let mut slots = fl.slots;
                    global.free_all(fl.layout, &mut slots);
                    assert forall|l: GenerationLayout| #[trigger] global.list_of(l)
                        == g0.list_of(l) + (if self.pool.has(l) { Seq::<usize>::empty() } else { mid.list_of(l) }) by {
                        if l == fl.layout {
                            assert(fl == before.lists@.last());
                            assert(before.has(l)) by {
                                assert(before.lists@[before.lists.len() - 1].layout == l);
                            }
                            assert(gb.list_of(l) =~= g0.list_of(l));
                            assert(fl.slots@ == mid.list_of(l));
                            assert(global.list_of(l) == g0.list_of(l) + mid.list_of(l));
                        } else {
                            assert(self.pool.has(l) == before.has(l));
                        }
                    }
                },
                None => {},
            }
        }
        assert forall|l: GenerationLayout| !self.pool.has(l) by {}
        assert forall|l: GenerationLayout| #[trigger] global.list_of(l)
            == g0.list_of(l) + (old(self).pool.list_of(l) + released(old(self).dropq@, l, arena.counters@)) by {
            assert(mid.list_of(l) == old(self).pool.list_of(l) + released(old(self).dropq@, l, arena.counters@));
        }
        r
    }
}

/// Usage statistics of a thread pool.
pub fn thread_local_stats(pool: &LocalFreeListPool) -> (r: Stats)
    requires
        pool.wf(),
    ensures
        count_sum(r.by_layout@) == pool.pool.total(),
        count_sum(r.drop_queue_info@) == pool.dropq@.len(),
        r.guards == pool.guards,
{
    pool.get_stats()
}

/// Usage statistics of the global pool, which has no drop queue and no guards.
pub fn global_stats(pool: &FreeListPool) -> (r: Stats)
    requires
        pool.wf(),
    ensures
        count_sum(r.by_layout@) == pool.total(),
        r.drop_queue_info@.len() == 0,
        r.guards == 0,
{
    pool.get_stats()
}

/// Lets a thread pool ask the global pool again for every layout that it
/// stopped asking for.
pub fn reset_request_behavior(pool: &mut LocalFreeListPool)
    requires
        old(pool).wf(),
    ensures
        final(pool).wf(),
        forall|l: GenerationLayout| #[trigger] final(pool).request_size(l)
            == if old(pool).request_size(l) == 0 { FIRST_REQUEST as int } else { old(pool).request_size(l) },
        final(pool).pool == old(pool).pool,
        final(pool).guards == old(pool).guards,
        final(pool).dropq == old(pool).dropq,
{
    pool.reset_requests();
}

/// Number of counters over a sequence of free lists.
pub open spec fn total_of(lists: Seq<FreeList>) -> int
    decreases lists.len(),
{
    if lists.len() == 0 {
        0
    } else {
        total_of(lists.drop_last()) + lists.last().slots@.len()
    }
}

proof fn lemma_total_push(lists: Seq<FreeList>, fl: FreeList)
    ensures
        total_of(lists.push(fl)) == total_of(lists) + fl.slots@.len(),
{
    assert(lists.push(fl).drop_last() == lists);
}

proof fn lemma_total_update(lists: Seq<FreeList>, i: int, fl: FreeList)
    requires
        0 <= i < lists.len(),
    ensures
        total_of(lists.update(i, fl)) == total_of(lists) - lists[i].slots@.len() + fl.slots@.len(),
    decreases lists.len(),
{
    let u = lists.update(i, fl);
    if i == lists.len() - 1 {
        assert(u.drop_last() == lists.drop_last());
    } else {
        assert(u.drop_last() == lists.drop_last().update(i, fl));
        lemma_total_update(lists.drop_last(), i, fl);
    }
}

} // verus!
