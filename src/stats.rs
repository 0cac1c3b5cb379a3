//! Memory usage statistics of an allocation pool, for diagnosing leaks.
use vstd::prelude::*;
use crate::pool::GenerationLayout;

verus! {

/// Number of objects over a list of (layout, count) pairs.
pub open spec fn count_sum(s: Seq<(GenerationLayout, usize)>) -> int
    decreases s.len(),
{
    if s.len() == 0 {
        0
    } else {
        count_sum(s.drop_last()) + s.last().1
    }
}

/// Bytes over a list of (layout, count) pairs.
pub open spec fn size_sum(s: Seq<(GenerationLayout, usize)>) -> int
    decreases s.len(),
{
    if s.len() == 0 {
        0
    } else {
        size_sum(s.drop_last()) + s.last().0.size * s.last().1
    }
}

proof fn lemma_prefix_sums(s: Seq<(GenerationLayout, usize)>, i: int, j: int)
    requires
        0 <= i <= j <= s.len(),
    ensures
        count_sum(s.take(i)) <= count_sum(s.take(j)),
        size_sum(s.take(i)) <= size_sum(s.take(j)),
    decreases j - i,
{
    if i < j {
        lemma_prefix_sums(s, i, j - 1);
        assert(s.take(j).drop_last() == s.take(j - 1));
        assert(s.take(j).last().0.size * s.take(j).last().1 >= 0) by (nonlinear_arith);
    }
}

/// Heap memory usage statistics.
pub struct Stats {
    /// Free counters, by payload layout.
    pub by_layout: Vec<(GenerationLayout, usize)>,
    /// Allocations whose payload waits for the last guard to go, by payload layout.
    pub drop_queue_info: Vec<(GenerationLayout, usize)>,
    /// Number of active guards.
    pub guards: usize,
}

impl Stats {
    fn sum_counts(map: &Vec<(GenerationLayout, usize)>) -> (r: usize)
        requires
            count_sum(map@) <= usize::MAX,
        ensures
            r == count_sum(map@),
    {
        let mut res: usize = 0;
        let mut i: usize = 0;
        while i < map.len()
            invariant
                0 <= i <= map@.len(),
                count_sum(map@) <= usize::MAX,
                res == count_sum(map@.take(i as int)),
            decreases map@.len() - i,
        {
            proof {
                lemma_prefix_sums(map@, i + 1, map@.len() as int);
                assert(map@.take(map@.len() as int) == map@);
                assert(map@.take(i + 1).drop_last() == map@.take(i as int));
            }
            res = res + map[i].1;
            i = i + 1;
        }
        assert(map@.take(map@.len() as int) == map@);
        res
    }

    fn sum_sizes(map: &Vec<(GenerationLayout, usize)>) -> (r: usize)
        requires
            size_sum(map@) <= usize::MAX,
        ensures
            r == size_sum(map@),
    {
        let mut res: usize = 0;
        let mut i: usize = 0;
        while i < map.len()
            invariant
                0 <= i <= map@.len(),
                size_sum(map@) <= usize::MAX,
                res == size_sum(map@.take(i as int)),
            decreases map@.len() - i,
        {
            proof {
                lemma_prefix_sums(map@, i + 1, map@.len() as int);
                assert(map@.take(map@.len() as int) == map@);
                assert(map@.take(i + 1).drop_last() == map@.take(i as int));
            }
            let (layout, amount) = map[i];
            let bytes = layout.size() * amount;
            res = res + bytes;
            i = i + 1;
        }
        assert(map@.take(map@.len() as int) == map@);
        res
    }

    /// Number of free counters.
    pub fn free_objects(&self) -> (r: usize)
        requires
            count_sum(self.by_layout@) <= usize::MAX,
        ensures
            r == count_sum(self.by_layout@),
    {
        Stats::sum_counts(&self.by_layout)
    }

    /// Payload bytes that the free counters stood for.
    pub fn free_heap_size(&self) -> (r: usize)
        requires
            size_sum(self.by_layout@) <= usize::MAX,
        ensures
            r == size_sum(self.by_layout@),
    {
        Stats::sum_sizes(&self.by_layout)
    }

    /// Number of allocations waiting to be dropped.
    pub fn bound_objects(&self) -> (r: usize)
        requires
            count_sum(self.drop_queue_info@) <= usize::MAX,
        ensures
            r == count_sum(self.drop_queue_info@),
    {
        Stats::sum_counts(&self.drop_queue_info)
    }

    /// Payload bytes waiting to be dropped.
    pub fn bound_heap_size(&self) -> (r: usize)
        requires
            size_sum(self.drop_queue_info@) <= usize::MAX,
        ensures
            r == size_sum(self.drop_queue_info@),
    {
        Stats::sum_sizes(&self.drop_queue_info)
    }

    /// Approximate bytes held by the bookkeeping itself: one drop-queue entry
    /// per waiting allocation and one index per free counter.
    pub fn overhead_size(&self) -> (r: usize)
        requires
            count_sum(self.drop_queue_info@) <= usize::MAX,
            count_sum(self.by_layout@) <= usize::MAX,
            count_sum(self.drop_queue_info@) * vstd::layout::size_of::<crate::pool::DropLater>()
                + count_sum(self.by_layout@) * vstd::layout::size_of::<usize>() <= usize::MAX,
        ensures
            r == count_sum(self.drop_queue_info@) * vstd::layout::size_of::<crate::pool::DropLater>()
                + count_sum(self.by_layout@) * vstd::layout::size_of::<usize>(),
    {
        let later = core::mem::size_of::<crate::pool::DropLater>();
        let word = core::mem::size_of::<usize>();
        proof {
            let a = count_sum(self.drop_queue_info@);
            let b = count_sum(self.by_layout@);
            lemma_count_sum_nonneg(self.drop_queue_info@);
            lemma_count_sum_nonneg(self.by_layout@);
            assert(a * later <= usize::MAX && b * word <= usize::MAX) by (nonlinear_arith)
                requires
                    a * later + b * word <= usize::MAX,
                    a >= 0,
                    b >= 0,
                    later >= 0,
                    word >= 0,
            {}
        }
        let bound = self.bound_objects();
        let free = self.free_objects();
        bound * later + free * word
    }
}

/// Replacing one count changes the total by the difference.
pub(crate) proof fn lemma_count_sum_update(s: Seq<(GenerationLayout, usize)>, i: int, e: (GenerationLayout, usize))
    requires
        0 <= i < s.len(),
    ensures
        count_sum(s.update(i, e)) == count_sum(s) - s[i].1 + e.1,
    decreases s.len(),
{
    let u = s.update(i, e);
    if i == s.len() - 1 {
        assert(u.drop_last() == s.drop_last());
    } else {
        assert(u.drop_last() == s.drop_last().update(i, e));
        lemma_count_sum_update(s.drop_last(), i, e);
    }
}

/// One count is at most the total.
pub(crate) proof fn lemma_count_sum_entry(s: Seq<(GenerationLayout, usize)>, i: int)
    requires
        0 <= i < s.len(),
    ensures
        s[i].1 <= count_sum(s),
    decreases s.len(),
{
    if i < s.len() - 1 {
        lemma_count_sum_entry(s.drop_last(), i);
    }
    lemma_count_sum_nonneg(s.drop_last());
}

/// Sums of counts and of bytes are never negative.
pub(crate) proof fn lemma_count_sum_nonneg(s: Seq<(GenerationLayout, usize)>)
    ensures
        count_sum(s) >= 0,
        size_sum(s) >= 0,
{
    lemma_prefix_sums(s, 0, s.len() as int);
    assert(s.take(s.len() as int) == s);
}

} // verus!
