//! An axiomatic account of why dropping an owner by bumping the generation is
//! safe. Each operation on references is seen by how it changes the numbers
//! of the four kinds of reference to one allocation; each axiom states when
//! it applies, and the program that composes them type-checks only if every
//! step is allowed.
use vstd::prelude::*;

verus! {

/// The numbers of references of each kind to one allocation.
#[must_use]
pub struct Axioms {
    /// Owned references.
    pub owned: usize,
    /// Unique references.
    pub unique: usize,
    /// Valid weak references.
    pub valid_weak: usize,
    /// Invalid weak references left from earlier allocations.
    pub invalid_weak: usize,
}

impl Axioms {
    /// Number of references of any kind.
    pub open spec fn all(&self) -> int {
        self.owned + self.unique + self.valid_weak + self.invalid_weak
    }

    /// Unallocated memory has no references.
    pub fn mmap() -> (r: Axioms)
        ensures
            r.owned == 0,
            r.unique == 0,
            r.valid_weak == 0,
            r.invalid_weak == 0,
    {
        Axioms { owned: 0, unique: 0, valid_weak: 0, invalid_weak: 0 }
    }

    /// Memory segmentation prevents cross-referencing: memory can only be
    /// given back when nothing refers to it.
    pub fn segfault(self)
        requires
            self.all() == 0,
    {
    }

    /// Program exit does not care about the number of references.
    pub fn leak(self) {
    }

    /// Allocating fresh memory creates exactly one reference to it, and that
    /// reference is unique.
    pub fn malloc(self) -> (r: Axioms)
        requires
            self.all() == 0,
        ensures
            r.unique == 1,
            r.owned == 0,
            r.valid_weak == 0,
            r.invalid_weak == 0,
    {
        Axioms { unique: self.unique + 1, ..self }
    }

    /// An allocation with exactly one unique reference and no other reference
    /// can be deallocated.
    pub fn free(self) -> (r: Axioms)
        requires
            self.unique == 1,
            self.owned + self.valid_weak + self.invalid_weak == 0,
        ensures
            r.unique == 0,
            r.owned == self.owned,
            r.valid_weak == self.valid_weak,
            r.invalid_weak == self.invalid_weak,
    {
        Axioms { unique: self.unique - 1, ..self }
    }

    /// An allocation can be reused only when no valid reference to it is left;
    /// the reuse holds its one unique reference.
    pub fn reinit(self) -> (r: Axioms)
        requires
            self.owned + self.unique + self.valid_weak == 0,
        ensures
            r.unique == 1,
            r.owned == self.owned,
            r.valid_weak == self.valid_weak,
            r.invalid_weak == self.invalid_weak,
    {
        Axioms { unique: 1, ..self }
    }

    /// An object under a unique reference can be dropped.
    pub fn deinit(self) -> (r: Axioms)
        requires
            self.unique == 1,
            self.owned + self.valid_weak == 0,
        ensures
            r.unique == 0,
            r.owned == self.owned,
            r.valid_weak == self.valid_weak,
            r.invalid_weak == self.invalid_weak,
    {
        Axioms { unique: 0, ..self }
    }

    /// A unique reference can decay into an owned one, to be aliased later.
    pub fn decay(self) -> (r: Axioms)
        requires
            self.unique == 1,
            self.owned + self.valid_weak == 0,
        ensures
            r.unique == 0,
            r.owned == self.owned + 1,
            r.valid_weak == self.valid_weak,
            r.invalid_weak == self.invalid_weak,
    {
        Axioms { unique: self.unique - 1, owned: self.owned + 1, ..self }
    }

    /// An owned reference with no valid alias can be promoted to a unique
    /// one, for transfer across threads.
    pub fn promote(self) -> (r: Axioms)
        requires
            self.owned == 1,
            self.unique + self.valid_weak == 0,
        ensures
            r.owned == 0,
            r.unique == self.unique + 1,
            r.valid_weak == self.valid_weak,
            r.invalid_weak == self.invalid_weak,
    {
        Axioms { owned: self.owned - 1, unique: self.unique + 1, ..self }
    }

    /// An owned reference can be aliased `n` times. There is no converse:
    /// weak references are copied freely and cannot be tracked or disposed of.
    pub fn alias(self, n: usize) -> (r: Axioms)
        requires
            self.unique == 0,
            self.owned == 1,
            self.valid_weak + n <= usize::MAX,
        ensures
            r.valid_weak == self.valid_weak + n,
            r.owned == self.owned,
            r.unique == self.unique,
            r.invalid_weak == self.invalid_weak,
    {
        Axioms { valid_weak: self.valid_weak + n, ..self }
    }

    /// Advancing the generation invalidates every weak reference at once.
    pub fn invalidate(self) -> (r: Axioms)
        requires
            self.invalid_weak + self.valid_weak <= usize::MAX,
        ensures
            r.invalid_weak == self.invalid_weak + self.valid_weak,
            r.valid_weak == 0,
            r.owned == self.owned,
            r.unique == self.unique,
    {
        Axioms { invalid_weak: self.invalid_weak + self.valid_weak, valid_weak: 0, ..self }
    }

    /// The main claim: an owned reference with any number of aliases can be
    /// dropped safely by first advancing the generation.
    pub fn drop_owned() {
        Axioms::mmap().malloc().decay().alias(100).invalidate().promote().deinit().leak()
    }
}

} // verus!
