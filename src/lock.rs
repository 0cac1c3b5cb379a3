//! Generation counters with an embedded lock word.
//!
//! The lock word is a signed integer: `0` is unlocked, `-1` is held
//! exclusively, and a positive value is twice the number of plain shared
//! holders plus one bit for a single upgradable shared holder.
use vstd::prelude::*;

verus! {

/// Generation of a counter that was never used.
pub const COUNTER_INIT: u32 = 1;

/// A thread-confined generation counter with its lock word.
#[derive(Clone, Copy)]
pub struct RawLocalCounter {
    pub access: i32,
    pub counter: u32,
}

/// The lock word decoded into its three shapes.
#[derive(Clone, Copy)]
pub enum AccessState {
    Readers { normal: i32, upgrade: bool },
    Writer,
    Unlocked,
}

impl AccessState {
    /// The meaning of a lock word.
    pub open spec fn decode(desc: i32) -> AccessState {
        if desc > 0 {
            AccessState::Readers { normal: (desc / 2) as i32, upgrade: desc % 2 == 1 }
        } else if desc == 0 {
            AccessState::Unlocked
        } else {
            AccessState::Writer
        }
    }

    /// Decodes a lock word.
    pub fn new(desc: i32) -> (r: AccessState)
        requires
            desc >= -1,
        ensures
            r == AccessState::decode(desc),
    {
        if desc > 0 {
            AccessState::Readers { normal: desc / 2, upgrade: desc % 2 == 1 }
        } else if desc == 0 {
            AccessState::Unlocked
        } else {
            AccessState::Writer
        }
    }
}

impl RawLocalCounter {
    /// The lock word holds one of its three shapes and the generation is live
    /// or retired, never the zero sentinel.
    pub open spec fn wf(&self) -> bool {
        self.access >= -1 && self.counter >= 1
    }

    pub open spec fn is_exclusive(&self) -> bool {
        self.access == -1
    }

    pub open spec fn is_unlocked(&self) -> bool {
        self.access == 0
    }

    /// Number of plain shared holders.
    pub open spec fn readers(&self) -> int {
        if self.access > 0 { self.access as int / 2 } else { 0 }
    }

    /// Whether a shared holder carries the upgradable mark.
    pub open spec fn upgradable(&self) -> bool {
        self.access > 0 && self.access as int % 2 == 1
    }

    /// Number of shared holders, the upgradable one included.
    pub open spec fn holders(&self) -> int {
        self.readers() + if self.upgradable() { 1int } else { 0int }
    }

    /// A retired counter: its generation reached the maximum and it is never
    /// handed out again.
    pub open spec fn end_of_life(&self) -> bool {
        self.counter == u32::MAX
    }

    pub fn new() -> (r: RawLocalCounter)
        ensures
            r.wf(),
            r.is_unlocked(),
            r.counter == COUNTER_INIT,
    {
        RawLocalCounter { access: 0, counter: COUNTER_INIT }
    }

    pub fn access_state(&self) -> (r: AccessState)
        requires
            self.wf(),
        ensures
            r == AccessState::decode(self.access),
    {
        AccessState::new(self.access)
    }

    pub fn count(&self) -> (r: u32)
        ensures
            r == self.counter,
    {
        self.counter
    }

    pub fn is_end_of_life(&self) -> (r: bool)
        ensures
            r == self.end_of_life(),
    {
        self.counter == u32::MAX
    }

    /// Advances the generation by one; a retired counter stays retired.
    pub fn bump(&mut self)
        ensures
            final(self).access == old(self).access,
            final(self).counter == if old(self).counter < u32::MAX {
                (old(self).counter + 1) as u32
            } else {
                u32::MAX
            },
    {
        if self.counter < u32::MAX {
            self.counter = self.counter + 1;
        }
    }

    /// Adds a shared holder unless the counter is held exclusively (or the
    /// holder count is saturated).
    pub fn try_lock_shared(&mut self) -> (r: bool)
        requires
            old(self).wf(),
        ensures
            r == (old(self).access >= 0 && old(self).access <= i32::MAX - 2),
            r ==> final(self).access == old(self).access + 2,
            !r ==> final(self).access == old(self).access,
            final(self).counter == old(self).counter,
    {
        if self.access >= 0 && self.access <= i32::MAX - 2 {
            self.access = self.access + 2;
            true
        } else {
            false
        }
    }

    /// Takes the exclusive lock if nobody holds any lock.
    pub fn try_lock_exclusive(&mut self) -> (r: bool)
        requires
            old(self).wf(),
        ensures
            r == old(self).is_unlocked(),
            r ==> final(self).is_exclusive(),
            !r ==> final(self).access == old(self).access,
            final(self).counter == old(self).counter,
    {
        if self.access == 0 {
            self.access = -1;
            true
        } else {
            false
        }
    }

    /// Marks one more shared holder as upgradable, unless one already is or
    /// the counter is held exclusively.
    pub fn try_lock_upgradable(&mut self) -> (r: bool)
        requires
            old(self).wf(),
        ensures
            r == (old(self).access >= 0 && old(self).access % 2 == 0),
            r ==> final(self).access == old(self).access + 1,
            !r ==> final(self).access == old(self).access,
            final(self).counter == old(self).counter,
    {
        if self.access >= 0 && self.access % 2 == 0 {
            self.access = self.access + 1;
            true
        } else {
            false
        }
    }

    /// Turns the exclusive lock into one plain shared lock.
    pub fn downgrade(&mut self)
        requires
            old(self).is_exclusive(),
        ensures
            final(self).access == 2,
            final(self).readers() == 1,
            !final(self).upgradable(),
            final(self).counter == old(self).counter,
    {
        self.access = 2;
    }

    /// The upgradable holder becomes the exclusive holder, which succeeds
    /// exactly when it is the only shared holder; on failure nothing changes.
    pub fn try_upgrade(&mut self) -> (r: bool)
        requires
            old(self).wf(),
            old(self).upgradable(),
        ensures
            r == (old(self).holders() == 1),
            r ==> final(self).is_exclusive(),
            !r ==> *final(self) == *old(self),
            final(self).counter == old(self).counter,
    {
        if self.access == 1 {
            self.access = -1;
            true
        } else {
            false
        }
    }

    /// Releases one plain shared lock.
    pub fn unlock_shared(&mut self)
        requires
            old(self).wf(),
            old(self).readers() >= 1,
        ensures
            final(self).wf(),
            final(self).access == old(self).access - 2,
            final(self).readers() == old(self).readers() - 1,
            final(self).upgradable() == old(self).upgradable(),
            final(self).counter == old(self).counter,
    {
        self.access = self.access - 2;
    }

    /// Releases the exclusive lock.
    pub fn unlock_exclusive(&mut self)
        requires
            old(self).is_exclusive(),
        ensures
            final(self).is_unlocked(),
            final(self).counter == old(self).counter,
    {
        self.access = 0;
    }

    /// Drops the upgradable mark, keeping the plain shared holders.
    pub fn unlock_upgradable(&mut self)
        requires
            old(self).wf(),
            old(self).upgradable(),
        ensures
            final(self).wf(),
            final(self).access == old(self).access - 1,
            final(self).readers() == old(self).readers(),
            !final(self).upgradable(),
            final(self).counter == old(self).counter,
    {
        self.access = self.access - 1;
    }

    /// A plain shared holder becomes the exclusive holder in one step, which
    /// succeeds exactly when it is the only holder of any kind; on failure
    /// nothing changes.
    pub fn try_shared_into_exclusive(&mut self) -> (r: bool)
        requires
            old(self).wf(),
            old(self).readers() >= 1,
        ensures
            r == (old(self).readers() == 1 && !old(self).upgradable()),
            r ==> final(self).is_exclusive(),
            !r ==> *final(self) == *old(self),
            final(self).counter == old(self).counter,
    {
        if self.access == 2 {
            self.access = -1;
            true
        } else {
            false
        }
    }
}

impl AccessState {
    /// The lock word that this state stands for.
    pub open spec fn encode(self) -> int {
        match self {
            AccessState::Readers { normal, upgrade } => 2 * normal + if upgrade { 1int } else { 0int },
            AccessState::Writer => -1,
            AccessState::Unlocked => 0,
        }
    }

    /// Replays this state onto an unlocked counter by acquiring its locks one
    /// by one: each plain shared holder, then the upgradable mark, or the
    /// exclusive lock.
    pub fn inflict(&self, access: &mut RawLocalCounter)
        requires
            old(access).wf(),
            old(access).is_unlocked(),
            self.encode() <= i32::MAX,
            self matches AccessState::Readers { normal, upgrade } ==> normal >= 0,
        ensures
            final(access).access == self.encode(),
            final(access).counter == old(access).counter,
            final(access).wf(),
    {
        match self {
            AccessState::Readers { normal, upgrade } => {
                let n: i32 = *normal;
                let mut i: i32 = 0;
                while i < n
                    invariant
                        0 <= i <= n,
                        2 * n + (if *upgrade { 1int } else { 0int }) <= i32::MAX,
                        access.access == 2 * i,
                        access.counter == old(access).counter,
                        access.wf(),
                    decreases n - i,
                {
                    access.try_lock_shared();
                    i = i + 1;
                }
                if *upgrade {
                    access.try_lock_upgradable();
                }
            },
            AccessState::Writer => {
                access.try_lock_exclusive();
            },
            AccessState::Unlocked => {},
        }
    }
}

/// A lock word never records the exclusive holder together with a shared
/// holder: any shared holder keeps the word from being unlocked, so taking the
/// exclusive lock fails, and the exclusive holder keeps the word negative, so
/// taking a shared or upgradable lock fails.
pub proof fn lemma_lock_exclusion(c: RawLocalCounter)
    requires
        c.wf(),
    ensures
        !(c.is_exclusive() && c.holders() > 0),
        c.holders() > 0 ==> !c.is_unlocked(),
        c.is_exclusive() ==> !(c.access >= 0),
{
}

} // verus!
