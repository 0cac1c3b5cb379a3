//! Generational references: an owning handle can be aliased by copyable weak
//! handles that are checked against a per-slot generation counter on every
//! access, with shared / exclusive / upgradable locking layered on each slot.
pub mod arena;
pub mod axioms;
pub mod heap;
pub mod ledger;
pub mod lock;
pub mod pool;
pub mod shared;
pub mod stats;
