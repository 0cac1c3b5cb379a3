//! The generation of a counter shared between threads. Its value lives in an
//! atomic integer, so nothing can be known of it between two reads; what is
//! proved is the step that each update applies.
use vstd::prelude::*;
use std::sync::atomic::{AtomicU32, Ordering};
use crate::lock::COUNTER_INIT;

verus! {

/// The step of an update: zero (never initialised) and the maximum (retired)
/// are left alone, any other generation advances by one.
pub fn next_count(n: u32) -> (r: Option<u32>)
    ensures
        r == if n == 0 || n == u32::MAX { None::<u32> } else { Some((n + 1) as u32) },
{
    if n == 0 || n == u32::MAX {
        None
    } else {
        Some(n + 1)
    }
}

/// Relies on `AtomicU32::fetch_update`: applies `next_count` atomically,
/// retrying while other threads change the value, and leaves the value alone
/// where the step gives `None`.
#[verifier::external_body]
fn update_count(a: &AtomicU32) {
    let _ = a.fetch_update(Ordering::Relaxed, Ordering::Relaxed, |n| next_count(n));
}

/// A generation counter that any thread can read and advance.
pub struct GlobalCounter {
    counter: AtomicU32,
}

impl GlobalCounter {
    pub fn new() -> GlobalCounter {
        GlobalCounter { counter: AtomicU32::new(COUNTER_INIT) }
    }

    /// The generation at the moment of the read.
    pub fn count(&self) -> u32 {
        self.counter.load(Ordering::Relaxed)
    }

    /// Advances the generation by one, unless it is zero or retired.
    pub fn bump(&self) {
        update_count(&self.counter);
    }

    /// Raises the generation to `gen` where it was lower, and tells whether
    /// it did.
    pub fn set_gen(&self, gen: u32) -> (r: bool) {
        let prev = self.counter.fetch_max(gen, Ordering::Relaxed);
        prev < gen
    }
}

} // verus!
