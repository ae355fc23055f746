use std::sync::atomic::{AtomicU64, Ordering};
use std::sync::Arc;
use vstd::prelude::*;

verus! {

/// A counter that clones share and that any thread may advance.
#[derive(Clone)]
pub struct Counter(Arc<AtomicU64>);

impl Counter {
    /// A counter at zero.
    pub fn new() -> (r: Self) {
        Counter(Arc::new(AtomicU64::new(0)))
    }

    /// What `next` hands out when the value it advanced the counter from
    /// was `previous`: that value, or `None` if it is `u64::MAX`, the last
    /// value before the counter goes round.
    pub open spec fn issued(previous: u64) -> Option<u64> {
        if previous == u64::MAX {
            None
        } else {
            Some(previous)
        }
    }

    /// The value to hand out after advancing the counter from `previous`.
    pub fn issue(previous: u64) -> (r: Option<u64>)
        ensures
            r == Self::issued(previous),
    {
        if previous == u64::MAX {
            None
        } else {
            Some(previous)
        }
    }

    /// Advances the counter by one and hands out the value it had, through
    /// [`Counter::issue`]. The counter lives in an atomic that every clone
    /// and thread may advance, so which value that was is not known here:
    /// the result is what `issue` gives for some value, and `None` only
    /// where that value was `u64::MAX`.
    pub fn next(&self) -> (r: Option<u64>)
        ensures
            exists|previous: u64| r == Self::issued(previous),
    {
        let n = self.0.fetch_add(1, Ordering::Relaxed);
        Self::issue(n)
    }
}

} // verus!
