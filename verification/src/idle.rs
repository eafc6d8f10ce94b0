//! The count of URLs that are queued or being visited, and its one waiter.

use vstd::prelude::*;

verus! {

/// Counts the URLs that were accepted into a queue and are not yet fully
/// processed, and remembers whether somebody waits for the count to reach
/// zero.
#[derive(Debug)]
pub struct IdleCounter {
    active: usize,
    waiting: bool,
}

impl IdleCounter {
    /// The number of URLs that are queued or being visited.
    pub closed spec fn count(&self) -> nat {
        self.active as nat
    }

    /// Whether a waiter is registered.
    pub closed spec fn has_waiter(&self) -> bool {
        self.waiting
    }

    /// The count is a machine integer.
    pub proof fn lemma_count_bounded(&self)
        ensures
            self.count() <= usize::MAX,
    {
    }

    /// A counter at zero, with no waiter.
    pub fn new() -> (counter: IdleCounter)
        ensures
            counter.count() == 0,
            !counter.has_waiter(),
    {
        IdleCounter { active: 0, waiting: false }
    }

    /// The current count.
    pub fn active(&self) -> (n: usize)
        ensures
            n == self.count(),
    {
        self.active
    }

    /// Whether the count is zero.
    pub fn is_idle(&self) -> (idle: bool)
        ensures
            idle == (self.count() == 0),
    {
        self.active == 0
    }

    /// Records one more URL accepted into a queue.
    pub fn increment(&mut self)
        requires
            old(self).count() < usize::MAX,
        ensures
            final(self).count() == old(self).count() + 1,
            final(self).has_waiter() == old(self).has_waiter(),
    {
        self.active = self.active + 1;
    }

    /// Records that one URL is fully processed. Returns whether the waiter
    /// has to be woken: the count has reached zero and a waiter is
    /// registered.
    pub fn decrement(&mut self) -> (wake: bool)
        requires
            old(self).count() > 0,
        ensures
            final(self).count() == old(self).count() - 1,
            final(self).has_waiter() == old(self).has_waiter(),
            wake == (old(self).count() == 1 && old(self).has_waiter()),
    {
        self.active = self.active - 1;
        self.active == 0 && self.waiting
    }

    /// Resets the count to zero. Returns whether the waiter has to be woken:
    /// a waiter is registered.
    pub fn force_wake(&mut self) -> (wake: bool)
        ensures
            final(self).count() == 0,
            final(self).has_waiter() == old(self).has_waiter(),
            wake == old(self).has_waiter(),
    {
        self.active = 0;
        self.waiting
    }

    /// One poll of the waiter. Returns whether the count is zero; if it is
    /// not, the waiter is registered, unless one is registered already.
    pub fn wait(&mut self) -> (ready: bool)
        ensures
            ready == (old(self).count() == 0),
            final(self).count() == old(self).count(),
            final(self).has_waiter() == (old(self).has_waiter() || old(self).count() != 0),
    {
        if self.active == 0 {
            return true;
        }
        self.waiting = true;
        false
    }
}

} // verus!
