//! Counting permit pool bounding how many directory-level operations run at
//! once. A permit is acquired before a directory is listed or a tree is
//! removed, and released afterwards; the number of permits held never exceeds
//! the capacity fixed at construction.

use vstd::prelude::*;

verus! {

/// A counting permit pool. `held` counts permits currently out; it never
/// exceeds `capacity`.
pub struct Limiter {
    capacity: usize,
    held: usize,
}

impl Limiter {
    /// The pool's fixed capacity.
    pub closed spec fn capacity(&self) -> nat {
        self.capacity as nat
    }

    /// How many permits are currently held.
    pub closed spec fn held(&self) -> nat {
        self.held as nat
    }

    /// Well-formedness: a positive capacity, never exceeded.
    pub open spec fn wf(&self) -> bool {
        1 <= self.capacity() && self.held() <= self.capacity()
    }

    /// Two pools in the same state: same capacity, same permits out.
    pub open spec fn same_state(&self, other: &Limiter) -> bool {
        self.capacity() == other.capacity() && self.held() == other.held()
    }

    /// A fresh pool with `capacity` permits, none held.
    pub fn new(capacity: usize) -> (r: Limiter)
        requires
            capacity >= 1,
        ensures
            r.wf(),
            r.capacity() == capacity,
            r.held() == 0,
    {
        Limiter { capacity, held: 0 }
    }

    /// Take one permit. Capacity must not be exhausted; the caller releases
    /// the permit when its directory-level operation is done.
    pub fn acquire(&mut self)
        requires
            old(self).wf(),
            old(self).held() < old(self).capacity(),
        ensures
            final(self).wf(),
            final(self).capacity() == old(self).capacity(),
            final(self).held() == old(self).held() + 1,
    {
        self.held = self.held + 1;
    }

    /// Return one held permit to the pool.
    pub fn release(&mut self)
        requires
            old(self).wf(),
            old(self).held() >= 1,
        ensures
            final(self).wf(),
            final(self).capacity() == old(self).capacity(),
            final(self).held() == old(self).held() - 1,
    {
        self.held = self.held - 1;
    }

    /// Whether a permit is available right now.
    pub fn available(&self) -> (r: bool)
        ensures
            r == (self.held() < self.capacity()),
    {
        self.held < self.capacity
    }

    /// How many permits are currently held, as a number.
    pub fn held_count(&self) -> (r: usize)
        ensures
            r == self.held(),
    {
        self.held
    }

    /// The pool's capacity, as a number.
    pub fn capacity_count(&self) -> (r: usize)
        ensures
            r == self.capacity(),
    {
        self.capacity
    }
}

/// Law: however the pool is used, the number of concurrently held permits
/// never exceeds the capacity fixed at construction. Every method of
/// `Limiter` preserves `wf`, so this bound holds at any instant.
pub proof fn lemma_permits_bounded(l: Limiter)
    requires
        l.wf(),
    ensures
        l.held() <= l.capacity(),
{
}

} // verus!
