//! The concurrency limiter: a counting permit pool that bounds how
//! many directories are processed at once.
//!
//! A traversal unit must hold a permit while its directory read is in
//! flight; the pool never hands out more permits than its capacity.

use vstd::prelude::*;

verus! {

/// A counting permit pool.
pub struct PermitPool {
    /// Maximum number of permits that can be out at once.
    pub capacity: u64,
    /// Permits currently free.
    pub available: u64,
}

impl PermitPool {
    /// No more permits are free than the capacity allows.
    pub open spec fn wf(self) -> bool {
        self.available <= self.capacity
    }

    /// Number of permits currently free.
    pub open spec fn spec_available(self) -> u64 {
        self.available
    }

    /// The pool's capacity.
    pub open spec fn spec_capacity(self) -> u64 {
        self.capacity
    }

    /// Creates a pool with all permits free.
    pub fn new(capacity: u64) -> (p: PermitPool)
        ensures
            p.wf(),
            p.spec_capacity() == capacity,
            p.spec_available() == capacity,
    {
        PermitPool { capacity, available: capacity }
    }

    /// Takes a permit if one is free.
    pub fn try_acquire(&mut self) -> (got: bool)
        requires
            old(self).wf(),
        ensures
            final(self).wf(),
            final(self).spec_capacity() == old(self).spec_capacity(),
            got == (old(self).spec_available() > 0),
            final(self).spec_available() as int == if got {
                old(self).spec_available() - 1
            } else {
                old(self).spec_available() as int
            },
    {
        if self.available > 0 {
            self.available = self.available - 1;
            true
        } else {
            false
        }
    }

    /// Returns a permit; never blocks, and never exceeds the
    /// capacity.
    pub fn release(&mut self)
        requires
            old(self).wf(),
            old(self).spec_available() < old(self).spec_capacity(),
        ensures
            final(self).wf(),
            final(self).spec_capacity() == old(self).spec_capacity(),
            final(self).spec_available() == old(self).spec_available() + 1,
    {
        self.available = self.available + 1;
    }

    /// Number of permits currently free.
    pub fn available(&self) -> (n: u64)
        ensures
            n == self.spec_available(),
    {
        self.available
    }
}

} // verus!
