//! Domain caches: the single authoritative in-process value for one
//! subsystem's observable state.
//!
//! A cache is read without blocking and without touching the external
//! subsystem; it is written only by the monitor that owns it.

use vstd::prelude::*;

verus! {

/// Holds the last known value of one monitored subsystem.
pub struct DomainCache<T: Copy> {
    value: T,
}

impl<T: Copy> DomainCache<T> {
    /// The current cached value, for contracts.
    pub closed spec fn spec_value(self) -> T {
        self.value
    }

    /// A cache seeded with the subsystem's initial (or default) value.
    pub fn new(v: T) -> (r: Self)
        ensures
            r.spec_value() == v,
    {
        DomainCache { value: v }
    }

    /// Returns the last committed value; never consults the external source.
    pub fn read(&self) -> (r: T)
        ensures
            r == self.spec_value(),
    {
        self.value
    }

    /// Replaces the cached value; called only by the owning monitor.
    pub fn write(&mut self, v: T)
        ensures
            final(self).spec_value() == v,
    {
        self.value = v;
    }
}

} // verus!
