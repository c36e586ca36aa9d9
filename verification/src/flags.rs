//! A simple boolean flag with an exact contract on every operation.

use vstd::prelude::*;

verus! {

/// A boolean flag.  Writers take the flag by mutable reference, so every
/// update is visible in the contracts.
pub struct Flag {
    inner: bool,
}

impl Flag {
    /// The flag's current value.
    pub closed spec fn spec_get(self) -> bool {
        self.inner
    }

    /// A flag holding `initial`.
    pub fn new(initial: bool) -> (f: Flag)
        ensures
            f.spec_get() == initial,
    {
        Flag { inner: initial }
    }

    /// Overwrite the flag.
    pub fn set(&mut self, value: bool)
        ensures
            final(self).spec_get() == value,
    {
        self.inner = value;
    }

    /// Read the flag.
    pub fn get(&self) -> (b: bool)
        ensures
            b == self.spec_get(),
    {
        self.inner
    }

    /// Flip the flag and return the new value.
    pub fn toggle(&mut self) -> (b: bool)
        ensures
            final(self).spec_get() == !old(self).spec_get(),
            b == final(self).spec_get(),
    {
        self.inner = !self.inner;
        self.inner
    }
}

} // verus!
