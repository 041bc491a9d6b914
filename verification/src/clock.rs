//! Time, in nanoseconds since some fixed moment.

use vstd::prelude::*;

verus! {

/// A source of time.
pub trait Clock: Send + Sync {
    /// The time now.
    fn now(&self) -> u64;
}

/// A clock that is set by hand.
#[derive(Debug)]
pub struct MockClock {
    inner: u64,
}

impl View for MockClock {
    type V = u64;

    closed spec fn view(&self) -> u64 {
        self.inner
    }
}

impl MockClock {
    /// A clock at zero.
    pub fn new() -> (c: Self)
        ensures
            c@ == 0,
    {
        MockClock { inner: 0 }
    }

    /// Moves the clock on.
    pub fn advance(&mut self, by: u64)
        requires
            old(self)@ + by <= u64::MAX,
        ensures
            final(self)@ == old(self)@ + by,
    {
        self.inner = self.inner + by;
    }
}

impl Default for MockClock {
    fn default() -> (c: Self)
        ensures
            c@ == 0,
    {
        MockClock::new()
    }
}

impl Clock for MockClock {
    fn now(&self) -> (r: u64)
        ensures
            r == self@,
    {
        self.inner
    }
}

} // verus!
