//! The kernel's clock: microseconds since boot, never running backwards.

use vstd::prelude::*;

verus! {

/// A monotonic microsecond counter. It holds the latest reading that the
/// clock source has delivered.
pub struct Timer {
    us: usize,
}

impl Timer {
    /// The reading the timer holds, in microseconds since boot.
    pub closed spec fn now(&self) -> usize {
        self.us
    }

    /// A timer at the moment of boot.
    pub fn new() -> (t: Timer)
        ensures
            t.now() == 0,
    {
        Timer { us: 0 }
    }

    /// The current time in microseconds since boot.
    pub fn get_time_us(&self) -> (us: usize)
        ensures
            us == self.now(),
    {
        self.us
    }

    /// Takes in a reading of the clock source. A reading that lies before
    /// the one already held is ignored, so the timer never runs backwards.
    pub fn advance(&mut self, reading: usize)
        ensures
            final(self).now() == if reading > old(self).now() {
                reading
            } else {
                old(self).now()
            },
    {
        if reading > self.us {
            self.us = reading;
        }
    }
}

} // verus!
