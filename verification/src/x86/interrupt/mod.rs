//! The interrupt tick counter and the sleep built on it.

pub mod apic;
pub mod timer;

use crate::arch::x86_64::timer::{after_steps, lemma_after_steps, wrapping_step};
use vstd::prelude::*;

verus! {

/// The number of APIC timer interrupts (one per millisecond) since interrupts were enabled.
pub struct InterruptTicks {
    ticks: usize,
}

impl InterruptTicks {
    /// The count.
    pub closed spec fn count(&self) -> usize {
        self.ticks
    }

    /// No tick yet.
    pub fn new() -> (r: Self)
        ensures
            r.count() == 0,
    {
        InterruptTicks { ticks: 0 }
    }

    /// Counts one timer interrupt (wrapping around at `usize::MAX`, like an atomic add).
    pub fn tick(&mut self)
        ensures
            final(self).count() == if old(self).count() == usize::MAX {
                0
            } else {
                old(self).count() + 1
            },
            final(self).count() == wrapping_step(old(self).count() as int, usize::MAX + 1),
    {
        self.ticks = self.ticks.wrapping_add(1);
    }

    /// Returns the number of milliseconds since the kernel enabled interrupts.
    pub fn uptime_ms(&self) -> (r: usize)
        ensures
            r == self.count(),
    {
        self.ticks
    }

    /// Starts a blocking sleep of `ms` milliseconds now: returns the uptime at which it ends.
    /// The caller halts until the next tick while the uptime is below it.
    pub fn sleep_ms(&self, ms: usize) -> (wake_time: usize)
        requires
            self.count() + ms <= usize::MAX,
        ensures
            wake_time == self.count() + ms,
    {
        let start_time = self.uptime_ms();
        start_time + ms
    }
}

/// A sleep that ends at `wake_time` is over once the uptime reaches it.
pub fn sleep_over(uptime: usize, wake_time: usize) -> (r: bool)
    ensures
        r == (uptime >= wake_time),
{
    uptime >= wake_time
}

/// Law: after `k` timer interrupts from an uptime of `start` milliseconds, the uptime is
/// `(start + k) mod (usize::MAX + 1)`: each `tick` is one wrapping step.
pub proof fn lemma_uptime_after_ticks(start: usize, k: nat)
    ensures
        after_steps(start as int, k, usize::MAX + 1) == (start + k) % (usize::MAX + 1),
{
    lemma_after_steps(start as int, k, usize::MAX + 1);
}

} // verus!
