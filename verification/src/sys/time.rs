//! Architecture-agnostic time subsystem: the kernel's timekeeper.
//!
//! A hardware timer (like the x86_64 TSC) is registered once during boot; the rest of the kernel
//! asks the timekeeper for the time without knowing the hardware.

use crate::hal::timer::SystemTimer;
use vstd::prelude::*;

verus! {

/// The timer a timekeeper holds after `timer` is registered with it while it held `active`:
/// the first registration wins.
pub open spec fn after_registration<T>(active: Option<T>, timer: T) -> Option<T> {
    if active is None {
        Some(timer)
    } else {
        active
    }
}

/// Law: only the first registration counts. Registering `first` and then `second` with an
/// empty timekeeper leaves `first` in charge.
pub proof fn lemma_first_registration_wins<T>(first: T, second: T)
    ensures
        after_registration(after_registration(None, first), second) == Some(first),
{
}

/// Holds the system timer once one is registered.
pub struct TimeKeeper<T> {
    timer: Option<T>,
}

impl<T: SystemTimer> TimeKeeper<T> {
    /// The registered timer, if any.
    pub closed spec fn active(&self) -> Option<T> {
        self.timer
    }

    /// A timekeeper with no timer yet.
    pub fn new() -> (r: Self)
        ensures
            r.active() is None,
    {
        TimeKeeper { timer: None }
    }

    /// Registers a hardware timer as the official system timekeeper. Only the first
    /// registration counts: later ones are ignored.
    pub fn register_timer(&mut self, timer: T)
        ensures
            final(self).active() == after_registration(old(self).active(), timer),
    {
        if self.timer.is_none() {
            self.timer = Some(timer);
        }
    }

    /// Returns true if the system timer is ready to be read.
    pub fn is_ready(&self) -> (r: bool)
        ensures
            r == self.active() is Some,
    {
        self.timer.is_some()
    }

    /// Returns the number of nanoseconds elapsed since the system booted, as the registered
    /// timer reports it: a value that the registered timer's `nanos_since_boot` returns.
    pub fn nanos_since_boot(&self) -> (r: u64)
        requires
            self.active() is Some,
        ensures
            call_ensures(T::nanos_since_boot, (&self.active()->0,), r),
    {
        match &self.timer {
            Some(timer) => {
                let read_timer = T::nanos_since_boot;
                read_timer(timer)
            },
            None => 0,
        }
    }

    /// Stalls the CPU for a given number of microseconds with the registered timer: its
    /// `stall_us` is called with the same argument, and has returned.
    pub fn stall_us(&self, microseconds: u64)
        requires
            self.active() is Some,
        ensures
            call_ensures(T::stall_us, (&self.active()->0, microseconds), ()),
    {
        if let Some(timer) = &self.timer {
            let stall = T::stall_us;
            stall(timer, microseconds);
        }
    }

    /// Sleeps for a given number of milliseconds with the registered timer: its `sleep_ms` is
    /// called with the same argument, and has returned.
    pub fn sleep_ms(&self, milliseconds: u64)
        requires
            self.active() is Some,
        ensures
            call_ensures(T::sleep_ms, (&self.active()->0, milliseconds), ()),
    {
        if let Some(timer) = &self.timer {
            let sleep = T::sleep_ms;
            sleep(timer, milliseconds);
        }
    }
}

} // verus!
