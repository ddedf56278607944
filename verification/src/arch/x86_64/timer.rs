//! System tick keeping. The timer interrupt of the bootstrap core counts ticks (one per
//! millisecond); uptime and busy-wait deadlines are derived from the count.

use crate::arith::{sat_add, sat_mul};
use vstd::prelude::*;

verus! {

/// The frequency of the APIC timer in Hz: one tick per millisecond.
pub const TICKS_PER_SECOND: u64 = 1000;

/// The number of ticks since the kernel booted.
pub struct SystemTicks {
    ticks: u64,
}

/// Ticks spanned by a number of milliseconds.
pub open spec fn ticks_for_ms(milliseconds: u64) -> u64 {
    (sat_mul(milliseconds as int, TICKS_PER_SECOND as int) / 1000) as u64
}

impl SystemTicks {
    pub closed spec fn count(&self) -> u64 {
        self.ticks
    }

    /// No tick yet.
    pub fn new() -> (r: Self)
        ensures
            r.count() == 0,
    {
        SystemTicks { ticks: 0 }
    }

    /// A counter that has counted `ticks` ticks.
    pub fn from_count(ticks: u64) -> (r: Self)
        ensures
            r.count() == ticks,
    {
        SystemTicks { ticks }
    }

    /// Counts one tick (wrapping around at `u64::MAX`, as the hardware counter does).
    pub fn increment_system_ticks(&mut self)
        ensures
            final(self).count() == (if old(self).count() == u64::MAX {
                0
            } else {
                old(self).count() + 1
            }),
            final(self).count() == wrapping_step(old(self).count() as int, 0x1_0000_0000_0000_0000),
    {
        self.ticks = self.ticks.wrapping_add(1);
    }

    /// Returns the number of ticks since the kernel booted.
    pub fn get_system_ticks(&self) -> (r: u64)
        ensures
            r == self.count(),
    {
        self.ticks
    }

    /// Returns the system uptime in milliseconds.
    pub fn kernel_uptime_ms(&self) -> (r: u64)
        ensures
            r == ticks_for_ms(self.count()),
    {
        crate::arith::saturating_mul_u64(self.ticks, TICKS_PER_SECOND) / 1000
    }

    /// Starts a busy-wait of `milliseconds` now: returns the tick count at which it ends. The
    /// caller spins while the tick count is below it.
    pub fn spin_delay_ms(&self, milliseconds: u64) -> (target_ticks: u64)
        ensures
            target_ticks == sat_add(self.count() as int, ticks_for_ms(milliseconds) as int),
    {
        let start_ticks = self.ticks;
        let ticks_to_wait = crate::arith::saturating_mul_u64(milliseconds, TICKS_PER_SECOND) / 1000;
        start_ticks.saturating_add(ticks_to_wait)
    }
}

/// A busy-wait that ends at `target_ticks` is over once the tick count reaches it.
pub fn spin_delay_elapsed(now_ticks: u64, target_ticks: u64) -> (r: bool)
    ensures
        r == (now_ticks >= target_ticks),
{
    now_ticks >= target_ticks
}

/// Law: uptime never goes backwards while the tick count grows: more ticks never give fewer
/// milliseconds.
pub proof fn lemma_uptime_monotone(earlier: u64, later: u64)
    requires
        earlier <= later,
    ensures
        ticks_for_ms(earlier) <= ticks_for_ms(later),
{
    assert(earlier * 1000 <= later * 1000) by (nonlinear_arith)
        requires
            earlier <= later,
    ;
    let a = sat_mul(earlier as int, TICKS_PER_SECOND as int) as int;
    let b = sat_mul(later as int, TICKS_PER_SECOND as int) as int;
    assert(a / 1000 <= b / 1000) by (nonlinear_arith)
        requires
            a <= b,
    ;
}

/// One wrapping step of a counter whose values are below `modulus`.
pub open spec fn wrapping_step(count: int, modulus: int) -> int {
    if count == modulus - 1 {
        0
    } else {
        count + 1
    }
}

/// A counter that starts at `start` after `k` wrapping steps.
pub open spec fn after_steps(start: int, k: nat, modulus: int) -> int
    decreases k,
{
    if k == 0 {
        start
    } else {
        wrapping_step(after_steps(start, (k - 1) as nat, modulus), modulus)
    }
}

/// A wrapping counter below `modulus` that counted `k` steps from `start` holds
/// `(start + k) mod modulus`.
pub proof fn lemma_after_steps(start: int, k: nat, modulus: int)
    requires
        modulus > 0,
        0 <= start < modulus,
    ensures
        after_steps(start, k, modulus) == (start + k) % modulus,
    decreases k,
{
    if k == 0 {
        vstd::arithmetic::div_mod::lemma_fundamental_div_mod_converse(start, modulus, 0, start);
    } else {
        lemma_after_steps(start, (k - 1) as nat, modulus);
        let a = start + k - 1;
        vstd::arithmetic::div_mod::lemma_fundamental_div_mod(a, modulus);
        let q = a / modulus;
        let x = a % modulus;
        if x == modulus - 1 {
            assert(a + 1 == (q + 1) * modulus) by (nonlinear_arith)
                requires
                    a == modulus * q + x,
                    x == modulus - 1,
            ;
            vstd::arithmetic::div_mod::lemma_fundamental_div_mod_converse(a + 1, modulus, q + 1, 0);
        } else {
            assert(a + 1 == q * modulus + (x + 1)) by (nonlinear_arith)
                requires
                    a == modulus * q + x,
            ;
            vstd::arithmetic::div_mod::lemma_fundamental_div_mod_converse(a + 1, modulus, q, x + 1);
        }
    }
}

/// Law: after `k` ticks of the system tick counter from `start`, the count is
/// `(start + k) mod 2^64`: each `increment_system_ticks` is one wrapping step.
pub proof fn lemma_system_ticks_after(start: u64, k: nat)
    ensures
        after_steps(start as int, k, 0x1_0000_0000_0000_0000) == (start + k)
            % 0x1_0000_0000_0000_0000,
{
    lemma_after_steps(start as int, k, 0x1_0000_0000_0000_0000);
}

} // verus!
