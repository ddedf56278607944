//! Calibration of the LAPIC timer against the HPET: how many LAPIC ticks occur in 1ms of
//! real-world time.

use vstd::prelude::*;

verus! {

/// HPET register offset: general capabilities and ID.
pub const HPET_CAPABILITIES: usize = 0x00;

/// HPET register offset: general configuration.
pub const HPET_CONFIGURATION: usize = 0x10;

/// HPET register offset: main counter value.
pub const HPET_MAIN_COUNTER: usize = 0xF0;

/// Ticks per millisecond assumed when the HPET reports no period.
pub const CALIBRATION_FALLBACK_TICKS: u32 = 1_000_000;

/// Femtoseconds in the 10ms the calibration measures.
pub const CALIBRATION_WINDOW_FS: u64 = 10_000_000_000_000;

/// The HPET counter value that marks the end of the 10ms window, for the capabilities register
/// `capabilities`: its upper 32 bits are the counter period in femtoseconds. `None` when the
/// period is 0 (the calibration then falls back to `CALIBRATION_FALLBACK_TICKS`).
pub fn hpet_target_ticks(capabilities: u64) -> (r: Option<u64>)
    ensures
        r == if capabilities >> 32u64 == 0 {
            None::<u64>
        } else {
            Some(CALIBRATION_WINDOW_FS / (capabilities >> 32u64))
        },
{
    let fs_per_tick = capabilities >> 32u64;
    // Prevent a division by zero (which causes a fault).
    if fs_per_tick == 0 {
        return None;
    }
    Some(CALIBRATION_WINDOW_FS / fs_per_tick)
}

/// The LAPIC ticks per millisecond, from the one-shot timer that started at `u32::MAX` and
/// read `timer_current` when the 10ms window ended.
pub fn ticks_per_ms(timer_current: u32) -> (r: u32)
    ensures
        r == (u32::MAX - timer_current) / 10,
{
    let elapsed = u32::MAX - timer_current;
    elapsed / 10
}

/// The calibration's outcome: the measured ticks per millisecond, or the fallback when the
/// HPET reports no period.
pub fn calibration_result(capabilities: u64, timer_current: u32) -> (r: u32)
    ensures
        r == if capabilities >> 32u64 == 0 {
            CALIBRATION_FALLBACK_TICKS
        } else {
            ((u32::MAX - timer_current) / 10) as u32
        },
{
    match hpet_target_ticks(capabilities) {
        None => CALIBRATION_FALLBACK_TICKS,
        Some(_) => ticks_per_ms(timer_current),
    }
}

} // verus!
