//! The ACPI handler: teaches the ACPI parser how to reach physical memory. The bootloader maps
//! all physical memory at the HHDM offset, so the handler just adds it.

use crate::arch::x86_64::timer::{ticks_for_ms, SystemTicks};
use crate::arith::{sat_add, sat_mul, sat_sub};
use vstd::prelude::*;

verus! {

/// Nanoseconds per system tick (one tick per millisecond).
pub const NANOS_PER_TICK: u64 = 1_000_000;

/// ACPI Handler is used to interact with the ACPI standard.
#[derive(Debug, Clone, Copy, PartialEq, Eq, Structural)]
pub struct QuayAcpiHandler {
    hhdm_offset: u64,
}

impl QuayAcpiHandler {
    /// The offset of the higher-half direct map.
    pub closed spec fn offset(&self) -> u64 {
        self.hhdm_offset
    }

    /// A handler for the direct map at `hhdm_offset`.
    pub fn new(hhdm_offset: u64) -> (r: Self)
        ensures
            r.offset() == hhdm_offset,
    {
        Self { hhdm_offset }
    }

    /// The offset of the higher-half direct map.
    pub fn hhdm_offset(&self) -> (r: u64)
        ensures
            r == self.offset(),
    {
        self.hhdm_offset
    }

    /// The physical address of the RSDP, from its virtual address in the direct map
    /// (saturating at 0).
    pub fn rsdp_physical_address(&self, rsdp_address: u64) -> (r: u64)
        ensures
            r == sat_sub(rsdp_address as int, self.offset() as int),
    {
        rsdp_address.saturating_sub(self.hhdm_offset)
    }

    /// The virtual start of the mapping of a physical region.
    pub fn map_physical_region(&self, physical_address: u64) -> (r: u64)
        requires
            physical_address + self.offset() <= u64::MAX,
        ensures
            r == physical_address + self.offset(),
    {
        physical_address + self.hhdm_offset
    }

    /// The virtual address a register access at physical `address` goes to (saturating).
    pub fn virtual_address(&self, address: u64) -> (r: u64)
        ensures
            r == sat_add(address as int, self.offset() as int),
    {
        address.saturating_add(self.hhdm_offset)
    }

    /// Nanoseconds since boot, as the system tick count gives them (saturating).
    pub fn nanos_since_boot(&self, ticks: &SystemTicks) -> (r: u64)
        ensures
            r == sat_mul(ticks.count() as int, NANOS_PER_TICK as int),
    {
        crate::arith::saturating_mul_u64(ticks.get_system_ticks(), NANOS_PER_TICK)
    }

    /// Starts a stall: the tick count at which it ends. The time driver has millisecond
    /// resolution, so every stall lasts one millisecond.
    pub fn stall(&self, ticks: &SystemTicks, _microseconds: u64) -> (target_ticks: u64)
        ensures
            target_ticks == sat_add(ticks.count() as int, ticks_for_ms(1) as int),
    {
        ticks.spin_delay_ms(1)
    }

    /// Starts a sleep of `milliseconds`: the tick count at which it ends.
    pub fn sleep(&self, ticks: &SystemTicks, milliseconds: u64) -> (target_ticks: u64)
        ensures
            target_ticks == sat_add(ticks.count() as int, ticks_for_ms(milliseconds) as int),
    {
        ticks.spin_delay_ms(milliseconds)
    }
}

} // verus!
