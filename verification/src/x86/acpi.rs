//! The ACPI handler of the first interrupt setup: it reaches physical memory through the
//! higher-half direct map.

use vstd::prelude::*;

verus! {

/// Teaches the ACPI parser where physical memory is mapped.
#[derive(Debug, Clone, Copy, PartialEq, Eq, Structural)]
pub struct QuayAcpiHandler {
    // The HHDM offset converts physical addresses to virtual ones.
    hhdm_offset: u64,
}

impl QuayAcpiHandler {
    /// The offset of the higher-half direct map.
    pub closed spec fn offset(&self) -> u64 {
        self.hhdm_offset
    }

    /// A handler for the direct map at `hhdm_offset`.
    pub fn new(hhdm_offset: u64) -> (r: Self)
        ensures
            r.offset() == hhdm_offset,
    {
        Self { hhdm_offset }
    }

    /// The offset of the higher-half direct map.
    pub fn hhdm_offset(&self) -> (r: u64)
        ensures
            r == self.offset(),
    {
        self.hhdm_offset
    }

    /// The virtual address a physical region is mapped at.
    pub fn map_physical_region(&self, physical_address: u64) -> (r: u64)
        requires
            physical_address + self.offset() <= u64::MAX,
        ensures
            r == physical_address + self.offset(),
    {
        physical_address + self.hhdm_offset
    }
}

} // verus!
