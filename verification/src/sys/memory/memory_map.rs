use vstd::prelude::*;

verus! {

/// Memory map entry type of a region that is free for the kernel to use.
pub const MEMMAP_USABLE: u64 = 0;

/// Memory map entry type of a reserved region.
pub const MEMMAP_RESERVED: u64 = 1;

/// Memory map entry type of a region reclaimable after the ACPI tables are parsed.
pub const MEMMAP_ACPI_RECLAIMABLE: u64 = 2;

/// Memory map entry type of a region holding the kernel and its modules.
pub const MEMMAP_EXECUTABLE_AND_MODULES: u64 = 6;

/// One entry of the memory map handed over by the bootloader.
#[derive(Debug, Clone, Copy, PartialEq, Eq, Structural)]
pub struct MemoryMapEntry {
    /// Physical base address of the region.
    pub base: u64,
    /// Length of the region in bytes.
    pub length: u64,
    /// Kind of the region (`MEMMAP_USABLE`, `MEMMAP_RESERVED`, ...).
    pub entry_type: u64,
}

impl MemoryMapEntry {
    pub open spec fn is_usable(self) -> bool {
        self.entry_type == MEMMAP_USABLE
    }

    /// Builds an entry.
    pub fn new(base: u64, length: u64, entry_type: u64) -> (r: Self)
        ensures
            r.base == base,
            r.length == length,
            r.entry_type == entry_type,
    {
        MemoryMapEntry { base, length, entry_type }
    }
}

} // verus!
