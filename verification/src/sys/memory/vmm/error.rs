use crate::sys::memory::pmm::PmmError;
use vstd::prelude::*;

verus! {

/// Errors reported by the virtual memory manager.
#[derive(Debug, Clone, Copy, PartialEq, Eq)]
pub enum VmmError {
    /// The virtual address is already mapped to another physical frame.
    AlreadyMapped(u64),
    /// The virtual address is not mapped.
    NotMapped(u64),
    /// The requested page size is not supported by the hardware.
    UnsupportedPageSize,
    /// Page table allocation failed due to a PMM error.
    PageTableAllocationFailed(PmmError),
    /// Hardware mapping failure, with its description.
    HardwareFault(&'static str),
}

impl VmmError {
    /// Wraps a PMM error: a page table could not be allocated.
    pub fn from_pmm_error(error: PmmError) -> (r: Self)
        ensures
            r == VmmError::PageTableAllocationFailed(error),
    {
        VmmError::PageTableAllocationFailed(error)
    }
}

} // verus!
