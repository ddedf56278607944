use vstd::prelude::*;

verus! {

/// Errors reported by the physical memory manager.
#[derive(Debug, Clone, Copy, PartialEq, Eq, Structural)]
pub enum PmmError {
    /// Out of physical memory: requested order.
    OutOfMemory(usize),
    /// Requested allocation order exceeds the maximum supported order.
    OrderTooLarge(usize, usize),
    /// Attempted to free an unaligned physical address for the given order.
    UnalignedFree(u64, usize),
}

} // verus!
