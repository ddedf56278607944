//! The decisions of the x86_64 page mapper: how generic mapping flags become page table entry
//! flags, and how the page table walker's failures become [VmmError]s.

use crate::arith::{sat_add, sat_sub};
use crate::sys::memory::pmm::{
    aligned_to, block_bytes, lowest_nonempty, merge_lists, split_lists, Order, PhysMemoryManager,
    PmmError,
    MAX_ORDER,
};
use crate::sys::memory::vmm::map_flags::{
    MAP_NO_CACHE, MAP_NO_EXECUTE, MAP_PRESENT, MAP_USER, MAP_WRITABLE,
};
use crate::sys::memory::vmm::{MapFlags, PageSize, VmmError};
use vstd::prelude::*;

verus! {

/// Page table entry bit: the page is present.
pub const PTE_PRESENT: u64 = 0x1;

/// Page table entry bit: the page is writable.
pub const PTE_WRITABLE: u64 = 0x2;

/// Page table entry bit: the page is accessible from user mode.
pub const PTE_USER_ACCESSIBLE: u64 = 0x4;

/// Page table entry bit: writes go through the cache to memory.
pub const PTE_WRITE_THROUGH: u64 = 0x8;

/// Page table entry bit: the page is not cached.
pub const PTE_NO_CACHE: u64 = 0x10;

/// Page table entry bit: instructions may not be fetched from the page.
pub const PTE_NO_EXECUTE: u64 = 0x8000000000000000;

/// The page table entry flags for a set of generic mapping flags: present, writable,
/// user-accessible and no-execute carry over one to one, and no-cache sets both the no-cache and
/// the write-through bits.
pub open spec fn pte_flags_for(flags: MapFlags) -> u64 {
    (if flags@ & MAP_PRESENT != 0 { PTE_PRESENT } else { 0 }) | (if flags@ & MAP_WRITABLE != 0 {
        PTE_WRITABLE
    } else {
        0
    }) | (if flags@ & MAP_USER != 0 { PTE_USER_ACCESSIBLE } else { 0 }) | (if flags@
        & MAP_NO_EXECUTE != 0 {
        PTE_NO_EXECUTE
    } else {
        0
    }) | (if flags@ & MAP_NO_CACHE != 0 { PTE_NO_CACHE | PTE_WRITE_THROUGH } else { 0 })
}

/// Translates the generic mapping flags to x86_64 page table entry flags.
pub fn translate_map_flags(flags: MapFlags) -> (r: u64)
    ensures
        r == pte_flags_for(flags),
{
    let b = flags.bits();
    proof {
        assert((b & 1u64 == 1u64) == (b & 1u64 != 0)) by (bit_vector);
        assert((b & 2u64 == 2u64) == (b & 2u64 != 0)) by (bit_vector);
        assert((b & 4u64 == 4u64) == (b & 4u64 != 0)) by (bit_vector);
        assert((b & 8u64 == 8u64) == (b & 8u64 != 0)) by (bit_vector);
        assert((b & 16u64 == 16u64) == (b & 16u64 != 0)) by (bit_vector);
    }
    // Translate each generic flag to its x86 flag.
    let present = if flags.contains(MapFlags::present()) { PTE_PRESENT } else { 0 };
    let writable = if flags.contains(MapFlags::writable()) { PTE_WRITABLE } else { 0 };
    let user = if flags.contains(MapFlags::user()) { PTE_USER_ACCESSIBLE } else { 0 };
    let no_execute = if flags.contains(MapFlags::no_execute()) { PTE_NO_EXECUTE } else { 0 };
    let no_cache = if flags.contains(MapFlags::no_cache()) {
        PTE_NO_CACHE | PTE_WRITE_THROUGH
    } else {
        0
    };
    present | writable | user | no_execute | no_cache
}

/// Law: each generic flag decides its own page table bits and no other: the present, writable,
/// user and no-execute bits are set exactly when the matching flag is, the no-cache and
/// write-through bits exactly when no-cache is, and no other bit is ever set.
pub proof fn lemma_map_flags_independent(flags: MapFlags)
    ensures
        (pte_flags_for(flags) & PTE_PRESENT != 0) == (flags@ & MAP_PRESENT != 0),
        (pte_flags_for(flags) & PTE_WRITABLE != 0) == (flags@ & MAP_WRITABLE != 0),
        (pte_flags_for(flags) & PTE_USER_ACCESSIBLE != 0) == (flags@ & MAP_USER != 0),
        (pte_flags_for(flags) & PTE_NO_EXECUTE != 0) == (flags@ & MAP_NO_EXECUTE != 0),
        (pte_flags_for(flags) & PTE_NO_CACHE != 0) == (flags@ & MAP_NO_CACHE != 0),
        (pte_flags_for(flags) & PTE_WRITE_THROUGH != 0) == (flags@ & MAP_NO_CACHE != 0),
        pte_flags_for(flags) & !(PTE_PRESENT | PTE_WRITABLE | PTE_USER_ACCESSIBLE
            | PTE_WRITE_THROUGH | PTE_NO_CACHE | PTE_NO_EXECUTE) == 0,
{
    let b = flags@;
    let p = pte_flags_for(flags);
    assert({
        &&& (p & PTE_PRESENT != 0) == (b & MAP_PRESENT != 0)
        &&& (p & PTE_WRITABLE != 0) == (b & MAP_WRITABLE != 0)
        &&& (p & PTE_USER_ACCESSIBLE != 0) == (b & MAP_USER != 0)
        &&& (p & PTE_NO_EXECUTE != 0) == (b & MAP_NO_EXECUTE != 0)
        &&& (p & PTE_NO_CACHE != 0) == (b & MAP_NO_CACHE != 0)
        &&& (p & PTE_WRITE_THROUGH != 0) == (b & MAP_NO_CACHE != 0)
        &&& p & !(PTE_PRESENT | PTE_WRITABLE | PTE_USER_ACCESSIBLE | PTE_WRITE_THROUGH
            | PTE_NO_CACHE | PTE_NO_EXECUTE) == 0
    }) by (bit_vector)
        requires
            p == (if b & MAP_PRESENT != 0 { PTE_PRESENT } else { 0 }) | (if b & MAP_WRITABLE != 0 {
                PTE_WRITABLE
            } else {
                0
            }) | (if b & MAP_USER != 0 { PTE_USER_ACCESSIBLE } else { 0 }) | (if b
                & MAP_NO_EXECUTE != 0 {
                PTE_NO_EXECUTE
            } else {
                0
            }) | (if b & MAP_NO_CACHE != 0 { PTE_NO_CACHE | PTE_WRITE_THROUGH } else { 0 }),
    ;
}

/// The flags of every MMIO mapping (present, writable, uncached) become a present, writable,
/// uncached and write-through page table entry.
pub proof fn lemma_mmio_flags_translation()
    ensures
        pte_flags_for(MapFlags { bits: MAP_PRESENT | MAP_WRITABLE | MAP_NO_CACHE }) == PTE_PRESENT
            | PTE_WRITABLE | PTE_NO_CACHE | PTE_WRITE_THROUGH,
{
    let b = MAP_PRESENT | MAP_WRITABLE | MAP_NO_CACHE;
    let p = pte_flags_for(MapFlags { bits: b });
    assert(p == PTE_PRESENT | PTE_WRITABLE | PTE_NO_CACHE | PTE_WRITE_THROUGH) by (bit_vector)
        requires
            b == MAP_PRESENT | MAP_WRITABLE | MAP_NO_CACHE,
            p == (if b & MAP_PRESENT != 0 { PTE_PRESENT } else { 0 }) | (if b & MAP_WRITABLE != 0 {
                PTE_WRITABLE
            } else {
                0
            }) | (if b & MAP_USER != 0 { PTE_USER_ACCESSIBLE } else { 0 }) | (if b
                & MAP_NO_EXECUTE != 0 {
                PTE_NO_EXECUTE
            } else {
                0
            }) | (if b & MAP_NO_CACHE != 0 { PTE_NO_CACHE | PTE_WRITE_THROUGH } else { 0 }),
    ;
}

/// A bridge from the platform-agnostic PMM to the frame requests of the page table code.
pub struct X86FrameAllocator;

impl X86FrameAllocator {
    /// Allocates a frame of the size of `order` from the PMM: its physical start address, or
    /// `None` when the PMM is out of memory.
    pub fn allocate_frame(&mut self, pmm: &mut PhysMemoryManager, order: Order) -> (r: Option<
        u64,
    >)
        requires
            old(pmm).wf(),
        ensures
            final(pmm).wf(),
            final(pmm).hhdm() == old(pmm).hhdm(),
            final(pmm).total_bytes() == old(pmm).total_bytes(),
            r matches Some(addr) ==> aligned_to(addr, order.number()),
            ({
                let lists = old(pmm).free_lists();
                let o = order.number();
                let from = lowest_nonempty(lists, o);
                match r {
                    Some(addr) => {
                        &&& from < MAX_ORDER
                        &&& addr == lists[from as int].last()
                        &&& final(pmm).free_lists() == split_lists(lists, addr, from, o)
                        &&& final(pmm).free_bytes() == sat_sub(
                            old(pmm).free_bytes() as int,
                            block_bytes(o) as int,
                        )
                    },
                    None => {
                        &&& from == MAX_ORDER
                        &&& final(pmm).free_lists() == lists
                        &&& final(pmm).free_bytes() == old(pmm).free_bytes()
                    },
                }
            }),
    {
        match pmm.allocate(order) {
            Ok(phys_addr) => Some(phys_addr),
            Err(_) => None,
        }
    }

    /// Gives the frame of the size of `order` at `phys_start` back to the PMM; the PMM refuses
    /// (and keeps its state) a start that is not aligned to the frame size.
    pub fn deallocate_frame(&mut self, pmm: &mut PhysMemoryManager, phys_start: u64, order: Order)
        requires
            old(pmm).wf(),
        ensures
            final(pmm).wf(),
            aligned_to(phys_start, order.number()) ==> final(pmm).free_lists() == merge_lists(
                old(pmm).free_lists(),
                phys_start,
                order.number(),
            ),
            aligned_to(phys_start, order.number()) ==> final(pmm).free_bytes() == sat_add(
                old(pmm).free_bytes() as int,
                block_bytes(order.number()) as int,
            ),
            !aligned_to(phys_start, order.number()) ==> final(pmm).free_lists() == old(
                pmm,
            ).free_lists() && final(pmm).free_bytes() == old(pmm).free_bytes(),
            final(pmm).hhdm() == old(pmm).hhdm(),
            final(pmm).total_bytes() == old(pmm).total_bytes(),
    {
        let _ = pmm.deallocate(phys_start, order);
    }
}

/// How mapping a page failed, as the page table walker reports it.
#[derive(Debug, Clone, Copy, PartialEq, Eq, Structural)]
pub enum MapFailure {
    /// The page is already mapped.
    PageAlreadyMapped,
    /// A page table frame could not be allocated.
    FrameAllocationFailed,
    /// A parent entry maps a huge page.
    ParentEntryHugePage,
}

/// How unmapping a page failed, as the page table walker reports it.
#[derive(Debug, Clone, Copy, PartialEq, Eq, Structural)]
pub enum UnmapFailure {
    /// The page is not mapped.
    PageNotMapped,
    /// A parent entry maps a huge page.
    ParentEntryHugePage,
    /// The page table points to an invalid physical address.
    InvalidFrameAddress,
}

/// What a page table walk found for a virtual address.
#[derive(Debug, Clone, Copy, PartialEq, Eq, Structural)]
pub enum Translation {
    /// Mapped by a page of the given size.
    Mapped(PageSize),
    /// Not mapped.
    NotMapped,
    /// The walk met an invalid physical frame.
    InvalidFrameAddress,
}

/// Converts a mapping failure to a VMM error.
pub fn handle_map_error(virt_addr: u64, error: MapFailure) -> (r: VmmError)
    ensures
        r == match error {
            MapFailure::PageAlreadyMapped => VmmError::AlreadyMapped(virt_addr),
            MapFailure::FrameAllocationFailed => VmmError::PageTableAllocationFailed(
                PmmError::OutOfMemory(0),
            ),
            MapFailure::ParentEntryHugePage => VmmError::HardwareFault(
                "Cannot map a 4K page inside an existing 2M/1G huge page",
            ),
        },
{
    match error {
        MapFailure::PageAlreadyMapped => VmmError::AlreadyMapped(virt_addr),
        MapFailure::FrameAllocationFailed => VmmError::PageTableAllocationFailed(
            PmmError::OutOfMemory(0),
        ),
        MapFailure::ParentEntryHugePage => VmmError::HardwareFault(
            "Cannot map a 4K page inside an existing 2M/1G huge page",
        ),
    }
}

/// Converts an unmapping failure to a VMM error.
pub fn handle_unmap_error(virt_addr: u64, error: UnmapFailure) -> (r: VmmError)
    ensures
        r == match error {
            UnmapFailure::PageNotMapped => VmmError::NotMapped(virt_addr),
            UnmapFailure::ParentEntryHugePage => VmmError::HardwareFault(
                "Attempted to unmap a 4K page, but parent is a huge page",
            ),
            UnmapFailure::InvalidFrameAddress => VmmError::HardwareFault(
                "Page table points to an invalid physical address",
            ),
        },
{
    match error {
        UnmapFailure::PageNotMapped => VmmError::NotMapped(virt_addr),
        UnmapFailure::ParentEntryHugePage => VmmError::HardwareFault(
            "Attempted to unmap a 4K page, but parent is a huge page",
        ),
        UnmapFailure::InvalidFrameAddress => VmmError::HardwareFault(
            "Page table points to an invalid physical address",
        ),
    }
}

/// Decides how to unmap a virtual address from what the page table walk found: when it is
/// mapped, the page of the size found that contains it is unmapped, so that page's start and
/// size are returned; otherwise the error to report.
pub fn plan_unmap(virt_addr: u64, translation: Translation) -> (r: Result<(u64, PageSize), VmmError>)
    ensures
        r == match translation {
            Translation::Mapped(size) => Ok(
                ((virt_addr as int - (virt_addr as int) % (size.bytes() as int)) as u64, size),
            ),
            Translation::NotMapped => Err(VmmError::NotMapped(virt_addr)),
            Translation::InvalidFrameAddress => Err(
                VmmError::HardwareFault(
                    "Hardware translation encountered an invalid physical frame",
                ),
            ),
        },
{
    match translation {
        Translation::Mapped(size) => {
            let page_bytes: u64 = match size {
                PageSize::Size4KiB => 0x1000,
                PageSize::Size2MiB => 0x20_0000,
                PageSize::Size1GiB => 0x4000_0000,
            };
            Ok((virt_addr - virt_addr % page_bytes, size))
        },
        Translation::NotMapped => Err(VmmError::NotMapped(virt_addr)),
        Translation::InvalidFrameAddress => Err(
            VmmError::HardwareFault("Hardware translation encountered an invalid physical frame"),
        ),
    }
}

/// The result of unmapping a page: the physical start address of the frame it mapped, or the
/// unmapping failure converted to a VMM error.
pub fn unmap_page(virt_addr: u64, result: Result<u64, UnmapFailure>) -> (r: Result<u64, VmmError>)
    ensures
        r == match result {
            Ok(phys) => Ok(phys),
            Err(e) => Err(handle_unmap_error_spec(virt_addr, e)),
        },
{
    match result {
        Ok(phys) => Ok(phys),
        Err(error) => Err(handle_unmap_error(virt_addr, error)),
    }
}

/// The VMM error reported for an unmapping failure.
pub open spec fn handle_unmap_error_spec(virt_addr: u64, error: UnmapFailure) -> VmmError {
    match error {
        UnmapFailure::PageNotMapped => VmmError::NotMapped(virt_addr),
        UnmapFailure::ParentEntryHugePage => VmmError::HardwareFault(
            "Attempted to unmap a 4K page, but parent is a huge page",
        ),
        UnmapFailure::InvalidFrameAddress => VmmError::HardwareFault(
            "Page table points to an invalid physical address",
        ),
    }
}

} // verus!
