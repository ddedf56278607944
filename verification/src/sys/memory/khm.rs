//! Kernel Heap Manager: how the kernel heap grows when the heap allocator runs out of memory.
//!
//! The heap is a contiguous range of virtual memory starting at [HEAP_START_VIRT]. On each
//! out-of-memory event it is extended by whole pages, each backed by a fresh 4KiB frame from the
//! physical memory manager and mapped through the virtual memory manager.

use crate::arith::{sat_add, sat_sub};
use crate::sys::memory::pmm::{
    lowest_nonempty, merge_lists, split_lists, Order, PhysMemoryManager, MAX_ORDER,
};
use crate::sys::memory::vmm::map_flags::{MAP_NO_EXECUTE, MAP_PRESENT, MAP_WRITABLE};
use crate::sys::memory::vmm::{LoggedMapper, MapFlags, PageSize, VirtualMapper, VmmError};
use vstd::prelude::*;

verus! {

/// The virtual address where the kernel heap starts, inside the Higher Half, well above the
/// kernel code.
pub const HEAP_START_VIRT: u64 = 0xFFFF_A000_0000_0000;

/// How much memory to map every time the heap runs out of space: 64 KiB (16 pages).
pub const HEAP_EXPANSION_CHUNK: u64 = 0x10000;

/// The number of 4KiB pages mapped for an allocation of `size` bytes: at least a whole
/// expansion chunk, rounded up to whole pages.
pub open spec fn heap_pages_needed(size: nat) -> nat {
    let bytes = if size > HEAP_EXPANSION_CHUNK { size } else { HEAP_EXPANSION_CHUNK as nat };
    ((bytes + 4095) / 4096) as nat
}

/// The flags of heap pages: present, writable, not executable.
pub open spec fn heap_flags() -> MapFlags {
    MapFlags { bits: MAP_PRESENT | MAP_WRITABLE | MAP_NO_EXECUTE }
}

/// The free stacks after one 4KiB allocation (unchanged when the PMM is exhausted).
pub open spec fn alloc_page_lists(lists: Seq<Seq<u64>>) -> Seq<Seq<u64>> {
    let from = lowest_nonempty(lists, 0);
    if from < MAX_ORDER {
        split_lists(lists, lists[from as int].last(), from, 0)
    } else {
        lists
    }
}

/// The physical address a 4KiB allocation hands out.
pub open spec fn alloc_page_addr(lists: Seq<Seq<u64>>) -> u64 {
    lists[lowest_nonempty(lists, 0) as int].last()
}

/// The free stacks after `n` 4KiB allocations.
pub open spec fn alloc_pages_lists(lists: Seq<Seq<u64>>, n: nat) -> Seq<Seq<u64>>
    decreases n,
{
    if n == 0 {
        lists
    } else {
        alloc_page_lists(alloc_pages_lists(lists, (n - 1) as nat))
    }
}

/// A free byte counter after `n` 4KiB allocations.
pub open spec fn alloc_pages_bytes(free: u64, n: nat) -> u64
    decreases n,
{
    if n == 0 {
        free
    } else {
        sat_sub(alloc_pages_bytes(free, (n - 1) as nat) as int, 4096)
    }
}

/// The mappings after the first `n` heap pages from `start` are mapped, the `i`th to the frame of
/// the `i`th allocation.
pub open spec fn heap_mappings(
    m: Map<u64, (u64, PageSize, MapFlags)>,
    lists: Seq<Seq<u64>>,
    start: u64,
    n: nat,
) -> Map<u64, (u64, PageSize, MapFlags)>
    decreases n,
{
    if n == 0 {
        m
    } else {
        let i = (n - 1) as nat;
        heap_mappings(m, lists, start, i).insert(
            sat_add(start as int, (i * 4096) as int),
            (alloc_page_addr(alloc_pages_lists(lists, i)), PageSize::Size4KiB, heap_flags()),
        )
    }
}

/// The mappings asked of the VMM for the first `n` heap pages from `start` when each succeeds:
/// the `i`th page to the frame of the `i`th allocation, 4KiB, with the heap flags.
pub open spec fn heap_attempts(lists: Seq<Seq<u64>>, start: u64, n: nat) -> Seq<
    (u64, u64, PageSize, MapFlags, Result<(), VmmError>),
> {
    Seq::new(
        n,
        |i: int|
            (
                sat_add(start as int, (i * 4096) as int),
                alloc_page_addr(alloc_pages_lists(lists, i as nat)),
                PageSize::Size4KiB,
                heap_flags(),
                Ok::<(), VmmError>(()),
            ),
    )
}

/// The custom handler that expands the kernel heap.
pub struct KernelHeapExpander {
    /// Tracks the current virtual end of the heap.
    pub current_heap_end: u64,
}

impl KernelHeapExpander {
    /// An expander for an empty heap at [HEAP_START_VIRT].
    pub fn new() -> (r: Self)
        ensures
            r.current_heap_end == HEAP_START_VIRT,
    {
        KernelHeapExpander { current_heap_end: HEAP_START_VIRT }
    }

    /// Expands the heap for an allocation of `layout_size` bytes: maps the pages it needs at the
    /// end of the heap, each to a fresh 4KiB frame, and returns the new span `(start, end)` for
    /// the heap allocator to claim.
    ///
    /// Fails when the PMM is exhausted (the pages mapped so far stay mapped) or when the VMM
    /// cannot map a page (that page's frame is given back first). The heap end moves only on
    /// success.
    pub fn handle_oom<M: VirtualMapper>(
        &mut self,
        pmm: &mut PhysMemoryManager,
        vmm: &mut LoggedMapper<M>,
        layout_size: usize,
    ) -> (r: Result<(u64, u64), ()>)
        requires
            old(pmm).wf(),
            layout_size <= 0x7fff_ffff_ffff_ffff,
        ensures
            final(pmm).wf(),
            final(pmm).total_bytes() == old(pmm).total_bytes(),
            final(pmm).hhdm() == old(pmm).hhdm(),
            ({
                let pages = heap_pages_needed(layout_size as nat);
                let lists = old(pmm).free_lists();
                let start = old(self).current_heap_end;
                match r {
                    Ok((span_start, span_end)) => {
                        &&& span_start == start
                        &&& span_end == sat_add(start as int, (pages * 4096) as int)
                        &&& final(self).current_heap_end == span_end
                        &&& final(pmm).free_lists() == alloc_pages_lists(lists, pages)
                        &&& final(pmm).free_bytes() == alloc_pages_bytes(
                            old(pmm).free_bytes(),
                            pages,
                        )
                        &&& final(vmm).mappings() == heap_mappings(
                            old(vmm).mappings(),
                            lists,
                            start,
                            pages,
                        )
                        &&& final(vmm).attempts() == old(vmm).attempts() + heap_attempts(
                            lists,
                            start,
                            pages,
                        )
                        &&& forall|i: nat|
                            i < pages ==> lowest_nonempty(#[trigger] alloc_pages_lists(lists, i), 0)
                                < MAX_ORDER
                    },
                    Err(()) => {
                        &&& final(self).current_heap_end == start
                        &&& exists|k: nat|
                            k < pages && final(vmm).mappings() == heap_mappings(
                                old(vmm).mappings(),
                                lists,
                                start,
                                k,
                            ) && ({
                                // The PMM ran out at the `k`th page...
                                ||| (lowest_nonempty(#[trigger] alloc_pages_lists(lists, k), 0)
                                    == MAX_ORDER && final(pmm).free_lists()
                                    == alloc_pages_lists(lists, k) && final(pmm).free_bytes()
                                    == alloc_pages_bytes(old(pmm).free_bytes(), k)
                                    && final(vmm).attempts() == old(vmm).attempts()
                                    + heap_attempts(lists, start, k))
                                // ...or the VMM failed to map it to the `k`th frame, and the
                                // frame was freed again.
                                ||| ({
                                    let failed = final(vmm).attempts().last().4;
                                    &&& failed is Err
                                    &&& final(vmm).attempts() == (old(vmm).attempts()
                                        + heap_attempts(lists, start, k)).push(
                                        (
                                            sat_add(start as int, (k * 4096) as int),
                                            alloc_page_addr(alloc_pages_lists(lists, k)),
                                            PageSize::Size4KiB,
                                            heap_flags(),
                                            failed,
                                        ),
                                    )
                                    &&& final(pmm).free_lists() == merge_lists(
                                        alloc_pages_lists(lists, k + 1),
                                        alloc_page_addr(alloc_pages_lists(lists, k)),
                                        0,
                                    )
                                    &&& final(pmm).free_bytes() == sat_add(
                                        alloc_pages_bytes(old(pmm).free_bytes(), k + 1) as int,
                                        4096,
                                    )
                                })
                            })
                    },
                }
            }),
    {
        // Expand by HEAP_EXPANSION_CHUNK, unless the allocation is larger.
        let bytes_needed: u64 = if (layout_size as u64) > HEAP_EXPANSION_CHUNK {
            layout_size as u64
        } else {
            HEAP_EXPANSION_CHUNK
        };
        // Round up to the nearest 4KiB page boundary.
        let pages_needed: u64 = (bytes_needed + 4095) / 4096;
        let start_virt = self.current_heap_end;
        let mut mapped_size: u64 = 0;
        let map_flags = MapFlags::present().union(MapFlags::writable()).union(
            MapFlags::no_execute(),
        );
        let ghost lists = pmm.free_lists();
        let ghost free0 = pmm.free_bytes();
        let ghost m0 = vmm.mappings();
        let mut page: u64 = 0;
        // Request physical memory and map it to the virtual heap space.
        while page < pages_needed
            invariant
                pmm.wf(),
                pmm.total_bytes() == old(pmm).total_bytes(),
                pmm.hhdm() == old(pmm).hhdm(),
                lists == old(pmm).free_lists(),
                free0 == old(pmm).free_bytes(),
                m0 == old(vmm).mappings(),
                *self == *old(self),
                start_virt == self.current_heap_end,
                pages_needed == heap_pages_needed(layout_size as nat),
                pages_needed <= 0x8_0000_0000_0001,
                map_flags == heap_flags(),
                page <= pages_needed,
                mapped_size == page * 4096,
                pmm.free_lists() == alloc_pages_lists(lists, page as nat),
                pmm.free_bytes() == alloc_pages_bytes(free0, page as nat),
                vmm.mappings() == heap_mappings(m0, lists, start_virt, page as nat),
                vmm.attempts() == old(vmm).attempts() + heap_attempts(lists, start_virt, page as nat),
                forall|i: nat|
                    i < page ==> lowest_nonempty(#[trigger] alloc_pages_lists(lists, i), 0)
                        < MAX_ORDER,
            decreases pages_needed - page,
        {
            let virt_addr = start_virt.saturating_add(mapped_size);
            let ghost before = pmm.free_lists();
            // Allocate one frame.
            proof {
                crate::sys::memory::pmm::lemma_block_bytes(0);
            }
            let phys_addr = match pmm.allocate(Order::Order4KiB) {
                Ok(addr) => addr,
                Err(_) => {
                    proof {
                        let k = page as nat;
                        assert(lowest_nonempty(alloc_pages_lists(lists, k), 0) == MAX_ORDER);
                        assert(k < heap_pages_needed(layout_size as nat));
                    }
                    return Err(());
                },
            };
            proof {
                assert(before == alloc_pages_lists(lists, page as nat));
                assert(pmm.free_lists() == alloc_pages_lists(lists, (page + 1) as nat));
                assert(phys_addr == alloc_page_addr(alloc_pages_lists(lists, page as nat)));
            }
            // Map it; on failure give the frame back.
            let ghost pre = vmm.attempts();
            let mapped = vmm.map_page(virt_addr, phys_addr, PageSize::Size4KiB, map_flags);
            proof {
                assert(virt_addr == sat_add(start_virt as int, (page * 4096) as int));
            }
            match mapped {
                Ok(()) => {},
                Err(_) => {
                    let _ = pmm.deallocate(phys_addr, Order::Order4KiB);
                    proof {
                        let k = page as nat;
                        assert(lowest_nonempty(alloc_pages_lists(lists, k), 0) < MAX_ORDER);
                        assert(k < heap_pages_needed(layout_size as nat));
                        assert(vmm.attempts().last().4 == mapped);
                    }
                    return Err(());
                },
            }
            proof {
                assert(mapped is Ok);
                assert(mapped->Ok_0 == ());
                assert(heap_attempts(lists, start_virt, (page + 1) as nat) =~= heap_attempts(
                    lists,
                    start_virt,
                    page as nat,
                ).push((virt_addr, phys_addr, PageSize::Size4KiB, map_flags, Ok::<(), VmmError>(()))));
                assert(vmm.attempts() =~= old(vmm).attempts() + heap_attempts(
                    lists,
                    start_virt,
                    (page + 1) as nat,
                ));
            }
            mapped_size = mapped_size.saturating_add(4096);
            page = page + 1;
        }
        // Update the tracking variable.
        self.current_heap_end = self.current_heap_end.saturating_add(mapped_size);
        Ok((start_virt, start_virt.saturating_add(mapped_size)))
    }
}

} // verus!
