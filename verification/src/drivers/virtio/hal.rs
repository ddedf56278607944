//! The part of the VirtIO hardware abstraction layer that keeps the frame allocator's books.

use crate::memory::pmm::BitmapPMM;
use vstd::prelude::*;

verus! {

/// Bytes of a DMA page.
pub const DMA_PAGE_SIZE: u64 = 4096;

/// The used-flags after the frames `first .. first + count` are freed.
pub open spec fn frames_freed(frames: Seq<bool>, first: int, count: int) -> Seq<bool> {
    Seq::new(frames.len(), |f: int| if first <= f < first + count { false } else { frames[f] })
}

/// Hardware Abstraction Layer for VirtIO drivers in Quay.
pub struct QuayVirtIoHal;

impl QuayVirtIoHal {
    /// Gives the `pages` DMA pages from `paddr` on back to the frame allocator. Returns 0, the
    /// HAL's success code.
    pub fn dma_dealloc(pmm: &mut BitmapPMM, paddr: u64, pages: usize) -> (r: i32)
        requires
            old(pmm).wf(),
            paddr + pages * DMA_PAGE_SIZE <= u64::MAX,
            paddr / 4096 + pages <= old(pmm).frames().len(),
        ensures
            r == 0,
            final(pmm).wf(),
            final(pmm).total_count() == old(pmm).total_count(),
            final(pmm).frames() == frames_freed(
                old(pmm).frames(),
                (paddr / 4096) as int,
                pages as int,
            ),
    {
        let ghost first = (paddr / 4096) as int;
        let mut i: usize = 0;
        while i < pages
            invariant
                i <= pages,
                pmm.wf(),
                pmm.total_count() == old(pmm).total_count(),
                pmm.frames() == frames_freed(old(pmm).frames(), first, i as int),
                first == paddr / 4096,
                paddr + pages * DMA_PAGE_SIZE <= u64::MAX,
                first + pages <= old(pmm).frames().len(),
            decreases pages - i,
        {
            proof {
                assert(i * 4096 <= pages * 4096) by (nonlinear_arith)
                    requires
                        i <= pages,
                ;
                assert((paddr + i * 4096) / 4096 == first + i) by (nonlinear_arith)
                    requires
                        first == paddr / 4096,
                        i >= 0,
                ;
            }
            let frame_addr = paddr + (i as u64) * DMA_PAGE_SIZE;
            let ghost before = pmm.frames();
            pmm.deallocate_frame(frame_addr);
            proof {
                let f = first + i;
                assert(pmm.frames() =~= frames_freed(old(pmm).frames(), first, i + 1)) by {
                    if before[f] {
                        assert(pmm.frames() == before.update(f, false));
                    } else {
                        assert(pmm.frames() == before);
                    }
                }
            }
            i = i + 1;
        }
        0
    }

    /// The virtual address of an MMIO region at physical address `paddr` in the direct map.
    pub fn mmio_phys_to_virt(paddr: u64, hhdm_offset: u64) -> (r: u64)
        requires
            paddr + hhdm_offset <= u64::MAX,
        ensures
            r == paddr + hhdm_offset,
    {
        paddr + hhdm_offset
    }
}

} // verus!
