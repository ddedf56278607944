//! The Virtual Memory Manager (VMM) interface with MMIO utilities.
//!
//! The mapping itself is done by an architecture's implementation of [VirtualMapper]; this module
//! decides which pages to map.

pub mod error;
pub mod logged;
pub mod map_flags;
pub mod page_size;

pub use error::VmmError;
pub use logged::LoggedMapper;
pub use map_flags::MapFlags;
pub use page_size::PageSize;

use crate::arith::sat_add;
use crate::sys::memory::pmm::DEFAULT_PAGE_SIZE;
use map_flags::{MAP_NO_CACHE, MAP_PRESENT, MAP_WRITABLE};
use vstd::prelude::*;

verus! {

/// Core trait that every architecture (x86, ARM, RISC-V) implements.
pub trait VirtualMapper {
    /// Maps a physical address to a virtual address with specific flags and size.
    fn map_page(&mut self, virt_addr: u64, phys_addr: u64, size: PageSize, flags: MapFlags) -> Result<
        (),
        VmmError,
    >;

    /// Unmaps a virtual address, returning the physical address it was pointing to.
    fn unmap_page(&mut self, virt_addr: u64) -> Result<u64, VmmError>;
}

/// Size of a big page (2MiB).
pub const BIG_PAGE_SIZE: u64 = 0x200000;

/// The pages `(physical address, size)` used to map `[cur, end)`: at each step a 2MiB page when
/// the address is 2MiB aligned and at least 2MiB remain, a 4KiB page otherwise.
pub open spec fn mmio_chunks(cur: int, end: int) -> Seq<(u64, PageSize)>
    decreases (if cur < end {
        end - cur
    } else {
        0
    }),
{
    if cur >= end || cur < 0 || cur >= u64::MAX {
        Seq::empty()
    } else {
        let size = if cur % 0x200000 == 0 && end - cur >= 0x200000 {
            PageSize::Size2MiB
        } else {
            PageSize::Size4KiB
        };
        seq![(cur as u64, size)] + mmio_chunks(sat_add(cur, size.bytes() as int) as int, end)
    }
}

/// The flags of MMIO mappings: present, writable and uncached.
pub open spec fn mmio_flags() -> MapFlags {
    MapFlags { bits: MAP_PRESENT | MAP_WRITABLE | MAP_NO_CACHE }
}

/// The mappings after the given MMIO pages are mapped, in order, each at its physical address
/// plus the HHDM offset.
pub open spec fn insert_mmio(
    m: Map<u64, (u64, PageSize, MapFlags)>,
    chunks: Seq<(u64, PageSize)>,
    hhdm_offset: u64,
) -> Map<u64, (u64, PageSize, MapFlags)>
    decreases chunks.len(),
{
    if chunks.len() == 0 {
        m
    } else {
        let c = chunks.last();
        insert_mmio(m, chunks.drop_last(), hhdm_offset).insert(
            sat_add(c.0 as int, hhdm_offset as int),
            (c.0, c.1, mmio_flags()),
        )
    }
}

/// The mappings asked of the mapper for the given MMIO pages when each succeeds: each page at
/// its physical address plus the HHDM offset, with the MMIO flags.
pub open spec fn mmio_attempts(chunks: Seq<(u64, PageSize)>, hhdm_offset: u64) -> Seq<
    (u64, u64, PageSize, MapFlags, Result<(), VmmError>),
> {
    chunks.map_values(
        |c: (u64, PageSize)|
            (sat_add(c.0 as int, hhdm_offset as int), c.0, c.1, mmio_flags(), Ok::<(), VmmError>(())),
    )
}

/// Maps a block of physical MMIO memory into the HHDM, using 2MiB pages where the alignment and
/// the remaining size permit it. Stops at the first page the mapper fails to map and returns
/// its error.
pub fn map_mmio_range<M: VirtualMapper>(
    mapper: &mut LoggedMapper<M>,
    phys_addr: u64,
    size_bytes: u64,
    hhdm_offset: u64,
) -> (r: Result<(), VmmError>)
    ensures
        ({
            let chunks = mmio_chunks(phys_addr as int, sat_add(phys_addr as int, size_bytes as int) as int);
            match r {
                Ok(()) => {
                    &&& final(mapper).mappings() == insert_mmio(
                        old(mapper).mappings(),
                        chunks,
                        hhdm_offset,
                    )
                    &&& final(mapper).attempts() == old(mapper).attempts() + mmio_attempts(
                        chunks,
                        hhdm_offset,
                    )
                },
                Err(e) => final(mapper).last_map_error() == Some(e) && exists|k: int|
                    0 <= k < chunks.len() && final(mapper).mappings() == insert_mmio(
                        old(mapper).mappings(),
                        #[trigger] chunks.take(k),
                        hhdm_offset,
                    ) && final(mapper).attempts() == (old(mapper).attempts() + mmio_attempts(
                        chunks.take(k),
                        hhdm_offset,
                    )).push(
                        (
                            sat_add(chunks[k].0 as int, hhdm_offset as int),
                            chunks[k].0,
                            chunks[k].1,
                            mmio_flags(),
                            Err::<(), VmmError>(e),
                        ),
                    ),
            }
        }),
{
    let mut current_phys_addr = phys_addr;
    let end_phys_addr = phys_addr.saturating_add(size_bytes);
    // MMIO must always bypass the CPU cache.
    let flags = MapFlags::present().union(MapFlags::writable()).union(MapFlags::no_cache());
    let ghost all = mmio_chunks(phys_addr as int, end_phys_addr as int);
    let ghost mut k: int = 0;
    assert(all.take(0) =~= Seq::<(u64, PageSize)>::empty());
    assert(all.skip(0) =~= all);
    while current_phys_addr < end_phys_addr
        invariant
            end_phys_addr == sat_add(phys_addr as int, size_bytes as int),
            all == mmio_chunks(phys_addr as int, end_phys_addr as int),
            flags == mmio_flags(),
            0 <= k <= all.len(),
            all.skip(k) == mmio_chunks(current_phys_addr as int, end_phys_addr as int),
            mapper.mappings() == insert_mmio(old(mapper).mappings(), all.take(k), hhdm_offset),
            mapper.attempts() == old(mapper).attempts() + mmio_attempts(all.take(k), hhdm_offset),
        decreases (if current_phys_addr < end_phys_addr {
            end_phys_addr - current_phys_addr
        } else {
            0
        }),
    {
        let virt_addr = current_phys_addr.saturating_add(hhdm_offset);
        // Use a 2MiB big page when the address is aligned and at least 2MiB remain.
        let is_2mb_aligned = current_phys_addr % BIG_PAGE_SIZE == 0;
        let has_2mb_remaining = end_phys_addr.saturating_sub(current_phys_addr) >= BIG_PAGE_SIZE;
        let (step_size, page_size) = if is_2mb_aligned && has_2mb_remaining {
            (BIG_PAGE_SIZE, PageSize::Size2MiB)
        } else {
            (DEFAULT_PAGE_SIZE as u64, PageSize::Size4KiB)
        };
        proof {
            let rest = mmio_chunks(current_phys_addr as int, end_phys_addr as int);
            assert(rest[0] == (current_phys_addr, page_size));
            assert(rest.len() > 0);
            assert(k < all.len());
            assert(all.skip(k)[0] == all[k]);
            assert(all.take(k + 1).drop_last() =~= all.take(k));
            assert(all.skip(k + 1) =~= rest.drop_first());
        }
        let ghost pre = mapper.attempts();
        let result = mapper.map_page(virt_addr, current_phys_addr, page_size, flags);
        proof {
            assert(virt_addr == sat_add(current_phys_addr as int, hhdm_offset as int));
            assert(all[k] == (current_phys_addr, page_size));
            assert(mmio_attempts(all.take(k + 1), hhdm_offset) =~= mmio_attempts(
                all.take(k),
                hhdm_offset,
            ).push((virt_addr, current_phys_addr, page_size, flags, Ok::<(), VmmError>(()))));
        }
        match result {
            Ok(()) => {},
            Err(e) => {
                return Err(e);
            },
        }
        proof {
            assert(result is Ok);
            assert(result->Ok_0 == ());
            assert(result == Ok::<(), VmmError>(()));
            assert(mapper.attempts() == pre.push(
                (virt_addr, current_phys_addr, page_size, flags, Ok::<(), VmmError>(())),
            ));
            assert(mapper.attempts() =~= old(mapper).attempts() + mmio_attempts(
                all.take(k + 1),
                hhdm_offset,
            ));
        }
        proof {
            k = k + 1;
        }
        current_phys_addr = current_phys_addr.saturating_add(step_size);
    }
    proof {
        assert(all.skip(k).len() == 0);
        assert(all.take(k) =~= all);
    }
    Ok(())
}

} // verus!
