//! The boot-time frame allocator: hands out the 4KiB frames of the usable regions of the
//! bootloader's memory map, one after the other, and never takes one back.

use crate::memory::pmm::{entry_end, PHYS_ADDR_LIMIT};
use crate::sys::memory::memory_map::{MemoryMapEntry, MEMMAP_USABLE};
use vstd::prelude::*;

verus! {

/// `a` rounded up to the next multiple of 4096.
pub open spec fn align_up_4k(a: int) -> int {
    ((a + 4095) / 4096) * 4096
}

/// The usable entries of the map end below the physical address limit.
pub open spec fn usable_entries_bounded(map: Seq<MemoryMapEntry>) -> bool {
    forall|i: int|
        0 <= i < map.len() && (#[trigger] map[i]).is_usable() ==> entry_end(map[i])
            <= PHYS_ADDR_LIMIT
}

/// The outcome of a frame search that starts at region `region` with the marker at `addr`:
/// the frame handed out, if any, and the region and marker left for the next search.
///
/// Regions that are not usable are skipped. In a usable region the marker first moves up to
/// the region's base; the frame is the marker rounded up to 4KiB, if a whole frame fits before
/// the end of the region, and the marker then moves past it. Otherwise the search goes on with
/// the next region.
pub open spec fn frame_search(map: Seq<MemoryMapEntry>, region: int, addr: int) -> (
    Option<int>,
    int,
    int,
)
    decreases map.len() - region,
{
    if region < 0 || region >= map.len() {
        (None, region, addr)
    } else if !map[region].is_usable() {
        frame_search(map, region + 1, addr)
    } else {
        let a = if addr < map[region].base { map[region].base as int } else { addr };
        let aligned = align_up_4k(a);
        if aligned + 4096 <= entry_end(map[region]) {
            (Some(aligned), region, aligned + 4096)
        } else {
            frame_search(map, region + 1, a)
        }
    }
}

/// What a search finds: a 4KiB aligned frame at or above the marker, whole inside a usable
/// region of the map at or after the starting region, with the marker left just past it; and
/// the region and marker left behind stay in bounds.
pub proof fn lemma_frame_search(map: Seq<MemoryMapEntry>, region: int, addr: int)
    requires
        0 <= region <= map.len(),
        0 <= addr <= PHYS_ADDR_LIMIT,
        usable_entries_bounded(map),
    ensures
        ({
            let (f, r, a) = frame_search(map, region, addr);
            &&& region <= r <= map.len()
            &&& 0 <= a <= PHYS_ADDR_LIMIT
            &&& addr <= a
            &&& match f {
                Some(x) => {
                    &&& x % 4096 == 0
                    &&& addr <= x
                    &&& a == x + 4096
                    &&& r < map.len()
                    &&& map[r].is_usable()
                    &&& map[r].base <= x
                    &&& x + 4096 <= entry_end(map[r])
                },
                None => r == map.len(),
            }
        }),
    decreases map.len() - region,
{
    if region < map.len() {
        if !map[region].is_usable() {
            lemma_frame_search(map, region + 1, addr);
        } else {
            let a = if addr < map[region].base { map[region].base as int } else { addr };
            let aligned = align_up_4k(a);
            assert(a <= aligned <= a + 4095 && aligned % 4096 == 0) by (nonlinear_arith)
                requires
                    aligned == ((a + 4095) / 4096) * 4096,
                    a >= 0,
            ;
            if aligned + 4096 > entry_end(map[region]) {
                lemma_frame_search(map, region + 1, a);
            }
        }
    }
}

/// A frame allocator over the bootloader's memory map.
pub struct BootInfoFrameAllocator<'a> {
    memory_map: &'a [MemoryMapEntry],
    current_region: usize,
    current_addr: u64,
}

impl<'a> BootInfoFrameAllocator<'a> {
    /// The memory map the frames come from.
    pub closed spec fn map(&self) -> Seq<MemoryMapEntry> {
        self.memory_map@
    }

    /// The region the next search starts at.
    pub closed spec fn region(&self) -> int {
        self.current_region as int
    }

    /// The marker: no frame below it is handed out from the current region on.
    pub closed spec fn marker(&self) -> int {
        self.current_addr as int
    }

    pub closed spec fn wf(&self) -> bool {
        &&& self.current_region <= self.memory_map@.len()
        &&& self.current_addr <= PHYS_ADDR_LIMIT
        &&& usable_entries_bounded(self.memory_map@)
    }

    /// An allocator that starts with the first region of the map.
    pub fn init(memory_map: &'a [MemoryMapEntry]) -> (r: Self)
        requires
            usable_entries_bounded(memory_map@),
        ensures
            r.wf(),
            r.map() == memory_map@,
            r.region() == 0,
            r.marker() == 0,
    {
        BootInfoFrameAllocator { memory_map, current_region: 0, current_addr: 0 }
    }

    /// Hands out the next free 4KiB frame, as its physical start address, or `None` once the
    /// usable regions are used up.
    pub fn allocate_frame(&mut self) -> (r: Option<u64>)
        requires
            old(self).wf(),
        ensures
            final(self).wf(),
            final(self).map() == old(self).map(),
            ({
                let (f, region, addr) = frame_search(
                    old(self).map(),
                    old(self).region(),
                    old(self).marker(),
                );
                &&& r == match f {
                    Some(x) => Some(x as u64),
                    None => None::<u64>,
                }
                &&& final(self).region() == region
                &&& final(self).marker() == addr
            }),
            match r {
                Some(x) => {
                    &&& x % 4096 == 0
                    &&& old(self).marker() <= x
                    &&& final(self).marker() == x + 4096
                    &&& exists|i: int|
                        0 <= i < old(self).map().len() && (#[trigger] old(self).map()[i]).is_usable()
                            && old(self).map()[i].base <= x && x + 4096 <= entry_end(
                            old(self).map()[i],
                        )
                },
                None => final(self).region() == final(self).map().len(),
            },
    {
        let ghost outcome = frame_search(self.map(), self.region(), self.marker());
        // Loop through the regions starting from where the last search left off.
        while self.current_region < self.memory_map.len()
            invariant
                self.wf(),
                self.memory_map@ == old(self).memory_map@,
                frame_search(self.map(), self.region(), self.marker()) == outcome,
                outcome == frame_search(old(self).map(), old(self).region(), old(self).marker()),
                old(self).wf(),
            decreases self.memory_map@.len() - self.current_region,
        {
            let region = self.memory_map[self.current_region];
            // Skip regions that are not usable.
            if region.entry_type != MEMMAP_USABLE {
                self.current_region = self.current_region + 1;
                continue;
            }
            // On a new region, start at its base address.
            if self.current_addr < region.base {
                self.current_addr = region.base;
            }
            // Align the marker up to a 4KiB boundary.
            let x = self.current_addr + 4095;
            assert(x & !4095u64 == x - x % 4096) by (bit_vector);
            let aligned_addr = x & !4095u64;
            assert(aligned_addr == align_up_4k(self.current_addr as int)) by (nonlinear_arith)
                requires
                    aligned_addr == x - x % 4096,
                    x == self.current_addr + 4095,
            ;
            // A whole frame must fit before the end of the region.
            if aligned_addr + 4096 <= region.base + region.length {
                proof {
                    lemma_frame_search(old(self).map(), old(self).region(), old(self).marker());
                    assert(old(self).map()[self.region()].is_usable());
                }
                self.current_addr = aligned_addr + 4096;
                return Some(aligned_addr);
            } else {
                self.current_region = self.current_region + 1;
            }
        }
        // No physical memory left.
        None
    }
}

/// Law: the boot allocator never hands out a frame twice. After a search hands out the frame
/// at `x`, any frame the next search hands out starts at or above `x + 4096`.
pub proof fn lemma_frames_strictly_increase(map: Seq<MemoryMapEntry>, region: int, addr: int)
    requires
        0 <= region <= map.len(),
        0 <= addr <= PHYS_ADDR_LIMIT,
        usable_entries_bounded(map),
    ensures
        ({
            let (f1, r1, a1) = frame_search(map, region, addr);
            let (f2, r2, a2) = frame_search(map, r1, a1);
            f1 is Some && f2 is Some ==> f2->0 >= f1->0 + 4096
        }),
{
    lemma_frame_search(map, region, addr);
    let (f1, r1, a1) = frame_search(map, region, addr);
    if f1 is Some {
        lemma_frame_search(map, r1, a1);
    }
}

} // verus!
