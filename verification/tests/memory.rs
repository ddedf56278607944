use quay_kernel::memory::frame_alloc::BootInfoFrameAllocator;
use quay_kernel::memory::pmm::{BitmapPMM, GlobalBitmapPMM};
use quay_kernel::sys::memory::khm::{KernelHeapExpander, HEAP_START_VIRT};
use quay_kernel::sys::memory::memory_map::{MemoryMapEntry, MEMMAP_RESERVED, MEMMAP_USABLE};
use quay_kernel::sys::memory::pmm::{Order, PhysMemoryManager, PmmError};
use quay_kernel::sys::memory::vmm::{
    map_mmio_range, LoggedMapper, MapFlags, PageSize, VirtualMapper, VmmError,
};

const HHDM: u64 = 0xFFFF_8000_0000_0000;

fn usable(base: u64, length: u64) -> MemoryMapEntry {
    MemoryMapEntry::new(base, length, MEMMAP_USABLE)
}

fn reserved(base: u64, length: u64) -> MemoryMapEntry {
    MemoryMapEntry::new(base, length, MEMMAP_RESERVED)
}

fn buddy(map: &[MemoryMapEntry]) -> PhysMemoryManager {
    let mut pmm = PhysMemoryManager::new(HHDM);
    pmm.init(map);
    pmm
}

/// A page mapper that records its mappings and can be told to fail at one call.
struct RecordingMapper {
    mapped: Vec<(u64, u64, PageSize, MapFlags)>,
    calls: usize,
    fail_at: Option<usize>,
}

impl RecordingMapper {
    fn new(fail_at: Option<usize>) -> Self {
        RecordingMapper { mapped: Vec::new(), calls: 0, fail_at }
    }
}

impl VirtualMapper for RecordingMapper {
    fn map_page(
        &mut self,
        virt_addr: u64,
        phys_addr: u64,
        size: PageSize,
        flags: MapFlags,
    ) -> Result<(), VmmError> {
        let call = self.calls;
        self.calls += 1;
        if self.fail_at == Some(call) {
            return Err(VmmError::AlreadyMapped(virt_addr));
        }
        self.mapped.push((virt_addr, phys_addr, size, flags));
        Ok(())
    }

    fn unmap_page(&mut self, virt_addr: u64) -> Result<u64, VmmError> {
        match self.mapped.iter().position(|m| m.0 == virt_addr) {
            Some(i) => Ok(self.mapped.remove(i).1),
            None => Err(VmmError::NotMapped(virt_addr)),
        }
    }
}

#[test]
fn buddy_init_counts_usable_page_aligned_memory() {
    let pmm = buddy(&[usable(0x0, 0x4000), reserved(0x4000, 0x4000), usable(0x10000, 0x1800)]);
    assert_eq!(pmm.total_memory_bytes(), 0x5000);
    assert_eq!(pmm.free_memory_bytes(), 0x5000);
}

#[test]
fn buddy_init_trims_unaligned_region() {
    let mut pmm = buddy(&[usable(0x1234, 0x3000)]);
    assert_eq!(pmm.total_memory_bytes(), 0x2000);
    assert_eq!(pmm.allocate(Order::Order8KiB), Ok(0x2000));
    assert_eq!(pmm.allocate(Order::Order4KiB), Err(PmmError::OutOfMemory(0)));
}

#[test]
fn buddy_allocate_splits_larger_blocks() {
    let mut pmm = buddy(&[usable(0x0, 0x4000)]);
    assert_eq!(pmm.allocate(Order::Order4KiB), Ok(0x0));
    assert_eq!(pmm.free_memory_bytes(), 0x3000);
    assert_eq!(pmm.allocate(Order::Order4KiB), Ok(0x1000));
    assert_eq!(pmm.allocate(Order::Order8KiB), Ok(0x2000));
    assert_eq!(pmm.free_memory_bytes(), 0);
    assert_eq!(pmm.allocate(Order::Order4KiB), Err(PmmError::OutOfMemory(0)));
}

#[test]
fn buddy_empty_is_out_of_memory_with_the_requested_order() {
    let mut pmm = PhysMemoryManager::new(HHDM);
    assert_eq!(pmm.allocate(Order::Order4KiB), Err(PmmError::OutOfMemory(0)));
    assert_eq!(pmm.allocate(Order::Order2MiB), Err(PmmError::OutOfMemory(9)));
    assert_eq!(pmm.allocate(Order::Order1GiB), Err(PmmError::OutOfMemory(18)));
}

#[test]
fn buddy_deallocate_undoes_allocate() {
    let mut pmm = buddy(&[usable(0x0, 0x4000)]);
    let a = pmm.allocate(Order::Order4KiB).unwrap();
    assert_eq!(pmm.deallocate(a, Order::Order4KiB), Ok(()));
    assert_eq!(pmm.free_memory_bytes(), 0x4000);
    // The buddies merged back into the whole 16KiB block.
    assert_eq!(pmm.allocate(Order::Order16KiB), Ok(0x0));
}

#[test]
fn buddy_free_restores_the_bytes_not_always_the_blocks() {
    // Two adjacent entries leave two free buddies unmerged.
    let mut pmm = buddy(&[usable(0x0, 0x1000), usable(0x1000, 0x1000)]);
    assert_eq!(pmm.allocate(Order::Order8KiB), Err(PmmError::OutOfMemory(1)));
    let a = pmm.allocate(Order::Order4KiB).unwrap();
    assert_eq!(a, 0x1000);
    pmm.deallocate(a, Order::Order4KiB).unwrap();
    // The same 8KiB are free again, now as one merged block.
    assert_eq!(pmm.free_memory_bytes(), 0x2000);
    assert_eq!(pmm.allocate(Order::Order8KiB), Ok(0x0));
}

#[test]
fn buddy_refuses_an_unaligned_free() {
    let mut pmm = buddy(&[usable(0x0, 0x4000)]);
    let a = pmm.allocate(Order::Order4KiB).unwrap();
    assert_eq!(a, 0x0);
    assert_eq!(pmm.deallocate(0x1800, Order::Order4KiB), Err(PmmError::UnalignedFree(0x1800, 0)));
    assert_eq!(pmm.deallocate(0x1000, Order::Order8KiB), Err(PmmError::UnalignedFree(0x1000, 1)));
    // Nothing changed: the free bytes are those left after the allocation.
    assert_eq!(pmm.free_memory_bytes(), 0x3000);
    assert_eq!(pmm.deallocate(a, Order::Order4KiB), Ok(()));
    assert_eq!(pmm.free_memory_bytes(), 0x4000);
}

#[test]
fn buddy_deallocate_merges_both_halves() {
    let mut pmm = buddy(&[usable(0x0, 0x2000)]);
    let a = pmm.allocate(Order::Order4KiB).unwrap();
    let b = pmm.allocate(Order::Order4KiB).unwrap();
    assert_eq!((a, b), (0x0, 0x1000));
    assert_eq!(pmm.allocate(Order::Order4KiB), Err(PmmError::OutOfMemory(0)));
    pmm.deallocate(b, Order::Order4KiB).unwrap();
    pmm.deallocate(a, Order::Order4KiB).unwrap();
    assert_eq!(pmm.allocate(Order::Order8KiB), Ok(0x0));
}

#[test]
fn buddy_hhdm_translation_saturates() {
    let pmm = PhysMemoryManager::new(HHDM);
    assert_eq!(pmm.phys_to_virt(0x1000), 0xFFFF_8000_0000_1000);
    assert_eq!(pmm.virt_to_phys(0xFFFF_8000_0000_1000), 0x1000);
    assert_eq!(pmm.virt_to_phys(0x10), 0);
    assert_eq!(pmm.phys_to_virt(0x8000_0000_0000_0000), u64::MAX);
}

#[test]
fn order_index_matches_block_size() {
    assert_eq!(Order::Order4KiB.index(), 0);
    assert_eq!(Order::Order2MiB.index(), 9);
    assert_eq!(Order::Order1GiB.index(), 18);
}

#[test]
fn bitmap_pmm_hands_out_lowest_free_frame_and_takes_it_back() {
    let map = [usable(0x0, 0x10000)];
    let mut pmm = BitmapPMM::new(&map, HHDM);
    assert_eq!(pmm.total_frames(), 16);
    // Frame 0 holds the bitmap (and is never handed out).
    assert_eq!(pmm.free_frames(), 15);
    assert_eq!(pmm.allocate_frame(), Some(0x1000));
    assert_eq!(pmm.allocate_frame(), Some(0x2000));
    assert_eq!(pmm.free_frames(), 13);
    pmm.deallocate_frame(0x1000);
    assert_eq!(pmm.free_frames(), 14);
    assert_eq!(pmm.allocate_frame(), Some(0x1000));
    // Freeing a free frame changes nothing.
    pmm.deallocate_frame(0x5000);
    assert_eq!(pmm.free_frames(), 13);
}

#[test]
fn bitmap_pmm_runs_out() {
    let map = [usable(0x0, 0x3000)];
    let mut pmm = BitmapPMM::new(&map, HHDM);
    let mut global = GlobalBitmapPMM;
    assert_eq!(global.allocate_frame(&mut pmm), Some(0x1000));
    assert_eq!(global.allocate_frame(&mut pmm), Some(0x2000));
    assert_eq!(global.allocate_frame(&mut pmm), None);
    global.deallocate_frame(&mut pmm, 0x2000);
    assert_eq!(global.allocate_frame(&mut pmm), Some(0x2000));
}

#[test]
fn bitmap_pmm_reserves_the_bitmap_frames_and_other_regions() {
    let map = [reserved(0x0, 0x1000), usable(0x1000, 0x2000), usable(0x8000, 0x1000)];
    let mut pmm = BitmapPMM::new(&map, HHDM);
    assert_eq!(pmm.total_frames(), 9);
    // The bitmap lives in the first frame of the first usable region.
    assert_eq!(pmm.free_frames(), 2);
    assert_eq!(pmm.allocate_frame(), Some(0x2000));
    assert_eq!(pmm.allocate_frame(), Some(0x8000));
    assert_eq!(pmm.allocate_frame(), None);
}

#[test]
fn boot_allocator_walks_usable_regions_in_order() {
    let map = [reserved(0x0, 0x1000), usable(0x1800, 0x2800), usable(0x10000, 0x1000)];
    let mut alloc = BootInfoFrameAllocator::init(&map);
    assert_eq!(alloc.allocate_frame(), Some(0x2000));
    assert_eq!(alloc.allocate_frame(), Some(0x3000));
    assert_eq!(alloc.allocate_frame(), Some(0x10000));
    assert_eq!(alloc.allocate_frame(), None);
    assert_eq!(alloc.allocate_frame(), None);
}

#[test]
fn boot_allocator_frames_strictly_increase() {
    let map = [usable(0x0, 0x3000), usable(0x1000, 0x4000)];
    let mut alloc = BootInfoFrameAllocator::init(&map);
    let mut last: Option<u64> = None;
    while let Some(frame) = alloc.allocate_frame() {
        assert_eq!(frame % 4096, 0);
        if let Some(prev) = last {
            assert!(frame >= prev + 4096);
        }
        last = Some(frame);
    }
    // The overlapping second region is only used past the first.
    assert_eq!(last, Some(0x4000));
}

#[test]
fn boot_allocator_on_empty_map() {
    let map: [MemoryMapEntry; 0] = [];
    let mut alloc = BootInfoFrameAllocator::init(&map);
    assert_eq!(alloc.allocate_frame(), None);
}

#[test]
fn map_flags_union_and_contains() {
    let rw = MapFlags::present().union(MapFlags::writable());
    assert!(rw.contains(MapFlags::present()));
    assert!(rw.contains(MapFlags::writable()));
    assert!(!rw.contains(MapFlags::no_cache()));
    assert_eq!(rw.bits(), 0x3);
    assert_eq!(MapFlags::from_bits_truncate(0xFF).bits(), 0x1F);
    assert_eq!(MapFlags::empty().bits(), 0);
}

#[test]
fn mmio_range_maps_4k_pages_with_device_flags() {
    let mut mapper = LoggedMapper::new(RecordingMapper::new(None));
    assert_eq!(map_mmio_range(&mut mapper, 0x1000, 0x3000, 0x1000_0000), Ok(()));
    let flags = MapFlags::present().union(MapFlags::writable()).union(MapFlags::no_cache());
    assert_eq!(
        mapper.inner().mapped,
        vec![
            (0x1000_1000, 0x1000, PageSize::Size4KiB, flags),
            (0x1000_2000, 0x2000, PageSize::Size4KiB, flags),
            (0x1000_3000, 0x3000, PageSize::Size4KiB, flags),
        ]
    );
}

#[test]
fn mmio_range_uses_2m_pages_when_aligned_and_enough_remains() {
    let mut mapper = LoggedMapper::new(RecordingMapper::new(None));
    assert_eq!(map_mmio_range(&mut mapper, 0x20_0000, 0x40_0000, 0), Ok(()));
    let flags = MapFlags::present().union(MapFlags::writable()).union(MapFlags::no_cache());
    assert_eq!(
        mapper.inner().mapped,
        vec![
            (0x20_0000, 0x20_0000, PageSize::Size2MiB, flags),
            (0x40_0000, 0x40_0000, PageSize::Size2MiB, flags),
        ]
    );
}

#[test]
fn mmio_range_of_exactly_2m_is_one_big_page() {
    let mut mapper = LoggedMapper::new(RecordingMapper::new(None));
    assert_eq!(map_mmio_range(&mut mapper, 0x20_0000, 0x20_0000, HHDM), Ok(()));
    let flags = MapFlags::present().union(MapFlags::writable()).union(MapFlags::no_cache());
    assert_eq!(mapper.inner().mapped, vec![(0xFFFF_8000_0020_0000, 0x20_0000, PageSize::Size2MiB, flags)]);
}

#[test]
fn mmio_range_falls_back_to_4k_pages_for_the_tail() {
    let mut mapper = LoggedMapper::new(RecordingMapper::new(None));
    assert_eq!(map_mmio_range(&mut mapper, 0x20_0000, 0x20_1000, 0), Ok(()));
    assert_eq!(mapper.inner().mapped.len(), 2);
    assert_eq!(mapper.inner().mapped[0].2, PageSize::Size2MiB);
    assert_eq!(mapper.inner().mapped[1], (0x40_0000, 0x40_0000, PageSize::Size4KiB, mapper.inner().mapped[0].3));
}

#[test]
fn mmio_range_stops_at_the_first_failure() {
    let mut mapper = LoggedMapper::new(RecordingMapper::new(Some(1)));
    assert_eq!(
        map_mmio_range(&mut mapper, 0x1000, 0x3000, 0x100),
        Err(VmmError::AlreadyMapped(0x2100))
    );
    assert_eq!(mapper.inner().mapped.len(), 1);
}

#[test]
fn mmio_range_of_zero_bytes_maps_nothing() {
    let mut mapper = LoggedMapper::new(RecordingMapper::new(None));
    assert_eq!(map_mmio_range(&mut mapper, 0x1000, 0, 0), Ok(()));
    assert!(mapper.inner().mapped.is_empty());
}

#[test]
fn vmm_error_from_pmm_error() {
    assert_eq!(
        VmmError::from_pmm_error(PmmError::OutOfMemory(3)),
        VmmError::PageTableAllocationFailed(PmmError::OutOfMemory(3))
    );
}

#[test]
fn heap_grows_by_a_chunk_mapped_to_fresh_frames() {
    let mut pmm = buddy(&[usable(0x0, 0x100000)]);
    let mut mapper = LoggedMapper::new(RecordingMapper::new(None));
    let mut heap = KernelHeapExpander::new();
    assert_eq!(heap.current_heap_end, HEAP_START_VIRT);
    let span = heap.handle_oom(&mut pmm, &mut mapper, 100);
    assert_eq!(span, Ok((HEAP_START_VIRT, HEAP_START_VIRT + 0x10000)));
    assert_eq!(heap.current_heap_end, HEAP_START_VIRT + 0x10000);
    assert_eq!(mapper.inner().mapped.len(), 16);
    assert_eq!(pmm.free_memory_bytes(), 0x100000 - 0x10000);
    let heap_flags = MapFlags::present().union(MapFlags::writable()).union(MapFlags::no_execute());
    for (i, m) in mapper.inner().mapped.iter().enumerate() {
        assert_eq!(m.0, HEAP_START_VIRT + (i as u64) * 0x1000);
        assert_eq!(m.2, PageSize::Size4KiB);
        assert_eq!(m.3, heap_flags);
    }
    // A large request maps as many pages as it needs.
    let span = heap.handle_oom(&mut pmm, &mut mapper, 0x10001);
    assert_eq!(span, Ok((HEAP_START_VIRT + 0x10000, HEAP_START_VIRT + 0x10000 + 0x11000)));
}

#[test]
fn heap_expansion_fails_when_memory_runs_out() {
    let mut pmm = buddy(&[usable(0x0, 0x4000)]);
    let mut mapper = LoggedMapper::new(RecordingMapper::new(None));
    let mut heap = KernelHeapExpander::new();
    assert_eq!(heap.handle_oom(&mut pmm, &mut mapper, 1), Err(()));
    assert_eq!(heap.current_heap_end, HEAP_START_VIRT);
    // The pages mapped before the PMM ran dry stay mapped.
    assert_eq!(mapper.inner().mapped.len(), 4);
    assert_eq!(pmm.free_memory_bytes(), 0);
}

#[test]
fn heap_expansion_gives_back_the_frame_of_a_failed_mapping() {
    let mut pmm = buddy(&[usable(0x0, 0x100000)]);
    let mut mapper = LoggedMapper::new(RecordingMapper::new(Some(0)));
    let mut heap = KernelHeapExpander::new();
    assert_eq!(heap.handle_oom(&mut pmm, &mut mapper, 1), Err(()));
    assert_eq!(heap.current_heap_end, HEAP_START_VIRT);
    assert_eq!(pmm.free_memory_bytes(), 0x100000);
}
