use quay_kernel::arch::x86_64::apic::{relative_deadline, LapicAddress, LAPIC_ESR_REGISTER};
use quay_kernel::arch::x86_64::gdt::{double_fault_stack_top, Selectors, GDT_DOUBLE_FAULT_IST_INDEX};
use quay_kernel::arch::x86_64::idt::{
    APIC_ERROR_VECTOR_INDEX, APIC_SPURIOUS_VECTOR_INDEX, APIC_TIMER_VECTOR_INDEX,
};
use quay_kernel::arch::x86_64::isr::apic_error::{
    esr_address, ApicErrorFlags, APIC_ILLEGAL_REGISTER_ADDRESS, APIC_SEND_ILLEGAL_VECTOR,
};
use quay_kernel::arch::x86_64::isr::gpf::{
    GeneralProtectionFaultErrorCode, GPF_EXTERNAL, GPF_IDT, GPF_TABLE_INDICATOR,
};
use quay_kernel::arch::x86_64::vmm::{
    handle_map_error, handle_unmap_error, plan_unmap, translate_map_flags, unmap_page,
    MapFailure, Translation, UnmapFailure, X86FrameAllocator, PTE_NO_CACHE, PTE_NO_EXECUTE,
    PTE_PRESENT, PTE_USER_ACCESSIBLE, PTE_WRITABLE, PTE_WRITE_THROUGH,
};
use quay_kernel::sys::memory::memory_map::{MemoryMapEntry, MEMMAP_USABLE};
use quay_kernel::sys::memory::pmm::{Order, PhysMemoryManager, PmmError};
use quay_kernel::sys::memory::vmm::{LoggedMapper, MapFlags, PageSize, VirtualMapper, VmmError};
use quay_kernel::x86::gdt::DOUBLE_FAULT_IST_INDEX;
use quay_kernel::x86::interrupt::apic::{
    apic_virtual_address, keyboard_gsi, InterruptSourceOverride, KEYBOARD_INTERRUPT_ID,
};

/// A page mapper that records its mappings.
struct RecordingMapper {
    mapped: Vec<(u64, u64, PageSize, MapFlags)>,
    refuse: bool,
}

impl VirtualMapper for RecordingMapper {
    fn map_page(
        &mut self,
        virt_addr: u64,
        phys_addr: u64,
        size: PageSize,
        flags: MapFlags,
    ) -> Result<(), VmmError> {
        if self.refuse {
            return Err(VmmError::AlreadyMapped(virt_addr));
        }
        self.mapped.push((virt_addr, phys_addr, size, flags));
        Ok(())
    }

    fn unmap_page(&mut self, virt_addr: u64) -> Result<u64, VmmError> {
        Err(VmmError::NotMapped(virt_addr))
    }
}

#[test]
fn gpf_error_code_decoding() {
    let code = GeneralProtectionFaultErrorCode::from_bits_truncate(0x1_0000 | (0x123 << 3) | 0x5);
    assert_eq!(code.bits(), (0x123 << 3) | 0x5);
    assert!(!code.is_untraceable());
    assert!(code.contains(GPF_EXTERNAL));
    assert!(!code.contains(GPF_IDT));
    assert_eq!(code.selector_index(), 0x123);
    assert_eq!(code.table_name(), "LDT");
    assert_eq!(GeneralProtectionFaultErrorCode::from_bits_truncate(GPF_IDT | GPF_TABLE_INDICATOR).table_name(), "IDT");
    assert_eq!(GeneralProtectionFaultErrorCode::from_bits_truncate(0x8).table_name(), "GDT");
    let empty = GeneralProtectionFaultErrorCode::from_bits_truncate(0);
    assert!(empty.is_untraceable());
    assert!(empty.is_empty());
    assert_eq!(GeneralProtectionFaultErrorCode::from_bits_truncate(0xFFFF).selector_index(), 0x1FFF);
}

#[test]
fn apic_error_flags() {
    let flags = ApicErrorFlags::from_bits_truncate(0xFFFF_FF00 | APIC_SEND_ILLEGAL_VECTOR);
    assert_eq!(flags.bits(), APIC_SEND_ILLEGAL_VECTOR);
    assert!(flags.contains(APIC_SEND_ILLEGAL_VECTOR));
    assert!(!flags.contains(APIC_ILLEGAL_REGISTER_ADDRESS));
    assert_eq!(esr_address(0xFFFF_8000_FEE0_0000), 0xFFFF_8000_FEE0_0280);
    assert_eq!(LAPIC_ESR_REGISTER, 0x280);
}

#[test]
fn lapic_address_is_recorded_and_its_page_mapped_uncached() {
    let mut lapic = LapicAddress::new();
    let mut mapper = LoggedMapper::new(RecordingMapper { mapped: Vec::new(), refuse: false });
    let hhdm = 0xFFFF_8000_0000_0000;
    assert_eq!(lapic.map_local_apic(&mut mapper, 0xFEE0_0000, hhdm), Ok(()));
    assert_eq!(lapic.get_lapic_address(), 0xFFFF_8000_FEE0_0000);
    let flags = MapFlags::present().union(MapFlags::writable()).union(MapFlags::no_cache());
    assert_eq!(mapper.inner().mapped, vec![(0xFFFF_8000_FEE0_0000, 0xFEE0_0000, PageSize::Size4KiB, flags)]);
}

#[test]
fn lapic_mapping_failure_is_reported() {
    let mut lapic = LapicAddress::new();
    let mut mapper = LoggedMapper::new(RecordingMapper { mapped: Vec::new(), refuse: true });
    assert_eq!(
        lapic.map_local_apic(&mut mapper, 0xFEE0_0000, 0x1000),
        Err(VmmError::AlreadyMapped(0xFEE0_1000))
    );
    // The address is recorded all the same.
    assert_eq!(lapic.get_lapic_address(), 0xFEE0_1000);
}

#[test]
fn tsc_deadlines() {
    assert_eq!(relative_deadline(1_000, 500), 1_500);
}

#[test]
fn gdt_and_idt_layout() {
    assert_eq!(GDT_DOUBLE_FAULT_IST_INDEX, 0);
    assert_eq!(DOUBLE_FAULT_IST_INDEX, 0);
    assert_eq!(double_fault_stack_top(0xFFFF_8000_0010_0000), 0xFFFF_8000_0011_0000);
    let selectors = Selectors {
        kernel_code_selector: 0x08,
        kernel_data_selector: 0x10,
        tss_selector: 0x18,
        user_data_selector: 0x2B,
        user_code_selector: 0x33,
    };
    assert_eq!(selectors.user_code_selector, 0x33);
    assert_eq!((APIC_ERROR_VECTOR_INDEX, APIC_TIMER_VECTOR_INDEX, APIC_SPURIOUS_VECTOR_INDEX), (32, 33, 255));
}

#[test]
fn keyboard_irq_routing() {
    assert_eq!(KEYBOARD_INTERRUPT_ID, 33);
    assert_eq!(keyboard_gsi(&[]), 1);
    let overrides = [
        InterruptSourceOverride { isa_source: 0, global_system_interrupt: 2 },
        InterruptSourceOverride { isa_source: 1, global_system_interrupt: 9 },
        InterruptSourceOverride { isa_source: 9, global_system_interrupt: 20 },
    ];
    assert_eq!(keyboard_gsi(&overrides), 9);
    // The last override of IRQ 1 wins, truncated to 8 bits.
    let twice = [
        InterruptSourceOverride { isa_source: 1, global_system_interrupt: 3 },
        InterruptSourceOverride { isa_source: 1, global_system_interrupt: 0x105 },
    ];
    assert_eq!(keyboard_gsi(&twice), 5);
    assert_eq!(apic_virtual_address(0xFEC0_0000, 0x1000), 0xFEC0_1000);
}

#[test]
fn page_table_flags_for_mapping_flags() {
    assert_eq!(translate_map_flags(MapFlags::empty()), 0);
    assert_eq!(
        translate_map_flags(MapFlags::present().union(MapFlags::writable())),
        PTE_PRESENT | PTE_WRITABLE
    );
    assert_eq!(translate_map_flags(MapFlags::user()), PTE_USER_ACCESSIBLE);
    assert_eq!(translate_map_flags(MapFlags::no_execute()), PTE_NO_EXECUTE);
    assert_eq!(translate_map_flags(MapFlags::no_cache()), PTE_NO_CACHE | PTE_WRITE_THROUGH);
}

#[test]
fn page_table_errors_become_vmm_errors() {
    assert_eq!(handle_map_error(0x5000, MapFailure::PageAlreadyMapped), VmmError::AlreadyMapped(0x5000));
    assert_eq!(
        handle_map_error(0x5000, MapFailure::FrameAllocationFailed),
        VmmError::PageTableAllocationFailed(PmmError::OutOfMemory(0))
    );
    assert!(matches!(handle_map_error(0, MapFailure::ParentEntryHugePage), VmmError::HardwareFault(_)));
    assert_eq!(handle_unmap_error(0x7000, UnmapFailure::PageNotMapped), VmmError::NotMapped(0x7000));
    assert!(matches!(handle_unmap_error(0, UnmapFailure::ParentEntryHugePage), VmmError::HardwareFault(_)));
    assert!(matches!(handle_unmap_error(0, UnmapFailure::InvalidFrameAddress), VmmError::HardwareFault(_)));
}

#[test]
fn unmapping_decisions() {
    assert_eq!(plan_unmap(0x1234_5678, Translation::Mapped(PageSize::Size4KiB)), Ok((0x1234_5000, PageSize::Size4KiB)));
    assert_eq!(plan_unmap(0x1234_5678, Translation::Mapped(PageSize::Size2MiB)), Ok((0x1220_0000, PageSize::Size2MiB)));
    assert_eq!(plan_unmap(0x1234_5678, Translation::Mapped(PageSize::Size1GiB)), Ok((0x0000_0000, PageSize::Size1GiB)));
    assert_eq!(plan_unmap(0x8765_4321, Translation::Mapped(PageSize::Size1GiB)), Ok((0x8000_0000, PageSize::Size1GiB)));
    assert_eq!(plan_unmap(0x1234_5678, Translation::NotMapped), Err(VmmError::NotMapped(0x1234_5678)));
    assert!(plan_unmap(0, Translation::InvalidFrameAddress).is_err());
    assert_eq!(unmap_page(0x9000, Ok(0x3000)), Ok(0x3000));
    assert_eq!(unmap_page(0x9000, Err(UnmapFailure::PageNotMapped)), Err(VmmError::NotMapped(0x9000)));
}

#[test]
fn frame_allocator_bridges_to_the_buddy_pmm() {
    let mut pmm = PhysMemoryManager::new(0);
    pmm.init(&[MemoryMapEntry::new(0x20_0000, 0x20_0000, MEMMAP_USABLE)]);
    let mut frames = X86FrameAllocator;
    assert_eq!(frames.allocate_frame(&mut pmm, Order::Order2MiB), Some(0x20_0000));
    assert_eq!(frames.allocate_frame(&mut pmm, Order::Order4KiB), None);
    frames.deallocate_frame(&mut pmm, 0x20_0000, Order::Order2MiB);
    assert_eq!(frames.allocate_frame(&mut pmm, Order::Order4KiB), Some(0x20_0000));
    assert_eq!(pmm.free_memory_bytes(), 0x20_0000 - 0x1000);
}
