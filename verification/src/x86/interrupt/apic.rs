//! Routing of the keyboard interrupt through the I/O APIC.

use vstd::prelude::*;

verus! {

/// We want to map our keyboard interrupt to this ID, because it matches the legacy PIC 32 + 1
/// offset.
pub const KEYBOARD_INTERRUPT_ID: u8 = 33;

/// The ISA IRQ of the keyboard.
pub const KEYBOARD_ISA_IRQ: u8 = 1;

/// Vector of the LAPIC timer interrupt.
pub const APIC_TIMER_VECTOR: u8 = 32;

/// Vector of the LAPIC error interrupt.
pub const APIC_ERROR_VECTOR: u8 = 34;

/// Vector of the LAPIC spurious interrupt.
pub const APIC_SPURIOUS_VECTOR: u8 = 255;

/// An interrupt source override of the MADT: ISA IRQ `isa_source` is wired to global system
/// interrupt `global_system_interrupt`.
#[derive(Debug, Clone, Copy, PartialEq, Eq, Structural)]
pub struct InterruptSourceOverride {
    pub isa_source: u8,
    pub global_system_interrupt: u32,
}

/// The global system interrupt the keyboard is wired to: that of the last override of ISA IRQ 1,
/// truncated to 8 bits, or 1 when no override names it.
pub open spec fn keyboard_gsi_of(overrides: Seq<InterruptSourceOverride>) -> u8
    decreases overrides.len(),
{
    if overrides.len() == 0 {
        1
    } else if overrides.last().isa_source == KEYBOARD_ISA_IRQ {
        overrides.last().global_system_interrupt as u8
    } else {
        keyboard_gsi_of(overrides.drop_last())
    }
}

/// Finds the keyboard IRQ (usually 1, but the override table is checked just in case).
pub fn keyboard_gsi(overrides: &[InterruptSourceOverride]) -> (r: u8)
    ensures
        r == keyboard_gsi_of(overrides@),
{
    let mut gsi: u8 = 1;
    let mut i: usize = 0;
    while i < overrides.len()
        invariant
            i <= overrides@.len(),
            gsi == keyboard_gsi_of(overrides@.take(i as int)),
        decreases overrides@.len() - i,
    {
        proof {
            assert(overrides@.take(i as int + 1).drop_last() =~= overrides@.take(i as int));
        }
        if overrides[i].isa_source == KEYBOARD_ISA_IRQ {
            gsi = overrides[i].global_system_interrupt as u8;
        }
        i = i + 1;
    }
    proof {
        assert(overrides@.take(i as int) =~= overrides@);
    }
    gsi
}

/// The virtual address of a device whose registers sit at physical address `phys_addr`.
pub fn apic_virtual_address(phys_addr: u64, hhdm_offset: u64) -> (r: u64)
    requires
        phys_addr + hhdm_offset <= u64::MAX,
    ensures
        r == phys_addr + hhdm_offset,
{
    phys_addr + hhdm_offset
}

} // verus!
