//! Interrupt vector assignment. CPU exceptions are hard-wired to the vectors 0 to 31; hardware
//! interrupts are mapped from 32 on.

use vstd::prelude::*;

verus! {

/// Define the APIC Error interrupt vector index.
pub const APIC_ERROR_VECTOR_INDEX: u8 = 32;

/// Define the APIC Timer interrupt vector index.
pub const APIC_TIMER_VECTOR_INDEX: u8 = 33;

/// Define the APIC Spurious interrupt vector index.
pub const APIC_SPURIOUS_VECTOR_INDEX: u8 = 255;

} // verus!
