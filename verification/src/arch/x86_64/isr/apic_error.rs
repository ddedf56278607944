//! Decoding of the LAPIC Error Status Register, read by the APIC error interrupt handler.

use crate::arch::x86_64::apic::LAPIC_ESR_REGISTER;
use vstd::prelude::*;

verus! {

/// A send checksum error.
pub const APIC_SEND_CHECKSUM_ERROR: u32 = 0x1;

/// A receive checksum error.
pub const APIC_RECEIVE_CHECKSUM_ERROR: u32 = 0x2;

/// A send accept error.
pub const APIC_SEND_ACCEPT_ERROR: u32 = 0x4;

/// A receive accept error.
pub const APIC_RECEIVE_ACCEPT_ERROR: u32 = 0x8;

/// A redirectable IPI.
pub const APIC_REDIRECTABLE_IPI: u32 = 0x10;

/// An illegal vector was sent.
pub const APIC_SEND_ILLEGAL_VECTOR: u32 = 0x20;

/// An illegal vector was received.
pub const APIC_RECEIVE_ILLEGAL_VECTOR: u32 = 0x40;

/// An illegal register address was accessed.
pub const APIC_ILLEGAL_REGISTER_ADDRESS: u32 = 0x80;

/// All defined error bits.
pub const APIC_ERROR_ALL: u32 = 0xFF;

/// Flags used to decode APIC Error status codes.
#[derive(Debug, Clone, Copy, PartialEq, Eq, Structural)]
pub struct ApicErrorFlags {
    pub bits: u32,
}

impl ApicErrorFlags {
    pub open spec fn view(self) -> u32 {
        self.bits
    }

    /// The flags of the defined bits of an ESR value; the others are dropped.
    pub fn from_bits_truncate(bits: u32) -> (r: Self)
        ensures
            r@ == bits & APIC_ERROR_ALL,
    {
        ApicErrorFlags { bits: bits & APIC_ERROR_ALL }
    }

    /// The raw bits.
    pub fn bits(&self) -> (r: u32)
        ensures
            r == self@,
    {
        self.bits
    }

    /// Every bit of `flags` is set.
    pub fn contains(&self, flags: u32) -> (r: bool)
        ensures
            r == (self@ & flags == flags),
    {
        self.bits & flags == flags
    }
}

/// The virtual address of the Error Status Register of the LAPIC mapped at `lapic_virt_addr`.
pub fn esr_address(lapic_virt_addr: u64) -> (r: u64)
    requires
        lapic_virt_addr + LAPIC_ESR_REGISTER <= u64::MAX,
    ensures
        r == lapic_virt_addr + LAPIC_ESR_REGISTER,
{
    lapic_virt_addr + LAPIC_ESR_REGISTER
}

} // verus!
