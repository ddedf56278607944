use vstd::prelude::*;

verus! {

/// Error code pushed by the CPU on a General Protection Fault.
#[derive(Debug, Clone, Copy, PartialEq, Eq, Structural)]
pub struct GeneralProtectionFaultErrorCode {
    pub bits: u64,
}

/// Set when the exception occurred during delivery of an external event (like a hardware
/// interrupt); clear when it was caused by normal execution.
pub const GPF_EXTERNAL: u64 = 0x1;

/// Set when the index refers to a gate descriptor in the IDT.
pub const GPF_IDT: u64 = 0x2;

/// Table Indicator, only relevant when `GPF_IDT` is clear: set for the LDT, clear for the GDT.
pub const GPF_TABLE_INDICATOR: u64 = 0x4;

/// Bits 3 through 15: the selector index.
pub const GPF_SELECTOR_INDEX_MASK: u64 = 0xFFF8;

/// All defined bits.
pub const GPF_ALL: u64 = 0xFFFF;

/// The name of the descriptor table an error code points at.
pub open spec fn table_name_of(bits: u64) -> &'static str {
    if bits & GPF_IDT == GPF_IDT {
        "IDT"
    } else if bits & GPF_TABLE_INDICATOR == GPF_TABLE_INDICATOR {
        "LDT"
    } else {
        "GDT"
    }
}

impl GeneralProtectionFaultErrorCode {
    pub open spec fn view(self) -> u64 {
        self.bits
    }

    /// The error code holding the defined bits of `bits`; the others are dropped.
    pub fn from_bits_truncate(bits: u64) -> (r: Self)
        ensures
            r@ == bits & GPF_ALL,
    {
        GeneralProtectionFaultErrorCode { bits: bits & GPF_ALL }
    }

    /// The raw bits.
    pub fn bits(&self) -> (r: u64)
        ensures
            r == self@,
    {
        self.bits
    }

    /// Every bit of `flags` is set.
    pub fn contains(&self, flags: u64) -> (r: bool)
        ensures
            r == (self@ & flags == flags),
    {
        self.bits & flags == flags
    }

    /// No bit is set.
    pub fn is_empty(&self) -> (r: bool)
        ensures
            r == (self@ == 0),
    {
        self.bits == 0
    }

    /// Returns true if the CPU could not trace the fault to a specific descriptor: the error code
    /// is empty.
    pub fn is_untraceable(&self) -> (r: bool)
        ensures
            r == (self@ == 0),
    {
        self.is_empty()
    }

    /// Extracts the 13-bit index of the descriptor that caused the fault.
    pub fn selector_index(&self) -> (r: u16)
        ensures
            r == (self@ & GPF_SELECTOR_INDEX_MASK) >> 3u64,
            r < 0x2000,
    {
        let b = self.bits;
        assert((b & 0xFFF8u64) >> 3u64 < 0x2000u64) by (bit_vector);
        ((self.bits & GPF_SELECTOR_INDEX_MASK) >> 3u64) as u16
    }

    /// Which table failed: the IDT, else the LDT or the GDT by the table indicator.
    pub fn table_name(&self) -> (r: &'static str)
        ensures
            r == table_name_of(self@),
    {
        if self.contains(GPF_IDT) {
            "IDT"
        } else if self.contains(GPF_TABLE_INDICATOR) {
            "LDT"
        } else {
            "GDT"
        }
    }
}

} // verus!
