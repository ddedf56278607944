use vstd::prelude::*;

verus! {

/// Architecture-agnostic memory mapping flags, one bit each.
#[derive(Debug, Clone, Copy, PartialEq, Eq, Structural)]
pub struct MapFlags {
    /// The flag bits (`MAP_PRESENT`, `MAP_WRITABLE`, ...).
    pub bits: u64,
}

/// Bit of `MapFlags::PRESENT`.
pub const MAP_PRESENT: u64 = 0x1;

/// Bit of `MapFlags::WRITABLE`.
pub const MAP_WRITABLE: u64 = 0x2;

/// Bit of `MapFlags::USER`: accessible from Ring 3.
pub const MAP_USER: u64 = 0x4;

/// Bit of `MapFlags::NO_EXECUTE`: code execution is prevented (NX bit).
pub const MAP_NO_EXECUTE: u64 = 0x8;

/// Bit of `MapFlags::NO_CACHE`: the CPU cache is bypassed (crucial for MMIO).
pub const MAP_NO_CACHE: u64 = 0x10;

/// All defined flag bits.
pub const MAP_ALL: u64 = 0x1f;

impl MapFlags {
    pub open spec fn view(self) -> u64 {
        self.bits
    }


    /// The set holding the single flag `MAP_PRESENT`.
    pub fn present() -> (r: Self)
        ensures
            r@ == MAP_PRESENT,
    {
        MapFlags { bits: MAP_PRESENT }
    }

    /// The set holding the single flag `MAP_WRITABLE`.
    pub fn writable() -> (r: Self)
        ensures
            r@ == MAP_WRITABLE,
    {
        MapFlags { bits: MAP_WRITABLE }
    }

    /// The set holding the single flag `MAP_USER`.
    pub fn user() -> (r: Self)
        ensures
            r@ == MAP_USER,
    {
        MapFlags { bits: MAP_USER }
    }

    /// The set holding the single flag `MAP_NO_EXECUTE`.
    pub fn no_execute() -> (r: Self)
        ensures
            r@ == MAP_NO_EXECUTE,
    {
        MapFlags { bits: MAP_NO_EXECUTE }
    }

    /// The set holding the single flag `MAP_NO_CACHE`.
    pub fn no_cache() -> (r: Self)
        ensures
            r@ == MAP_NO_CACHE,
    {
        MapFlags { bits: MAP_NO_CACHE }
    }

    /// The set without any flag.
    pub fn empty() -> (r: Self)
        ensures
            r@ == 0,
    {
        MapFlags { bits: 0 }
    }

    /// The flags whose bits are set in `bits`; undefined bits are dropped.
    pub fn from_bits_truncate(bits: u64) -> (r: Self)
        ensures
            r@ == bits & MAP_ALL,
    {
        MapFlags { bits: bits & MAP_ALL }
    }

    /// The raw bits of the set.
    pub fn bits(&self) -> (r: u64)
        ensures
            r == self@,
    {
        self.bits
    }

    /// Every flag of `other` is in the set.
    pub fn contains(&self, other: MapFlags) -> (r: bool)
        ensures
            r == (self@ & other@ == other@),
    {
        self.bits & other.bits == other.bits
    }

    /// The flags in either set.
    pub fn union(self, other: MapFlags) -> (r: Self)
        ensures
            r@ == self@ | other@,
    {
        MapFlags { bits: self.bits | other.bits }
    }
}

} // verus!
