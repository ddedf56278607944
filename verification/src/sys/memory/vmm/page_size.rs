use vstd::prelude::*;

verus! {

/// The size of memory pages the VMM supports.
#[derive(Debug, Clone, Copy, PartialEq, Eq, Structural)]
pub enum PageSize {
    Size4KiB,
    Size2MiB,
    Size1GiB,
}

impl PageSize {
    /// Bytes spanned by a page of this size.
    pub open spec fn bytes(self) -> nat {
        match self {
            PageSize::Size4KiB => 0x1000,
            PageSize::Size2MiB => 0x20_0000,
            PageSize::Size1GiB => 0x4000_0000,
        }
    }
}

} // verus!
