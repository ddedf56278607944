use vstd::prelude::*;

verus! {

/// We assign the Double Fault stack to index 0 in the IST.
pub const DOUBLE_FAULT_IST_INDEX: u16 = 0;

/// Size of the double fault stack: 32 KiB.
pub const DOUBLE_FAULT_STACK_SIZE: usize = 0x8000;

} // verus!
