//! Global Descriptor Table layout: the selectors of its segments and the stack of the double
//! fault handler.

use vstd::prelude::*;

verus! {

/// Assign the Double Fault stack to index zero in the IST.
pub const GDT_DOUBLE_FAULT_IST_INDEX: u16 = 0;

/// Special stack space for double faults.
pub const GDT_IST_DOUBLE_FAULT_STACK_SIZE: usize = 65536;

/// Helper struct to hold the memory offsets (selectors) of the GDT entries, as raw selector
/// values.
#[derive(Debug, Clone, Copy, PartialEq, Eq, Structural)]
pub struct Selectors {
    pub kernel_code_selector: u16,
    pub kernel_data_selector: u16,
    pub tss_selector: u16,
    pub user_data_selector: u16,
    pub user_code_selector: u16,
}

/// The top of the double fault stack that starts at `stack_start` (the stack grows
/// downwards).
pub fn double_fault_stack_top(stack_start: u64) -> (r: u64)
    requires
        stack_start + GDT_IST_DOUBLE_FAULT_STACK_SIZE <= u64::MAX,
    ensures
        r == stack_start + GDT_IST_DOUBLE_FAULT_STACK_SIZE,
{
    stack_start + 65536u64
}

} // verus!
