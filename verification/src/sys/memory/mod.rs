//! Memory Manager implementations and utilities.
//!
//! ## Physical Memory Manager (PMM)
//!
//! A buddy allocator that hands out power-of-two blocks of physical memory.
//!
//! ## Virtual Memory Manager (VMM)
//!
//! The architecture-agnostic mapping interface and the MMIO mapping planner.
//!
//! ## Kernel Heap Manager (KHM)
//!
//! The heap expansion logic that grows the kernel heap a chunk at a time.

pub mod khm;
pub mod memory_map;
pub mod pmm;
pub mod vmm;
