//! The bitmap frame allocator, kept beside the buddy allocator of `sys::memory`.

pub mod pmm;
pub mod frame_alloc;
