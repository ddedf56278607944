//! VirtIO devices: the DMA bookkeeping of the VirtIO HAL and the probing of block devices.

pub mod block;
pub mod hal;
