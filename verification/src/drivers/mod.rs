//! Device drivers: PCIe discovery, the TSC timer and VirtIO devices.

pub mod pci;
pub mod timer;
pub mod virtio;
