//! Platform device discovery.

pub mod pci;
