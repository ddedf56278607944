//! PCI discovery of segment group 0, with device classification.

pub mod device;
pub mod scan;
pub mod virtio;

pub use device::{PciDevice, PciDeviceClass};
pub use scan::{categorize_device, PciBusScan};
