use vstd::prelude::*;

verus! {

/// The Vendor ID of VirtIO PCI Devices.
pub const VIRTIO_VENDOR: u16 = 0x1AF4;

} // verus!
