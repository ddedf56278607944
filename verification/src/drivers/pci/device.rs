use vstd::prelude::*;

verus! {

/// Represents a discovered PCIe Device.
#[derive(Debug, Clone, Copy, PartialEq, Eq, Structural)]
pub struct PciDevice {
    pub segment_group: u16,
    pub bus: u8,
    pub device: u8,
    pub function: u8,
    pub vendor_id: u16,
    pub device_id: u16,
}

impl PciDevice {
    pub fn new(
        segment_group: u16,
        bus: u8,
        device: u8,
        function: u8,
        vendor_id: u16,
        device_id: u16,
    ) -> (r: Self)
        ensures
            r == (PciDevice { segment_group, bus, device, function, vendor_id, device_id }),
    {
        PciDevice { segment_group, bus, device, function, vendor_id, device_id }
    }

    pub fn segment_group(&self) -> (r: u16)
        ensures
            r == self.segment_group,
    {
        self.segment_group
    }

    pub fn bus(&self) -> (r: u8)
        ensures
            r == self.bus,
    {
        self.bus
    }

    pub fn device(&self) -> (r: u8)
        ensures
            r == self.device,
    {
        self.device
    }

    pub fn function(&self) -> (r: u8)
        ensures
            r == self.function,
    {
        self.function
    }

    pub fn vendor_id(&self) -> (r: u16)
        ensures
            r == self.vendor_id,
    {
        self.vendor_id
    }

    pub fn device_id(&self) -> (r: u16)
        ensures
            r == self.device_id,
    {
        self.device_id
    }

    /// The device is a VirtIO GPU (vendor 0x1AF4, device 0x1050), whose BARs the kernel inspects.
    pub fn is_virtio_gpu(&self) -> (r: bool)
        ensures
            r == (self.vendor_id == 0x1AF4 && self.device_id == 0x1050),
    {
        self.vendor_id == 0x1AF4 && self.device_id == 0x1050
    }
}

} // verus!
