use vstd::prelude::*;

verus! {

/// Kinds of PCI devices the kernel tells apart.
#[derive(Debug, Clone, Copy, PartialEq, Eq, Structural)]
pub enum PciDeviceClass {
    VirtioBlock,
    VirtioNet,
    VirtioGpu,
    VirtioInput,
    VirtioRng,
    VirtioSocket,
    VirtioConsole,
    UsbController,
    /// Any other device: its class code and subclass.
    Other(u8, u8),
}

/// A discovered PCI device function.
#[derive(Debug, Clone, Copy, PartialEq, Eq, Structural)]
pub struct PciDevice {
    pub bus: u8,
    pub device: u8,
    pub function: u8,
    pub vendor_id: u16,
    pub device_id: u16,
    pub class: PciDeviceClass,
    pub config_base_phys_address: u64,
}

impl PciDevice {
    pub fn new(
        bus: u8,
        device: u8,
        function: u8,
        vendor_id: u16,
        device_id: u16,
        class: PciDeviceClass,
        config_base_phys_address: u64,
    ) -> (r: Self)
        ensures
            r == (PciDevice {
                bus,
                device,
                function,
                vendor_id,
                device_id,
                class,
                config_base_phys_address,
            }),
    {
        PciDevice { bus, device, function, vendor_id, device_id, class, config_base_phys_address }
    }

    pub fn bus(&self) -> (r: u8)
        ensures
            r == self.bus,
    {
        self.bus
    }

    pub fn device(&self) -> (r: u8)
        ensures
            r == self.device,
    {
        self.device
    }

    pub fn function(&self) -> (r: u8)
        ensures
            r == self.function,
    {
        self.function
    }

    pub fn vendor_id(&self) -> (r: u16)
        ensures
            r == self.vendor_id,
    {
        self.vendor_id
    }

    pub fn device_id(&self) -> (r: u16)
        ensures
            r == self.device_id,
    {
        self.device_id
    }

    pub fn class(&self) -> (r: PciDeviceClass)
        ensures
            r == self.class,
    {
        self.class
    }

    pub fn config_base_phys_address(&self) -> (r: u64)
        ensures
            r == self.config_base_phys_address,
    {
        self.config_base_phys_address
    }
}

} // verus!
