//! Scan of the 256 buses of PCI segment group 0, as a state machine.
//!
//! For each bus and each of its 32 device slots, function 0 is probed first: when it has no
//! address or reads vendor 0xFFFF the slot is skipped. Otherwise each of the 8 functions is
//! probed and every one that answers is recorded with its class.

use crate::platform::pci::device::{PciDevice, PciDeviceClass};
use crate::platform::pci::virtio::VIRTIO_VENDOR;
use vstd::prelude::*;

verus! {

/// The class of a device: VirtIO devices by their device ID (legacy and modern IDs), USB
/// controllers (class 0x0C, subclass 0x03), and the class code and subclass of the rest.
pub open spec fn device_class(vendor_id: u16, device_id: u16, class_code: u8, subclass: u8) -> PciDeviceClass {
    if vendor_id == VIRTIO_VENDOR {
        if device_id == 0x1000 || device_id == 0x1041 {
            PciDeviceClass::VirtioNet
        } else if device_id == 0x1001 || device_id == 0x1042 {
            PciDeviceClass::VirtioBlock
        } else if device_id == 0x1002 || device_id == 0x1043 {
            PciDeviceClass::VirtioConsole
        } else if device_id == 0x1003 || device_id == 0x1044 {
            PciDeviceClass::VirtioRng
        } else if device_id == 0x1050 {
            PciDeviceClass::VirtioGpu
        } else if device_id == 0x1052 {
            PciDeviceClass::VirtioInput
        } else if device_id == 0x1053 {
            PciDeviceClass::VirtioSocket
        } else {
            PciDeviceClass::Other(class_code, subclass)
        }
    } else if class_code == 0x0C && subclass == 0x03 {
        PciDeviceClass::UsbController
    } else {
        PciDeviceClass::Other(class_code, subclass)
    }
}

/// Classifies a device from its vendor and device IDs, class code and subclass.
pub fn categorize_device(vendor_id: u16, device_id: u16, class_code: u8, subclass: u8) -> (r:
    PciDeviceClass)
    ensures
        r == device_class(vendor_id, device_id, class_code, subclass),
{
    if vendor_id == VIRTIO_VENDOR {
        match device_id {
            0x1000 | 0x1041 => PciDeviceClass::VirtioNet,
            0x1001 | 0x1042 => PciDeviceClass::VirtioBlock,
            0x1002 | 0x1043 => PciDeviceClass::VirtioConsole,
            0x1003 | 0x1044 => PciDeviceClass::VirtioRng,
            0x1050 => PciDeviceClass::VirtioGpu,
            0x1052 => PciDeviceClass::VirtioInput,
            0x1053 => PciDeviceClass::VirtioSocket,
            _ => PciDeviceClass::Other(class_code, subclass),
        }
    } else if class_code == 0x0C && subclass == 0x03 {
        PciDeviceClass::UsbController
    } else {
        PciDeviceClass::Other(class_code, subclass)
    }
}

/// The device record for a function that answered: the class is taken from the class register
/// (class code in its high byte, subclass in its low byte).
pub open spec fn device_record(
    bus: u8,
    device: u8,
    function: u8,
    vendor_id: u16,
    device_id: u16,
    class_info: u16,
    config_base: u64,
) -> PciDevice {
    PciDevice {
        bus,
        device,
        function,
        vendor_id,
        device_id,
        class: device_class(vendor_id, device_id, (class_info >> 8u16) as u8, (class_info & 0xff) as u8),
        config_base_phys_address: config_base,
    }
}

/// What the bus scanner asks the kernel to do next.
#[derive(Debug, Clone, Copy, PartialEq, Eq, Structural)]
pub enum BusScanAction {
    /// Look up function 0 of the slot and read its vendor ID, then call
    /// [PciBusScan::record_slot].
    ProbeSlot { bus: u8, device: u8 },
    /// Look up the function and read its header, then call [PciBusScan::record_function].
    ProbeFunction { bus: u8, device: u8, function: u8 },
    /// Every bus has been scanned.
    Done,
}

/// What the kernel found at a function.
#[derive(Debug, Clone, Copy, PartialEq, Eq, Structural)]
pub enum FunctionProbe {
    /// No configuration region covers the function.
    NoAddress,
    /// The vendor ID read 0xFFFF.
    Empty,
    /// The function answered: its vendor and device IDs, class register (offset 0x0A) and the
    /// physical address of its configuration space.
    Present { vendor_id: u16, device_id: u16, class_info: u16, config_base: u64 },
}

/// The position of a bus scan: bus (256 when done), device, and the function being probed
/// (`None` while function 0 of the slot is checked).
pub type BusScanPosition = (nat, nat, Option<nat>);

/// The position after a device slot: the next slot, else the first slot of the next bus.
pub open spec fn after_slot(p: BusScanPosition) -> BusScanPosition {
    if p.1 + 1 < 32 {
        (p.0, p.1 + 1, None)
    } else {
        (p.0 + 1, 0, None)
    }
}

/// State of a scan of segment group 0.
pub struct PciBusScan {
    bus: u16,
    device: u8,
    function: Option<u8>,
    devices: Vec<PciDevice>,
}

impl PciBusScan {
    pub closed spec fn position(&self) -> BusScanPosition {
        (
            self.bus as nat,
            self.device as nat,
            match self.function {
                Some(f) => Some(f as nat),
                None => None,
            },
        )
    }

    /// The devices found so far, in order.
    pub closed spec fn found(&self) -> Seq<PciDevice> {
        self.devices@
    }

    /// The position names a bus (or the end), a device slot below 32 and a function below 8.
    pub open spec fn wf(&self) -> bool {
        let p = self.position();
        &&& p.0 <= 256
        &&& p.1 < 32
        &&& p.2 matches Some(f) ==> f < 8
        &&& p.0 == 256 ==> p.1 == 0 && p.2 is None
    }

    /// A scan starting at slot 0 of bus 0.
    pub fn new() -> (r: Self)
        ensures
            r.wf(),
            r.position() == (0nat, 0nat, None::<nat>),
            r.found() == Seq::<PciDevice>::empty(),
    {
        PciBusScan { bus: 0, device: 0, function: None, devices: Vec::new() }
    }

    /// What to do next.
    pub fn next_action(&self) -> (r: BusScanAction)
        requires
            self.wf(),
        ensures
            ({
                let p = self.position();
                if p.0 >= 256 {
                    r == BusScanAction::Done
                } else {
                    match p.2 {
                        None => r == (BusScanAction::ProbeSlot { bus: p.0 as u8, device: p.1 as u8 }),
                        Some(f) => r == (BusScanAction::ProbeFunction {
                            bus: p.0 as u8,
                            device: p.1 as u8,
                            function: f as u8,
                        }),
                    }
                }
            }),
    {
        if self.bus >= 256 {
            BusScanAction::Done
        } else {
            match self.function {
                None => BusScanAction::ProbeSlot { bus: self.bus as u8, device: self.device },
                Some(function) => BusScanAction::ProbeFunction {
                    bus: self.bus as u8,
                    device: self.device,
                    function,
                },
            }
        }
    }

    fn next_slot(&mut self)
        requires
            old(self).wf(),
            old(self).position().0 < 256,
        ensures
            final(self).wf(),
            final(self).found() == old(self).found(),
            final(self).position() == after_slot(old(self).position()),
    {
        if self.device + 1 < 32 {
            self.device = self.device + 1;
        } else {
            self.bus = self.bus + 1;
            self.device = 0;
        }
        self.function = None;
    }

    /// Records whether function 0 of the current slot answered (it has an address and a vendor
    /// ID other than 0xFFFF): if it did, its functions are probed from 0; otherwise the slot is
    /// skipped.
    pub fn record_slot(&mut self, occupied: bool)
        requires
            old(self).wf(),
            old(self).position().0 < 256,
            old(self).position().2 is None,
        ensures
            final(self).wf(),
            final(self).found() == old(self).found(),
            final(self).position() == if occupied {
                (old(self).position().0, old(self).position().1, Some(0nat))
            } else {
                after_slot(old(self).position())
            },
    {
        if occupied {
            self.function = Some(0);
        } else {
            self.next_slot();
        }
    }

    /// Records what the current function showed and moves to the next function (or slot after
    /// function 7). A function that answered is added with its class.
    pub fn record_function(&mut self, probe: FunctionProbe)
        requires
            old(self).wf(),
            old(self).position().0 < 256,
            old(self).position().2 is Some,
        ensures
            final(self).wf(),
            ({
                let p = old(self).position();
                let f = p.2->0;
                &&& final(self).position() == if f + 1 < 8 {
                    (p.0, p.1, Some(f + 1))
                } else {
                    after_slot(p)
                }
                &&& final(self).found() == match probe {
                    FunctionProbe::Present { vendor_id, device_id, class_info, config_base } => old(
                        self,
                    ).found().push(
                        device_record(
                            p.0 as u8,
                            p.1 as u8,
                            f as u8,
                            vendor_id,
                            device_id,
                            class_info,
                            config_base,
                        ),
                    ),
                    _ => old(self).found(),
                }
            }),
    {
        let function = match self.function {
            Some(f) => f,
            None => 0,
        };
        if let FunctionProbe::Present { vendor_id, device_id, class_info, config_base } = probe {
            // Offset 0x0A holds the Class (high byte) and Subclass (low byte).
            let class_code = (class_info >> 8u16) as u8;
            let subclass = (class_info & 0xFF) as u8;
            let device_class = categorize_device(vendor_id, device_id, class_code, subclass);
            self.devices.push(
                PciDevice::new(
                    self.bus as u8,
                    self.device,
                    function,
                    vendor_id,
                    device_id,
                    device_class,
                    config_base,
                ),
            );
        }
        if function + 1 < 8 {
            self.function = Some(function + 1);
        } else {
            self.next_slot();
        }
    }

    /// Ends the scan, handing over the devices discovered.
    pub fn into_devices(self) -> (r: Vec<PciDevice>)
        ensures
            r@ == self.found(),
    {
        self.devices
    }
}

/// An upper bound on the steps a bus scan at position `p` still takes: each slot of each bus
/// left takes at most nine steps (the slot check and eight functions).
pub open spec fn bus_scan_steps_left(p: BusScanPosition) -> int {
    (256 - p.0) * 288 - p.1 * 9 - match p.2 {
        None => 0,
        Some(f) => f + 1,
    }
}

/// Law: the bus scan terminates. Every step it takes from a valid position short of the end
/// (checking a slot, or probing a function) lowers the bound on the steps left, which never goes
/// below zero; so the scan reaches `Done` after at most 256 * 32 * 9 steps.
pub proof fn lemma_bus_scan_terminates(p: BusScanPosition, occupied: bool)
    requires
        p.0 < 256,
        p.1 < 32,
        p.2 matches Some(f) ==> f < 8,
    ensures
        bus_scan_steps_left(p) > 0,
        p.2 is None ==> {
            let next = if occupied {
                (p.0, p.1, Some(0nat))
            } else {
                after_slot(p)
            };
            0 <= bus_scan_steps_left(next) < bus_scan_steps_left(p)
        },
        p.2 matches Some(f) ==> {
            let next = if f + 1 < 8 {
                (p.0, p.1, Some((f + 1) as nat))
            } else {
                after_slot(p)
            };
            0 <= bus_scan_steps_left(next) < bus_scan_steps_left(p)
        },
{
}

/// Law: the VirtIO devices (vendor 0x1AF4) are told apart by device ID, the transitional
/// (legacy) ID and the modern one alike, whatever their class registers say: 0x1000 and 0x1041
/// are network cards, 0x1001 and 0x1042 block devices, 0x1002 and 0x1043 consoles, 0x1003 and
/// 0x1044 entropy sources, 0x1050 GPUs, 0x1052 input devices, 0x1053 sockets. Another VirtIO ID
/// keeps its class code and subclass; so does any other vendor's device, except that class 0x0C
/// subclass 0x03 is a USB controller.
pub proof fn lemma_device_classes(device_id: u16, class_code: u8, subclass: u8, vendor_id: u16)
    ensures
        device_class(0x1AF4, 0x1000, class_code, subclass) == PciDeviceClass::VirtioNet,
        device_class(0x1AF4, 0x1041, class_code, subclass) == PciDeviceClass::VirtioNet,
        device_class(0x1AF4, 0x1001, class_code, subclass) == PciDeviceClass::VirtioBlock,
        device_class(0x1AF4, 0x1042, class_code, subclass) == PciDeviceClass::VirtioBlock,
        device_class(0x1AF4, 0x1002, class_code, subclass) == PciDeviceClass::VirtioConsole,
        device_class(0x1AF4, 0x1043, class_code, subclass) == PciDeviceClass::VirtioConsole,
        device_class(0x1AF4, 0x1003, class_code, subclass) == PciDeviceClass::VirtioRng,
        device_class(0x1AF4, 0x1044, class_code, subclass) == PciDeviceClass::VirtioRng,
        device_class(0x1AF4, 0x1050, class_code, subclass) == PciDeviceClass::VirtioGpu,
        device_class(0x1AF4, 0x1052, class_code, subclass) == PciDeviceClass::VirtioInput,
        device_class(0x1AF4, 0x1053, class_code, subclass) == PciDeviceClass::VirtioSocket,
        device_id != 0x1000 && device_id != 0x1041 && device_id != 0x1001 && device_id != 0x1042
            && device_id != 0x1002 && device_id != 0x1043 && device_id != 0x1003 && device_id
            != 0x1044 && device_id != 0x1050 && device_id != 0x1052 && device_id != 0x1053
            ==> device_class(0x1AF4, device_id, class_code, subclass) == PciDeviceClass::Other(
            class_code,
            subclass,
        ),
        vendor_id != 0x1AF4 ==> device_class(vendor_id, device_id, 0x0C, 0x03)
            == PciDeviceClass::UsbController,
        vendor_id != 0x1AF4 && !(class_code == 0x0C && subclass == 0x03) ==> device_class(
            vendor_id,
            device_id,
            class_code,
            subclass,
        ) == PciDeviceClass::Other(class_code, subclass),
{
}

/// Law: a function found by the bus scan is classified from its IDs and from its class
/// register, class code in the high byte and subclass in the low byte; a VirtIO network card,
/// legacy or modern, is recorded as one whatever its class register holds.
pub proof fn lemma_recorded_class(
    bus: u8,
    device: u8,
    function: u8,
    vendor_id: u16,
    device_id: u16,
    class_info: u16,
    config_base: u64,
)
    ensures
        device_record(bus, device, function, vendor_id, device_id, class_info, config_base).class
            == device_class(vendor_id, device_id, (class_info / 256) as u8, (class_info % 256) as u8),
        device_record(bus, device, function, 0x1AF4, 0x1000, class_info, config_base).class
            == PciDeviceClass::VirtioNet,
        device_record(bus, device, function, 0x1AF4, 0x1041, class_info, config_base).class
            == PciDeviceClass::VirtioNet,
        device_record(bus, device, function, 0x1AF4, 0x1001, class_info, config_base).class
            == PciDeviceClass::VirtioBlock,
        device_record(bus, device, function, 0x1AF4, 0x1042, class_info, config_base).class
            == PciDeviceClass::VirtioBlock,
{
    assert((class_info >> 8u16) as u8 == (class_info / 256) as u8) by (bit_vector);
    assert((class_info & 0xff) as u8 == (class_info % 256) as u8) by (bit_vector);
}

} // verus!
