//! Enumeration of the PCIe bus through ECAM, as a state machine.
//!
//! The kernel maps each ECAM region and reads the configuration headers; the [PciScan] decides
//! what to map and which bus/device/function to probe next, and collects the devices found.
//! Buses are walked in order, 32 devices per bus and 8 functions per device; an absent function
//! 0 skips the whole device, and a single-function device (bit 7 of its header type clear) skips
//! its other functions.

use crate::arith::{sat_mul, sat_sub};
use crate::drivers::pci::device::PciDevice;
use vstd::prelude::*;

verus! {

/// One ECAM region of the MCFG table.
#[derive(Debug, Clone, Copy, PartialEq, Eq, Structural)]
pub struct EcamRegion {
    /// Physical base address of the region's configuration space.
    pub base_address: u64,
    /// PCI segment group that the region serves.
    pub segment_group: u16,
    /// First bus of the region.
    pub bus_start: u8,
    /// Last bus of the region (inclusive).
    pub bus_end: u8,
}

/// The region's configuration space ends inside the address space.
pub open spec fn ecam_region_sound(r: EcamRegion) -> bool {
    r.base_address <= u64::MAX - 0x1000_0000
}

/// Offset of a function's configuration space inside its region.
pub open spec fn ecam_offset(bus_in_region: u8, device: u8, function: u8) -> u64 {
    ((bus_in_region as u64) << 20u64) | ((device as u64) << 15u64) | ((function as u64) << 12u64)
}

/// Index of the first region, at or after `i`, that serves the segment and bus.
pub open spec fn serving_region(regions: Seq<EcamRegion>, segment_group: u16, bus: u8, i: int) -> int
    decreases regions.len() - i,
{
    if i >= regions.len() || i < 0 {
        regions.len() as int
    } else if regions[i].segment_group == segment_group && regions[i].bus_start <= bus
        <= regions[i].bus_end {
        i
    } else {
        serving_region(regions, segment_group, bus, i + 1)
    }
}

/// The physical address of a function's configuration space: in the first region serving its
/// segment and bus, the region's base plus the bus (relative to the region's first bus) at bit
/// 20, the device at bit 15 and the function at bit 12. `None` when no region serves it.
pub open spec fn ecam_address(
    regions: Seq<EcamRegion>,
    segment_group: u16,
    bus: u8,
    device: u8,
    function: u8,
) -> Option<u64> {
    let i = serving_region(regions, segment_group, bus, 0);
    if i < regions.len() {
        let r = regions[i];
        Some((r.base_address + ecam_offset((bus - r.bus_start) as u8, device, function)) as u64)
    } else {
        None
    }
}

proof fn lemma_ecam_offset_bound(b: u8, d: u8, f: u8)
    ensures
        ecam_offset(b, d, f) < 0x1000_0000,
{
    let (bb, dd, ff) = (b as u64, d as u64, f as u64);
    assert(bb < 256 && dd < 256 && ff < 256 ==> (bb << 20u64) | (dd << 15u64) | (ff << 12u64)
        < 0x1000_0000u64) by (bit_vector);
}

/// Returns the physical address of the configuration space of a device function, or `None` if
/// no region of the MCFG manages it.
pub fn ecam_physical_address(
    regions: &[EcamRegion],
    segment_group: u16,
    bus: u8,
    device: u8,
    function: u8,
) -> (r: Option<u64>)
    requires
        forall|i: int| 0 <= i < regions@.len() ==> ecam_region_sound(#[trigger] regions@[i]),
    ensures
        r == ecam_address(regions@, segment_group, bus, device, function),
{
    let mut i: usize = 0;
    while i < regions.len()
        invariant
            i <= regions@.len(),
            forall|j: int| 0 <= j < regions@.len() ==> ecam_region_sound(#[trigger] regions@[j]),
            serving_region(regions@, segment_group, bus, i as int) == serving_region(
                regions@,
                segment_group,
                bus,
                0,
            ),
        decreases regions@.len() - i,
    {
        let region = regions[i];
        if region.segment_group == segment_group && region.bus_start <= bus && bus
            <= region.bus_end {
            let offset = ((((bus - region.bus_start) as u64) << 20u64) | ((device as u64) << 15u64)
                | ((function as u64) << 12u64));
            proof {
                lemma_ecam_offset_bound((bus - region.bus_start) as u8, device, function);
                assert(ecam_region_sound(regions@[i as int]));
            }
            return Some(region.base_address + offset);
        }
        i = i + 1;
    }
    None
}

/// Size in bytes of a region's configuration space: 1MiB per bus (32 devices, 8 functions,
/// 4096 bytes each), saturating.
pub open spec fn ecam_region_bytes(r: EcamRegion) -> u64 {
    sat_mul(sat_mul(sat_sub(r.bus_end as int + 1, r.bus_start as int) as int, 1024) as int, 1024)
}

/// Returns the size in bytes of a region's configuration space.
pub fn ecam_region_size(region: &EcamRegion) -> (r: u64)
    ensures
        r == ecam_region_bytes(*region),
{
    let num_buses = (region.bus_end as u64 + 1).saturating_sub(region.bus_start as u64);
    crate::arith::saturating_mul_u64(crate::arith::saturating_mul_u64(num_buses, 1024), 1024)
}

/// A vendor ID of 0xFFFF means that no silicon answers in the slot.
pub fn pci_slot_empty(vendor_id: u16) -> (r: bool)
    ensures
        r == (vendor_id == 0xFFFF),
{
    vendor_id == 0xFFFF
}

/// What the scanner asks the kernel to do next.
#[derive(Debug, Clone, Copy, PartialEq, Eq, Structural)]
pub enum ScanAction {
    /// Map the configuration space of the next region into the HHDM, then call
    /// [PciScan::region_mapped].
    MapRegion { phys_addr: u64, size_bytes: u64 },
    /// Read the configuration header of this function, then call [PciScan::record].
    Probe { segment_group: u16, bus: u8, device: u8, function: u8 },
    /// The enumeration is complete.
    Done,
}

/// What the kernel found when it probed a function.
#[derive(Debug, Clone, Copy, PartialEq, Eq, Structural)]
pub enum ProbeOutcome {
    /// No region gives the function an address.
    NoAddress,
    /// The vendor ID read 0xFFFF: nothing there.
    Empty,
    /// A function answered. The header type is read for function 0 only (0 otherwise).
    Present { vendor_id: u16, device_id: u16, header_type: u8 },
}

/// The position of a scan: region, whether its configuration space is mapped, bus, device,
/// function.
pub type ScanPosition = (nat, bool, nat, nat, nat);

/// The position after the last function of a device: the next device, else the next bus of the
/// region, else the next region (not yet mapped).
pub open spec fn after_device(regions: Seq<EcamRegion>, p: ScanPosition) -> ScanPosition {
    if p.3 + 1 < 32 {
        (p.0, true, p.2, p.3 + 1, 0)
    } else if p.2 < regions[p.0 as int].bus_end {
        (p.0, true, p.2 + 1, 0, 0)
    } else {
        (p.0 + 1, false, 0, 0, 0)
    }
}

/// The position after a function: the next function of the device, else as after the device.
pub open spec fn after_function(regions: Seq<EcamRegion>, p: ScanPosition) -> ScanPosition {
    if p.4 + 1 < 8 {
        (p.0, true, p.2, p.3, p.4 + 1)
    } else {
        after_device(regions, p)
    }
}

/// State of a PCIe enumeration.
pub struct PciScan {
    region: usize,
    mapped: bool,
    bus: u8,
    device: u8,
    function: u8,
    devices: Vec<PciDevice>,
}

impl PciScan {
    pub closed spec fn position(&self) -> ScanPosition {
        (self.region as nat, self.mapped, self.bus as nat, self.device as nat, self.function as nat)
    }

    /// The devices found so far, in the order they were found.
    pub closed spec fn found(&self) -> Seq<PciDevice> {
        self.devices@
    }

    /// The position is a valid one for these regions: while a region is mapped, the position
    /// names a bus of it, a device below 32 and a function below 8.
    pub open spec fn wf(&self, regions: Seq<EcamRegion>) -> bool {
        let p = self.position();
        &&& p.0 <= regions.len()
        &&& p.1 ==> p.0 < regions.len() && regions[p.0 as int].bus_start <= p.2 <= regions[p.0 as int].bus_end
            && p.3 < 32 && p.4 < 8
        &&& !p.1 ==> p.2 == 0 && p.3 == 0 && p.4 == 0
    }

    /// A scan that starts at the first region, before it is mapped.
    pub fn new() -> (r: Self)
        ensures
            r.position() == (0nat, false, 0nat, 0nat, 0nat),
            r.found() == Seq::<PciDevice>::empty(),
    {
        PciScan { region: 0, mapped: false, bus: 0, device: 0, function: 0, devices: Vec::new() }
    }

    /// What to do next: map the current region, probe the current function, or stop after the
    /// last region.
    pub fn next_action(&self, regions: &[EcamRegion]) -> (r: ScanAction)
        requires
            self.wf(regions@),
        ensures
            ({
                let p = self.position();
                if p.0 >= regions@.len() {
                    r == ScanAction::Done
                } else if !p.1 {
                    r == (ScanAction::MapRegion {
                        phys_addr: regions@[p.0 as int].base_address,
                        size_bytes: ecam_region_bytes(regions@[p.0 as int]),
                    })
                } else {
                    r == (ScanAction::Probe {
                        segment_group: regions@[p.0 as int].segment_group,
                        bus: p.2 as u8,
                        device: p.3 as u8,
                        function: p.4 as u8,
                    })
                }
            }),
    {
        if self.region >= regions.len() {
            ScanAction::Done
        } else if !self.mapped {
            let region = &regions[self.region];
            ScanAction::MapRegion {
                phys_addr: region.base_address,
                size_bytes: ecam_region_size(region),
            }
        } else {
            ScanAction::Probe {
                segment_group: regions[self.region].segment_group,
                bus: self.bus,
                device: self.device,
                function: self.function,
            }
        }
    }

    /// The current region is mapped: start at its first bus, device 0, function 0 (or move to the
    /// next region if it has no bus).
    pub fn region_mapped(&mut self, regions: &[EcamRegion])
        requires
            old(self).wf(regions@),
            !old(self).position().1,
            old(self).position().0 < regions@.len(),
        ensures
            final(self).wf(regions@),
            final(self).found() == old(self).found(),
            ({
                let r = regions@[old(self).position().0 as int];
                final(self).position() == if r.bus_start <= r.bus_end {
                    (old(self).position().0, true, r.bus_start as nat, 0nat, 0nat)
                } else {
                    (old(self).position().0 + 1, false, 0nat, 0nat, 0nat)
                }
            }),
    {
        let region = regions[self.region];
        if region.bus_start <= region.bus_end {
            self.mapped = true;
            self.bus = region.bus_start;
            self.device = 0;
            self.function = 0;
        } else {
            self.region = self.region + 1;
        }
    }

    /// Moves past the current device.
    fn next_device(&mut self, regions: &[EcamRegion])
        requires
            old(self).wf(regions@),
            old(self).position().1,
        ensures
            final(self).wf(regions@),
            final(self).found() == old(self).found(),
            final(self).position() == after_device(regions@, old(self).position()),
    {
        if self.device + 1 < 32 {
            self.device = self.device + 1;
            self.function = 0;
        } else if self.bus < regions[self.region].bus_end {
            self.bus = self.bus + 1;
            self.device = 0;
            self.function = 0;
        } else {
            self.region = self.region + 1;
            self.mapped = false;
            self.bus = 0;
            self.device = 0;
            self.function = 0;
        }
    }

    /// Moves past the current function.
    fn next_function(&mut self, regions: &[EcamRegion])
        requires
            old(self).wf(regions@),
            old(self).position().1,
        ensures
            final(self).wf(regions@),
            final(self).found() == old(self).found(),
            final(self).position() == after_function(regions@, old(self).position()),
    {
        if self.function + 1 < 8 {
            self.function = self.function + 1;
        } else {
            self.next_device(regions);
        }
    }

    /// Records what probing the current function found and moves on: a function that answered
    /// is added to the devices; an empty function 0, or a single-function device (bit 7 of its
    /// header type clear), ends the device; otherwise the next function is probed.
    pub fn record(&mut self, regions: &[EcamRegion], outcome: ProbeOutcome)
        requires
            old(self).wf(regions@),
            old(self).position().1,
        ensures
            final(self).wf(regions@),
            ({
                let p = old(self).position();
                match outcome {
                    ProbeOutcome::NoAddress => {
                        &&& final(self).found() == old(self).found()
                        &&& final(self).position() == after_function(regions@, p)
                    },
                    ProbeOutcome::Empty => {
                        &&& final(self).found() == old(self).found()
                        &&& final(self).position() == if p.4 == 0 {
                            after_device(regions@, p)
                        } else {
                            after_function(regions@, p)
                        }
                    },
                    ProbeOutcome::Present { vendor_id, device_id, header_type } => {
                        &&& final(self).found() == old(self).found().push(
                            PciDevice {
                                segment_group: regions@[p.0 as int].segment_group,
                                bus: p.2 as u8,
                                device: p.3 as u8,
                                function: p.4 as u8,
                                vendor_id,
                                device_id,
                            },
                        )
                        &&& final(self).position() == if p.4 == 0 && header_type & 0x80 == 0 {
                            after_device(regions@, p)
                        } else {
                            after_function(regions@, p)
                        }
                    },
                }
            }),
    {
        match outcome {
            ProbeOutcome::NoAddress => {
                // Invalid BDF address: skip it.
                self.next_function(regions);
            },
            ProbeOutcome::Empty => {
                if self.function == 0 {
                    // If Function 0 doesn't exist, the whole device slot is empty.
                    self.next_device(regions);
                } else {
                    self.next_function(regions);
                }
            },
            ProbeOutcome::Present { vendor_id, device_id, header_type } => {
                self.devices.push(
                    PciDevice::new(
                        regions[self.region].segment_group,
                        self.bus,
                        self.device,
                        self.function,
                        vendor_id,
                        device_id,
                    ),
                );
                // A device whose header type has bit 7 clear has only one function.
                if self.function == 0 && (header_type & 0x80) == 0 {
                    self.next_device(regions);
                } else {
                    self.next_function(regions);
                }
            },
        }
    }

    /// The devices discovered so far.
    pub fn devices(&self) -> (r: &Vec<PciDevice>)
        ensures
            r@ == self.found(),
    {
        &self.devices
    }

    /// Ends the scan, handing over the devices discovered.
    pub fn into_devices(self) -> (r: Vec<PciDevice>)
        ensures
            r@ == self.found(),
    {
        self.devices
    }
}

/// Position `a` comes strictly before position `b` in the order the scan visits positions:
/// by region, then unmapped before mapped, then bus, device and function.
pub open spec fn position_before(a: ScanPosition, b: ScanPosition) -> bool {
    ||| a.0 < b.0
    ||| a.0 == b.0 && !a.1 && b.1
    ||| a.0 == b.0 && a.1 == b.1 && a.2 < b.2
    ||| a.0 == b.0 && a.1 == b.1 && a.2 == b.2 && a.3 < b.3
    ||| a.0 == b.0 && a.1 == b.1 && a.2 == b.2 && a.3 == b.3 && a.4 < b.4
}

/// Law: the enumeration only moves forward. Mapping a region, finishing a function and
/// skipping the rest of a device each lead to a position strictly after the current one, so no
/// function is probed twice and, the positions being bounded (regions, 256 buses, 32 devices,
/// 8 functions), the scan ends.
pub proof fn lemma_scan_moves_forward(regions: Seq<EcamRegion>, p: ScanPosition)
    requires
        p.0 < regions.len(),
        p.1 ==> regions[p.0 as int].bus_start <= p.2 <= regions[p.0 as int].bus_end && p.3 < 32
            && p.4 < 8,
        !p.1 ==> p.2 == 0 && p.3 == 0 && p.4 == 0,
    ensures
        !p.1 ==> {
            let r = regions[p.0 as int];
            position_before(
                p,
                if r.bus_start <= r.bus_end {
                    (p.0, true, r.bus_start as nat, 0nat, 0nat)
                } else {
                    (p.0 + 1, false, 0nat, 0nat, 0nat)
                },
            )
        },
        p.1 ==> position_before(p, after_function(regions, p)),
        p.1 ==> position_before(p, after_device(regions, p)),
{
}

} // verus!
