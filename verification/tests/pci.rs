use quay_kernel::drivers::pci::bar::{bar_needs_upper_half, bar_register_offset, decode_bar, PciBar};
use quay_kernel::drivers::pci::device::PciDevice;
use quay_kernel::drivers::pci::scan::{
    ecam_physical_address, ecam_region_size, pci_slot_empty, EcamRegion, PciScan, ProbeOutcome,
    ScanAction,
};
use quay_kernel::platform::pci::scan::{
    categorize_device, BusScanAction, FunctionProbe, PciBusScan,
};
use quay_kernel::platform::pci::{PciDevice as PlatformPciDevice, PciDeviceClass};

fn region(base_address: u64, segment_group: u16, bus_start: u8, bus_end: u8) -> EcamRegion {
    EcamRegion { base_address, segment_group, bus_start, bus_end }
}

/// A configuration space with a single-function device at 00:00.0 and a two-function device
/// at 00:01 (functions 0 and 1); every other function reads 0xFFFF.
fn config(bus: u8, device: u8, function: u8) -> Option<(u16, u16, u8)> {
    match (bus, device, function) {
        (0, 0, 0) => Some((0x8086, 0x29C0, 0x00)),
        (0, 1, 0) => Some((0x1AF4, 0x1042, 0x80)),
        (0, 1, 1) => Some((0x1AF4, 0x1050, 0x00)),
        _ => None,
    }
}

/// Drives a scan over `regions` against `config`; returns the devices, the regions mapped and
/// the functions probed.
fn run_scan(regions: &[EcamRegion]) -> (Vec<PciDevice>, Vec<(u64, u64)>, usize) {
    let mut scan = PciScan::new();
    let mut mapped = Vec::new();
    let mut probes = 0;
    loop {
        match scan.next_action(regions) {
            ScanAction::MapRegion { phys_addr, size_bytes } => {
                mapped.push((phys_addr, size_bytes));
                scan.region_mapped(regions);
            }
            ScanAction::Probe { segment_group, bus, device, function } => {
                probes += 1;
                let outcome =
                    match ecam_physical_address(regions, segment_group, bus, device, function) {
                        None => ProbeOutcome::NoAddress,
                        Some(_) => match config(bus, device, function) {
                            None => ProbeOutcome::Empty,
                            Some((vendor_id, device_id, header_type)) => {
                                ProbeOutcome::Present { vendor_id, device_id, header_type }
                            }
                        },
                    };
                scan.record(regions, outcome);
            }
            ScanAction::Done => break,
        }
    }
    (scan.into_devices(), mapped, probes)
}

#[test]
fn bar_offsets() {
    assert_eq!(bar_register_offset(0), 0x10);
    assert_eq!(bar_register_offset(5), 0x24);
}

#[test]
fn decode_unused_and_io_bars() {
    assert_eq!(decode_bar(0, 0, 0), None);
    assert_eq!(decode_bar(1, 0xC001, 0), Some(PciBar::LegacyIo { port: 0xC000 }));
    assert!(!bar_needs_upper_half(0xC001));
}

#[test]
fn decode_memory_bars() {
    assert_eq!(
        decode_bar(0, 0xFEB0_0008, 0),
        Some(PciBar::Memory32 { address: 0xFEB0_0000, prefetchable: true })
    );
    assert_eq!(
        decode_bar(2, 0xFEB0_1000, 0),
        Some(PciBar::Memory32 { address: 0xFEB0_1000, prefetchable: false })
    );
    assert!(bar_needs_upper_half(0xE000_000C));
    assert_eq!(
        decode_bar(4, 0xE000_000C, 0x1),
        Some(PciBar::Memory64 { address: 0x1_E000_0000, prefetchable: true })
    );
    // Memory type 1 (below 1MiB) is reserved.
    assert_eq!(decode_bar(0, 0xE000_0002, 0), None);
}

#[test]
fn ecam_addresses() {
    let regions = [region(0xB000_0000, 0, 0, 0x3F), region(0xC000_0000, 1, 0x10, 0x1F)];
    assert_eq!(ecam_physical_address(&regions, 0, 1, 2, 3), Some(0xB011_3000));
    assert_eq!(ecam_physical_address(&regions, 1, 0x12, 0, 0), Some(0xC020_0000));
    assert_eq!(ecam_physical_address(&regions, 1, 0x05, 0, 0), None);
    assert_eq!(ecam_physical_address(&regions, 2, 0, 0, 0), None);
    assert_eq!(ecam_physical_address(&regions, 0, 0x40, 0, 0), None);
    assert_eq!(ecam_region_size(&regions[0]), 0x400_0000);
    assert_eq!(ecam_region_size(&region(0, 0, 5, 4)), 0);
    assert!(pci_slot_empty(0xFFFF));
    assert!(!pci_slot_empty(0x8086));
}

#[test]
fn scan_finds_devices_and_skips_empty_slots() {
    let regions = [region(0xB000_0000, 0, 0, 0)];
    let (devices, mapped, probes) = run_scan(&regions);
    assert_eq!(mapped, vec![(0xB000_0000, 0x10_0000)]);
    assert_eq!(
        devices,
        vec![
            PciDevice::new(0, 0, 0, 0, 0x8086, 0x29C0),
            PciDevice::new(0, 0, 1, 0, 0x1AF4, 0x1042),
            PciDevice::new(0, 0, 1, 1, 0x1AF4, 0x1050),
        ]
    );
    // A single-function device and each empty slot take one probe; the multi-function device
    // takes all eight.
    assert_eq!(probes, 1 + 8 + 30);
    assert!(devices[2].is_virtio_gpu());
    assert!(!devices[1].is_virtio_gpu());
    assert_eq!(devices[1].segment_group(), 0);
    assert_eq!(devices[1].bus(), 0);
    assert_eq!(devices[1].device(), 1);
    assert_eq!(devices[1].function(), 0);
    assert_eq!(devices[1].vendor_id(), 0x1AF4);
    assert_eq!(devices[1].device_id(), 0x1042);
}

#[test]
fn scan_of_no_region_is_done_at_once() {
    let (devices, mapped, probes) = run_scan(&[]);
    assert!(devices.is_empty());
    assert!(mapped.is_empty());
    assert_eq!(probes, 0);
}

#[test]
fn scan_skips_a_region_with_no_bus() {
    let regions = [region(0xB000_0000, 0, 5, 4), region(0xC000_0000, 0, 0, 0)];
    let (devices, mapped, _) = run_scan(&regions);
    assert_eq!(mapped.len(), 2);
    assert_eq!(devices.len(), 3);
}

#[test]
fn categorize_devices() {
    assert_eq!(categorize_device(0x1AF4, 0x1042, 1, 0), PciDeviceClass::VirtioBlock);
    assert_eq!(categorize_device(0x1AF4, 0x1001, 1, 0), PciDeviceClass::VirtioBlock);
    assert_eq!(categorize_device(0x1AF4, 0x1041, 2, 0), PciDeviceClass::VirtioNet);
    assert_eq!(categorize_device(0x1AF4, 0x1050, 3, 0), PciDeviceClass::VirtioGpu);
    assert_eq!(categorize_device(0x1AF4, 0x1052, 9, 0), PciDeviceClass::VirtioInput);
    assert_eq!(categorize_device(0x1AF4, 0x1044, 0, 0), PciDeviceClass::VirtioRng);
    assert_eq!(categorize_device(0x1AF4, 0x1053, 0, 0), PciDeviceClass::VirtioSocket);
    assert_eq!(categorize_device(0x1AF4, 0x1043, 0, 0), PciDeviceClass::VirtioConsole);
    assert_eq!(categorize_device(0x1AF4, 0x10FF, 7, 1), PciDeviceClass::Other(7, 1));
    assert_eq!(categorize_device(0x8086, 0x24CD, 0x0C, 0x03), PciDeviceClass::UsbController);
    assert_eq!(categorize_device(0x8086, 0x29C0, 0x06, 0x00), PciDeviceClass::Other(6, 0));
}

#[test]
fn bus_scan_walks_every_slot_of_segment_zero() {
    let base = 0xB000_0000u64;
    let mut scan = PciBusScan::new();
    let mut slot_checks = 0;
    loop {
        match scan.next_action() {
            BusScanAction::ProbeSlot { bus, device } => {
                slot_checks += 1;
                scan.record_slot(config(bus, device, 0).is_some());
            }
            BusScanAction::ProbeFunction { bus, device, function } => {
                let probe = match config(bus, device, function) {
                    None => FunctionProbe::Empty,
                    Some((vendor_id, device_id, _)) => FunctionProbe::Present {
                        vendor_id,
                        device_id,
                        class_info: 0x0100,
                        config_base: base
                            + ((bus as u64) << 20)
                            + ((device as u64) << 15)
                            + ((function as u64) << 12),
                    },
                };
                scan.record_function(probe);
            }
            BusScanAction::Done => break,
        }
    }
    assert_eq!(slot_checks, 256 * 32);
    let devices = scan.into_devices();
    assert_eq!(
        devices,
        vec![
            PlatformPciDevice::new(0, 0, 0, 0x8086, 0x29C0, PciDeviceClass::Other(1, 0), base),
            PlatformPciDevice::new(
                0,
                1,
                0,
                0x1AF4,
                0x1042,
                PciDeviceClass::VirtioBlock,
                base + 0x8000
            ),
            PlatformPciDevice::new(0, 1, 1, 0x1AF4, 0x1050, PciDeviceClass::VirtioGpu, base + 0x9000),
        ]
    );
    assert_eq!(devices[2].class(), PciDeviceClass::VirtioGpu);
    assert_eq!(devices[2].config_base_phys_address(), base + 0x9000);
    assert_eq!(devices[2].bus(), 0);
    assert_eq!(devices[2].device(), 1);
    assert_eq!(devices[2].function(), 1);
    assert_eq!(devices[2].vendor_id(), 0x1AF4);
    assert_eq!(devices[2].device_id(), 0x1050);
}

#[test]
fn bus_scan_records_nothing_for_absent_functions() {
    let mut scan = PciBusScan::new();
    assert_eq!(scan.next_action(), BusScanAction::ProbeSlot { bus: 0, device: 0 });
    scan.record_slot(true);
    assert_eq!(scan.next_action(), BusScanAction::ProbeFunction { bus: 0, device: 0, function: 0 });
    scan.record_function(FunctionProbe::NoAddress);
    assert_eq!(scan.next_action(), BusScanAction::ProbeFunction { bus: 0, device: 0, function: 1 });
    for _ in 1..8 {
        scan.record_function(FunctionProbe::Empty);
    }
    assert_eq!(scan.next_action(), BusScanAction::ProbeSlot { bus: 0, device: 1 });
    assert!(scan.into_devices().is_empty());
}
