use quay_kernel::drivers::virtio::block::{capacity_mib, device_letter, has_boot_signature};
use quay_kernel::drivers::virtio::hal::QuayVirtIoHal;
use quay_kernel::io::block::gpt::{add_gpt_partitions, GptEntry, QuayBlockIo, GPT_BLOCK_SIZE};
use quay_kernel::io::block::partition::{
    get_absolute_sector, read_partition, write_partition, Partition,
};
use quay_kernel::io::block::{
    add_partition, device_result, read_block, register_device, write_block, BlockDriver,
    BlockError, BlockRegistry,
};
use quay_kernel::memory::pmm::BitmapPMM;
use quay_kernel::sys::memory::memory_map::{MemoryMapEntry, MEMMAP_USABLE};

#[derive(Debug, PartialEq, Eq)]
enum DiskError {
    OutOfRange,
}

/// A RAM disk of 512-byte sectors.
struct RamDisk {
    data: Vec<u8>,
}

impl RamDisk {
    fn new(sectors: usize) -> Self {
        RamDisk { data: vec![0; sectors * 512] }
    }
}

impl BlockDriver for RamDisk {
    type Error = DiskError;

    fn capacity(&self) -> u64 {
        (self.data.len() / 512) as u64
    }

    fn read_blocks(&mut self, sector: usize, buffer: &mut [u8]) -> Result<(), DiskError> {
        let start = sector * 512;
        if start + buffer.len() > self.data.len() {
            return Err(DiskError::OutOfRange);
        }
        buffer.copy_from_slice(&self.data[start..start + buffer.len()]);
        Ok(())
    }

    fn write_blocks(&mut self, sector: usize, buffer: &[u8]) -> Result<(), DiskError> {
        let start = sector * 512;
        if start + buffer.len() > self.data.len() {
            return Err(DiskError::OutOfRange);
        }
        self.data[start..start + buffer.len()].copy_from_slice(buffer);
        Ok(())
    }
}

fn partition(start_lba: u64, end_lba: u64, name: &str) -> Partition {
    Partition::from_gpt_entry(start_lba, end_lba, name.to_string(), [1; 16], [2; 16])
}

fn registry_with_one_disk() -> BlockRegistry<RamDisk> {
    let mut registry = BlockRegistry::new();
    assert_eq!(register_device(&mut registry, RamDisk::new(200)), 0);
    add_partition(&mut registry, 0, partition(100, 149, "data"));
    registry
}

#[test]
fn devices_get_sequential_ids() {
    let mut registry = BlockRegistry::new();
    assert_eq!(registry.len(), 0);
    assert_eq!(register_device(&mut registry, RamDisk::new(8)), 0);
    assert_eq!(register_device(&mut registry, RamDisk::new(16)), 1);
    assert_eq!(registry.len(), 2);
    assert_eq!(registry.capacity(0), Some(8));
    assert_eq!(registry.capacity(1), Some(16));
    assert_eq!(registry.capacity(2), None);
    assert_eq!(registry.partitions_of(1).map(|p| p.len()), Some(0));
}

#[test]
fn partitions_go_to_their_device_only() {
    let mut registry = BlockRegistry::new();
    register_device(&mut registry, RamDisk::new(8));
    add_partition(&mut registry, 0, partition(1, 2, "a"));
    add_partition(&mut registry, 5, partition(3, 4, "lost"));
    add_partition(&mut registry, 0, partition(5, 6, "b"));
    let parts = registry.partitions_of(0).unwrap();
    assert_eq!(parts.len(), 2);
    assert_eq!(parts[0].name, "a");
    assert_eq!(parts[1].name, "b");
    assert!(registry.partitions_of(5).is_none());
}

#[test]
fn partition_from_gpt_entry() {
    let p = partition(34, 2081, "EFI");
    assert_eq!(p.start_lba, 34);
    assert_eq!(p.end_lba, 2081);
    assert_eq!(p.size_sectors, 2048);
    assert_eq!(p.size_mib(), 1);
    assert_eq!(p.guid, [1; 16]);
    assert_eq!(p.type_guid, [2; 16]);
    assert_eq!(partition(7, 7, "one").size_sectors, 1);
}

#[test]
fn absolute_sectors_stay_inside_the_partition() {
    let registry = registry_with_one_disk();
    let five = [0u8; 5 * 512];
    assert_eq!(get_absolute_sector(&registry, 0, 0, 10, &five), Ok(110));
    assert_eq!(get_absolute_sector(&registry, 0, 0, 45, &five), Ok(145));
    assert_eq!(get_absolute_sector(&registry, 0, 0, 46, &five), Err(BlockError::InvalidParam));
    // A partial trailing sector does not count.
    assert_eq!(get_absolute_sector(&registry, 0, 0, 49, &[0u8; 1023]), Ok(149));
    assert_eq!(get_absolute_sector(&registry, 0, 1, 0, &five), Err(BlockError::InvalidParam));
    assert_eq!(get_absolute_sector(&registry, 1, 0, 0, &five), Err(BlockError::InvalidParam));
    assert_eq!(
        get_absolute_sector(&registry, 0, 0, usize::MAX, &five),
        Err(BlockError::InvalidParam)
    );
}

#[test]
fn partition_write_then_read_round_trips() {
    let mut registry = registry_with_one_disk();
    let data: Vec<u8> = (0..1024).map(|i| (i % 251) as u8).collect();
    assert_eq!(write_partition(&mut registry, 0, 0, 3, &data), Ok(()));
    let mut back = vec![0u8; 1024];
    assert_eq!(read_partition(&mut registry, 0, 0, 3, &mut back), Ok(()));
    assert_eq!(back, data);
    // The data landed at the partition's sectors 3 and 4: absolute sectors 103 and 104.
    let mut raw = vec![0u8; 512];
    assert_eq!(read_block(&mut registry, 0, 104, &mut raw), Ok(()));
    assert_eq!(&raw[..], &data[512..]);
}

#[test]
fn refused_partition_transfers_touch_nothing() {
    let mut registry = registry_with_one_disk();
    let mut buffer = vec![7u8; 512];
    assert_eq!(
        read_partition(&mut registry, 0, 0, 50, &mut buffer),
        Err(BlockError::InvalidParam)
    );
    assert_eq!(buffer, vec![7u8; 512]);
    assert_eq!(write_partition(&mut registry, 0, 3, 0, &buffer), Err(BlockError::InvalidParam));
    assert_eq!(write_partition(&mut registry, 9, 0, 0, &buffer), Err(BlockError::InvalidParam));
}

#[test]
fn block_transfers_check_the_device_and_pass_driver_errors_on() {
    let mut registry = registry_with_one_disk();
    let mut buffer = vec![0u8; 512];
    assert_eq!(read_block(&mut registry, 3, 0, &mut buffer), Err(BlockError::InvalidParam));
    assert_eq!(write_block(&mut registry, 3, 0, &buffer), Err(BlockError::InvalidParam));
    assert_eq!(
        read_block(&mut registry, 0, 200, &mut buffer),
        Err(BlockError::Device(DiskError::OutOfRange))
    );
    assert_eq!(
        write_block(&mut registry, 0, 199, &[0u8; 1024]),
        Err(BlockError::Device(DiskError::OutOfRange))
    );
    assert_eq!(write_block(&mut registry, 0, 199, &[9u8; 512]), Ok(()));
    assert_eq!(read_block(&mut registry, 0, 199, &mut buffer), Ok(()));
    assert_eq!(buffer, vec![9u8; 512]);
}

#[test]
fn device_results_map_to_block_errors() {
    assert_eq!(device_result::<DiskError>(Ok(())), Ok(()));
    assert_eq!(
        device_result(Err(DiskError::OutOfRange)),
        Err(BlockError::Device(DiskError::OutOfRange))
    );
}

#[test]
fn gpt_handle_names_its_device() {
    assert_eq!(QuayBlockIo::new(3).device_id(), 3);
    assert_eq!(GPT_BLOCK_SIZE, 512);
}

#[test]
fn virtio_block_names_and_sizes() {
    assert_eq!(device_letter(0), b'a');
    assert_eq!(device_letter(1), b'b');
    assert_eq!(device_letter(25), b'z');
    assert_eq!(capacity_mib(2048 * 1024), 1024);
    assert_eq!(capacity_mib(4095), 1);
    assert_eq!(capacity_mib(2047), 0);
}

#[test]
fn boot_signature() {
    let mut sector = vec![0u8; 512];
    assert!(!has_boot_signature(&sector));
    sector[510] = 0x55;
    sector[511] = 0xAA;
    assert!(has_boot_signature(&sector));
    sector[511] = 0xAB;
    assert!(!has_boot_signature(&sector));
}

#[test]
fn dma_dealloc_frees_every_page() {
    let map = [MemoryMapEntry::new(0, 0x10000, MEMMAP_USABLE)];
    let mut pmm = BitmapPMM::new(&map, 0);
    assert_eq!(pmm.allocate_frame(), Some(0x1000));
    assert_eq!(pmm.allocate_frame(), Some(0x2000));
    assert_eq!(pmm.allocate_frame(), Some(0x3000));
    assert_eq!(pmm.free_frames(), 12);
    assert_eq!(QuayVirtIoHal::dma_dealloc(&mut pmm, 0x1000, 3), 0);
    assert_eq!(pmm.free_frames(), 15);
    assert_eq!(pmm.allocate_frame(), Some(0x1000));
    // Pages that were already free stay free.
    assert_eq!(QuayVirtIoHal::dma_dealloc(&mut pmm, 0x4000, 2), 0);
    assert_eq!(pmm.free_frames(), 14);
}

#[test]
fn mmio_goes_through_the_hhdm() {
    assert_eq!(QuayVirtIoHal::mmio_phys_to_virt(0xFEB0_0000, 0xFFFF_8000_0000_0000), 0xFFFF_8000_FEB0_0000);
}

fn entry(used: bool, start: u64, end: u64, name: &str) -> GptEntry {
    GptEntry {
        used,
        starting_lba: start,
        ending_lba: end,
        name: name.to_string(),
        unique_partition_guid: [3; 16],
        partition_type_guid: [4; 16],
    }
}

#[test]
fn gpt_entries_become_partitions_in_table_order() {
    let mut registry = BlockRegistry::new();
    register_device(&mut registry, RamDisk::new(4096));
    register_device(&mut registry, RamDisk::new(8));
    let entries = vec![
        entry(true, 34, 2081, "EFI"),
        entry(false, 0, 0, ""),
        entry(true, 2082, 4095, "root"),
    ];
    add_gpt_partitions(&mut registry, 0, &entries);
    let parts = registry.partitions_of(0).unwrap();
    assert_eq!(parts.len(), 2);
    assert_eq!((parts[0].start_lba, parts[0].end_lba, parts[0].size_sectors), (34, 2081, 2048));
    assert_eq!(parts[0].name, "EFI");
    assert_eq!(parts[0].guid, [3; 16]);
    assert_eq!(parts[0].type_guid, [4; 16]);
    assert_eq!((parts[1].start_lba, parts[1].size_sectors), (2082, 2014));
    assert_eq!(parts[1].name, "root");
    // The other device and unknown devices are left alone.
    assert_eq!(registry.partitions_of(1).unwrap().len(), 0);
    add_gpt_partitions(&mut registry, 7, &entries);
    assert_eq!(registry.len(), 2);
}
