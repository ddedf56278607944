//! Partitions of block devices, as the GPT partition table describes them.

use crate::io::block::{
    block_outcome, read_block, write_block, BlockDriver, BlockError, BlockRegistry,
};
use vstd::prelude::*;

verus! {

/// Bytes per sector.
pub const SECTOR_SIZE: u64 = 512;

/// Represents a single partition on a block device.
#[derive(Debug, Clone)]
pub struct Partition {
    pub start_lba: u64,
    pub end_lba: u64,
    pub size_sectors: u64,
    pub name: String,
    /// The unique partition GUID, in its on-disk byte order.
    pub guid: [u8; 16],
    /// The partition type GUID, in its on-disk byte order.
    pub type_guid: [u8; 16],
}

impl Partition {
    /// The partition's sectors lie inside the 64-bit sector space.
    pub open spec fn fits(&self) -> bool {
        self.start_lba + self.size_sectors <= u64::MAX
    }

    /// The partition that a used GPT entry describes: from `start_lba` to `end_lba`, both
    /// included.
    pub fn from_gpt_entry(
        start_lba: u64,
        end_lba: u64,
        name: String,
        guid: [u8; 16],
        type_guid: [u8; 16],
    ) -> (r: Self)
        requires
            start_lba <= end_lba < u64::MAX,
        ensures
            r.start_lba == start_lba,
            r.end_lba == end_lba,
            r.size_sectors == end_lba - start_lba + 1,
            r.name == name,
            r.guid == guid,
            r.type_guid == type_guid,
            r.fits(),
    {
        let size_sectors = end_lba - start_lba + 1;
        Partition { start_lba, end_lba, size_sectors, name, guid, type_guid }
    }

    /// The size of the partition in whole MiB.
    pub fn size_mib(&self) -> (r: u64)
        requires
            self.size_sectors * SECTOR_SIZE <= u64::MAX,
        ensures
            r == self.size_sectors * SECTOR_SIZE / 1024 / 1024,
    {
        (self.size_sectors * SECTOR_SIZE) / 1024 / 1024
    }
}

/// The absolute sector of sector `relative_sector` of partition `partition_index` of device
/// `device_id`, when a transfer of `buffer_len` bytes from there stays inside the partition.
pub open spec fn absolute_sector<D: BlockDriver>(
    registry: BlockRegistry<D>,
    device_id: int,
    partition_index: int,
    relative_sector: int,
    buffer_len: int,
) -> Option<int> {
    if device_id >= registry.devices().len() || partition_index >= registry.partitions(
        device_id,
    ).len() {
        None
    } else {
        let partition = registry.partitions(device_id)[partition_index];
        if relative_sector + buffer_len / 512 > partition.size_sectors {
            None
        } else {
            Some(partition.start_lba + relative_sector)
        }
    }
}

/// Reads blocks from a specific partition: the device is read from the partition's first
/// sector plus `relative_sector` on, unless the transfer would leave the partition.
/// `relative_sector` is the offset from the START of the partition, not the disk!
pub fn read_partition<D: BlockDriver>(
    registry: &mut BlockRegistry<D>,
    device_id: usize,
    partition_index: usize,
    relative_sector: usize,
    buffer: &mut [u8],
) -> (r: Result<(), BlockError<D::Error>>)
    requires
        old(registry).wf(),
    ensures
        final(registry).wf(),
        final(registry).devices().len() == old(registry).devices().len(),
        forall|d: int|
            0 <= d < old(registry).devices().len() ==> #[trigger] final(registry).partitions(d)
                == old(registry).partitions(d),
        match absolute_sector(
            *old(registry),
            device_id as int,
            partition_index as int,
            relative_sector as int,
            old(buffer)@.len() as int,
        ) {
            None => {
                &&& r == Err::<(), BlockError<D::Error>>(BlockError::InvalidParam)
                &&& *final(registry) == *old(registry)
                &&& final(buffer)@ == old(buffer)@
            },
            Some(s) => {
                let before = old(registry).devices()[device_id as int].driver.transfers();
                let after = final(registry).devices()[device_id as int].driver.transfers();
                &&& after == before.push((false, s as usize, final(buffer)@, after.last().3))
                &&& r == block_outcome(after.last().3)
                &&& forall|d: int|
                    0 <= d < old(registry).devices().len() && d != device_id ==> #[trigger] final(registry).devices()[d] == old(registry).devices()[d]
            },
        },
{
    let absolute_sector = match get_absolute_sector(
        registry,
        device_id,
        partition_index,
        relative_sector,
        buffer,
    ) {
        Ok(s) => s,
        Err(e) => return Err(e),
    };
    read_block(registry, device_id, absolute_sector, buffer)
}

/// Writes blocks to a specific partition: the buffer is written to the device from the
/// partition's first sector plus `relative_sector` on, unless the transfer would leave the
/// partition.
pub fn write_partition<D: BlockDriver>(
    registry: &mut BlockRegistry<D>,
    device_id: usize,
    partition_index: usize,
    relative_sector: usize,
    buffer: &[u8],
) -> (r: Result<(), BlockError<D::Error>>)
    requires
        old(registry).wf(),
    ensures
        final(registry).wf(),
        final(registry).devices().len() == old(registry).devices().len(),
        forall|d: int|
            0 <= d < old(registry).devices().len() ==> #[trigger] final(registry).partitions(d)
                == old(registry).partitions(d),
        match absolute_sector(
            *old(registry),
            device_id as int,
            partition_index as int,
            relative_sector as int,
            buffer@.len() as int,
        ) {
            None => r == Err::<(), BlockError<D::Error>>(BlockError::InvalidParam) && *final(registry)
                == *old(registry),
            Some(s) => {
                let before = old(registry).devices()[device_id as int].driver.transfers();
                let after = final(registry).devices()[device_id as int].driver.transfers();
                &&& after == before.push((true, s as usize, buffer@, after.last().3))
                &&& r == block_outcome(after.last().3)
                &&& forall|d: int|
                    0 <= d < old(registry).devices().len() && d != device_id ==> #[trigger] final(registry).devices()[d] == old(registry).devices()[d]
            },
        },
{
    let absolute_sector = match get_absolute_sector(
        registry,
        device_id,
        partition_index,
        relative_sector,
        buffer,
    ) {
        Ok(s) => s,
        Err(e) => return Err(e),
    };
    write_block(registry, device_id, absolute_sector, buffer)
}

/// The absolute sector a partition transfer starts at, or `InvalidParam` when the device or
/// the partition does not exist or the transfer of `buffer` would run past the partition's end.
pub fn get_absolute_sector<D: BlockDriver>(
    registry: &BlockRegistry<D>,
    device_id: usize,
    partition_index: usize,
    relative_sector: usize,
    buffer: &[u8],
) -> (r: Result<usize, BlockError<D::Error>>)
    requires
        registry.wf(),
    ensures
        match absolute_sector(
            *registry,
            device_id as int,
            partition_index as int,
            relative_sector as int,
            buffer@.len() as int,
        ) {
            None => r == Err::<usize, BlockError<D::Error>>(BlockError::InvalidParam),
            Some(s) => r == Ok::<usize, BlockError<D::Error>>(s as usize) && device_id
                < registry.devices().len(),
        },
{
    let partitions = match registry.partitions_of(device_id) {
        Some(p) => p,
        None => return Err(BlockError::InvalidParam),
    };
    if partition_index >= partitions.len() {
        return Err(BlockError::InvalidParam);
    }
    let partition = &partitions[partition_index];
    let num_sectors = (buffer.len() / 512) as u64;
    let relative = relative_sector as u64;
    if relative > partition.size_sectors || num_sectors > partition.size_sectors - relative {
        return Err(BlockError::InvalidParam);
    }
    proof {
        assert(partition.fits());
    }
    Ok((partition.start_lba + relative) as usize)
}

} // verus!
