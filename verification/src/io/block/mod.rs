//! The block device registry: every initialized block device, with its driver and the
//! partitions found on it. Devices are numbered in the order they register (0 for vda, 1 for
//! vdb, ...).

pub mod gpt;
pub mod partition;
pub mod logged;

use crate::io::block::partition::Partition;
use crate::io::block::logged::LoggedDriver;
use vstd::prelude::*;

verus! {

/// The driver of a block device: reads and writes whole 512-byte sectors.
pub trait BlockDriver {
    /// What the device reports when a transfer fails.
    type Error;

    /// The number of sectors of the device.
    fn capacity(&self) -> u64;

    /// Reads the sectors from `sector` on into `buffer`.
    fn read_blocks(&mut self, sector: usize, buffer: &mut [u8]) -> Result<(), Self::Error>;

    /// Writes `buffer` to the sectors from `sector` on.
    fn write_blocks(&mut self, sector: usize, buffer: &[u8]) -> Result<(), Self::Error>;
}

/// Why a block transfer failed.
#[derive(Debug, PartialEq, Eq)]
pub enum BlockError<E> {
    /// No such device or partition, or the transfer runs past the end of the partition.
    InvalidParam,
    /// The device failed the transfer.
    Device(E),
}

/// Represents a logical block device, including its hardware driver and partitions.
pub struct BlockDevice<D: BlockDriver> {
    pub driver: LoggedDriver<D>,
    pub partitions: Vec<Partition>,
}

/// The registry of all initialized block devices.
pub struct BlockRegistry<D: BlockDriver> {
    devices: Vec<BlockDevice<D>>,
}

/// What a transfer that reached the device ends with: success, or the device's error.
pub open spec fn block_outcome<E>(result: Result<(), E>) -> Result<(), BlockError<E>> {
    match result {
        Ok(()) => Ok(()),
        Err(e) => Err(BlockError::Device(e)),
    }
}

/// The error a transfer that reached the device ends with, if any.
pub fn device_result<E>(result: Result<(), E>) -> (r: Result<(), BlockError<E>>)
    ensures
        r == block_outcome(result),
{
    match result {
        Ok(()) => Ok(()),
        Err(e) => Err(BlockError::Device(e)),
    }
}

impl<D: BlockDriver> BlockRegistry<D> {
    /// The registered devices, in registration order.
    pub closed spec fn devices(&self) -> Seq<BlockDevice<D>> {
        self.devices@
    }

    /// The partitions of device `d`.
    pub open spec fn partitions(&self, d: int) -> Seq<Partition> {
        self.devices()[d].partitions@
    }

    /// Every partition lies inside the 64-bit sector space.
    pub open spec fn wf(&self) -> bool {
        forall|d: int, p: int|
            0 <= d < self.devices().len() && 0 <= p < self.partitions(d).len() ==> (
            #[trigger] self.partitions(d)[p]).fits()
    }

    /// An empty registry.
    pub fn new() -> (r: Self)
        ensures
            r.wf(),
            r.devices().len() == 0,
    {
        BlockRegistry { devices: Vec::new() }
    }

    /// The number of registered devices.
    pub fn len(&self) -> (r: usize)
        ensures
            r == self.devices().len(),
    {
        self.devices.len()
    }

    /// The partitions of device `device_id`, if it is registered.
    pub fn partitions_of(&self, device_id: usize) -> (r: Option<&Vec<Partition>>)
        ensures
            match r {
                Some(v) => device_id < self.devices().len() && v@ == self.partitions(
                    device_id as int,
                ),
                None => device_id >= self.devices().len(),
            },
    {
        if device_id < self.devices.len() {
            Some(&self.devices[device_id].partitions)
        } else {
            None
        }
    }

    /// The number of sectors of device `device_id`, if it is registered.
    pub fn capacity(&self, device_id: usize) -> (r: Option<u64>)
        ensures
            r is Some <==> device_id < self.devices().len(),
            r matches Some(c) ==> call_ensures(
                D::capacity,
                (&self.devices()[device_id as int].driver.driver(),),
                c,
            ),
    {
        if device_id < self.devices.len() {
            Some(self.devices[device_id].driver.capacity())
        } else {
            None
        }
    }
}

/// Registers a new block device and returns its assigned ID (0 for vda, 1 for vdb, etc.).
pub fn register_device<D: BlockDriver>(registry: &mut BlockRegistry<D>, device: D) -> (id: usize)
    requires
        old(registry).wf(),
        old(registry).devices().len() < usize::MAX,
    ensures
        final(registry).wf(),
        id == old(registry).devices().len(),
        final(registry).devices().len() == old(registry).devices().len() + 1,
        forall|d: int|
            0 <= d < old(registry).devices().len() ==> #[trigger] final(registry).devices()[d]
                == old(registry).devices()[d],
        final(registry).devices()[id as int].driver.driver() == device,
        final(registry).devices()[id as int].driver.transfers().len() == 0,
        final(registry).partitions(id as int) == Seq::<Partition>::empty(),
{
    let id = registry.devices.len();
    registry.devices.push(BlockDevice { driver: LoggedDriver::new(device), partitions: Vec::new() });
    proof {
        assert(registry.partitions(id as int) =~= Seq::<Partition>::empty());
        assert forall|d: int, p: int|
            0 <= d < registry.devices().len() && 0 <= p < registry.partitions(
                d,
            ).len() implies (#[trigger] registry.partitions(d)[p]).fits() by {
            if d < id {
                assert(registry.partitions(d) == old(registry).partitions(d));
            }
        }
    }
    id
}

/// Adds a discovered partition to a registered block device; does nothing for an unknown
/// device.
pub fn add_partition<D: BlockDriver>(
    registry: &mut BlockRegistry<D>,
    device_id: usize,
    partition: Partition,
)
    requires
        old(registry).wf(),
        partition.fits(),
    ensures
        final(registry).wf(),
        final(registry).devices().len() == old(registry).devices().len(),
        forall|d: int|
            0 <= d < old(registry).devices().len() && d != device_id ==> #[trigger] final(registry).devices()[d] == old(registry).devices()[d],
        device_id < old(registry).devices().len() ==> {
            &&& final(registry).devices()[device_id as int].driver == old(registry).devices()[device_id as int].driver
            &&& final(registry).partitions(device_id as int) == old(registry).partitions(
                device_id as int,
            ).push(partition)
        },
{
    if device_id < registry.devices.len() {
        let mut devices = Vec::new();
        std::mem::swap(&mut devices, &mut registry.devices);
        let mut device = devices.remove(device_id);
        device.partitions.push(partition);
        devices.insert(device_id, device);
        std::mem::swap(&mut devices, &mut registry.devices);
        proof {
            assert forall|d: int, p: int|
                0 <= d < registry.devices().len() && 0 <= p < registry.partitions(
                    d,
                ).len() implies (#[trigger] registry.partitions(d)[p]).fits() by {
                if d != device_id {
                    assert(registry.partitions(d) == old(registry).partitions(d));
                } else if p < old(registry).partitions(d).len() {
                    assert(registry.partitions(d)[p] == old(registry).partitions(d)[p]);
                }
            }
        }
    }
}

/// Reads sectors from `sector` on of device `device_id` into `buffer`.
pub fn read_block<D: BlockDriver>(
    registry: &mut BlockRegistry<D>,
    device_id: usize,
    sector: usize,
    buffer: &mut [u8],
) -> (r: Result<(), BlockError<D::Error>>)
    requires
        old(registry).wf(),
    ensures
        final(registry).wf(),
        device_id >= old(registry).devices().len() ==> r == Err::<(), BlockError<D::Error>>(
            BlockError::InvalidParam,
        ) && *final(registry) == *old(registry) && final(buffer)@ == old(buffer)@,
        device_id < old(registry).devices().len() ==> ({
            let before = old(registry).devices()[device_id as int].driver.transfers();
            let after = final(registry).devices()[device_id as int].driver.transfers();
            &&& after == before.push((false, sector, final(buffer)@, after.last().3))
            &&& r == block_outcome(after.last().3)
        }),
        final(registry).devices().len() == old(registry).devices().len(),
        forall|d: int|
            0 <= d < old(registry).devices().len() ==> #[trigger] final(registry).partitions(d)
                == old(registry).partitions(d),
        forall|d: int|
            0 <= d < old(registry).devices().len() && d != device_id ==> #[trigger] final(registry).devices()[d] == old(registry).devices()[d],
{
    if device_id >= registry.devices.len() {
        return Err(BlockError::InvalidParam);
    }
    let result = registry.devices[device_id].driver.read_blocks(sector, buffer);
    proof {
        assert forall|d: int, p: int|
            0 <= d < registry.devices().len() && 0 <= p < registry.partitions(
                d,
            ).len() implies (#[trigger] registry.partitions(d)[p]).fits() by {
            assert(registry.partitions(d) == old(registry).partitions(d));
        }
    }
    device_result(result)
}

/// Writes `buffer` to the sectors from `sector` on of device `device_id`.
pub fn write_block<D: BlockDriver>(
    registry: &mut BlockRegistry<D>,
    device_id: usize,
    sector: usize,
    buffer: &[u8],
) -> (r: Result<(), BlockError<D::Error>>)
    requires
        old(registry).wf(),
    ensures
        final(registry).wf(),
        device_id >= old(registry).devices().len() ==> r == Err::<(), BlockError<D::Error>>(
            BlockError::InvalidParam,
        ) && *final(registry) == *old(registry),
        device_id < old(registry).devices().len() ==> ({
            let before = old(registry).devices()[device_id as int].driver.transfers();
            let after = final(registry).devices()[device_id as int].driver.transfers();
            &&& after == before.push((true, sector, buffer@, after.last().3))
            &&& r == block_outcome(after.last().3)
        }),
        final(registry).devices().len() == old(registry).devices().len(),
        forall|d: int|
            0 <= d < old(registry).devices().len() ==> #[trigger] final(registry).partitions(d)
                == old(registry).partitions(d),
        forall|d: int|
            0 <= d < old(registry).devices().len() && d != device_id ==> #[trigger] final(registry).devices()[d] == old(registry).devices()[d],
{
    if device_id >= registry.devices.len() {
        return Err(BlockError::InvalidParam);
    }
    let result = registry.devices[device_id].driver.write_blocks(sector, buffer);
    proof {
        assert forall|d: int, p: int|
            0 <= d < registry.devices().len() && 0 <= p < registry.partitions(
                d,
            ).len() implies (#[trigger] registry.partitions(d)[p]).fits() by {
            assert(registry.partitions(d) == old(registry).partitions(d));
        }
    }
    device_result(result)
}

} // verus!
