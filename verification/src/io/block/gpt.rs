//! The bridge between the GPT parser and the block registry.

use crate::io::block::partition::Partition;
use crate::io::block::{add_partition, BlockDriver, BlockRegistry};
use vstd::prelude::*;

verus! {

/// The sector size the GPT parser is told about.
pub const GPT_BLOCK_SIZE: u32 = 512;

/// A handle that lets the GPT parser talk to one device of the block registry.
pub struct QuayBlockIo {
    device_id: usize,
}

impl QuayBlockIo {
    /// The device this handle reads from.
    pub closed spec fn device(&self) -> usize {
        self.device_id
    }

    /// A handle on device `device_id`.
    pub fn new(device_id: usize) -> (r: Self)
        ensures
            r.device() == device_id,
    {
        Self { device_id }
    }

    /// The device this handle reads from.
    pub fn device_id(&self) -> (r: usize)
        ensures
            r == self.device(),
    {
        self.device_id
    }
}

/// A partition entry of the GPT, as the parser reads it.
pub struct GptEntry {
    /// The entry describes a partition (its type GUID is not the unused one).
    pub used: bool,
    pub starting_lba: u64,
    pub ending_lba: u64,
    pub name: String,
    pub unique_partition_guid: [u8; 16],
    pub partition_type_guid: [u8; 16],
}

/// A used entry covers at least one sector and ends before the last LBA.
pub open spec fn entry_sound(e: GptEntry) -> bool {
    e.used ==> e.starting_lba <= e.ending_lba < u64::MAX
}

/// The partition a used entry describes.
pub open spec fn entry_partition(e: GptEntry) -> Partition {
    Partition {
        start_lba: e.starting_lba,
        end_lba: e.ending_lba,
        size_sectors: (e.ending_lba - e.starting_lba + 1) as u64,
        name: e.name,
        guid: e.unique_partition_guid,
        type_guid: e.partition_type_guid,
    }
}

/// The partitions of the used entries, in table order.
pub open spec fn used_partitions(entries: Seq<GptEntry>) -> Seq<Partition>
    decreases entries.len(),
{
    if entries.len() == 0 {
        Seq::empty()
    } else {
        let rest = used_partitions(entries.drop_last());
        if entries.last().used {
            rest.push(entry_partition(entries.last()))
        } else {
            rest
        }
    }
}

/// Records the partitions of the used entries of the GPT of device `device_id`, in table
/// order; entries that are not used are skipped. Does nothing for an unknown device.
pub fn add_gpt_partitions<D: BlockDriver>(
    registry: &mut BlockRegistry<D>,
    device_id: usize,
    entries: &Vec<GptEntry>,
)
    requires
        old(registry).wf(),
        forall|i: int| 0 <= i < entries@.len() ==> entry_sound(#[trigger] entries@[i]),
    ensures
        final(registry).wf(),
        final(registry).devices().len() == old(registry).devices().len(),
        forall|d: int|
            0 <= d < old(registry).devices().len() && d != device_id ==> #[trigger] final(registry).devices()[d] == old(registry).devices()[d],
        device_id < old(registry).devices().len() ==> {
            &&& final(registry).devices()[device_id as int].driver == old(registry).devices()[device_id as int].driver
            &&& final(registry).partitions(device_id as int) == old(registry).partitions(
                device_id as int,
            ) + used_partitions(entries@)
        },
{
    let mut i: usize = 0;
    while i < entries.len()
        invariant
            i <= entries@.len(),
            registry.wf(),
            forall|k: int| 0 <= k < entries@.len() ==> entry_sound(#[trigger] entries@[k]),
            registry.devices().len() == old(registry).devices().len(),
            forall|d: int|
                0 <= d < old(registry).devices().len() && d != device_id ==> #[trigger] registry.devices()[d]
                    == old(registry).devices()[d],
            device_id < old(registry).devices().len() ==> {
                &&& registry.devices()[device_id as int].driver == old(registry).devices()[device_id as int].driver
                &&& registry.partitions(device_id as int) == old(registry).partitions(
                    device_id as int,
                ) + used_partitions(entries@.take(i as int))
            },
        decreases entries@.len() - i,
    {
        proof {
            assert(entries@.take(i as int + 1).drop_last() =~= entries@.take(i as int));
            assert(entries@.take(i as int + 1).last() == entries@[i as int]);
        }
        let entry = &entries[i];
        if entry.used {
            proof {
                assert(entry_sound(entries@[i as int]));
            }
            let partition = Partition::from_gpt_entry(
                entry.starting_lba,
                entry.ending_lba,
                entry.name.clone(),
                entry.unique_partition_guid,
                entry.partition_type_guid,
            );
            add_partition(registry, device_id, partition);
            proof {
                if device_id < old(registry).devices().len() {
                    assert(registry.partitions(device_id as int) =~= old(registry).partitions(
                        device_id as int,
                    ) + used_partitions(entries@.take(i as int + 1)));
                }
            }
        } else {
            proof {
                assert(used_partitions(entries@.take(i as int + 1)) == used_partitions(
                    entries@.take(i as int),
                ));
            }
        }
        i = i + 1;
    }
    proof {
        assert(entries@.take(i as int) =~= entries@);
    }
}

} // verus!
