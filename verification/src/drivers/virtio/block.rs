//! What the kernel learns of a new VirtIO block device: its name, its size and whether its
//! first sector carries a boot signature.

use vstd::prelude::*;

verus! {

/// The letter of the UNIX-like name of block device `device_id` (`a` for vda, `b` for vdb,
/// ...), as an ASCII byte.
pub fn device_letter(device_id: usize) -> (r: u8)
    requires
        (device_id as u8) + 97 <= 255,
    ensures
        r == 97 + (device_id as u8),
{
    // 97 is b'a'.
    97u8 + device_id as u8
}

/// The size in whole MiB of a device of `capacity` 512-byte sectors.
pub fn capacity_mib(capacity: u64) -> (r: u64)
    requires
        capacity * 512 <= u64::MAX,
    ensures
        r == capacity * 512 / 1024 / 1024,
{
    (capacity * 512) / 1024 / 1024
}

/// The sector ends with the boot signature 0x55AA.
pub fn has_boot_signature(sector: &[u8]) -> (r: bool)
    requires
        sector@.len() >= 512,
    ensures
        r == (sector@[510] == 0x55 && sector@[511] == 0xAA),
{
    sector[510] == 0x55 && sector[511] == 0xAA
}

} // verus!
