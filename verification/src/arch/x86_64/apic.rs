//! The Local APIC of the current CPU: where its registers are mapped.

use crate::arith::sat_add;
use crate::sys::memory::vmm::{map_mmio_range, LoggedMapper, VirtualMapper, VmmError};
use crate::sys::memory::vmm::{insert_mmio, mmio_attempts, mmio_chunks, mmio_flags};
use vstd::prelude::*;

verus! {

/// Offset of the Error Status Register.
pub const LAPIC_ESR_REGISTER: u64 = 0x280;

/// Bytes of MMIO space the LAPIC registers take: they fit in a single 4KiB page.
pub const LAPIC_MMIO_SIZE: u64 = 4096;

/// The MSR that holds the TSC deadline of the LAPIC timer.
pub const IA32_TSC_DEADLINE: u32 = 0x6E0;

/// A 64-bit virtual address is canonical: bits 47 to 63 are all equal.
pub open spec fn is_canonical(addr: u64) -> bool {
    addr < 0x0000_8000_0000_0000 || addr >= 0xFFFF_8000_0000_0000
}

/// The virtual address of the LAPIC registers; 0 until the LAPIC is initialized.
pub struct LapicAddress {
    virt_addr: u64,
}

impl LapicAddress {
    /// The stored virtual address.
    pub closed spec fn addr(&self) -> u64 {
        self.virt_addr
    }

    /// No LAPIC mapped yet.
    pub fn new() -> (r: Self)
        ensures
            r.addr() == 0,
    {
        LapicAddress { virt_addr: 0 }
    }

    /// Records where the LAPIC of physical address `lapic_phys_addr` lives in the higher half
    /// (its physical address plus the HHDM offset, saturating), and maps its register page
    /// there, writable and uncached. Returns the mapping's outcome.
    pub fn map_local_apic<M: VirtualMapper>(
        &mut self,
        vmm: &mut LoggedMapper<M>,
        lapic_phys_addr: u64,
        hhdm_offset: u64,
    ) -> (r: Result<(), VmmError>)
        ensures
            final(self).addr() == sat_add(lapic_phys_addr as int, hhdm_offset as int),
            ({
                let chunks = mmio_chunks(
                    lapic_phys_addr as int,
                    sat_add(lapic_phys_addr as int, LAPIC_MMIO_SIZE as int) as int,
                );
                match r {
                    Ok(()) => {
                        &&& final(vmm).mappings() == insert_mmio(
                            old(vmm).mappings(),
                            chunks,
                            hhdm_offset,
                        )
                        &&& final(vmm).attempts() == old(vmm).attempts() + mmio_attempts(
                            chunks,
                            hhdm_offset,
                        )
                    },
                    Err(e) => final(vmm).last_map_error() == Some(e) && exists|k: int|
                        0 <= k < chunks.len() && final(vmm).mappings() == insert_mmio(
                            old(vmm).mappings(),
                            #[trigger] chunks.take(k),
                            hhdm_offset,
                        ) && final(vmm).attempts() == (old(vmm).attempts() + mmio_attempts(
                            chunks.take(k),
                            hhdm_offset,
                        )).push(
                            (
                                sat_add(chunks[k].0 as int, hhdm_offset as int),
                                chunks[k].0,
                                chunks[k].1,
                                mmio_flags(),
                                Err::<(), VmmError>(e),
                            ),
                        ),
                }
            }),
    {
        // Compute the Local APIC virtual address.
        self.virt_addr = lapic_phys_addr.saturating_add(hhdm_offset);
        // Map the APIC's physical memory into the HHDM.
        map_mmio_range(vmm, lapic_phys_addr, LAPIC_MMIO_SIZE, hhdm_offset)
    }

    /// The stored address, 0 while the LAPIC is not initialized.
    pub fn stored_address(&self) -> (r: u64)
        ensures
            r == self.addr(),
    {
        self.virt_addr
    }

    /// Get the current virtual address of the LAPIC.
    pub fn get_lapic_address(&self) -> (r: u64)
        requires
            self.addr() != 0,
            is_canonical(self.addr()),
        ensures
            r == self.addr(),
    {
        self.virt_addr
    }
}

/// The TSC value a LAPIC interrupt scheduled `cycles_from_now` cycles after `current_tsc`
/// fires at.
pub fn relative_deadline(current_tsc: u64, cycles_from_now: u64) -> (r: u64)
    requires
        current_tsc + cycles_from_now <= u64::MAX,
    ensures
        r == current_tsc + cycles_from_now,
{
    current_tsc + cycles_from_now
}

} // verus!
