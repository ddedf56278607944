use vstd::prelude::*;

verus! {

/// PCIe Base Address Register (BAR).
#[allow(inconsistent_fields)]
#[derive(Debug, Clone, Copy, PartialEq, Eq, Structural)]
pub enum PciBar {
    /// Memory-Mapped I/O (32-bit)
    Memory32 { address: u32, prefetchable: bool },
    /// Memory-Mapped I/O (64-bit)
    Memory64 { address: u64, prefetchable: bool },
    /// I/O Ports
    LegacyIo { port: u32 },
}

/// Offset of BAR `bar_index` in the configuration space: BARs start at 0x10, 4 bytes each.
pub fn bar_register_offset(bar_index: u8) -> (r: u8)
    requires
        bar_index < 6,
    ensures
        r == 0x10 + 4 * bar_index,
{
    bar_index * 4 + 0x10
}

/// A memory BAR of 64-bit type, whose upper half sits in the next BAR.
pub open spec fn is_64bit_memory_bar(bar_value: u32) -> bool {
    bar_value != 0 && bar_value & 1 == 0 && (bar_value >> 1u32) & 3 == 2
}

/// Whether decoding the BAR needs the next BAR's value (it is a 64-bit memory BAR).
pub fn bar_needs_upper_half(bar_value: u32) -> (r: bool)
    ensures
        r == is_64bit_memory_bar(bar_value),
{
    bar_value != 0 && bar_value & 1 == 0 && (bar_value >> 1u32) & 3 == 2
}

/// The BAR described by a raw BAR value (and, for a 64-bit memory BAR, the value of the next BAR,
/// which holds the upper 32 bits of the address).
pub open spec fn decoded_bar(bar_value: u32, bar_high: u32) -> Option<PciBar> {
    if bar_value == 0 {
        // Unconfigured or unused.
        None
    } else if bar_value & 1 != 0 {
        // I/O BAR: bits 2-31 are the port.
        Some(PciBar::LegacyIo { port: bar_value & !3u32 })
    } else {
        let bar_type = (bar_value >> 1u32) & 3;
        let prefetchable = bar_value & 8 != 0;
        if bar_type == 0 {
            Some(PciBar::Memory32 { address: bar_value & !0xfu32, prefetchable })
        } else if bar_type == 2 {
            Some(
                PciBar::Memory64 {
                    address: ((bar_high as u64) << 32u64) | ((bar_value & !0xfu32) as u64),
                    prefetchable,
                },
            )
        } else {
            None
        }
    }
}

/// Decodes BAR `bar_index` from its raw value and, for a 64-bit memory BAR, the raw value of the
/// next BAR (ignored otherwise).
pub fn decode_bar(bar_index: u8, bar_value: u32, bar_high: u32) -> (r: Option<PciBar>)
    requires
        bar_index < 6,
        is_64bit_memory_bar(bar_value) ==> bar_index < 5,
    ensures
        r == decoded_bar(bar_value, bar_high),
{
    // If the BAR is 0, it is unconfigured/unused.
    if bar_value == 0 {
        return None;
    }
    // Bit 0 determines if this is a Memory space or I/O space BAR.
    let is_io = (bar_value & 0x1) != 0;
    if is_io {
        // I/O Bar - Bits 2-31 are the port address.
        return Some(PciBar::LegacyIo { port: bar_value & !0x03u32 });
    }
    // Memory BAR - Bits 1 - 2 determine the type (32-bit or 64-bit).
    let bar_type = (bar_value >> 1u32) & 0x03;
    // Bit 3 determines if the memory is prefetchable.
    let prefetchable = (bar_value & 0x08) != 0;
    // Actual base address starts at bit 4.
    let base_address_mask = !0xFu32;
    if bar_type == 0x00 {
        // 32-bit Memory BAR
        Some(PciBar::Memory32 { address: bar_value & base_address_mask, prefetchable })
    } else if bar_type == 0x02 {
        // 64-bit Memory BAR: the upper 32 bits are in the next BAR.
        let address = ((bar_high as u64) << 32u64) | ((bar_value & base_address_mask) as u64);
        Some(PciBar::Memory64 { address, prefetchable })
    } else {
        None
    }
}

} // verus!
