# Quay kernel

Quay is a small x86_64 kernel booted by Limine. This crate holds its hardware-independent logic,
verified with Verus: every public function states what it returns or changes, and the laws the
kernel relies on (an allocation undone by the matching free, free blocks that never overlap,
scans that always move forward, frames never handed out twice, ...) are proved as public proof
functions. What the kernel asks of the hardware it does not model (page tables, disks) goes
through wrappers that record each request and its answer, so that contracts can speak of them.

- `src/` — the library, `quay_kernel`:
  - `sys::memory` — the buddy physical memory manager and its free memory as a set of bytes,
    the virtual memory interface with the MMIO mapping routine, and the kernel heap expander;
  - `memory` — the bitmap frame allocator and the boot-time frame allocator;
  - `arch::x86_64` — page table flags and page table errors, the tick counter, exception and
    APIC error decoding, the LAPIC address, GDT and IDT layout;
  - `drivers` — PCIe enumeration over ECAM and BAR decoding, the TSC timer, VirtIO helpers;
  - `platform::pci` — the segment-0 bus scan and device classification;
  - `io` — the block device registry and its GPT partitions;
  - `graphics` — the double buffer and the EDID summary;
  - `sys::time`, `sys::acpi`, `hal`, `x86` — the timekeeper, the ACPI handler's arithmetic,
    the timer interface, and the first interrupt setup (keyboard routing, LAPIC calibration).
- `app/` — the kernel binary: the bootloader requests, port and MMIO access, descriptor table
  loading, interrupt handlers, the page table mapper and the global state, all calling the
  library for their decisions.
- `tests/` — tests of the library on concrete values, with in-memory stand-ins for the page
  mapper, the block driver and the timer.
