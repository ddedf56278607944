//! The x86_64 architecture: paging flags and errors, timer ticks, exception error codes, the
//! LAPIC address and the GDT and IDT layouts.

pub mod apic;
pub mod gdt;
pub mod idt;
pub mod isr;
pub mod timer;
pub mod vmm;
