//! The first x86 interrupt setup: its ACPI handler, GDT layout, tick counter, keyboard routing
//! and timer calibration.

pub mod acpi;
pub mod gdt;
pub mod interrupt;
