pub mod acpi;
pub mod memory;
pub mod time;
