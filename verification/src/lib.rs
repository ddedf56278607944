//! Quay kernel: the hardware-independent logic of the kernel's memory managers, timers, PCI
//! discovery and block layer, with its contracts.

pub mod arch;
pub mod arith;
pub mod drivers;
pub mod graphics;
pub mod hal;
pub mod io;
pub mod memory;
pub mod platform;
pub mod sys;
pub mod x86;
