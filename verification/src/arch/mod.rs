//! Platform-dependent code. Only the decisions live here; the instructions that touch the
//! hardware are issued by the kernel around the library.

pub mod x86_64;
