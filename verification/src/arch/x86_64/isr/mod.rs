//! What the interrupt service routines decode: exception error codes and APIC error status.

pub mod apic_error;
pub mod gpf;
