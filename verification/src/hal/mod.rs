//! Hardware abstraction interfaces.

pub mod timer;
