//! Timer drivers.

pub mod tsc;
