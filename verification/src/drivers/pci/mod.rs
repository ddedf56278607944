//! PCIe discovery through the Enhanced Configuration Access Mechanism (ECAM).

pub mod bar;
pub mod device;
pub mod scan;
