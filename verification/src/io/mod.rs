//! The kernel's I/O layer: the block device registry and its partitions.

pub mod block;
pub mod fs;
