use vstd::prelude::*;

verus! {

/// A file system the kernel can read files and directories from.
pub trait FileSystem {
    /// Reads the file of inode `inode` into `buffer`; returns the number of bytes read.
    fn read_file(&self, inode: u64, buffer: &mut [u8]) -> Result<usize, &'static str>;

    /// Lists the names in the directory of inode `inode`.
    fn list_dir(&self, inode: u64) -> Result<Vec<String>, &'static str>;
}

} // verus!
