//! A block driver together with the record of every transfer the kernel asked of it.

use crate::io::block::BlockDriver;
use vstd::prelude::*;

verus! {

/// A block driver and the transfers made through it.
pub struct LoggedDriver<D: BlockDriver> {
    driver: D,
    log: Ghost<Seq<(bool, usize, Seq<u8>, Result<(), D::Error>)>>,
}

impl<D: BlockDriver> LoggedDriver<D> {
    /// Every transfer made through this driver, oldest first: whether it was a write, its first
    /// sector, the bytes it moved (those in the buffer after a read, those written from the
    /// buffer by a write), and what the driver returned.
    pub closed spec fn transfers(&self) -> Seq<(bool, usize, Seq<u8>, Result<(), D::Error>)> {
        self.log@
    }

    /// The driver itself.
    pub closed spec fn driver(&self) -> D {
        self.driver
    }

    /// Starts tracking `driver`, with no transfer yet.
    pub fn new(driver: D) -> (r: Self)
        ensures
            r.driver() == driver,
            r.transfers().len() == 0,
    {
        LoggedDriver { driver, log: Ghost(Seq::empty()) }
    }

    /// The number of sectors of the device, as the driver reports it.
    pub fn capacity(&self) -> (r: u64)
        ensures
            call_ensures(D::capacity, (&self.driver(),), r),
    {
        let read_capacity = D::capacity;
        read_capacity(&self.driver)
    }

    /// Has the driver read the sectors from `sector` on into `buffer`; the read is recorded
    /// with what the driver returned.
    pub fn read_blocks(&mut self, sector: usize, buffer: &mut [u8]) -> (r: Result<(), D::Error>)
        ensures
            final(self).transfers() == old(self).transfers().push((false, sector, final(buffer)@, r)),
    {
        let r = self.driver.read_blocks(sector, buffer);
        proof {
            self.log@ = self.log@.push((false, sector, buffer@, r));
        }
        r
    }

    /// Has the driver write `buffer` to the sectors from `sector` on; the write is recorded with
    /// what the driver returned.
    pub fn write_blocks(&mut self, sector: usize, buffer: &[u8]) -> (r: Result<(), D::Error>)
        ensures
            final(self).transfers() == old(self).transfers().push((true, sector, buffer@, r)),
    {
        let r = self.driver.write_blocks(sector, buffer);
        proof {
            self.log@ = self.log@.push((true, sector, buffer@, r));
        }
        r
    }
}

} // verus!
