//! A page mapper together with the record of the pages the kernel mapped through it.

use crate::sys::memory::vmm::{MapFlags, PageSize, VirtualMapper, VmmError};
use vstd::prelude::*;

verus! {

/// A page mapper and what was mapped through it.
pub struct LoggedMapper<M: VirtualMapper> {
    mapper: M,
    mapped: Ghost<Map<u64, (u64, PageSize, MapFlags)>>,
    last_error: Ghost<Option<VmmError>>,
    tried: Ghost<Seq<(u64, u64, PageSize, MapFlags, Result<(), VmmError>)>>,
}

impl<M: VirtualMapper> LoggedMapper<M> {
    /// The pages mapped through this mapper: virtual address of the page to its physical
    /// address, page size and flags (a later mapping of the same address replaces the record).
    pub closed spec fn mappings(&self) -> Map<u64, (u64, PageSize, MapFlags)> {
        self.mapped@
    }

    /// The error of the last mapping that failed, if one has.
    pub closed spec fn last_map_error(&self) -> Option<VmmError> {
        self.last_error@
    }

    /// Every mapping asked of the mapper, oldest first: virtual address, physical address, page
    /// size, flags, and what the mapper returned.
    pub closed spec fn attempts(&self) -> Seq<(u64, u64, PageSize, MapFlags, Result<(), VmmError>)> {
        self.tried@
    }

    /// The mapper itself.
    pub closed spec fn mapper(&self) -> M {
        self.mapper
    }

    /// Starts recording what is mapped through `mapper`.
    pub fn new(mapper: M) -> (r: Self)
        ensures
            r.mapper() == mapper,
            r.mappings() == Map::<u64, (u64, PageSize, MapFlags)>::empty(),
            r.last_map_error() is None,
            r.attempts().len() == 0,
    {
        LoggedMapper {
            mapper,
            mapped: Ghost(Map::empty()),
            last_error: Ghost(None),
            tried: Ghost(Seq::empty()),
        }
    }

    /// The mapper itself.
    pub fn inner(&self) -> (r: &M)
        ensures
            *r == self.mapper(),
    {
        &self.mapper
    }

    /// Has the mapper map `phys_addr` at `virt_addr` with the page size and flags given. On
    /// success the page is recorded among the mappings; on failure they are unchanged and the
    /// mapper's error is recorded as the last one. Either way the attempt is recorded.
    pub fn map_page(&mut self, virt_addr: u64, phys_addr: u64, size: PageSize, flags: MapFlags) -> (r:
        Result<(), VmmError>)
        ensures
            r is Ok ==> final(self).mappings() == old(self).mappings().insert(
                virt_addr,
                (phys_addr, size, flags),
            ),
            r is Ok ==> final(self).last_map_error() == old(self).last_map_error(),
            r is Err ==> final(self).mappings() == old(self).mappings(),
            r matches Err(e) ==> final(self).last_map_error() == Some(e),
            final(self).attempts() == old(self).attempts().push(
                (virt_addr, phys_addr, size, flags, r),
            ),
    {
        let r = self.mapper.map_page(virt_addr, phys_addr, size, flags);
        proof {
            self.tried@ = self.tried@.push((virt_addr, phys_addr, size, flags, r));
        }
        match r {
            Ok(()) => {
                proof {
                    self.mapped@ = self.mapped@.insert(virt_addr, (phys_addr, size, flags));
                }
            },
            Err(e) => {
                proof {
                    self.last_error@ = Some(e);
                }
            },
        }
        r
    }
}

} // verus!
