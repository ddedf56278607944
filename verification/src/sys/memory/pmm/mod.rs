//! Buddy allocator for physical pages of memory.
//!
//! Every power-of-two block size between 4KiB (order 0) and 1GiB (order 18) is supported. Each
//! order keeps a stack of the physical base addresses of its free blocks: the block most recently
//! freed is handed out first.
pub mod error;
pub mod free_set;
pub mod order;

pub use error::PmmError;
pub use order::Order;

use crate::arith::{sat_add, sat_sub};
use crate::memory::pmm::memory_map_sound;
use crate::sys::memory::memory_map::MemoryMapEntry;
use crate::sys::memory::pmm::free_set::{
    block_not_free, block_set, blocks_disjoint, free_covers, free_set,
    lemma_allocate_keeps_disjoint, lemma_allocate_takes_block, lemma_free_adds_block,
    lemma_free_keeps_disjoint, lemma_init_keeps_disjoint, stack_covers, usable_not_free,
};
use vstd::arithmetic::power2::{
    pow2, lemma2_to64, lemma_pow2_pos, lemma_pow2_strictly_increases, lemma_pow2_unfold,
};
use vstd::bits::lemma_u64_shl_is_mul;
use vstd::prelude::*;

verus! {

/// The PMM supports every power of 2 page size between 0 (4KiB) and 18 (1GiB).
pub const MAX_ORDER: usize = 19;

/// The default page size for the PMM (4KiB).
pub const DEFAULT_PAGE_SIZE: usize = 0x1000;

/// Standard Big Page (2MiB).
pub const DEFAULT_BIG_PAGE_SIZE: usize = 0x200000;

/// Size in bytes of a block of the given order.
pub open spec fn block_bytes(order: nat) -> nat {
    4096 * pow2(order)
}

/// Facts about the block sizes of the supported orders.
pub proof fn lemma_block_bytes(order: nat)
    requires
        order < MAX_ORDER,
    ensures
        4096 <= block_bytes(order) <= 0x4000_0000,
        block_bytes(order) % 4096 == 0,
        order > 0 ==> block_bytes(order) == 2 * block_bytes((order - 1) as nat),
        block_bytes(0) == 4096,
{
    lemma2_to64();
    lemma_pow2_pos(order);
    if order < 18 {
        lemma_pow2_strictly_increases(order, 18);
    }
    if order > 0 {
        lemma_pow2_unfold(order);
    }
}

/// Returns the size in bytes of a block of the given order.
fn block_size(order: usize) -> (r: u64)
    requires
        order < MAX_ORDER,
    ensures
        r == block_bytes(order as nat),
{
    proof {
        lemma_block_bytes(order as nat);
        lemma_u64_shl_is_mul(4096u64, order as u64);
    }
    (DEFAULT_PAGE_SIZE as u64) << (order as u64)
}

/// `s` with the occurrence of `x` nearest to the top (its end) removed; `s` itself when `x` does
/// not occur.
pub open spec fn remove_top(s: Seq<u64>, x: u64) -> Seq<u64>
    decreases s.len(),
{
    if s.len() == 0 {
        s
    } else if s.last() == x {
        s.drop_last()
    } else {
        remove_top(s.drop_last(), x).push(s.last())
    }
}

/// The Physical Memory Manager that implements a Buddy Allocator.
///
/// Supports every power of 2 page size between 4KiB and 1GiB.
pub struct PhysMemoryManager {
    /// One stack of free block base addresses (physical) per order; the top is the last element.
    free_lists: Vec<Vec<u64>>,
    /// The HHDM offset, used to translate between physical and virtual addresses.
    hhdm_offset: u64,
    /// Total memory available to the PMM in bytes.
    total_memory_bytes: u64,
    /// Free memory in bytes.
    free_memory_bytes: u64,
}

impl PhysMemoryManager {
    /// The free stacks, one per order, each listed from bottom to top.
    pub closed spec fn free_lists(&self) -> Seq<Seq<u64>> {
        self.free_lists@.map_values(|l: Vec<u64>| l@)
    }

    pub closed spec fn hhdm(&self) -> u64 {
        self.hhdm_offset
    }

    pub closed spec fn total_bytes(&self) -> u64 {
        self.total_memory_bytes
    }

    pub closed spec fn free_bytes(&self) -> u64 {
        self.free_memory_bytes
    }

    /// One free stack per supported order.
    closed spec fn stacks_wf(&self) -> bool {
        self.free_lists@.len() == MAX_ORDER
    }

    /// Well-formedness: one free stack per supported order, and every free block aligned to the
    /// size of its order.
    pub closed spec fn wf(&self) -> bool {
        &&& self.stacks_wf()
        &&& blocks_aligned(self.free_lists())
    }

    /// A well-formed manager has one free stack per supported order and its free blocks are
    /// aligned to their orders, so the laws stated over free stacks apply to it.
    pub proof fn lemma_wf_stacks(&self)
        requires
            self.wf(),
        ensures
            self.free_lists().len() == MAX_ORDER,
            blocks_aligned(self.free_lists()),
    {
    }

    /// Create a new, empty instance of the PMM.
    pub fn new(hhdm_offset: u64) -> (r: Self)
        ensures
            r.wf(),
            blocks_disjoint(r.free_lists()),
            r.hhdm() == hhdm_offset,
            r.total_bytes() == 0,
            r.free_bytes() == 0,
            forall|k: int| 0 <= k < MAX_ORDER ==> (#[trigger] r.free_lists()[k]).len() == 0,
    {
        let mut free_lists: Vec<Vec<u64>> = Vec::new();
        let mut i: usize = 0;
        while i < MAX_ORDER
            invariant
                i <= MAX_ORDER,
                free_lists@.len() == i,
                forall|k: int| 0 <= k < i ==> (#[trigger] free_lists@[k])@.len() == 0,
            decreases MAX_ORDER - i,
        {
            free_lists.push(Vec::new());
            i = i + 1;
        }
        PhysMemoryManager { free_lists, hhdm_offset, total_memory_bytes: 0, free_memory_bytes: 0 }
    }

    /// Returns the total memory handed to the PMM, in bytes.
    pub fn total_memory_bytes(&self) -> (r: u64)
        ensures
            r == self.total_bytes(),
    {
        self.total_memory_bytes
    }

    /// Returns the memory currently free, in bytes.
    pub fn free_memory_bytes(&self) -> (r: u64)
        ensures
            r == self.free_bytes(),
    {
        self.free_memory_bytes
    }

    /// Converts a virtual address to a physical address using the HHDM offset.
    pub fn virt_to_phys(&self, virt_addr: u64) -> (r: u64)
        ensures
            r == sat_sub(virt_addr as int, self.hhdm() as int),
    {
        virt_addr.saturating_sub(self.hhdm_offset)
    }

    /// Converts a physical address to a virtual address using the HHDM offset.
    pub fn phys_to_virt(&self, phys_addr: u64) -> (r: u64)
        ensures
            r == sat_add(phys_addr as int, self.hhdm() as int),
    {
        phys_addr.saturating_add(self.hhdm_offset)
    }

    /// Pushes a free physical block onto the free stack of its order.
    fn push_to_list(&mut self, phys_addr: u64, order: usize)
        requires
            old(self).stacks_wf(),
            order < MAX_ORDER,
        ensures
            final(self).stacks_wf(),
            final(self).free_lists() == old(self).free_lists().update(
                order as int,
                old(self).free_lists()[order as int].push(phys_addr),
            ),
            final(self).hhdm() == old(self).hhdm(),
            final(self).total_bytes() == old(self).total_bytes(),
            final(self).free_bytes() == old(self).free_bytes(),
    {
        self.free_lists[order].push(phys_addr);
        assert(self.free_lists() =~= old(self).free_lists().update(
            order as int,
            old(self).free_lists()[order as int].push(phys_addr),
        ));
    }
}


/// The lowest order at or above `order` whose free stack is not empty; `MAX_ORDER` if there is
/// none.
pub open spec fn lowest_nonempty(lists: Seq<Seq<u64>>, order: nat) -> nat
    decreases MAX_ORDER - order,
{
    if order >= MAX_ORDER {
        MAX_ORDER as nat
    } else if lists[order as int].len() > 0 {
        order
    } else {
        lowest_nonempty(lists, order + 1)
    }
}

/// The free stacks after a block of order `order` is carved out of the top block `addr` of stack
/// `from`: the top of `from` is popped and the upper half of each split, at every order from
/// `from - 1` down to `order`, is pushed onto the stack of its order.
pub open spec fn split_lists(lists: Seq<Seq<u64>>, addr: u64, from: nat, order: nat) -> Seq<
    Seq<u64>,
> {
    Seq::new(
        lists.len(),
        |k: int|
            if k == from {
                lists[k].drop_last()
            } else if order <= k < from {
                lists[k].push(sat_add(addr as int, block_bytes(k as nat) as int))
            } else {
                lists[k]
            },
    )
}

/// The free stacks after the block `addr` of order `order` is freed: while its buddy (the address
/// with the order's size bit flipped) is free at the same order, below the top order, the buddy is
/// taken off its stack and the two merge into the block of the next order at the lower address;
/// the merged block is pushed onto the stack of its final order.
pub open spec fn merge_lists(lists: Seq<Seq<u64>>, addr: u64, order: nat) -> Seq<Seq<u64>>
    decreases MAX_ORDER - order,
{
    let buddy = addr ^ (block_bytes(order) as u64);
    if order + 1 < MAX_ORDER && lists[order as int].contains(buddy) {
        merge_lists(
            lists.update(order as int, remove_top(lists[order as int], buddy)),
            if buddy < addr {
                buddy
            } else {
                addr
            },
            order + 1,
        )
    } else {
        lists.update(order as int, lists[order as int].push(addr))
    }
}

proof fn lemma_remove_top_absent(s: Seq<u64>, x: u64)
    requires
        !s.contains(x),
    ensures
        remove_top(s, x) == s,
    decreases s.len(),
{
    if s.len() > 0 {
        assert(!s.drop_last().contains(x)) by {
            if s.drop_last().contains(x) {
                let i = choose|i: int| 0 <= i < s.drop_last().len() && s.drop_last()[i] == x;
                assert(s[i] == x);
            }
        }
        lemma_remove_top_absent(s.drop_last(), x);
        assert(s.drop_last().push(s.last()) =~= s);
    }
}

impl PhysMemoryManager {
    /// Removes the free block `target_phys_addr` from the stack of `order` (the occurrence nearest
    /// the top). Returns whether it was there.
    fn remove_from_list(&mut self, target_phys_addr: u64, order: usize) -> (found: bool)
        requires
            old(self).stacks_wf(),
            order < MAX_ORDER,
        ensures
            final(self).stacks_wf(),
            found == old(self).free_lists()[order as int].contains(target_phys_addr),
            final(self).free_lists() == old(self).free_lists().update(
                order as int,
                remove_top(old(self).free_lists()[order as int], target_phys_addr),
            ),
            final(self).hhdm() == old(self).hhdm(),
            final(self).total_bytes() == old(self).total_bytes(),
            final(self).free_bytes() == old(self).free_bytes(),
    {
        let ghost s = old(self).free_lists()[order as int];
        let len = self.free_lists[order].len();
        let mut i: usize = len;
        // Walk the stack from its top down to its bottom.
        while i > 0
            invariant
                self.stacks_wf(),
                self.free_lists() == old(self).free_lists(),
                self.hhdm() == old(self).hhdm(),
                self.total_bytes() == old(self).total_bytes(),
                self.free_bytes() == old(self).free_bytes(),
                order < MAX_ORDER,
                s == self.free_lists()[order as int],
                len == s.len(),
                i <= len,
                forall|j: int| i <= j < len ==> s[j] != target_phys_addr,
            decreases i,
        {
            let current = self.free_lists[order][i - 1];
            if current == target_phys_addr {
                proof {
                    lemma_remove_top_split(s, target_phys_addr, (i - 1) as int);
                }
                self.free_lists[order].remove(i - 1);
                assert(self.free_lists() =~= old(self).free_lists().update(
                    order as int,
                    remove_top(s, target_phys_addr),
                ));
                return true;
            }
            i = i - 1;
        }
        proof {
            assert(!s.contains(target_phys_addr));
            lemma_remove_top_absent(s, target_phys_addr);
            assert(self.free_lists() =~= old(self).free_lists().update(order as int, s));
        }
        false
    }
}

/// Removing the topmost occurrence of `x`, when it sits at index `i`, removes index `i`.
proof fn lemma_remove_top_split(s: Seq<u64>, x: u64, i: int)
    requires
        0 <= i < s.len(),
        s[i] == x,
        forall|j: int| i < j < s.len() ==> s[j] != x,
    ensures
        remove_top(s, x) == s.remove(i),
        s.contains(x),
    decreases s.len(),
{
    if i == s.len() - 1 {
        assert(s.drop_last() =~= s.remove(i));
    } else {
        lemma_remove_top_split(s.drop_last(), x, i);
        assert(s.drop_last().remove(i).push(s.last()) =~= s.remove(i));
    }
}


impl PhysMemoryManager {
    /// Splits the block at `phys_addr` of `current_order` down to `target_order`, pushing the
    /// upper half of every split onto the free stack of its order.
    fn split_block(&mut self, phys_addr: u64, current_order: usize, target_order: usize)
        requires
            old(self).stacks_wf(),
            target_order <= current_order < MAX_ORDER,
        ensures
            final(self).stacks_wf(),
            final(self).free_lists() == Seq::new(
                MAX_ORDER as nat,
                |k: int|
                    if target_order <= k < current_order {
                        old(self).free_lists()[k].push(
                            sat_add(phys_addr as int, block_bytes(k as nat) as int),
                        )
                    } else {
                        old(self).free_lists()[k]
                    },
            ),
            final(self).hhdm() == old(self).hhdm(),
            final(self).total_bytes() == old(self).total_bytes(),
            final(self).free_bytes() == old(self).free_bytes(),
    {
        let mut order = current_order;
        // Keep splitting the block down until we reach the target order.
        while order > target_order
            invariant
                self.stacks_wf(),
                target_order <= order <= current_order < MAX_ORDER,
                self.hhdm() == old(self).hhdm(),
                self.total_bytes() == old(self).total_bytes(),
                self.free_bytes() == old(self).free_bytes(),
                self.free_lists() == Seq::new(
                    MAX_ORDER as nat,
                    |k: int|
                        if order <= k < current_order {
                            old(self).free_lists()[k].push(
                                sat_add(phys_addr as int, block_bytes(k as nat) as int),
                            )
                        } else {
                            old(self).free_lists()[k]
                        },
                ),
            decreases order,
        {
            // Step down one order (divide the size by 2).
            order = order - 1;
            let step_size = block_size(order);
            // The buddy's physical address is exactly halfway through the current block.
            let buddy_phys_addr = phys_addr.saturating_add(step_size);
            self.push_to_list(buddy_phys_addr, order);
            assert(self.free_lists() =~= Seq::new(
                MAX_ORDER as nat,
                |k: int|
                    if order <= k < current_order {
                        old(self).free_lists()[k].push(
                            sat_add(phys_addr as int, block_bytes(k as nat) as int),
                        )
                    } else {
                        old(self).free_lists()[k]
                    },
            ));
        }
        assert(self.free_lists() =~= Seq::new(
            MAX_ORDER as nat,
            |k: int|
                if target_order <= k < current_order {
                    old(self).free_lists()[k].push(
                        sat_add(phys_addr as int, block_bytes(k as nat) as int),
                    )
                } else {
                    old(self).free_lists()[k]
                },
        ));
    }

    /// Allocates a contiguous block of memory of the specified `order`.
    ///
    /// The block is taken from the top of the lowest non-empty free stack at or above `order`
    /// and split down to `order`. Returns the physical address of the block.
    pub fn allocate(&mut self, order: Order) -> (r: Result<u64, PmmError>)
        requires
            old(self).wf(),
        ensures
            final(self).wf(),
            r matches Ok(addr) ==> aligned_to(addr, order.number()),
            r matches Ok(addr) ==> free_set(final(self).free_lists()).union(
                block_set(addr, order.number()),
            ) == free_set(old(self).free_lists()),
            blocks_disjoint(old(self).free_lists()) ==> blocks_disjoint(final(self).free_lists()),
            blocks_disjoint(old(self).free_lists()) ==> (r matches Ok(addr) ==> block_not_free(
                final(self).free_lists(),
                addr,
                order.number(),
            )),
            final(self).hhdm() == old(self).hhdm(),
            final(self).total_bytes() == old(self).total_bytes(),
            ({
                let lists = old(self).free_lists();
                let o = order.number();
                let from = lowest_nonempty(lists, o);
                match r {
                    Ok(addr) => {
                        &&& from < MAX_ORDER
                        &&& addr == lists[from as int].last()
                        &&& final(self).free_lists() == split_lists(lists, addr, from, o)
                        &&& final(self).free_bytes() == sat_sub(
                            old(self).free_bytes() as int,
                            block_bytes(o) as int,
                        )
                    },
                    Err(e) => {
                        &&& from == MAX_ORDER
                        &&& e == PmmError::OutOfMemory(o as usize)
                        &&& final(self).free_lists() == lists
                        &&& final(self).free_bytes() == old(self).free_bytes()
                    },
                }
            }),
    {
        let ghost o = order.number();
        let order_number = order.index();
        if order_number >= MAX_ORDER {
            return Err(PmmError::OrderTooLarge(order_number, MAX_ORDER));
        }
        let ghost lists = self.free_lists();
        // Find the smallest available order that is >= the requested order.
        let mut current_order = order_number;
        while current_order < MAX_ORDER
            invariant
                self.stacks_wf(),
                self.free_lists() == lists,
                lists == old(self).free_lists(),
                blocks_aligned(lists),
                o == order_number,
                o == order.number(),
                self.hhdm() == old(self).hhdm(),
                self.total_bytes() == old(self).total_bytes(),
                self.free_bytes() == old(self).free_bytes(),
                order_number <= current_order <= MAX_ORDER,
                lowest_nonempty(lists, order_number as nat) == lowest_nonempty(lists, current_order as nat),
            decreases MAX_ORDER - current_order,
        {
            if self.free_lists[current_order].len() > 0 {
                assert(lowest_nonempty(lists, current_order as nat) == current_order);
                // We found a block! Pop it off the stack.
                let phys_addr = self.free_lists[current_order].pop().unwrap();
                assert(phys_addr == lists[current_order as int].last());
                assert(self.free_lists() =~= lists.update(
                    current_order as int,
                    lists[current_order as int].drop_last(),
                ));
                // If the block is larger than requested, split it down.
                self.split_block(phys_addr, current_order, order_number);
                assert(self.free_lists() =~= split_lists(
                    lists,
                    phys_addr,
                    current_order as nat,
                    order_number as nat,
                ));
                let allocated_memory = block_size(order_number);
                self.free_memory_bytes = self.free_memory_bytes.saturating_sub(allocated_memory);
                proof {
                    if blocks_aligned(lists) {
                        lemma_allocate_keeps_aligned(lists, o);
                        lemma_allocate_takes_block(lists, o);
                        if blocks_disjoint(lists) {
                            lemma_allocate_keeps_disjoint(lists, o);
                        }
                    }
                }
                return Ok(phys_addr);
            }
            current_order = current_order + 1;
        }
        assert(lowest_nonempty(lists, MAX_ORDER as nat) == MAX_ORDER);
        // No blocks were found. The system is out of memory.
        Err(PmmError::OutOfMemory(order_number))
    }

    /// Deallocates a contiguous block of memory of the specified `order`, merging it with its
    /// free buddies. An address that is not aligned to the block size of the order is refused
    /// with `UnalignedFree`, and the PMM is left unchanged.
    pub fn deallocate(&mut self, phys_addr: u64, order: Order) -> (r: Result<(), PmmError>)
        requires
            old(self).wf(),
        ensures
            final(self).wf(),
            final(self).hhdm() == old(self).hhdm(),
            final(self).total_bytes() == old(self).total_bytes(),
            aligned_to(phys_addr, order.number()) ==> free_set(final(self).free_lists()) == free_set(
                old(self).free_lists(),
            ).union(block_set(phys_addr, order.number())),
            aligned_to(phys_addr, order.number()) && blocks_disjoint(old(self).free_lists())
                && block_not_free(old(self).free_lists(), phys_addr, order.number())
                ==> blocks_disjoint(final(self).free_lists()),
            aligned_to(phys_addr, order.number()) && no_free_buddies(old(self).free_lists())
                ==> no_free_buddies(
                final(self).free_lists(),
            ),
            aligned_to(phys_addr, order.number()) ==> {
                &&& r is Ok
                &&& final(self).free_lists() == merge_lists(
                    old(self).free_lists(),
                    phys_addr,
                    order.number(),
                )
                &&& final(self).free_bytes() == sat_add(
                    old(self).free_bytes() as int,
                    block_bytes(order.number()) as int,
                )
            },
            !aligned_to(phys_addr, order.number()) ==> {
                &&& r == Err::<(), PmmError>(
                    PmmError::UnalignedFree(phys_addr, order.number() as usize),
                )
                &&& final(self).free_lists() == old(self).free_lists()
                &&& final(self).free_bytes() == old(self).free_bytes()
            },
    {
        let order = order.index();
        if order >= MAX_ORDER {
            return Err(PmmError::OrderTooLarge(order, MAX_ORDER));
        }
        proof {
            lemma_block_bytes(order as nat);
        }
        // Only a block aligned to its own size can be freed.
        if phys_addr % block_size(order) != 0 {
            return Err(PmmError::UnalignedFree(phys_addr, order));
        }
        let ghost target = merge_lists(self.free_lists(), phys_addr, order as nat);
        let mut current_order = order;
        let mut current_phys_addr = phys_addr;
        // Try to merge the block up to the maximum possible order.
        while current_order < MAX_ORDER - 1
            invariant_except_break
                current_order < MAX_ORDER - 1 ==> merge_lists(
                    self.free_lists(),
                    current_phys_addr,
                    current_order as nat,
                ) == target,
            invariant
                self.stacks_wf(),
                current_order < MAX_ORDER,
                self.hhdm() == old(self).hhdm(),
                self.total_bytes() == old(self).total_bytes(),
                self.free_bytes() == old(self).free_bytes(),
                current_order == MAX_ORDER - 1 ==> merge_lists(
                    self.free_lists(),
                    current_phys_addr,
                    current_order as nat,
                ) == target,
            ensures
                self.free_lists().update(
                    current_order as int,
                    self.free_lists()[current_order as int].push(current_phys_addr),
                ) == target,
            decreases MAX_ORDER - current_order,
        {
            // Find the buddy's address by flipping the bit corresponding to the block's size.
            let block_size = block_size(current_order);
            let buddy_phys_addr = current_phys_addr ^ block_size;
            let ghost before = self.free_lists();
            assert(buddy_phys_addr == current_phys_addr ^ (block_bytes(current_order as nat) as u64));
            // Check if the buddy is currently free in the stack for this order.
            if self.remove_from_list(buddy_phys_addr, current_order) {
                // The buddy was free. The merged block starts at the lower of the two addresses.
                if buddy_phys_addr < current_phys_addr {
                    current_phys_addr = buddy_phys_addr;
                }
                current_order = current_order + 1;
            } else {
                proof {
                    lemma_remove_top_absent(before[current_order as int], buddy_phys_addr);
                    assert(self.free_lists() =~= before);
                }
                // The buddy is in use (or split): no further merge is possible.
                break;
            }
        }
        // Push the final (possibly merged) block onto the appropriate stack.
        self.push_to_list(current_phys_addr, current_order);
        // Update the tracking stats.
        let freed_memory = block_size(order);
        self.free_memory_bytes = self.free_memory_bytes.saturating_add(freed_memory);
        proof {
            let before = old(self).free_lists();
            if blocks_aligned(before) {
                lemma_deallocate_keeps_aligned(before, phys_addr, order as nat);
                if no_free_buddies(before) {
                    lemma_deallocate_keeps_invariants(before, phys_addr, order as nat);
                }
            }
            lemma_free_adds_block(before, phys_addr, order as nat);
            if blocks_disjoint(before) && block_not_free(before, phys_addr, order as nat) {
                lemma_free_keeps_disjoint(before, phys_addr, order as nat);
            }
        }
        Ok(())
    }
}

/// `a` is a multiple of the size of a block of the given order.
pub open spec fn aligned_to(a: u64, order: nat) -> bool {
    (a as int) % (block_bytes(order) as int) == 0
}

/// Every free block is aligned to the size of its order.
pub open spec fn blocks_aligned(lists: Seq<Seq<u64>>) -> bool {
    forall|k: int, i: int|
        0 <= k < lists.len() && 0 <= i < lists[k].len() ==> aligned_to(#[trigger] lists[k][i], k as nat)
}

/// No free block below the top order has its buddy free at the same order: buddies that are
/// both free have always been merged.
pub open spec fn no_free_buddies(lists: Seq<Seq<u64>>) -> bool {
    forall|k: int, i: int, j: int|
        0 <= k < MAX_ORDER - 1 && k < lists.len() && 0 <= i < lists[k].len() && 0 <= j
            < lists[k].len() ==> #[trigger] lists[k][j] != (#[trigger] lists[k][i]) ^ (block_bytes(
            k as nat,
        ) as u64)
}

/// The block size of an order, written as a shift.
proof fn lemma_block_bytes_shl(order: nat)
    requires
        order < MAX_ORDER,
    ensures
        block_bytes(order) == (4096u64 << (order as u64)),
{
    lemma_block_bytes(order);
    lemma_u64_shl_is_mul(4096u64, order as u64);
}

/// For a block aligned to twice its size, flipping the size bit moves up by the size, and
/// flipping it back moves down again.
proof fn lemma_buddy_of_aligned(a: u64, order: nat)
    requires
        order + 1 < MAX_ORDER,
        aligned_to(a, order + 1),
    ensures
        a + block_bytes(order) <= u64::MAX,
        a ^ (block_bytes(order) as u64) == a + block_bytes(order),
        ((a + block_bytes(order)) as u64) ^ (block_bytes(order) as u64) == a,
{
    lemma_block_bytes_shl(order);
    lemma_block_bytes_shl(order + 1);
    let k = order as u64;
    let s = 4096u64 << k;
    let t = 4096u64 << (k + 1) as u64;
    assert(a % t == 0 && k < 18 ==> a ^ s == (a + s) as u64 && a + s <= 0xffff_ffff_ffff_ffff && (
    (a + s) as u64) ^ s == a) by (bit_vector)
        requires
            s == 4096u64 << k,
            t == 4096u64 << (k + 1) as u64,
    ;
}

/// Alignment to an order implies alignment to every lower order, and a block aligned to its
/// order ends without overflow.
proof fn lemma_aligned_lower(a: u64, high: nat, low: nat)
    requires
        low <= high < MAX_ORDER,
        aligned_to(a, high),
    ensures
        aligned_to(a, low),
        a + block_bytes(high) <= u64::MAX + 1,
    decreases high - low,
{
    lemma_block_bytes_shl(high);
    let k = high as u64;
    let s = 4096u64 << k;
    assert(a % s == 0 && k < 19 ==> a + s <= 0x1_0000_0000_0000_0000) by (bit_vector)
        requires
            s == 4096u64 << k,
    ;
    if low < high {
        lemma_block_bytes(high);
        let h1 = (high - 1) as nat;
        let q = a as int / block_bytes(high) as int;
        assert(aligned_to(a, h1)) by (nonlinear_arith)
            requires
                aligned_to(a, high),
                block_bytes(high) == 2 * block_bytes(h1),
                block_bytes(h1) > 0,
        {
            vstd::arithmetic::div_mod::lemma_fundamental_div_mod(a as int, block_bytes(high) as int);
            vstd::arithmetic::div_mod::lemma_mod_multiples_basic(
                2 * (a as int / block_bytes(high) as int),
                block_bytes(h1) as int,
            );
        }
        lemma_aligned_lower(a, h1, low);
    }
}


/// The stacks between the requested order and the lowest non-empty one are empty, and that one
/// is not.
proof fn lemma_lowest_nonempty(lists: Seq<Seq<u64>>, order: nat)
    requires
        lists.len() == MAX_ORDER,
        order <= MAX_ORDER,
    ensures
        order <= lowest_nonempty(lists, order) <= MAX_ORDER,
        lowest_nonempty(lists, order) < MAX_ORDER ==> lists[lowest_nonempty(lists, order) as int].len()
            > 0,
        forall|k: int| order <= k < lowest_nonempty(lists, order) ==> #[trigger] lists[k].len() == 0,
    decreases MAX_ORDER - order,
{
    if order < MAX_ORDER && lists[order as int].len() == 0 {
        lemma_lowest_nonempty(lists, order + 1);
    }
}

/// Merging back from order `j` the block that an allocation split from stack `from` restores
/// the stacks.
proof fn lemma_merge_restores(lists: Seq<Seq<u64>>, order: nat, j: nat)
    requires
        lists.len() == MAX_ORDER,
        order <= j <= lowest_nonempty(lists, order),
        lowest_nonempty(lists, order) < MAX_ORDER,
        blocks_aligned(lists),
        no_free_buddies(lists),
    ensures
        ({
            let from = lowest_nonempty(lists, order);
            let addr = lists[from as int].last();
            merge_lists(split_lists(lists, addr, from, j), addr, j) == lists
        }),
    decreases lowest_nonempty(lists, order) - j,
{
    let from = lowest_nonempty(lists, order);
    lemma_lowest_nonempty(lists, order);
    let last = (lists[from as int].len() - 1) as int;
    let addr = lists[from as int][last];
    assert(aligned_to(addr, from));
    let split = split_lists(lists, addr, from, j);
    let size = block_bytes(j) as u64;
    let buddy = addr ^ size;
    if j < from {
        lemma_aligned_lower(addr, from, j + 1);
        lemma_buddy_of_aligned(addr, j);
        assert(lists[j as int].len() == 0);
        assert(split[j as int] =~= seq![buddy]);
        assert(split[j as int].contains(buddy)) by {
            assert(split[j as int][0] == buddy);
        }
        let removed = split.update(j as int, remove_top(split[j as int], buddy));
        assert(remove_top(split[j as int], buddy) =~= Seq::<u64>::empty());
        assert(lists[j as int] =~= Seq::<u64>::empty());
        assert(removed =~= split_lists(lists, addr, from, j + 1));
        assert(!(buddy < addr));
        lemma_merge_restores(lists, order, j + 1);
    } else {
        let top = split[from as int];
        assert(top =~= lists[from as int].drop_last());
        if from + 1 < MAX_ORDER {
            assert(!top.contains(buddy)) by {
                if top.contains(buddy) {
                    let i = choose|i: int| 0 <= i < top.len() && top[i] == buddy;
                    assert(lists[from as int][i] == lists[from as int][last] ^ size);
                }
            }
        }
        assert(split.update(from as int, top.push(addr)) =~= lists) by {
            assert(top.push(addr) =~= lists[from as int]);
        }
    }
}

/// Law: freeing a block right after allocating it restores the free stacks exactly, when every
/// free block is aligned to its order and no two free buddies are left unmerged; and it restores
/// the free byte count when that count covered the block.
pub proof fn lemma_deallocate_undoes_allocate(lists: Seq<Seq<u64>>, order: nat, free_bytes: u64)
    requires
        lists.len() == MAX_ORDER,
        order < MAX_ORDER,
        blocks_aligned(lists),
        no_free_buddies(lists),
        lowest_nonempty(lists, order) < MAX_ORDER,
        free_bytes >= block_bytes(order),
    ensures
        ({
            let from = lowest_nonempty(lists, order);
            let addr = lists[from as int].last();
            merge_lists(split_lists(lists, addr, from, order), addr, order) == lists
        }),
        sat_add(sat_sub(free_bytes as int, block_bytes(order) as int) as int, block_bytes(order) as int)
            == free_bytes,
{
    lemma_lowest_nonempty(lists, order);
    lemma_merge_restores(lists, order, order);
}


/// Flipping a nonzero size bit always changes the address, and flipping it twice restores it.
proof fn lemma_xor_size(x: u64, order: nat)
    requires
        order < MAX_ORDER,
    ensures
        x ^ (block_bytes(order) as u64) != x,
        (x ^ (block_bytes(order) as u64)) ^ (block_bytes(order) as u64) == x,
{
    lemma_block_bytes(order);
    let s = block_bytes(order) as u64;
    assert(s != 0 ==> x ^ s != x && (x ^ s) ^ s == x) by (bit_vector);
}

/// The block that a merge keeps (the lower of a block and its buddy) is aligned to the next
/// order.
proof fn lemma_merged_aligned(a: u64, order: nat)
    requires
        order + 1 < MAX_ORDER,
        aligned_to(a, order),
    ensures
        ({
            let buddy = a ^ (block_bytes(order) as u64);
            aligned_to(
                if buddy < a {
                    buddy
                } else {
                    a
                },
                order + 1,
            )
        }),
{
    lemma_block_bytes(order + 1);
    let s = block_bytes(order) as int;
    let q = (a as int) / s;
    vstd::arithmetic::div_mod::lemma_fundamental_div_mod(a as int, s);
    if q % 2 == 0 {
        assert(aligned_to(a, order + 1)) by (nonlinear_arith)
            requires
                a as int == s * q + (a as int) % s,
                (a as int) % s == 0,
                q % 2 == 0,
                block_bytes(order + 1) == 2 * s,
                s > 0,
        {
            vstd::arithmetic::div_mod::lemma_mod_multiples_basic(q / 2, 2 * s);
        }
        lemma_buddy_of_aligned(a, order);
    } else {
        let low = (a - s) as u64;
        assert(a >= s) by (nonlinear_arith)
            requires
                a as int == s * q + 0,
                q % 2 == 1,
                s > 0,
                q >= 0,
        ;
        assert(aligned_to(low, order + 1)) by (nonlinear_arith)
            requires
                a as int == s * q,
                q % 2 == 1,
                low as int == a - s,
                block_bytes(order + 1) == 2 * s,
                s > 0,
        {
            assert(low as int == (2 * s) * (q / 2));
            vstd::arithmetic::div_mod::lemma_mod_multiples_basic(q / 2, 2 * s);
        }
        lemma_buddy_of_aligned(low, order);
    }
}

/// The block above an aligned block, at a lower order, is aligned to that lower order.
proof fn lemma_upper_half_aligned(a: u64, from: nat, k: nat)
    requires
        k < from < MAX_ORDER,
        aligned_to(a, from),
    ensures
        a + block_bytes(k) <= u64::MAX,
        sat_add(a as int, block_bytes(k) as int) == a + block_bytes(k),
        aligned_to((a + block_bytes(k)) as u64, k),
{
    lemma_aligned_lower(a, from, k + 1);
    lemma_aligned_lower(a, from, k);
    lemma_buddy_of_aligned(a, k);
    lemma_block_bytes(k);
    let b = block_bytes(k) as int;
    assert(((a as int) + b) % b == 0) by {
        vstd::arithmetic::div_mod::lemma_mod_adds(a as int, b, b);
        vstd::arithmetic::div_mod::lemma_mod_self_0(b);
    }
}

/// Law: an allocation hands out a block aligned to the requested order and keeps every free
/// block aligned.
pub proof fn lemma_allocate_keeps_aligned(lists: Seq<Seq<u64>>, order: nat)
    requires
        lists.len() == MAX_ORDER,
        order < MAX_ORDER,
        blocks_aligned(lists),
        lowest_nonempty(lists, order) < MAX_ORDER,
    ensures
        ({
            let from = lowest_nonempty(lists, order);
            let addr = lists[from as int].last();
            &&& aligned_to(addr, order)
            &&& blocks_aligned(split_lists(lists, addr, from, order))
        }),
{
    let from = lowest_nonempty(lists, order);
    lemma_lowest_nonempty(lists, order);
    let last = (lists[from as int].len() - 1) as int;
    let addr = lists[from as int][last];
    assert(aligned_to(addr, from));
    lemma_aligned_lower(addr, from, order);
    let after = split_lists(lists, addr, from, order);
    assert forall|k: int, i: int|
        0 <= k < after.len() && 0 <= i < after[k].len() implies aligned_to(
        #[trigger] after[k][i],
        k as nat,
    ) by {
        if k == from {
            assert(after[k][i] == lists[k][i]);
        } else if order <= k < from {
            assert(lists[k].len() == 0);
            lemma_upper_half_aligned(addr, from, k as nat);
        } else {
            assert(after[k][i] == lists[k][i]);
        }
    }
}

/// Law: freeing a block aligned to its order keeps every free block aligned.
pub proof fn lemma_deallocate_keeps_aligned(lists: Seq<Seq<u64>>, addr: u64, order: nat)
    requires
        lists.len() == MAX_ORDER,
        order < MAX_ORDER,
        blocks_aligned(lists),
        aligned_to(addr, order),
    ensures
        blocks_aligned(merge_lists(lists, addr, order)),
    decreases MAX_ORDER - order,
{
    let size = block_bytes(order) as u64;
    let buddy = addr ^ size;
    let s = lists[order as int];
    if order + 1 < MAX_ORDER && s.contains(buddy) {
        let r = remove_top(s, buddy);
        let removed = lists.update(order as int, r);
        lemma_remove_top_elements(s, buddy);
        assert forall|k: int, i: int|
            0 <= k < removed.len() && 0 <= i < removed[k].len() implies aligned_to(
            #[trigger] removed[k][i],
            k as nat,
        ) by {
            if k == order {
                assert(s.contains(r[i]));
                let i2 = choose|i2: int| 0 <= i2 < s.len() && s[i2] == r[i];
                assert(aligned_to(lists[k][i2], k as nat));
            }
        }
        lemma_merged_aligned(addr, order);
        lemma_deallocate_keeps_aligned(
            removed,
            if buddy < addr {
                buddy
            } else {
                addr
            },
            order + 1,
        );
    } else {
        let after = lists.update(order as int, s.push(addr));
        assert(merge_lists(lists, addr, order) == after);
        assert forall|k: int, i: int|
            0 <= k < after.len() && 0 <= i < after[k].len() implies aligned_to(
            #[trigger] after[k][i],
            k as nat,
        ) by {
            if k == order && i < s.len() {
                assert(after[k][i] == lists[k][i]);
            }
        }
    }
}

/// Law: an allocation hands out a block aligned to the requested order, and keeps every free
/// block aligned and every pair of free buddies merged.
pub proof fn lemma_allocate_keeps_invariants(lists: Seq<Seq<u64>>, order: nat)
    requires
        lists.len() == MAX_ORDER,
        order < MAX_ORDER,
        blocks_aligned(lists),
        no_free_buddies(lists),
        lowest_nonempty(lists, order) < MAX_ORDER,
    ensures
        ({
            let from = lowest_nonempty(lists, order);
            let addr = lists[from as int].last();
            let after = split_lists(lists, addr, from, order);
            &&& aligned_to(addr, order)
            &&& blocks_aligned(after)
            &&& no_free_buddies(after)
        }),
{
    let from = lowest_nonempty(lists, order);
    lemma_lowest_nonempty(lists, order);
    let last = (lists[from as int].len() - 1) as int;
    let addr = lists[from as int][last];
    assert(aligned_to(addr, from));
    lemma_aligned_lower(addr, from, order);
    let after = split_lists(lists, addr, from, order);
    assert forall|k: int, i: int|
        0 <= k < after.len() && 0 <= i < after[k].len() implies aligned_to(
        #[trigger] after[k][i],
        k as nat,
    ) by {
        if k == from {
            assert(after[k][i] == lists[k][i]);
        } else if order <= k < from {
            assert(lists[k].len() == 0);
            lemma_upper_half_aligned(addr, from, k as nat);
        } else {
            assert(after[k][i] == lists[k][i]);
        }
    }
    assert forall|k: int, i: int, j: int|
        0 <= k < MAX_ORDER - 1 && k < after.len() && 0 <= i < after[k].len() && 0 <= j
            < after[k].len() implies #[trigger] after[k][j] != (#[trigger] after[k][i]) ^ (
    block_bytes(k as nat) as u64) by {
        if k == from {
            assert(after[k][i] == lists[k][i]);
            assert(after[k][j] == lists[k][j]);
        } else if order <= k < from {
            assert(lists[k].len() == 0);
            assert(i == 0 && j == 0);
            lemma_xor_size(after[k][i], k as nat);
        } else {
            assert(after[k][i] == lists[k][i]);
            assert(after[k][j] == lists[k][j]);
        }
    }
}


/// Every element left by `remove_top` was in the stack before.
proof fn lemma_remove_top_elements(s: Seq<u64>, x: u64)
    ensures
        forall|i: int| 0 <= i < remove_top(s, x).len() ==> s.contains(#[trigger] remove_top(s, x)[i]),
    decreases s.len(),
{
    if s.len() > 0 {
        let r = remove_top(s, x);
        if s.last() == x {
            assert forall|i: int| 0 <= i < r.len() implies s.contains(#[trigger] r[i]) by {
                assert(s[i] == r[i]);
            }
        } else {
            lemma_remove_top_elements(s.drop_last(), x);
            let r0 = remove_top(s.drop_last(), x);
            assert forall|i: int| 0 <= i < r.len() implies s.contains(#[trigger] r[i]) by {
                if i < r0.len() {
                    assert(s.drop_last().contains(r0[i]));
                    let j = choose|j: int| 0 <= j < s.drop_last().len() && s.drop_last()[j] == r0[i];
                    assert(s[j] == r[i]);
                } else {
                    assert(s[s.len() - 1] == r[i]);
                }
            }
        }
    }
}

/// Law: freeing a block aligned to its order keeps every free block aligned and every pair of
/// free buddies merged.
pub proof fn lemma_deallocate_keeps_invariants(lists: Seq<Seq<u64>>, addr: u64, order: nat)
    requires
        lists.len() == MAX_ORDER,
        order < MAX_ORDER,
        blocks_aligned(lists),
        no_free_buddies(lists),
        aligned_to(addr, order),
    ensures
        blocks_aligned(merge_lists(lists, addr, order)),
        no_free_buddies(merge_lists(lists, addr, order)),
    decreases MAX_ORDER - order,
{
    let size = block_bytes(order) as u64;
    let buddy = addr ^ size;
    let s = lists[order as int];
    lemma_xor_size(addr, order);
    if order + 1 < MAX_ORDER && s.contains(buddy) {
        let r = remove_top(s, buddy);
        let removed = lists.update(order as int, r);
        lemma_remove_top_elements(s, buddy);
        assert forall|k: int, i: int|
            0 <= k < removed.len() && 0 <= i < removed[k].len() implies aligned_to(
            #[trigger] removed[k][i],
            k as nat,
        ) by {
            if k == order {
                assert(s.contains(r[i]));
                let i2 = choose|i2: int| 0 <= i2 < s.len() && s[i2] == r[i];
                assert(aligned_to(lists[k][i2], k as nat));
            }
        }
        assert forall|k: int, i: int, j: int|
            0 <= k < MAX_ORDER - 1 && k < removed.len() && 0 <= i < removed[k].len() && 0 <= j
                < removed[k].len() implies #[trigger] removed[k][j] != (#[trigger] removed[k][i]) ^ (
        block_bytes(k as nat) as u64) by {
            if k == order {
                assert(s.contains(r[i]));
                assert(s.contains(r[j]));
                let i2 = choose|i2: int| 0 <= i2 < s.len() && s[i2] == r[i];
                let j2 = choose|j2: int| 0 <= j2 < s.len() && s[j2] == r[j];
                assert(lists[k][j2] != lists[k][i2] ^ (block_bytes(k as nat) as u64));
            }
        }
        lemma_merged_aligned(addr, order);
        lemma_deallocate_keeps_invariants(
            removed,
            if buddy < addr {
                buddy
            } else {
                addr
            },
            order + 1,
        );
    } else {
        let after = lists.update(order as int, s.push(addr));
        assert(merge_lists(lists, addr, order) == after);
        assert forall|k: int, i: int|
            0 <= k < after.len() && 0 <= i < after[k].len() implies aligned_to(
            #[trigger] after[k][i],
            k as nat,
        ) by {
            if k == order && i < s.len() {
                assert(after[k][i] == lists[k][i]);
            }
        }
        assert forall|k: int, i: int, j: int|
            0 <= k < MAX_ORDER - 1 && k < after.len() && 0 <= i < after[k].len() && 0 <= j
                < after[k].len() implies #[trigger] after[k][j] != (#[trigger] after[k][i]) ^ (
        block_bytes(k as nat) as u64) by {
            if k == order {
                let n = s.len() as int;
                if i < n && j < n {
                    assert(after[k][i] == lists[k][i] && after[k][j] == lists[k][j]);
                } else if i < n {
                    assert(after[k][i] == s[i]);
                    if s[i] == addr ^ size {
                        assert(s.contains(buddy));
                    }
                    lemma_xor_size(s[i], order);
                } else if j < n {
                    assert(after[k][j] == s[j]);
                    if s[j] == buddy {
                        assert(s.contains(buddy));
                    }
                }
            }
        }
    }
}


/// `x` rounded down to a 4KiB boundary.
pub open spec fn align_down_4k(x: u64) -> nat {
    (x - x % 4096) as nat
}

/// First page-aligned address of a region: its base rounded up to 4KiB (saturating).
pub open spec fn region_start(e: MemoryMapEntry) -> nat {
    align_down_4k(sat_add(e.base as int, 4095))
}

/// End of the page-aligned part of a region: its end rounded down to 4KiB (saturating).
pub open spec fn region_end(e: MemoryMapEntry) -> nat {
    align_down_4k(sat_add(e.base as int, e.length as int))
}

/// A block of order `k` at `cur` fits before `end` and is aligned to its size.
pub open spec fn fits_block(cur: nat, end: nat, k: nat) -> bool {
    cur + block_bytes(k) <= end && cur % block_bytes(k) == 0
}

/// The largest order not above `k` whose block fits at `cur` (order 0 when none does).
pub open spec fn carve_order(cur: nat, end: nat, k: nat) -> nat
    decreases k,
{
    if k == 0 || fits_block(cur, end, k) {
        k
    } else {
        carve_order(cur, end, (k - 1) as nat)
    }
}

/// The blocks `(address, order)` into which `[cur, end)` is carved: from `cur` upwards, each
/// time the largest block that fits and is aligned.
pub open spec fn carve(cur: nat, end: nat) -> Seq<(nat, nat)>
    decreases (if cur < end {
        end - cur
    } else {
        0
    }),
{
    if cur >= end {
        Seq::empty()
    } else {
        let k = carve_order(cur, end, (MAX_ORDER - 1) as nat);
        proof {
            lemma_pow2_pos(k);
        }
        seq![(cur, k)] + carve(cur + block_bytes(k), end)
    }
}

/// The blocks carved out of one memory map entry: none unless it is usable.
pub open spec fn carve_region(e: MemoryMapEntry) -> Seq<(nat, nat)> {
    if e.is_usable() {
        carve(region_start(e), region_end(e))
    } else {
        Seq::empty()
    }
}

/// The free stacks after pushing the given blocks, in order.
pub open spec fn push_blocks(lists: Seq<Seq<u64>>, blocks: Seq<(nat, nat)>) -> Seq<Seq<u64>>
    decreases blocks.len(),
{
    if blocks.len() == 0 {
        lists
    } else {
        let b = blocks[0];
        push_blocks(lists.update(b.1 as int, lists[b.1 as int].push(b.0 as u64)), blocks.drop_first())
    }
}

/// A byte counter after adding the sizes of the given blocks, saturating.
pub open spec fn add_block_bytes(total: u64, blocks: Seq<(nat, nat)>) -> u64
    decreases blocks.len(),
{
    if blocks.len() == 0 {
        total
    } else {
        add_block_bytes(sat_add(total as int, block_bytes(blocks[0].1) as int), blocks.drop_first())
    }
}

/// The free stacks after the blocks of every entry of the memory map are pushed.
pub open spec fn init_lists(lists: Seq<Seq<u64>>, map: Seq<MemoryMapEntry>) -> Seq<Seq<u64>>
    decreases map.len(),
{
    if map.len() == 0 {
        lists
    } else {
        init_lists(push_blocks(lists, carve_region(map[0])), map.drop_first())
    }
}

/// A byte counter after the sizes of the blocks of every entry of the memory map are added.
pub open spec fn init_bytes(total: u64, map: Seq<MemoryMapEntry>) -> u64
    decreases map.len(),
{
    if map.len() == 0 {
        total
    } else {
        init_bytes(add_block_bytes(total, carve_region(map[0])), map.drop_first())
    }
}

proof fn lemma_align_down_4k(x: u64)
    ensures
        x & !4095u64 == align_down_4k(x),
        align_down_4k(x) % 4096 == 0,
        align_down_4k(x) <= x,
        x - align_down_4k(x) < 4096,
{
    assert(x & !4095u64 == x - x % 4096) by (bit_vector);
}

/// Pushing blocks that are each aligned to their order keeps every free block aligned.
proof fn lemma_push_blocks_aligned(lists: Seq<Seq<u64>>, blocks: Seq<(nat, nat)>)
    requires
        lists.len() == MAX_ORDER,
        blocks_aligned(lists),
        forall|i: int|
            0 <= i < blocks.len() ==> (#[trigger] blocks[i]).1 < MAX_ORDER && blocks[i].0
                <= u64::MAX && blocks[i].0 % block_bytes(blocks[i].1) == 0,
    ensures
        push_blocks(lists, blocks).len() == MAX_ORDER,
        blocks_aligned(push_blocks(lists, blocks)),
    decreases blocks.len(),
{
    if blocks.len() > 0 {
        let b = blocks[0];
        let k0 = b.1 as int;
        let next = lists.update(k0, lists[k0].push(b.0 as u64));
        assert forall|k: int, i: int| 0 <= k < next.len() && 0 <= i < next[k].len() implies aligned_to(
            #[trigger] next[k][i],
            k as nat,
        ) by {
            if k == k0 && i == lists[k].len() {
                assert(next[k][i] == b.0 as u64);
            } else {
                assert(next[k][i] == lists[k][i]);
            }
        }
        let rest = blocks.drop_first();
        assert forall|i: int| 0 <= i < rest.len() implies (#[trigger] rest[i]).1 < MAX_ORDER
            && rest[i].0 <= u64::MAX && rest[i].0 % block_bytes(rest[i].1) == 0 by {
            assert(rest[i] == blocks[i + 1]);
        }
        lemma_push_blocks_aligned(next, rest);
    }
}

/// Carving the usable entries of a memory map into free blocks keeps every free block aligned.
pub proof fn lemma_init_lists_aligned(lists: Seq<Seq<u64>>, map: Seq<MemoryMapEntry>)
    requires
        lists.len() == MAX_ORDER,
        blocks_aligned(lists),
    ensures
        blocks_aligned(init_lists(lists, map)),
    decreases map.len(),
{
    if map.len() > 0 {
        let e = map[0];
        let blocks = carve_region(e);
        if e.is_usable() {
            let lo = sat_add(e.base as int, 4095);
            let hi = sat_add(e.base as int, e.length as int);
            lemma_align_down_4k(lo);
            lemma_align_down_4k(hi);
            lemma_carve_covers(region_start(e), region_end(e));
            assert forall|i: int| 0 <= i < blocks.len() implies (#[trigger] blocks[i]).1 < MAX_ORDER
                && blocks[i].0 <= u64::MAX && blocks[i].0 % block_bytes(blocks[i].1) == 0 by {
                assert(fits_block(blocks[i].0, region_end(e), blocks[i].1));
                lemma_block_bytes(blocks[i].1);
            }
        }
        lemma_push_blocks_aligned(lists, blocks);
        lemma_init_lists_aligned(push_blocks(lists, blocks), map.drop_first());
    }
}

impl PhysMemoryManager {
    /// Carves the usable entries of the memory map into the largest aligned blocks that fit and
    /// pushes them onto the free stacks.
    pub fn init(&mut self, memory_map: &[MemoryMapEntry])
        requires
            old(self).wf(),
        ensures
            final(self).wf(),
            final(self).free_lists() == init_lists(old(self).free_lists(), memory_map@),
            blocks_disjoint(old(self).free_lists()) && memory_map_sound(memory_map@)
                && usable_not_free(old(self).free_lists(), memory_map@) ==> blocks_disjoint(
                final(self).free_lists(),
            ),
            (forall|k: int| 0 <= k < MAX_ORDER ==> (#[trigger] old(self).free_lists()[k]).len() == 0)
                && memory_map_sound(memory_map@) ==> blocks_disjoint(final(self).free_lists()),
            final(self).total_bytes() == init_bytes(old(self).total_bytes(), memory_map@),
            final(self).free_bytes() == init_bytes(old(self).free_bytes(), memory_map@),
            final(self).hhdm() == old(self).hhdm(),
    {
        let ghost map = memory_map@;
        assert(map.skip(0) =~= map);
        let mut i: usize = 0;
        while i < memory_map.len()
            invariant
                self.stacks_wf(),
                map == memory_map@,
                i <= map.len(),
                self.hhdm() == old(self).hhdm(),
                init_lists(self.free_lists(), map.skip(i as int)) == init_lists(
                    old(self).free_lists(),
                    map,
                ),
                init_bytes(self.total_bytes(), map.skip(i as int)) == init_bytes(
                    old(self).total_bytes(),
                    map,
                ),
                init_bytes(self.free_bytes(), map.skip(i as int)) == init_bytes(
                    old(self).free_bytes(),
                    map,
                ),
            decreases map.len() - i,
        {
            let region = memory_map[i];
            assert(map.skip(i as int).drop_first() =~= map.skip(i + 1));
            assert(map.skip(i as int)[0] == region);
            let ghost pieces = carve_region(region);
            assert(init_lists(self.free_lists(), map.skip(i as int)) == init_lists(
                push_blocks(self.free_lists(), pieces),
                map.skip(i + 1),
            ));
            assert(init_bytes(self.total_bytes(), map.skip(i as int)) == init_bytes(
                add_block_bytes(self.total_bytes(), pieces),
                map.skip(i + 1),
            ));
            assert(init_bytes(self.free_bytes(), map.skip(i as int)) == init_bytes(
                add_block_bytes(self.free_bytes(), pieces),
                map.skip(i + 1),
            ));
            // Only care about USABLE regions.
            if region.entry_type == crate::sys::memory::memory_map::MEMMAP_USABLE {
                // Align the base address UP to the nearest 4KiB page boundary.
                let aligned_base = region.base.saturating_add(4095);
                let mut current_base = aligned_base & !4095u64;
                // Align the end address DOWN to the nearest 4KiB page boundary.
                let region_end_addr = region.base.saturating_add(region.length);
                let end_addr = region_end_addr & !4095u64;
                proof {
                    lemma_align_down_4k(aligned_base);
                    lemma_align_down_4k(region_end_addr);
                    assert(pieces == carve(current_base as nat, end_addr as nat));
                }
                // Carve the region into the largest possible power-of-2 blocks.
                while current_base < end_addr
                    invariant
                        self.stacks_wf(),
                        map == memory_map@,
                        i < map.len(),
                        self.hhdm() == old(self).hhdm(),
                        current_base % 4096 == 0,
                        end_addr % 4096 == 0,
                        init_lists(
                            push_blocks(self.free_lists(), carve(current_base as nat, end_addr as nat)),
                            map.skip(i + 1),
                        ) == init_lists(old(self).free_lists(), map),
                        init_bytes(
                            add_block_bytes(
                                self.total_bytes(),
                                carve(current_base as nat, end_addr as nat),
                            ),
                            map.skip(i + 1),
                        ) == init_bytes(old(self).total_bytes(), map),
                        init_bytes(
                            add_block_bytes(
                                self.free_bytes(),
                                carve(current_base as nat, end_addr as nat),
                            ),
                            map.skip(i + 1),
                        ) == init_bytes(old(self).free_bytes(), map),
                    decreases end_addr - current_base,
                {
                    let ghost cur = current_base as nat;
                    let ghost end = end_addr as nat;
                    let mut order: usize = MAX_ORDER - 1;
                    let mut block: u64;
                    loop
                        invariant
                            order < MAX_ORDER,
                            cur == current_base,
                            end == end_addr,
                            current_base < end_addr,
                            current_base % 4096 == 0,
                            end_addr % 4096 == 0,
                            carve_order(cur, end, (MAX_ORDER - 1) as nat) == carve_order(
                                cur,
                                end,
                                order as nat,
                            ),
                        ensures
                            order < MAX_ORDER,
                            block == block_bytes(order as nat),
                            carve_order(cur, end, (MAX_ORDER - 1) as nat) == order,
                            current_base + block <= end_addr,
                        decreases order,
                    {
                        block = block_size(order);
                        proof {
                            lemma_block_bytes(order as nat);
                            lemma_block_bytes(0);
                            assert(cur + 4096 <= end) by (nonlinear_arith)
                                requires
                                    cur % 4096 == 0,
                                    end % 4096 == 0,
                                    cur < end,
                            ;
                            assert(end <= u64::MAX - 4095);
                        }
                        // Check if this order satisfies BOTH size and alignment requirements.
                        let fits_in_region = current_base.saturating_add(block) <= end_addr;
                        let is_aligned = current_base % block == 0;
                        if fits_in_region && is_aligned {
                            assert(fits_block(cur, end, order as nat));
                            // Found the perfect fit.
                            break;
                        }
                        assert(!fits_block(cur, end, order as nat));
                        assert(order != 0);
                        // If it doesn't fit or align, drop down an order and try again.
                        order = order - 1;
                    }
                    // Push this aligned chunk onto the free stacks.
                    self.push_to_list(current_base, order);
                    // Update the tracking numbers.
                    self.total_memory_bytes = self.total_memory_bytes.saturating_add(block);
                    self.free_memory_bytes = self.free_memory_bytes.saturating_add(block);
                    // Move the base pointer forward by the size that was carved out.
                    proof {
                        lemma_pow2_pos(order as nat);
                        let pieces = carve(cur, end);
                        assert(pieces.drop_first() =~= carve(cur + block_bytes(order as nat), end));
                        assert(pieces[0] == (cur, order as nat));
                        lemma_block_bytes(order as nat);
                        assert((cur + block_bytes(order as nat)) % 4096 == 0) by {
                            vstd::arithmetic::div_mod::lemma_mod_adds(
                                cur as int,
                                block_bytes(order as nat) as int,
                                4096,
                            );
                        }
                    }
                    current_base = current_base + block;
                }
                assert(carve(current_base as nat, end_addr as nat) =~= Seq::empty());
            } else {
                assert(pieces =~= Seq::empty());
            }
            i = i + 1;
        }
        assert(map.skip(map.len() as int) =~= Seq::<MemoryMapEntry>::empty());
        proof {
            let before = old(self).free_lists();
            if blocks_aligned(before) {
                lemma_init_lists_aligned(before, map);
            }
            if (forall|k: int| 0 <= k < MAX_ORDER ==> (#[trigger] before[k]).len() == 0) {
                assert forall|x: int| !#[trigger] free_covers(before, x) by {
                    if free_covers(before, x) {
                        let k = choose|k: int|
                            0 <= k < before.len() && #[trigger] stack_covers(before[k], k as nat, x);
                        assert(before[k].len() == 0);
                    }
                }
            }
            if blocks_disjoint(before) && memory_map_sound(map) && usable_not_free(before, map) {
                lemma_init_keeps_disjoint(before, map);
            }
        }
    }
}


/// The order chosen at `cur` is the largest, not above `k`, whose block fits and is aligned.
proof fn lemma_carve_order(cur: nat, end: nat, k: nat)
    requires
        cur % 4096 == 0,
        end % 4096 == 0,
        cur < end,
        k < MAX_ORDER,
    ensures
        carve_order(cur, end, k) <= k,
        fits_block(cur, end, carve_order(cur, end, k)),
        forall|j: nat| carve_order(cur, end, k) < j <= k ==> !#[trigger] fits_block(cur, end, j),
    decreases k,
{
    lemma_block_bytes(0);
    assert(cur + 4096 <= end) by (nonlinear_arith)
        requires
            cur % 4096 == 0,
            end % 4096 == 0,
            cur < end,
    ;
    if k > 0 && !fits_block(cur, end, k) {
        lemma_carve_order(cur, end, (k - 1) as nat);
    }
}

/// Law: the blocks that `init` carves out of a page-aligned span are aligned to their orders,
/// follow one another without gap or overlap, cover the span exactly, and each is the largest
/// aligned block that fits where it starts.
pub proof fn lemma_carve_covers(cur: nat, end: nat)
    requires
        cur % 4096 == 0,
        end % 4096 == 0,
    ensures
        ({
            let pieces = carve(cur, end);
            &&& (pieces.len() == 0 <==> cur >= end)
            &&& pieces.len() > 0 ==> pieces[0].0 == cur && pieces.last().0 + block_bytes(
                pieces.last().1,
            ) == end
            &&& forall|i: int|
                0 <= i < pieces.len() ==> (#[trigger] pieces[i]).1 < MAX_ORDER && fits_block(
                    pieces[i].0,
                    end,
                    pieces[i].1,
                )
            &&& forall|i: int, k: nat|
                #![trigger pieces[i], fits_block(pieces[i].0, end, k)]
                0 <= i < pieces.len() && pieces[i].1 < k < MAX_ORDER ==> !fits_block(
                    pieces[i].0,
                    end,
                    k,
                )
            &&& forall|i: int|
                0 <= i < pieces.len() - 1 ==> (#[trigger] pieces[i + 1]).0 == pieces[i].0
                    + block_bytes(pieces[i].1)
        }),
    decreases (if cur < end {
        end - cur
    } else {
        0
    }),
{
    if cur < end {
        let top = (MAX_ORDER - 1) as nat;
        lemma_carve_order(cur, end, top);
        let k = carve_order(cur, end, top);
        lemma_block_bytes(k);
        let next = cur + block_bytes(k);
        assert(next % 4096 == 0) by {
            vstd::arithmetic::div_mod::lemma_mod_adds(cur as int, block_bytes(k) as int, 4096);
        }
        lemma_carve_covers(next, end);
        let rest = carve(next, end);
        let pieces = carve(cur, end);
        assert(pieces == seq![(cur, k)] + rest);
        assert forall|i: int| 0 <= i < pieces.len() implies (#[trigger] pieces[i]).1 < MAX_ORDER
            && fits_block(pieces[i].0, end, pieces[i].1) by {
            if i > 0 {
                assert(pieces[i] == rest[i - 1]);
            }
        }
        assert forall|i: int, j: nat|
            #![trigger pieces[i], fits_block(pieces[i].0, end, j)]
            0 <= i < pieces.len() && pieces[i].1 < j < MAX_ORDER implies !fits_block(
            pieces[i].0,
            end,
            j,
        ) by {
            if i > 0 {
                assert(pieces[i] == rest[i - 1]);
            }
        }
        assert forall|i: int| 0 <= i < pieces.len() - 1 implies (#[trigger] pieces[i + 1]).0
            == pieces[i].0 + block_bytes(pieces[i].1) by {
            assert(pieces[i + 1] == rest[i]);
            if i > 0 {
                assert(pieces[i] == rest[i - 1]);
                let j = i - 1;
                assert(rest[j + 1].0 == rest[j].0 + block_bytes(rest[j].1));
            } else {
                assert(rest.len() > 0);
                assert(rest[0].0 == next);
            }
        }
        if rest.len() > 0 {
            assert(pieces.last() == rest.last());
        }
    }
}

} // verus!
