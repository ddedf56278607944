//! The free memory of the buddy PMM as a set of addresses: the bytes that its free blocks cover,
//! whatever the blocks they are grouped in.

use crate::arith::sat_add;
use crate::memory::pmm::{entry_end, memory_map_sound};
use crate::sys::memory::memory_map::MemoryMapEntry;
use crate::sys::memory::pmm::{
    aligned_to, block_bytes, blocks_aligned, carve, carve_order, carve_region, init_lists,
    lemma_align_down_4k, lemma_allocate_keeps_aligned, lemma_block_bytes, lemma_buddy_of_aligned,
    lemma_carve_order, lemma_lowest_nonempty, lemma_merged_aligned, lemma_upper_half_aligned,
    lemma_xor_size, lowest_nonempty, merge_lists, push_blocks, region_end, region_start,
    remove_top, split_lists, Order, PhysMemoryManager, MAX_ORDER,
};
use vstd::arithmetic::power2::lemma_pow2_strictly_increases;
use vstd::prelude::*;

verus! {

/// The block of order `k` at `a` holds the byte at `x`.
pub open spec fn in_block(a: u64, k: nat, x: int) -> bool {
    a <= x < a + block_bytes(k)
}

/// Some block of the stack `s` of order `k` holds the byte at `x`.
pub open spec fn stack_covers(s: Seq<u64>, k: nat, x: int) -> bool {
    exists|i: int| 0 <= i < s.len() && #[trigger] in_block(s[i], k, x)
}

/// Some free block holds the byte at `x`.
pub open spec fn free_covers(lists: Seq<Seq<u64>>, x: int) -> bool {
    exists|k: int| 0 <= k < lists.len() && #[trigger] stack_covers(lists[k], k as nat, x)
}

/// The bytes that the free blocks cover.
pub open spec fn free_set(lists: Seq<Seq<u64>>) -> Set<int> {
    Set::new(|x: int| free_covers(lists, x))
}

/// The bytes of the block of order `k` at `a`.
pub open spec fn block_set(a: u64, k: nat) -> Set<int> {
    Set::new(|x: int| in_block(a, k, x))
}

proof fn lemma_stack_push(s: Seq<u64>, a: u64, k: nat, x: int)
    ensures
        stack_covers(s.push(a), k, x) == (stack_covers(s, k, x) || in_block(a, k, x)),
{
    let t = s.push(a);
    if stack_covers(s, k, x) {
        let i = choose|i: int| 0 <= i < s.len() && #[trigger] in_block(s[i], k, x);
        assert(t[i] == s[i]);
    }
    if in_block(a, k, x) {
        assert(t[s.len() as int] == a);
    }
    if stack_covers(t, k, x) {
        let i = choose|i: int| 0 <= i < t.len() && #[trigger] in_block(t[i], k, x);
        if i < s.len() {
            assert(t[i] == s[i]);
        }
    }
}

proof fn lemma_stack_pop(s: Seq<u64>, k: nat, x: int)
    requires
        s.len() > 0,
    ensures
        stack_covers(s, k, x) == (stack_covers(s.drop_last(), k, x) || in_block(s.last(), k, x)),
{
    assert(s.drop_last().push(s.last()) =~= s);
    lemma_stack_push(s.drop_last(), s.last(), k, x);
}

/// Taking one occurrence of `b` off a stack that holds it loses exactly the bytes of `b`'s
/// block, up to the other blocks.
proof fn lemma_stack_remove_top(s: Seq<u64>, b: u64, k: nat, x: int)
    requires
        s.contains(b),
    ensures
        stack_covers(s, k, x) == (stack_covers(remove_top(s, b), k, x) || in_block(b, k, x)),
    decreases s.len(),
{
    lemma_stack_pop(s, k, x);
    if s.last() != b {
        let i = choose|i: int| 0 <= i < s.len() && s[i] == b;
        assert(s.drop_last()[i] == b);
        lemma_stack_remove_top(s.drop_last(), b, k, x);
        lemma_stack_push(remove_top(s.drop_last(), b), s.last(), k, x);
    }
}

/// Replacing one stack changes the cover only through that stack.
proof fn lemma_covers_update(lists: Seq<Seq<u64>>, o: int, t: Seq<u64>, x: int)
    requires
        0 <= o < lists.len(),
    ensures
        free_covers(lists.update(o, t), x) == (stack_covers(t, o as nat, x) || exists|k: int|
            0 <= k < lists.len() && k != o && #[trigger] stack_covers(lists[k], k as nat, x)),
        free_covers(lists, x) == (stack_covers(lists[o], o as nat, x) || exists|k: int|
            0 <= k < lists.len() && k != o && #[trigger] stack_covers(lists[k], k as nat, x)),
{
    let u = lists.update(o, t);
    if free_covers(u, x) {
        let k = choose|k: int| 0 <= k < u.len() && #[trigger] stack_covers(u[k], k as nat, x);
        if k != o {
            assert(u[k] == lists[k]);
        }
    }
    if exists|k: int| 0 <= k < lists.len() && k != o && #[trigger] stack_covers(lists[k], k as nat, x) {
        let k = choose|k: int| 0 <= k < lists.len() && k != o && #[trigger] stack_covers(lists[k], k as nat, x);
        assert(u[k] == lists[k]);
    }
    if stack_covers(t, o as nat, x) {
        assert(u[o] == t);
    }
}

/// Freeing the block of order `order` at `addr`, aligned to its order, adds exactly its bytes
/// to the free memory, however far it merges.
proof fn lemma_merge_covers(lists: Seq<Seq<u64>>, addr: u64, order: nat, x: int)
    requires
        lists.len() == MAX_ORDER,
        order < MAX_ORDER,
        aligned_to(addr, order),
    ensures
        merge_lists(lists, addr, order).len() == MAX_ORDER,
        free_covers(merge_lists(lists, addr, order), x) == (free_covers(lists, x) || in_block(
            addr,
            order,
            x,
        )),
    decreases MAX_ORDER - order,
{
    let size = block_bytes(order) as u64;
    let buddy = addr ^ size;
    let o = order as int;
    let s = lists[o];
    if order + 1 < MAX_ORDER && s.contains(buddy) {
        let removed = lists.update(o, remove_top(s, buddy));
        let low = if buddy < addr {
            buddy
        } else {
            addr
        };
        lemma_merged_aligned(addr, order);
        lemma_buddy_of_aligned(low, order);
        lemma_block_bytes(order);
        lemma_block_bytes(order + 1);
        // The merged block is the union of the block and its buddy.
        assert(in_block(low, order + 1, x) == (in_block(addr, order, x) || in_block(
            buddy,
            order,
            x,
        ))) by {
            lemma_xor_size(addr, order);
        }
        lemma_stack_remove_top(s, buddy, order, x);
        lemma_covers_update(lists, o, remove_top(s, buddy), x);
        lemma_merge_covers(removed, low, order + 1, x);
    } else {
        lemma_stack_push(s, addr, order, x);
        lemma_covers_update(lists, o, s.push(addr), x);
    }
}

/// Carving the block of order `j` at `addr` out of the top block `addr` of stack `from` leaves
/// free exactly the bytes of the top block outside the carved one.
proof fn lemma_split_covers(lists: Seq<Seq<u64>>, addr: u64, from: nat, j: nat, x: int)
    requires
        lists.len() == MAX_ORDER,
        j <= from < MAX_ORDER,
        aligned_to(addr, from),
        lists[from as int].len() > 0,
        lists[from as int].last() == addr,
    ensures
        (free_covers(split_lists(lists, addr, from, j), x) || in_block(addr, j, x)) == free_covers(
            lists,
            x,
        ),
    decreases from - j,
{
    if j == from {
        let split = split_lists(lists, addr, from, j);
        assert(split =~= lists.update(from as int, lists[from as int].drop_last()));
        lemma_stack_pop(lists[from as int], from, x);
        lemma_covers_update(lists, from as int, lists[from as int].drop_last(), x);
    } else {
        lemma_split_covers(lists, addr, from, j + 1, x);
        lemma_upper_half_aligned(addr, from, j);
        lemma_block_bytes(j);
        lemma_block_bytes(j + 1);
        let upper = (addr + block_bytes(j)) as u64;
        let coarse = split_lists(lists, addr, from, j + 1);
        let fine = split_lists(lists, addr, from, j);
        assert(coarse[j as int] == lists[j as int]);
        assert(fine =~= coarse.update(j as int, coarse[j as int].push(upper)));
        lemma_stack_push(coarse[j as int], upper, j, x);
        lemma_covers_update(coarse, j as int, coarse[j as int].push(upper), x);
        assert(in_block(addr, j + 1, x) == (in_block(addr, j, x) || in_block(upper, j, x)));
    }
}

/// Law: freeing a block right after allocating it gives back exactly the free memory there was
/// before, as a set of bytes, when every free block is aligned to its order (as `init`
/// leaves them); the free blocks may come out merged differently.
pub proof fn lemma_deallocate_undoes_allocate_bytes(lists: Seq<Seq<u64>>, order: nat)
    requires
        lists.len() == MAX_ORDER,
        order < MAX_ORDER,
        blocks_aligned(lists),
        lowest_nonempty(lists, order) < MAX_ORDER,
    ensures
        ({
            let from = lowest_nonempty(lists, order);
            let addr = lists[from as int].last();
            free_set(merge_lists(split_lists(lists, addr, from, order), addr, order)) == free_set(
                lists,
            )
        }),
{
    let from = lowest_nonempty(lists, order);
    lemma_lowest_nonempty(lists, order);
    let addr = lists[from as int].last();
    lemma_allocate_keeps_aligned(lists, order);
    let split = split_lists(lists, addr, from, order);
    assert(aligned_to(addr, from));
    assert forall|x: int| #[trigger] free_set(merge_lists(split, addr, order)).contains(x)
        == free_set(lists).contains(x) by {
        lemma_merge_covers(split, addr, order, x);
        lemma_split_covers(lists, addr, from, order, x);
    }
    assert(free_set(merge_lists(split, addr, order)) =~= free_set(lists));
}

/// Law: freeing a block aligned to its order adds exactly its bytes to the free memory.
pub proof fn lemma_free_adds_block(lists: Seq<Seq<u64>>, addr: u64, order: nat)
    requires
        lists.len() == MAX_ORDER,
        order < MAX_ORDER,
        aligned_to(addr, order),
    ensures
        free_set(merge_lists(lists, addr, order)) == free_set(lists).union(block_set(addr, order)),
{
    assert forall|x: int| #[trigger] free_set(merge_lists(lists, addr, order)).contains(x)
        == free_set(lists).union(block_set(addr, order)).contains(x) by {
        lemma_merge_covers(lists, addr, order, x);
    }
    assert(free_set(merge_lists(lists, addr, order)) =~= free_set(lists).union(
        block_set(addr, order),
    ));
}

/// Law: an allocation takes the block it hands out from the free memory and leaves the rest of
/// what was free: the free bytes after it, together with the block's, are those before it.
pub proof fn lemma_allocate_takes_block(lists: Seq<Seq<u64>>, order: nat)
    requires
        lists.len() == MAX_ORDER,
        order < MAX_ORDER,
        blocks_aligned(lists),
        lowest_nonempty(lists, order) < MAX_ORDER,
    ensures
        ({
            let from = lowest_nonempty(lists, order);
            let addr = lists[from as int].last();
            free_set(split_lists(lists, addr, from, order)).union(block_set(addr, order))
                == free_set(lists)
        }),
{
    let from = lowest_nonempty(lists, order);
    lemma_lowest_nonempty(lists, order);
    let addr = lists[from as int].last();
    let split = split_lists(lists, addr, from, order);
    assert(aligned_to(addr, from));
    assert forall|x: int| #[trigger] free_set(split).union(block_set(addr, order)).contains(x)
        == free_set(lists).contains(x) by {
        lemma_split_covers(lists, addr, from, order, x);
    }
    assert(free_set(split).union(block_set(addr, order)) =~= free_set(lists));
}

/// The blocks of order `k1` at `a1` and of order `k2` at `a2` share a byte.
pub open spec fn blocks_overlap(a1: u64, k1: nat, a2: u64, k2: nat) -> bool {
    a1 < a2 + block_bytes(k2) && a2 < a1 + block_bytes(k1)
}

/// No two free blocks share a byte.
pub open spec fn blocks_disjoint(lists: Seq<Seq<u64>>) -> bool {
    forall|k1: int, i1: int, k2: int, i2: int|
        0 <= k1 < lists.len() && 0 <= i1 < lists[k1].len() && 0 <= k2 < lists.len() && 0 <= i2
            < lists[k2].len() && (k1 != k2 || i1 != i2) ==> !blocks_overlap(
            #[trigger] lists[k1][i1],
            k1 as nat,
            #[trigger] lists[k2][i2],
            k2 as nat,
        )
}

/// No free block holds a byte of the block of order `k` at `a`.
pub open spec fn block_not_free(lists: Seq<Seq<u64>>, a: u64, k: nat) -> bool {
    forall|x: int| #[trigger] in_block(a, k, x) ==> !free_covers(lists, x)
}

/// `remove_top` takes out one occurrence, at some index.
proof fn lemma_remove_top_index(s: Seq<u64>, b: u64) -> (i: int)
    requires
        s.contains(b),
    ensures
        0 <= i < s.len(),
        s[i] == b,
        remove_top(s, b) == s.remove(i),
    decreases s.len(),
{
    if s.last() == b {
        assert(s.drop_last() =~= s.remove(s.len() - 1));
        s.len() - 1
    } else {
        let j = choose|j: int| 0 <= j < s.len() && s[j] == b;
        assert(s.drop_last()[j] == b);
        let i = lemma_remove_top_index(s.drop_last(), b);
        assert(s.drop_last().remove(i).push(s.last()) =~= s.remove(i));
        i
    }
}

/// Two overlapping blocks share their later start.
proof fn lemma_overlap_byte(a1: u64, k1: nat, a2: u64, k2: nat)
    requires
        k1 < MAX_ORDER,
        k2 < MAX_ORDER,
        blocks_overlap(a1, k1, a2, k2),
    ensures
        in_block(a1, k1, if a1 < a2 { a2 as int } else { a1 as int }),
        in_block(a2, k2, if a1 < a2 { a2 as int } else { a1 as int }),
{
    lemma_block_bytes(k1);
    lemma_block_bytes(k2);
}

/// Pushing a block none of whose bytes is free keeps the free blocks disjoint, and it adds
/// exactly its bytes to the free memory.
proof fn lemma_push_keeps_disjoint(lists: Seq<Seq<u64>>, addr: u64, order: nat)
    requires
        lists.len() == MAX_ORDER,
        order < MAX_ORDER,
        blocks_disjoint(lists),
        block_not_free(lists, addr, order),
    ensures
        blocks_disjoint(lists.update(order as int, lists[order as int].push(addr))),
        forall|x: int|
            #[trigger] free_covers(lists.update(order as int, lists[order as int].push(addr)), x)
                == (free_covers(lists, x) || in_block(addr, order, x)),
{
    let o = order as int;
    let s = lists[o];
    let after = lists.update(o, s.push(addr));
    assert forall|k1: int, i1: int, k2: int, i2: int|
        0 <= k1 < after.len() && 0 <= i1 < after[k1].len() && 0 <= k2 < after.len() && 0 <= i2
            < after[k2].len() && (k1 != k2 || i1 != i2) implies !blocks_overlap(
        #[trigger] after[k1][i1],
        k1 as nat,
        #[trigger] after[k2][i2],
        k2 as nat,
    ) by {
        let n = s.len() as int;
        let new1 = k1 == o && i1 == n;
        let new2 = k2 == o && i2 == n;
        if !new1 {
            assert(after[k1][i1] == lists[k1][i1]);
        }
        if !new2 {
            assert(after[k2][i2] == lists[k2][i2]);
        }
        if new1 && !new2 && blocks_overlap(after[k1][i1], k1 as nat, after[k2][i2], k2 as nat) {
            lemma_overlap_byte(addr, order, lists[k2][i2], k2 as nat);
            let x = if addr < lists[k2][i2] { lists[k2][i2] as int } else { addr as int };
            assert(stack_covers(lists[k2], k2 as nat, x));
            assert(free_covers(lists, x));
        }
        if new2 && !new1 && blocks_overlap(after[k1][i1], k1 as nat, after[k2][i2], k2 as nat) {
            lemma_overlap_byte(lists[k1][i1], k1 as nat, addr, order);
            let x = if lists[k1][i1] < addr { addr as int } else { lists[k1][i1] as int };
            assert(stack_covers(lists[k1], k1 as nat, x));
            assert(free_covers(lists, x));
        }
    }
    assert forall|x: int|
        #[trigger] free_covers(after, x) == (free_covers(lists, x) || in_block(addr, order, x)) by {
        lemma_stack_push(s, addr, order, x);
        lemma_covers_update(lists, o, s.push(addr), x);
    }
}

/// Law: freeing a block aligned to its order, none of whose bytes is free, keeps the free
/// blocks disjoint, however far it merges.
pub proof fn lemma_free_keeps_disjoint(lists: Seq<Seq<u64>>, addr: u64, order: nat)
    requires
        lists.len() == MAX_ORDER,
        order < MAX_ORDER,
        aligned_to(addr, order),
        blocks_disjoint(lists),
        block_not_free(lists, addr, order),
    ensures
        blocks_disjoint(merge_lists(lists, addr, order)),
    decreases MAX_ORDER - order,
{
    let size = block_bytes(order) as u64;
    let buddy = addr ^ size;
    let o = order as int;
    let s = lists[o];
    lemma_block_bytes(order);
    if order + 1 < MAX_ORDER && s.contains(buddy) {
        let ib = lemma_remove_top_index(s, buddy);
        let t = s.remove(ib);
        let removed = lists.update(o, t);
        // Each entry of `removed` is an entry of `lists` other than the buddy's.
        assert forall|k: int, i: int| 0 <= k < removed.len() && 0 <= i < removed[k].len() implies (
        #[trigger] removed[k][i]) == lists[k][if k == o && i >= ib {
            i + 1
        } else {
            i
        }] by {}
        assert forall|k1: int, i1: int, k2: int, i2: int|
            0 <= k1 < removed.len() && 0 <= i1 < removed[k1].len() && 0 <= k2 < removed.len() && 0
                <= i2 < removed[k2].len() && (k1 != k2 || i1 != i2) implies !blocks_overlap(
            #[trigger] removed[k1][i1],
            k1 as nat,
            #[trigger] removed[k2][i2],
            k2 as nat,
        ) by {
            let j1 = if k1 == o && i1 >= ib {
                i1 + 1
            } else {
                i1
            };
            let j2 = if k2 == o && i2 >= ib {
                i2 + 1
            } else {
                i2
            };
            assert(removed[k1][i1] == lists[k1][j1]);
            assert(removed[k2][i2] == lists[k2][j2]);
        }
        let low = if buddy < addr {
            buddy
        } else {
            addr
        };
        lemma_merged_aligned(addr, order);
        lemma_buddy_of_aligned(low, order);
        lemma_block_bytes(order + 1);
        lemma_xor_size(addr, order);
        assert forall|x: int| #[trigger] in_block(low, order + 1, x) implies !free_covers(
            removed,
            x,
        ) by {
            assert(in_block(addr, order, x) || in_block(buddy, order, x));
            if free_covers(removed, x) {
                let k = choose|k: int| 0 <= k < removed.len() && #[trigger] stack_covers(
                    removed[k],
                    k as nat,
                    x,
                );
                let i = choose|i: int| 0 <= i < removed[k].len() && #[trigger] in_block(
                    removed[k][i],
                    k as nat,
                    x,
                );
                let j = if k == o && i >= ib {
                    i + 1
                } else {
                    i
                };
                assert(removed[k][i] == lists[k][j]);
                assert(in_block(lists[k][j], k as nat, x));
                if in_block(addr, order, x) {
                    assert(stack_covers(lists[k], k as nat, x));
                    assert(free_covers(lists, x));
                } else {
                    assert(lists[o][ib] == buddy);
                    assert(blocks_overlap(lists[k][j], k as nat, lists[o][ib], order));
                }
            }
        }
        lemma_free_keeps_disjoint(removed, low, order + 1);
    } else {
        assert(merge_lists(lists, addr, order) == lists.update(o, s.push(addr)));
        lemma_push_keeps_disjoint(lists, addr, order);
    }
}

/// Law, on a manager: allocating a block of `order` and freeing the block handed out leaves
/// exactly the free bytes there were.
pub proof fn lemma_manager_free_undoes_allocate(pmm: PhysMemoryManager, order: Order)
    requires
        pmm.wf(),
        lowest_nonempty(pmm.free_lists(), order.number()) < MAX_ORDER,
    ensures
        ({
            let lists = pmm.free_lists();
            let o = order.number();
            let from = lowest_nonempty(lists, o);
            let addr = lists[from as int].last();
            free_set(merge_lists(split_lists(lists, addr, from, o), addr, o)) == free_set(lists)
        }),
{
    pmm.lemma_wf_stacks();
    lemma_deallocate_undoes_allocate_bytes(pmm.free_lists(), order.number());
}

/// Block sizes grow with the order.
proof fn lemma_block_bytes_grow(j: nat, k: nat)
    requires
        j <= k < MAX_ORDER,
    ensures
        block_bytes(j) <= block_bytes(k),
{
    if j < k {
        lemma_pow2_strictly_increases(j, k);
    }
}

/// Law: an allocation keeps the free blocks disjoint, and the block it hands out is no longer
/// free.
pub proof fn lemma_allocate_keeps_disjoint(lists: Seq<Seq<u64>>, order: nat)
    requires
        lists.len() == MAX_ORDER,
        order < MAX_ORDER,
        blocks_aligned(lists),
        blocks_disjoint(lists),
        lowest_nonempty(lists, order) < MAX_ORDER,
    ensures
        ({
            let from = lowest_nonempty(lists, order);
            let addr = lists[from as int].last();
            &&& blocks_disjoint(split_lists(lists, addr, from, order))
            &&& block_not_free(split_lists(lists, addr, from, order), addr, order)
        }),
{
    let from = lowest_nonempty(lists, order);
    lemma_lowest_nonempty(lists, order);
    let t = lists[from as int].len() - 1;
    let addr = lists[from as int][t];
    assert(aligned_to(addr, from));
    lemma_block_bytes(from);
    let split = split_lists(lists, addr, from, order);
    // An entry of the split stacks: the upper half of a split, or an entry of `lists` other
    // than the top block of `from`.
    assert forall|k: int, i: int| 0 <= k < split.len() && 0 <= i < split[k].len() implies {
        if order <= k < from {
            &&& i == 0
            &&& addr + block_bytes(k as nat) <= u64::MAX
            &&& (#[trigger] split[k][i]) == addr + block_bytes(k as nat)
        } else {
            &&& split[k][i] == lists[k][i]
            &&& (k != from || i < t)
        }
    } by {
        if order <= k < from {
            lemma_upper_half_aligned(addr, from, k as nat);
            assert(lists[k].len() == 0);
        }
    }
    assert forall|k1: int, i1: int, k2: int, i2: int|
        0 <= k1 < split.len() && 0 <= i1 < split[k1].len() && 0 <= k2 < split.len() && 0 <= i2
            < split[k2].len() && (k1 != k2 || i1 != i2) implies !blocks_overlap(
        #[trigger] split[k1][i1],
        k1 as nat,
        #[trigger] split[k2][i2],
        k2 as nat,
    ) by {
        let up1 = order <= k1 < from;
        let up2 = order <= k2 < from;
        if up1 && up2 {
            lemma_block_bytes(k1 as nat);
            lemma_block_bytes(k2 as nat);
            if k1 < k2 {
                lemma_block_bytes((k1 + 1) as nat);
                lemma_block_bytes_grow((k1 + 1) as nat, k2 as nat);
            } else {
                lemma_block_bytes((k2 + 1) as nat);
                lemma_block_bytes_grow((k2 + 1) as nat, k1 as nat);
            }
        } else if up1 {
            lemma_block_bytes((k1 + 1) as nat);
            lemma_block_bytes_grow((k1 + 1) as nat, from);
            assert(!blocks_overlap(lists[from as int][t], from, lists[k2][i2], k2 as nat));
        } else if up2 {
            lemma_block_bytes((k2 + 1) as nat);
            lemma_block_bytes_grow((k2 + 1) as nat, from);
            assert(!blocks_overlap(lists[k1][i1], k1 as nat, lists[from as int][t], from));
        }
    }
    assert forall|x: int| #[trigger] in_block(addr, order, x) implies !free_covers(split, x) by {
        lemma_block_bytes_grow(order, from);
        if free_covers(split, x) {
            let k = choose|k: int| 0 <= k < split.len() && #[trigger] stack_covers(
                split[k],
                k as nat,
                x,
            );
            let i = choose|i: int| 0 <= i < split[k].len() && #[trigger] in_block(
                split[k][i],
                k as nat,
                x,
            );
            if order <= k < from {
                lemma_block_bytes_grow(order, k as nat);
            } else {
                lemma_overlap_byte(lists[k][i], k as nat, addr, from);
                assert(blocks_overlap(lists[k][i], k as nat, lists[from as int][t], from));
            }
        }
    }
}

/// The blocks carved out of `[cur, end)` lie inside it, one after the other.
proof fn lemma_carve_layout(cur: nat, end: nat)
    requires
        cur % 4096 == 0,
        end % 4096 == 0,
    ensures
        forall|i: int|
            0 <= i < carve(cur, end).len() ==> cur <= (#[trigger] carve(cur, end)[i]).0
                && carve(cur, end)[i].0 + block_bytes(carve(cur, end)[i].1) <= end && carve(
                cur,
                end,
            )[i].1 < MAX_ORDER,
        forall|i: int, j: int|
            0 <= i < j < carve(cur, end).len() ==> (#[trigger] carve(cur, end)[i]).0 + block_bytes(
                carve(cur, end)[i].1,
            ) <= (#[trigger] carve(cur, end)[j]).0,
    decreases (if cur < end {
        end - cur
    } else {
        0
    }),
{
    if cur < end {
        let top = (MAX_ORDER - 1) as nat;
        lemma_carve_order(cur, end, top);
        let k = carve_order(cur, end, top);
        lemma_block_bytes(k);
        let next = cur + block_bytes(k);
        assert(next % 4096 == 0) by {
            vstd::arithmetic::div_mod::lemma_mod_adds(cur as int, block_bytes(k) as int, 4096);
        }
        lemma_carve_layout(next, end);
        let rest = carve(next, end);
        let pieces = carve(cur, end);
        assert(pieces == seq![(cur, k)] + rest);
        assert forall|i: int| 0 <= i < pieces.len() implies cur <= (#[trigger] pieces[i]).0
            && pieces[i].0 + block_bytes(pieces[i].1) <= end && pieces[i].1 < MAX_ORDER by {
            if i > 0 {
                assert(pieces[i] == rest[i - 1]);
            }
        }
        assert forall|i: int, j: int| 0 <= i < j < pieces.len() implies (#[trigger] pieces[i]).0
            + block_bytes(pieces[i].1) <= (#[trigger] pieces[j]).0 by {
            assert(pieces[j] == rest[j - 1]);
            if i > 0 {
                assert(pieces[i] == rest[i - 1]);
            }
        }
    }
}

/// Pushing blocks that follow one another and hold no free byte keeps the free blocks
/// disjoint; afterwards a free byte was free before or lies in one of the blocks.
proof fn lemma_push_blocks_disjoint(lists: Seq<Seq<u64>>, blocks: Seq<(nat, nat)>)
    requires
        lists.len() == MAX_ORDER,
        blocks_disjoint(lists),
        forall|i: int|
            0 <= i < blocks.len() ==> (#[trigger] blocks[i]).1 < MAX_ORDER && blocks[i].0
                <= u64::MAX,
        forall|i: int, j: int|
            0 <= i < j < blocks.len() ==> (#[trigger] blocks[i]).0 + block_bytes(blocks[i].1)
                <= (#[trigger] blocks[j]).0,
        forall|i: int, x: int|
            0 <= i < blocks.len() && #[trigger] in_block(blocks[i].0 as u64, blocks[i].1, x)
                ==> !free_covers(lists, x),
    ensures
        push_blocks(lists, blocks).len() == MAX_ORDER,
        blocks_disjoint(push_blocks(lists, blocks)),
        forall|x: int|
            #[trigger] free_covers(push_blocks(lists, blocks), x) ==> free_covers(lists, x) || exists|
                i: int,
            |
                0 <= i < blocks.len() && #[trigger] in_block(blocks[i].0 as u64, blocks[i].1, x),
    decreases blocks.len(),
{
    if blocks.len() > 0 {
        let b = blocks[0];
        let a = b.0 as u64;
        assert forall|x: int| #[trigger] in_block(a, b.1, x) implies !free_covers(lists, x) by {
            assert(in_block(blocks[0].0 as u64, blocks[0].1, x));
        }
        lemma_push_keeps_disjoint(lists, a, b.1);
        let next = lists.update(b.1 as int, lists[b.1 as int].push(a));
        let rest = blocks.drop_first();
        assert forall|i: int| 0 <= i < rest.len() implies (#[trigger] rest[i]).1 < MAX_ORDER
            && rest[i].0 <= u64::MAX by {
            assert(rest[i] == blocks[i + 1]);
        }
        assert forall|i: int, j: int| 0 <= i < j < rest.len() implies (#[trigger] rest[i]).0
            + block_bytes(rest[i].1) <= (#[trigger] rest[j]).0 by {
            assert(rest[i] == blocks[i + 1]);
            assert(rest[j] == blocks[j + 1]);
        }
        assert forall|i: int, x: int|
            0 <= i < rest.len() && #[trigger] in_block(rest[i].0 as u64, rest[i].1, x) implies !free_covers(
            next,
            x,
        ) by {
            assert(rest[i] == blocks[i + 1]);
            assert(in_block(blocks[i + 1].0 as u64, blocks[i + 1].1, x));
            assert(blocks[0].0 + block_bytes(blocks[0].1) <= blocks[i + 1].0);
            assert(!in_block(a, b.1, x));
        }
        lemma_push_blocks_disjoint(next, rest);
        assert(push_blocks(lists, blocks) == push_blocks(next, rest));
        assert forall|x: int| #[trigger] free_covers(push_blocks(lists, blocks), x) implies free_covers(
            lists,
            x,
        ) || exists|i: int|
            0 <= i < blocks.len() && #[trigger] in_block(blocks[i].0 as u64, blocks[i].1, x) by {
            if !free_covers(lists, x) {
                if free_covers(next, x) {
                    assert(in_block(blocks[0].0 as u64, blocks[0].1, x));
                } else {
                    let i = choose|i: int|
                        0 <= i < rest.len() && #[trigger] in_block(rest[i].0 as u64, rest[i].1, x);
                    assert(rest[i] == blocks[i + 1]);
                    assert(in_block(blocks[i + 1].0 as u64, blocks[i + 1].1, x));
                }
            }
        }
    }
}

/// No free byte lies in a usable entry of the memory map.
pub open spec fn usable_not_free(lists: Seq<Seq<u64>>, map: Seq<MemoryMapEntry>) -> bool {
    forall|i: int, x: int|
        0 <= i < map.len() && (#[trigger] map[i]).is_usable() && map[i].base <= x < entry_end(map[i])
            ==> !#[trigger] free_covers(lists, x)
}

/// Law: carving a sound memory map (its usable entries page aligned and disjoint) into free
/// blocks keeps the free blocks disjoint, when no byte of its usable entries was free before.
pub proof fn lemma_init_keeps_disjoint(lists: Seq<Seq<u64>>, map: Seq<MemoryMapEntry>)
    requires
        lists.len() == MAX_ORDER,
        blocks_disjoint(lists),
        memory_map_sound(map),
        usable_not_free(lists, map),
    ensures
        blocks_disjoint(init_lists(lists, map)),
    decreases map.len(),
{
    if map.len() > 0 {
        let e = map[0];
        let blocks = carve_region(e);
        if e.is_usable() {
            let lo = sat_add(e.base as int, 4095);
            let hi = sat_add(e.base as int, e.length as int);
            lemma_align_down_4k(lo);
            lemma_align_down_4k(hi);
            assert(region_start(e) >= e.base);
            assert(region_end(e) <= entry_end(e));
            lemma_carve_layout(region_start(e), region_end(e));
        } else {
            assert(blocks =~= Seq::<(nat, nat)>::empty());
        }
        assert forall|i: int| 0 <= i < blocks.len() implies (#[trigger] blocks[i]).1 < MAX_ORDER
            && blocks[i].0 <= u64::MAX && e.base <= blocks[i].0 && blocks[i].0 + block_bytes(
            blocks[i].1,
        ) <= entry_end(e) by {}
        assert forall|i: int, x: int|
            0 <= i < blocks.len() && #[trigger] in_block(blocks[i].0 as u64, blocks[i].1, x) implies !free_covers(
            lists,
            x,
        ) by {
            assert(map[0].is_usable() && map[0].base <= x < entry_end(map[0]));
        }
        lemma_push_blocks_disjoint(lists, blocks);
        let next = push_blocks(lists, blocks);
        let rest = map.drop_first();
        assert forall|i: int| 0 <= i < rest.len() implies entry_end(#[trigger] rest[i]) <= u64::MAX
            && (rest[i].is_usable() ==> rest[i].base % 4096 == 0 && rest[i].length % 4096 == 0) by {
            assert(rest[i] == map[i + 1]);
        }
        assert forall|i: int, j: int|
            0 <= i < rest.len() && 0 <= j < rest.len() && i != j && (#[trigger] rest[i]).is_usable()
                && (#[trigger] rest[j]).is_usable() implies entry_end(rest[i]) <= rest[j].base
            || entry_end(rest[j]) <= rest[i].base by {
            assert(rest[i] == map[i + 1]);
            assert(rest[j] == map[j + 1]);
        }
        assert forall|i: int, x: int|
            0 <= i < rest.len() && (#[trigger] rest[i]).is_usable() && rest[i].base <= x
                < entry_end(rest[i]) implies !#[trigger] free_covers(next, x) by {
            assert(rest[i] == map[i + 1]);
            if free_covers(next, x) {
                if !free_covers(lists, x) {
                    let b = choose|b: int|
                        0 <= b < blocks.len() && #[trigger] in_block(blocks[b].0 as u64, blocks[b].1, x);
                    assert(e.base <= blocks[b].0 && blocks[b].0 + block_bytes(blocks[b].1)
                        <= entry_end(e));
                    assert(map[0].is_usable());
                    assert(entry_end(map[0]) <= map[i + 1].base || entry_end(map[i + 1])
                        <= map[0].base);
                }
            }
        }
        lemma_init_keeps_disjoint(next, rest);
    }
}

} // verus!
