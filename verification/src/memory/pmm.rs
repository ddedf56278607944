//! The Bitmap Physical Memory Manager (BPMM) is an allocator that tracks every 4KiB frame of
//! physical memory with one bit: set when the frame is used, clear when it is free.

use crate::sys::memory::memory_map::MemoryMapEntry;
use vstd::prelude::*;

verus! {

/// Frame size handled by the bitmap allocator.
pub const FRAME_SIZE: u64 = 4096;

/// Largest physical address a frame may start at, plus one (52 address bits on x86_64).
pub const PHYS_ADDR_LIMIT: u64 = 0x10_0000_0000_0000;

/// Bit `b` of `w` is set.
pub open spec fn bit_set(w: u64, b: nat) -> bool {
    (w >> (b as u64)) & 1 == 1
}

/// The used-flags of the frames tracked by a bitmap: frame `f` is bit `f % 64` of word `f / 64`.
pub open spec fn frames_of(words: Seq<u64>) -> Seq<bool> {
    Seq::new(words.len() * 64, |f: int| bit_set(words[f / 64], (f % 64) as nat))
}

/// Number of free (false) entries.
pub open spec fn count_free(s: Seq<bool>) -> nat
    decreases s.len(),
{
    if s.len() == 0 {
        0
    } else {
        count_free(s.drop_last()) + if s.last() {
            0nat
        } else {
            1nat
        }
    }
}

/// The lowest free frame at or after `start`, if any.
pub open spec fn lowest_free_from(frames: Seq<bool>, start: int) -> Option<int>
    decreases frames.len() - start,
{
    if start >= frames.len() {
        None
    } else if start >= 0 && !frames[start] {
        Some(start)
    } else {
        lowest_free_from(frames, if start < 0 { 0 } else { start + 1 })
    }
}

/// Marking a free entry used takes one off the count; freeing a used entry adds one.
proof fn lemma_count_free_update(s: Seq<bool>, i: int, v: bool)
    requires
        0 <= i < s.len(),
    ensures
        count_free(s.update(i, v)) + (if s[i] { 0nat } else { 1nat }) == count_free(s) + (if v {
            0nat
        } else {
            1nat
        }),
        count_free(s) <= s.len(),
    decreases s.len(),
{
    let t = s.update(i, v);
    if i == s.len() - 1 {
        assert(t.drop_last() =~= s.drop_last());
    } else {
        assert(t.drop_last() =~= s.drop_last().update(i, v));
        lemma_count_free_update(s.drop_last(), i, v);
    }
    lemma_count_free_le(s);
}

proof fn lemma_count_free_le(s: Seq<bool>)
    ensures
        count_free(s) <= s.len(),
    decreases s.len(),
{
    if s.len() > 0 {
        lemma_count_free_le(s.drop_last());
    }
}

/// Setting or clearing bit `b` of a word changes that bit only.
proof fn lemma_word_bit_update(w: u64, b: u64)
    requires
        b < 64,
    ensures
        forall|j: u64|
            j < 64 ==> #[trigger] bit_set(w | (1u64 << b), j as nat) == (j == b || bit_set(
                w,
                j as nat,
            )),
        forall|j: u64|
            j < 64 ==> #[trigger] bit_set(w & !(1u64 << b), j as nat) == (j != b && bit_set(
                w,
                j as nat,
            )),
        bit_set(w, b as nat) == (w & (1u64 << b) != 0),
{
    assert forall|j: u64| j < 64 implies #[trigger] bit_set(w | (1u64 << b), j as nat) == (j == b
        || bit_set(w, j as nat)) by {
        assert(((w | (1u64 << b)) >> j) & 1 == 1 <==> (j == b || (w >> j) & 1 == 1)) by (bit_vector)
            requires
                b < 64,
                j < 64,
        ;
    }
    assert forall|j: u64| j < 64 implies #[trigger] bit_set(w & !(1u64 << b), j as nat) == (j != b
        && bit_set(w, j as nat)) by {
        assert(((w & !(1u64 << b)) >> j) & 1 == 1 <==> (j != b && (w >> j) & 1 == 1)) by (
        bit_vector)
            requires
                b < 64,
                j < 64,
        ;
    }
    assert((w >> b) & 1 == 1 <==> w & (1u64 << b) != 0) by (bit_vector)
        requires
            b < 64,
    ;
}

/// Replacing word `i` by one that differs from it at bit `b` only changes frame `64 * i + b`.
proof fn lemma_frames_update(words: Seq<u64>, i: int, w: u64, b: u64, v: bool)
    requires
        0 <= i < words.len(),
        b < 64,
        bit_set(w, b as nat) == v,
        forall|j: u64| j < 64 && j != b ==> #[trigger] bit_set(w, j as nat) == bit_set(
            words[i],
            j as nat,
        ),
    ensures
        frames_of(words.update(i, w)) == frames_of(words).update(i * 64 + b, v),
{
    let f0 = i * 64 + b;
    assert(f0 / 64 == i && f0 % 64 == b) by (nonlinear_arith)
        requires
            f0 == i * 64 + b,
            0 <= b < 64,
    ;
    let lhs = frames_of(words.update(i, w));
    let rhs = frames_of(words).update(f0, v);
    assert forall|f: int| 0 <= f < lhs.len() implies lhs[f] == rhs[f] by {
        assert(0 <= f % 64 < 64) by (nonlinear_arith)
            requires
                f >= 0,
        ;
        if f / 64 == i {
            if f != f0 {
                assert(f % 64 != b) by (nonlinear_arith)
                    requires
                        f / 64 == i,
                        f != i * 64 + b,
                        f >= 0,
                ;
                let j = (f % 64) as u64;
                assert(bit_set(w, j as nat) == bit_set(words[i], j as nat));
            }
        }
    }
    assert(lhs =~= rhs);
}

/// A full word has all 64 frames used; otherwise its trailing ones give its first free frame.
proof fn lemma_word_first_free(w: u64)
    ensures
        w == u64::MAX ==> forall|j: u64| j < 64 ==> #[trigger] bit_set(w, j as nat),
        w != u64::MAX ==> {
            &&& w.trailing_ones() < 64
            &&& !bit_set(w, w.trailing_ones() as nat)
            &&& forall|j: u64| j < w.trailing_ones() ==> #[trigger] bit_set(w, j as nat)
        },
{
    vstd::std_specs::bits::axiom_u64_trailing_ones(w);
    assert forall|j: u64| w == u64::MAX && j < 64 implies #[trigger] bit_set(w, j as nat) by {
        assert(w == 0xffff_ffff_ffff_ffffu64 && j < 64 ==> (w >> j) & 1 == 1) by (bit_vector);
    }
}

/// Bitmap-based Physical Memory Manager.
pub struct BitmapPMM {
    /// One bit per 4KiB frame: set when the frame is used.
    bitmap: Vec<u64>,
    /// The word where the next search starts.
    next_free: usize,
    /// Number of free frames.
    free_frames: usize,
    /// Number of frames below the highest physical address of the memory map.
    total_frames: usize,
}

impl BitmapPMM {
    /// Used-flag of every frame tracked by the bitmap.
    pub closed spec fn frames(&self) -> Seq<bool> {
        frames_of(self.bitmap@)
    }

    pub closed spec fn next_free_word(&self) -> nat {
        self.next_free as nat
    }

    pub closed spec fn free_count(&self) -> nat {
        self.free_frames as nat
    }

    pub closed spec fn total_count(&self) -> nat {
        self.total_frames as nat
    }

    /// Well-formedness: the free counter counts the clear bits, and every tracked frame starts
    /// below the physical address limit.
    pub closed spec fn wf(&self) -> bool {
        &&& self.free_frames as nat == count_free(frames_of(self.bitmap@))
        &&& self.bitmap@.len() * 64 * 4096 <= PHYS_ADDR_LIMIT
        &&& self.bitmap@.len() * 64 <= usize::MAX
    }

    /// Returns the number of free frames.
    pub fn free_frames(&self) -> (r: usize)
        ensures
            r == self.free_count(),
    {
        self.free_frames
    }

    /// Returns the number of frames below the highest address of the memory map.
    pub fn total_frames(&self) -> (r: usize)
        ensures
            r == self.total_count(),
    {
        self.total_frames
    }

    /// Searches bitmap word `index` for a free frame. When there is one, the lowest is marked
    /// used, the search start moves to `index`, and the frame's physical address is returned.
    fn find_free_frame_address(&mut self, index: usize) -> (r: Option<u64>)
        requires
            old(self).wf(),
            index < old(self).frames().len() / 64,
        ensures
            final(self).wf(),
            final(self).free_count() == count_free(final(self).frames()),
            final(self).total_count() == old(self).total_count(),
            final(self).frames().len() == old(self).frames().len(),
            match r {
                Some(addr) => {
                    let f = lowest_free_from(old(self).frames(), index * 64);
                    &&& f is Some
                    &&& f->0 < (index + 1) * 64
                    &&& addr == f->0 * 4096
                    &&& final(self).frames() == old(self).frames().update(f->0, true)
                    &&& final(self).free_count() == old(self).free_count() - 1
                    &&& final(self).next_free_word() == index
                },
                None => {
                    &&& forall|j: int|
                        index * 64 <= j < (index + 1) * 64 ==> #[trigger] old(self).frames()[j]
                    &&& *final(self) == *old(self)
                },
            },
    {
        let word = self.bitmap[index];
        proof {
            lemma_word_first_free(word);
        }
        if word != u64::MAX {
            // Get the index of the first 0-bit in the number.
            let bit_u32 = word.trailing_ones();
            let bit = bit_u32 as u64;
            let ghost f = index * 64 + bit;
            proof {
                lemma_word_bit_update(word, bit);
                lemma_frames_update(self.bitmap@, index as int, word | (1u64 << bit), bit, true);
                lemma_lowest_free_at(self.frames(), index * 64, f);
                lemma_count_free_update(self.frames(), f, true);
            }
            let ghost nwords = self.bitmap@.len();
            assert(nwords * 64 <= 0x100_0000_0000);
            assert(index * 64 + bit < nwords * 64) by (nonlinear_arith)
                requires
                    index < nwords,
                    bit < 64,
            ;
            let frame_number: u64 = (index as u64) * 64 + bit;
            assert(frame_number * 4096 < PHYS_ADDR_LIMIT) by (nonlinear_arith)
                requires
                    frame_number < nwords * 64,
                    nwords * 64 * 4096 <= PHYS_ADDR_LIMIT,
            ;
            let address: u64 = frame_number * 4096;
            self.bitmap[index] = word | (1u64 << bit);
            self.next_free = index;
            self.free_frames = self.free_frames - 1;
            return Some(address);
        }
        proof {
            assert forall|j: int| index * 64 <= j < (index + 1) * 64 implies #[trigger] old(
                self,
            ).frames()[j] by {
                assert(j / 64 == index && 0 <= j % 64 < 64) by (nonlinear_arith)
                    requires
                        index * 64 <= j < (index + 1) * 64,
                ;
                let b = (j % 64) as u64;
                assert(bit_set(word, b as nat));
            }
        }
        None
    }
}

/// When every frame in `[start, t)` is used and frame `t` is free, `t` is the lowest free frame
/// at or after `start`.
proof fn lemma_lowest_free_at(frames: Seq<bool>, start: int, t: int)
    requires
        0 <= start <= t < frames.len(),
        !frames[t],
        forall|j: int| start <= j < t ==> #[trigger] frames[j],
    ensures
        lowest_free_from(frames, start) == Some(t),
    decreases t - start,
{
    if start < t {
        lemma_lowest_free_at(frames, start + 1, t);
    }
}

/// When every frame in `[start, end)` is used, the lowest free frame at or after `start` is the
/// lowest at or after `end`.
proof fn lemma_lowest_free_skip(frames: Seq<bool>, start: int, end: int)
    requires
        0 <= start <= end,
        forall|j: int| start <= j < end && j < frames.len() ==> #[trigger] frames[j],
    ensures
        lowest_free_from(frames, start) == lowest_free_from(frames, end),
    decreases end - start,
{
    if start < end && start < frames.len() {
        lemma_lowest_free_skip(frames, start + 1, end);
    } else if start < end {
        lemma_lowest_free_none(frames, start);
        lemma_lowest_free_none(frames, end);
    }
}

proof fn lemma_lowest_free_none(frames: Seq<bool>, start: int)
    requires
        start >= frames.len(),
    ensures
        lowest_free_from(frames, start) == None::<int>,
{
}

/// The lowest free frame found from a start is free, at or after the start, and every frame
/// between is used; when there is none, every frame from the start on is used.
proof fn lemma_lowest_free_facts(frames: Seq<bool>, start: int)
    requires
        start >= 0,
    ensures
        match lowest_free_from(frames, start) {
            Some(f) => start <= f < frames.len() && !frames[f] && forall|j: int|
                start <= j < f ==> #[trigger] frames[j],
            None => forall|j: int| start <= j < frames.len() ==> #[trigger] frames[j],
        },
    decreases frames.len() - start,
{
    if start < frames.len() && frames[start] {
        lemma_lowest_free_facts(frames, start + 1);
    }
}


/// The frame an allocation hands out: the lowest free frame at or after the first frame of
/// word `next_word`, or else the lowest free frame of all.
pub open spec fn allocation_frame(frames: Seq<bool>, next_word: nat) -> Option<int> {
    match lowest_free_from(frames, (next_word * 64) as int) {
        Some(f) => Some(f),
        None => lowest_free_from(frames, 0),
    }
}

impl BitmapPMM {
    /// Allocates a frame: the lowest free frame at or after the word of the last allocation (or
    /// of a lower freed frame), else the lowest free frame of all. Returns its physical address,
    /// or `None` if no memory is left.
    pub fn allocate_frame(&mut self) -> (r: Option<u64>)
        requires
            old(self).wf(),
        ensures
            final(self).wf(),
            final(self).free_count() == count_free(final(self).frames()),
            final(self).total_count() == old(self).total_count(),
            match allocation_frame(old(self).frames(), old(self).next_free_word()) {
                Some(f) => {
                    &&& r == Some((f * 4096) as u64)
                    &&& final(self).frames() == old(self).frames().update(f, true)
                    &&& final(self).free_count() == old(self).free_count() - 1
                    &&& final(self).next_free_word() == f / 64
                },
                None => {
                    &&& r is None
                    &&& *final(self) == *old(self)
                },
            },
    {
        let ghost frames = self.frames();
        let ghost start = self.next_free * 64;
        let len = self.bitmap.len();
        // Fast-Path Search from the last known free index.
        let mut i = self.next_free;
        while i < len
            invariant
                *self == *old(self),
                old(self).wf(),
                frames == self.frames(),
                start == old(self).next_free_word() * 64,
                len == self.bitmap@.len(),
                frames.len() == len * 64,
                old(self).next_free <= i,
                forall|j: int| start <= j < i * 64 && j < frames.len() ==> #[trigger] frames[j],
            decreases len - i,
        {
            if let Some(frame_address) = self.find_free_frame_address(i) {
                proof {
                    lemma_lowest_free_skip(frames, start, i * 64);
                    lemma_lowest_free_facts(frames, i * 64);
                    let f = lowest_free_from(frames, i * 64)->0;
                    assert(f / 64 == i) by (nonlinear_arith)
                        requires
                            i * 64 <= f < (i + 1) * 64,
                    ;
                }
                return Some(frame_address);
            }
            i = i + 1;
        }
        proof {
            if start <= frames.len() {
                lemma_lowest_free_skip(frames, start, frames.len() as int);
                lemma_lowest_free_none(frames, frames.len() as int);
            } else {
                lemma_lowest_free_none(frames, start);
            }
        }
        // Slow-Path Search from the beginning.
        let mut i: usize = 0;
        while i < len
            invariant
                *self == *old(self),
                old(self).wf(),
                frames == self.frames(),
                len == self.bitmap@.len(),
                frames.len() == len * 64,
                lowest_free_from(frames, start) is None,
                start == old(self).next_free_word() * 64,
                forall|j: int| 0 <= j < i * 64 ==> #[trigger] frames[j],
            decreases len - i,
        {
            if let Some(frame_address) = self.find_free_frame_address(i) {
                proof {
                    lemma_lowest_free_skip(frames, 0, i * 64);
                    lemma_lowest_free_facts(frames, i * 64);
                    let f = lowest_free_from(frames, i * 64)->0;
                    assert(f / 64 == i) by (nonlinear_arith)
                        requires
                            i * 64 <= f < (i + 1) * 64,
                    ;
                }
                return Some(frame_address);
            }
            i = i + 1;
        }
        proof {
            lemma_lowest_free_skip(frames, 0, frames.len() as int);
            lemma_lowest_free_none(frames, frames.len() as int);
        }
        // Out-of-Memory!
        None
    }

    /// Frees the frame that starts at `frame` (a physical address) if it was used, moving the
    /// search start back to its word when that word is lower.
    pub fn deallocate_frame(&mut self, frame: u64)
        requires
            old(self).wf(),
            frame / 4096 < old(self).frames().len(),
        ensures
            final(self).wf(),
            final(self).free_count() == count_free(final(self).frames()),
            final(self).total_count() == old(self).total_count(),
            ({
                let f = (frame / 4096) as int;
                if old(self).frames()[f] {
                    &&& final(self).frames() == old(self).frames().update(f, false)
                    &&& final(self).free_count() == old(self).free_count() + 1
                    &&& final(self).next_free_word() == if f / 64 < old(self).next_free_word() {
                        (f / 64) as nat
                    } else {
                        old(self).next_free_word()
                    }
                } else {
                    *final(self) == *old(self)
                }
            }),
    {
        let frame_number = frame / 4096;
        let ghost f = frame_number as int;
        assert(f / 64 < self.bitmap@.len() && 0 <= f % 64 < 64) by (nonlinear_arith)
            requires
                0 <= f < self.bitmap@.len() * 64,
        ;
        let index = (frame_number / 64) as usize;
        let bit = frame_number % 64;
        let word = self.bitmap[index];
        proof {
            lemma_word_bit_update(word, bit);
            assert(f == index * 64 + bit) by (nonlinear_arith)
                requires
                    index == f / 64,
                    bit == f % 64,
                    f >= 0,
            ;
            assert(self.frames()[f] == bit_set(word, bit as nat));
        }
        // Only free if it was actually used.
        if word & (1u64 << bit) != 0 {
            proof {
                lemma_frames_update(self.bitmap@, index as int, word & !(1u64 << bit), bit, false);
                lemma_count_free_update(self.frames(), f, false);
            }
            self.bitmap[index] = word & !(1u64 << bit);
            self.free_frames = self.free_frames + 1;
            // Move the next_free pointer back so we reuse this memory quickly.
            if index < self.next_free {
                self.next_free = index;
            }
        }
    }
}

/// Law: freeing the frame an allocation handed out restores the used-flags and the free count.
pub proof fn lemma_deallocate_undoes_allocate_frame(frames: Seq<bool>, f: int)
    requires
        0 <= f < frames.len(),
        !frames[f],
    ensures
        frames.update(f, true).update(f, false) == frames,
        count_free(frames.update(f, true)) + 1 == count_free(frames),
{
    lemma_count_free_update(frames, f, true);
    assert(frames.update(f, true).update(f, false) =~= frames);
}


/// End address of a memory map entry.
pub open spec fn entry_end(e: MemoryMapEntry) -> int {
    e.base + e.length
}

/// The highest end address of the entries of the map (0 for an empty map).
pub open spec fn highest_address(map: Seq<MemoryMapEntry>) -> int
    decreases map.len(),
{
    if map.len() == 0 {
        0
    } else {
        let rest = highest_address(map.drop_last());
        let end = entry_end(map.last());
        if end > rest {
            end
        } else {
            rest
        }
    }
}

/// Number of 64-bit words of a bitmap with one bit per frame below `total_frames`.
pub open spec fn bitmap_words(total_frames: int) -> int {
    (total_frames + 63) / 64
}

/// Index of the first usable entry, at or after `i`, that is at least `bytes` long;
/// `map.len()` when there is none.
pub open spec fn bitmap_home(map: Seq<MemoryMapEntry>, bytes: int, i: int) -> int
    decreases map.len() - i,
{
    if i >= map.len() {
        map.len() as int
    } else if i >= 0 && map[i].is_usable() && map[i].length >= bytes {
        i
    } else {
        bitmap_home(map, bytes, if i < 0 { 0 } else { i + 1 })
    }
}

/// Frame `f` lies inside the usable entry `e`.
pub open spec fn entry_covers(e: MemoryMapEntry, f: int) -> bool {
    e.is_usable() && e.base / 4096 <= f < entry_end(e) / 4096
}

/// Frame `f` lies inside some usable entry of the map.
pub open spec fn in_usable_entry(map: Seq<MemoryMapEntry>, f: int) -> bool {
    exists|i: int| 0 <= i < map.len() && #[trigger] entry_covers(map[i], f)
}

/// What the bootloader promises of its memory map: no entry wraps around the address space,
/// usable entries are 4KiB aligned, and usable entries do not overlap.
pub open spec fn memory_map_sound(map: Seq<MemoryMapEntry>) -> bool {
    &&& forall|i: int| 0 <= i < map.len() ==> entry_end(#[trigger] map[i]) <= u64::MAX
    &&& forall|i: int|
        0 <= i < map.len() && (#[trigger] map[i]).is_usable() ==> map[i].base % 4096 == 0
            && map[i].length % 4096 == 0
    &&& forall|i: int, j: int|
        0 <= i < map.len() && 0 <= j < map.len() && i != j && (#[trigger] map[i]).is_usable()
            && (#[trigger] map[j]).is_usable() ==> entry_end(map[i]) <= map[j].base || entry_end(
            map[j],
        ) <= map[i].base
}

/// The frames that hold the bitmap itself: from the first frame of its home entry, as many
/// frames as the bitmap's bytes need.
pub open spec fn bitmap_frames(map: Seq<MemoryMapEntry>) -> (int, int) {
    let total = highest_address(map) / 4096;
    let bytes = bitmap_words(total) * 8;
    let home = bitmap_home(map, bytes, 0);
    let start = map[home].base as int / 4096;
    (start, start + (bytes + 4095) / 4096)
}

proof fn lemma_highest_address(map: Seq<MemoryMapEntry>)
    ensures
        highest_address(map) >= 0,
        forall|i: int| 0 <= i < map.len() ==> entry_end(#[trigger] map[i]) <= highest_address(map),
    decreases map.len(),
{
    if map.len() > 0 {
        lemma_highest_address(map.drop_last());
        assert forall|i: int| 0 <= i < map.len() implies entry_end(#[trigger] map[i])
            <= highest_address(map) by {
            if i < map.len() - 1 {
                assert(map[i] == map.drop_last()[i]);
            }
        }
    }
}

proof fn lemma_bitmap_home(map: Seq<MemoryMapEntry>, bytes: int, i: int)
    requires
        0 <= i,
    ensures
        i <= bitmap_home(map, bytes, i) <= map.len() || map.len() < i,
        bitmap_home(map, bytes, i) < map.len() ==> map[bitmap_home(map, bytes, i)].is_usable()
            && map[bitmap_home(map, bytes, i)].length >= bytes,
        forall|j: int|
            i <= j < bitmap_home(map, bytes, i) && j < map.len() ==> !((#[trigger] map[j]).is_usable()
                && map[j].length >= bytes),
    decreases map.len() - i,
{
    if i < map.len() && !(map[i].is_usable() && map[i].length >= bytes) {
        lemma_bitmap_home(map, bytes, i + 1);
    }
}

/// Two usable entries of a sound map share no frame.
proof fn lemma_usable_frames_disjoint(map: Seq<MemoryMapEntry>, i: int, j: int, f: int)
    requires
        memory_map_sound(map),
        0 <= i < map.len(),
        0 <= j < map.len(),
        i != j,
    ensures
        !(entry_covers(map[i], f) && entry_covers(map[j], f)),
{
    if entry_covers(map[i], f) && entry_covers(map[j], f) {
        lemma_frames_overlap_bytes(map, i, j, f);
    }
}

proof fn lemma_frames_overlap_bytes(map: Seq<MemoryMapEntry>, i: int, j: int, f: int)
    requires
        memory_map_sound(map),
        0 <= i < map.len(),
        0 <= j < map.len(),
        i != j,
        entry_covers(map[i], f),
        entry_covers(map[j], f),
    ensures
        map[i].base <= f * 4096 < entry_end(map[i]),
        map[j].base <= f * 4096 < entry_end(map[j]),
{
    let (bi, ei) = (map[i].base as int, entry_end(map[i]));
    let (bj, ej) = (map[j].base as int, entry_end(map[j]));
    assert(bi % 4096 == 0 && ei % 4096 == 0 && bj % 4096 == 0 && ej % 4096 == 0);
    assert(bi <= f * 4096 < ei) by (nonlinear_arith)
        requires
            bi % 4096 == 0,
            ei % 4096 == 0,
            bi / 4096 <= f < ei / 4096,
            bi >= 0,
    ;
    assert(bj <= f * 4096 < ej) by (nonlinear_arith)
        requires
            bj % 4096 == 0,
            ej % 4096 == 0,
            bj / 4096 <= f < ej / 4096,
            bj >= 0,
    ;
}

/// All frames of an all-ones bitmap are used.
proof fn lemma_full_bitmap(words: Seq<u64>)
    requires
        forall|i: int| 0 <= i < words.len() ==> words[i] == u64::MAX,
    ensures
        forall|f: int| 0 <= f < frames_of(words).len() ==> #[trigger] frames_of(words)[f],
{
    assert forall|f: int| 0 <= f < frames_of(words).len() implies #[trigger] frames_of(words)[f] by {
        assert(0 <= f / 64 < words.len() && 0 <= f % 64 < 64) by (nonlinear_arith)
            requires
                0 <= f < words.len() * 64,
        ;
        lemma_word_first_free(words[f / 64]);
        let b = (f % 64) as u64;
        assert(bit_set(words[f / 64], b as nat));
    }
}

impl BitmapPMM {
    /// Explores the memory map to find usable regions and build the bitmap: every frame starts
    /// used; the frames of usable entries are freed; then the frames that would hold the bitmap
    /// (at the start of the first usable entry long enough for it) and the zeroth frame are
    /// marked used again. The free counter then counts the clear bits.
    ///
    /// That usable entries are 4KiB aligned and do not overlap (`memory_map_sound`) is what the
    /// bootloader promises of the memory map it hands over; it is not checked here.
    pub fn new(memory_map: &[MemoryMapEntry], hhdm_offset: u64) -> (r: Self)
        requires
            memory_map_sound(memory_map@),
            highest_address(memory_map@) >= 4096,
            bitmap_words(highest_address(memory_map@) / 4096) * 64 * 4096 <= PHYS_ADDR_LIMIT,
            highest_address(memory_map@) / 4096 + 63 <= usize::MAX,
            bitmap_home(memory_map@, bitmap_words(highest_address(memory_map@) / 4096) * 8, 0)
                < memory_map@.len(),
            memory_map@[bitmap_home(
                memory_map@,
                bitmap_words(highest_address(memory_map@) / 4096) * 8,
                0,
            )].base + hhdm_offset <= u64::MAX,
        ensures
            r.wf(),
            r.free_count() == count_free(r.frames()),
            r.total_count() == highest_address(memory_map@) / 4096,
            r.frames().len() == bitmap_words(highest_address(memory_map@) / 4096) * 64,
            r.next_free_word() == 0,
            forall|f: int|
                0 <= f < r.frames().len() ==> #[trigger] r.frames()[f] == !(in_usable_entry(
                    memory_map@,
                    f,
                ) && !(bitmap_frames(memory_map@).0 <= f < bitmap_frames(memory_map@).1) && f != 0),
    {
        let ghost map = memory_map@;
        proof {
            lemma_highest_address(map);
        }
        // Find the highest physical memory address to size the bitmap.
        let mut highest: u64 = 0;
        let mut i: usize = 0;
        while i < memory_map.len()
            invariant
                map == memory_map@,
                memory_map_sound(map),
                i <= map.len(),
                highest == highest_address(map.take(i as int)),
            decreases map.len() - i,
        {
            assert(map.take(i + 1).drop_last() =~= map.take(i as int));
            let region = memory_map[i];
            assert(entry_end(map[i as int]) <= u64::MAX);
            let end = region.base + region.length;
            if end > highest {
                highest = end;
            }
            i = i + 1;
        }
        assert(map.take(map.len() as int) =~= map);
        let ghost highest_spec = highest_address(map);
        // One bit per frame, rounded up to whole 64-bit words.
        let total_frames = (highest / 4096) as usize;
        let bitmap_entries = (total_frames + 63) / 64;
        let bitmap_size_bytes = bitmap_entries * 8;
        let ghost home = bitmap_home(map, bitmap_size_bytes as int, 0);
        proof {
            lemma_bitmap_home(map, bitmap_size_bytes as int, 0);
        }
        // Find the first usable memory region large enough to hold the bitmap.
        let mut bitmap_ptr: u64 = 0;
        let mut j: usize = 0;
        while j < memory_map.len()
            invariant
                map == memory_map@,
                j <= home < map.len(),
                bitmap_home(map, bitmap_size_bytes as int, j as int) == home,
                map[home].is_usable() && map[home].length >= bitmap_size_bytes,
                map[home].base + hhdm_offset <= u64::MAX,
            ensures
                j == home,
            decreases map.len() - j,
        {
            let region = memory_map[j];
            proof {
                lemma_bitmap_home(map, bitmap_size_bytes as int, j as int);
            }
            if region.entry_type == crate::sys::memory::memory_map::MEMMAP_USABLE && region.length
                >= bitmap_size_bytes as u64 {
                break;
            }
            j = j + 1;
        }
        bitmap_ptr = memory_map[j].base + hhdm_offset;
        // Every frame starts as used (1).
        let mut bitmap: Vec<u64> = vec![u64::MAX; bitmap_entries];
        let ghost nframes = bitmap_entries * 64;
        proof {
            lemma_full_bitmap(bitmap@);
            lemma_count_all_used(frames_of(bitmap@));
            assert(total_frames <= nframes);
        }
        // Mark the frames of all usable entries as free (0).
        let mut free_frames: usize = 0;
        let mut i: usize = 0;
        while i < memory_map.len()
            invariant
                map == memory_map@,
                memory_map_sound(map),
                highest_spec == highest_address(map),
                forall|k: int| 0 <= k < map.len() ==> entry_end(#[trigger] map[k]) <= highest_spec,
                total_frames == highest_spec / 4096,
                i <= map.len(),
                bitmap@.len() == bitmap_entries,
                nframes == bitmap_entries * 64,
                total_frames <= nframes,
                nframes <= usize::MAX,
                free_frames == count_free(frames_of(bitmap@)),
                forall|f: int|
                    0 <= f < nframes ==> #[trigger] frames_of(bitmap@)[f] == !in_usable_entry(
                        map.take(i as int),
                        f,
                    ),
            decreases map.len() - i,
        {
            let region = memory_map[i];
            proof {
                assert(entry_end(map[i as int]) <= highest_spec);
                lemma_take_covers(map, i as int);
            }
            if region.entry_type == crate::sys::memory::memory_map::MEMMAP_USABLE {
                let start_frame = (region.base / 4096) as usize;
                let end_frame = ((region.base + region.length) / 4096) as usize;
                let mut frame = start_frame;
                while frame < end_frame
                    invariant
                        map == memory_map@,
                        memory_map_sound(map),
                        i < map.len(),
                        region == map[i as int],
                        region.is_usable(),
                        start_frame == region.base / 4096,
                        end_frame == entry_end(region) / 4096,
                        end_frame <= total_frames <= nframes,
                        nframes == bitmap_entries * 64,
                        nframes <= usize::MAX,
                        bitmap@.len() == bitmap_entries,
                        free_frames == count_free(frames_of(bitmap@)),
                        frame == start_frame || start_frame <= frame <= end_frame,
                        forall|f: int|
                            0 <= f < nframes ==> #[trigger] frames_of(bitmap@)[f] == !(
                            in_usable_entry(map.take(i as int), f) || (start_frame <= f < frame)),
                    decreases end_frame - frame,
                {
                    let idx = frame / 64;
                    let bit = (frame % 64) as u64;
                    let word = bitmap[idx];
                    proof {
                        assert(frame as int == idx * 64 + bit && idx < bitmap_entries) by (
                        nonlinear_arith)
                            requires
                                idx == frame / 64,
                                bit == frame % 64,
                                frame < nframes,
                                nframes == bitmap_entries * 64,
                        ;
                        assert(entry_covers(map[i as int], frame as int));
                        if in_usable_entry(map.take(i as int), frame as int) {
                            let k = choose|k: int|
                                0 <= k < map.take(i as int).len() && #[trigger] entry_covers(
                                    map.take(i as int)[k],
                                    frame as int,
                                );
                            assert(map.take(i as int)[k] == map[k]);
                            lemma_usable_frames_disjoint(map, k, i as int, frame as int);
                        }
                        assert(frames_of(bitmap@)[frame as int]);
                        lemma_word_bit_update(word, bit);
                        lemma_frames_update(bitmap@, idx as int, word & !(1u64 << bit), bit, false);
                        lemma_count_free_update(frames_of(bitmap@), frame as int, false);
                    }
                    bitmap[idx] = word & !(1u64 << bit);
                    free_frames = free_frames + 1;
                    frame = frame + 1;
                }
                assert forall|f: int| 0 <= f < nframes implies #[trigger] frames_of(bitmap@)[f]
                    == !in_usable_entry(map.take(i + 1), f) by {
                    assert(entry_covers(map[i as int], f) == (start_frame <= f < frame));
                }
            } else {
                assert forall|f: int| 0 <= f < nframes implies #[trigger] frames_of(bitmap@)[f]
                    == !in_usable_entry(map.take(i + 1), f) by {
                    assert(!entry_covers(map[i as int], f));
                }
            }
            i = i + 1;
        }
        assert(map.take(map.len() as int) =~= map);
        // Reserve the memory used by the bitmap itself, so that its frames are never handed out.
        let bitmap_start_frame = ((bitmap_ptr - hhdm_offset) / 4096) as usize;
        let bitmap_end_frame = bitmap_start_frame + (bitmap_size_bytes + 4095) / 4096;
        proof {
            assert(bitmap_start_frame == map[home].base / 4096);
            assert(entry_end(map[home]) <= highest_spec);
            let b = map[home].base as int;
            let len = map[home].length as int;
            assert(bitmap_end_frame <= total_frames) by (nonlinear_arith)
                requires
                    b % 4096 == 0,
                    len % 4096 == 0,
                    len >= bitmap_size_bytes,
                    b + len <= highest_spec,
                    bitmap_start_frame == b / 4096,
                    bitmap_end_frame == bitmap_start_frame + (bitmap_size_bytes + 4095) / 4096,
                    total_frames == highest_spec / 4096,
                    b >= 0,
                    bitmap_size_bytes >= 0,
            ;
        }
        let mut frame = bitmap_start_frame;
        while frame < bitmap_end_frame
            invariant
                map == memory_map@,
                bitmap_end_frame <= total_frames <= nframes,
                frame == bitmap_start_frame || bitmap_start_frame <= frame <= bitmap_end_frame,
                nframes == bitmap_entries * 64,
                nframes <= usize::MAX,
                bitmap@.len() == bitmap_entries,
                free_frames == count_free(frames_of(bitmap@)),
                forall|f: int|
                    0 <= f < nframes ==> #[trigger] frames_of(bitmap@)[f] == !(in_usable_entry(map, f)
                        && !(bitmap_start_frame <= f < frame)),
            decreases bitmap_end_frame - frame,
        {
            let idx = frame / 64;
            let bit = (frame % 64) as u64;
            let word = bitmap[idx];
            proof {
                assert(frame as int == idx * 64 + bit && idx < bitmap_entries) by (nonlinear_arith)
                    requires
                        idx == frame / 64,
                        bit == frame % 64,
                        frame < nframes,
                        nframes == bitmap_entries * 64,
                ;
                lemma_word_bit_update(word, bit);
            }
            if word & (1u64 << bit) == 0 {
                proof {
                    lemma_frames_update(bitmap@, idx as int, word | (1u64 << bit), bit, true);
                    lemma_count_free_update(frames_of(bitmap@), frame as int, true);
                }
                bitmap[idx] = word | (1u64 << bit);
                free_frames = free_frames - 1;
            }
            frame = frame + 1;
        }
        let ghost reserved = frames_of(bitmap@);
        assert forall|f: int| 0 <= f < nframes implies #[trigger] reserved[f] == !(in_usable_entry(
            map,
            f,
        ) && !(bitmap_start_frame <= f < bitmap_end_frame)) by {
            assert((bitmap_start_frame <= f < frame) == (bitmap_start_frame <= f < bitmap_end_frame));
        }
        // Reserve the zeroth frame: a frame at address 0 invites null-pointer bugs.
        let word = bitmap[0];
        proof {
            lemma_word_bit_update(word, 0);
            assert(0 < nframes);
        }
        if word & 1u64 == 0 {
            proof {
                assert(1u64 << 0u64 == 1u64) by (bit_vector);
                lemma_frames_update(bitmap@, 0, word | (1u64 << 0u64), 0, true);
                lemma_count_free_update(frames_of(bitmap@), 0, true);
                assert(word | 1u64 == word | (1u64 << 0u64));
            }
            bitmap[0] = word | 1;
            free_frames = free_frames - 1;
            assert(frames_of(bitmap@) == reserved.update(0, true));
        } else {
            proof {
                assert(1u64 << 0u64 == 1u64) by (bit_vector);
                assert(bit_set(word, 0));
            }
            assert(reserved[0]);
            assert(frames_of(bitmap@) =~= reserved.update(0, true));
        }
        let r = BitmapPMM { bitmap, next_free: 0, free_frames, total_frames };
        proof {
            assert(bitmap_frames(map) == (bitmap_start_frame as int, bitmap_end_frame as int));
            assert forall|f: int| 0 <= f < r.frames().len() implies #[trigger] r.frames()[f] == !(
            in_usable_entry(map, f) && !(bitmap_frames(map).0 <= f < bitmap_frames(map).1) && f
                != 0) by {
                if f == 0 {
                    assert(r.frames()[0]);
                } else {
                    assert(r.frames()[f] == reserved[f]);
                }
            }
        }
        r
    }
}


/// A sequence of used entries has no free entry.
proof fn lemma_count_all_used(s: Seq<bool>)
    requires
        forall|f: int| 0 <= f < s.len() ==> #[trigger] s[f],
    ensures
        count_free(s) == 0,
    decreases s.len(),
{
    if s.len() > 0 {
        lemma_count_all_used(s.drop_last());
    }
}

/// A frame lies in a usable entry among the first `i + 1` exactly when it does among the first
/// `i` or in entry `i`.
proof fn lemma_take_covers(map: Seq<MemoryMapEntry>, i: int)
    requires
        0 <= i < map.len(),
    ensures
        forall|f: int|
            #[trigger] in_usable_entry(map.take(i + 1), f) == (in_usable_entry(map.take(i), f)
                || entry_covers(map[i], f)),
{
    assert forall|f: int| #[trigger] in_usable_entry(map.take(i + 1), f) == (in_usable_entry(
        map.take(i),
        f,
    ) || entry_covers(map[i], f)) by {
        if in_usable_entry(map.take(i + 1), f) {
            let k = choose|k: int|
                0 <= k < map.take(i + 1).len() && #[trigger] entry_covers(map.take(i + 1)[k], f);
            if k < i {
                assert(map.take(i)[k] == map.take(i + 1)[k]);
            }
        }
        if in_usable_entry(map.take(i), f) {
            let k = choose|k: int| 0 <= k < map.take(i).len() && #[trigger] entry_covers(map.take(i)[k], f);
            assert(map.take(i)[k] == map.take(i + 1)[k]);
        }
        if entry_covers(map[i], f) {
            assert(map.take(i + 1)[i] == map[i]);
        }
    }
}

/// A handle on the bitmap allocator, for the page table code.
pub struct GlobalBitmapPMM;

impl GlobalBitmapPMM {
    /// Allocates a frame from `pmm`, as `BitmapPMM::allocate_frame` does.
    pub fn allocate_frame(&mut self, pmm: &mut BitmapPMM) -> (r: Option<u64>)
        requires
            old(pmm).wf(),
        ensures
            final(pmm).wf(),
            final(pmm).free_count() == count_free(final(pmm).frames()),
            final(pmm).total_count() == old(pmm).total_count(),
            match allocation_frame(old(pmm).frames(), old(pmm).next_free_word()) {
                Some(f) => {
                    &&& r == Some((f * 4096) as u64)
                    &&& final(pmm).frames() == old(pmm).frames().update(f, true)
                    &&& final(pmm).free_count() == old(pmm).free_count() - 1
                },
                None => {
                    &&& r is None
                    &&& *final(pmm) == *old(pmm)
                },
            },
    {
        pmm.allocate_frame()
    }

    /// Frees the frame at `frame` in `pmm`, as `BitmapPMM::deallocate_frame` does.
    pub fn deallocate_frame(&mut self, pmm: &mut BitmapPMM, frame: u64)
        requires
            old(pmm).wf(),
            frame / 4096 < old(pmm).frames().len(),
        ensures
            final(pmm).wf(),
            final(pmm).free_count() == count_free(final(pmm).frames()),
            final(pmm).total_count() == old(pmm).total_count(),
            final(pmm).frames() == old(pmm).frames().update((frame / 4096) as int, false),
    {
        pmm.deallocate_frame(frame);
        proof {
            let f = (frame / 4096) as int;
            if !old(pmm).frames()[f] {
                assert(old(pmm).frames().update(f, false) =~= old(pmm).frames());
            }
        }
    }
}

} // verus!
