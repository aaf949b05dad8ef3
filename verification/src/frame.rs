//! Physical frame allocation: a bitmap ledger of 4 KiB frame ownership.
//!
//! One bit per frame; a set bit means the frame is reserved or handed out.
//! Initialisation sizes the bitmap from the memory map, starts all-reserved,
//! frees every frame lying fully inside a usable region, then re-marks the
//! region backing the bitmap itself — in that order, so the allocator can never hand out its own
//! metadata. Allocation is a circular first-fit scan starting just after the
//! last allocated index, wrapping once.

use vstd::prelude::*;

use crate::error::KernelError;
use crate::mapping::PAGE_SIZE;

verus! {

/// Largest physical address the allocator supports (just under 16 TiB, the
/// direct-mapping window): keeps every frame index and bitmap index inside a
/// `usize` on every platform, and every address sum inside a `u64`.
pub const MAX_PHYSICAL_MEMORY: u64 = 0x0000_0fff_ffff_8000;

/// One region of the bootloader's memory map, reduced to what the allocator
/// reads: its physical bounds and whether it is free for general use.
#[derive(Clone, Copy, Debug, PartialEq, Eq, Structural)]
pub struct MemoryRegion {
    pub start: u64,
    pub end: u64,
    pub usable: bool,
}

/// Whether bit `k` of `byte` is set.
pub open spec fn bit_set(byte: u8, k: u8) -> bool {
    byte & (1u8 << k) != 0
}

proof fn lemma_set_bit(byte: u8, k: u8, updated: u8)
    requires
        k < 8,
        updated == byte | (1u8 << k),
    ensures
        forall|j: u8| j < 8 ==> #[trigger] bit_set(updated, j) == (j == k || bit_set(byte, j)),
{
    assert(forall|j: u8|
        j < 8 && k < 8 && updated == byte | (1u8 << k) ==> (updated & (1u8 << j) != 0) == (j == k
            || byte & (1u8 << j) != 0)) by (bit_vector);
}

proof fn lemma_clear_bit(byte: u8, k: u8, updated: u8)
    requires
        k < 8,
        updated == byte & !(1u8 << k),
    ensures
        forall|j: u8| j < 8 ==> #[trigger] bit_set(updated, j) == (j != k && bit_set(byte, j)),
{
    assert(forall|j: u8|
        j < 8 && k < 8 && updated == byte & !(1u8 << k) ==> (updated & (1u8 << j) != 0) == (j != k
            && byte & (1u8 << j) != 0)) by (bit_vector);
}

proof fn lemma_full_byte()
    ensures
        forall|j: u8| j < 8 ==> bit_set(255u8, j),
{
    assert(forall|j: u8| j < 8 ==> 255u8 & (1u8 << j) != 0) by (bit_vector);
}

/// Whether the bitmap records frame `i` as allocated (reserved).
pub open spec fn frame_bit(bitmap: Seq<u8>, i: int) -> bool {
    bit_set(bitmap[i / 8], (i % 8) as u8)
}

/// Two frame indices agree exactly when their byte and bit positions agree.
proof fn lemma_frame_position(i: int, k: int)
    requires
        0 <= i,
        0 <= k,
    ensures
        (i / 8 == k / 8 && i % 8 == k % 8) <==> i == k,
{
    vstd::arithmetic::div_mod::lemma_fundamental_div_mod(i, 8);
    vstd::arithmetic::div_mod::lemma_fundamental_div_mod(k, 8);
}

/// How many frames with index below `n` the bitmap records as free.
pub open spec fn count_free(bitmap: Seq<u8>, n: nat) -> nat
    decreases n,
{
    if n == 0 {
        0
    } else {
        count_free(bitmap, (n - 1) as nat) + if frame_bit(bitmap, n - 1) {
            0nat
        } else {
            1nat
        }
    }
}

/// Bitmaps that agree on every frame below `n` count the same free frames.
proof fn lemma_count_free_agree(b1: Seq<u8>, b2: Seq<u8>, n: nat)
    requires
        forall|k: int| 0 <= k < n ==> frame_bit(b1, k) == frame_bit(b2, k),
    ensures
        count_free(b1, n) == count_free(b2, n),
    decreases n,
{
    if n > 0 {
        lemma_count_free_agree(b1, b2, (n - 1) as nat);
    }
}

/// A bitmap with every frame below `n` allocated counts no free frame.
proof fn lemma_count_free_zero(b: Seq<u8>, n: nat)
    requires
        forall|k: int| 0 <= k < n ==> frame_bit(b, k),
    ensures
        count_free(b, n) == 0,
    decreases n,
{
    if n > 0 {
        lemma_count_free_zero(b, (n - 1) as nat);
    }
}

/// Reserving one previously free frame lowers the free count by one.
proof fn lemma_count_free_reserve(b1: Seq<u8>, b2: Seq<u8>, j: int, n: nat)
    requires
        0 <= j < n,
        !frame_bit(b1, j),
        frame_bit(b2, j),
        forall|k: int| 0 <= k < n && k != j ==> frame_bit(b1, k) == frame_bit(b2, k),
    ensures
        count_free(b1, n) == count_free(b2, n) + 1,
    decreases n,
{
    if j == n - 1 {
        lemma_count_free_agree(b1, b2, (n - 1) as nat);
    } else {
        lemma_count_free_reserve(b1, b2, j, (n - 1) as nat);
    }
}

/// Largest usable end address among the first `n` regions, zero when none is
/// usable.
pub open spec fn max_usable_end(rs: Seq<MemoryRegion>, n: nat) -> u64
    decreases n,
{
    if n == 0 {
        0u64
    } else {
        let m = max_usable_end(rs, (n - 1) as nat);
        if rs[n - 1].usable && rs[n - 1].end > m {
            rs[n - 1].end
        } else {
            m
        }
    }
}

/// Whether any of the first `n` regions is usable.
pub open spec fn has_usable(rs: Seq<MemoryRegion>, n: nat) -> bool
    decreases n,
{
    if n == 0 {
        false
    } else {
        has_usable(rs, (n - 1) as nat) || rs[n - 1].usable
    }
}

/// How many frames the memory map spans.
pub open spec fn spec_map_frames(rs: Seq<MemoryRegion>) -> int {
    max_usable_end(rs, rs.len()) as int / PAGE_SIZE as int
}

/// How many bytes the bitmap needs.
pub open spec fn spec_map_bitmap_size(rs: Seq<MemoryRegion>) -> int {
    (spec_map_frames(rs) + 7) / 8
}

/// Start of the first usable region, from index `i` on, strictly larger than
/// `bitmap_size` bytes.
pub open spec fn find_backing_from(rs: Seq<MemoryRegion>, bitmap_size: int, i: nat) -> Option<u64>
    decreases rs.len() - i,
{
    if i >= rs.len() {
        None
    } else if rs[i as int].usable && rs[i as int].end - rs[i as int].start > bitmap_size {
        Some(rs[i as int].start)
    } else {
        find_backing_from(rs, bitmap_size, i + 1)
    }
}

/// Whether one of the first `n` regions is usable and makes frame `k` free
/// at initialisation: the frame must lie fully inside the region.
pub open spec fn usable_covers(rs: Seq<MemoryRegion>, n: nat, k: int) -> bool
    decreases n,
{
    if n == 0 {
        false
    } else {
        usable_covers(rs, (n - 1) as nat, k) || (rs[n - 1].usable && (rs[n - 1].start as int
            + PAGE_SIZE - 1) / (PAGE_SIZE as int) <= k < rs[n - 1].end as int / (PAGE_SIZE as int))
    }
}

/// Whether frame `k` backs the bitmap itself.
pub open spec fn in_bitmap_backing(backing_start: u64, bitmap_size: int, k: int) -> bool {
    backing_start as int / (PAGE_SIZE as int) <= k <= (backing_start + bitmap_size) / (
    PAGE_SIZE as int)
}

/// One region the allocator accepts: ordered bounds inside the supported
/// physical range, nonempty when usable.
pub open spec fn region_wf(r: MemoryRegion) -> bool {
    &&& r.start <= r.end
    &&& r.end <= MAX_PHYSICAL_MEMORY
    &&& r.usable ==> r.start < r.end
}

/// The memory map the allocator accepts.
pub open spec fn regions_wf(rs: Seq<MemoryRegion>) -> bool {
    forall|j: int| 0 <= j < rs.len() ==> region_wf(#[trigger] rs[j])
}

/// What the freshly initialised bitmap records for frame `k`: reserved unless
/// some usable region frees it, and re-reserved when it backs the bitmap.
pub open spec fn spec_init_allocated(rs: Seq<MemoryRegion>, k: int) -> bool {
    !usable_covers(rs, rs.len(), k) || match find_backing_from(rs, spec_map_bitmap_size(rs), 0) {
        Some(backing_start) => in_bitmap_backing(backing_start, spec_map_bitmap_size(rs), k),
        None => true,
    }
}

/// A usable region's end never exceeds the running maximum.
proof fn lemma_max_end_bounds(rs: Seq<MemoryRegion>, j: int, n: nat)
    requires
        0 <= j < n <= rs.len(),
        rs[j].usable,
    ensures
        rs[j].end <= max_usable_end(rs, n),
    decreases n,
{
    if j < n - 1 {
        lemma_max_end_bounds(rs, j, (n - 1) as nat);
    }
}

/// The physical-page ownership ledger.
pub struct BitmapPageFrameAllocator {
    pub bitmap: Vec<u8>,
    pub last_allocated_frame_index: usize,
    pub total_frames: usize,
}

/// Clears the bit of frame `i` in a bitmap covering `total` frames.
fn clear_frame_bit(bitmap: &mut Vec<u8>, i: usize, total: usize)
    requires
        old(bitmap)@.len() == (total + 7) / 8,
        i < total,
    ensures
        final(bitmap)@.len() == old(bitmap)@.len(),
        forall|k: int|
            0 <= k < total ==> frame_bit(final(bitmap)@, k) == (k != i && frame_bit(
                old(bitmap)@,
                k,
            )),
{
    let byte_index = i / 8;
    let bit_index = (i % 8) as u8;
    let updated = bitmap[byte_index] & !(1u8 << bit_index);
    proof {
        lemma_clear_bit(old(bitmap)@[byte_index as int], bit_index, updated);
    }
    bitmap.set(byte_index, updated);
    proof {
        assert forall|k: int| 0 <= k < total implies frame_bit(bitmap@, k) == (k != i && frame_bit(
            old(bitmap)@,
            k,
        )) by {
            lemma_frame_position(k, i as int);
        }
    }
}

/// Sets the bit of frame `i` in a bitmap covering `total` frames.
fn set_frame_bit(bitmap: &mut Vec<u8>, i: usize, total: usize)
    requires
        old(bitmap)@.len() == (total + 7) / 8,
        i < total,
    ensures
        final(bitmap)@.len() == old(bitmap)@.len(),
        forall|k: int|
            0 <= k < total ==> frame_bit(final(bitmap)@, k) == (k == i || frame_bit(
                old(bitmap)@,
                k,
            )),
{
    let byte_index = i / 8;
    let bit_index = (i % 8) as u8;
    let updated = bitmap[byte_index] | (1u8 << bit_index);
    proof {
        lemma_set_bit(old(bitmap)@[byte_index as int], bit_index, updated);
    }
    bitmap.set(byte_index, updated);
    proof {
        assert forall|k: int| 0 <= k < total implies frame_bit(bitmap@, k) == (k == i || frame_bit(
            old(bitmap)@,
            k,
        )) by {
            lemma_frame_position(k, i as int);
        }
    }
}

impl BitmapPageFrameAllocator {
    /// The bitmap covers exactly the tracked frames and the cursor stays in
    /// range.
    pub open spec fn inv(self) -> bool {
        &&& self.bitmap@.len() == (self.total_frames + 7) / 8
        &&& self.total_frames == 0 ==> self.last_allocated_frame_index == 0
        &&& self.total_frames > 0 ==> self.last_allocated_frame_index < self.total_frames
    }

    /// How many frames the ledger tracks.
    pub open spec fn spec_total_frames(self) -> nat {
        self.total_frames as nat
    }

    /// Whether the ledger records frame `i` as allocated.
    pub open spec fn allocated(self, i: int) -> bool {
        frame_bit(self.bitmap@, i)
    }

    /// How many frames are currently free.
    pub open spec fn spec_free_count(self) -> nat {
        count_free(self.bitmap@, self.total_frames as nat)
    }

    /// The scan position of frame `j` in the circular order that begins just
    /// after the cursor.
    pub open spec fn scan_position(self, j: int) -> int {
        if j > self.last_allocated_frame_index {
            j - self.last_allocated_frame_index - 1
        } else {
            self.total_frames - self.last_allocated_frame_index - 1 + j
        }
    }

    pub fn total_frame_count(&self) -> (r: usize)
        ensures
            r == self.spec_total_frames(),
    {
        self.total_frames
    }

    /// Reads one frame's bit.
    pub fn is_allocated(&self, i: usize) -> (r: bool)
        requires
            self.inv(),
            i < self.spec_total_frames(),
        ensures
            r == self.allocated(i as int),
    {
        self.bitmap[i / 8] & (1u8 << ((i % 8) as u8)) != 0
    }

    /// Counts the free frames by walking the whole bitmap.
    pub fn free_frame_count(&self) -> (r: usize)
        requires
            self.inv(),
        ensures
            r == self.spec_free_count(),
    {
        let mut count: usize = 0;
        let mut i: usize = 0;
        while i < self.total_frames
            invariant
                self.inv(),
                i <= self.total_frames,
                count == count_free(self.bitmap@, i as nat),
                count <= i,
            decreases self.total_frames - i,
        {
            if !self.is_allocated(i) {
                count = count + 1;
            }
            i = i + 1;
        }
        count
    }

    /// Everything one successful allocation does: the returned frame was
    /// free and is now allocated, no other frame's bit moved, every frame
    /// strictly earlier in the circular scan order was already taken, the
    /// cursor lands on the returned frame, and the free count drops by one.
    pub open spec fn allocate_ok(pre: Self, post: Self, i: int) -> bool {
        &&& post.inv()
        &&& post.spec_total_frames() == pre.spec_total_frames()
        &&& 0 <= i < pre.spec_total_frames()
        &&& !pre.allocated(i)
        &&& post.allocated(i)
        &&& forall|k: int|
            0 <= k < pre.spec_total_frames() && k != i ==> post.allocated(k) == pre.allocated(k)
        &&& forall|j: int|
            0 <= j < pre.spec_total_frames() && j != i && pre.scan_position(j) < pre.scan_position(
                i,
            ) ==> pre.allocated(j)
        &&& post.last_allocated_frame_index == i
        &&& post.spec_free_count() + 1 == pre.spec_free_count()
    }

    /// Circular first-fit allocation: sets the first free bit at or after the
    /// cursor's successor, wrapping once, and moves the cursor there. Fails
    /// with `ResourceExhaustion` exactly when no free bit exists anywhere.
    ///
    /// (The byte content of the frame itself lives outside this model; the
    /// memory edge zero-fills every frame handed out here before use.)
    pub fn allocate_frame(&mut self) -> (r: Result<usize, KernelError>)
        requires
            old(self).inv(),
        ensures
            final(self).inv(),
            final(self).spec_total_frames() == old(self).spec_total_frames(),
            match r {
                Ok(i) => Self::allocate_ok(*old(self), *final(self), i as int),
                Err(e) => {
                    &&& e == KernelError::ResourceExhaustion
                    &&& *final(self) == *old(self)
                    &&& forall|k: int|
                        0 <= k < old(self).spec_total_frames() ==> old(self).allocated(k)
                    &&& old(self).spec_free_count() == 0
                },
            },
    {
        let total = self.total_frames;
        let start = self.last_allocated_frame_index;
        let mut i: usize = start + 1;
        while i < total
            invariant
                self.inv(),
                *self == *old(self),
                start == self.last_allocated_frame_index,
                total == self.total_frames,
                start + 1 <= i,
                forall|j: int| start + 1 <= j < i ==> self.allocated(j),
            decreases total - i,
        {
            if !self.is_allocated(i) {
                return Ok(self.reserve(i));
            }
            i = i + 1;
        }
        let mut k: usize = 0;
        while k < total && k <= start
            invariant
                self.inv(),
                *self == *old(self),
                start == self.last_allocated_frame_index,
                total == self.total_frames,
                forall|j: int| start + 1 <= j < total ==> self.allocated(j),
                forall|j: int| 0 <= j < k ==> self.allocated(j),
                k <= total,
            decreases total - k,
        {
            if !self.is_allocated(k) {
                return Ok(self.reserve(k));
            }
            k = k + 1;
        }
        proof {
            assert forall|j: int| 0 <= j < self.total_frames implies frame_bit(
                self.bitmap@,
                j,
            ) by {
                assert(self.allocated(j));
            }
            lemma_count_free_zero(self.bitmap@, self.total_frames as nat);
        }
        Err(KernelError::ResourceExhaustion)
    }

    /// Marks one known-free frame allocated and moves the cursor onto it.
    fn reserve(&mut self, i: usize) -> (r: usize)
        requires
            old(self).inv(),
            i < old(self).spec_total_frames(),
            !old(self).allocated(i as int),
        ensures
            r == i,
            final(self).inv(),
            final(self).spec_total_frames() == old(self).spec_total_frames(),
            final(self).allocated(i as int),
            forall|k: int|
                0 <= k < old(self).spec_total_frames() && k != i
                    ==> final(self).allocated(k) == old(self).allocated(k),
            final(self).last_allocated_frame_index == i,
            final(self).spec_free_count() + 1 == old(self).spec_free_count(),
    {
        let byte_index = i / 8;
        let bit_index = (i % 8) as u8;
        let updated = self.bitmap[byte_index] | (1u8 << bit_index);
        proof {
            lemma_set_bit(old(self).bitmap@[byte_index as int], bit_index, updated);
        }
        self.bitmap.set(byte_index, updated);
        self.last_allocated_frame_index = i;
        proof {
            assert(self.bitmap@[i as int / 8] == updated);
            assert(bit_set(updated, ((i as int) % 8) as u8));
            assert forall|k: int|
                0 <= k < old(self).spec_total_frames() && k != i implies self.allocated(k) == old(
                self,
            ).allocated(k) by {
                lemma_frame_position(k, i as int);
            }
            lemma_count_free_reserve(
                old(self).bitmap@,
                self.bitmap@,
                i as int,
                self.total_frames as nat,
            );
        }
        i
    }

    /// Builds the ledger from the bootloader's memory map: sizes the bitmap
    /// from the largest usable end address, starts all-reserved, frees every
    /// frame lying fully inside a usable region, then re-reserves the frames
    /// backing the bitmap itself. Marking-free must run before the self-describing
    /// carve-out, or the allocator could hand out its own metadata. Fails
    /// exactly when the map has no usable region, or none is strictly larger
    /// than the bitmap.
    pub fn initialise(regions: &Vec<MemoryRegion>) -> (r: Result<Self, KernelError>)
        requires
            regions_wf(regions@),
        ensures
            match r {
                Ok(a) => {
                    &&& a.inv()
                    &&& a.spec_total_frames() == spec_map_frames(regions@)
                    &&& a.last_allocated_frame_index == 0
                    &&& forall|k: int|
                        0 <= k < a.spec_total_frames() ==> a.allocated(k) == spec_init_allocated(
                            regions@,
                            k,
                        )
                    &&& has_usable(regions@, regions@.len())
                    &&& find_backing_from(regions@, spec_map_bitmap_size(regions@), 0) is Some
                },
                Err(e) => {
                    &&& e == KernelError::ResourceExhaustion
                    &&& (!has_usable(regions@, regions@.len()) || find_backing_from(
                        regions@,
                        spec_map_bitmap_size(regions@),
                        0,
                    ) is None)
                },
            },
    {
        let mut max_end: u64 = 0;
        let mut any_usable: bool = false;
        let mut ri: usize = 0;
        while ri < regions.len()
            invariant
                regions_wf(regions@),
                ri <= regions@.len(),
                max_end == max_usable_end(regions@, ri as nat),
                any_usable == has_usable(regions@, ri as nat),
                max_end <= MAX_PHYSICAL_MEMORY,
            decreases regions@.len() - ri,
        {
            let region = regions[ri];
            if region.usable {
                any_usable = true;
                if region.end > max_end {
                    max_end = region.end;
                }
            }
            ri = ri + 1;
        }
        if !any_usable {
            return Err(KernelError::ResourceExhaustion);
        }
        let total: usize = (max_end / PAGE_SIZE) as usize;
        let bitmap_size: usize = (total + 7) / 8;

        let mut backing: u64 = 0;
        let mut found: bool = false;
        let mut bi: usize = 0;
        while bi < regions.len() && !found
            invariant
                regions_wf(regions@),
                bi <= regions@.len(),
                total == spec_map_frames(regions@),
                bitmap_size == spec_map_bitmap_size(regions@),
                !found ==> find_backing_from(regions@, bitmap_size as int, 0) == find_backing_from(
                    regions@,
                    bitmap_size as int,
                    bi as nat,
                ),
                found ==> find_backing_from(regions@, bitmap_size as int, 0) == Some(backing),
                found ==> exists|j: int|
                    0 <= j < regions@.len() && #[trigger] regions@[j].usable && regions@[j].start
                        == backing && regions@[j].end - regions@[j].start > bitmap_size,
            decreases regions@.len() - bi,
        {
            let region = regions[bi];
            if region.usable && region.end - region.start > bitmap_size as u64 {
                backing = region.start;
                found = true;
            }
            bi = bi + 1;
        }
        if !found {
            return Err(KernelError::ResourceExhaustion);
        }

        let mut bitmap: Vec<u8> = Vec::new();
        while bitmap.len() < bitmap_size
            invariant
                bitmap@.len() <= bitmap_size,
                forall|b: int| 0 <= b < bitmap@.len() ==> bitmap@[b] == 255u8,
            decreases bitmap_size - bitmap@.len(),
        {
            bitmap.push(255u8);
        }
        proof {
            lemma_full_byte();
            assert forall|k: int| 0 <= k < total implies frame_bit(bitmap@, k) by {
                assert(k / 8 < bitmap_size as int);
            }
        }

        let mut ri2: usize = 0;
        while ri2 < regions.len()
            invariant
                regions_wf(regions@),
                ri2 <= regions@.len(),
                bitmap@.len() == (total + 7) / 8,
                total == spec_map_frames(regions@),
                max_end == max_usable_end(regions@, regions@.len()),
                max_end <= MAX_PHYSICAL_MEMORY,
                total == max_end / PAGE_SIZE,
                forall|k: int|
                    0 <= k < total ==> frame_bit(bitmap@, k) == !usable_covers(
                        regions@,
                        ri2 as nat,
                        k,
                    ),
            decreases regions@.len() - ri2,
        {
            let region = regions[ri2];
            if region.usable {
                let lo: usize = ((region.start + (PAGE_SIZE - 1)) / PAGE_SIZE) as usize;
                let hi: usize = (region.end / PAGE_SIZE) as usize;
                proof {
                    lemma_max_end_bounds(regions@, ri2 as int, regions@.len());
                    vstd::arithmetic::div_mod::lemma_div_is_ordered(
                        region.end as int,
                        max_end as int,
                        PAGE_SIZE as int,
                    );
                }
                if lo < hi {
                    let mut fi: usize = lo;
                    while fi < hi
                        invariant
                            lo <= fi <= hi,
                            hi <= total,
                            bitmap@.len() == (total + 7) / 8,
                            forall|k: int|
                                0 <= k < total ==> frame_bit(bitmap@, k) == !(usable_covers(
                                    regions@,
                                    ri2 as nat,
                                    k,
                                ) || lo <= k < fi),
                        decreases hi - fi,
                    {
                        clear_frame_bit(&mut bitmap, fi, total);
                        fi = fi + 1;
                    }
                }
            }
            ri2 = ri2 + 1;
        }

        let first: usize = (backing / PAGE_SIZE) as usize;
        let backing_end: u64 = backing + bitmap_size as u64;
        let last_backing: usize = (backing_end / PAGE_SIZE) as usize;
        let mut fi2: usize = first;
        while fi2 <= last_backing && fi2 < total
            invariant
                first <= fi2 <= last_backing + 1,
                bitmap@.len() == (total + 7) / 8,
                forall|k: int|
                    0 <= k < total ==> frame_bit(bitmap@, k) == (!usable_covers(
                        regions@,
                        regions@.len(),
                        k,
                    ) || first <= k < fi2),
            decreases last_backing + 1 - fi2,
        {
            set_frame_bit(&mut bitmap, fi2, total);
            fi2 = fi2 + 1;
        }

        let allocator = BitmapPageFrameAllocator {
            bitmap,
            last_allocated_frame_index: 0,
            total_frames: total,
        };
        proof {
            assert forall|k: int| 0 <= k < total implies allocator.allocated(k)
                == spec_init_allocated(regions@, k) by {
                assert(in_bitmap_backing(backing, bitmap_size as int, k) == (first <= k
                    <= last_backing));
            }
        }
        Ok(allocator)
    }

    /// Clears one frame's bit; the frame content is not touched on free.
    pub fn deallocate_frame(&mut self, frame: usize)
        requires
            old(self).inv(),
            frame < old(self).spec_total_frames(),
        ensures
            final(self).inv(),
            final(self).spec_total_frames() == old(self).spec_total_frames(),
            final(self).last_allocated_frame_index == old(self).last_allocated_frame_index,
            !final(self).allocated(frame as int),
            forall|k: int|
                0 <= k < old(self).spec_total_frames() && k != frame
                    ==> final(self).allocated(k) == old(self).allocated(k),
            old(self).allocated(frame as int)
                ==> final(self).spec_free_count() == old(self).spec_free_count() + 1,
            !old(self).allocated(frame as int)
                ==> final(self).spec_free_count() == old(self).spec_free_count(),
    {
        let byte_index = frame / 8;
        let bit_index = (frame % 8) as u8;
        let updated = self.bitmap[byte_index] & !(1u8 << bit_index);
        proof {
            lemma_clear_bit(old(self).bitmap@[byte_index as int], bit_index, updated);
        }
        self.bitmap.set(byte_index, updated);
        proof {
            assert(self.bitmap@[frame as int / 8] == updated);
            assert(!bit_set(updated, ((frame as int) % 8) as u8));
            assert forall|k: int|
                0 <= k < old(self).spec_total_frames() && k != frame implies self.allocated(k)
                == old(self).allocated(k) by {
                lemma_frame_position(k, frame as int);
            }
            assert(!self.allocated(frame as int));
            if old(self).allocated(frame as int) {
                lemma_count_free_reserve(
                    self.bitmap@,
                    old(self).bitmap@,
                    frame as int,
                    self.total_frames as nat,
                );
            } else {
                lemma_count_free_agree(
                    self.bitmap@,
                    old(self).bitmap@,
                    self.total_frames as nat,
                );
            }
        }
    }
}

/// No two live allocations share a frame index: an allocation made while an
/// earlier one is still live returns a different frame, because allocation
/// only ever hands out a frame whose bit is clear.
pub proof fn lemma_live_allocations_distinct(
    pre: BitmapPageFrameAllocator,
    post: BitmapPageFrameAllocator,
    live: int,
    fresh: int,
)
    requires
        pre.allocated(live),
        BitmapPageFrameAllocator::allocate_ok(pre, post, fresh),
    ensures
        live != fresh,
{
}

/// A freed index becomes eligible again through the cursor-relative
/// first-fit scan: once it is the only free frame left, the next allocation
/// returns exactly it.
pub proof fn lemma_freed_index_eligible(
    pre: BitmapPageFrameAllocator,
    post: BitmapPageFrameAllocator,
    freed: int,
    got: int,
)
    requires
        0 <= freed < pre.spec_total_frames(),
        !pre.allocated(freed),
        forall|k: int|
            0 <= k < pre.spec_total_frames() && k != freed ==> pre.allocated(k),
        BitmapPageFrameAllocator::allocate_ok(pre, post, got),
    ensures
        got == freed,
{
}

/// Exhausting the bitmap yields failure, never reuse of a live frame: out of
/// a state in which every frame is taken, an allocation attempt — whose
/// outcome is constrained as `allocate_frame` constrains it — reports an
/// error and leaves the ledger unchanged.
pub proof fn lemma_exhaustion_yields_failure(
    pre: BitmapPageFrameAllocator,
    post: BitmapPageFrameAllocator,
    r: Result<usize, KernelError>,
)
    requires
        forall|k: int| 0 <= k < pre.spec_total_frames() ==> pre.allocated(k),
        match r {
            Ok(i) => BitmapPageFrameAllocator::allocate_ok(pre, post, i as int),
            Err(_) => post == pre,
        },
    ensures
        r is Err,
        post == pre,
{
}

} // verus!
