//! One contiguous region of frames managed by a buddy allocator: per-order bitmaps of
//! free and allocated blocks, block splitting on allocation and buddy merging on release.
use crate::buddy_math::{
    anc, blocks_at, lemma_anc_parent, count_set, disjoint, lemma_anc_one, lemma_anc_past_blocks,
    lemma_blocks_at_bound, lemma_blocks_at_mono, lemma_blocks_at_mono_frames, lemma_count_bound, lemma_count_none,
    lemma_count_positive, lemma_count_update, lemma_merge_disjoint, lemma_pow2_step,
    lemma_split_disjoint, pow2, lemma_anc_scaled, lemma_scaled_even, lemma_anc_div, lemma_pow2_add,
    lemma_count_agree, lemma_count_single, lemma_count_insert,
};
use crate::bitmap::first_set_from;
use crate::layered_bitmap::{buddy_bitmap_bytes, BuddyBitmap, BuddyBitmapLayout};
use crate::mem_layout::{max_layout_size, ByteLayout, LayoutError};
use crate::util::{ceil_log, ilog_ceil};
use vstd::prelude::*;

verus! {

/// Bytes of the record that describes one order's buddy bitmap.
pub const BUDDY_BITMAP_RECORD_BYTES: usize = 24;

/// Number of orders a region of `frames` frames keeps bitmaps for.
pub open spec fn max_order_for(frames: nat, orders: nat) -> nat {
    let l = ceil_log(2, frames);
    if l < orders - 1 {
        l
    } else {
        (orders - 1) as nat
    }
}

/// Bytes of the bitmaps of orders `o` and above, for every order below `orders` that has
/// at least one whole block.
pub open spec fn order_bitmaps_bytes(frames: nat, o: nat, orders: nat) -> int
    decreases orders - o,
{
    if o >= orders || blocks_at(frames, o) == 0 {
        0
    } else {
        buddy_bitmap_bytes(blocks_at(frames, o)) + order_bitmaps_bytes(frames, o + 1, orders)
    }
}

/// Bytes of a region's metadata: the bitmap records and every order's bitmap.
pub open spec fn region_meta_bytes(frames: nat, orders: nat) -> int {
    BUDDY_BITMAP_RECORD_BYTES * max_order_for(frames, orders) + order_bitmaps_bytes(
        frames,
        0,
        orders,
    )
}

/// Frames taken by a region's metadata.
pub open spec fn region_meta_frames(frame_size: nat, frames: nat, orders: nat) -> int {
    (region_meta_bytes(frames, orders) + frame_size - 1) / (frame_size as int)
}

/// A region's metadata never takes a negative number of frames.
pub proof fn lemma_region_meta_frames_nonneg(frame_size: nat, frames: nat, orders: nat)
    requires
        frame_size >= 1,
    ensures
        region_meta_bytes(frames, orders) >= 0,
        region_meta_frames(frame_size, frames, orders) >= 0,
{
    lemma_order_bitmaps_bytes_nonneg(frames, 0, orders);
    let b = region_meta_bytes(frames, orders);
    assert((b + frame_size - 1) / (frame_size as int) >= 0) by (nonlinear_arith)
        requires
            b >= 0,
            frame_size >= 1,
    ;
}

/// Order bitmaps never take a negative number of bytes.
proof fn lemma_order_bitmaps_bytes_nonneg(frames: nat, o: nat, orders: nat)
    ensures
        order_bitmaps_bytes(frames, o, orders) >= 0,
    decreases orders - o,
{
    if !(o >= orders || blocks_at(frames, o) == 0) {
        lemma_order_bitmaps_bytes_nonneg(frames, o + 1, orders);
        crate::layered_bitmap::lemma_cache_layers_bytes_nonneg(
            blocks_at(frames, o) as int,
            (crate::layered_bitmap::buddy_layer_count(blocks_at(frames, o)) - 1) as nat,
        );
    }
}

/// Placement of one order's bitmap in the region's metadata.
#[derive(Clone, Copy, Debug)]
struct OrderBitmapLayout {
    layout: BuddyBitmapLayout,
    offset: usize,
}

/// Placement of a region's metadata: one buddy bitmap per order, and the frames they take.
#[derive(Clone, Copy, Debug)]
pub struct RegionLayout<const ORDERS: usize> {
    order_bitmaps: [Option<OrderBitmapLayout>; ORDERS],
    meta_frames: usize,
    max_order: usize,
}

impl<const ORDERS: usize> RegionLayout<ORDERS> {
    /// Frames taken by the metadata.
    pub closed spec fn meta_frames(&self) -> usize {
        self.meta_frames
    }

    /// Number of orders with a bitmap.
    pub closed spec fn max_order(&self) -> usize {
        self.max_order
    }

    /// Bitmap of order `o`: its length is the number of whole blocks of that order.
    pub closed spec fn order_ok(&self, frames: nat, o: int) -> bool {
        &&& self.order_bitmaps@[o] is Some
        &&& self.order_bitmaps@[o]->Some_0.layout.wf()
        &&& self.order_bitmaps@[o]->Some_0.layout.len() == blocks_at(frames, o as nat)
    }

    /// Every order below the maximum has a bitmap sized for `frames` frames.
    pub closed spec fn wf(&self, frames: nat) -> bool {
        &&& self.max_order < ORDERS
        &&& forall|o: int| 0 <= o < self.max_order ==> #[trigger] self.order_ok(frames, o)
    }

    /// Layout of the metadata of a region of `frames` frames of `frame_size` bytes; fails
    /// exactly when the metadata does not fit in the address space.
    pub fn new(frame_size: usize, frames: usize) -> (r: Result<Self, LayoutError>)
        requires
            ORDERS >= 1,
            frame_size >= 1,
            frames >= 1,
            frames + 64 <= usize::MAX,
        ensures
            match r {
                Ok(l) => {
                    &&& l.wf(frames as nat)
                    &&& region_meta_bytes(frames as nat, ORDERS as nat) <= max_layout_size()
                    &&& l.max_order() == max_order_for(frames as nat, ORDERS as nat)
                    &&& l.meta_frames() == region_meta_frames(
                        frame_size as nat,
                        frames as nat,
                        ORDERS as nat,
                    )
                },
                Err(_) => region_meta_bytes(frames as nat, ORDERS as nat) > max_layout_size(),
            },
    {
        // At least one frame is going to be used for metadata
        let log = ilog_ceil(2, frames);
        let max_order: usize = if log < ORDERS - 1 {
            log
        } else {
            ORDERS - 1
        };
        let ghost total = region_meta_bytes(frames as nat, ORDERS as nat);
        proof {
            lemma_order_bitmaps_bytes_nonneg(frames as nat, 0, ORDERS as nat);
            crate::util::lemma_pow_grows(2, 0, log as nat);
            assert(log <= frames) by {
                // 2^log >= 2^(log) > log for every log, and 2^(log-1) < frames.
                if log > 0 {
                    lemma_pow2_exceeds(((log - 1) as nat));
                    assert(crate::util::pow(2, (log - 1) as nat) < frames);
                }
            }
        }
        let bitmaps_layout = match ByteLayout::array(BUDDY_BITMAP_RECORD_BYTES, max_order) {
            Ok(l) => l,
            Err(e) => return Err(e),
        };
        let mut combined_layout = bitmaps_layout;
        let mut order_bitmaps: [Option<OrderBitmapLayout>; ORDERS] = [None; ORDERS];
        let mut order: usize = 0;
        let mut entries = frames;
        while order < ORDERS
            invariant
                order <= ORDERS,
                order_bitmaps@.len() == ORDERS,
                entries == blocks_at(frames as nat, order as nat),
                entries <= frames,
                frames + 64 <= usize::MAX,
                combined_layout.wf(),
                total == region_meta_bytes(frames as nat, ORDERS as nat),
                combined_layout.size + order_bitmaps_bytes(frames as nat, order as nat, ORDERS as nat)
                    == total,
                forall|o: int|
                    0 <= o < order ==> order_bitmaps@[o] is Some
                        && order_bitmaps@[o]->Some_0.layout.wf()
                        && order_bitmaps@[o]->Some_0.layout.len() == blocks_at(frames as nat, o as nat),
            ensures
                order == ORDERS || entries == 0,
            decreases ORDERS - order,
        {
            if entries == 0 {
                break;
            }
            proof {
                lemma_order_bitmaps_bytes_nonneg(frames as nat, (order + 1) as nat, ORDERS as nat);
            }
            let bitmap_layout = match BuddyBitmapLayout::new(entries) {
                Ok(l) => l,
                Err(e) => return Err(e),
            };
            let (tmp_combined_layout, offset) = match combined_layout.extend(bitmap_layout.bytes()) {
                Ok(p) => p,
                Err(e) => return Err(e),
            };
            order_bitmaps[order] = Some(OrderBitmapLayout { layout: bitmap_layout, offset });
            combined_layout = tmp_combined_layout;
            entries = entries / 2;
            order = order + 1;
        }
        proof {
            // Every order below the maximum has at least one whole block.
            if order < max_order {
                lemma_blocks_at_pow(frames as nat, order as nat, log as nat);
            }
            assert(max_order <= order);
        }
        let size = combined_layout.size;
        let meta_frames = size / frame_size + if size % frame_size != 0 {
            1
        } else {
            0
        };
        let r = RegionLayout { order_bitmaps, meta_frames, max_order };
        proof {
            assert forall|o: int| 0 <= o < max_order implies #[trigger] r.order_ok(frames as nat, o) by {
                assert(o < order);
            }
            assert(meta_frames == (size + frame_size - 1) / (frame_size as int)) by (nonlinear_arith)
                requires
                    frame_size >= 1,
                    meta_frames == size / frame_size + if size % frame_size != 0 {
                        1int
                    } else {
                        0int
                    },
            ;
        }
        Ok(r)
    }
}

/// `2^k > k`.
proof fn lemma_pow2_exceeds(k: nat)
    ensures
        crate::util::pow(2, k) > k,
    decreases k,
{
    if k > 0 {
        lemma_pow2_exceeds((k - 1) as nat);
        crate::util::lemma_pow_positive(2, (k - 1) as nat);
    }
}

/// Below the base-2 logarithm of `n` rounded up, every order has a whole block.
proof fn lemma_blocks_at_pow(n: nat, o: nat, log: nat)
    requires
        crate::util::is_ceil_log(2, n, log),
        o < log,
    ensures
        blocks_at(n, o) >= 1,
{
    assert(crate::util::pow(2, o) < n);
    lemma_blocks_at_lower(n, o);
}

/// `2^o <= n` gives a whole block of order `o`.
proof fn lemma_blocks_at_lower(n: nat, o: nat)
    requires
        pow2(o) <= n,
    ensures
        blocks_at(n, o) >= 1,
{
    lemma_blocks_at_scaled(n, o, 1);
}

/// `c * 2^o <= n` gives `c` whole blocks of order `o`.
proof fn lemma_blocks_at_scaled(n: nat, o: nat, c: nat)
    requires
        c * pow2(o) <= n,
    ensures
        blocks_at(n, o) >= c,
    decreases o,
{
    if o > 0 {
        lemma_pow2_step((o - 1) as nat);
        assert(c * pow2(o) == (2 * c) * pow2((o - 1) as nat)) by (nonlinear_arith)
            requires
                pow2(o) == 2 * pow2((o - 1) as nat),
        ;
        lemma_blocks_at_scaled(n, (o - 1) as nat, 2 * c);
        assert(blocks_at(n, o) == blocks_at(n, (o - 1) as nat) / 2);
    } else {
        assert(pow2(0) == 1) by {
            assert(crate::util::pow(2, 0) == 1);
        }
        assert(c * pow2(0) == c) by (nonlinear_arith)
            requires
                pow2(0) == 1,
        ;
    }
}

} // verus!

verus! {

/// A region of frames handed out in blocks of `2^order` frames.
#[derive(Debug)]
pub struct Region<const ORDERS: usize, const FRAME_SIZE: usize> {
    pub usable_frames_base: usize,
    pub usable_frames: usize,
    pub counts: [usize; ORDERS],
    pub bitmaps: Vec<BuddyBitmap>,
}

/// Result of an allocation: the block's address, its order, and the order of the free
/// block it was split from.
#[derive(Clone, Copy, Debug)]
pub struct RegionAllocation {
    pub addr: usize,
    pub allocated_order: usize,
    pub split_order: usize,
}

/// Result of a release: the order of the released block and the order of the block it
/// ended up merged into.
#[derive(Clone, Copy, Debug)]
pub struct RegionDeallocation {
    pub deallocated_order: usize,
    pub merge_order: usize,
}

/// Why a region could not be created.
#[derive(Clone, Copy, Debug, PartialEq, Eq, Structural)]
pub enum RegionError {
    TooSmall,
}

/// The blocks a fresh region of `usable` frames starts with: at the largest order every
/// whole block, below it every whole block not covered by the order above.
pub open spec fn initially_free(usable: nat, orders: int, o: int, i: int) -> bool {
    &&& 0 <= o < orders
    &&& i < blocks_at(usable, o as nat)
    &&& if o == orders - 1 {
        0 <= i
    } else {
        2 * blocks_at(usable, (o + 1) as nat) <= i
    }
}

/// The sibling of block `i` within its parent.
pub open spec fn buddy_of(i: int) -> int {
    if i % 2 == 0 {
        i + 1
    } else {
        i - 1
    }
}

/// The blocks on the way from block `idx = j * 2^(split - order)` of order `order` up to
/// block `j` of order `split`: at each order `p` in between the ancestor is
/// `j * 2^(split - p)`, an even block whose buddy is the next one.
proof fn lemma_split_path(j: int, order: int, split: int, idx: int)
    requires
        j >= 0,
        0 <= order <= split,
        idx == j * pow2((split - order) as nat),
    ensures
        forall|p: int|
            order <= p < split ==> #[trigger] anc(idx, (p - order) as nat) == j * pow2((split - p) as nat)
                && buddy_of(anc(idx, (p - order) as nat)) == j * pow2((split - p) as nat) + 1,
        anc(idx, (split - order) as nat) == j,
{
    assert forall|p: int| order <= p < split implies #[trigger] anc(idx, (p - order) as nat) == j * pow2((split - p) as nat)
        && buddy_of(anc(idx, (p - order) as nat)) == j * pow2((split - p) as nat) + 1 by {
        lemma_anc_scaled(j, (split - order) as nat, (p - order) as nat);
        lemma_scaled_even(j, (split - p) as nat);
    }
    lemma_anc_scaled(j, (split - order) as nat, (split - order) as nat);
    assert(pow2(0) == 1) by {
        assert(crate::util::pow(2, 0) == 1);
    }
    let z = pow2(((split - order) - (split - order)) as nat) as int;
    assert(z == 1);
    assert(j * z == j) by (nonlinear_arith)
        requires
            z == 1,
    ;
}

impl<const ORDERS: usize, const FRAME_SIZE: usize> Region<ORDERS, FRAME_SIZE> {
    /// Number of orders with a bitmap.
    pub closed spec fn num_orders(&self) -> int {
        self.bitmaps@.len() as int
    }

    /// Block `i` of order `o` is free.
    pub closed spec fn free(&self, o: int, i: int) -> bool {
        &&& 0 <= o < self.bitmaps@.len()
        &&& 0 <= i < self.bitmaps@[o].free_bits().len()
        &&& self.bitmaps@[o].free_bits()[i]
    }

    /// Block `i` of order `o` is allocated.
    pub closed spec fn allocated(&self, o: int, i: int) -> bool {
        &&& 0 <= o < self.bitmaps@.len()
        &&& 0 <= i < self.bitmaps@[o].alloc_bits().len()
        &&& self.bitmaps@[o].alloc_bits()[i]
    }

    /// Block `i` of order `o` is free or allocated.
    pub open spec fn marked(&self, o: int, i: int) -> bool {
        self.free(o, i) || self.allocated(o, i)
    }

    /// The marked blocks as a predicate.
    pub open spec fn marks(&self) -> spec_fn(int, int) -> bool {
        |o: int, i: int| self.marked(o, i)
    }

    /// Address of block `i` of order `o`.
    pub open spec fn block_addr(&self, o: int, i: int) -> int {
        self.usable_frames_base + i * pow2(o as nat) * FRAME_SIZE
    }

    /// The bitmap of order `o` is well formed, large enough for every whole usable block,
    /// and its count is the number of free blocks.
    closed spec fn order_wf(&self, o: int) -> bool {
        &&& self.bitmaps@[o].wf()
        &&& self.bitmaps@[o].free_bits().len() >= blocks_at(self.usable_frames as nat, o as nat)
        &&& self.counts@[o] == count_set(self.bitmaps@[o].free_bits())
    }

    /// Every part of the well-formedness except the disjointness of marked blocks.
    closed spec fn wf_shape(&self) -> bool {
        &&& 1 <= ORDERS
        &&& self.bitmaps@.len() < ORDERS
        &&& FRAME_SIZE >= 1
        &&& self.usable_frames_base + self.usable_frames * FRAME_SIZE <= usize::MAX
        &&& forall|o: int| 0 <= o < self.bitmaps@.len() ==> #[trigger] self.order_wf(o)
        &&& forall|o: int| self.bitmaps@.len() <= o < ORDERS ==> self.counts@[o] == 0
        &&& forall|o: int, i: int|
            #[trigger] self.marked(o, i) ==> i < blocks_at(self.usable_frames as nat, o as nat)
        &&& forall|o: int, i: int| !(#[trigger] self.free(o, i) && self.allocated(o, i))
    }

    /// Well formed: counts agree with the bitmaps, every marked block lies in the usable
    /// frames, no block is both free and allocated, and no two marked blocks overlap.
    pub closed spec fn wf(&self) -> bool {
        &&& self.wf_shape()
        &&& disjoint(self.marks(), self.num_orders())
    }

    /// This is a region just made over `frames` frames at `base`: its metadata takes the
    /// first frames and the rest are usable, the initial blocks are free and none is
    /// allocated.
    pub open spec fn fresh(&self, base: int, frames: int) -> bool {
        let meta = region_meta_frames(FRAME_SIZE as nat, frames as nat, ORDERS as nat);
        &&& meta < frames
        &&& self.wf()
        &&& self.usable_frames == frames - meta
        &&& self.usable_frames_base == base + meta * FRAME_SIZE
        &&& self.num_orders() == max_order_for(frames as nat, ORDERS as nat)
        &&& forall|o: int, i: int|
            #[trigger] self.free(o, i) == initially_free(self.usable_frames as nat, self.num_orders(), o, i)
        &&& forall|o: int, i: int| !#[trigger] self.allocated(o, i)
    }

    /// Creates a region over `frames` frames at `base`, keeping its metadata in its first
    /// frames; fails when the metadata would take every frame.
    pub fn new(base: usize, frames: usize) -> (r: Result<Self, RegionError>)
        requires
            base % FRAME_SIZE == 0,
            FRAME_SIZE >= 1,
            ORDERS >= 1,
            frames >= 1,
            frames + 64 <= usize::MAX,
            base + frames * FRAME_SIZE <= usize::MAX,
            region_meta_bytes(frames as nat, ORDERS as nat) <= max_layout_size(),
        ensures
            match r {
                Ok(region) => region.fresh(base as int, frames as int),
                Err(RegionError::TooSmall) => region_meta_frames(FRAME_SIZE as nat, frames as nat, ORDERS as nat) >= frames,
            },
    {
        let layout = match RegionLayout::<ORDERS>::new(FRAME_SIZE, frames) {
            Ok(layout) => layout,
            Err(_) => {
                proof {
                    assert(false);
                }
                return Err(RegionError::TooSmall);
            },
        };
        if layout.meta_frames >= frames {
            return Err(RegionError::TooSmall);
        }
        let usable_frames = frames - layout.meta_frames;
        proof {
            assert(layout.meta_frames * FRAME_SIZE <= frames * FRAME_SIZE) by (nonlinear_arith)
                requires
                    layout.meta_frames < frames,
            ;
            assert((layout.meta_frames + usable_frames) * FRAME_SIZE == frames * FRAME_SIZE);
            assert(layout.meta_frames * FRAME_SIZE + usable_frames * FRAME_SIZE == frames
                * FRAME_SIZE) by (nonlinear_arith)
                requires
                    layout.meta_frames + usable_frames == frames,
            ;
        }
        let usable_frames_base = base + layout.meta_frames * FRAME_SIZE;
        let (bitmaps, counts) = Self::create_bitmaps(layout, frames, usable_frames);
        let region = Region { usable_frames_base, usable_frames, counts, bitmaps };
        proof {
            region.lemma_fresh_wf();
        }
        Ok(region)
    }

    /// Builds the order bitmaps of `layout` and marks free every whole usable block not
    /// covered by a block of the order above; returns them with the free counts.
    fn create_bitmaps(layout: RegionLayout<ORDERS>, frames: usize, usable: usize) -> (r: (
        Vec<BuddyBitmap>,
        [usize; ORDERS],
    ))
        requires
            layout.wf(frames as nat),
            usable <= frames,
            frames + 64 <= usize::MAX,
        ensures
            r.0@.len() == layout.max_order(),
            r.1@.len() == ORDERS,
            forall|o: int|
                0 <= o < r.0@.len() ==> {
                    &&& (#[trigger] r.0@[o]).wf()
                    &&& r.0@[o].free_bits().len() >= blocks_at(usable as nat, o as nat)
                    &&& r.1@[o] == count_set(r.0@[o].free_bits())
                    &&& forall|i: int|
                        0 <= i < r.0@[o].free_bits().len() ==> (#[trigger] r.0@[o].free_bits()[i]
                            == initially_free(usable as nat, r.0@.len() as int, o, i))
                    &&& forall|i: int|
                        0 <= i < r.0@[o].alloc_bits().len() ==> !#[trigger] r.0@[o].alloc_bits()[i]
                },
            forall|o: int| r.0@.len() <= o < ORDERS ==> r.1@[o] == 0,
    {
        let max_order = layout.max_order;
        // Whole usable blocks of every order.
        let mut usable_blocks: Vec<usize> = Vec::new();
        let mut blocks = usable;
        let mut order: usize = 0;
        while order < max_order
            invariant
                order <= max_order < ORDERS,
                usable_blocks@.len() == order,
                blocks == blocks_at(usable as nat, order as nat),
                forall|o: int| 0 <= o < order ==> #[trigger] usable_blocks@[o] == blocks_at(usable as nat, o as nat),
            decreases max_order - order,
        {
            usable_blocks.push(blocks);
            blocks = blocks / 2;
            order = order + 1;
        }
        let mut bitmaps: Vec<BuddyBitmap> = Vec::new();
        let mut order: usize = 0;
        while order < max_order
            invariant
                layout.wf(frames as nat),
                max_order == layout.max_order(),
                order <= max_order,
                usable <= frames,
                bitmaps@.len() == order,
                forall|o: int|
                    0 <= o < order ==> {
                        &&& (#[trigger] bitmaps@[o]).wf()
                        &&& bitmaps@[o].free_bits() == Seq::new(blocks_at(frames as nat, o as nat), |i: int| false)
                        &&& bitmaps@[o].alloc_bits() == Seq::new(blocks_at(frames as nat, o as nat), |i: int| false)
                    },
            decreases max_order - order,
        {
            assert(layout.order_ok(frames as nat, order as int));
            let order_layout = layout.order_bitmaps[order].unwrap();
            bitmaps.push(BuddyBitmap::from_layout(order_layout.layout));
            order = order + 1;
        }
        let mut counts: [usize; ORDERS] = [0usize; ORDERS];
        proof {
            assert forall|o: int| 0 <= o < max_order implies count_set(#[trigger] bitmaps@[o].free_bits()) == 0 by {
                lemma_count_none(bitmaps@[o].free_bits());
            }
        }
        // From the largest order down, mark free the blocks not covered above.
        let mut order: usize = max_order;
        while order > 0
            invariant
                order <= max_order < ORDERS,
                usable <= frames,
                bitmaps@.len() == max_order,
                usable_blocks@.len() == max_order,
                counts@.len() == ORDERS,
                forall|o: int| 0 <= o < max_order ==> #[trigger] usable_blocks@[o] == blocks_at(usable as nat, o as nat),
                forall|o: int|
                    0 <= o < max_order ==> {
                        &&& (#[trigger] bitmaps@[o]).wf()
                        &&& bitmaps@[o].free_bits().len() == blocks_at(frames as nat, o as nat)
                        &&& counts@[o] == count_set(bitmaps@[o].free_bits())
                        &&& forall|i: int|
                            0 <= i < bitmaps@[o].free_bits().len() ==> (#[trigger] bitmaps@[o].free_bits()[i]
                                == (o >= order && initially_free(usable as nat, max_order as int, o, i)))
                        &&& forall|i: int|
                            0 <= i < bitmaps@[o].alloc_bits().len() ==> !#[trigger] bitmaps@[o].alloc_bits()[i]
                    },
                forall|o: int| max_order <= o < ORDERS ==> counts@[o] == 0,
            decreases order,
        {
            order = order - 1;
            let end = usable_blocks[order];
            proof {
                lemma_blocks_at_mono_frames(usable as nat, frames as nat, order as nat);
                if order + 1 < max_order {
                    assert(blocks_at(usable as nat, (order + 1) as nat) == blocks_at(usable as nat, order as nat) / 2);
                }
            }
            let start = if order + 1 < max_order {
                usable_blocks[order + 1] * 2
            } else {
                0
            };
            let ghost before = bitmaps@;
            let ghost counts_before = counts@;
            let mut index = start;
            while index < end
                invariant
                    order < max_order < ORDERS,
                    bitmaps@.len() == max_order,
                    counts@.len() == ORDERS,
                    start <= index <= end,
                    end == blocks_at(usable as nat, order as nat),
                    end <= blocks_at(frames as nat, order as nat),
                    order + 1 < max_order ==> start == 2 * blocks_at(usable as nat, (order + 1) as nat),
                    order + 1 == max_order ==> start == 0,
                    bitmaps@[order as int].wf(),
                    bitmaps@[order as int].free_bits().len() == blocks_at(frames as nat, order as nat),
                    counts@[order as int] == count_set(bitmaps@[order as int].free_bits()),
                    forall|i: int|
                        0 <= i < bitmaps@[order as int].free_bits().len() ==> (#[trigger] bitmaps@[order as int].free_bits()[i]
                            == (start <= i < index)),
                    forall|i: int|
                        0 <= i < bitmaps@[order as int].alloc_bits().len() ==> !#[trigger] bitmaps@[order as int].alloc_bits()[i],
                    before.len() == max_order,
                    counts_before.len() == ORDERS,
                    forall|o: int| 0 <= o < max_order && o != order ==> #[trigger] bitmaps@[o] == before[o],
                    forall|o: int| 0 <= o < ORDERS && o != order ==> #[trigger] counts@[o] == counts_before[o],
                decreases end - index,
            {
                proof {
                    let bits = bitmaps@[order as int].free_bits();
                    assert(!bits[index as int]);
                    bitmaps@[order as int].lemma_lengths();
                    lemma_count_update(bits, index as int, true);
                    lemma_count_bound(bits.update(index as int, true));
                }
                bitmaps[order].set_free_bit(index);
                counts[order] = counts[order] + 1;
                index = index + 1;
            }
        }
        proof {
            assert forall|o: int| 0 <= o < max_order implies #[trigger] bitmaps@[o].free_bits().len()
                >= blocks_at(usable as nat, o as nat) by {
                lemma_blocks_at_mono_frames(usable as nat, frames as nat, o as nat);
            }
        }
        (bitmaps, counts)
    }

    /// Index of the block of `order` handed out when splitting the lowest free block of
    /// `split`: the lowest block of that order inside it.
    pub open spec fn alloc_index(&self, order: int, split: int) -> int {
        self.lowest_free(split) * pow2((split - order) as nat)
    }

    /// `after` is this region after allocating a block of `order` out of its lowest free
    /// block of order `split`, the lowest order at or above `order` with a free block:
    /// each order from `order` up to `split` gains the upper half of the block above it
    /// as a free block, and the lowest block of `order` inside becomes allocated.
    #[verifier::opaque]
    pub open spec fn alloc_outcome(&self, after: Self, order: int, split: int) -> bool {
        let j = self.lowest_free(split);
        let idx = self.alloc_index(order, split);
        &&& order <= split < self.num_orders()
        &&& forall|o: int, i: int| order <= o < split ==> !#[trigger] self.free(o, i)
        &&& self.free(split, j)
        &&& idx < blocks_at(self.usable_frames as nat, order as nat)
        &&& after.wf()
        &&& after.usable_frames == self.usable_frames
        &&& after.usable_frames_base == self.usable_frames_base
        &&& after.num_orders() == self.num_orders()
        &&& forall|o: int, i: int|
            #[trigger] after.free(o, i) == if o == split && i == j {
                false
            } else if order <= o < split && i == j * pow2((split - o) as nat) + 1 {
                true
            } else if o == order && i == idx {
                false
            } else {
                self.free(o, i)
            }
        &&& forall|o: int, i: int|
            #[trigger] after.allocated(o, i) == (self.allocated(o, i) || (o == order && i == idx))
    }

    /// `after` is this region after releasing the allocated block of order `o` that holds
    /// frame `f` (the lowest order with such a block) and merging it with free buddies up
    /// to order `m`.
    #[verifier::opaque]
    pub open spec fn dealloc_outcome(&self, after: Self, f: int, o: int, m: int) -> bool {
        let idx = anc(f, o as nat);
        &&& self.allocated(o, idx)
        &&& forall|p: int| 0 <= p < o ==> !#[trigger] self.allocated(p, anc(f, p as nat))
        &&& o <= m < self.num_orders()
        &&& forall|p: int| o <= p < m ==> #[trigger] self.free(p, buddy_of(anc(idx, (p - o) as nat)))
        &&& m + 1 == self.num_orders() || !self.free(m, buddy_of(anc(idx, (m - o) as nat)))
        &&& after.wf()
        &&& after.usable_frames == self.usable_frames
        &&& after.usable_frames_base == self.usable_frames_base
        &&& after.num_orders() == self.num_orders()
        &&& forall|p: int, i: int|
            #[trigger] after.free(p, i) == if p == m && i == anc(idx, (m - o) as nat) {
                true
            } else if o <= p < m && (i == anc(idx, (p - o) as nat) || i == buddy_of(
                anc(idx, (p - o) as nat),
            )) {
                false
            } else {
                self.free(p, i)
            }
        &&& forall|p: int, i: int|
            #[trigger] after.allocated(p, i) == (self.allocated(p, i) && !(p == o && i == idx))
    }

    /// Some block of order `o` is free.
    pub open spec fn has_free(&self, o: int) -> bool {
        exists|i: int| #[trigger] self.free(o, i)
    }

    /// The count of an order is positive exactly when a block of that order is free.
    pub proof fn lemma_count_iff(&self, o: int)
        requires
            self.wf(),
            0 <= o < ORDERS,
        ensures
            self.counts@.len() == ORDERS,
            (self.counts@[o] > 0) == self.has_free(o),
    {
        if o < self.num_orders() {
            assert(self.order_wf(o));
            let bits = self.bitmaps@[o].free_bits();
            lemma_count_positive(bits);
            if self.has_free(o) {
                let i = choose|i: int| #[trigger] self.free(o, i);
                assert(bits[i]);
            }
            if self.counts@[o] > 0 {
                let i = choose|i: int| 0 <= i < bits.len() && #[trigger] bits[i];
                assert(self.free(o, i));
            }
        }
    }

    /// A well-formed region's usable frames end within the address space.
    pub proof fn lemma_bounds(&self)
        requires
            self.wf(),
        ensures
            FRAME_SIZE >= 1,
            self.num_orders() < ORDERS,
            self.counts@.len() == ORDERS,
            self.usable_frames_base + self.usable_frames * FRAME_SIZE <= usize::MAX,
    {
    }

    /// Every marked block lies inside the usable frames: block `i` of order `o` covers
    /// frames `i * 2^o` up to `(i + 1) * 2^o`.
    pub proof fn lemma_marked_in_usable(&self, o: int, i: int)
        requires
            self.wf(),
            self.marked(o, i),
        ensures
            0 <= i,
            (i + 1) * pow2(o as nat) <= self.usable_frames,
    {
        let u = self.usable_frames as nat;
        assert(i < blocks_at(u, o as nat));
        lemma_blocks_at_bound(u, o as nat);
        crate::buddy_math::lemma_pow2_step(o as nat);
        let b = blocks_at(u, o as nat) as int;
        assert((i + 1) * pow2(o as nat) <= b * pow2(o as nat)) by (nonlinear_arith)
            requires
                i + 1 <= b,
        ;
    }

    /// No two marked blocks share a frame: free and allocated blocks never overlap.
    pub proof fn lemma_marked_apart(&self, o: int, i: int, p: int, j: int)
        requires
            self.wf(),
            self.marked(o, i),
            self.marked(p, j),
            o != p || i != j,
        ensures
            (i + 1) * pow2(o as nat) <= j * pow2(p as nat) || (j + 1) * pow2(p as nat) <= i * pow2(
                o as nat,
            ),
    {
        crate::buddy_math::lemma_pow2_step(o as nat);
        crate::buddy_math::lemma_pow2_step(p as nat);
        let m = self.marks();
        assert(m(o, i) && m(p, j));
        if o == p {
            let q = pow2(o as nat) as int;
            if i < j {
                assert((i + 1) * q <= j * q) by (nonlinear_arith)
                    requires
                        i + 1 <= j,
                        q >= 1,
                ;
            } else {
                assert((j + 1) * q <= i * q) by (nonlinear_arith)
                    requires
                        j + 1 <= i,
                        q >= 1,
                ;
            }
        } else if o < p {
            assert(anc(i, (p - o) as nat) != j);
            crate::buddy_math::lemma_blocks_apart(o as nat, i, p as nat, j);
        } else {
            assert(anc(j, (o - p) as nat) != i);
            crate::buddy_math::lemma_blocks_apart(p as nat, j, o as nat, i);
        }
    }

    /// Free blocks are merged as far as they go: below the top order, no free block has
    /// a free buddy.
    pub open spec fn merged(&self) -> bool {
        forall|o: int, i: int|
            0 <= o < self.num_orders() - 1 && #[trigger] self.free(o, i) ==> !self.free(o, buddy_of(i))
    }

    /// A fresh region is merged.
    pub proof fn lemma_fresh_merged(&self, base: int, frames: int)
        requires
            self.fresh(base, frames),
        ensures
            self.merged(),
    {
        let u = self.usable_frames as nat;
        let l = self.num_orders();
        assert forall|o: int, i: int| 0 <= o < l - 1 && #[trigger] self.free(o, i) implies !self.free(o, buddy_of(i)) by {
            assert(initially_free(u, l, o, i));
            assert(blocks_at(u, (o + 1) as nat) == blocks_at(u, o as nat) / 2);
            if self.free(o, buddy_of(i)) {
                assert(initially_free(u, l, o, buddy_of(i)));
            }
        }
    }

    /// An allocation keeps a merged region merged.
    pub proof fn lemma_alloc_keeps_merged(&self, after: Self, order: int, split: int)
        requires
            self.wf(),
            self.merged(),
            self.alloc_outcome(after, order, split),
        ensures
            after.merged(),
    {
        reveal(Region::alloc_outcome);
        let j = self.lowest_free(split);
        let l = self.num_orders();
        assert forall|o: int, i: int| 0 <= o < l - 1 && #[trigger] after.free(o, i) implies !after.free(o, buddy_of(i)) by {
            let b = buddy_of(i);
            assert(buddy_of(b) == i);
            self.lemma_marked_in_orders(split, j);
            if order <= o < split {
                lemma_scaled_even(j, (split - o) as nat);
                let a = j * pow2((split - o) as nat);
                if i == a + 1 {
                    assert(b == a);
                    assert(!self.free(o, a));
                } else if after.free(o, b) {
                    if b == a + 1 {
                        assert(i == a);
                    }
                    assert(!self.free(o, i));
                }
            } else if after.free(o, b) {
                assert(self.free(o, i));
                assert(self.free(o, b));
            }
        }
    }

    /// A release keeps a merged region merged.
    pub proof fn lemma_dealloc_keeps_merged(&self, after: Self, f: int, o: int, m: int)
        requires
            self.wf(),
            self.merged(),
            self.dealloc_outcome(after, f, o, m),
        ensures
            after.merged(),
    {
        reveal(Region::dealloc_outcome);
        let idx = anc(f, o as nat);
        let l = self.num_orders();
        let top = anc(idx, (m - o) as nat);
        assert forall|p: int, i: int| 0 <= p < l - 1 && #[trigger] after.free(p, i) implies !after.free(p, buddy_of(i)) by {
            let b = buddy_of(i);
            assert(buddy_of(b) == i);
            if p == m && i == top {
                assert(!self.free(m, b));
            } else if after.free(p, b) {
                assert(self.free(p, i));
                if p == m && b == top {
                    assert(!self.free(m, buddy_of(top)));
                } else {
                    assert(self.free(p, b));
                }
            }
        }
    }

    /// The release of the frame an allocation just handed out starts at the allocation's
    /// order.
    proof fn lemma_roundtrip_start(&self, mid: Self, after: Self, order: int, split: int, f: int, o: int, m: int)
        requires
            self.wf(),
            0 <= order,
            self.alloc_outcome(mid, order, split),
            f == self.alloc_index(order, split) * pow2(order as nat),
            mid.dealloc_outcome(after, f, o, m),
        ensures
            o == order,
            self.alloc_index(order, split) >= 0,
            anc(f, order as nat) == self.alloc_index(order, split),
    {
        reveal(Region::alloc_outcome);
        reveal(Region::dealloc_outcome);
        let j = self.lowest_free(split);
        let idx = self.alloc_index(order, split);
        self.lemma_marked_in_orders(split, j);
        lemma_pow2_step(order as nat);
        lemma_pow2_step((split - order) as nat);
        assert(idx >= 0) by (nonlinear_arith)
            requires
                j >= 0,
                idx == j * pow2((split - order) as nat),
        ;
        lemma_anc_scaled(idx, order as nat, order as nat);
        assert(pow2(0) == 1) by {
            assert(crate::util::pow(2, 0) == 1);
        }
        let z = pow2((order - order) as nat) as int;
        assert(z == 1);
        assert(idx * z == idx) by (nonlinear_arith)
            requires
                z == 1,
        ;
        assert(anc(f, order as nat) == idx);
        assert(mid.allocated(order, idx));
        assert(f >= 0) by (nonlinear_arith)
            requires
                idx >= 0,
                f == idx * pow2(order as nat),
        ;
        if o < order {
            let below = anc(f, o as nat);
            assert(mid.allocated(o, below));
            crate::buddy_math::lemma_anc_add(f, o as nat, (order - o) as nat);
            assert(anc(below, (order - o) as nat) == idx);
            crate::buddy_math::lemma_anc_nonneg(f, o as nat);
            assert(mid.marks()(o, below) && mid.marks()(order, idx));
            assert(false);
        }
    }

    /// The release of the block an allocation just handed out merges back up to the order
    /// it was split from.
    proof fn lemma_roundtrip_top(&self, mid: Self, after: Self, order: int, split: int, f: int, m: int)
        requires
            self.wf(),
            self.merged(),
            0 <= order,
            self.alloc_index(order, split) >= 0,
            self.alloc_outcome(mid, order, split),
            anc(f, order as nat) == self.alloc_index(order, split),
            mid.dealloc_outcome(after, f, order, m),
        ensures
            m == split,
            forall|p: int| order <= p < split ==> #[trigger] anc(self.alloc_index(order, split), (p - order) as nat)
                == self.lowest_free(split) * pow2((split - p) as nat),
            anc(self.alloc_index(order, split), (split - order) as nat) == self.lowest_free(split),
    {
        reveal(Region::alloc_outcome);
        reveal(Region::dealloc_outcome);
        let j = self.lowest_free(split);
        let idx = self.alloc_index(order, split);
        self.lemma_marked_in_orders(split, j);
        lemma_split_path(j, order, split, idx);
        if m < split {
            assert(mid.free(m, buddy_of(anc(idx, (m - order) as nat))));
        }
        if m > split {
            assert(mid.free(split, buddy_of(j)));
            assert(buddy_of(j) != j);
            assert(self.free(split, buddy_of(j)));
        }
    }

    /// Releasing the block an allocation just handed out undoes the allocation: in a
    /// merged region, every block is free or allocated exactly as before the allocation.
    pub proof fn lemma_alloc_dealloc_roundtrip(
        &self,
        mid: Self,
        after: Self,
        order: int,
        split: int,
        f: int,
        o: int,
        m: int,
    )
        requires
            self.wf(),
            self.merged(),
            0 <= order,
            self.alloc_outcome(mid, order, split),
            f == self.alloc_index(order, split) * pow2(order as nat),
            mid.dealloc_outcome(after, f, o, m),
        ensures
            o == order,
            m == split,
            forall|p: int, i: int| #[trigger] after.free(p, i) == self.free(p, i),
            forall|p: int, i: int| #[trigger] after.allocated(p, i) == self.allocated(p, i),
    {
        self.lemma_roundtrip_start(mid, after, order, split, f, o, m);
        self.lemma_roundtrip_top(mid, after, order, split, f, m);
        reveal(Region::alloc_outcome);
        reveal(Region::dealloc_outcome);
        let j = self.lowest_free(split);
        let idx = self.alloc_index(order, split);
        // Before the allocation, block `idx` was not allocated.
        if self.allocated(order, idx) {
            if order == split {
                assert(self.free(split, j));
            } else {
                assert(self.marks()(order, idx) && self.marks()(split, j));
            }
        }
        assert forall|p: int, i: int| #[trigger] after.free(p, i) == self.free(p, i) by {
            if order <= p < split {
                let a = j * pow2((split - p) as nat);
                assert(anc(idx, (p - order) as nat) == a);
                lemma_scaled_even(j, (split - p) as nat);
            }
        }
    }

    /// What an allocation does to the block it hands out: the block, which was not
    /// allocated, now is, inside the same usable frames; nothing allocated stops being so.
    pub proof fn lemma_alloc_facts(&self, after: Self, order: int, split: int)
        requires
            self.wf(),
            0 <= order,
            self.alloc_outcome(after, order, split),
        ensures
            0 <= order <= split < self.num_orders(),
            after.wf(),
            after.usable_frames == self.usable_frames,
            after.usable_frames_base == self.usable_frames_base,
            self.alloc_index(order, split) >= 0,
            after.allocated(order, self.alloc_index(order, split)),
            !self.allocated(order, self.alloc_index(order, split)),
            forall|p: int, j: int| #[trigger] self.allocated(p, j) ==> after.allocated(p, j),
    {
        reveal(Region::alloc_outcome);
        let j = self.lowest_free(split);
        let idx = self.alloc_index(order, split);
        self.lemma_marked_in_orders(split, j);
        lemma_pow2_step((split - order) as nat);
        assert(idx >= 0) by (nonlinear_arith)
            requires
                j >= 0,
                idx == j * pow2((split - order) as nat),
        ;
        lemma_split_path(j, order, split, idx);
        if self.allocated(order, idx) {
            self.lemma_marked_in_orders(order, idx);
            if order == split {
                assert(anc(idx, 0) == idx);
                assert(self.free(split, j));
            } else {
                assert(self.marks()(order, idx) && self.marks()(split, j));
            }
        }
    }

    /// Blocks that the bitmap of order `o` describes.
    pub closed spec fn order_blocks(&self, o: int) -> int {
        self.bitmaps@[o].free_bits().len() as int
    }

    /// The count kept for order `o` is the number of free blocks of that order, all of
    /// which the order's bitmap describes.
    pub proof fn lemma_counts_are_free_blocks(&self, o: int)
        requires
            self.wf(),
            0 <= o < self.num_orders(),
        ensures
            self.counts@[o] == count_set(Seq::new(self.order_blocks(o) as nat, |i: int| self.free(o, i))),
            forall|i: int| #[trigger] self.free(o, i) ==> 0 <= i < self.order_blocks(o),
    {
        assert(self.order_wf(o));
        assert(Seq::new(self.order_blocks(o) as nat, |i: int| self.free(o, i)) =~= self.bitmaps@[o].free_bits());
    }

    /// Frames in the free blocks of the orders below `n`, counted from the per-order
    /// counts of free blocks.
    pub closed spec fn free_frames_below(&self, n: int) -> int
        decreases n,
    {
        if n <= 0 {
            0
        } else {
            self.free_frames_below(n - 1) + self.counts@[n - 1] * pow2((n - 1) as nat)
        }
    }

    /// Frames in the free blocks of every order, counted from the per-order counts.
    pub closed spec fn free_frames(&self) -> int {
        self.free_frames_below(self.num_orders())
    }

    /// How an allocation changes the count of free blocks of order `o`: one more for each
    /// order from `order` below `split`, one less at `split`.
    proof fn lemma_alloc_count(&self, after: Self, order: int, split: int, o: int)
        requires
            self.wf(),
            0 <= order,
            self.alloc_outcome(after, order, split),
            0 <= o < self.num_orders(),
        ensures
            after.counts@[o] == self.counts@[o] + if order <= o < split {
                1int
            } else if o == split {
                -1int
            } else {
                0int
            },
    {
        reveal(Region::alloc_outcome);
        self.lemma_alloc_facts(after, order, split);
        let j = self.lowest_free(split);
        let idx = self.alloc_index(order, split);
        assert(self.order_wf(o));
        assert(after.order_wf(o));
        let s = self.bitmaps@[o].free_bits();
        let t = after.bitmaps@[o].free_bits();
        assert(forall|i: int| #[trigger] self.free(o, i) == (0 <= i < s.len() && s[i]));
        assert(forall|i: int| #[trigger] after.free(o, i) == (0 <= i < t.len() && t[i]));
        self.lemma_marked_in_orders(split, j);
        if order <= o < split {
            let k = j * pow2((split - o) as nat) + 1;
            lemma_pow2_step((split - o) as nat);
            assert(k >= 1) by (nonlinear_arith)
                requires
                    j >= 0,
                    pow2((split - o) as nat) >= 1,
                    k == j * pow2((split - o) as nat) + 1,
            ;
            assert forall|i: int| 0 <= i < s.len() implies !#[trigger] s[i] by {
                assert(!self.free(o, i));
            }
            lemma_count_none(s);
            if o == order {
                assert(idx == j * pow2((split - order) as nat));
                assert(idx != k);
            }
            let single = Seq::new((k + 1) as nat, |i: int| i == k);
            assert forall|i: int| ((0 <= i < t.len() && t[i]) == (0 <= i < single.len() && single[i])) by {
                assert(after.free(o, i) == (i == k));
            }
            lemma_count_agree(t, single);
            lemma_count_single(k);
        } else if o == split {
            if order == split {
                assert(pow2(0) == 1) by {
                    assert(crate::util::pow(2, 0) == 1);
                }
                assert((split - order) as nat == 0nat);
                assert(idx == j * 1);
                assert(idx == j);
            }
            let u = s.update(j, false);
            assert forall|i: int| ((0 <= i < t.len() && t[i]) == (0 <= i < u.len() && u[i])) by {
                assert(after.free(o, i) == (i != j && self.free(o, i)));
            }
            lemma_count_agree(t, u);
            lemma_count_update(s, j, false);
        } else {
            assert forall|i: int| ((0 <= i < t.len() && t[i]) == (0 <= i < s.len() && s[i])) by {
                assert(after.free(o, i) == self.free(o, i));
            }
            lemma_count_agree(t, s);
        }
    }

    /// The free frames below `m` after an allocation, against before.
    proof fn lemma_alloc_frames_below(&self, after: Self, order: int, split: int, m: int)
        requires
            self.wf(),
            0 <= order,
            self.alloc_outcome(after, order, split),
            0 <= m <= self.num_orders(),
        ensures
            after.free_frames_below(m) == self.free_frames_below(m) + if m <= order {
                0int
            } else if m <= split {
                pow2(m as nat) - pow2(order as nat)
            } else {
                -pow2(order as nat)
            },
        decreases m,
    {
        self.lemma_alloc_facts(after, order, split);
        if m > 0 {
            let o = m - 1;
            self.lemma_alloc_frames_below(after, order, split, o);
            self.lemma_alloc_count(after, order, split, o);
            lemma_pow2_step(o as nat);
            let p = pow2(o as nat);
            let a = after.counts@[o] as int;
            let b = self.counts@[o] as int;
            assert(a * p == b * p + (a - b) * p) by (nonlinear_arith);
            if order <= o < split {
                assert((a - b) * p == p) by (nonlinear_arith)
                    requires
                        a - b == 1,
                ;
            } else if o == split {
                assert((a - b) * p == -p) by (nonlinear_arith)
                    requires
                        a - b == -1,
                ;
            } else {
                assert((a - b) * p == 0) by (nonlinear_arith)
                    requires
                        a - b == 0,
                ;
            }
        }
    }

    /// An allocation of order `order` takes exactly `2^order` frames out of the free
    /// blocks: the free frames counted from the per-order counts drop by that much.
    pub proof fn lemma_alloc_takes_frames(&self, after: Self, order: int, split: int)
        requires
            self.wf(),
            0 <= order,
            self.alloc_outcome(after, order, split),
        ensures
            after.free_frames() == self.free_frames() - pow2(order as nat),
    {
        reveal(Region::alloc_outcome);
        self.lemma_alloc_facts(after, order, split);
        self.lemma_alloc_frames_below(after, order, split, self.num_orders());
        assert(after.num_orders() == self.num_orders());
    }

    /// The block of order `p >= o` holding an allocated block of order `o` is not free.
    proof fn lemma_above_allocated_not_free(&self, o: int, idx: int, p: int)
        requires
            self.wf(),
            self.allocated(o, idx),
            o <= p,
        ensures
            !self.free(p, anc(idx, (p - o) as nat)),
    {
        if p == o {
            assert(anc(idx, 0) == idx);
            assert(self.wf_shape());
        } else if self.free(p, anc(idx, (p - o) as nat)) {
            let mk = self.marks();
            assert(mk(o, idx) && mk(p, anc(idx, (p - o) as nat)));
            assert(disjoint(mk, self.num_orders()));
        }
    }

    /// How a release changes the count of free blocks of order `p`: one less for each
    /// order from the released block's below the merge order, one more at the merge order.
    proof fn lemma_dealloc_count(&self, after: Self, f: int, o: int, m: int, p: int)
        requires
            self.wf(),
            self.dealloc_outcome(after, f, o, m),
            0 <= p < self.num_orders(),
        ensures
            after.counts@[p] == self.counts@[p] + if o <= p < m {
                -1int
            } else if p == m {
                1int
            } else {
                0int
            },
    {
        reveal(Region::dealloc_outcome);
        let idx = anc(f, o as nat);
        assert(self.order_wf(p));
        assert(after.order_wf(p));
        let s = self.bitmaps@[p].free_bits();
        let t = after.bitmaps@[p].free_bits();
        assert(forall|i: int| #[trigger] self.free(p, i) == (0 <= i < s.len() && s[i]));
        assert(forall|i: int| #[trigger] after.free(p, i) == (0 <= i < t.len() && t[i]));
        assert(idx >= 0);
        if o <= p < m {
            let a = anc(idx, (p - o) as nat);
            let b = buddy_of(a);
            self.lemma_above_allocated_not_free(o, idx, p);
            assert(self.free(p, b));
            let u = s.update(b, false);
            assert forall|i: int| ((0 <= i < t.len() && t[i]) == (0 <= i < u.len() && u[i])) by {
                assert(after.free(p, i) == (self.free(p, i) && i != a && i != b));
            }
            lemma_count_agree(t, u);
            lemma_count_update(s, b, false);
        } else if p == m {
            let a = anc(idx, (m - o) as nat);
            self.lemma_above_allocated_not_free(o, idx, m);
            crate::buddy_math::lemma_anc_nonneg(idx, (m - o) as nat);
            assert forall|i: int| #[trigger] crate::buddy_math::set_with(s, t, a, i) by {
                assert(after.free(p, i) == (i == a || self.free(p, i)));
                assert(after.free(p, i) == (0 <= i < t.len() && t[i]));
                assert(self.free(p, i) == (0 <= i < s.len() && s[i]));
            }
            assert(!(a < s.len() && s[a])) by {
                assert(!self.free(p, a));
            }
            lemma_count_insert(s, t, a);
        } else {
            assert forall|i: int| ((0 <= i < t.len() && t[i]) == (0 <= i < s.len() && s[i])) by {
                assert(after.free(p, i) == self.free(p, i));
            }
            lemma_count_agree(t, s);
        }
    }

    /// The free frames below `n` after a release, against before.
    proof fn lemma_dealloc_frames_below(&self, after: Self, f: int, o: int, m: int, n: int)
        requires
            self.wf(),
            self.dealloc_outcome(after, f, o, m),
            0 <= n <= self.num_orders(),
        ensures
            after.free_frames_below(n) == self.free_frames_below(n) + if n <= o {
                0int
            } else if n <= m {
                pow2(o as nat) - pow2(n as nat)
            } else {
                pow2(o as nat) as int
            },
        decreases n,
    {
        reveal(Region::dealloc_outcome);
        if n > 0 {
            let p = n - 1;
            self.lemma_dealloc_frames_below(after, f, o, m, p);
            self.lemma_dealloc_count(after, f, o, m, p);
            lemma_pow2_step(p as nat);
            let q = pow2(p as nat);
            let a = after.counts@[p] as int;
            let b = self.counts@[p] as int;
            assert(a * q == b * q + (a - b) * q) by (nonlinear_arith);
            if o <= p < m {
                assert((a - b) * q == -q) by (nonlinear_arith)
                    requires
                        a - b == -1,
                ;
            } else if p == m {
                assert((a - b) * q == q) by (nonlinear_arith)
                    requires
                        a - b == 1,
                ;
            } else {
                assert((a - b) * q == 0) by (nonlinear_arith)
                    requires
                        a - b == 0,
                ;
            }
        }
    }

    /// Releasing a block of order `o` gives back exactly `2^o` frames to the free blocks,
    /// however far it merges: the free frames counted from the per-order counts grow by that
    /// much.
    pub proof fn lemma_dealloc_returns_frames(&self, after: Self, f: int, o: int, m: int)
        requires
            self.wf(),
            self.dealloc_outcome(after, f, o, m),
        ensures
            after.free_frames() == self.free_frames() + pow2(o as nat),
    {
        reveal(Region::dealloc_outcome);
        self.lemma_dealloc_frames_below(after, f, o, m, self.num_orders());
    }

    /// What an allocation of `order` that split a block of order `split` guarantees: the
    /// block handed out starts a whole number of its own sizes into the usable frames, the
    /// free frames drop by its size, the region stays well formed (and merged, when it
    /// was), and the block shares no frame with any other block still marked.
    pub proof fn lemma_allocation_law(&self, after: Self, order: int, split: int)
        requires
            self.wf(),
            0 <= order,
            self.alloc_outcome(after, order, split),
        ensures
            order <= split < self.num_orders(),
            (self.block_addr(order, self.alloc_index(order, split)) - self.usable_frames_base) % (pow2(order as nat)
                * FRAME_SIZE) as int == 0,
            after.free_frames() == self.free_frames() - pow2(order as nat),
            after.wf(),
            self.merged() ==> after.merged(),
            forall|p: int, j: int|
                #[trigger] after.marked(p, j) && !(p == order && j == self.alloc_index(order, split)) ==> {
                    let idx = self.alloc_index(order, split);
                    (idx + 1) * pow2(order as nat) <= j * pow2(p as nat) || (j + 1) * pow2(p as nat) <= idx * pow2(
                        order as nat,
                    )
                },
    {
        self.lemma_alloc_facts(after, order, split);
        self.lemma_alloc_takes_frames(after, order, split);
        if self.merged() {
            self.lemma_alloc_keeps_merged(after, order, split);
        }
        let idx = self.alloc_index(order, split);
        let size = pow2(order as nat) * FRAME_SIZE;
        lemma_pow2_step(order as nat);
        assert(idx * pow2(order as nat) * FRAME_SIZE == idx * size) by (nonlinear_arith)
            requires
                size == pow2(order as nat) * FRAME_SIZE,
        ;
        assert(size > 0) by (nonlinear_arith)
            requires
                size == pow2(order as nat) * FRAME_SIZE,
                pow2(order as nat) >= 1,
                FRAME_SIZE >= 1,
        ;
        vstd::arithmetic::div_mod::lemma_mod_multiples_basic(idx, size as int);
        assert forall|p: int, j: int| #[trigger] after.marked(p, j) && !(p == order && j == idx) implies (idx + 1)
            * pow2(order as nat) <= j * pow2(p as nat) || (j + 1) * pow2(p as nat) <= idx * pow2(order as nat) by {
            assert(after.marked(order, idx));
            after.lemma_marked_apart(order, idx, p, j);
        }
    }

    /// Marked blocks only exist below the number of orders.
    pub proof fn lemma_marked_in_orders(&self, o: int, i: int)
        requires
            self.marked(o, i),
        ensures
            0 <= o < self.num_orders(),
            0 <= i,
    {
    }

    /// Free blocks only exist below the number of orders.
    pub proof fn lemma_free_in_orders(&self, o: int, i: int)
        requires
            self.free(o, i),
        ensures
            0 <= o < self.num_orders(),
            0 <= i,
    {
    }

    /// The marked blocks together with one extra block `(vo, vi)` that is being split.
    spec fn marks_with(&self, vo: int, vi: int) -> spec_fn(int, int) -> bool {
        |o: int, i: int| self.marked(o, i) || (o == vo && i == vi)
    }

    /// Index of the lowest free block of order `o`.
    pub closed spec fn lowest_free(&self, o: int) -> int {
        choose|j: int| self.free(o, j) && forall|k: int| 0 <= k < j ==> !#[trigger] self.free(o, k)
    }

    /// The lowest free block of an order is unique.
    proof fn lemma_lowest_free(&self, o: int, j: int)
        requires
            self.free(o, j),
            forall|k: int| 0 <= k < j ==> !#[trigger] self.free(o, k),
        ensures
            self.lowest_free(o) == j,
    {
        let c = self.lowest_free(o);
        assert(self.free(o, c) && forall|k: int| 0 <= k < c ==> !#[trigger] self.free(o, k));
        if c < j {
            assert(c >= 0);
            assert(!self.free(o, c));
        }
        if j < c {
            assert(!self.free(o, j));
        }
    }

    /// Disjointness only depends on which blocks are marked.
    proof fn lemma_disjoint_ext(m: spec_fn(int, int) -> bool, n: spec_fn(int, int) -> bool, l: int)
        requires
            disjoint(m, l),
            forall|o: int, i: int| #[trigger] n(o, i) == m(o, i),
        ensures
            disjoint(n, l),
    {
        assert forall|o: int, i: int, p: int, j: int|
            #![trigger n(o, i), n(p, j)]
            0 <= o < p < l && 0 <= i && n(o, i) && n(p, j) implies anc(i, (p - o) as nat) != j by {
            assert(m(o, i) && m(p, j));
        }
    }

    /// `2^o` as a machine integer.
    fn pow2_exec(o: usize) -> (r: usize)
        requires
            pow2(o as nat) <= usize::MAX,
        ensures
            r == pow2(o as nat),
    {
        let mut p: usize = 1;
        let mut k: usize = 0;
        while k < o
            invariant
                k <= o,
                p == pow2(k as nat),
                pow2(o as nat) <= usize::MAX,
            decreases o - k,
        {
            proof {
                lemma_pow2_step(k as nat);
                crate::util::lemma_pow_grows(2, (k + 1) as nat, o as nat);
            }
            p = p * 2;
            k = k + 1;
        }
        p
    }

    /// Address of block `index` of order `order`.
    fn addr_from_order_and_index(&self, order: usize, index: usize) -> (r: usize)
        requires
            self.wf(),
            index < blocks_at(self.usable_frames as nat, order as nat),
        ensures
            r == self.block_addr(order as int, index as int),
    {
        proof {
            let u = self.usable_frames as nat;
            lemma_blocks_at_bound(u, order as nat);
            lemma_pow2_step(order as nat);
            let p = pow2(order as nat);
            let b = blocks_at(u, order as nat);
            assert((index + 1) * p <= b * p) by (nonlinear_arith)
                requires
                    index + 1 <= b,
                    p >= 1,
            ;
            assert(p <= u) by (nonlinear_arith)
                requires
                    (index + 1) * p <= u,
                    p >= 1,
            ;
            assert(index * p * FRAME_SIZE <= u * FRAME_SIZE) by (nonlinear_arith)
                requires
                    (index + 1) * p <= u,
                    p >= 1,
                    FRAME_SIZE >= 1,
            ;
            assert(index * p <= u) by (nonlinear_arith)
                requires
                    (index + 1) * p <= u,
                    p >= 1,
            ;
        }
        let p = Self::pow2_exec(order);
        self.usable_frames_base + index * p * FRAME_SIZE
    }

    /// Allocates a block of `2^order` frames: the lowest free block of that order, or else
    /// the lowest free block of the next order up that has one, split down to `order`.
    /// There is nothing to allocate when the region keeps no bitmap for `order`.
    pub fn allocate(&mut self, order: usize) -> (r: Option<RegionAllocation>)
        requires
            old(self).wf(),
            order < old(self).num_orders() ==> exists|o: int, i: int|
                order <= o < old(self).num_orders() && #[trigger] old(self).free(o, i),
        ensures
            final(self).wf(),
            final(self).usable_frames == old(self).usable_frames,
            final(self).usable_frames_base == old(self).usable_frames_base,
            final(self).num_orders() == old(self).num_orders(),
            order >= old(self).num_orders() ==> r.is_none() && *final(self) == *old(self),
            order < old(self).num_orders() ==> r is Some,
            r matches Some(a) ==> {
                &&& a.allocated_order == order
                &&& old(self).alloc_outcome(*final(self), order as int, a.split_order as int)
                &&& a.addr == old(self).block_addr(
                    order as int,
                    old(self).alloc_index(order as int, a.split_order as int),
                )
            },
    {
        proof {
            reveal(Region::alloc_outcome);
        }
        let ghost l = self.num_orders();
        let ghost u = self.usable_frames as nat;
        if order >= self.bitmaps.len() {
            return None;
        }
        // Try to allocate from exact order
        proof {
            assert(self.order_wf(order as int));
        }
        let found = self.bitmaps[order].find_first_free_index_h();
        if let Some(index) = found {
            proof {
                assert(self.free(order as int, index as int));
                assert forall|k: int| 0 <= k < index implies !#[trigger] self.free(order as int, k) by {
                }
                self.lemma_lowest_free(order as int, index as int);
                assert(self.marked(order as int, index as int));
                assert(pow2(0) == 1) by {
                    assert(crate::util::pow(2, 0) == 1);
                }
                assert(index * pow2(0) == index);
            }
            let addr = self.addr_from_order_and_index(order, index);
            self.take_free_block(order, index);
            return Some(RegionAllocation { addr, allocated_order: order, split_order: order });
        }
        // If no match was found, search upward and split
        let mut cur_order = order + 1;
        while cur_order < self.bitmaps.len()
            invariant
                self.wf(),
                *self == *old(self),
                order < cur_order <= l,
                l == self.num_orders(),
                u == self.usable_frames,
                forall|o: int, i: int| order <= o < cur_order ==> !#[trigger] self.free(o, i),
            decreases l - cur_order,
        {
            proof {
                assert(self.order_wf(cur_order as int));
            }
            let found = self.bitmaps[cur_order].find_first_free_index_h();
            if let Some(index) = found {
                proof {
                    assert(self.free(cur_order as int, index as int));
                    assert forall|k: int| 0 <= k < index implies !#[trigger] self.free(cur_order as int, k) by {
                    }
                    self.lemma_lowest_free(cur_order as int, index as int);
                }
                let ghost before = *self;
                proof {
                    reveal(Region::alloc_outcome);
                }
                let index = self.split(cur_order, index, order);
                let addr = self.addr_from_order_and_index(order, index);
                self.take_free_block(order, index);
                return Some(RegionAllocation { addr, allocated_order: order, split_order: cur_order });
            }
            proof {
                assert forall|i: int| !#[trigger] self.free(cur_order as int, i) by {
                    if self.free(cur_order as int, i) {
                        assert(self.bitmaps@[cur_order as int].free_bits()[i]);
                    }
                }
            }
            cur_order = cur_order + 1;
        }
        proof {
            let (o, i) = choose|o: int, i: int| order <= o < l && #[trigger] self.free(o, i);
            assert(!self.free(o, i));
        }
        None
    }

    /// Releases the allocated block that contains `addr`: the lowest order whose block
    /// around `addr` is allocated is searched for (the caller's `_order` is not needed),
    /// the block becomes free, and it is merged with its buddy as long as both are free.
    /// Nothing happens when no allocated block contains `addr`.
    pub fn deallocate(&mut self, _order: usize, addr: usize) -> (r: Option<RegionDeallocation>)
        requires
            old(self).wf(),
            addr >= old(self).usable_frames_base,
        ensures
            final(self).wf(),
            final(self).usable_frames == old(self).usable_frames,
            final(self).usable_frames_base == old(self).usable_frames_base,
            final(self).num_orders() == old(self).num_orders(),
            ({
                let f = (addr - old(self).usable_frames_base) / (FRAME_SIZE as int);
                &&& r is None <==> forall|o: int|
                    0 <= o < old(self).num_orders() ==> !#[trigger] old(self).allocated(
                        o,
                        anc(f, o as nat),
                    )
                &&& r is None ==> *final(self) == *old(self)
                &&& r matches Some(d) ==> old(self).dealloc_outcome(
                    *final(self),
                    f,
                    d.deallocated_order as int,
                    d.merge_order as int,
                )
            }),
    {
        proof {
            reveal(Region::dealloc_outcome);
        }
        let ghost l = self.num_orders();
        let ghost u = self.usable_frames as nat;
        let (order, index) = match self.index_from_addr(addr) {
            Some(res) => res,
            None => {
                // No allocated block contains `addr`.
                return None;
            },
        };
        proof {
            assert(self.order_wf(order as int));
            self.bitmaps@[order as int].lemma_lengths();
            assert(!self.free(order as int, index as int));
            let bits = self.bitmaps@[order as int].free_bits();
            lemma_count_update(bits, index as int, true);
            lemma_count_bound(bits.update(index as int, true));
        }
        self.bitmaps[order].set_free_bit(index);
        self.bitmaps[order].clear_alloc_bit(index);
        self.counts[order] = self.counts[order] + 1;
        proof {
            let prev = *old(self);
            assert forall|p: int, i: int| #[trigger] self.free(p, i) == (prev.free(p, i) || (p == order && i == index)) by {
                if 0 <= p < l && p != order {
                    assert(self.bitmaps@[p] == prev.bitmaps@[p]);
                }
            }
            assert forall|p: int, i: int| #[trigger] self.allocated(p, i) == (prev.allocated(p, i) && !(p == order && i == index)) by {
                if 0 <= p < l && p != order {
                    assert(self.bitmaps@[p] == prev.bitmaps@[p]);
                }
            }
            assert forall|p: int, i: int| #[trigger] self.marked(p, i) == prev.marked(p, i) by {
                assert(self.free(p, i) == (prev.free(p, i) || (p == order && i == index)));
                assert(self.allocated(p, i) == (prev.allocated(p, i) && !(p == order && i == index)));
            }
            assert forall|p: int| 0 <= p < l implies #[trigger] self.order_wf(p) by {
                assert(prev.order_wf(p));
            }
            assert forall|p: int, i: int| #[trigger] self.marked(p, i) implies i < blocks_at(u, p as nat) by {
                assert(prev.marked(p, i));
            }
            assert forall|p: int, i: int| !(#[trigger] self.free(p, i) && self.allocated(p, i)) by {
                assert(!(prev.free(p, i) && prev.allocated(p, i)));
            }
            Self::lemma_disjoint_ext(prev.marks(), self.marks(), l);
        }
        let ghost s0 = *self;
        let merge_order = self.merge(order, index);
        proof {
            let o = order as int;
            let idx = index as int;
            let m = merge_order as int;
            assert(anc(idx, 0) == idx);
            assert forall|p: int, i: int|
                #[trigger] self.free(p, i) == if p == m && i == anc(idx, (m - o) as nat) {
                    true
                } else if o <= p < m && (i == anc(idx, (p - o) as nat) || i == buddy_of(
                    anc(idx, (p - o) as nat),
                )) {
                    false
                } else {
                    old(self).free(p, i)
                } by {
                assert(s0.free(p, i) == (old(self).free(p, i) || (p == o && i == idx)));
            }
            assert forall|p: int| o <= p < m implies #[trigger] old(self).free(p, buddy_of(anc(idx, (p - o) as nat))) by {
                assert(s0.free(p, buddy_of(anc(idx, (p - o) as nat))));
                if p == o {
                    assert(buddy_of(idx) != idx);
                }
            }
            if m + 1 != l {
                assert(!s0.free(m, buddy_of(anc(idx, (m - o) as nat))));
                if m == o {
                    assert(buddy_of(idx) != idx);
                }
            }
            assert forall|p: int, i: int|
                #[trigger] self.allocated(p, i) == (old(self).allocated(p, i) && !(p == o && i == idx)) by {
                assert(s0.allocated(p, i) == (old(self).allocated(p, i) && !(p == o && i == idx)));
            }
        }
        Some(RegionDeallocation { deallocated_order: order, merge_order })
    }

    /// Finds the allocated block containing `addr`, from the lowest order up; returns its
    /// order and index.
    pub fn index_from_addr(&self, addr: usize) -> (r: Option<(usize, usize)>)
        requires
            self.wf(),
            addr >= self.usable_frames_base,
        ensures
            ({
                let f = (addr - self.usable_frames_base) / (FRAME_SIZE as int);
                &&& r is None <==> forall|o: int|
                    0 <= o < self.num_orders() ==> !#[trigger] self.allocated(o, anc(f, o as nat))
                &&& r matches Some((o, i)) ==> {
                    &&& i == anc(f, o as nat)
                    &&& self.allocated(o as int, i as int)
                    &&& forall|p: int| 0 <= p < o ==> !#[trigger] self.allocated(p, anc(f, p as nat))
                }
            }),
    {
        let ghost f = (addr - self.usable_frames_base) / (FRAME_SIZE as int);
        let mut index = (addr - self.usable_frames_base) / FRAME_SIZE;
        let mut order: usize = 0;
        proof {
            assert(anc(f, 0) == f);
        }
        while order < self.bitmaps.len()
            invariant
                self.wf(),
                f >= 0,
                f == (addr - self.usable_frames_base) / (FRAME_SIZE as int),
                order <= self.num_orders(),
                index == anc(f, order as nat),
                forall|p: int| 0 <= p < order ==> !#[trigger] self.allocated(p, anc(f, p as nat)),
            decreases self.num_orders() - order,
        {
            proof {
                assert(self.order_wf(order as int));
                self.bitmaps@[order as int].lemma_lengths();
            }
            let bit = self.bitmaps[order].get_alloc_bit(index);
            if let Some(true) = bit {
                proof {
                    assert(self.allocated(order as int, index as int));
                    assert(self.allocated(order as int, anc(f, order as nat)));
                }
                return Some((order, index));
            }
            proof {
                lemma_anc_parent(f, order as nat);
            }
            index = index / 2;
            order = order + 1;
        }
        None
    }

    /// Merges free block `index` of `order` with its buddy, and the result with its buddy,
    /// for as long as both halves are free; returns the order of the final block.
    fn merge(&mut self, order: usize, index: usize) -> (r: usize)
        requires
            old(self).wf(),
            order < old(self).num_orders(),
            old(self).free(order as int, index as int),
        ensures
            final(self).wf(),
            final(self).usable_frames == old(self).usable_frames,
            final(self).usable_frames_base == old(self).usable_frames_base,
            final(self).num_orders() == old(self).num_orders(),
            order <= r < old(self).num_orders(),
            forall|p: int|
                order <= p < r ==> #[trigger] old(self).free(p, buddy_of(anc(index as int, (p - order) as nat))),
            r + 1 == old(self).num_orders() || !old(self).free(
                r as int,
                buddy_of(anc(index as int, (r - order) as nat)),
            ),
            forall|p: int, i: int|
                #[trigger] final(self).free(p, i) == if p == r && i == anc(index as int, (r - order) as nat) {
                    true
                } else if order <= p < r && (i == anc(index as int, (p - order) as nat) || i == buddy_of(
                    anc(index as int, (p - order) as nat),
                )) {
                    false
                } else {
                    old(self).free(p, i)
                },
            forall|p: int, i: int| #[trigger] final(self).allocated(p, i) == old(self).allocated(p, i),
    {
        let ghost l = self.num_orders();
        let ghost u = self.usable_frames as nat;
        let mut o = order;
        let mut idx = index;
        proof {
            assert(anc(index as int, 0) == index);
        }
        while o + 1 < self.bitmaps.len()
            invariant
                self.wf(),
                order <= o < l,
                l == self.num_orders(),
                l == old(self).num_orders(),
                u == self.usable_frames,
                self.usable_frames == old(self).usable_frames,
                self.usable_frames_base == old(self).usable_frames_base,
                idx == anc(index as int, (o - order) as nat),
                self.free(o as int, idx as int),
                forall|p: int|
                    order <= p < o ==> #[trigger] old(self).free(p, buddy_of(anc(index as int, (p - order) as nat))),
                forall|p: int, i: int|
                    #[trigger] self.free(p, i) == if p == o && i == idx {
                        true
                    } else if order <= p < o && (i == anc(index as int, (p - order) as nat) || i
                        == buddy_of(anc(index as int, (p - order) as nat))) {
                        false
                    } else {
                        old(self).free(p, i)
                    },
                forall|p: int, i: int| #[trigger] self.allocated(p, i) == old(self).allocated(p, i),
            decreases l - o,
        {
            let even = idx - idx % 2;
            let buddy_index = even + 1;
            proof {
                assert(self.order_wf(o as int));
                assert(self.marked(o as int, idx as int));
                self.bitmaps@[o as int].lemma_lengths();
            }
            let (a, b) = (self.bitmaps[o].get_free_bit(even), self.bitmaps[o].get_free_bit(buddy_index));
            if let (Some(true), Some(true)) = (a, b) {
                let k = even / 2;
                let ghost prev = *self;
                proof {
                    assert(self.free(o as int, even as int) && self.free(o as int, buddy_index as int));
                    assert(self.marked(o as int, buddy_index as int));
                    assert(buddy_index < blocks_at(u, o as nat));
                    assert(blocks_at(u, (o + 1) as nat) == blocks_at(u, o as nat) / 2);
                    assert(self.order_wf((o + 1) as int));
                    self.bitmaps@[(o + 1) as int].lemma_lengths();
                    // The parent is not marked: it would contain a marked half.
                    lemma_anc_one(even as int);
                    let m = self.marks();
                    if self.marked((o + 1) as int, k as int) {
                        assert(m(o as int, even as int) && m((o + 1) as int, k as int));
                    }
                    let bits = self.bitmaps@[o as int].free_bits();
                    lemma_count_update(bits, even as int, false);
                    lemma_count_update(bits.update(even as int, false), buddy_index as int, false);
                    let up = self.bitmaps@[(o + 1) as int].free_bits();
                    lemma_count_update(up, k as int, true);
                    lemma_count_bound(up.update(k as int, true));
                    // The old state had the buddy free too.
                    if buddy_index == idx {
                        assert(buddy_of(idx as int) == even);
                    } else {
                        assert(buddy_of(idx as int) == buddy_index);
                    }
                }
                self.bitmaps[o].clear_free_bit(even);
                self.bitmaps[o].clear_free_bit(buddy_index);
                self.bitmaps[o + 1].set_free_bit(k);
                self.counts[o] = self.counts[o] - 2;
                self.counts[o + 1] = self.counts[o + 1] + 1;
                proof {
                    let oo = o as int;
                    assert forall|p: int, i: int| #[trigger] self.free(p, i) == if p == oo + 1 && i == k {
                        true
                    } else if p == oo && (i == even || i == buddy_index) {
                        false
                    } else {
                        prev.free(p, i)
                    } by {
                        if 0 <= p < l && p != oo && p != oo + 1 {
                            assert(self.bitmaps@[p] == prev.bitmaps@[p]);
                        }
                    }
                    assert forall|p: int, i: int| #[trigger] self.allocated(p, i) == prev.allocated(p, i) by {
                        if 0 <= p < l && p != oo && p != oo + 1 {
                            assert(self.bitmaps@[p] == prev.bitmaps@[p]);
                        }
                    }
                    let mm = prev.marks();
                    let n = self.marks();
                    assert forall|p: int, j: int|
                        #[trigger] n(p, j) == if p == oo + 1 && j == k {
                            true
                        } else if p == oo && (j == 2 * k || j == 2 * k + 1) {
                            false
                        } else {
                            mm(p, j)
                        } by {
                        assert(!(prev.free(oo, even as int) && prev.allocated(oo, even as int)));
                        assert(!(prev.free(oo, buddy_index as int) && prev.allocated(oo, buddy_index as int)));
                    }
                    lemma_merge_disjoint(mm, n, l, oo, k as int);
                    assert forall|p: int| 0 <= p < l implies #[trigger] self.order_wf(p) by {
                        assert(prev.order_wf(p));
                    }
                    assert forall|p: int, i: int| #[trigger] self.marked(p, i) implies i < blocks_at(u, p as nat) by {
                        if !(p == oo + 1 && i == k) {
                            assert(prev.marked(p, i));
                        }
                    }
                    assert forall|p: int, i: int| !(#[trigger] self.free(p, i) && self.allocated(p, i)) by {
                        if !(p == oo + 1 && i == k) {
                            assert(!(prev.free(p, i) && prev.allocated(p, i)));
                        }
                    }
                    lemma_anc_parent(index as int, (o - order) as nat);
                    assert(k == anc(index as int, (o + 1 - order) as nat));
                    assert(old(self).free(oo, buddy_of(anc(index as int, (oo - order) as nat))));
                }
                idx = k;
                o = o + 1;
            } else {
                proof {
                    let oo = o as int;
                    assert(self.free(oo, even as int) == (a == Some(true)));
                    assert(self.free(oo, buddy_index as int) == (b == Some(true)));
                    if buddy_index == idx {
                        assert(buddy_of(idx as int) == even);
                    } else {
                        assert(buddy_of(idx as int) == buddy_index);
                    }
                    assert(!self.free(oo, buddy_of(idx as int)));
                    assert(self.free(oo, buddy_of(idx as int)) == old(self).free(oo, buddy_of(idx as int)));
                }
                return o;
            }
        }
        o
    }

    /// Marks free block `index` of `order` allocated.
    fn take_free_block(&mut self, order: usize, index: usize)
        requires
            old(self).wf(),
            old(self).free(order as int, index as int),
        ensures
            final(self).wf(),
            final(self).usable_frames == old(self).usable_frames,
            final(self).usable_frames_base == old(self).usable_frames_base,
            final(self).num_orders() == old(self).num_orders(),
            forall|o: int, i: int|
                #[trigger] final(self).free(o, i) == (old(self).free(o, i) && !(o == order && i
                    == index)),
            forall|o: int, i: int|
                #[trigger] final(self).allocated(o, i) == (old(self).allocated(o, i) || (o == order
                    && i == index)),
    {
        let ghost l = self.num_orders();
        let ghost u = self.usable_frames as nat;
        proof {
            assert(self.order_wf(order as int));
            self.bitmaps@[order as int].lemma_lengths();
            lemma_count_update(self.bitmaps@[order as int].free_bits(), index as int, false);
        }
        self.bitmaps[order].clear_free_bit(index);
        self.bitmaps[order].set_alloc_bit(index);
        self.counts[order] = self.counts[order] - 1;
        proof {
            let prev = *old(self);
            assert forall|p: int, i: int| #[trigger] self.free(p, i) == (prev.free(p, i) && !(p == order && i == index)) by {
                if 0 <= p < l && p != order {
                    assert(self.bitmaps@[p] == prev.bitmaps@[p]);
                }
            }
            assert forall|p: int, i: int| #[trigger] self.allocated(p, i) == (prev.allocated(p, i) || (p == order && i == index)) by {
                if 0 <= p < l && p != order {
                    assert(self.bitmaps@[p] == prev.bitmaps@[p]);
                }
            }
            assert forall|p: int, i: int| #[trigger] self.marked(p, i) == prev.marked(p, i) by {
                assert(self.free(p, i) == (prev.free(p, i) && !(p == order && i == index)));
                assert(self.allocated(p, i) == (prev.allocated(p, i) || (p == order && i == index)));
            }
            assert forall|p: int| 0 <= p < l implies #[trigger] self.order_wf(p) by {
                assert(prev.order_wf(p));
            }
            assert forall|p: int, i: int| #[trigger] self.marked(p, i) implies i < blocks_at(u, p as nat) by {
                assert(prev.marked(p, i));
            }
            assert forall|p: int, i: int| !(#[trigger] self.free(p, i) && self.allocated(p, i)) by {
                assert(!(prev.free(p, i) && prev.allocated(p, i)));
            }
            Self::lemma_disjoint_ext(prev.marks(), self.marks(), l);
        }
    }

    /// Splits free block `index` of `order` down to `target_order`: every level between gets
    /// the upper half of the block above it as a new free block, and the lowest block of
    /// `target_order` inside the block it started from becomes free; returns that block's index.
    fn split(&mut self, order: usize, index: usize, target_order: usize) -> (r: usize)
        requires
            old(self).wf(),
            target_order < order < old(self).num_orders(),
            old(self).free(order as int, index as int),
        ensures
            final(self).wf(),
            final(self).usable_frames == old(self).usable_frames,
            final(self).usable_frames_base == old(self).usable_frames_base,
            final(self).num_orders() == old(self).num_orders(),
            r == index * pow2((order - target_order) as nat),
            r < blocks_at(old(self).usable_frames as nat, target_order as nat),
            forall|o: int, i: int|
                #[trigger] final(self).free(o, i) == if o == order && i == index {
                    false
                } else if target_order <= o < order && i == index * pow2((order - o) as nat) + 1 {
                    true
                } else if o == target_order && i == r {
                    true
                } else {
                    old(self).free(o, i)
                },
            forall|o: int, i: int| #[trigger] final(self).allocated(o, i) == old(self).allocated(o, i),
    {
        let ghost l = self.num_orders();
        let ghost u = self.usable_frames as nat;
        proof {
            assert(self.order_wf(order as int));
            self.bitmaps@[order as int].lemma_lengths();
            lemma_count_update(self.bitmaps@[order as int].free_bits(), index as int, false);
            lemma_count_positive(self.bitmaps@[order as int].free_bits());
            assert(self.marked(order as int, index as int));
        }
        self.bitmaps[order].clear_free_bit(index);
        self.counts[order] = self.counts[order] - 1;
        proof {
            assert forall|o: int| 0 <= o < l implies #[trigger] self.order_wf(o) by {
                assert(old(self).order_wf(o));
            }
            assert forall|o: int, i: int| #[trigger] self.marked(o, i) implies i < blocks_at(u, o as nat) by {
                assert(old(self).marked(o, i));
            }
            assert forall|o: int, i: int| !(#[trigger] self.free(o, i) && self.allocated(o, i)) by {
                assert(!(old(self).free(o, i) && old(self).allocated(o, i)));
            }
            assert(pow2(0) == 1) by {
                assert(crate::util::pow(2, 0) == 1);
            }
            assert(index * pow2(0) == index);
            let m = self.marks_with(order as int, index as int);
            Self::lemma_disjoint_ext(old(self).marks(), m, l);
        }
        let mut o = order;
        let mut idx = index;
        while o > target_order
            invariant
                target_order <= o <= order < l,
                l == self.num_orders(),
                l == old(self).num_orders(),
                u == self.usable_frames,
                self.usable_frames == old(self).usable_frames,
                self.usable_frames_base == old(self).usable_frames_base,
                self.wf_shape(),
                idx == index * pow2((order - o) as nat),
                idx < blocks_at(u, o as nat),
                !self.marked(o as int, idx as int),
                disjoint(self.marks_with(o as int, idx as int), l),
                forall|p: int, i: int|
                    #[trigger] self.free(p, i) == if p == order && i == index {
                        false
                    } else if o <= p < order && i == index * pow2((order - p) as nat) + 1 {
                        true
                    } else {
                        old(self).free(p, i)
                    },
                forall|p: int, i: int| #[trigger] self.allocated(p, i) == old(self).allocated(p, i),
            decreases o,
        {
            let ghost prev = *self;
            let ghost po = o as int;
            let ghost pidx = idx as int;
            proof {
                lemma_pow2_step((order - o) as nat);
                assert(blocks_at(u, o as nat) == blocks_at(u, (o - 1) as nat) / 2);
                assert(index * pow2((order - o + 1) as nat) == 2 * (index * pow2((order - o) as nat))) by (nonlinear_arith)
                    requires
                        pow2((order - o + 1) as nat) == 2 * pow2((order - o) as nat),
                ;
                // Neither half of the block being split is marked.
                let m = self.marks_with(po, pidx);
                lemma_anc_one(2 * pidx + 1);
                lemma_anc_one(2 * pidx);
                if self.marked(po - 1, 2 * pidx + 1) {
                    assert(m(po - 1, 2 * pidx + 1) && m(po, pidx));
                }
                if self.marked(po - 1, 2 * pidx) {
                    assert(m(po - 1, 2 * pidx) && m(po, pidx));
                }
                assert(self.order_wf(po - 1));
                self.bitmaps@[po - 1].lemma_lengths();
                let bits = self.bitmaps@[po - 1].free_bits();
                assert(!bits[2 * pidx + 1]);
                lemma_count_update(bits, 2 * pidx + 1, true);
                lemma_count_bound(bits.update(2 * pidx + 1, true));
            }
            o = o - 1;
            idx = idx * 2;
            self.counts[o] = self.counts[o] + 1;
            self.bitmaps[o].set_free_bit(idx + 1);
            proof {
                assert forall|p: int| 0 <= p < l implies #[trigger] self.order_wf(p) by {
                    assert(prev.order_wf(p));
                }
                assert forall|p: int, i: int| #[trigger] self.free(p, i) == (prev.free(p, i) || (p == o && i == idx + 1)) by {
                    if 0 <= p < l && p != o {
                        assert(self.bitmaps@[p] == prev.bitmaps@[p]);
                    }
                }
                assert forall|p: int, i: int| #[trigger] self.allocated(p, i) == prev.allocated(p, i) by {
                    if 0 <= p < l && p != o {
                        assert(self.bitmaps@[p] == prev.bitmaps@[p]);
                    }
                }
                assert forall|p: int, i: int| #[trigger] self.marked(p, i) == (prev.marked(p, i) || (p == o && i == idx + 1)) by {
                    assert(self.free(p, i) == (prev.free(p, i) || (p == o && i == idx + 1)));
                    assert(self.allocated(p, i) == prev.allocated(p, i));
                }
                assert forall|p: int, i: int|
                    #[trigger] self.free(p, i) == if p == order && i == index {
                        false
                    } else if o <= p < order && i == index * pow2((order - p) as nat) + 1 {
                        true
                    } else {
                        old(self).free(p, i)
                    } by {
                    assert(self.free(p, i) == (prev.free(p, i) || (p == o && i == idx + 1)));
                }
                assert forall|p: int, i: int| #[trigger] self.marked(p, i) implies i < blocks_at(u, p as nat) by {
                    if !(p == o && i == idx + 1) {
                        assert(prev.marked(p, i));
                    }
                }
                assert forall|p: int, i: int| !(#[trigger] self.free(p, i) && self.allocated(p, i)) by {
                    if !(p == o && i == idx + 1) {
                        assert(!(prev.free(p, i) && prev.allocated(p, i)));
                    }
                }
                let m = prev.marks_with(po, pidx);
                let n = self.marks_with(o as int, idx as int);
                assert forall|p: int, j: int|
                    #[trigger] n(p, j) == if p == po && j == pidx {
                        false
                    } else if p == po - 1 && (j == 2 * pidx || j == 2 * pidx + 1) {
                        true
                    } else {
                        m(p, j)
                    } by {
                }
                lemma_split_disjoint(m, n, l, po, pidx);
                assert(self.wf_shape());
            }
        }
        proof {
            assert(self.order_wf(target_order as int));
            self.bitmaps@[target_order as int].lemma_lengths();
            let bits = self.bitmaps@[target_order as int].free_bits();
            assert(!bits[idx as int]);
            lemma_count_update(bits, idx as int, true);
            lemma_count_bound(bits.update(idx as int, true));
        }
        let ghost prev = *self;
        self.bitmaps[target_order].set_free_bit(idx);
        self.counts[target_order] = self.counts[target_order] + 1;
        proof {
            assert forall|p: int| 0 <= p < l implies #[trigger] self.order_wf(p) by {
                assert(prev.order_wf(p));
            }
            assert forall|p: int, i: int| #[trigger] self.free(p, i) == (prev.free(p, i) || (p == target_order && i == idx)) by {
                if 0 <= p < l && p != target_order {
                    assert(self.bitmaps@[p] == prev.bitmaps@[p]);
                }
            }
            assert forall|p: int, i: int| #[trigger] self.allocated(p, i) == prev.allocated(p, i) by {
                if 0 <= p < l && p != target_order {
                    assert(self.bitmaps@[p] == prev.bitmaps@[p]);
                }
            }
            assert forall|p: int, i: int| #[trigger] self.marked(p, i) implies i < blocks_at(u, p as nat) by {
                if !(p == target_order && i == idx) {
                    assert(prev.marked(p, i));
                }
            }
            assert forall|p: int, i: int| !(#[trigger] self.free(p, i) && self.allocated(p, i)) by {
                if !(p == target_order && i == idx) {
                    assert(!(prev.free(p, i) && prev.allocated(p, i)));
                }
            }
            Self::lemma_disjoint_ext(prev.marks_with(target_order as int, idx as int), self.marks(), l);
        }
        idx
    }

    /// A fresh region, whose free blocks follow the initial pattern and of which nothing is
    /// allocated, is well formed.
    proof fn lemma_fresh_wf(&self)
        requires
            1 <= ORDERS,
            self.bitmaps@.len() < ORDERS,
            FRAME_SIZE >= 1,
            self.usable_frames_base + self.usable_frames * FRAME_SIZE <= usize::MAX,
            self.counts@.len() == ORDERS,
            forall|o: int|
                0 <= o < self.bitmaps@.len() ==> {
                    &&& (#[trigger] self.bitmaps@[o]).wf()
                    &&& self.bitmaps@[o].free_bits().len() >= blocks_at(self.usable_frames as nat, o as nat)
                    &&& self.counts@[o] == count_set(self.bitmaps@[o].free_bits())
                    &&& forall|i: int|
                        0 <= i < self.bitmaps@[o].free_bits().len() ==> (#[trigger] self.bitmaps@[o].free_bits()[i]
                            == initially_free(self.usable_frames as nat, self.bitmaps@.len() as int, o, i))
                    &&& forall|i: int|
                        0 <= i < self.bitmaps@[o].alloc_bits().len() ==> !#[trigger] self.bitmaps@[o].alloc_bits()[i]
                },
            forall|o: int| self.bitmaps@.len() <= o < ORDERS ==> self.counts@[o] == 0,
        ensures
            self.wf(),
            forall|o: int, i: int|
                #[trigger] self.free(o, i) == initially_free(
                    self.usable_frames as nat,
                    self.num_orders(),
                    o,
                    i,
                ),
            forall|o: int, i: int| !#[trigger] self.allocated(o, i),
    {
        let u = self.usable_frames as nat;
        let l = self.bitmaps@.len() as int;
        assert forall|o: int| 0 <= o < l implies #[trigger] self.order_wf(o) by {
        }
        assert forall|o: int, i: int| #[trigger] self.free(o, i) == initially_free(u, l, o, i) by {
            if initially_free(u, l, o, i) {
                assert(self.bitmaps@[o].free_bits().len() >= blocks_at(u, o as nat));
                assert(self.bitmaps@[o].free_bits()[i]);
            }
        }
        assert forall|o: int, i: int| !#[trigger] self.allocated(o, i) by {
            if self.allocated(o, i) {
                assert(self.bitmaps@[o].alloc_bits()[i]);
            }
        }
        assert forall|o: int, i: int| #[trigger] self.marked(o, i) implies i < blocks_at(u, o as nat) by {
            assert(self.free(o, i));
        }
        let m = self.marks();
        assert forall|o: int, i: int, p: int, j: int|
            #![trigger m(o, i), m(p, j)]
            0 <= o < p < l && 0 <= i && m(o, i) && m(p, j) implies anc(i, (p - o) as nat) != j by {
            assert(self.free(o, i) && self.free(p, j));
            assert(initially_free(u, l, o, i));
            assert(initially_free(u, l, p, j));
            lemma_anc_past_blocks(u, o as nat, i, (p - o) as nat);
        }
    }
}

/// Buddies are the two halves of one block of the next order: a block's buddy differs
/// from it, shares its parent, and has it as its own buddy.
pub proof fn lemma_buddies_share_parent(i: int)
    requires
        i >= 0,
    ensures
        buddy_of(i) >= 0,
        buddy_of(i) != i,
        buddy_of(i) / 2 == i / 2,
        buddy_of(buddy_of(i)) == i,
{
}

} // verus!
