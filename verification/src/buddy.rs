//! A buddy frame allocator over several regions, with a per-order cache of which regions
//! still have a free block of that order.
use crate::bitmap::{bitmap_bytes, first_set_from, Bitmap, BitmapLayout};
use crate::buddy_math::{anc, blocks_at, pow2};
use crate::mem_layout::{max_layout_size, ByteLayout, LayoutError};
use crate::region::{region_meta_bytes, region_meta_frames, Region, RegionError};
use crate::util::{floor_log, ilog_floor, is_ceil_log, lemma_ceil_log_unique};
use vstd::prelude::*;

verus! {

/// Bytes reserved per region at the start of the allocator's metadata: two words.
pub const REGION_RECORD_BYTES: usize = 16;

/// Why a region could not be added.
#[derive(Clone, Debug)]
pub enum BuddyAllocatorError {
    RegionTooSmall,
    MaxCapacity,
    Layout(LayoutError),
}

/// Why an allocation failed.
#[derive(Clone, Debug)]
pub enum AllocateError {
    NotEnoughSpace,
}

/// Bytes of the allocator's own metadata for `capacity` regions: the region records and
/// one region bitmap per order.
pub open spec fn allocator_meta_bytes(capacity: nat, orders: nat) -> int {
    REGION_RECORD_BYTES * capacity + orders * bitmap_bytes(capacity as int)
}

/// Frames taken by the allocator's own metadata.
pub open spec fn allocator_meta_frames(frame_size: nat, capacity: nat, orders: nat) -> int {
    (allocator_meta_bytes(capacity, orders) + frame_size - 1) / (frame_size as int)
}

/// Bytes in all frames of `regions`, a list of `(base, frames)`, for frames of
/// `frame_size` bytes.
pub open spec fn frames_bytes(regions: Seq<(usize, usize)>, frame_size: int) -> int
    decreases regions.len(),
{
    if regions.len() == 0 {
        0
    } else {
        regions[0].1 * frame_size + frames_bytes(regions.drop_first(), frame_size)
    }
}

/// Frame bytes are never negative.
pub proof fn lemma_frames_bytes_nonneg(regions: Seq<(usize, usize)>, frame_size: int)
    requires
        frame_size >= 0,
    ensures
        frames_bytes(regions, frame_size) >= 0,
    decreases regions.len(),
{
    if regions.len() > 0 {
        lemma_frames_bytes_nonneg(regions.drop_first(), frame_size);
        assert(regions[0].1 * frame_size >= 0) by (nonlinear_arith)
            requires
                frame_size >= 0,
        ;
    }
}

/// A suffix of a list of regions never has more frame bytes than the whole list.
proof fn lemma_frames_bytes_suffix(regions: Seq<(usize, usize)>, i: int, frame_size: int)
    requires
        0 <= i <= regions.len(),
        frame_size >= 0,
    ensures
        frames_bytes(regions.subrange(i, regions.len() as int), frame_size) <= frames_bytes(regions, frame_size),
    decreases i,
{
    if i == 0 {
        assert(regions.subrange(0, regions.len() as int) =~= regions);
    } else {
        lemma_frames_bytes_suffix(regions, i - 1, frame_size);
        let s = regions.subrange(i - 1, regions.len() as int);
        assert(s.drop_first() =~= regions.subrange(i, regions.len() as int));
        assert(s[0].1 * frame_size >= 0) by (nonlinear_arith)
            requires
                frame_size >= 0,
        ;
    }
}

/// A region of no frames has no metadata.
proof fn lemma_region_meta_bytes_empty(orders: nat)
    requires
        orders >= 1,
    ensures
        region_meta_bytes(0, orders) == 0,
{
    assert(crate::util::pow(2, 0) == 1);
    assert(is_ceil_log(2, 0, 0));
    lemma_ceil_log_unique(2, 0, 0);
    assert(blocks_at(0, 0) == 0);
}

/// Whether region `r` spans `addr` (its last usable address included).
pub open spec fn region_spans<const ORDERS: usize, const FRAME_SIZE: usize>(
    r: Region<ORDERS, FRAME_SIZE>,
    addr: int,
) -> bool {
    r.usable_frames_base <= addr <= r.usable_frames_base + r.usable_frames * FRAME_SIZE
}

/// Where one region bitmap of the cache lies in the allocator's metadata.
#[derive(Clone, Copy, Debug)]
pub struct CacheBitmapLayout {
    pub layout: BitmapLayout,
    pub offset: usize,
}

/// Layout of the allocator's metadata: the region records, then one region bitmap per
/// order.
#[derive(Clone, Debug)]
pub struct BuddyAllocatorLayout<const ORDERS: usize, const FRAME_SIZE: usize> {
    pub layout: ByteLayout,
    pub region_caches: Vec<CacheBitmapLayout>,
}

impl<const ORDERS: usize, const FRAME_SIZE: usize> BuddyAllocatorLayout<ORDERS, FRAME_SIZE> {
    /// The layout of the metadata for `capacity` regions: its total size, and for every
    /// order a bitmap of `capacity` bits placed right after the records and the bitmaps of
    /// the lower orders.
    pub open spec fn wf(&self, capacity: nat) -> bool {
        &&& self.layout.wf()
        &&& self.layout.size == allocator_meta_bytes(capacity, ORDERS as nat)
        &&& self.region_caches@.len() == ORDERS
        &&& forall|o: int|
            0 <= o < ORDERS ==> {
                &&& (#[trigger] self.region_caches@[o]).layout.wf()
                &&& self.region_caches@[o].layout.len() == capacity
                &&& self.region_caches@[o].offset == REGION_RECORD_BYTES * capacity + o * bitmap_bytes(
                    capacity as int,
                )
            }
    }

    /// Lays out the metadata for `regions_capacity` regions; fails exactly when it does
    /// not fit in the address space.
    pub fn new(regions_capacity: usize) -> (r: Result<Self, LayoutError>)
        requires
            ORDERS >= 1,
            regions_capacity + 64 <= usize::MAX,
        ensures
            match r {
                Ok(l) => l.wf(regions_capacity as nat),
                Err(_) => allocator_meta_bytes(regions_capacity as nat, ORDERS as nat) > max_layout_size(),
            },
    {
        let ghost cap = regions_capacity as int;
        let ghost bb = bitmap_bytes(cap);
        proof {
            assert(bb >= 0);
            assert(ORDERS * bb >= bb) by (nonlinear_arith)
                requires
                    ORDERS >= 1,
                    bb >= 0,
            ;
        }
        let regions_layout = match ByteLayout::array(REGION_RECORD_BYTES, regions_capacity) {
            Ok(l) => l,
            Err(e) => return Err(e),
        };
        let region_cache_layout = match BitmapLayout::new(regions_capacity) {
            Ok(l) => l,
            Err(e) => return Err(e),
        };
        let mut combined_layout = regions_layout;
        let mut region_caches: Vec<CacheBitmapLayout> = Vec::new();
        let mut order: usize = 0;
        while order < ORDERS
            invariant
                order <= ORDERS,
                ORDERS >= 1,
                cap == regions_capacity,
                bb == bitmap_bytes(cap),
                bb >= 0,
                region_cache_layout.wf(),
                region_cache_layout.len() == cap,
                region_cache_layout.byte_layout().size == bb,
                combined_layout.wf(),
                combined_layout.size == REGION_RECORD_BYTES * cap + order * bb,
                region_caches@.len() == order,
                forall|o: int|
                    0 <= o < order ==> {
                        &&& (#[trigger] region_caches@[o]).layout == region_cache_layout
                        &&& region_caches@[o].offset == REGION_RECORD_BYTES * cap + o * bb
                    },
            decreases ORDERS - order,
        {
            let (layout, offset) = match combined_layout.extend(region_cache_layout.bytes()) {
                Ok(p) => p,
                Err(e) => {
                    proof {
                        assert(combined_layout.size + bb > max_layout_size());
                        assert(order * bb + bb <= ORDERS * bb) by (nonlinear_arith)
                            requires
                                order + 1 <= ORDERS,
                                bb >= 0,
                        ;
                        assert(allocator_meta_bytes(cap as nat, ORDERS as nat) == REGION_RECORD_BYTES * cap + ORDERS * bb);
                    }
                    return Err(e);
                },
            };
            proof {
                assert(REGION_RECORD_BYTES * cap + order * bb + bb == REGION_RECORD_BYTES * cap + (order
                    + 1) * bb) by (nonlinear_arith);
            }
            region_caches.push(CacheBitmapLayout { layout: region_cache_layout, offset });
            combined_layout = layout;
            order = order + 1;
        }
        Ok(BuddyAllocatorLayout { layout: combined_layout, region_caches })
    }

    /// Whole frames taken by the metadata.
    pub fn meta_frames(&self) -> (r: usize)
        requires
            FRAME_SIZE >= 1,
            self.layout.wf(),
        ensures
            r == (self.layout.size + FRAME_SIZE - 1) / (FRAME_SIZE as int),
    {
        let size = self.layout.size;
        let r = size / FRAME_SIZE + if size % FRAME_SIZE != 0 {
            1
        } else {
            0
        };
        proof {
            assert(r == (size + FRAME_SIZE - 1) / (FRAME_SIZE as int)) by (nonlinear_arith)
                requires
                    FRAME_SIZE >= 1,
                    r == size / FRAME_SIZE + if size % FRAME_SIZE != 0 {
                        1int
                    } else {
                        0int
                    },
            ;
        }
        r
    }
}

/// A buddy allocator over up to `capacity` regions, kept sorted by base address.
#[derive(Debug)]
pub struct BuddyAllocator<const ORDERS: usize, const FRAME_SIZE: usize> {
    regions: Vec<Region<ORDERS, FRAME_SIZE>>,
    regions_capacity: usize,
    regions_cache: Vec<Bitmap>,
    pub total_bytes: usize,
    pub allocated_bytes: usize,
    pub fragmented_bytes: usize,
}

impl<const ORDERS: usize, const FRAME_SIZE: usize> BuddyAllocator<ORDERS, FRAME_SIZE> {
    /// The regions, lowest base address first.
    pub closed spec fn regions(&self) -> Seq<Region<ORDERS, FRAME_SIZE>> {
        self.regions@
    }

    /// Bytes in all regions' usable frames.
    pub closed spec fn total(&self) -> int {
        self.total_bytes as int
    }

    /// Bytes handed out, as counted by the caller's requests.
    pub closed spec fn allocated(&self) -> int {
        self.allocated_bytes as int
    }

    /// Bytes handed out beyond what the requests asked for.
    pub closed spec fn fragmented(&self) -> int {
        self.fragmented_bytes as int
    }

    /// Most regions the allocator can hold.
    pub closed spec fn capacity(&self) -> nat {
        self.regions_capacity as nat
    }

    /// Some region has a free block of order `o`.
    pub open spec fn has_free_at(&self, o: int) -> bool {
        exists|k: int| 0 <= k < self.regions().len() && #[trigger] self.regions()[k].has_free(o)
    }

    /// The lowest order at or above `order` in which some region has a free block.
    pub open spec fn alloc_order_for(&self, order: int) -> int {
        choose|o: int|
            order <= o < ORDERS && self.has_free_at(o) && forall|p: int|
                order <= p < o ==> !#[trigger] self.has_free_at(p)
    }

    /// The first region with a free block of order `o`.
    pub open spec fn alloc_region_for(&self, o: int) -> int {
        choose|k: int|
            0 <= k < self.regions().len() && self.regions()[k].has_free(o) && forall|q: int|
                0 <= q < k ==> !#[trigger] self.regions()[q].has_free(o)
    }

    /// Index of the first region spanning `addr`, if any.
    pub open spec fn region_for_addr(&self, addr: int) -> Option<int> {
        if exists|k: int| 0 <= k < self.regions().len() && region_spans(#[trigger] self.regions()[k], addr) {
            Some(
                choose|k: int|
                    0 <= k < self.regions().len() && region_spans(self.regions()[k], addr) && forall|q: int|
                        0 <= q < k ==> !region_spans(#[trigger] self.regions()[q], addr),
            )
        } else {
            None
        }
    }

    /// The region cache bit of order `o` for region `r` is right.
    closed spec fn cache_ok(&self, o: int, r: int) -> bool {
        self.regions_cache@[o]@[r] == (r < self.regions@.len() && self.regions@[r].has_free(o))
    }

    /// Well formed: every region is, they are sorted by base address, and the region cache
    /// says exactly which regions have a free block of each order.
    pub closed spec fn wf(&self) -> bool {
        &&& ORDERS >= 1
        &&& FRAME_SIZE >= 1
        &&& self.regions@.len() <= self.regions_capacity
        &&& self.regions_capacity + 64 <= usize::MAX
        &&& forall|k: int| 0 <= k < self.regions@.len() ==> (#[trigger] self.regions@[k]).wf() && self.regions@[k].merged()
        &&& forall|a: int, b: int|
            0 <= a < b < self.regions@.len() ==> (#[trigger] self.regions@[a]).usable_frames_base
                <= (#[trigger] self.regions@[b]).usable_frames_base
        &&& self.regions_cache@.len() == ORDERS
        &&& forall|o: int|
            0 <= o < ORDERS ==> (#[trigger] self.regions_cache@[o]).wf()
                && self.regions_cache@[o]@.len() == self.regions_capacity
        &&& forall|o: int, r: int|
            0 <= o < ORDERS && 0 <= r < self.regions_capacity ==> #[trigger] self.cache_ok(o, r)
    }

    /// Whether the region cache marks region `r` as having a free block of order `o`.
    pub closed spec fn cache_marks(&self, o: int, r: int) -> bool {
        self.regions_cache@[o]@[r]
    }

    /// What a well-formed allocator keeps: every region is well formed and merged, the
    /// regions are sorted by the base of their usable frames, and the region cache marks a
    /// region for an order exactly when that region has a free block of that order.
    pub proof fn lemma_wf_facts(&self)
        requires
            self.wf(),
        ensures
            self.regions().len() <= self.capacity(),
            forall|k: int| 0 <= k < self.regions().len() ==> (#[trigger] self.regions()[k]).wf() && self.regions()[k].merged(),
            forall|a: int, b: int|
                0 <= a < b < self.regions().len() ==> (#[trigger] self.regions()[a]).usable_frames_base
                    <= (#[trigger] self.regions()[b]).usable_frames_base,
            forall|o: int, r: int|
                0 <= o < ORDERS && 0 <= r < self.capacity() ==> #[trigger] self.cache_marks(o, r) == (r
                    < self.regions().len() && self.regions()[r].has_free(o)),
    {
        assert forall|o: int, r: int| 0 <= o < ORDERS && 0 <= r < self.capacity() implies #[trigger] self.cache_marks(o, r) == (r
            < self.regions().len() && self.regions()[r].has_free(o)) by {
            assert(self.cache_ok(o, r));
        }
    }

    /// Allocates a block of `2^order` frames and counts its bytes as allocated.
    pub fn allocate_order(&mut self, order: usize) -> (r: Result<usize, AllocateError>)
        requires
            old(self).wf(),
            old(self).allocated() + pow2(order as nat) * FRAME_SIZE <= usize::MAX,
        ensures
            final(self).wf(),
            old(self).alloc_done(*final(self), order as int, r),
            r is Ok ==> final(self).allocated() == old(self).allocated() + pow2(order as nat)
                * FRAME_SIZE,
            r is Err ==> final(self).allocated() == old(self).allocated(),
            final(self).total() == old(self).total(),
            final(self).fragmented() == old(self).fragmented(),
    {
        let addr = match self.allocate_order_inner(order) {
            Ok(addr) => addr,
            Err(e) => return Err(e),
        };
        proof {
            assert(pow2(order as nat) >= 1) by {
                crate::buddy_math::lemma_pow2_step(order as nat);
            }
            assert(pow2(order as nat) * FRAME_SIZE <= usize::MAX);
            assert(pow2(order as nat) <= usize::MAX) by (nonlinear_arith)
                requires
                    pow2(order as nat) * FRAME_SIZE <= usize::MAX,
                    FRAME_SIZE >= 1,
            ;
        }
        let block_bytes = Self::block_bytes(order);
        let ghost prev = *self;
        self.allocated_bytes = self.allocated_bytes + block_bytes;
        proof {
            prev.lemma_wf_same_structure(self);
        }
        Ok(addr)
    }

    /// Releases the block at `addr` and uncounts `2^order` frames of allocated bytes.
    pub fn deallocate_order(&mut self, addr: usize, order: usize)
        requires
            old(self).wf(),
            old(self).dealloc_allowed(addr as int),
            old(self).allocated() >= pow2(order as nat) * FRAME_SIZE,
        ensures
            final(self).wf(),
            old(self).dealloc_done(*final(self), addr as int),
            final(self).allocated() == old(self).allocated() - pow2(order as nat) * FRAME_SIZE,
            final(self).total() == old(self).total(),
            final(self).fragmented() == old(self).fragmented(),
    {
        self.deallocate_order_inner(addr, order);
        proof {
            assert(pow2(order as nat) <= usize::MAX) by (nonlinear_arith)
                requires
                    pow2(order as nat) * FRAME_SIZE <= usize::MAX,
                    FRAME_SIZE >= 1,
            ;
        }
        let block_bytes = Self::block_bytes(order);
        let ghost prev = *self;
        self.allocated_bytes = self.allocated_bytes - block_bytes;
        proof {
            prev.lemma_wf_same_structure(self);
        }
    }

    /// Bytes in a block of `2^order` frames.
    fn block_bytes(order: usize) -> (r: usize)
        requires
            FRAME_SIZE >= 1,
            pow2(order as nat) * FRAME_SIZE <= usize::MAX,
        ensures
            r == pow2(order as nat) * FRAME_SIZE,
    {
        proof {
            assert(pow2(order as nat) <= usize::MAX) by (nonlinear_arith)
                requires
                    pow2(order as nat) * FRAME_SIZE <= usize::MAX,
                    FRAME_SIZE >= 1,
            ;
        }
        let mut p: usize = 1;
        let mut k: usize = 0;
        while k < order
            invariant
                k <= order,
                p == pow2(k as nat),
                pow2(order as nat) <= usize::MAX,
            decreases order - k,
        {
            proof {
                crate::buddy_math::lemma_pow2_step(k as nat);
                crate::util::lemma_pow_grows(2, (k + 1) as nat, order as nat);
            }
            p = p * 2;
            k = k + 1;
        }
        p * FRAME_SIZE
    }

    /// `after` is this allocator after a request for a block of `order` that returned `r`:
    /// it succeeds exactly when some region has a free block of that order or above, and
    /// then takes the block from the first region that has one at the lowest such order.
    pub open spec fn alloc_done(&self, after: Self, order: int, r: Result<usize, AllocateError>) -> bool {
        &&& (r is Ok) == (exists|o: int| order <= o < ORDERS && #[trigger] self.has_free_at(o))
        &&& after.regions().len() == self.regions().len()
        &&& after.capacity() == self.capacity()
        &&& r is Err ==> after.regions() == self.regions()
        &&& r matches Ok(addr) ==> {
            let o = self.alloc_order_for(order);
            let k = self.alloc_region_for(o);
            let region = self.regions()[k];
            &&& region.alloc_outcome(after.regions()[k], order, o)
            &&& addr == region.block_addr(order, region.alloc_index(order, o))
            &&& forall|q: int| 0 <= q < self.regions().len() && q != k ==> #[trigger] after.regions()[q] == self.regions()[q]
        }
    }

    /// Releasing `addr` is only allowed when the region spanning it (if any) holds an
    /// allocated block containing it.
    pub open spec fn dealloc_allowed(&self, addr: int) -> bool {
        match self.region_for_addr(addr) {
            Some(k) => {
                let region = self.regions()[k];
                let f = (addr - region.usable_frames_base) / (FRAME_SIZE as int);
                exists|o: int| 0 <= o < region.num_orders() && #[trigger] region.allocated(o, anc(f, o as nat))
            },
            None => true,
        }
    }

    /// `after` is this allocator after releasing `addr`: nothing changes when no region
    /// spans it; otherwise the first region spanning it releases the allocated block
    /// holding it and merges buddies.
    pub open spec fn dealloc_done(&self, after: Self, addr: int) -> bool {
        &&& after.regions().len() == self.regions().len()
        &&& after.capacity() == self.capacity()
        &&& match self.region_for_addr(addr) {
            None => after.regions() == self.regions(),
            Some(k) => self.released_in(after, k, addr),
        }
    }

    /// `after` is this allocator after region `k` released the allocated block holding
    /// `addr` and merged buddies, every other region unchanged.
    pub open spec fn released_in(&self, after: Self, k: int, addr: int) -> bool {
        let region = self.regions()[k];
        let f = (addr - region.usable_frames_base) / (FRAME_SIZE as int);
        &&& exists|o: int, m: int| #[trigger] region.dealloc_outcome(after.regions()[k], f, o, m)
        &&& forall|q: int| 0 <= q < self.regions().len() && q != k ==> #[trigger] after.regions()[q] == self.regions()[q]
    }

    /// Takes a block of `2^order` frames from the first region that has a free block at
    /// the lowest possible order.
    fn allocate_order_inner(&mut self, order: usize) -> (r: Result<usize, AllocateError>)
        requires
            old(self).wf(),
        ensures
            final(self).wf(),
            old(self).alloc_done(*final(self), order as int, r),
            final(self).total() == old(self).total(),
            final(self).allocated() == old(self).allocated(),
            final(self).fragmented() == old(self).fragmented(),
    {
        let mut o = order;
        while o < ORDERS
            invariant
                self.wf(),
                *self == *old(self),
                order <= o,
                forall|p: int| order <= p < o && p < ORDERS ==> !#[trigger] self.has_free_at(p),
            decreases ORDERS - o,
        {
            let found = self.regions_cache[o].find_first_free_index_from(0);
            if let Some(region_index) = found {
                proof {
                    let k = region_index as int;
                    assert(self.cache_ok(o as int, k));
                    assert forall|q: int| 0 <= q < k implies !#[trigger] self.regions()[q].has_free(o as int) by {
                        assert(self.cache_ok(o as int, q));
                    }
                }
                return self.take_from_region(order, o, region_index);
            }
            proof {
                assert forall|k: int| 0 <= k < self.regions@.len() implies !(#[trigger] self.regions@[k]).has_free(o as int) by {
                    assert(self.cache_ok(o as int, k));
                }
            }
            o = o + 1;
        }
        proof {
            if exists|p: int| order <= p < ORDERS && #[trigger] self.has_free_at(p) {
                let p = choose|p: int| order <= p < ORDERS && #[trigger] self.has_free_at(p);
                assert(!self.has_free_at(p));
            }
        }
        Err(AllocateError::NotEnoughSpace)
    }

    /// Allocates a block of `order` from region `region_index`, the first region with a
    /// free block of order `o`, the lowest order at or above `order` with a free block.
    fn take_from_region(&mut self, order: usize, o: usize, region_index: usize) -> (r: Result<usize, AllocateError>)
        requires
            old(self).wf(),
            order <= o < ORDERS,
            region_index < old(self).regions().len(),
            old(self).regions()[region_index as int].has_free(o as int),
            forall|p: int| order <= p < o ==> !#[trigger] old(self).has_free_at(p),
            forall|q: int| 0 <= q < region_index ==> !#[trigger] old(self).regions()[q].has_free(o as int),
        ensures
            final(self).wf(),
            r is Ok,
            old(self).alloc_done(*final(self), order as int, r),
            final(self).total() == old(self).total(),
            final(self).allocated() == old(self).allocated(),
            final(self).fragmented() == old(self).fragmented(),
    {
        let ghost before = *self;
        proof {
            let k = region_index as int;
            self.lemma_alloc_choice(order as int, o as int, k);
            let region = self.regions@[k];
            let bi = choose|bi: int| #[trigger] region.free(o as int, bi);
            region.lemma_free_in_orders(o as int, bi);
            assert(region.free(o as int, bi));
        }
        let allocation = match self.regions[region_index].allocate(order) {
            Some(allocation) => allocation,
            None => {
                proof {
                    assert(false);
                }
                return Err(AllocateError::NotEnoughSpace);
            },
        };
        proof {
            let k = region_index as int;
            let region = before.regions@[k];
            let split = allocation.split_order as int;
            reveal(Region::alloc_outcome);
            // The region's split order is the allocator's order `o`.
            assert(region.free(split, region.lowest_free(split)));
            assert(before.regions@[k].has_free(split));
            assert(before.has_free_at(split));
            if split < o {
                assert(!before.has_free_at(split));
            }
            if o < split {
                let bi = choose|bi: int| #[trigger] region.free(o as int, bi);
                assert(!region.free(o as int, bi));
            }
            assert(split == o);
            assert forall|q: int| 0 <= q < self.regions@.len() implies (#[trigger] self.regions@[q]).wf() by {
                if q != k {
                    assert(self.regions@[q] == before.regions@[q]);
                }
            }
            assert forall|a: int, b: int|
                0 <= a < b < self.regions@.len() implies (#[trigger] self.regions@[a]).usable_frames_base
                    <= (#[trigger] self.regions@[b]).usable_frames_base by {
                assert(before.regions@[a].usable_frames_base <= before.regions@[b].usable_frames_base);
            }
            assert forall|p: int, r: int|
                0 <= p < ORDERS && 0 <= r < self.regions_capacity && !(r == k && order <= p <= split)
                    implies #[trigger] self.cache_ok(p, r) by {
                assert(before.cache_ok(p, r));
                if r == k {
                    let now = self.regions@[k];
                    if region.has_free(p) {
                        let i = choose|i: int| #[trigger] region.free(p, i);
                        assert(now.free(p, i));
                    }
                    if now.has_free(p) {
                        let i = choose|i: int| #[trigger] now.free(p, i);
                        assert(region.free(p, i));
                    }
                } else if r < self.regions@.len() {
                    assert(self.regions@[r] == before.regions@[r]);
                }
            }
        }
        let ghost allocated_regions = self.regions@;
        let mut cache_order = allocation.allocated_order;
        while cache_order <= allocation.split_order
            invariant
                self.wf_except_cache(),
                self.regions@ == allocated_regions,
                self.regions@.len() == before.regions@.len(),
                self.regions_capacity == before.regions_capacity,
                self.total_bytes == before.total_bytes,
                self.allocated_bytes == before.allocated_bytes,
                self.fragmented_bytes == before.fragmented_bytes,
                region_index < self.regions@.len(),
                order <= cache_order <= allocation.split_order + 1,
                allocation.split_order < ORDERS,
                forall|p: int, r: int|
                    0 <= p < ORDERS && 0 <= r < self.regions_capacity && !(r == region_index && cache_order <= p <= allocation.split_order)
                        ==> #[trigger] self.cache_ok(p, r),
            decreases allocation.split_order + 1 - cache_order,
        {
            self.update_region_cache(cache_order, region_index);
            cache_order = cache_order + 1;
        }
        Ok(allocation.addr)
    }

    /// Everything of the well-formedness except the region cache bits.
    closed spec fn wf_except_cache(&self) -> bool {
        &&& ORDERS >= 1
        &&& FRAME_SIZE >= 1
        &&& self.regions@.len() <= self.regions_capacity
        &&& self.regions_capacity + 64 <= usize::MAX
        &&& forall|k: int| 0 <= k < self.regions@.len() ==> (#[trigger] self.regions@[k]).wf() && self.regions@[k].merged()
        &&& forall|a: int, b: int|
            0 <= a < b < self.regions@.len() ==> (#[trigger] self.regions@[a]).usable_frames_base
                <= (#[trigger] self.regions@[b]).usable_frames_base
        &&& self.regions_cache@.len() == ORDERS
        &&& forall|o: int|
            0 <= o < ORDERS ==> (#[trigger] self.regions_cache@[o]).wf()
                && self.regions_cache@[o]@.len() == self.regions_capacity
    }

    /// Well-formedness depends only on the regions, the capacity and the cache.
    proof fn lemma_wf_same_structure(&self, other: &Self)
        requires
            self.wf(),
            other.regions@ == self.regions@,
            other.regions_capacity == self.regions_capacity,
            other.regions_cache@ == self.regions_cache@,
        ensures
            other.wf(),
    {
        assert forall|o: int, r: int| 0 <= o < ORDERS && 0 <= r < other.regions_capacity implies #[trigger] other.cache_ok(o, r) by {
            assert(self.cache_ok(o, r));
        }
    }

    /// The lowest order and first region found through the cache are the ones the
    /// specification chooses.
    proof fn lemma_alloc_choice(&self, order: int, o: int, k: int)
        requires
            self.wf(),
            order <= o < ORDERS,
            0 <= k < self.regions().len(),
            self.regions()[k].has_free(o),
            forall|p: int| order <= p < o ==> !#[trigger] self.has_free_at(p),
            forall|q: int| 0 <= q < k ==> !#[trigger] self.regions()[q].has_free(o),
        ensures
            self.alloc_order_for(order) == o,
            self.alloc_region_for(o) == k,
            self.has_free_at(o),
    {
        assert(self.has_free_at(o));
        let c = self.alloc_order_for(order);
        assert(order <= c < ORDERS && self.has_free_at(c) && forall|p: int| order <= p < c ==> !#[trigger] self.has_free_at(p));
        if c < o {
            assert(!self.has_free_at(c));
        }
        if o < c {
            assert(!self.has_free_at(o));
        }
        let d = self.alloc_region_for(o);
        assert(0 <= d < self.regions().len() && self.regions()[d].has_free(o) && forall|q: int| 0 <= q < d ==> !#[trigger] self.regions()[q].has_free(o));
        if d < k {
            assert(!self.regions()[d].has_free(o));
        }
        if k < d {
            assert(!self.regions()[k].has_free(o));
        }
    }

    /// Brings the cache bit of order `order` for region `region_index` up to date.
    fn update_region_cache(&mut self, order: usize, region_index: usize)
        requires
            old(self).wf_except_cache(),
            order < ORDERS,
            region_index < old(self).regions@.len(),
        ensures
            final(self).wf_except_cache(),
            final(self).regions@ == old(self).regions@,
            final(self).regions_capacity == old(self).regions_capacity,
            final(self).total() == old(self).total(),
            final(self).allocated() == old(self).allocated(),
            final(self).fragmented() == old(self).fragmented(),
            final(self).cache_ok(order as int, region_index as int),
            forall|p: int, r: int|
                0 <= p < ORDERS && 0 <= r < old(self).regions_capacity && !(p == order && r == region_index)
                    ==> #[trigger] final(self).cache_ok(p, r) == old(self).cache_ok(p, r),
    {
        proof {
            assert(self.regions@[region_index as int].wf());
            self.regions@[region_index as int].lemma_count_iff(order as int);
            assert(self.regions_cache@[order as int].wf());
        }
        let ghost prev = *self;
        if self.regions[region_index].counts[order] == 0 {
            self.regions_cache[order].clear(region_index);
        } else {
            self.regions_cache[order].set(region_index);
        }
        proof {
            assert forall|o: int| 0 <= o < ORDERS implies (#[trigger] self.regions_cache@[o]).wf()
                && self.regions_cache@[o]@.len() == self.regions_capacity by {
                if o != order {
                    assert(self.regions_cache@[o] == prev.regions_cache@[o]);
                }
            }
            assert forall|p: int, r: int|
                0 <= p < ORDERS && 0 <= r < prev.regions_capacity && !(p == order && r == region_index)
                    implies #[trigger] self.cache_ok(p, r) == prev.cache_ok(p, r) by {
                if p != order {
                    assert(self.regions_cache@[p] == prev.regions_cache@[p]);
                }
            }
        }
    }

    /// Releases the block at `addr` in the first region spanning it, if any.
    fn deallocate_order_inner(&mut self, addr: usize, order: usize)
        requires
            old(self).wf(),
            old(self).dealloc_allowed(addr as int),
        ensures
            final(self).wf(),
            old(self).dealloc_done(*final(self), addr as int),
            final(self).total() == old(self).total(),
            final(self).allocated() == old(self).allocated(),
            final(self).fragmented() == old(self).fragmented(),
    {
        let mut k: usize = 0;
        while k < self.regions.len()
            invariant
                self.wf(),
                *self == *old(self),
                self.dealloc_allowed(addr as int),
                k <= self.regions@.len(),
                forall|q: int| 0 <= q < k ==> !region_spans(#[trigger] self.regions@[q], addr as int),
            decreases self.regions@.len() - k,
        {
            proof {
                assert(self.regions@[k as int].wf());
                self.regions@[k as int].lemma_bounds();
            }
            let region_start = self.regions[k].usable_frames_base;
            let spans = addr >= region_start && addr - region_start <= self.regions[k].usable_frames * FRAME_SIZE;
            if spans {
                proof {
                    assert(region_spans(self.regions@[k as int], addr as int));
                    assert(self.region_for_addr(addr as int) == Some(k as int)) by {
                        let c = choose|c: int|
                            0 <= c < self.regions().len() && region_spans(self.regions()[c], addr as int) && forall|q: int|
                                0 <= q < c ==> !region_spans(#[trigger] self.regions()[q], addr as int);
                        if c < k {
                            assert(!region_spans(self.regions@[c], addr as int));
                        }
                        if k < c {
                            assert(!region_spans(self.regions@[k as int], addr as int));
                        }
                    }
                }
                self.release_in_region(addr, order, k);
                return;
            }
            k = k + 1;
        }
        proof {
            if exists|q: int| 0 <= q < self.regions().len() && region_spans(#[trigger] self.regions()[q], addr as int) {
                let q = choose|q: int| 0 <= q < self.regions().len() && region_spans(#[trigger] self.regions()[q], addr as int);
                assert(!region_spans(self.regions@[q], addr as int));
            }
        }
    }

    /// Releases the block at `addr` in region `k`, the first region spanning it.
    #[verifier::rlimit(100)]
    fn release_in_region(&mut self, addr: usize, order: usize, k: usize)
        requires
            old(self).wf(),
            old(self).dealloc_allowed(addr as int),
            k < old(self).regions().len(),
            region_spans(old(self).regions()[k as int], addr as int),
            old(self).region_for_addr(addr as int) == Some(k as int),
        ensures
            final(self).wf(),
            old(self).dealloc_done(*final(self), addr as int),
            final(self).total() == old(self).total(),
            final(self).allocated() == old(self).allocated(),
            final(self).fragmented() == old(self).fragmented(),
    {
        let ghost before = *self;
        let ghost kk = k as int;
        let ghost region = self.regions@[kk];
        let ghost f = (addr - region.usable_frames_base) / (FRAME_SIZE as int);
        proof {
            assert(region.wf());
        }
        let deallocation = match self.regions[k].deallocate(order, addr) {
            Some(d) => d,
            None => {
                proof {
                    let o = choose|o: int| 0 <= o < region.num_orders() && #[trigger] region.allocated(o, anc(f, o as nat));
                    assert(!region.allocated(o, anc(f, o as nat)));
                }
                return;
            },
        };
        let ghost lo = deallocation.deallocated_order as int;
        let ghost hi = deallocation.merge_order as int;
        proof {
            assert(region.dealloc_outcome(self.regions@[kk], f, lo, hi));
            self.lemma_release_keeps(before, kk, lo, hi);
        }
        let ghost released_regions = self.regions@;
        let mut cache_order = deallocation.deallocated_order;
        while cache_order <= deallocation.merge_order
            invariant
                self.wf_except_cache(),
                self.regions@ == released_regions,
                self.regions@.len() == before.regions@.len(),
                self.regions_capacity == before.regions_capacity,
                self.total_bytes == before.total_bytes,
                self.allocated_bytes == before.allocated_bytes,
                self.fragmented_bytes == before.fragmented_bytes,
                k < self.regions@.len(),
                cache_order <= deallocation.merge_order + 1,
                deallocation.merge_order < ORDERS,
                forall|p: int, r: int|
                    0 <= p < ORDERS && 0 <= r < self.regions_capacity && !(r == k && cache_order <= p <= deallocation.merge_order)
                        ==> #[trigger] self.cache_ok(p, r),
            decreases deallocation.merge_order + 1 - cache_order,
        {
            self.update_region_cache(cache_order, k);
            cache_order = cache_order + 1;
        }
        proof {
            before.lemma_dealloc_done(*self, addr as int, kk, lo, hi);
        }
    }

    /// Releasing through region `k`, the first spanning `addr`, is what `dealloc_done`
    /// describes, whatever the cache holds.
    proof fn lemma_dealloc_done(&self, after: Self, addr: int, k: int, lo: int, hi: int)
        requires
            0 <= k < self.regions@.len(),
            self.region_for_addr(addr) == Some(k),
            after.regions@.len() == self.regions@.len(),
            after.regions@ == self.regions@.update(k, after.regions@[k]),
            after.regions_capacity == self.regions_capacity,
            self.regions@[k].dealloc_outcome(
                after.regions@[k],
                (addr - self.regions@[k].usable_frames_base) / (FRAME_SIZE as int),
                lo,
                hi,
            ),
        ensures
            self.dealloc_done(after, addr),
    {
        let f = (addr - self.regions@[k].usable_frames_base) / (FRAME_SIZE as int);
        assert(self.regions()[k].dealloc_outcome(after.regions()[k], f, lo, hi));
        assert forall|q: int| 0 <= q < self.regions().len() && q != k implies #[trigger] after.regions()[q] == self.regions()[q] by {
        }
        assert(self.released_in(after, k, addr));
    }

    /// After region `k` of `before` released a block of order `lo` and merged up to `hi`,
    /// everything but the cache bits of region `k` at orders `lo..=hi` is still in order.
    proof fn lemma_release_keeps(&self, before: Self, k: int, lo: int, hi: int)
        requires
            before.wf(),
            0 <= k < before.regions@.len(),
            self.regions@.len() == before.regions@.len(),
            self.regions@ == before.regions@.update(k, self.regions@[k]),
            self.regions_capacity == before.regions_capacity,
            self.regions_cache@ == before.regions_cache@,
            self.regions@[k].wf(),
            self.regions@[k].usable_frames_base == before.regions@[k].usable_frames_base,
            exists|f: int| before.regions@[k].dealloc_outcome(self.regions@[k], f, lo, hi),
        ensures
            0 <= lo <= hi < ORDERS,
            self.wf_except_cache(),
            forall|p: int, r: int|
                0 <= p < ORDERS && 0 <= r < self.regions_capacity && !(r == k && lo <= p <= hi)
                    ==> #[trigger] self.cache_ok(p, r),
    {
        let region = before.regions@[k];
        let now = self.regions@[k];
        let f = choose|f: int| region.dealloc_outcome(now, f, lo, hi);
        reveal(Region::dealloc_outcome);
        region.lemma_bounds();
        region.lemma_marked_in_orders(lo, anc(f, lo as nat));
        assert forall|q: int| 0 <= q < self.regions@.len() implies (#[trigger] self.regions@[q]).wf() by {
            if q != k {
                assert(self.regions@[q] == before.regions@[q]);
            }
        }
        assert forall|a: int, b: int|
            0 <= a < b < self.regions@.len() implies (#[trigger] self.regions@[a]).usable_frames_base
                <= (#[trigger] self.regions@[b]).usable_frames_base by {
            assert(before.regions@[a].usable_frames_base <= before.regions@[b].usable_frames_base);
        }
        assert forall|p: int, r: int|
            0 <= p < ORDERS && 0 <= r < self.regions_capacity && !(r == k && lo <= p <= hi)
                implies #[trigger] self.cache_ok(p, r) by {
            assert(before.cache_ok(p, r));
            if r == k {
                if region.has_free(p) {
                    let i = choose|i: int| #[trigger] region.free(p, i);
                    assert(now.free(p, i));
                }
                if now.has_free(p) {
                    let i = choose|i: int| #[trigger] now.free(p, i);
                    assert(region.free(p, i));
                }
            } else if r < self.regions@.len() {
                assert(self.regions@[r] == before.regions@[r]);
            }
        }
    }

    /// `after` is this allocator after asking to add a region of `frames` frames at `base`
    /// with outcome `r`: it fails, changing nothing, when the region's metadata would take
    /// every frame or, failing that, when the allocator already holds its capacity of
    /// regions; otherwise the fresh region goes in at its place by base address and its
    /// usable bytes count towards the total.
    pub open spec fn add_done(&self, after: Self, base: int, frames: int, r: Result<(), BuddyAllocatorError>) -> bool {
        let meta = region_meta_frames(FRAME_SIZE as nat, frames as nat, ORDERS as nat);
        let too_small = frames == 0 || meta >= frames;
        &&& after.capacity() == self.capacity()
        &&& after.allocated() == self.allocated()
        &&& after.fragmented() == self.fragmented()
        &&& match r {
            Err(BuddyAllocatorError::RegionTooSmall) => too_small && after.regions() == self.regions()
                && after.total() == self.total(),
            Err(BuddyAllocatorError::MaxCapacity) => !too_small && self.regions().len() == self.capacity()
                && after.regions() == self.regions() && after.total() == self.total(),
            Err(BuddyAllocatorError::Layout(_)) => false,
            Ok(()) => {
                &&& !too_small
                &&& self.regions().len() < self.capacity()
                &&& exists|pos: int| #[trigger] self.inserted_at(after, pos, base, frames)
            },
        }
    }

    /// `after` holds this allocator's regions with a fresh region of `frames` frames at
    /// `base` inserted at `pos`, after every region with a base address at most its own,
    /// and its usable bytes added to the total.
    pub open spec fn inserted_at(&self, after: Self, pos: int, base: int, frames: int) -> bool {
        let region = after.regions()[pos];
        &&& 0 <= pos <= self.regions().len()
        &&& region.fresh(base, frames)
        &&& after.regions() == self.regions().insert(pos, region)
        &&& forall|q: int| 0 <= q < pos ==> (#[trigger] self.regions()[q]).usable_frames_base <= region.usable_frames_base
        &&& forall|q: int|
            pos <= q < self.regions().len() ==> (#[trigger] self.regions()[q]).usable_frames_base > region.usable_frames_base
        &&& after.total() == self.total() + region.usable_frames * FRAME_SIZE
    }

    /// Brings every cache bit of region `index` up to date.
    fn refresh_region_cache(&mut self, index: usize)
        requires
            old(self).wf_except_cache(),
            index < old(self).regions@.len(),
        ensures
            final(self).wf_except_cache(),
            final(self).regions@ == old(self).regions@,
            final(self).regions_capacity == old(self).regions_capacity,
            final(self).total() == old(self).total(),
            final(self).allocated() == old(self).allocated(),
            final(self).fragmented() == old(self).fragmented(),
            forall|p: int| 0 <= p < ORDERS ==> #[trigger] final(self).cache_ok(p, index as int),
            forall|p: int, r: int|
                0 <= p < ORDERS && 0 <= r < old(self).regions_capacity && r != index
                    ==> #[trigger] final(self).cache_ok(p, r) == old(self).cache_ok(p, r),
    {
        let ghost start = *self;
        let mut order: usize = 0;
        while order < ORDERS
            invariant
                self.wf_except_cache(),
                order <= ORDERS,
                index < self.regions@.len(),
                self.regions@ == start.regions@,
                self.regions_capacity == start.regions_capacity,
                self.total_bytes == start.total_bytes,
                self.allocated_bytes == start.allocated_bytes,
                self.fragmented_bytes == start.fragmented_bytes,
                forall|p: int| 0 <= p < order ==> #[trigger] self.cache_ok(p, index as int),
                forall|p: int, r: int|
                    0 <= p < ORDERS && 0 <= r < start.regions_capacity && r != index
                        ==> #[trigger] self.cache_ok(p, r) == start.cache_ok(p, r),
            decreases ORDERS - order,
        {
            self.update_region_cache(order, index);
            order = order + 1;
        }
    }

    /// Adds a region of `frames` frames at `base` at its place by base address.
    fn add_region_inner(&mut self, base: usize, frames: usize) -> (r: Result<(), BuddyAllocatorError>)
        requires
            old(self).wf(),
            base % FRAME_SIZE == 0,
            frames + 64 <= usize::MAX,
            base + frames * FRAME_SIZE <= usize::MAX,
            region_meta_bytes(frames as nat, ORDERS as nat) <= max_layout_size(),
            old(self).total() + frames * FRAME_SIZE <= usize::MAX,
        ensures
            final(self).wf(),
            old(self).add_done(*final(self), base as int, frames as int, r),
            r is Err ==> *final(self) == *old(self),
    {
        if frames == 0 {
            return Err(BuddyAllocatorError::RegionTooSmall);
        }
        let region = match Region::<ORDERS, FRAME_SIZE>::new(base, frames) {
            Ok(region) => region,
            Err(RegionError::TooSmall) => return Err(BuddyAllocatorError::RegionTooSmall),
        };
        if self.regions.len() >= self.regions_capacity {
            return Err(BuddyAllocatorError::MaxCapacity);
        }
        proof {
            region.lemma_bounds();
            crate::region::lemma_region_meta_frames_nonneg(FRAME_SIZE as nat, frames as nat, ORDERS as nat);
            assert(region.usable_frames * FRAME_SIZE <= frames * FRAME_SIZE) by (nonlinear_arith)
                requires
                    region.usable_frames <= frames,
            ;
        }
        let region_bytes = region.usable_frames * FRAME_SIZE;
        let new_base = region.usable_frames_base;
        let mut pos: usize = 0;
        while pos < self.regions.len() && self.regions[pos].usable_frames_base <= new_base
            invariant
                self.wf(),
                *self == *old(self),
                pos <= self.regions@.len(),
                forall|q: int| 0 <= q < pos ==> (#[trigger] self.regions@[q]).usable_frames_base <= new_base,
            decreases self.regions@.len() - pos,
        {
            pos = pos + 1;
        }
        let ghost before = *self;
        proof {
            assert forall|q: int| pos <= q < before.regions@.len() implies (#[trigger] before.regions@[q]).usable_frames_base > new_base by {
                if q > pos {
                    assert(before.regions@[pos as int].usable_frames_base <= before.regions@[q].usable_frames_base);
                }
            }
        }
        self.regions.insert(pos, region);
        self.total_bytes = self.total_bytes + region_bytes;
        proof {
            let n = self.regions@.len() as int;
            assert(self.regions@ == before.regions@.insert(pos as int, region));
            assert forall|k: int| 0 <= k < n implies (#[trigger] self.regions@[k]).wf() by {
                if k < pos {
                    assert(self.regions@[k] == before.regions@[k]);
                } else if k > pos {
                    assert(self.regions@[k] == before.regions@[k - 1]);
                }
            }
            assert forall|a: int, b: int|
                0 <= a < b < n implies (#[trigger] self.regions@[a]).usable_frames_base
                    <= (#[trigger] self.regions@[b]).usable_frames_base by {
                let ra = if a < pos { a } else if a == pos { -1 } else { a - 1 };
                let rb = if b < pos { b } else if b == pos { -1 } else { b - 1 };
                if a != pos && b != pos {
                    assert(before.regions@[ra].usable_frames_base <= before.regions@[rb].usable_frames_base);
                } else if a == pos {
                    assert(self.regions@[b] == before.regions@[rb]);
                } else {
                    assert(self.regions@[a] == before.regions@[ra]);
                }
            }
            assert forall|p: int, r: int|
                0 <= p < ORDERS && 0 <= r < self.regions_capacity && !(pos <= r < n)
                    implies #[trigger] self.cache_ok(p, r) by {
                assert(before.cache_ok(p, r));
                if r < pos {
                    assert(self.regions@[r] == before.regions@[r]);
                }
            }
        }
        let mut index: usize = pos;
        let n = self.regions.len();
        while index < n
            invariant
                self.wf_except_cache(),
                pos <= index <= n,
                pos <= before.regions@.len(),
                n == self.regions@.len(),
                self.regions@ == before.regions@.insert(pos as int, region),
                self.regions_capacity == before.regions_capacity,
                self.total_bytes == before.total_bytes + region_bytes,
                self.allocated_bytes == before.allocated_bytes,
                self.fragmented_bytes == before.fragmented_bytes,
                forall|p: int, r: int|
                    0 <= p < ORDERS && 0 <= r < self.regions_capacity && !(index <= r < n)
                        ==> #[trigger] self.cache_ok(p, r),
            decreases n - index,
        {
            self.refresh_region_cache(index);
            index = index + 1;
        }
        proof {
            assert(self.regions@[pos as int] == region);
            assert(before.inserted_at(*self, pos as int, base as int, frames as int));
        }
        Ok(())
    }

    /// Adds a region of `frames` frames at `base`, keeping the regions sorted by base
    /// address.
    pub fn add_region(&mut self, base: usize, frames: usize) -> (r: Result<(), BuddyAllocatorError>)
        requires
            old(self).wf(),
            base % FRAME_SIZE == 0,
            frames + 64 <= usize::MAX,
            base + frames * FRAME_SIZE <= usize::MAX,
            region_meta_bytes(frames as nat, ORDERS as nat) <= max_layout_size(),
            old(self).total() + frames * FRAME_SIZE <= usize::MAX,
        ensures
            final(self).wf(),
            old(self).add_done(*final(self), base as int, frames as int, r),
            r is Err ==> *final(self) == *old(self),
    {
        self.add_region_inner(base, frames)
    }

    /// `trace` runs from this allocator to `after` through adding `regions` one by one in
    /// order, each step an addition that succeeded; `r` is `Ok` when every region was
    /// added, and otherwise the failure of the first region that could not be, which
    /// changed nothing.
    pub open spec fn added_all(
        &self,
        after: Self,
        regions: Seq<(usize, usize)>,
        trace: Seq<Self>,
        r: Result<(), BuddyAllocatorError>,
    ) -> bool {
        let n = trace.len() - 1;
        &&& trace.len() >= 1
        &&& trace[0] == *self
        &&& trace[n] == after
        &&& n <= regions.len()
        &&& forall|i: int|
            0 <= i < n ==> (#[trigger] trace[i]).add_done(trace[i + 1], regions[i].0 as int, regions[i].1 as int, Ok(()))
        &&& (r is Ok) == (n == regions.len())
        &&& r is Err ==> after.add_done(after, regions[n].0 as int, regions[n].1 as int, r)
    }

    /// Each of `regions`, a list of `(base, frames)`, is one that `add_region` accepts.
    pub open spec fn regions_addable(regions: Seq<(usize, usize)>) -> bool {
        forall|i: int|
            0 <= i < regions.len() ==> {
                let (base, frames) = #[trigger] regions[i];
                &&& base % FRAME_SIZE == 0
                &&& frames + 64 <= usize::MAX
                &&& base + frames * FRAME_SIZE <= usize::MAX
                &&& region_meta_bytes(frames as nat, ORDERS as nat) <= max_layout_size()
            }
    }

    /// Adds each of `regions`, a list of `(base, frames)`, in order; stops at the first
    /// that cannot be added and returns its failure.
    pub fn add_regions(&mut self, regions: &[(usize, usize)]) -> (r: Result<(), BuddyAllocatorError>)
        requires
            old(self).wf(),
            Self::regions_addable(regions@),
            old(self).total() + frames_bytes(regions@, FRAME_SIZE as int) <= usize::MAX,
        ensures
            final(self).wf(),
            exists|trace: Seq<Self>| #[trigger] old(self).added_all(*final(self), regions@, trace, r),
    {
        let ghost mut trace: Seq<Self> = seq![*self];
        let mut i: usize = 0;
        proof {
            assert(regions@.subrange(0, regions@.len() as int) =~= regions@);
        }
        while i < regions.len()
            invariant
                self.wf(),
                i <= regions@.len(),
                Self::regions_addable(regions@),
                self.total() + frames_bytes(regions@.subrange(i as int, regions@.len() as int), FRAME_SIZE as int)
                    <= usize::MAX,
                trace.len() == i + 1,
                trace[0] == *old(self),
                trace[i as int] == *self,
                forall|j: int|
                    0 <= j < i ==> (#[trigger] trace[j]).add_done(trace[j + 1], regions@[j].0 as int, regions@[j].1 as int, Ok(())),
            decreases regions@.len() - i,
        {
            let (base, frames) = regions[i];
            let ghost rest = regions@.subrange(i as int, regions@.len() as int);
            proof {
                assert(rest[0] == regions@[i as int]);
                assert(rest.drop_first() =~= regions@.subrange(i + 1, regions@.len() as int));
                lemma_frames_bytes_nonneg(rest.drop_first(), FRAME_SIZE as int);
            }
            let ghost prev = *self;
            match self.add_region_inner(base, frames) {
                Ok(()) => {},
                Err(e) => {
                    proof {
                        assert(prev.add_done(*self, base as int, frames as int, Err(e)));
                        assert(old(self).added_all(*self, regions@, trace, Err(e)));
                    }
                    return Err(e);
                },
            }
            proof {
                let pos = choose|pos: int| #[trigger] prev.inserted_at(*self, pos, base as int, frames as int);
                let region = self.regions()[pos];
                crate::region::lemma_region_meta_frames_nonneg(FRAME_SIZE as nat, frames as nat, ORDERS as nat);
                assert(region.usable_frames * FRAME_SIZE <= frames * FRAME_SIZE) by (nonlinear_arith)
                    requires
                        region.usable_frames <= frames,
                ;
                trace = trace.push(*self);
            }
            i = i + 1;
        }
        proof {
            assert(old(self).added_all(*self, regions@, trace, Ok(())));
        }
        Ok(())
    }

    /// Whether `add_region` can take a region of `frames` frames at `base`: the base is
    /// frame aligned, the region and its metadata fit in the address space.
    pub fn region_addable(base: usize, frames: usize) -> (r: bool)
        requires
            ORDERS >= 1,
            FRAME_SIZE >= 1,
        ensures
            r == ({
                &&& base % FRAME_SIZE == 0
                &&& frames + 64 <= usize::MAX
                &&& base + frames * FRAME_SIZE <= usize::MAX
                &&& region_meta_bytes(frames as nat, ORDERS as nat) <= max_layout_size()
            }),
    {
        if base % FRAME_SIZE != 0 || frames > usize::MAX - 64 {
            return false;
        }
        let room = (usize::MAX - base) / FRAME_SIZE;
        proof {
            let m = usize::MAX - base;
            assert(room * FRAME_SIZE <= m && m < (room + 1) * FRAME_SIZE) by (nonlinear_arith)
                requires
                    room == m / (FRAME_SIZE as int),
                    FRAME_SIZE >= 1,
                    m >= 0,
            ;
            if frames <= room {
                assert(frames * FRAME_SIZE <= room * FRAME_SIZE) by (nonlinear_arith)
                    requires
                        frames <= room,
                        FRAME_SIZE >= 1,
                ;
            } else {
                assert(frames * FRAME_SIZE >= (room + 1) * FRAME_SIZE) by (nonlinear_arith)
                    requires
                        frames >= room + 1,
                        FRAME_SIZE >= 1,
                ;
            }
        }
        if frames > room {
            return false;
        }
        if frames == 0 {
            proof {
                lemma_region_meta_bytes_empty(ORDERS as nat);
            }
            return true;
        }
        match crate::region::RegionLayout::<ORDERS>::new(FRAME_SIZE, frames) {
            Ok(_) => true,
            Err(_) => false,
        }
    }

    /// Whether `new` can be asked for an allocator over `frames` frames at `base` with room
    /// for `regions_capacity` regions: the counts leave room for word arithmetic, the base
    /// is frame aligned, the frames fit in the address space, and when the allocator's own
    /// metadata leaves frames over, the region made of them has metadata that fits.
    pub fn new_allowed(base: usize, frames: usize, regions_capacity: usize) -> (r: bool)
        ensures
            r == ({
                &&& ORDERS >= 1
                &&& FRAME_SIZE >= 1
                &&& regions_capacity + 64 <= usize::MAX
                &&& base % FRAME_SIZE == 0
                &&& frames + 64 <= usize::MAX
                &&& base + frames * FRAME_SIZE <= usize::MAX
                &&& allocator_meta_frames(FRAME_SIZE as nat, regions_capacity as nat, ORDERS as nat) <= frames
                    ==> region_meta_bytes(
                    (frames - allocator_meta_frames(FRAME_SIZE as nat, regions_capacity as nat, ORDERS as nat)) as nat,
                    ORDERS as nat,
                ) <= max_layout_size()
            }),
    {
        if ORDERS < 1 || FRAME_SIZE < 1 || regions_capacity > usize::MAX - 64 {
            return false;
        }
        if base % FRAME_SIZE != 0 || frames > usize::MAX - 64 {
            return false;
        }
        let room = (usize::MAX - base) / FRAME_SIZE;
        proof {
            let m = usize::MAX - base;
            assert(room * FRAME_SIZE <= m && m < (room + 1) * FRAME_SIZE) by (nonlinear_arith)
                requires
                    room == m / (FRAME_SIZE as int),
                    FRAME_SIZE >= 1,
                    m >= 0,
            ;
            if frames <= room {
                assert(frames * FRAME_SIZE <= room * FRAME_SIZE) by (nonlinear_arith)
                    requires
                        frames <= room,
                        FRAME_SIZE >= 1,
                ;
            } else {
                assert(frames * FRAME_SIZE >= (room + 1) * FRAME_SIZE) by (nonlinear_arith)
                    requires
                        frames >= room + 1,
                        FRAME_SIZE >= 1,
                ;
            }
        }
        if frames > room {
            return false;
        }
        let entries: u128 = (regions_capacity as u128 + 63) / 64;
        proof {
            assert(entries <= 0x800_0000_0000_0000);
            assert(ORDERS as u128 * (8 * entries) <= 0x1_0000_0000_0000_0000u128 * 0x4000_0000_0000_0000u128) by (nonlinear_arith)
                requires
                    entries <= 0x800_0000_0000_0000,
                    ORDERS < 0x1_0000_0000_0000_0000u128,
            ;
        }
        let bytes: u128 = REGION_RECORD_BYTES as u128 * regions_capacity as u128 + ORDERS as u128 * (8 * entries);
        let meta: u128 = (bytes + FRAME_SIZE as u128 - 1) / FRAME_SIZE as u128;
        proof {
            assert(bytes == allocator_meta_bytes(regions_capacity as nat, ORDERS as nat));
            assert(meta == allocator_meta_frames(FRAME_SIZE as nat, regions_capacity as nat, ORDERS as nat));
        }
        if meta > frames as u128 {
            return true;
        }
        let rest = frames - meta as usize;
        if rest == 0 {
            proof {
                lemma_region_meta_bytes_empty(ORDERS as nat);
            }
            return true;
        }
        match crate::region::RegionLayout::<ORDERS>::new(FRAME_SIZE, rest) {
            Ok(_) => true,
            Err(_) => false,
        }
    }

    /// Whether `add_regions` can take `regions`: each of them is one `add_region` takes,
    /// and the allocator's byte count has room for all their frames.
    pub fn regions_fit(&self, regions: &[(usize, usize)]) -> (r: bool)
        requires
            self.wf(),
        ensures
            r == (Self::regions_addable(regions@) && self.total() + frames_bytes(regions@, FRAME_SIZE as int)
                <= usize::MAX),
    {
        let mut i: usize = regions.len();
        let mut acc: usize = 0;
        proof {
            assert(regions@.subrange(i as int, regions@.len() as int) =~= Seq::<(usize, usize)>::empty());
        }
        while i > 0
            invariant
                self.wf(),
                i <= regions@.len(),
                acc == frames_bytes(regions@.subrange(i as int, regions@.len() as int), FRAME_SIZE as int),
                self.total() + acc <= usize::MAX,
                forall|j: int|
                    i <= j < regions@.len() ==> {
                        let (base, frames) = #[trigger] regions@[j];
                        &&& base % FRAME_SIZE == 0
                        &&& frames + 64 <= usize::MAX
                        &&& base + frames * FRAME_SIZE <= usize::MAX
                        &&& region_meta_bytes(frames as nat, ORDERS as nat) <= max_layout_size()
                    },
            decreases i,
        {
            i = i - 1;
            let (base, frames) = regions[i];
            if !Self::region_addable(base, frames) {
                proof {
                    assert(!Self::regions_addable(regions@)) by {
                        assert(regions@[i as int] == (base, frames));
                    }
                }
                return false;
            }
            let ghost suffix = regions@.subrange(i as int, regions@.len() as int);
            proof {
                assert(suffix.drop_first() =~= regions@.subrange(i + 1, regions@.len() as int));
                assert(suffix[0] == (base, frames));
                assert(frames * FRAME_SIZE <= base + frames * FRAME_SIZE);
            }
            let bytes = frames * FRAME_SIZE;
            if self.total_bytes > usize::MAX - acc || bytes > usize::MAX - acc - self.total_bytes {
                proof {
                    lemma_frames_bytes_suffix(regions@, i as int, FRAME_SIZE as int);
                }
                return false;
            }
            acc = acc + bytes;
        }
        proof {
            assert(regions@.subrange(0, regions@.len() as int) =~= regions@);
        }
        true
    }

    /// Creates an allocator for up to `regions_capacity` regions over `frames` frames at
    /// `base`: its own metadata takes the first frames, and the rest become its first
    /// region.
    pub fn new(base: usize, frames: usize, regions_capacity: usize) -> (r: Result<Self, BuddyAllocatorError>)
        requires
            ORDERS >= 1,
            FRAME_SIZE >= 1,
            regions_capacity + 64 <= usize::MAX,
            base % FRAME_SIZE == 0,
            frames + 64 <= usize::MAX,
            base + frames * FRAME_SIZE <= usize::MAX,
            allocator_meta_frames(FRAME_SIZE as nat, regions_capacity as nat, ORDERS as nat) <= frames
                ==> region_meta_bytes(
                (frames - allocator_meta_frames(FRAME_SIZE as nat, regions_capacity as nat, ORDERS as nat)) as nat,
                ORDERS as nat,
            ) <= max_layout_size(),
        ensures
            ({
                let fits = allocator_meta_bytes(regions_capacity as nat, ORDERS as nat) <= max_layout_size();
                let meta = allocator_meta_frames(FRAME_SIZE as nat, regions_capacity as nat, ORDERS as nat);
                match r {
                    Err(BuddyAllocatorError::Layout(_)) => !fits,
                    Err(BuddyAllocatorError::RegionTooSmall) => fits && (meta > frames || meta == frames
                        || region_meta_frames(FRAME_SIZE as nat, (frames - meta) as nat, ORDERS as nat)
                        >= frames - meta),
                    Err(BuddyAllocatorError::MaxCapacity) => fits && meta < frames && regions_capacity == 0
                        && region_meta_frames(FRAME_SIZE as nat, (frames - meta) as nat, ORDERS as nat)
                        < frames - meta,
                    Ok(a) => {
                        &&& fits
                        &&& meta <= frames
                        &&& a.wf()
                        &&& a.capacity() == regions_capacity
                        &&& a.regions().len() == 1
                        &&& a.regions()[0].fresh(base + meta * FRAME_SIZE, frames - meta)
                        &&& a.total() == a.regions()[0].usable_frames * FRAME_SIZE
                        &&& a.allocated() == 0
                        &&& a.fragmented() == 0
                    },
                }
            }),
    {
        let layout = match BuddyAllocatorLayout::<ORDERS, FRAME_SIZE>::new(regions_capacity) {
            Ok(layout) => layout,
            Err(e) => return Err(BuddyAllocatorError::Layout(e)),
        };
        let meta_frames = layout.meta_frames();
        if meta_frames > frames {
            return Err(BuddyAllocatorError::RegionTooSmall);
        }
        let mut regions_cache: Vec<Bitmap> = Vec::new();
        let mut order: usize = 0;
        while order < ORDERS
            invariant
                layout.wf(regions_capacity as nat),
                order <= ORDERS,
                regions_cache@.len() == order,
                forall|o: int|
                    0 <= o < order ==> (#[trigger] regions_cache@[o]).wf() && regions_cache@[o]@ == Seq::new(
                        regions_capacity as nat,
                        |i: int| false,
                    ),
            decreases ORDERS - order,
        {
            let cache_layout = layout.region_caches[order];
            regions_cache.push(Bitmap::from_layout(cache_layout.layout));
            order = order + 1;
        }
        let mut me = BuddyAllocator {
            regions: Vec::new(),
            regions_capacity,
            regions_cache,
            total_bytes: 0,
            allocated_bytes: 0,
            fragmented_bytes: 0,
        };
        proof {
            assert forall|o: int, r: int| 0 <= o < ORDERS && 0 <= r < regions_capacity implies #[trigger] me.cache_ok(o, r) by {
                assert(me.regions_cache@[o]@[r] == false);
            }
            assert(meta_frames * FRAME_SIZE <= frames * FRAME_SIZE) by (nonlinear_arith)
                requires
                    meta_frames <= frames,
            ;
            assert((base + meta_frames * FRAME_SIZE) % (FRAME_SIZE as int) == 0) by {
                vstd::arithmetic::div_mod::lemma_mod_multiples_vanish(meta_frames as int, base as int, FRAME_SIZE as int);
            }
            assert(base + meta_frames * FRAME_SIZE + (frames - meta_frames) * FRAME_SIZE == base + frames * FRAME_SIZE) by (nonlinear_arith)
                requires
                    meta_frames <= frames,
            ;
            assert((frames - meta_frames) * FRAME_SIZE <= frames * FRAME_SIZE) by (nonlinear_arith)
                requires
                    meta_frames <= frames,
            ;
        }
        let ghost empty = me;
        match me.add_region(base + meta_frames * FRAME_SIZE, frames - meta_frames) {
            Ok(()) => {},
            Err(e) => return Err(e),
        }
        proof {
            let pos = choose|pos: int| #[trigger] empty.inserted_at(me, pos, (base + meta_frames * FRAME_SIZE) as int, (frames - meta_frames) as int);
            assert(pos == 0);
        }
        Ok(me)
    }

    /// Allocates a block for `size` bytes, of order the floor logarithm of `size` to the
    /// base `FRAME_SIZE`; counts `size` bytes as allocated and the rest of a block of that
    /// order as fragmented, whether or not a block was found.
    pub fn allocate(&mut self, size: usize) -> (r: Result<usize, AllocateError>)
        requires
            old(self).wf(),
            FRAME_SIZE >= 2,
            size >= 1,
            size <= pow2(floor_log(FRAME_SIZE as nat, size as nat)) * FRAME_SIZE <= usize::MAX,
            old(self).allocated() + size <= usize::MAX,
            old(self).fragmented() + pow2(floor_log(FRAME_SIZE as nat, size as nat)) * FRAME_SIZE - size
                <= usize::MAX,
        ensures
            ({
                let order = floor_log(FRAME_SIZE as nat, size as nat);
                &&& final(self).wf()
                &&& old(self).alloc_done(*final(self), order as int, r)
                &&& final(self).total() == old(self).total()
                &&& final(self).allocated() == old(self).allocated() + size
                &&& final(self).fragmented() == old(self).fragmented() + pow2(order) * FRAME_SIZE - size
            }),
    {
        let order = ilog_floor(FRAME_SIZE, size);
        let block_bytes = Self::block_bytes(order);
        let r = self.allocate_order_inner(order);
        let ghost prev = *self;
        self.allocated_bytes = self.allocated_bytes + size;
        self.fragmented_bytes = self.fragmented_bytes + (block_bytes - size);
        proof {
            prev.lemma_wf_same_structure(self);
            assert(self.regions() == prev.regions());
        }
        r
    }

    /// Releases the block at `addr` that was allocated for `size` bytes, and uncounts the
    /// bytes `allocate` counted for it.
    pub fn deallocate(&mut self, addr: usize, size: usize)
        requires
            old(self).wf(),
            old(self).dealloc_allowed(addr as int),
            FRAME_SIZE >= 2,
            size >= 1,
            size <= pow2(floor_log(FRAME_SIZE as nat, size as nat)) * FRAME_SIZE <= usize::MAX,
            old(self).allocated() >= size,
            old(self).fragmented() >= pow2(floor_log(FRAME_SIZE as nat, size as nat)) * FRAME_SIZE - size,
        ensures
            ({
                let order = floor_log(FRAME_SIZE as nat, size as nat);
                &&& final(self).wf()
                &&& old(self).dealloc_done(*final(self), addr as int)
                &&& final(self).total() == old(self).total()
                &&& final(self).allocated() == old(self).allocated() - size
                &&& final(self).fragmented() == old(self).fragmented() - (pow2(order) * FRAME_SIZE - size)
            }),
    {
        let order = ilog_floor(FRAME_SIZE, size);
        self.deallocate_order_inner(addr, order);
        let block_bytes = Self::block_bytes(order);
        let ghost prev = *self;
        self.allocated_bytes = self.allocated_bytes - size;
        self.fragmented_bytes = self.fragmented_bytes - (block_bytes - size);
        proof {
            prev.lemma_wf_same_structure(self);
        }
    }

    /// No region's usable frames reach the start of a later region.
    pub open spec fn separated(&self) -> bool {
        forall|a: int, b: int|
            0 <= a < b < self.regions().len() ==> (#[trigger] self.regions()[a]).usable_frames_base
                + self.regions()[a].usable_frames * FRAME_SIZE < (#[trigger] self.regions()[b]).usable_frames_base
    }

    /// The region and order an allocation that succeeds takes its block from.
    proof fn lemma_alloc_target(&self, order: int)
        requires
            exists|o: int| order <= o < ORDERS && #[trigger] self.has_free_at(o),
        ensures
            order <= self.alloc_order_for(order) < ORDERS,
            0 <= self.alloc_region_for(self.alloc_order_for(order)) < self.regions().len(),
            self.regions()[self.alloc_region_for(self.alloc_order_for(order))].has_free(self.alloc_order_for(order)),
    {
        let w = choose|o: int| order <= o < ORDERS && #[trigger] self.has_free_at(o);
        let lo = choose|o: int| order <= o <= w && self.has_free_at(o) && forall|p: int| order <= p < o ==> !#[trigger] self.has_free_at(p);
        // A lowest order with a free block exists below `w`.
        assert(exists|o: int| order <= o <= w && self.has_free_at(o) && forall|p: int| order <= p < o ==> !#[trigger] self.has_free_at(p)) by {
            self.lemma_lowest_order(order, w);
        }
        let o = self.alloc_order_for(order);
        assert(order <= lo < ORDERS && self.has_free_at(lo) && forall|p: int| order <= p < lo ==> !#[trigger] self.has_free_at(p));
        let kw = choose|k: int| 0 <= k < self.regions().len() && #[trigger] self.regions()[k].has_free(o);
        assert(exists|k: int| 0 <= k < self.regions().len() && self.regions()[k].has_free(o) && forall|q: int|
            0 <= q < k ==> !#[trigger] self.regions()[q].has_free(o)) by {
            self.lemma_first_region(o, kw);
        }
    }

    /// Below any order with a free block there is a lowest one at or above `order`.
    proof fn lemma_lowest_order(&self, order: int, w: int)
        requires
            order <= w,
            self.has_free_at(w),
        ensures
            exists|o: int| order <= o <= w && self.has_free_at(o) && forall|p: int| order <= p < o ==> !#[trigger] self.has_free_at(p),
        decreases w - order,
    {
        if exists|p: int| order <= p < w && #[trigger] self.has_free_at(p) {
            let p = choose|p: int| order <= p < w && #[trigger] self.has_free_at(p);
            self.lemma_lowest_order(order, p);
        } else {
            assert(order <= w <= w && self.has_free_at(w) && forall|p: int| order <= p < w ==> !#[trigger] self.has_free_at(p));
        }
    }

    /// Before any region with a free block of order `o` there is a first one.
    proof fn lemma_first_region(&self, o: int, w: int)
        requires
            0 <= w < self.regions().len(),
            self.regions()[w].has_free(o),
        ensures
            exists|k: int| 0 <= k < self.regions().len() && self.regions()[k].has_free(o) && forall|q: int|
                0 <= q < k ==> !#[trigger] self.regions()[q].has_free(o),
        decreases w,
    {
        if exists|q: int| 0 <= q < w && #[trigger] self.regions()[q].has_free(o) {
            let q = choose|q: int| 0 <= q < w && #[trigger] self.regions()[q].has_free(o);
            self.lemma_first_region(o, q);
        } else {
            assert(0 <= w < self.regions().len() && self.regions()[w].has_free(o) && forall|q: int|
                0 <= q < w ==> !#[trigger] self.regions()[q].has_free(o));
        }
    }

    /// A successful allocation hands out a block of `2^order` frames that lies inside the
    /// usable frames of one region, was not allocated before and is now, and shares no
    /// frame with any block that region had allocated before.
    pub proof fn lemma_allocation_is_unused(&self, after: Self, order: int, r: Result<usize, AllocateError>)
        requires
            self.wf(),
            0 <= order,
            self.alloc_done(after, order, r),
            r is Ok,
        ensures
            ({
                let o = self.alloc_order_for(order);
                let k = self.alloc_region_for(o);
                let region = self.regions()[k];
                let now = after.regions()[k];
                let idx = region.alloc_index(order, o);
                let addr = r->Ok_0;
                &&& 0 <= k < self.regions().len()
                &&& now.allocated(order, idx)
                &&& !region.allocated(order, idx)
                &&& addr == region.block_addr(order, idx)
                &&& (addr - region.usable_frames_base) % (pow2(order as nat) * FRAME_SIZE) as int == 0
                &&& region.usable_frames_base <= addr
                &&& addr + pow2(order as nat) * FRAME_SIZE <= region.usable_frames_base + region.usable_frames
                    * FRAME_SIZE
                &&& forall|p: int, j: int|
                    #[trigger] region.allocated(p, j) ==> (idx + 1) * pow2(order as nat) <= j * pow2(p as nat)
                        || (j + 1) * pow2(p as nat) <= idx * pow2(order as nat)
            }),
    {
        self.lemma_alloc_target(order);
        let o = self.alloc_order_for(order);
        let k = self.alloc_region_for(o);
        let region = self.regions()[k];
        let now = after.regions()[k];
        let idx = region.alloc_index(order, o);
        assert(region.wf());
        region.lemma_alloc_facts(now, order, o);
        region.lemma_allocation_law(now, order, o);
        now.lemma_marked_in_usable(order, idx);
        assert forall|p: int, jj: int| #[trigger] region.allocated(p, jj) implies (idx + 1) * pow2(order as nat)
            <= jj * pow2(p as nat) || (jj + 1) * pow2(p as nat) <= idx * pow2(order as nat) by {
            assert(now.allocated(p, jj));
            now.lemma_marked_apart(order, idx, p, jj);
        }
        let q = pow2(order as nat) as int;
        let b = region.usable_frames_base as int;
        assert(b + idx * q * FRAME_SIZE + q * FRAME_SIZE <= b + region.usable_frames * FRAME_SIZE) by (nonlinear_arith)
            requires
                (idx + 1) * q <= region.usable_frames,
                FRAME_SIZE >= 1,
        ;
        assert(idx * q * FRAME_SIZE >= 0) by (nonlinear_arith)
            requires
                idx >= 0,
                q >= 0,
                FRAME_SIZE >= 1,
        ;
    }

    /// Releasing the address a successful allocation returned undoes the allocation:
    /// every region has exactly the free and allocated blocks it had before. This holds
    /// when no region's usable frames reach the start of a later one.
    pub proof fn lemma_alloc_dealloc_roundtrip(&self, mid: Self, after: Self, order: int, addr: usize)
        requires
            self.wf(),
            self.separated(),
            0 <= order,
            self.alloc_done(mid, order, Ok(addr)),
            mid.dealloc_done(after, addr as int),
        ensures
            after.regions().len() == self.regions().len(),
            forall|k: int, p: int, i: int|
                0 <= k < self.regions().len() ==> (#[trigger] after.regions()[k].free(p, i)) == self.regions()[k].free(
                    p,
                    i,
                ),
            forall|k: int, p: int, i: int|
                0 <= k < self.regions().len() ==> (#[trigger] after.regions()[k].allocated(p, i))
                    == self.regions()[k].allocated(p, i),
    {
        self.lemma_allocation_is_unused(mid, order, Ok(addr));
        self.lemma_roundtrip_region(mid, after, order, addr);
        let o = self.alloc_order_for(order);
        let k = self.alloc_region_for(o);
        let region = self.regions()[k];
        let idx = region.alloc_index(order, o);
        let n = self.regions().len();
        assert forall|kk: int, p: int, i: int|
            0 <= kk < n implies (#[trigger] after.regions()[kk].free(p, i)) == self.regions()[kk].free(p, i) by {
            if kk != k {
                assert(after.regions()[kk] == mid.regions()[kk]);
                assert(mid.regions()[kk] == self.regions()[kk]);
            }
        }
        assert forall|kk: int, p: int, i: int|
            0 <= kk < n implies (#[trigger] after.regions()[kk].allocated(p, i)) == self.regions()[kk].allocated(p, i) by {
            if kk != k {
                assert(after.regions()[kk] == mid.regions()[kk]);
                assert(mid.regions()[kk] == self.regions()[kk]);
            }
        }
    }

    /// After an allocation from region `k`, the first region spanning the block handed out
    /// is still `k` when regions are separated.
    proof fn lemma_first_spanning(&self, mid: Self, k: int, addr: int)
        requires
            self.wf(),
            self.separated(),
            0 <= k < self.regions().len(),
            mid.regions().len() == self.regions().len(),
            forall|q: int| 0 <= q < self.regions().len() && q != k ==> #[trigger] mid.regions()[q] == self.regions()[q],
            mid.regions()[k].usable_frames_base == self.regions()[k].usable_frames_base,
            mid.regions()[k].usable_frames == self.regions()[k].usable_frames,
            self.regions()[k].usable_frames_base <= addr <= self.regions()[k].usable_frames_base
                + self.regions()[k].usable_frames * FRAME_SIZE,
        ensures
            mid.region_for_addr(addr) == Some(k),
    {
        let region = self.regions()[k];
        assert(region_spans(mid.regions()[k], addr));
        assert forall|q: int| 0 <= q < k implies !region_spans(#[trigger] mid.regions()[q], addr) by {
            assert(mid.regions()[q] == self.regions()[q]);
            assert(self.regions()[q].usable_frames_base + self.regions()[q].usable_frames * FRAME_SIZE
                < region.usable_frames_base);
        }
        let c = choose|c: int|
            0 <= c < mid.regions().len() && region_spans(mid.regions()[c], addr) && forall|q: int|
                0 <= q < c ==> !region_spans(#[trigger] mid.regions()[q], addr);
        if c < k {
            assert(!region_spans(mid.regions()[c], addr));
        }
        if k < c {
            assert(!region_spans(mid.regions()[k], addr));
        }
    }

    /// The region an allocation took its block from gets back exactly its free and
    /// allocated blocks when that block is released.
    proof fn lemma_roundtrip_region(&self, mid: Self, after: Self, order: int, addr: usize)
        requires
            self.wf(),
            self.separated(),
            0 <= order,
            self.alloc_done(mid, order, Ok(addr)),
            mid.dealloc_done(after, addr as int),
        ensures
            ({
                let k = self.alloc_region_for(self.alloc_order_for(order));
                &&& 0 <= k < self.regions().len()
                &&& mid.released_in(after, k, addr as int)
                &&& forall|p: int, i: int| #[trigger] after.regions()[k].free(p, i) == self.regions()[k].free(p, i)
                &&& forall|p: int, i: int| #[trigger] after.regions()[k].allocated(p, i) == self.regions()[k].allocated(p, i)
            }),
    {
        self.lemma_allocation_is_unused(mid, order, Ok(addr));
        let o = self.alloc_order_for(order);
        let k = self.alloc_region_for(o);
        let region = self.regions()[k];
        let idx = region.alloc_index(order, o);
        assert(region.wf() && region.merged());
        region.lemma_alloc_facts(mid.regions()[k], order, o);
        self.lemma_first_spanning(mid, k, addr as int);
        assert(mid.released_in(after, k, addr as int));
        let f = (addr - region.usable_frames_base) / (FRAME_SIZE as int);
        let q = pow2(order as nat) as int;
        assert(addr - region.usable_frames_base == (idx * q) * FRAME_SIZE) by (nonlinear_arith)
            requires
                addr == region.usable_frames_base + idx * q * FRAME_SIZE,
        ;
        assert(f == idx * q) by {
            vstd::arithmetic::div_mod::lemma_div_multiples_vanish(idx * q, FRAME_SIZE as int);
            assert(FRAME_SIZE * (idx * q) == (idx * q) * FRAME_SIZE) by (nonlinear_arith);
        }
        let mr = mid.regions()[k];
        assert(mr.usable_frames_base == region.usable_frames_base);
        let (lo, hi) = choose|lo: int, hi: int| #[trigger] mr.dealloc_outcome(after.regions()[k], f, lo, hi);
        region.lemma_alloc_dealloc_roundtrip(mid.regions()[k], after.regions()[k], order, o, f, lo, hi);
    }
}

} // verus!
