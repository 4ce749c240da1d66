//! The kernel's frame allocator: one bitmap of frames in use per usable region of the
//! memory map, taking over the frames the early allocator already handed out.
use crate::boot_info::{AllocatedFrameRange, MemoryRegion, MemoryRegionType};
use crate::buddy_math::count_set;
use crate::page_bitmap::Bitmap;
use vstd::prelude::*;

verus! {

/// Bytes in a frame.
pub const FRAME_SIZE: u64 = 4096;

/// No frame could be allocated.
#[derive(Clone, Copy, Debug, PartialEq, Eq, Structural)]
pub struct FrameAllocError;

/// The regions of `map` the kernel may use, in order.
pub open spec fn usable_regions(map: Seq<MemoryRegion>) -> Seq<MemoryRegion>
    decreases map.len(),
{
    if map.len() == 0 {
        Seq::empty()
    } else if map.last().ty == MemoryRegionType::KernelUsable {
        usable_regions(map.drop_last()).push(map.last())
    } else {
        usable_regions(map.drop_last())
    }
}

/// Whole frames in `region`.
pub open spec fn region_frames(region: MemoryRegion) -> int {
    (region.end - region.start) / 4096
}

/// Every usable region of `map` is a proper range whose frames can be counted in a
/// bitmap.
pub open spec fn map_ok(map: Seq<MemoryRegion>) -> bool {
    forall|k: int|
        0 <= k < map.len() && (#[trigger] map[k]).ty == MemoryRegionType::KernelUsable ==> {
            &&& map[k].start <= map[k].end
            &&& region_frames(map[k]) + 64 <= usize::MAX
        }
}

/// `region` contains address `frame`.
pub open spec fn region_contains(region: MemoryRegion, frame: int) -> bool {
    region.start <= frame < region.end
}

/// Index of the first of `regions` that contains `frame`.
#[verifier::opaque]
pub open spec fn region_index(regions: Seq<MemoryRegion>, frame: int) -> Option<int> {
    if exists|k: int| 0 <= k < regions.len() && #[trigger] region_contains(regions[k], frame) {
        Some(
            choose|k: int|
                0 <= k < regions.len() && region_contains(regions[k], frame) && forall|q: int|
                    0 <= q < k ==> !#[trigger] region_contains(regions[q], frame),
        )
    } else {
        None
    }
}

/// When `frame` lies in some region, the first such region is one of them, and no earlier
/// region contains it.
pub proof fn lemma_region_index(regions: Seq<MemoryRegion>, frame: int)
    ensures
        region_index(regions, frame) matches Some(k) ==> 0 <= k < regions.len() && region_contains(regions[k], frame)
            && forall|q: int| 0 <= q < k ==> !#[trigger] region_contains(regions[q], frame),
        region_index(regions, frame) is None ==> forall|k: int| 0 <= k < regions.len() ==> !#[trigger] region_contains(regions[k], frame),
{
    reveal(region_index);
    if exists|k: int| 0 <= k < regions.len() && #[trigger] region_contains(regions[k], frame) {
        let w = choose|k: int| 0 <= k < regions.len() && #[trigger] region_contains(regions[k], frame);
        lemma_first_containing(regions, frame, w);
    }
}

/// Below any region containing `frame` there is a first one.
proof fn lemma_first_containing(regions: Seq<MemoryRegion>, frame: int, w: int)
    requires
        0 <= w < regions.len(),
        region_contains(regions[w], frame),
    ensures
        exists|k: int|
            0 <= k < regions.len() && region_contains(regions[k], frame) && forall|q: int|
                0 <= q < k ==> !#[trigger] region_contains(regions[q], frame),
    decreases w,
{
    if exists|q: int| 0 <= q < w && #[trigger] region_contains(regions[q], frame) {
        let q = choose|q: int| 0 <= q < w && #[trigger] region_contains(regions[q], frame);
        lemma_first_containing(regions, frame, q);
    } else {
        assert(0 <= w < regions.len() && region_contains(regions[w], frame) && forall|q: int|
            0 <= q < w ==> !#[trigger] region_contains(regions[q], frame));
    }
}

/// Sum of the counts of set bits.
pub open spec fn total_set(bitmaps: Seq<Seq<bool>>) -> nat
    decreases bitmaps.len(),
{
    if bitmaps.len() == 0 {
        0
    } else {
        total_set(bitmaps.drop_last()) + count_set(bitmaps.last())
    }
}

/// Sum of the lengths.
pub open spec fn total_len(bitmaps: Seq<Seq<bool>>) -> nat
    decreases bitmaps.len(),
{
    if bitmaps.len() == 0 {
        0
    } else {
        total_len(bitmaps.drop_last()) + bitmaps.last().len()
    }
}

/// The frames of the kernel's usable memory, with those in use marked.
#[derive(Debug)]
pub struct KernelFrameAllocator {
    regions: Vec<MemoryRegion>,
    bitmaps: Vec<Bitmap>,
}

impl KernelFrameAllocator {
    /// The usable regions, in memory-map order.
    pub closed spec fn regions(&self) -> Seq<MemoryRegion> {
        self.regions@
    }

    /// Which frames of each region are in use.
    pub closed spec fn used(&self) -> Seq<Seq<bool>> {
        Seq::new(self.bitmaps@.len(), |k: int| self.bitmaps@[k]@)
    }

    /// One bitmap per region, each well formed with one bit per whole frame.
    pub closed spec fn wf(&self) -> bool {
        &&& self.bitmaps@.len() == self.regions@.len()
        &&& forall|k: int|
            0 <= k < self.regions@.len() ==> {
                &&& (#[trigger] self.bitmaps@[k]).wf()
                &&& self.regions@[k].start <= self.regions@[k].end
                &&& self.bitmaps@[k]@.len() == region_frames(self.regions@[k])
            }
    }

    /// Frame `i` of region `k` lies at this address.
    pub open spec fn frame_addr(&self, k: int, i: int) -> int {
        self.regions()[k].start + i * 4096
    }

    /// `range` lies inside the first region containing its base.
    pub open spec fn range_fits(&self, range: AllocatedFrameRange) -> bool {
        match region_index(self.regions(), range.base as int) {
            Some(k) => (range.base - self.regions()[k].start) / 4096 + range.frames <= self.used()[k].len(),
            None => false,
        }
    }

    /// Frame `frame` lies in a region and is in use there.
    pub open spec fn frame_in_use(&self, frame: int) -> bool {
        match region_index(self.regions(), frame) {
            Some(k) => {
                let i = (frame - self.regions()[k].start) / 4096;
                0 <= i < self.used()[k].len() && self.used()[k][i]
            },
            None => false,
        }
    }

    /// `range` starts in region `k`, the first of `regions` containing its base, and
    /// covers frame `i` of that region.
    #[verifier::opaque]
    pub open spec fn range_marks(regions: Seq<MemoryRegion>, range: AllocatedFrameRange, k: int, i: int) -> bool {
        &&& region_index(regions, range.base as int) == Some(k)
        &&& (range.base - regions[k].start) / 4096 <= i < (range.base - regions[k].start) / 4096 + range.frames
    }

    /// Some range of `ranges` covers frame `i` of region `k`.
    pub open spec fn marked_by(regions: Seq<MemoryRegion>, ranges: Seq<AllocatedFrameRange>, k: int, i: int) -> bool {
        exists|t: int| 0 <= t < ranges.len() && #[trigger] Self::range_marks(regions, ranges[t], k, i)
    }

    /// Frame `frame` lies in the first of `regions` that contains it, within range `j` of
    /// `ranges`, which starts in that region.
    pub open spec fn covered_by(regions: Seq<MemoryRegion>, ranges: Seq<AllocatedFrameRange>, frame: int, j: int) -> bool {
        &&& 0 <= j < ranges.len()
        &&& region_index(regions, frame) is Some
        &&& Self::range_marks(
            regions,
            ranges[j],
            region_index(regions, frame)->Some_0,
            (frame - regions[region_index(regions, frame)->Some_0].start) / 4096,
        )
    }

    /// Some range of `ranges` covers `frame`.
    pub open spec fn covers(regions: Seq<MemoryRegion>, ranges: Seq<AllocatedFrameRange>, frame: int) -> bool {
        exists|j: int| #[trigger] Self::covered_by(regions, ranges, frame, j)
    }

    /// An allocator over the usable regions of `memory_map` with no frame in use.
    pub fn from_memory_map(memory_map: &[MemoryRegion]) -> (r: Self)
        requires
            map_ok(memory_map@),
        ensures
            r.wf(),
            r.regions() == usable_regions(memory_map@),
            r.used().len() == r.regions().len(),
            forall|k: int, i: int|
                0 <= k < r.used().len() && 0 <= i < r.used()[k].len() ==> !#[trigger] r.used()[k][i],
    {
        let mut regions: Vec<MemoryRegion> = Vec::new();
        let mut bitmaps: Vec<Bitmap> = Vec::new();
        let mut i: usize = 0;
        while i < memory_map.len()
            invariant
                i <= memory_map@.len(),
                map_ok(memory_map@),
                regions@ == usable_regions(memory_map@.take(i as int)),
                bitmaps@.len() == regions@.len(),
                forall|k: int|
                    0 <= k < regions@.len() ==> {
                        &&& (#[trigger] bitmaps@[k]).wf()
                        &&& regions@[k].start <= regions@[k].end
                        &&& bitmaps@[k]@.len() == region_frames(regions@[k])
                        &&& forall|j: int| 0 <= j < bitmaps@[k]@.len() ==> !#[trigger] bitmaps@[k]@[j]
                    },
            decreases memory_map@.len() - i,
        {
            let region = memory_map[i];
            proof {
                assert(memory_map@.take(i + 1).drop_last() =~= memory_map@.take(i as int));
                assert(memory_map@.take(i + 1).last() == region);
            }
            if region.ty == MemoryRegionType::KernelUsable {
                let region_frames = ((region.end - region.start) / 4096) as usize;
                regions.push(region);
                bitmaps.push(Bitmap::new(region_frames));
            }
            i = i + 1;
        }
        proof {
            assert(memory_map@.take(memory_map@.len() as int) =~= memory_map@);
        }
        KernelFrameAllocator { regions, bitmaps }
    }

    /// Index of the first region containing `frame_base`.
    fn get_region_index(&self, frame_base: u64) -> (r: Option<usize>)
        requires
            self.wf(),
        ensures
            match r {
                Some(k) => {
                    &&& region_index(self.regions(), frame_base as int) == Some(k as int)
                    &&& k < self.regions@.len()
                    &&& region_contains(self.regions()[k as int], frame_base as int)
                },
                None => region_index(self.regions(), frame_base as int) is None,
            },
    {
        proof {
            reveal(region_index);
        }
        let mut k: usize = 0;
        while k < self.regions.len()
            invariant
                k <= self.regions@.len(),
                forall|q: int| 0 <= q < k ==> !#[trigger] region_contains(self.regions()[q], frame_base as int),
            decreases self.regions@.len() - k,
        {
            if self.regions[k].start <= frame_base && frame_base < self.regions[k].end {
                proof {
                    reveal(region_index);
                    assert(region_contains(self.regions()[k as int], frame_base as int));
                    let c = choose|c: int|
                        0 <= c < self.regions().len() && region_contains(self.regions()[c], frame_base as int)
                            && forall|q: int| 0 <= q < c ==> !#[trigger] region_contains(self.regions()[q], frame_base as int);
                    if c < k {
                        assert(!region_contains(self.regions()[c], frame_base as int));
                    }
                    if k < c {
                        assert(!region_contains(self.regions()[k as int], frame_base as int));
                    }
                }
                return Some(k);
            }
            k = k + 1;
        }
        proof {
            reveal(region_index);
        }
        None
    }

    /// Marks the frames of `range` as in use, in the first region containing its base.
    fn mark_range(&mut self, range: AllocatedFrameRange)
        requires
            old(self).wf(),
            old(self).range_fits(range),
        ensures
            final(self).wf(),
            final(self).regions() == old(self).regions(),
            final(self).used().len() == old(self).used().len(),
            forall|q: int| 0 <= q < old(self).used().len() ==> #[trigger] final(self).used()[q].len() == old(self).used()[q].len(),
            forall|q: int, i: int|
                0 <= q < old(self).used().len() && 0 <= i < old(self).used()[q].len() ==> #[trigger] final(self).used()[q][i]
                    == (old(self).used()[q][i] || Self::range_marks(old(self).regions(), range, q, i)),
    {
        let k = match self.get_region_index(range.base) {
            Some(k) => k,
            None => {
                proof {
                    assert(false);
                }
                return;
            },
        };
        let start = self.regions[k].start;
        proof {
            self.bitmaps@[k as int].lemma_len_bound();
            assert(self.used()[k as int] == self.bitmaps@[k as int]@);
        }
        let base_index = ((range.base - start) / 4096) as usize;
        let ghost before = *self;
        self.mark_frames(k, base_index, range.frames);
        proof {
            reveal(KernelFrameAllocator::range_marks);
            assert forall|q: int, i: int|
                0 <= q < before.used().len() && 0 <= i < before.used()[q].len() implies #[trigger] self.used()[q][i]
                    == (before.used()[q][i] || Self::range_marks(before.regions(), range, q, i)) by {
                assert(self.used()[q] == self.bitmaps@[q]@);
                assert(before.used()[q] == before.bitmaps@[q]@);
            }
            assert forall|q: int| 0 <= q < before.used().len() implies #[trigger] self.used()[q].len() == before.used()[q].len() by {
                assert(self.used()[q] == self.bitmaps@[q]@);
                assert(before.used()[q] == before.bitmaps@[q]@);
            }
        }
    }

    /// Marks frames `first` up to `first + count` of region `k` as in use.
    fn mark_frames(&mut self, k: usize, first: usize, count: usize)
        requires
            old(self).wf(),
            k < old(self).regions@.len(),
            first + count <= old(self).bitmaps@[k as int]@.len(),
        ensures
            final(self).wf(),
            final(self).regions@ == old(self).regions@,
            final(self).bitmaps@.len() == old(self).bitmaps@.len(),
            forall|q: int| 0 <= q < old(self).bitmaps@.len() ==> #[trigger] final(self).bitmaps@[q]@.len() == old(self).bitmaps@[q]@.len(),
            forall|q: int, i: int|
                0 <= q < old(self).bitmaps@.len() && 0 <= i < old(self).bitmaps@[q]@.len() ==> #[trigger] final(self).bitmaps@[q]@[i]
                    == (old(self).bitmaps@[q]@[i] || (q == k && first <= i < first + count)),
    {
        let ghost before = *self;
        proof {
            self.bitmaps@[k as int].lemma_len_bound();
        }
        let mut n: usize = 0;
        while n < count
            invariant
                self.wf(),
                k < self.regions@.len(),
                self.regions@ == before.regions@,
                self.bitmaps@.len() == before.bitmaps@.len(),
                first + count <= before.bitmaps@[k as int]@.len(),
                before.bitmaps@[k as int]@.len() + 64 <= usize::MAX,
                n <= count,
                forall|q: int| 0 <= q < before.bitmaps@.len() ==> #[trigger] self.bitmaps@[q]@.len() == before.bitmaps@[q]@.len(),
                forall|q: int, i: int|
                    0 <= q < before.bitmaps@.len() && 0 <= i < before.bitmaps@[q]@.len() ==> #[trigger] self.bitmaps@[q]@[i]
                        == (before.bitmaps@[q]@[i] || (q == k && first <= i < first + n)),
            decreases count - n,
        {
            let ghost prev = *self;
            self.bitmaps[k].set_bit(first + n);
            proof {
                assert(self.bitmaps@[k as int]@ == prev.bitmaps@[k as int]@.update(first + n, true));
                assert forall|q: int, i: int|
                    0 <= q < before.bitmaps@.len() && 0 <= i < before.bitmaps@[q]@.len() implies #[trigger] self.bitmaps@[q]@[i]
                        == (before.bitmaps@[q]@[i] || (q == k && first <= i < first + n + 1)) by {
                    if q != k {
                        assert(self.bitmaps@[q] == prev.bitmaps@[q]);
                    } else {
                        assert(prev.bitmaps@[q]@[i] == (before.bitmaps@[q]@[i] || (first <= i < first + n)));
                    }
                }
                assert forall|q: int| 0 <= q < before.bitmaps@.len() implies #[trigger] self.bitmaps@[q]@.len() == before.bitmaps@[q]@.len() by {
                    if q != k {
                        assert(self.bitmaps@[q] == prev.bitmaps@[q]);
                    }
                }
                assert forall|q: int| 0 <= q < self.regions@.len() implies {
                    &&& (#[trigger] self.bitmaps@[q]).wf()
                    &&& self.regions@[q].start <= self.regions@[q].end
                    &&& self.bitmaps@[q]@.len() == region_frames(self.regions@[q])
                } by {
                    if q != k {
                        assert(self.bitmaps@[q] == prev.bitmaps@[q]);
                    }
                }
            }
            n = n + 1;
        }
    }

    /// Builds the allocator over the usable regions of `memory_map`, marks in use every
    /// frame of `allocated_frame_ranges`, and then frees `ranges_frame`, the frame that
    /// held the list of ranges.
    #[verifier::rlimit(40)]
    pub fn new(memory_map: &[MemoryRegion], allocated_frame_ranges: &[AllocatedFrameRange], ranges_frame: u64) -> (r: Self)
        requires
            map_ok(memory_map@),
            forall|j: int|
                0 <= j < allocated_frame_ranges@.len() ==> match region_index(
                    usable_regions(memory_map@),
                    (#[trigger] allocated_frame_ranges@[j]).base as int,
                ) {
                    Some(k) => (allocated_frame_ranges@[j].base - usable_regions(memory_map@)[k].start) / 4096
                        + allocated_frame_ranges@[j].frames <= region_frames(usable_regions(memory_map@)[k]),
                    None => false,
                },
            Self::covers(usable_regions(memory_map@), allocated_frame_ranges@, ranges_frame as int),
        ensures
            r.wf(),
            r.regions() == usable_regions(memory_map@),
            r.used().len() == r.regions().len(),
            forall|k: int, i: int|
                0 <= k < r.used().len() && 0 <= i < r.used()[k].len() ==> #[trigger] r.used()[k][i] == (Self::marked_by(
                    r.regions(),
                    allocated_frame_ranges@,
                    k,
                    i,
                ) && !(Some(k) == region_index(r.regions(), ranges_frame as int) && i == (ranges_frame - r.regions()[k].start)
                    / 4096)),
    {
        let mut me = Self::from_memory_map(memory_map);
        let ghost regions = usable_regions(memory_map@);
        let ghost ranges = allocated_frame_ranges@;
        proof {
            assert forall|q: int| 0 <= q < regions.len() implies #[trigger] me.used()[q].len() == region_frames(regions[q]) by {
                assert(me.used()[q] == me.bitmaps@[q]@);
            }
            assert forall|k: int, i: int|
                0 <= k < regions.len() && 0 <= i < me.used()[k].len() implies #[trigger] me.used()[k][i]
                    == Self::marked_by(regions, ranges.take(0), k, i) by {
            }
        }
        me.mark_all(allocated_frame_ranges);
        proof {
            assert(ranges.take(ranges.len() as int) =~= ranges);
            let k = region_index(regions, ranges_frame as int)->Some_0;
            let jj = choose|jj: int| #[trigger] Self::covered_by(regions, ranges, ranges_frame as int, jj);
            let i = (ranges_frame - regions[k].start) / 4096;
            assert(Self::range_marks(regions, ranges[jj], k, i));
            lemma_region_index(regions, ranges_frame as int);
            lemma_region_index(regions, ranges[jj].base as int);
            reveal(KernelFrameAllocator::range_marks);
            assert(match region_index(regions, ranges[jj].base as int) {
                Some(k) => (ranges[jj].base - regions[k].start) / 4096 + ranges[jj].frames <= region_frames(regions[k]),
                None => false,
            });
            assert(0 <= i < me.used()[k].len());
            assert(Self::marked_by(regions, ranges, k, i));
            assert(me.used()[k][i]);
        }
        let ghost marked = me;
        let _ = me.deallocate_frame(ranges_frame);
        proof {
            let kf = region_index(regions, ranges_frame as int)->Some_0;
            let f = (ranges_frame - regions[kf].start) / 4096;
            assert forall|k: int, i: int|
                0 <= k < me.used().len() && 0 <= i < me.used()[k].len() implies #[trigger] me.used()[k][i] == (Self::marked_by(
                    regions,
                    ranges,
                    k,
                    i,
                ) && !(Some(k) == region_index(regions, ranges_frame as int) && i == (ranges_frame - regions[k].start) / 4096)) by {
                assert(marked.used()[k][i] == Self::marked_by(regions, ranges, k, i));
                if k == kf {
                    assert(me.used()[k] == marked.used()[k].update(f, false));
                } else {
                    assert(me.used()[k] == marked.used()[k]);
                }
            }
        }
        me
    }

    /// Marks in use every frame of `ranges`, each in the first region containing its base.
    fn mark_all(&mut self, ranges: &[AllocatedFrameRange])
        requires
            old(self).wf(),
            old(self).used().len() == old(self).regions().len(),
            forall|q: int| 0 <= q < old(self).regions().len() ==> #[trigger] old(self).used()[q].len() == region_frames(old(self).regions()[q]),
            forall|t: int|
                0 <= t < ranges@.len() ==> match region_index(old(self).regions(), (#[trigger] ranges@[t]).base as int) {
                    Some(k) => (ranges@[t].base - old(self).regions()[k].start) / 4096 + ranges@[t].frames <= region_frames(
                        old(self).regions()[k],
                    ),
                    None => false,
                },
            forall|k: int, i: int|
                0 <= k < old(self).regions().len() && 0 <= i < old(self).used()[k].len() ==> !#[trigger] old(self).used()[k][i],
        ensures
            final(self).wf(),
            final(self).regions() == old(self).regions(),
            final(self).used().len() == old(self).regions().len(),
            forall|k: int, i: int|
                0 <= k < final(self).regions().len() && 0 <= i < final(self).used()[k].len() ==> #[trigger] final(self).used()[k][i]
                    == Self::marked_by(final(self).regions(), ranges@, k, i),
    {
        let ghost regions = self.regions();
        let mut j: usize = 0;
        proof {
            assert forall|k: int, i: int|
                0 <= k < regions.len() && 0 <= i < self.used()[k].len() implies #[trigger] self.used()[k][i]
                    == Self::marked_by(regions, ranges@.take(0), k, i) by {
            }
        }
        while j < ranges.len()
            invariant
                self.wf(),
                j <= ranges@.len(),
                self.regions() == regions,
                self.used().len() == regions.len(),
                forall|q: int| 0 <= q < regions.len() ==> #[trigger] self.used()[q].len() == region_frames(regions[q]),
                forall|t: int|
                    0 <= t < ranges@.len() ==> match region_index(regions, (#[trigger] ranges@[t]).base as int) {
                        Some(k) => (ranges@[t].base - regions[k].start) / 4096 + ranges@[t].frames <= region_frames(regions[k]),
                        None => false,
                    },
                forall|k: int, i: int|
                    0 <= k < regions.len() && 0 <= i < self.used()[k].len() ==> #[trigger] self.used()[k][i]
                        == Self::marked_by(regions, ranges@.take(j as int), k, i),
            decreases ranges@.len() - j,
        {
            let range = ranges[j];
            let ghost prev = *self;
            proof {
                lemma_region_index(regions, range.base as int);
                let k = region_index(regions, range.base as int)->Some_0;
                assert(self.used()[k].len() == region_frames(regions[k]));
                assert(self.range_fits(range));
            }
            self.mark_range(range);
            proof {
                Self::lemma_marked_by_push(regions, ranges@, j as int);
                assert forall|q: int| 0 <= q < regions.len() implies #[trigger] self.used()[q].len() == region_frames(regions[q]) by {
                    assert(self.used()[q].len() == prev.used()[q].len());
                }
            }
            j = j + 1;
        }
        proof {
            assert(ranges@.take(ranges@.len() as int) =~= ranges@);
        }
    }

    /// A frame is covered by the first `j + 1` ranges exactly when it is covered by the
    /// first `j` or by range `j`.
    proof fn lemma_marked_by_push(regions: Seq<MemoryRegion>, ranges: Seq<AllocatedFrameRange>, j: int)
        requires
            0 <= j < ranges.len(),
        ensures
            forall|k: int, i: int|
                #[trigger] Self::marked_by(regions, ranges.take(j + 1), k, i) == (Self::marked_by(
                    regions,
                    ranges.take(j),
                    k,
                    i,
                ) || Self::range_marks(regions, ranges[j], k, i)),
    {
        assert forall|k: int, i: int|
            #[trigger] Self::marked_by(regions, ranges.take(j + 1), k, i) == (Self::marked_by(regions, ranges.take(j), k, i)
                || Self::range_marks(regions, ranges[j], k, i)) by {
            let prefix = ranges.take(j);
            let longer = ranges.take(j + 1);
            if Self::marked_by(regions, prefix, k, i) {
                let t = choose|t: int| 0 <= t < prefix.len() && #[trigger] Self::range_marks(regions, prefix[t], k, i);
                assert(longer[t] == prefix[t]);
            }
            if Self::marked_by(regions, longer, k, i) {
                let t = choose|t: int| 0 <= t < longer.len() && #[trigger] Self::range_marks(regions, longer[t], k, i);
                if t < j {
                    assert(prefix[t] == longer[t]);
                }
            }
            if Self::range_marks(regions, ranges[j], k, i) {
                assert(longer[j] == ranges[j]);
            }
        }
    }

    /// Allocates the lowest free frame of the first region that has one; fails when every
    /// frame is in use.
    pub fn allocate_frame(&mut self) -> (r: Result<u64, FrameAllocError>)
        requires
            old(self).wf(),
        ensures
            final(self).wf(),
            final(self).regions() == old(self).regions(),
            final(self).used().len() == old(self).used().len(),
            match r {
                Ok(addr) => exists|k: int, i: int|
                    #[trigger] old(self).first_free(k, i) && addr == old(self).frame_addr(k, i)
                        && final(self).used() == old(self).used().update(k, old(self).used()[k].update(i, true)),
                Err(_) => final(self).used() == old(self).used() && forall|q: int, t: int|
                    0 <= q < old(self).used().len() && 0 <= t < old(self).used()[q].len() ==> #[trigger] old(self).used()[q][t],
            },
    {
        let mut k: usize = 0;
        while k < self.regions.len()
            invariant
                self.wf(),
                *self == *old(self),
                k <= self.regions@.len(),
                forall|q: int, t: int|
                    0 <= q < k && 0 <= t < self.used()[q].len() ==> #[trigger] self.used()[q][t],
            decreases self.regions@.len() - k,
        {
            proof {
                assert(self.bitmaps@[k as int].wf());
            }
            let found = self.bitmaps[k].find_free_index();
            if let Some(index) = found {
                let start = self.regions[k].start;
                let ghost prev = *self;
                proof {
                    let region = prev.regions@[k as int];
                    assert(index * 4096 <= region_frames(region) * 4096) by (nonlinear_arith)
                        requires
                            index < region_frames(region),
                    ;
                    assert(region_frames(region) * 4096 <= region.end - region.start) by (nonlinear_arith)
                        requires
                            region.start <= region.end,
                    ;
                    assert(prev.used()[k as int] == prev.bitmaps@[k as int]@);
                    assert(prev.first_free(k as int, index as int));
                }
                let frame_base = start + index as u64 * 4096;
                self.bitmaps[k].set_bit(index);
                proof {
                    assert forall|q: int| 0 <= q < self.regions@.len() implies {
                        &&& (#[trigger] self.bitmaps@[q]).wf()
                        &&& self.regions@[q].start <= self.regions@[q].end
                        &&& self.bitmaps@[q]@.len() == region_frames(self.regions@[q])
                    } by {
                        if q != k {
                            assert(self.bitmaps@[q] == prev.bitmaps@[q]);
                        }
                    }
                    assert(self.used() =~= prev.used().update(k as int, prev.used()[k as int].update(index as int, true)));
                }
                return Ok(frame_base);
            }
            proof {
                assert forall|q: int, t: int|
                    0 <= q < k + 1 && 0 <= t < self.used()[q].len() implies #[trigger] self.used()[q][t] by {
                    if q == k {
                        assert(self.used()[q] == self.bitmaps@[q]@);
                    }
                }
            }
            k = k + 1;
        }
        Err(FrameAllocError)
    }

    /// Frame `i` of region `k` is the lowest free frame of the first region that has one.
    pub open spec fn first_free(&self, k: int, i: int) -> bool {
        &&& 0 <= k < self.used().len()
        &&& 0 <= i < self.used()[k].len()
        &&& !self.used()[k][i]
        &&& forall|q: int, t: int| 0 <= q < k && 0 <= t < self.used()[q].len() ==> #[trigger] self.used()[q][t]
        &&& forall|t: int| 0 <= t < i ==> #[trigger] self.used()[k][t]
    }

    /// Right after `new`, the frames in use number as many as the frames of the handed-over
    /// ranges, less the one frame that held their list, when no frame lies in two ranges.
    pub proof fn lemma_new_counts_ranges(
        &self,
        regions: Seq<MemoryRegion>,
        ranges: Seq<AllocatedFrameRange>,
        ranges_frame: int,
    )
        requires
            self.wf(),
            self.regions() == regions,
            forall|j: int|
                0 <= j < ranges.len() ==> match region_index(regions, (#[trigger] ranges[j]).base as int) {
                    Some(k) => (ranges[j].base - regions[k].start) / 4096 + ranges[j].frames <= region_frames(regions[k]),
                    None => false,
                },
            Self::covers(regions, ranges, ranges_frame),
            ranges_apart(regions, ranges),
            forall|k: int, i: int|
                0 <= k < self.used().len() && 0 <= i < self.used()[k].len() ==> #[trigger] self.used()[k][i] == (Self::marked_by(
                    regions,
                    ranges,
                    k,
                    i,
                ) && !(Some(k) == region_index(regions, ranges_frame) && i == (ranges_frame - regions[k].start) / 4096)),
        ensures
            total_set(self.used()) == range_frames_total(ranges) - 1,
    {
        let shape = self.used();
        assert(shape.len() == regions.len());
        assert forall|j: int| 0 <= j < ranges.len() implies match region_index(regions, (#[trigger] ranges[j]).base as int) {
            Some(k) => k < shape.len() && (ranges[j].base - regions[k].start) / 4096 + ranges[j].frames <= shape[k].len(),
            None => false,
        } by {
            lemma_region_index(regions, ranges[j].base as int);
            if let Some(k) = region_index(regions, ranges[j].base as int) {
                assert(shape[k] == self.bitmaps@[k]@);
            }
        }
        assert(ranges_fit(regions, ranges, shape));
        lemma_marks_count(shape, regions, ranges, ranges.len() as int);
        assert(ranges.take(ranges.len() as int) =~= ranges);
        let m = marks_like(shape, regions, ranges);
        let j = choose|j: int| #[trigger] Self::covered_by(regions, ranges, ranges_frame, j);
        let kf = region_index(regions, ranges_frame)->Some_0;
        let fi = (ranges_frame - regions[kf].start) / 4096;
        lemma_region_index(regions, ranges[j].base as int);
        assert(0 <= kf < shape.len() && 0 <= fi < shape[kf].len()) by {
            reveal(KernelFrameAllocator::range_marks);
            lemma_region_index(regions, ranges_frame);
            assert(Self::range_marks(regions, ranges[j], kf, fi));
            assert(shape[kf] == self.bitmaps@[kf]@);
        }
        assert(Self::marked_by(regions, ranges, kf, fi));
        assert(m[kf][fi]);
        assert(shape =~= m.update(kf, m[kf].update(fi, false))) by {
            assert forall|k: int| 0 <= k < shape.len() implies #[trigger] shape[k] =~= m.update(kf, m[kf].update(fi, false))[k] by {
                assert forall|i: int| 0 <= i < shape[k].len() implies #[trigger] shape[k][i] == m.update(kf, m[kf].update(fi, false))[k][i] by {
                    assert(shape[k][i] == self.used()[k][i]);
                }
            }
        }
        lemma_total_set_update(m, kf, fi, false);
    }

    /// Each allocation raises the count of frames in use by one and each release lowers it
    /// by one: both change a single bit of one region's bitmap, from clear to set or from set
    /// to clear.
    pub proof fn lemma_count_changes_by_one(&self, after: Self, k: int, i: int, v: bool)
        requires
            0 <= k < self.used().len(),
            0 <= i < self.used()[k].len(),
            self.used()[k][i] != v,
            after.used() == self.used().update(k, self.used()[k].update(i, v)),
        ensures
            total_set(after.used()) == total_set(self.used()) + if v {
                1int
            } else {
                -1int
            },
    {
        lemma_total_set_update(self.used(), k, i, v);
    }

    /// Releasing the frame an allocation handed out leaves the frames in use as they were
    /// before it: the frame is in use in between, and its release clears the bit the
    /// allocation set. This holds when no earlier region also contains the frame.
    pub proof fn lemma_alloc_dealloc_roundtrip(&self, mid: Self, after: Self, k: int, i: int)
        requires
            self.wf(),
            self.first_free(k, i),
            forall|q: int| 0 <= q < k ==> !#[trigger] region_contains(self.regions()[q], self.frame_addr(k, i)),
            mid.regions() == self.regions(),
            mid.used() == self.used().update(k, self.used()[k].update(i, true)),
            after.regions() == mid.regions(),
            ({
                let f = self.frame_addr(k, i);
                let k2 = region_index(mid.regions(), f)->Some_0;
                let i2 = (f - mid.regions()[k2].start) / 4096;
                after.used() == mid.used().update(k2, mid.used()[k2].update(i2, false))
            }),
        ensures
            mid.frame_in_use(self.frame_addr(k, i)),
            after.used() == self.used(),
    {
        let f = self.frame_addr(k, i);
        let region = self.regions()[k];
        assert(self.used()[k] == self.bitmaps@[k]@);
        assert(self.used()[k].len() == region_frames(region));
        assert((i + 1) * 4096 <= region.end - region.start) by (nonlinear_arith)
            requires
                0 <= i,
                i + 1 <= (region.end - region.start) / 4096,
        ;
        assert(region_contains(region, f)) by (nonlinear_arith)
            requires
                f == region.start + i * 4096,
                (i + 1) * 4096 <= region.end - region.start,
                0 <= i,
        ;
        lemma_region_index(self.regions(), f);
        let k2 = region_index(self.regions(), f)->Some_0;
        assert(k2 == k) by {
            if k2 < k {
                assert(!region_contains(self.regions()[k2], f));
            } else if k2 > k {
                assert(!region_contains(self.regions()[k], f));
            }
        }
        assert((f - region.start) / 4096 == i) by (nonlinear_arith)
            requires
                f == region.start + i * 4096,
        ;
        assert(after.used() =~= self.used()) by {
            assert(after.used()[k] =~= self.used()[k]);
        }
    }

    /// Frees `frame`, which must be in use in the first region containing it.
    pub fn deallocate_frame(&mut self, frame: u64) -> (r: Result<(), FrameAllocError>)
        requires
            old(self).wf(),
            old(self).frame_in_use(frame as int),
        ensures
            r is Ok,
            final(self).wf(),
            final(self).regions() == old(self).regions(),
            ({
                let k = region_index(old(self).regions(), frame as int)->Some_0;
                let i = (frame - old(self).regions()[k].start) / 4096;
                final(self).used() == old(self).used().update(k, old(self).used()[k].update(i, false))
            }),
    {
        let k = match self.get_region_index(frame) {
            Some(k) => k,
            None => {
                proof {
                    assert(false);
                }
                return Err(FrameAllocError);
            },
        };
        let start = self.regions[k].start;
        proof {
            self.bitmaps@[k as int].lemma_len_bound();
            assert(self.used()[k as int] == self.bitmaps@[k as int]@);
        }
        let index = ((frame - start) / 4096) as usize;
        let ghost prev = *self;
        if !self.bitmaps[k].get_bit(index) {
            // The frame is in use by the precondition.
            proof {
                assert(false);
            }
            return Err(FrameAllocError);
        }
        self.bitmaps[k].clear_bit(index);
        proof {
            assert forall|q: int| 0 <= q < self.regions@.len() implies {
                &&& (#[trigger] self.bitmaps@[q]).wf()
                &&& self.regions@[q].start <= self.regions@[q].end
                &&& self.bitmaps@[q]@.len() == region_frames(self.regions@[q])
            } by {
                if q != k {
                    assert(self.bitmaps@[q] == prev.bitmaps@[q]);
                }
            }
            assert(self.used() =~= prev.used().update(k as int, prev.used()[k as int].update(index as int, false)));
        }
        Ok(())
    }

    /// Number of frames in use, over every region.
    pub fn allocated_frames(&self) -> (r: usize)
        requires
            self.wf(),
            total_len(self.used()) <= usize::MAX,
        ensures
            r == total_set(self.used()),
    {
        let mut sum: usize = 0;
        let mut k: usize = 0;
        while k < self.bitmaps.len()
            invariant
                self.wf(),
                k <= self.bitmaps@.len(),
                total_len(self.used()) <= usize::MAX,
                sum == total_set(self.used().take(k as int)),
                total_set(self.used().take(k as int)) <= total_len(self.used().take(k as int)),
            decreases self.bitmaps@.len() - k,
        {
            proof {
                assert(self.bitmaps@[k as int].wf());
                lemma_total_len_prefix(self.used(), k + 1);
                crate::buddy_math::lemma_count_bound(self.used()[k as int]);
            }
            let count = Self::count_used(&self.bitmaps[k]);
            sum = sum + count;
            k = k + 1;
        }
        proof {
            assert(self.used().take(self.bitmaps@.len() as int) =~= self.used());
        }
        sum
    }

    /// Number of set bits of `bitmap`, counted by walking it.
    fn count_used(bitmap: &Bitmap) -> (r: usize)
        requires
            bitmap.wf(),
        ensures
            r == count_set(bitmap@),
    {
        let mut iter = bitmap.iter();
        let mut count: usize = 0;
        proof {
            bitmap.lemma_len_bound();
            assert(bitmap@.take(0) =~= Seq::<bool>::empty());
        }
        loop
            invariant
                iter.wf(),
                iter.bits() == bitmap@,
                0 <= iter.position() <= bitmap@.len(),
                bitmap@.len() + 64 <= usize::MAX,
                count == count_set(bitmap@.take(iter.position())),
                count <= iter.position(),
            decreases bitmap@.len() - iter.position(),
        {
            let ghost p = iter.position();
            match iter.next() {
                Some(bit) => {
                    proof {
                        assert(bitmap@.take(p + 1).drop_last() =~= bitmap@.take(p));
                    }
                    if bit {
                        count = count + 1;
                    }
                },
                None => {
                    proof {
                        assert(bitmap@.take(p) =~= bitmap@);
                    }
                    return count;
                },
            }
        }
    }
}

/// The length of a prefix never exceeds the whole.
proof fn lemma_total_len_prefix(s: Seq<Seq<bool>>, n: int)
    requires
        0 <= n <= s.len(),
    ensures
        total_len(s.take(n)) <= total_len(s),
        n >= 1 ==> total_len(s.take(n)) == total_len(s.take(n - 1)) + s[n - 1].len(),
        n >= 1 ==> total_set(s.take(n)) == total_set(s.take(n - 1)) + count_set(s[n - 1]),
    decreases s.len() - n,
{
    if n >= 1 {
        assert(s.take(n).drop_last() =~= s.take(n - 1));
    }
    if n < s.len() {
        lemma_total_len_prefix(s, n + 1);
        assert(s.take(n + 1).drop_last() =~= s.take(n));
    } else {
        assert(s.take(n) =~= s);
    }
}

/// Changing one bit of one bitmap changes the total count of set bits by that bit's change.
proof fn lemma_total_set_update(bs: Seq<Seq<bool>>, k: int, i: int, v: bool)
    requires
        0 <= k < bs.len(),
        0 <= i < bs[k].len(),
    ensures
        total_set(bs.update(k, bs[k].update(i, v))) == total_set(bs) - (if bs[k][i] {
            1int
        } else {
            0int
        }) + (if v {
            1int
        } else {
            0int
        }),
    decreases bs.len(),
{
    let t = bs.update(k, bs[k].update(i, v));
    if k == bs.len() - 1 {
        assert(t.drop_last() =~= bs.drop_last());
        crate::buddy_math::lemma_count_update(bs[k], i, v);
    } else {
        lemma_total_set_update(bs.drop_last(), k, i, v);
        assert(t.drop_last() =~= bs.drop_last().update(k, bs[k].update(i, v)));
    }
}

/// Frames in all of `ranges`.
pub open spec fn range_frames_total(ranges: Seq<AllocatedFrameRange>) -> int
    decreases ranges.len(),
{
    if ranges.len() == 0 {
        0
    } else {
        range_frames_total(ranges.drop_last()) + ranges.last().frames
    }
}

/// No frame of a region lies in two of `ranges`.
pub open spec fn ranges_apart(regions: Seq<MemoryRegion>, ranges: Seq<AllocatedFrameRange>) -> bool {
    forall|j1: int, j2: int, k: int, i: int|
        0 <= j1 < j2 < ranges.len() && #[trigger] KernelFrameAllocator::range_marks(regions, ranges[j1], k, i)
            ==> !#[trigger] KernelFrameAllocator::range_marks(regions, ranges[j2], k, i)
}

/// Every range lies inside the first region containing its base, whose frames number as
/// many as the entries of the matching row of `shape`.
pub open spec fn ranges_fit(regions: Seq<MemoryRegion>, ranges: Seq<AllocatedFrameRange>, shape: Seq<Seq<bool>>) -> bool {
    forall|j: int|
        0 <= j < ranges.len() ==> match region_index(regions, (#[trigger] ranges[j]).base as int) {
            Some(k) => k < shape.len() && (ranges[j].base - regions[k].start) / 4096 + ranges[j].frames
                <= shape[k].len(),
            None => false,
        }
}

/// The bits of a bitmap per region, shaped like `shape`, that mark the frames of `ranges`.
pub open spec fn marks_like(shape: Seq<Seq<bool>>, regions: Seq<MemoryRegion>, ranges: Seq<AllocatedFrameRange>) -> Seq<Seq<bool>> {
    Seq::new(
        shape.len(),
        |k: int| Seq::new(shape[k].len(), |i: int| KernelFrameAllocator::marked_by(regions, ranges, k, i)),
    )
}

/// A sequence of bitmaps with no bit set counts none.
proof fn lemma_total_set_none(bs: Seq<Seq<bool>>)
    requires
        forall|k: int, i: int| 0 <= k < bs.len() && 0 <= i < bs[k].len() ==> !#[trigger] bs[k][i],
    ensures
        total_set(bs) == 0,
    decreases bs.len(),
{
    if bs.len() > 0 {
        let last = bs.last();
        assert forall|i: int| 0 <= i < last.len() implies !#[trigger] last[i] by {
            assert(bs[bs.len() - 1][i] == last[i]);
        }
        crate::buddy_math::lemma_count_none(last);
        let init = bs.drop_last();
        assert forall|k: int, i: int| 0 <= k < init.len() && 0 <= i < init[k].len() implies !#[trigger] init[k][i] by {
            assert(init[k] == bs[k]);
        }
        lemma_total_set_none(init);
    }
}

/// Marking the first `m` frames of range `x`, which no earlier range marks, adds `m`.
proof fn lemma_mark_run(
    shape: Seq<Seq<bool>>,
    regions: Seq<MemoryRegion>,
    ranges: Seq<AllocatedFrameRange>,
    n: int,
    m: int,
)
    requires
        0 <= n < ranges.len(),
        shape.len() == regions.len(),
        ranges_fit(regions, ranges, shape),
        ranges_apart(regions, ranges),
        0 <= m <= ranges[n].frames,
    ensures
        ({
            let x = ranges[n];
            let kx = region_index(regions, x.base as int)->Some_0;
            let sx = (x.base - regions[kx].start) / 4096;
            let v = Seq::new(
                shape.len(),
                |k: int| Seq::new(
                    shape[k].len(),
                    |i: int| KernelFrameAllocator::marked_by(regions, ranges.take(n), k, i) || (k == kx && sx <= i < sx + m),
                ),
            );
            total_set(v) == total_set(marks_like(shape, regions, ranges.take(n))) + m
        }),
    decreases m,
{
    let x = ranges[n];
    let kx = region_index(regions, x.base as int)->Some_0;
    let sx = (x.base - regions[kx].start) / 4096;
    let base = marks_like(shape, regions, ranges.take(n));
    let v = |mm: int| Seq::new(
        shape.len(),
        |k: int| Seq::new(
            shape[k].len(),
            |i: int| KernelFrameAllocator::marked_by(regions, ranges.take(n), k, i) || (k == kx && sx <= i < sx + mm),
        ),
    );
    if m == 0 {
        assert(v(0) =~= base) by {
            assert forall|k: int| 0 <= k < shape.len() implies #[trigger] v(0)[k] =~= base[k] by {}
        }
    } else {
        lemma_mark_run(shape, regions, ranges, n, m - 1);
        lemma_region_index(regions, x.base as int);
        assert(region_index(regions, ranges[n].base as int) is Some);
        assert(region_contains(regions[kx], x.base as int));
        let i = sx + m - 1;
        assert(0 <= sx);
        assert(i < shape[kx].len());
        let prev = v(m - 1);
        assert(!KernelFrameAllocator::marked_by(regions, ranges.take(n), kx, i)) by {
            reveal(KernelFrameAllocator::range_marks);
            assert(KernelFrameAllocator::range_marks(regions, ranges[n], kx, i));
            if KernelFrameAllocator::marked_by(regions, ranges.take(n), kx, i) {
                let t = choose|t: int|
                    0 <= t < ranges.take(n).len() && #[trigger] KernelFrameAllocator::range_marks(
                        regions,
                        ranges.take(n)[t],
                        kx,
                        i,
                    );
                assert(ranges.take(n)[t] == ranges[t]);
                assert(KernelFrameAllocator::range_marks(regions, ranges[t], kx, i));
                assert(false);
            }
        }
        assert(!prev[kx][i]);
        assert(v(m) =~= prev.update(kx, prev[kx].update(i, true))) by {
            assert forall|k: int| 0 <= k < shape.len() implies #[trigger] v(m)[k] =~= prev.update(
                kx,
                prev[kx].update(i, true),
            )[k] by {}
        }
        lemma_total_set_update(prev, kx, i, true);
    }
}

/// The marks of the first `n` ranges number as many as their frames, when no frame lies in
/// two ranges.
proof fn lemma_marks_count(shape: Seq<Seq<bool>>, regions: Seq<MemoryRegion>, ranges: Seq<AllocatedFrameRange>, n: int)
    requires
        0 <= n <= ranges.len(),
        shape.len() == regions.len(),
        ranges_fit(regions, ranges, shape),
        ranges_apart(regions, ranges),
    ensures
        total_set(marks_like(shape, regions, ranges.take(n))) == range_frames_total(ranges.take(n)),
    decreases n,
{
    if n == 0 {
        lemma_total_set_none(marks_like(shape, regions, ranges.take(0)));
    } else {
        lemma_marks_count(shape, regions, ranges, n - 1);
        let x = ranges[n - 1];
        lemma_mark_run(shape, regions, ranges, n - 1, x.frames as int);
        let kx = region_index(regions, x.base as int)->Some_0;
        let sx = (x.base - regions[kx].start) / 4096;
        let v = Seq::new(
            shape.len(),
            |k: int| Seq::new(
                shape[k].len(),
                |i: int| KernelFrameAllocator::marked_by(regions, ranges.take(n - 1), k, i) || (k == kx && sx <= i < sx
                    + x.frames),
            ),
        );
        let after = marks_like(shape, regions, ranges.take(n));
        assert(v =~= after) by {
            assert forall|k: int| 0 <= k < shape.len() implies #[trigger] v[k] =~= after[k] by {
                assert forall|i: int| 0 <= i < shape[k].len() implies #[trigger] v[k][i] == after[k][i] by {
                    reveal(KernelFrameAllocator::range_marks);
                    let now = KernelFrameAllocator::marked_by(regions, ranges.take(n), k, i);
                    let was = KernelFrameAllocator::marked_by(regions, ranges.take(n - 1), k, i);
                    if was {
                        let t = choose|t: int|
                            0 <= t < ranges.take(n - 1).len() && #[trigger] KernelFrameAllocator::range_marks(
                                regions,
                                ranges.take(n - 1)[t],
                                k,
                                i,
                            );
                        assert(ranges.take(n)[t] == ranges.take(n - 1)[t]);
                        assert(KernelFrameAllocator::range_marks(regions, ranges.take(n)[t], k, i));
                    }
                    if k == kx && sx <= i < sx + x.frames {
                        assert(ranges.take(n)[n - 1] == x);
                        assert(KernelFrameAllocator::range_marks(regions, ranges.take(n)[n - 1], k, i));
                    }
                    if now {
                        let t = choose|t: int|
                            0 <= t < ranges.take(n).len() && #[trigger] KernelFrameAllocator::range_marks(
                                regions,
                                ranges.take(n)[t],
                                k,
                                i,
                            );
                        if t < n - 1 {
                            assert(ranges.take(n - 1)[t] == ranges.take(n)[t]);
                            assert(KernelFrameAllocator::range_marks(regions, ranges.take(n - 1)[t], k, i));
                        } else {
                            assert(ranges.take(n)[t] == x);
                        }
                    }
                }
            }
        }
        assert(ranges.take(n).drop_last() =~= ranges.take(n - 1));
    }
}

/// The regions the frame allocator manages are the entries of the map that the kernel may
/// use, all of them.
pub proof fn lemma_usable_regions(map: Seq<MemoryRegion>)
    ensures
        forall|k: int|
            0 <= k < usable_regions(map).len() ==> (#[trigger] usable_regions(map)[k]).ty
                == MemoryRegionType::KernelUsable && map.contains(usable_regions(map)[k]),
        forall|k: int|
            0 <= k < map.len() && (#[trigger] map[k]).ty == MemoryRegionType::KernelUsable ==> usable_regions(
                map,
            ).contains(map[k]),
    decreases map.len(),
{
    if map.len() > 0 {
        let init = map.drop_last();
        lemma_usable_regions(init);
        let prev = usable_regions(init);
        let cur = usable_regions(map);
        assert forall|k: int|
            0 <= k < cur.len() implies (#[trigger] cur[k]).ty == MemoryRegionType::KernelUsable && map.contains(
                cur[k],
            ) by {
            if k < prev.len() {
                assert(cur[k] == prev[k]);
                let q = choose|q: int| 0 <= q < init.len() && init[q] == prev[k];
                assert(map[q] == init[q]);
            } else {
                assert(map[map.len() - 1] == map.last());
            }
        }
        assert forall|k: int|
            0 <= k < map.len() && (#[trigger] map[k]).ty == MemoryRegionType::KernelUsable implies cur.contains(
                map[k],
            ) by {
            if k < map.len() - 1 {
                assert(map[k] == init[k]);
                let q = choose|q: int| 0 <= q < prev.len() && prev[q] == init[k];
                assert(cur[q] == prev[q]);
            } else {
                assert(cur[cur.len() - 1] == map.last());
            }
        }
    }
}

} // verus!
