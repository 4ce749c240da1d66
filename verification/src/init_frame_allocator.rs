//! The early frame allocator: hands out frames one after another past the highest frame
//! the bootloader allocated, and records every allocated range.
use crate::boot_info::{AllocatedFrameRange, MemoryRegion};
use crate::frame_allocator::FrameAllocError;
use vstd::prelude::*;

verus! {

/// Bytes in a frame.
pub const INIT_FRAME_SIZE: u64 = 4096;

/// Ranges the record can hold: one frame of 16-byte entries.
pub const MAX_RANGES: usize = 256;

/// End address of `range`.
pub open spec fn range_end(range: AllocatedFrameRange) -> int {
    range.base + range.frames * 4096
}

/// The next frame at or after `addr` in region `index`, or at the start of a later
/// region: the region index and the frame's address. Regions are taken in order, and a
/// region is left once less than a frame remains in it.
pub open spec fn next_frame(regions: Seq<MemoryRegion>, index: int, addr: int) -> Option<(int, int)>
    decreases regions.len() - index,
{
    if index < 0 || index >= regions.len() {
        None
    } else if regions[index].end - addr >= 4096 {
        Some((index, addr))
    } else if index + 1 >= regions.len() {
        None
    } else {
        next_frame(regions, index + 1, regions[index + 1].start as int)
    }
}

/// `region` holds address `a`, its end included.
pub open spec fn holds_addr(region: MemoryRegion, a: int) -> bool {
    region.start <= a <= region.end
}

/// The first of `regions` that holds address `a`.
pub open spec fn first_holding(regions: Seq<MemoryRegion>, a: int) -> int {
    choose|k: int|
        0 <= k < regions.len() && #[trigger] holds_addr(regions[k], a) && forall|q: int|
            0 <= q < k ==> !#[trigger] holds_addr(regions[q], a)
}

/// Highest end address of `ranges`.
pub open spec fn max_end(ranges: Seq<AllocatedFrameRange>) -> int
    decreases ranges.len(),
{
    if ranges.len() == 0 {
        0
    } else {
        let rest = max_end(ranges.drop_last());
        let last = range_end(ranges.last());
        if ranges.len() == 1 || last > rest {
            last
        } else {
            rest
        }
    }
}

/// `ranges` after recording that frame `base` was allocated: the first range that ends
/// at `base` grows by one frame, or else a range of one frame at `base` is added.
pub open spec fn record_frame(ranges: Seq<AllocatedFrameRange>, base: int) -> Seq<AllocatedFrameRange> {
    if exists|i: int| 0 <= i < ranges.len() && range_end(#[trigger] ranges[i]) == base {
        let i = choose|i: int|
            0 <= i < ranges.len() && range_end(ranges[i]) == base && forall|j: int|
                0 <= j < i ==> range_end(#[trigger] ranges[j]) != base;
        ranges.update(i, AllocatedFrameRange { base: ranges[i].base, frames: (ranges[i].frames + 1) as usize })
    } else {
        ranges.push(AllocatedFrameRange { base: base as u64, frames: 1 })
    }
}

/// Every address of `range` fits, with room for one more frame.
pub open spec fn range_ok(range: AllocatedFrameRange) -> bool {
    range_end(range) + 4096 <= u64::MAX
}

/// The early frame allocator.
#[derive(Debug)]
pub struct InitFrameAllocator {
    memory_regions: Vec<MemoryRegion>,
    addr: u64,
    index: usize,
    allocated_frame_ranges: Vec<AllocatedFrameRange>,
}

impl InitFrameAllocator {
    /// The memory map frames are taken from.
    pub closed spec fn regions(&self) -> Seq<MemoryRegion> {
        self.memory_regions@
    }

    /// The region and address the next frame is looked for at.
    pub closed spec fn position(&self) -> (int, int) {
        (self.index as int, self.addr as int)
    }

    /// The ranges of frames allocated so far.
    pub closed spec fn ranges(&self) -> Seq<AllocatedFrameRange> {
        self.allocated_frame_ranges@
    }

    /// The position lies in a region, every region is a proper range, and the record has
    /// room and its ranges fit; frame counts are 64-bit.
    pub closed spec fn wf(&self) -> bool {
        &&& usize::MAX == u64::MAX
        &&& self.index < self.memory_regions@.len()
        &&& forall|k: int| 0 <= k < self.memory_regions@.len() ==> (#[trigger] self.memory_regions@[k]).start <= self.memory_regions@[k].end
        &&& self.memory_regions@[self.index as int].start <= self.addr <= self.memory_regions@[self.index as int].end
        &&& self.allocated_frame_ranges@.len() <= MAX_RANGES
        &&& forall|k: int| 0 <= k < self.allocated_frame_ranges@.len() ==> range_ok(#[trigger] self.allocated_frame_ranges@[k])
    }

    /// Finds the next frame from the current position and moves past it; changes nothing
    /// when no region has a frame left.
    fn next_frame_addr(&mut self) -> (r: Result<u64, FrameAllocError>)
        requires
            old(self).wf(),
        ensures
            final(self).wf(),
            final(self).regions() == old(self).regions(),
            final(self).ranges() == old(self).ranges(),
            match r {
                Ok(frame) => next_frame(old(self).regions(), old(self).position().0, old(self).position().1) == Some(
                    (final(self).position().0, frame as int),
                ) && final(self).position().1 == frame + 4096,
                Err(_) => next_frame(old(self).regions(), old(self).position().0, old(self).position().1) is None
                    && *final(self) == *old(self),
            },
    {
        let mut index = self.index;
        let mut addr = self.addr;
        loop
            invariant
                self.wf(),
                *self == *old(self),
                index < self.memory_regions@.len(),
                self.memory_regions@[index as int].start <= addr <= self.memory_regions@[index as int].end,
                next_frame(self.regions(), index as int, addr as int) == next_frame(
                    self.regions(),
                    self.index as int,
                    self.addr as int,
                ),
            decreases self.memory_regions@.len() - index,
        {
            let mem_region = self.memory_regions[index];
            let mem_left_in_region = mem_region.end - addr;
            if mem_left_in_region >= INIT_FRAME_SIZE {
                self.index = index;
                self.addr = addr + INIT_FRAME_SIZE;
                return Ok(addr);
            }
            if index >= self.memory_regions.len() - 1 {
                return Err(FrameAllocError);
            }
            index = index + 1;
            addr = self.memory_regions[index].start;
        }
    }

    /// Records that frame `base` was allocated.
    fn mark_frame_as_allocated(&mut self, base: u64)
        requires
            old(self).wf(),
            old(self).ranges().len() < MAX_RANGES,
            base + 2 * 4096 <= u64::MAX,
        ensures
            final(self).wf(),
            final(self).regions() == old(self).regions(),
            final(self).position() == old(self).position(),
            final(self).ranges() == record_frame(old(self).ranges(), base as int),
    {
        let mut existing_index: Option<usize> = None;
        let mut i: usize = 0;
        while existing_index.is_none() && i < self.allocated_frame_ranges.len()
            invariant
                self.wf(),
                *self == *old(self),
                i <= self.allocated_frame_ranges@.len(),
                existing_index matches Some(e) ==> e < self.allocated_frame_ranges@.len() && range_end(
                    self.allocated_frame_ranges@[e as int],
                ) == base && forall|j: int| 0 <= j < e ==> range_end(#[trigger] self.allocated_frame_ranges@[j]) != base,
                existing_index is None ==> forall|j: int| 0 <= j < i ==> range_end(#[trigger] self.allocated_frame_ranges@[j]) != base,
            decreases self.allocated_frame_ranges@.len() - i + if existing_index is None { 1int } else { 0int },
        {
            let entry = self.allocated_frame_ranges[i];
            proof {
                assert(range_ok(self.allocated_frame_ranges@[i as int]));
            }
            let entry_end = entry.base + entry.frames as u64 * INIT_FRAME_SIZE;
            if entry_end == base {
                existing_index = Some(i);
            } else {
                i = i + 1;
            }
        }
        let ghost before = self.allocated_frame_ranges@;
        if let Some(index) = existing_index {
            let entry = self.allocated_frame_ranges[index];
            let grown = AllocatedFrameRange { base: entry.base, frames: entry.frames + 1 };
            self.allocated_frame_ranges.set(index, grown);
            proof {
                let c = choose|c: int|
                    0 <= c < before.len() && range_end(before[c]) == base && forall|j: int|
                        0 <= j < c ==> range_end(#[trigger] before[j]) != base;
                if c < index {
                    assert(range_end(before[c]) != base);
                }
                if index < c {
                    assert(range_end(before[index as int]) != base);
                }
                assert(self.allocated_frame_ranges@ == record_frame(before, base as int));
                assert forall|k: int| 0 <= k < self.allocated_frame_ranges@.len() implies range_ok(#[trigger] self.allocated_frame_ranges@[k]) by {
                    if k != index {
                        assert(self.allocated_frame_ranges@[k] == before[k]);
                    }
                }
            }
        } else {
            self.allocated_frame_ranges.push(AllocatedFrameRange { base, frames: 1 });
            proof {
                assert(!exists|j: int| 0 <= j < before.len() && range_end(#[trigger] before[j]) == base);
                assert(self.allocated_frame_ranges@ == record_frame(before, base as int));
                assert forall|k: int| 0 <= k < self.allocated_frame_ranges@.len() implies range_ok(#[trigger] self.allocated_frame_ranges@[k]) by {
                    if k < before.len() {
                        assert(self.allocated_frame_ranges@[k] == before[k]);
                    }
                }
            }
        }
    }

    /// Allocates the next frame and records it; fails when no region has a frame left or
    /// the record of ranges is full.
    pub fn allocate_frame(&mut self) -> (r: Result<u64, FrameAllocError>)
        requires
            old(self).wf(),
            forall|k: int| 0 <= k < old(self).regions().len() ==> #[trigger] old(self).regions()[k].end + 4096 <= u64::MAX,
        ensures
            final(self).wf(),
            final(self).regions() == old(self).regions(),
            match r {
                Ok(frame) => {
                    &&& old(self).ranges().len() < MAX_RANGES
                    &&& next_frame(old(self).regions(), old(self).position().0, old(self).position().1) == Some(
                        (final(self).position().0, frame as int),
                    )
                    &&& final(self).position().1 == frame + 4096
                    &&& final(self).ranges() == record_frame(old(self).ranges(), frame as int)
                },
                Err(_) => *final(self) == *old(self) && (old(self).ranges().len() == MAX_RANGES || next_frame(
                    old(self).regions(),
                    old(self).position().0,
                    old(self).position().1,
                ) is None),
            },
    {
        if self.allocated_frame_ranges.len() >= MAX_RANGES {
            return Err(FrameAllocError);
        }
        let base = match self.next_frame_addr() {
            Ok(base) => base,
            Err(e) => return Err(e),
        };
        proof {
            assert(self.regions()[self.index as int].end + 4096 <= u64::MAX);
        }
        self.mark_frame_as_allocated(base);
        Ok(base)
    }

    /// Starts after the highest frame any range of `allocated_frame_ranges_bl` reaches,
    /// in the first region that contains that address (its end included), takes a frame
    /// for the record of ranges, and records the bootloader's ranges and that frame.
    pub fn new(memory_regions: &[MemoryRegion], allocated_frame_ranges_bl: &[AllocatedFrameRange]) -> (r: Self)
        requires
            usize::MAX == u64::MAX,
            allocated_frame_ranges_bl@.len() >= 1,
            allocated_frame_ranges_bl@.len() < MAX_RANGES,
            forall|k: int| 0 <= k < allocated_frame_ranges_bl@.len() ==> range_ok(#[trigger] allocated_frame_ranges_bl@[k]),
            forall|k: int|
                0 <= k < memory_regions@.len() ==> (#[trigger] memory_regions@[k]).start <= memory_regions@[k].end
                    && memory_regions@[k].end + 4096 <= u64::MAX,
            exists|k: int|
                0 <= k < memory_regions@.len() && #[trigger] holds_addr(memory_regions@[k], max_end(allocated_frame_ranges_bl@)),
            next_frame(
                memory_regions@,
                first_holding(memory_regions@, max_end(allocated_frame_ranges_bl@)),
                max_end(allocated_frame_ranges_bl@),
            ) is Some,
        ensures
            r.wf(),
            r.regions() == memory_regions@,
            ({
                let m = max_end(allocated_frame_ranges_bl@);
                let (index, frame) = next_frame(memory_regions@, first_holding(memory_regions@, m), m)->Some_0;
                &&& r.position() == (index, frame + 4096)
                &&& r.ranges() == record_frame(allocated_frame_ranges_bl@, frame)
            }),
    {
        let max_allocated_addr = Self::max_allocated_end(allocated_frame_ranges_bl);
        let index = Self::first_region_holding(memory_regions, max_allocated_addr);
        let regions = Self::copy_regions(memory_regions);
        let ranges = Self::copy_ranges(allocated_frame_ranges_bl);
        let mut me = InitFrameAllocator { memory_regions: regions, addr: max_allocated_addr, index, allocated_frame_ranges: ranges };
        let frame = match me.next_frame_addr() {
            Ok(frame) => frame,
            Err(_) => {
                proof {
                    assert(false);
                }
                0
            },
        };
        proof {
            assert(me.regions()[me.position().0].end + 4096 <= u64::MAX);
        }
        me.mark_frame_as_allocated(frame);
        me
    }

    /// Highest end address of `ranges`.
    fn max_allocated_end(ranges: &[AllocatedFrameRange]) -> (r: u64)
        requires
            ranges@.len() >= 1,
            forall|k: int| 0 <= k < ranges@.len() ==> range_ok(#[trigger] ranges@[k]),
        ensures
            r == max_end(ranges@),
    {
        let mut max_allocated_addr: u64 = 0;
        let mut i: usize = 0;
        while i < ranges.len()
            invariant
                i <= ranges@.len(),
                forall|k: int| 0 <= k < ranges@.len() ==> range_ok(#[trigger] ranges@[k]),
                i == 0 ==> max_allocated_addr == 0,
                i > 0 ==> max_allocated_addr == max_end(ranges@.take(i as int)),
            decreases ranges@.len() - i,
        {
            let range = ranges[i];
            proof {
                assert(range_ok(ranges@[i as int]));
                assert(ranges@.take(i + 1).drop_last() =~= ranges@.take(i as int));
                assert(ranges@.take(i + 1).last() == range);
            }
            let end = range.base + range.frames as u64 * INIT_FRAME_SIZE;
            if i == 0 || end > max_allocated_addr {
                max_allocated_addr = end;
            }
            i = i + 1;
        }
        proof {
            assert(ranges@.take(ranges@.len() as int) =~= ranges@);
        }
        max_allocated_addr
    }

    /// Index of the first of `regions` that holds `addr`.
    fn first_region_holding(regions: &[MemoryRegion], addr: u64) -> (r: usize)
        requires
            exists|k: int| 0 <= k < regions@.len() && #[trigger] holds_addr(regions@[k], addr as int),
        ensures
            r == first_holding(regions@, addr as int),
            r < regions@.len(),
            holds_addr(regions@[r as int], addr as int),
    {
        let ghost m = addr as int;
        let mut index: usize = 0;
        while index < regions.len()
            invariant
                index <= regions@.len(),
                m == addr,
                exists|k: int| 0 <= k < regions@.len() && #[trigger] holds_addr(regions@[k], m),
                forall|q: int| 0 <= q < index ==> !#[trigger] holds_addr(regions@[q], m),
            decreases regions@.len() - index,
        {
            if regions[index].start <= addr && addr <= regions[index].end {
                proof {
                    assert(holds_addr(regions@[index as int], m));
                    let c = first_holding(regions@, m);
                    assert(0 <= c < regions@.len() && holds_addr(regions@[c], m) && forall|q: int|
                        0 <= q < c ==> !#[trigger] holds_addr(regions@[q], m));
                    if c < index {
                        assert(!holds_addr(regions@[c], m));
                    }
                    if index < c {
                        assert(!holds_addr(regions@[index as int], m));
                    }
                }
                return index;
            }
            index = index + 1;
        }
        proof {
            let k = choose|k: int| 0 <= k < regions@.len() && #[trigger] holds_addr(regions@[k], m);
            assert(!holds_addr(regions@[k], m));
        }
        0
    }

    /// A copy of `regions`.
    fn copy_regions(memory_regions: &[MemoryRegion]) -> (r: Vec<MemoryRegion>)
        ensures
            r@ == memory_regions@,
    {
        let mut regions: Vec<MemoryRegion> = Vec::new();
        let mut j: usize = 0;
        while j < memory_regions.len()
            invariant
                j <= memory_regions@.len(),
                regions@ == memory_regions@.take(j as int),
            decreases memory_regions@.len() - j,
        {
            regions.push(memory_regions[j]);
            proof {
                assert(memory_regions@.take(j + 1) =~= memory_regions@.take(j as int).push(memory_regions@[j as int]));
            }
            j = j + 1;
        }
        proof {
            assert(memory_regions@.take(memory_regions@.len() as int) =~= memory_regions@);
        }
        regions
    }

    /// A copy of `ranges`.
    fn copy_ranges(ranges: &[AllocatedFrameRange]) -> (r: Vec<AllocatedFrameRange>)
        ensures
            r@ == ranges@,
    {
        let mut copy: Vec<AllocatedFrameRange> = Vec::new();
        let mut j: usize = 0;
        while j < ranges.len()
            invariant
                j <= ranges@.len(),
                copy@ == ranges@.take(j as int),
            decreases ranges@.len() - j,
        {
            copy.push(ranges[j]);
            proof {
                assert(ranges@.take(j + 1) =~= ranges@.take(j as int).push(ranges@[j as int]));
            }
            j = j + 1;
        }
        proof {
            assert(ranges@.take(ranges@.len() as int) =~= ranges@);
        }
        copy
    }

    /// The ranges of frames allocated, the bootloader's and this allocator's.
    pub fn allocated_frame_ranges(self) -> (r: Vec<AllocatedFrameRange>)
        ensures
            r@ == self.ranges(),
    {
        self.allocated_frame_ranges
    }
}

} // verus!
