//! Memory handling of the bootloader: the firmware's memory map, the bump allocator
//! that hands out frames before the kernel runs, and the memory map passed to the
//! kernel.
use crate::boot_info::{AllocatedFrameRange, MemoryRegion, MemoryRegionType};
use vstd::prelude::*;

verus! {

/// Bytes in a frame.
pub const FRAME_SIZE: u64 = 4096;

/// Usable regions the bump allocator keeps, and ranges it records.
pub const MAX_LOADER_REGIONS: usize = 128;

/// Entries of the kernel's memory map that fit in one frame.
pub const MAX_KERNEL_REGIONS: usize = 170;

/// What the firmware says a range of memory is.
#[derive(Clone, Copy, Debug, PartialEq, Eq, Structural)]
pub enum MemoryType {
    EfiReservedMemoryType,
    EfiLoaderCode,
    EfiLoaderData,
    EfiBootServicesCode,
    EfiBootServicesData,
    EfiRuntimeServicesCode,
    EfiRuntimeServicesData,
    EfiConventionalMemory,
    EfiUnusableMemory,
    EfiACPIReclaimMemory,
    EfiACPIMemoryNVS,
    EfiMemoryMappedIO,
    EfiMemoryMappedIOPortSpace,
    EfiPalCode,
    EfiPersistentMemory,
    EfiUnacceptedMemoryType,
}

/// One entry of the firmware's memory map.
#[derive(Clone, Copy, Debug)]
pub struct MemoryDescriptor {
    pub ty: MemoryType,
    pub physical_start: u64,
    pub virtual_start: u64,
    pub number_of_pages: u64,
    pub attribute: u64,
}

/// No frames could be allocated.
#[derive(Clone, Copy, Debug, PartialEq, Eq, Structural)]
pub struct AllocError;

/// Memory the bootloader may allocate from: free conventional memory.
pub open spec fn loader_usable(ty: MemoryType) -> bool {
    ty == MemoryType::EfiConventionalMemory
}

impl MemoryType {
    /// Whether the bootloader may allocate from memory of this type.
    pub fn usable_by_loader(&self) -> (r: bool)
        ensures
            r == loader_usable(*self),
    {
        match self {
            MemoryType::EfiConventionalMemory => true,
            _ => false,
        }
    }
}

/// What the kernel is told memory of firmware type `ty` is.
pub open spec fn region_type_of(ty: MemoryType) -> MemoryRegionType {
    match ty {
        MemoryType::EfiReservedMemoryType => MemoryRegionType::ReservedMemoryType,
        MemoryType::EfiLoaderCode => MemoryRegionType::KernelUsable,
        MemoryType::EfiLoaderData => MemoryRegionType::KernelUsable,
        MemoryType::EfiBootServicesCode => MemoryRegionType::KernelUsable,
        MemoryType::EfiBootServicesData => MemoryRegionType::KernelUsable,
        MemoryType::EfiRuntimeServicesCode => MemoryRegionType::EfiRuntimeServicesCode,
        MemoryType::EfiRuntimeServicesData => MemoryRegionType::EfiRuntimeServicesData,
        MemoryType::EfiConventionalMemory => MemoryRegionType::KernelUsable,
        MemoryType::EfiUnusableMemory => MemoryRegionType::UnusableMemory,
        MemoryType::EfiACPIReclaimMemory => MemoryRegionType::ACPIReclaimMemory,
        MemoryType::EfiACPIMemoryNVS => MemoryRegionType::ACPIMemoryNVS,
        MemoryType::EfiMemoryMappedIO => MemoryRegionType::MemoryMappedIO,
        MemoryType::EfiMemoryMappedIOPortSpace => MemoryRegionType::MemoryMappedIOPortSpace,
        MemoryType::EfiPalCode => MemoryRegionType::PalCode,
        MemoryType::EfiPersistentMemory => MemoryRegionType::KernelUsable,
        MemoryType::EfiUnacceptedMemoryType => MemoryRegionType::UnacceptedMemoryType,
    }
}

/// What the kernel is told memory of firmware type `memory_type` is.
pub fn map_mem_type(memory_type: MemoryType) -> (r: MemoryRegionType)
    ensures
        r == region_type_of(memory_type),
{
    match memory_type {
        MemoryType::EfiReservedMemoryType => MemoryRegionType::ReservedMemoryType,
        MemoryType::EfiLoaderCode => MemoryRegionType::KernelUsable,
        MemoryType::EfiLoaderData => MemoryRegionType::KernelUsable,
        MemoryType::EfiBootServicesCode => MemoryRegionType::KernelUsable,
        MemoryType::EfiBootServicesData => MemoryRegionType::KernelUsable,
        MemoryType::EfiRuntimeServicesCode => MemoryRegionType::EfiRuntimeServicesCode,
        MemoryType::EfiRuntimeServicesData => MemoryRegionType::EfiRuntimeServicesData,
        MemoryType::EfiConventionalMemory => MemoryRegionType::KernelUsable,
        MemoryType::EfiUnusableMemory => MemoryRegionType::UnusableMemory,
        MemoryType::EfiACPIReclaimMemory => MemoryRegionType::ACPIReclaimMemory,
        MemoryType::EfiACPIMemoryNVS => MemoryRegionType::ACPIMemoryNVS,
        MemoryType::EfiMemoryMappedIO => MemoryRegionType::MemoryMappedIO,
        MemoryType::EfiMemoryMappedIOPortSpace => MemoryRegionType::MemoryMappedIOPortSpace,
        MemoryType::EfiPalCode => MemoryRegionType::PalCode,
        MemoryType::EfiPersistentMemory => MemoryRegionType::KernelUsable,
        MemoryType::EfiUnacceptedMemoryType => MemoryRegionType::UnacceptedMemoryType,
    }
}

/// End address of descriptor `desc`.
pub open spec fn desc_end(desc: MemoryDescriptor) -> int {
    desc.physical_start + desc.number_of_pages * 4096
}

/// The kernel's memory map built from the firmware's, entry by entry: an entry that
/// starts where the previous region ends, when both are usable by the kernel, extends
/// it; any other entry starts a new region. The first region starts at 4 KiB at the
/// lowest.
pub open spec fn kernel_map(map: Seq<MemoryDescriptor>) -> Seq<MemoryRegion>
    decreases map.len(),
{
    if map.len() == 0 {
        Seq::empty()
    } else {
        let prev = kernel_map(map.drop_last());
        let desc = map.last();
        let ty = region_type_of(desc.ty);
        if prev.len() == 0 {
            seq![MemoryRegion {
                ty,
                start: if desc.physical_start >= 0x1000 { desc.physical_start } else { 0x1000 },
                end: desc_end(desc) as u64,
            }]
        } else if prev.last().end == desc.physical_start && prev.last().ty == MemoryRegionType::KernelUsable && ty
            == MemoryRegionType::KernelUsable {
            prev.update(
                prev.len() - 1,
                MemoryRegion { ty: prev.last().ty, start: prev.last().start, end: (prev.last().end + desc.number_of_pages * 4096) as u64 },
            )
        } else {
            prev.push(MemoryRegion { ty, start: desc.physical_start, end: desc_end(desc) as u64 })
        }
    }
}

/// Every entry's end fits, and so does every sum of consecutive entries' pages.
pub open spec fn map_fits(map: Seq<MemoryDescriptor>) -> bool {
    forall|k: int| 0 <= k < map.len() ==> desc_end(#[trigger] map[k]) <= u64::MAX
}

/// Every region of the kernel map ends no later than the last entry ending so far.
proof fn lemma_kernel_map_bounds(map: Seq<MemoryDescriptor>)
    requires
        map_fits(map),
    ensures
        kernel_map(map).len() <= map.len(),
        map.len() > 0 ==> kernel_map(map).last().end == desc_end(map.last()) || kernel_map(map).len() == 0,
    decreases map.len(),
{
    if map.len() > 0 {
        let init = map.drop_last();
        assert forall|k: int| 0 <= k < init.len() implies desc_end(#[trigger] init[k]) <= u64::MAX by {
            assert(init[k] == map[k]);
        }
        lemma_kernel_map_bounds(init);
    }
}

/// Entry `desc` holds byte `b`.
pub open spec fn desc_holds(desc: MemoryDescriptor, b: int) -> bool {
    desc.physical_start <= b < desc_end(desc)
}

/// Region `region` holds byte `b`.
pub open spec fn region_holds(region: MemoryRegion, b: int) -> bool {
    region.start <= b < region.end
}

/// In the kernel's memory map no usable region ends where the next usable one starts:
/// touching usable entries are always merged. Every byte of an entry, from 4 KiB up, lies
/// in a region of the entry's kind.
pub proof fn lemma_kernel_map_merged(map: Seq<MemoryDescriptor>)
    requires
        map_fits(map),
    ensures
        ({
            let r = kernel_map(map);
            &&& forall|i: int, j: int|
                0 <= i && j == i + 1 && j < r.len() && #[trigger] r[i].ty == MemoryRegionType::KernelUsable
                    && #[trigger] r[j].ty == MemoryRegionType::KernelUsable ==> r[i].end != r[j].start
            &&& forall|i: int| 0 <= i < r.len() ==> (#[trigger] r[i]).start <= r[i].end || r[i].start == 0x1000
            &&& forall|k: int, b: int|
                0 <= k < map.len() && #[trigger] desc_holds(map[k], b) && b >= 0x1000 ==> exists|i: int|
                    0 <= i < r.len() && #[trigger] region_holds(r[i], b) && r[i].ty == region_type_of(map[k].ty)
        }),
    decreases map.len(),
{
    if map.len() > 0 {
        let init = map.drop_last();
        assert forall|k: int| 0 <= k < init.len() implies desc_end(#[trigger] init[k]) <= u64::MAX by {
            assert(init[k] == map[k]);
        }
        lemma_kernel_map_merged(init);
        lemma_kernel_map_bounds(init);
        let prev = kernel_map(init);
        let r = kernel_map(map);
        let desc = map.last();
        assert(desc_end(map[map.len() - 1]) <= u64::MAX);
        assert forall|i: int| 0 <= i < r.len() implies (#[trigger] r[i]).start <= r[i].end || r[i].start == 0x1000 by {
            if i < prev.len() {
                assert(prev[i].start <= prev[i].end || prev[i].start == 0x1000);
            }
        }
        assert forall|k: int, b: int|
            0 <= k < map.len() && #[trigger] desc_holds(map[k], b) && b >= 0x1000 implies exists|i: int|
                0 <= i < r.len() && #[trigger] region_holds(r[i], b) && r[i].ty == region_type_of(map[k].ty) by {
            if k == map.len() - 1 {
                let last = r.len() - 1;
                if prev.len() > 0 {
                    assert(prev[prev.len() - 1].start <= prev[prev.len() - 1].end || prev[prev.len() - 1].start == 0x1000);
                }
                assert(region_holds(r[last], b) && r[last].ty == region_type_of(map[k].ty));
            } else {
                assert(init[k] == map[k]);
                assert(desc_holds(init[k], b));
                let i = choose|i: int|
                    0 <= i < prev.len() && #[trigger] region_holds(prev[i], b) && prev[i].ty == region_type_of(init[k].ty);
                assert(region_holds(r[i], b) && r[i].ty == region_type_of(map[k].ty));
            }
        }
    }
}

/// The kernel's memory map built from the firmware's. The boot information has room for
/// `MAX_KERNEL_REGIONS` regions; a longer result does not fit there.
pub fn optimize_memory_map(memory_map: &[MemoryDescriptor]) -> (r: Vec<MemoryRegion>)
    requires
        map_fits(memory_map@),
    ensures
        r@ == kernel_map(memory_map@),
{
    let mut mem_regions: Vec<MemoryRegion> = Vec::new();
    let mut i: usize = 0;
    while i < memory_map.len()
        invariant
            i <= memory_map@.len(),
            map_fits(memory_map@),
            mem_regions@ == kernel_map(memory_map@.take(i as int)),
        decreases memory_map@.len() - i,
    {
        let desc = memory_map[i];
        let ghost prefix = memory_map@.take(i + 1);
        proof {
            assert(prefix.drop_last() =~= memory_map@.take(i as int));
            assert(prefix.last() == desc);
            assert forall|k: int| 0 <= k < prefix.len() implies desc_end(#[trigger] prefix[k]) <= u64::MAX by {
                assert(prefix[k] == memory_map@[k]);
            }
            lemma_kernel_map_bounds(prefix.drop_last());
            assert(desc_end(memory_map@[i as int]) <= u64::MAX);
        }
        let mem_type = map_mem_type(desc.ty);
        let end = desc.physical_start + desc.number_of_pages * FRAME_SIZE;
        let len = mem_regions.len();
        if len > 0 {
            let last = mem_regions[len - 1];
            let overlap = last.end == desc.physical_start;
            if overlap && last.ty == MemoryRegionType::KernelUsable && mem_type == MemoryRegionType::KernelUsable {
                let grown = MemoryRegion { ty: last.ty, start: last.start, end: end };
                mem_regions.set(len - 1, grown);
            } else {
                mem_regions.push(MemoryRegion { ty: mem_type, start: desc.physical_start, end });
            }
        } else {
            let start = if desc.physical_start >= 0x1000 {
                desc.physical_start
            } else {
                0x1000
            };
            mem_regions.push(MemoryRegion { ty: mem_type, start, end });
        }
        proof {
            assert(mem_regions@ =~= kernel_map(prefix));
        }
        i = i + 1;
    }
    proof {
        assert(memory_map@.take(memory_map@.len() as int) =~= memory_map@);
    }
    mem_regions
}

/// Memory the bootloader maps: everything but reserved, unusable, memory-mapped and
/// unaccepted memory.
pub open spec fn mapped_type(ty: MemoryRegionType) -> bool {
    match ty {
        MemoryRegionType::ReservedMemoryType => false,
        MemoryRegionType::UnusableMemory => false,
        MemoryRegionType::MemoryMappedIO => false,
        MemoryRegionType::MemoryMappedIOPortSpace => false,
        MemoryRegionType::UnacceptedMemoryType => false,
        _ => true,
    }
}

/// The highest end of a mapped region of `regions`, if any is mapped.
pub open spec fn max_mapped_end(regions: Seq<MemoryRegion>) -> Option<u64>
    decreases regions.len(),
{
    if regions.len() == 0 {
        None
    } else {
        let rest = max_mapped_end(regions.drop_last());
        let last = regions.last();
        if !mapped_type(last.ty) {
            rest
        } else {
            match rest {
                Some(m) => Some(if last.end > m { last.end } else { m }),
                None => Some(last.end),
            }
        }
    }
}

/// The highest end of a mapped region of `regions`, if any is mapped.
pub fn max_mapped_addr(regions: &[MemoryRegion]) -> (r: Option<u64>)
    ensures
        r == max_mapped_end(regions@),
{
    let mut max: Option<u64> = None;
    let mut i: usize = 0;
    while i < regions.len()
        invariant
            i <= regions@.len(),
            max == max_mapped_end(regions@.take(i as int)),
        decreases regions@.len() - i,
    {
        let region = regions[i];
        proof {
            assert(regions@.take(i + 1).drop_last() =~= regions@.take(i as int));
            assert(regions@.take(i + 1).last() == region);
        }
        let mapped = match region.ty {
            MemoryRegionType::ReservedMemoryType => false,
            MemoryRegionType::UnusableMemory => false,
            MemoryRegionType::MemoryMappedIO => false,
            MemoryRegionType::MemoryMappedIOPortSpace => false,
            MemoryRegionType::UnacceptedMemoryType => false,
            _ => true,
        };
        if mapped {
            max = match max {
                Some(m) => Some(if region.end > m {
                    region.end
                } else {
                    m
                }),
                None => Some(region.end),
            };
        }
        i = i + 1;
    }
    proof {
        assert(regions@.take(regions@.len() as int) =~= regions@);
    }
    max
}

/// Lowest address of the kernel stack that ends at `stack_start` and has
/// `kernel_stack_frames` frames: `stack_start & (!0xfff - (kernel_stack_frames - 1) * 4096)`.
pub fn kernel_stack_end(stack_start: u64, kernel_stack_frames: u64) -> (r: u64)
    requires
        1 <= kernel_stack_frames,
        (kernel_stack_frames - 1) * 4096 <= !0xfffu64,
    ensures
        r == stack_start & ((!0xfffu64 - (kernel_stack_frames - 1) * 4096) as u64),
{
    stack_start & (!0xfffu64 - (kernel_stack_frames - 1) * 4096)
}

/// The descriptors of `map` the bootloader may allocate from, at most
/// `MAX_LOADER_REGIONS` of them, in order.
pub open spec fn loader_regions(map: Seq<MemoryDescriptor>) -> Seq<MemoryDescriptor>
    decreases map.len(),
{
    if map.len() == 0 {
        Seq::empty()
    } else {
        let prev = loader_regions(map.drop_last());
        if loader_usable(map.last().ty) && prev.len() < MAX_LOADER_REGIONS {
            prev.push(map.last())
        } else {
            prev
        }
    }
}

/// Where `num_frames` frames fit, from address `addr` in region `index` on: the region
/// and the address. A region is left once it cannot hold them, for the start of the
/// next one.
pub open spec fn next_fit(regions: Seq<MemoryDescriptor>, index: int, addr: int, num_frames: int) -> Option<(int, int)>
    decreases regions.len() - index,
{
    if index < 0 || index >= regions.len() {
        None
    } else if desc_end(regions[index]) - addr >= 4096 * num_frames {
        Some((index, addr))
    } else if index + 1 >= regions.len() {
        None
    } else {
        next_fit(regions, index + 1, regions[index + 1].physical_start as int, num_frames)
    }
}

/// End address of an allocated range.
pub open spec fn frames_end(range: AllocatedFrameRange) -> int {
    range.base + range.frames * 4096
}

/// `ranges` after recording `num_frames` frames at `base`: the first range ending at
/// `base` grows, or else a new range is added.
pub open spec fn record_frames(ranges: Seq<AllocatedFrameRange>, base: int, num_frames: int) -> Seq<AllocatedFrameRange> {
    if exists|i: int| 0 <= i < ranges.len() && frames_end(#[trigger] ranges[i]) == base {
        let i = choose|i: int|
            0 <= i < ranges.len() && frames_end(ranges[i]) == base && forall|j: int|
                0 <= j < i ==> frames_end(#[trigger] ranges[j]) != base;
        ranges.update(i, AllocatedFrameRange { base: ranges[i].base, frames: (ranges[i].frames + num_frames) as usize })
    } else {
        ranges.push(AllocatedFrameRange { base: base as u64, frames: num_frames as usize })
    }
}

/// Where the bump allocator is and what it has handed out.
#[derive(Debug)]
pub struct BumpAllocatorInner {
    region_index: usize,
    addr: u64,
    pub allocated_frames: Vec<AllocatedFrameRange>,
}

/// Hands out frames in address order from the firmware's free memory.
#[derive(Debug)]
pub struct BumpAllocator {
    mem_regions: Vec<MemoryDescriptor>,
    pub inner: BumpAllocatorInner,
}

impl BumpAllocator {
    /// The regions frames come from.
    pub closed spec fn regions(&self) -> Seq<MemoryDescriptor> {
        self.mem_regions@
    }

    /// The region and address the next frames are looked for at.
    pub closed spec fn position(&self) -> (int, int) {
        (self.inner.region_index as int, self.inner.addr as int)
    }

    /// The ranges handed out so far.
    pub closed spec fn ranges(&self) -> Seq<AllocatedFrameRange> {
        self.inner.allocated_frames@
    }

    /// The position lies in a region, every region's end fits, and every recorded range
    /// lies below the position's region end; frame counts are 64-bit.
    pub closed spec fn wf(&self) -> bool {
        &&& usize::MAX == u64::MAX
        &&& self.inner.region_index < self.mem_regions@.len()
        &&& map_fits(self.mem_regions@)
        &&& self.mem_regions@[self.inner.region_index as int].physical_start <= self.inner.addr
        &&& self.inner.addr <= desc_end(self.mem_regions@[self.inner.region_index as int])
        &&& self.inner.allocated_frames@.len() <= MAX_LOADER_REGIONS
        &&& forall|k: int| 0 <= k < self.inner.allocated_frames@.len() ==> frames_end(#[trigger] self.inner.allocated_frames@[k]) <= u64::MAX
    }

    /// A well-formed allocator runs where frame counts are 64-bit.
    pub proof fn lemma_wide(&self)
        requires
            self.wf(),
        ensures
            usize::MAX == u64::MAX,
    {
    }

    /// An allocator over the free memory of `memory_map`, starting at the first such
    /// region, but not below 4 KiB.
    pub fn new(memory_map: &[MemoryDescriptor]) -> (r: Self)
        requires
            usize::MAX == u64::MAX,
            map_fits(memory_map@),
            loader_regions(memory_map@).len() >= 1,
            desc_end(loader_regions(memory_map@)[0]) >= 4096,
        ensures
            r.wf(),
            r.regions() == loader_regions(memory_map@),
            r.position() == (0int, if loader_regions(memory_map@)[0].physical_start >= 4096 {
                loader_regions(memory_map@)[0].physical_start as int
            } else {
                4096int
            }),
            r.ranges() == Seq::<AllocatedFrameRange>::empty(),
    {
        let mut mem_regions: Vec<MemoryDescriptor> = Vec::new();
        let mut i: usize = 0;
        while i < memory_map.len()
            invariant
                i <= memory_map@.len(),
                mem_regions@ == loader_regions(memory_map@.take(i as int)),
            decreases memory_map@.len() - i,
        {
            let desc = memory_map[i];
            proof {
                assert(memory_map@.take(i + 1).drop_last() =~= memory_map@.take(i as int));
                assert(memory_map@.take(i + 1).last() == desc);
            }
            if desc.ty.usable_by_loader() && mem_regions.len() < MAX_LOADER_REGIONS {
                mem_regions.push(desc);
            }
            i = i + 1;
        }
        proof {
            assert(memory_map@.take(memory_map@.len() as int) =~= memory_map@);
            lemma_loader_regions_in_map(memory_map@);
        }
        let start = mem_regions[0].physical_start;
        let addr = if start >= 4096 {
            start
        } else {
            4096
        };
        BumpAllocator {
            mem_regions,
            inner: BumpAllocatorInner { region_index: 0, addr, allocated_frames: Vec::new() },
        }
    }

    /// Frames handed out by a bump allocator made over the firmware map `map` lie in
    /// free conventional memory: inside one conventional entry of the map, from its start
    /// to its end.
    pub proof fn lemma_frames_from_free_memory(&self, map: Seq<MemoryDescriptor>, num_frames: int)
        requires
            self.wf(),
            self.regions() == loader_regions(map),
        ensures
            next_fit(self.regions(), self.position().0, self.position().1, num_frames) matches Some((j, b))
                ==> exists|d: MemoryDescriptor|
                map.contains(d) && d.ty == MemoryType::EfiConventionalMemory && d.physical_start <= b && b + 4096
                    * num_frames <= desc_end(d),
    {
        lemma_next_fit_inside(self.regions(), self.position().0, self.position().1, num_frames);
        lemma_loader_regions_conventional(map);
        if let Some((j, b)) = next_fit(self.regions(), self.position().0, self.position().1, num_frames) {
            let d = self.regions()[j];
            assert(loader_regions(map)[j] == d);
            assert(map.contains(d) && d.ty == MemoryType::EfiConventionalMemory);
        }
    }

    /// Allocates `num_frames` consecutive frames at the next place they fit and records
    /// them; fails, changing nothing, when no region can hold them or the record of
    /// ranges is full.
    pub fn allocate_frames(&mut self, num_frames: usize) -> (r: Result<u64, AllocError>)
        requires
            old(self).wf(),
            num_frames * 4096 <= u64::MAX,
        ensures
            final(self).wf(),
            final(self).regions() == old(self).regions(),
            match r {
                Ok(base) => {
                    &&& old(self).ranges().len() < MAX_LOADER_REGIONS
                    &&& next_fit(old(self).regions(), old(self).position().0, old(self).position().1, num_frames as int)
                        == Some((final(self).position().0, base as int))
                    &&& final(self).position().1 == base + 4096 * num_frames
                    &&& final(self).ranges() == record_frames(old(self).ranges(), base as int, num_frames as int)
                },
                Err(_) => *final(self) == *old(self) && (old(self).ranges().len() == MAX_LOADER_REGIONS || next_fit(
                    old(self).regions(),
                    old(self).position().0,
                    old(self).position().1,
                    num_frames as int,
                ) is None),
            },
    {
        if self.inner.allocated_frames.len() >= MAX_LOADER_REGIONS {
            return Err(AllocError);
        }
        let mut index = self.inner.region_index;
        let mut addr = self.inner.addr;
        loop
            invariant
                self.wf(),
                *self == *old(self),
                num_frames * 4096 <= u64::MAX,
                self.inner.allocated_frames@.len() < MAX_LOADER_REGIONS,
                index < self.mem_regions@.len(),
                self.mem_regions@[index as int].physical_start <= addr <= desc_end(self.mem_regions@[index as int]),
                next_fit(self.regions(), index as int, addr as int, num_frames as int) == next_fit(
                    self.regions(),
                    self.position().0,
                    self.position().1,
                    num_frames as int,
                ),
            decreases self.mem_regions@.len() - index,
        {
            let mem_desc = self.mem_regions[index];
            proof {
                assert(desc_end(self.mem_regions@[index as int]) <= u64::MAX);
            }
            let mem_desc_size = mem_desc.number_of_pages * FRAME_SIZE;
            let mem_left_in_desc = mem_desc.physical_start + mem_desc_size - addr;
            if mem_left_in_desc >= FRAME_SIZE * num_frames as u64 {
                let ptr = addr;
                let ghost before = *self;
                self.reserve_frames(ptr, num_frames);
                self.inner.region_index = index;
                self.inner.addr = addr + 4096 * num_frames as u64;
                return Ok(ptr);
            }
            if index >= self.mem_regions.len() - 1 {
                return Err(AllocError);
            }
            index = index + 1;
            addr = self.mem_regions[index].physical_start;
            proof {
                assert(desc_end(self.mem_regions@[index as int]) >= addr) by {
                    assert(self.mem_regions@[index as int].number_of_pages * 4096 >= 0) by (nonlinear_arith);
                }
            }
        }
    }

    /// Whether `num_frames` frames can be allocated now: the record of ranges has room and
    /// some region, from the current position on, can hold them.
    pub fn can_allocate_frames(&self, num_frames: usize) -> (r: bool)
        requires
            self.wf(),
            num_frames * 4096 <= u64::MAX,
        ensures
            r == (self.ranges().len() < MAX_LOADER_REGIONS && next_fit(
                self.regions(),
                self.position().0,
                self.position().1,
                num_frames as int,
            ) is Some),
    {
        if self.inner.allocated_frames.len() >= MAX_LOADER_REGIONS {
            return false;
        }
        let mut index = self.inner.region_index;
        let mut addr = self.inner.addr;
        loop
            invariant
                self.wf(),
                num_frames * 4096 <= u64::MAX,
                self.inner.allocated_frames@.len() < MAX_LOADER_REGIONS,
                index < self.mem_regions@.len(),
                self.mem_regions@[index as int].physical_start <= addr <= desc_end(self.mem_regions@[index as int]),
                next_fit(self.regions(), index as int, addr as int, num_frames as int) == next_fit(
                    self.regions(),
                    self.position().0,
                    self.position().1,
                    num_frames as int,
                ),
            decreases self.mem_regions@.len() - index,
        {
            let mem_desc = self.mem_regions[index];
            proof {
                assert(desc_end(self.mem_regions@[index as int]) <= u64::MAX);
            }
            let mem_desc_size = mem_desc.number_of_pages * FRAME_SIZE;
            let mem_left_in_desc = mem_desc.physical_start + mem_desc_size - addr;
            if mem_left_in_desc >= FRAME_SIZE * num_frames as u64 {
                return true;
            }
            if index >= self.mem_regions.len() - 1 {
                return false;
            }
            index = index + 1;
            addr = self.mem_regions[index].physical_start;
            proof {
                assert(desc_end(self.mem_regions@[index as int]) >= addr) by {
                    assert(self.mem_regions@[index as int].number_of_pages * 4096 >= 0) by (nonlinear_arith);
                }
            }
        }
    }

    /// Allocates one frame at the next place it fits and records it; fails, changing
    /// nothing, when no region can hold it or the record of ranges is full.
    pub fn allocate_frame(&mut self) -> (r: Result<u64, AllocError>)
        requires
            old(self).wf(),
        ensures
            final(self).wf(),
            final(self).regions() == old(self).regions(),
            match r {
                Ok(base) => {
                    &&& old(self).ranges().len() < MAX_LOADER_REGIONS
                    &&& next_fit(old(self).regions(), old(self).position().0, old(self).position().1, 1)
                        == Some((final(self).position().0, base as int))
                    &&& final(self).position().1 == base + 4096
                    &&& final(self).ranges() == record_frames(old(self).ranges(), base as int, 1)
                },
                Err(_) => *final(self) == *old(self) && (old(self).ranges().len() == MAX_LOADER_REGIONS || next_fit(
                    old(self).regions(),
                    old(self).position().0,
                    old(self).position().1,
                    1,
                ) is None),
            },
    {
        self.allocate_frames(1)
    }

    /// Records `num_frames` frames at `base`.
    fn reserve_frames(&mut self, base: u64, num_frames: usize)
        requires
            old(self).wf(),
            old(self).inner.allocated_frames@.len() < MAX_LOADER_REGIONS,
            base + 4096 * num_frames <= u64::MAX,
        ensures
            final(self).mem_regions == old(self).mem_regions,
            final(self).inner.region_index == old(self).inner.region_index,
            final(self).inner.addr == old(self).inner.addr,
            final(self).inner.allocated_frames@.len() <= MAX_LOADER_REGIONS,
            forall|k: int| 0 <= k < final(self).inner.allocated_frames@.len() ==> frames_end(#[trigger] final(self).inner.allocated_frames@[k]) <= u64::MAX,
            final(self).ranges() == record_frames(old(self).ranges(), base as int, num_frames as int),
    {
        let mut existing_index: Option<usize> = None;
        let mut i: usize = 0;
        while existing_index.is_none() && i < self.inner.allocated_frames.len()
            invariant
                self.wf(),
                *self == *old(self),
                i <= self.inner.allocated_frames@.len(),
                existing_index matches Some(e) ==> e < self.inner.allocated_frames@.len() && frames_end(
                    self.inner.allocated_frames@[e as int],
                ) == base && forall|j: int| 0 <= j < e ==> frames_end(#[trigger] self.inner.allocated_frames@[j]) != base,
                existing_index is None ==> forall|j: int| 0 <= j < i ==> frames_end(#[trigger] self.inner.allocated_frames@[j]) != base,
            decreases self.inner.allocated_frames@.len() - i + if existing_index is None { 1int } else { 0int },
        {
            let entry = self.inner.allocated_frames[i];
            proof {
                assert(frames_end(self.inner.allocated_frames@[i as int]) <= u64::MAX);
            }
            let entry_end = entry.base + entry.frames as u64 * FRAME_SIZE;
            if entry_end == base {
                existing_index = Some(i);
            } else {
                i = i + 1;
            }
        }
        let ghost before = self.inner.allocated_frames@;
        if let Some(index) = existing_index {
            let entry = self.inner.allocated_frames[index];
            let grown = AllocatedFrameRange { base: entry.base, frames: entry.frames + num_frames };
            self.inner.allocated_frames.set(index, grown);
            proof {
                let c = choose|c: int|
                    0 <= c < before.len() && frames_end(before[c]) == base && forall|j: int|
                        0 <= j < c ==> frames_end(#[trigger] before[j]) != base;
                if c < index {
                    assert(frames_end(before[c]) != base);
                }
                if index < c {
                    assert(frames_end(before[index as int]) != base);
                }
                assert(self.inner.allocated_frames@ == record_frames(before, base as int, num_frames as int));
                assert forall|k: int| 0 <= k < self.inner.allocated_frames@.len() implies frames_end(#[trigger] self.inner.allocated_frames@[k]) <= u64::MAX by {
                    if k != index {
                        assert(self.inner.allocated_frames@[k] == before[k]);
                    }
                }
            }
        } else {
            self.inner.allocated_frames.push(AllocatedFrameRange { base, frames: num_frames });
            proof {
                assert(!exists|j: int| 0 <= j < before.len() && frames_end(#[trigger] before[j]) == base);
                assert(self.inner.allocated_frames@ == record_frames(before, base as int, num_frames as int));
                assert forall|k: int| 0 <= k < self.inner.allocated_frames@.len() implies frames_end(#[trigger] self.inner.allocated_frames@[k]) <= u64::MAX by {
                    if k < before.len() {
                        assert(self.inner.allocated_frames@[k] == before[k]);
                    }
                }
            }
        }
    }
}

/// The regions the bootloader keeps come from the map, so their ends fit.
proof fn lemma_loader_regions_in_map(map: Seq<MemoryDescriptor>)
    requires
        map_fits(map),
    ensures
        map_fits(loader_regions(map)),
        loader_regions(map).len() <= MAX_LOADER_REGIONS,
    decreases map.len(),
{
    if map.len() > 0 {
        let init = map.drop_last();
        assert forall|k: int| 0 <= k < init.len() implies desc_end(#[trigger] init[k]) <= u64::MAX by {
            assert(init[k] == map[k]);
        }
        lemma_loader_regions_in_map(init);
        let prev = loader_regions(init);
        assert(desc_end(map[map.len() - 1]) <= u64::MAX);
        if loader_usable(map.last().ty) && prev.len() < MAX_LOADER_REGIONS {
            assert forall|k: int| 0 <= k < prev.len() + 1 implies desc_end(#[trigger] prev.push(map.last())[k]) <= u64::MAX by {
                if k < prev.len() {
                    assert(prev.push(map.last())[k] == prev[k]);
                }
            }
        }
    }
}

/// Memory the kernel may use once the firmware's boot services are gone: what the loader
/// and the boot services held, conventional and persistent memory, and nothing else. Every
/// other kind keeps its own region type, one for each kind.
pub proof fn lemma_region_types(ty: MemoryType)
    ensures
        (region_type_of(ty) == MemoryRegionType::KernelUsable) == (ty == MemoryType::EfiLoaderCode || ty
            == MemoryType::EfiLoaderData || ty == MemoryType::EfiBootServicesCode || ty
            == MemoryType::EfiBootServicesData || ty == MemoryType::EfiConventionalMemory || ty
            == MemoryType::EfiPersistentMemory),
        ty == MemoryType::EfiReservedMemoryType ==> region_type_of(ty) == MemoryRegionType::ReservedMemoryType,
        ty == MemoryType::EfiRuntimeServicesCode ==> region_type_of(ty) == MemoryRegionType::EfiRuntimeServicesCode,
        ty == MemoryType::EfiRuntimeServicesData ==> region_type_of(ty) == MemoryRegionType::EfiRuntimeServicesData,
        ty == MemoryType::EfiUnusableMemory ==> region_type_of(ty) == MemoryRegionType::UnusableMemory,
        ty == MemoryType::EfiACPIReclaimMemory ==> region_type_of(ty) == MemoryRegionType::ACPIReclaimMemory,
        ty == MemoryType::EfiACPIMemoryNVS ==> region_type_of(ty) == MemoryRegionType::ACPIMemoryNVS,
        ty == MemoryType::EfiMemoryMappedIO ==> region_type_of(ty) == MemoryRegionType::MemoryMappedIO,
        ty == MemoryType::EfiMemoryMappedIOPortSpace ==> region_type_of(ty) == MemoryRegionType::MemoryMappedIOPortSpace,
        ty == MemoryType::EfiPalCode ==> region_type_of(ty) == MemoryRegionType::PalCode,
        ty == MemoryType::EfiUnacceptedMemoryType ==> region_type_of(ty) == MemoryRegionType::UnacceptedMemoryType,
{
}

/// The regions the bump allocator keeps are entries of the firmware's map that hold free
/// conventional memory, and nothing else.
pub proof fn lemma_loader_regions_conventional(map: Seq<MemoryDescriptor>)
    ensures
        forall|k: int|
            0 <= k < loader_regions(map).len() ==> (#[trigger] loader_regions(map)[k]).ty
                == MemoryType::EfiConventionalMemory && map.contains(loader_regions(map)[k]),
    decreases map.len(),
{
    if map.len() > 0 {
        let init = map.drop_last();
        lemma_loader_regions_conventional(init);
        let prev = loader_regions(init);
        assert forall|k: int| 0 <= k < loader_regions(map).len() implies (#[trigger] loader_regions(map)[k]).ty
            == MemoryType::EfiConventionalMemory && map.contains(loader_regions(map)[k]) by {
            if k < prev.len() {
                assert(loader_regions(map)[k] == prev[k]);
                let q = choose|q: int| 0 <= q < init.len() && init[q] == prev[k];
                assert(map[q] == init[q]);
            } else {
                assert(map[map.len() - 1] == map.last());
            }
        }
    }
}

/// Where frames fit, from a position inside region `i`: a region at or after `i`, at an
/// address inside it, with the frames ending inside it too.
pub proof fn lemma_next_fit_inside(regions: Seq<MemoryDescriptor>, i: int, addr: int, num_frames: int)
    requires
        0 <= i < regions.len(),
        regions[i].physical_start <= addr,
    ensures
        next_fit(regions, i, addr, num_frames) matches Some((j, b)) ==> i <= j < regions.len()
            && regions[j].physical_start <= b && b + 4096 * num_frames <= desc_end(regions[j]),
    decreases regions.len() - i,
{
    if desc_end(regions[i]) - addr >= 4096 * num_frames {
    } else if i + 1 < regions.len() {
        lemma_next_fit_inside(regions, i + 1, regions[i + 1].physical_start as int, num_frames);
    }
}

/// The bootloader maps every kind of memory but reserved, unusable, memory-mapped I/O and
/// unaccepted memory.
pub proof fn lemma_mapped_types(ty: MemoryRegionType)
    ensures
        mapped_type(ty) == !(ty == MemoryRegionType::ReservedMemoryType || ty == MemoryRegionType::UnusableMemory
            || ty == MemoryRegionType::MemoryMappedIO || ty == MemoryRegionType::MemoryMappedIOPortSpace || ty
            == MemoryRegionType::UnacceptedMemoryType),
{
}

} // verus!
