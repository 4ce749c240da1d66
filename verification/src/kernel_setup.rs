//! Decisions the kernel makes while it starts: which memory regions the buddy allocator
//! manages, which order of blocks serves a request for frames, and how far the boot
//! stack must grow.
use crate::boot_info::{AllocatedFrameRange, MemoryRegion, MemoryRegionType};
use crate::util::{ceil_log, ilog_ceil};
use vstd::prelude::*;

verus! {

/// Pages the kernel's stack is grown to.
pub const TARGET_STACK_PAGES: u64 = 64;

/// Neither the first address of `range` nor the address just past it lies in `region`,
/// both ends of the region included.
pub open spec fn clear_of(region: MemoryRegion, range: AllocatedFrameRange) -> bool {
    &&& !(region.start <= range.base <= region.end)
    &&& !(region.start <= range.base + range.frames * 4096 <= region.end)
}

/// `region` is usable by the kernel and clear of every range the bootloader allocated.
pub open spec fn buddy_candidate(region: MemoryRegion, ranges: Seq<AllocatedFrameRange>) -> bool {
    &&& region.ty == MemoryRegionType::KernelUsable
    &&& forall|j: int| 0 <= j < ranges.len() ==> clear_of(region, #[trigger] ranges[j])
}

/// The regions of `regions` the buddy allocator manages, in order, each as its start and
/// its number of whole frames.
pub open spec fn buddy_regions(regions: Seq<MemoryRegion>, ranges: Seq<AllocatedFrameRange>) -> Seq<(usize, usize)>
    decreases regions.len(),
{
    if regions.len() == 0 {
        Seq::empty()
    } else {
        let prev = buddy_regions(regions.drop_last(), ranges);
        let region = regions.last();
        if buddy_candidate(region, ranges) {
            prev.push((region.start as usize, ((region.end - region.start) / 4096) as usize))
        } else {
            prev
        }
    }
}

/// Every range's end fits in an address, and every usable region is a proper range.
pub open spec fn setup_inputs_ok(regions: Seq<MemoryRegion>, ranges: Seq<AllocatedFrameRange>) -> bool {
    &&& forall|j: int| 0 <= j < ranges.len() ==> (#[trigger] ranges[j]).base + ranges[j].frames * 4096 <= u64::MAX
    &&& forall|k: int|
        0 <= k < regions.len() && (#[trigger] regions[k]).ty == MemoryRegionType::KernelUsable ==> regions[k].start
            <= regions[k].end
}

/// Whether `region` is clear of every range of `ranges`.
fn clear_of_all(region: MemoryRegion, ranges: &[AllocatedFrameRange]) -> (r: bool)
    requires
        forall|j: int| 0 <= j < ranges@.len() ==> (#[trigger] ranges@[j]).base + ranges@[j].frames * 4096 <= u64::MAX,
    ensures
        r == forall|j: int| 0 <= j < ranges@.len() ==> clear_of(region, #[trigger] ranges@[j]),
{
    let mut j: usize = 0;
    while j < ranges.len()
        invariant
            j <= ranges@.len(),
            forall|t: int| 0 <= t < ranges@.len() ==> (#[trigger] ranges@[t]).base + ranges@[t].frames * 4096 <= u64::MAX,
            forall|t: int| 0 <= t < j ==> clear_of(region, #[trigger] ranges@[t]),
        decreases ranges@.len() - j,
    {
        let range = ranges[j];
        let end = range.base + range.frames as u64 * 4096;
        if (region.start <= range.base && range.base <= region.end) || (region.start <= end && end <= region.end) {
            return false;
        }
        j = j + 1;
    }
    true
}

/// The regions the buddy allocator manages: the usable regions clear of the bootloader's
/// ranges, as start and whole frames.
pub fn usable_buddy_regions(regions: &[MemoryRegion], ranges: &[AllocatedFrameRange]) -> (r: Vec<(usize, usize)>)
    requires
        usize::MAX == u64::MAX,
        setup_inputs_ok(regions@, ranges@),
    ensures
        r@ == buddy_regions(regions@, ranges@),
{
    let mut out: Vec<(usize, usize)> = Vec::new();
    let mut i: usize = 0;
    while i < regions.len()
        invariant
            usize::MAX == u64::MAX,
            i <= regions@.len(),
            setup_inputs_ok(regions@, ranges@),
            out@ == buddy_regions(regions@.take(i as int), ranges@),
        decreases regions@.len() - i,
    {
        let region = regions[i];
        proof {
            assert(regions@.take(i + 1).drop_last() =~= regions@.take(i as int));
            assert(regions@.take(i + 1).last() == region);
        }
        if region.ty == MemoryRegionType::KernelUsable && clear_of_all(region, ranges) {
            out.push((region.start as usize, ((region.end - region.start) / 4096) as usize));
        }
        i = i + 1;
    }
    proof {
        assert(regions@.take(regions@.len() as int) =~= regions@);
    }
    out
}

/// The order of the blocks that serve a request for `num_frames` frames: one above the
/// base-2 logarithm of the count, rounded up.
pub fn frames_order(num_frames: usize) -> (r: usize)
    requires
        num_frames >= 1,
    ensures
        r == ceil_log(2, num_frames as nat) + 1,
{
    let log = ilog_ceil(2, num_frames);
    proof {
        if log > 64 {
            assert(crate::util::pow(2, 64) < num_frames);
            assert(crate::util::pow(2, 64) == 0x1_0000_0000_0000_0000) by {
                reveal_with_fuel(crate::util::pow, 65);
            }
        }
    }
    log + 1
}

/// Pages the boot stack from `stack_end` up to `stack_start` spans, a partial page counted
/// whole.
pub fn stack_pages(stack_start: u64, stack_end: u64) -> (r: u64)
    requires
        stack_end <= stack_start,
        stack_start - stack_end + 4095 <= u64::MAX,
    ensures
        r == (stack_start - stack_end + 4095) / 4096,
{
    (stack_start - stack_end + 4095) / 4096
}

/// The addresses of the pages that grow the boot stack to `TARGET_STACK_PAGES` pages: the
/// pages just below `stack_end`, from the nearest down.
pub fn stack_growth(stack_start: u64, stack_end: u64) -> (r: Vec<u64>)
    requires
        stack_end <= stack_start,
        stack_start - stack_end + 4095 <= u64::MAX,
        (stack_start - stack_end + 4095) / 4096 <= TARGET_STACK_PAGES,
        TARGET_STACK_PAGES * 4096 <= stack_end,
    ensures
        r@.len() == TARGET_STACK_PAGES - (stack_start - stack_end + 4095) / 4096,
        forall|i: int| 0 <= i < r@.len() ==> #[trigger] r@[i] == stack_end - (i + 1) * 4096,
{
    let current = stack_pages(stack_start, stack_end);
    let mut pages: Vec<u64> = Vec::new();
    let mut i: u64 = 0;
    while i < TARGET_STACK_PAGES - current
        invariant
            current <= TARGET_STACK_PAGES,
            TARGET_STACK_PAGES * 4096 <= stack_end,
            i <= TARGET_STACK_PAGES - current,
            pages@.len() == i,
            forall|t: int| 0 <= t < i ==> #[trigger] pages@[t] == stack_end - (t + 1) * 4096,
        decreases TARGET_STACK_PAGES - current - i,
    {
        pages.push(stack_end - (i + 1) * 4096);
        i = i + 1;
    }
    pages
}

} // verus!
