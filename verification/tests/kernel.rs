use lib::boot_info::{AllocatedFrameRange, MemoryRegion, MemoryRegionType};
use lib::frame_allocator::KernelFrameAllocator;
use lib::frame_bump::{map_frame, KernelAllocator as FrameBump, MAX_MAPPED_FRAME};
use lib::heap::Heap;
use lib::init_frame_allocator::InitFrameAllocator;
use lib::kernel_setup::{frames_order, stack_growth, stack_pages, usable_buddy_regions};
use lib::page_allocator::KernelPageAllocator;
use lib::page_bitmap::Bitmap;
use lib::slab::{new_slab, AllocError, FrameAllocator, KernelAllocator, ObjectLayout, Slab, SlabCache};

fn usable(start: u64, end: u64) -> MemoryRegion {
    MemoryRegion { ty: MemoryRegionType::KernelUsable, start, end }
}

fn reserved(start: u64, end: u64) -> MemoryRegion {
    MemoryRegion { ty: MemoryRegionType::ReservedMemoryType, start, end }
}

#[test]
fn page_bitmap_set_clear_find() {
    let mut bitmap = Bitmap::new(130);
    assert_eq!(bitmap.len(), 130);
    assert_eq!(bitmap.find_free_index(), Some(0));
    for i in 0..65 {
        bitmap.set_bit(i);
    }
    assert!(bitmap.get_bit(64));
    assert!(!bitmap.get_bit(65));
    assert_eq!(bitmap.find_free_index(), Some(65));
    bitmap.clear_bit(3);
    assert_eq!(bitmap.find_free_index(), Some(3));
    for i in 0..130 {
        bitmap.set_bit(i);
    }
    assert_eq!(bitmap.find_free_index(), None);
}

#[test]
fn page_bitmap_iterates_bits_in_order() {
    let mut bitmap = Bitmap::new(5);
    bitmap.set_bit(1);
    bitmap.set_bit(4);
    let mut iter = bitmap.iter();
    let mut seen = Vec::new();
    while let Some(b) = iter.next() {
        seen.push(b);
    }
    assert_eq!(seen, vec![false, true, false, false, true]);
    assert_eq!(iter.next(), None);
}

#[test]
fn page_allocator_first_fit_runs() {
    let mut pages = KernelPageAllocator::new(0x1f_ffff, 16 * 4096);
    assert_eq!(pages.bitmap_base(), 0x20_0000);
    assert_eq!(pages.bitmap_frames(), 1);
    assert_eq!(pages.allocate_pages(2), 0x20_1000);
    assert_eq!(pages.allocate_pages(3), 0x20_3000);
    // a run must end before the last page: ten pages from page 5 end before page 15
    assert_eq!(pages.allocate_pages(10), 0x20_6000);
}

#[test]
fn page_allocator_boundary_is_strictly_above_the_kernel() {
    let pages = KernelPageAllocator::new(0x20_0000, 4096 * 4097);
    assert_eq!(pages.bitmap_base(), 0x20_1000);
    assert_eq!(pages.bitmap_frames(), 2);
}

#[test]
fn frame_allocator_from_memory_map() {
    let map = [usable(0x10_0000, 0x10_2000), reserved(0x10_2000, 0x20_0000), usable(0x20_0000, 0x20_1800)];
    let mut frames = KernelFrameAllocator::from_memory_map(&map);
    assert_eq!(frames.allocated_frames(), 0);
    assert_eq!(frames.allocate_frame(), Ok(0x10_0000));
    assert_eq!(frames.allocate_frame(), Ok(0x10_1000));
    assert_eq!(frames.allocate_frame(), Ok(0x20_0000));
    assert!(frames.allocate_frame().is_err());
    assert_eq!(frames.allocated_frames(), 3);
    assert_eq!(frames.deallocate_frame(0x10_1000), Ok(()));
    assert_eq!(frames.allocated_frames(), 2);
    assert_eq!(frames.allocate_frame(), Ok(0x10_1000));
}

#[test]
fn frame_allocator_release_undoes_allocation() {
    let map = [usable(0x10_0000, 0x10_3000), reserved(0x10_3000, 0x20_0000), usable(0x20_0000, 0x20_1000)];
    let mut frames = KernelFrameAllocator::from_memory_map(&map);
    assert_eq!(frames.allocate_frame(), Ok(0x10_0000));
    let before = frames.allocated_frames();
    let frame = frames.allocate_frame().unwrap();
    assert_eq!(frame, 0x10_1000);
    assert_eq!(frames.allocated_frames(), before + 1);
    assert_eq!(frames.deallocate_frame(frame), Ok(()));
    assert_eq!(frames.allocated_frames(), before);
    assert_eq!(frames.allocate_frame(), Ok(frame));
}

#[test]
fn frame_allocator_counts_handed_over_ranges() {
    let map = [usable(0x10_0000, 0x10_8000), reserved(0x10_8000, 0x20_0000), usable(0x20_0000, 0x20_4000)];
    let ranges = [
        AllocatedFrameRange { base: 0x10_0000, frames: 3 },
        AllocatedFrameRange { base: 0x10_5000, frames: 2 },
        AllocatedFrameRange { base: 0x20_1000, frames: 2 },
    ];
    let mut frames = KernelFrameAllocator::new(&map, &ranges, 0x20_2000);
    assert_eq!(frames.allocated_frames(), 3 + 2 + 2 - 1);
    let f = frames.allocate_frame().unwrap();
    assert_eq!(f, 0x10_3000);
    assert_eq!(frames.allocated_frames(), 7);
    assert_eq!(frames.deallocate_frame(0x10_0000), Ok(()));
    assert_eq!(frames.allocated_frames(), 6);
}

#[test]
fn frame_allocator_marks_boot_ranges_but_frees_their_record() {
    let map = [usable(0x10_0000, 0x10_4000), usable(0x20_0000, 0x20_2000)];
    let ranges = [AllocatedFrameRange { base: 0x10_0000, frames: 2 }];
    let mut frames = KernelFrameAllocator::new(&map, &ranges, 0x10_1000);
    assert_eq!(frames.allocated_frames(), 1);
    assert_eq!(frames.allocate_frame(), Ok(0x10_1000));
    assert_eq!(frames.allocate_frame(), Ok(0x10_2000));
    assert_eq!(frames.allocate_frame(), Ok(0x10_3000));
    assert_eq!(frames.allocate_frame(), Ok(0x20_0000));
    assert_eq!(frames.allocate_frame(), Ok(0x20_1000));
    assert!(frames.allocate_frame().is_err());
}

#[test]
fn init_frame_allocator_continues_after_boot_ranges() {
    let regions = [usable(0x10_0000, 0x10_3000), usable(0x20_0000, 0x20_2000)];
    let ranges = [AllocatedFrameRange { base: 0x10_0000, frames: 1 }];
    let mut frames = InitFrameAllocator::new(&regions, &ranges);
    assert_eq!(frames.allocate_frame(), Ok(0x10_2000));
    assert_eq!(frames.allocate_frame(), Ok(0x20_0000));
    assert_eq!(frames.allocate_frame(), Ok(0x20_1000));
    assert!(frames.allocate_frame().is_err());
    let recorded = frames.allocated_frame_ranges();
    assert_eq!(recorded.len(), 2);
    assert_eq!(recorded[0].base, 0x10_0000);
    assert_eq!(recorded[0].frames, 3);
    assert_eq!(recorded[1].base, 0x20_0000);
    assert_eq!(recorded[1].frames, 2);
}

#[test]
fn heap_first_fit_with_alignment() {
    let mut heap = Heap::new(0x1000, 0x1000);
    assert_eq!(heap.allocate(16, 8), Some(0x1000));
    assert_eq!(heap.allocate(8, 16), Some(0x1010));
    assert_eq!(heap.allocate(0x1000, 1), None);
    heap.deallocate(0x1000, 16);
    assert_eq!(heap.allocate(16, 1), Some(0x1018));
    assert_eq!(heap.allocate(16, 16), Some(0x1030));
}

#[test]
fn heap_blocks_are_aligned_and_apart() {
    let mut heap = Heap::new(0x1003, 0x200);
    let a = heap.allocate(0x10, 0x40).unwrap();
    let b = heap.allocate(0x20, 0x20).unwrap();
    let c = heap.allocate(0x8, 0x100).unwrap();
    assert_eq!((a, b, c), (0x1040, 0x1060, 0x1100));
    assert_eq!(a % 0x40, 0);
    assert_eq!(b % 0x20, 0);
    assert_eq!(c % 0x100, 0);
    assert!(a + 0x10 <= b && b + 0x20 <= c);
}

#[test]
fn heap_release_undoes_allocation() {
    let mut heap = Heap::new(0x2000, 0x80);
    let a = heap.allocate(0x30, 0x10).unwrap();
    assert_eq!(a, 0x2000);
    assert_eq!(heap.allocate(0x80, 1), None);
    heap.deallocate(a, 0x30);
    assert_eq!(heap.allocate(0x80, 1), Some(0x2000));
}

#[test]
fn heap_release_merges_spaces_back() {
    let mut heap = Heap::new(0x1000, 0x100);
    let a = heap.allocate(0x40, 1).unwrap();
    let b = heap.allocate(0x40, 1).unwrap();
    let c = heap.allocate(0x40, 1).unwrap();
    assert_eq!((a, b, c), (0x1000, 0x1040, 0x1080));
    assert_eq!(heap.allocate(0x80, 1), None);
    heap.deallocate(b, 0x40);
    heap.deallocate(a, 0x40);
    heap.deallocate(c, 0x40);
    assert_eq!(heap.allocate(0x100, 1), Some(0x1000));
}

#[test]
fn heap_frames_for() {
    assert_eq!(Heap::frames_for(0), 1);
    assert_eq!(Heap::frames_for(4096), 2);
    assert_eq!(Heap::frames_for(4095), 1);
}

struct Frames {
    next: std::cell::Cell<u64>,
    left: std::cell::Cell<u32>,
}

impl FrameAllocator for Frames {
    fn allocate_frame(&self) -> Option<u64> {
        if self.left.get() == 0 {
            return None;
        }
        self.left.set(self.left.get() - 1);
        let frame = self.next.get();
        self.next.set(frame + 4096);
        Some(frame)
    }
}

#[test]
fn slab_hands_out_last_slot_first() {
    let mut slab = Slab::new(0x1000, 64, ObjectLayout { size: 16, align: 16 });
    assert_eq!(slab.allocate(), 0x1030);
    assert_eq!(slab.allocate(), 0x1020);
    let mut small = Slab::new(0x2000, 16, ObjectLayout { size: 1, align: 1 });
    assert_eq!(small.allocate(), 0x2008);
    assert_eq!(small.allocate(), 0x2000);
}

#[test]
fn slab_cache_takes_a_frame_on_first_request() {
    let frames = Frames { next: std::cell::Cell::new(0x40_0000), left: std::cell::Cell::new(1) };
    let mut cache = SlabCache::new(&frames, ObjectLayout { size: 32, align: 32 });
    let layout = ObjectLayout { size: 32, align: 32 };
    assert_eq!(cache.allocate(layout), Ok(0x40_0000 + 4064));
    assert_eq!(cache.allocate(layout), Ok(0x40_0000 + 4032));
    let empty = Frames { next: std::cell::Cell::new(0x40_0000), left: std::cell::Cell::new(0) };
    let mut starved = SlabCache::new(&empty, ObjectLayout { size: 32, align: 32 });
    assert_eq!(starved.allocate(layout), Err(AllocError));
}

#[test]
fn kernel_allocator_picks_size_class() {
    let frames = Frames { next: std::cell::Cell::new(0x40_0000), left: std::cell::Cell::new(8) };
    let mut alloc = KernelAllocator::new(&frames);
    let a = alloc.allocate(ObjectLayout { size: 100, align: 128 }).unwrap();
    assert_eq!(a % 128, 0);
    assert_eq!(a, 0x40_0000 + 3968);
    let b = alloc.allocate(ObjectLayout { size: 20, align: 32 }).unwrap();
    assert_eq!(b, 0x40_1000 + 4064);
    let c = alloc.allocate(ObjectLayout { size: 20, align: 32 }).unwrap();
    assert_eq!(c, b - 32);
}

#[test]
fn kernel_allocator_refuses_misaligned_fresh_slot() {
    // a frame source that hands out a frame off a 32-byte boundary
    let frames = Frames { next: std::cell::Cell::new(0x40_0010), left: std::cell::Cell::new(8) };
    let mut alloc = KernelAllocator::new(&frames);
    assert_eq!(alloc.allocate(ObjectLayout { size: 24, align: 32 }), Err(AllocError));
}

#[test]
fn frame_bump_carves_frames_in_order() {
    let frames = Frames { next: std::cell::Cell::new(0x40_0000), left: std::cell::Cell::new(2) };
    let upper = 0xffff_8000_0000_0000u64;
    let mut bump = FrameBump::new(&frames, upper);
    assert_eq!(bump.allocate(ObjectLayout { size: 100, align: 8 }), Ok(upper + 0x40_0000));
    assert_eq!(bump.allocate(ObjectLayout { size: 10, align: 16 }), Ok(upper + 0x40_0000 + 112));
    assert_eq!(bump.inner.offset, 122);
    assert_eq!(bump.allocate(ObjectLayout { size: 4000, align: 8 }), Ok(upper + 0x40_1000));
    assert_eq!(bump.allocate(ObjectLayout { size: 96, align: 32 }), Ok(upper + 0x40_1000 + 4000));
    assert_eq!(bump.allocate(ObjectLayout { size: 64, align: 8 }), Err(AllocError));
    assert!(bump.inner.current_frame.is_none());
}

#[test]
fn buddy_regions_leave_out_the_bootloaders_ranges() {
    let regions = [
        usable(0x1000, 0x9000),
        reserved(0x9000, 0x10_0000),
        usable(0x10_0000, 0x20_0000),
        usable(0x30_0000, 0x30_4800),
        usable(0x41_0000, 0x50_0000),
    ];
    let ranges = [AllocatedFrameRange { base: 0x10_0000, frames: 4 }, AllocatedFrameRange { base: 0x40_0000, frames: 16 }];
    // the second range ends where the last region starts, which counts as inside it
    assert_eq!(usable_buddy_regions(&regions, &ranges), vec![(0x1000, 8), (0x30_0000, 4)]);
    assert_eq!(usable_buddy_regions(&regions, &[]).len(), 4);
}

#[test]
fn frame_orders_and_stack_growth() {
    assert_eq!(frames_order(1), 1);
    assert_eq!(frames_order(2), 2);
    assert_eq!(frames_order(3), 3);
    assert_eq!(frames_order(4), 3);
    assert_eq!(stack_pages(0xffff_ffff_ffff_fff8, 0xffff_ffff_ffff_c000), 4);
    let pages = stack_growth(0xffff_ffff_ffff_fff8, 0xffff_ffff_ffff_c000);
    assert_eq!(pages.len(), 60);
    assert_eq!(pages[0], 0xffff_ffff_ffff_b000);
    assert_eq!(pages[59], 0xffff_ffff_ffff_c000 - 60 * 4096);
}

#[test]
fn new_slab_from_frame_source_results() {
    let layout = ObjectLayout { size: 100, align: 64 };
    let mut slab = new_slab(Some(0x5000), 64, layout).unwrap();
    assert_eq!(slab.allocate(), 0x5040 + 39 * 100);
    assert_eq!(slab.allocate(), 0x5040 + 38 * 100);
    assert!(new_slab(None, 64, layout).is_none());
    assert!(new_slab(Some(u64::MAX - 100), 64, layout).is_none());
}

#[test]
fn map_frame_from_frame_source_results() {
    assert_eq!(map_frame(Some(0x1000), 0x8000_0000), Some(0x8000_1000));
    assert_eq!(map_frame(None, 1), None);
    assert_eq!(map_frame(Some(MAX_MAPPED_FRAME), 1), None);
    assert_eq!(map_frame(Some(MAX_MAPPED_FRAME - 1), 1), Some(MAX_MAPPED_FRAME));
}
