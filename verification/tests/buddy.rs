use lib::bitmap::{Bitmap, BitmapLayout};
use lib::buddy::{AllocateError, BuddyAllocator, BuddyAllocatorError, BuddyAllocatorLayout};
use lib::layered_bitmap::{BuddyBitmap, BuddyBitmapLayout};
use lib::mem_layout::ByteLayout;
use lib::region::{Region, RegionError};
use lib::util::{ilog_ceil, ilog_floor};

fn create_bitmap(entries: usize) -> Bitmap {
    Bitmap::from_layout(BitmapLayout::new(entries).unwrap())
}

fn create_buddy_bitmap(entries: usize) -> BuddyBitmap {
    BuddyBitmap::from_layout(BuddyBitmapLayout::new(entries).unwrap())
}

#[test]
fn bitmap_set() {
    let mut bitmap = create_bitmap(7);
    bitmap.set(0);
    bitmap.set(1);
    bitmap.set(2);
    bitmap.set(3);
    bitmap.set(4);
    bitmap.set(6);
    assert_eq!(bitmap.get(0), true);
    assert_eq!(bitmap.get(1), true);
    assert_eq!(bitmap.get(2), true);
    assert_eq!(bitmap.get(3), true);
    assert_eq!(bitmap.get(4), true);
    assert_eq!(bitmap.get(5), false);
    assert_eq!(bitmap.get(6), true);
}

#[test]
fn bitmap_clear_and_checked_get() {
    let mut bitmap = create_bitmap(70);
    assert_eq!(bitmap.len(), 70);
    assert_eq!(bitmap.entry_count(), 2);
    bitmap.set(65);
    assert_eq!(bitmap.get_entry(1), 2);
    assert_eq!(bitmap.get_checked(65), Some(true));
    assert_eq!(bitmap.get_checked(70), None);
    bitmap.clear(65);
    assert_eq!(bitmap.get(65), false);
    assert_eq!(bitmap.get_entry(1), 0);
}

#[test]
fn bitmap_find_first_from_entry() {
    let mut bitmap = create_bitmap(200);
    assert_eq!(bitmap.find_first_free_index_from(0), None);
    bitmap.set(3);
    bitmap.set(130);
    assert_eq!(bitmap.find_first_free_index_from(0), Some(3));
    assert_eq!(bitmap.find_first_free_index_from(1), Some(130));
    assert_eq!(bitmap.find_first_free_index_from(3), None);
    assert_eq!(Bitmap::entry_index(130), 2);
}

#[test]
fn bitmap_layout_sizes() {
    let layout = BitmapLayout::new(65).unwrap();
    assert_eq!(layout.bytes().size, 16);
    assert_eq!(layout.bytes().align, 8);
}

#[test]
fn layered_bitmap_set() {
    let mut bitmap = create_buddy_bitmap(200);
    bitmap.set_free_bit(127);
    assert_eq!(bitmap.find_first_free_index(), Some(127));
    assert_eq!(bitmap.find_first_free_index_h(), Some(127));
    bitmap.set_free_bit(7);
    assert_eq!(bitmap.find_first_free_index(), Some(7));
    assert_eq!(bitmap.find_first_free_index_h(), Some(7));
}

#[test]
fn lol() {
    let mut bitmap = create_buddy_bitmap(64 * 1024 * 1024 * 1024 / 4096);
    bitmap.set_free_bit(bitmap.len() - 1);
    assert_eq!(bitmap.find_first_free_index(), Some(bitmap.len() - 1));
    assert_eq!(bitmap.find_first_free_index_h(), Some(bitmap.len() - 1));
}

#[test]
fn layered_bitmap_clear_restores_empty() {
    let mut bitmap = create_buddy_bitmap(10_000);
    bitmap.set_free_bit(9_000);
    bitmap.set_free_bit(5_000);
    assert_eq!(bitmap.find_first_free_index_h(), Some(5_000));
    bitmap.clear_free_bit(5_000);
    assert_eq!(bitmap.find_first_free_index_h(), Some(9_000));
    bitmap.clear_free_bit(9_000);
    assert_eq!(bitmap.find_first_free_index(), None);
    assert_eq!(bitmap.find_first_free_index_h(), None);
    assert_eq!(bitmap.get_free_bit(9_000), Some(false));
    assert_eq!(bitmap.get_free_bit(10_000), None);
}

#[test]
fn layered_bitmap_alloc_bits() {
    let mut bitmap = create_buddy_bitmap(100);
    bitmap.set_alloc_bit(42);
    assert_eq!(bitmap.get_alloc_bit(42), Some(true));
    assert_eq!(bitmap.get_free_bit(42), Some(false));
    bitmap.clear_alloc_bit(42);
    assert_eq!(bitmap.get_alloc_bit(42), Some(false));
    assert_eq!(bitmap.get_alloc_bit(100), None);
}

#[test]
fn logarithms() {
    assert_eq!(ilog_ceil(2, 1), 0);
    assert_eq!(ilog_ceil(2, 5), 3);
    assert_eq!(ilog_ceil(4096, 4096), 1);
    assert_eq!(ilog_ceil(4096, 4097), 2);
    assert_eq!(ilog_floor(2, 5), 2);
    assert_eq!(ilog_floor(4096, 4095), 0);
    assert_eq!(ilog_floor(4096, 4096 * 4096), 2);
}

#[test]
fn byte_layout_extend_aligns() {
    let a = ByteLayout::array(8, 3).unwrap();
    let b = ByteLayout::array(16, 2).unwrap();
    let (joined, offset) = a.extend(b).unwrap();
    assert_eq!(offset, 24);
    assert_eq!(joined.size, 56);
    assert_eq!(joined.align, 8);
    assert!(ByteLayout::array(8, usize::MAX / 4).is_err());
}

#[test]
fn region_allocates_lowest_block_and_merges_back() {
    let mut region = Region::<5, 4096>::new(0x10_0000, 64).unwrap();
    let base = region.usable_frames_base;
    assert_eq!(base, 0x10_1000);
    assert_eq!(region.usable_frames, 63);
    // the initial blocks are 16, 16, 16, 8, 4, 2 and 1 frames long
    let first = region.allocate(0).unwrap();
    assert_eq!(first.addr, base + 62 * 4096);
    assert_eq!((first.allocated_order, first.split_order), (0, 0));
    let second = region.allocate(0).unwrap();
    assert_eq!(second.addr, base + 60 * 4096);
    assert_eq!((second.allocated_order, second.split_order), (0, 1));
    let d = region.deallocate(0, second.addr).unwrap();
    assert_eq!((d.deallocated_order, d.merge_order), (0, 1));
    let d = region.deallocate(0, first.addr).unwrap();
    assert_eq!((d.deallocated_order, d.merge_order), (0, 0));
    assert_eq!(region.allocate(0).unwrap().addr, first.addr);
}

fn free_frames(region: &Region<5, 4096>) -> usize {
    (0..region.bitmaps.len()).map(|o| region.counts[o] << o).sum()
}

#[test]
fn region_allocation_takes_its_frames_from_the_free_ones() {
    let mut region = Region::<5, 4096>::new(0x10_0000, 64).unwrap();
    let before = free_frames(&region);
    assert_eq!(before, 63);
    let a = region.allocate(2).unwrap();
    assert_eq!(free_frames(&region), before - 4);
    let b = region.allocate(0).unwrap();
    assert_eq!(free_frames(&region), before - 5);
    assert_eq!((a.allocated_order, b.allocated_order), (2, 0));
    region.deallocate(2, a.addr).unwrap();
    assert_eq!(free_frames(&region), before - 1);
    region.deallocate(0, b.addr).unwrap();
    assert_eq!(free_frames(&region), before);
}

#[test]
fn region_deallocate_unknown_address_does_nothing() {
    let mut region = Region::<5, 4096>::new(0x10_0000, 64).unwrap();
    let base = region.usable_frames_base;
    assert!(region.deallocate(0, base).is_none());
}

#[test]
fn region_too_small() {
    assert!(matches!(Region::<5, 4096>::new(0x10_0000, 1), Err(RegionError::TooSmall)));
}

#[test]
fn lib_test_name() {
    let mut allocator = BuddyAllocator::<5, 4096>::new(0x10_0000, 31, 64).unwrap();
    let total = allocator.total_bytes;
    assert!(total > 0);
    assert_eq!(allocator.allocated_bytes, 0);
    let mut stack = [0usize; 10];
    for i in 0..10 {
        stack[i] = allocator.allocate_order(0).unwrap();
    }
    for i in 0..10 {
        for j in 0..i {
            assert_ne!(stack[i], stack[j]);
        }
    }
    let a = allocator.allocate_order(2).unwrap();
    let b = allocator.allocate_order(3).unwrap();
    let c = allocator.allocate_order(1).unwrap();
    assert_eq!(allocator.allocated_bytes, (10 + 4 + 8 + 2) * 4096);
    let blocks = [(a, 4usize), (b, 8), (c, 2)];
    for (x, n) in blocks.iter() {
        for (y, m) in blocks.iter() {
            if x != y {
                assert!(x + n * 4096 <= *y || y + m * 4096 <= *x);
            }
        }
        for s in stack.iter() {
            assert!(x + n * 4096 <= *s || s + 4096 <= *x);
        }
    }
    allocator.deallocate_order(a, 2);
    allocator.deallocate_order(b, 3);
    allocator.deallocate_order(c, 1);
    for i in 0..10 {
        allocator.deallocate_order(stack[i], 0);
    }
    assert_eq!(allocator.allocated_bytes, 0);
    assert_eq!(allocator.total_bytes, total);
    // an array of 28 words, allocated and released by size
    let d = allocator.allocate(28 * 8).unwrap();
    assert_eq!(allocator.allocated_bytes, 224);
    assert_eq!(allocator.fragmented_bytes, 3872);
    allocator.deallocate(d, 28 * 8);
    assert_eq!(allocator.allocated_bytes, 0);
    assert_eq!(allocator.fragmented_bytes, 0);
}

#[test]
fn buddy_alloc_dealloc_roundtrip_restores_state() {
    let mut allocator = BuddyAllocator::<5, 4096>::new(0x20_0000, 40, 4).unwrap();
    let first = allocator.allocate_order(1).unwrap();
    allocator.deallocate_order(first, 1);
    let again = allocator.allocate_order(1).unwrap();
    assert_eq!(first, again);
}

#[test]
fn buddy_allocate_by_size() {
    let mut allocator = BuddyAllocator::<5, 4096>::new(0x10_0000, 31, 64).unwrap();
    let d = allocator.allocate(28 * 8).unwrap();
    assert_eq!(allocator.allocated_bytes, 28 * 8);
    allocator.deallocate(d, 28 * 8);
    assert_eq!(allocator.allocated_bytes, 0);
}

#[test]
fn buddy_runs_out_of_space() {
    let mut allocator = BuddyAllocator::<5, 4096>::new(0x10_0000, 8, 4).unwrap();
    let mut got = 0;
    loop {
        match allocator.allocate_order(0) {
            Ok(_) => got += 1,
            Err(AllocateError::NotEnoughSpace) => break,
        }
    }
    assert!(got >= 1 && got < 8);
    assert!(allocator.allocate_order(4).is_err());
}

#[test]
fn buddy_add_region_and_errors() {
    let mut allocator = BuddyAllocator::<5, 4096>::new(0x10_0000, 31, 1).unwrap();
    assert!(matches!(allocator.add_region(0x80_0000, 16), Err(BuddyAllocatorError::MaxCapacity)));
    let mut roomy = BuddyAllocator::<5, 4096>::new(0x10_0000, 31, 4).unwrap();
    assert!(roomy.add_region(0x80_0000, 16).is_ok());
    assert!(matches!(roomy.add_region(0x90_0000, 1), Err(BuddyAllocatorError::RegionTooSmall)));
    assert!(matches!(BuddyAllocator::<5, 4096>::new(0x10_0000, 1, 64), Err(BuddyAllocatorError::RegionTooSmall)));
}

#[test]
fn buddy_layout_meta_frames() {
    let layout = BuddyAllocatorLayout::<5, 4096>::new(64).unwrap();
    assert_eq!(layout.meta_frames(), 1);
}

#[test]
fn buddy_checks_before_creating_and_adding() {
    assert!(BuddyAllocator::<5, 4096>::new_allowed(0x10_0000, 31, 64));
    assert!(!BuddyAllocator::<5, 4096>::new_allowed(0x10_0001, 31, 64));
    assert!(!BuddyAllocator::<5, 4096>::new_allowed(usize::MAX - 4095, 31, 64));
    assert!(BuddyAllocator::<5, 4096>::region_addable(0x80_0000, 16));
    assert!(!BuddyAllocator::<5, 4096>::region_addable(0x80_0800, 16));
    let allocator = BuddyAllocator::<5, 4096>::new(0x10_0000, 31, 4).unwrap();
    assert!(allocator.regions_fit(&[(0x80_0000, 16), (0x90_0000, 8)]));
    assert!(!allocator.regions_fit(&[(0x80_0000, 16), (0x90_0010, 8)]));
    assert!(!allocator.regions_fit(&[(0x80_0000, usize::MAX / 4096)]));
}

#[test]
fn bit_writes_keep_length_and_last_write_wins() {
    let mut bitmap = create_bitmap(100);
    bitmap.set(5);
    bitmap.set(70);
    bitmap.clear(5);
    bitmap.set(99);
    bitmap.clear(70);
    bitmap.set(70);
    assert_eq!(bitmap.len(), 100);
    assert!(!bitmap.get(5) && bitmap.get(70) && bitmap.get(99) && !bitmap.get(0));
    let mut buddy = create_buddy_bitmap(300);
    buddy.set_alloc_bit(7);
    buddy.set_free_bit(7);
    buddy.set_free_bit(8);
    buddy.clear_alloc_bit(7);
    buddy.set_alloc_bit(9);
    buddy.clear_free_bit(8);
    assert_eq!(buddy.len(), 300);
    assert_eq!(buddy.get_alloc_bit(7), Some(false));
    assert_eq!(buddy.get_alloc_bit(9), Some(true));
    assert_eq!(buddy.get_alloc_bit(8), Some(false));
    assert_eq!(buddy.get_alloc_bit(300), None);
}
