use lib::boot_alloc::{
    kernel_stack_end, map_mem_type, max_mapped_addr, optimize_memory_map, BumpAllocator, MemoryDescriptor, MemoryType,
};
use lib::boot_info::{MemoryRegion, MemoryRegionType};
use lib::elf::{kernel_fits, mount_kernel, Elf, ElfHeader, ProgramHeader, ELF_HEADER_SIZE, PROGRAM_HEADER_SIZE};

fn desc(ty: MemoryType, physical_start: u64, number_of_pages: u64) -> MemoryDescriptor {
    MemoryDescriptor { ty, physical_start, virtual_start: 0, number_of_pages, attribute: 0 }
}

#[test]
fn memory_types_map_to_region_types() {
    assert_eq!(map_mem_type(MemoryType::EfiConventionalMemory), MemoryRegionType::KernelUsable);
    assert_eq!(map_mem_type(MemoryType::EfiBootServicesData), MemoryRegionType::KernelUsable);
    assert_eq!(map_mem_type(MemoryType::EfiACPIReclaimMemory), MemoryRegionType::ACPIReclaimMemory);
    assert_eq!(map_mem_type(MemoryType::EfiReservedMemoryType), MemoryRegionType::ReservedMemoryType);
    assert!(MemoryType::EfiConventionalMemory.usable_by_loader());
    assert!(!MemoryType::EfiLoaderData.usable_by_loader());
}

#[test]
fn optimize_memory_map_merges_adjacent_usable_regions() {
    let map = [
        desc(MemoryType::EfiBootServicesCode, 0, 4),
        desc(MemoryType::EfiConventionalMemory, 0x4000, 4),
        desc(MemoryType::EfiACPIMemoryNVS, 0x8000, 1),
        desc(MemoryType::EfiLoaderData, 0x9000, 2),
        desc(MemoryType::EfiConventionalMemory, 0x20000, 1),
    ];
    let regions = optimize_memory_map(&map);
    assert_eq!(regions.len(), 4);
    assert_eq!(regions[0].ty, MemoryRegionType::KernelUsable);
    assert_eq!((regions[0].start, regions[0].end), (0x1000, 0x8000));
    assert_eq!(regions[1].ty, MemoryRegionType::ACPIMemoryNVS);
    assert_eq!((regions[1].start, regions[1].end), (0x8000, 0x9000));
    assert_eq!((regions[2].start, regions[2].end), (0x9000, 0xb000));
    assert_eq!((regions[3].start, regions[3].end), (0x20000, 0x21000));
}

#[test]
fn optimize_memory_map_takes_long_maps_that_merge() {
    let map: Vec<MemoryDescriptor> = (0..300u64).map(|i| desc(MemoryType::EfiConventionalMemory, 0x10_0000 + i * 0x1000, 1)).collect();
    let regions = optimize_memory_map(&map);
    assert_eq!(regions.len(), 1);
    assert_eq!((regions[0].start, regions[0].end), (0x10_0000, 0x10_0000 + 300 * 0x1000));
}

#[test]
fn max_mapped_addr_skips_unmapped_regions() {
    let regions = [
        MemoryRegion { ty: MemoryRegionType::KernelUsable, start: 0x1000, end: 0x8000 },
        MemoryRegion { ty: MemoryRegionType::MemoryMappedIO, start: 0xfee0_0000, end: 0xfee0_1000 },
        MemoryRegion { ty: MemoryRegionType::ACPIReclaimMemory, start: 0x8000, end: 0x9000 },
    ];
    assert_eq!(max_mapped_addr(&regions), Some(0x9000));
    assert_eq!(max_mapped_addr(&regions[1..2]), None);
}

#[test]
fn kernel_stack_end_masks_to_stack_bottom() {
    assert_eq!(kernel_stack_end(0xffff_ff00_0000_0fff, 1), 0xffff_ff00_0000_0000);
    assert_eq!(kernel_stack_end(0xffff_ff00_0000_4fff, 4), 0xffff_ff00_0000_4000);
    assert_eq!(kernel_stack_end(0xffff_ffff_ffff_fff8, 4), 0xffff_ffff_ffff_c000);
}

#[test]
fn bump_allocator_moves_to_the_next_free_region() {
    let map = [
        desc(MemoryType::EfiConventionalMemory, 0, 3),
        desc(MemoryType::EfiLoaderCode, 0x10_0000, 4),
        desc(MemoryType::EfiConventionalMemory, 0x20_0000, 4),
    ];
    let mut bump = BumpAllocator::new(&map);
    assert_eq!(bump.allocate_frame(), Ok(0x1000));
    assert_eq!(bump.allocate_frame(), Ok(0x2000));
    assert_eq!(bump.allocate_frames(2), Ok(0x20_0000));
    assert_eq!(bump.allocate_frames(3), Err(lib::boot_alloc::AllocError));
    assert_eq!(bump.allocate_frames(2), Ok(0x20_2000));
    let ranges = &bump.inner.allocated_frames;
    assert_eq!(ranges.len(), 2);
    assert_eq!((ranges[0].base, ranges[0].frames), (0x1000, 2));
    assert_eq!((ranges[1].base, ranges[1].frames), (0x20_0000, 4));
}

fn put(buf: &mut Vec<u8>, at: usize, bytes: &[u8]) {
    buf[at..at + bytes.len()].copy_from_slice(bytes);
}

fn kernel_file(cpu_format: u8) -> Vec<u8> {
    let mut f = vec![0u8; ELF_HEADER_SIZE + PROGRAM_HEADER_SIZE + 8];
    put(&mut f, 0, &[0x7f, 0x45, 0x4c, 0x46, cpu_format, 1, 1]);
    put(&mut f, 16, &2u16.to_le_bytes());
    put(&mut f, 18, &0x3eu16.to_le_bytes());
    put(&mut f, 24, &0x20_0004u64.to_le_bytes());
    put(&mut f, 32, &64u64.to_le_bytes());
    put(&mut f, 52, &64u16.to_le_bytes());
    put(&mut f, 54, &56u16.to_le_bytes());
    put(&mut f, 56, &1u16.to_le_bytes());
    let ph = 64;
    put(&mut f, ph, &1u32.to_le_bytes());
    put(&mut f, ph + 4, &5u32.to_le_bytes());
    put(&mut f, ph + 8, &120u64.to_le_bytes());
    put(&mut f, ph + 16, &0x20_0000u64.to_le_bytes());
    put(&mut f, ph + 24, &0x20_0000u64.to_le_bytes());
    put(&mut f, ph + 32, &8u64.to_le_bytes());
    put(&mut f, ph + 40, &8u64.to_le_bytes());
    put(&mut f, ph + 48, &0x1000u64.to_le_bytes());
    put(&mut f, 120, &[1, 2, 3, 4, 5, 6, 7, 8]);
    f
}

#[test]
fn elf_header_and_program_headers_are_read() {
    let file = kernel_file(2);
    let header = ElfHeader::try_from(&file).unwrap();
    assert_eq!(header.magic, [0x7f, 0x45, 0x4c, 0x46]);
    assert_eq!(header.cpu_format, 2);
    assert_eq!(header.ty, 2);
    assert_eq!(header.machine, 0x3e);
    assert_eq!(header.entry, 0x20_0004);
    assert_eq!(header.program_header_count, 1);
    assert!(ElfHeader::try_from(&file[..63]).is_err());
    let ph = ProgramHeader::try_from(&file[64..]).unwrap();
    assert_eq!(ph.ty, 1);
    assert_eq!(ph.segment_file_offset, 120);
    assert_eq!(ph.physical_address, 0x20_0000);
    assert!(ProgramHeader::try_from(&file[64..100]).is_err());
    let elf = Elf { bytes: &file };
    let phs = elf.program_headers();
    assert_eq!(phs.len(), 1);
    assert_eq!(phs[0].segment_mem_size, 8);
}

#[test]
fn mount_kernel_loads_segments_into_an_image() {
    let map = [desc(MemoryType::EfiConventionalMemory, 0x10_0000, 16)];
    let mut bump = BumpAllocator::new(&map);
    let file = kernel_file(2);
    let (kernel, image) = mount_kernel(&file, &mut bump).unwrap();
    assert_eq!(kernel.image_start, 0x20_0000);
    assert_eq!(kernel.image_end, 0x20_1000);
    assert_eq!(kernel.frames, 1);
    assert_eq!(kernel.frame_addr, 0x10_0000);
    assert_eq!(kernel.entry_point, 0x20_0004);
    assert_eq!(image.len(), 4096);
    assert_eq!(&image[..8], &[1, 2, 3, 4, 5, 6, 7, 8]);
    assert!(image[8..].iter().all(|b| *b == 0));
    assert_eq!(bump.allocate_frame(), Ok(0x10_1000));
}

#[test]
fn mount_kernel_rejects_other_files() {
    let map = [desc(MemoryType::EfiConventionalMemory, 0x10_0000, 16)];
    let mut bump = BumpAllocator::new(&map);
    let mut file = kernel_file(2);
    file[0] = 0;
    assert_eq!(mount_kernel(&file, &mut bump).err(), Some("Not an ELF file"));
    let file = kernel_file(1);
    assert_eq!(mount_kernel(&file, &mut bump).err(), Some("Not a 64-bit executable"));
    assert_eq!(bump.allocate_frame(), Ok(0x10_0000));
}

#[test]
fn kernel_fits_checks_file_and_memory() {
    let map = [desc(MemoryType::EfiConventionalMemory, 0x10_0000, 16)];
    let bump = BumpAllocator::new(&map);
    assert!(bump.can_allocate_frames(16));
    assert!(!bump.can_allocate_frames(17));
    let file = kernel_file(2);
    assert!(kernel_fits(&file, &bump));
    // a segment whose bytes run past the end of the file
    let mut short = file.clone();
    short.truncate(124);
    assert!(!kernel_fits(&short, &bump));
    // no memory left for the image
    let tiny = [desc(MemoryType::EfiConventionalMemory, 0x10_0000, 0)];
    let empty = BumpAllocator::new(&tiny);
    assert!(!kernel_fits(&file, &empty));
    // a file that is not a 64-bit executable is left for loading to refuse
    assert!(kernel_fits(&kernel_file(1), &bump));
}

#[test]
fn boot_mappings_cover_memory_kernel_and_stack() {
    let kernel = lib::elf::KernelExecutable {
        image_start: 0xffff_ffff_8000_0000,
        image_end: 0xffff_ffff_8000_2000,
        frame_addr: 0x20_0000,
        frames: 2,
        entry_point: 0xffff_ffff_8000_0000,
    };
    let maps = lib::boot_map::boot_mappings(0x4000_0001, kernel, 0xffff_ffff_ffff_c000, &[0x30_0000, 0x31_0000]).unwrap();
    assert_eq!(maps.len(), 4 + 2 + 2);
    assert_eq!((maps[0].virt, maps[0].phys, maps[0].size), (0, 0, 0x4000_0000));
    assert_eq!((maps[1].virt, maps[1].phys), (0xffff_8000_0000_0000, 0));
    assert_eq!((maps[3].virt, maps[3].phys), (0xffff_8000_4000_0000, 0x4000_0000));
    assert_eq!((maps[5].virt, maps[5].phys, maps[5].size), (0xffff_ffff_8000_1000, 0x20_1000, 4096));
    assert_eq!((maps[7].virt, maps[7].phys), (0xffff_ffff_ffff_d000, 0x31_0000));
    assert!(lib::boot_map::boot_mappings(u64::MAX, kernel, 0xffff_ffff_ffff_c000, &[]).is_none());
}
