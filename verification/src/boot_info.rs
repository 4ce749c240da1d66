//! What the bootloader hands the kernel: where the kernel and its stack lie, the memory
//! map, and the frames the bootloader already allocated.
use vstd::prelude::*;

verus! {

/// Where the kernel was loaded.
#[derive(Clone, Copy, Debug)]
pub struct Kernel {
    /// Physical address of the kernel's base.
    pub base: u64,
    /// Number of frames the kernel occupies.
    pub frames: usize,
    /// Physical address of the start of the kernel stack.
    pub stack_start: u64,
    /// Physical address of the end of the kernel stack.
    pub stack_end: u64,
}

/// What a range of physical memory may be used for.
#[derive(Clone, Copy, Debug, PartialEq, Eq, Structural)]
pub enum MemoryRegionType {
    KernelUsable,
    ReservedMemoryType,
    EfiRuntimeServicesCode,
    EfiRuntimeServicesData,
    UnusableMemory,
    ACPIReclaimMemory,
    ACPIMemoryNVS,
    MemoryMappedIO,
    MemoryMappedIOPortSpace,
    PalCode,
    UnacceptedMemoryType,
}

/// A range `[start, end)` of physical memory and what it may be used for.
#[derive(Clone, Copy, Debug)]
pub struct MemoryRegion {
    pub ty: MemoryRegionType,
    pub start: u64,
    pub end: u64,
}

/// The memory map.
#[derive(Clone, Debug)]
pub struct MemoryRegions {
    pub regions: Vec<MemoryRegion>,
}

/// `frames` frames starting at physical address `base`, already allocated.
#[derive(Clone, Copy, Debug)]
pub struct AllocatedFrameRange {
    pub base: u64,
    pub frames: usize,
}

/// The ranges of frames the bootloader allocated.
#[derive(Clone, Debug)]
pub struct AllocatedFrameRanges {
    pub ranges: Vec<AllocatedFrameRange>,
}

/// Everything the bootloader passes to the kernel.
#[derive(Clone, Debug)]
pub struct BootInfo {
    pub kernel: Kernel,
    pub memory_regions: MemoryRegions,
    pub allocated_frame_ranges: AllocatedFrameRanges,
    /// Physical address of the ACPI root system description pointer.
    pub rsdp: u64,
}

impl MemoryRegions {
    /// The regions of the memory map.
    pub fn as_slice(&self) -> (r: &[MemoryRegion])
        ensures
            r@ == self.regions@,
    {
        self.regions.as_slice()
    }
}

impl AllocatedFrameRanges {
    /// The allocated ranges.
    pub fn as_slice(&self) -> (r: &[AllocatedFrameRange])
        ensures
            r@ == self.ranges@,
    {
        self.ranges.as_slice()
    }
}

} // verus!
