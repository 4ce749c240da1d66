//! Reading the kernel's ELF executable: its header, its program headers, and the image
//! its loadable segments make.
use crate::boot_alloc::{next_fit, BumpAllocator};
use vstd::prelude::*;

verus! {

/// Bytes of an ELF header.
pub const ELF_HEADER_SIZE: usize = 64;

/// Bytes of a program header.
pub const PROGRAM_HEADER_SIZE: usize = 56;

/// Little-endian 16-bit value at `o`.
pub open spec fn le16(b: Seq<u8>, o: int) -> int {
    b[o] + 0x100 * b[o + 1]
}

/// Little-endian 32-bit value at `o`.
pub open spec fn le32(b: Seq<u8>, o: int) -> int {
    le16(b, o) + 0x1_0000 * le16(b, o + 2)
}

/// Little-endian 64-bit value at `o`.
pub open spec fn le64(b: Seq<u8>, o: int) -> int {
    le32(b, o) + 0x1_0000_0000 * le32(b, o + 4)
}

/// Reads a little-endian 16-bit value at `o`.
fn read_u16(b: &[u8], o: usize) -> (r: u16)
    requires
        o + 2 <= b@.len(),
    ensures
        r == le16(b@, o as int),
{
    b[o] as u16 + (b[o + 1] as u16) * 0x100
}

/// Reads a little-endian 32-bit value at `o`.
fn read_u32(b: &[u8], o: usize) -> (r: u32)
    requires
        o + 4 <= b@.len(),
    ensures
        r == le32(b@, o as int),
{
    let _n = b.len();
    let lo = read_u16(b, o) as u32;
    let hi = read_u16(b, o + 2) as u32;
    proof {
        assert(hi * 0x1_0000 <= 0xffff_0000) by (nonlinear_arith)
            requires
                hi <= 0xffff,
        ;
    }
    lo + hi * 0x1_0000
}

/// Reads a little-endian 64-bit value at `o`.
fn read_u64(b: &[u8], o: usize) -> (r: u64)
    requires
        o + 8 <= b@.len(),
    ensures
        r == le64(b@, o as int),
{
    let _n = b.len();
    let lo = read_u32(b, o) as u64;
    let hi = read_u32(b, o + 4) as u64;
    proof {
        assert(hi * 0x1_0000_0000 <= 0xffff_ffff_0000_0000) by (nonlinear_arith)
            requires
                hi <= 0xffff_ffff,
        ;
    }
    lo + hi * 0x1_0000_0000
}

/// Where the kernel image lies and where it starts running.
#[derive(Clone, Copy, Debug)]
pub struct KernelExecutable {
    pub image_start: u64,
    pub image_end: u64,
    pub frame_addr: u64,
    pub frames: u64,
    pub entry_point: u64,
}

/// The ELF file header.
#[derive(Clone, Copy, Debug)]
pub struct ElfHeader {
    pub magic: [u8; 4],
    pub cpu_format: u8,
    pub endianess: u8,
    pub elf_version: u8,
    pub os_abi: u8,
    pub abi_version: u8,
    pub pad: [u8; 7],
    pub ty: u16,
    pub machine: u16,
    pub version: u32,
    pub entry: u64,
    pub program_header_offset: u64,
    pub section_header_offset: u64,
    pub flags: u32,
    pub elf_header_size: u16,
    pub program_header_size: u16,
    pub program_header_count: u16,
    pub section_header_size: u16,
    pub section_header_count: u16,
    pub section_header_index_containing_section_names: u16,
}

/// `h` is the header held by the first 64 bytes of `b`.
pub open spec fn header_of(h: ElfHeader, b: Seq<u8>) -> bool {
    &&& h.magic@ == b.subrange(0, 4)
    &&& h.cpu_format == b[4]
    &&& h.endianess == b[5]
    &&& h.elf_version == b[6]
    &&& h.os_abi == b[7]
    &&& h.abi_version == b[8]
    &&& h.pad@ == b.subrange(9, 16)
    &&& h.ty == le16(b, 16)
    &&& h.machine == le16(b, 18)
    &&& h.version == le32(b, 20)
    &&& h.entry == le64(b, 24)
    &&& h.program_header_offset == le64(b, 32)
    &&& h.section_header_offset == le64(b, 40)
    &&& h.flags == le32(b, 48)
    &&& h.elf_header_size == le16(b, 52)
    &&& h.program_header_size == le16(b, 54)
    &&& h.program_header_count == le16(b, 56)
    &&& h.section_header_size == le16(b, 58)
    &&& h.section_header_count == le16(b, 60)
    &&& h.section_header_index_containing_section_names == le16(b, 62)
}

impl ElfHeader {
    /// The header at the start of `slice`; fails when `slice` is shorter than a header.
    pub fn try_from(slice: &[u8]) -> (r: Result<ElfHeader, ()>)
        ensures
            match r {
                Ok(h) => slice@.len() >= ELF_HEADER_SIZE && header_of(h, slice@),
                Err(_) => slice@.len() < ELF_HEADER_SIZE,
            },
    {
        if slice.len() < ELF_HEADER_SIZE {
            return Err(());
        }
        Ok(Self::decode(slice))
    }

    /// The header held by the first 64 bytes of `b`.
    fn decode(b: &[u8]) -> (r: ElfHeader)
        requires
            b@.len() >= ELF_HEADER_SIZE,
        ensures
            header_of(r, b@),
    {
        let h = ElfHeader {
            magic: [b[0], b[1], b[2], b[3]],
            cpu_format: b[4],
            endianess: b[5],
            elf_version: b[6],
            os_abi: b[7],
            abi_version: b[8],
            pad: [b[9], b[10], b[11], b[12], b[13], b[14], b[15]],
            ty: read_u16(b, 16),
            machine: read_u16(b, 18),
            version: read_u32(b, 20),
            entry: read_u64(b, 24),
            program_header_offset: read_u64(b, 32),
            section_header_offset: read_u64(b, 40),
            flags: read_u32(b, 48),
            elf_header_size: read_u16(b, 52),
            program_header_size: read_u16(b, 54),
            program_header_count: read_u16(b, 56),
            section_header_size: read_u16(b, 58),
            section_header_count: read_u16(b, 60),
            section_header_index_containing_section_names: read_u16(b, 62),
        };
        proof {
            assert(h.magic@ =~= b@.subrange(0, 4));
            assert(h.pad@ =~= b@.subrange(9, 16));
        }
        h
    }
}

/// A program header.
#[derive(Clone, Copy, Debug)]
pub struct ProgramHeader {
    pub ty: u32,
    pub flags: u32,
    pub segment_file_offset: u64,
    pub virtual_address: u64,
    pub physical_address: u64,
    pub segment_file_size: u64,
    pub segment_mem_size: u64,
    pub align: u64,
}

/// `p` is the program header held by the 56 bytes of `b` at `o`.
pub open spec fn program_header_at(p: ProgramHeader, b: Seq<u8>, o: int) -> bool {
    &&& p.ty == le32(b, o)
    &&& p.flags == le32(b, o + 4)
    &&& p.segment_file_offset == le64(b, o + 8)
    &&& p.virtual_address == le64(b, o + 16)
    &&& p.physical_address == le64(b, o + 24)
    &&& p.segment_file_size == le64(b, o + 32)
    &&& p.segment_mem_size == le64(b, o + 40)
    &&& p.align == le64(b, o + 48)
}

impl ProgramHeader {
    /// The program header at the start of `slice`; fails when `slice` is shorter than one.
    pub fn try_from(slice: &[u8]) -> (r: Result<ProgramHeader, ()>)
        ensures
            match r {
                Ok(p) => slice@.len() >= PROGRAM_HEADER_SIZE && program_header_at(p, slice@, 0),
                Err(_) => slice@.len() < PROGRAM_HEADER_SIZE,
            },
    {
        if slice.len() < PROGRAM_HEADER_SIZE {
            return Err(());
        }
        Ok(Self::read_at(slice, 0))
    }

    /// The program header at offset `o` of `b`.
    fn read_at(b: &[u8], o: usize) -> (r: ProgramHeader)
        requires
            o + PROGRAM_HEADER_SIZE <= b@.len(),
        ensures
            program_header_at(r, b@, o as int),
    {
        let _n = b.len();
        ProgramHeader {
            ty: read_u32(b, o),
            flags: read_u32(b, o + 4),
            segment_file_offset: read_u64(b, o + 8),
            virtual_address: read_u64(b, o + 16),
            physical_address: read_u64(b, o + 24),
            segment_file_size: read_u64(b, o + 32),
            segment_mem_size: read_u64(b, o + 40),
            align: read_u64(b, o + 48),
        }
    }
}

/// A section header.
#[derive(Clone, Copy, Debug)]
pub struct SectionHeader {
    pub ty: u32,
    pub flags: u32,
    pub offset: u64,
    pub virtual_address: u64,
    pub physical_address: u64,
    pub segment_image_size: u64,
    pub segment_mem_size: u64,
    pub align: u64,
}

/// An ELF file.
pub struct Elf<'elf> {
    pub bytes: &'elf [u8],
}

/// The program header table of a file with header `h` lies within its `len` bytes and
/// has entries of the program header size.
pub open spec fn table_fits(h: ElfHeader, len: int) -> bool {
    &&& h.program_header_size == PROGRAM_HEADER_SIZE
    &&& h.program_header_offset + h.program_header_count * PROGRAM_HEADER_SIZE <= len
}

impl<'elf> Elf<'elf> {
    /// The file header.
    pub fn header(&self) -> (r: ElfHeader)
        requires
            self.bytes@.len() >= ELF_HEADER_SIZE,
        ensures
            header_of(r, self.bytes@),
    {
        ElfHeader::decode(self.bytes)
    }

    /// The program headers, in table order.
    pub fn program_headers(&self) -> (r: Vec<ProgramHeader>)
        requires
            self.bytes@.len() >= ELF_HEADER_SIZE,
            forall|h: ElfHeader| header_of(h, self.bytes@) ==> table_fits(h, self.bytes@.len() as int),
        ensures
            forall|h: ElfHeader|
                header_of(h, self.bytes@) ==> r@.len() == h.program_header_count && forall|i: int|
                    0 <= i < r@.len() ==> program_header_at(
                        #[trigger] r@[i],
                        self.bytes@,
                        h.program_header_offset + i * PROGRAM_HEADER_SIZE,
                    ),
    {
        let header = self.header();
        let n = self.bytes.len();
        proof {
            assert(table_fits(header, self.bytes@.len() as int));
            assert(header.program_header_count * 56 >= 0) by (nonlinear_arith);
        }
        let base = header.program_header_offset as usize;
        let count = header.program_header_count as usize;
        let mut headers: Vec<ProgramHeader> = Vec::new();
        let mut i: usize = 0;
        while i < count
            invariant
                header_of(header, self.bytes@),
                table_fits(header, self.bytes@.len() as int),
                base == header.program_header_offset,
                count == header.program_header_count,
                n == self.bytes@.len(),
                i <= count,
                headers@.len() == i,
                forall|j: int|
                    0 <= j < i ==> program_header_at(#[trigger] headers@[j], self.bytes@, base + j * PROGRAM_HEADER_SIZE),
            decreases count - i,
        {
            proof {
                assert(base + (i + 1) * 56 <= base + count * 56) by (nonlinear_arith)
                    requires
                        i + 1 <= count,
                ;
            }
            headers.push(ProgramHeader::read_at(self.bytes, base + i * PROGRAM_HEADER_SIZE));
            i = i + 1;
        }
        proof {
            assert forall|h: ElfHeader| header_of(h, self.bytes@) implies h == header by {
                lemma_header_unique(h, header, self.bytes@);
            }
        }
        headers
    }
}

/// Two headers read from the same bytes are the same.
proof fn lemma_header_unique(a: ElfHeader, b: ElfHeader, bytes: Seq<u8>)
    requires
        header_of(a, bytes),
        header_of(b, bytes),
    ensures
        a == b,
{
    assert(a.magic@ =~= b.magic@);
    assert(a.pad@ =~= b.pad@);
    vstd::array::axiom_array_ext_equal(a.magic, b.magic);
    vstd::array::axiom_array_ext_equal(a.pad, b.pad);
}

/// The physical base of the loadable segments: the lowest physical address among them.
pub open spec fn load_base(phs: Seq<ProgramHeader>) -> int
    decreases phs.len(),
{
    if phs.len() == 0 {
        u64::MAX as int
    } else {
        let rest = load_base(phs.drop_last());
        let p = phs.last();
        if p.ty == 1 && p.physical_address < rest {
            p.physical_address as int
        } else {
            rest
        }
    }
}

/// The end of the loadable segments: the highest physical address plus size among them.
pub open spec fn load_limit(phs: Seq<ProgramHeader>) -> int
    decreases phs.len(),
{
    if phs.len() == 0 {
        0
    } else {
        let rest = load_limit(phs.drop_last());
        let p = phs.last();
        if p.ty == 1 && p.physical_address + p.segment_mem_size > rest {
            p.physical_address + p.segment_mem_size
        } else {
            rest
        }
    }
}

/// Every loadable segment's end fits in an address.
pub open spec fn loads_fit(phs: Seq<ProgramHeader>) -> bool {
    forall|i: int|
        0 <= i < phs.len() && (#[trigger] phs[i]).ty == 1 ==> phs[i].physical_address + phs[i].segment_mem_size
            <= u64::MAX
}

/// `image` with the loadable segments of `phs` copied in from `elf`, in order: segment
/// `p` lands at `p.virtual_address - base` and takes `p.segment_mem_size` bytes from
/// `p.segment_file_offset` on.
pub open spec fn load_segments(image: Seq<u8>, elf: Seq<u8>, phs: Seq<ProgramHeader>, base: int) -> Seq<u8>
    decreases phs.len(),
{
    if phs.len() == 0 {
        image
    } else {
        let before = load_segments(image, elf, phs.drop_last(), base);
        let p = phs.last();
        if p.ty == 1 {
            let lo = p.virtual_address - base;
            Seq::new(
                before.len(),
                |q: int|
                    if lo <= q < lo + p.segment_mem_size {
                        elf[p.segment_file_offset + (q - lo)]
                    } else {
                        before[q]
                    },
            )
        } else {
            before
        }
    }
}

/// Every loadable segment lands inside an image of `size` bytes and is read from inside
/// the file.
pub open spec fn segments_fit(phs: Seq<ProgramHeader>, elf_len: int, base: int, size: int) -> bool {
    forall|i: int|
        0 <= i < phs.len() && (#[trigger] phs[i]).ty == 1 ==> {
            &&& base <= phs[i].virtual_address
            &&& phs[i].virtual_address - base + phs[i].segment_mem_size <= size
            &&& phs[i].segment_file_offset + phs[i].segment_mem_size <= elf_len
        }
}

/// `addr` rounded down to a page.
pub open spec fn page_down(addr: int) -> int {
    addr - addr % 4096
}

/// Rounding down to a page with a mask.
proof fn lemma_page_mask(x: u64)
    ensures
        x & !0xfffu64 == page_down(x as int),
{
    assert(x & !0xfffu64 == x - x % 4096) by (bit_vector);
}

/// The lowest physical address and the highest end among the loadable segments.
fn load_extent(phs: &Vec<ProgramHeader>) -> (r: (u64, u64))
    requires
        loads_fit(phs@),
    ensures
        r.0 == load_base(phs@),
        r.1 == load_limit(phs@),
{
    let mut kernel_virt_base = u64::MAX;
    let mut kernel_virt_limit: u64 = 0;
    let mut i: usize = 0;
    while i < phs.len()
        invariant
            i <= phs@.len(),
            loads_fit(phs@),
            kernel_virt_base == load_base(phs@.take(i as int)),
            kernel_virt_limit == load_limit(phs@.take(i as int)),
        decreases phs@.len() - i,
    {
        let entry = phs[i];
        proof {
            assert(phs@.take(i + 1).drop_last() =~= phs@.take(i as int));
            assert(phs@.take(i + 1).last() == entry);
        }
        if entry.ty == 1 {
            if entry.physical_address < kernel_virt_base {
                kernel_virt_base = entry.physical_address;
            }
            let end = entry.physical_address + entry.segment_mem_size;
            if end > kernel_virt_limit {
                kernel_virt_limit = end;
            }
        }
        i = i + 1;
    }
    proof {
        assert(phs@.take(phs@.len() as int) =~= phs@);
    }
    (kernel_virt_base, kernel_virt_limit)
}

/// Copies the loadable segments of `phs` from `elf` into `image`, each at its virtual
/// address less `base`.
fn copy_segments(image: &mut Vec<u8>, elf: &[u8], phs: &Vec<ProgramHeader>, base: u64)
    requires
        segments_fit(phs@, elf@.len() as int, base as int, old(image)@.len() as int),
    ensures
        final(image)@ == load_segments(old(image)@, elf@, phs@, base as int),
{
    let ghost start = image@;
    let mut k: usize = 0;
    while k < phs.len()
        invariant
            k <= phs@.len(),
            segments_fit(phs@, elf@.len() as int, base as int, start.len() as int),
            image@ == load_segments(start, elf@, phs@.take(k as int), base as int),
            image@.len() == start.len(),
        decreases phs@.len() - k,
    {
        let entry = phs[k];
        proof {
            assert(phs@.take(k + 1).drop_last() =~= phs@.take(k as int));
            assert(phs@.take(k + 1).last() == entry);
        }
        if entry.ty == 1 {
            let _elf_len = elf.len();
            let _image_len = image.len();
            proof {
                assert(phs@[k as int].ty == 1);
            }
            let entry_files_offset = entry.segment_file_offset as usize;
            let entry_phys_base = (entry.virtual_address - base) as usize;
            let size = entry.segment_mem_size as usize;
            let ghost before = image@;
            let mut j: usize = 0;
            while j < size
                invariant
                    j <= size,
                    image@.len() == before.len(),
                    before.len() == start.len(),
                    entry_phys_base + size <= before.len(),
                    entry_files_offset + size <= elf@.len(),
                    before.len() <= usize::MAX,
                    elf@.len() <= usize::MAX,
                    forall|q: int|
                        0 <= q < before.len() ==> #[trigger] image@[q] == if entry_phys_base <= q < entry_phys_base + j {
                            elf@[entry_files_offset + (q - entry_phys_base)]
                        } else {
                            before[q]
                        },
                decreases size - j,
            {
                image.set(entry_phys_base + j, elf[entry_files_offset + j]);
                j = j + 1;
            }
            proof {
                assert(image@ =~= load_segments(start, elf@, phs@.take(k + 1), base as int));
            }
        }
        k = k + 1;
    }
    proof {
        assert(phs@.take(phs@.len() as int) =~= phs@);
    }
}

/// The program header held by the 56 bytes of `b` at `o`.
pub open spec fn program_header_spec(b: Seq<u8>, o: int) -> ProgramHeader {
    ProgramHeader {
        ty: le32(b, o) as u32,
        flags: le32(b, o + 4) as u32,
        segment_file_offset: le64(b, o + 8) as u64,
        virtual_address: le64(b, o + 16) as u64,
        physical_address: le64(b, o + 24) as u64,
        segment_file_size: le64(b, o + 32) as u64,
        segment_mem_size: le64(b, o + 40) as u64,
        align: le64(b, o + 48) as u64,
    }
}

/// The program headers of a file `b` with header `h`.
pub open spec fn program_headers_of(b: Seq<u8>, h: ElfHeader) -> Seq<ProgramHeader> {
    Seq::new(
        h.program_header_count as nat,
        |i: int| program_header_spec(b, h.program_header_offset + i * PROGRAM_HEADER_SIZE),
    )
}

/// The header says this is an ELF file.
pub open spec fn elf_magic(h: ElfHeader) -> bool {
    h.magic@ == seq![0x7Fu8, 0x45u8, 0x4Cu8, 0x46u8]
}

/// The page-aligned start of the image of file `b` with header `h`.
pub open spec fn image_base(b: Seq<u8>, h: ElfHeader) -> int {
    page_down(load_base(program_headers_of(b, h)))
}

/// The page-aligned end of the image: the segments' end plus 4093, rounded down.
pub open spec fn image_limit(b: Seq<u8>, h: ElfHeader) -> int {
    page_down(load_limit(program_headers_of(b, h)) + 4093)
}

/// Frames of the image.
pub open spec fn image_frames(b: Seq<u8>, h: ElfHeader) -> int {
    (image_limit(b, h) - image_base(b, h)) / 4096
}

/// The kernel in file `b` with header `h` can be loaded with `bump`: its tables and
/// segments lie inside the file, its extent fits in an address, and `bump` has frames
/// for it.
pub open spec fn kernel_loadable(b: Seq<u8>, h: ElfHeader, bump: BumpAllocator) -> bool {
    let phs = program_headers_of(b, h);
    &&& table_fits(h, b.len() as int)
    &&& loads_fit(phs)
    &&& load_limit(phs) + 4093 <= u64::MAX
    &&& image_base(b, h) <= image_limit(b, h)
    &&& image_frames(b, h) * 4096 <= u64::MAX
    &&& bump.ranges().len() < crate::boot_alloc::MAX_LOADER_REGIONS
    &&& next_fit(bump.regions(), bump.position().0, bump.position().1, image_frames(b, h)) is Some
    &&& segments_fit(phs, b.len() as int, image_base(b, h), image_frames(b, h) * 4096)
}

/// Reading a program header gives the spec program header.
proof fn lemma_program_header_spec(p: ProgramHeader, b: Seq<u8>, o: int)
    requires
        program_header_at(p, b, o),
    ensures
        p == program_header_spec(b, o),
{
}

/// Whether `mount_kernel` can load the file `elf` with `bump`: a file that is not a 64-bit
/// ELF file is always accepted (loading refuses it with an error); otherwise its program
/// header table and loadable segments must lie inside the file, its image must fit in an
/// address, and `bump` must be able to hold the image's frames.
#[verifier::rlimit(60)]
pub fn kernel_fits(elf: &[u8], bump: &BumpAllocator) -> (r: bool)
    requires
        elf@.len() >= ELF_HEADER_SIZE,
        bump.wf(),
    ensures
        r == forall|h: ElfHeader|
            header_of(h, elf@) && elf_magic(h) && h.cpu_format == 2 ==> kernel_loadable(elf@, h, *bump),
{
    let e = Elf { bytes: elf };
    let header = e.header();
    proof {
        assert forall|h: ElfHeader| header_of(h, elf@) implies h == header by {
            lemma_header_unique(h, header, elf@);
        }
    }
    if header.magic[0] != 0x7F || header.magic[1] != 0x45 || header.magic[2] != 0x4C || header.magic[3] != 0x46
        || header.cpu_format != 2 {
        proof {
            if elf_magic(header) {
                assert(header.magic@[0] == 0x7Fu8);
            }
        }
        return true;
    }
    proof {
        assert(header.magic@ =~= seq![0x7Fu8, 0x45u8, 0x4Cu8, 0x46u8]);
        assert(elf_magic(header));
    }
    let ghost phs_spec = program_headers_of(elf@, header);
    if header.program_header_size as usize != PROGRAM_HEADER_SIZE {
        return false;
    }
    let table_end: u128 = header.program_header_offset as u128 + header.program_header_count as u128 * 56;
    if table_end > elf.len() as u128 {
        return false;
    }
    proof {
        assert(table_fits(header, elf@.len() as int));
    }
    let phs = e.program_headers();
    proof {
        assert forall|i: int| 0 <= i < phs@.len() implies phs@[i] == phs_spec[i] by {
            lemma_program_header_spec(phs@[i], elf@, header.program_header_offset + i * PROGRAM_HEADER_SIZE);
        }
        assert(phs@ =~= phs_spec);
    }
    let mut i: usize = 0;
    let mut bad: Option<usize> = None;
    while i < phs.len() && bad.is_none()
        invariant
            i <= phs@.len(),
            bad matches Some(b) ==> b < phs@.len() && phs@[b as int].ty == 1 && phs@[b as int].physical_address
                + phs@[b as int].segment_mem_size > u64::MAX,
            bad is None ==> forall|j: int|
                0 <= j < i && (#[trigger] phs@[j]).ty == 1 ==> phs@[j].physical_address + phs@[j].segment_mem_size
                    <= u64::MAX,
        decreases phs@.len() - i + if bad is None { 1int } else { 0int },
    {
        let p = phs[i];
        if p.ty == 1 && p.physical_address > u64::MAX - p.segment_mem_size {
            bad = Some(i);
        } else {
            i = i + 1;
        }
    }
    if let Some(b) = bad {
        proof {
            assert(phs@[b as int].ty == 1);
            assert(!loads_fit(phs@));
            assert(!kernel_loadable(elf@, header, *bump));
        }
        return false;
    }
    assert(loads_fit(phs@));
    let (min_addr, max_end) = load_extent(&phs);
    if max_end > u64::MAX - 4093 {
        return false;
    }
    proof {
        lemma_page_mask(min_addr);
        lemma_page_mask((max_end + 4093) as u64);
    }
    let base = min_addr & !0xfffu64;
    let limit = (max_end + 4093) & !0xfffu64;
    if base > limit {
        return false;
    }
    let frames = (limit - base) / 4096;
    proof {
        assert(frames == image_frames(elf@, header));
        assert(base % 4096 == 0 && limit % 4096 == 0) by {
            assert(base == page_down(min_addr as int));
            assert(limit == page_down(max_end + 4093));
        }
        assert(frames * 4096 == limit - base) by (nonlinear_arith)
            requires
                frames == (limit - base) / 4096,
                (limit - base) % 4096 == 0,
        ;
        bump.lemma_wide();
    }
    if !bump.can_allocate_frames(frames as usize) {
        return false;
    }
    let size: u128 = frames as u128 * 4096;
    let mut k: usize = 0;
    let mut bad: Option<usize> = None;
    while k < phs.len() && bad.is_none()
        invariant
            k <= phs@.len(),
            size == frames * 4096,
            bad matches Some(b) ==> b < phs@.len() && phs@[b as int].ty == 1 && !({
                &&& base <= phs@[b as int].virtual_address
                &&& phs@[b as int].virtual_address - base + phs@[b as int].segment_mem_size <= size
                &&& phs@[b as int].segment_file_offset + phs@[b as int].segment_mem_size <= elf@.len()
            }),
            bad is None ==> forall|j: int|
                0 <= j < k && (#[trigger] phs@[j]).ty == 1 ==> {
                    &&& base <= phs@[j].virtual_address
                    &&& phs@[j].virtual_address - base + phs@[j].segment_mem_size <= size
                    &&& phs@[j].segment_file_offset + phs@[j].segment_mem_size <= elf@.len()
                },
        decreases phs@.len() - k + if bad is None { 1int } else { 0int },
    {
        let p = phs[k];
        if p.ty == 1 && (p.virtual_address < base || (p.virtual_address - base) as u128 + p.segment_mem_size as u128
            > size || p.segment_file_offset as u128 + p.segment_mem_size as u128 > elf.len() as u128) {
            bad = Some(k);
        } else {
            k = k + 1;
        }
    }
    if let Some(b) = bad {
        proof {
            assert(phs@[b as int].ty == 1);
            assert(!segments_fit(phs@, elf@.len() as int, base as int, frames * 4096));
            assert(!kernel_loadable(elf@, header, *bump));
        }
        return false;
    }
    proof {
        assert(segments_fit(phs@, elf@.len() as int, image_base(elf@, header), image_frames(elf@, header) * 4096));
        assert(kernel_loadable(elf@, header, *bump));
    }
    true
}

/// Loads the kernel executable `elf`: checks that it is a 64-bit ELF file, allocates
/// frames for the image its loadable segments span (from the lowest physical address,
/// rounded down to a page, to the highest end plus 4093, rounded down), and returns
/// where it lies together with the image, each loadable segment copied in at its virtual
/// address less the image start.
pub fn mount_kernel(elf: &[u8], bump_alloc: &mut BumpAllocator) -> (r: Result<(KernelExecutable, Vec<u8>), &'static str>)
    requires
        elf@.len() >= ELF_HEADER_SIZE,
        old(bump_alloc).wf(),
        forall|h: ElfHeader|
            header_of(h, elf@) && elf_magic(h) && h.cpu_format == 2 ==> kernel_loadable(elf@, h, *old(bump_alloc)),
    ensures
        final(bump_alloc).wf(),
        forall|h: ElfHeader|
            header_of(h, elf@) ==> match r {
                Err(e) => *final(bump_alloc) == *old(bump_alloc) && ((!elf_magic(h) && e@ == "Not an ELF file"@) || (
                elf_magic(h) && h.cpu_format != 2 && e@ == "Not a 64-bit executable"@)),
                Ok((kernel, image)) => {
                    let phs = program_headers_of(elf@, h);
                    let frames = image_frames(elf@, h);
                    &&& elf_magic(h)
                    &&& h.cpu_format == 2
                    &&& kernel.image_start == image_base(elf@, h)
                    &&& kernel.image_end == image_limit(elf@, h)
                    &&& kernel.frames == frames
                    &&& kernel.entry_point == h.entry
                    &&& next_fit(
                        old(bump_alloc).regions(),
                        old(bump_alloc).position().0,
                        old(bump_alloc).position().1,
                        frames,
                    ) == Some((final(bump_alloc).position().0, kernel.frame_addr as int))
                    &&& final(bump_alloc).ranges() == crate::boot_alloc::record_frames(
                        old(bump_alloc).ranges(),
                        kernel.frame_addr as int,
                        frames,
                    )
                    &&& image@ == load_segments(Seq::new((frames * 4096) as nat, |q: int| 0u8), elf@, phs, kernel.image_start as int)
                },
            },
{
    let elf = Elf { bytes: elf };
    let header = elf.header();
    proof {
        assert forall|h: ElfHeader| header_of(h, elf.bytes@) implies h == header by {
            lemma_header_unique(h, header, elf.bytes@);
        }
        reveal_strlit("Not an ELF file");
        reveal_strlit("Not a 64-bit executable");
    }
    if header.magic[0] != 0x7F || header.magic[1] != 0x45 || header.magic[2] != 0x4C || header.magic[3] != 0x46 {
        proof {
            if elf_magic(header) {
                assert(header.magic@[0] == 0x7Fu8);
            }
        }
        return Err("Not an ELF file");
    }
    proof {
        assert(header.magic@ =~= seq![0x7Fu8, 0x45u8, 0x4Cu8, 0x46u8]);
    }
    if header.cpu_format != 2 {
        return Err("Not a 64-bit executable");
    }
    proof {
        assert(header_of(header, elf.bytes@));
        assert(elf_magic(header));
        assert(header.cpu_format == 2);
        assert(kernel_loadable(elf.bytes@, header, *old(bump_alloc)));
    }
    let (kernel, image) = load_kernel(&elf, header, bump_alloc);
    Ok((kernel, image))
}

/// Loads the kernel of a 64-bit ELF file `elf` with header `header`.
fn load_kernel(elf: &Elf, header: ElfHeader, bump_alloc: &mut BumpAllocator) -> (r: (KernelExecutable, Vec<u8>))
    requires
        elf.bytes@.len() >= ELF_HEADER_SIZE,
        header_of(header, elf.bytes@),
        old(bump_alloc).wf(),
        kernel_loadable(elf.bytes@, header, *old(bump_alloc)),
    ensures
        final(bump_alloc).wf(),
        ({
            let (kernel, image) = r;
            let phs = program_headers_of(elf.bytes@, header);
            let frames = image_frames(elf.bytes@, header);
            &&& kernel.image_start == image_base(elf.bytes@, header)
            &&& kernel.image_end == image_limit(elf.bytes@, header)
            &&& kernel.frames == frames
            &&& kernel.entry_point == header.entry
            &&& next_fit(old(bump_alloc).regions(), old(bump_alloc).position().0, old(bump_alloc).position().1, frames)
                == Some((final(bump_alloc).position().0, kernel.frame_addr as int))
            &&& final(bump_alloc).ranges() == crate::boot_alloc::record_frames(
                old(bump_alloc).ranges(),
                kernel.frame_addr as int,
                frames,
            )
            &&& image@ == load_segments(Seq::new((frames * 4096) as nat, |q: int| 0u8), elf.bytes@, phs, kernel.image_start as int)
        }),
{
    proof {
        assert forall|h: ElfHeader| header_of(h, elf.bytes@) implies table_fits(h, elf.bytes@.len() as int) by {
            lemma_header_unique(h, header, elf.bytes@);
        }
    }
    let phs = elf.program_headers();
    let ghost phs_spec = program_headers_of(elf.bytes@, header);
    proof {
        assert forall|i: int| 0 <= i < phs@.len() implies phs@[i] == phs_spec[i] by {
            lemma_program_header_spec(phs@[i], elf.bytes@, header.program_header_offset + i * PROGRAM_HEADER_SIZE);
        }
        assert(phs@ =~= phs_spec);
    }
    let (min_addr, max_end) = load_extent(&phs);
    proof {
        lemma_page_mask(min_addr);
        lemma_page_mask((max_end + 4093) as u64);
    }
    let kernel_virt_base = min_addr & !0xfffu64;
    let kernel_virt_limit = (max_end + 4093) & !0xfffu64;
    let kernel_frames = (kernel_virt_limit - kernel_virt_base) / 4096;
    proof {
        assert(kernel_frames == image_frames(elf.bytes@, header));
        bump_alloc.lemma_wide();
    }
    let kernel_phys_base = match bump_alloc.allocate_frames(kernel_frames as usize) {
        Ok(base) => base,
        Err(_) => {
            proof {
                assert(false);
            }
            0
        },
    };
    let size = (kernel_frames * 4096) as usize;
    let mut kernel: Vec<u8> = Vec::new();
    let mut i: usize = 0;
    while i < size
        invariant
            i <= size,
            kernel@ == Seq::new(i as nat, |q: int| 0u8),
        decreases size - i,
    {
        kernel.push(0u8);
        proof {
            assert(kernel@ =~= Seq::new((i + 1) as nat, |q: int| 0u8));
        }
        i = i + 1;
    }
    copy_segments(&mut kernel, elf.bytes, &phs, kernel_virt_base);
    (
        KernelExecutable {
            image_start: kernel_virt_base,
            image_end: kernel_virt_limit,
            frame_addr: kernel_phys_base,
            frames: kernel_frames,
            entry_point: header.entry,
        },
        kernel,
    )
}

/// The file's numbers are little-endian: the byte at `o` is the lowest of the value, the
/// last one the highest.
pub proof fn lemma_little_endian(b: Seq<u8>, o: int)
    requires
        0 <= o,
        o + 8 <= b.len(),
    ensures
        le16(b, o) % 0x100 == b[o],
        le16(b, o) / 0x100 == b[o + 1],
        le32(b, o) % 0x100 == b[o],
        le32(b, o) / 0x100_0000 == b[o + 3],
        le64(b, o) % 0x100 == b[o],
        le64(b, o) / 0x100_0000_0000_0000 == b[o + 7],
{
}

/// Rounding down to a page: the page boundary at or below `addr`, less than a page away.
pub proof fn lemma_page_down(addr: int)
    requires
        addr >= 0,
    ensures
        page_down(addr) % 4096 == 0,
        page_down(addr) <= addr < page_down(addr) + 4096,
{
}

} // verus!
