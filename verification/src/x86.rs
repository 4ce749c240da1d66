//! Decoding x86-64 system registers, segment descriptors and page table entries from
//! their raw bits, and the addresses of the local APIC's registers.
use crate::word::{bit, lemma_mask_tests_bit};
use vstd::prelude::*;

verus! {

/// Whether bit `k` of `x` is set.
fn test_bit(x: u64, k: u64) -> (r: bool)
    requires
        k < 64,
    ensures
        r == bit(x, k),
{
    proof {
        lemma_mask_tests_bit(x, k);
    }
    x & (1u64 << k) != 0
}

/// Control register 0.
#[derive(Clone, Copy, Debug)]
pub struct Cr0 {
    /// Protected mode enable.
    pub pe: bool,
    /// Monitor co-processor.
    pub mp: bool,
    /// Emulation.
    pub em: bool,
    /// Task switched.
    pub ts: bool,
    /// Extension type.
    pub et: bool,
    /// Numeric error.
    pub ne: bool,
    /// Write protect.
    pub wp: bool,
    /// Alignment mask.
    pub am: bool,
    /// Not-write through.
    pub nw: bool,
    /// Cache disable.
    pub cd: bool,
    /// Paging.
    pub pg: bool,
}

impl Cr0 {
    /// The flags of the raw register value `cr0`.
    pub fn from_bits(cr0: u64) -> (r: Self)
        ensures
            r.pe == bit(cr0, 0),
            r.mp == bit(cr0, 1),
            r.em == bit(cr0, 2),
            r.ts == bit(cr0, 3),
            r.et == bit(cr0, 4),
            r.ne == bit(cr0, 5),
            r.wp == bit(cr0, 16),
            r.am == bit(cr0, 18),
            r.nw == bit(cr0, 29),
            r.cd == bit(cr0, 30),
            r.pg == bit(cr0, 31),
    {
        Cr0 {
            pe: test_bit(cr0, 0),
            mp: test_bit(cr0, 1),
            em: test_bit(cr0, 2),
            ts: test_bit(cr0, 3),
            et: test_bit(cr0, 4),
            ne: test_bit(cr0, 5),
            wp: test_bit(cr0, 16),
            am: test_bit(cr0, 18),
            nw: test_bit(cr0, 29),
            cd: test_bit(cr0, 30),
            pg: test_bit(cr0, 31),
        }
    }
}

/// Control register 2: the address of the last page fault.
#[derive(Clone, Copy, Debug)]
pub struct Cr2(pub u64);

/// Control register 3.
#[derive(Clone, Copy, Debug)]
pub struct Cr3 {
    /// Page-level write through.
    pub pwt: bool,
    /// Page-level cache disable.
    pub pcd: bool,
    /// Process-context identifier: bits 0 to 11.
    pub pcid: u16,
    /// Physical base address of the top-level page table, in frames.
    pub pba_pml4: u64,
}

impl Cr3 {
    /// The fields of the raw register value `cr3`.
    pub fn from_bits(cr3: u64) -> (r: Self)
        ensures
            r.pwt == bit(cr3, 3),
            r.pcd == bit(cr3, 5),
            r.pcid == cr3 % 4096,
            r.pba_pml4 == cr3 / 4096,
    {
        proof {
            assert(cr3 & 0xfffu64 == cr3 % 4096) by (bit_vector);
            assert(cr3 >> 12u64 == cr3 / 4096) by (bit_vector);
        }
        Cr3 {
            pwt: test_bit(cr3, 3),
            pcd: test_bit(cr3, 5),
            pcid: (cr3 & 0xfffu64) as u16,
            pba_pml4: cr3 >> 12u64,
        }
    }
}

/// Control register 4.
#[derive(Clone, Copy, Debug)]
pub struct Cr4 {
    pub vme: bool,
    pub pvi: bool,
    pub tsd: bool,
    pub de: bool,
    pub pse: bool,
    pub pae: bool,
    pub mce: bool,
    pub pge: bool,
    pub pce: bool,
    pub dsfxsr: bool,
    pub osxmmexcpt: bool,
    pub uimp: bool,
    pub vmxe: bool,
    pub smxe: bool,
    pub fsgsbase: bool,
    pub pcide: bool,
    pub osxsave: bool,
    pub smep: bool,
    pub smap: bool,
    pub pke: bool,
    pub cet: bool,
    pub pks: bool,
}

impl Cr4 {
    /// The flags of the raw register value `cr4`.
    pub fn from_bits(cr4: u64) -> (r: Self)
        ensures
            r.vme == bit(cr4, 0),
            r.pvi == bit(cr4, 1),
            r.tsd == bit(cr4, 2),
            r.de == bit(cr4, 3),
            r.pse == bit(cr4, 4),
            r.pae == bit(cr4, 5),
            r.mce == bit(cr4, 6),
            r.pge == bit(cr4, 7),
            r.pce == bit(cr4, 8),
            r.dsfxsr == bit(cr4, 9),
            r.osxmmexcpt == bit(cr4, 10),
            r.uimp == bit(cr4, 11),
            r.vmxe == bit(cr4, 13),
            r.smxe == bit(cr4, 14),
            r.fsgsbase == bit(cr4, 16),
            r.pcide == bit(cr4, 17),
            r.osxsave == bit(cr4, 18),
            r.smep == bit(cr4, 20),
            r.smap == bit(cr4, 21),
            r.pke == bit(cr4, 22),
            r.cet == bit(cr4, 23),
            r.pks == bit(cr4, 24),
    {
        Cr4 {
            vme: test_bit(cr4, 0),
            pvi: test_bit(cr4, 1),
            tsd: test_bit(cr4, 2),
            de: test_bit(cr4, 3),
            pse: test_bit(cr4, 4),
            pae: test_bit(cr4, 5),
            mce: test_bit(cr4, 6),
            pge: test_bit(cr4, 7),
            pce: test_bit(cr4, 8),
            dsfxsr: test_bit(cr4, 9),
            osxmmexcpt: test_bit(cr4, 10),
            uimp: test_bit(cr4, 11),
            vmxe: test_bit(cr4, 13),
            smxe: test_bit(cr4, 14),
            fsgsbase: test_bit(cr4, 16),
            pcide: test_bit(cr4, 17),
            osxsave: test_bit(cr4, 18),
            smep: test_bit(cr4, 20),
            smap: test_bit(cr4, 21),
            pke: test_bit(cr4, 22),
            cet: test_bit(cr4, 23),
            pks: test_bit(cr4, 24),
        }
    }
}

/// The extended feature enable register.
#[derive(Clone, Copy, Debug)]
pub struct Efer {
    pub sce: bool,
    pub lme: bool,
    pub lma: bool,
    pub nxe: bool,
    pub svme: bool,
    pub lmsle: bool,
    pub ffxsr: bool,
    pub tce: bool,
}

impl Efer {
    /// The flags of the low half `efer` of the register.
    pub fn from_bits(efer: u32) -> (r: Self)
        ensures
            r.sce == bit(efer as u64, 0),
            r.lme == bit(efer as u64, 8),
            r.lma == bit(efer as u64, 10),
            r.nxe == bit(efer as u64, 11),
            r.svme == bit(efer as u64, 12),
            r.lmsle == bit(efer as u64, 13),
            r.ffxsr == bit(efer as u64, 14),
            r.tce == bit(efer as u64, 15),
    {
        let e = efer as u64;
        Efer {
            sce: test_bit(e, 0),
            lme: test_bit(e, 8),
            lma: test_bit(e, 10),
            nxe: test_bit(e, 11),
            svme: test_bit(e, 12),
            lmsle: test_bit(e, 13),
            ffxsr: test_bit(e, 14),
            tce: test_bit(e, 15),
        }
    }
}

/// The flags register.
#[derive(Clone, Copy, Debug)]
pub struct RFlags {
    pub cf: bool,
    pub pf: bool,
    pub af: bool,
    pub zf: bool,
    pub sf: bool,
    pub tf: bool,
    pub if_: bool,
    pub df: bool,
    pub of: bool,
    /// The I/O privilege level: bits 12 and 13.
    pub iopl: u8,
    pub nt: bool,
    pub rf: bool,
    pub vm: bool,
    pub ac: bool,
    pub vif: bool,
    pub vip: bool,
    pub id: bool,
}

impl RFlags {
    /// The flags of the raw register value `rflags`.
    pub fn from_bits(rflags: u64) -> (r: Self)
        ensures
            r.cf == bit(rflags, 0),
            r.pf == bit(rflags, 2),
            r.af == bit(rflags, 4),
            r.zf == bit(rflags, 6),
            r.sf == bit(rflags, 7),
            r.tf == bit(rflags, 8),
            r.if_ == bit(rflags, 9),
            r.df == bit(rflags, 10),
            r.of == bit(rflags, 11),
            r.iopl == (rflags / 4096) % 4,
            r.nt == bit(rflags, 14),
            r.rf == bit(rflags, 16),
            r.vm == bit(rflags, 17),
            r.ac == bit(rflags, 18),
            r.vif == bit(rflags, 19),
            r.vip == bit(rflags, 20),
            r.id == bit(rflags, 21),
    {
        proof {
            assert((rflags >> 12u64) & 3u64 == (rflags / 4096) % 4) by (bit_vector);
        }
        RFlags {
            cf: test_bit(rflags, 0),
            pf: test_bit(rflags, 2),
            af: test_bit(rflags, 4),
            zf: test_bit(rflags, 6),
            sf: test_bit(rflags, 7),
            tf: test_bit(rflags, 8),
            if_: test_bit(rflags, 9),
            df: test_bit(rflags, 10),
            of: test_bit(rflags, 11),
            iopl: ((rflags >> 12u64) & 3u64) as u8,
            nt: test_bit(rflags, 14),
            rf: test_bit(rflags, 16),
            vm: test_bit(rflags, 17),
            ac: test_bit(rflags, 18),
            vif: test_bit(rflags, 19),
            vip: test_bit(rflags, 20),
            id: test_bit(rflags, 21),
        }
    }
}

/// The access byte of a segment descriptor.
#[derive(Clone, Copy, Debug)]
pub struct GdtDescAccess(pub u8);

impl GdtDescAccess {
    /// Accessed.
    pub fn a(&self) -> (r: bool)
        ensures
            r == bit(self.0 as u64, 0),
    {
        test_bit(self.0 as u64, 0)
    }

    /// Readable or writable.
    pub fn rw(&self) -> (r: bool)
        ensures
            r == bit(self.0 as u64, 1),
    {
        test_bit(self.0 as u64, 1)
    }

    /// Direction or conforming.
    pub fn dc(&self) -> (r: bool)
        ensures
            r == bit(self.0 as u64, 2),
    {
        test_bit(self.0 as u64, 2)
    }

    /// Executable.
    pub fn e(&self) -> (r: bool)
        ensures
            r == bit(self.0 as u64, 3),
    {
        test_bit(self.0 as u64, 3)
    }

    /// Descriptor type.
    pub fn s(&self) -> (r: bool)
        ensures
            r == bit(self.0 as u64, 4),
    {
        test_bit(self.0 as u64, 4)
    }

    /// Privilege level as decoded: the low four bits of the byte shifted left by five.
    pub fn dpl(&self) -> (r: u8)
        ensures
            r == ((self.0 << 5u8) & 0xf),
    {
        (self.0 << 5u8) & 0xf
    }

    /// Present.
    pub fn p(&self) -> (r: bool)
        ensures
            r == bit(self.0 as u64, 7),
    {
        test_bit(self.0 as u64, 7)
    }
}

/// The flags and high limit bits of a segment descriptor.
#[derive(Clone, Copy, Debug)]
pub struct GdtDescFlags(pub u8);

impl GdtDescFlags {
    /// Long-mode code.
    pub fn l(&self) -> (r: bool)
        ensures
            r == bit(self.0 as u64, 5),
    {
        test_bit(self.0 as u64, 5)
    }

    /// Size.
    pub fn db(&self) -> (r: bool)
        ensures
            r == bit(self.0 as u64, 6),
    {
        test_bit(self.0 as u64, 6)
    }

    /// Granularity.
    pub fn g(&self) -> (r: bool)
        ensures
            r == bit(self.0 as u64, 7),
    {
        test_bit(self.0 as u64, 7)
    }
}

/// A segment descriptor of the global descriptor table.
#[derive(Clone, Copy, Debug)]
pub struct GdtDesc {
    pub limit_low: u16,
    pub base_low: u16,
    pub base_mid: u8,
    pub access: GdtDescAccess,
    pub flags_limit: GdtDescFlags,
    pub base_high: u8,
}

impl GdtDesc {
    /// The segment limit: the low four bits of the flags byte above the low limit word.
    pub fn limit(&self) -> (r: u32)
        ensures
            r == (self.flags_limit.0 % 16) * 0x1_0000 + self.limit_low,
    {
        let limit_low = self.limit_low as u32;
        let limit_high = (self.flags_limit.0 & 0xf) as u32;
        proof {
            let f = self.flags_limit.0;
            assert(f & 0xf == f % 16) by (bit_vector);
            assert((limit_high << 16u32) | limit_low == limit_high * 0x1_0000 + limit_low) by (bit_vector)
                requires
                    limit_high < 16,
                    limit_low < 0x1_0000,
            ;
        }
        (limit_high << 16u32) | limit_low
    }

    /// The segment base: high byte, middle byte and low word.
    pub fn base(&self) -> (r: u32)
        ensures
            r == self.base_high * 0x100_0000 + self.base_mid * 0x1_0000 + self.base_low,
    {
        let base_high = self.base_high as u32;
        let base_mid = self.base_mid as u32;
        let base_low = self.base_low as u32;
        proof {
            assert((base_high << 24u32) | (base_mid << 16u32) | base_low == base_high * 0x100_0000 + base_mid
                * 0x1_0000 + base_low) by (bit_vector)
                requires
                    base_high < 0x100,
                    base_mid < 0x100,
                    base_low < 0x1_0000,
            ;
        }
        (base_high << 24u32) | (base_mid << 16u32) | base_low
    }

    /// Walks the table described by `gdtr`, whose descriptors are `table`.
    pub fn table_iter(gdtr: &Gdtr, table: Vec<GdtDesc>) -> (r: GdtTableIter)
        requires
            table@.len() >= gdtr.limit / 8,
        ensures
            r.descs() == table@.take((gdtr.limit / 8) as int),
            r.position() == 0,
            r.wf(),
    {
        let len = gdtr.limit as usize / 8;
        GdtTableIter { table, len, index: 0 }
    }
}

/// Walks the descriptors of a global descriptor table.
#[derive(Debug)]
pub struct GdtTableIter {
    table: Vec<GdtDesc>,
    len: usize,
    index: usize,
}

impl GdtTableIter {
    /// The descriptors walked.
    pub closed spec fn descs(&self) -> Seq<GdtDesc> {
        self.table@.take(self.len as int)
    }

    /// How many were handed out.
    pub closed spec fn position(&self) -> int {
        self.index as int
    }

    /// The walk's length lies within the table.
    pub closed spec fn wf(&self) -> bool {
        self.table@.len() >= self.len
    }

    /// The next descriptor, or `None` after the last.
    pub fn next(&mut self) -> (r: Option<GdtDesc>)
        requires
            old(self).wf(),
        ensures
            final(self).wf(),
            final(self).descs() == old(self).descs(),
            old(self).position() >= old(self).descs().len() ==> r is None && final(self).position() == old(self).position(),
            old(self).position() < old(self).descs().len() ==> r == Some(old(self).descs()[old(self).position()])
                && final(self).position() == old(self).position() + 1,
    {
        if self.index >= self.len {
            return None;
        }
        let desc = self.table[self.index];
        self.index = self.index + 1;
        Some(desc)
    }
}

/// The global descriptor table register.
#[derive(Clone, Copy, Debug)]
pub struct Gdtr {
    pub limit: u16,
    pub base: u64,
}

/// The operand of `lgdt` and `lidt`.
#[derive(Clone, Copy, Debug)]
pub struct DescriptorTablePointer {
    /// Size of the table, less one.
    pub limit: u16,
    /// Address of the table.
    pub base: u64,
}

impl DescriptorTablePointer {
    /// The pointer to a table of `entries` eight-byte descriptors at `base`.
    pub fn for_table(entries: usize, base: u64) -> (r: Self)
        requires
            1 <= entries <= 8192,
        ensures
            r.limit == entries * 8 - 1,
            r.base == base,
    {
        DescriptorTablePointer { limit: (entries * 8 - 1) as u16, base }
    }
}

/// The kernel's code segment: long mode, present, code or data, executable, readable.
pub const KERNEL_CODE_DESCRIPTOR: u64 = 0x0020_9a00_0000_0000;

/// The kernel's data segment: long mode, present, code or data, writable.
pub const KERNEL_DATA_DESCRIPTOR: u64 = 0x0020_9200_0000_0000;

/// Fills the kernel's global descriptor table `gdt`, at address `base`: the null
/// descriptor, then the code and the data segment; the other entries are left as they
/// are. Returns the pointer to load it with, whose limit is the table's size less one,
/// cut to 16 bits.
pub fn init_gdt(gdt: &mut [u64], base: u64) -> (r: DescriptorTablePointer)
    requires
        old(gdt)@.len() >= 3,
    ensures
        final(gdt)@ == old(gdt)@.update(0, 0).update(1, KERNEL_CODE_DESCRIPTOR).update(2, KERNEL_DATA_DESCRIPTOR),
        r.limit == (old(gdt)@.len() * 8 - 1) % 0x1_0000,
        r.base == base,
{
    gdt[0] = 0;
    gdt[1] = KERNEL_CODE_DESCRIPTOR;
    gdt[2] = KERNEL_DATA_DESCRIPTOR;
    let m = (gdt.len() % 8192) as u32;
    let limit = ((m * 8 + 0xffff) % 0x1_0000) as u16;
    proof {
        let len = old(gdt)@.len() as int;
        let q = len / 8192;
        vstd::arithmetic::div_mod::lemma_fundamental_div_mod(len, 8192);
        assert(len * 8 - 1 == 0x1_0000 * q + (m * 8 + 0xffff) - 0x1_0000) by (nonlinear_arith)
            requires
                len == 8192 * q + m,
        ;
        if m >= 1 {
            vstd::arithmetic::div_mod::lemma_mod_multiples_vanish(q, m * 8 - 1, 0x1_0000);
            assert((m * 8 + 0xffff) % 0x1_0000 == m * 8 - 1);
        } else {
            assert(q >= 1);
            vstd::arithmetic::div_mod::lemma_mod_multiples_vanish(q - 1, 0xffff, 0x1_0000);
        }
    }
    DescriptorTablePointer { limit, base }
}

/// An entry of the top-level page table.
#[derive(Clone, Copy, Debug)]
pub struct PageMapLevel4TableEntry(pub u64);

/// An entry of a page directory pointer table.
#[derive(Clone, Copy, Debug)]
pub struct PageDirPointerTableEntry(pub u64);

/// An entry of a page directory.
#[derive(Clone, Copy, Debug)]
pub struct PageDirTableEntry(pub u64);

/// An entry of a page table.
#[derive(Clone, Copy, Debug)]
pub struct PageTableEntry(pub u64);

/// The top-level page table.
#[derive(Debug)]
pub struct PageMapLevel4Table {
    pub entries: [PageMapLevel4TableEntry; 512],
}

/// A page directory pointer table.
#[derive(Debug)]
pub struct PageDirPointerTable {
    pub entries: [PageDirPointerTableEntry; 512],
}

/// A page directory.
#[derive(Debug)]
pub struct PageDirTable {
    pub entries: [PageDirTableEntry; 512],
}

/// A page table.
#[derive(Debug)]
pub struct PageTable {
    pub entries: [PageTableEntry; 512],
}

/// Bits of an entry that hold the address of the next table or of a 4 KiB page.
pub const ENTRY_ADDR_MASK: u64 = 0x000f_ffff_ffff_f000;

/// Bits of a page directory pointer table entry that hold a 1 GiB page's address.
pub const ENTRY_1GB_MASK: u64 = 0x000f_ffff_c000_0000;

/// Bits of a page directory entry that hold a 2 MiB page's address.
pub const ENTRY_2MB_MASK: u64 = 0x000f_ffff_ffe0_0000;

/// What a walk of the page tables does with one entry.
#[derive(Clone, Copy, Debug, PartialEq, Eq, Structural)]
pub enum WalkStep {
    /// The entry is not present.
    Skip,
    /// The entry points to the table of the next level, at this address.
    Descend(u64),
    /// The entry maps a page of `size` bytes at `virt` to `phys`.
    Page { virt: u64, phys: u64, size: u64 },
}

/// What a walk of the page tables has seen so far: the pages of each size it mapped and the
/// bytes its tables take (the top-level table included).
#[derive(Clone, Copy, Debug)]
pub struct WalkTally {
    pub pages_1gb: u64,
    pub pages_2mb: u64,
    pub pages_4kb: u64,
    pub table_bytes: u64,
}

impl WalkTally {
    /// The tally before any entry: only the top-level table.
    pub fn new() -> (r: Self)
        ensures
            r.pages_1gb == 0 && r.pages_2mb == 0 && r.pages_4kb == 0,
            r.table_bytes == 4096,
    {
        WalkTally { pages_1gb: 0, pages_2mb: 0, pages_4kb: 0, table_bytes: 4096 }
    }

    /// Counts one step of the walk at table `level`: a table below adds its 4096 bytes, a
    /// page counts by its level (3 for 1 GiB, 2 for 2 MiB, 1 for 4 KiB), and an absent
    /// entry counts nothing.
    pub fn record(&mut self, level: u8, step: WalkStep)
        requires
            old(self).table_bytes + 4096 <= u64::MAX,
            old(self).pages_1gb < u64::MAX,
            old(self).pages_2mb < u64::MAX,
            old(self).pages_4kb < u64::MAX,
        ensures
            final(self).table_bytes == old(self).table_bytes + if step is Descend { 4096int } else { 0int },
            final(self).pages_1gb == old(self).pages_1gb + if step is Page && level == 3 { 1int } else { 0int },
            final(self).pages_2mb == old(self).pages_2mb + if step is Page && level == 2 { 1int } else { 0int },
            final(self).pages_4kb == old(self).pages_4kb + if step is Page && level == 1 { 1int } else { 0int },
    {
        match step {
            WalkStep::Descend(_) => {
                self.table_bytes = self.table_bytes + 4096;
            },
            WalkStep::Page { .. } => {
                if level == 3 {
                    self.pages_1gb = self.pages_1gb + 1;
                } else if level == 2 {
                    self.pages_2mb = self.pages_2mb + 1;
                } else if level == 1 {
                    self.pages_4kb = self.pages_4kb + 1;
                }
            },
            WalkStep::Skip => {},
        }
    }
}

/// The virtual address selected by table indices `i4`, `i3`, `i2` and `i1`.
pub open spec fn virt_of(i4: int, i3: int, i2: int, i1: int) -> int {
    i4 * 0x80_0000_0000 + i3 * 0x4000_0000 + i2 * 0x20_0000 + i1 * 0x1000
}

/// The virtual address selected by table indices, each below 512: the indices of the four
/// levels placed at bits 39, 30, 21 and 12.
pub fn virt_addr(i4: u64, i3: u64, i2: u64, i1: u64) -> (r: u64)
    requires
        i4 < 512,
        i3 < 512,
        i2 < 512,
        i1 < 512,
    ensures
        r == virt_of(i4 as int, i3 as int, i2 as int, i1 as int),
{
    proof {
        assert((i4 << 39u64) | (i3 << 30u64) | (i2 << 21u64) | (i1 << 12u64) == i4 * 0x80_0000_0000 + i3 * 0x4000_0000
            + i2 * 0x20_0000 + i1 * 0x1000) by (bit_vector)
            requires
                i4 < 512,
                i3 < 512,
                i2 < 512,
                i1 < 512,
        ;
    }
    (i4 << 39u64) | (i3 << 30u64) | (i2 << 21u64) | (i1 << 12u64)
}

/// What the walk does with `entry` of a table at `level` (4 for the top level, 1 for page
/// tables) reached through the indices that select `virt`: nothing unless the entry is
/// present (bit 0); at the top level it leads to the next table; in a page directory
/// pointer table or a page directory it maps a 1 GiB or 2 MiB page when the page-size bit
/// (bit 7) is set and otherwise leads to the next table; in a page table it maps a 4 KiB
/// page.
pub open spec fn walk_step_of(level: u8, virt: u64, entry: u64) -> WalkStep {
    if !bit(entry, 0) {
        WalkStep::Skip
    } else if level == 4 {
        WalkStep::Descend(entry & ENTRY_ADDR_MASK)
    } else if level == 3 && bit(entry, 7) {
        WalkStep::Page { virt, phys: entry & ENTRY_1GB_MASK, size: 0x4000_0000 }
    } else if level == 2 && bit(entry, 7) {
        WalkStep::Page { virt, phys: entry & ENTRY_2MB_MASK, size: 0x20_0000 }
    } else if level == 1 {
        WalkStep::Page { virt, phys: entry & ENTRY_ADDR_MASK, size: 0x1000 }
    } else {
        WalkStep::Descend(entry & ENTRY_ADDR_MASK)
    }
}

/// Decides what the walk does with `entry` of a table at `level`.
pub fn walk_step(level: u8, virt: u64, entry: u64) -> (r: WalkStep)
    requires
        1 <= level <= 4,
    ensures
        r == walk_step_of(level, virt, entry),
{
    if !test_bit(entry, 0) {
        WalkStep::Skip
    } else if level == 4 {
        WalkStep::Descend(entry & ENTRY_ADDR_MASK)
    } else if level == 3 && test_bit(entry, 7) {
        WalkStep::Page { virt, phys: entry & ENTRY_1GB_MASK, size: 0x4000_0000 }
    } else if level == 2 && test_bit(entry, 7) {
        WalkStep::Page { virt, phys: entry & ENTRY_2MB_MASK, size: 0x20_0000 }
    } else if level == 1 {
        WalkStep::Page { virt, phys: entry & ENTRY_ADDR_MASK, size: 0x1000 }
    } else {
        WalkStep::Descend(entry & ENTRY_ADDR_MASK)
    }
}

/// A model-specific register's value from its low and high halves.
pub fn msr_value(low: u32, high: u32) -> (r: u64)
    ensures
        r == high * 0x1_0000_0000 + low,
{
    let h = high as u64;
    let l = low as u64;
    proof {
        assert((h << 32u64) | l == h * 0x1_0000_0000 + l) by (bit_vector)
            requires
                h < 0x1_0000_0000,
                l < 0x1_0000_0000,
        ;
    }
    (h << 32u64) | l
}

/// The local APIC base register.
#[derive(Clone, Copy, Debug)]
pub struct LApicInfo(pub u64);

impl LApicInfo {
    /// This processor is the bootstrap processor.
    pub fn bsp(&self) -> (r: bool)
        ensures
            r == bit(self.0, 8),
    {
        test_bit(self.0, 8)
    }

    /// The local APIC is enabled.
    pub fn global_enable(&self) -> (r: bool)
        ensures
            r == bit(self.0, 11),
    {
        test_bit(self.0, 11)
    }

    /// Physical address of the local APIC's registers: bits 12 to 35.
    pub fn base_addr(&self) -> (r: u64)
        ensures
            r == self.0 & 0x0000_000f_ffff_f000,
            r % 4096 == 0,
            r < 0x10_0000_0000,
    {
        let r = self.0 & 0x0000_000f_ffff_f000;
        proof {
            let x = self.0;
            assert((x & 0x0000_000f_ffff_f000u64) % 4096 == 0 && (x & 0x0000_000f_ffff_f000u64) < 0x10_0000_0000) by (bit_vector);
        }
        r
    }
}

/// A write of `value` to the memory-mapped register at `addr`.
#[derive(Clone, Copy, Debug)]
pub struct MmioWrite {
    pub addr: u64,
    pub value: u32,
}

/// The local APIC, by the address of its registers.
#[derive(Clone, Copy, Debug)]
pub struct LApic {
    pub base: u64,
}

/// Offset of the end-of-interrupt register.
pub const LAPIC_EOI: u64 = 0x00b0;

/// Offset of the spurious interrupt vector register.
pub const LAPIC_SPURIOUS_VECTOR_INTERRUPT: u64 = 0x00f0;

/// Offset of the timer's local vector table entry.
pub const LAPIC_TIMER_LVT: u64 = 0x0320;

/// Offset of the timer's initial count.
pub const LAPIC_INITIAL_COUNT: u64 = 0x0380;

/// Offset of the timer's current count.
pub const LAPIC_CURRENT_COUNT: u64 = 0x0390;

/// Offset of the timer's divide configuration.
pub const LAPIC_DIVIDE_CONFIGURATION: u64 = 0x03e0;

impl LApic {
    /// The local APIC described by the base register `info`.
    pub fn current(info: LApicInfo) -> (r: Self)
        ensures
            r.base == info.0 & 0x0000_000f_ffff_f000,
            r.base < 0x10_0000_0000,
    {
        LApic { base: info.base_addr() }
    }

    /// Address of the register at `offset`.
    fn register(&self, offset: u64) -> (r: u64)
        requires
            self.base + offset <= u64::MAX,
        ensures
            r == self.base + offset,
    {
        self.base + offset
    }

    /// Signals the end of an interrupt: a write of zero to the end-of-interrupt register.
    pub fn write_eoi(&self) -> (r: MmioWrite)
        requires
            self.base + 0x1000 <= u64::MAX,
        ensures
            r.addr == self.base + LAPIC_EOI,
            r.value == 0,
    {
        MmioWrite { addr: self.register(LAPIC_EOI), value: 0 }
    }

    /// Address to read the spurious interrupt vector register from.
    pub fn read_spurious_interrupt_vector(&self) -> (r: u64)
        requires
            self.base + 0x1000 <= u64::MAX,
        ensures
            r == self.base + LAPIC_SPURIOUS_VECTOR_INTERRUPT,
    {
        self.register(LAPIC_SPURIOUS_VECTOR_INTERRUPT)
    }

    /// Writes `value` to the spurious interrupt vector register.
    pub fn write_spurious_interrupt_vector(&self, value: u32) -> (r: MmioWrite)
        requires
            self.base + 0x1000 <= u64::MAX,
        ensures
            r.addr == self.base + LAPIC_SPURIOUS_VECTOR_INTERRUPT,
            r.value == value,
    {
        MmioWrite { addr: self.register(LAPIC_SPURIOUS_VECTOR_INTERRUPT), value }
    }

    /// Address to read the divide configuration from.
    pub fn read_divide_configuration(&self) -> (r: u64)
        requires
            self.base + 0x1000 <= u64::MAX,
        ensures
            r == self.base + LAPIC_DIVIDE_CONFIGURATION,
    {
        self.register(LAPIC_DIVIDE_CONFIGURATION)
    }

    /// Writes `value` to the divide configuration.
    pub fn write_divide_configuration(&self, value: u32) -> (r: MmioWrite)
        requires
            self.base + 0x1000 <= u64::MAX,
        ensures
            r.addr == self.base + LAPIC_DIVIDE_CONFIGURATION,
            r.value == value,
    {
        MmioWrite { addr: self.register(LAPIC_DIVIDE_CONFIGURATION), value }
    }

    /// Address to read the timer's local vector table entry from.
    pub fn read_timer_lvt(&self) -> (r: u64)
        requires
            self.base + 0x1000 <= u64::MAX,
        ensures
            r == self.base + LAPIC_TIMER_LVT,
    {
        self.register(LAPIC_TIMER_LVT)
    }

    /// Writes `value` to the timer's local vector table entry.
    pub fn write_timer_lvt(&self, value: u32) -> (r: MmioWrite)
        requires
            self.base + 0x1000 <= u64::MAX,
        ensures
            r.addr == self.base + LAPIC_TIMER_LVT,
            r.value == value,
    {
        MmioWrite { addr: self.register(LAPIC_TIMER_LVT), value }
    }

    /// Address to read the timer's initial count from.
    pub fn read_initial_count(&self) -> (r: u64)
        requires
            self.base + 0x1000 <= u64::MAX,
        ensures
            r == self.base + LAPIC_INITIAL_COUNT,
    {
        self.register(LAPIC_INITIAL_COUNT)
    }

    /// Writes `value` to the timer's initial count.
    pub fn write_initial_count(&self, value: u32) -> (r: MmioWrite)
        requires
            self.base + 0x1000 <= u64::MAX,
        ensures
            r.addr == self.base + LAPIC_INITIAL_COUNT,
            r.value == value,
    {
        MmioWrite { addr: self.register(LAPIC_INITIAL_COUNT), value }
    }

    /// Address to read the timer's current count from.
    pub fn read_current_count(&self) -> (r: u64)
        requires
            self.base + 0x1000 <= u64::MAX,
        ensures
            r == self.base + LAPIC_CURRENT_COUNT,
    {
        self.register(LAPIC_CURRENT_COUNT)
    }
}

} // verus!
