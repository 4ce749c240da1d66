//! The mappings the bootloader makes before it starts the kernel: all memory up to the
//! highest mapped address, in 1 GiB pages, both at its own address and in the higher half;
//! the kernel image at its virtual addresses; and the kernel's stack.
use crate::elf::KernelExecutable;
use vstd::prelude::*;

verus! {

/// Bytes in a 1 GiB page.
pub const GIB: u64 = 0x4000_0000;

/// Where the higher-half direct map of physical memory starts.
pub const UPPER_HALF: u64 = 0xffff_8000_0000_0000;

/// Bytes in a 4 KiB page.
pub const PAGE: u64 = 4096;

/// One page mapped: `size` bytes at virtual address `virt` to physical address `phys`.
#[derive(Clone, Copy, Debug, PartialEq, Eq, Structural)]
pub struct PageMapping {
    pub virt: u64,
    pub phys: u64,
    pub size: u64,
}

/// Number of 1 GiB pages needed to reach `max_addr`: `max_addr / GIB` rounded up.
pub open spec fn gib_pages(max_addr: u64) -> int {
    (max_addr + GIB - 1) / (GIB as int)
}

/// The 1 GiB pages over the first `gib` GiB of memory: for each, the identity mapping and
/// then the higher-half mapping.
pub open spec fn direct_maps(gib: nat) -> Seq<PageMapping> {
    Seq::new(
        2 * gib,
        |k: int|
            {
                let i = k / 2;
                if k % 2 == 0 {
                    PageMapping { virt: (i * GIB) as u64, phys: (i * GIB) as u64, size: GIB }
                } else {
                    PageMapping { virt: (UPPER_HALF + i * GIB) as u64, phys: (i * GIB) as u64, size: GIB }
                }
            },
    )
}

/// The 4 KiB pages of the kernel image, in order.
pub open spec fn kernel_maps(kernel: KernelExecutable) -> Seq<PageMapping> {
    Seq::new(
        kernel.frames as nat,
        |p: int|
            PageMapping {
                virt: (kernel.image_start + p * PAGE) as u64,
                phys: (kernel.frame_addr + p * PAGE) as u64,
                size: PAGE,
            },
    )
}

/// The 4 KiB pages of the stack from `stack_end` up, one per frame of `frames`.
pub open spec fn stack_maps(stack_end: u64, frames: Seq<u64>) -> Seq<PageMapping> {
    Seq::new(frames.len(), |j: int| PageMapping { virt: (stack_end + j * PAGE) as u64, phys: frames[j], size: PAGE })
}

/// Every address of the mappings fits: the higher-half map of the last GiB, the kernel
/// image and its frames, and the stack pages.
pub open spec fn mappings_fit(max_addr: u64, kernel: KernelExecutable, stack_end: u64, stack_frames: int) -> bool {
    &&& gib_pages(max_addr) * GIB <= u64::MAX - UPPER_HALF
    &&& kernel.image_start + kernel.frames * PAGE <= u64::MAX
    &&& kernel.frame_addr + kernel.frames * PAGE <= u64::MAX
    &&& stack_end + stack_frames * PAGE <= u64::MAX
}

/// The mappings made before the kernel starts, in the order they are made: the direct
/// maps of memory up to `max_addr`, the kernel image, and the stack pages in
/// `stack_frames`. `None` when one of their addresses would not fit.
pub fn boot_mappings(max_addr: u64, kernel: KernelExecutable, stack_end: u64, stack_frames: &[u64]) -> (r: Option<
    Vec<PageMapping>,
>)
    ensures
        match r {
            Some(maps) => mappings_fit(max_addr, kernel, stack_end, stack_frames@.len() as int) && maps@ == direct_maps(
                gib_pages(max_addr) as nat,
            ) + kernel_maps(kernel) + stack_maps(stack_end, stack_frames@),
            None => !mappings_fit(max_addr, kernel, stack_end, stack_frames@.len() as int),
        },
{
    let gib = max_addr / GIB + if max_addr % GIB != 0 {
        1
    } else {
        0
    };
    assert(gib == gib_pages(max_addr)) by (nonlinear_arith)
        requires
            gib == max_addr / GIB + if max_addr % GIB != 0 { 1int } else { 0int },
    ;
    if gib > (u64::MAX - UPPER_HALF) / GIB {
        assert(gib * GIB > u64::MAX - UPPER_HALF) by (nonlinear_arith)
            requires
                gib > (u64::MAX - UPPER_HALF) / (GIB as int),
        ;
        return None;
    }
    assert(gib * GIB <= u64::MAX - UPPER_HALF) by (nonlinear_arith)
        requires
            gib <= (u64::MAX - UPPER_HALF) / (GIB as int),
    ;
    if kernel.frames > (u64::MAX - kernel.image_start) / PAGE || kernel.frames > (u64::MAX - kernel.frame_addr) / PAGE
        || stack_frames.len() as u64 > (u64::MAX - stack_end) / PAGE {
        proof {
            let f = kernel.frames as int;
            let a = (u64::MAX - kernel.image_start) as int;
            let b = (u64::MAX - kernel.frame_addr) as int;
            let c = (u64::MAX - stack_end) as int;
            let n = stack_frames@.len() as int;
            assert(f > a / 4096 ==> f * 4096 > a) by (nonlinear_arith);
            assert(f > b / 4096 ==> f * 4096 > b) by (nonlinear_arith);
            assert(n > c / 4096 ==> n * 4096 > c) by (nonlinear_arith);
        }
        return None;
    }
    proof {
        let f = kernel.frames as int;
        let a = (u64::MAX - kernel.image_start) as int;
        let b = (u64::MAX - kernel.frame_addr) as int;
        let c = (u64::MAX - stack_end) as int;
        let n = stack_frames@.len() as int;
        assert(f <= a / 4096 ==> f * 4096 <= a) by (nonlinear_arith);
        assert(f <= b / 4096 ==> f * 4096 <= b) by (nonlinear_arith);
        assert(n <= c / 4096 ==> n * 4096 <= c) by (nonlinear_arith);
    }
    let ghost direct = direct_maps(gib as nat);
    let mut maps: Vec<PageMapping> = Vec::new();
    let mut i: u64 = 0;
    while i < gib
        invariant
            i <= gib,
            gib * GIB <= u64::MAX - UPPER_HALF,
            direct == direct_maps(gib as nat),
            maps@ == direct.take(2 * i),
        decreases gib - i,
    {
        assert(i * GIB + GIB <= gib * GIB) by (nonlinear_arith)
            requires
                i < gib,
        ;
        maps.push(PageMapping { virt: i * GIB, phys: i * GIB, size: GIB });
        maps.push(PageMapping { virt: UPPER_HALF + i * GIB, phys: i * GIB, size: GIB });
        proof {
            let k0 = 2 * i as int;
            assert(k0 / 2 == i && k0 % 2 == 0);
            assert((k0 + 1) / 2 == i && (k0 + 1) % 2 == 1);
            assert(maps@ =~= direct.take(2 * (i + 1)));
        }
        i = i + 1;
    }
    proof {
        assert(direct.take(2 * gib) =~= direct);
    }
    let ghost km = kernel_maps(kernel);
    let mut p: u64 = 0;
    while p < kernel.frames
        invariant
            p <= kernel.frames,
            kernel.image_start + kernel.frames * PAGE <= u64::MAX,
            kernel.frame_addr + kernel.frames * PAGE <= u64::MAX,
            km == kernel_maps(kernel),
            maps@ == direct + km.take(p as int),
        decreases kernel.frames - p,
    {
        assert(p * PAGE + PAGE <= kernel.frames * PAGE) by (nonlinear_arith)
            requires
                p < kernel.frames,
        ;
        maps.push(PageMapping { virt: kernel.image_start + p * PAGE, phys: kernel.frame_addr + p * PAGE, size: PAGE });
        proof {
            assert(maps@ =~= direct + km.take(p + 1));
        }
        p = p + 1;
    }
    proof {
        assert(km.take(kernel.frames as int) =~= km);
    }
    let ghost sm = stack_maps(stack_end, stack_frames@);
    let mut j: usize = 0;
    while j < stack_frames.len()
        invariant
            j <= stack_frames@.len(),
            stack_end + stack_frames@.len() * PAGE <= u64::MAX,
            sm == stack_maps(stack_end, stack_frames@),
            maps@ == direct + km + sm.take(j as int),
        decreases stack_frames@.len() - j,
    {
        assert(j * PAGE + PAGE <= stack_frames@.len() * PAGE) by (nonlinear_arith)
            requires
                j < stack_frames@.len(),
        ;
        maps.push(PageMapping { virt: stack_end + j as u64 * PAGE, phys: stack_frames[j], size: PAGE });
        proof {
            assert(maps@ =~= direct + km + sm.take(j + 1));
        }
        j = j + 1;
    }
    proof {
        assert(sm.take(stack_frames@.len() as int) =~= sm);
    }
    Some(maps)
}

/// What the mappings do: the first `2 * gib` pages are 1 GiB pages in pairs, the `i`-th
/// pair mapping GiB `i` of physical memory at its own address and `UPPER_HALF` above it;
/// then each kernel page maps the image at the same offset from its start as the frame
/// from the kernel's first frame; then each stack page maps the next frame at the next
/// page above the stack's end.
pub proof fn lemma_mappings_meaning(max_addr: u64, kernel: KernelExecutable, stack_end: u64, frames: Seq<u64>)
    requires
        mappings_fit(max_addr, kernel, stack_end, frames.len() as int),
    ensures
        ({
            let gib = gib_pages(max_addr);
            let maps = direct_maps(gib as nat) + kernel_maps(kernel) + stack_maps(stack_end, frames);
            &&& gib * GIB >= max_addr
            &&& maps.len() == 2 * gib + kernel.frames + frames.len()
            &&& forall|i: int|
                0 <= i < gib ==> {
                    &&& #[trigger] maps[2 * i].virt == i * GIB && maps[2 * i].phys == i * GIB && maps[2 * i].size == GIB
                    &&& maps[2 * i + 1].virt == UPPER_HALF + i * GIB && maps[2 * i + 1].phys == i * GIB
                        && maps[2 * i + 1].size == GIB
                }
            &&& forall|q: int|
                0 <= q < kernel.frames ==> {
                    &&& #[trigger] maps[2 * gib + q].virt - kernel.image_start == maps[2 * gib + q].phys
                        - kernel.frame_addr
                    &&& maps[2 * gib + q].phys == kernel.frame_addr + q * PAGE
                    &&& maps[2 * gib + q].size == PAGE
                }
            &&& forall|j: int|
                0 <= j < frames.len() ==> {
                    &&& #[trigger] maps[2 * gib + kernel.frames + j].virt == stack_end + j * PAGE
                    &&& maps[2 * gib + kernel.frames + j].phys == frames[j]
                    &&& maps[2 * gib + kernel.frames + j].size == PAGE
                }
        }),
{
    let gib = gib_pages(max_addr);
    assert(gib * GIB >= max_addr) by (nonlinear_arith)
        requires
            gib == (max_addr + GIB - 1) / (GIB as int),
    ;
    assert(gib * GIB <= u64::MAX - UPPER_HALF);
    let d = direct_maps(gib as nat);
    let k = kernel_maps(kernel);
    let st = stack_maps(stack_end, frames);
    let maps = d + k + st;
    assert forall|i: int| 0 <= i < gib implies {
        &&& #[trigger] maps[2 * i].virt == i * GIB && maps[2 * i].phys == i * GIB && maps[2 * i].size == GIB
        &&& maps[2 * i + 1].virt == UPPER_HALF + i * GIB && maps[2 * i + 1].phys == i * GIB
            && maps[2 * i + 1].size == GIB
    } by {
        assert(i * GIB + GIB <= gib * GIB) by (nonlinear_arith)
            requires
                i < gib,
        ;
        assert((2 * i) / 2 == i && (2 * i) % 2 == 0);
        assert((2 * i + 1) / 2 == i && (2 * i + 1) % 2 == 1);
    }
    assert forall|q: int| 0 <= q < kernel.frames implies {
        &&& #[trigger] maps[2 * gib + q].virt - kernel.image_start == maps[2 * gib + q].phys - kernel.frame_addr
        &&& maps[2 * gib + q].phys == kernel.frame_addr + q * PAGE
        &&& maps[2 * gib + q].size == PAGE
    } by {
        assert(q * PAGE + PAGE <= kernel.frames * PAGE) by (nonlinear_arith)
            requires
                q < kernel.frames,
        ;
        assert(maps[2 * gib + q] == k[q]);
    }
    assert forall|j: int| 0 <= j < frames.len() implies {
        &&& #[trigger] maps[2 * gib + kernel.frames + j].virt == stack_end + j * PAGE
        &&& maps[2 * gib + kernel.frames + j].phys == frames[j]
        &&& maps[2 * gib + kernel.frames + j].size == PAGE
    } by {
        assert(j * PAGE + PAGE <= frames.len() * PAGE) by (nonlinear_arith)
            requires
                j < frames.len(),
        ;
        assert(maps[2 * gib + kernel.frames + j] == st[j]);
    }
}

} // verus!
