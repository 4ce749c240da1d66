//! The kernel's page allocator: a bitmap of the heap's pages, handing out runs of
//! consecutive free pages, lowest first.
use crate::page_bitmap::Bitmap;
use vstd::prelude::*;

verus! {

/// Bytes in a page.
pub const PAGE_SIZE: u64 = 4096;

/// Pages `[i, i + pages)` are all free.
pub open spec fn run_free(bits: Seq<bool>, i: int, pages: int) -> bool {
    forall|t: int| i <= t < i + pages ==> !#[trigger] bits[t]
}

/// A run of `pages` free pages may start at `i`: it ends strictly before the last page.
pub open spec fn run_fits(bits: Seq<bool>, i: int, pages: int) -> bool {
    0 <= i && i + pages < bits.len() && run_free(bits, i, pages)
}

/// `i` is the lowest start of a run of `pages` free pages.
pub open spec fn first_run(bits: Seq<bool>, i: int, pages: int) -> bool {
    &&& run_fits(bits, i, pages)
    &&& forall|j: int| 0 <= j < i ==> !#[trigger] run_fits(bits, j, pages)
}

/// `bits` with pages `[i, i + pages)` marked in use.
pub open spec fn mark_run(bits: Seq<bool>, i: int, pages: int) -> Seq<bool> {
    Seq::new(bits.len(), |t: int| if i <= t < i + pages { true } else { bits[t] })
}

/// The first page boundary strictly above `addr`.
pub open spec fn next_page_boundary(addr: int) -> int {
    (addr / 4096 + 1) * 4096
}

/// Allocates runs of pages from the heap area that follows the kernel.
#[derive(Debug)]
pub struct KernelPageAllocator {
    bitmap: Bitmap,
    bitmap_base: u64,
    bitmap_frames: u64,
    start_addr: u64,
}

/// Rounding `x + 4096` down to a page boundary.
proof fn lemma_page_align(x: u64)
    requires
        x + 4096 <= u64::MAX,
    ensures
        ((x + 4096) as u64) & !0xfffu64 == next_page_boundary(x as int),
{
    let y = (x + 4096) as u64;
    assert(y & !0xfffu64 == y - y % 4096) by (bit_vector);
    assert(y - y % 4096 == (x / 4096 + 1) * 4096) by (nonlinear_arith)
        requires
            y == x + 4096,
    ;
}

impl KernelPageAllocator {
    /// Which pages are in use.
    pub closed spec fn pages(&self) -> Seq<bool> {
        self.bitmap@
    }

    /// Address of the first page of the heap.
    pub closed spec fn start(&self) -> int {
        self.start_addr as int
    }

    /// Where the page bitmap lies, and how many frames it takes.
    pub closed spec fn bitmap_area(&self) -> (int, int) {
        (self.bitmap_base as int, self.bitmap_frames as int)
    }

    /// The bitmap is well formed and every page's address fits.
    pub closed spec fn wf(&self) -> bool {
        &&& self.bitmap.wf()
        &&& self.start_addr + self.bitmap@.len() * 4096 <= u64::MAX
    }

    /// An allocator for a heap of `heap_size_bytes` bytes: its page bitmap starts at the
    /// first page boundary above `kernel_end` and takes one frame per 4096 pages, and the
    /// heap's pages follow it.
    pub fn new(kernel_end: u64, heap_size_bytes: u64) -> (r: Self)
        requires
            kernel_end + 4096 <= u64::MAX,
            heap_size_bytes + 4095 <= u64::MAX,
            ({
                let pages = (heap_size_bytes + 4095) / 4096;
                let frames = (pages + 4095) / 4096;
                &&& pages + 64 <= usize::MAX
                &&& next_page_boundary(kernel_end as int) + frames * 4096 + pages * 4096 <= u64::MAX
            }),
        ensures
            ({
                let pages = (heap_size_bytes + 4095) / 4096;
                let frames = (pages + 4095) / 4096;
                &&& r.wf()
                &&& r.pages() == Seq::new(pages as nat, |i: int| false)
                &&& r.bitmap_area() == (next_page_boundary(kernel_end as int), frames)
                &&& r.start() == next_page_boundary(kernel_end as int) + frames * 4096
            }),
    {
        proof {
            lemma_page_align(kernel_end);
        }
        let kernel_end = (kernel_end + 4096) & !0xfffu64;
        let num_pages = (heap_size_bytes + 4095) / 4096;
        let frames = (num_pages + 4095) / 4096;
        let bitmap = Bitmap::new(num_pages as usize);
        KernelPageAllocator {
            bitmap,
            bitmap_base: kernel_end,
            bitmap_frames: frames,
            start_addr: kernel_end + frames * 4096,
        }
    }

    /// Address of the page bitmap.
    pub fn bitmap_base(&self) -> (r: u64)
        ensures
            r == self.bitmap_area().0,
    {
        self.bitmap_base
    }

    /// Frames the page bitmap takes.
    pub fn bitmap_frames(&self) -> (r: u64)
        ensures
            r == self.bitmap_area().1,
    {
        self.bitmap_frames
    }

    /// Allocates `pages` consecutive pages: the lowest run of free pages that ends before
    /// the last page, marked in use; returns its address. Some such run must exist.
    pub fn allocate_pages(&mut self, pages: usize) -> (r: u64)
        requires
            old(self).wf(),
            pages > 0,
            exists|i: int| #[trigger] run_fits(old(self).pages(), i, pages as int),
        ensures
            final(self).wf(),
            final(self).start() == old(self).start(),
            final(self).bitmap_area() == old(self).bitmap_area(),
            exists|i: int|
                #[trigger] first_run(old(self).pages(), i, pages as int) && r == old(self).start() + i * 4096
                    && final(self).pages() == mark_run(old(self).pages(), i, pages as int),
    {
        let ghost bits = self.bitmap@;
        let mut outer_index: usize = 0;
        while outer_index < self.bitmap.len() && pages < self.bitmap.len() - outer_index
            invariant
                self.wf(),
                self.bitmap@ == bits,
                bits == old(self).pages(),
                *self == *old(self),
                pages > 0,
                forall|j: int| 0 <= j < outer_index ==> !#[trigger] run_fits(bits, j, pages as int),
            decreases self.bitmap@.len() - outer_index,
        {
            proof {
                self.bitmap.lemma_len_bound();
            }
            if self.bitmap.get_bit(outer_index) {
                proof {
                    assert(!run_fits(bits, outer_index as int, pages as int));
                }
                outer_index = outer_index + 1;
                continue;
            }
            // Now we have one page that is free. Check the following `pages - 1` pages
            // as well; if one is in use, fast forward past it.
            let mut inner_index: usize = 1;
            let mut blocked = false;
            while !blocked && inner_index < pages
                invariant
                    self.wf(),
                    self.bitmap@ == bits,
                    1 <= inner_index <= pages,
                    outer_index + pages < bits.len(),
                    bits.len() + 64 <= usize::MAX,
                    blocked ==> inner_index < pages && bits[outer_index + inner_index],
                    forall|t: int| outer_index <= t < outer_index + inner_index ==> !#[trigger] bits[t],
                decreases pages - inner_index + if blocked { 0int } else { 1int },
            {
                if self.bitmap.get_bit(outer_index + inner_index) {
                    blocked = true;
                } else {
                    inner_index = inner_index + 1;
                }
            }
            if blocked {
                proof {
                    let u = outer_index + inner_index;
                    assert(bits[u as int]);
                    assert forall|j: int| 0 <= j < u + 1 implies !#[trigger] run_fits(bits, j, pages as int) by {
                        if j >= outer_index && run_fits(bits, j, pages as int) {
                            assert(!bits[u as int]);
                        }
                    }
                }
                outer_index = outer_index + inner_index + 1;
                continue;
            }
            // Now the `pages` pages from `outer_index` on are free: mark them in use.
            proof {
                assert(run_fits(bits, outer_index as int, pages as int));
                assert(first_run(bits, outer_index as int, pages as int));
            }
            let mut k: usize = 0;
            while k < pages
                invariant
                    self.bitmap.wf(),
                    self.bitmap@.len() == bits.len(),
                    bits == old(self).pages(),
                    bits.len() + 64 <= usize::MAX,
                    self.start_addr == old(self).start_addr,
                    self.bitmap_base == old(self).bitmap_base,
                    self.bitmap_frames == old(self).bitmap_frames,
                    self.start_addr + bits.len() * 4096 <= u64::MAX,
                    k <= pages,
                    outer_index + pages < bits.len(),
                    forall|t: int|
                        0 <= t < bits.len() ==> #[trigger] self.bitmap@[t] == if outer_index <= t < outer_index + k {
                            true
                        } else {
                            bits[t]
                        },
                decreases pages - k,
            {
                self.bitmap.set_bit(outer_index + k);
                k = k + 1;
            }
            proof {
                assert(self.bitmap@ =~= mark_run(bits, outer_index as int, pages as int));
                assert(outer_index * 4096 <= bits.len() * 4096) by (nonlinear_arith)
                    requires
                        outer_index < bits.len(),
                ;
            }
            return self.start_addr + outer_index as u64 * 4096;
        }
        proof {
            let w = choose|i: int| #[trigger] run_fits(bits, i, pages as int);
            if w >= outer_index {
                assert(!(w + pages < bits.len()));
            }
            assert(false);
        }
        self.start_addr
    }
}

/// The first page boundary above `addr`: a multiple of 4096, above `addr` by at most a
/// page.
pub proof fn lemma_next_page_boundary(addr: int)
    requires
        addr >= 0,
    ensures
        next_page_boundary(addr) % 4096 == 0,
        addr < next_page_boundary(addr) <= addr + 4096,
{
}

} // verus!
