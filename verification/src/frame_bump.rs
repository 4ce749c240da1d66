//! A bump allocator for kernel objects that carves requests out of whole frames: requests
//! are placed one after another in the current frame, and a request that does not fit in
//! what is left of it starts a fresh frame. Nothing is ever freed.
use crate::slab::{AllocError, FrameAllocator, ObjectLayout, FRAME_BYTES};
use vstd::prelude::*;

verus! {

/// `offset` raised to the next multiple of `align`.
pub open spec fn align_up(offset: int, align: int) -> int {
    if offset % align != 0 {
        offset + (align - offset % align)
    } else {
        offset
    }
}

/// Highest mapped frame address the allocator carves: room is left above it for a frame
/// and the largest alignment.
pub const MAX_MAPPED_FRAME: u64 = 0xffff_fffd_ffff_ffff;

/// Where a frame from the frame source is seen in the kernel's mapping, `page_offset`
/// above its physical address; none when the source had no frame or the mapped address
/// would lie above `MAX_MAPPED_FRAME`.
pub open spec fn mapped_frame(frame: Option<u64>, page_offset: u64) -> Option<u64> {
    match frame {
        Some(f) => if f + page_offset <= MAX_MAPPED_FRAME {
            Some((f + page_offset) as u64)
        } else {
            None
        },
        None => None,
    }
}

/// Maps what the frame source returned into the kernel's mapping.
pub fn map_frame(frame: Option<u64>, page_offset: u64) -> (r: Option<u64>)
    ensures
        r == mapped_frame(frame, page_offset),
{
    match frame {
        Some(f) => if page_offset <= MAX_MAPPED_FRAME && f <= MAX_MAPPED_FRAME - page_offset {
            Some(f + page_offset)
        } else {
            None
        },
        None => None,
    }
}

/// The frame being carved and how much of it is used.
#[derive(Clone, Copy, Debug)]
pub struct KernelAllocatorInner {
    /// Address, in the kernel's mapping, of the frame being carved.
    pub current_frame: Option<u64>,
    /// Bytes of it handed out so far, alignment padding included.
    pub offset: u64,
}

/// Carves kernel objects out of frames from `frame_allocator`; a frame's address is seen
/// at `page_offset` above its physical address.
#[derive(Debug)]
pub struct KernelAllocator<F: FrameAllocator> {
    pub inner: KernelAllocatorInner,
    pub frame_allocator: F,
    pub page_offset: u64,
}

impl<F: FrameAllocator> KernelAllocator<F> {
    /// An allocator with no frame yet.
    pub fn new(frame_allocator: F, page_offset: u64) -> (r: Self)
        ensures
            r.inner.current_frame is None,
            r.inner.offset == 0,
            r.frame_allocator == frame_allocator,
            r.page_offset == page_offset,
    {
        KernelAllocator { inner: KernelAllocatorInner { current_frame: None, offset: 0 }, frame_allocator, page_offset }
    }

    /// The request fits in the current frame: there is one, and what is left of it holds
    /// the request's size before alignment.
    pub open spec fn fits_current(&self, layout: ObjectLayout) -> bool {
        self.inner.current_frame is Some && self.inner.offset + layout.size <= FRAME_BYTES
    }

    /// Places an object of `layout`. When it fits in the current frame it goes at the
    /// first multiple of its alignment at or after the bytes used; otherwise a fresh frame
    /// is taken and the object goes at its start. Fails, leaving no frame current, when the
    /// frame source has none or gives one whose mapped address leaves no room for a frame
    /// and its alignment.
    pub fn allocate(&mut self, layout: ObjectLayout) -> (r: Result<u64, AllocError>)
        requires
            1 <= layout.align <= 0x1_0000_0000,
            layout.size <= FRAME_BYTES,
            old(self).inner.offset <= FRAME_BYTES + 0x1_0000_0000,
            old(self).inner.current_frame matches Some(f) ==> f <= MAX_MAPPED_FRAME,
        ensures
            final(self).page_offset == old(self).page_offset,
            final(self).frame_allocator == old(self).frame_allocator,
            final(self).inner.offset <= FRAME_BYTES + 0x1_0000_0000,
            final(self).inner.current_frame matches Some(f) ==> f <= MAX_MAPPED_FRAME,
            old(self).fits_current(layout) ==> {
                let f = old(self).inner.current_frame->Some_0;
                let at = align_up(old(self).inner.offset as int, layout.align as int);
                &&& r == Ok::<u64, AllocError>((f + at) as u64)
                &&& final(self).inner.current_frame == Some(f)
                &&& final(self).inner.offset == at + layout.size
            },
            !old(self).fits_current(layout) ==> exists|frame: Option<u64>|
                match #[trigger] mapped_frame(frame, old(self).page_offset) {
                    Some(page) => {
                        &&& r == Ok::<u64, AllocError>(page)
                        &&& final(self).inner.current_frame == Some(page)
                        &&& final(self).inner.offset == layout.size
                    },
                    None => r is Err && final(self).inner.current_frame is None,
                },
    {
        if let Some(frame) = self.inner.current_frame {
            if self.inner.offset + layout.size <= FRAME_BYTES {
                let align = layout.align;
                let mut offset = self.inner.offset;
                if offset % align != 0 {
                    offset = offset + (align - offset % align);
                }
                let addr = frame + offset;
                self.inner.offset = offset + layout.size;
                return Ok(addr);
            }
        }
        self.inner.current_frame = None;
        let frame = self.frame_allocator.allocate_frame();
        let page = match map_frame(frame, self.page_offset) {
            Some(page) => page,
            None => {
                assert(mapped_frame(frame, self.page_offset) is None);
                return Err(AllocError);
            },
        };
        self.inner.current_frame = Some(page);
        self.inner.offset = layout.size;
        assert(mapped_frame(frame, self.page_offset) == Some(page));
        Ok(page)
    }
}

/// Aligning an offset up: the first multiple of `align` at or after `offset`.
pub proof fn lemma_align_up(offset: int, align: int)
    requires
        offset >= 0,
        align > 0,
    ensures
        align_up(offset, align) % align == 0,
        offset <= align_up(offset, align) < offset + align,
{
    let r = offset % align;
    if r != 0 {
        assert((offset + (align - r)) % align == 0) by {
            vstd::arithmetic::div_mod::lemma_fundamental_div_mod(offset, align);
            vstd::arithmetic::div_mod::lemma_mod_multiples_basic(offset / align + 1, align);
            assert(offset + (align - r) == (offset / align + 1) * align) by (nonlinear_arith)
                requires
                    offset == align * (offset / align) + r,
            ;
        }
    }
}

} // verus!
