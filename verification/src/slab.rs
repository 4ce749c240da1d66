//! A slab allocator for small kernel objects, and the kernel allocator that picks a slab
//! cache by the size of a request.
//!
//! A slab is a frame cut into slots of one size after a small header. Its free slots are
//! kept in a list and handed out last-in first-out; a cache allocates from its active slab,
//! which it creates from a fresh frame on its first request.
use vstd::prelude::*;

verus! {

/// Bytes of a frame.
pub const FRAME_BYTES: u64 = 4096;

/// Bytes of a slab's header at the start of its frame.
pub const SLAB_HEADER_BYTES: u64 = 16;

/// Smallest slot: a free slot holds the link to the next one.
pub const MIN_OBJECT_BYTES: u64 = 8;

/// Largest request that the kernel allocator serves.
pub const MAX_OBJECT_BYTES: u64 = 2048;

/// Size and alignment of an object.
#[derive(Clone, Copy, Debug, PartialEq, Eq, Structural)]
pub struct ObjectLayout {
    pub size: u64,
    pub align: u64,
}

/// A request could not be served.
#[derive(Clone, Copy, Debug, PartialEq, Eq, Structural)]
pub struct AllocError;

/// A source of frames for slabs.
pub trait FrameAllocator {
    /// Hands out the address of a free frame, if one is left.
    fn allocate_frame(&self) -> Option<u64>;
}

impl<'a, F: FrameAllocator> FrameAllocator for &'a F {
    fn allocate_frame(&self) -> Option<u64> {
        (**self).allocate_frame()
    }
}

/// The slot size for objects of `size` bytes.
pub open spec fn object_bytes(size: u64) -> int {
    if size > MIN_OBJECT_BYTES {
        size as int
    } else {
        MIN_OBJECT_BYTES as int
    }
}

/// The slots of `object_size` bytes that fit in `size` bytes from `base`, in address order.
pub open spec fn slots(base: int, size: int, object_size: int) -> Seq<u64> {
    Seq::new((size / object_size) as nat, |i: int| (base + i * object_size) as u64)
}

/// The slots of a slab are in ascending order, do not overlap, and lie within the memory
/// it was cut from.
pub proof fn lemma_slots_apart(base: int, size: int, object_size: int, i: int, j: int)
    requires
        0 <= base,
        0 <= size,
        object_size > 0,
        base + size <= u64::MAX,
        0 <= i < j < slots(base, size, object_size).len(),
    ensures
        slots(base, size, object_size)[i] + object_size <= slots(base, size, object_size)[j],
        base <= slots(base, size, object_size)[i],
        slots(base, size, object_size)[j] + object_size <= base + size,
{
    let n = size / object_size;
    assert(j * object_size + object_size <= size) by (nonlinear_arith)
        requires
            j < n,
            n == size / object_size,
            object_size > 0,
    ;
    assert(i * object_size + object_size <= j * object_size) by (nonlinear_arith)
        requires
            i < j,
            object_size > 0,
    ;
    assert(0 <= i * object_size) by (nonlinear_arith)
        requires
            0 <= i,
            object_size > 0,
    ;
}

/// Where the first slot starts in a slab's frame: after the header, aligned to `align`.
pub open spec fn slots_offset(align: u64) -> int {
    ((SLAB_HEADER_BYTES + align - 1) / (align as int)) * align
}

/// The slots of a new slab in `frame` for requests aligned to `align`, with slots for
/// objects of `size` bytes.
pub open spec fn fresh_slots(frame: u64, align: u64, size: u64) -> Seq<u64> {
    slots(frame + slots_offset(align), FRAME_BYTES - slots_offset(align), object_bytes(size))
}

/// Offset, within its frame, of the slot a new slab for requests aligned to `align` and
/// objects of `size` bytes hands out first: its last slot.
pub open spec fn fresh_last_offset(align: u64, size: u64) -> int {
    slots_offset(align) + ((FRAME_BYTES - slots_offset(align)) / object_bytes(size) - 1) * object_bytes(size)
}

/// The slot a new slab in frame `f` hands out first lies `fresh_last_offset` into the
/// frame; when that offset is a multiple of `align`, the slot is aligned exactly when the
/// frame is.
proof fn lemma_fresh_last_slot(f: u64, align: u64, size: u64)
    requires
        0 < align,
        f + FRAME_BYTES <= u64::MAX,
        (FRAME_BYTES - slots_offset(align)) / object_bytes(size) > 0,
        fresh_last_offset(align, size) % (align as int) == 0,
    ensures
        fresh_slots(f, align, size).len() > 0,
        fresh_slots(f, align, size).last() == f + fresh_last_offset(align, size),
        (fresh_slots(f, align, size).last() % align == 0) == (f % align == 0),
{
    let off = slots_offset(align);
    let obj = object_bytes(size);
    let n = (FRAME_BYTES - off) / obj;
    let x = fresh_last_offset(align, size);
    assert(off >= 0) by (nonlinear_arith)
        requires
            off == ((SLAB_HEADER_BYTES + align - 1) / (align as int)) * align,
            align > 0,
    ;
    assert(n * obj <= FRAME_BYTES - off) by (nonlinear_arith)
        requires
            n == (FRAME_BYTES - off) / obj,
            obj > 0,
            n > 0,
    ;
    assert(0 <= (n - 1) * obj && (n - 1) * obj + obj == n * obj) by (nonlinear_arith)
        requires
            n >= 1,
            obj > 0,
    ;
    assert(x == off + (n - 1) * obj);
    assert(0 <= x && x + obj <= FRAME_BYTES);
    let sl = fresh_slots(f, align, size);
    assert(sl.len() == n);
    assert(sl.last() == f + x);
    vstd::arithmetic::div_mod::lemma_add_mod_noop(f as int, x, align as int);
    vstd::arithmetic::div_mod::lemma_mod_twice(f as int, align as int);
}

/// The free slots of the slab a cache makes from what the frame source returned: those of
/// a new slab in the frame, or none when the source had no frame or gave one too close to
/// the end of the address space to hold a frame.
pub open spec fn new_slab_slots(frame: Option<u64>, align: u64, size: u64) -> Option<Seq<u64>> {
    match frame {
        Some(f) => if f + FRAME_BYTES <= u64::MAX {
            Some(fresh_slots(f, align, size))
        } else {
            None
        },
        None => None,
    }
}

/// A frame cut into slots.
#[derive(Debug)]
pub struct Slab {
    freelist: Vec<u64>,
}

impl Slab {
    /// The free slots; the last is handed out next.
    pub closed spec fn free(&self) -> Seq<u64> {
        self.freelist@
    }

    /// Cuts `size` bytes from `base` into slots for objects of `object_layout`.
    pub fn new(base: u64, size: u64, object_layout: ObjectLayout) -> (r: Slab)
        requires
            base + size <= u64::MAX,
        ensures
            r.free() == slots(base as int, size as int, object_bytes(object_layout.size)),
    {
        let object_size = if object_layout.size > MIN_OBJECT_BYTES {
            object_layout.size
        } else {
            MIN_OBJECT_BYTES
        };
        let n = size / object_size;
        let mut freelist: Vec<u64> = Vec::new();
        let mut i: u64 = 0;
        while i < n
            invariant
                object_size == object_bytes(object_layout.size),
                object_size >= MIN_OBJECT_BYTES,
                n == size / object_size,
                base + size <= u64::MAX,
                i <= n,
                freelist@ == slots(base as int, size as int, object_size as int).take(i as int),
            decreases n - i,
        {
            proof {
                assert(i * object_size + object_size <= size) by (nonlinear_arith)
                    requires
                        i < n,
                        n == size / object_size,
                        object_size > 0,
                ;
            }
            freelist.push(base + i * object_size);
            i = i + 1;
            assert(freelist@ =~= slots(base as int, size as int, object_size as int).take(i as int));
        }
        assert(freelist@ =~= slots(base as int, size as int, object_size as int));
        Slab { freelist }
    }

    /// Hands out the slot that was freed last.
    pub fn allocate(&mut self) -> (r: u64)
        requires
            old(self).free().len() > 0,
        ensures
            r == old(self).free().last(),
            final(self).free() == old(self).free().drop_last(),
    {
        match self.freelist.pop() {
            Some(addr) => addr,
            None => 0,
        }
    }
}

/// The slab a cache makes from what the frame source returned: its slots start after the
/// header at the alignment `align` and hold objects of `object_layout`.
pub fn new_slab(frame: Option<u64>, align: u64, object_layout: ObjectLayout) -> (r: Option<Slab>)
    requires
        0 < align <= FRAME_BYTES,
    ensures
        match new_slab_slots(frame, align, object_layout.size) {
            Some(free) => r matches Some(slab) && slab.free() == free,
            None => r is None,
        },
{
    let frame = match frame {
        Some(f) => f,
        None => return None,
    };
    if frame > u64::MAX - FRAME_BYTES {
        return None;
    }
    let q = (SLAB_HEADER_BYTES + align - 1) / align;
    proof {
        let n = SLAB_HEADER_BYTES + align - 1;
        assert(q * align <= n) by (nonlinear_arith)
            requires
                q == n / (align as int),
                align > 0,
                n >= 0,
        ;
        if align >= SLAB_HEADER_BYTES {
            assert(q <= 1) by (nonlinear_arith)
                requires
                    q * align <= n,
                    n < 2 * align,
                    align > 0,
            ;
            assert(q * align <= align) by (nonlinear_arith)
                requires
                    q <= 1,
                    align > 0,
            ;
        }
    }
    let offset = q * align;
    assert(offset == slots_offset(align));
    let slab = Slab::new(frame + offset, FRAME_BYTES - offset, object_layout);
    Some(slab)
}

/// The slabs of a cache.
#[derive(Debug)]
pub struct SlabCacheInner {
    pub active: Option<Slab>,
    pub partial: Option<Slab>,
    pub full: Option<Slab>,
}

impl SlabCacheInner {
    /// A cache with no slab yet.
    pub fn new() -> (r: Self)
        ensures
            r.active is None,
            r.partial is None,
            r.full is None,
    {
        SlabCacheInner { active: None, partial: None, full: None }
    }
}

/// A cache of objects of one layout.
#[derive(Debug)]
pub struct SlabCache<F: FrameAllocator> {
    pub inner: SlabCacheInner,
    pub frame_allocator: F,
    pub object_layout: ObjectLayout,
}

impl<F: FrameAllocator> SlabCache<F> {
    /// A cache for objects of `object_layout`, with frames from `frame_allocator`.
    pub fn new(frame_allocator: F, object_layout: ObjectLayout) -> (r: Self)
        ensures
            r.inner.active is None,
            r.frame_allocator == frame_allocator,
            r.object_layout == object_layout,
    {
        SlabCache { inner: SlabCacheInner::new(), frame_allocator, object_layout }
    }

    /// A request of `layout` can be served without running out of slots: the active slab
    /// has a free slot, or a new slab would have one.
    pub open spec fn can_allocate(&self, layout: ObjectLayout) -> bool {
        &&& 0 < layout.align <= FRAME_BYTES
        &&& match self.inner.active {
            Some(slab) => slab.free().len() > 0,
            None => (FRAME_BYTES - slots_offset(layout.align)) / object_bytes(self.object_layout.size) > 0,
        }
    }

    /// `after` and `r` are what a request of `layout` makes of this cache and returns: a
    /// slot from the active slab; or, with no slab active, the last slot of a new slab in a
    /// fresh frame, whose slots start after the header at the alignment of `layout`; or a
    /// failure, with no slab made, when the frame source has no frame or gives one too close
    /// to the end of the address space to hold a frame.
    pub open spec fn allocated(self, layout: ObjectLayout, after: Self, r: Result<u64, AllocError>) -> bool {
        &&& after.object_layout == self.object_layout
        &&& after.frame_allocator == self.frame_allocator
        &&& after.inner.partial == self.inner.partial
        &&& after.inner.full == self.inner.full
        &&& match self.inner.active {
            Some(slab) => {
                &&& r == Ok::<u64, AllocError>(slab.free().last())
                &&& after.inner.active matches Some(s) && s.free() == slab.free().drop_last()
            },
            None => exists|frame: Option<u64>|
                match #[trigger] new_slab_slots(frame, layout.align, self.object_layout.size) {
                    Some(free) => {
                        &&& r == Ok::<u64, AllocError>(free.last())
                        &&& after.inner.active matches Some(s) && s.free() == free.drop_last()
                    },
                    None => r is Err && after.inner.active is None,
                },
        }
    }

    /// Hands out a slot for an object of `layout`.
    pub fn allocate(&mut self, layout: ObjectLayout) -> (r: Result<u64, AllocError>)
        requires
            old(self).can_allocate(layout),
        ensures
            old(self).allocated(layout, *final(self), r),
    {
        if self.inner.active.is_none() {
            let frame = self.frame_allocator.allocate_frame();
            let mut slab = match new_slab(frame, layout.align, self.object_layout) {
                Some(slab) => slab,
                None => {
                    assert(new_slab_slots(frame, layout.align, self.object_layout.size) is None);
                    return Err(AllocError);
                },
            };
            let ghost free = slab.free();
            assert(new_slab_slots(frame, layout.align, self.object_layout.size) == Some(free));
            let addr = slab.allocate();
            self.inner.active = Some(slab);
            return Ok(addr);
        }
        let mut active = match self.inner.active.take() {
            Some(slab) => slab,
            None => return Err(AllocError),
        };
        let addr = active.allocate();
        self.inner.active = Some(active);
        Ok(addr)
    }
}

/// One of the seven size classes.
pub open spec fn is_size_class(c: int) -> bool {
    c == 32 || c == 64 || c == 128 || c == 256 || c == 512 || c == 1024 || c == 2048
}

/// The size class that serves a request of `size` bytes: the smallest power of two from 32
/// to 2048 that holds it.
pub open spec fn size_class(size: u64) -> int {
    if size <= 32 {
        32
    } else if size <= 64 {
        64
    } else if size <= 128 {
        128
    } else if size <= 256 {
        256
    } else if size <= 512 {
        512
    } else if size <= 1024 {
        1024
    } else {
        2048
    }
}

/// Every request the kernel allocator serves gets a slot at least as large as it asks
/// for, from the smallest class that is large enough: the class is a power of two from 32
/// to 2048, holds the request, and half of it would not (or it is the smallest class).
pub proof fn lemma_size_class_holds_request(size: u64)
    requires
        size <= MAX_OBJECT_BYTES,
    ensures
        is_size_class(size_class(size)),
        size <= size_class(size),
        size_class(size) == 32 || size_class(size) / 2 < size,
        exists|e: nat| 5 <= e <= 11 && size_class(size) == crate::util::pow(2, e),
{
    let c = size_class(size);
    let e: nat = if c == 32 {
        5
    } else if c == 64 {
        6
    } else if c == 128 {
        7
    } else if c == 256 {
        8
    } else if c == 512 {
        9
    } else if c == 1024 {
        10
    } else {
        11
    };
    assert(c == crate::util::pow(2, e)) by {
        reveal_with_fuel(crate::util::pow, 12);
    }
}

/// The kernel's allocator of small objects: one slab cache per size class, each for
/// objects of that size and alignment.
#[derive(Debug)]
pub struct KernelAllocator<'f, F: FrameAllocator> {
    pub slab_32: SlabCache<&'f F>,
    pub slab_64: SlabCache<&'f F>,
    pub slab_128: SlabCache<&'f F>,
    pub slab_256: SlabCache<&'f F>,
    pub slab_512: SlabCache<&'f F>,
    pub slab_1k: SlabCache<&'f F>,
    pub slab_2k: SlabCache<&'f F>,
}

impl<'f, F: FrameAllocator> KernelAllocator<'f, F> {
    /// The cache of size class `class`.
    pub open spec fn cache(&self, class: int) -> SlabCache<&'f F> {
        if class == 32 {
            self.slab_32
        } else if class == 64 {
            self.slab_64
        } else if class == 128 {
            self.slab_128
        } else if class == 256 {
            self.slab_256
        } else if class == 512 {
            self.slab_512
        } else if class == 1024 {
            self.slab_1k
        } else {
            self.slab_2k
        }
    }

    /// Each cache serves objects of its class's size and alignment.
    pub open spec fn wf(&self) -> bool {
        forall|c: int|
            is_size_class(c) ==> (#[trigger] self.cache(c)).object_layout == (ObjectLayout {
                size: c as u64,
                align: c as u64,
            })
    }

    /// An allocator whose caches take frames from `frame_allocator`; no slab exists yet.
    pub fn new(frame_allocator: &'f F) -> (r: Self)
        ensures
            r.wf(),
            forall|c: int| is_size_class(c) ==> (#[trigger] r.cache(c)).inner.active is None,
    {
        KernelAllocator {
            slab_32: SlabCache::new(frame_allocator, ObjectLayout { size: 32, align: 32 }),
            slab_64: SlabCache::new(frame_allocator, ObjectLayout { size: 64, align: 64 }),
            slab_128: SlabCache::new(frame_allocator, ObjectLayout { size: 128, align: 128 }),
            slab_256: SlabCache::new(frame_allocator, ObjectLayout { size: 256, align: 256 }),
            slab_512: SlabCache::new(frame_allocator, ObjectLayout { size: 512, align: 512 }),
            slab_1k: SlabCache::new(frame_allocator, ObjectLayout { size: 1024, align: 1024 }),
            slab_2k: SlabCache::new(frame_allocator, ObjectLayout { size: 2048, align: 2048 }),
        }
    }

    /// The cache that serves a request of `size` bytes makes slots large enough for it: its
    /// objects are as large as the request's size class, which holds the request, so slots
    /// handed out for two requests never overlap (see `lemma_slots_apart`).
    pub proof fn lemma_cache_holds_request(&self, size: u64)
        requires
            self.wf(),
            size <= MAX_OBJECT_BYTES,
        ensures
            self.cache(size_class(size)).object_layout.size >= size,
            object_bytes(self.cache(size_class(size)).object_layout.size) >= size,
    {
        lemma_size_class_holds_request(size);
        let c = size_class(size);
        assert(self.cache(c).object_layout.size == c);
    }

    /// Serves a request of `layout` from the cache of its size class. The slot handed out
    /// must be aligned as `layout` asks: when the cache has a slab, its next slot must be;
    /// when a new slab is made, the slot's offset in its frame must be. The frame itself
    /// comes from the frame source, whose choice no requirement can name: a frame that is not
    /// aligned as `layout` asks gives a misaligned slot, which is refused with an error where
    /// the allocator would otherwise have to stop.
    pub fn allocate(&mut self, layout: ObjectLayout) -> (r: Result<u64, AllocError>)
        requires
            old(self).wf(),
            layout.size <= MAX_OBJECT_BYTES,
            old(self).cache(size_class(layout.size)).can_allocate(layout),
            old(self).cache(size_class(layout.size)).inner.active matches Some(slab) ==> slab.free().last()
                % layout.align == 0,
            old(self).cache(size_class(layout.size)).inner.active is None ==> fresh_last_offset(
                layout.align,
                old(self).cache(size_class(layout.size)).object_layout.size,
            ) % (layout.align as int) == 0,
        ensures
            old(self).cache(size_class(layout.size)).inner.active is None ==> exists|frame: Option<u64>|
                match #[trigger] new_slab_slots(
                    frame,
                    layout.align,
                    old(self).cache(size_class(layout.size)).object_layout.size,
                ) {
                    Some(free) => if frame->Some_0 % layout.align == 0 {
                        r == Ok::<u64, AllocError>(free.last())
                    } else {
                        r == Err::<u64, AllocError>(AllocError)
                    },
                    None => r == Err::<u64, AllocError>(AllocError),
                },
            old(self).cache(size_class(layout.size)).inner.active matches Some(slab) ==> r == Ok::<u64, AllocError>(
                slab.free().last(),
            ),
            final(self).wf(),
            forall|c: int|
                is_size_class(c) && c != size_class(layout.size) ==> #[trigger] final(self).cache(c) == old(self).cache(
                    c,
                ),
            exists|raw: Result<u64, AllocError>|
                {
                    &&& #[trigger] old(self).cache(size_class(layout.size)).allocated(
                        layout,
                        final(self).cache(size_class(layout.size)),
                        raw,
                    )
                    &&& r == match raw {
                        Ok(addr) => if addr % layout.align == 0 {
                            Ok::<u64, AllocError>(addr)
                        } else {
                            Err(AllocError)
                        },
                        Err(e) => Err(e),
                    }
                },
    {
        let ghost before = *self;
        let res = if layout.size <= 32 {
            self.slab_32.allocate(layout)
        } else if layout.size <= 64 {
            self.slab_64.allocate(layout)
        } else if layout.size <= 128 {
            self.slab_128.allocate(layout)
        } else if layout.size <= 256 {
            self.slab_256.allocate(layout)
        } else if layout.size <= 512 {
            self.slab_512.allocate(layout)
        } else if layout.size <= 1024 {
            self.slab_1k.allocate(layout)
        } else {
            self.slab_2k.allocate(layout)
        };
        proof {
            let c = size_class(layout.size);
            let cache = before.cache(c);
            if cache.inner.active is None {
                let frame = choose|frame: Option<u64>|
                    match #[trigger] new_slab_slots(frame, layout.align, cache.object_layout.size) {
                        Some(free) => {
                            &&& res == Ok::<u64, AllocError>(free.last())
                            &&& self.cache(c).inner.active matches Some(s) && s.free() == free.drop_last()
                        },
                        None => res is Err && self.cache(c).inner.active is None,
                    };
                if let Some(f) = frame {
                    if f + FRAME_BYTES <= u64::MAX {
                        lemma_fresh_last_slot(f, layout.align, cache.object_layout.size);
                    }
                }
                assert(match new_slab_slots(frame, layout.align, cache.object_layout.size) {
                    Some(free) => if frame->Some_0 % layout.align == 0 {
                        res == Ok::<u64, AllocError>(free.last())
                    } else {
                        res is Ok && res->Ok_0 % layout.align != 0
                    },
                    None => res is Err,
                });
            }
            assert forall|c: int| is_size_class(c) implies (#[trigger] self.cache(c)).object_layout == (ObjectLayout {
                size: c as u64,
                align: c as u64,
            }) by {
                assert(before.cache(c).object_layout == (ObjectLayout { size: c as u64, align: c as u64 }));
            }
        }
        match res {
            Ok(addr) => if addr % layout.align != 0 {
                Err(AllocError)
            } else {
                Ok(addr)
            },
            Err(e) => Err(e),
        }
    }
}

} // verus!
