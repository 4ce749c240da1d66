//! Free and allocated bits for the blocks of one buddy order, with summary layers that
//! make finding the first free block fast.
use crate::bitmap::{
    any_set, bitmap_bytes, entries_for, first_set_from, Bitmap, BitmapLayout, ENTRY_BITS,
};
use crate::mem_layout::{max_layout_size, ByteLayout, LayoutError};
use crate::util::{ceil_log, ilog_ceil};
use vstd::prelude::*;

verus! {

/// Bits of a layer summarised by one bit of the layer above (64 words).
pub const CACHE_ENTRY_BITS: usize = 4096;

/// Most layers a buddy bitmap keeps.
pub const MAX_LAYERS: usize = 5;

/// Bytes of the record that describes one bitmap (its word vector and its length).
pub const BITMAP_RECORD_BYTES: usize = 32;

/// Length of the layer that summarises a layer of `len` bits.
pub open spec fn cache_len(len: int) -> int {
    (len + 4095) / 4096
}

/// Length of layer `k` of a buddy bitmap of `len` blocks: the blocks themselves, then each
/// layer summarising the one below it.
pub open spec fn layer_len_for(len: int, k: nat) -> int
    decreases k,
{
    if k == 0 {
        len
    } else {
        cache_len(layer_len_for(len, (k - 1) as nat))
    }
}

/// Number of layers of a buddy bitmap of `len` blocks.
pub open spec fn buddy_layer_count(len: nat) -> nat {
    let l = ceil_log(4096, len);
    if l <= 1 {
        1
    } else if l > 5 {
        5
    } else {
        l
    }
}

/// Bytes of the words of the `count` summary layers above a layer of `len` bits.
pub open spec fn cache_layers_bytes(len: int, count: nat) -> int
    decreases count,
{
    if count == 0 {
        0
    } else {
        bitmap_bytes(cache_len(len)) + cache_layers_bytes(cache_len(len), (count - 1) as nat)
    }
}

/// Bytes of a buddy bitmap of `len` blocks: one record per layer plus one for the
/// allocated bits, the free and allocated words, and the words of the summary layers.
pub open spec fn buddy_bitmap_bytes(len: nat) -> int {
    let layers = buddy_layer_count(len);
    32 * (layers + 1) + 2 * bitmap_bytes(len as int) + cache_layers_bytes(
        len as int,
        (layers - 1) as nat,
    )
}

/// Free bits of the blocks of one order (`layers[0]`), the summary layers above them, and
/// the allocated bits of the same blocks.
///
/// Bit `g` of layer `k + 1` is set exactly when some bit of layer `k` in
/// `[4096 * g, 4096 * g + 4096)` is set, that is when one of the 64 words it covers is
/// nonzero.
#[derive(Debug)]
pub struct BuddyBitmap {
    layers: Vec<Bitmap>,
    alloc: Bitmap,
}

impl BuddyBitmap {
    /// Free bit of every block.
    pub closed spec fn free_bits(&self) -> Seq<bool> {
        self.layers@[0]@
    }

    /// Allocated bit of every block.
    pub closed spec fn alloc_bits(&self) -> Seq<bool> {
        self.alloc@
    }

    /// Number of layers, the free bits included.
    pub closed spec fn num_layers(&self) -> int {
        self.layers@.len() as int
    }

    /// Layer `k` summarises group `g` of layer `k - 1` correctly.
    pub closed spec fn cache_ok(&self, k: int, g: int) -> bool {
        self.layers@[k + 1]@[g] == any_set(self.layers@[k]@, 4096 * g, 4096 * g + 4096)
    }

    /// Sizes and words of every layer agree, leaving the summary relation aside.
    pub closed spec fn shape_ok(&self) -> bool {
        &&& 1 <= self.layers@.len() <= MAX_LAYERS
        &&& forall|k: int| 0 <= k < self.layers@.len() ==> (#[trigger] self.layers@[k]).wf()
        &&& self.alloc.wf()
        &&& self.alloc@.len() == self.layers@[0]@.len()
        &&& forall|k: int|
            1 <= k < self.layers@.len() ==> (#[trigger] self.layers@[k])@.len() == cache_len(
                self.layers@[k - 1]@.len() as int,
            )
    }

    /// Well formed: consistent shape and every summary bit correct.
    pub closed spec fn wf(&self) -> bool {
        &&& self.shape_ok()
        &&& forall|k: int, g: int|
            0 <= k < self.layers@.len() - 1 && 0 <= g < self.layers@[k + 1]@.len()
                ==> #[trigger] self.cache_ok(k, g)
    }

    /// Every summary bit is correct except possibly the one for group `g0` of layer `k0`.
    closed spec fn wf_except(&self, k0: int, g0: int) -> bool {
        &&& self.shape_ok()
        &&& forall|k: int, g: int|
            0 <= k < self.layers@.len() - 1 && 0 <= g < self.layers@[k + 1]@.len() && !(k == k0
                && g == g0) ==> #[trigger] self.cache_ok(k, g)
    }

    /// A bitmap shaped by `layout` with no block free and none allocated.
    pub fn from_layout(layout: BuddyBitmapLayout) -> (r: Self)
        requires
            layout.wf(),
        ensures
            r.wf(),
            r.free_bits() == Seq::new(layout.len() as nat, |i: int| false),
            r.alloc_bits() == Seq::new(layout.len() as nat, |i: int| false),
    {
        let mut layers: Vec<Bitmap> = Vec::new();
        let mut k: usize = 0;
        while k < layout.num_layers
            invariant
                layout.wf(),
                k <= layout.num_layers,
                layers@.len() == k,
                forall|j: int|
                    0 <= j < k ==> (#[trigger] layers@[j]).wf() && layers@[j]@ == Seq::new(
                        layout.layer_len(j) as nat,
                        |i: int| false,
                    ),
            decreases layout.num_layers - k,
        {
            let layer_layout = layout.layers[k].unwrap().layout;
            layers.push(Bitmap::from_layout(layer_layout));
            k = k + 1;
        }
        let alloc = Bitmap::from_layout(layout.layers[0].unwrap().layout);
        let r = BuddyBitmap { layers, alloc };
        proof {
            assert forall|k: int, g: int|
                0 <= k < r.layers@.len() - 1 && 0 <= g < r.layers@[k + 1]@.len() implies #[trigger] r.cache_ok(
                k,
                g,
            ) by {
                assert(!r.layers@[k + 1]@[g]);
                if any_set(r.layers@[k]@, 4096 * g, 4096 * g + 4096) {
                    let i = choose|i: int|
                        4096 * g <= i < 4096 * g + 4096 && 0 <= i < r.layers@[k]@.len()
                            && #[trigger] r.layers@[k]@[i];
                    assert(!r.layers@[k]@[i]);
                }
            }
        }
        r
    }

    /// The free and allocated bits cover the same blocks, and there are few enough of
    /// them for word arithmetic.
    pub proof fn lemma_lengths(&self)
        requires
            self.wf(),
        ensures
            self.alloc_bits().len() == self.free_bits().len(),
            self.free_bits().len() + 64 <= usize::MAX,
    {
        assert(self.layers@[0].wf());
    }

    /// Number of blocks.
    pub fn len(&self) -> (r: usize)
        requires
            self.wf(),
        ensures
            r == self.free_bits().len(),
    {
        self.layers[0].len()
    }

    /// Free bit of block `index`, or `None` past the end.
    pub fn get_free_bit(&self, index: usize) -> (r: Option<bool>)
        requires
            self.wf(),
        ensures
            index < self.free_bits().len() ==> r == Some(self.free_bits()[index as int]),
            index >= self.free_bits().len() ==> r.is_none(),
    {
        self.layers[0].get_checked(index)
    }

    /// Allocated bit of block `index`, or `None` past the end.
    pub fn get_alloc_bit(&self, index: usize) -> (r: Option<bool>)
        requires
            self.wf(),
        ensures
            index < self.alloc_bits().len() ==> r == Some(self.alloc_bits()[index as int]),
            index >= self.alloc_bits().len() ==> r.is_none(),
    {
        self.alloc.get_checked(index)
    }

    /// Marks block `index` allocated.
    pub fn set_alloc_bit(&mut self, index: usize)
        requires
            old(self).wf(),
            index < old(self).alloc_bits().len(),
        ensures
            final(self).wf(),
            final(self).free_bits() == old(self).free_bits(),
            final(self).alloc_bits() == old(self).alloc_bits().update(index as int, true),
    {
        self.alloc.set(index);
        proof {
            assert(forall|k: int, g: int| #[trigger]
                self.cache_ok(k, g) == old(self).cache_ok(k, g));
        }
    }

    /// Marks block `index` not allocated.
    pub fn clear_alloc_bit(&mut self, index: usize)
        requires
            old(self).wf(),
            index < old(self).alloc_bits().len(),
        ensures
            final(self).wf(),
            final(self).free_bits() == old(self).free_bits(),
            final(self).alloc_bits() == old(self).alloc_bits().update(index as int, false),
    {
        self.alloc.clear(index);
        proof {
            assert(forall|k: int, g: int| #[trigger]
                self.cache_ok(k, g) == old(self).cache_ok(k, g));
        }
    }

    /// Marks block `index` free, updating the summary layers.
    pub fn set_free_bit(&mut self, index: usize)
        requires
            old(self).wf(),
            index < old(self).free_bits().len(),
        ensures
            final(self).wf(),
            final(self).free_bits() == old(self).free_bits().update(index as int, true),
            final(self).alloc_bits() == old(self).alloc_bits(),
    {
        let original_entry = self.layers[0].get_entry(Bitmap::entry_index(index));
        proof {
            self.lemma_group_covers_word(0, index as int);
        }
        self.layers[0].set(index);
        proof {
            self.lemma_set_keeps_other_groups(*old(self), 0, index as int);
            old(self).layers@[0].lemma_entry_nonzero(index as int / 64);
            if original_entry != 0 && self.layers@.len() > 1 {
                let i = choose|i: int|
                    64 * (index as int / 64) <= i < 64 * (index as int / 64) + 64 && 0 <= i
                        < old(self).layers@[0]@.len() && #[trigger] old(self).layers@[0]@[i];
                assert(old(self).cache_ok(0, index as int / 4096));
                assert(self.layers@[1]@[index as int / 4096]);
            }
        }
        self.free_bit_cache_set(index, 0, original_entry);
    }

    /// Marks block `index` not free, updating the summary layers.
    pub fn clear_free_bit(&mut self, index: usize)
        requires
            old(self).wf(),
            index < old(self).free_bits().len(),
        ensures
            final(self).wf(),
            final(self).free_bits() == old(self).free_bits().update(index as int, false),
            final(self).alloc_bits() == old(self).alloc_bits(),
    {
        let ghost was_set = self.layers@[0]@[index as int];
        self.layers[0].clear(index);
        proof {
            self.lemma_clear_keeps_other_groups(*old(self), 0, index as int);
            if self.layers@.len() > 1 {
                if !was_set {
                    // Nothing changed: the bitmap is the old one.
                    assert(self.layers@[0]@ =~= old(self).layers@[0]@);
                    assert(self.cache_ok(0, index as int / 4096) == old(self).cache_ok(0, index as int / 4096));
                }
            }
        }
        self.free_bit_cache_clear(index, 0);
    }

    /// Index of the lowest free block, scanning the free bits directly.
    pub fn find_first_free_index(&self) -> (r: Option<usize>)
        requires
            self.wf(),
        ensures
            first_set_from(self.free_bits(), 0, r),
    {
        self.layers[0].find_first_free_index_from(0)
    }

    /// Index of the lowest free block, found by descending through the summary layers.
    pub fn find_first_free_index_h(&self) -> (r: Option<usize>)
        requires
            self.wf(),
        ensures
            first_set_from(self.free_bits(), 0, r),
    {
        let mut index: usize = 0;
        let mut layer: usize = self.layers.len() - 1;
        proof {
            self.lemma_top_empty_iff(layer as int);
        }
        while layer > 0
            invariant
                self.wf(),
                layer < self.layers@.len(),
                forall|j: int|
                    0 <= j < 64 * index && j < self.layers@[layer as int]@.len()
                        ==> !#[trigger] self.layers@[layer as int]@[j],
                any_set(self.layers@[layer as int]@, 0, self.layers@[layer as int]@.len() as int)
                    == any_set(self.free_bits(), 0, self.free_bits().len() as int),
            decreases layer,
        {
            let found = self.layers[layer].find_first_free_index_from(index);
            match found {
                Some(found_index) => {
                    proof {
                        self.lemma_descend(layer as int, found_index as int);
                        self.lemma_layer_len_bound(layer as int);
                    }
                    index = found_index * ENTRY_BITS;
                },
                None => {
                    proof {
                        let lay = self.layers@[layer as int]@;
                        if any_set(lay, 0, lay.len() as int) {
                            let i = choose|i: int| 0 <= i < lay.len() && #[trigger] lay[i];
                        }
                        self.lemma_none_free();
                    }
                    return None;
                },
            }
            layer = layer - 1;
        }
        self.layers[0].find_first_free_index_from(index)
    }

    /// Sets the summary bits above bit `index` of `layer`, which was just set and whose word
    /// held `original_entry` before.
    fn free_bit_cache_set(&mut self, index: usize, layer: usize, original_entry: u64)
        requires
            old(self).wf_except(layer as int, index as int / 4096),
            layer < old(self).layers@.len(),
            index < old(self).layers@[layer as int]@.len(),
            old(self).layers@[layer as int]@[index as int],
            original_entry != 0 && layer + 1 < old(self).layers@.len() ==> old(
                self,
            ).layers@[layer + 1]@[index as int / 4096],
        ensures
            final(self).wf(),
            final(self).layers@.len() == old(self).layers@.len(),
            forall|k: int| 0 <= k <= layer ==> #[trigger] final(self).layers@[k] == old(self).layers@[k],
            final(self).alloc == old(self).alloc,
        decreases old(self).layers@.len() - layer,
    {
        if original_entry != 0 {
            proof {
                self.lemma_cache_ok_when_set(layer as int, index as int);
            }
            return;
        }
        if layer == self.layers.len() - 1 {
            return;
        }
        let entry_index = Bitmap::entry_index(index);
        let higher_layer_bit_index = entry_index / ENTRY_BITS;
        proof {
            self.lemma_layer_len_bound((layer + 1) as int);
            self.lemma_group_covers_word((layer + 1) as int, higher_layer_bit_index as int);
            assert(higher_layer_bit_index < self.layers@[layer + 1]@.len());
        }
        let higher_layer_entry = self.layers[layer + 1].get_entry(
            Bitmap::entry_index(higher_layer_bit_index),
        );
        let ghost mid = *self;
        self.layers[layer + 1].set(higher_layer_bit_index);
        proof {
            mid.layers@[layer + 1].lemma_entry_nonzero(higher_layer_bit_index as int / 64);
            self.lemma_after_upper_set(mid, layer as int, index as int);
            if higher_layer_entry != 0 && layer + 2 < self.layers@.len() {
                let i = choose|i: int|
                    64 * (higher_layer_bit_index as int / 64) <= i < 64 * (higher_layer_bit_index as int / 64)
                        + 64 && 0 <= i < mid.layers@[layer + 1]@.len()
                        && #[trigger] mid.layers@[layer + 1]@[i];
                assert(mid.cache_ok(layer + 1, higher_layer_bit_index as int / 4096));
                assert(self.layers@[layer + 2]@[higher_layer_bit_index as int / 4096]);
            }
        }
        self.free_bit_cache_set(higher_layer_bit_index, layer + 1, higher_layer_entry);
    }

    /// Clears the summary bits above bit `index` of `layer`, which was just cleared, for
    /// every group that no longer holds a set bit.
    fn free_bit_cache_clear(&mut self, index: usize, layer: usize)
        requires
            old(self).wf_except(layer as int, index as int / 4096),
            layer < old(self).layers@.len(),
            index < old(self).layers@[layer as int]@.len(),
            layer + 1 < old(self).layers@.len() ==> old(self).layers@[layer + 1]@[index as int / 4096]
                || old(self).cache_ok(layer as int, index as int / 4096),
        ensures
            final(self).wf(),
            final(self).layers@.len() == old(self).layers@.len(),
            forall|k: int| 0 <= k <= layer ==> #[trigger] final(self).layers@[k] == old(self).layers@[k],
            final(self).alloc == old(self).alloc,
        decreases old(self).layers@.len() - layer,
    {
        if layer == self.layers.len() - 1 {
            return;
        }
        let higher_layer_bit_index = Bitmap::entry_index(index) / ENTRY_BITS;
        proof {
            self.lemma_layer_len_bound((layer + 1) as int);
            self.lemma_group_covers_word((layer + 1) as int, higher_layer_bit_index as int);
            assert(higher_layer_bit_index < self.layers@[layer + 1]@.len());
        }
        if !self.group_is_empty(layer, higher_layer_bit_index) {
            // The group still holds a set bit, so its summary bit stays set.
            return;
        }
        let ghost mid = *self;
        self.layers[layer + 1].clear(higher_layer_bit_index);
        proof {
            self.lemma_after_upper_clear(mid, layer as int, index as int);
            if layer + 2 < self.layers@.len() {
                let g2 = higher_layer_bit_index as int / 4096;
                if !mid.layers@[layer + 2]@[g2] {
                    assert(mid.cache_ok(layer + 1, g2));
                    assert(!mid.layers@[layer + 1]@[higher_layer_bit_index as int]);
                    assert(self.layers@[layer + 1]@ =~= mid.layers@[layer + 1]@);
                }
            }
        }
        self.free_bit_cache_clear(higher_layer_bit_index, layer + 1);
    }

    /// Whether group `group` of `layer` (64 words) holds no set bit.
    fn group_is_empty(&self, layer: usize, group: usize) -> (r: bool)
        requires
            self.shape_ok(),
            layer < self.layers@.len(),
            64 * group <= self.layers@[layer as int].entries().len(),
        ensures
            r == !any_set(self.layers@[layer as int]@, 4096 * group, 4096 * group + 4096),
    {
        let bitmap = &self.layers[layer];
        let count = bitmap.entry_count();
        let first = group * ENTRY_BITS;
        let mut w = first;
        while w < first + ENTRY_BITS && w < count
            invariant
                layer < self.layers@.len(),
                *bitmap == self.layers@[layer as int],
                bitmap.wf(),
                count == bitmap.entries().len(),
                first == 64 * group,
                first <= w <= count,
                w <= first + 64,
                !any_set(bitmap@, 4096 * group, 64 * w),
            decreases count - w,
        {
            proof {
                bitmap.lemma_entry_nonzero(w as int);
            }
            if bitmap.get_entry(w) != 0 {
                proof {
                    let i = choose|i: int|
                        64 * w <= i < 64 * w + 64 && 0 <= i < bitmap@.len() && #[trigger] bitmap@[i];
                    assert(4096 * group <= i < 4096 * group + 4096);
                    assert(self.layers@[layer as int]@[i]);
                }
                return false;
            }
            proof {
                if any_set(bitmap@, 4096 * group, 64 * (w + 1)) {
                    let i = choose|i: int|
                        4096 * group <= i < 64 * (w + 1) && 0 <= i < bitmap@.len()
                            && #[trigger] bitmap@[i];
                    if i < 64 * w {
                        assert(any_set(bitmap@, 4096 * group, 64 * w));
                    } else {
                        assert(any_set(bitmap@, 64 * w, 64 * w + 64));
                    }
                }
            }
            w = w + 1;
        }
        proof {
            if any_set(bitmap@, 4096 * group, 4096 * group + 4096) {
                let i = choose|i: int|
                    4096 * group <= i < 4096 * group + 4096 && 0 <= i < bitmap@.len()
                        && #[trigger] bitmap@[i];
                assert(any_set(bitmap@, 4096 * group, 64 * w));
            }
        }
        true
    }

    // ---------------------------------------------------------------- lemmas

    /// Layers above the bottom one are short enough for word arithmetic.
    proof fn lemma_layer_len_bound(&self, k: int)
        requires
            self.shape_ok(),
            1 <= k < self.layers@.len(),
        ensures
            self.layers@[k]@.len() <= usize::MAX / 4096 + 1,
    {
        assert(self.layers@[k - 1].wf());
        assert(self.layers@[k]@.len() == cache_len(self.layers@[k - 1]@.len() as int));
    }

    /// Bit `i` of layer `k` lies in a group that layer `k + 1` summarises, and the word of
    /// group `i / 64` exists.
    proof fn lemma_group_covers_word(&self, k: int, i: int)
        requires
            self.shape_ok(),
            0 <= k < self.layers@.len(),
            0 <= i < self.layers@[k]@.len(),
        ensures
            k + 1 < self.layers@.len() ==> i / 4096 < self.layers@[k + 1]@.len(),
            i / 64 < self.layers@[k].entries().len(),
            64 * (i / 4096) <= self.layers@[k].entries().len(),
    {
        assert(self.layers@[k].wf());
        if k + 1 < self.layers@.len() {
            assert(self.layers@[k + 1]@.len() == cache_len(self.layers@[k]@.len() as int));
        }
    }

    /// Setting a bit of layer `k` leaves every other group of that layer as it was.
    proof fn lemma_set_keeps_other_groups(&self, prev: Self, k: int, i: int)
        requires
            prev.wf(),
            k == 0,
            0 <= i < prev.layers@[k]@.len(),
            self.layers@.len() == prev.layers@.len(),
            self.alloc == prev.alloc,
            self.layers@[k]@ == prev.layers@[k]@.update(i, true),
            self.layers@[k].wf(),
            forall|j: int| 0 <= j < self.layers@.len() && j != k ==> self.layers@[j] == prev.layers@[j],
        ensures
            self.wf_except(k, i / 4096),
    {
        assert forall|kk: int, g: int|
            0 <= kk < self.layers@.len() - 1 && 0 <= g < self.layers@[kk + 1]@.len() && !(kk == k
                && g == i / 4096) implies #[trigger] self.cache_ok(kk, g) by {
            assert(prev.cache_ok(kk, g));
            if kk == k {
                self.lemma_same_group_any(prev.layers@[k]@, self.layers@[k]@, i, g);
            }
        }
        assert forall|j: int| 0 <= j < self.layers@.len() implies (#[trigger] self.layers@[j]).wf() by {
        }
    }

    /// Clearing a bit of layer `k` leaves every other group of that layer as it was.
    proof fn lemma_clear_keeps_other_groups(&self, prev: Self, k: int, i: int)
        requires
            prev.wf(),
            k == 0,
            0 <= i < prev.layers@[k]@.len(),
            self.layers@.len() == prev.layers@.len(),
            self.alloc == prev.alloc,
            self.layers@[k]@ == prev.layers@[k]@.update(i, false),
            self.layers@[k].wf(),
            forall|j: int| 0 <= j < self.layers@.len() && j != k ==> self.layers@[j] == prev.layers@[j],
        ensures
            self.wf_except(k, i / 4096),
            k + 1 < self.layers@.len() && prev.layers@[k]@[i] ==> self.layers@[k + 1]@[i / 4096],
    {
        assert forall|kk: int, g: int|
            0 <= kk < self.layers@.len() - 1 && 0 <= g < self.layers@[kk + 1]@.len() && !(kk == k
                && g == i / 4096) implies #[trigger] self.cache_ok(kk, g) by {
            assert(prev.cache_ok(kk, g));
            if kk == k {
                self.lemma_same_group_any(prev.layers@[k]@, self.layers@[k]@, i, g);
            }
        }
        assert forall|j: int| 0 <= j < self.layers@.len() implies (#[trigger] self.layers@[j]).wf() by {
        }
        if k + 1 < self.layers@.len() && prev.layers@[k]@[i] {
            prev.lemma_group_covers_word(k, i);
            assert(prev.cache_ok(k, i / 4096));
        }
    }

    /// Changing bit `i` does not change whether another group holds a set bit.
    proof fn lemma_same_group_any(&self, a: Seq<bool>, b: Seq<bool>, i: int, g: int)
        requires
            a.len() == b.len(),
            0 <= i < a.len(),
            forall|j: int| 0 <= j < a.len() && j != i ==> a[j] == b[j],
            g != i / 4096,
        ensures
            any_set(a, 4096 * g, 4096 * g + 4096) == any_set(b, 4096 * g, 4096 * g + 4096),
    {
        if any_set(a, 4096 * g, 4096 * g + 4096) {
            let j = choose|j: int| 4096 * g <= j < 4096 * g + 4096 && 0 <= j < a.len() && #[trigger] a[j];
            assert(b[j]);
        }
        if any_set(b, 4096 * g, 4096 * g + 4096) {
            let j = choose|j: int| 4096 * g <= j < 4096 * g + 4096 && 0 <= j < b.len() && #[trigger] b[j];
            assert(a[j]);
        }
    }

    /// When the summary bit of the group of a set bit is already set, that group is
    /// summarised correctly.
    proof fn lemma_cache_ok_when_set(&self, k: int, i: int)
        requires
            self.wf_except(k, i / 4096),
            0 <= k < self.layers@.len(),
            0 <= i < self.layers@[k]@.len(),
            self.layers@[k]@[i],
            k + 1 < self.layers@.len() ==> self.layers@[k + 1]@[i / 4096],
        ensures
            self.wf(),
    {
        if k + 1 < self.layers@.len() {
            assert(any_set(self.layers@[k]@, 4096 * (i / 4096), 4096 * (i / 4096) + 4096));
            assert(self.cache_ok(k, i / 4096));
        }
    }

    /// After setting the summary bit of the group of set bit `i` of layer `k`, only the
    /// group above it may be summarised wrongly.
    proof fn lemma_after_upper_set(&self, mid: Self, k: int, i: int)
        requires
            mid.wf_except(k, i / 4096),
            0 <= k < mid.layers@.len() - 1,
            0 <= i < mid.layers@[k]@.len(),
            mid.layers@[k]@[i],
            i / 4096 < mid.layers@[k + 1]@.len(),
            self.layers@.len() == mid.layers@.len(),
            self.alloc == mid.alloc,
            self.layers@[k + 1]@ == mid.layers@[k + 1]@.update(i / 4096, true),
            self.layers@[k + 1].wf(),
            forall|j: int| 0 <= j < self.layers@.len() && j != k + 1 ==> self.layers@[j] == mid.layers@[j],
        ensures
            self.wf_except(k + 1, (i / 4096) / 4096),
    {
        let g0 = i / 4096;
        assert forall|j: int| 0 <= j < self.layers@.len() implies (#[trigger] self.layers@[j]).wf() by {
        }
        assert forall|kk: int, g: int|
            0 <= kk < self.layers@.len() - 1 && 0 <= g < self.layers@[kk + 1]@.len() && !(kk == k
                + 1 && g == g0 / 4096) implies #[trigger] self.cache_ok(kk, g) by {
            if kk == k && g == g0 {
                assert(any_set(self.layers@[k]@, 4096 * g0, 4096 * g0 + 4096));
            } else {
                assert(mid.cache_ok(kk, g));
                if kk == k + 1 {
                    self.lemma_same_group_any(mid.layers@[k + 1]@, self.layers@[k + 1]@, g0, g);
                }
            }
        }
    }

    /// After clearing the summary bit of an empty group, only the group above it may be
    /// summarised wrongly, and its summary bit is still set.
    proof fn lemma_after_upper_clear(&self, mid: Self, k: int, i: int)
        requires
            mid.wf_except(k, i / 4096),
            0 <= k < mid.layers@.len() - 1,
            0 <= i < mid.layers@[k]@.len(),
            !any_set(mid.layers@[k]@, 4096 * (i / 4096), 4096 * (i / 4096) + 4096),
            i / 4096 < mid.layers@[k + 1]@.len(),
            self.layers@.len() == mid.layers@.len(),
            self.alloc == mid.alloc,
            self.layers@[k + 1]@ == mid.layers@[k + 1]@.update(i / 4096, false),
            self.layers@[k + 1].wf(),
            forall|j: int| 0 <= j < self.layers@.len() && j != k + 1 ==> self.layers@[j] == mid.layers@[j],
        ensures
            self.wf_except(k + 1, (i / 4096) / 4096),
    {
        let g0 = i / 4096;
        assert forall|j: int| 0 <= j < self.layers@.len() implies (#[trigger] self.layers@[j]).wf() by {
        }
        assert forall|kk: int, g: int|
            0 <= kk < self.layers@.len() - 1 && 0 <= g < self.layers@[kk + 1]@.len() && !(kk == k
                + 1 && g == g0 / 4096) implies #[trigger] self.cache_ok(kk, g) by {
            if kk == k && g == g0 {
            } else {
                assert(mid.cache_ok(kk, g));
                if kk == k + 1 {
                    self.lemma_same_group_any(mid.layers@[k + 1]@, self.layers@[k + 1]@, g0, g);
                }
            }
        }
    }

    /// A layer holds a set bit exactly when the layer below it does.
    proof fn lemma_layer_any(&self, k: int)
        requires
            self.wf(),
            0 <= k < self.layers@.len() - 1,
        ensures
            any_set(self.layers@[k + 1]@, 0, self.layers@[k + 1]@.len() as int) == any_set(
                self.layers@[k]@,
                0,
                self.layers@[k]@.len() as int,
            ),
    {
        let lo = self.layers@[k]@;
        let hi = self.layers@[k + 1]@;
        if any_set(lo, 0, lo.len() as int) {
            let i = choose|i: int| 0 <= i < lo.len() && #[trigger] lo[i];
            self.lemma_group_covers_word(k, i);
            assert(self.cache_ok(k, i / 4096));
            assert(hi[i / 4096]);
        }
        if any_set(hi, 0, hi.len() as int) {
            let g = choose|g: int| 0 <= g < hi.len() && #[trigger] hi[g];
            assert(self.cache_ok(k, g));
            let i = choose|i: int| 4096 * g <= i < 4096 * g + 4096 && 0 <= i < lo.len() && #[trigger] lo[i];
        }
    }

    /// Layer `k` holds a set bit exactly when the free bits do.
    proof fn lemma_top_empty_iff(&self, k: int)
        requires
            self.wf(),
            0 <= k < self.layers@.len(),
        ensures
            any_set(self.layers@[k]@, 0, self.layers@[k]@.len() as int) == any_set(
                self.free_bits(),
                0,
                self.free_bits().len() as int,
            ),
        decreases k,
    {
        if k > 0 {
            self.lemma_layer_any(k - 1);
            self.lemma_top_empty_iff(k - 1);
        }
    }

    /// With no free bit, there is nothing to find.
    proof fn lemma_none_free(&self)
        requires
            self.wf(),
            !any_set(self.free_bits(), 0, self.free_bits().len() as int),
        ensures
            first_set_from(self.free_bits(), 0, None),
    {
        assert forall|j: int| 0 <= j < self.free_bits().len() implies !#[trigger] self.free_bits()[j] by {
        }
    }

    /// If bit `found` of layer `k` is its lowest set bit, layer `k - 1` has no set bit
    /// below `4096 * found` and holds a set bit exactly when layer `k` does.
    proof fn lemma_descend(&self, k: int, found: int)
        requires
            self.wf(),
            1 <= k < self.layers@.len(),
            0 <= found < self.layers@[k]@.len(),
            self.layers@[k]@[found],
            forall|j: int| 0 <= j < found ==> !#[trigger] self.layers@[k]@[j],
        ensures
            forall|j: int|
                0 <= j < 64 * (found * 64) && j < self.layers@[k - 1]@.len()
                    ==> !#[trigger] self.layers@[k - 1]@[j],
            any_set(self.layers@[k - 1]@, 0, self.layers@[k - 1]@.len() as int) == any_set(
                self.free_bits(),
                0,
                self.free_bits().len() as int,
            ),
    {
        self.lemma_top_empty_iff(k - 1);
        assert forall|j: int|
            0 <= j < 64 * (found * 64) && j < self.layers@[k - 1]@.len() implies !#[trigger] self.layers@[k
            - 1]@[j] by {
            self.lemma_group_covers_word(k - 1, j);
            assert(self.cache_ok(k - 1, j / 4096));
            if self.layers@[k - 1]@[j] {
                assert(any_set(self.layers@[k - 1]@, 4096 * (j / 4096), 4096 * (j / 4096) + 4096));
                assert(self.layers@[k]@[j / 4096]);
            }
        }
    }
}

/// The summary layers never take a negative number of bytes.
pub proof fn lemma_cache_layers_bytes_nonneg(len: int, count: nat)
    requires
        len >= 0,
    ensures
        cache_layers_bytes(len, count) >= 0,
    decreases count,
{
    if count > 0 {
        lemma_cache_layers_bytes_nonneg(cache_len(len), (count - 1) as nat);
    }
}

/// Placement of one layer inside a buddy bitmap's memory.
#[derive(Clone, Copy, Debug)]
struct LayerLayout {
    layout: BitmapLayout,
    offset: usize,
}

/// Sizes of the layers of a buddy bitmap and the memory they take.
#[derive(Clone, Copy, Debug)]
pub struct BuddyBitmapLayout {
    pub layout: ByteLayout,
    layers: [Option<LayerLayout>; 5],
    num_layers: usize,
}

impl BuddyBitmapLayout {
    /// Number of blocks described.
    pub closed spec fn len(&self) -> usize {
        self.layers@[0]->Some_0.layout.len()
    }

    /// Length of layer `k`.
    pub closed spec fn layer_len(&self, k: int) -> usize {
        self.layers@[k]->Some_0.layout.len()
    }

    /// Bytes taken by the whole bitmap.
    pub closed spec fn size(&self) -> usize {
        self.layout.size
    }

    /// Number of layers.
    pub closed spec fn layer_count(&self) -> int {
        self.num_layers as int
    }

    /// Layer `k` is described.
    pub closed spec fn has_layer(&self, k: int) -> bool {
        self.layers@[k] is Some
    }

    /// Bytes taken by the whole bitmap, with their alignment.
    pub fn bytes(&self) -> (r: ByteLayout)
        ensures
            r.size == self.size(),
            r.wf() == self.byte_layout_ok(),
            self.wf() ==> r.wf(),
    {
        self.layout
    }

    /// The overall layout is 8-aligned and fits the address space.
    pub closed spec fn byte_layout_ok(&self) -> bool {
        self.layout.wf()
    }

    /// Every described layer is present and sized from the one below it.
    pub closed spec fn wf(&self) -> bool {
        &&& 1 <= self.num_layers <= MAX_LAYERS
        &&& forall|k: int|
            0 <= k < self.num_layers ==> (#[trigger] self.layers@[k]) is Some
                && self.layers@[k]->Some_0.layout.wf()
        &&& forall|k: int|
            1 <= k < self.num_layers ==> (#[trigger] self.layers@[k])->Some_0.layout.len()
                == cache_len(self.layers@[k - 1]->Some_0.layout.len() as int)
        &&& self.layout.wf()
    }

    /// Layout of a buddy bitmap of `len` blocks: one summary layer per factor of 4096 in
    /// `len` (at least one layer, at most five), their records, and the allocated bits.
    /// Fails exactly when the whole does not fit in the address space.
    pub fn new(len: usize) -> (r: Result<Self, LayoutError>)
        requires
            1 <= len,
            len + 64 <= usize::MAX,
        ensures
            match r {
                Ok(l) => {
                    &&& l.wf()
                    &&& l.len() == len
                    &&& l.size() == buddy_bitmap_bytes(len as nat)
                    &&& l.layer_count() == buddy_layer_count(len as nat)
                    &&& forall|k: int| 0 <= k < MAX_LAYERS ==> (#[trigger] l.has_layer(k) <==> k < l.layer_count())
                    &&& forall|k: int|
                        0 <= k < l.layer_count() ==> #[trigger] l.layer_len(k) == layer_len_for(len as int, k as nat)
                },
                Err(_) => buddy_bitmap_bytes(len as nat) > max_layout_size(),
            },
    {
        let log = ilog_ceil(CACHE_ENTRY_BITS, len);
        let mut num_layers = if log > 1 {
            log
        } else {
            1
        };
        if num_layers > MAX_LAYERS {
            num_layers = MAX_LAYERS;
        }
        let ghost total = buddy_bitmap_bytes(len as nat);
        assert(num_layers == buddy_layer_count(len as nat));
        proof {
            lemma_cache_layers_bytes_nonneg(len as int, (num_layers - 1) as nat);
        }
        let layers_layout = match ByteLayout::array(BITMAP_RECORD_BYTES, num_layers + 1) {
            Ok(l) => l,
            Err(e) => return Err(e),
        };
        let main_layer_layout = match BitmapLayout::new(len) {
            Ok(l) => l,
            Err(e) => return Err(e),
        };
        let (combined, offset) = match layers_layout.extend(main_layer_layout.bytes()) {
            Ok(p) => p,
            Err(e) => return Err(e),
        };
        // The allocated bits follow the free bits.
        let (mut combined_layout, _) = match combined.extend(main_layer_layout.bytes()) {
            Ok(p) => p,
            Err(e) => return Err(e),
        };
        let mut layers: [Option<LayerLayout>; 5] = [None, None, None, None, None];
        layers[0] = Some(LayerLayout { layout: main_layer_layout, offset });
        let mut cache_layer_entries = Self::cache_entries_from_entries(len);
        let mut layer: usize = 1;
        while layer < num_layers
            invariant
                1 <= layer <= num_layers <= MAX_LAYERS,
                layers@.len() == 5,
                combined_layout.wf(),
                forall|k: int|
                    0 <= k < layer ==> (#[trigger] layers@[k]) is Some
                        && layers@[k]->Some_0.layout.wf(),
                layers@[0]->Some_0.layout.len() == len,
                forall|k: int|
                    1 <= k < layer ==> (#[trigger] layers@[k])->Some_0.layout.len() == cache_len(
                        layers@[k - 1]->Some_0.layout.len() as int,
                    ),
                forall|k: int| layer <= k < 5 ==> (#[trigger] layers@[k]) is None,
                forall|k: int|
                    0 <= k < layer ==> (#[trigger] layers@[k])->Some_0.layout.len() == layer_len_for(len as int, k as nat),
                cache_layer_entries == cache_len(layers@[layer - 1]->Some_0.layout.len() as int),
                layers@[layer - 1]->Some_0.layout.len() <= len,
                len + 64 <= usize::MAX,
                total == buddy_bitmap_bytes(len as nat),
                combined_layout.size + cache_layers_bytes(
                    layers@[layer - 1]->Some_0.layout.len() as int,
                    (num_layers - layer) as nat,
                ) == total,
                cache_layers_bytes(
                    layers@[layer - 1]->Some_0.layout.len() as int,
                    (num_layers - layer) as nat,
                ) >= 0,
            decreases num_layers - layer,
        {
            let ghost prev_len = layers@[layer - 1]->Some_0.layout.len();
            proof {
                lemma_cache_layers_bytes_nonneg(
                    cache_len(prev_len as int),
                    (num_layers - layer - 1) as nat,
                );
                assert(cache_layers_bytes(prev_len as int, (num_layers - layer) as nat)
                    == bitmap_bytes(cache_len(prev_len as int)) + cache_layers_bytes(
                    cache_len(prev_len as int),
                    (num_layers - layer - 1) as nat,
                ));
            }
            let cache_layer_layout = match BitmapLayout::new(cache_layer_entries) {
                Ok(l) => l,
                Err(e) => return Err(e),
            };
            let cache_bytes = cache_layer_layout.bytes();
            let (layout, offset) = match combined_layout.extend(cache_bytes) {
                Ok(p) => p,
                Err(e) => return Err(e),
            };
            layers[layer] = Some(LayerLayout { layout: cache_layer_layout, offset });
            combined_layout = layout;
            cache_layer_entries = Self::cache_entries_from_entries(cache_layer_entries);
            layer = layer + 1;
        }
        Ok(BuddyBitmapLayout { layout: combined_layout, layers, num_layers })
    }

    /// Length of the layer that summarises `bits` bits.
    fn cache_entries_from_entries(bits: usize) -> (r: usize)
        ensures
            r == cache_len(bits as int),
    {
        bits / CACHE_ENTRY_BITS + if bits % CACHE_ENTRY_BITS != 0 {
            1
        } else {
            0
        }
    }
}

} // verus!
