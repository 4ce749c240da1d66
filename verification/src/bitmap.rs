//! A fixed-length bitmap stored in 64-bit words; a set bit marks a free slot.
use crate::mem_layout::{ByteLayout, LayoutError};
use crate::word::{
    bit, lemma_clear_bit, lemma_mask_tests_bit, lemma_set_bit, lemma_trailing_zeros,
    lemma_zero_iff_no_bits, lemma_zero_word,
};
use vstd::prelude::*;

verus! {

/// Number of bits held by one word of a bitmap.
pub const ENTRY_BITS: usize = 64;

/// Number of words needed to hold `len` bits.
pub open spec fn entries_for(len: int) -> int {
    (len + 63) / 64
}

/// Bytes taken by the words of a bitmap of `len` bits.
pub open spec fn bitmap_bytes(len: int) -> int {
    8 * entries_for(len)
}

/// Bit `i` of a sequence of words.
pub open spec fn word_bit(words: Seq<u64>, i: int) -> bool {
    bit(words[i / 64], (i % 64) as u64)
}

/// Whether some bit of `bits` in `[lo, hi)` is set.
pub open spec fn any_set(bits: Seq<bool>, lo: int, hi: int) -> bool {
    exists|i: int| lo <= i < hi && 0 <= i < bits.len() && #[trigger] bits[i]
}

/// The lowest set bit of `bits` at or after `from`, if any.
pub open spec fn first_set_from(bits: Seq<bool>, from: int, r: Option<usize>) -> bool {
    match r {
        Some(i) => {
            &&& from <= i < bits.len()
            &&& bits[i as int]
            &&& forall|j: int| from <= j < i ==> !#[trigger] bits[j]
        },
        None => forall|j: int| from <= j < bits.len() ==> !#[trigger] bits[j],
    }
}

/// Bit `b` after the writes `writes` to `start`, in order: each write sets bit `.0` to `.1`,
/// or, where `.0` is negative, touches no bit. The last write to `b` decides; with none,
/// the bit keeps its value.
pub open spec fn after_writes(start: Seq<bool>, writes: Seq<(int, bool)>, b: int) -> bool
    decreases writes.len(),
{
    if writes.len() == 0 {
        start[b]
    } else if writes.last().0 == b {
        writes.last().1
    } else {
        after_writes(start, writes.drop_last(), b)
    }
}

/// A run of bit writes, as `set` and `clear` and the operations that leave these bits alone
/// perform them (`trace[i + 1]` is `trace[i]` after write `i`), keeps the number of bits,
/// and leaves every bit as the last write to it set it, or as it was when none did.
pub proof fn lemma_writes(trace: Seq<Seq<bool>>, writes: Seq<(int, bool)>)
    requires
        trace.len() == writes.len() + 1,
        forall|i: int|
            0 <= i < writes.len() ==> (#[trigger] trace[i + 1]) == if writes[i].0 < 0 {
                trace[i]
            } else {
                trace[i].update(writes[i].0, writes[i].1)
            },
        forall|i: int| 0 <= i < writes.len() ==> #[trigger] writes[i].0 < trace[i].len(),
    ensures
        trace.last().len() == trace[0].len(),
        forall|b: int| 0 <= b < trace[0].len() ==> #[trigger] trace.last()[b] == after_writes(trace[0], writes, b),
    decreases writes.len(),
{
    if writes.len() > 0 {
        let n = writes.len() - 1;
        let t = trace.drop_last();
        let w = writes.drop_last();
        assert forall|i: int| 0 <= i < w.len() implies (#[trigger] t[i + 1]) == if w[i].0 < 0 {
            t[i]
        } else {
            t[i].update(w[i].0, w[i].1)
        } by {
            assert(t[i + 1] == trace[i + 1]);
        }
        assert forall|i: int| 0 <= i < w.len() implies #[trigger] w[i].0 < t[i].len() by {
            assert(w[i] == writes[i]);
        }
        lemma_writes(t, w);
        assert(trace[n + 1] == if writes[n].0 < 0 { trace[n] } else { trace[n].update(writes[n].0, writes[n].1) });
        assert(t.last() == trace[n]);
    }
}

/// A fixed number of bits, packed into words from the least significant bit up.
#[derive(Debug)]
pub struct Bitmap {
    vec: Vec<u64>,
    len: usize,
}

impl View for Bitmap {
    type V = Seq<bool>;

    /// Bit `i` of the bitmap, for every `i` below its length.
    closed spec fn view(&self) -> Seq<bool> {
        Seq::new(self.len as nat, |i: int| word_bit(self.vec@, i))
    }
}

impl Bitmap {
    /// The words backing the bitmap.
    pub closed spec fn entries(&self) -> Seq<u64> {
        self.vec@
    }

    /// Every bit past the length is clear.
    pub closed spec fn tail_clear(&self) -> bool {
        forall|i: int|
            #![trigger word_bit(self.vec@, i)]
            self.len <= i < 64 * self.vec@.len() ==> !word_bit(self.vec@, i)
    }

    /// Enough words for the length, with every bit past the length clear.
    pub open spec fn wf(&self) -> bool {
        &&& self.entries().len() == entries_for(self@.len() as int)
        &&& self@.len() + 64 <= usize::MAX
        &&& self.tail_clear()
    }

    /// A bitmap of `layout`'s length with every bit clear.
    pub fn from_layout(layout: BitmapLayout) -> (r: Self)
        requires
            layout.wf(),
        ensures
            r.wf(),
            r@ == Seq::new(layout.len() as nat, |i: int| false),
    {
        let mut vec: Vec<u64> = Vec::new();
        let mut k: usize = 0;
        while k < layout.entries
            invariant
                k <= layout.entries,
                vec@.len() == k,
                forall|w: int| 0 <= w < k ==> vec@[w] == 0u64,
            decreases layout.entries - k,
        {
            vec.push(0u64);
            k = k + 1;
        }
        let r = Bitmap { vec, len: layout.len };
        proof {
            lemma_zero_word();
            assert forall|i: int| 0 <= i < 64 * r.vec@.len() implies !#[trigger] word_bit(
                r.vec@,
                i,
            ) by {
                assert(r.vec@[i / 64] == 0u64);
            }
            assert(r@ =~= Seq::new(layout.len() as nat, |i: int| false));
        }
        r
    }

    /// Number of bits.
    pub fn len(&self) -> (r: usize)
        ensures
            r == self@.len(),
    {
        self.len
    }

    /// Number of words.
    pub fn entry_count(&self) -> (r: usize)
        requires
            self.wf(),
        ensures
            r == self.entries().len(),
    {
        self.vec.len()
    }

    /// Raw word `entry_index` of the bitmap: its bit `k` is bit `64 * entry_index + k` of
    /// the bitmap, and its bits past the bitmap's length are clear.
    pub fn get_entry(&self, entry_index: usize) -> (r: u64)
        requires
            self.wf(),
            entry_index < self.entries().len(),
        ensures
            r == self.entries()[entry_index as int],
            forall|k: u64|
                k < 64 ==> #[trigger] bit(r, k) == (64 * entry_index + k < self@.len() && self@[64
                    * entry_index + k]),
    {
        let r = self.vec[entry_index];
        proof {
            assert forall|k: u64| k < 64 implies #[trigger] bit(r, k) == (64 * entry_index + k < self@.len()
                && self@[64 * entry_index + k]) by {
                let i = 64 * entry_index + k;
                assert(i / 64 == entry_index && i % 64 == k) by (nonlinear_arith)
                    requires
                        i == 64 * entry_index + k,
                        k < 64,
                ;
                assert(word_bit(self.vec@, i) == bit(r, k));
                if i >= self.len {
                    assert(i < 64 * self.vec@.len()) by (nonlinear_arith)
                        requires
                            i == 64 * entry_index + k,
                            k < 64,
                            entry_index < self.vec@.len(),
                    ;
                    assert(!word_bit(self.vec@, i));
                }
            }
        }
        r
    }

    /// Bit `index`.
    pub fn get(&self, index: usize) -> (r: bool)
        requires
            self.wf(),
            index < self@.len(),
        ensures
            r == self@[index as int],
    {
        let entry_index = Self::entry_index(index);
        let bit_index = Self::bit_index(index);
        proof {
            lemma_mask_tests_bit(self.vec@[entry_index as int], bit_index as u64);
        }
        self.vec[entry_index] & (1u64 << (bit_index as u64)) != 0
    }

    /// Bit `index`, or `None` past the end.
    pub fn get_checked(&self, index: usize) -> (r: Option<bool>)
        requires
            self.wf(),
        ensures
            index < self@.len() ==> r == Some(self@[index as int]),
            index >= self@.len() ==> r.is_none(),
    {
        if index >= self.len {
            return None;
        }
        Some(self.get(index))
    }

    /// Sets bit `index`.
    pub fn set(&mut self, index: usize)
        requires
            old(self).wf(),
            index < old(self)@.len(),
        ensures
            final(self).wf(),
            final(self)@ == old(self)@.update(index as int, true),
            final(self).entries().len() == old(self).entries().len(),
            forall|w: int|
                0 <= w < old(self).entries().len() && w != index / 64 ==> final(self).entries()[w]
                    == old(self).entries()[w],
    {
        let entry_index = Self::entry_index(index);
        let bit_index = Self::bit_index(index);
        let ghost old_vec = self.vec@;
        let w = self.vec[entry_index] | (1u64 << (bit_index as u64));
        self.vec.set(entry_index, w);
        proof {
            lemma_set_bit(old_vec[entry_index as int], bit_index as u64);
            assert forall|i: int| 0 <= i < 64 * self.vec@.len() implies #[trigger] word_bit(
                self.vec@,
                i,
            ) == (i == index || word_bit(old_vec, i)) by {
                if i / 64 == entry_index as int {
                    assert(bit(w, (i % 64) as u64) == ((i % 64) as u64 == bit_index as u64 || bit(
                        old_vec[entry_index as int],
                        (i % 64) as u64,
                    )));
                }
            }
            assert(self@ =~= old(self)@.update(index as int, true));
        }
    }

    /// Clears bit `index`.
    pub fn clear(&mut self, index: usize)
        requires
            old(self).wf(),
            index < old(self)@.len(),
        ensures
            final(self).wf(),
            final(self)@ == old(self)@.update(index as int, false),
            final(self).entries().len() == old(self).entries().len(),
            forall|w: int|
                0 <= w < old(self).entries().len() && w != index / 64 ==> final(self).entries()[w]
                    == old(self).entries()[w],
    {
        let entry_index = Self::entry_index(index);
        let bit_index = Self::bit_index(index);
        let ghost old_vec = self.vec@;
        let w = self.vec[entry_index] & !(1u64 << (bit_index as u64));
        self.vec.set(entry_index, w);
        proof {
            lemma_clear_bit(old_vec[entry_index as int], bit_index as u64);
            assert forall|i: int| 0 <= i < 64 * self.vec@.len() implies #[trigger] word_bit(
                self.vec@,
                i,
            ) == (i != index && word_bit(old_vec, i)) by {
                if i / 64 == entry_index as int {
                    assert(bit(w, (i % 64) as u64) == ((i % 64) as u64 != bit_index as u64 && bit(
                        old_vec[entry_index as int],
                        (i % 64) as u64,
                    )));
                }
            }
            assert(self@ =~= old(self)@.update(index as int, false));
        }
    }

    /// Index of the lowest set bit in word `start_entry_index` or any later word.
    pub fn find_first_free_index_from(&self, start_entry_index: usize) -> (r: Option<usize>)
        requires
            self.wf(),
        ensures
            first_set_from(self@, 64 * start_entry_index, r),
    {
        let mut entry_index = start_entry_index;
        while entry_index < self.vec.len()
            invariant
                self.wf(),
                start_entry_index <= entry_index,
                forall|j: int|
                    64 * start_entry_index <= j < 64 * entry_index && j < self.len ==> !#[trigger] self@[j],
            decreases self.vec.len() - entry_index,
        {
            let entry = self.get_entry(entry_index);
            proof {
                lemma_trailing_zeros(entry);
            }
            let bit_index = entry.trailing_zeros() as usize;
            if bit_index != ENTRY_BITS {
                let found_entry_index = ENTRY_BITS * entry_index + bit_index;
                proof {
                    assert(word_bit(self.vec@, found_entry_index as int));
                }
                // Bits past the length are always clear, so this always holds.
                if found_entry_index < self.len {
                    proof {
                        assert forall|j: int|
                            64 * start_entry_index <= j < found_entry_index implies !#[trigger] self@[j] by {
                            if j >= 64 * entry_index {
                                assert(!bit(entry, (j % 64) as u64));
                            }
                        }
                    }
                    return Some(found_entry_index);
                }
            } else {
                proof {
                    lemma_zero_iff_no_bits(entry);
                    assert forall|j: int|
                        64 * start_entry_index <= j < 64 * (entry_index + 1) && j < self.len implies !#[trigger] self@[j] by {
                        if j >= 64 * entry_index {
                            assert(!bit(entry, (j % 64) as u64));
                        }
                    }
                }
            }
            entry_index = entry_index + 1;
        }
        None
    }

    /// Word holding bit `bit_index`.
    pub fn entry_index(bit_index: usize) -> (r: usize)
        ensures
            r == bit_index / 64,
    {
        bit_index / ENTRY_BITS
    }

    /// Position of bit `bit_index` within its word.
    fn bit_index(bit_index: usize) -> (r: usize)
        ensures
            r == bit_index % 64,
    {
        bit_index % ENTRY_BITS
    }

    /// A word is nonzero exactly when one of the bitmap's bits that it holds is set.
    pub proof fn lemma_entry_nonzero(&self, w: int)
        requires
            self.wf(),
            0 <= w < self.entries().len(),
        ensures
            (self.entries()[w] != 0) == any_set(self@, 64 * w, 64 * w + 64),
    {
        let e = self.vec@[w];
        lemma_zero_iff_no_bits(e);
        if e != 0 {
            let k = choose|k: u64| k < 64 && #[trigger] bit(e, k);
            let i = 64 * w + k;
            assert(word_bit(self.vec@, i));
            assert(self@[i]);
        }
        if any_set(self@, 64 * w, 64 * w + 64) {
            let i = choose|i: int| 64 * w <= i < 64 * w + 64 && 0 <= i < self@.len() && #[trigger] self@[i];
            assert(bit(e, (i % 64) as u64));
        }
    }
}

/// Length and word count of a bitmap, with the size of its words in memory.
#[derive(Clone, Copy, Debug)]
pub struct BitmapLayout {
    pub layout: ByteLayout,
    len: usize,
    entries: usize,
}

impl BitmapLayout {
    /// Word count and byte size agree with the length.
    pub open spec fn wf(&self) -> bool {
        &&& self.entries() == entries_for(self.len() as int)
        &&& self.len() + 64 <= usize::MAX
        &&& self.byte_layout().wf()
        &&& self.byte_layout().size == 8 * self.entries()
    }

    /// Bytes taken by the words.
    pub closed spec fn byte_layout(&self) -> ByteLayout {
        self.layout
    }

    /// Size and alignment of the words.
    pub fn bytes(&self) -> (r: ByteLayout)
        ensures
            r == self.byte_layout(),
    {
        self.layout
    }

    /// Number of bits described.
    pub closed spec fn len(&self) -> usize {
        self.len
    }

    /// Number of words described.
    pub closed spec fn entries(&self) -> usize {
        self.entries
    }

    /// Layout of a bitmap of `len` bits; fails when its words do not fit in memory.
    pub fn new(len: usize) -> (r: Result<Self, LayoutError>)
        requires
            len + 64 <= usize::MAX,
        ensures
            match r {
                Ok(l) => l.wf() && l.len() == len && l.entries() == entries_for(len as int),
                Err(_) => 8 * entries_for(len as int) > crate::mem_layout::max_layout_size(),
            },
    {
        let entries = len / ENTRY_BITS + if len % ENTRY_BITS != 0 {
            1
        } else {
            0
        };
        match ByteLayout::array(8, entries) {
            Ok(layout) => Ok(BitmapLayout { layout, len, entries }),
            Err(e) => Err(e),
        }
    }
}

} // verus!
