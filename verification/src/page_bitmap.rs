//! A bitmap of pages or frames in use: a set bit marks a used page, and the bits past
//! the length are kept set so that they never look free.
use crate::bitmap::{entries_for, word_bit};
use crate::word::{bit, lemma_clear_bit, lemma_mask_tests_bit, lemma_set_bit};
use vstd::prelude::*;

verus! {

/// Bit `r` is the lowest clear bit of `e`.
pub open spec fn lowest_clear(e: u64, r: int) -> bool {
    &&& 0 <= r < 64
    &&& !bit(e, r as u64)
    &&& forall|k: u64| k < r ==> #[trigger] bit(e, k)
}

/// In a byte, masking with a single-bit mask tests that bit.
proof fn lemma_byte_mask(e: u8, k: u32)
    requires
        k < 8,
    ensures
        ((e & (1u8 << k)) == 0) == !bit(e as u64, k as u64),
{
    assert(((e & (1u8 << k)) == 0) == !(((e as u64) >> (k as u64)) & 1u64 == 1u64)) by (bit_vector)
        requires
            k < 8,
    ;
}

/// The low half of a 16-bit word, as a byte, has the word's low bits.
proof fn lemma_low_byte(e: u16)
    ensures
        forall|k: u64| k < 8 ==> #[trigger] bit((e as u8) as u64, k) == bit(e as u64, k),
        (e & 0xff != 0xff) == ((e as u8) != 0xffu8),
{
    assert forall|k: u64| k < 8 implies #[trigger] bit((e as u8) as u64, k) == bit(e as u64, k) by {
        assert(bit((e as u8) as u64, k) == bit(e as u64, k)) by (bit_vector)
            requires
                k < 8,
        ;
    }
    assert((e & 0xff != 0xff) == ((e as u8) != 0xffu8)) by (bit_vector);
}

/// The high half of a 16-bit word whose low byte is full.
proof fn lemma_high_byte(e: u16)
    requires
        e & 0xff == 0xff,
        e != 0xffff,
    ensures
        forall|k: u64| k < 8 ==> #[trigger] bit(e as u64, k),
        forall|k: u64| k < 8 ==> #[trigger] bit(((e >> 8u16) as u8) as u64, k) == bit(e as u64, (k + 8) as u64),
        ((e >> 8u16) as u8) != 0xffu8,
{
    assert forall|k: u64| k < 8 implies #[trigger] bit(e as u64, k) by {
        assert(bit(e as u64, k)) by (bit_vector)
            requires
                e & 0xff == 0xff,
                k < 8,
        ;
    }
    assert forall|k: u64| k < 8 implies #[trigger] bit(((e >> 8u16) as u8) as u64, k) == bit(e as u64, (k + 8) as u64) by {
        assert(bit(((e >> 8u16) as u8) as u64, k) == bit(e as u64, (k + 8) as u64)) by (bit_vector)
            requires
                k < 8,
        ;
    }
    assert(((e >> 8u16) as u8) != 0xffu8) by (bit_vector)
        requires
            e & 0xff == 0xff,
            e != 0xffff,
    ;
}

/// The low half of a 32-bit word, as a 16-bit word, has the word's low bits.
proof fn lemma_low_half(e: u32)
    ensures
        forall|k: u64| k < 16 ==> #[trigger] bit((e as u16) as u64, k) == bit(e as u64, k),
        (e & 0xffff != 0xffff) == ((e as u16) != 0xffffu16),
{
    assert forall|k: u64| k < 16 implies #[trigger] bit((e as u16) as u64, k) == bit(e as u64, k) by {
        assert(bit((e as u16) as u64, k) == bit(e as u64, k)) by (bit_vector)
            requires
                k < 16,
        ;
    }
    assert((e & 0xffff != 0xffff) == ((e as u16) != 0xffffu16)) by (bit_vector);
}

/// The high half of a 32-bit word whose low half is full.
proof fn lemma_high_half(e: u32)
    requires
        e & 0xffff == 0xffff,
        e != 0xffff_ffff,
    ensures
        forall|k: u64| k < 16 ==> #[trigger] bit(e as u64, k),
        forall|k: u64| k < 16 ==> #[trigger] bit(((e >> 16u32) as u16) as u64, k) == bit(e as u64, (k + 16) as u64),
        ((e >> 16u32) as u16) != 0xffffu16,
{
    assert forall|k: u64| k < 16 implies #[trigger] bit(e as u64, k) by {
        assert(bit(e as u64, k)) by (bit_vector)
            requires
                e & 0xffff == 0xffff,
                k < 16,
        ;
    }
    assert forall|k: u64| k < 16 implies #[trigger] bit(((e >> 16u32) as u16) as u64, k) == bit(e as u64, (k + 16) as u64) by {
        assert(bit(((e >> 16u32) as u16) as u64, k) == bit(e as u64, (k + 16) as u64)) by (bit_vector)
            requires
                k < 16,
        ;
    }
    assert(((e >> 16u32) as u16) != 0xffffu16) by (bit_vector)
        requires
            e & 0xffff == 0xffff,
            e != 0xffff_ffff,
    ;
}

/// The low half of a 64-bit word, as a 32-bit word, has the word's low bits.
proof fn lemma_low_word(e: u64)
    ensures
        forall|k: u64| k < 32 ==> #[trigger] bit((e as u32) as u64, k) == bit(e, k),
        (e & 0xffff_ffff != 0xffff_ffff) == ((e as u32) != 0xffff_ffffu32),
{
    assert forall|k: u64| k < 32 implies #[trigger] bit((e as u32) as u64, k) == bit(e, k) by {
        assert(bit((e as u32) as u64, k) == bit(e, k)) by (bit_vector)
            requires
                k < 32,
        ;
    }
    assert((e & 0xffff_ffff != 0xffff_ffff) == ((e as u32) != 0xffff_ffffu32)) by (bit_vector);
}

/// The high half of a 64-bit word whose low half is full.
proof fn lemma_high_word(e: u64)
    requires
        e & 0xffff_ffff == 0xffff_ffff,
        e != 0xffff_ffff_ffff_ffff,
    ensures
        forall|k: u64| k < 32 ==> #[trigger] bit(e, k),
        forall|k: u64| k < 32 ==> #[trigger] bit(((e >> 32u64) as u32) as u64, k) == bit(e, (k + 32) as u64),
        ((e >> 32u64) as u32) != 0xffff_ffffu32,
{
    assert forall|k: u64| k < 32 implies #[trigger] bit(e, k) by {
        assert(bit(e, k)) by (bit_vector)
            requires
                e & 0xffff_ffff == 0xffff_ffff,
                k < 32,
        ;
    }
    assert forall|k: u64| k < 32 implies #[trigger] bit(((e >> 32u64) as u32) as u64, k) == bit(e, (k + 32) as u64) by {
        assert(bit(((e >> 32u64) as u32) as u64, k) == bit(e, (k + 32) as u64)) by (bit_vector)
            requires
                k < 32,
        ;
    }
    assert(((e >> 32u64) as u32) != 0xffff_ffffu32) by (bit_vector)
        requires
            e & 0xffff_ffff == 0xffff_ffff,
            e != 0xffff_ffff_ffff_ffff,
    ;
}

/// A word whose bits from `s` up are set and whose bits below `s` are clear.
proof fn lemma_high_mask(s: u64)
    requires
        1 <= s < 64,
    ensures
        (1u64 << s) >= 1,
        forall|k: u64| k < 64 ==> #[trigger] bit(!(((1u64 << s) - 1u64) as u64), k) == (k >= s),
{
    assert((1u64 << s) >= 1) by (bit_vector)
        requires
            1 <= s < 64,
    ;
    assert forall|k: u64| k < 64 implies #[trigger] bit(!(((1u64 << s) - 1u64) as u64), k) == (k >= s) by {
        assert(bit(!(((1u64 << s) - 1u64) as u64), k) == (k >= s)) by (bit_vector)
            requires
                1 <= s < 64,
                k < 64,
        ;
    }
}

/// The all-ones word has every bit set.
proof fn lemma_full_word(e: u64)
    requires
        e == 0xffff_ffff_ffff_ffff,
    ensures
        forall|k: u64| k < 64 ==> #[trigger] bit(e, k),
{
    assert forall|k: u64| k < 64 implies #[trigger] bit(e, k) by {
        assert(bit(e, k)) by (bit_vector)
            requires
                e == 0xffff_ffff_ffff_ffff,
                k < 64,
        ;
    }
}

/// A byte with its eight bits set is full.
proof fn lemma_full_byte(e: u8)
    requires
        forall|k: u64| k < 8 ==> #[trigger] bit(e as u64, k),
    ensures
        e == 0xff,
{
    assert(bit(e as u64, 0) && bit(e as u64, 1) && bit(e as u64, 2) && bit(e as u64, 3));
    assert(bit(e as u64, 4) && bit(e as u64, 5) && bit(e as u64, 6) && bit(e as u64, 7));
    assert(e == 0xff) by (bit_vector)
        requires
            bit(e as u64, 0) && bit(e as u64, 1) && bit(e as u64, 2) && bit(e as u64, 3),
            bit(e as u64, 4) && bit(e as u64, 5) && bit(e as u64, 6) && bit(e as u64, 7),
    ;
}

/// A bitmap of used pages: bit `i` is set when page `i` is in use.
#[derive(Debug)]
pub struct Bitmap {
    vec: Vec<u64>,
    len: usize,
}

impl View for Bitmap {
    type V = Seq<bool>;

    /// Bit `i` of the bitmap, for every `i` below its length.
    closed spec fn view(&self) -> Seq<bool> {
        Seq::new(self.len as nat, |i: int| word_bit(self.vec@, i))
    }
}

impl Bitmap {
    /// Enough words for the length, with every bit past the length set.
    pub closed spec fn wf(&self) -> bool {
        &&& self.vec@.len() == entries_for(self.len as int)
        &&& self.len + 64 <= usize::MAX
        &&& forall|i: int|
            #![trigger word_bit(self.vec@, i)]
            self.len <= i < 64 * self.vec@.len() ==> word_bit(self.vec@, i)
    }

    /// The length of a well-formed bitmap leaves room for a word of bits.
    pub proof fn lemma_len_bound(&self)
        requires
            self.wf(),
        ensures
            self@.len() + 64 <= usize::MAX,
    {
    }

    /// A bitmap of `len` pages, none in use.
    pub fn new(len: usize) -> (r: Self)
        requires
            len + 64 <= usize::MAX,
        ensures
            r.wf(),
            r@ == Seq::new(len as nat, |i: int| false),
    {
        let vec_len = len / 64 + if len % 64 != 0 {
            1
        } else {
            0
        };
        let mut vec: Vec<u64> = Vec::new();
        let mut k: usize = 0;
        while k < vec_len
            invariant
                k <= vec_len,
                vec@.len() == k,
                forall|w: int| 0 <= w < k ==> vec@[w] == 0u64,
            decreases vec_len - k,
        {
            vec.push(0u64);
            k = k + 1;
        }
        proof {
            crate::word::lemma_zero_word();
        }
        let trailing_bits = vec_len * 64 - len;
        if trailing_bits > 0 {
            let s = (64 - trailing_bits) as u64;
            proof {
                lemma_high_mask(s);
            }
            let w = !((1u64 << s) - 1u64);
            let ghost before = vec@;
            vec.set(vec_len - 1, w);
            proof {
                lemma_high_mask(s);
                assert forall|i: int| 0 <= i < 64 * vec_len implies #[trigger] word_bit(vec@, i) == (i >= len) by {
                    if i / 64 == vec_len - 1 {
                        assert(bit(w, (i % 64) as u64) == ((i % 64) as u64 >= s));
                    } else {
                        assert(vec@[i / 64] == 0u64);
                    }
                }
            }
        } else {
            proof {
                assert forall|i: int| 0 <= i < 64 * vec_len implies !#[trigger] word_bit(vec@, i) by {
                    assert(vec@[i / 64] == 0u64);
                }
            }
        }
        let r = Bitmap { vec, len };
        proof {
            assert(r@ =~= Seq::new(len as nat, |i: int| false));
        }
        r
    }

    /// Bit `index`: whether page `index` is in use.
    pub fn get_bit(&self, index: usize) -> (r: bool)
        requires
            self.wf(),
            index < self@.len(),
        ensures
            r == self@[index as int],
    {
        let (entry_index, bit_index) = Self::indices(index);
        proof {
            lemma_mask_tests_bit(self.vec@[entry_index as int], bit_index as u64);
        }
        self.vec[entry_index] & (1u64 << (bit_index as u64)) != 0
    }

    /// Marks page `index` as in use.
    pub fn set_bit(&mut self, index: usize)
        requires
            old(self).wf(),
            index < old(self)@.len(),
        ensures
            final(self).wf(),
            final(self)@ == old(self)@.update(index as int, true),
    {
        let (entry_index, bit_index) = Self::indices(index);
        let ghost old_vec = self.vec@;
        let w = self.vec[entry_index] | (1u64 << (bit_index as u64));
        self.vec.set(entry_index, w);
        proof {
            lemma_set_bit(old_vec[entry_index as int], bit_index as u64);
            assert forall|i: int| 0 <= i < 64 * self.vec@.len() implies #[trigger] word_bit(self.vec@, i)
                == (i == index || word_bit(old_vec, i)) by {
                if i / 64 == entry_index as int {
                    assert(bit(w, (i % 64) as u64) == ((i % 64) as u64 == bit_index as u64 || bit(
                        old_vec[entry_index as int],
                        (i % 64) as u64,
                    )));
                }
            }
            assert(self@ =~= old(self)@.update(index as int, true));
        }
    }

    /// Marks page `index` as free.
    pub fn clear_bit(&mut self, index: usize)
        requires
            old(self).wf(),
            index < old(self)@.len(),
        ensures
            final(self).wf(),
            final(self)@ == old(self)@.update(index as int, false),
    {
        let (entry_index, bit_index) = Self::indices(index);
        let ghost old_vec = self.vec@;
        let w = self.vec[entry_index] & !(1u64 << (bit_index as u64));
        self.vec.set(entry_index, w);
        proof {
            lemma_clear_bit(old_vec[entry_index as int], bit_index as u64);
            assert forall|i: int| 0 <= i < 64 * self.vec@.len() implies #[trigger] word_bit(self.vec@, i)
                == (i != index && word_bit(old_vec, i)) by {
                if i / 64 == entry_index as int {
                    assert(bit(w, (i % 64) as u64) == ((i % 64) as u64 != bit_index as u64 && bit(
                        old_vec[entry_index as int],
                        (i % 64) as u64,
                    )));
                }
            }
            assert(self@ =~= old(self)@.update(index as int, false));
        }
    }

    /// The lowest free page, or `None` when every page is in use.
    pub fn find_free_index(&self) -> (r: Option<usize>)
        requires
            self.wf(),
        ensures
            match r {
                Some(i) => i < self@.len() && !self@[i as int] && forall|j: int| 0 <= j < i ==> #[trigger] self@[j],
                None => forall|j: int| 0 <= j < self@.len() ==> #[trigger] self@[j],
            },
    {
        let mut entry_index: usize = 0;
        while entry_index < self.vec.len()
            invariant
                self.wf(),
                entry_index <= self.vec@.len(),
                forall|j: int| 0 <= j < 64 * entry_index ==> #[trigger] word_bit(self.vec@, j),
            decreases self.vec@.len() - entry_index,
        {
            let entry = self.vec[entry_index];
            if entry != 0xffff_ffff_ffff_ffff {
                let index = Self::binary_bit_search_64(entry);
                let found = entry_index * 64 + index;
                proof {
                    assert(!word_bit(self.vec@, found as int));
                    assert forall|j: int| 0 <= j < found implies #[trigger] self@[j] by {
                        if j >= 64 * entry_index {
                            assert(bit(entry, (j % 64) as u64));
                        }
                        assert(word_bit(self.vec@, j));
                    }
                }
                return Some(found);
            }
            proof {
                lemma_full_word(entry);
                assert forall|j: int| 0 <= j < 64 * (entry_index + 1) implies #[trigger] word_bit(self.vec@, j) by {
                    if j >= 64 * entry_index {
                        assert(bit(entry, (j % 64) as u64));
                    }
                }
            }
            entry_index = entry_index + 1;
        }
        proof {
            assert forall|j: int| 0 <= j < self@.len() implies #[trigger] self@[j] by {
                assert(word_bit(self.vec@, j));
            }
        }
        None
    }

    /// Walks the bits from the first page on.
    pub fn iter(&self) -> (r: Iter<'_>)
        requires
            self.wf(),
        ensures
            r.bits() == self@,
            r.position() == 0,
            r.wf(),
    {
        Iter { bitmap: self, index: 0 }
    }

    /// Number of pages.
    pub fn len(&self) -> (r: usize)
        ensures
            r == self@.len(),
    {
        self.len
    }

    /// Index of the lowest clear bit of a word that is not full.
    fn binary_bit_search_64(entry: u64) -> (r: usize)
        requires
            entry != 0xffff_ffff_ffff_ffff,
        ensures
            lowest_clear(entry, r as int),
    {
        proof {
            lemma_low_word(entry);
        }
        if entry & 0xffff_ffff != 0xffff_ffff {
            let r = Self::binary_bit_search_32(entry as u32);
            proof {
                assert forall|k: u64| k < r implies #[trigger] bit(entry, k) by {
                    assert(bit((entry as u32) as u64, k));
                }
                assert(bit((entry as u32) as u64, r as u64) == bit(entry, r as u64));
            }
            r
        } else {
            proof {
                lemma_high_word(entry);
            }
            let r = Self::binary_bit_search_32((entry >> 32u64) as u32);
            proof {
                assert forall|k: u64| k < 32 + r implies #[trigger] bit(entry, k) by {
                    if k >= 32 {
                        assert(bit(((entry >> 32u64) as u32) as u64, (k - 32) as u64));
                    }
                }
                assert(bit(((entry >> 32u64) as u32) as u64, r as u64) == bit(entry, (r + 32) as u64));
            }
            32 + r
        }
    }

    /// Index of the lowest clear bit of a 32-bit word that is not full.
    fn binary_bit_search_32(entry: u32) -> (r: usize)
        requires
            entry != 0xffff_ffff,
        ensures
            r < 32,
            lowest_clear(entry as u64, r as int),
    {
        proof {
            lemma_low_half(entry);
        }
        if entry & 0xffff != 0xffff {
            let r = Self::binary_bit_search_16(entry as u16);
            proof {
                assert forall|k: u64| k < r implies #[trigger] bit(entry as u64, k) by {
                    assert(bit((entry as u16) as u64, k));
                }
                assert(bit((entry as u16) as u64, r as u64) == bit(entry as u64, r as u64));
            }
            r
        } else {
            proof {
                lemma_high_half(entry);
            }
            let r = Self::binary_bit_search_16((entry >> 16u32) as u16);
            proof {
                assert forall|k: u64| k < 16 + r implies #[trigger] bit(entry as u64, k) by {
                    if k >= 16 {
                        assert(bit(((entry >> 16u32) as u16) as u64, (k - 16) as u64));
                    }
                }
                assert(bit(((entry >> 16u32) as u16) as u64, r as u64) == bit(entry as u64, (r + 16) as u64));
            }
            16 + r
        }
    }

    /// Index of the lowest clear bit of a 16-bit word that is not full.
    fn binary_bit_search_16(entry: u16) -> (r: usize)
        requires
            entry != 0xffff,
        ensures
            r < 16,
            lowest_clear(entry as u64, r as int),
    {
        proof {
            lemma_low_byte(entry);
        }
        if entry & 0xff != 0xff {
            let r = Self::binary_bit_search_8(entry as u8);
            proof {
                assert forall|k: u64| k < r implies #[trigger] bit(entry as u64, k) by {
                    assert(bit((entry as u8) as u64, k));
                }
                assert(bit((entry as u8) as u64, r as u64) == bit(entry as u64, r as u64));
            }
            r
        } else {
            proof {
                lemma_high_byte(entry);
            }
            let r = Self::binary_bit_search_8((entry >> 8u16) as u8);
            proof {
                assert forall|k: u64| k < 8 + r implies #[trigger] bit(entry as u64, k) by {
                    if k >= 8 {
                        assert(bit(((entry >> 8u16) as u8) as u64, (k - 8) as u64));
                    }
                }
                assert(bit(((entry >> 8u16) as u8) as u64, r as u64) == bit(entry as u64, (r + 8) as u64));
            }
            8 + r
        }
    }

    /// Index of the lowest clear bit of a byte that is not full.
    fn binary_bit_search_8(entry: u8) -> (r: usize)
        requires
            entry != 0xff,
        ensures
            r < 8,
            lowest_clear(entry as u64, r as int),
    {
        let mut bit_index: u32 = 0;
        while bit_index < 8
            invariant
                bit_index <= 8,
                forall|k: u64| k < bit_index ==> #[trigger] bit(entry as u64, k),
            decreases 8 - bit_index,
        {
            proof {
                lemma_byte_mask(entry, bit_index);
            }
            if entry & (1u8 << bit_index) == 0 {
                return bit_index as usize;
            }
            bit_index = bit_index + 1;
        }
        proof {
            lemma_full_byte(entry);
        }
        0
    }

    /// The word and bit within it that hold bit `index`.
    fn indices(index: usize) -> (r: (usize, usize))
        ensures
            r.0 == index / 64,
            r.1 == index % 64,
    {
        (index / 64, index % 64)
    }
}

/// Walks the bits of a bitmap in order.
pub struct Iter<'iter> {
    bitmap: &'iter Bitmap,
    index: usize,
}

impl<'iter> Iter<'iter> {
    /// The bits being walked.
    pub closed spec fn bits(&self) -> Seq<bool> {
        self.bitmap@
    }

    /// How many bits have been handed out.
    pub closed spec fn position(&self) -> int {
        self.index as int
    }

    /// The walk is within the bitmap.
    pub closed spec fn wf(&self) -> bool {
        &&& self.bitmap.wf()
        &&& self.index <= self.bitmap@.len()
    }

    /// The next bit, or `None` once every bit was handed out.
    pub fn next(&mut self) -> (r: Option<bool>)
        requires
            old(self).wf(),
        ensures
            final(self).wf(),
            final(self).bits() == old(self).bits(),
            old(self).position() == old(self).bits().len() ==> r is None && final(self).position()
                == old(self).position(),
            old(self).position() < old(self).bits().len() ==> r == Some(old(self).bits()[old(self).position()])
                && final(self).position() == old(self).position() + 1,
    {
        if self.index == self.bitmap.len() {
            return None;
        }
        let value = self.bitmap.get_bit(self.index);
        self.index = self.index + 1;
        Some(value)
    }
}

} // verus!
