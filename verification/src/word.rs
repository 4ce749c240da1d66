//! Bit-level facts about the 64-bit words that back every bitmap.
use vstd::prelude::*;

verus! {

/// Number of bits in one bitmap word.
pub const WORD_BITS: usize = 64;

/// Whether bit `j` (counting from the least significant bit) of `w` is set.
pub open spec fn bit(w: u64, j: u64) -> bool {
    (w >> j) & 1u64 == 1u64
}

/// Masking with a single-bit mask tests exactly that bit.
pub proof fn lemma_mask_tests_bit(w: u64, j: u64)
    requires
        j < 64,
    ensures
        (w & (1u64 << j) != 0) == bit(w, j),
{
    assert((w & (1u64 << j) != 0) == ((w >> j) & 1u64 == 1u64)) by (bit_vector)
        requires
            j < 64,
    ;
}

/// Or-ing a single-bit mask sets that bit and leaves every other bit alone.
pub proof fn lemma_set_bit(w: u64, j: u64)
    requires
        j < 64,
    ensures
        forall|k: u64| k < 64 ==> #[trigger] bit(w | (1u64 << j), k) == (k == j || bit(w, k)),
{
    assert forall|k: u64| k < 64 implies #[trigger] bit(w | (1u64 << j), k) == (k == j || bit(
        w,
        k,
    )) by {
        assert((((w | (1u64 << j)) >> k) & 1u64 == 1u64) == (k == j || (w >> k) & 1u64 == 1u64))
            by (bit_vector)
            requires
                j < 64,
                k < 64,
        ;
    }
}

/// And-ing the complement of a single-bit mask clears that bit and leaves every other
/// bit alone.
pub proof fn lemma_clear_bit(w: u64, j: u64)
    requires
        j < 64,
    ensures
        forall|k: u64| k < 64 ==> #[trigger] bit(w & !(1u64 << j), k) == (k != j && bit(w, k)),
{
    assert forall|k: u64| k < 64 implies #[trigger] bit(w & !(1u64 << j), k) == (k != j && bit(
        w,
        k,
    )) by {
        assert((((w & !(1u64 << j)) >> k) & 1u64 == 1u64) == (k != j && (w >> k) & 1u64 == 1u64))
            by (bit_vector)
            requires
                j < 64,
                k < 64,
        ;
    }
}

/// A word is zero exactly when none of its 64 bits is set.
pub proof fn lemma_zero_iff_no_bits(w: u64)
    ensures
        (w == 0) == (forall|k: u64| k < 64 ==> !#[trigger] bit(w, k)),
{
    lemma_zero_word();
    lemma_trailing_zeros(w);
}

/// The zero word has no bit set.
pub proof fn lemma_zero_word()
    ensures
        forall|k: u64| k < 64 ==> !#[trigger] bit(0u64, k),
{
    assert(forall|k: u64| k < 64 ==> !((0u64 >> k) & 1u64 == 1u64)) by (bit_vector);
}

/// `trailing_zeros` finds the lowest set bit of a nonzero word.
pub proof fn lemma_trailing_zeros(w: u64)
    ensures
        w.trailing_zeros() <= 64,
        w.trailing_zeros() == 64 <==> w == 0,
        w.trailing_zeros() < 64 ==> bit(w, w.trailing_zeros() as u64),
        forall|k: u64| k < w.trailing_zeros() ==> !#[trigger] bit(w, k),
{
    vstd::std_specs::bits::axiom_u64_trailing_zeros(w);
}

} // verus!
