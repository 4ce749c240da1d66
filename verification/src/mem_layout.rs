//! Byte-size arithmetic for metadata that is laid out as consecutive 8-aligned arrays.
use vstd::prelude::*;

verus! {

/// Alignment of every metadata record (words and record headers on a 64-bit target).
pub const RECORD_ALIGN: usize = 8;

/// Size and alignment of a block of memory.
#[derive(Clone, Copy, Debug)]
pub struct ByteLayout {
    pub size: usize,
    pub align: usize,
}

/// The requested layout does not fit in the address space.
#[derive(Clone, Copy, Debug)]
pub struct LayoutError;

/// Largest size an 8-aligned layout may have.
pub open spec fn max_layout_size() -> int {
    isize::MAX - (RECORD_ALIGN - 1)
}

/// A multiple of eight times anything is a multiple of eight.
pub proof fn lemma_multiple_of_eight(a: int, n: int)
    requires
        a % 8 == 0,
    ensures
        (a * n) % 8 == 0,
{
    let q = a / 8;
    vstd::arithmetic::div_mod::lemma_fundamental_div_mod(a, 8);
    assert(a == 8 * q);
    vstd::arithmetic::mul::lemma_mul_is_associative(8, q, n);
    vstd::arithmetic::mul::lemma_mul_is_commutative(8, q * n);
    vstd::arithmetic::div_mod::lemma_mod_multiples_basic(q * n, 8);
}

impl ByteLayout {
    /// An 8-aligned layout whose size is a multiple of 8 and within the address space.
    pub open spec fn wf(&self) -> bool {
        &&& self.align == RECORD_ALIGN
        &&& self.size % 8 == 0
        &&& self.size <= max_layout_size()
    }

    /// Layout of `n` consecutive records of `elem_size` bytes each.
    pub fn array(elem_size: usize, n: usize) -> (r: Result<ByteLayout, LayoutError>)
        requires
            elem_size % 8 == 0,
        ensures
            match r {
                Ok(l) => l.wf() && l.size == elem_size * n,
                Err(_) => elem_size * n > max_layout_size(),
            },
    {
        match elem_size.checked_mul(n) {
            Some(size) => {
                if size > isize::MAX as usize - (RECORD_ALIGN - 1) {
                    Err(LayoutError)
                } else {
                    proof {
                        lemma_multiple_of_eight(elem_size as int, n as int);
                    }
                    Ok(ByteLayout { size, align: RECORD_ALIGN })
                }
            },
            None => Err(LayoutError),
        }
    }

    /// Appends `next` after `self`; returns the combined layout and the offset of `next`.
    pub fn extend(&self, next: ByteLayout) -> (r: Result<(ByteLayout, usize), LayoutError>)
        requires
            self.wf(),
            next.wf(),
        ensures
            match r {
                Ok((l, offset)) => {
                    &&& l.wf()
                    &&& offset == self.size
                    &&& l.size == self.size + next.size
                },
                Err(_) => self.size + next.size > max_layout_size(),
            },
    {
        let size = self.size + next.size;
        if size > isize::MAX as usize - (RECORD_ALIGN - 1) {
            Err(LayoutError)
        } else {
            Ok((ByteLayout { size, align: RECORD_ALIGN }, self.size))
        }
    }
}

} // verus!
