//! The kernel heap: a list of free spaces `(start, end)`, allocated from first fit and
//! grown back on release.
use vstd::prelude::*;

verus! {

/// Free spaces the list can hold: one page of 16-byte entries.
pub const MAX_FREE_SPACES: usize = 256;

/// `start` rounded up to a multiple of `align`.
pub open spec fn align_up(start: int, align: int) -> int {
    start + (align - start % align) % align
}

/// A block of `size` bytes aligned to `align` fits in `space`.
pub open spec fn fits(space: (u64, u64), size: int, align: int) -> bool {
    let a = align_up(space.0 as int, align);
    a <= space.1 && space.1 - a >= size
}

/// `k` is the first space where a block of `size` bytes aligned to `align` fits.
pub open spec fn first_fit(spaces: Seq<(u64, u64)>, size: int, align: int, k: int) -> bool {
    &&& 0 <= k < spaces.len()
    &&& fits(spaces[k], size, align)
    &&& forall|j: int| 0 <= j < k ==> !#[trigger] fits(spaces[j], size, align)
}

/// Space `space` ends where the released block starts, or starts where it ends.
pub open spec fn touches(space: (u64, u64), ptr: int, ptr_end: int) -> bool {
    space.1 == ptr || space.0 == ptr_end
}

/// Index of the first space touching the released block `[ptr, ptr_end)`.
pub open spec fn touch_index(spaces: Seq<(u64, u64)>, ptr: int, ptr_end: int) -> Option<int> {
    if exists|k: int| 0 <= k < spaces.len() && #[trigger] touches(spaces[k], ptr, ptr_end) {
        Some(
            choose|k: int|
                0 <= k < spaces.len() && touches(spaces[k], ptr, ptr_end) && forall|j: int|
                    0 <= j < k ==> !#[trigger] touches(spaces[j], ptr, ptr_end),
        )
    } else {
        None
    }
}

/// Space `k` grown by the released block: at its end when it ends at `ptr`, else at its
/// start.
pub open spec fn extend_space(spaces: Seq<(u64, u64)>, k: int, ptr: int, size: int) -> Seq<(u64, u64)> {
    if spaces[k].1 == ptr {
        spaces.update(k, (spaces[k].0, (spaces[k].1 + size) as u64))
    } else {
        spaces.update(k, ((spaces[k].0 - size) as u64, spaces[k].1))
    }
}

/// Spaces `i1` and `i2` differ and one ends where the other starts.
pub open spec fn adjacent(spaces: Seq<(u64, u64)>, i1: int, i2: int) -> bool {
    &&& 0 <= i1 < spaces.len()
    &&& 0 <= i2 < spaces.len()
    &&& spaces[i1] != spaces[i2]
    &&& (spaces[i1].0 == spaces[i2].1 || spaces[i1].1 == spaces[i2].0)
}

/// `(i1, i2)` comes before `(j1, j2)`, the first index deciding.
pub open spec fn pair_before(i1: int, i2: int, j1: int, j2: int) -> bool {
    i1 < j1 || (i1 == j1 && i2 < j2)
}

/// The last adjacent pair, the first index deciding.
pub open spec fn last_adjacent(spaces: Seq<(u64, u64)>) -> Option<(int, int)> {
    if exists|i1: int, i2: int| #[trigger] adjacent(spaces, i1, i2) {
        Some(
            choose|i1: int, i2: int|
                adjacent(spaces, i1, i2) && forall|j1: int, j2: int|
                    #[trigger] adjacent(spaces, j1, j2) ==> !pair_before(i1, i2, j1, j2),
        )
    } else {
        None
    }
}

/// Spaces `i1` and `i2` joined into `i1`; `i2` left empty at the joined start.
pub open spec fn join(spaces: Seq<(u64, u64)>, i1: int, i2: int) -> Seq<(u64, u64)> {
    let (s1, e1) = spaces[i1];
    let (s2, e2) = spaces[i2];
    let s = if s1 <= s2 { s1 } else { s2 };
    let e = if e1 >= e2 { e1 } else { e2 };
    spaces.update(i1, (s, e)).update(i2, (s, s))
}

/// Index of the first empty space.
pub open spec fn empty_index(spaces: Seq<(u64, u64)>) -> Option<int> {
    if exists|k: int| 0 <= k < spaces.len() && #[trigger] spaces[k].0 == spaces[k].1 {
        Some(
            choose|k: int|
                0 <= k < spaces.len() && spaces[k].0 == spaces[k].1 && forall|j: int|
                    0 <= j < k ==> (#[trigger] spaces[j]).0 != spaces[j].1,
        )
    } else {
        None
    }
}

/// The free spaces after releasing `[ptr, ptr + size)`.
pub open spec fn released(spaces: Seq<(u64, u64)>, ptr: int, size: int) -> Seq<(u64, u64)> {
    match touch_index(spaces, ptr, ptr + size) {
        Some(k) => {
            let grown = extend_space(spaces, k, ptr, size);
            match last_adjacent(grown) {
                Some((i1, i2)) => join(grown, i1, i2),
                None => grown,
            }
        },
        None => match empty_index(spaces) {
            Some(k) => spaces.update(k, (ptr as u64, (ptr + size) as u64)),
            None => spaces.push((ptr as u64, (ptr + size) as u64)),
        },
    }
}

/// Two ranges of bytes `[start, end)` share a byte.
pub open spec fn overlaps(a: (int, int), b: (int, int)) -> bool {
    &&& a.0 < a.1
    &&& b.0 < b.1
    &&& a.0 < b.1
    &&& b.0 < a.1
}

/// A free space as a range of bytes.
pub open spec fn range_of(space: (u64, u64)) -> (int, int) {
    (space.0 as int, space.1 as int)
}

/// No two free spaces share a byte.
pub open spec fn spaces_apart(spaces: Seq<(u64, u64)>) -> bool {
    forall|i: int, j: int|
        0 <= i < spaces.len() && 0 <= j < spaces.len() && i != j ==> !overlaps(
            range_of(#[trigger] spaces[i]),
            range_of(#[trigger] spaces[j]),
        )
}

/// A block taken from the first space it fits in starts at a multiple of `align`, lies
/// inside that space, and shares no byte with any space left free afterwards, when no two
/// free spaces shared a byte before.
pub proof fn lemma_allocation_not_free(spaces: Seq<(u64, u64)>, size: int, align: int, k: int)
    requires
        spaces_apart(spaces),
        align >= 1,
        size >= 0,
        first_fit(spaces, size, align, k),
    ensures
        ({
            let addr = align_up(spaces[k].0 as int, align);
            let after = spaces.update(k, ((addr + size) as u64, spaces[k].1));
            &&& addr % align == 0
            &&& spaces[k].0 <= addr
            &&& addr + size <= spaces[k].1
            &&& forall|j: int| 0 <= j < after.len() ==> !overlaps(range_of(#[trigger] after[j]), (addr, addr + size))
        }),
{
    let start = spaces[k].0 as int;
    let addr = align_up(start, align);
    let q = start / align;
    let r = start % align;
    vstd::arithmetic::div_mod::lemma_fundamental_div_mod(start, align);
    assert(0 <= r < align);
    if r == 0 {
        assert((align - r) % align == 0) by {
            vstd::arithmetic::div_mod::lemma_mod_self_0(align);
        }
        assert(addr == align * q);
    } else {
        assert((align - r) % align == align - r) by {
            vstd::arithmetic::div_mod::lemma_small_mod((align - r) as nat, align as nat);
        }
        assert(addr == align * (q + 1)) by (nonlinear_arith)
            requires
                addr == start + (align - r),
                start == align * q + r,
        ;
    }
    vstd::arithmetic::div_mod::lemma_mod_multiples_basic(q, align);
    vstd::arithmetic::div_mod::lemma_mod_multiples_basic(q + 1, align);
    assert(align * q == q * align) by (nonlinear_arith);
    assert(align * (q + 1) == (q + 1) * align) by (nonlinear_arith);
    let after = spaces.update(k, ((addr + size) as u64, spaces[k].1));
    assert forall|j: int| 0 <= j < after.len() implies !overlaps(range_of(#[trigger] after[j]), (addr, addr + size)) by {
        if j != k && overlaps(range_of(spaces[j]), (addr, addr + size)) {
            assert(overlaps(range_of(spaces[j]), range_of(spaces[k])));
        }
    }
}

/// Every free space starts no later than it ends.
pub open spec fn spaces_ordered(spaces: Seq<(u64, u64)>) -> bool {
    forall|t: int| 0 <= t < spaces.len() ==> (#[trigger] spaces[t]).0 <= spaces[t].1
}

/// Byte `b` lies in some free space.
pub open spec fn free_byte(spaces: Seq<(u64, u64)>, b: int) -> bool {
    exists|t: int| 0 <= t < spaces.len() && #[trigger] spaces[t].0 <= b && b < spaces[t].1
}

/// When some space touches the block, a first one does.
proof fn lemma_first_touch(spaces: Seq<(u64, u64)>, ptr: int, ptr_end: int, w: int)
    requires
        0 <= w < spaces.len(),
        touches(spaces[w], ptr, ptr_end),
    ensures
        exists|k: int|
            0 <= k < spaces.len() && touches(spaces[k], ptr, ptr_end) && forall|j: int|
                0 <= j < k ==> !#[trigger] touches(spaces[j], ptr, ptr_end),
    decreases w,
{
    if exists|j: int| 0 <= j < w && #[trigger] touches(spaces[j], ptr, ptr_end) {
        let j = choose|j: int| 0 <= j < w && #[trigger] touches(spaces[j], ptr, ptr_end);
        lemma_first_touch(spaces, ptr, ptr_end, j);
    } else {
        assert(0 <= w < spaces.len() && touches(spaces[w], ptr, ptr_end) && forall|j: int|
            0 <= j < w ==> !#[trigger] touches(spaces[j], ptr, ptr_end));
    }
}

/// When some pair of spaces is adjacent, a last one is.
proof fn lemma_last_adjacent_exists(spaces: Seq<(u64, u64)>, a1: int, a2: int)
    requires
        adjacent(spaces, a1, a2),
    ensures
        exists|i1: int, i2: int|
            adjacent(spaces, i1, i2) && forall|j1: int, j2: int|
                #[trigger] adjacent(spaces, j1, j2) ==> !pair_before(i1, i2, j1, j2),
    decreases spaces.len() - a1, spaces.len() - a2,
{
    if exists|j1: int, j2: int| #[trigger] adjacent(spaces, j1, j2) && pair_before(a1, a2, j1, j2) {
        let (j1, j2) = choose|j1: int, j2: int| #[trigger] adjacent(spaces, j1, j2) && pair_before(a1, a2, j1, j2);
        lemma_last_adjacent_exists(spaces, j1, j2);
    } else {
        assert(adjacent(spaces, a1, a2) && forall|j1: int, j2: int|
            #[trigger] adjacent(spaces, j1, j2) ==> !pair_before(a1, a2, j1, j2));
    }
}

/// Joining two adjacent spaces keeps the free bytes and the order of every space.
proof fn lemma_join_keeps_bytes(g: Seq<(u64, u64)>, i1: int, i2: int)
    requires
        spaces_ordered(g),
        adjacent(g, i1, i2),
    ensures
        spaces_ordered(join(g, i1, i2)),
        forall|b: int| free_byte(join(g, i1, i2), b) == free_byte(g, b),
{
    let j = join(g, i1, i2);
    assert(i1 != i2);
    assert(g[i1].0 <= g[i1].1 && g[i2].0 <= g[i2].1);
    assert forall|t: int| 0 <= t < j.len() implies (#[trigger] j[t]).0 <= j[t].1 by {}
    assert forall|b: int| free_byte(j, b) == free_byte(g, b) by {
        if free_byte(j, b) {
            let t = choose|t: int| 0 <= t < j.len() && #[trigger] j[t].0 <= b && b < j[t].1;
            if t == i1 {
                if g[i1].0 <= b && b < g[i1].1 {
                    assert(g[i1].0 <= b && b < g[i1].1);
                } else {
                    assert(g[i2].0 <= b && b < g[i2].1);
                }
            } else if t != i2 {
                assert(g[t].0 <= b && b < g[t].1);
            }
        }
        if free_byte(g, b) {
            let t = choose|t: int| 0 <= t < g.len() && #[trigger] g[t].0 <= b && b < g[t].1;
            if t == i1 || t == i2 {
                assert(j[i1].0 <= b && b < j[i1].1);
            } else {
                assert(j[t].0 <= b && b < j[t].1);
            }
        }
    }
}

/// Releasing a block that was just taken from the start of a free space, with no bytes
/// lost to alignment, makes free again exactly the bytes that were free before the
/// allocation: every byte of a space before is in a space after, and no other byte.
pub proof fn lemma_release_undoes_allocation(spaces: Seq<(u64, u64)>, size: int, align: int, k: int)
    requires
        spaces_ordered(spaces),
        align >= 1,
        size >= 0,
        first_fit(spaces, size, align, k),
        align_up(spaces[k].0 as int, align) == spaces[k].0,
    ensures
        ({
            let addr = spaces[k].0 as int;
            let mid = spaces.update(k, ((addr + size) as u64, spaces[k].1));
            let after = released(mid, addr, size);
            &&& spaces_ordered(after)
            &&& forall|b: int| free_byte(after, b) == free_byte(spaces, b)
        }),
{
    let addr = spaces[k].0 as int;
    let end = spaces[k].1 as int;
    assert(addr + size <= end);
    let mid = spaces.update(k, ((addr + size) as u64, spaces[k].1));
    assert(touches(mid[k], addr, addr + size));
    lemma_first_touch(mid, addr, addr + size, k);
    let t = touch_index(mid, addr, addr + size)->Some_0;
    assert(0 <= t < mid.len() && touches(mid[t], addr, addr + size));
    let grown = extend_space(mid, t, addr, size);
    assert(spaces_ordered(grown)) by {
        assert forall|q: int| 0 <= q < grown.len() implies (#[trigger] grown[q]).0 <= grown[q].1 by {
            assert(mid[q].0 <= mid[q].1);
        }
    }
    assert forall|b: int| free_byte(grown, b) == free_byte(spaces, b) by {
        if free_byte(grown, b) {
            let q = choose|q: int| 0 <= q < grown.len() && #[trigger] grown[q].0 <= b && b < grown[q].1;
            if addr <= b < end {
                assert(spaces[k].0 <= b && b < spaces[k].1);
            } else if q == t {
                assert(mid[t].0 <= b && b < mid[t].1);
                if t == k {
                    assert(false);
                } else {
                    assert(spaces[t].0 <= b && b < spaces[t].1);
                }
            } else {
                assert(mid[q] == grown[q]);
                if q == k {
                    assert(false);
                } else {
                    assert(spaces[q].0 <= b && b < spaces[q].1);
                }
            }
        }
        if free_byte(spaces, b) {
            let q = choose|q: int| 0 <= q < spaces.len() && #[trigger] spaces[q].0 <= b && b < spaces[q].1;
            if addr <= b < addr + size {
                assert(grown[t].0 <= b && b < grown[t].1);
            } else if q == k {
                assert(mid[k].0 <= b && b < mid[k].1);
                if t == k {
                    assert(grown[t].0 <= b && b < grown[t].1);
                } else {
                    assert(grown[k].0 <= b && b < grown[k].1);
                }
            } else if q == t {
                assert(grown[t].0 <= b && b < grown[t].1);
            } else {
                assert(grown[q].0 <= b && b < grown[q].1);
            }
        }
    }
    match last_adjacent(grown) {
        Some((i1, i2)) => {
            let (a1, a2) = choose|a1: int, a2: int| #[trigger] adjacent(grown, a1, a2);
            lemma_last_adjacent_exists(grown, a1, a2);
            lemma_join_keeps_bytes(grown, i1, i2);
        },
        None => {},
    }
}

/// Bytes in all free spaces.
pub open spec fn free_total(spaces: Seq<(u64, u64)>) -> int
    decreases spaces.len(),
{
    if spaces.len() == 0 {
        0
    } else {
        free_total(spaces.drop_last()) + (spaces.last().1 - spaces.last().0)
    }
}

/// Replacing one space changes the total by the difference of their sizes.
proof fn lemma_free_total_update(spaces: Seq<(u64, u64)>, k: int, x: (u64, u64))
    requires
        0 <= k < spaces.len(),
    ensures
        free_total(spaces.update(k, x)) == free_total(spaces) - (spaces[k].1 - spaces[k].0) + (x.1 - x.0),
    decreases spaces.len(),
{
    let u = spaces.update(k, x);
    if k == spaces.len() - 1 {
        assert(u.drop_last() =~= spaces.drop_last());
    } else {
        lemma_free_total_update(spaces.drop_last(), k, x);
        assert(u.drop_last() =~= spaces.drop_last().update(k, x));
    }
}

/// A range `[u0, u1)` cut at `c` overlaps `x` only where one of its two parts does.
proof fn lemma_overlap_split(u0: int, c: int, u1: int, x: (int, int))
    requires
        u0 <= c <= u1,
        overlaps((u0, u1), x),
    ensures
        overlaps((u0, c), x) || overlaps((c, u1), x),
{
}

/// Releasing a block that was just taken from the start of a free space, with no bytes
/// lost to alignment, keeps the free spaces from sharing a byte and brings their total
/// size back to what it was before the allocation.
pub proof fn lemma_release_keeps_spaces_apart(spaces: Seq<(u64, u64)>, size: int, align: int, k: int)
    requires
        spaces_ordered(spaces),
        spaces_apart(spaces),
        align >= 1,
        size >= 0,
        first_fit(spaces, size, align, k),
        align_up(spaces[k].0 as int, align) == spaces[k].0,
    ensures
        ({
            let addr = spaces[k].0 as int;
            let mid = spaces.update(k, ((addr + size) as u64, spaces[k].1));
            let after = released(mid, addr, size);
            &&& spaces_apart(after)
            &&& free_total(mid) == free_total(spaces) - size
            &&& free_total(after) == free_total(spaces)
        }),
{
    lemma_release_undoes_allocation(spaces, size, align, k);
    let addr = spaces[k].0 as int;
    let end = spaces[k].1 as int;
    let mid = spaces.update(k, ((addr + size) as u64, spaces[k].1));
    lemma_free_total_update(spaces, k, ((addr + size) as u64, spaces[k].1));
    let block = (addr, addr + size);
    assert forall|j: int| 0 <= j < mid.len() implies !overlaps(range_of(#[trigger] mid[j]), block) by {
        if j != k && overlaps(range_of(mid[j]), block) {
            assert(overlaps(range_of(spaces[j]), range_of(spaces[k])));
        }
    }
    assert(spaces_apart(mid)) by {
        assert forall|i: int, j: int|
            0 <= i < mid.len() && 0 <= j < mid.len() && i != j implies !overlaps(
                range_of(#[trigger] mid[i]),
                range_of(#[trigger] mid[j]),
            ) by {
            assert(!overlaps(range_of(spaces[i]), range_of(spaces[j])));
        }
    }
    assert(touches(mid[k], addr, addr + size));
    lemma_first_touch(mid, addr, addr + size, k);
    let t = touch_index(mid, addr, addr + size)->Some_0;
    assert(0 <= t < mid.len() && touches(mid[t], addr, addr + size));
    assert(mid[t].0 <= mid[t].1) by {
        if t != k {
            assert(spaces[t].0 <= spaces[t].1);
        }
    }
    let grown = extend_space(mid, t, addr, size);
    let gt = grown[t];
    lemma_free_total_update(mid, t, gt);
    assert(gt.1 - gt.0 == mid[t].1 - mid[t].0 + size);
    let cut = if mid[t].1 == addr { addr } else { addr + size };
    assert(gt.0 <= cut <= gt.1);
    assert(spaces_apart(grown)) by {
        assert forall|i: int, j: int|
            0 <= i < grown.len() && 0 <= j < grown.len() && i != j implies !overlaps(
                range_of(#[trigger] grown[i]),
                range_of(#[trigger] grown[j]),
            ) by {
            if i == t {
                if overlaps(range_of(grown[i]), range_of(grown[j])) {
                    lemma_overlap_split(gt.0 as int, cut, gt.1 as int, range_of(grown[j]));
                    assert(!overlaps(range_of(mid[j]), block));
                    assert(!overlaps(range_of(mid[t]), range_of(mid[j])));
                }
            } else if j == t {
                if overlaps(range_of(grown[j]), range_of(grown[i])) {
                    lemma_overlap_split(gt.0 as int, cut, gt.1 as int, range_of(grown[i]));
                    assert(!overlaps(range_of(mid[i]), block));
                    assert(!overlaps(range_of(mid[t]), range_of(mid[i])));
                }
                assert(overlaps(range_of(grown[i]), range_of(grown[j])) == overlaps(range_of(grown[j]), range_of(grown[i])));
            } else {
                assert(!overlaps(range_of(mid[i]), range_of(mid[j])));
            }
        }
    }
    assert(spaces_ordered(grown)) by {
        assert forall|q: int| 0 <= q < grown.len() implies (#[trigger] grown[q]).0 <= grown[q].1 by {
            if q != t && q != k {
                assert(spaces[q].0 <= spaces[q].1);
            }
        }
    }
    match last_adjacent(grown) {
        Some((i1, i2)) => {
            let (a1, a2) = choose|a1: int, a2: int| #[trigger] adjacent(grown, a1, a2);
            lemma_last_adjacent_exists(grown, a1, a2);
            assert(adjacent(grown, i1, i2));
            let j = join(grown, i1, i2);
            let (s1, e1) = grown[i1];
            let (s2, e2) = grown[i2];
            assert(s1 <= e1 && s2 <= e2);
            let lo = if s1 <= s2 { s1 } else { s2 };
            let hi = if e1 >= e2 { e1 } else { e2 };
            let c = if e1 == s2 { e1 } else { e2 };
            let step = grown.update(i1, (lo, hi));
            lemma_free_total_update(grown, i1, (lo, hi));
            lemma_free_total_update(step, i2, (lo, lo));
            assert(j == step.update(i2, (lo, lo)));
            assert(hi - lo == (e1 - s1) + (e2 - s2));
            assert forall|i: int, q: int|
                0 <= i < j.len() && 0 <= q < j.len() && i != q implies !overlaps(
                    range_of(#[trigger] j[i]),
                    range_of(#[trigger] j[q]),
                ) by {
                if i == i2 || q == i2 {
                } else if i == i1 {
                    if overlaps(range_of(j[i]), range_of(j[q])) {
                        lemma_overlap_split(lo as int, c as int, hi as int, range_of(j[q]));
                        assert(!overlaps(range_of(grown[i1]), range_of(grown[q])));
                        assert(!overlaps(range_of(grown[i2]), range_of(grown[q])));
                    }
                } else if q == i1 {
                    if overlaps(range_of(j[q]), range_of(j[i])) {
                        lemma_overlap_split(lo as int, c as int, hi as int, range_of(j[i]));
                        assert(!overlaps(range_of(grown[i1]), range_of(grown[i])));
                        assert(!overlaps(range_of(grown[i2]), range_of(grown[i])));
                    }
                } else {
                    assert(!overlaps(range_of(grown[i]), range_of(grown[q])));
                }
            }
        },
        None => {},
    }
}

/// The list of free spaces.
#[derive(Debug)]
pub struct HeapInner {
    free_spaces: Vec<(u64, u64)>,
}

/// The kernel heap.
#[derive(Debug)]
pub struct Heap {
    inner: HeapInner,
}

impl HeapInner {
    /// The free spaces.
    pub closed spec fn spaces(&self) -> Seq<(u64, u64)> {
        self.free_spaces@
    }

    /// The list fits in its page.
    pub closed spec fn wf(&self) -> bool {
        self.free_spaces@.len() <= MAX_FREE_SPACES
    }

    /// Takes `size` bytes aligned to `align` from the first free space they fit in, after
    /// aligning its start; returns their address, or `None` when they fit nowhere.
    pub fn allocate(&mut self, size: u64, align: u64) -> (r: Option<u64>)
        requires
            old(self).wf(),
            align >= 1,
            forall|k: int| 0 <= k < old(self).spaces().len() ==> (#[trigger] old(self).spaces()[k]).0 + align <= u64::MAX,
        ensures
            final(self).wf(),
            match r {
                Some(addr) => exists|k: int|
                    #[trigger] first_fit(old(self).spaces(), size as int, align as int, k) && addr == align_up(
                        old(self).spaces()[k].0 as int,
                        align as int,
                    ) && final(self).spaces() == old(self).spaces().update(
                        k,
                        ((addr + size) as u64, old(self).spaces()[k].1),
                    ),
                None => final(self).spaces() == old(self).spaces() && forall|k: int|
                    0 <= k < old(self).spaces().len() ==> !#[trigger] fits(old(self).spaces()[k], size as int, align as int),
            },
    {
        let mut k: usize = 0;
        while k < self.free_spaces.len()
            invariant
                *self == *old(self),
                self.wf(),
                align >= 1,
                k <= self.free_spaces@.len(),
                forall|j: int| 0 <= j < self.spaces().len() ==> (#[trigger] self.spaces()[j]).0 + align <= u64::MAX,
                forall|j: int| 0 <= j < k ==> !#[trigger] fits(self.spaces()[j], size as int, align as int),
            decreases self.free_spaces@.len() - k,
        {
            let (start, end) = self.free_spaces[k];
            proof {
                assert(self.spaces()[k as int] == (start, end));
            }
            let offset = (align - start % align) % align;
            let alloc_start = start + offset;
            if alloc_start <= end && end - alloc_start >= size {
                let alloc_end = alloc_start + size;
                self.free_spaces.set(k, (alloc_end, end));
                proof {
                    assert(first_fit(old(self).spaces(), size as int, align as int, k as int));
                }
                return Some(alloc_start);
            }
            k = k + 1;
        }
        None
    }

    /// Returns the block `[ptr, ptr + size)`: the first space touching it grows over it,
    /// after which the last pair of differing adjacent spaces is joined; with no space
    /// touching it, it fills the first empty space or is added at the end.
    pub fn deallocate(&mut self, ptr: u64, size: u64)
        requires
            old(self).wf(),
            ptr + size <= u64::MAX,
            forall|k: int| 0 <= k < old(self).spaces().len() ==> (#[trigger] old(self).spaces()[k]).1 + size <= u64::MAX,
            touch_index(old(self).spaces(), ptr as int, ptr + size) is None && empty_index(old(self).spaces()) is None
                ==> old(self).spaces().len() < MAX_FREE_SPACES,
        ensures
            final(self).wf(),
            final(self).spaces() == released(old(self).spaces(), ptr as int, size as int),
    {
        let ptr_end = ptr + size;
        let extended_region = self.extend_touching(ptr, size);
        if extended_region {
            self.join_last_adjacent();
        } else {
            self.fill_or_push(ptr, ptr_end);
        }
    }

    /// Grows the first space touching `[ptr, ptr + size)` over it; returns whether there
    /// was one.
    fn extend_touching(&mut self, ptr: u64, size: u64) -> (r: bool)
        requires
            old(self).wf(),
            ptr + size <= u64::MAX,
            forall|k: int| 0 <= k < old(self).spaces().len() ==> (#[trigger] old(self).spaces()[k]).1 + size <= u64::MAX,
        ensures
            final(self).wf(),
            match touch_index(old(self).spaces(), ptr as int, ptr + size) {
                Some(k) => r && final(self).spaces() == extend_space(old(self).spaces(), k, ptr as int, size as int),
                None => !r && *final(self) == *old(self),
            },
    {
        let ptr_end = ptr + size;
        let mut extended_region = false;
        let mut k: usize = 0;
        while !extended_region && k < self.free_spaces.len()
            invariant
                k <= self.free_spaces@.len(),
                self.free_spaces@.len() == old(self).free_spaces@.len(),
                ptr_end == ptr + size,
                forall|j: int| 0 <= j < old(self).spaces().len() ==> (#[trigger] old(self).spaces()[j]).1 + size <= u64::MAX,
                !extended_region ==> *self == *old(self) && forall|j: int|
                    0 <= j < k ==> !#[trigger] touches(old(self).spaces()[j], ptr as int, ptr_end as int),
                extended_region ==> k < self.free_spaces@.len() && touches(old(self).spaces()[k as int], ptr as int, ptr_end as int)
                    && (forall|j: int| 0 <= j < k ==> !#[trigger] touches(old(self).spaces()[j], ptr as int, ptr_end as int))
                    && self.spaces() == extend_space(old(self).spaces(), k as int, ptr as int, size as int),
            decreases self.free_spaces@.len() - k + if extended_region { 0int } else { 1int },
        {
            let (start, end) = self.free_spaces[k];
            proof {
                assert(old(self).spaces()[k as int] == (start, end));
            }
            if end == ptr {
                self.free_spaces.set(k, (start, end + size));
                extended_region = true;
            } else if start == ptr_end {
                self.free_spaces.set(k, (start - size, end));
                extended_region = true;
            } else {
                k = k + 1;
            }
        }
        proof {
            Self::lemma_touch_index(old(self).spaces(), ptr as int, ptr_end as int, k as int, extended_region);
        }
        extended_region
    }

    /// Joins the last pair of differing adjacent spaces, if any.
    fn join_last_adjacent(&mut self)
        requires
            old(self).wf(),
        ensures
            final(self).wf(),
            final(self).spaces() == match last_adjacent(old(self).spaces()) {
                Some((i1, i2)) => join(old(self).spaces(), i1, i2),
                None => old(self).spaces(),
            },
    {
        let found = Self::find_last_adjacent(&self.free_spaces);
        if let Some((i1, i2)) = found {
            let (s1, e1) = self.free_spaces[i1];
            let (s2, e2) = self.free_spaces[i2];
            let s = if s1 <= s2 {
                s1
            } else {
                s2
            };
            let e = if e1 >= e2 {
                e1
            } else {
                e2
            };
            self.free_spaces.set(i1, (s, e));
            self.free_spaces.set(i2, (s, s));
        }
    }

    /// Puts `[ptr, ptr_end)` in the first empty space, or adds it at the end.
    fn fill_or_push(&mut self, ptr: u64, ptr_end: u64)
        requires
            old(self).wf(),
            empty_index(old(self).spaces()) is None ==> old(self).spaces().len() < MAX_FREE_SPACES,
        ensures
            final(self).wf(),
            final(self).spaces() == match empty_index(old(self).spaces()) {
                Some(k) => old(self).spaces().update(k, (ptr, ptr_end)),
                None => old(self).spaces().push((ptr, ptr_end)),
            },
    {
        let mut slot: usize = 0;
        let mut found = false;
        while !found && slot < self.free_spaces.len()
            invariant
                slot <= self.free_spaces@.len(),
                found ==> slot < self.free_spaces@.len() && self.spaces()[slot as int].0 == self.spaces()[slot as int].1,
                forall|j: int| 0 <= j < slot ==> (#[trigger] self.spaces()[j]).0 != self.spaces()[j].1,
            decreases self.free_spaces@.len() - slot + if found { 0int } else { 1int },
        {
            let (s, e) = self.free_spaces[slot];
            if s == e {
                found = true;
            } else {
                slot = slot + 1;
            }
        }
        proof {
            Self::lemma_empty_index(self.spaces(), slot as int);
        }
        if found {
            self.free_spaces.set(slot, (ptr, ptr_end));
        } else {
            self.free_spaces.push((ptr, ptr_end));
        }
    }

    /// What the search for a touching space found.
    proof fn lemma_touch_index(spaces: Seq<(u64, u64)>, ptr: int, ptr_end: int, k: int, found: bool)
        requires
            0 <= k <= spaces.len(),
            found ==> k < spaces.len() && touches(spaces[k], ptr, ptr_end),
            forall|j: int| 0 <= j < k ==> !#[trigger] touches(spaces[j], ptr, ptr_end),
            !found ==> k == spaces.len(),
        ensures
            found ==> touch_index(spaces, ptr, ptr_end) == Some(k),
            !found ==> touch_index(spaces, ptr, ptr_end) is None,
    {
        if found {
            let c = choose|c: int|
                0 <= c < spaces.len() && touches(spaces[c], ptr, ptr_end) && forall|j: int|
                    0 <= j < c ==> !#[trigger] touches(spaces[j], ptr, ptr_end);
            assert(touches(spaces[k], ptr, ptr_end));
            if c < k {
                assert(!touches(spaces[c], ptr, ptr_end));
            }
            if k < c {
                assert(!touches(spaces[k], ptr, ptr_end));
            }
        } else {
            if exists|j: int| 0 <= j < spaces.len() && #[trigger] touches(spaces[j], ptr, ptr_end) {
                let j = choose|j: int| 0 <= j < spaces.len() && #[trigger] touches(spaces[j], ptr, ptr_end);
                assert(!touches(spaces[j], ptr, ptr_end));
            }
        }
    }

    /// What the search for an empty space found.
    proof fn lemma_empty_index(spaces: Seq<(u64, u64)>, slot: int)
        requires
            0 <= slot <= spaces.len(),
            slot < spaces.len() ==> spaces[slot].0 == spaces[slot].1,
            forall|j: int| 0 <= j < slot ==> (#[trigger] spaces[j]).0 != spaces[j].1,
        ensures
            slot < spaces.len() ==> empty_index(spaces) == Some(slot),
            slot == spaces.len() ==> empty_index(spaces) is None,
    {
        if slot < spaces.len() {
            let c = choose|c: int|
                0 <= c < spaces.len() && spaces[c].0 == spaces[c].1 && forall|j: int|
                    0 <= j < c ==> (#[trigger] spaces[j]).0 != spaces[j].1;
            assert(spaces[slot].0 == spaces[slot].1);
            if c < slot {
                assert(spaces[c].0 != spaces[c].1);
            }
            if slot < c {
                assert(spaces[slot].0 != spaces[slot].1);
            }
        } else {
            if exists|k: int| 0 <= k < spaces.len() && #[trigger] spaces[k].0 == spaces[k].1 {
                let k = choose|k: int| 0 <= k < spaces.len() && #[trigger] spaces[k].0 == spaces[k].1;
                assert(spaces[k].0 != spaces[k].1);
            }
        }
    }

    /// The last pair of differing spaces where one ends at the other's start, the first
    /// index deciding.
    fn find_last_adjacent(spaces: &Vec<(u64, u64)>) -> (r: Option<(usize, usize)>)
        ensures
            match r {
                Some((i1, i2)) => last_adjacent(spaces@) == Some((i1 as int, i2 as int)) && adjacent(spaces@, i1 as int, i2 as int),
                None => last_adjacent(spaces@) is None,
            },
    {
        let mut a: Option<(usize, usize)> = None;
        let mut i1: usize = 0;
        while i1 < spaces.len()
            invariant
                i1 <= spaces@.len(),
                a matches Some((x1, x2)) ==> adjacent(spaces@, x1 as int, x2 as int) && x1 < i1,
                forall|j1: int, j2: int|
                    #[trigger] adjacent(spaces@, j1, j2) && j1 < i1 ==> (a matches Some((x1, x2)) && !pair_before(
                        x1 as int,
                        x2 as int,
                        j1,
                        j2,
                    )),
            decreases spaces@.len() - i1,
        {
            let (s1, e1) = spaces[i1];
            let mut i2: usize = 0;
            while i2 < spaces.len()
                invariant
                    i1 < spaces@.len(),
                    i2 <= spaces@.len(),
                    spaces@[i1 as int] == (s1, e1),
                    a matches Some((x1, x2)) ==> adjacent(spaces@, x1 as int, x2 as int) && x1 <= i1,
                    forall|j1: int, j2: int|
                        #[trigger] adjacent(spaces@, j1, j2) && (j1 < i1 || (j1 == i1 && j2 < i2)) ==> (a matches Some((x1, x2))
                            && !pair_before(x1 as int, x2 as int, j1, j2)),
                decreases spaces@.len() - i2,
            {
                let (s2, e2) = spaces[i2];
                if !(s1 == s2 && e1 == e2) && (s1 == e2 || e1 == s2) {
                    a = Some((i1, i2));
                    proof {
                        assert(adjacent(spaces@, i1 as int, i2 as int));
                    }
                }
                proof {
                    if adjacent(spaces@, i1 as int, i2 as int) {
                        assert(a == Some((i1, i2)));
                    }
                }
                i2 = i2 + 1;
            }
            i1 = i1 + 1;
        }
        proof {
            match a {
                Some((x1, x2)) => {
                    let c = choose|c1: int, c2: int|
                        adjacent(spaces@, c1, c2) && forall|j1: int, j2: int|
                            #[trigger] adjacent(spaces@, j1, j2) ==> !pair_before(c1, c2, j1, j2);
                    assert(adjacent(spaces@, x1 as int, x2 as int) && forall|j1: int, j2: int|
                        #[trigger] adjacent(spaces@, j1, j2) ==> !pair_before(x1 as int, x2 as int, j1, j2));
                    assert(adjacent(spaces@, c.0, c.1));
                    assert(!pair_before(c.0, c.1, x1 as int, x2 as int));
                    assert(!pair_before(x1 as int, x2 as int, c.0, c.1));
                },
                None => {},
            }
        }
        a
    }
}

impl Heap {
    /// A heap over `[page, page + size)`, all of it free.
    pub fn new(page: u64, size: usize) -> (r: Self)
        requires
            page + size <= u64::MAX,
        ensures
            r.spaces() == seq![(page, (page + size) as u64)],
            r.wf(),
    {
        let mut free_spaces: Vec<(u64, u64)> = Vec::new();
        free_spaces.push((page, page + size as u64));
        Heap { inner: HeapInner { free_spaces } }
    }

    /// The free spaces.
    pub closed spec fn spaces(&self) -> Seq<(u64, u64)> {
        self.inner.spaces()
    }

    /// The list of free spaces fits in its page.
    pub closed spec fn wf(&self) -> bool {
        self.inner.wf()
    }

    /// Takes `size` bytes aligned to `align`; see `HeapInner::allocate`.
    pub fn allocate(&mut self, size: u64, align: u64) -> (r: Option<u64>)
        requires
            old(self).wf(),
            align >= 1,
            forall|k: int| 0 <= k < old(self).spaces().len() ==> (#[trigger] old(self).spaces()[k]).0 + align <= u64::MAX,
        ensures
            final(self).wf(),
            match r {
                Some(addr) => exists|k: int|
                    #[trigger] first_fit(old(self).spaces(), size as int, align as int, k) && addr == align_up(
                        old(self).spaces()[k].0 as int,
                        align as int,
                    ) && final(self).spaces() == old(self).spaces().update(
                        k,
                        ((addr + size) as u64, old(self).spaces()[k].1),
                    ),
                None => final(self).spaces() == old(self).spaces() && forall|k: int|
                    0 <= k < old(self).spaces().len() ==> !#[trigger] fits(old(self).spaces()[k], size as int, align as int),
            },
    {
        proof {
            assert(self.spaces() == self.inner.spaces());
        }
        let r = self.inner.allocate(size, align);
        proof {
            assert(self.spaces() == self.inner.spaces());
        }
        r
    }

    /// Returns the block `[ptr, ptr + size)`; see `HeapInner::deallocate`.
    pub fn deallocate(&mut self, ptr: u64, size: u64)
        requires
            old(self).wf(),
            ptr + size <= u64::MAX,
            forall|k: int| 0 <= k < old(self).spaces().len() ==> (#[trigger] old(self).spaces()[k]).1 + size <= u64::MAX,
            touch_index(old(self).spaces(), ptr as int, ptr + size) is None && empty_index(old(self).spaces()) is None
                ==> old(self).spaces().len() < MAX_FREE_SPACES,
        ensures
            final(self).wf(),
            final(self).spaces() == released(old(self).spaces(), ptr as int, size as int),
    {
        proof {
            assert(self.spaces() == self.inner.spaces());
        }
        self.inner.deallocate(ptr, size);
        proof {
            assert(self.spaces() == self.inner.spaces());
        }
    }

    /// Pages a heap of `size` bytes is given: one more than the whole pages in it.
    pub fn frames_for(size: usize) -> (r: usize)
        ensures
            r == size / 4096 + 1,
    {
        size / 4096 + 1
    }
}

} // verus!
