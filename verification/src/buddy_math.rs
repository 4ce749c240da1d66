//! Block arithmetic of the buddy system: counting free blocks, ancestors of a block,
//! the number of whole blocks of an order, and the rule that marked blocks never overlap.
use crate::util::pow;
use vstd::prelude::*;

verus! {

/// Number of set entries of `s`.
pub open spec fn count_set(s: Seq<bool>) -> nat
    decreases s.len(),
{
    if s.len() == 0 {
        0
    } else {
        count_set(s.drop_last()) + if s.last() {
            1nat
        } else {
            0nat
        }
    }
}

/// Setting a clear entry adds one to the count; clearing a set entry removes one.
pub proof fn lemma_count_update(s: Seq<bool>, i: int, v: bool)
    requires
        0 <= i < s.len(),
    ensures
        count_set(s.update(i, v)) == count_set(s) - (if s[i] {
            1int
        } else {
            0int
        }) + (if v {
            1int
        } else {
            0int
        }),
    decreases s.len(),
{
    let t = s.update(i, v);
    if i == s.len() - 1 {
        assert(t.drop_last() =~= s.drop_last());
    } else {
        lemma_count_update(s.drop_last(), i, v);
        assert(t.drop_last() =~= s.drop_last().update(i, v));
    }
}

/// Two sequences with the same set entries, whatever their lengths, count alike.
pub proof fn lemma_count_agree(s: Seq<bool>, t: Seq<bool>)
    requires
        forall|i: int| ((0 <= i < s.len() && s[i]) == (0 <= i < t.len() && t[i])),
    ensures
        count_set(s) == count_set(t),
    decreases s.len() + t.len(),
{
    if s.len() > t.len() {
        let u = s.drop_last();
        assert(!s[s.len() - 1]);
        assert forall|i: int| ((0 <= i < u.len() && u[i]) == (0 <= i < t.len() && t[i])) by {
            if 0 <= i < u.len() {
                assert(u[i] == s[i]);
            }
        }
        lemma_count_agree(u, t);
    } else if t.len() > s.len() {
        let u = t.drop_last();
        assert(!t[t.len() - 1]);
        assert forall|i: int| ((0 <= i < s.len() && s[i]) == (0 <= i < u.len() && u[i])) by {
            if 0 <= i < u.len() {
                assert(u[i] == t[i]);
            }
        }
        lemma_count_agree(s, u);
    } else if s.len() > 0 {
        let a = s.drop_last();
        let b = t.drop_last();
        assert(s[s.len() - 1] == t[t.len() - 1]);
        assert forall|i: int| ((0 <= i < a.len() && a[i]) == (0 <= i < b.len() && b[i])) by {
            if 0 <= i < a.len() {
                assert(a[i] == s[i] && b[i] == t[i]);
            }
        }
        lemma_count_agree(a, b);
    }
}

/// Entry `i` is set in `t` exactly when it is set in `s` or is `x`.
pub open spec fn set_with(s: Seq<bool>, t: Seq<bool>, x: int, i: int) -> bool {
    (0 <= i < t.len() && t[i]) == ((0 <= i < s.len() && s[i]) || i == x)
}

/// Adding one index `x` that is not set to the set entries of `s` counts one more.
pub proof fn lemma_count_insert(s: Seq<bool>, t: Seq<bool>, x: int)
    requires
        0 <= x,
        !(x < s.len() && s[x]),
        forall|i: int| #[trigger] set_with(s, t, x, i),
    ensures
        count_set(t) == count_set(s) + 1,
{
    let len = if s.len() > x + 1 { s.len() as int } else { x + 1 };
    let w = Seq::new(len as nat, |i: int| i < s.len() && s[i]);
    assert forall|i: int| ((0 <= i < s.len() && s[i]) == (0 <= i < w.len() && w[i])) by {}
    lemma_count_agree(s, w);
    lemma_count_update(w, x, true);
    let v = w.update(x, true);
    assert forall|i: int| ((0 <= i < t.len() && t[i]) == (0 <= i < v.len() && v[i])) by {
        assert(set_with(s, t, x, i));
        if i == x {
            assert(v[i]);
        } else if 0 <= i < v.len() {
            assert(v[i] == w[i]);
        }
    }
    lemma_count_agree(t, v);
}

/// A sequence whose only set entry is its last counts one.
pub proof fn lemma_count_single(k: int)
    requires
        0 <= k,
    ensures
        count_set(Seq::new((k + 1) as nat, |i: int| i == k)) == 1,
{
    let t = Seq::new((k + 1) as nat, |i: int| i == k);
    let u = t.drop_last();
    assert forall|i: int| 0 <= i < u.len() implies !#[trigger] u[i] by {}
    lemma_count_none(u);
}

/// The count is positive exactly when some entry is set.
pub proof fn lemma_count_positive(s: Seq<bool>)
    ensures
        (count_set(s) > 0) == (exists|i: int| 0 <= i < s.len() && #[trigger] s[i]),
    decreases s.len(),
{
    if s.len() > 0 {
        lemma_count_positive(s.drop_last());
        if exists|i: int| 0 <= i < s.drop_last().len() && #[trigger] s.drop_last()[i] {
            let i = choose|i: int| 0 <= i < s.drop_last().len() && #[trigger] s.drop_last()[i];
            assert(s[i]);
        }
        if exists|i: int| 0 <= i < s.len() && #[trigger] s[i] {
            let i = choose|i: int| 0 <= i < s.len() && #[trigger] s[i];
            if i < s.len() - 1 {
                assert(s.drop_last()[i]);
            }
        }
    }
}

/// The count never exceeds the length.
pub proof fn lemma_count_bound(s: Seq<bool>)
    ensures
        count_set(s) <= s.len(),
    decreases s.len(),
{
    if s.len() > 0 {
        lemma_count_bound(s.drop_last());
    }
}

/// Count of a sequence with no entry set.
pub proof fn lemma_count_none(s: Seq<bool>)
    requires
        forall|i: int| 0 <= i < s.len() ==> !#[trigger] s[i],
    ensures
        count_set(s) == 0,
{
    lemma_count_positive(s);
}

/// `2^e`.
pub open spec fn pow2(e: nat) -> nat {
    pow(2, e)
}

/// `2^(e+1) == 2 * 2^e`, and powers of two are positive.
pub proof fn lemma_pow2_step(e: nat)
    ensures
        pow2(e + 1) == 2 * pow2(e),
        pow2(e) >= 1,
{
    crate::util::lemma_pow_positive(2, e);
    assert(pow(2, e + 1) == 2 * pow(2, e));
}

/// Index of the block of order `o + d` that contains block `i` of order `o`.
pub open spec fn anc(i: int, d: nat) -> int
    decreases d,
{
    if d == 0 {
        i
    } else {
        anc(i, (d - 1) as nat) / 2
    }
}

/// The ancestor at distance one is the parent.
pub proof fn lemma_anc_one(i: int)
    ensures
        anc(i, 1) == i / 2,
{
    assert(anc(i, 0) == i);
}

/// Taking ancestors twice adds the distances.
pub proof fn lemma_anc_add(i: int, a: nat, b: nat)
    requires
        i >= 0,
    ensures
        anc(anc(i, a), b) == anc(i, a + b),
        anc(i, a) >= 0,
    decreases b,
{
    if b > 0 {
        lemma_anc_add(i, a, (b - 1) as nat);
        assert(anc(i, (a + b) as nat) == anc(i, (a + b - 1) as nat) / 2);
    } else {
        lemma_anc_nonneg(i, a);
    }
}

/// Ancestors of a non-negative index are non-negative.
pub proof fn lemma_anc_nonneg(i: int, a: nat)
    requires
        i >= 0,
    ensures
        anc(i, a) >= 0,
    decreases a,
{
    if a > 0 {
        lemma_anc_nonneg(i, (a - 1) as nat);
    }
}

/// The ancestor at distance `d + 1` is the parent of the ancestor at distance `d`, and
/// also the ancestor at distance `d` of the parent.
pub proof fn lemma_anc_parent(i: int, d: nat)
    requires
        i >= 0,
    ensures
        anc(i, d + 1) == anc(i, d) / 2,
        anc(i, d + 1) == anc(i / 2, d),
{
    lemma_anc_add(i, 1, d);
    lemma_anc_add(i, d, 1);
    lemma_anc_one(i);
    lemma_anc_one(anc(i, d));
    assert(anc(anc(i, d), 1) == anc(i, d) / 2);
}

/// Number of whole blocks of order `o` in `n` frames.
pub open spec fn blocks_at(n: nat, o: nat) -> nat
    decreases o,
{
    if o == 0 {
        n
    } else {
        blocks_at(n, (o - 1) as nat) / 2
    }
}

/// Whole blocks of order `o` cover at most `n` frames.
pub proof fn lemma_blocks_at_bound(n: nat, o: nat)
    ensures
        blocks_at(n, o) * pow2(o) <= n,
    decreases o,
{
    if o > 0 {
        lemma_blocks_at_bound(n, (o - 1) as nat);
        lemma_pow2_step((o - 1) as nat);
        let b = blocks_at(n, (o - 1) as nat);
        let p = pow2((o - 1) as nat);
        let q = b / 2;
        assert(q * (2 * p) <= b * p) by (nonlinear_arith)
            requires
                2 * q <= b,
                p >= 0,
        ;
        assert(pow2(o) == 2 * p);
        assert(blocks_at(n, o) == q);
        assert(blocks_at(n, o) * pow2(o) == q * (2 * p));
    } else {
        assert(pow2(0) == 1);
    }
}

/// Whole blocks never increase with the order.
pub proof fn lemma_blocks_at_mono(n: nat, a: nat, b: nat)
    requires
        a <= b,
    ensures
        blocks_at(n, b) <= blocks_at(n, a),
    decreases b,
{
    if a < b {
        lemma_blocks_at_mono(n, a, (b - 1) as nat);
    }
}

/// More frames never give fewer whole blocks.
pub proof fn lemma_blocks_at_mono_frames(a: nat, b: nat, o: nat)
    requires
        a <= b,
    ensures
        blocks_at(a, o) <= blocks_at(b, o),
    decreases o,
{
    if o > 0 {
        lemma_blocks_at_mono_frames(a, b, (o - 1) as nat);
    }
}

/// Blocks of order `o` that lie past the first `start` blocks are not inside any of the
/// first `blocks_at(n, o + d)` blocks of a larger order, when `start == 2 * blocks_at(n, o+1)`.
pub proof fn lemma_anc_past_blocks(n: nat, o: nat, i: int, d: nat)
    requires
        d >= 1,
        i >= 2 * blocks_at(n, o + 1),
    ensures
        anc(i, d) >= blocks_at(n, o + d),
    decreases d,
{
    if d == 1 {
        assert(anc(i, 1) == anc(i, 0) / 2);
    } else {
        lemma_anc_past_blocks(n, o, i, (d - 1) as nat);
        assert(anc(i, d) == anc(i, (d - 1) as nat) / 2);
        assert(blocks_at(n, o + d) == blocks_at(n, (o + d - 1) as nat) / 2);
    }
}

/// No two marked blocks overlap: a marked block of order `o` never lies inside a marked
/// block of a larger order `p`.
pub open spec fn disjoint(m: spec_fn(int, int) -> bool, levels: int) -> bool {
    forall|o: int, i: int, p: int, j: int|
        #![trigger m(o, i), m(p, j)]
        0 <= o < p < levels && 0 <= i && m(o, i) && m(p, j) ==> anc(i, (p - o) as nat) != j
}

/// Replacing a marked block of order `o > 0` by its two halves keeps marks disjoint.
pub proof fn lemma_split_disjoint(
    m: spec_fn(int, int) -> bool,
    n: spec_fn(int, int) -> bool,
    levels: int,
    o: int,
    k: int,
)
    requires
        disjoint(m, levels),
        1 <= o < levels,
        k >= 0,
        m(o, k),
        forall|p: int, j: int|
            #[trigger] n(p, j) == if p == o && j == k {
                false
            } else if p == o - 1 && (j == 2 * k || j == 2 * k + 1) {
                true
            } else {
                m(p, j)
            },
    ensures
        disjoint(n, levels),
{
    assert forall|a: int, i: int, p: int, j: int|
        #![trigger n(a, i), n(p, j)]
        0 <= a < p < levels && 0 <= i && n(a, i) && n(p, j) implies anc(i, (p - a) as nat)
        != j by {
        let d = (p - a) as nat;
        let lower_new = a == o - 1 && (i == 2 * k || i == 2 * k + 1);
        let upper_new = p == o - 1 && (j == 2 * k || j == 2 * k + 1);
        if upper_new {
            // The lower block is an old mark inside one half of block `k`, so inside `k`.
            assert(m(a, i));
            if anc(i, d) == j {
                lemma_anc_parent(i, d);
                assert(anc(i, d + 1) == k);
                assert(m(o, k));
                assert(anc(i, (o - a) as nat) != k);
            }
        } else if lower_new {
            assert(m(p, j));
            lemma_anc_add(i, 1, (d - 1) as nat);
            lemma_anc_one(i);
            assert(anc(i, 1) == k);
            if d == 1 {
                assert(!(p == o && j == k));
            } else {
                if anc(i, d) == j {
                    assert(anc(k, (d - 1) as nat) == j);
                    assert(anc(k, (p - o) as nat) != j);
                }
            }
        } else {
            assert(m(a, i) && m(p, j));
        }
    }
}

/// Replacing two marked halves of block `k` of order `o + 1` by that block keeps marks
/// disjoint.
pub proof fn lemma_merge_disjoint(
    m: spec_fn(int, int) -> bool,
    n: spec_fn(int, int) -> bool,
    levels: int,
    o: int,
    k: int,
)
    requires
        disjoint(m, levels),
        0 <= o && o + 1 < levels,
        k >= 0,
        m(o, 2 * k),
        m(o, 2 * k + 1),
        forall|p: int, j: int|
            #[trigger] n(p, j) == if p == o + 1 && j == k {
                true
            } else if p == o && (j == 2 * k || j == 2 * k + 1) {
                false
            } else {
                m(p, j)
            },
    ensures
        disjoint(n, levels),
{
    assert forall|a: int, i: int, p: int, j: int|
        #![trigger n(a, i), n(p, j)]
        0 <= a < p < levels && 0 <= i && n(a, i) && n(p, j) implies anc(i, (p - a) as nat)
        != j by {
        let d = (p - a) as nat;
        let upper_new = p == o + 1 && j == k;
        let lower_new = a == o + 1 && i == k;
        if upper_new {
            assert(m(a, i));
            if anc(i, d) == j {
                if a == o {
                    lemma_anc_one(i);
                    assert(i == 2 * k || i == 2 * k + 1);
                    assert(false);
                } else {
                    // The half containing block `i` was marked, and `i` lies inside it.
                    lemma_anc_parent(i, (d - 1) as nat);
                    let h = anc(i, (d - 1) as nat);
                    lemma_anc_nonneg(i, (d - 1) as nat);
                    assert(h / 2 == k);
                    assert(h == 2 * k || h == 2 * k + 1);
                    assert(m(o, h));
                }
            }
        } else if lower_new {
            assert(m(p, j));
            if anc(i, d) == j {
                lemma_anc_add(2 * k, 1, d);
                lemma_anc_one(2 * k);
                assert(anc(2 * k, 1) == k);
                assert(m(o, 2 * k));
                assert(anc(2 * k, (p - o) as nat) != j);
            }
        } else {
            assert(m(a, i) && m(p, j));
        }
    }
}

/// The ancestor at distance `d` is the index divided by `2^d`.
pub proof fn lemma_anc_div(i: int, d: nat)
    requires
        i >= 0,
    ensures
        anc(i, d) == i / (pow2(d) as int),
    decreases d,
{
    lemma_pow2_step(0);
    if d > 0 {
        lemma_anc_div(i, (d - 1) as nat);
        lemma_pow2_step((d - 1) as nat);
        let p = pow2((d - 1) as nat) as int;
        vstd::arithmetic::div_mod::lemma_div_denominator(i, p, 2);
        assert(p * 2 == pow2(d));
        assert(anc(i, d) == anc(i, (d - 1) as nat) / 2);
        assert(anc(i, d) == (i / p) / 2);
        assert(anc(i, d) == i / (p * 2));
    } else {
        assert(pow2(0) == 1) by {
            assert(pow(2, 0) == 1);
        }
        assert(i / 1 == i);
    }
}

/// `2^(a+b) == 2^a * 2^b`.
pub proof fn lemma_pow2_add(a: nat, b: nat)
    ensures
        pow2(a + b) == pow2(a) * pow2(b),
    decreases b,
{
    if b == 0 {
        assert(pow2(0) == 1) by {
            assert(pow(2, 0) == 1);
        }
    } else {
        lemma_pow2_add(a, (b - 1) as nat);
        lemma_pow2_step((a + b - 1) as nat);
        lemma_pow2_step((b - 1) as nat);
        assert(pow2(a) * (2 * pow2((b - 1) as nat)) == 2 * (pow2(a) * pow2((b - 1) as nat))) by (nonlinear_arith);
    }
}

/// Block `i` of order `o` and block `j` of order `p > o` share no frame unless block `j`
/// is the ancestor of block `i`.
pub proof fn lemma_blocks_apart(o: nat, i: int, p: nat, j: int)
    requires
        o < p,
        i >= 0,
        j >= 0,
        anc(i, (p - o) as nat) != j,
    ensures
        (i + 1) * pow2(o) <= j * pow2(p) || (j + 1) * pow2(p) <= i * pow2(o),
{
    let d = (p - o) as nat;
    lemma_anc_div(i, d);
    lemma_pow2_add(o, d);
    lemma_pow2_step(d);
    lemma_pow2_step(o);
    let q = pow2(d) as int;
    let r = pow2(o) as int;
    assert(pow2(p) == r * q);
    let a = i / q;
    vstd::arithmetic::div_mod::lemma_fundamental_div_mod(i, q);
    if a < j {
        assert(i < j * q) by (nonlinear_arith)
            requires
                i == q * a + i % q,
                i % q < q,
                a + 1 <= j,
                q >= 1,
        ;
        assert((i + 1) * r <= j * (r * q)) by (nonlinear_arith)
            requires
                i + 1 <= j * q,
                r >= 1,
        ;
    } else {
        assert(a >= j + 1);
        assert(i >= (j + 1) * q) by (nonlinear_arith)
            requires
                i == q * a + i % q,
                i % q >= 0,
                a >= j + 1,
                q >= 1,
        ;
        assert((j + 1) * (r * q) <= i * r) by (nonlinear_arith)
            requires
                i >= (j + 1) * q,
                r >= 1,
        ;
    }
}

/// The ancestor at distance `e` of block `x * 2^d` is `x * 2^(d - e)`, for `e <= d`.
pub proof fn lemma_anc_scaled(x: int, d: nat, e: nat)
    requires
        x >= 0,
        e <= d,
    ensures
        anc(x * pow2(d), e) == x * pow2((d - e) as nat),
{
    lemma_pow2_step(d);
    lemma_pow2_step(e);
    lemma_pow2_step((d - e) as nat);
    lemma_pow2_add((d - e) as nat, e);
    let a = pow2((d - e) as nat) as int;
    let b = pow2(e) as int;
    assert(x * pow2(d) >= 0) by (nonlinear_arith)
        requires
            x >= 0,
    ;
    lemma_anc_div(x * pow2(d), e);
    assert(pow2(d) == a * b);
    assert(x * (a * b) == (x * a) * b) by (nonlinear_arith);
    vstd::arithmetic::div_mod::lemma_div_multiples_vanish(x * a, b);
    assert((b * (x * a)) / b == x * a);
    assert(b * (x * a) == x * (a * b)) by (nonlinear_arith);
}

/// `x * 2^d` is even when `d >= 1`, so its buddy is the next block.
pub proof fn lemma_scaled_even(x: int, d: nat)
    requires
        d >= 1,
    ensures
        (x * pow2(d)) % 2 == 0,
{
    lemma_pow2_step((d - 1) as nat);
    let p = pow2((d - 1) as nat) as int;
    assert(x * pow2(d) == 2 * (x * p)) by (nonlinear_arith)
        requires
            pow2(d) == 2 * p,
    ;
}

} // verus!
