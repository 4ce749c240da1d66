//! Integer logarithms.
use vstd::prelude::*;

verus! {

/// `base` raised to the power `exp`.
pub open spec fn pow(base: nat, exp: nat) -> nat
    decreases exp,
{
    if exp == 0 {
        1
    } else {
        base * pow(base, (exp - 1) as nat)
    }
}

/// `k` is the least exponent with `base^k >= value`.
pub open spec fn is_ceil_log(base: nat, value: nat, k: nat) -> bool {
    &&& pow(base, k) >= value
    &&& forall|j: nat| j < k ==> #[trigger] pow(base, j) < value
}

/// The least exponent with `base^k >= value`.
pub open spec fn ceil_log(base: nat, value: nat) -> nat {
    choose|k: nat| is_ceil_log(base, value, k)
}

/// At most one exponent is the least one.
pub proof fn lemma_ceil_log_unique(base: nat, value: nat, k: nat)
    requires
        is_ceil_log(base, value, k),
    ensures
        ceil_log(base, value) == k,
{
    let c = ceil_log(base, value);
    assert(is_ceil_log(base, value, c));
    if c < k {
        assert(pow(base, c) < value);
    }
    if k < c {
        assert(pow(base, k) < value);
    }
}

/// Powers of a positive base are positive.
pub proof fn lemma_pow_positive(base: nat, k: nat)
    requires
        base >= 1,
    ensures
        pow(base, k) >= 1,
    decreases k,
{
    if k > 0 {
        lemma_pow_positive(base, (k - 1) as nat);
        assert(base * pow(base, (k - 1) as nat) >= 1) by (nonlinear_arith)
            requires
                base >= 1,
                pow(base, (k - 1) as nat) >= 1,
        ;
    }
}

/// Powers of a base of at least two grow.
pub proof fn lemma_pow_grows(base: nat, a: nat, b: nat)
    requires
        base >= 2,
        a <= b,
    ensures
        pow(base, a) <= pow(base, b),
        a < b ==> pow(base, a) < pow(base, b),
        pow(base, a) >= 1,
    decreases b,
{
    lemma_pow_positive(base, a);
    if a < b {
        lemma_pow_grows(base, a, (b - 1) as nat);
        lemma_pow_positive(base, (b - 1) as nat);
        assert(pow(base, b) == base * pow(base, (b - 1) as nat));
        assert(base * pow(base, (b - 1) as nat) >= 2 * pow(base, (b - 1) as nat)) by (nonlinear_arith)
            requires
                base >= 2,
        ;
    }
}

/// The smallest `k` with `base^k >= value`, that is the base-`base` logarithm of
/// `value` rounded up.
pub fn ilog_ceil(base: usize, value: usize) -> (r: usize)
    requires
        base >= 2,
        value >= 1,
    ensures
        is_ceil_log(base as nat, value as nat, r as nat),
        r == ceil_log(base as nat, value as nat),
{
    // First the logarithm rounded down: the largest `log` with `base^log <= value`.
    let mut log: usize = 0;
    let mut power: usize = 1;
    while power <= value / base
        invariant
            base >= 2,
            value >= 1,
            power == pow(base as nat, log as nat),
            1 <= power <= value,
            log <= power,
        decreases value - power,
    {
        proof {
            assert(power * base <= value) by (nonlinear_arith)
                requires
                    power <= value / base,
                    base >= 2,
            ;
            assert(power * base >= 2 * power) by (nonlinear_arith)
                requires
                    base >= 2,
            ;
        }
        let ghost old_power = power;
        power = power * base;
        log = log + 1;
        proof {
            assert(pow(base as nat, log as nat) == base * pow(base as nat, (log - 1) as nat));
            vstd::arithmetic::mul::lemma_mul_is_commutative(old_power as int, base as int);
        }
    }
    proof {
        assert(value < power * base) by (nonlinear_arith)
            requires
                power > value / base,
                base >= 2,
        ;
        assert forall|j: nat| j < log implies #[trigger] pow(base as nat, j) < value || pow(
            base as nat,
            j,
        ) < value by {
            lemma_pow_grows(base as nat, j, log as nat);
        }
        assert(pow(base as nat, (log + 1) as nat) == base * pow(base as nat, log as nat));
    }
    if value > power {
        proof {
            assert forall|j: nat| j < log + 1 implies #[trigger] pow(base as nat, j) < value by {
                lemma_pow_grows(base as nat, j, log as nat);
            }
        }
        proof {
            lemma_ceil_log_unique(base as nat, value as nat, (log + 1) as nat);
        }
        log + 1
    } else {
        proof {
            assert forall|j: nat| j < log implies #[trigger] pow(base as nat, j) < value by {
                lemma_pow_grows(base as nat, j, log as nat);
                if pow(base as nat, j) >= value {
                    lemma_pow_grows(base as nat, j + 1, log as nat);
                    assert(pow(base as nat, (j + 1) as nat) == base * pow(base as nat, j));
                    assert(base * pow(base as nat, j) >= 2 * pow(base as nat, j)) by (nonlinear_arith)
                        requires
                            base >= 2,
                    ;
                }
            }
            lemma_ceil_log_unique(base as nat, value as nat, log as nat);
        }
        log
    }
}

} // verus!

verus! {

/// `k` is the largest exponent with `base^k <= value`.
pub open spec fn is_floor_log(base: nat, value: nat, k: nat) -> bool {
    pow(base, k) <= value < pow(base, k + 1)
}

/// The largest exponent with `base^k <= value`.
pub open spec fn floor_log(base: nat, value: nat) -> nat {
    choose|k: nat| is_floor_log(base, value, k)
}

/// At most one exponent is the largest one.
pub proof fn lemma_floor_log_unique(base: nat, value: nat, k: nat)
    requires
        base >= 2,
        is_floor_log(base, value, k),
    ensures
        floor_log(base, value) == k,
{
    let c = floor_log(base, value);
    assert(is_floor_log(base, value, c));
    if c < k {
        lemma_pow_grows(base, c + 1, k);
    }
    if k < c {
        lemma_pow_grows(base, k + 1, c);
    }
}

/// The base-`base` logarithm of `value` rounded down.
pub fn ilog_floor(base: usize, value: usize) -> (r: usize)
    requires
        base >= 2,
        value >= 1,
    ensures
        is_floor_log(base as nat, value as nat, r as nat),
        r == floor_log(base as nat, value as nat),
{
    let mut log: usize = 0;
    let mut power: usize = 1;
    while power <= value / base
        invariant
            base >= 2,
            value >= 1,
            power == pow(base as nat, log as nat),
            1 <= power <= value,
            log <= power,
        decreases value - power,
    {
        proof {
            assert(power * base <= value) by (nonlinear_arith)
                requires
                    power <= value / base,
                    base >= 2,
            ;
            assert(power * base >= 2 * power) by (nonlinear_arith)
                requires
                    base >= 2,
            ;
        }
        let ghost old_power = power;
        power = power * base;
        log = log + 1;
        proof {
            assert(pow(base as nat, log as nat) == base * pow(base as nat, (log - 1) as nat));
            vstd::arithmetic::mul::lemma_mul_is_commutative(old_power as int, base as int);
        }
    }
    proof {
        assert(value < power * base) by (nonlinear_arith)
            requires
                power > value / base,
                base >= 2,
        ;
        assert(pow(base as nat, (log + 1) as nat) == base * pow(base as nat, log as nat));
        vstd::arithmetic::mul::lemma_mul_is_commutative(power as int, base as int);
        lemma_floor_log_unique(base as nat, value as nat, log as nat);
    }
    log
}

} // verus!
