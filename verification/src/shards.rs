//! How many shards an interner has, and which shard a hash belongs to.
use vstd::arithmetic::power2::*;
use vstd::prelude::*;

verus! {

/// The first of `p`, `2 * p`, `4 * p`, ... that is not below `n`.
pub open spec fn doubled_up_to(p: nat, n: nat) -> nat
    decreases
            if p < n {
                n - p
            } else {
                0
            },
{
    if p >= n || p == 0 {
        p
    } else {
        doubled_up_to(2 * p, n)
    }
}

/// The smallest power of two that is not below `n`.
pub open spec fn next_pow2(n: nat) -> nat {
    doubled_up_to(1, n)
}

/// `a` divided by `b`, rounded up.
pub open spec fn ceil_div(a: int, b: int) -> int {
    if a % b == 0 {
        a / b
    } else {
        a / b + 1
    }
}

/// Rounding up gives the least number of parts that hold all.
pub proof fn ceil_div_is_the_least_that_holds(a: int, b: int)
    requires
        0 <= a,
        0 < b,
    ensures
        ceil_div(a, b) * b >= a,
        (ceil_div(a, b) - 1) * b < a,
{
    vstd::arithmetic::div_mod::lemma_fundamental_div_mod(a, b);
    let q = a / b;
    assert(b * q == q * b) by (nonlinear_arith);
    assert((q + 1) * b == q * b + b) by (nonlinear_arith);
    assert((q - 1) * b == q * b - b) by (nonlinear_arith);
}

proof fn lemma_doubled_up_to(k: nat, n: nat)
    ensures
        is_pow2(doubled_up_to(pow2(k), n) as int),
        n <= doubled_up_to(pow2(k), n),
        doubled_up_to(pow2(k), n) >= pow2(k),
        doubled_up_to(pow2(k), n) > pow2(k) ==> doubled_up_to(pow2(k), n) < 2 * n,
    decreases
            if pow2(k) < n {
                n - pow2(k)
            } else {
                0
            },
{
    lemma_pow2_pos(k);
    lemma_pow2_unfold(k + 1);
    is_pow2_equiv(pow2(k) as int);
    lemma_pow2(k);
    assert(is_pow2_exists(pow2(k) as int));
    if pow2(k) < n {
        lemma_doubled_up_to((k + 1) as nat, n);
    }
}

/// Rounding up to a power of two gives a power of two that is not below the
/// number and below twice the number.
pub proof fn next_pow2_bounds(n: nat)
    ensures
        is_pow2(next_pow2(n) as int),
        n <= next_pow2(n),
        1 <= next_pow2(n),
        n > 1 ==> next_pow2(n) < 2 * n,
        n <= 1 ==> next_pow2(n) == 1,
{
    lemma2_to64();
    lemma_doubled_up_to(0, n);
}

proof fn lemma_doubled_up_to_pow2(j: nat, k: nat)
    requires
        j <= k,
    ensures
        doubled_up_to(pow2(j), pow2(k)) == pow2(k),
    decreases k - j,
{
    lemma_pow2_pos(j);
    if j < k {
        lemma_pow2_strictly_increases(j, k);
        lemma_pow2_unfold(j + 1);
        lemma_doubled_up_to_pow2((j + 1) as nat, k);
    }
}

/// A power of two is rounded to itself.
pub proof fn next_pow2_of_pow2(n: nat)
    requires
        is_pow2(n as int),
    ensures
        next_pow2(n) == n,
{
    is_pow2_equiv(n as int);
    let k = choose|k: nat| vstd::arithmetic::power::pow(2, k) == n;
    lemma_pow2(k);
    lemma2_to64();
    lemma_doubled_up_to_pow2(0, k);
}

/// The smallest power of two that is not below `n`.
pub(crate) fn next_power_of_two(n: usize) -> (p: usize)
    requires
        n <= usize::MAX / 2 + 1,
    ensures
        p == next_pow2(n as nat),
{
    let mut p: usize = 1;
    proof {
        lemma2_to64();
    }
    while p < n
        invariant
            p >= 1,
            n <= usize::MAX / 2 + 1,
            doubled_up_to(p as nat, n as nat) == next_pow2(n as nat),
        decreases
                if p < n {
                    n - p
                } else {
                    0
                },
    {
        assert(doubled_up_to(p as nat, n as nat) == doubled_up_to(2 * p as nat, n as nat));
        p = p * 2;
    }
    p
}

/// `a` divided by `b`, rounded up.
pub(crate) fn div_ceil(a: usize, b: usize) -> (q: usize)
    requires
        b > 0,
    ensures
        q == ceil_div(a as int, b as int),
{
    let q: usize = a / b;
    if a % b == 0 {
        q
    } else {
        assert(a / b < usize::MAX) by {
            vstd::arithmetic::div_mod::lemma_fundamental_div_mod(a as int, b as int);
            assert(q * b >= q) by (nonlinear_arith)
                requires
                    b >= 1,
                    q >= 0,
            ;
        }
        q + 1
    }
}

/// The shard for a hash, where `mask` is one less than the number of shards.
pub open spec fn shard_for(hash: u64, mask: u64) -> int {
    (hash & mask) as int
}

pub proof fn lemma_shard_in_range(hash: u64, mask: u64)
    ensures
        0 <= shard_for(hash, mask) <= mask,
{
    assert(hash & mask <= mask) by (bit_vector);
}

} // verus!
