//! Powers of two and rounded-up logarithms on machine words.

use vstd::arithmetic::power2::*;
use vstd::bits::*;
use vstd::prelude::*;

verus! {

/// `k` is the least exponent with `m <= 2^k`.
pub open spec fn is_ceil_log2(m: nat, k: nat) -> bool {
    m <= pow2(k) && (k > 0 ==> pow2((k - 1) as nat) < m)
}

/// The base-2 logarithm of `m`, rounded up; `0` for `m == 0`.
pub open spec fn spec_log2(m: nat) -> nat {
    choose|k: nat| is_ceil_log2(m, k)
}

/// At most one exponent is the rounded-up logarithm of a number.
pub proof fn lemma_ceil_log2_unique(m: nat, j: nat, k: nat)
    requires
        is_ceil_log2(m, j),
        is_ceil_log2(m, k),
    ensures
        j == k,
{
    if j < k {
        if j < k - 1 {
            lemma_pow2_strictly_increases(j, (k - 1) as nat);
        }
    } else if k < j {
        if k < j - 1 {
            lemma_pow2_strictly_increases(k, (j - 1) as nat);
        }
    }
}

/// The logarithm of a power of two is its exponent.
pub proof fn lemma_log2_of_pow2(k: nat)
    ensures
        spec_log2(pow2(k)) == k,
{
    if k > 0 {
        lemma_pow2_strictly_increases((k - 1) as nat, k);
    }
    assert(is_ceil_log2(pow2(k), k));
    lemma_ceil_log2_unique(pow2(k), spec_log2(pow2(k)), k);
}

/// The base-2 logarithm of `m`, rounded up.
pub fn log2(m: usize) -> (r: usize)
    ensures
        r == spec_log2(m as nat),
        is_ceil_log2(m as nat, r as nat),
        r <= usize::BITS,
{
    let mut k: usize = 0;
    let mut p: u128 = 1;
    proof {
        lemma2_to64();
    }
    while p < m as u128
        invariant
            k <= 64,
            p == pow2(k as nat),
            k > 0 ==> pow2((k - 1) as nat) < m,
        decreases 64 - k,
    {
        proof {
            lemma_pow2_unfold((k + 1) as nat);
            if k == 64 {
                lemma2_to64();
            }
        }
        p = p * 2;
        k = k + 1;
    }
    proof {
        assert(is_ceil_log2(m as nat, k as nat));
        if k > usize::BITS {
            lemma2_to64();
            if k - 1 > usize::BITS {
                lemma_pow2_strictly_increases(usize::BITS as nat, (k - 1) as nat);
            }
        }
        lemma_ceil_log2_unique(m as nat, spec_log2(m as nat), k as nat);
    }
    k
}

/// `2^k` as a machine word.
pub fn pow2_u64(k: u64) -> (r: u64)
    requires
        k < 64,
    ensures
        r == pow2(k as nat),
{
    proof {
        lemma_u64_pow2_no_overflow(k as nat);
        lemma_u64_shl_is_mul(1, k);
    }
    1u64 << k
}

/// The least power of two that is not below `n`.
pub open spec fn spec_next_power_of_two(n: nat) -> nat {
    pow2(spec_log2(n))
}

/// The least power of two that is not below `n`.
pub fn next_power_of_two(n: usize) -> (r: usize)
    requires
        spec_next_power_of_two(n as nat) <= usize::MAX,
    ensures
        r == spec_next_power_of_two(n as nat),
        r >= n,
{
    let k = log2(n);
    proof {
        lemma2_to64();
    }
    pow2_u64(k as u64) as usize
}

} // verus!
