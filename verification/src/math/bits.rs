use vstd::arithmetic::div_mod::{
    lemma_div_denominator, lemma_div_is_ordered, lemma_div_multiples_vanish,
    lemma_fundamental_div_mod,
};
use vstd::arithmetic::power2::{lemma_pow2_adds, lemma_pow2_pos, lemma_pow2_strictly_increases, pow2};
use vstd::bits::lemma_u64_shl_is_mul;
use vstd::prelude::*;

verus! {

/// `2^p` as a `u64`.
pub fn pow2_u64(p: u32) -> (r: u64)
    requires
        p < 64,
    ensures
        r == pow2(p as nat),
{
    proof {
        lemma_pow2_strictly_increases(p as nat, 64);
        vstd::arithmetic::power2::lemma2_to64_rest();
        lemma_u64_shl_is_mul(1u64, p as u64);
    }
    1u64 << p
}

/// Floor of the base-2 logarithm of a positive `u64`.
pub fn ilog2_u64(v: u64) -> (r: u32)
    requires
        v >= 1,
    ensures
        pow2(r as nat) <= v < pow2(r as nat + 1),
        r < 64,
{
    let mut x: u64 = v;
    let mut r: u32 = 0;
    proof {
        vstd::arithmetic::power2::lemma2_to64();
    }
    while x >= 2
        invariant
            1 <= x,
            r < 64,
            x == v as int / (pow2(r as nat) as int),
            pow2(r as nat) <= v,
        decreases x,
    {
        proof {
            let p = pow2(r as nat) as int;
            lemma_pow2_pos(r as nat);
            lemma_pow2_adds(r as nat, 1);
            vstd::arithmetic::power2::lemma2_to64();
            // x >= 2 means v >= 2 * pow2(r), so the next power still bounds v.
            lemma_fundamental_div_mod(v as int, p);
            assert(v as int == p * (v as int / p) + (v as int) % p);
            assert(p * (v as int / p) >= p * 2) by (nonlinear_arith)
                requires
                    v as int / p >= 2,
                    p > 0,
            ;
            lemma_div_denominator(v as int, p, 2);
            // r stays below 64 because pow2(64) exceeds u64::MAX.
            if r as nat + 1 >= 64 {
                lemma_pow2_strictly_increases(63, r as nat + 1);
                vstd::arithmetic::power2::lemma2_to64_rest();
            }
        }
        x = x / 2;
        r = r + 1;
    }
    proof {
        let p = pow2(r as nat) as int;
        lemma_pow2_pos(r as nat);
        lemma_pow2_adds(r as nat, 1);
        vstd::arithmetic::power2::lemma2_to64();
        lemma_fundamental_div_mod(v as int, p);
        assert(p * (v as int / p) == p * 1) by (nonlinear_arith)
            requires
                v as int / p == 1,
        ;
    }
    r
}

/// Floor of the base-2 logarithm, as a recursive specification.
pub open spec fn spec_log2(n: int) -> int
    decreases n,
{
    if n < 2 {
        0
    } else {
        1 + spec_log2(n / 2)
    }
}

/// The power-of-two bracket determines the logarithm.
pub proof fn lemma_log2_unique(n: int, r: nat)
    requires
        1 <= n,
        pow2(r) <= n < pow2(r + 1),
    ensures
        spec_log2(n) == r,
    decreases r,
{
    vstd::arithmetic::power2::lemma2_to64();
    if r == 0 {
    } else {
        vstd::arithmetic::power2::lemma_pow2_unfold(r);
        vstd::arithmetic::power2::lemma_pow2_unfold(r + 1);
        lemma_pow2_pos((r - 1) as nat);
        lemma_pow2_pos(r);
        let p = pow2((r - 1) as nat) as int;
        let q = pow2(r) as int;
        // n / 2 keeps the bracket one level down.
        lemma_div_is_ordered(2 * p, n, 2);
        lemma_div_multiples_vanish(p, 2);
        assert(2 * p == p * 2);
        lemma_div_is_ordered(n, 2 * q - 1, 2);
        vstd::arithmetic::div_mod::lemma_div_multiples_vanish_fancy(q - 1, 1, 2);
        assert((2 * (q - 1) + 1) == 2 * q - 1);
        lemma_log2_unique(n / 2, (r - 1) as nat);
    }
}

} // verus!
