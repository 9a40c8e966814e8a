use vstd::arithmetic::div_mod::{
    lemma_div_is_ordered, lemma_div_multiples_vanish, lemma_div_pos_is_pos,
    lemma_fundamental_div_mod,
};
use vstd::prelude::*;

verus! {

pub open spec fn abs_int(n: int) -> int {
    if n >= 0 {
        n
    } else {
        -n
    }
}

/// Truncating (round-toward-zero) division: the semantics of `/` on Rust's
/// signed integers.
pub open spec fn trunc_div(n: int, d: int) -> int
    recommends
        d != 0,
{
    if (n < 0) == (d < 0) {
        abs_int(n) / abs_int(d)
    } else {
        -(abs_int(n) / abs_int(d))
    }
}

/// Division rounded half away from zero, with a sign-correct result for every
/// sign combination of numerator and denominator.
pub open spec fn div_round(n: int, d: int) -> int
    recommends
        d != 0,
{
    let m = (abs_int(n) + abs_int(d) / 2) / abs_int(d);
    if (n < 0) == (d < 0) {
        m
    } else {
        -m
    }
}

/// On non-negative arguments, a quotient is monotone in the numerator and
/// bounded by the exact multiples around it.
proof fn lemma_nonneg_div_bounds(n: int, d: int, lo: int, hi: int)
    requires
        0 <= n,
        0 < d,
        0 <= lo,
        lo * d <= n,
        n <= hi * d + (d - 1),
    ensures
        lo <= n / d <= hi,
{
    assert(hi * d == d * hi && lo * d == d * lo) by (nonlinear_arith);
    lemma_div_is_ordered(lo * d, n, d);
    lemma_div_multiples_vanish(lo, d);
    lemma_div_is_ordered(n, hi * d + (d - 1), d);
    assert((d * hi + (d - 1)) / d == hi) by {
        vstd::arithmetic::div_mod::lemma_div_multiples_vanish_fancy(hi, d - 1, d);
    }
}

/// If the rational `n / d` lies between the integers `lo` and `hi` (expressed
/// without division as a sign condition on products), then so do the
/// truncating and the half-away roundings of the quotient.
pub proof fn lemma_rounded_div_between(n: int, d: int, lo: int, hi: int)
    requires
        d != 0,
        lo <= hi,
        (n - lo * d) * (n - hi * d) <= 0,
    ensures
        lo <= trunc_div(n, d) <= hi,
        lo <= div_round(n, d) <= hi,
    decreases (if d < 0 {
        1int
    } else {
        0int
    }),
{
    let an = abs_int(n);
    let ad = abs_int(d);
    // Normalize to non-negative numerator and positive denominator; the sign
    // condition turns into plain interval bounds.
    if d > 0 {
        assert(lo * d <= n <= hi * d) by (nonlinear_arith)
            requires
                d > 0 && lo <= hi && (n - lo * d) * (n - hi * d) <= 0,
        ;
        if n >= 0 {
            let l = if lo >= 0 {
                lo
            } else {
                0
            };
            assert(l * d <= n && n <= hi * d) by (nonlinear_arith)
                requires
                    d > 0 && lo * d <= n <= hi * d && 0 <= n && (lo >= 0 ==> l == lo) && (lo < 0
                        ==> l == 0) && lo <= hi,
            ;
            assert(0 <= hi) by (nonlinear_arith)
                requires
                    d > 0 && n <= hi * d && 0 <= n,
            ;
            lemma_nonneg_div_bounds(n, d, l, hi);
            lemma_nonneg_div_bounds(n + d / 2, d, l, hi);
            assert(trunc_div(n, d) == n / d);
            assert(div_round(n, d) == (n + d / 2) / d);
        } else {
            let h = if hi <= 0 {
                -hi
            } else {
                0
            };
            assert(h * d <= -n && -n <= (-lo) * d) by (nonlinear_arith)
                requires
                    d > 0 && lo * d <= n <= hi * d && n < 0 && (hi <= 0 ==> h == -hi) && (hi > 0
                        ==> h == 0) && lo <= hi,
            ;
            assert(0 <= -lo) by (nonlinear_arith)
                requires
                    d > 0 && lo * d <= n && n < 0,
            ;
            lemma_nonneg_div_bounds(-n, d, h, -lo);
            lemma_nonneg_div_bounds(-n + d / 2, d, h, -lo);
            assert(trunc_div(n, d) == -((-n) / d));
            assert(div_round(n, d) == -(((-n) + d / 2) / d));
        }
    } else {
        // Flip both signs: the quotient and both roundings are unchanged.
        assert((n - lo * d) * (n - hi * d) == ((-n) - hi * (-d)) * ((-n) - lo * (-d)))
            by (nonlinear_arith);
        assert(((-n) - lo * (-d)) * ((-n) - hi * (-d)) == ((-n) - hi * (-d)) * ((-n) - lo * (-d)))
            by (nonlinear_arith);
        lemma_rounded_div_between(-n, -d, lo, hi);
        assert(trunc_div(n, d) == trunc_div(-n, -d));
        if n == 0 {
            // Both roundings of `0 / d` are zero whichever way the signs fall.
            vstd::arithmetic::div_mod::lemma_basic_div(abs_int(d) / 2, abs_int(d));
        }
        assert(div_round(n, d) == div_round(-n, -d));
    }
}

/// Bound on a product from bounds on its factors.
pub proof fn lemma_abs_mul(a: int, b: int, ma: int, mb: int)
    requires
        -ma <= a <= ma,
        -mb <= b <= mb,
    ensures
        -(ma * mb) <= a * b <= ma * mb,
{
    assert(-(ma * mb) <= a * b <= ma * mb) by (nonlinear_arith)
        requires
            -ma <= a <= ma,
            -mb <= b <= mb,
    ;
}

/// A cross product of two vectors bounded by `m` fits in an `i64`, each factor
/// included, provided `2 * m * m` does.
pub proof fn lemma_cross_args_fit(ux: int, uy: int, vx: int, vy: int, m: int)
    requires
        -m <= ux <= m,
        -m <= uy <= m,
        -m <= vx <= m,
        -m <= vy <= m,
        2 * m * m <= i64::MAX,
    ensures
        i64::MIN <= ux * vy <= i64::MAX,
        i64::MIN <= uy * vx <= i64::MAX,
        i64::MIN <= ux * vy - uy * vx <= i64::MAX,
        i64::MIN <= ux * vx <= i64::MAX,
        i64::MIN <= uy * vy <= i64::MAX,
        i64::MIN <= ux * vx + uy * vy <= i64::MAX,
        -(m * m) <= ux * vy <= m * m,
        -(m * m) <= uy * vx <= m * m,
        -(2 * m * m) <= ux * vy - uy * vx <= 2 * m * m,
{
    assert(m * m >= 0) by (nonlinear_arith);
    assert(2 * m * m == m * m + m * m) by (nonlinear_arith);
    lemma_abs_mul(ux, vy, m, m);
    lemma_abs_mul(uy, vx, m, m);
    lemma_abs_mul(ux, vx, m, m);
    lemma_abs_mul(uy, vy, m, m);
}

/// The difference of two coordinates bounded by `m` is bounded by `2 * m`.
pub proof fn lemma_diff_bound(a: int, b: int, m: int)
    requires
        -m <= a <= m,
        -m <= b <= m,
    ensures
        -(2 * m) <= a - b <= 2 * m,
{
}

} // verus!
