use crate::math::point::IntPoint;
use crate::math::rect::{spec_max, spec_min};
use vstd::arithmetic::div_mod::{lemma_div_is_ordered, lemma_div_multiples_vanish};
use vstd::arithmetic::power2::pow2;
use vstd::prelude::*;

verus! {

/// A dyadic rational parameter `value / 2^power` in `[0, 1]`.
#[derive(Debug, Clone, Copy, PartialEq, Eq, Structural)]
pub struct SplitPosition {
    pub power: u32,
    pub value: u64,
}

impl SplitPosition {
    /// The dyadic domain: `power` in `[0, 63]`, `value` in `[0, 2^power]`.
    pub open spec fn wf(self) -> bool {
        self.power <= 63 && self.value <= pow2(self.power as nat)
    }

    pub fn new(power: u32, value: u64) -> (r: Self)
        ensures
            r.power == power,
            r.value == value,
    {
        Self { power, value }
    }

    /// The two halves of the parameter interval: `t/2` and `(t+1)/2`. The
    /// deeper power must still fit the dyadic domain; a parameter below 1
    /// keeps both children below 1.
    pub fn bisect(&self) -> (r: (Self, Self))
        requires
            self.wf(),
            self.power < 63,
        ensures
            r.0.power == self.power + 1,
            r.0.value == 2 * self.value,
            r.1.power == self.power + 1,
            r.1.value == 2 * self.value + 1,
            r.0.wf(),
            self.value < pow2(self.power as nat) ==> r.1.wf(),
            self.value < pow2(self.power as nat) ==> r.0.value < pow2(r.0.power as nat)
                && r.1.value < pow2(r.1.power as nat),
    {
        proof {
            vstd::arithmetic::power2::lemma_pow2_adds(self.power as nat, 1);
            vstd::arithmetic::power2::lemma2_to64();
            if self.power < 62 {
                vstd::arithmetic::power2::lemma_pow2_strictly_increases(self.power as nat, 62);
            }
            vstd::arithmetic::power2::lemma2_to64_rest();
        }
        let power = self.power + 1;
        let val_0 = self.value * 2;
        let val_1 = self.value * 2 + 1;
        (Self { power, value: val_0 }, Self { power, value: val_1 })
    }
}

/// Floor division by a positive divisor on `i128` (the semantics of an
/// arithmetic right shift).
pub fn floor_div_i128(n: i128, d: i128) -> (r: i128)
    requires
        0 < d,
        i128::MIN < n,
    ensures
        r == n as int / d as int,
{
    if n >= 0 {
        n / d
    } else {
        let a = -n;
        let q = a / d;
        let m = a % d;
        proof {
            vstd::arithmetic::div_mod::lemma_fundamental_div_mod(a as int, d as int);
            if m == 0 {
                // n = d * (-q) exactly.
                assert(n as int == (-(q as int)) * (d as int) + 0) by (nonlinear_arith)
                    requires
                        n == -(a as int),
                        a as int == (d as int) * (q as int) + m,
                        m == 0,
                ;
                vstd::arithmetic::div_mod::lemma_fundamental_div_mod_converse(
                    n as int,
                    d as int,
                    -(q as int),
                    0,
                );
            } else {
                // n = d * (-q - 1) + (d - m), with the remainder in range.
                assert(n as int == (-(q as int) - 1) * (d as int) + ((d as int) - (m as int)))
                    by (nonlinear_arith)
                    requires
                        n == -(a as int),
                        a as int == (d as int) * (q as int) + m,
                ;
                vstd::arithmetic::div_mod::lemma_fundamental_div_mod_converse(
                    n as int,
                    d as int,
                    -(q as int) - 1,
                    d as int - m as int,
                );
            }
        }
        if m == 0 {
            -q
        } else {
            -q - 1
        }
    }
}

/// A quotient with positive divisor stays between the multiples around it.
pub proof fn lemma_floor_div_between(n: int, d: int, lo: int, hi: int)
    requires
        0 < d,
        lo * d <= n <= hi * d,
    ensures
        lo <= n / d <= hi,
{
    lemma_div_is_ordered(lo * d, n, d);
    lemma_div_is_ordered(n, hi * d, d);
    lemma_div_multiples_vanish(lo, d);
    lemma_div_multiples_vanish(hi, d);
    assert(lo * d == d * lo && hi * d == d * hi) by (nonlinear_arith);
}

/// The de Casteljau step on one coordinate:
/// `a + floor(value * (b - a) / 2^power)`.
pub open spec fn spec_value_at(a: int, b: int, power: nat, value: int) -> int {
    a + (value * (b - a)) / (pow2(power) as int)
}

/// The same step on both coordinates of a point pair.
pub open spec fn spec_point_at(a: IntPoint, b: IntPoint, pos: SplitPosition) -> IntPoint {
    IntPoint {
        x: spec_value_at(a.x as int, b.x as int, pos.power as nat, pos.value as int) as i64,
        y: spec_value_at(a.y as int, b.y as int, pos.power as nat, pos.value as int) as i64,
    }
}

/// Interpolates a point of the segment `a -> b` at a dyadic parameter.
pub struct LineDivider {
    pub a: IntPoint,
    pub b: IntPoint,
}

impl LineDivider {
    pub fn new(a: IntPoint, b: IntPoint) -> (r: Self)
        ensures
            r.a == a,
            r.b == b,
    {
        Self { a, b }
    }

    /// The interpolated value on one axis; it always lies between `a` and
    /// `b`.
    fn value_at(a: i64, b: i64, position: &SplitPosition) -> (r: i64)
        requires
            position.wf(),
            -0x3fff_ffff <= a <= 0x3fff_ffff,
            -0x3fff_ffff <= b <= 0x3fff_ffff,
        ensures
            r == spec_value_at(a as int, b as int, position.power as nat, position.value as int),
            spec_min(a as int, b as int) <= r <= spec_max(a as int, b as int),
    {
        let ghost pw = pow2(position.power as nat) as int;
        proof {
            if position.power < 63 {
                vstd::arithmetic::power2::lemma_pow2_strictly_increases(position.power as nat, 63);
            }
            vstd::arithmetic::power2::lemma2_to64_rest();
            vstd::arithmetic::power2::lemma_pow2_pos(position.power as nat);
        }
        let d: i128 = crate::math::bits::pow2_u64(position.power) as i128;
        let v = position.value as i128;
        let diff = (b - a) as i128;
        proof {
            // |value * diff| <= 2^power * |diff| keeps the product in range
            // and the quotient between 0 and the difference.
            crate::math::arith::lemma_abs_mul(v as int, diff as int, pw, 0x7fff_fffe);
            if diff >= 0 {
                assert(0 * pw <= v * diff <= diff * pw) by (nonlinear_arith)
                    requires
                        0 <= v <= pw,
                        0 <= diff,
                ;
                lemma_floor_div_between(v as int * diff as int, pw, 0, diff as int);
            } else {
                assert(diff * pw <= v * diff <= 0 * pw) by (nonlinear_arith)
                    requires
                        0 <= v <= pw,
                        diff < 0,
                ;
                lemma_floor_div_between(v as int * diff as int, pw, diff as int, 0);
            }
        }
        let t = floor_div_i128(v * diff, d);
        a + t as i64
    }

    pub fn point_at(&self, position: &SplitPosition) -> (r: IntPoint)
        requires
            position.wf(),
            self.a.in_range(),
            self.b.in_range(),
        ensures
            r == spec_point_at(self.a, self.b, *position),
            r.in_range(),
            spec_min(self.a.x as int, self.b.x as int) <= r.x <= spec_max(
                self.a.x as int,
                self.b.x as int,
            ),
            spec_min(self.a.y as int, self.b.y as int) <= r.y <= spec_max(
                self.a.y as int,
                self.b.y as int,
            ),
    {
        let x = Self::value_at(self.a.x, self.b.x, position);
        let y = Self::value_at(self.a.y, self.b.y, position);
        IntPoint { x, y }
    }
}

} // verus!
