use crate::math::arith::lemma_cross_args_fit;
use crate::math::point::IntPoint;
use vstd::prelude::*;

verus! {

/// Exact predicates on an oriented triangle of lattice points.
pub struct Triangle;

/// Twice the signed area of the triangle `(p0, p1, p2)`:
/// `(p1 - p0) x (p1 - p2)`, over unbounded integers.
pub open spec fn area_two_spec(p0: IntPoint, p1: IntPoint, p2: IntPoint) -> int {
    (p1.x - p0.x) * (p1.y - p2.y) - (p1.y - p0.y) * (p1.x - p2.x)
}

/// The sign of `area_two_spec`: -1, 0 or +1.
pub open spec fn clock_spec(p0: IntPoint, p1: IntPoint, p2: IntPoint) -> int {
    let s = area_two_spec(p0, p1, p2);
    if s > 0 {
        1int
    } else if s < 0 {
        -1int
    } else {
        0int
    }
}

/// Every subtraction and product in `area_two_spec(p0, p1, p2)` fits in an `i64`.
pub open spec fn area_two_fits(p0: IntPoint, p1: IntPoint, p2: IntPoint) -> bool {
    &&& i64::MIN <= p1.x - p0.x <= i64::MAX
    &&& i64::MIN <= p1.y - p0.y <= i64::MAX
    &&& i64::MIN <= p1.x - p2.x <= i64::MAX
    &&& i64::MIN <= p1.y - p2.y <= i64::MAX
    &&& i64::MIN <= (p1.x - p0.x) * (p1.y - p2.y) <= i64::MAX
    &&& i64::MIN <= (p1.y - p0.y) * (p1.x - p2.x) <= i64::MAX
    &&& i64::MIN <= area_two_spec(p0, p1, p2) <= i64::MAX
}

/// For points bounded by `m` with `8 * m * m` within `i64`, the area
/// computation cannot overflow.
pub proof fn lemma_area_two_fits(p0: IntPoint, p1: IntPoint, p2: IntPoint, m: int)
    requires
        p0.bounded(m),
        p1.bounded(m),
        p2.bounded(m),
        0 <= m,
        8 * m * m <= i64::MAX,
    ensures
        area_two_fits(p0, p1, p2),
{
    assert(2 * (2 * m) * (2 * m) == 8 * m * m) by (nonlinear_arith);
    assert(2 * m <= i64::MAX) by (nonlinear_arith)
        requires
            0 <= m && 8 * m * m <= i64::MAX,
    ;
    lemma_cross_args_fit(p1.x - p0.x, p1.y - p0.y, p1.x - p2.x, p1.y - p2.y, 2 * m);
}

impl Triangle {
    pub fn area_two(p0: IntPoint, p1: IntPoint, p2: IntPoint) -> (r: i64)
        requires
            area_two_fits(p0, p1, p2),
        ensures
            r == area_two_spec(p0, p1, p2),
    {
        let u = p1.sub(&p0);
        let v = p1.sub(&p2);
        u.cross_product(&v)
    }

    pub fn clock_direction(p0: IntPoint, p1: IntPoint, p2: IntPoint) -> (r: i64)
        requires
            area_two_fits(p0, p1, p2),
        ensures
            r == clock_spec(p0, p1, p2),
    {
        let s = Self::area_two(p0, p1, p2);
        if s > 0 {
            1
        } else if s < 0 {
            -1
        } else {
            0
        }
    }
}

} // verus!
