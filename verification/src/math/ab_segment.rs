use crate::math::arith::lemma_cross_args_fit;
use crate::math::point::IntPoint;
use crate::math::segment::IntSegment;
use vstd::prelude::*;

verus! {

/// How a point relates to a segment: strictly inside the span, outside it, or
/// at one of the two ends.
#[derive(Debug, Clone, Copy, PartialEq, Eq, Structural)]
pub enum Contain {
    Inside,
    Outside,
    End,
}

/// Cross product of `p - a` and `p - b`, over unbounded integers.
pub open spec fn spec_span_cross(a: IntPoint, b: IntPoint, p: IntPoint) -> int {
    (p.x - a.x) * (p.y - b.y) - (p.y - a.y) * (p.x - b.x)
}

/// Dot product of `p - a` and `p - b`, over unbounded integers.
pub open spec fn spec_span_dot(a: IntPoint, b: IntPoint, p: IntPoint) -> int {
    (p.x - a.x) * (p.x - b.x) + (p.y - a.y) * (p.y - b.y)
}

/// Exact containment of `p` in the closed segment `[a, b]`: `p` must be
/// collinear with the endpoints and the vectors to the two ends must point in
/// opposite directions.
pub open spec fn spec_seg_contains(a: IntPoint, b: IntPoint, p: IntPoint) -> Contain {
    if spec_span_cross(a, b, p) != 0 {
        Contain::Outside
    } else if spec_span_dot(a, b, p) < 0 {
        Contain::Inside
    } else if spec_span_dot(a, b, p) == 0 {
        Contain::End
    } else {
        Contain::Outside
    }
}

/// All products in the span predicates on `(a, b, p)` stay within `i64` when
/// the three points are bounded by `m`.
pub proof fn lemma_span_args_fit(a: IntPoint, b: IntPoint, p: IntPoint, m: int)
    requires
        a.bounded(m),
        b.bounded(m),
        p.bounded(m),
        0 <= m,
        8 * m * m <= i64::MAX,
    ensures
        i64::MIN <= (p.x - a.x) * (p.y - b.y) <= i64::MAX,
        i64::MIN <= (p.y - a.y) * (p.x - b.x) <= i64::MAX,
        i64::MIN <= spec_span_cross(a, b, p) <= i64::MAX,
        i64::MIN <= (p.x - a.x) * (p.x - b.x) <= i64::MAX,
        i64::MIN <= (p.y - a.y) * (p.y - b.y) <= i64::MAX,
        i64::MIN <= spec_span_dot(a, b, p) <= i64::MAX,
{
    assert(2 * (2 * m) * (2 * m) == 8 * m * m) by (nonlinear_arith);
    lemma_cross_args_fit(p.x - a.x, p.y - a.y, p.x - b.x, p.y - b.y, 2 * m);
}

impl IntSegment {
    /// Where `p` stands relative to the closed segment.
    pub fn contains(&self, p: IntPoint) -> (r: Contain)
        requires
            i64::MIN <= p.x - self.a.x <= i64::MAX,
            i64::MIN <= p.y - self.a.y <= i64::MAX,
            i64::MIN <= p.x - self.b.x <= i64::MAX,
            i64::MIN <= p.y - self.b.y <= i64::MAX,
            i64::MIN <= (p.x - self.a.x) * (p.y - self.b.y) <= i64::MAX,
            i64::MIN <= (p.y - self.a.y) * (p.x - self.b.x) <= i64::MAX,
            i64::MIN <= spec_span_cross(self.a, self.b, p) <= i64::MAX,
            i64::MIN <= (p.x - self.a.x) * (p.x - self.b.x) <= i64::MAX,
            i64::MIN <= (p.y - self.a.y) * (p.y - self.b.y) <= i64::MAX,
            i64::MIN <= spec_span_dot(self.a, self.b, p) <= i64::MAX,
        ensures
            r == spec_seg_contains(self.a, self.b, p),
    {
        let v0 = p.sub(&self.a);
        let v1 = p.sub(&self.b);
        if v0.cross_product(&v1) != 0 {
            return Contain::Outside;
        }
        let dot = v0.dot_product(&v1);
        if dot < 0 {
            Contain::Inside
        } else if dot == 0 {
            Contain::End
        } else {
            Contain::Outside
        }
    }
}

} // verus!
