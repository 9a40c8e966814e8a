use crate::math::point::IntPoint;
use vstd::prelude::*;

verus! {

/// A directed segment with endpoints in user order (no canonicalization).
#[derive(Debug, Clone, Copy, PartialEq, Eq, Structural)]
pub struct IntSegment {
    pub a: IntPoint,
    pub b: IntPoint,
}

impl IntSegment {
    pub fn new(a: IntPoint, b: IntPoint) -> (r: Self)
        ensures
            r.a == a,
            r.b == b,
    {
        Self { a, b }
    }

    /// The endpoint nearest to `p` as measured along the segment direction:
    /// `b` when `p` projects past `a` toward `b`, otherwise `a`.
    pub fn closest_point(&self, p: IntPoint) -> (r: IntPoint)
        requires
            i64::MIN <= p.x - self.a.x <= i64::MAX,
            i64::MIN <= p.y - self.a.y <= i64::MAX,
            i64::MIN <= p.x - self.b.x <= i64::MAX,
            i64::MIN <= p.y - self.b.y <= i64::MAX,
            i64::MIN <= self.b.x - self.a.x <= i64::MAX,
            i64::MIN <= self.b.y - self.a.y <= i64::MAX,
            i64::MIN <= (p.x - self.a.x) * (self.b.x - self.a.x) <= i64::MAX,
            i64::MIN <= (p.y - self.a.y) * (self.b.y - self.a.y) <= i64::MAX,
            i64::MIN <= (p.x - self.a.x) * (self.b.x - self.a.x) + (p.y - self.a.y) * (self.b.y
                - self.a.y) <= i64::MAX,
            i64::MIN <= (p.x - self.b.x) * (self.b.x - self.a.x) <= i64::MAX,
            i64::MIN <= (p.y - self.b.y) * (self.b.y - self.a.y) <= i64::MAX,
            i64::MIN <= (p.x - self.b.x) * (self.b.x - self.a.x) + (p.y - self.b.y) * (self.b.y
                - self.a.y) <= i64::MAX,
        ensures
            r == if (p.x - self.a.x) * (self.b.x - self.a.x) + (p.y - self.a.y) * (self.b.y
                - self.a.y) > 0 {
                self.b
            } else {
                self.a
            },
    {
        let pa = p.sub(&self.a);
        let pb = p.sub(&self.b);
        let ba = self.b.sub(&self.a);

        let a_dot = pa.dot_product(&ba);
        let b_dot = pb.dot_product(&ba);

        let a_dir = a_dot > 0;
        let b_dir = b_dot > 0;

        if a_dir == b_dir {
            if a_dir {
                self.b
            } else {
                self.a
            }
        } else {
            proof {
                // The dot at `b` is the dot at `a` minus the squared length,
                // so mixed directions force `a_dot > 0`.
                let ghost bax: int = self.b.x - self.a.x;
                let ghost bay: int = self.b.y - self.a.y;
                assert((p.x - self.b.x) * bax + (p.y - self.b.y) * bay == (p.x - self.a.x) * bax
                    + (p.y - self.a.y) * bay - (bax * bax + bay * bay)) by (nonlinear_arith)
                    requires
                        bax == self.b.x - self.a.x,
                        bay == self.b.y - self.a.y,
                ;
                assert(bax * bax + bay * bay >= 0) by (nonlinear_arith);
            }
            self.b
        }
    }
}

} // verus!
