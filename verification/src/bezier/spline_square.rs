use crate::bezier::position::{spec_point_at, LineDivider, SplitPosition};
use crate::math::normalize::{normalized_16bit_rel, VectorNormalization16};
use crate::math::point::IntPoint;
use crate::math::rect::{bbox_seq, IntRect};
use crate::math::x_segment::XSegment;
use vstd::prelude::*;

verus! {

/// A quadratic spline: start anchor, middle handle, end anchor.
#[derive(Debug, Clone, Copy)]
pub struct IntSquareSpline {
    pub anchors: [IntPoint; 3],
}

impl IntSquareSpline {
    pub open spec fn wf(self) -> bool {
        self.anchors@[0].in_range() && self.anchors@[1].in_range() && self.anchors@[2].in_range()
    }

    pub fn start(&self) -> (r: IntPoint)
        ensures
            r == self.anchors@[0],
    {
        self.anchors[0]
    }

    pub fn end(&self) -> (r: IntPoint)
        ensures
            r == self.anchors@[2],
    {
        self.anchors[2]
    }

    /// The 16-bit unit tangent at the start: toward the handle.
    pub fn start_dir(&self) -> (r: IntPoint)
        requires
            self.wf(),
        ensures
            normalized_16bit_rel(
                IntPoint {
                    x: (self.anchors@[1].x - self.anchors@[0].x) as i64,
                    y: (self.anchors@[1].y - self.anchors@[0].y) as i64,
                },
                r,
            ),
    {
        self.anchors[1].sub(&self.anchors[0]).normalized_16bit()
    }

    /// The 16-bit unit tangent at the end: from the handle.
    pub fn end_dir(&self) -> (r: IntPoint)
        requires
            self.wf(),
        ensures
            normalized_16bit_rel(
                IntPoint {
                    x: (self.anchors@[2].x - self.anchors@[1].x) as i64,
                    y: (self.anchors@[2].y - self.anchors@[1].y) as i64,
                },
                r,
            ),
    {
        self.anchors[2].sub(&self.anchors[1]).normalized_16bit()
    }

    /// One de Casteljau evaluation at the dyadic parameter.
    pub fn point_at(&self, position: &SplitPosition) -> (r: IntPoint)
        requires
            self.wf(),
            position.wf(),
        ensures
            ({
                let ma = spec_point_at(self.anchors@[0], self.anchors@[1], *position);
                let mb = spec_point_at(self.anchors@[1], self.anchors@[2], *position);
                r == spec_point_at(ma, mb, *position)
            }),
            r.in_range(),
    {
        let a = self.anchors[0];
        let m = self.anchors[1];
        let b = self.anchors[2];

        let ma = LineDivider::new(a, m).point_at(position);
        let mb = LineDivider::new(m, b).point_at(position);

        LineDivider::new(ma, mb).point_at(position)
    }

    /// The two halves at the midpoint parameter, by integer midpoints of the
    /// control polygon.
    #[verifier::rlimit(50)]
    #[verifier::spinoff_prover]
    pub fn bisect(&self) -> (r: (Self, Self))
        requires
            self.wf(),
        ensures
            ({
                let a = self.anchors@[0];
                let m = self.anchors@[1];
                let b = self.anchors@[2];
                let ma = a.spec_mid(m);
                let mb = m.spec_mid(b);
                let mm = ma.spec_mid(mb);
                r.0.anchors@ =~= seq![a, ma, mm] && r.1.anchors@ =~= seq![mm, mb, b]
            }),
            r.0.wf(),
            r.1.wf(),
    {
        let a = self.anchors[0];
        let m = self.anchors[1];
        let b = self.anchors[2];

        let ma = a.mid(&m);
        let mb = m.mid(&b);

        let mm = ma.mid(&mb);

        let r = (Self { anchors: [a, ma, mm] }, Self { anchors: [mm, mb, b] });
        proof {
            assert(r.0.anchors@ =~= seq![a, a.spec_mid(m), a.spec_mid(m).spec_mid(m.spec_mid(b))]);
            assert(r.1.anchors@ =~= seq![a.spec_mid(m).spec_mid(m.spec_mid(b)), m.spec_mid(b), b]);
        }
        r
    }

    /// The split at an arbitrary dyadic parameter; the middle midpoint comes
    /// from the interpolated handles.
    #[verifier::rlimit(50)]
    #[verifier::spinoff_prover]
    pub fn split(&self, position: &SplitPosition) -> (r: (Self, Self))
        requires
            self.wf(),
            position.wf(),
        ensures
            ({
                let a = self.anchors@[0];
                let m = self.anchors@[1];
                let b = self.anchors@[2];
                let ma = spec_point_at(a, m, *position);
                let mb = spec_point_at(m, b, *position);
                let mm = spec_point_at(ma, mb, *position);
                r.0.anchors@ =~= seq![a, ma, mm] && r.1.anchors@ =~= seq![mm, mb, b]
            }),
            r.0.wf(),
            r.1.wf(),
    {
        let a = self.anchors[0];
        let m = self.anchors[1];
        let b = self.anchors[2];

        let ma = LineDivider::new(a, m).point_at(position);
        let mb = LineDivider::new(m, b).point_at(position);

        let mm = LineDivider::new(ma, mb).point_at(position);

        let r = (Self { anchors: [a, ma, mm] }, Self { anchors: [mm, mb, b] });
        proof {
            assert(r.0.anchors@ =~= seq![a, ma, mm]);
            assert(r.1.anchors@ =~= seq![mm, mb, b]);
        }
        r
    }

    /// The bounding box of the control polygon.
    pub fn boundary(&self) -> (r: IntRect)
        ensures
            r == bbox_seq(self.anchors@),
    {
        IntRect::with_points(self.anchors.as_slice())
    }

    pub fn to_segment(&self) -> (r: XSegment)
        ensures
            r == XSegment::spec_new(self.anchors@[0], self.anchors@[2]),
    {
        XSegment::new(self.anchors[0], self.anchors[2])
    }
}

} // verus!
