use crate::bezier::position::{spec_point_at, LineDivider, SplitPosition};
use crate::math::normalize::{normalized_16bit_rel, VectorNormalization16};
use crate::math::point::IntPoint;
use crate::math::rect::{spec_max, spec_min, IntRect};
use crate::math::x_segment::XSegment;
use vstd::prelude::*;

verus! {

/// A straight spline: the segment between its two anchors.
#[derive(Debug, Clone, Copy)]
pub struct IntLineSpline {
    pub anchors: [IntPoint; 2],
}

impl IntLineSpline {
    pub open spec fn wf(self) -> bool {
        self.anchors@[0].in_range() && self.anchors@[1].in_range()
    }

    pub fn start(&self) -> (r: IntPoint)
        ensures
            r == self.anchors@[0],
    {
        self.anchors[0]
    }

    pub fn end(&self) -> (r: IntPoint)
        ensures
            r == self.anchors@[1],
    {
        self.anchors[1]
    }

    /// The 16-bit unit tangent at the start: along the chord.
    pub fn start_dir(&self) -> (r: IntPoint)
        requires
            self.wf(),
        ensures
            normalized_16bit_rel(
                IntPoint {
                    x: (self.anchors@[1].x - self.anchors@[0].x) as i64,
                    y: (self.anchors@[1].y - self.anchors@[0].y) as i64,
                },
                r,
            ),
    {
        self.anchors[1].sub(&self.anchors[0]).normalized_16bit()
    }

    /// The 16-bit unit tangent at the end: the same chord direction.
    pub fn end_dir(&self) -> (r: IntPoint)
        requires
            self.wf(),
        ensures
            normalized_16bit_rel(
                IntPoint {
                    x: (self.anchors@[1].x - self.anchors@[0].x) as i64,
                    y: (self.anchors@[1].y - self.anchors@[0].y) as i64,
                },
                r,
            ),
    {
        self.anchors[1].sub(&self.anchors[0]).normalized_16bit()
    }

    pub fn point_at(&self, position: &SplitPosition) -> (r: IntPoint)
        requires
            self.wf(),
            position.wf(),
        ensures
            r == spec_point_at(self.anchors@[0], self.anchors@[1], *position),
            r.in_range(),
    {
        LineDivider::new(self.anchors[0], self.anchors[1]).point_at(position)
    }

    /// Splits at the midpoint; the two halves share it.
    pub fn bisect(&self) -> (r: (Self, Self))
        requires
            self.wf(),
        ensures
            r.0.anchors@[0] == self.anchors@[0],
            r.0.anchors@[1] == self.anchors@[0].spec_mid(self.anchors@[1]),
            r.1.anchors@[0] == self.anchors@[0].spec_mid(self.anchors@[1]),
            r.1.anchors@[1] == self.anchors@[1],
            r.0.wf(),
            r.1.wf(),
    {
        let a = self.anchors[0];
        let b = self.anchors[1];
        let m = a.mid(&b);
        (Self { anchors: [a, m] }, Self { anchors: [m, b] })
    }

    /// The bounding box of the two anchors.
    pub fn boundary(&self) -> (r: IntRect)
        ensures
            r.min.x == spec_min(self.anchors@[0].x as int, self.anchors@[1].x as int),
            r.min.y == spec_min(self.anchors@[0].y as int, self.anchors@[1].y as int),
            r.max.x == spec_max(self.anchors@[0].x as int, self.anchors@[1].x as int),
            r.max.y == spec_max(self.anchors@[0].y as int, self.anchors@[1].y as int),
    {
        IntRect::with_ab(&self.anchors[0], &self.anchors[1])
    }

    /// The chord between the endpoints, canonically ordered.
    pub fn to_segment(&self) -> (r: XSegment)
        ensures
            r == XSegment::spec_new(self.anchors@[0], self.anchors@[1]),
    {
        XSegment::new(self.anchors[0], self.anchors[1])
    }
}

} // verus!
