use crate::bezier::spline::IntSpline;
use crate::collision::convex::{
    all_in_range, spec_convex_contains, spec_has_separating_axis, spec_is_convex, Convexity,
};
use crate::collision::four_convex_path::{
    lex_min_of, spec_is_ccw, sub_points, FourConvexPath,
};
use crate::collision::space::Space;
use crate::data::four_vec::FourVec;
use crate::math::rect::IntRect;
use crate::math::x_segment::XSegment;
use vstd::prelude::*;

verus! {

/// A spline paired with its bounding box, its size class, and — when the
/// box is small enough to bound tightly — a four-vertex hull approximation.
#[derive(Debug, Clone, Copy)]
pub struct Collider {
    pub spline: IntSpline,
    pub boundary: IntRect,
    pub approximation: Option<FourVec>,
    pub size_level: u32,
}

/// The hull a collider may carry is tied to its spline: either the bare
/// endpoint chord, or a certified convex outline of the anchor polygon.
pub open spec fn approx_of_spline(h: FourVec, s: IntSpline) -> bool {
    ||| h@ =~= seq![s.spec_start(), s.spec_end()]
    ||| {
        &&& sub_points(h@, s.spec_anchors())
        &&& h@[0] == lex_min_of(s.spec_anchors())
        &&& spec_is_convex(h@)
        &&& h@.len() > 2 ==> spec_is_ccw(h@) && (forall|k: int|
            0 <= k < s.spec_anchors().len() ==> spec_convex_contains(
                h@,
                #[trigger] s.spec_anchors()[k],
            ))
    }
}

impl Collider {
    pub open spec fn wf(self) -> bool {
        &&& self.spline.wf()
    &&& self.boundary == self.spline.spec_boundary()
    &&& self.size_level == self.boundary.spec_size_level()
    &&& self.size_level < 64
    &&& match self.approximation {
        Some(h) => h.wf() && 1 <= h@.len() <= 4 && all_in_range(h@) && approx_of_spline(
            h,
            self.spline,
        ),
        None => true,
    }
    }

    /// The margin the hull test allows for: two units plus one per level of
    /// bisection between the collider size and the chord size. Below the
    /// chord size the formula of the subdivision design would go negative;
    /// it is clamped at two, which can only keep more pairs alive.
    pub open spec fn spec_margin(self, other: Collider, space: Space) -> int {
        let max_level = if self.size_level >= other.size_level {
            self.size_level as int
        } else {
            other.size_level as int
        };
        if max_level > space.line_level {
            2 + max_level - space.line_level
        } else {
            2
        }
    }

    /// What the coarse test reports: boxes must meet, and where both sides
    /// carry hulls, no separating axis with the bisection margin may exist.
    pub open spec fn spec_overlap(self, other: Collider, space: Space) -> bool {
        &&& self.boundary.spec_overlap_inclusive(other.boundary)
    &&& match (self.approximation, other.approximation) {
        (Some(h0), Some(h1)) => !spec_has_separating_axis(
            h0@,
            h1@,
            self.spec_margin(other, space),
        ) && !spec_has_separating_axis(h1@, h0@, self.spec_margin(other, space)),
        _ => true,
    }
    }

    /// The coarse overlap test of the subdivision loop.
    pub fn overlap(&self, other: &Self, space: &Space) -> (r: bool)
        requires
            self.wf(),
            other.wf(),
            space.wf(),
        ensures
            r == self.spec_overlap(*other, *space),
    {
        if self.boundary.is_not_overlap(&other.boundary) {
            return false;
        }
        match (&self.approximation, &other.approximation) {
            (Some(c0), Some(c1)) => {
                let max_level = if self.size_level >= other.size_level {
                    self.size_level
                } else {
                    other.size_level
                };
                let margin: u64 = if max_level > space.line_level {
                    (2 + max_level - space.line_level) as u64
                } else {
                    2
                };
                let p0 = c0.slice();
                let p1 = c1.slice();
                p0.as_slice().overlaps_with_space(p1.as_slice(), margin)
            },
            _ => true,
        }
    }

    /// Whether the collider is still large enough to bisect; `None` marks a
    /// leaf.
    pub fn split(&self, space: &Space) -> (r: Option<(Collider, Collider)>)
        requires
            self.wf(),
            space.wf(),
        ensures
            r is Some <==> self.size_level > space.line_level,
            r is Some ==> ({
                let (c0, c1) = r->0;
                c0.wf() && c1.wf() && c0.spline == self.spline.spec_bisect().0 && c1.spline
                    == self.spline.spec_bisect().1
            }),
    {
        if self.size_level <= space.line_level {
            return None;
        }
        let (s0, s1) = self.spline.bisect();
        Some((Self::with_spline(s0, space), Self::with_spline(s1, space)))
    }

    /// Wraps a spline: its box, its size class, and a hull when the box is
    /// below the hull threshold (the chord alone below the chord threshold).
    pub fn with_spline(spline: IntSpline, space: &Space) -> (r: Collider)
        requires
            spline.wf(),
            space.wf(),
        ensures
            r.wf(),
            r.spline == spline,
            r.approximation is Some <==> r.size_level < space.convex_level,
    {
        let boundary = spline.boundary();
        let size_level = boundary.size_level();
        let approximation: Option<FourVec> = if size_level >= space.convex_level {
            None
        } else if size_level < space.line_level {
            let a = spline.start_point();
            let b = spline.end_point();
            Some(FourVec::line(a, b))
        } else {
            let anchors = spline.anchors();
            Some(anchors.as_slice().to_four_convex())
        };
        Collider { spline, boundary, approximation, size_level }
    }

    /// The chord between the spline's endpoints.
    pub fn to_segment(&self) -> (r: XSegment)
        requires
            self.wf(),
        ensures
            r == XSegment::spec_new(self.spline.spec_start(), self.spline.spec_end()),
            r.wf(),
    {
        self.spline.as_x_segment()
    }
}

} // verus!
