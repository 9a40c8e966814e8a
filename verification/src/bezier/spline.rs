use crate::bezier::position::{spec_point_at, SplitPosition};
use crate::math::normalize::normalized_16bit_rel;
use crate::bezier::spline_cube::IntCubeSpline;
use crate::bezier::spline_line::IntLineSpline;
use crate::bezier::spline_square::IntSquareSpline;
use crate::math::point::IntPoint;
use crate::math::rect::{bbox_seq, spec_empty_rect, IntRect};
use crate::math::x_segment::XSegment;
use vstd::prelude::*;

verus! {

/// A circular arc; reserved: no evaluation is provided for it.
#[derive(Debug, Clone, Copy, PartialEq, Eq, Structural)]
pub struct IntArc {
    pub radius: i64,
    pub center: IntPoint,
    pub start: IntPoint,
    pub end: IntPoint,
    pub direction: bool,
}

/// A spline of any of the supported kinds.
#[derive(Debug, Clone, Copy)]
pub enum IntSpline {
    Arc(IntArc),
    Line(IntLineSpline),
    Square(IntSquareSpline),
    Cubic(IntCubeSpline),
}

impl IntSpline {
    /// Every anchor within the proved coordinate range; arcs are excluded.
    pub open spec fn wf(self) -> bool {
        match self {
            IntSpline::Arc(_) => false,
            IntSpline::Line(s) => s.wf(),
            IntSpline::Square(s) => s.wf(),
            IntSpline::Cubic(s) => s.wf(),
        }
    }

    pub open spec fn spec_start(self) -> IntPoint {
        match self {
            IntSpline::Arc(a) => a.start,
            IntSpline::Line(s) => s.anchors@[0],
            IntSpline::Square(s) => s.anchors@[0],
            IntSpline::Cubic(s) => s.anchors@[0],
        }
    }

    pub open spec fn spec_end(self) -> IntPoint {
        match self {
            IntSpline::Arc(a) => a.end,
            IntSpline::Line(s) => s.anchors@[1],
            IntSpline::Square(s) => s.anchors@[2],
            IntSpline::Cubic(s) => s.anchors@[3],
        }
    }

    /// The bounding box of the variant's anchors.
    pub open spec fn spec_boundary(self) -> IntRect {
        match self {
            IntSpline::Arc(_) => spec_empty_rect(),
            IntSpline::Line(s) => bbox_seq(s.anchors@),
            IntSpline::Square(s) => bbox_seq(s.anchors@),
            IntSpline::Cubic(s) => bbox_seq(s.anchors@),
        }
    }

    /// The control-polygon bounding box; the curve lies within it.
    pub fn boundary(&self) -> (r: IntRect)
        requires
            self.wf(),
        ensures
            r == self.spec_boundary(),
    {
        match self {
            IntSpline::Arc(_) => IntRect::empty(),
            IntSpline::Line(s) => {
                proof {
                    lemma_bbox_pair(s.anchors@);
                }
                s.boundary()
            },
            IntSpline::Square(s) => s.boundary(),
            IntSpline::Cubic(s) => s.boundary(),
        }
    }

    /// The first curve endpoint.
    pub fn start_point(&self) -> (r: IntPoint)
        ensures
            r == self.spec_start(),
    {
        match self {
            IntSpline::Arc(a) => a.start,
            IntSpline::Line(s) => s.anchors[0],
            IntSpline::Square(s) => s.anchors[0],
            IntSpline::Cubic(s) => s.anchors[0],
        }
    }

    /// The last curve endpoint.
    pub fn end_point(&self) -> (r: IntPoint)
        ensures
            r == self.spec_end(),
    {
        match self {
            IntSpline::Arc(a) => a.end,
            IntSpline::Line(s) => s.anchors[1],
            IntSpline::Square(s) => s.anchors[2],
            IntSpline::Cubic(s) => s.anchors[3],
        }
    }

    /// The curve point at a dyadic parameter, by the variant's de Casteljau
    /// cascade.
    pub open spec fn spec_point_at(self, pos: SplitPosition) -> IntPoint {
        match self {
            IntSpline::Arc(a) => a.start,
            IntSpline::Line(s) => spec_point_at(s.anchors@[0], s.anchors@[1], pos),
            IntSpline::Square(s) => {
                let ma = spec_point_at(s.anchors@[0], s.anchors@[1], pos);
                let mb = spec_point_at(s.anchors@[1], s.anchors@[2], pos);
                spec_point_at(ma, mb, pos)
            },
            IntSpline::Cubic(s) => {
                let m0 = spec_point_at(s.anchors@[0], s.anchors@[1], pos);
                let m1 = spec_point_at(s.anchors@[1], s.anchors@[2], pos);
                let m2 = spec_point_at(s.anchors@[2], s.anchors@[3], pos);
                let mm0 = spec_point_at(m0, m1, pos);
                let mm1 = spec_point_at(m1, m2, pos);
                spec_point_at(mm0, mm1, pos)
            },
        }
    }

    pub fn point_at(&self, position: &SplitPosition) -> (r: IntPoint)
        requires
            self.wf(),
            position.wf(),
        ensures
            r == self.spec_point_at(*position),
            r.in_range(),
    {
        match self {
            IntSpline::Arc(a) => a.start,
            IntSpline::Line(s) => s.point_at(position),
            IntSpline::Square(s) => s.point_at(position),
            IntSpline::Cubic(s) => s.point_at(position),
        }
    }

    /// The chord the start tangent points along: from the first anchor to
    /// its handle (the whole chord for a line).
    pub open spec fn spec_start_dir_vec(self) -> IntPoint {
        match self {
            IntSpline::Arc(a) => a.start,
            IntSpline::Line(s) => IntPoint {
                x: (s.anchors@[1].x - s.anchors@[0].x) as i64,
                y: (s.anchors@[1].y - s.anchors@[0].y) as i64,
            },
            IntSpline::Square(s) => IntPoint {
                x: (s.anchors@[1].x - s.anchors@[0].x) as i64,
                y: (s.anchors@[1].y - s.anchors@[0].y) as i64,
            },
            IntSpline::Cubic(s) => IntPoint {
                x: (s.anchors@[1].x - s.anchors@[0].x) as i64,
                y: (s.anchors@[1].y - s.anchors@[0].y) as i64,
            },
        }
    }

    /// The chord the end tangent points along: from the last handle to the
    /// last anchor.
    pub open spec fn spec_end_dir_vec(self) -> IntPoint {
        match self {
            IntSpline::Arc(a) => a.end,
            IntSpline::Line(s) => IntPoint {
                x: (s.anchors@[1].x - s.anchors@[0].x) as i64,
                y: (s.anchors@[1].y - s.anchors@[0].y) as i64,
            },
            IntSpline::Square(s) => IntPoint {
                x: (s.anchors@[2].x - s.anchors@[1].x) as i64,
                y: (s.anchors@[2].y - s.anchors@[1].y) as i64,
            },
            IntSpline::Cubic(s) => IntPoint {
                x: (s.anchors@[3].x - s.anchors@[2].x) as i64,
                y: (s.anchors@[3].y - s.anchors@[2].y) as i64,
            },
        }
    }

    /// The 16-bit unit tangent at the start of the variant.
    pub fn start_dir(&self) -> (r: IntPoint)
        requires
            self.wf(),
        ensures
            normalized_16bit_rel(self.spec_start_dir_vec(), r),
            r.bounded(65792),
    {
        match self {
            IntSpline::Arc(a) => a.start,
            IntSpline::Line(s) => s.start_dir(),
            IntSpline::Square(s) => s.start_dir(),
            IntSpline::Cubic(s) => s.start_dir(),
        }
    }

    /// The 16-bit unit tangent at the end of the variant.
    pub fn end_dir(&self) -> (r: IntPoint)
        requires
            self.wf(),
        ensures
            normalized_16bit_rel(self.spec_end_dir_vec(), r),
            r.bounded(65792),
    {
        match self {
            IntSpline::Arc(a) => a.end,
            IntSpline::Line(s) => s.end_dir(),
            IntSpline::Square(s) => s.end_dir(),
            IntSpline::Cubic(s) => s.end_dir(),
        }
    }

    /// The anchor polygon of the variant, in order.
    pub open spec fn spec_anchors(self) -> Seq<IntPoint> {
        match self {
            IntSpline::Arc(a) => seq![a.start, a.end],
            IntSpline::Line(s) => s.anchors@,
            IntSpline::Square(s) => s.anchors@,
            IntSpline::Cubic(s) => s.anchors@,
        }
    }

    /// The anchors, copied out in order.
    pub fn anchors(&self) -> (r: Vec<IntPoint>)
        ensures
            r@ =~= self.spec_anchors(),
            self.wf() ==> crate::collision::convex::all_in_range(r@) && 2 <= r@.len() <= 4,
    {
        let mut v: Vec<IntPoint> = Vec::new();
        match self {
            IntSpline::Arc(a) => {
                v.push(a.start);
                v.push(a.end);
            },
            IntSpline::Line(s) => {
                v.push(s.anchors[0]);
                v.push(s.anchors[1]);
            },
            IntSpline::Square(s) => {
                v.push(s.anchors[0]);
                v.push(s.anchors[1]);
                v.push(s.anchors[2]);
            },
            IntSpline::Cubic(s) => {
                v.push(s.anchors[0]);
                v.push(s.anchors[1]);
                v.push(s.anchors[2]);
                v.push(s.anchors[3]);
            },
        }
        v
    }

    /// The chord between the endpoints, canonically ordered.
    pub fn as_x_segment(&self) -> (r: XSegment)
        requires
            self.wf(),
        ensures
            r == XSegment::spec_new(self.spec_start(), self.spec_end()),
            r.wf(),
    {
        match self {
            IntSpline::Arc(a) => XSegment::new(a.start, a.end),
            IntSpline::Line(s) => s.to_segment(),
            IntSpline::Square(s) => s.to_segment(),
            IntSpline::Cubic(s) => s.to_segment(),
        }
    }

    /// The anchors of the two halves at the midpoint parameter, variant by
    /// variant: the integer midpoint cascade of the control polygon.
    pub open spec fn spec_bisect(self) -> (IntSpline, IntSpline) {
        match self {
            IntSpline::Arc(a) => (IntSpline::Arc(a), IntSpline::Arc(a)),
            IntSpline::Line(s) => {
                let a = s.anchors@[0];
                let b = s.anchors@[1];
                let m = a.spec_mid(b);
                (
                    IntSpline::Line(IntLineSpline { anchors: [a, m] }),
                    IntSpline::Line(IntLineSpline { anchors: [m, b] }),
                )
            },
            IntSpline::Square(s) => {
                let a = s.anchors@[0];
                let m = s.anchors@[1];
                let b = s.anchors@[2];
                let ma = a.spec_mid(m);
                let mb = m.spec_mid(b);
                let mm = ma.spec_mid(mb);
                (
                    IntSpline::Square(IntSquareSpline { anchors: [a, ma, mm] }),
                    IntSpline::Square(IntSquareSpline { anchors: [mm, mb, b] }),
                )
            },
            IntSpline::Cubic(s) => {
                let a = s.anchors@[0];
                let ma = s.anchors@[1];
                let mb = s.anchors@[2];
                let b = s.anchors@[3];
                let m0 = a.spec_mid(ma);
                let m1 = ma.spec_mid(mb);
                let m2 = mb.spec_mid(b);
                let mm0 = m0.spec_mid(m1);
                let mm1 = m1.spec_mid(m2);
                let mmm = mm0.spec_mid(mm1);
                (
                    IntSpline::Cubic(IntCubeSpline { anchors: [a, m0, mm0, mmm] }),
                    IntSpline::Cubic(IntCubeSpline { anchors: [mmm, mm1, m2, b] }),
                )
            },
        }
    }

    /// The two halves at the midpoint parameter.
    pub fn bisect(&self) -> (r: (IntSpline, IntSpline))
        requires
            self.wf(),
        ensures
            r == self.spec_bisect(),
            r.0.wf(),
            r.1.wf(),
            r.0.spec_start() == self.spec_start(),
            r.0.spec_end() == r.1.spec_start(),
            r.1.spec_end() == self.spec_end(),
    {
        proof {
            broadcast use vstd::array::axiom_array_ext_equal;

        }
        match self {
            IntSpline::Arc(a) => (IntSpline::Arc(a.clone()), IntSpline::Arc(a.clone())),
            IntSpline::Line(s) => {
                let (s0, s1) = s.bisect();
                proof {
                    let e = self.spec_bisect();
                    if let (IntSpline::Line(l0), IntSpline::Line(l1)) = e {
                        assert(s0.anchors =~= l0.anchors);
                        assert(s1.anchors =~= l1.anchors);
                    }
                }
                (IntSpline::Line(s0), IntSpline::Line(s1))
            },
            IntSpline::Square(s) => {
                let (s0, s1) = s.bisect();
                proof {
                    let e = self.spec_bisect();
                    if let (IntSpline::Square(l0), IntSpline::Square(l1)) = e {
                        assert(s0.anchors =~= l0.anchors);
                        assert(s1.anchors =~= l1.anchors);
                    }
                }
                (IntSpline::Square(s0), IntSpline::Square(s1))
            },
            IntSpline::Cubic(s) => {
                let (s0, s1) = s.bisect();
                proof {
                    let e = self.spec_bisect();
                    if let (IntSpline::Cubic(l0), IntSpline::Cubic(l1)) = e {
                        assert(s0.anchors =~= l0.anchors);
                        assert(s1.anchors =~= l1.anchors);
                    }
                }
                (IntSpline::Cubic(s0), IntSpline::Cubic(s1))
            },
        }
    }
}

/// The fold-form bounding box of a two-point sequence is the componentwise
/// min/max corner pair.
proof fn lemma_bbox_pair(s: Seq<IntPoint>)
    requires
        s.len() == 2,
    ensures
        bbox_seq(s) == (IntRect {
            min: IntPoint {
                x: crate::math::rect::spec_min(s[0].x as int, s[1].x as int) as i64,
                y: crate::math::rect::spec_min(s[0].y as int, s[1].y as int) as i64,
            },
            max: IntPoint {
                x: crate::math::rect::spec_max(s[0].x as int, s[1].x as int) as i64,
                y: crate::math::rect::spec_max(s[0].y as int, s[1].y as int) as i64,
            },
        }),
{
    reveal_with_fuel(bbox_seq, 3);
    assert(s.drop_last().drop_last() =~= Seq::<IntPoint>::empty());
    assert(s.drop_last().len() == 1);
    assert(s.drop_last().last() == s[0]);
    assert(bbox_seq(s) == bbox_seq(s.drop_last()).spec_extend(s[1]));
    assert(bbox_seq(s.drop_last()) == spec_empty_rect().spec_extend(s[0]));
}

} // verus!
