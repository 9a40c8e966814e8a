use crate::math::point::IntPoint;
use crate::math::range::LineRange;
use vstd::prelude::*;

verus! {

/// A segment whose endpoints are kept in canonical lexicographic order
/// (`a <= b` under the `IntPoint` order).
#[derive(Debug, Clone, Copy, PartialEq, Eq, Structural)]
pub struct XSegment {
    pub a: IntPoint,
    pub b: IntPoint,
}

impl XSegment {
    pub open spec fn wf(self) -> bool {
        self.a.lex_le(self.b)
    }

    /// `p` lies (lexicographically) between the canonical endpoints. For a
    /// point collinear with the segment this is exactly "on the span".
    pub open spec fn spec_contains_lex(self, p: IntPoint) -> bool {
        self.a.lex_le(p) && p.lex_le(self.b)
    }

    /// The canonical segment over the unordered endpoint pair `{a, b}`.
    pub open spec fn spec_new(a: IntPoint, b: IntPoint) -> XSegment {
        if a.lex_lt(b) {
            XSegment { a, b }
        } else {
            XSegment { a: b, b: a }
        }
    }

    pub fn new(a: IntPoint, b: IntPoint) -> (r: Self)
        ensures
            r == Self::spec_new(a, b),
            r.wf(),
    {
        if a.lt(&b) {
            Self { a, b }
        } else {
            Self { a: b, b: a }
        }
    }

    pub fn contains(&self, p: IntPoint) -> (r: bool)
        ensures
            r == self.spec_contains_lex(p),
    {
        self.a.le(&p) && p.le(&self.b)
    }

    pub fn x_range(&self) -> (r: LineRange)
        requires
            self.wf(),
        ensures
            r.min == self.a.x,
            r.max == self.b.x,
            r.wf(),
    {
        LineRange { min: self.a.x, max: self.b.x }
    }

    pub fn y_range(&self) -> (r: LineRange)
        ensures
            r == LineRange::new_spec(self.a.y as int, self.b.y as int),
    {
        LineRange::new(self.a.y, self.b.y)
    }

    /// The closed y-intervals of the two segments meet.
    pub open spec fn spec_overlap_y(self, other: XSegment) -> bool {
        LineRange::new_spec(self.a.y as int, self.b.y as int).spec_overlap(
            LineRange::new_spec(other.a.y as int, other.b.y as int),
        )
    }

    /// The closed x- and y-intervals of the two segments both meet.
    pub open spec fn spec_overlap_xy(self, other: XSegment) -> bool {
        &&& self.a.x <= other.b.x && self.b.x >= other.a.x
    &&& self.spec_overlap_y(other)
    }

    pub fn is_overlap_y(&self, other: &Self) -> (r: bool)
        ensures
            r == self.spec_overlap_y(*other),
    {
        self.y_range().is_overlap(&other.y_range())
    }

    pub fn is_overlap_xy(&self, other: &Self) -> (r: bool)
        requires
            self.wf(),
            other.wf(),
        ensures
            r == self.spec_overlap_xy(*other),
    {
        if self.x_range().is_not_overlap(&other.x_range()) {
            return false;
        }
        self.is_overlap_y(other)
    }
}

} // verus!
