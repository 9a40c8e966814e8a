use crate::math::bits::ilog2_u64;
use crate::math::point::IntPoint;
use vstd::arithmetic::power2::pow2;
use vstd::prelude::*;

verus! {

/// An axis-aligned bounding box, `min` corner to `max` corner.
#[derive(Debug, Clone, Copy, PartialEq, Eq, Structural)]
pub struct IntRect {
    pub min: IntPoint,
    pub max: IntPoint,
}

/// The box that contains nothing: extending it with any point yields that
/// point's degenerate box.
pub open spec fn spec_empty_rect() -> IntRect {
    IntRect {
        min: IntPoint { x: i64::MAX as i64, y: i64::MAX as i64 },
        max: IntPoint { x: i64::MIN as i64, y: i64::MIN as i64 },
    }
}

pub open spec fn spec_min(a: int, b: int) -> int {
    if a <= b {
        a
    } else {
        b
    }
}

pub open spec fn spec_max(a: int, b: int) -> int {
    if a >= b {
        a
    } else {
        b
    }
}

impl IntRect {
    /// The smallest box that also covers `p`.
    pub open spec fn spec_extend(self, p: IntPoint) -> IntRect {
        IntRect {
            min: IntPoint {
                x: spec_min(self.min.x as int, p.x as int) as i64,
                y: spec_min(self.min.y as int, p.y as int) as i64,
            },
            max: IntPoint {
                x: spec_max(self.max.x as int, p.x as int) as i64,
                y: spec_max(self.max.y as int, p.y as int) as i64,
            },
        }
    }

    /// The smallest box that also covers `other`.
    pub open spec fn spec_extend_rect(self, other: IntRect) -> IntRect {
        IntRect {
            min: IntPoint {
                x: spec_min(self.min.x as int, other.min.x as int) as i64,
                y: spec_min(self.min.y as int, other.min.y as int) as i64,
            },
            max: IntPoint {
                x: spec_max(self.max.x as int, other.max.x as int) as i64,
                y: spec_max(self.max.y as int, other.max.y as int) as i64,
            },
        }
    }

    pub open spec fn spec_width(self) -> int {
        if self.max.x >= self.min.x {
            self.max.x - self.min.x
        } else {
            self.min.x - self.max.x
        }
    }

    pub open spec fn spec_height(self) -> int {
        if self.max.y >= self.min.y {
            self.max.y - self.min.y
        } else {
            self.min.y - self.max.y
        }
    }

    /// Closed boxes share at least a border point.
    pub open spec fn spec_overlap_inclusive(self, other: IntRect) -> bool {
        &&& self.min.x <= other.max.x && self.max.x >= other.min.x
    &&& self.min.y <= other.max.y && self.max.y >= other.min.y
    }

    pub open spec fn spec_contains_point(self, p: IntPoint) -> bool {
        self.min.x <= p.x <= self.max.x && self.min.y <= p.y <= self.max.y
    }
}

/// The bounding box of a sequence of points, folded left to right from the
/// empty box.
pub open spec fn bbox_seq(s: Seq<IntPoint>) -> IntRect
    decreases s.len(),
{
    if s.len() == 0 {
        spec_empty_rect()
    } else {
        bbox_seq(s.drop_last()).spec_extend(s.last())
    }
}

/// The bounding box of a sequence of boxes, folded the same way.
pub open spec fn bbox_rects_seq(s: Seq<IntRect>) -> IntRect
    decreases s.len(),
{
    if s.len() == 0 {
        spec_empty_rect()
    } else {
        bbox_rects_seq(s.drop_last()).spec_extend_rect(s.last())
    }
}

impl IntRect {
    pub fn empty() -> (r: Self)
        ensures
            r == spec_empty_rect(),
    {
        Self {
            min: IntPoint { x: i64::MAX, y: i64::MAX },
            max: IntPoint { x: i64::MIN, y: i64::MIN },
        }
    }

    pub fn with_min_max(min: IntPoint, max: IntPoint) -> (r: Self)
        ensures
            r.min == min,
            r.max == max,
    {
        Self { min, max }
    }

    /// The box of the two corners `a` and `b`, in any order.
    pub fn with_ab(a: &IntPoint, b: &IntPoint) -> (r: Self)
        ensures
            r.min.x == spec_min(a.x as int, b.x as int),
            r.min.y == spec_min(a.y as int, b.y as int),
            r.max.x == spec_max(a.x as int, b.x as int),
            r.max.y == spec_max(a.y as int, b.y as int),
    {
        let min_x = if a.x <= b.x {
            a.x
        } else {
            b.x
        };
        let min_y = if a.y <= b.y {
            a.y
        } else {
            b.y
        };
        let max_x = if a.x >= b.x {
            a.x
        } else {
            b.x
        };
        let max_y = if a.y >= b.y {
            a.y
        } else {
            b.y
        };
        Self { min: IntPoint { x: min_x, y: min_y }, max: IntPoint { x: max_x, y: max_y } }
    }

    pub fn add_point(&mut self, point: &IntPoint)
        ensures
            *final(self) == old(self).spec_extend(*point),
    {
        if point.x < self.min.x {
            self.min.x = point.x;
        }
        if point.y < self.min.y {
            self.min.y = point.y;
        }
        if point.x > self.max.x {
            self.max.x = point.x;
        }
        if point.y > self.max.y {
            self.max.y = point.y;
        }
    }

    pub fn add_rect(&mut self, rect: &IntRect)
        ensures
            *final(self) == old(self).spec_extend_rect(*rect),
    {
        if rect.min.x < self.min.x {
            self.min.x = rect.min.x;
        }
        if rect.min.y < self.min.y {
            self.min.y = rect.min.y;
        }
        if rect.max.x > self.max.x {
            self.max.x = rect.max.x;
        }
        if rect.max.y > self.max.y {
            self.max.y = rect.max.y;
        }
    }

    pub fn with_points(points: &[IntPoint]) -> (r: Self)
        ensures
            r == bbox_seq(points@),
    {
        let mut rect = Self::empty();
        let mut i: usize = 0;
        while i < points.len()
            invariant
                i <= points.len(),
                rect == bbox_seq(points@.take(i as int)),
            decreases points.len() - i,
        {
            proof {
                assert(points@.take(i + 1).drop_last() =~= points@.take(i as int));
            }
            rect.add_point(&points[i]);
            i = i + 1;
        }
        proof {
            assert(points@.take(points@.len() as int) =~= points@);
        }
        rect
    }

    /// The bounding box of a slice of points; identical to `with_points`.
    pub fn with_points_iter(points: &[IntPoint]) -> (r: Self)
        ensures
            r == bbox_seq(points@),
    {
        Self::with_points(points)
    }

    /// The bounding box that covers every box in the slice.
    pub fn with_rects_iter(rects: &[IntRect]) -> (r: Self)
        ensures
            r == bbox_rects_seq(rects@),
    {
        let mut rect = Self::empty();
        let mut i: usize = 0;
        while i < rects.len()
            invariant
                i <= rects.len(),
                rect == bbox_rects_seq(rects@.take(i as int)),
            decreases rects.len() - i,
        {
            proof {
                assert(rects@.take(i + 1).drop_last() =~= rects@.take(i as int));
            }
            rect.add_rect(&rects[i]);
            i = i + 1;
        }
        proof {
            assert(rects@.take(rects@.len() as int) =~= rects@);
        }
        rect
    }

    pub fn width(&self) -> (r: u64)
        ensures
            r == self.spec_width(),
    {
        let d = self.max.x as i128 - self.min.x as i128;
        if d >= 0 {
            d as u64
        } else {
            (-d) as u64
        }
    }

    pub fn height(&self) -> (r: u64)
        ensures
            r == self.spec_height(),
    {
        let d = self.max.y as i128 - self.min.y as i128;
        if d >= 0 {
            d as u64
        } else {
            (-d) as u64
        }
    }

    pub fn is_intersect_border_include(&self, other: &Self) -> (r: bool)
        ensures
            r == self.spec_overlap_inclusive(*other),
    {
        let x = self.min.x <= other.max.x && self.max.x >= other.min.x;
        let y = self.min.y <= other.max.y && self.max.y >= other.min.y;
        x && y
    }

    pub fn is_intersect_border_exclude(&self, other: &Self) -> (r: bool)
        ensures
            r == (self.min.x < other.max.x && self.max.x > other.min.x && self.min.y < other.max.y
                && self.max.y > other.min.y),
    {
        let x = self.min.x < other.max.x && self.max.x > other.min.x;
        let y = self.min.y < other.max.y && self.max.y > other.min.y;
        x && y
    }

    pub fn is_not_overlap(&self, other: &Self) -> (r: bool)
        ensures
            r == !self.spec_overlap_inclusive(*other),
    {
        let x = self.min.x > other.max.x || other.min.x > self.max.x;
        let y = self.min.y > other.max.y || other.min.y > self.max.y;
        x || y
    }

    /// `floor(log2(max(width, height)))`, clamped to 0 when the box collapses
    /// to a point.
    pub open spec fn spec_size_level(self) -> int {
        let m = spec_max(self.spec_width(), self.spec_height());
        if m <= 1 {
            0
        } else {
            crate::math::bits::spec_log2(m)
        }
    }

    pub fn size_level(&self) -> (r: u32)
        ensures
            r == self.spec_size_level(),
            r < 64,
            ({
                let m = spec_max(self.spec_width(), self.spec_height());
                if m <= 1 {
                    r == 0
                } else {
                    pow2(r as nat) <= m < pow2(r as nat + 1)
                }
            }),
    {
        let w = self.width();
        let h = self.height();
        let m = if w >= h {
            w
        } else {
            h
        };
        if m <= 1 {
            0
        } else {
            let r = ilog2_u64(m);
            proof {
                crate::math::bits::lemma_log2_unique(m as int, r as nat);
            }
            r
        }
    }

    /// Same measure as `size_level`.
    pub fn max_log_size(&self) -> (r: u32)
        ensures
            r == self.spec_size_level(),
            r < 64,
    {
        self.size_level()
    }
}

} // verus!
