use crate::math::arith::lemma_cross_args_fit;
use crate::math::point::IntPoint;
use vstd::prelude::*;

verus! {

/// Index of the predecessor vertex, walking the polygon cyclically.
pub open spec fn prev_index(n: int, i: int) -> int {
    if i == 0 {
        n - 1
    } else {
        i - 1
    }
}

/// The turn at vertex `i`: cross product of the edge arriving at the previous
/// vertex with the edge leaving it.
pub open spec fn spec_turn(s: Seq<IntPoint>, i: int) -> int {
    let n = s.len() as int;
    let p1 = s[prev_index(n, i)];
    let p0 = s[prev_index(n, prev_index(n, i))];
    let p = s[i];
    (p1.x - p0.x) * (p.y - p1.y) - (p1.y - p0.y) * (p.x - p1.x)
}

/// Every turn of the closed polygon has the same orientation as the first.
pub open spec fn spec_is_convex(s: Seq<IntPoint>) -> bool {
    s.len() <= 2 || forall|i: int|
        1 <= i < s.len() ==> ((#[trigger] spec_turn(s, i) > 0) == (spec_turn(s, 0) > 0))
}

/// The cross product that places `p` against the directed edge ending at
/// vertex `i`: positive means strictly outside.
pub open spec fn spec_edge_out(s: Seq<IntPoint>, p: IntPoint, i: int) -> int {
    let a = s[prev_index(s.len() as int, i)];
    let b = s[i];
    (p.x - a.x) * (b.y - a.y) - (p.y - a.y) * (b.x - a.x)
}

/// `p` lies in the closed polygon: no edge sees it strictly outside.
/// Degenerate polygons of up to two vertices contain nothing.
pub open spec fn spec_convex_contains(s: Seq<IntPoint>, p: IntPoint) -> bool {
    s.len() > 2 && forall|i: int| 0 <= i < s.len() ==> #[trigger] spec_edge_out(s, p, i) <= 0
}

/// The cross product of edge `i` of `path` with the vector from that edge's
/// origin to `pts[j]`: positive when the point is on the separated side.
pub open spec fn spec_axis_cross(path: Seq<IntPoint>, pts: Seq<IntPoint>, i: int, j: int) -> int {
    let a = path[prev_index(path.len() as int, i)];
    let b = path[i];
    (b.x - a.x) * (a.y - pts[j].y) - (b.y - a.y) * (a.x - pts[j].x)
}

/// Squared length of edge `i` of `path`.
pub open spec fn spec_edge_sqr_len(path: Seq<IntPoint>, i: int) -> int {
    let a = path[prev_index(path.len() as int, i)];
    let b = path[i];
    (b.x - a.x) * (b.x - a.x) + (b.y - a.y) * (b.y - a.y)
}

/// Edge `i` of `path` separates `pts` from `path` by more than `space`:
/// every point lies strictly on the outer side and even the nearest one is
/// farther than `space` (compared via squared distances, exactly).
pub open spec fn spec_separates(
    path: Seq<IntPoint>,
    pts: Seq<IntPoint>,
    space: int,
    i: int,
) -> bool {
    forall|j: int|
        0 <= j < pts.len() ==> #[trigger] spec_axis_cross(path, pts, i, j) > 0 && spec_axis_cross(
            path,
            pts,
            i,
            j,
        ) * spec_axis_cross(path, pts, i, j) > space * space * spec_edge_sqr_len(path, i)
}

/// Some edge of `path` separates the two point sets by more than `space`.
pub open spec fn spec_has_separating_axis(
    path: Seq<IntPoint>,
    pts: Seq<IntPoint>,
    space: int,
) -> bool {
    exists|i: int| 0 <= i < path.len() && #[trigger] spec_separates(path, pts, space, i)
}

/// Edge `i` separates by more than one unit: every point strictly outside,
/// and the nearest either at least `i32::MAX` in cross measure or farther
/// than the edge is long.
pub open spec fn spec_separates_unit(path: Seq<IntPoint>, pts: Seq<IntPoint>, i: int) -> bool {
    (forall|j: int| 0 <= j < pts.len() ==> #[trigger] spec_axis_cross(path, pts, i, j) > 0) && (
    (forall|j: int|
        0 <= j < pts.len() ==> #[trigger] spec_axis_cross(path, pts, i, j) >= 0x7fff_ffff) || (
    forall|j: int|
        0 <= j < pts.len() ==> #[trigger] spec_axis_cross(path, pts, i, j) * spec_axis_cross(
            path,
            pts,
            i,
            j,
        ) > spec_edge_sqr_len(path, i)))
}

pub open spec fn spec_has_separating_unit_axis(path: Seq<IntPoint>, pts: Seq<IntPoint>) -> bool {
    exists|i: int| 0 <= i < path.len() && #[trigger] spec_separates_unit(path, pts, i)
}

/// All points of a slice within the proved coordinate range.
pub open spec fn all_in_range(s: Seq<IntPoint>) -> bool {
    forall|i: int| 0 <= i < s.len() ==> (#[trigger] s[i]).in_range()
}

/// Convex predicates over a vertex slice in counter-clockwise order.
pub trait Convexity {
    /// The vertex sequence the predicates speak about.
    spec fn pts(&self) -> Seq<IntPoint>;

    fn is_convex(&self) -> (r: bool)
        requires
            all_in_range(self.pts()),
        ensures
            r == spec_is_convex(self.pts()),
    ;

    fn convex_contains(&self, point: IntPoint) -> (r: bool)
        requires
            all_in_range(self.pts()),
            point.in_range(),
        ensures
            r == spec_convex_contains(self.pts(), point),
    ;

    fn overlaps_with_space(&self, other: &Self, space: u64) -> (r: bool)
        requires
            all_in_range(self.pts()),
            all_in_range(other.pts()),
            self.pts().len() > 0,
            other.pts().len() > 0,
            space <= 0x7fff_ffff,
        ensures
            r == (!spec_has_separating_axis(self.pts(), other.pts(), space as int)
                && !spec_has_separating_axis(other.pts(), self.pts(), space as int)),
    ;

    fn overlaps_with_unit_margin(&self, other: &Self) -> (r: bool)
        requires
            all_in_range(self.pts()),
            all_in_range(other.pts()),
            self.pts().len() > 0,
            other.pts().len() > 0,
        ensures
            r == (!spec_has_separating_unit_axis(self.pts(), other.pts())
                && !spec_has_separating_unit_axis(other.pts(), self.pts())),
    ;
}

impl Convexity for [IntPoint] {
    open spec fn pts(&self) -> Seq<IntPoint> {
        self@
    }

    /// Whether the closed polygon turns the same way at every vertex.
    fn is_convex(&self) -> (r: bool) {
        let n = self.len();
        if n <= 2 {
            return true;
        }

        let p0 = self[n - 2];
        let p1 = self[n - 1];
        let pi = self[0];

        proof {
            lemma_turn_fits(self@, 0);
        }
        let e0 = p1.sub(&p0);
        let mut ei = pi.sub(&p1);
        let sign = e0.cross_product(&ei) > 0;

        let mut i: usize = 1;
        let mut pprev = pi;
        while i < n
            invariant
                1 <= i <= n,
                n == self@.len(),
                3 <= n,
                all_in_range(self@),
                pprev == self@[i - 1],
                ei.x == self@[i - 1].x - self@[prev_index(n as int, i - 1)].x,
                ei.y == self@[i - 1].y - self@[prev_index(n as int, i - 1)].y,
                sign == (spec_turn(self@, 0) > 0),
                forall|k: int| 1 <= k < i ==> ((#[trigger] spec_turn(self@, k) > 0) == sign),
            decreases n - i,
        {
            proof {
                lemma_turn_fits(self@, i as int);
            }
            let p = self[i];
            let e = p.sub(&pprev);
            if (ei.cross_product(&e) > 0) != sign {
                return false;
            }
            pprev = p;
            ei = e;
            i = i + 1;
        }
        true
    }

    /// Closed containment of a point; a polygon of fewer than three vertices
    /// contains nothing.
    fn convex_contains(&self, p: IntPoint) -> (r: bool) {
        let n = self.len();
        if n <= 2 {
            return false;
        }

        let mut a = self[n - 1];
        let mut i: usize = 0;
        while i < n
            invariant
                0 <= i <= n,
                n == self@.len(),
                3 <= n,
                all_in_range(self@),
                p.in_range(),
                a == self@[prev_index(n as int, i as int)],
                forall|k: int| 0 <= k < i ==> #[trigger] spec_edge_out(self@, p, k) <= 0,
            decreases n - i,
        {
            proof {
                lemma_edge_out_fits(self@, p, i as int);
            }
            let b = self[i];
            let v0 = p.sub(&a);
            let v1 = b.sub(&a);
            let cross = v0.cross_product(&v1);
            if cross > 0 {
                return false;
            }
            a = b;
            i = i + 1;
        }
        true
    }

    /// Whether the two convex outlines come within `space` of each other:
    /// no edge of either is a separating axis with that margin.
    fn overlaps_with_space(&self, other: &Self, space: u64) -> (r: bool) {
        if find_width_separate_line(self, other, space) {
            return false;
        }
        let separation = find_width_separate_line(other, self, space);
        !separation
    }

    /// Whether the two convex outlines come within one unit of each other.
    fn overlaps_with_unit_margin(&self, other: &Self) -> (r: bool) {
        if find_separate_unit_line(self, other) {
            return false;
        }
        let separation = find_separate_unit_line(other, self);
        !separation
    }
}

/// The turn at a vertex of an in-range polygon fits in `i64`, each factor
/// included.
proof fn lemma_turn_fits(s: Seq<IntPoint>, i: int)
    requires
        all_in_range(s),
        0 <= i < s.len(),
        s.len() >= 1,
    ensures
        ({
            let n = s.len() as int;
            let p1 = s[prev_index(n, i)];
            let p0 = s[prev_index(n, prev_index(n, i))];
            let p = s[i];
            i64::MIN <= (p1.x - p0.x) * (p.y - p1.y) <= i64::MAX && i64::MIN <= (p1.y - p0.y) * (p.x
                - p1.x) <= i64::MAX && i64::MIN <= spec_turn(s, i) <= i64::MAX
        }),
{
    let n = s.len() as int;
    let p1 = s[prev_index(n, i)];
    let p0 = s[prev_index(n, prev_index(n, i))];
    let p = s[i];
    assert(2 * 0x7fff_fffe * 0x7fff_fffe <= i64::MAX) by (nonlinear_arith);
    lemma_cross_args_fit(p1.x - p0.x, p1.y - p0.y, p.x - p1.x, p.y - p1.y, 0x7fff_fffe);
}

proof fn lemma_edge_out_fits(s: Seq<IntPoint>, p: IntPoint, i: int)
    requires
        all_in_range(s),
        p.in_range(),
        0 <= i < s.len(),
    ensures
        ({
            let a = s[prev_index(s.len() as int, i)];
            let b = s[i];
            i64::MIN <= (p.x - a.x) * (b.y - a.y) <= i64::MAX && i64::MIN <= (p.y - a.y) * (b.x
                - a.x) <= i64::MAX && i64::MIN <= spec_edge_out(s, p, i) <= i64::MAX
        }),
{
    let a = s[prev_index(s.len() as int, i)];
    let b = s[i];
    assert(2 * 0x7fff_fffe * 0x7fff_fffe <= i64::MAX) by (nonlinear_arith);
    lemma_cross_args_fit(p.x - a.x, p.y - a.y, b.x - a.x, b.y - a.y, 0x7fff_fffe);
}

proof fn lemma_axis_cross_fits(path: Seq<IntPoint>, pts: Seq<IntPoint>, i: int, j: int)
    requires
        all_in_range(path),
        all_in_range(pts),
        0 <= i < path.len(),
        0 <= j < pts.len(),
    ensures
        ({
            let a = path[prev_index(path.len() as int, i)];
            let b = path[i];
            i64::MIN <= (b.x - a.x) * (a.y - pts[j].y) <= i64::MAX && i64::MIN <= (b.y - a.y) * (a.x
                - pts[j].x) <= i64::MAX && i64::MIN <= spec_axis_cross(path, pts, i, j) <= i64::MAX
                && spec_axis_cross(path, pts, i, j) < 0x8000_0000_0000_0000
        }),
{
    let a = path[prev_index(path.len() as int, i)];
    let b = path[i];
    assert(2 * 0x7fff_fffe * 0x7fff_fffe <= i64::MAX) by (nonlinear_arith);
    lemma_cross_args_fit(b.x - a.x, b.y - a.y, a.x - pts[j].x, a.y - pts[j].y, 0x7fff_fffe);
}

proof fn lemma_edge_sqr_len_fits(path: Seq<IntPoint>, i: int)
    requires
        all_in_range(path),
        0 <= i < path.len(),
    ensures
        0 <= spec_edge_sqr_len(path, i) <= u64::MAX,
        ({
            let a = path[prev_index(path.len() as int, i)];
            let b = path[i];
            (b.x - a.x) * (b.x - a.x) + (b.y - a.y) * (b.y - a.y) <= u64::MAX
        }),
{
    let a = path[prev_index(path.len() as int, i)];
    let b = path[i];
    let dx = b.x - a.x;
    let dy = b.y - a.y;
    assert(0 <= dx * dx <= 0x7fff_fffe * 0x7fff_fffe && 0 <= dy * dy <= 0x7fff_fffe * 0x7fff_fffe)
        by (nonlinear_arith)
        requires
            -0x7fff_fffe <= dx <= 0x7fff_fffe,
            -0x7fff_fffe <= dy <= 0x7fff_fffe,
    ;
    assert(2 * (0x7fff_fffe * 0x7fff_fffe) <= u64::MAX) by (nonlinear_arith);
}

/// Scans the edges of `path` for one whose outward side holds every point of
/// `points` at squared distance beyond `space^2`. Returns whether such an
/// axis exists; the comparison is exact, carried out in 128-bit arithmetic.
pub fn find_width_separate_line(path: &[IntPoint], points: &[IntPoint], space: u64) -> (r: bool)
    requires
        all_in_range(path@),
        all_in_range(points@),
        path@.len() > 0,
        points@.len() > 0,
        space <= 0x7fff_ffff,
    ensures
        r == spec_has_separating_axis(path@, points@, space as int),
{
    let n = path.len();
    let m = points.len();
    let mut i: usize = 0;
    let mut a = path[n - 1];

    while i < n
        invariant
            0 <= i <= n,
            n == path@.len(),
            m == points@.len(),
            n > 0,
            m > 0,
            all_in_range(path@),
            all_in_range(points@),
            space <= 0x7fff_ffff,
            a == path@[prev_index(n as int, i as int)],
            forall|k: int| 0 <= k < i ==> !#[trigger] spec_separates(path@, points@, space as int, k),
        decreases n - i,
    {
        let b = path[i];
        let ba = b.sub(&a);
        let mut min_s: u64 = u64::MAX;
        let mut all_positive = true;

        let mut j: usize = 0;
        while j < m
            invariant
                0 <= j <= m,
                n == path@.len(),
                m == points@.len(),
                0 <= i < n,
                all_in_range(path@),
                all_in_range(points@),
                a == path@[prev_index(n as int, i as int)],
                b == path@[i as int],
                ba.x == b.x - a.x,
                ba.y == b.y - a.y,
                all_positive == (forall|l: int|
                    0 <= l < j ==> #[trigger] spec_axis_cross(path@, points@, i as int, l) > 0),
                all_positive ==> (forall|l: int|
                    0 <= l < j ==> #[trigger] spec_axis_cross(path@, points@, i as int, l)
                        >= min_s),
                all_positive && j == 0 ==> min_s == u64::MAX,
                all_positive && j > 0 ==> exists|l: int|
                    0 <= l < j && #[trigger] spec_axis_cross(path@, points@, i as int, l)
                        == min_s,
            decreases m - j,
        {
            proof {
                lemma_axis_cross_fits(path@, points@, i as int, j as int);
            }
            let p = points[j];
            let ap = a.sub(&p);
            let cross = ba.cross_product(&ap);
            proof {
                assert(spec_axis_cross(path@, points@, i as int, j as int) == cross);
            }
            if cross <= 0 {
                all_positive = false;
                j = m;
            } else {
                if min_s > cross as u64 {
                    min_s = cross as u64;
                    proof {
                        assert(spec_axis_cross(path@, points@, i as int, j as int) == min_s);
                    }
                } else {
                    proof {
                        assert(spec_axis_cross(path@, points@, i as int, j as int) >= min_s);
                    }
                }
                j = j + 1;
            }
        }

        if all_positive {
            proof {
                lemma_edge_sqr_len_fits(path@, i as int);
                let l = choose|l: int|
                    0 <= l < m && #[trigger] spec_axis_cross(path@, points@, i as int, l) == min_s;
                lemma_axis_cross_fits(path@, points@, i as int, l);
                assert((min_s as int) * (min_s as int) < 0x8000_0000_0000_0000
                    * 0x8000_0000_0000_0000) by (nonlinear_arith)
                    requires
                        0 <= min_s < 0x8000_0000_0000_0000,
                ;
                assert((space as int) * (space as int) <= 0x7fff_ffff * 0x7fff_ffff)
                    by (nonlinear_arith)
                    requires
                        0 <= space <= 0x7fff_ffff,
                ;
                assert(0x7fff_ffff * 0x7fff_ffff * (0xffff_ffff_ffff_ffff + 1) <= u128::MAX)
                    by (nonlinear_arith);
            }
            let unit_sqr_s = ba.sqr_len();
            proof {
                assert((space as int) * (space as int) * (unit_sqr_s as int) <= 0x7fff_ffff
                    * 0x7fff_ffff * (0xffff_ffff_ffff_ffff + 1)) by (nonlinear_arith)
                    requires
                        0 <= (space as int) * (space as int) <= 0x7fff_ffff * 0x7fff_ffff,
                        0 <= unit_sqr_s <= 0xffff_ffff_ffff_ffff,
                ;
            }
            let lhs: u128 = (min_s as u128) * (min_s as u128);
            let rhs: u128 = (space as u128) * (space as u128) * (unit_sqr_s as u128);
            if lhs > rhs {
                proof {
                    lemma_min_separation(path@, points@, space as int, i as int, min_s as int);
                    assert(spec_has_separating_axis(path@, points@, space as int));
                }
                return true;
            }
            proof {
                // The witness point attaining the minimum defeats this axis.
                assert(!spec_separates(path@, points@, space as int, i as int));
            }
        }
        a = b;
        i = i + 1;
    }
    false
}

/// If the minimum positive cross over all points beats the squared margin,
/// the axis separates every point.
proof fn lemma_min_separation(
    path: Seq<IntPoint>,
    pts: Seq<IntPoint>,
    space: int,
    i: int,
    min_s: int,
)
    requires
        0 <= i < path.len(),
        pts.len() > 0,
        forall|l: int| 0 <= l < pts.len() ==> #[trigger] spec_axis_cross(path, pts, i, l) > 0,
        forall|l: int| 0 <= l < pts.len() ==> #[trigger] spec_axis_cross(path, pts, i, l) >= min_s,
        min_s * min_s > space * space * spec_edge_sqr_len(path, i),
        min_s >= 0,
    ensures
        spec_separates(path, pts, space, i),
{
    assert forall|j: int| 0 <= j < pts.len() implies #[trigger] spec_axis_cross(path, pts, i, j) > 0
        && spec_axis_cross(path, pts, i, j) * spec_axis_cross(path, pts, i, j) > space * space
        * spec_edge_sqr_len(path, i) by {
        let c = spec_axis_cross(path, pts, i, j);
        assert(c * c >= min_s * min_s) by (nonlinear_arith)
            requires
                c >= min_s >= 0,
        ;
    }
}

/// Scans the edges of `path` for one that holds every point of `points`
/// strictly outside and farther than one unit (or immoderately far in cross
/// measure).
pub fn find_separate_unit_line(path: &[IntPoint], points: &[IntPoint]) -> (r: bool)
    requires
        all_in_range(path@),
        all_in_range(points@),
        path@.len() > 0,
        points@.len() > 0,
    ensures
        r == spec_has_separating_unit_axis(path@, points@),
{
    let n = path.len();
    let m = points.len();
    let mut i: usize = 0;
    let mut a = path[n - 1];

    while i < n
        invariant
            0 <= i <= n,
            n == path@.len(),
            m == points@.len(),
            n > 0,
            m > 0,
            all_in_range(path@),
            all_in_range(points@),
            a == path@[prev_index(n as int, i as int)],
            forall|k: int| 0 <= k < i ==> !#[trigger] spec_separates_unit(path@, points@, k),
        decreases n - i,
    {
        let b = path[i];
        let ba = b.sub(&a);
        let mut min_s: u64 = u64::MAX;
        let mut all_positive = true;

        let mut j: usize = 0;
        while j < m
            invariant
                0 <= j <= m,
                n == path@.len(),
                m == points@.len(),
                0 <= i < n,
                all_in_range(path@),
                all_in_range(points@),
                a == path@[prev_index(n as int, i as int)],
                b == path@[i as int],
                ba.x == b.x - a.x,
                ba.y == b.y - a.y,
                all_positive == (forall|l: int|
                    0 <= l < j ==> #[trigger] spec_axis_cross(path@, points@, i as int, l) > 0),
                all_positive ==> (forall|l: int|
                    0 <= l < j ==> #[trigger] spec_axis_cross(path@, points@, i as int, l)
                        >= min_s),
                all_positive && j == 0 ==> min_s == u64::MAX,
                all_positive && j > 0 ==> exists|l: int|
                    0 <= l < j && #[trigger] spec_axis_cross(path@, points@, i as int, l)
                        == min_s,
            decreases m - j,
        {
            proof {
                lemma_axis_cross_fits(path@, points@, i as int, j as int);
            }
            let p = points[j];
            let ap = a.sub(&p);
            let cross = ba.cross_product(&ap);
            proof {
                assert(spec_axis_cross(path@, points@, i as int, j as int) == cross);
            }
            if cross <= 0 {
                all_positive = false;
                j = m;
            } else {
                if min_s > cross as u64 {
                    min_s = cross as u64;
                    proof {
                        assert(spec_axis_cross(path@, points@, i as int, j as int) == min_s);
                    }
                } else {
                    proof {
                        assert(spec_axis_cross(path@, points@, i as int, j as int) >= min_s);
                    }
                }
                j = j + 1;
            }
        }

        if all_positive {
            if min_s >= 0x7fff_ffff {
                proof {
                    assert(spec_separates_unit(path@, points@, i as int));
                    assert(spec_has_separating_unit_axis(path@, points@));
                }
                return true;
            }
            proof {
                lemma_edge_sqr_len_fits(path@, i as int);
                assert((min_s as int) * (min_s as int) < 0x7fff_ffff * 0x7fff_ffff)
                    by (nonlinear_arith)
                    requires
                        0 <= min_s < 0x7fff_ffff,
                ;
                assert(0x7fff_ffff * 0x7fff_ffff <= u64::MAX) by (nonlinear_arith);
            }
            let sqr_s = min_s * min_s;
            let sqr_ba = ba.sqr_len();
            if sqr_s > sqr_ba {
                proof {
                    lemma_min_unit_separation(path@, points@, i as int, min_s as int);
                    assert(spec_has_separating_unit_axis(path@, points@));
                }
                return true;
            }
            proof {
                assert(!spec_separates_unit(path@, points@, i as int));
            }
        }
        a = b;
        i = i + 1;
    }
    false
}

proof fn lemma_min_unit_separation(path: Seq<IntPoint>, pts: Seq<IntPoint>, i: int, min_s: int)
    requires
        0 <= i < path.len(),
        pts.len() > 0,
        forall|l: int| 0 <= l < pts.len() ==> #[trigger] spec_axis_cross(path, pts, i, l) > 0,
        forall|l: int| 0 <= l < pts.len() ==> #[trigger] spec_axis_cross(path, pts, i, l) >= min_s,
        min_s * min_s > spec_edge_sqr_len(path, i),
        min_s >= 0,
    ensures
        spec_separates_unit(path, pts, i),
{
    assert forall|j: int|
        0 <= j < pts.len() implies #[trigger] spec_axis_cross(path, pts, i, j) * spec_axis_cross(
        path,
        pts,
        i,
        j,
    ) > spec_edge_sqr_len(path, i) by {
        let c = spec_axis_cross(path, pts, i, j);
        assert(c * c >= min_s * min_s) by (nonlinear_arith)
            requires
                c >= min_s >= 0,
        ;
    }
}

} // verus!
