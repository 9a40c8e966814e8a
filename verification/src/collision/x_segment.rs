use crate::math::arith::{div_round, lemma_abs_mul, lemma_rounded_div_between, trunc_div};
use crate::math::point::IntPoint;
use crate::math::x_segment::XSegment;
use vstd::prelude::*;

verus! {

/// The intersection of two segments: a single lattice point, or a whole
/// canonical sub-segment when they overlap collinearly.
#[derive(Debug, Clone, Copy, PartialEq, Eq, Structural)]
pub enum XOverlap {
    Segment(XSegment),
    Point(IntPoint),
}

/// `(s.b - s.a) x (t.a - s.a)`: which side of `s` the start of `t` lies on.
pub open spec fn cab_of(s: XSegment, t: XSegment) -> int {
    (s.b.x - s.a.x) * (t.a.y - s.a.y) - (s.b.y - s.a.y) * (t.a.x - s.a.x)
}

/// `(s.b - s.a) x (t.b - s.a)`: which side of `s` the end of `t` lies on.
pub open spec fn dab_of(s: XSegment, t: XSegment) -> int {
    (s.b.x - s.a.x) * (t.b.y - s.a.y) - (s.b.y - s.a.y) * (t.b.x - s.a.x)
}

/// `(t.b - t.a) x (t.a - s.a)`: which side of `t` the start of `s` lies on.
pub open spec fn acd_of(s: XSegment, t: XSegment) -> int {
    (t.b.x - t.a.x) * (t.a.y - s.a.y) - (t.b.y - t.a.y) * (t.a.x - s.a.x)
}

/// `(t.b - t.a) x (t.a - s.b)`: which side of `t` the end of `s` lies on.
pub open spec fn bcd_of(s: XSegment, t: XSegment) -> int {
    (t.b.x - t.a.x) * (t.a.y - s.b.y) - (t.b.y - t.a.y) * (t.a.x - s.b.x)
}

/// Cross product of the two segment directions; zero means parallel.
pub open spec fn ab_cross_cd(s: XSegment, t: XSegment) -> int {
    (s.b.x - s.a.x) * (t.b.y - t.a.y) - (s.b.y - s.a.y) * (t.b.x - t.a.x)
}

/// The interior intersection point, computed relative to `s.a`: the one
/// 128-bit division happens last, rounded half away from zero.
pub open spec fn cross_point_oriented_spec(s: XSegment, t: XSegment) -> IntPoint {
    let a1x = s.b.x - s.a.x;
    let a1y = s.b.y - s.a.y;
    let b0x = t.a.x - s.a.x;
    let b0y = t.a.y - s.a.y;
    let b1x = t.b.x - s.a.x;
    let b1y = t.b.y - s.a.y;
    let dy_b = b0y - b1y;
    let dx_b = b0x - b1x;
    let xy_b = b0x * b1y - b0y * b1x;
    if a1x == 0 {
        IntPoint { x: s.a.x, y: (trunc_div(xy_b, dx_b) + s.a.y) as i64 }
    } else if a1y == 0 {
        IntPoint { x: (trunc_div(-xy_b, dy_b) + s.a.x) as i64, y: s.a.y }
    } else {
        let den = a1y * dx_b - a1x * dy_b;
        IntPoint {
            x: (div_round(a1x * xy_b, den) + s.a.x) as i64,
            y: (div_round(a1y * xy_b, den) + s.a.y) as i64,
        }
    }
}

/// Overlap of two collinear segments ordered so that `s.a <= t.a`.
/// The interior intersection point. The translation origin is taken from
/// the lexicographically smaller of the two `a` corners, so the rounding
/// cannot depend on the argument order.
pub open spec fn cross_point_spec(s: XSegment, t: XSegment) -> IntPoint {
    if s.a.lex_le(t.a) {
        cross_point_oriented_spec(s, t)
    } else {
        cross_point_oriented_spec(t, s)
    }
}

pub open spec fn collinear_ordered_spec(s: XSegment, t: XSegment) -> Option<XOverlap> {
    if t.b.lex_le(s.b) {
        Some(XOverlap::Segment(t))
    } else if t.a.lex_lt(s.b) {
        Some(XOverlap::Segment(XSegment { a: t.a, b: s.b }))
    } else if t.a == s.b {
        Some(XOverlap::Point(t.a))
    } else {
        None
    }
}

pub open spec fn collinear_spec(s: XSegment, t: XSegment) -> Option<XOverlap> {
    if s.a.lex_le(t.a) {
        collinear_ordered_spec(s, t)
    } else {
        collinear_ordered_spec(t, s)
    }
}

/// The endpoint shared with or lying on the other segment, when the segments
/// are degenerate (some orientation is zero) but not collinear.
pub open spec fn not_collinear_spec(s: XSegment, t: XSegment) -> Option<XOverlap> {
    if acd_of(s, t) == 0 && t.spec_contains_lex(s.a) {
        Some(XOverlap::Point(s.a))
    } else if bcd_of(s, t) == 0 && t.spec_contains_lex(s.b) {
        Some(XOverlap::Point(s.b))
    } else if cab_of(s, t) == 0 && s.spec_contains_lex(t.a) {
        Some(XOverlap::Point(t.a))
    } else if dab_of(s, t) == 0 && s.spec_contains_lex(t.b) {
        Some(XOverlap::Point(t.b))
    } else {
        None
    }
}

/// The full crossing: `None` when the bounding intervals are disjoint or the
/// segments do not meet, a `Point` for a proper or endpoint crossing, a
/// `Segment` for a collinear overlap.
pub open spec fn x_cross_spec(s: XSegment, t: XSegment) -> Option<XOverlap> {
    if !s.spec_overlap_xy(t) {
        None
    } else {
        let cab = cab_of(s, t);
        let dab = dab_of(s, t);
        let acd = acd_of(s, t);
        let bcd = bcd_of(s, t);
        if acd == 0 || bcd == 0 || cab == 0 || dab == 0 {
            if ab_cross_cd(s, t) == 0 {
                collinear_spec(s, t)
            } else {
                not_collinear_spec(s, t)
            }
        } else if ((cab > 0) == (dab > 0)) || ((acd > 0) == (bcd > 0)) {
            None
        } else {
            Some(XOverlap::Point(cross_point_spec(s, t)))
        }
    }
}

/// All four endpoints in the proved coordinate range.
pub open spec fn seg_in_range(s: XSegment) -> bool {
    s.a.in_range() && s.b.in_range()
}

/// Truncating division on `i64`, with its exact result in the contract.
pub(crate) fn div_trunc_i64(n: i64, d: i64) -> (r: i64)
    requires
        d != 0,
        n != i64::MIN,
        d != i64::MIN,
    ensures
        r == trunc_div(n as int, d as int),
{
    let an: i64 = if n >= 0 {
        n
    } else {
        -n
    };
    let ad: i64 = if d >= 0 {
        d
    } else {
        -d
    };
    let m = an / ad;
    if (n < 0) == (d < 0) {
        m
    } else {
        -m
    }
}

/// Division rounded half away from zero on `i128`.
fn div_round_i128(n: i128, d: i128) -> (r: i128)
    requires
        d != 0,
        i128::MIN / 2 < n < i128::MAX / 2,
        i128::MIN / 2 < d < i128::MAX / 2,
    ensures
        r == div_round(n as int, d as int),
{
    let an: i128 = if n >= 0 {
        n
    } else {
        -n
    };
    let ad: i128 = if d >= 0 {
        d
    } else {
        -d
    };
    let m = (an + ad / 2) / ad;
    if (n < 0) == (d < 0) {
        m
    } else {
        -m
    }
}

impl XSegment {
    /// Exact crossing of two canonical segments.
    #[verifier::spinoff_prover]
    pub fn cross(&self, other: &XSegment) -> (r: Option<XOverlap>)
        requires
            self.wf(),
            other.wf(),
            seg_in_range(*self),
            seg_in_range(*other),
        ensures
            r == x_cross_spec(*self, *other),
    {
        if !self.is_overlap_xy(other) {
            return None;
        }
        let ab = self.b.sub(&self.a);
        let cd = other.b.sub(&other.a);
        let ca = other.a.sub(&self.a);
        let da = other.b.sub(&self.a);
        let bc = other.a.sub(&self.b);

        proof {
            lemma_cross_args_fit_range(ab, ca);
            lemma_cross_args_fit_range(ab, da);
            lemma_cross_args_fit_range(cd, ca);
            lemma_cross_args_fit_range(cd, bc);
            lemma_cross_args_fit_range(ab, cd);
        }
        let cab = ab.cross_product(&ca);
        let dab = ab.cross_product(&da);
        let acd = cd.cross_product(&ca);
        let bcd = cd.cross_product(&bc);

        let a = acd == 0;
        let b = bcd == 0;
        let c = cab == 0;
        let d = dab == 0;

        if a || b || c || d {
            if ab.cross_product(&cd) == 0 {
                self.degenerate_collinear_cross(other)
            } else {
                self.degenerate_not_collinear_cross(other, [a, b, c, d])
            }
        } else if (cab > 0) == (dab > 0) || (acd > 0) == (bcd > 0) {
            None
        } else {
            proof {
                assert(cab == cab_of(*self, *other));
                assert(dab == dab_of(*self, *other));
                assert(acd == acd_of(*self, *other));
                assert(bcd == bcd_of(*self, *other));
                assert(cab_of(*self, *other) * dab_of(*self, *other) < 0) by (nonlinear_arith)
                    requires
                        cab_of(*self, *other) == cab as int,
                        dab_of(*self, *other) == dab as int,
                        cab != 0,
                        dab != 0,
                        !((cab > 0) == (dab > 0)),
                ;
                assert(acd_of(*self, *other) * bcd_of(*self, *other) < 0) by (nonlinear_arith)
                    requires
                        acd_of(*self, *other) == acd as int,
                        bcd_of(*self, *other) == bcd as int,
                        acd != 0,
                        bcd != 0,
                        !((acd > 0) == (bcd > 0)),
                ;
            }
            Some(XOverlap::Point(self.cross_point(other)))
        }
    }

    /// The interior crossing point, with the smaller `a` corner as the
    /// origin of the computation.
    pub fn cross_point(&self, other: &XSegment) -> (r: IntPoint)
        requires
            seg_in_range(*self),
            seg_in_range(*other),
            cab_of(*self, *other) * dab_of(*self, *other) < 0,
            acd_of(*self, *other) * bcd_of(*self, *other) < 0,
        ensures
            r == cross_point_spec(*self, *other),
    {
        proof {
            lemma_swapped_orientations(*self, *other);
            assert((-acd_of(*self, *other)) * (-bcd_of(*self, *other)) == acd_of(*self, *other)
                * bcd_of(*self, *other)) by (nonlinear_arith);
        }
        if self.a.le(&other.a) {
            self.cross_point_oriented(other)
        } else {
            other.cross_point_oriented(self)
        }
    }

    /// The translate-to-origin interior computation; the caller fixes the
    /// argument order.
    #[verifier::spinoff_prover]
    fn cross_point_oriented(&self, other: &XSegment) -> (r: IntPoint)
        requires
            seg_in_range(*self),
            seg_in_range(*other),
            cab_of(*self, *other) * dab_of(*self, *other) < 0,
        ensures
            r == cross_point_oriented_spec(*self, *other),
    {
        let s = *self;
        let t = *other;
        let a0x = self.a.x;
        let a0y = self.a.y;

        let a1x = self.b.x - a0x;
        let b0x = other.a.x - a0x;
        let b1x = other.b.x - a0x;

        let a1y = self.b.y - a0y;
        let b0y = other.a.y - a0y;
        let b1y = other.b.y - a0y;

        let dy_b = b0y - b1y;
        let dx_b = b0x - b1x;

        proof {
            lemma_cross_args_fit_vals(b0x as int, b0y as int, b1x as int, b1y as int);
            // The branch orientations, written over the translated values.
            assert(cab_of(s, t) == a1x * b0y - a1y * b0x);
            assert(dab_of(s, t) == a1x * b1y - a1y * b1x);
        }
        let xy_b = b0x * b1y - b0y * b1x;

        let ghost cab = cab_of(s, t);
        let ghost dab = dab_of(s, t);

        let x0: i64;
        let y0: i64;

        if a1x == 0 {
            proof {
                // cab = -a1y*b0x and dab = -a1y*b1x here, so the straddle
                // condition puts zero strictly between b0x and b1x.
                assert(b0x * b1x < 0) by (nonlinear_arith)
                    requires
                        cab * dab < 0,
                        cab == a1x * b0y - a1y * b0x,
                        dab == a1x * b1y - a1y * b1x,
                        a1x == 0,
                ;
                assert((b0x > 0 && b1x < 0) || (b0x < 0 && b1x > 0)) by (nonlinear_arith)
                    requires
                        b0x * b1x < 0,
                ;
                lemma_between_products_y(
                    a1x as int,
                    a1y as int,
                    b0x as int,
                    b0y as int,
                    b1x as int,
                    b1y as int,
                );
                let lo = if b0y <= b1y {
                    b0y as int
                } else {
                    b1y as int
                };
                let hi = if b0y <= b1y {
                    b1y as int
                } else {
                    b0y as int
                };
                lemma_rounded_div_between(xy_b as int, dx_b as int, lo, hi);
            }
            x0 = 0;
            y0 = div_trunc_i64(xy_b, dx_b);
        } else if a1y == 0 {
            proof {
                assert(b0y * b1y < 0) by (nonlinear_arith)
                    requires
                        cab * dab < 0,
                        cab == a1x * b0y - a1y * b0x,
                        dab == a1x * b1y - a1y * b1x,
                        a1y == 0,
                ;
                assert((b0y > 0 && b1y < 0) || (b0y < 0 && b1y > 0)) by (nonlinear_arith)
                    requires
                        b0y * b1y < 0,
                ;
                lemma_between_products_x(
                    a1x as int,
                    a1y as int,
                    b0x as int,
                    b0y as int,
                    b1x as int,
                    b1y as int,
                );
                let lo = if b0x <= b1x {
                    b0x as int
                } else {
                    b1x as int
                };
                let hi = if b0x <= b1x {
                    b1x as int
                } else {
                    b0x as int
                };
                lemma_rounded_div_between(-xy_b as int, dy_b as int, lo, hi);
            }
            y0 = 0;
            x0 = div_trunc_i64(-xy_b, dy_b);
        } else {
            proof {
                lemma_abs_mul(a1y as int, dx_b as int, 0x8000_0000, 0x1_0000_0000);
                lemma_abs_mul(a1x as int, dy_b as int, 0x8000_0000, 0x1_0000_0000);
                lemma_abs_mul(a1x as int, xy_b as int, 0x8000_0000, 0x8000_0000_0000_0000);
                lemma_abs_mul(a1y as int, xy_b as int, 0x8000_0000, 0x8000_0000_0000_0000);
            }
            let div = (a1y as i128) * (dx_b as i128) - (a1x as i128) * (dy_b as i128);
            let xy_b128 = xy_b as i128;

            let kx = (a1x as i128) * xy_b128;
            let ky = (a1y as i128) * xy_b128;

            proof {
                // den equals dab - cab, which the straddle makes nonzero.
                assert(div == dab - cab) by (nonlinear_arith)
                    requires
                        div == a1y * dx_b - a1x * dy_b,
                        dx_b == b0x - b1x,
                        dy_b == b0y - b1y,
                        cab == a1x * b0y - a1y * b0x,
                        dab == a1x * b1y - a1y * b1x,
                ;
                assert(dab - cab != 0) by (nonlinear_arith)
                    requires
                        cab * dab < 0,
                ;
                lemma_between_products_kx(
                    a1x as int,
                    a1y as int,
                    b0x as int,
                    b0y as int,
                    b1x as int,
                    b1y as int,
                    cab,
                    dab,
                    kx as int,
                    div as int,
                );
                let lo_x = if b0x <= b1x {
                    b0x as int
                } else {
                    b1x as int
                };
                let hi_x = if b0x <= b1x {
                    b1x as int
                } else {
                    b0x as int
                };
                lemma_rounded_div_between(kx as int, div as int, lo_x, hi_x);
                lemma_between_products_ky(
                    a1x as int,
                    a1y as int,
                    b0x as int,
                    b0y as int,
                    b1x as int,
                    b1y as int,
                    cab,
                    dab,
                    ky as int,
                    div as int,
                );
                let lo_y = if b0y <= b1y {
                    b0y as int
                } else {
                    b1y as int
                };
                let hi_y = if b0y <= b1y {
                    b1y as int
                } else {
                    b0y as int
                };
                lemma_rounded_div_between(ky as int, div as int, lo_y, hi_y);
            }
            x0 = div_round_i128(kx, div) as i64;
            y0 = div_round_i128(ky, div) as i64;
        }

        let x = x0 + a0x;
        let y = y0 + a0y;

        IntPoint::new(x, y)
    }

    /// Overlap of two collinear segments, in either order.
    pub fn degenerate_collinear_cross(&self, other: &XSegment) -> (r: Option<XOverlap>)
        ensures
            r == collinear_spec(*self, *other),
    {
        if self.a.le(&other.a) {
            self.degenerate_collinear_ordered_cross(other)
        } else {
            other.degenerate_collinear_ordered_cross(self)
        }
    }

    /// Overlap of two collinear segments with `self.a <= other.a`.
    pub fn degenerate_collinear_ordered_cross(&self, other: &XSegment) -> (r: Option<XOverlap>)
        ensures
            r == collinear_ordered_spec(*self, *other),
    {
        if other.b.le(&self.b) {
            Some(XOverlap::Segment(*other))
        } else if other.a.lt(&self.b) {
            Some(XOverlap::Segment(XSegment { a: other.a, b: self.b }))
        } else if other.a.x == self.b.x && other.a.y == self.b.y {
            Some(XOverlap::Point(other.a))
        } else {
            None
        }
    }

    /// The shared endpoint for a degenerate but not collinear configuration;
    /// `abcd` records which of the four orientations vanished.
    pub fn degenerate_not_collinear_cross(&self, other: &XSegment, abcd: [bool; 4]) -> (r: Option<
        XOverlap,
    >)
        requires
            abcd[0] == (acd_of(*self, *other) == 0),
            abcd[1] == (bcd_of(*self, *other) == 0),
            abcd[2] == (cab_of(*self, *other) == 0),
            abcd[3] == (dab_of(*self, *other) == 0),
        ensures
            r == not_collinear_spec(*self, *other),
    {
        if abcd[0] && other.contains(self.a) {
            return Some(XOverlap::Point(self.a));
        }
        if abcd[1] && other.contains(self.b) {
            return Some(XOverlap::Point(self.b));
        }
        if abcd[2] && self.contains(other.a) {
            return Some(XOverlap::Point(other.a));
        }
        if abcd[3] && self.contains(other.b) {
            return Some(XOverlap::Point(other.b));
        }
        None
    }
}

/// The four orientations and the direction cross of the swapped argument
/// order, written in terms of the original order.
pub proof fn lemma_swapped_orientations(s: XSegment, t: XSegment)
    ensures
        ab_cross_cd(t, s) == -ab_cross_cd(s, t),
        cab_of(t, s) == -acd_of(s, t),
        dab_of(t, s) == -bcd_of(s, t),
        acd_of(t, s) == -cab_of(s, t),
        bcd_of(t, s) == -dab_of(s, t),
{
    assert(ab_cross_cd(t, s) == -ab_cross_cd(s, t)) by (nonlinear_arith);
    assert(cab_of(t, s) == -acd_of(s, t)) by (nonlinear_arith);
    assert(dab_of(t, s) == -bcd_of(s, t)) by (nonlinear_arith);
    assert(acd_of(t, s) == -cab_of(s, t)) by (nonlinear_arith);
    assert(bcd_of(t, s) == -dab_of(s, t)) by (nonlinear_arith);
}

/// Cross products of coordinate differences of in-range points fit in `i64`.
proof fn lemma_cross_args_fit_vals(ux: int, uy: int, vx: int, vy: int)
    requires
        -0x7fff_fffe <= ux <= 0x7fff_fffe,
        -0x7fff_fffe <= uy <= 0x7fff_fffe,
        -0x7fff_fffe <= vx <= 0x7fff_fffe,
        -0x7fff_fffe <= vy <= 0x7fff_fffe,
    ensures
        i64::MIN <= ux * vy <= i64::MAX,
        i64::MIN <= uy * vx <= i64::MAX,
        i64::MIN <= ux * vy - uy * vx <= i64::MAX,
        i64::MIN <= ux * vx <= i64::MAX,
        i64::MIN <= uy * vy <= i64::MAX,
        i64::MIN <= ux * vx + uy * vy <= i64::MAX,
        -0x7fff_fffc_0000_0008 <= ux * vy - uy * vx <= 0x7fff_fffc_0000_0008,
{
    crate::math::arith::lemma_cross_args_fit(ux, uy, vx, vy, 0x7fff_fffe);
    assert(2 * 0x7fff_fffe * 0x7fff_fffe == 0x7fff_fffc_0000_0008int) by (nonlinear_arith);
}

proof fn lemma_cross_args_fit_range(u: IntPoint, v: IntPoint)
    requires
        u.bounded(0x7fff_fffe),
        v.bounded(0x7fff_fffe),
    ensures
        i64::MIN <= u.x * v.y <= i64::MAX,
        i64::MIN <= u.y * v.x <= i64::MAX,
        i64::MIN <= u.spec_cross(v) <= i64::MAX,
{
    lemma_cross_args_fit_vals(u.x as int, u.y as int, v.x as int, v.y as int);
}

/// With `a1x == 0`, the quotient `xy_b / dx_b` lies between `b0y` and `b1y`:
/// written without division, as a sign condition on products.
#[verifier::spinoff_prover]
proof fn lemma_between_products_y(a1x: int, a1y: int, b0x: int, b0y: int, b1x: int, b1y: int)
    requires
        b0x * b1x < 0,
    ensures
        ({
            let xy = b0x * b1y - b0y * b1x;
            let dx = b0x - b1x;
            (xy - b0y * dx) * (xy - b1y * dx) <= 0 && (xy - b1y * dx) * (xy - b0y * dx) <= 0
        }),
{
    let xy = b0x * b1y - b0y * b1x;
    let dx = b0x - b1x;
    let e = b1y - b0y;
    assert(xy - b0y * dx == b0x * e) by (nonlinear_arith)
        requires
            xy == b0x * b1y - b0y * b1x,
            dx == b0x - b1x,
            e == b1y - b0y,
    ;
    assert(xy - b1y * dx == b1x * e) by (nonlinear_arith)
        requires
            xy == b0x * b1y - b0y * b1x,
            dx == b0x - b1x,
            e == b1y - b0y,
    ;
    assert((b0x * e) * (b1x * e) <= 0) by (nonlinear_arith)
        requires
            b0x * b1x < 0,
    ;
    assert((b1x * e) * (b0x * e) <= 0) by (nonlinear_arith)
        requires
            b0x * b1x < 0,
    ;
}

/// With `a1y == 0`, the quotient `-xy_b / dy_b` lies between `b0x` and `b1x`.
#[verifier::spinoff_prover]
proof fn lemma_between_products_x(a1x: int, a1y: int, b0x: int, b0y: int, b1x: int, b1y: int)
    requires
        b0y * b1y < 0,
    ensures
        ({
            let xy = b0x * b1y - b0y * b1x;
            let dy = b0y - b1y;
            ((-xy) - b0x * dy) * ((-xy) - b1x * dy) <= 0 && ((-xy) - b1x * dy) * ((-xy) - b0x * dy)
                <= 0
        }),
{
    let xy = b0x * b1y - b0y * b1x;
    let dy = b0y - b1y;
    let e = b1x - b0x;
    assert((-xy) - b0x * dy == b0y * e) by (nonlinear_arith)
        requires
            xy == b0x * b1y - b0y * b1x,
            dy == b0y - b1y,
            e == b1x - b0x,
    ;
    assert((-xy) - b1x * dy == b1y * e) by (nonlinear_arith)
        requires
            xy == b0x * b1y - b0y * b1x,
            dy == b0y - b1y,
            e == b1x - b0x,
    ;
    assert((b0y * e) * (b1y * e) <= 0) by (nonlinear_arith)
        requires
            b0y * b1y < 0,
    ;
    assert((b1y * e) * (b0y * e) <= 0) by (nonlinear_arith)
        requires
            b0y * b1y < 0,
    ;
}

/// In the generic branch, `kx / den` lies between `b0x` and `b1x`: the
/// distances to the two bounds multiply to `cab * dab * dx^2 <= 0`.
#[verifier::rlimit(100)]
#[verifier::spinoff_prover]
proof fn lemma_between_products_kx(
    a1x: int,
    a1y: int,
    b0x: int,
    b0y: int,
    b1x: int,
    b1y: int,
    cab: int,
    dab: int,
    kx: int,
    den: int,
)
    requires
        cab == a1x * b0y - a1y * b0x,
        dab == a1x * b1y - a1y * b1x,
        kx == a1x * (b0x * b1y - b0y * b1x),
        den == a1y * (b0x - b1x) - a1x * (b0y - b1y),
        cab * dab < 0,
    ensures
        (kx - b0x * den) * (kx - b1x * den) <= 0,
        (kx - b1x * den) * (kx - b0x * den) <= 0,
{
    assert(kx - b0x * den == cab * (b0x - b1x)) by (nonlinear_arith)
        requires
            cab == a1x * b0y - a1y * b0x,
            kx == a1x * (b0x * b1y - b0y * b1x),
            den == a1y * (b0x - b1x) - a1x * (b0y - b1y),
    ;
    assert(kx - b1x * den == dab * (b0x - b1x)) by (nonlinear_arith)
        requires
            dab == a1x * b1y - a1y * b1x,
            kx == a1x * (b0x * b1y - b0y * b1x),
            den == a1y * (b0x - b1x) - a1x * (b0y - b1y),
    ;
    assert((cab * (b0x - b1x)) * (dab * (b0x - b1x)) <= 0) by (nonlinear_arith)
        requires
            cab * dab < 0,
    ;
    assert((dab * (b0x - b1x)) * (cab * (b0x - b1x)) <= 0) by (nonlinear_arith)
        requires
            cab * dab < 0,
    ;
}

/// The same betweenness for `ky / den` against `b0y` and `b1y`.
#[verifier::rlimit(100)]
#[verifier::spinoff_prover]
proof fn lemma_between_products_ky(
    a1x: int,
    a1y: int,
    b0x: int,
    b0y: int,
    b1x: int,
    b1y: int,
    cab: int,
    dab: int,
    ky: int,
    den: int,
)
    requires
        cab == a1x * b0y - a1y * b0x,
        dab == a1x * b1y - a1y * b1x,
        ky == a1y * (b0x * b1y - b0y * b1x),
        den == a1y * (b0x - b1x) - a1x * (b0y - b1y),
        cab * dab < 0,
    ensures
        (ky - b0y * den) * (ky - b1y * den) <= 0,
        (ky - b1y * den) * (ky - b0y * den) <= 0,
{
    assert(ky - b0y * den == cab * (b0y - b1y)) by (nonlinear_arith)
        requires
            cab == a1x * b0y - a1y * b0x,
            ky == a1y * (b0x * b1y - b0y * b1x),
            den == a1y * (b0x - b1x) - a1x * (b0y - b1y),
    ;
    assert(ky - b1y * den == dab * (b0y - b1y)) by (nonlinear_arith)
        requires
            dab == a1x * b1y - a1y * b1x,
            ky == a1y * (b0x * b1y - b0y * b1x),
            den == a1y * (b0x - b1x) - a1x * (b0y - b1y),
    ;
    assert((cab * (b0y - b1y)) * (dab * (b0y - b1y)) <= 0) by (nonlinear_arith)
        requires
            cab * dab < 0,
    ;
    assert((dab * (b0y - b1y)) * (cab * (b0y - b1y)) <= 0) by (nonlinear_arith)
        requires
            cab * dab < 0,
    ;
}



/// Twice the signed area of `(p0, p1, p2)`: the clock-direction numerator.
pub open spec fn area2(p0: IntPoint, p1: IntPoint, p2: IntPoint) -> int {
    (p1.x - p0.x) * (p1.y - p2.y) - (p1.y - p0.y) * (p1.x - p2.x)
}

/// A point that the crossing reports through a degenerate path (some
/// orientation vanished) lies exactly on both carrier lines: both clock
/// directions are zero at it. A point of the interior branch is rounded to
/// the lattice and in general lies on neither line exactly; crossing
/// ((0,0)-(2,1)) with ((0,1)-(2,0)) reports such an off-line lattice point.
#[verifier::spinoff_prover]
#[verifier::rlimit(100)]
pub proof fn lemma_degenerate_point_on_both_lines(s: XSegment, t: XSegment, p: IntPoint)
    requires
        x_cross_spec(s, t) == Some(XOverlap::Point(p)),
        acd_of(s, t) == 0 || bcd_of(s, t) == 0 || cab_of(s, t) == 0 || dab_of(s, t) == 0,
    ensures
        area2(s.a, s.b, p) == 0,
        area2(t.a, t.b, p) == 0,
{
    lemma_area2_self(s.a, s.b);
    lemma_area2_self(t.a, t.b);
    if ab_cross_cd(s, t) == 0 {
        // Collinear touch: the reported point is a shared endpoint.
        if s.a.lex_le(t.a) {
            assert(p == t.a && t.a == s.b);
        } else {
            assert(p == s.a && s.a == t.b);
        }
    } else {
        // An endpoint whose orientation vanished: the zero cross product is
        // exactly the matching clock numerator.
        if acd_of(s, t) == 0 && t.spec_contains_lex(s.a) {
            assert(p == s.a);
            assert(area2(t.a, t.b, s.a) == acd_of(s, t)) by (nonlinear_arith);
        } else if bcd_of(s, t) == 0 && t.spec_contains_lex(s.b) {
            assert(p == s.b);
            assert(area2(t.a, t.b, s.b) == bcd_of(s, t)) by (nonlinear_arith);
        } else if cab_of(s, t) == 0 && s.spec_contains_lex(t.a) {
            assert(p == t.a);
            assert(area2(s.a, s.b, t.a) == -cab_of(s, t)) by (nonlinear_arith);
        } else if dab_of(s, t) == 0 && s.spec_contains_lex(t.b) {
            assert(p == t.b);
            assert(area2(s.a, s.b, t.b) == -dab_of(s, t)) by (nonlinear_arith);
        } else {
            assert(false);
        }
    }
}

/// The clock direction at one of the triangle's own vertices is zero.
#[verifier::spinoff_prover]
proof fn lemma_area2_self(a: IntPoint, b: IntPoint)
    ensures
        area2(a, b, a) == 0,
        area2(a, b, b) == 0,
{
    assert(area2(a, b, a) == 0 && area2(a, b, b) == 0) by (nonlinear_arith);
}


/// Two directions both parallel to one nonzero vector are parallel to each
/// other.
#[verifier::spinoff_prover]
proof fn lemma_parallel_through(ux: int, uy: int, vx: int, vy: int, wx: int, wy: int)
    requires
        ux * wy - uy * wx == 0,
        vx * wy - vy * wx == 0,
        !(wx == 0 && wy == 0),
    ensures
        ux * vy - uy * vx == 0,
{
    assert((ux * vy - uy * vx) * wx == (ux * wy - uy * wx) * vx - (vx * wy - vy * wx) * ux)
        by (nonlinear_arith);
    assert((ux * vy - uy * vx) * wy == (ux * wy - uy * wx) * vy - (vx * wy - vy * wx) * uy)
        by (nonlinear_arith);
    if wx != 0 {
        assert(ux * vy - uy * vx == 0) by (nonlinear_arith)
            requires
                (ux * vy - uy * vx) * wx == 0,
                wx != 0,
        ;
    } else {
        assert(ux * vy - uy * vx == 0) by (nonlinear_arith)
            requires
                (ux * vy - uy * vx) * wy == 0,
                wy != 0,
        ;
    }
}

/// The endpoint search of the degenerate branch does not depend on the
/// argument order: two distinct qualifying endpoints, one per segment,
/// would put both carrier lines through two common points.
#[verifier::spinoff_prover]
#[verifier::rlimit(100)]
proof fn lemma_not_collinear_symmetric(s: XSegment, t: XSegment)
    requires
        ab_cross_cd(s, t) != 0,
    ensures
        not_collinear_spec(s, t) == not_collinear_spec(t, s),
{
    lemma_swapped_orientations(s, t);
    let ca = acd_of(s, t) == 0 && t.spec_contains_lex(s.a);
    let cb = bcd_of(s, t) == 0 && t.spec_contains_lex(s.b);
    let cc = cab_of(s, t) == 0 && s.spec_contains_lex(t.a);
    let cd = dab_of(s, t) == 0 && s.spec_contains_lex(t.b);
    if (ca || cb) && (cc || cd) {
        let sp = if ca {
            s.a
        } else {
            s.b
        };
        let tp = if cc {
            t.a
        } else {
            t.b
        };
        if sp != tp {
            let wx = tp.x - sp.x;
            let wy = tp.y - sp.y;
            let abx = s.b.x - s.a.x;
            let aby = s.b.y - s.a.y;
            let cdx = t.b.x - t.a.x;
            let cdy = t.b.y - t.a.y;
            // Both directions are parallel to the vector between the two
            // qualifying endpoints.
            if ca {
                if cc {
                } else {
                    assert(cdx * wy - cdy * wx == acd_of(s, t)) by (nonlinear_arith)
                        requires
                            wx == t.b.x - s.a.x && wy == t.b.y - s.a.y && cdx == t.b.x - t.a.x
                                && cdy == t.b.y - t.a.y,
                    ;
                }
            } else {
                if cc {
                    assert(abx * wy - aby * wx == cab_of(s, t)) by (nonlinear_arith)
                        requires
                            wx == t.a.x - s.b.x && wy == t.a.y - s.b.y && abx == s.b.x - s.a.x
                                && aby == s.b.y - s.a.y,
                    ;
                } else {
                    assert(abx * wy - aby * wx == dab_of(s, t)) by (nonlinear_arith)
                        requires
                            wx == t.b.x - s.b.x && wy == t.b.y - s.b.y && abx == s.b.x - s.a.x
                                && aby == s.b.y - s.a.y,
                    ;
                    assert(cdx * wy - cdy * wx == bcd_of(s, t)) by (nonlinear_arith)
                        requires
                            wx == t.b.x - s.b.x && wy == t.b.y - s.b.y && cdx == t.b.x - t.a.x
                                && cdy == t.b.y - t.a.y,
                    ;
                }
            }
            lemma_parallel_through(abx, aby, cdx, cdy, wx, wy);
            assert(false);
        }
    }
}

/// The collinear overlap does not depend on the argument order.
#[verifier::spinoff_prover]
proof fn lemma_collinear_symmetric(s: XSegment, t: XSegment)
    requires
        s.wf(),
        t.wf(),
        s.a != s.b,
        t.a != t.b,
    ensures
        collinear_spec(s, t) == collinear_spec(t, s),
{
    if s.a == t.a {
        // Both orders then start the overlap at the shared corner and end
        // at the nearer of the two far ends.
        assert(s.a.lex_lt(s.b) && t.a.lex_lt(t.b));
        if t.b.lex_le(s.b) {
            if s.b.lex_le(t.b) {
                assert(s.b == t.b);
                assert(s == t);
            } else {
                assert((XSegment { a: s.a, b: t.b }) == t);
            }
        } else {
            assert((XSegment { a: t.a, b: s.b }) == s);
        }
    }
}

/// Crossing is symmetric in its two segments: the canonical segment
/// representation keeps endpoints ordered, so the two results are equal
/// outright rather than up to endpoint swapping. Zero-length
/// segments are excluded: the collinear walk can report a degenerate
/// overlap segment one way and its single point the other way.
#[verifier::spinoff_prover]
#[verifier::rlimit(100)]
pub proof fn lemma_cross_symmetric(s: XSegment, t: XSegment)
    requires
        s.wf(),
        t.wf(),
        s.a != s.b,
        t.a != t.b,
    ensures
        x_cross_spec(s, t) == x_cross_spec(t, s),
{
    lemma_swapped_orientations(s, t);
    assert(s.spec_overlap_xy(t) == t.spec_overlap_xy(s));
    if s.spec_overlap_xy(t) {
        let cab = cab_of(s, t);
        let dab = dab_of(s, t);
        let acd = acd_of(s, t);
        let bcd = bcd_of(s, t);
        if acd == 0 || bcd == 0 || cab == 0 || dab == 0 {
            if ab_cross_cd(s, t) == 0 {
                lemma_collinear_symmetric(s, t);
            } else {
                lemma_not_collinear_symmetric(s, t);
            }
        } else if ((cab > 0) == (dab > 0)) || ((acd > 0) == (bcd > 0)) {
        } else {
            // Interior branch: the translation origin is canonical, so the
            // rounded point is the same either way.
            assert(s.a != t.a) by {
                if s.a == t.a {
                    assert(cab_of(s, t) == 0) by (nonlinear_arith)
                        requires
                            t.a == s.a,
                    ;
                }
            }
            assert(cross_point_spec(s, t) == cross_point_spec(t, s));
        }
    }
}

} // verus!
