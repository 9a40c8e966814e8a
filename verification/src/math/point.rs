use vstd::prelude::*;

verus! {

use crate::math::arith::trunc_div;

/// A point on the integer lattice, ordered lexicographically by `x`, then `y`.
#[derive(Debug, Clone, Copy, PartialEq, Eq, Structural)]
pub struct IntPoint {
    pub x: i64,
    pub y: i64,
}

/// A displacement on the integer lattice; same shape as `IntPoint`.
#[derive(Debug, Clone, Copy, PartialEq, Eq, Structural)]
pub struct IntOffset {
    pub x: i64,
    pub y: i64,
}

impl IntOffset {
    pub fn zero() -> (r: Self)
        ensures
            r == (IntOffset { x: 0, y: 0 }),
    {
        Self { x: 0, y: 0 }
    }

    pub fn new(x: i64, y: i64) -> (r: Self)
        ensures
            r == (IntOffset { x, y }),
    {
        Self { x, y }
    }

    pub fn to_point(&self) -> (r: IntPoint)
        ensures
            r == (IntPoint { x: self.x, y: self.y }),
    {
        IntPoint { x: self.x, y: self.y }
    }
}

impl IntPoint {
    /// Lexicographic order: by `x`, ties broken by `y`.
    pub open spec fn lex_lt(self, other: IntPoint) -> bool {
        self.x < other.x || (self.x == other.x && self.y < other.y)
    }

    pub open spec fn lex_le(self, other: IntPoint) -> bool {
        self.x < other.x || (self.x == other.x && self.y <= other.y)
    }

    /// Cross product of two vectors, over unbounded integers.
    pub open spec fn spec_cross(self, other: IntPoint) -> int {
        self.x * other.y - self.y * other.x
    }

    /// Dot product of two vectors, over unbounded integers.
    pub open spec fn spec_dot(self, other: IntPoint) -> int {
        self.x * other.x + self.y * other.y
    }

    /// Squared Euclidean length, over unbounded integers.
    pub open spec fn spec_sqr_len(self) -> int {
        self.x * self.x + self.y * self.y
    }

    /// Both coordinates within `[-m, m]`.
    pub open spec fn bounded(self, m: int) -> bool {
        -m <= self.x <= m && -m <= self.y <= m
    }

    /// The coordinate range the exact predicates are proved free of overflow
    /// on: `|x|, |y| < 2^30`.
    pub open spec fn in_range(self) -> bool {
        self.bounded(0x3fff_ffff)
    }

    pub fn zero() -> (r: Self)
        ensures
            r == (IntPoint { x: 0, y: 0 }),
    {
        Self { x: 0, y: 0 }
    }

    pub fn new(x: i64, y: i64) -> (r: Self)
        ensures
            r == (IntPoint { x, y }),
    {
        Self { x, y }
    }

    pub fn to_offset(&self) -> (r: IntOffset)
        ensures
            r == (IntOffset { x: self.x, y: self.y }),
    {
        IntOffset { x: self.x, y: self.y }
    }

    pub fn lt(&self, other: &Self) -> (r: bool)
        ensures
            r == self.lex_lt(*other),
    {
        self.x < other.x || (self.x == other.x && self.y < other.y)
    }

    pub fn le(&self, other: &Self) -> (r: bool)
        ensures
            r == self.lex_le(*other),
    {
        self.x < other.x || (self.x == other.x && self.y <= other.y)
    }

    pub fn dot_product(&self, other: &Self) -> (r: i64)
        requires
            i64::MIN <= self.x * other.x <= i64::MAX,
            i64::MIN <= self.y * other.y <= i64::MAX,
            i64::MIN <= self.x * other.x + self.y * other.y <= i64::MAX,
        ensures
            r == self.spec_dot(*other),
    {
        self.x * other.x + self.y * other.y
    }

    pub fn cross_product(&self, other: &Self) -> (r: i64)
        requires
            i64::MIN <= self.x * other.y <= i64::MAX,
            i64::MIN <= self.y * other.x <= i64::MAX,
            i64::MIN <= self.x * other.y - self.y * other.x <= i64::MAX,
        ensures
            r == self.spec_cross(*other),
    {
        self.x * other.y - self.y * other.x
    }

    /// Squared distance to `other`; exact, computed in unsigned arithmetic.
    pub fn sqr_dist(&self, other: &Self) -> (r: u64)
        requires
            (self.x - other.x) * (self.x - other.x) + (self.y - other.y) * (self.y - other.y)
                <= u64::MAX,
        ensures
            r == (self.x - other.x) * (self.x - other.x) + (self.y - other.y) * (self.y
                - other.y),
    {
        let dx = self.x as i128 - other.x as i128;
        let dy = self.y as i128 - other.y as i128;
        let x: u64 = if dx >= 0 {
            dx as u64
        } else {
            (-dx) as u64
        };
        let y: u64 = if dy >= 0 {
            dy as u64
        } else {
            (-dy) as u64
        };
        proof {
            let sdx = self.x - other.x;
            let sdy = self.y - other.y;
            assert(x * x == sdx * sdx && y * y == sdy * sdy) by (nonlinear_arith)
                requires
                    x == if sdx >= 0 {
                        sdx
                    } else {
                        -sdx
                    },
                    y == if sdy >= 0 {
                        sdy
                    } else {
                        -sdy
                    },
            ;
            assert(x * x <= x * x + y * y && y * y <= x * x + y * y) by (nonlinear_arith);
        }
        x * x + y * y
    }

    /// Squared length; exact, computed in unsigned arithmetic.
    pub fn sqr_len(&self) -> (r: u64)
        requires
            self.x * self.x + self.y * self.y <= u64::MAX,
        ensures
            r == self.spec_sqr_len(),
    {
        let x: u64 = if self.x >= 0 {
            self.x as u64
        } else {
            (-(self.x as i128)) as u64
        };
        let y: u64 = if self.y >= 0 {
            self.y as u64
        } else {
            (-(self.y as i128)) as u64
        };
        proof {
            let sx = self.x as int;
            let sy = self.y as int;
            assert(x * x == sx * sx && y * y == sy * sy) by (nonlinear_arith)
                requires
                    x == if sx >= 0 {
                        sx
                    } else {
                        -sx
                    },
                    y == if sy >= 0 {
                        sy
                    } else {
                        -sy
                    },
            ;
            assert(x * x <= x * x + y * y && y * y <= x * x + y * y) by (nonlinear_arith);
        }
        x * x + y * y
    }

    /// Coordinate-wise midpoint, rounded toward zero.
    pub open spec fn spec_mid(self, other: IntPoint) -> IntPoint {
        IntPoint {
            x: trunc_div(self.x + other.x, 2) as i64,
            y: trunc_div(self.y + other.y, 2) as i64,
        }
    }

    /// Coordinate-wise midpoint; each coordinate is divided rounding toward
    /// zero, and stays between the two inputs.
    pub fn mid(&self, other: &Self) -> (r: Self)
        requires
            i64::MIN <= self.x + other.x <= i64::MAX,
            i64::MIN <= self.y + other.y <= i64::MAX,
        ensures
            r == self.spec_mid(*other),
            self.x <= other.x ==> self.x <= r.x <= other.x,
            other.x <= self.x ==> other.x <= r.x <= self.x,
            self.y <= other.y ==> self.y <= r.y <= other.y,
            other.y <= self.y ==> other.y <= r.y <= self.y,
    {
        proof {
            lemma_mid_between(self.x as int, other.x as int);
            lemma_mid_between(self.y as int, other.y as int);
        }
        let x = (self.x + other.x) / 2;
        let y = (self.y + other.y) / 2;
        Self { x, y }
    }

    pub fn add(&self, other: &Self) -> (r: Self)
        requires
            i64::MIN <= self.x + other.x <= i64::MAX,
            i64::MIN <= self.y + other.y <= i64::MAX,
        ensures
            r.x == self.x + other.x,
            r.y == self.y + other.y,
    {
        Self { x: self.x + other.x, y: self.y + other.y }
    }

    pub fn add_offset(&self, other: &IntOffset) -> (r: Self)
        requires
            i64::MIN <= self.x + other.x <= i64::MAX,
            i64::MIN <= self.y + other.y <= i64::MAX,
        ensures
            r.x == self.x + other.x,
            r.y == self.y + other.y,
    {
        Self { x: self.x + other.x, y: self.y + other.y }
    }

    pub fn sub(&self, other: &Self) -> (r: Self)
        requires
            i64::MIN <= self.x - other.x <= i64::MAX,
            i64::MIN <= self.y - other.y <= i64::MAX,
        ensures
            r.x == self.x - other.x,
            r.y == self.y - other.y,
    {
        Self { x: self.x - other.x, y: self.y - other.y }
    }

    pub fn mul(&self, scalar: i64) -> (r: Self)
        requires
            i64::MIN <= self.x * scalar <= i64::MAX,
            i64::MIN <= self.y * scalar <= i64::MAX,
        ensures
            r.x == self.x * scalar,
            r.y == self.y * scalar,
    {
        Self { x: self.x * scalar, y: self.y * scalar }
    }
}

/// The truncating half of a sum lies between the two addends.
proof fn lemma_mid_between(a: int, b: int)
    ensures
        a <= b ==> a <= trunc_div(a + b, 2) <= b,
        b <= a ==> b <= trunc_div(a + b, 2) <= a,
{
    if a <= b {
        assert(((a + b) - a * 2) * ((a + b) - b * 2) <= 0) by (nonlinear_arith)
            requires
                a <= b,
        ;
        crate::math::arith::lemma_rounded_div_between(a + b, 2, a, b);
    } else {
        assert(((a + b) - b * 2) * ((a + b) - a * 2) <= 0) by (nonlinear_arith)
            requires
                b <= a,
        ;
        crate::math::arith::lemma_rounded_div_between(a + b, 2, b, a);
    }
}

} // verus!
