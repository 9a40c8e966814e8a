use crate::collision::x_segment::div_trunc_i64;
use crate::math::arith::trunc_div;
use crate::math::point::IntPoint;
use vstd::arithmetic::power2::pow2;
use vstd::prelude::*;

verus! {

/// Fixed-point scale constants of the 16-bit unit circle.
pub struct VectorNormalization16Util;

impl VectorNormalization16Util {
    pub const VALUABLE_BITS: u32 = 16;

    pub const UNIT: u32 = 1u32 << 16;
}

/// The integer square root: the largest `r` with `r * r <= n`.
pub fn isqrt_u128(n: u128) -> (r: u64)
    ensures
        (r as int) * (r as int) <= n as int,
        n < ((r as int) + 1) * ((r as int) + 1),
{
    let mut lo: u64 = 0;
    let mut hi: u64 = u64::MAX;
    if n >= 0xffff_ffff_ffff_fffe_0000_0000_0000_0001 {
        // u64::MAX squared already covers everything above it.
        proof {
            assert((0xffff_ffff_ffff_ffffu64 as int) * (0xffff_ffff_ffff_ffffu64 as int)
                == 0xffff_ffff_ffff_fffe_0000_0000_0000_0001) by (nonlinear_arith);
            assert(((0xffff_ffff_ffff_ffffu64 as int) + 1) * ((0xffff_ffff_ffff_ffffu64 as int) + 1)
                > u128::MAX) by (nonlinear_arith);
        }
        return u64::MAX;
    }
    while lo < hi
        invariant
            (lo as int) * (lo as int) <= n as int,
            n < ((hi as int) + 1) * ((hi as int) + 1),
            lo <= hi,
        decreases hi - lo,
    {
        let mid = hi - (hi - lo) / 2;
        proof {
            assert(lo < mid <= hi);
            assert((mid as int) * (mid as int) <= u128::MAX) by (nonlinear_arith)
                requires
                    0 <= mid <= 0xffff_ffff_ffff_ffffu64,
            ;
        }
        if (mid as u128) * (mid as u128) <= n {
            lo = mid;
        } else {
            hi = mid - 1;
        }
    }
    lo
}

/// What the 16-bit normalization returns for a nonzero vector whose true
/// length is `len`: coordinates scaled by `2^16 / len`, with the division
/// done in the wide or the narrow way depending on the squared magnitude.
pub open spec fn spec_normalized_16bit(v: IntPoint, len: int) -> IntPoint {
    let sqr = v.x * v.x + v.y * v.y;
    if sqr < pow2(48) {
        IntPoint {
            x: trunc_div(v.x * 65536, len) as i64,
            y: trunc_div(v.y * 65536, len) as i64,
        }
    } else {
        IntPoint { x: trunc_div(v.x as int, len / 65536) as i64, y: trunc_div(v.y as int, len / 65536) as i64 }
    }
}

/// The full contract of the 16-bit normalization, as a relation between the
/// input vector and its scaled image.
pub open spec fn normalized_16bit_rel(v: IntPoint, r: IntPoint) -> bool {
    &&& (v.x == 0 && v.y == 0 ==> r == (IntPoint { x: 0, y: 0 }))
    &&& (!(v.x == 0 && v.y == 0) ==> exists|len: int|
        0 <= len && #[trigger] (len * len) <= v.spec_sqr_len() && v.spec_sqr_len() < (len + 1) * (
        len + 1) && r == spec_normalized_16bit(v, len))
    &&& -65792 <= r.x <= 65792
    &&& -65792 <= r.y <= 65792
    &&& (v.spec_sqr_len() < pow2(48) ==> -65536 <= r.x <= 65536 && -65536 <= r.y <= 65536)
}

/// Scaling a vector to the fixed-point unit circle.
pub trait VectorNormalization16 {
    spec fn src_vec(&self) -> IntPoint;

    /// The vector scaled to magnitude about `2^16`. The zero vector maps to
    /// zero. Each coordinate is bounded by the unit plus a small slack that
    /// the narrow division path can add.
    fn normalized_16bit(&self) -> (r: IntPoint)
        requires
            self.src_vec().bounded(0x100_0000_0000),
        ensures
            normalized_16bit_rel(self.src_vec(), r),
    ;
}

impl VectorNormalization16 for IntPoint {
    open spec fn src_vec(&self) -> IntPoint {
        *self
    }

    fn normalized_16bit(&self) -> (r: IntPoint) {
        let ax: u128 = if self.x >= 0 {
            self.x as u128
        } else {
            (-(self.x as i128)) as u128
        };
        let ay: u128 = if self.y >= 0 {
            self.y as u128
        } else {
            (-(self.y as i128)) as u128
        };
        proof {
            let sx = self.x as int;
            let sy = self.y as int;
            assert(ax * ax == sx * sx && ay * ay == sy * sy) by (nonlinear_arith)
                requires
                    ax == if sx >= 0 {
                        sx
                    } else {
                        -sx
                    },
                    ay == if sy >= 0 {
                        sy
                    } else {
                        -sy
                    },
            ;
            assert(0 <= sx * sx <= 0x100_0000_0000 * 0x100_0000_0000 && 0 <= sy * sy
                <= 0x100_0000_0000 * 0x100_0000_0000) by (nonlinear_arith)
                requires
                    -0x100_0000_0000 <= sx <= 0x100_0000_0000,
                    -0x100_0000_0000 <= sy <= 0x100_0000_0000,
            ;
            assert(2 * (0x100_0000_0000 * 0x100_0000_0000) <= u128::MAX) by (nonlinear_arith);
            assert((self.x == 0 && self.y == 0) <==> sx * sx + sy * sy == 0) by (nonlinear_arith)
                requires
                    sx == self.x as int && sy == self.y as int,
            ;
        }
        let sqr_len = ax * ax + ay * ay;
        if sqr_len == 0 {
            return IntPoint::new(0, 0);
        }

        let len_u = isqrt_u128(sqr_len);
        proof {
            vstd::arithmetic::power2::lemma2_to64_rest();
            // The root of an in-range squared length fits comfortably.
            assert((len_u as int) < 0x200_0000_0000) by (nonlinear_arith)
                requires
                    (len_u as int) * (len_u as int) <= sqr_len as int,
                    sqr_len as int <= 2 * (0x100_0000_0000 * 0x100_0000_0000),
            ;
            assert(len_u >= 1) by (nonlinear_arith)
                requires
                    (sqr_len as int) < ((len_u as int) + 1) * ((len_u as int) + 1),
                    sqr_len >= 1,
            ;
        }
        let len = len_u as i64;

        if sqr_len < 0x1_0000_0000_0000 {
            // Narrow magnitudes: shift the coordinates up, then divide.
            proof {
                lemma_coord_le_len(self.x as int, self.spec_sqr_len(), len as int);
                lemma_coord_le_len(self.y as int, self.spec_sqr_len(), len as int);
                lemma_scaled_div_unit(self.x as int, len as int);
                lemma_scaled_div_unit(self.y as int, len as int);
            }
            let x = div_trunc_i64(self.x * 65536, len);
            let y = div_trunc_i64(self.y * 65536, len);
            IntPoint::new(x, y)
        } else {
            // Wide magnitudes: shift the length down instead.
            let len_small = len / 65536;
            proof {
                assert(len as int >= 0x100_0000) by (nonlinear_arith)
                    requires
                        (sqr_len as int) < ((len as int) + 1) * ((len as int) + 1),
                        sqr_len as int >= 0x1_0000_0000_0000,
                        len >= 0,
                ;
                assert(len_small == len as int / 65536);
                vstd::arithmetic::div_mod::lemma_div_pos_is_pos(len as int, 65536);
                crate::bezier::position::lemma_floor_div_between(
                    len as int,
                    65536,
                    0x100,
                    0x200_0000,
                );
                lemma_coord_le_len(self.x as int, self.spec_sqr_len(), len as int);
                lemma_coord_le_len(self.y as int, self.spec_sqr_len(), len as int);
                lemma_narrow_div_unit(self.x as int, len as int, len_small as int);
                lemma_narrow_div_unit(self.y as int, len as int, len_small as int);
            }
            let x = div_trunc_i64(self.x, len_small);
            let y = div_trunc_i64(self.y, len_small);
            IntPoint::new(x, y)
        }
    }
}

/// A coordinate is at most the length of the vector it belongs to.
proof fn lemma_coord_le_len(c: int, sqr: int, len: int)
    requires
        c * c <= sqr,
        sqr < (len + 1) * (len + 1),
        0 <= len,
    ensures
        -len <= c <= len,
{
    assert(-len <= c <= len) by (nonlinear_arith)
        requires
            c * c <= sqr < (len + 1) * (len + 1) && 0 <= len,
    ;
}

/// Dividing a coordinate scaled by the unit by the full length keeps the
/// result within one unit.
proof fn lemma_scaled_div_unit(c: int, len: int)
    requires
        -len <= c <= len,
        1 <= len,
    ensures
        -65536 <= trunc_div(c * 65536, len) <= 65536,
{
    assert((c * 65536 - (-65536) * len) * (c * 65536 - 65536 * len) <= 0) by (nonlinear_arith)
        requires
            -len <= c <= len && 1 <= len,
    ;
    crate::math::arith::lemma_rounded_div_between(c * 65536, len, -65536, 65536);
}

/// Dividing a coordinate by the shifted-down length leaves at most a
/// 65792-wide result: the unit plus the truncation slack of the shift.
proof fn lemma_narrow_div_unit(c: int, len: int, ls: int)
    requires
        -len <= c <= len,
        0x100_0000 <= len < 0x200_0000_0000,
        ls == len / 65536,
    ensures
        -65792 <= trunc_div(c, ls) <= 65792,
        1 <= ls,
{
    vstd::arithmetic::div_mod::lemma_fundamental_div_mod(len, 65536);
    assert(0x100 <= ls) by {
        crate::bezier::position::lemma_floor_div_between(len, 65536, 0x100, 0x200_0000);
    }
    // len = 65536 * ls + s with s < 65536 <= 256 * ls, so len <= 65792 * ls.
    assert(len <= 65792 * ls) by (nonlinear_arith)
        requires
            len == 65536 * ls + len % 65536,
            len % 65536 < 65536,
            0x100 <= ls,
    ;
    assert((c - (-65792) * ls) * (c - 65792 * ls) <= 0) by (nonlinear_arith)
        requires
            -len <= c <= len && len <= 65792 * ls && 1 <= ls,
    ;
    crate::math::arith::lemma_rounded_div_between(c, ls, -65792, 65792);
}

} // verus!
