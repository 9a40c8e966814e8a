use crate::bezier::position::{spec_point_at, LineDivider, SplitPosition};
use crate::math::arith::lemma_cross_args_fit;
use crate::math::bits::{ilog2_u64, lemma_log2_unique, pow2_u64, spec_log2};
use crate::math::normalize::{normalized_16bit_rel, VectorNormalization16};
use crate::math::point::IntPoint;
use crate::math::rect::{bbox_seq, IntRect};
use crate::math::x_segment::XSegment;
use vstd::arithmetic::power2::pow2;
use vstd::prelude::*;

verus! {

/// A cubic spline: start anchor, two handles, end anchor.
#[derive(Debug, Clone, Copy)]
pub struct IntCubeSpline {
    pub anchors: [IntPoint; 4],
}

/// The cubic spline under its other historical name.
pub type IntCubicSpline = IntCubeSpline;

impl IntCubeSpline {
    pub open spec fn wf(self) -> bool {
        &&& self.anchors@[0].in_range()
    &&& self.anchors@[1].in_range()
    &&& self.anchors@[2].in_range()
    &&& self.anchors@[3].in_range()
    }

    pub fn start(&self) -> (r: IntPoint)
        ensures
            r == self.anchors@[0],
    {
        self.anchors[0]
    }

    pub fn end(&self) -> (r: IntPoint)
        ensures
            r == self.anchors@[3],
    {
        self.anchors[3]
    }

    /// The 16-bit unit tangent at the start: toward the first handle.
    pub fn start_dir(&self) -> (r: IntPoint)
        requires
            self.wf(),
        ensures
            normalized_16bit_rel(
                IntPoint {
                    x: (self.anchors@[1].x - self.anchors@[0].x) as i64,
                    y: (self.anchors@[1].y - self.anchors@[0].y) as i64,
                },
                r,
            ),
    {
        self.anchors[1].sub(&self.anchors[0]).normalized_16bit()
    }

    /// The 16-bit unit tangent at the end: from the last handle.
    pub fn end_dir(&self) -> (r: IntPoint)
        requires
            self.wf(),
        ensures
            normalized_16bit_rel(
                IntPoint {
                    x: (self.anchors@[3].x - self.anchors@[2].x) as i64,
                    y: (self.anchors@[3].y - self.anchors@[2].y) as i64,
                },
                r,
            ),
    {
        self.anchors[3].sub(&self.anchors[2]).normalized_16bit()
    }

    /// Two de Casteljau levels down to the curve point.
    pub fn point_at(&self, position: &SplitPosition) -> (r: IntPoint)
        requires
            self.wf(),
            position.wf(),
        ensures
            ({
                let m0 = spec_point_at(self.anchors@[0], self.anchors@[1], *position);
                let m1 = spec_point_at(self.anchors@[1], self.anchors@[2], *position);
                let m2 = spec_point_at(self.anchors@[2], self.anchors@[3], *position);
                let mm0 = spec_point_at(m0, m1, *position);
                let mm1 = spec_point_at(m1, m2, *position);
                r == spec_point_at(mm0, mm1, *position)
            }),
            r.in_range(),
    {
        let a = self.anchors[0];
        let ma = self.anchors[1];
        let mb = self.anchors[2];
        let b = self.anchors[3];

        let m0 = LineDivider::new(a, ma).point_at(position);
        let m1 = LineDivider::new(ma, mb).point_at(position);
        let m2 = LineDivider::new(mb, b).point_at(position);

        let mm0 = LineDivider::new(m0, m1).point_at(position);
        let mm1 = LineDivider::new(m1, m2).point_at(position);

        LineDivider::new(mm0, mm1).point_at(position)
    }

    /// The two halves at the midpoint parameter. They share the middle
    /// anchor, and keep the original endpoints.
    #[verifier::rlimit(100)]
    #[verifier::spinoff_prover]
    pub fn bisect(&self) -> (r: (Self, Self))
        requires
            self.wf(),
        ensures
            ({
                let a = self.anchors@[0];
                let ma = self.anchors@[1];
                let mb = self.anchors@[2];
                let b = self.anchors@[3];
                let m0 = a.spec_mid(ma);
                let m1 = ma.spec_mid(mb);
                let m2 = mb.spec_mid(b);
                let mm0 = m0.spec_mid(m1);
                let mm1 = m1.spec_mid(m2);
                let mmm = mm0.spec_mid(mm1);
                r.0.anchors@ =~= seq![a, m0, mm0, mmm] && r.1.anchors@ =~= seq![mmm, mm1, m2, b]
            }),
            r.0.wf(),
            r.1.wf(),
            r.0.anchors@[0] == self.anchors@[0],
            r.0.anchors@[3] == r.1.anchors@[0],
            r.1.anchors@[3] == self.anchors@[3],
    {
        let a = self.anchors[0];
        let ma = self.anchors[1];
        let mb = self.anchors[2];
        let b = self.anchors[3];

        let m0 = a.mid(&ma);
        let m1 = ma.mid(&mb);
        let m2 = mb.mid(&b);

        let mm0 = m0.mid(&m1);
        let mm1 = m1.mid(&m2);

        let mmm = mm0.mid(&mm1);

        let r = (Self { anchors: [a, m0, mm0, mmm] }, Self { anchors: [mmm, mm1, m2, b] });
        proof {
            assert(r.0.anchors@ =~= seq![a, m0, mm0, mmm]);
            assert(r.1.anchors@ =~= seq![mmm, mm1, m2, b]);
        }
        r
    }

    /// The split at an arbitrary dyadic parameter.
    #[verifier::spinoff_prover]
    pub fn split(&self, position: &SplitPosition) -> (r: (Self, Self))
        requires
            self.wf(),
            position.wf(),
        ensures
            ({
                let m0 = spec_point_at(self.anchors@[0], self.anchors@[1], *position);
                let m1 = spec_point_at(self.anchors@[1], self.anchors@[2], *position);
                let m2 = spec_point_at(self.anchors@[2], self.anchors@[3], *position);
                let mm0 = spec_point_at(m0, m1, *position);
                let mm1 = spec_point_at(m1, m2, *position);
                let mmm = spec_point_at(mm0, mm1, *position);
                r.0.anchors@ =~= seq![self.anchors@[0], m0, mm0, mmm] && r.1.anchors@ =~= seq![
                    mmm,
                    mm1,
                    m2,
                    self.anchors@[3],
                ]
            }),
            r.0.wf(),
            r.1.wf(),
    {
        let a = self.anchors[0];
        let ma = self.anchors[1];
        let mb = self.anchors[2];
        let b = self.anchors[3];

        let m0 = LineDivider::new(a, ma).point_at(position);
        let m1 = LineDivider::new(ma, mb).point_at(position);
        let m2 = LineDivider::new(mb, b).point_at(position);

        let mm0 = LineDivider::new(m0, m1).point_at(position);
        let mm1 = LineDivider::new(m1, m2).point_at(position);

        let mmm = LineDivider::new(mm0, mm1).point_at(position);

        let r = (Self { anchors: [a, m0, mm0, mmm] }, Self { anchors: [mmm, mm1, m2, b] });
        proof {
            assert(r.0.anchors@ =~= seq![a, m0, mm0, mmm]);
            assert(r.1.anchors@ =~= seq![mmm, mm1, m2, b]);
        }
        r
    }

    /// The bounding box of the control polygon.
    pub fn boundary(&self) -> (r: IntRect)
        ensures
            r == bbox_seq(self.anchors@),
    {
        IntRect::with_points(self.anchors.as_slice())
    }

    pub fn to_segment(&self) -> (r: XSegment)
        ensures
            r == XSegment::spec_new(self.anchors@[0], self.anchors@[3]),
    {
        XSegment::new(self.anchors[0], self.anchors[3])
    }

    /// Whether the curve is flat enough for its size class: the two handle
    /// triangles both bulge by less than `2^generation` times the chord.
    pub fn is_flat(&self, power: u32, generation: u32) -> (r: bool)
        requires
            self.wf(),
        ensures
            r == spec_is_flat(*self, power as int, generation as int),
    {
        if generation >= 20 {
            return true;
        }
        if power <= 3 {
            // The spline is already too small to subdivide further.
            return true;
        } else if power < 30 {
            return self.is_flat_i32(generation);
        }
        false
    }

    /// The exact flatness test: compares the two signed handle areas with a
    /// threshold derived from the chord length and the generation.
    pub fn is_flat_i32(&self, generation: u32) -> (r: bool)
        requires
            self.wf(),
            generation < 20,
        ensures
            r == spec_is_flat_i32(*self, generation as int),
    {
        let a = self.anchors[0];
        let ma = self.anchors[1];
        let mb = self.anchors[2];
        let b = self.anchors[3];

        proof {
            assert(2 * 0x7fff_fffe * 0x7fff_fffe <= i64::MAX) by (nonlinear_arith);
            lemma_cross_args_fit(b.x - a.x, b.y - a.y, ma.x - a.x, ma.y - a.y, 0x7fff_fffe);
            lemma_cross_args_fit(b.x - mb.x, b.y - mb.y, b.x - a.x, b.y - a.y, 0x7fff_fffe);
        }
        let v = b.sub(&a);
        let va = ma.sub(&a);
        let vb = b.sub(&mb);

        let sa = v.cross_product(&va);
        let sb = vb.cross_product(&v);

        if sa <= 0 || sb <= 0 {
            return false;
        }
        proof {
            // A positive area needs a nonzero chord.
            assert(!(v.x == 0 && v.y == 0)) by (nonlinear_arith)
                requires
                    v.x * va.y - v.y * va.x > 0,
            ;
            let dx = v.x as int;
            let dy = v.y as int;
            assert(0 <= dx * dx <= 0x7fff_fffe * 0x7fff_fffe && 0 <= dy * dy <= 0x7fff_fffe
                * 0x7fff_fffe) by (nonlinear_arith)
                requires
                    -0x7fff_fffe <= dx <= 0x7fff_fffe,
                    -0x7fff_fffe <= dy <= 0x7fff_fffe,
            ;
            assert(2 * (0x7fff_fffe * 0x7fff_fffe) <= u64::MAX) by (nonlinear_arith);
            assert(dx * dx + dy * dy >= 1) by (nonlinear_arith)
                requires
                    !(dx == 0 && dy == 0),
            ;
        }
        let sqr = v.sqr_len();
        let lg = ilog2_u64(sqr);
        proof {
            lemma_log2_unique(sqr as int, lg as nat);
            // log2(|v|^2) < 63, so half of it plus the generation stays
            // well below 63 and the threshold fits in an i64.
            vstd::arithmetic::power2::lemma2_to64_rest();
            assert(2 * (0x7fff_fffe * 0x7fff_fffe) < 0x8000_0000_0000_0000) by (nonlinear_arith);
            if lg >= 63 {
                if lg > 63 {
                    vstd::arithmetic::power2::lemma_pow2_strictly_increases(63, lg as nat);
                }
                assert(false);
            }
        }
        let v_log2len = lg / 2;
        proof {
            vstd::arithmetic::power2::lemma_pow2_strictly_increases(
                (v_log2len + generation) as nat,
                63,
            );
            vstd::arithmetic::power2::lemma2_to64_rest();
        }
        let s = pow2_u64(v_log2len + generation) as i64;

        sa < s && sb < s
    }
}

/// The flatness decision, over unbounded integers.
pub open spec fn spec_is_flat_i32(s: IntCubeSpline, generation: int) -> bool {
    let a = s.anchors@[0];
    let ma = s.anchors@[1];
    let mb = s.anchors@[2];
    let b = s.anchors@[3];
    let sa = (b.x - a.x) * (ma.y - a.y) - (b.y - a.y) * (ma.x - a.x);
    let sb = (b.x - mb.x) * (b.y - a.y) - (b.y - mb.y) * (b.x - a.x);
    if sa <= 0 || sb <= 0 {
        false
    } else {
        let sqr = (b.x - a.x) * (b.x - a.x) + (b.y - a.y) * (b.y - a.y);
        let lg = spec_log2(sqr) / 2;
        sa < pow2((lg + generation) as nat) && sb < pow2((lg + generation) as nat)
    }
}

pub open spec fn spec_is_flat(s: IntCubeSpline, power: int, generation: int) -> bool {
    if generation >= 20 {
        true
    } else if power <= 3 {
        true
    } else if power < 30 {
        spec_is_flat_i32(s, generation)
    } else {
        false
    }
}

} // verus!
