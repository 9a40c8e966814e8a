use crate::bezier::position::SplitPosition;
use crate::bezier::spline::IntSpline;
use crate::collision::collider::Collider;
use crate::collision::pair::{Pair, XBox};
use crate::collision::space::Space;
use crate::collision::x_segment::{x_cross_spec, XOverlap};
use crate::math::arith::abs_int;
use crate::math::bits::{ilog2_u64, lemma_log2_unique, pow2_u64, spec_log2};
use crate::math::point::IntPoint;
use crate::math::x_segment::XSegment;
use vstd::arithmetic::power2::pow2;
use vstd::prelude::*;

verus! {

/// A crossing point on two leaf chords, with the dyadic parameter it maps
/// to on each side.
#[derive(Debug, Clone, Copy)]
pub struct MarkPoint {
    pub point: IntPoint,
    pub a_pos: SplitPosition,
    pub b_pos: SplitPosition,
}

/// A recorded crossing: a single point, or the two ends of a collinear
/// overlap segment.
#[derive(Debug, Clone, Copy)]
pub struct Mark {
    pub p0: MarkPoint,
    pub p1: Option<MarkPoint>,
}

/// The dyadic parameter of `p` on the chord `a -> b`: measured on the
/// longer axis, clamped just below one, with denominator `2^floor(log2 l)`.
pub open spec fn spec_segment_position(a: IntPoint, b: IntPoint, p: IntPoint) -> SplitPosition {
    let dx = abs_int(a.x - b.x);
    let dy = abs_int(a.y - b.y);
    let l = if dx >= dy {
        dx
    } else {
        dy
    };
    let t = if dx >= dy {
        abs_int(a.x - p.x)
    } else {
        abs_int(a.y - p.y)
    };
    let st = if t <= l - 1 {
        t
    } else {
        l - 1
    };
    SplitPosition {
        power: spec_log2(l) as u32,
        value: (st * pow2(spec_log2(l) as nat) / l) as u64,
    }
}

/// A mark built from the chords `a0 -> a1` and `b0 -> b1`: its points come
/// from the exact crossing of the canonical segments, its parameters from
/// the chord-to-parameter conversion.
pub open spec fn mark_from(
    m: Mark,
    a0: IntPoint,
    a1: IntPoint,
    b0: IntPoint,
    b1: IntPoint,
) -> bool {
    &&& a0.in_range() && a1.in_range() && b0.in_range() && b1.in_range()
    &&& a0 != a1 && b0 != b1
    &&& match m.p1 {
        None => x_cross_spec(XSegment::spec_new(a0, a1), XSegment::spec_new(b0, b1)) == Some(
            XOverlap::Point(m.p0.point),
        ),
        Some(mp1) => x_cross_spec(XSegment::spec_new(a0, a1), XSegment::spec_new(b0, b1)) == Some(
            XOverlap::Segment(XSegment { a: m.p0.point, b: mp1.point }),
        ),
    }
    &&& m.p0.a_pos == spec_segment_position(a0, a1, m.p0.point)
    &&& m.p0.b_pos == spec_segment_position(b0, b1, m.p0.point)
    &&& match m.p1 {
        None => true,
        Some(mp1) => mp1.a_pos == spec_segment_position(a0, a1, mp1.point) && mp1.b_pos
            == spec_segment_position(b0, b1, mp1.point),
    }
}

/// The mark a leaf pair yields: the exact crossing of its two endpoint
/// chords with the chord parameters, none when a chord is degenerate, the
/// crossing empty, or a reported point off the proved lattice range.
pub open spec fn spec_pair_mark(p: Pair) -> Option<Mark> {
    let a0 = p.a_box.collider.spline.spec_start();
    let a1 = p.a_box.collider.spline.spec_end();
    let b0 = p.b_box.collider.spline.spec_start();
    let b1 = p.b_box.collider.spline.spec_end();
    if a0 == a1 || b0 == b1 {
        None
    } else {
        match x_cross_spec(XSegment::spec_new(a0, a1), XSegment::spec_new(b0, b1)) {
            Some(XOverlap::Point(pt)) => if pt.in_range() {
                Some(
                    Mark {
                        p0: MarkPoint {
                            point: pt,
                            a_pos: spec_segment_position(a0, a1, pt),
                            b_pos: spec_segment_position(b0, b1, pt),
                        },
                        p1: None,
                    },
                )
            } else {
                None
            },
            Some(XOverlap::Segment(seg)) => if seg.a.in_range() && seg.b.in_range() {
                Some(
                    Mark {
                        p0: MarkPoint {
                            point: seg.a,
                            a_pos: spec_segment_position(a0, a1, seg.a),
                            b_pos: spec_segment_position(b0, b1, seg.a),
                        },
                        p1: Some(
                            MarkPoint {
                                point: seg.b,
                                a_pos: spec_segment_position(a0, a1, seg.b),
                                b_pos: spec_segment_position(b0, b1, seg.b),
                            },
                        ),
                    },
                )
            } else {
                None
            },
            None => None,
        }
    }
}

/// The marks of a pair list, in list order.
pub open spec fn spec_marks_of(pairs: Seq<Pair>) -> Seq<Mark>
    decreases pairs.len(),
{
    if pairs.len() == 0 {
        Seq::<Mark>::empty()
    } else {
        spec_marks_of(pairs.drop_last()) + (match spec_pair_mark(pairs.last()) {
            Some(m) => seq![m],
            None => Seq::<Mark>::empty(),
        })
    }
}

/// The overlap elements the marks carry, in order.
pub open spec fn spec_overlaps_of(marks: Seq<Mark>) -> Seq<XOverlap>
    decreases marks.len(),
{
    if marks.len() == 0 {
        Seq::<XOverlap>::empty()
    } else {
        spec_overlaps_of(marks.drop_last()) + seq![
            match marks.last().p1 {
                Some(p1) => XOverlap::Segment(XSegment { a: marks.last().p0.point, b: p1.point }),
                None => XOverlap::Point(marks.last().p0.point),
            },
        ]
    }
}

/// The mark arose from the exact crossing of some two leaf chords.
pub open spec fn mark_valid(m: Mark) -> bool {
    exists|a0: IntPoint, a1: IntPoint, b0: IntPoint, b1: IntPoint|
        #[trigger] mark_from(m, a0, a1, b0, b1)
}

/// Converts a crossing point back to the dyadic parameter on its chord.
pub fn segment_position(a: IntPoint, b: IntPoint, p: IntPoint) -> (r: SplitPosition)
    requires
        a.in_range(),
        b.in_range(),
        p.in_range(),
        a != b,
    ensures
        r == spec_segment_position(a, b, p),
        r.wf(),
        r.power < 32,
        r.value < pow2(r.power as nat),
{
    let dxv = a.x - b.x;
    let dyv = a.y - b.y;
    let dx: u64 = if dxv >= 0 {
        dxv as u64
    } else {
        (-dxv) as u64
    };
    let dy: u64 = if dyv >= 0 {
        dyv as u64
    } else {
        (-dyv) as u64
    };

    let (l, t) = if dx >= dy {
        let txv = a.x - p.x;
        (
            dx,
            if txv >= 0 {
                txv as u64
            } else {
                (-txv) as u64
            },
        )
    } else {
        let tyv = a.y - p.y;
        (
            dy,
            if tyv >= 0 {
                tyv as u64
            } else {
                (-tyv) as u64
            },
        )
    };
    proof {
        assert(l >= 1);
        assert(l <= 0x7fff_fffe);
    }
    let power = ilog2_u64(l);
    proof {
        lemma_log2_unique(l as int, power as nat);
        if power >= 31 {
            vstd::arithmetic::power2::lemma2_to64();
            if power > 31 {
                vstd::arithmetic::power2::lemma_pow2_strictly_increases(31, power as nat);
            }
            assert(false);
        }
    }
    let s = if t <= l - 1 {
        t
    } else {
        l - 1
    };
    let pw = pow2_u64(power);
    proof {
        // s * 2^power stays within u64 and the quotient below 2^power.
        assert((s as int) * (pw as int) <= 0x7fff_fffe * 0x8000_0000) by (nonlinear_arith)
            requires
                0 <= s <= 0x7fff_fffe,
                0 <= pw <= 0x8000_0000,
        ;
        assert(0x7fff_fffe * 0x8000_0000 <= u64::MAX) by (nonlinear_arith);
        vstd::arithmetic::power2::lemma_pow2_pos(power as nat);
        lemma_clamped_quotient(s as int, pw as int, l as int);
    }
    let value = (s * pw) / l;
    SplitPosition { power, value }
}

/// With `s <= l - 1`, the scaled quotient stays strictly below the power.
proof fn lemma_clamped_quotient(s: int, pw: int, l: int)
    requires
        0 <= s <= l - 1,
        1 <= l,
        1 <= pw,
    ensures
        0 <= s * pw / l < pw,
        s * pw / l == (s * pw) / l,
{
    assert(0 <= s * pw) by (nonlinear_arith)
        requires
            0 <= s && 0 <= pw,
    ;
    vstd::arithmetic::div_mod::lemma_div_pos_is_pos(s * pw, l);
    assert(s * pw <= l * pw - pw) by (nonlinear_arith)
        requires
            s <= l - 1 && 1 <= pw,
    ;
    vstd::arithmetic::div_mod::lemma_div_is_ordered(s * pw, l * pw - pw, l);
    assert((l * pw - pw) == l * (pw - 1) + (l - pw) || true);
    assert((l * pw - pw) / l <= pw - 1) by {
        vstd::arithmetic::div_mod::lemma_fundamental_div_mod(l * pw - pw, l);
        assert(l * pw - pw == l * (pw - 1) + (l - 1) - (l - 1 - (l * pw - pw - l * (pw - 1))))
            by (nonlinear_arith);
        assert(l * pw - pw <= l * (pw - 1) + (l - 1)) by (nonlinear_arith)
            requires
                1 <= l && 1 <= pw,
        ;
        vstd::arithmetic::div_mod::lemma_div_is_ordered(l * pw - pw, l * (pw - 1) + (l - 1), l);
        vstd::arithmetic::div_mod::lemma_div_multiples_vanish_fancy(pw - 1, l - 1, l);
        assert(l * (pw - 1) + (l - 1) == (pw - 1) * l + (l - 1)) by (nonlinear_arith);
    }
}

/// The recursive pair-subdivision solver: two swap lists of live pairs and
/// the marks found on the leaves.
#[derive(Debug)]
pub struct Solver {
    pub list: Vec<Pair>,
    pub next: Vec<Pair>,
    pub marks: Vec<Mark>,
    pub space: Space,
}

pub open spec fn all_pairs_wf(v: Seq<Pair>) -> bool {
    forall|i: int| 0 <= i < v.len() ==> (#[trigger] v[i]).wf()
}

pub open spec fn all_marks_valid(v: Seq<Mark>) -> bool {
    forall|i: int| 0 <= i < v.len() ==> mark_valid(#[trigger] v[i])
}

impl Solver {
    pub open spec fn wf(self) -> bool {
        self.space.wf()
    }

    pub fn new(space: Space) -> (r: Solver)
        requires
            space.wf(),
        ensures
            r.wf(),
            r.space == space,
            r.marks@.len() == 0,
    {
        Solver { list: Vec::new(), next: Vec::new(), marks: Vec::new(), space }
    }

    /// Runs the full subdivision on two colliders. The marks are exactly
    /// the chord crossings of the surviving leaf pairs (held in `list`), in
    /// leaf order; stale marks of an earlier run are gone.
    pub fn intersect(&mut self, a_col: Collider, b_col: Collider)
        requires
            old(self).wf(),
            a_col.wf(),
            b_col.wf(),
        ensures
            final(self).wf(),
            final(self).space == old(self).space,
            all_pairs_wf(final(self).list@),
            final(self).marks@ =~= spec_marks_of(final(self).list@),
            all_marks_valid(final(self).marks@),
    {
        self.marks = Vec::new();
        self.list = Vec::new();

        let max_log_size = if a_col.size_level >= b_col.size_level {
            a_col.size_level
        } else {
            b_col.size_level
        };
        let min_iter_count = if max_log_size > self.space.convex_level {
            max_log_size - self.space.convex_level
        } else {
            0
        };
        let max_iter_count = if max_log_size > self.space.line_level {
            max_log_size - self.space.line_level
        } else {
            0
        };

        let a_box = XBox { position: SplitPosition { power: 0, value: 0 }, collider: a_col };
        let b_box = XBox { position: SplitPosition { power: 0, value: 0 }, collider: b_col };

        proof {
            vstd::arithmetic::power2::lemma2_to64();
        }
        self.list.push(Pair { a_box, b_box });

        self.box_cross(min_iter_count, max_iter_count);

        self.segment_cross();
    }

    /// The breadth-first bisection: keep splitting the surviving pairs for
    /// the generation window, stopping early past 1024 live pairs.
    fn box_cross(&mut self, iter_min: u32, iter_max: u32)
        requires
            old(self).wf(),
            all_pairs_wf(old(self).list@),
        ensures
            final(self).wf(),
            final(self).space == old(self).space,
            all_pairs_wf(final(self).list@),
            final(self).marks@ == old(self).marks@,
    {
        let mut generation: u32 = 0;
        while iter_min <= generation && generation < iter_max && self.list.len() > 0
            && self.list.len() <= 1024
            invariant
                self.wf(),
                self.space == old(self).space,
                all_pairs_wf(self.list@),
                self.marks@ == old(self).marks@,
                generation <= iter_max,
            decreases iter_max - generation,
        {
            // Within the generation window only overlapping pairs survive.
            self.prune_and_split();
            generation = generation + 1;
        }
    }

    /// One generation: every pair that still overlaps is replaced by its
    /// children.
    fn prune_and_split(&mut self)
        requires
            old(self).wf(),
            all_pairs_wf(old(self).list@),
        ensures
            final(self).wf(),
            final(self).space == old(self).space,
            all_pairs_wf(final(self).list@),
            final(self).marks@ == old(self).marks@,
    {
        self.next = Vec::new();
        let n = self.list.len();
        let mut i: usize = 0;
        while i < n
            invariant
                i <= n,
                self.wf(),
                self.space == old(self).space,
                n == self.list@.len(),
                all_pairs_wf(self.list@),
                all_pairs_wf(self.next@),
                self.marks@ == old(self).marks@,
            decreases n - i,
        {
            let pair = self.list[i];
            if pair.overlap(&self.space) {
                let space = self.space;
                pair.split_into(&space, &mut self.next);
            }
            i = i + 1;
        }
        self.list = Vec::new();
        core::mem::swap(&mut self.list, &mut self.next);
    }

    /// Resolves every surviving pair on its endpoint chords: exactly the
    /// mark of each pair whose chords cross on the lattice is appended, in
    /// list order, and nothing else.
    fn segment_cross(&mut self)
        requires
            old(self).wf(),
            all_pairs_wf(old(self).list@),
            all_marks_valid(old(self).marks@),
        ensures
            final(self).wf(),
            final(self).space == old(self).space,
            final(self).list@ == old(self).list@,
            final(self).marks@ =~= old(self).marks@ + spec_marks_of(old(self).list@),
            all_marks_valid(final(self).marks@),
    {
        let n = self.list.len();
        let mut i: usize = 0;
        proof {
            assert(self.marks@ =~= old(self).marks@ + spec_marks_of(self.list@.take(0)));
        }
        while i < n
            invariant
                i <= n,
                self.wf(),
                self.space == old(self).space,
                n == self.list@.len(),
                self.list@ == old(self).list@,
                all_pairs_wf(self.list@),
                all_marks_valid(self.marks@),
                self.marks@ =~= old(self).marks@ + spec_marks_of(self.list@.take(i as int)),
            decreases n - i,
        {
            let pair = self.list[i];
            proof {
                assert(self.list@.take(i + 1).drop_last() =~= self.list@.take(i as int));
            }
            let ghost marks_before = self.marks@;
            let a0 = pair.a_box.collider.spline.start_point();
            let a1 = pair.a_box.collider.spline.end_point();
            let b0 = pair.b_box.collider.spline.start_point();
            let b1 = pair.b_box.collider.spline.end_point();

            // A degenerate chord has no parameter direction; skip it.
            if !(a0 == a1) && !(b0 == b1) {
                let sxa = XSegment::new(a0, a1);
                let sxb = XSegment::new(b0, b1);
                proof {
                    lemma_spline_endpoints_in_range(pair.a_box.collider.spline);
                    lemma_spline_endpoints_in_range(pair.b_box.collider.spline);
                }
                match sxa.cross(&sxb) {
                    Some(XOverlap::Point(point)) => if point_in_range(&point) {
                        let a_pos = segment_position(a0, a1, point);
                        let b_pos = segment_position(b0, b1, point);
                        let m = Mark { p0: MarkPoint { point, a_pos, b_pos }, p1: None };
                        proof {
                            assert(mark_from(m, a0, a1, b0, b1));
                            assert(spec_pair_mark(self.list@[i as int]) == Some(m));
                        }
                        self.marks.push(m);
                    } else {
                        proof {
                            assert(spec_pair_mark(self.list@[i as int]) is None);
                        }
                    },
                    Some(XOverlap::Segment(seg)) => if point_in_range(&seg.a) && point_in_range(
                        &seg.b,
                    ) {
                        let a_pos_0 = segment_position(a0, a1, seg.a);
                        let b_pos_0 = segment_position(b0, b1, seg.a);
                        let a_pos_1 = segment_position(a0, a1, seg.b);
                        let b_pos_1 = segment_position(b0, b1, seg.b);
                        let m = Mark {
                            p0: MarkPoint { point: seg.a, a_pos: a_pos_0, b_pos: b_pos_0 },
                            p1: Some(MarkPoint { point: seg.b, a_pos: a_pos_1, b_pos: b_pos_1 }),
                        };
                        proof {
                            assert(mark_from(m, a0, a1, b0, b1));
                            assert(spec_pair_mark(self.list@[i as int]) == Some(m));
                        }
                        self.marks.push(m);
                    } else {
                        proof {
                            assert(spec_pair_mark(self.list@[i as int]) is None);
                        }
                    },
                    None => {
                        proof {
                            assert(spec_pair_mark(self.list@[i as int]) is None);
                        }
                    },
                }
            } else {
                proof {
                    assert(spec_pair_mark(self.list@[i as int]) is None);
                }
            }
            proof {
                assert(self.marks@ =~= old(self).marks@ + spec_marks_of(
                    self.list@.take(i + 1),
                ));
            }
            i = i + 1;
        }
        proof {
            assert(self.list@.take(n as int) =~= self.list@);
        }
    }
}

/// Whether a point is inside the proved coordinate range.
fn point_in_range(p: &IntPoint) -> (r: bool)
    ensures
        r == p.in_range(),
{
    -0x3fff_ffff <= p.x && p.x <= 0x3fff_ffff && -0x3fff_ffff <= p.y && p.y <= 0x3fff_ffff
}

/// The endpoints of a well-formed spline are in the proved range.
proof fn lemma_spline_endpoints_in_range(s: IntSpline)
    requires
        s.wf(),
    ensures
        s.spec_start().in_range(),
        s.spec_end().in_range(),
{
}

/// The overlap element is the exact crossing of some two in-range chords.
pub open spec fn overlap_from_chords(o: XOverlap) -> bool {
    exists|a0: IntPoint, a1: IntPoint, b0: IntPoint, b1: IntPoint|
        {
            &&& a0.in_range() && a1.in_range() && b0.in_range() && b1.in_range()
            &&& #[trigger] x_cross_spec(XSegment::spec_new(a0, a1), XSegment::spec_new(b0, b1))
                == Some(o)
        }
}

impl IntSpline {
    /// The overlay of two splines: exactly the chord crossings of the leaf
    /// pairs that the subdivision of these two splines leaves, in leaf
    /// order. Every element is the exact crossing of two in-range chords;
    /// which pairs survive is the search's result, witnessed by the leaf
    /// list.
    pub fn overlay(&self, other: &IntSpline, space: &Space) -> (r: Vec<XOverlap>)
        requires
            self.wf(),
            other.wf(),
            space.wf(),
        ensures
            exists|leaves: Seq<Pair>|
                all_pairs_wf(leaves) && r@ =~= #[trigger] spec_overlaps_of(spec_marks_of(leaves)),
            forall|i: int| 0 <= i < r@.len() ==> overlap_from_chords(#[trigger] r@[i]),
    {
        let mut solver = Solver::new(space.clone());
        let a_col = Collider::with_spline(self.clone(), space);
        let b_col = Collider::with_spline(other.clone(), space);
        solver.intersect(a_col, b_col);

        let mut out: Vec<XOverlap> = Vec::new();
        let mut i: usize = 0;
        let n = solver.marks.len();
        while i < n
            invariant
                i <= n,
                n == solver.marks@.len(),
                all_marks_valid(solver.marks@),
                out@ =~= spec_overlaps_of(solver.marks@.take(i as int)),
                forall|k: int| 0 <= k < out@.len() ==> overlap_from_chords(#[trigger] out@[k]),
            decreases n - i,
        {
            let m = solver.marks[i];
            let item = match m.p1 {
                Some(p1) => XOverlap::Segment(XSegment { a: m.p0.point, b: p1.point }),
                None => XOverlap::Point(m.p0.point),
            };
            proof {
                assert(solver.marks@.take(i + 1).drop_last() =~= solver.marks@.take(i as int));
                assert(mark_valid(solver.marks@[i as int]));
                let (a0, a1, b0, b1) = choose|a0: IntPoint, a1: IntPoint, b0: IntPoint, b1: IntPoint|
                    #[trigger] mark_from(solver.marks@[i as int], a0, a1, b0, b1);
                assert(x_cross_spec(XSegment::spec_new(a0, a1), XSegment::spec_new(b0, b1))
                    == Some(item));
                assert(overlap_from_chords(item));
            }
            out.push(item);
            proof {
                assert(out@ =~= spec_overlaps_of(solver.marks@.take(i + 1)));
            }
            i = i + 1;
        }
        proof {
            assert(solver.marks@.take(n as int) =~= solver.marks@);
            assert(solver.marks@ =~= spec_marks_of(solver.list@));
            assert(out@ =~= spec_overlaps_of(spec_marks_of(solver.list@)));
        }
        out
    }
}

} // verus!
