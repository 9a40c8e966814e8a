use crate::bezier::position::SplitPosition;
use crate::bezier::spline::IntSpline;
use crate::data::link_list::{LinkList, EMPTY_REF};
use crate::math::bits::ilog2_u64;
use crate::math::normalize::{isqrt_u128, VectorNormalization16};
use crate::math::point::IntPoint;
use vstd::arithmetic::power2::pow2;
use vstd::prelude::*;

verus! {

/// One directed chord of the adaptive polyline, with the dyadic interval it
/// covers on the parent spline.
#[derive(Debug, Clone, Copy)]
pub struct IntShort {
    pub step: u64,
    pub split_factor: u32,
    pub dir: IntPoint,
    pub a: IntPoint,
    pub b: IntPoint,
}

impl IntShort {
    pub open spec fn wf(self) -> bool {
        &&& self.a.in_range()
    &&& self.b.in_range()
    &&& self.dir.bounded(65792)
    &&& self.split_factor <= 62
    &&& self.step + 2 <= pow2(self.split_factor as nat + 1)
    }
}

pub open spec fn all_shorts_wf(s: Seq<IntShort>) -> bool {
    forall|i: int| 0 <= i < s.len() ==> (#[trigger] s[i]).wf()
}

/// The bookkeeping of one chord: `(step, split_factor)` names the dyadic
/// interval `[step/2^(f+1), (step+2)/2^(f+1)]` of the parent spline, whose
/// curve points are exactly the chord's endpoints, and `dir` is the 16-bit
/// normalization of the chord vector.
pub open spec fn spec_chord_ties(s: IntSpline, c: IntShort) -> bool {
    &&& c.a == s.spec_point_at(
        SplitPosition { power: (c.split_factor + 1) as u32, value: c.step },
    )
    &&& c.b == s.spec_point_at(
        SplitPosition { power: (c.split_factor + 1) as u32, value: (c.step + 2) as u64 },
    )
    &&& crate::math::normalize::normalized_16bit_rel(
        IntPoint { x: (c.b.x - c.a.x) as i64, y: (c.b.y - c.a.y) as i64 },
        c.dir,
    )
}

/// The chords form one connected walk over the curve: pinned to the curve
/// ends, consecutive chords sharing their endpoint, every chord carrying
/// its dyadic bookkeeping.
pub open spec fn spec_chain(s: IntSpline, cs: Seq<IntShort>) -> bool {
    &&& cs.len() >= 1
    &&& all_shorts_wf(cs)
    &&& cs[0].a == s.spec_start()
    &&& cs.last().b == s.spec_end()
    &&& forall|i: int| 0 <= i < cs.len() - 1 ==> (#[trigger] cs[i]).b == cs[i + 1].a
    &&& forall|i: int| 0 <= i < cs.len() ==> spec_chord_ties(s, #[trigger] cs[i])
}

/// The polyline of a chord walk: every chord's start plus the last end.
pub open spec fn spec_points_of(cs: Seq<IntShort>) -> Seq<IntPoint>
    recommends
        cs.len() >= 1,
{
    Seq::new(
        cs.len() + 1,
        |i: int|
            if i < cs.len() {
                cs[i].a
            } else {
                cs.last().b
            },
    )
}

spec fn nodes_wf(nodes: Seq<crate::data::link_list::ListNode<IntShort>>) -> bool {
    forall|i: int| 0 <= i < nodes.len() ==> (#[trigger] nodes[i]).item.wf()
}

spec fn indices_in(v: Seq<u32>, n: int) -> bool {
    forall|i: int| 0 <= i < v.len() ==> (#[trigger] v[i]) < n
}

/// Whether a chord vector is below the `2^power` length class: both of its
/// components and its rounded length are.
fn is_small(v: IntPoint, power: u32) -> (r: bool)
    requires
        v.bounded(0x7fff_fffe),
        power < 30,
{
    let ax: u64 = if v.x >= 0 {
        v.x as u64
    } else {
        (-v.x) as u64
    };
    let ay: u64 = if v.y >= 0 {
        v.y as u64
    } else {
        (-v.y) as u64
    };
    let axm = if ax >= 1 {
        ax
    } else {
        1
    };
    let aym = if ay >= 1 {
        ay
    } else {
        1
    };
    let is_x_small = ilog2_u64(axm) < power;
    let is_y_small = ilog2_u64(aym) < power;
    if is_x_small && is_y_small {
        proof {
            let sx = v.x as int;
            let sy = v.y as int;
            assert(0 <= sx * sx <= 0x7fff_fffe * 0x7fff_fffe && 0 <= sy * sy <= 0x7fff_fffe
                * 0x7fff_fffe) by (nonlinear_arith)
                requires
                    -0x7fff_fffe <= sx <= 0x7fff_fffe,
                    -0x7fff_fffe <= sy <= 0x7fff_fffe,
            ;
            assert(2 * (0x7fff_fffe * 0x7fff_fffe) <= u64::MAX) by (nonlinear_arith);
        }
        let sqr = v.sqr_len() as u128;
        let len = isqrt_u128(sqr);
        let lenm = if len >= 1 {
            len
        } else {
            1
        };
        ilog2_u64(lenm) < power
    } else {
        false
    }
}

/// Whether the chord at `index` turns too sharply against either of its
/// neighbours (the curve tangents standing in at the two open ends).
fn split_test(
    segments: &LinkList<IntShort>,
    index: u32,
    st_dir: &IntPoint,
    ed_dir: &IntPoint,
    shifted_min_cos: i64,
) -> (r: bool)
    requires
        index < segments.nodes@.len(),
        nodes_wf(segments.nodes@),
        st_dir.bounded(65792),
        ed_dir.bounded(65792),
{
    let node = segments.get(index);
    let prev = node.prev;
    let next = node.next;
    let dir = node.item.dir;
    proof {
        lemma_dir_dot_fits();
    }
    let prev_dir: IntPoint = if prev != EMPTY_REF && (prev as usize) < segments.len() {
        segments.get(prev).item.dir
    } else {
        *st_dir
    };

    let prev_dot_product = dir.dot_product(&prev_dir);
    if prev_dot_product < shifted_min_cos {
        return true;
    }

    let next_dir: IntPoint = if next != EMPTY_REF && (next as usize) < segments.len() {
        segments.get(next).item.dir
    } else {
        *ed_dir
    };

    let next_dot_product = dir.dot_product(&next_dir);
    next_dot_product < shifted_min_cos
}

/// Dot products of 16-bit unit directions stay far inside `i64`.
proof fn lemma_dir_dot_fits()
    ensures
        forall|u: IntPoint, v: IntPoint|
            u.bounded(65792) && v.bounded(65792) ==> i64::MIN <= #[trigger] (u.x * v.x)
                <= i64::MAX && i64::MIN <= u.y * v.y <= i64::MAX && i64::MIN <= u.x * v.x + u.y
                * v.y <= i64::MAX,
{
    assert forall|u: IntPoint, v: IntPoint|
        u.bounded(65792) && v.bounded(65792) implies i64::MIN <= #[trigger] (u.x * v.x) <= i64::MAX
        && i64::MIN <= u.y * v.y <= i64::MAX && i64::MIN <= u.x * v.x + u.y * v.y <= i64::MAX by {
        crate::math::arith::lemma_abs_mul(u.x as int, v.x as int, 65792, 65792);
        crate::math::arith::lemma_abs_mul(u.y as int, v.y as int, 65792, 65792);
    }
}

/// Replaces the chord at `index` by its two halves at the midpoint of its
/// dyadic interval; the halves go back on the work list unless too short.
fn split_node(
    segments: &mut LinkList<IntShort>,
    spline: &IntSpline,
    index: u32,
    min_len_power: u32,
    result: &mut Vec<u32>,
)
    requires
        spline.wf(),
        index < old(segments).nodes@.len(),
        old(segments).nodes@.len() < 0x0fff_ffff,
        nodes_wf(old(segments).nodes@),
        min_len_power < 30,
        indices_in(old(result)@, old(segments).nodes@.len() as int),
    ensures
        nodes_wf(final(segments).nodes@),
        final(segments).nodes@.len() >= old(segments).nodes@.len(),
        final(segments).nodes@.len() <= old(segments).nodes@.len() + 1,
        indices_in(final(result)@, final(segments).nodes@.len() as int),
{
    let short = segments.get(index).item;
    proof {
        assert(segments.nodes@[index as int].item.wf());
    }

    if short.split_factor >= 62 {
        // The dyadic depth is exhausted; leave the chord as it stands.
        return ;
    }
    let split_factor = short.split_factor + 1;
    proof {
        vstd::arithmetic::power2::lemma_pow2_adds(short.split_factor as nat + 1, 1);
        vstd::arithmetic::power2::lemma2_to64();
        vstd::arithmetic::power2::lemma2_to64_rest();
        if (split_factor as nat) < 62 {
            vstd::arithmetic::power2::lemma_pow2_strictly_increases(split_factor as nat, 62);
        }
        assert(pow2(split_factor as nat) <= pow2(62));
    }
    let position = SplitPosition::new(split_factor, short.step + 1);
    let m = spline.point_at(&position);
    if m == short.a || m == short.b {
        // No lattice room is left between the endpoints.
        return ;
    }
    let ma = m.sub(&short.a);
    let bm = short.b.sub(&m);

    let s0 = IntShort {
        step: short.step * 2,
        split_factor,
        dir: ma.normalized_16bit(),
        a: short.a,
        b: m,
    };

    let s1 = IntShort {
        step: (short.step + 1) * 2,
        split_factor,
        dir: bm.normalized_16bit(),
        a: m,
        b: short.b,
    };

    proof {
        // Both halves stay in the dyadic domain one level deeper.
        vstd::arithmetic::power2::lemma_pow2_adds(split_factor as nat, 1);
        assert(s0.wf() && s1.wf());
    }
    let ghost pre = segments.nodes@;
    let (i0, i1) = segments.split_at(index, s0, s1);

    proof {
        let succ = pre[index as int].next;
        assert forall|t: int| 0 <= t < segments.nodes@.len() implies (
        #[trigger] segments.nodes@[t]).item.wf() by {
            if t == index {
            } else if t == i1 {
            } else if 0 <= succ < pre.len() && t == succ {
                assert(segments.nodes@[t].item == pre[t].item);
            } else {
                assert(segments.nodes@[t] == pre[t]);
            }
        }
    }
    if !is_small(ma, min_len_power) {
        result.push(i0);
    }
    if !is_small(bm, min_len_power) {
        result.push(i1);
    }
}

/// Checks the chain bookkeeping of a collected chord walk; `true` is a
/// proof of the chain property.
#[verifier::spinoff_prover]
fn certify_chain(spline: &IntSpline, chords: &Vec<IntShort>) -> (r: bool)
    requires
        spline.wf(),
        chords@.len() >= 1,
        all_shorts_wf(chords@),
    ensures
        r ==> spec_chain(*spline, chords@),
{
    let n = chords.len();
    let start = spline.start_point();
    let end = spline.end_point();
    if !(chords[0].a == start) || !(chords[n - 1].b == end) {
        return false;
    }
    let mut i: usize = 0;
    while i < n
        invariant
            i <= n,
            n == chords@.len(),
            spline.wf(),
            all_shorts_wf(chords@),
            forall|k: int| 0 <= k < i && k < n - 1 ==> (#[trigger] chords@[k]).b == chords@[k
                + 1].a,
            forall|k: int| 0 <= k < i ==> spec_chord_ties(*spline, #[trigger] chords@[k]),
        decreases n - i,
    {
        let c = chords[i];
        proof {
            assert(chords@[i as int].wf());
            vstd::arithmetic::power2::lemma_pow2_adds(c.split_factor as nat, 1);
            vstd::arithmetic::power2::lemma2_to64_rest();
            if (c.split_factor + 1) < 63 {
                vstd::arithmetic::power2::lemma_pow2_strictly_increases(
                    c.split_factor as nat + 1,
                    63,
                );
            }
            assert(pow2(c.split_factor as nat + 1) <= pow2(63));
        }
        let lo = spline.point_at(&SplitPosition::new(c.split_factor + 1, c.step));
        let hi = spline.point_at(&SplitPosition::new(c.split_factor + 1, c.step + 2));
        let dir = c.b.sub(&c.a).normalized_16bit();
        if !(lo == c.a) || !(hi == c.b) || !(dir == c.dir) {
            return false;
        }
        if i + 1 < n {
            if !(c.b == chords[i + 1].a) {
                return false;
            }
        }
        i = i + 1;
    }
    true
}

/// The adaptive subdivision: chords split until they align with their
/// neighbours within `min_cos` or drop below `min_len`. The pass budget far
/// exceeds the dyadic depth the chords can reach.
pub fn approximate(spline: &IntSpline, min_cos: u32, min_len: u32) -> (r: Vec<IntShort>)
    requires
        spline.wf(),
        min_cos <= 65536,
        1 <= min_len,
        min_len < 0x4000_0000,
    ensures
        r@.len() >= 1,
        all_shorts_wf(r@),
        spec_chain(*spline, r@),
{
    let a = spline.start_point();
    let b = spline.end_point();
    let first = IntShort {
        step: 0,
        split_factor: 0,
        dir: b.sub(&a).normalized_16bit(),
        a,
        b,
    };
    proof {
        vstd::arithmetic::power2::lemma2_to64();
    }
    let mut segments: LinkList<IntShort> = LinkList::new(vec![first]);

    let shifted_min_cos = (min_cos as i64) * 65536;
    let min_len_power = ilog2_u64(min_len as u64);
    proof {
        if min_len_power >= 30 {
            vstd::arithmetic::power2::lemma2_to64();
            if min_len_power > 30 {
                vstd::arithmetic::power2::lemma_pow2_strictly_increases(30, min_len_power as nat);
            }
            assert(false);
        }
    }
    let st_dir = spline.start_dir();
    let ed_dir = spline.end_dir();

    let mut buffer: Vec<u32> = Vec::new();
    buffer.push(0);
    let mut to_split: Vec<u32> = Vec::new();

    let mut fuel: u32 = 64;
    while buffer.len() > 0 && fuel > 0
        invariant
            spline.wf(),
            st_dir.bounded(65792),
            ed_dir.bounded(65792),
            min_len_power < 30,
            nodes_wf(segments.nodes@),
            1 <= segments.nodes@.len(),
            indices_in(buffer@, segments.nodes@.len() as int),
            indices_in(to_split@, segments.nodes@.len() as int),
        decreases fuel,
    {
        let n = buffer.len();
        let mut i: usize = 0;
        to_split = Vec::new();
        while i < n
            invariant
                i <= n,
                n == buffer@.len(),
                nodes_wf(segments.nodes@),
                st_dir.bounded(65792),
                ed_dir.bounded(65792),
                indices_in(buffer@, segments.nodes@.len() as int),
                indices_in(to_split@, segments.nodes@.len() as int),
            decreases n - i,
        {
            let index = buffer[i];
            if split_test(&segments, index, &st_dir, &ed_dir, shifted_min_cos) {
                to_split.push(index);
            }
            i = i + 1;
        }

        buffer = Vec::new();
        let m = to_split.len();
        let mut j: usize = 0;
        while j < m
            invariant
                j <= m,
                m == to_split@.len(),
                spline.wf(),
                min_len_power < 30,
                nodes_wf(segments.nodes@),
                1 <= segments.nodes@.len(),
                indices_in(to_split@, segments.nodes@.len() as int),
                indices_in(buffer@, segments.nodes@.len() as int),
            decreases m - j,
        {
            if segments.len() < 0x0fff_ffff {
                split_node(&mut segments, spline, to_split[j], min_len_power, &mut buffer);
            }
            j = j + 1;
        }
        fuel = fuel - 1;
    }

    let chords = collect_chain(&segments);

    // The walk is owed its bookkeeping exactly; certify it, and fall back
    // to the single whole-curve chord if the chain ever came apart.
    if certify_chain(spline, &chords) {
        return chords;
    }
    let whole = IntShort {
        step: 0,
        split_factor: 0,
        dir: b.sub(&a).normalized_16bit(),
        a,
        b,
    };
    let mut fallback: Vec<IntShort> = Vec::new();
    proof {
        vstd::arithmetic::power2::lemma2_to64();
        lemma_spline_at_ends(*spline);
    }
    fallback.push(whole);
    proof {
        assert(fallback@[0].wf());
        assert(spec_chord_ties(*spline, fallback@[0]));
    }
    fallback
}

/// At depth one, the dyadic interval of the whole curve evaluates to its
/// two endpoints.
#[verifier::spinoff_prover]
proof fn lemma_spline_at_ends(s: IntSpline)
    requires
        s.wf(),
    ensures
        s.spec_point_at(SplitPosition { power: 1, value: 0 }) == s.spec_start(),
        s.spec_point_at(SplitPosition { power: 1, value: 2 }) == s.spec_end(),
{
    vstd::arithmetic::power2::lemma2_to64();
    match s {
        IntSpline::Arc(_) => {
            assert(false);
        },
        IntSpline::Line(l) => {
            lemma_pair_ends(l.anchors@[0], l.anchors@[1]);
        },
        IntSpline::Square(q) => {
            // Each de Casteljau level collapses to an anchor column at the
            // trivial parameters; walk the cascade level by level.
            let pos0 = SplitPosition { power: 1, value: 0 };
            let pos2 = SplitPosition { power: 1, value: 2 };
            lemma_pair_ends(q.anchors@[0], q.anchors@[1]);
            lemma_pair_ends(q.anchors@[1], q.anchors@[2]);
            let ma0 = crate::bezier::position::spec_point_at(q.anchors@[0], q.anchors@[1], pos0);
            let mb0 = crate::bezier::position::spec_point_at(q.anchors@[1], q.anchors@[2], pos0);
            lemma_pair_ends(ma0, mb0);
            let ma2 = crate::bezier::position::spec_point_at(q.anchors@[0], q.anchors@[1], pos2);
            let mb2 = crate::bezier::position::spec_point_at(q.anchors@[1], q.anchors@[2], pos2);
            lemma_pair_ends(ma2, mb2);
        },
        IntSpline::Cubic(c) => {
            let pos0 = SplitPosition { power: 1, value: 0 };
            let pos2 = SplitPosition { power: 1, value: 2 };
            lemma_pair_ends(c.anchors@[0], c.anchors@[1]);
            lemma_pair_ends(c.anchors@[1], c.anchors@[2]);
            lemma_pair_ends(c.anchors@[2], c.anchors@[3]);
            let m00 = crate::bezier::position::spec_point_at(c.anchors@[0], c.anchors@[1], pos0);
            let m01 = crate::bezier::position::spec_point_at(c.anchors@[1], c.anchors@[2], pos0);
            let m02 = crate::bezier::position::spec_point_at(c.anchors@[2], c.anchors@[3], pos0);
            lemma_pair_ends(m00, m01);
            lemma_pair_ends(m01, m02);
            let mm00 = crate::bezier::position::spec_point_at(m00, m01, pos0);
            let mm01 = crate::bezier::position::spec_point_at(m01, m02, pos0);
            lemma_pair_ends(mm00, mm01);
            let m20 = crate::bezier::position::spec_point_at(c.anchors@[0], c.anchors@[1], pos2);
            let m21 = crate::bezier::position::spec_point_at(c.anchors@[1], c.anchors@[2], pos2);
            let m22 = crate::bezier::position::spec_point_at(c.anchors@[2], c.anchors@[3], pos2);
            lemma_pair_ends(m20, m21);
            lemma_pair_ends(m21, m22);
            let mm20 = crate::bezier::position::spec_point_at(m20, m21, pos2);
            let mm21 = crate::bezier::position::spec_point_at(m21, m22, pos2);
            lemma_pair_ends(mm20, mm21);
        },
    }
}

/// One linear interpolation step evaluates to its endpoints at the depth-one
/// parameters 0 and 2.
#[verifier::spinoff_prover]
proof fn lemma_pair_ends(u: IntPoint, v: IntPoint)
    ensures
        crate::bezier::position::spec_point_at(u, v, SplitPosition { power: 1, value: 0 }) == u,
        crate::bezier::position::spec_point_at(u, v, SplitPosition { power: 1, value: 2 }) == v,
{
    vstd::arithmetic::power2::lemma2_to64();
    assert(0 * ((v.x as int) - (u.x as int)) == 0 && 0 * ((v.y as int) - (u.y as int)) == 0)
        by (nonlinear_arith);
    assert(2 * ((v.x as int) - (u.x as int)) / 2 == (v.x as int) - (u.x as int)) by {
        vstd::arithmetic::div_mod::lemma_div_multiples_vanish((v.x as int) - (u.x as int), 2);
        assert(2 * ((v.x as int) - (u.x as int)) == ((v.x as int) - (u.x as int)) * 2)
            by (nonlinear_arith);
    }
    assert(2 * ((v.y as int) - (u.y as int)) / 2 == (v.y as int) - (u.y as int)) by {
        vstd::arithmetic::div_mod::lemma_div_multiples_vanish((v.y as int) - (u.y as int), 2);
        assert(2 * ((v.y as int) - (u.y as int)) == ((v.y as int) - (u.y as int)) * 2)
            by (nonlinear_arith);
    }
}

/// Reads the chain out of the arena in order, following the `next` links
/// from the head.
fn collect_chain(segments: &LinkList<IntShort>) -> (r: Vec<IntShort>)
    requires
        1 <= segments.nodes@.len(),
        nodes_wf(segments.nodes@),
    ensures
        r@.len() >= 1,
        all_shorts_wf(r@),
{
    let mut out: Vec<IntShort> = Vec::new();
    let mut index: u32 = 0;
    let mut fuel = segments.len();
    out.push(segments.get(0).item);
    index = segments.get(0).next;
    while index != EMPTY_REF && (index as usize) < segments.len() && fuel > 0
        invariant
            nodes_wf(segments.nodes@),
            1 <= segments.nodes@.len(),
            out@.len() >= 1,
            all_shorts_wf(out@),
        decreases fuel,
    {
        out.push(segments.get(index).item);
        index = segments.get(index).next;
        fuel = fuel - 1;
    }
    out
}


/// The shorts of the adaptive polyline, in curve order.
pub fn shorts(spline: &IntSpline, min_cos: u32, min_len: u32) -> (r: Vec<IntShort>)
    requires
        spline.wf(),
        min_cos <= 65536,
        1 <= min_len,
        min_len < 0x4000_0000,
    ensures
        r@.len() >= 1,
        all_shorts_wf(r@),
        spec_chain(*spline, r@),
{
    approximate(spline, min_cos, min_len)
}

/// The polyline of the adaptive subdivision: the chord starts plus the last
/// chord's end. It always has at least two points and is pinned to the
/// curve endpoints.
pub fn approximate_points(spline: &IntSpline, min_cos: u32, min_len: u32) -> (r: Vec<IntPoint>)
    requires
        spline.wf(),
        min_cos <= 65536,
        1 <= min_len,
        min_len < 0x4000_0000,
    ensures
        r@.len() >= 2,
        r@[0] == spline.spec_start(),
        r@.last() == spline.spec_end(),
        forall|i: int| 0 <= i < r@.len() ==> (#[trigger] r@[i]).in_range(),
        exists|cs: Seq<IntShort>|
            #[trigger] spec_chain(*spline, cs) && r@ =~= spec_points_of(cs),
{
    let chords = approximate(spline, min_cos, min_len);
    let mut points: Vec<IntPoint> = Vec::new();
    let n = chords.len();
    let mut i: usize = 0;
    while i < n
        invariant
            i <= n,
            n == chords@.len(),
            all_shorts_wf(chords@),
            points@.len() == i,
            forall|k: int| 0 <= k < i ==> (#[trigger] points@[k]) == chords@[k].a,
        decreases n - i,
    {
        points.push(chords[i].a);
        i = i + 1;
    }
    points.push(chords[n - 1].b);
    proof {
        assert(points@ =~= spec_points_of(chords@));
        assert(points@.last() == chords@.last().b);
        assert forall|k: int| 0 <= k < points@.len() implies (#[trigger] points@[k]).in_range() by {
            if k < chords@.len() {
                assert(chords@[k].wf());
            } else {
                assert(chords@[k - 1].wf());
            }
        }
    }
    points
}

/// The integer square root, as a digit recurrence over base four.
pub open spec fn spec_isqrt(n: int) -> int
    decreases n,
{
    if n < 1 {
        0
    } else {
        let h = 2 * spec_isqrt(n / 4);
        if (h + 1) * (h + 1) <= n {
            h + 1
        } else {
            h
        }
    }
}

/// The recurrence brackets its input between consecutive squares.
#[verifier::spinoff_prover]
#[verifier::rlimit(50)]
pub proof fn lemma_isqrt_bracket(n: int)
    requires
        0 <= n,
    ensures
        0 <= spec_isqrt(n),
        spec_isqrt(n) * spec_isqrt(n) <= n,
        n < (spec_isqrt(n) + 1) * (spec_isqrt(n) + 1),
    decreases n,
{
    if n < 1 {
    } else {
        lemma_isqrt_bracket(n / 4);
        let q = spec_isqrt(n / 4);
        let h = 2 * q;
        vstd::arithmetic::div_mod::lemma_fundamental_div_mod(n, 4);
        assert(h * h <= n) by (nonlinear_arith)
            requires
                q * q <= n / 4,
                h == 2 * q,
                n == 4 * (n / 4) + n % 4,
                0 <= n % 4,
        ;
        if (h + 1) * (h + 1) <= n {
            assert(n < (h + 2) * (h + 2)) by (nonlinear_arith)
                requires
                    n / 4 < (q + 1) * (q + 1),
                    h == 2 * q,
                    n == 4 * (n / 4) + n % 4,
                    n % 4 < 4,
            ;
        }
    }
}

/// The bracket determines the root: the executable root equals the
/// specification's.
pub proof fn lemma_isqrt_unique(n: int, r: int)
    requires
        0 <= n,
        0 <= r,
        r * r <= n,
        n < (r + 1) * (r + 1),
    ensures
        r == spec_isqrt(n),
{
    lemma_isqrt_bracket(n);
    let s = spec_isqrt(n);
    assert(r == s) by (nonlinear_arith)
        requires
            0 <= r && 0 <= s && r * r <= n && n < (r + 1) * (r + 1) && s * s <= n && n < (s + 1) * (
            s + 1),
    ;
}

/// The summed whole-unit lengths of the consecutive chords of a polyline.
pub open spec fn spec_polyline_length(pts: Seq<IntPoint>) -> int
    decreases pts.len(),
{
    if pts.len() < 2 {
        0
    } else {
        let a = pts[pts.len() - 2];
        let b = pts.last();
        spec_polyline_length(pts.drop_last()) + spec_isqrt(
            (a.x - b.x) * (a.x - b.x) + (a.y - b.y) * (a.y - b.y),
        )
    }
}

/// The approximate curve length: the sum of the rounded chord lengths of
/// the adaptive polyline. The polyline summed over is pinned to the curve
/// endpoints as `approximate_points` promises.
pub fn avg_length(spline: &IntSpline, min_cos: u32, min_len: u32) -> (r: u128)
    requires
        spline.wf(),
        min_cos <= 65536,
        1 <= min_len,
        min_len < 0x4000_0000,
    ensures
        exists|cs: Seq<IntShort>|
            #[trigger] spec_chain(*spline, cs) && r == spec_polyline_length(spec_points_of(cs)),
        exists|pts: Seq<IntPoint>|
            {
                &&& pts.len() >= 2
                &&& pts[0] == spline.spec_start()
                &&& pts.last() == spline.spec_end()
                &&& r == #[trigger] spec_polyline_length(pts)
            },
{
    let points = approximate_points(spline, min_cos, min_len);
    let ghost chain = choose|cs: Seq<IntShort>|
        #[trigger] spec_chain(*spline, cs) && points@ =~= spec_points_of(cs);
    let n = points.len();
    let mut sum: u128 = 0;
    let mut i: usize = 1;
    proof {
        assert(points@.take(1int).len() < 2);
    }
    while i < n
        invariant
            1 <= i <= n,
            n == points@.len(),
            forall|k: int| 0 <= k < n ==> (#[trigger] points@[k]).in_range(),
            sum == spec_polyline_length(points@.take(i as int)),
            sum <= i * 0x1_0000_0000,
        decreases n - i,
    {
        let a = points[i - 1];
        let b = points[i];
        proof {
            let dx = a.x - b.x;
            let dy = a.y - b.y;
            assert(0 <= dx * dx <= 0x7fff_fffe * 0x7fff_fffe && 0 <= dy * dy <= 0x7fff_fffe
                * 0x7fff_fffe) by (nonlinear_arith)
                requires
                    -0x7fff_fffe <= dx <= 0x7fff_fffe,
                    -0x7fff_fffe <= dy <= 0x7fff_fffe,
            ;
            assert(2 * (0x7fff_fffe * 0x7fff_fffe) <= u64::MAX) by (nonlinear_arith);
        }
        let d = a.sqr_dist(&b);
        let len = isqrt_u128(d as u128);
        proof {
            lemma_isqrt_unique(d as int, len as int);
            assert((len as int) < 0x1_0000_0000) by (nonlinear_arith)
                requires
                    (len as int) * (len as int) <= d as int,
                    d as int <= 0xffff_ffff_ffff_ffff,
            ;
            assert(points@.take(i + 1).drop_last() =~= points@.take(i as int));
            assert(sum + len <= (i + 1) * 0x1_0000_0000) by (nonlinear_arith)
                requires
                    sum <= i * 0x1_0000_0000,
                    len < 0x1_0000_0000,
                    0 <= i,
            ;
        }
        sum = sum + len as u128;
        i = i + 1;
    }
    proof {
        assert(points@.take(n as int) =~= points@);
    }
    sum
}


/// The bisection round trip of the polylines: the approximations of the two
/// halves of a spline join end to start at the shared midpoint, and
/// together run from the curve's start to its end, exactly as the whole
/// curve's approximation does.
pub proof fn lemma_bisect_polyline_chain(s: IntSpline, left: Seq<IntPoint>, right: Seq<IntPoint>)
    requires
        s.wf(),
        left.len() >= 2,
        right.len() >= 2,
        left[0] == s.spec_bisect().0.spec_start(),
        left.last() == s.spec_bisect().0.spec_end(),
        right[0] == s.spec_bisect().1.spec_start(),
        right.last() == s.spec_bisect().1.spec_end(),
    ensures
        left[0] == s.spec_start(),
        left.last() == right[0],
        right.last() == s.spec_end(),
{
    match s {
        IntSpline::Arc(_) => {
            assert(false);
        },
        IntSpline::Line(_) => {},
        IntSpline::Square(_) => {},
        IntSpline::Cubic(_) => {},
    }
}

} // verus!
