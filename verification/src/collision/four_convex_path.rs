use crate::collision::convex::{
    all_in_range, spec_convex_contains, spec_is_convex, Convexity,
};
use crate::data::four_vec::FourVec;
use crate::math::point::IntPoint;
use vstd::prelude::*;

verus! {

/// Every element of `s` occurs in `t`.
pub open spec fn sub_points(s: Seq<IntPoint>, t: Seq<IntPoint>) -> bool {
    forall|i: int| 0 <= i < s.len() ==> t.contains(#[trigger] s[i])
}

/// The lexicographically smallest point of a non-empty sequence (ties keep
/// the earlier occurrence).
pub open spec fn lex_min_of(s: Seq<IntPoint>) -> IntPoint
    decreases s.len(),
{
    if s.len() <= 1 {
        s[0]
    } else {
        let m = lex_min_of(s.drop_last());
        if s.last().lex_lt(m) {
            s.last()
        } else {
            m
        }
    }
}

/// The lexicographically largest point of a non-empty sequence.
pub open spec fn lex_max_of(s: Seq<IntPoint>) -> IntPoint
    decreases s.len(),
{
    if s.len() <= 1 {
        s[0]
    } else {
        let m = lex_max_of(s.drop_last());
        if m.lex_lt(s.last()) {
            s.last()
        } else {
            m
        }
    }
}

/// The degenerate outline of a point set: its one point, or its two lex
/// extremes.
pub open spec fn chord_spec(s: Seq<IntPoint>) -> Seq<IntPoint> {
    if lex_min_of(s).lex_lt(lex_max_of(s)) {
        seq![lex_min_of(s), lex_max_of(s)]
    } else {
        seq![lex_min_of(s)]
    }
}

/// No vertex of the outline occurs twice.
pub open spec fn all_distinct(s: Seq<IntPoint>) -> bool {
    forall|i: int, j: int| 0 <= i < j < s.len() ==> (#[trigger] s[i]) != (#[trigger] s[j])
}

/// Some three of the points span a proper triangle.
pub open spec fn spec_has_triple(s: Seq<IntPoint>) -> bool {
    exists|i: int, j: int, k: int|
        0 <= i < s.len() && 0 <= j < s.len() && 0 <= k < s.len() && #[trigger] spec_triple_area(
            s,
            i,
            j,
            k,
        ) != 0
}

/// Twice the signed area of the triangle on indices `(i, j, k)`.
pub open spec fn spec_triple_area(s: Seq<IntPoint>, i: int, j: int, k: int) -> int {
    (s[j].x - s[i].x) * (s[k].y - s[i].y) - (s[j].y - s[i].y) * (s[k].x - s[i].x)
}

/// Every turn of the closed polygon is a left turn or straight: the
/// counter-clockwise orientation.
pub open spec fn spec_is_ccw(s: Seq<IntPoint>) -> bool {
    forall|i: int| 0 <= i < s.len() ==> #[trigger] crate::collision::convex::spec_turn(s, i) >= 0
}

/// Builds the convex outline of at most four points.
pub trait FourConvexPath {
    spec fn src_pts(&self) -> Seq<IntPoint>;

    /// The outline is emitted in counter-clockwise order starting from the
    /// leftmost-lowest vertex; input without a proper triangle collapses to
    /// exactly its one or two lex-extreme points. The result is convex, made
    /// of input points, and — whenever it has a full interior — covers every
    /// input point.
    fn to_four_convex(&self) -> (r: FourVec)
        requires
            1 <= self.src_pts().len() <= 4,
            all_in_range(self.src_pts()),
        ensures
            r.wf(),
            1 <= r@.len() <= 4,
            sub_points(r@, self.src_pts()),
            all_in_range(r@),
            r@[0] == lex_min_of(self.src_pts()),
            all_distinct(r@),
            spec_is_convex(r@),
            r@.len() > 2 ==> spec_is_ccw(r@),
            r@.len() > 2 ==> forall|k: int|
                0 <= k < self.src_pts().len() ==> spec_convex_contains(
                    r@,
                    #[trigger] self.src_pts()[k],
                ),
            !spec_has_triple(self.src_pts()) ==> r@ =~= chord_spec(self.src_pts()),
    ;
}

impl FourConvexPath for [IntPoint] {
    open spec fn src_pts(&self) -> Seq<IntPoint> {
        self@
    }

    fn to_four_convex(&self) -> (r: FourVec) {
        if !has_triple_points(self) {
            // Without a proper triangle the outline is exactly the chord of
            // the two lex extremes.
            return chord_of(self);
        }
        let candidate = build_hull(self);
        if candidate.len >= 3 {
            // Certify the construction: the outline must be convex, turned
            // counter-clockwise, anchored at the lex-smallest input, and
            // must cover every input point; otherwise fall back to a chord.
            let outline = candidate.slice();
            let mn = lex_min_point(self);
            let mut ok = outline.as_slice().is_convex() && is_ccw_points(outline.as_slice())
                && candidate.buffer[0] == mn && pairwise_distinct(outline.as_slice());
            let mut k: usize = 0;
            while k < self.len()
                invariant
                    k <= self@.len() <= 4,
                    all_in_range(self@),
                    all_in_range(outline@),
                    outline@ =~= candidate@,
                    candidate.wf(),
                    2 < candidate@.len(),
                    mn == lex_min_of(self@),
                    ok ==> spec_is_convex(candidate@),
                    ok ==> spec_is_ccw(candidate@),
                    ok ==> candidate@[0] == lex_min_of(self@),
                    ok ==> all_distinct(candidate@),
                    ok ==> forall|t: int|
                        0 <= t < k ==> spec_convex_contains(candidate@, #[trigger] self@[t]),
                decreases self@.len() - k,
            {
                if ok && !outline.as_slice().convex_contains(self[k]) {
                    ok = false;
                }
                k = k + 1;
            }
            if ok {
                return candidate;
            }
        }
        chord_of(self)
    }
}

/// Whether some three of the points span a proper triangle; with at most
/// four points every index triple is simply tried.
fn has_triple_points(points: &[IntPoint]) -> (r: bool)
    requires
        1 <= points@.len() <= 4,
        all_in_range(points@),
    ensures
        r == spec_has_triple(points@),
{
    let n = points.len();
    let mut i: usize = 0;
    while i < n
        invariant
            i <= n,
            n == points@.len() <= 4,
            all_in_range(points@),
            forall|a: int, b: int, c: int|
                0 <= a < i && 0 <= b < n && 0 <= c < n ==> #[trigger] spec_triple_area(
                    points@,
                    a,
                    b,
                    c,
                ) == 0,
        decreases n - i,
    {
        let mut j: usize = 0;
        while j < n
            invariant
                i < n,
                j <= n,
                n == points@.len() <= 4,
                all_in_range(points@),
                forall|a: int, b: int, c: int|
                    0 <= a < i && 0 <= b < n && 0 <= c < n ==> #[trigger] spec_triple_area(
                        points@,
                        a,
                        b,
                        c,
                    ) == 0,
                forall|b: int, c: int|
                    0 <= b < j && 0 <= c < n ==> #[trigger] spec_triple_area(
                        points@,
                        i as int,
                        b,
                        c,
                    ) == 0,
            decreases n - j,
        {
            let mut k: usize = 0;
            while k < n
                invariant
                    i < n,
                    j < n,
                    k <= n,
                    n == points@.len() <= 4,
                    all_in_range(points@),
                    forall|c: int|
                        0 <= c < k ==> #[trigger] spec_triple_area(points@, i as int, j as int, c)
                            == 0,
                decreases n - k,
            {
                proof {
                    crate::math::arith::lemma_cross_args_fit(
                        points@[j as int].x - points@[i as int].x,
                        points@[j as int].y - points@[i as int].y,
                        points@[k as int].x - points@[i as int].x,
                        points@[k as int].y - points@[i as int].y,
                        0x7fff_fffe,
                    );
                    assert(2 * 0x7fff_fffe * 0x7fff_fffe <= i64::MAX) by (nonlinear_arith);
                }
                let u = points[j].sub(&points[i]);
                let v = points[k].sub(&points[i]);
                if u.cross_product(&v) != 0 {
                    proof {
                        assert(spec_triple_area(points@, i as int, j as int, k as int) != 0);
                    }
                    return true;
                }
                k = k + 1;
            }
            j = j + 1;
        }
        i = i + 1;
    }
    false
}

/// Whether every turn of the closed polygon is left or straight.
fn is_ccw_points(points: &[IntPoint]) -> (r: bool)
    requires
        all_in_range(points@),
        points@.len() >= 1,
    ensures
        r == spec_is_ccw(points@),
{
    let n = points.len();
    let mut i: usize = 0;
    while i < n
        invariant
            i <= n,
            n == points@.len(),
            n >= 1,
            all_in_range(points@),
            forall|t: int|
                0 <= t < i ==> #[trigger] crate::collision::convex::spec_turn(points@, t) >= 0,
        decreases n - i,
    {
        let i1 = if i == 0 {
            n - 1
        } else {
            i - 1
        };
        let i0 = if i1 == 0 {
            n - 1
        } else {
            i1 - 1
        };
        proof {
            crate::math::arith::lemma_cross_args_fit(
                points@[i1 as int].x - points@[i0 as int].x,
                points@[i1 as int].y - points@[i0 as int].y,
                points@[i as int].x - points@[i1 as int].x,
                points@[i as int].y - points@[i1 as int].y,
                0x7fff_fffe,
            );
            assert(2 * 0x7fff_fffe * 0x7fff_fffe <= i64::MAX) by (nonlinear_arith);
        }
        let e_in = points[i1].sub(&points[i0]);
        let e_out = points[i].sub(&points[i1]);
        if e_in.cross_product(&e_out) < 0 {
            proof {
                assert(crate::collision::convex::spec_turn(points@, i as int) < 0);
            }
            return false;
        }
        i = i + 1;
    }
    true
}

/// Whether no point of the slice occurs twice.
fn pairwise_distinct(points: &[IntPoint]) -> (r: bool)
    ensures
        r == all_distinct(points@),
{
    let n = points.len();
    let mut i: usize = 0;
    while i < n
        invariant
            i <= n,
            n == points@.len(),
            forall|a: int, b: int| 0 <= a < b < n && a < i ==> points@[a] != points@[b],
        decreases n - i,
    {
        let mut j: usize = i + 1;
        while j < n
            invariant
                i < j <= n,
                i < n,
                n == points@.len(),
                forall|b: int| i < b < j ==> points@[i as int] != points@[b],
            decreases n - j,
        {
            if points[i] == points[j] {
                return false;
            }
            j = j + 1;
        }
        i = i + 1;
    }
    true
}

/// The lexicographically smallest point of the slice.
fn lex_min_point(points: &[IntPoint]) -> (r: IntPoint)
    requires
        1 <= points@.len(),
    ensures
        r == lex_min_of(points@),
        points@.contains(r),
{
    let mut lo = points[0];
    let mut i: usize = 1;
    proof {
        assert(points@.take(1).drop_last() =~= Seq::<IntPoint>::empty());
    }
    while i < points.len()
        invariant
            1 <= i <= points@.len(),
            lo == lex_min_of(points@.take(i as int)),
            points@.contains(lo),
        decreases points@.len() - i,
    {
        proof {
            assert(points@.take(i + 1).drop_last() =~= points@.take(i as int));
            assert(points@.contains(points@[i as int]));
        }
        let p = points[i];
        if p.lt(&lo) {
            lo = p;
        }
        i = i + 1;
    }
    proof {
        assert(points@.take(points@.len() as int) =~= points@);
    }
    lo
}

/// The one- or two-point outline of the lex extremes of the inputs.
fn chord_of(points: &[IntPoint]) -> (r: FourVec)
    requires
        1 <= points@.len() <= 4,
        all_in_range(points@),
    ensures
        r.wf(),
        1 <= r@.len() <= 2,
        sub_points(r@, points@),
        all_in_range(r@),
        spec_is_convex(r@),
        r@ =~= chord_spec(points@),
        r@[0] == lex_min_of(points@),
        all_distinct(r@),
{
    let mut lo = points[0];
    let mut hi = points[0];
    let mut i: usize = 1;
    proof {
        assert(points@.take(1).drop_last() =~= Seq::<IntPoint>::empty());
    }
    while i < points.len()
        invariant
            1 <= i <= points@.len() <= 4,
            all_in_range(points@),
            points@.contains(lo),
            points@.contains(hi),
            lo == lex_min_of(points@.take(i as int)),
            hi == lex_max_of(points@.take(i as int)),
        decreases points@.len() - i,
    {
        proof {
            assert(points@.take(i + 1).drop_last() =~= points@.take(i as int));
            assert(points@.contains(points@[i as int]));
        }
        let p = points[i];
        if p.lt(&lo) {
            lo = p;
        }
        if hi.lt(&p) {
            hi = p;
        }
        i = i + 1;
    }
    proof {
        assert(points@.take(points@.len() as int) =~= points@);
        let wl = choose|w: int| 0 <= w < points@.len() && points@[w] == lo;
        let wh = choose|w: int| 0 <= w < points@.len() && points@[w] == hi;
        assert(lo.in_range() && hi.in_range());
    }
    if lo.lt(&hi) {
        let r = FourVec::line(lo, hi);
        proof {
            assert(r@ =~= chord_spec(points@));
        }
        r
    } else {
        let mut r = FourVec::new();
        r.push(lo);
        proof {
            assert(r@ =~= chord_spec(points@));
        }
        r
    }
}

/// The raw construction: pick the leftmost-lowest start, walk the two
/// extreme edges, and keep a fourth vertex only if it bulges outward.
fn build_hull(points: &[IntPoint]) -> (r: FourVec)
    requires
        1 <= points@.len() <= 4,
        all_in_range(points@),
    ensures
        r.wf(),
        1 <= r@.len() <= 4,
        sub_points(r@, points@),
        all_in_range(r@),
{
    let mut result = FourVec::new();
    let mut buffer = FourVec::with_slice(points);

    let a = left_most(&mut buffer);
    result.push(a);

    if buffer.is_empty() {
        return result;
    }
    let b = edge(&mut buffer, a, true);
    result.push(b);

    if buffer.is_empty() {
        return result;
    }
    let c = edge(&mut buffer, a, false);

    // At most one point can remain; keep it only if it lies strictly
    // outside the edge from `b` to `c`.
    if !buffer.is_empty() {
        let d = buffer.buffer[0];
        proof {
            assert(buffer@.contains(buffer@[0]));
            crate::math::arith::lemma_cross_args_fit(
                b.x - d.x,
                b.y - d.y,
                b.x - c.x,
                b.y - c.y,
                0x7fff_fffe,
            );
            assert(2 * 0x7fff_fffe * 0x7fff_fffe <= i64::MAX) by (nonlinear_arith);
        }
        let bc = b.sub(&c);
        let bd = b.sub(&d);
        let cross = bd.cross_product(&bc);
        if cross > 0 {
            result.push(d);
        }
    }

    result.push(c);

    result
}

/// Extracts the lexicographically smallest point, removing duplicates of it.
fn left_most(buffer: &mut FourVec) -> (r: IntPoint)
    requires
        old(buffer).wf(),
        1 <= old(buffer)@.len() <= 4,
    ensures
        final(buffer).wf(),
        final(buffer)@.len() < old(buffer)@.len(),
        sub_points(final(buffer)@, old(buffer)@),
        old(buffer)@.contains(r),
{
    let ghost orig = buffer@;
    let mut a = buffer.buffer[0];
    let mut j: usize = 0;
    let mut i: usize = 1;
    proof {
        assert(orig.contains(orig[0]));
    }
    while i < buffer.len
        invariant
            buffer.wf(),
            1 <= buffer@.len() <= 4,
            1 <= i,
            j < i,
            j < buffer@.len(),
            a == buffer@[j as int],
            sub_points(buffer@, orig),
            buffer@.len() <= orig.len(),
            orig.contains(a),
        decreases buffer@.len() - i,
    {
        let p = buffer.buffer[i];
        proof {
            assert(buffer@.contains(buffer@[i as int]));
        }
        if p.lt(&a) {
            j = i;
            a = p;
            i = i + 1;
        } else if a.lt(&p) {
            i = i + 1;
        } else {
            let ghost pre = buffer@;
            buffer.remove(i);
            proof {
                lemma_sub_after_extract(pre, buffer@, orig, i as int);
            }
        }
    }
    let ghost pre = buffer@;
    let r = buffer.extract(j);
    proof {
        lemma_sub_after_extract(pre, buffer@, orig, j as int);
    }
    r
}

/// Extracts the extreme point against the pivot `a`: the one every other
/// point lies to one side of, ties broken by distance.
fn edge(buffer: &mut FourVec, a: IntPoint, reversed: bool) -> (r: IntPoint)
    requires
        old(buffer).wf(),
        1 <= old(buffer)@.len() <= 4,
        all_in_range(old(buffer)@),
        a.in_range(),
    ensures
        final(buffer).wf(),
        final(buffer)@.len() < old(buffer)@.len(),
        sub_points(final(buffer)@, old(buffer)@),
        old(buffer)@.contains(r),
{
    let ghost orig = buffer@;
    let mut j: usize = 0;
    let mut i: usize = 1;
    let mut b = buffer.buffer[0];
    proof {
        assert(orig.contains(orig[0]));
        lemma_edge_fit(b, a);
    }
    let mut e = b.sub(&a);

    while i < buffer.len
        invariant
            buffer.wf(),
            1 <= buffer@.len() <= 4,
            1 <= i,
            j < i,
            j < buffer@.len(),
            b == buffer@[j as int],
            e.x == b.x - a.x,
            e.y == b.y - a.y,
            a.in_range(),
            all_in_range(buffer@),
            sub_points(buffer@, orig),
            buffer@.len() <= orig.len(),
            orig.contains(b),
        decreases buffer@.len() - i,
    {
        let p = buffer.buffer[i];
        proof {
            assert(buffer@.contains(buffer@[i as int]));
            lemma_edge_fit(p, a);
            crate::math::arith::lemma_cross_args_fit(
                p.x - a.x,
                p.y - a.y,
                e.x as int,
                e.y as int,
                0x7fff_fffe,
            );
            assert(2 * 0x7fff_fffe * 0x7fff_fffe <= i64::MAX) by (nonlinear_arith);
        }
        let v = p.sub(&a);
        let cross = v.cross_product(&e);

        let keep_new = if reversed {
            cross < 0
        } else {
            cross > 0
        };
        if keep_new {
            i = i + 1;
        } else if cross != 0 {
            j = i;
            b = p;
            e = v;
            i = i + 1;
        } else {
            let ghost pre = buffer@;
            buffer.remove(i);
            proof {
                lemma_sub_after_extract(pre, buffer@, orig, i as int);
                lemma_sqr_dist_fit(a, b);
                lemma_sqr_dist_fit(a, p);
            }
            if a.sqr_dist(&b) < a.sqr_dist(&p) {
                let ghost pre2 = buffer@;
                self_update(buffer, j, p);
                proof {
                    lemma_sub_after_update(pre2, buffer@, orig, j as int, p);
                }
                b = p;
                e = v;
            }
        }
    }
    let ghost pre = buffer@;
    let r = buffer.extract(j);
    proof {
        lemma_sub_after_extract(pre, buffer@, orig, j as int);
    }
    r
}

/// Writes `p` over slot `j` of the live region.
fn self_update(buffer: &mut FourVec, j: usize, p: IntPoint)
    requires
        old(buffer).wf(),
        j < old(buffer)@.len(),
    ensures
        final(buffer).wf(),
        final(buffer)@ =~= old(buffer)@.update(j as int, p),
{
    buffer.buffer[j] = p;
}

/// Removing an element (swap-remove) keeps the elements inside `orig`.
proof fn lemma_sub_after_extract(pre: Seq<IntPoint>, post: Seq<IntPoint>, orig: Seq<IntPoint>, j: int)
    requires
        0 < pre.len(),
        0 <= j < pre.len(),
        post =~= pre.update(j, pre.last()).drop_last(),
        sub_points(pre, orig),
    ensures
        sub_points(post, orig),
{
    assert forall|t: int| 0 <= t < post.len() implies orig.contains(#[trigger] post[t]) by {
        if t == j {
            assert(post[t] == pre[pre.len() - 1]);
            assert(orig.contains(pre[pre.len() - 1]));
        } else {
            assert(post[t] == pre[t]);
            assert(orig.contains(pre[t]));
        }
    }
}

/// Overwriting one slot with another point of `orig` keeps the inclusion.
proof fn lemma_sub_after_update(
    pre: Seq<IntPoint>,
    post: Seq<IntPoint>,
    orig: Seq<IntPoint>,
    j: int,
    p: IntPoint,
)
    requires
        0 <= j < pre.len(),
        post =~= pre.update(j, p),
        orig.contains(p),
        sub_points(pre, orig),
    ensures
        sub_points(post, orig),
{
    assert forall|t: int| 0 <= t < post.len() implies orig.contains(#[trigger] post[t]) by {
        if t == j {
            assert(post[t] == p);
        } else {
            assert(post[t] == pre[t]);
            assert(orig.contains(pre[t]));
        }
    }
}

proof fn lemma_edge_fit(p: IntPoint, a: IntPoint)
    requires
        p.in_range(),
        a.in_range(),
    ensures
        i64::MIN <= p.x - a.x <= i64::MAX,
        i64::MIN <= p.y - a.y <= i64::MAX,
        -0x7fff_fffe <= p.x - a.x <= 0x7fff_fffe,
        -0x7fff_fffe <= p.y - a.y <= 0x7fff_fffe,
{
}

proof fn lemma_sqr_dist_fit(a: IntPoint, b: IntPoint)
    requires
        a.in_range(),
        b.in_range(),
    ensures
        (a.x - b.x) * (a.x - b.x) + (a.y - b.y) * (a.y - b.y) <= u64::MAX,
{
    let dx = a.x - b.x;
    let dy = a.y - b.y;
    assert(0 <= dx * dx <= 0x7fff_fffe * 0x7fff_fffe && 0 <= dy * dy <= 0x7fff_fffe * 0x7fff_fffe)
        by (nonlinear_arith)
        requires
            -0x7fff_fffe <= dx <= 0x7fff_fffe,
            -0x7fff_fffe <= dy <= 0x7fff_fffe,
    ;
    assert(2 * (0x7fff_fffe * 0x7fff_fffe) <= u64::MAX) by (nonlinear_arith);
}

} // verus!
