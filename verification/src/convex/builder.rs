use crate::collision::convex::{all_in_range, spec_convex_contains, spec_is_convex};
use crate::collision::four_convex_path::{
    all_distinct, chord_spec, lex_min_of, spec_has_triple, spec_is_ccw, sub_points, FourConvexPath,
};
use crate::math::point::IntPoint;
use vstd::prelude::*;

verus! {

/// Builds convex outlines of at most four points into an owned vertex list.
pub struct FourConvexBuilder {
    pub result: Vec<IntPoint>,
}

impl FourConvexBuilder {
    /// Same construction as `to_four_convex`, returned as a `Vec`.
    pub fn build(&mut self, points: &[IntPoint]) -> (r: Vec<IntPoint>)
        requires
            1 <= points@.len() <= 4,
            all_in_range(points@),
        ensures
            1 <= r@.len() <= 4,
            sub_points(r@, points@),
            r@[0] == lex_min_of(points@),
            all_distinct(r@),
            spec_is_convex(r@),
            r@.len() > 2 ==> spec_is_ccw(r@),
            r@.len() > 2 ==> forall|k: int|
                0 <= k < points@.len() ==> spec_convex_contains(r@, #[trigger] points@[k]),
            !spec_has_triple(points@) ==> r@ =~= chord_spec(points@),
    {
        let hull = points.to_four_convex();
        self.result = hull.slice();
        let mut out: Vec<IntPoint> = Vec::new();
        let mut i: usize = 0;
        while i < self.result.len()
            invariant
                i <= self.result@.len(),
                out@ =~= self.result@.take(i as int),
            decreases self.result@.len() - i,
        {
            out.push(self.result[i]);
            proof {
                assert(out@ =~= self.result@.take(i + 1));
            }
            i = i + 1;
        }
        proof {
            assert(self.result@.take(self.result@.len() as int) =~= self.result@);
        }
        out
    }
}

impl Default for FourConvexBuilder {
    fn default() -> (r: Self)
        ensures
            r.result@.len() == 0,
    {
        Self { result: Vec::new() }
    }
}

} // verus!
