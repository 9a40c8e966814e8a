use crate::math::bits::pow2_u64;
use vstd::arithmetic::power2::pow2;
use vstd::prelude::*;

verus! {

/// The scale thresholds of the solver: colliders below `2^line_level` in
/// size are treated as their endpoint chord, colliders at or above
/// `2^convex_level` carry no hull approximation.
#[derive(Debug, Clone, Copy, PartialEq, Eq, Structural)]
pub struct Space {
    pub line_level: u32,
    pub convex_level: u32,
}

impl Space {
    pub open spec fn wf(self) -> bool {
        self.line_level < self.convex_level && self.convex_level <= 32
    }

    /// `convex_level` is the complement of `line_level` within 32 bits.
    pub fn with_line_level(line_level: u32) -> (r: Self)
        requires
            line_level < 16,
        ensures
            r.line_level == line_level,
            r.convex_level == 32 - line_level,
            r.wf(),
    {
        let convex_level = 32 - line_level;
        Self { line_level, convex_level }
    }

    /// The snap distance under which crossings are resolved on chords.
    pub fn snap_radius(&self) -> (r: u64)
        requires
            self.wf(),
        ensures
            r == pow2(self.line_level as nat),
    {
        pow2_u64(self.line_level)
    }
}

impl Default for Space {
    fn default() -> (r: Self)
        ensures
            r.line_level == 4,
            r.convex_level == 28,
            r.wf(),
    {
        Self::with_line_level(4)
    }
}

} // verus!
