use vstd::prelude::*;

verus! {

/// A closed interval `[min, max]` on one axis, kept with `min <= max`.
#[derive(Debug, Clone, Copy, PartialEq, Eq, Structural)]
pub struct LineRange {
    pub min: i64,
    pub max: i64,
}

impl LineRange {
    pub open spec fn wf(self) -> bool {
        self.min <= self.max
    }

    /// The two closed intervals share at least one value.
    pub open spec fn spec_overlap(self, other: LineRange) -> bool {
        self.min <= other.max && self.max >= other.min
    }

    /// The interval over the unordered pair `{a, b}`.
    pub open spec fn new_spec(a: int, b: int) -> LineRange {
        if a <= b {
            LineRange { min: a as i64, max: b as i64 }
        } else {
            LineRange { min: b as i64, max: a as i64 }
        }
    }

    pub fn new(a: i64, b: i64) -> (r: Self)
        ensures
            r.wf(),
            r == Self::new_spec(a as int, b as int),
    {
        let (min, max) = if a <= b {
            (a, b)
        } else {
            (b, a)
        };
        Self { min, max }
    }

    pub fn is_overlap(&self, other: &Self) -> (r: bool)
        ensures
            r == self.spec_overlap(*other),
    {
        self.min <= other.max && self.max >= other.min
    }

    pub fn is_not_overlap(&self, other: &Self) -> (r: bool)
        ensures
            r == !self.spec_overlap(*other),
    {
        self.min > other.max || self.max < other.min
    }
}

} // verus!
