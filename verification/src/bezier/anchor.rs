use crate::math::point::{IntOffset, IntPoint};
use vstd::prelude::*;

verus! {

/// A path anchor: a curve point with its optional incoming and outgoing
/// handles, stored as displacements.
#[derive(Debug, Clone, Copy)]
pub struct IntBezierAnchor {
    pub point: IntPoint,
    pub handle_in: Option<IntOffset>,
    pub handle_out: Option<IntOffset>,
}

impl IntBezierAnchor {
    pub open spec fn wf(self) -> bool {
        &&& self.point.in_range()
    &&& match self.handle_in {
        Some(o) => i64::MIN <= self.point.x + o.x <= i64::MAX && i64::MIN <= self.point.y + o.y
            <= i64::MAX,
        None => true,
    }
    &&& match self.handle_out {
        Some(o) => i64::MIN <= self.point.x + o.x <= i64::MAX && i64::MIN <= self.point.y + o.y
            <= i64::MAX,
        None => true,
    }
    }

    /// The incoming handle as an absolute point, when the anchor has one.
    pub fn handle_in_point(&self) -> (r: Option<IntPoint>)
        requires
            self.wf(),
        ensures
            r == match self.handle_in {
                Some(o) => Some(
                    IntPoint { x: (self.point.x + o.x) as i64, y: (self.point.y + o.y) as i64 },
                ),
                None => None::<IntPoint>,
            },
    {
        match self.handle_in {
            Some(o) => Some(self.point.add_offset(&o)),
            None => None,
        }
    }

    /// The outgoing handle as an absolute point, when the anchor has one.
    pub fn handle_out_point(&self) -> (r: Option<IntPoint>)
        requires
            self.wf(),
        ensures
            r == match self.handle_out {
                Some(o) => Some(
                    IntPoint { x: (self.point.x + o.x) as i64, y: (self.point.y + o.y) as i64 },
                ),
                None => None::<IntPoint>,
            },
    {
        match self.handle_out {
            Some(o) => Some(self.point.add_offset(&o)),
            None => None,
        }
    }
}

} // verus!
