pub mod bezier;
pub mod collision;
pub mod convex;
pub mod data;
pub mod math;

use vstd::prelude::*;

verus! {

} // verus!
