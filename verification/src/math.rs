pub mod ab_segment;
pub mod arith;
pub mod bits;
pub mod normalize;
pub mod point;
pub mod range;
pub mod rect;
pub mod segment;
pub mod triangle;
pub mod x_segment;
