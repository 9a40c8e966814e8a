pub mod anchor;
pub mod position;
pub mod short;
pub mod spline;
pub mod spline_cube;
pub mod spline_line;
pub mod spline_square;
