pub mod collider;
pub mod convex;
pub mod four_convex_path;
pub mod pair;
pub mod solver;
pub mod space;
pub mod x_segment;
