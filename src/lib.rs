//! A tile-matching constraint-propagation engine for a 3D cell grid, together
//! with the small grid, index and buffer helpers it is built on.
pub mod misc;
pub mod transform;
pub mod order;
pub mod prototype;
pub mod compat;
pub mod scene_spec;
pub mod scene;
pub mod common_structs;
pub mod prefix_sum;
pub mod primitive_processor;
pub mod shapes;
