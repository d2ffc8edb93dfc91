//! Parameters of the pass that turns arrows and boxes into triangles.
use vstd::prelude::*;

verus! {

/// Where one round of primitive generation starts and ends.
#[derive(Debug, Clone, Copy)]
pub struct ArrowAabbParams {
    /// The maximum number vertices that can be used for rendering.
    max_number_of_vertices: u32,
    /// The primitive generation and rendering is done in small parts.
    /// This is the start index for current iteration.
    iterator_start_index: u32,
    /// This is the end index for current iteration.
    iterator_end_index: u32,
    /// The element type. 0 :: array, 1 :: aabb, 2 :: aabb wire
    element_type: u32,
}

} // verus!
