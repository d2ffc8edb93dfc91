//! Parameters of the prefix-sum pass.
use vstd::prelude::*;

verus! {

/// The index ranges of a prefix sum.
#[derive(Debug, Clone, Copy, PartialEq, Eq, Structural)]
pub struct FmmPrefixParams {
    /// The start index of prefix sum
    pub data_start_index: u32,
    /// The end index of prefix sum
    pub data_end_index: u32,
    /// The start index of exclusive prefix sum (the sum of prefix sums)
    pub exclusive_parts_start_index: u32,
    /// The end index of exclusive prefix sum (the sum of prefix sums)
    pub exclusive_parts_end_index: u32,
}

/// The number of values one scan block covers: one per thread.
pub fn get_scan_block_size(thread_count: u32) -> (r: u32)
    ensures
        r == thread_count,
{
    thread_count
}

} // verus!
