//! Streaming parameters bundled for lookups by position.
use vstd::prelude::*;

verus! {

/// The window radius and chunk size that position lookups work with.
pub struct Utils {
    pub chunk_distance: i32,
    pub chunk_size_x: u32,
    pub chunk_size_z: u32,
}

impl Utils {
    pub fn new(chunk_distance: i32, chunk_size_x: u32, chunk_size_z: u32) -> (u: Utils)
        ensures
            u.chunk_distance == chunk_distance,
            u.chunk_size_x == chunk_size_x,
            u.chunk_size_z == chunk_size_z,
    {
        Utils { chunk_distance, chunk_size_x, chunk_size_z }
    }
}

} // verus!
