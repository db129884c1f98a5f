//! Load priority of a chunk.

use vstd::prelude::*;
use crate::ids::ChunkCoord3;
use crate::demand::geometry::squared_distance;

verus! {

/// A chunk's priority: demand rank, then squared distance.
#[derive(Debug, Copy, Clone, PartialEq, Eq, Structural, PartialOrd, Ord, Default)]
pub struct ChunkPriority {
    pub rank: u32,
    pub distance_squared: i64,
}

impl ChunkPriority {
    /// Builds a priority.
    pub fn new(rank: u32, distance_squared: i64) -> (r: Self)
        ensures
            r == (ChunkPriority { rank, distance_squared }),
    {
        ChunkPriority { rank, distance_squared }
    }
}

/// Squared Euclidean distance between two chunks, for chunks near enough
/// that it fits an `i64`.
pub fn distance_squared(a: ChunkCoord3, b: ChunkCoord3) -> (r: i64)
    requires
        i64::MIN <= a.x - b.x <= i64::MAX,
        i64::MIN <= a.y - b.y <= i64::MAX,
        i64::MIN <= a.z - b.z <= i64::MAX,
        squared_distance(a, b) <= i64::MAX,
    ensures
        r == squared_distance(a, b),
{
    let dx = a.x - b.x;
    let dy = a.y - b.y;
    let dz = a.z - b.z;
    assert(dx * dx >= 0 && dy * dy >= 0 && dz * dz >= 0) by (nonlinear_arith);
    dx * dx + dy * dy + dz * dz
}

} // verus!
