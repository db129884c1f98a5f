//! Namespaced identities and integer coordinates.

use vstd::prelude::*;

verus! {

/// Identifies one world (namespace) of chunk coordinates.
#[derive(Debug, Copy, Clone, PartialEq, Eq, Structural, PartialOrd, Ord, Hash, Default)]
pub struct WorldId(pub u16);

impl WorldId {
    /// Wraps a raw world number.
    pub fn new(value: u16) -> (id: Self)
        ensures
            id.0 == value,
    {
        WorldId(value)
    }

    /// Returns the raw world number.
    pub fn get(self) -> (value: u16)
        ensures
            value == self.0,
    {
        self.0
    }
}

/// Integer coordinate of one chunk of the finest grid level.
#[derive(Debug, Copy, Clone, PartialEq, Eq, Structural, PartialOrd, Ord, Hash, Default)]
pub struct ChunkCoord3 {
    pub x: i64,
    pub y: i64,
    pub z: i64,
}

/// Integer coordinate of one region (a block of chunks).
#[derive(Debug, Copy, Clone, PartialEq, Eq, Structural, PartialOrd, Ord, Hash, Default)]
pub struct RegionCoord3 {
    pub x: i64,
    pub y: i64,
    pub z: i64,
}

/// A chunk coordinate qualified by its world.
#[derive(Debug, Copy, Clone, PartialEq, Eq, Structural, PartialOrd, Ord, Hash, Default)]
pub struct ChunkId {
    pub world_id: WorldId,
    pub coord: ChunkCoord3,
}

/// A region coordinate qualified by its world.
#[derive(Debug, Copy, Clone, PartialEq, Eq, Structural, PartialOrd, Ord, Hash, Default)]
pub struct RegionId {
    pub world_id: WorldId,
    pub coord: RegionCoord3,
}

/// Whether `a + b` fits in an `i64`.
pub open spec fn i64_fits(v: int) -> bool {
    i64::MIN <= v <= i64::MAX
}

impl ChunkCoord3 {
    /// Adds an offset on every axis; `None` when any axis leaves the `i64` range.
    pub fn checked_add(self, offset: Self) -> (result: Option<Self>)
        ensures
            result is Some <==> (i64_fits(self.x + offset.x) && i64_fits(self.y + offset.y)
                && i64_fits(self.z + offset.z)),
            result matches Some(r) ==> r.x == self.x + offset.x && r.y == self.y + offset.y
                && r.z == self.z + offset.z,
    {
        let x = match self.x.checked_add(offset.x) {
            Some(v) => v,
            None => return None,
        };
        let y = match self.y.checked_add(offset.y) {
            Some(v) => v,
            None => return None,
        };
        let z = match self.z.checked_add(offset.z) {
            Some(v) => v,
            None => return None,
        };
        Some(ChunkCoord3 { x, y, z })
    }

    /// Adds `(x, y, z)`; `None` when any axis leaves the `i64` range.
    pub fn checked_offset(self, x: i64, y: i64, z: i64) -> (result: Option<Self>)
        ensures
            result is Some <==> (i64_fits(self.x + x) && i64_fits(self.y + y) && i64_fits(
                self.z + z,
            )),
            result matches Some(r) ==> r.x == self.x + x && r.y == self.y + y && r.z == self.z
                + z,
    {
        self.checked_add(ChunkCoord3 { x, y, z })
    }

    /// Multiplies every axis by `scale`; `None` when any axis leaves the `i64` range.
    pub fn checked_mul(self, scale: i64) -> (result: Option<Self>)
        ensures
            result is Some <==> (i64_fits(self.x * scale) && i64_fits(self.y * scale)
                && i64_fits(self.z * scale)),
            result matches Some(r) ==> r.x == self.x * scale && r.y == self.y * scale && r.z
                == self.z * scale,
    {
        let x = match self.x.checked_mul(scale) {
            Some(v) => v,
            None => return None,
        };
        let y = match self.y.checked_mul(scale) {
            Some(v) => v,
            None => return None,
        };
        let z = match self.z.checked_mul(scale) {
            Some(v) => v,
            None => return None,
        };
        Some(ChunkCoord3 { x, y, z })
    }
}

impl ChunkId {
    /// Qualifies a chunk coordinate by its world.
    pub fn new(world_id: WorldId, coord: ChunkCoord3) -> (id: Self)
        ensures
            id.world_id == world_id,
            id.coord == coord,
    {
        ChunkId { world_id, coord }
    }
}

impl RegionId {
    /// Qualifies a region coordinate by its world.
    pub fn new(world_id: WorldId, coord: RegionCoord3) -> (id: Self)
        ensures
            id.world_id == world_id,
            id.coord == coord,
    {
        RegionId { world_id, coord }
    }
}

} // verus!
