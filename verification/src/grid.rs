//! Chunk grids: the partition of chunks into regions, and a hierarchy of
//! grid levels from finest to coarsest.

use vstd::prelude::*;
use crate::ids::{ChunkCoord3, ChunkId, RegionCoord3, RegionId, WorldId, i64_fits};
use crate::error::SpatialMathError;

verus! {

/// Euclidean (floor) division of an integer by a positive divisor, as
/// `i64::div_euclid` computes it.
pub open spec fn floor_div(a: int, d: int) -> int {
    a / d
}

/// Floor division by a positive divisor moves toward zero but never past it.
pub proof fn lemma_floor_div_bounds(a: int, d: int)
    requires
        d >= 1,
    ensures
        a >= 0 ==> 0 <= a / d <= a,
        a < 0 ==> a <= a / d < 0,
{
    let q = a / d;
    let r = a % d;
    assert(a == d * q + r && 0 <= r < d) by (nonlinear_arith)
        requires
            d >= 1,
            q == a / d,
            r == a % d,
    ;
    assert(a >= 0 ==> 0 <= q <= a) by (nonlinear_arith)
        requires
            d >= 1,
            a == d * q + r,
            0 <= r < d,
    ;
    assert(a < 0 ==> a <= q < 0) by (nonlinear_arith)
        requires
            d >= 1,
            a == d * q + r,
            0 <= r < d,
    ;
}

/// How chunks are grouped into regions: the number of chunks of a region
/// along each axis, each positive.
#[derive(Debug, Copy, Clone, PartialEq, Eq)]
pub struct GridPartitionConfig {
    region_chunk_dims: [u32; 3],
}

impl GridPartitionConfig {
    /// Chunks per region along each axis.
    pub closed spec fn spec_region_chunk_dims(self) -> Seq<u32> {
        self.region_chunk_dims@
    }

    /// The partition's invariant: every dimension is positive.
    pub closed spec fn wf(self) -> bool {
        self.region_chunk_dims@[0] > 0 && self.region_chunk_dims@[1] > 0
            && self.region_chunk_dims@[2] > 0
    }

    /// Builds a partition; the first zero dimension is rejected.
    pub fn try_new(region_chunk_dims: [u32; 3]) -> (r: Result<Self, SpatialMathError>)
        ensures
            region_chunk_dims[0] == 0 ==> r == Err::<Self, _>(
                SpatialMathError::ZeroDimension { axis: 0 },
            ),
            region_chunk_dims[0] != 0 && region_chunk_dims[1] == 0 ==> r == Err::<Self, _>(
                SpatialMathError::ZeroDimension { axis: 1 },
            ),
            region_chunk_dims[0] != 0 && region_chunk_dims[1] != 0 && region_chunk_dims[2] == 0
                ==> r == Err::<Self, _>(SpatialMathError::ZeroDimension { axis: 2 }),
            r is Ok <==> (region_chunk_dims[0] != 0 && region_chunk_dims[1] != 0
                && region_chunk_dims[2] != 0),
            r matches Ok(p) ==> p.wf() && p.spec_region_chunk_dims() == region_chunk_dims@,
    {
        if region_chunk_dims[0] == 0 {
            return Err(SpatialMathError::ZeroDimension { axis: 0 });
        }
        if region_chunk_dims[1] == 0 {
            return Err(SpatialMathError::ZeroDimension { axis: 1 });
        }
        if region_chunk_dims[2] == 0 {
            return Err(SpatialMathError::ZeroDimension { axis: 2 });
        }
        Ok(GridPartitionConfig { region_chunk_dims })
    }

    /// Chunks per region along each axis.
    pub fn region_chunk_dims(&self) -> (r: [u32; 3])
        ensures
            r@ == self.spec_region_chunk_dims(),
    {
        self.region_chunk_dims
    }

    /// The region that holds a chunk: each axis divided, rounding down.
    pub fn region_coord_from_chunk_coord(&self, chunk: ChunkCoord3) -> (r: RegionCoord3)
        requires
            self.wf(),
        ensures
            r.x == floor_div(chunk.x as int, self.spec_region_chunk_dims()[0] as int),
            r.y == floor_div(chunk.y as int, self.spec_region_chunk_dims()[1] as int),
            r.z == floor_div(chunk.z as int, self.spec_region_chunk_dims()[2] as int),
    {
        proof {
            lemma_floor_div_bounds(chunk.x as int, self.region_chunk_dims@[0] as int);
            lemma_floor_div_bounds(chunk.y as int, self.region_chunk_dims@[1] as int);
            lemma_floor_div_bounds(chunk.z as int, self.region_chunk_dims@[2] as int);
        }
        let x = chunk.x.checked_div_euclid(self.region_chunk_dims[0] as i64);
        let y = chunk.y.checked_div_euclid(self.region_chunk_dims[1] as i64);
        let z = chunk.z.checked_div_euclid(self.region_chunk_dims[2] as i64);
        RegionCoord3 { x: x.unwrap(), y: y.unwrap(), z: z.unwrap() }
    }

    /// The region that holds a chunk, in the chunk's world.
    pub fn region_id_from_chunk_id(&self, chunk_id: ChunkId) -> (r: RegionId)
        requires
            self.wf(),
        ensures
            r.world_id == chunk_id.world_id,
            r.coord.x == floor_div(chunk_id.coord.x as int, self.spec_region_chunk_dims()[0] as int),
            r.coord.y == floor_div(chunk_id.coord.y as int, self.spec_region_chunk_dims()[1] as int),
            r.coord.z == floor_div(chunk_id.coord.z as int, self.spec_region_chunk_dims()[2] as int),
    {
        RegionId::new(chunk_id.world_id, self.region_coord_from_chunk_coord(chunk_id.coord))
    }
}

impl Default for GridPartitionConfig {
    /// Regions of 8 × 8 × 8 chunks.
    fn default() -> (r: Self)
        ensures
            r.wf(),
            r.spec_region_chunk_dims() == seq![8u32, 8u32, 8u32],
    {
        let r = GridPartitionConfig { region_chunk_dims: [8, 8, 8] };
        assert(r.region_chunk_dims@ =~= seq![8u32, 8u32, 8u32]);
        r
    }
}

/// A level of a grid hierarchy; 0 is the finest.
#[derive(Debug, Copy, Clone, PartialEq, Eq, Structural, PartialOrd, Ord, Hash, Default)]
pub struct GridLevel(pub u8);

/// A hierarchy of grid levels: level `l + 1` groups `scale × scale × scale`
/// cells of level `l`.
#[derive(Debug, Copy, Clone, PartialEq, Eq, Structural)]
pub struct HierarchicalGridConfig {
    level_count: u8,
    level_scale_factor: u32,
}

/// Why a level is not one of `level_count` levels.
pub open spec fn level_error(level: u8, level_count: u8) -> SpatialMathError {
    SpatialMathError::LevelOutOfRange { level, level_count }
}

impl HierarchicalGridConfig {
    /// Number of levels; at least 1.
    pub closed spec fn spec_level_count(self) -> u8 {
        self.level_count
    }

    /// Cells of one level per cell of the next, along each axis; at least 2.
    pub closed spec fn spec_level_scale_factor(self) -> u32 {
        self.level_scale_factor
    }

    /// The configuration's invariant.
    pub open spec fn wf(self) -> bool {
        self.spec_level_count() >= 1 && self.spec_level_scale_factor() >= 2
    }

    /// Builds a hierarchy; no level, or a scale factor below 2, is rejected.
    pub fn try_new(level_count: u8, level_scale_factor: u32) -> (r: Result<Self, SpatialMathError>)
        ensures
            level_count == 0 ==> r == Err::<Self, _>(SpatialMathError::LevelCountZero),
            level_count != 0 && level_scale_factor < 2 ==> r == Err::<Self, _>(
                SpatialMathError::ScaleFactorTooSmall { scale_factor: level_scale_factor },
            ),
            r is Ok <==> (level_count != 0 && level_scale_factor >= 2),
            r matches Ok(c) ==> c.wf() && c.spec_level_count() == level_count
                && c.spec_level_scale_factor() == level_scale_factor,
    {
        if level_count == 0 {
            return Err(SpatialMathError::LevelCountZero);
        }
        if level_scale_factor < 2 {
            return Err(SpatialMathError::ScaleFactorTooSmall { scale_factor: level_scale_factor });
        }
        Ok(HierarchicalGridConfig { level_count, level_scale_factor })
    }

    /// Number of levels.
    pub fn level_count(&self) -> (r: u8)
        ensures
            r == self.spec_level_count(),
    {
        self.level_count
    }

    /// Cells of one level per cell of the next, along each axis.
    pub fn level_scale_factor(&self) -> (r: u32)
        ensures
            r == self.spec_level_scale_factor(),
    {
        self.level_scale_factor
    }

    /// Accepts a level below the level count.
    pub fn validate_level(&self, level: GridLevel) -> (r: Result<(), SpatialMathError>)
        ensures
            r is Ok <==> level.0 < self.spec_level_count(),
            r is Err ==> r == Err::<(), _>(level_error(level.0, self.spec_level_count())),
    {
        if level.0 >= self.level_count {
            Err(SpatialMathError::LevelOutOfRange { level: level.0, level_count: self.level_count })
        } else {
            Ok(())
        }
    }

    /// The next coarser level, `None` at the top; a level out of range is rejected.
    pub fn parent_level(&self, level: GridLevel) -> (r: Result<Option<GridLevel>, SpatialMathError>)
        ensures
            level.0 >= self.spec_level_count() ==> r == Err::<Option<GridLevel>, _>(level_error(level.0, self.spec_level_count())),
            level.0 < self.spec_level_count() ==> r == Ok::<_, SpatialMathError>(
                if level.0 + 1 < self.spec_level_count() {
                    Some(GridLevel((level.0 + 1) as u8))
                } else {
                    None
                },
            ),
    {
        self.validate_level(level)?;
        if level.0 + 1 < self.level_count {
            Ok(Some(GridLevel(level.0 + 1)))
        } else {
            Ok(None)
        }
    }

    /// The next finer level, `None` at level 0; a level out of range is rejected.
    pub fn child_level(&self, level: GridLevel) -> (r: Result<Option<GridLevel>, SpatialMathError>)
        ensures
            level.0 >= self.spec_level_count() ==> r == Err::<Option<GridLevel>, _>(level_error(level.0, self.spec_level_count())),
            level.0 < self.spec_level_count() ==> r == Ok::<_, SpatialMathError>(
                if level.0 > 0 {
                    Some(GridLevel((level.0 - 1) as u8))
                } else {
                    None
                },
            ),
    {
        self.validate_level(level)?;
        if level.0 > 0 {
            Ok(Some(GridLevel(level.0 - 1)))
        } else {
            Ok(None)
        }
    }

    /// The cell of the next coarser level that holds `coord`: each axis
    /// divided by the scale factor, rounding down. `None` at the top level.
    pub fn parent_coord(&self, level: GridLevel, coord: ChunkCoord3) -> (r: Result<Option<ChunkCoord3>, SpatialMathError>)
        requires
            self.wf(),
        ensures
            level.0 >= self.spec_level_count() ==> r == Err::<Option<ChunkCoord3>, _>(level_error(level.0, self.spec_level_count())),
            level.0 < self.spec_level_count() && level.0 + 1 >= self.spec_level_count() ==> r == Ok::<Option<ChunkCoord3>, SpatialMathError>(None),
            level.0 + 1 < self.spec_level_count() ==> (r matches Ok(Some(p)) && p == parent_of(coord, self.spec_level_scale_factor() as int)),
    {
        match self.parent_level(level)? {
            None => Ok(None),
            Some(_) => {
                let scale = self.level_scale_factor as i64;
                proof {
                    lemma_floor_div_bounds(coord.x as int, scale as int);
                    lemma_floor_div_bounds(coord.y as int, scale as int);
                    lemma_floor_div_bounds(coord.z as int, scale as int);
                }
                let x = coord.x.checked_div_euclid(scale).unwrap();
                let y = coord.y.checked_div_euclid(scale).unwrap();
                let z = coord.z.checked_div_euclid(scale).unwrap();
                Ok(Some(ChunkCoord3 { x, y, z }))
            },
        }
    }

    /// The first cell of the next finer level inside `coord`: each axis
    /// multiplied by the scale factor. `None` at level 0.
    pub fn first_child_coord(&self, level: GridLevel, coord: ChunkCoord3) -> (r: Result<Option<ChunkCoord3>, SpatialMathError>)
        requires
            self.wf(),
        ensures
            level.0 >= self.spec_level_count() ==> r == Err::<Option<ChunkCoord3>, _>(level_error(level.0, self.spec_level_count())),
            level.0 < self.spec_level_count() && level.0 == 0 ==> r == Ok::<Option<ChunkCoord3>, SpatialMathError>(None),
            level.0 < self.spec_level_count() && level.0 > 0 ==> {
                let s = self.spec_level_scale_factor() as int;
                if i64_fits(coord.x * s) && i64_fits(coord.y * s) && i64_fits(coord.z * s) {
                    r matches Ok(Some(c)) && c == first_child_of(coord, s)
                } else {
                    r == Err::<Option<ChunkCoord3>, _>(SpatialMathError::ArithmeticOverflow { operation: "first child coordinate" })
                }
            },
    {
        match self.child_level(level)? {
            None => Ok(None),
            Some(_) => match coord.checked_mul(self.level_scale_factor as i64) {
                Some(c) => Ok(Some(c)),
                None => Err(SpatialMathError::ArithmeticOverflow { operation: "first child coordinate" }),
            },
        }
    }

    /// The first and last cells of the next finer level inside `coord`.
    /// `None` at level 0.
    pub fn child_coord_bounds(&self, level: GridLevel, coord: ChunkCoord3) -> (r: Result<Option<(ChunkCoord3, ChunkCoord3)>, SpatialMathError>)
        requires
            self.wf(),
        ensures
            level.0 >= self.spec_level_count() ==> r == Err::<Option<(ChunkCoord3, ChunkCoord3)>, _>(level_error(level.0, self.spec_level_count())),
            level.0 < self.spec_level_count() && level.0 == 0 ==> r == Ok::<Option<(ChunkCoord3, ChunkCoord3)>, SpatialMathError>(None),
            level.0 < self.spec_level_count() && level.0 > 0 ==> {
                let s = self.spec_level_scale_factor() as int;
                let f = first_child_of(coord, s);
                if !(i64_fits(coord.x * s) && i64_fits(coord.y * s) && i64_fits(coord.z * s)) {
                    r == Err::<Option<(ChunkCoord3, ChunkCoord3)>, _>(SpatialMathError::ArithmeticOverflow { operation: "first child coordinate" })
                } else if !(i64_fits(f.x + s - 1) && i64_fits(f.y + s - 1) && i64_fits(f.z + s - 1)) {
                    r == Err::<Option<(ChunkCoord3, ChunkCoord3)>, _>(SpatialMathError::ArithmeticOverflow { operation: "last child coordinate" })
                } else {
                    r matches Ok(Some((a, b))) && a == f && b == last_child_of(coord, s)
                }
            },
    {
        let first = match self.first_child_coord(level, coord)? {
            None => {
                return Ok(None);
            },
            Some(first) => first,
        };
        let offset = self.level_scale_factor as i64 - 1;
        match first.checked_offset(offset, offset, offset) {
            Some(last) => Ok(Some((first, last))),
            None => Err(SpatialMathError::ArithmeticOverflow { operation: "last child coordinate" }),
        }
    }
}

impl Default for HierarchicalGridConfig {
    /// One level, scale factor 2.
    fn default() -> (r: Self)
        ensures
            r.wf(),
            r.spec_level_count() == 1,
            r.spec_level_scale_factor() == 2,
    {
        HierarchicalGridConfig { level_count: 1, level_scale_factor: 2 }
    }
}

/// The parent cell of `c` for scale factor `s`.
pub open spec fn parent_of(c: ChunkCoord3, s: int) -> ChunkCoord3 {
    ChunkCoord3 {
        x: floor_div(c.x as int, s) as i64,
        y: floor_div(c.y as int, s) as i64,
        z: floor_div(c.z as int, s) as i64,
    }
}

/// The first child cell of `c` for scale factor `s`.
pub open spec fn first_child_of(c: ChunkCoord3, s: int) -> ChunkCoord3 {
    ChunkCoord3 { x: (c.x * s) as i64, y: (c.y * s) as i64, z: (c.z * s) as i64 }
}

/// The last child cell of `c` for scale factor `s`.
pub open spec fn last_child_of(c: ChunkCoord3, s: int) -> ChunkCoord3 {
    ChunkCoord3 {
        x: (c.x * s + s - 1) as i64,
        y: (c.y * s + s - 1) as i64,
        z: (c.z * s + s - 1) as i64,
    }
}

/// Whether `c` lies between the first and last child of `p` on every axis.
pub open spec fn is_child_of(c: ChunkCoord3, p: ChunkCoord3, s: int) -> bool {
    &&& p.x * s <= c.x <= p.x * s + s - 1
    &&& p.y * s <= c.y <= p.y * s + s - 1
    &&& p.z * s <= c.z <= p.z * s + s - 1
}

proof fn lemma_axis_child(c: int, p: int, s: int)
    requires
        s >= 2,
    ensures
        (p * s <= c <= p * s + s - 1) <==> floor_div(c, s) == p,
{
    let q = c / s;
    let r = c % s;
    assert(c == s * q + r && 0 <= r < s) by (nonlinear_arith)
        requires
            s >= 2,
            q == c / s,
            r == c % s,
    ;
    assert((p * s <= c <= p * s + s - 1) <==> q == p) by (nonlinear_arith)
        requires
            s >= 2,
            c == s * q + r,
            0 <= r < s,
    ;
}

/// The children of a cell are exactly the cells whose parent it is: a cell
/// `c` lies between the first and last child of `p` if and only if `p` is
/// the parent of `c`. So the child ranges of distinct cells never overlap,
/// they cover every cell, and each spans `s` cells along each axis.
pub proof fn lemma_children_are_exactly_the_cells_of_their_parent(c: ChunkCoord3, p: ChunkCoord3, s: int)
    requires
        s >= 2,
    ensures
        is_child_of(c, p, s) <==> parent_of(c, s) == p,
        (p.x * s + s - 1) - p.x * s + 1 == s,
{
    lemma_axis_child(c.x as int, p.x as int, s);
    lemma_axis_child(c.y as int, p.y as int, s);
    lemma_axis_child(c.z as int, p.z as int, s);
    lemma_floor_div_bounds(c.x as int, s);
    lemma_floor_div_bounds(c.y as int, s);
    lemma_floor_div_bounds(c.z as int, s);
}

/// Neighbouring cells along an axis have disjoint, adjacent child ranges:
/// the last child of `p` comes right before the first child of `p + 1`.
pub proof fn lemma_neighbouring_children_are_adjacent(p: int, s: int)
    requires
        s >= 2,
    ensures
        p * s + s - 1 < (p + 1) * s,
        (p * s + s - 1) + 1 == (p + 1) * s,
{
    assert((p + 1) * s == p * s + s) by (nonlinear_arith);
}

/// A cell of a grid hierarchy in a world.
#[derive(Debug, Copy, Clone, PartialEq, Eq, Structural, PartialOrd, Ord, Hash, Default)]
pub struct HierarchicalChunkId {
    pub world_id: WorldId,
    pub level: GridLevel,
    pub coord: ChunkCoord3,
}

impl HierarchicalChunkId {
    /// Builds a cell id.
    pub fn new(world_id: WorldId, level: GridLevel, coord: ChunkCoord3) -> (r: Self)
        ensures
            r == (HierarchicalChunkId { world_id, level, coord }),
    {
        HierarchicalChunkId { world_id, level, coord }
    }

    /// The cell of the next coarser level that holds this one; `None` at
    /// the top level.
    pub fn parent(&self, config: &HierarchicalGridConfig) -> (r: Result<Option<Self>, SpatialMathError>)
        requires
            config.wf(),
        ensures
            self.level.0 >= config.spec_level_count() ==> r == Err::<Option<Self>, _>(level_error(self.level.0, config.spec_level_count())),
            self.level.0 < config.spec_level_count() && self.level.0 + 1 >= config.spec_level_count() ==> r == Ok::<Option<Self>, SpatialMathError>(None),
            self.level.0 + 1 < config.spec_level_count() ==> (r matches Ok(Some(p)) && p == (HierarchicalChunkId {
                world_id: self.world_id,
                level: GridLevel((self.level.0 + 1) as u8),
                coord: parent_of(self.coord, config.spec_level_scale_factor() as int),
            })),
    {
        match config.parent_level(self.level)? {
            Some(level) => match config.parent_coord(self.level, self.coord)? {
                Some(coord) => Ok(Some(HierarchicalChunkId { world_id: self.world_id, level, coord })),
                None => Ok(None),
            },
            None => Ok(None),
        }
    }
}

} // verus!
