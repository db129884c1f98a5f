//! Ring buffers addressed by cell coordinates: a fixed box of slots that a
//! moving window of cells reuses, each cell landing in the slot given by
//! its offset from an anchor, modulo the box size.

use vstd::prelude::*;
use crate::clipmap::ClipmapCoord3;
use crate::error::SpatialMathError;

verus! {

/// The slot box of a ring buffer: slots along each axis, each positive.
#[derive(Debug, Copy, Clone, PartialEq, Eq)]
pub struct RingBufferConfig {
    dims: [u32; 3],
}

/// A slot of a ring buffer; each axis is below the box size.
#[derive(Debug, Copy, Clone, PartialEq, Eq, Structural, PartialOrd, Ord, Hash, Default)]
pub struct RingSlot3 {
    pub x: u32,
    pub y: u32,
    pub z: u32,
}

impl RingBufferConfig {
    /// Slots along each axis.
    pub closed spec fn spec_dims(self) -> Seq<u32> {
        self.dims@
    }

    /// The configuration's invariant: three positive dimensions.
    pub open spec fn wf(self) -> bool {
        self.spec_dims().len() == 3 && self.spec_dims()[0] > 0 && self.spec_dims()[1] > 0
            && self.spec_dims()[2] > 0
    }

    /// Builds a ring; the first zero dimension is rejected.
    pub fn try_new(dims: [u32; 3]) -> (r: Result<Self, SpatialMathError>)
        ensures
            dims[0] == 0 ==> r == Err::<Self, _>(SpatialMathError::ZeroDimension { axis: 0 }),
            dims[0] != 0 && dims[1] == 0 ==> r == Err::<Self, _>(
                SpatialMathError::ZeroDimension { axis: 1 },
            ),
            dims[0] != 0 && dims[1] != 0 && dims[2] == 0 ==> r == Err::<Self, _>(
                SpatialMathError::ZeroDimension { axis: 2 },
            ),
            r is Ok <==> (dims[0] != 0 && dims[1] != 0 && dims[2] != 0),
            r matches Ok(c) ==> c.wf() && c.spec_dims() == dims@,
    {
        let mut axis: usize = 0;
        while axis < 3
            invariant
                axis <= 3,
                forall|k: int| 0 <= k < axis ==> dims@[k] != 0,
            decreases 3 - axis,
        {
            if dims[axis] == 0 {
                return Err(SpatialMathError::ZeroDimension { axis: axis as u8 });
            }
            axis += 1;
        }
        Ok(RingBufferConfig { dims })
    }

    /// Slots along each axis.
    pub fn dims(&self) -> (r: [u32; 3])
        ensures
            r@ == self.spec_dims(),
    {
        self.dims
    }
}

impl Default for RingBufferConfig {
    /// A box of 17 × 5 × 17 slots.
    fn default() -> (r: Self)
        ensures
            r.wf(),
            r.spec_dims() == seq![17u32, 5u32, 17u32],
    {
        let r = RingBufferConfig { dims: [17, 5, 17] };
        assert(r.dims@ =~= seq![17u32, 5u32, 17u32]);
        r
    }
}

/// The slot of `coord` along one axis: its offset from `anchor`, modulo `m`.
pub open spec fn axis_slot(coord: int, anchor: int, m: int) -> int {
    (coord - anchor) % m
}

/// The slot that `coord` occupies in a ring anchored at `anchor`.
pub open spec fn slot_of(anchor: ClipmapCoord3, coord: ClipmapCoord3, dims: Seq<u32>) -> RingSlot3 {
    RingSlot3 {
        x: axis_slot(coord.x as int, anchor.x as int, dims[0] as int) as u32,
        y: axis_slot(coord.y as int, anchor.y as int, dims[1] as int) as u32,
        z: axis_slot(coord.z as int, anchor.z as int, dims[2] as int) as u32,
    }
}

fn axis_slot_exec(coord: i64, anchor: i64, size: u32) -> (r: u32)
    requires
        size > 0,
    ensures
        r == axis_slot(coord as int, anchor as int, size as int),
        r < size,
{
    let m = size as i64;
    let a = coord.checked_rem_euclid(m).unwrap();
    let b = anchor.checked_rem_euclid(m).unwrap();
    let d = (a - b).checked_rem_euclid(m).unwrap();
    proof {
        vstd::arithmetic::div_mod::lemma_sub_mod_noop(coord as int, anchor as int, m as int);
    }
    d as u32
}

/// The slot that `coord` occupies in a ring anchored at `anchor`: on each
/// axis, `(coord - anchor)` modulo the ring size, computed without
/// overflow for every pair of `i64` coordinates.
pub fn slot_for_coord(anchor: ClipmapCoord3, coord: ClipmapCoord3, config: &RingBufferConfig) -> (r: RingSlot3)
    requires
        config.wf(),
    ensures
        r == slot_of(anchor, coord, config.spec_dims()),
        r.x < config.spec_dims()[0] && r.y < config.spec_dims()[1] && r.z < config.spec_dims()[2],
{
    let dims = config.dims();
    RingSlot3 {
        x: axis_slot_exec(coord.x, anchor.x, dims[0]),
        y: axis_slot_exec(coord.y, anchor.y, dims[1]),
        z: axis_slot_exec(coord.z, anchor.z, dims[2]),
    }
}

/// Cells a whole number of ring sizes apart share a slot, the anchor cell
/// takes slot 0, and cells closer than a ring size along an axis take
/// distinct slots on that axis.
pub proof fn lemma_slots_repeat_with_the_ring_size(anchor: int, coord: int, other: int, k: int, m: int)
    requires
        m > 0,
    ensures
        axis_slot(coord + k * m, anchor, m) == axis_slot(coord, anchor, m),
        axis_slot(anchor, anchor, m) == 0,
        0 <= axis_slot(coord, anchor, m) < m,
        0 < other - coord < m ==> axis_slot(other, anchor, m) != axis_slot(coord, anchor, m),
{
    vstd::arithmetic::div_mod::lemma_mod_multiples_vanish(k, coord - anchor, m);
    vstd::arithmetic::div_mod::lemma_small_mod(0nat, m as nat);
    vstd::arithmetic::div_mod::lemma_mod_bound(coord - anchor, m);
    assert(coord + k * m - anchor == m * k + (coord - anchor)) by (nonlinear_arith);
    if 0 < other - coord < m {
        let a = (coord - anchor) % m;
        let b = (other - anchor) % m;
        let qa = (coord - anchor) / m;
        let qb = (other - anchor) / m;
        assert(coord - anchor == m * qa + a && other - anchor == m * qb + b) by (nonlinear_arith)
            requires
                m > 0,
                a == (coord - anchor) % m,
                b == (other - anchor) % m,
                qa == (coord - anchor) / m,
                qb == (other - anchor) / m,
        ;
        assert(a != b) by (nonlinear_arith)
            requires
                m > 0,
                0 <= a < m,
                0 <= b < m,
                coord - anchor == m * qa + a,
                other - anchor == m * qb + b,
                0 < other - coord < m,
        ;
    }
}

} // verus!
