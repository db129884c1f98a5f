//! Boxes of chunks around a focus center, and distances inside them.

use vstd::prelude::*;
use crate::ids::ChunkCoord3;
use crate::order::{StrictKey, coord_lt, coord_less, strictly_sorted};
use crate::error::SpatialMathError;
use crate::demand::error::SpatialDemandError;

verus! {

/// Absolute value of an integer.
pub open spec fn abs_int(v: int) -> int {
    if v < 0 {
        -v
    } else {
        v
    }
}

/// Whether `c` lies in the box of horizontal radius `h` (on `x` and `z`) and
/// vertical radius `v` (on `y`) around `center`.
pub open spec fn within(c: ChunkCoord3, center: ChunkCoord3, h: int, v: int) -> bool {
    abs_int(c.x - center.x) <= h && abs_int(c.y - center.y) <= v && abs_int(c.z - center.z) <= h
}

/// The chunks of a box, as a set.
pub open spec fn box_set(center: ChunkCoord3, h: int, v: int) -> Set<ChunkCoord3> {
    Set::new(|c: ChunkCoord3| within(c, center, h, v))
}

/// Whether every corner of the box has `i64` coordinates.
pub open spec fn box_fits(center: ChunkCoord3, h: int, v: int) -> bool {
    i64::MIN <= center.x - h && center.x + h <= i64::MAX && i64::MIN <= center.y - v && center.y
        + v <= i64::MAX && i64::MIN <= center.z - h && center.z + h <= i64::MAX
}

/// Number of chunks in a box.
pub open spec fn box_volume(h: int, v: int) -> int {
    (2 * h + 1) * (2 * v + 1) * (2 * h + 1)
}

/// Squared Euclidean distance between two chunks.
pub open spec fn squared_distance(a: ChunkCoord3, b: ChunkCoord3) -> int {
    (a.x - b.x) * (a.x - b.x) + (a.y - b.y) * (a.y - b.y) + (a.z - b.z) * (a.z - b.z)
}

/// Decides [`within`].
pub fn is_within(c: ChunkCoord3, center: ChunkCoord3, h: u32, v: u32) -> (r: bool)
    ensures
        r == within(c, center, h as int, v as int),
{
    let dx = c.x as i128 - center.x as i128;
    let dy = c.y as i128 - center.y as i128;
    let dz = c.z as i128 - center.z as i128;
    -(h as i128) <= dx && dx <= h as i128 && -(v as i128) <= dy && dy <= v as i128 && -(
    h as i128) <= dz && dz <= h as i128
}

/// Decides [`box_fits`].
pub fn box_fits_exec(center: ChunkCoord3, h: u32, v: u32) -> (r: bool)
    ensures
        r == box_fits(center, h as int, v as int),
{
    let h = h as i128;
    let v = v as i128;
    let x = center.x as i128;
    let y = center.y as i128;
    let z = center.z as i128;
    i64::MIN as i128 <= x - h && x + h <= i64::MAX as i128 && i64::MIN as i128 <= y - v && y + v
        <= i64::MAX as i128 && i64::MIN as i128 <= z - h && z + h <= i64::MAX as i128
}

/// All chunks of the box of horizontal radius `h` and vertical radius `v`
/// around `center`, each once and in increasing coordinate order; an
/// overflow error when a corner of the box leaves the `i64` range.
pub fn chunk_box(center: ChunkCoord3, h: u32, v: u32) -> (r: Result<Vec<ChunkCoord3>, SpatialDemandError>)
    ensures
        r is Err <==> !box_fits(center, h as int, v as int),
        r is Err ==> r == Err::<Vec<ChunkCoord3>, SpatialDemandError>(
            SpatialDemandError::SpatialMath(SpatialMathError::ArithmeticOverflow { operation: "demand chunk range" }),
        ),
        r matches Ok(cs) ==> strictly_sorted(cs@) && cs@.to_set() == box_set(center, h as int, v as int),
{
    if box_fits_exec(center, h, v) {
        Ok(box_chunks(center, h, v))
    } else {
        Err(SpatialDemandError::SpatialMath(SpatialMathError::ArithmeticOverflow { operation: "demand chunk range" }))
    }
}

/// All chunks of a fitting box, in increasing coordinate order.
pub(crate) fn box_chunks(center: ChunkCoord3, h: u32, v: u32) -> (r: Vec<ChunkCoord3>)
    requires
        box_fits(center, h as int, v as int),
    ensures
        strictly_sorted(r@),
        r@.to_set() == box_set(center, h as int, v as int),
{
    let ghost hh = h as int;
    let ghost vv = v as int;
    let min_x: i64 = (center.x as i128 - h as i128) as i64;
    let min_y: i64 = (center.y as i128 - v as i128) as i64;
    let min_z: i64 = (center.z as i128 - h as i128) as i64;
    let nh: u64 = 2 * (h as u64) + 1;
    let nv: u64 = 2 * (v as u64) + 1;
    let mut out: Vec<ChunkCoord3> = Vec::new();
    let mut ix: u64 = 0;
    while ix < nh
        invariant
            box_fits(center, hh, vv),
            hh == h,
            vv == v,
            min_x == center.x - hh,
            min_y == center.y - vv,
            min_z == center.z - hh,
            nh == 2 * hh + 1,
            nv == 2 * vv + 1,
            ix <= nh,
            strictly_sorted(out@),
            out@.to_set() == Set::new(
                |c: ChunkCoord3| within(c, center, hh, vv) && c.x < min_x + ix,
            ),
        decreases nh - ix,
    {
        let x: i64 = (min_x as i128 + ix as i128) as i64;
        let mut iy: u64 = 0;
        while iy < nv
            invariant
                box_fits(center, hh, vv),
                hh == h,
                vv == v,
                min_x == center.x - hh,
                min_y == center.y - vv,
                min_z == center.z - hh,
                nh == 2 * hh + 1,
                nv == 2 * vv + 1,
                ix < nh,
                x == min_x + ix,
                iy <= nv,
                strictly_sorted(out@),
                out@.to_set() == Set::new(
                    |c: ChunkCoord3|
                        within(c, center, hh, vv) && (c.x < x || (c.x == x && c.y < min_y + iy)),
                ),
            decreases nv - iy,
        {
            let y: i64 = (min_y as i128 + iy as i128) as i64;
            let mut iz: u64 = 0;
            while iz < nh
                invariant
                    box_fits(center, hh, vv),
                    hh == h,
                    vv == v,
                    min_x == center.x - hh,
                    min_y == center.y - vv,
                    min_z == center.z - hh,
                    nh == 2 * hh + 1,
                    nv == 2 * vv + 1,
                    ix < nh,
                    iy < nv,
                    x == min_x + ix,
                    y == min_y + iy,
                    iz <= nh,
                    strictly_sorted(out@),
                    out@.to_set() == Set::new(
                        |c: ChunkCoord3|
                            within(c, center, hh, vv) && (c.x < x || (c.x == x && c.y < y) || (
                            c.x == x && c.y == y && c.z < min_z + iz)),
                    ),
                decreases nh - iz,
            {
                let z: i64 = (min_z as i128 + iz as i128) as i64;
                let c = ChunkCoord3 { x, y, z };
                let ghost before = out@;
                out.push(c);
                proof {
                    assert forall|k: int| 0 <= k < before.len() implies coord_lt(
                        #[trigger] before[k],
                        c,
                    ) by {
                        assert(before.to_set().contains(before[k]));
                    }
                    assert forall|a: int, b: int| 0 <= a < b < out@.len() implies (
                    #[trigger] out@[a]).key_less(#[trigger] out@[b]) by {
                        if b < before.len() {
                            assert(out@[a] == before[a]);
                            assert(out@[b] == before[b]);
                        } else {
                            assert(out@[a] == before[a]);
                        }
                    }
                    before.lemma_push_to_set_commute(c);
                    assert(out@.to_set() =~= Set::new(
                        |c: ChunkCoord3|
                            within(c, center, hh, vv) && (c.x < x || (c.x == x && c.y < y) || (
                            c.x == x && c.y == y && c.z < min_z + iz + 1)),
                    ));
                }
                iz = iz + 1;
            }
            proof {
                assert(out@.to_set() =~= Set::new(
                    |c: ChunkCoord3|
                        within(c, center, hh, vv) && (c.x < x || (c.x == x && c.y < min_y + iy
                            + 1)),
                ));
            }
            iy = iy + 1;
        }
        proof {
            assert(out@.to_set() =~= Set::new(
                |c: ChunkCoord3| within(c, center, hh, vv) && c.x < min_x + ix + 1,
            ));
        }
        ix = ix + 1;
    }
    proof {
        assert(out@.to_set() =~= box_set(center, hh, vv));
    }
    out
}

} // verus!
