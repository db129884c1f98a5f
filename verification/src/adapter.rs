//! Checked conversion between a host engine's plain values (signed 32- and
//! 64-bit integers, as scripting hosts hand them over) and the library's
//! types. Every conversion is exact or rejected; nothing is clamped or
//! repaired.

use vstd::prelude::*;
use crate::ids::{ChunkCoord3, ChunkId, WorldId};
use crate::error::SpatialMathError;
use crate::grid::GridPartitionConfig;
use crate::demand::error::SpatialDemandError;
use crate::demand::focus::DemandFocus;
use crate::demand::identity::{DemandAxis, DemandSourceId};
use crate::demand::limits::DemandLimits;
use crate::demand::source::{DemandSourceChange, DemandSourceSnapshot};
use crate::streaming::controller::{WorldStreamingConfig, WorldStreamingController};
use crate::streaming::events::{ProviderEvent, ProviderEventKind};
use crate::streaming::model::{StreamingBudgets, StreamingCapacity};
use crate::streaming::request::StreamRequestId;

verus! {

/// A chunk coordinate from its three axes.
pub fn chunk_coord_from_xyz(x: i64, y: i64, z: i64) -> (r: ChunkCoord3)
    ensures
        r == (ChunkCoord3 { x, y, z }),
{
    ChunkCoord3 { x, y, z }
}

/// A chunk id from a world number and three axes.
pub fn chunk_id_from_xyz(world_id: u16, x: i64, y: i64, z: i64) -> (r: ChunkId)
    ensures
        r == (ChunkId { world_id: WorldId(world_id), coord: ChunkCoord3 { x, y, z } }),
{
    ChunkId::new(WorldId::new(world_id), chunk_coord_from_xyz(x, y, z))
}

/// The axes of a chunk id's coordinate.
pub fn chunk_id_to_xyz(chunk_id: ChunkId) -> (r: (i64, i64, i64))
    ensures
        r == (chunk_id.coord.x, chunk_id.coord.y, chunk_id.coord.z),
{
    (chunk_id.coord.x, chunk_id.coord.y, chunk_id.coord.z)
}

/// A provider event from host values; `None` unless the request id is
/// positive (a request id is never zero, and a negative one names none).
pub fn provider_event_from_godot(
    world_id: u16,
    request_id: i64,
    x: i64,
    y: i64,
    z: i64,
    kind: ProviderEventKind,
) -> (r: Option<ProviderEvent>)
    ensures
        r is Some <==> request_id > 0,
        r matches Some(e) ==> e.request_id@ == request_id && e.kind == kind && e.chunk_id == (
        ChunkId { world_id: WorldId(world_id), coord: ChunkCoord3 { x, y, z } }),
{
    if request_id < 0 {
        return None;
    }
    let request_id = match StreamRequestId::try_new(request_id as u64) {
        Some(id) => id,
        None => return None,
    };
    Some(ProviderEvent { request_id, chunk_id: chunk_id_from_xyz(world_id, x, y, z), kind })
}

/// A request id as a host's signed 64-bit integer; `None` above `i64::MAX`.
pub fn request_id_to_i64(request_id: StreamRequestId) -> (r: Option<i64>)
    ensures
        r is Some <==> request_id@ <= i64::MAX,
        r matches Some(v) ==> v == request_id@,
{
    let raw = request_id.get();
    if raw <= i64::MAX as u64 {
        Some(raw as i64)
    } else {
        None
    }
}

/// A positive host request id survives the round trip exactly: the event
/// built from it carries an id that translates back to the same value.
pub proof fn lemma_request_ids_round_trip(request_id: i64, id: StreamRequestId)
    requires
        request_id > 0,
        id@ == request_id,
    ensures
        id@ <= i64::MAX,
        id@ as i64 == request_id,
{
}

/// A world number from a host value; outside `0..=u16::MAX` it is rejected.
pub fn requested_world_id(value: i32) -> (r: Result<u16, SpatialMathError>)
    ensures
        0 <= value <= u16::MAX ==> r == Ok::<u16, SpatialMathError>(value as u16),
        !(0 <= value <= u16::MAX) ==> r == Err::<u16, _>(
            SpatialMathError::CoordinateOutOfRange { operation: "Godot world_id" },
        ),
{
    if 0 <= value && value <= u16::MAX as i32 {
        Ok(value as u16)
    } else {
        Err(SpatialMathError::CoordinateOutOfRange { operation: "Godot world_id" })
    }
}

/// Region dimensions from host values; the first one that is not positive
/// is rejected, by axis name.
pub fn requested_region_dims(requested: [i32; 3]) -> (r: Result<[u32; 3], SpatialMathError>)
    ensures
        requested[0] <= 0 ==> r == Err::<[u32; 3], _>(
            SpatialMathError::NonPositiveValue { field: "region_dim_x" },
        ),
        requested[0] > 0 && requested[1] <= 0 ==> r == Err::<[u32; 3], _>(
            SpatialMathError::NonPositiveValue { field: "region_dim_y" },
        ),
        requested[0] > 0 && requested[1] > 0 && requested[2] <= 0 ==> r == Err::<[u32; 3], _>(
            SpatialMathError::NonPositiveValue { field: "region_dim_z" },
        ),
        r is Ok <==> (requested[0] > 0 && requested[1] > 0 && requested[2] > 0),
        r matches Ok(d) ==> d[0] == requested[0] && d[1] == requested[1] && d[2] == requested[2],
{
    if requested[0] <= 0 {
        return Err(SpatialMathError::NonPositiveValue { field: "region_dim_x" });
    }
    if requested[1] <= 0 {
        return Err(SpatialMathError::NonPositiveValue { field: "region_dim_y" });
    }
    if requested[2] <= 0 {
        return Err(SpatialMathError::NonPositiveValue { field: "region_dim_z" });
    }
    Ok([requested[0] as u32, requested[1] as u32, requested[2] as u32])
}

/// The first rejected demand radius: a negative field, in the order
/// horizontal desired, horizontal retain, vertical desired, vertical
/// retain; then a retain radius below its desired radius, horizontal first.
pub open spec fn radii_error(q: Seq<i32>) -> Option<SpatialDemandError> {
    if q[0] < 0 || q[1] < 0 || q[2] < 0 || q[3] < 0 {
        Some(SpatialDemandError::CountOverflow { operation: "Godot demand radius" })
    } else if q[1] < q[0] {
        Some(SpatialDemandError::RetainRadiusBelowDesired {
            axis: DemandAxis::Horizontal,
            desired: q[0] as u32,
            retain: q[1] as u32,
        })
    } else if q[3] < q[2] {
        Some(SpatialDemandError::RetainRadiusBelowDesired {
            axis: DemandAxis::Vertical,
            desired: q[2] as u32,
            retain: q[3] as u32,
        })
    } else {
        None
    }
}

fn radius_from(value: i32) -> (r: Result<u32, SpatialDemandError>)
    ensures
        value >= 0 ==> r == Ok::<u32, SpatialDemandError>(value as u32),
        value < 0 ==> r == Err::<u32, _>(SpatialDemandError::CountOverflow { operation: "Godot demand radius" }),
{
    if value < 0 {
        Err(SpatialDemandError::CountOverflow { operation: "Godot demand radius" })
    } else {
        Ok(value as u32)
    }
}

/// Demand radii from host values: horizontal desired, horizontal retain,
/// vertical desired, vertical retain.
pub fn requested_radii(requested: [i32; 4]) -> (r: Result<[u32; 4], SpatialDemandError>)
    ensures
        match radii_error(requested@) {
            Some(e) => r == Err::<[u32; 4], SpatialDemandError>(e),
            None => r matches Ok(d) && d[0] == requested[0] && d[1] == requested[1]
                && d[2] == requested[2] && d[3] == requested[3],
        },
{
    let hd = radius_from(requested[0])?;
    let hr = radius_from(requested[1])?;
    let vd = radius_from(requested[2])?;
    let vr = radius_from(requested[3])?;
    if hr < hd {
        return Err(SpatialDemandError::RetainRadiusBelowDesired { axis: DemandAxis::Horizontal, desired: hd, retain: hr });
    }
    if vr < vd {
        return Err(SpatialDemandError::RetainRadiusBelowDesired { axis: DemandAxis::Vertical, desired: vd, retain: vr });
    }
    Ok([hd, hr, vd, vr])
}

/// Request budgets from host values; a negative budget is rejected with a
/// message naming it, and zero is kept.
pub fn requested_budgets(requested: [i32; 2]) -> (r: Result<StreamingBudgets, &'static str>)
    ensures
        requested[0] < 0 ==> r == Err::<StreamingBudgets, &'static str>(
            "max_load_requests_per_tick must be non-negative",
        ),
        requested[0] >= 0 && requested[1] < 0 ==> r == Err::<StreamingBudgets, &'static str>(
            "max_unload_requests_per_tick must be non-negative",
        ),
        requested[0] >= 0 && requested[1] >= 0 ==> r == Ok::<_, &'static str>(StreamingBudgets {
            max_load_requests_per_tick: requested[0] as usize,
            max_unload_requests_per_tick: requested[1] as usize,
        }),
{
    if requested[0] < 0 {
        return Err("max_load_requests_per_tick must be non-negative");
    }
    if requested[1] < 0 {
        return Err("max_unload_requests_per_tick must be non-negative");
    }
    Ok(StreamingBudgets {
        max_load_requests_per_tick: requested[0] as usize,
        max_unload_requests_per_tick: requested[1] as usize,
    })
}

/// The demand source that a single host node publishes.
pub fn node_focus_source() -> (r: DemandSourceId)
    ensures
        r@ == 0,
{
    DemandSourceId::new(0)
}

/// The capacity a host node gives its controller: 1024 tracked records, and
/// four loads and four unloads in flight.
pub open spec fn adapter_streaming_capacity() -> StreamingCapacity {
    StreamingCapacity { max_tracked_records: 1024, max_in_flight_loads: 4, max_in_flight_unloads: 4 }
}

/// The capacity a host node gives its controller, as
/// [`adapter_streaming_capacity`] says.
pub fn adapter_streaming_capacity_exec() -> (r: StreamingCapacity)
    ensures
        r == adapter_streaming_capacity(),
{
    StreamingCapacity::new(1024, 4, 4)
}

/// A streaming configuration from host values, with the default demand
/// limits and the host node's capacity: the region dimensions must be
/// positive and the radii valid.
pub fn streaming_config_from_values(
    world_id: u16,
    region_chunk_dims: [u32; 3],
    radii: [i32; 4],
    budgets: StreamingBudgets,
) -> (r: Result<WorldStreamingConfig, SpatialDemandError>)
    ensures
        region_chunk_dims[0] == 0 ==> r == Err::<WorldStreamingConfig, _>(
            SpatialDemandError::SpatialMath(SpatialMathError::ZeroDimension { axis: 0 }),
        ),
        region_chunk_dims[0] != 0 && region_chunk_dims[1] == 0 ==> r == Err::<WorldStreamingConfig, _>(
            SpatialDemandError::SpatialMath(SpatialMathError::ZeroDimension { axis: 1 }),
        ),
        region_chunk_dims[0] != 0 && region_chunk_dims[1] != 0 && region_chunk_dims[2] == 0
            ==> r == Err::<WorldStreamingConfig, _>(
            SpatialDemandError::SpatialMath(SpatialMathError::ZeroDimension { axis: 2 }),
        ),
        region_chunk_dims[0] != 0 && region_chunk_dims[1] != 0 && region_chunk_dims[2] != 0
            ==> match radii_error(radii@) {
            Some(e) => r == Err::<WorldStreamingConfig, SpatialDemandError>(e),
            None => r matches Ok(c) && c.world_id == WorldId(world_id) && c.partition.wf()
                && c.partition.spec_region_chunk_dims() == region_chunk_dims@
                && c.demand_limits.spec_max_sources() == 64
                && c.demand_limits.spec_max_contributions_per_source() == 16_384
                && c.demand_limits.spec_max_total_contributions() == 262_144
                && c.demand_limits.spec_max_effective_chunks() == 65_536 && c.budgets == budgets
                && c.capacity == adapter_streaming_capacity(),
        },
{
    let partition = match GridPartitionConfig::try_new(region_chunk_dims) {
        Ok(p) => p,
        Err(e) => return Err(SpatialDemandError::SpatialMath(e)),
    };
    requested_radii(radii)?;
    let mut config = WorldStreamingConfig::new(WorldId::new(world_id), partition, DemandLimits::default());
    config.budgets = budgets;
    config.capacity = adapter_streaming_capacity_exec();
    Ok(config)
}

/// Whether a controller exists and tracks any chunk record; structural
/// changes to a host node are refused while this holds.
pub fn controller_has_runtime_records(controller: Option<&WorldStreamingController>) -> (r: bool)
    requires
        controller matches Some(c) ==> c.wf(),
    ensures
        r <==> (controller matches Some(c) && exists|id: ChunkId| c@.records.contains_key(id)),
{
    match controller {
        Some(c) => c.has_records(),
        None => false,
    }
}

/// Whether `c` replaces the host node's source by a snapshot with a focus on
/// `center` with the radii `q`, and no pins.
pub open spec fn is_node_change(c: DemandSourceChange, center: ChunkId, q: Seq<i32>) -> bool {
    match c {
        DemandSourceChange::Replace { source_id, snapshot } => {
            &&& source_id@ == 0
            &&& snapshot.wf()
            &&& snapshot@.pins.len() == 0
            &&& snapshot@.focus matches Some(f)
            &&& f.spec_center() == center
            &&& f.spec_hd() == q[0] && f.spec_hr() == q[1]
            &&& f.spec_vd() == q[2] && f.spec_vr() == q[3]
        },
        DemandSourceChange::Remove { .. } => false,
    }
}

/// The demand transaction of a host node: one complete replacement of the
/// node's source, with a focus on `center` and no pins.
pub fn demand_changes_from_node_values(center: ChunkId, requested: [i32; 4]) -> (r: Result<
    Vec<DemandSourceChange>,
    SpatialDemandError,
>)
    ensures
        match radii_error(requested@) {
            Some(e) => r == Err::<Vec<DemandSourceChange>, SpatialDemandError>(e),
            None => r matches Ok(v) && v@.len() == 1 && is_node_change(v@[0], center, requested@),
        },
{
    let radii = requested_radii(requested)?;
    let focus = DemandFocus::try_new(center, radii[0], radii[1], radii[2], radii[3])?;
    let snapshot = DemandSourceSnapshot::try_new(Some(focus), Vec::new())?;
    proof {
        assert(Seq::<ChunkId>::empty().to_set() =~= Set::<ChunkId>::empty());
        crate::order::lemma_arrange_of_sorted(Seq::<ChunkId>::empty());
    }
    Ok(vec![DemandSourceChange::Replace { source_id: node_focus_source(), snapshot }])
}

} // verus!
