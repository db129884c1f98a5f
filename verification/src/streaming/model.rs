//! The mathematical model of the streaming controller: what each operation
//! does to the chunk records, the pending requests and the request ids.

use vstd::prelude::*;
use crate::ids::ChunkId;
use crate::order::{StrictKey, chunk_id_lt, chunk_id_less, arrange};
use crate::demand::identity::DemandRank;
use crate::demand::model::{PlannerModel, plan, entered_chunks, updated_chunks, exited_chunks};
use crate::demand::snapshot::DemandedChunk;
use crate::streaming::events::{ProviderEvent, ProviderEventKind, WorldStreamingEvent,
    WorldStreamingEventKind};
use crate::streaming::lifecycle::{ChunkAvailability, ChunkOperation, spec_active_request};
use crate::streaming::request::{StreamRequest, StreamRequestId, StreamRequestKind};
use crate::streaming::error::WorldStreamingError;

verus! {

/// What the controller knows about one chunk.
pub struct RecordModel {
    pub chunk_id: ChunkId,
    pub desired: bool,
    pub rank: DemandRank,
    pub availability: ChunkAvailability,
    pub operation: ChunkOperation,
    pub blocking_failure: Option<StreamRequestKind>,
}

/// How many requests of each kind one tick may issue.
#[derive(Debug, Copy, Clone, PartialEq, Eq, Structural)]
pub struct StreamingBudgets {
    pub max_load_requests_per_tick: usize,
    pub max_unload_requests_per_tick: usize,
}

/// How much the controller may hold at once: tracked chunk records, and
/// load and unload requests in flight.
#[derive(Debug, Copy, Clone, PartialEq, Eq, Structural)]
pub struct StreamingCapacity {
    pub max_tracked_records: usize,
    pub max_in_flight_loads: usize,
    pub max_in_flight_unloads: usize,
}

impl StreamingCapacity {
    /// A capacity of `max_tracked_records` records, `max_in_flight_loads`
    /// loads and `max_in_flight_unloads` unloads.
    pub fn new(max_tracked_records: usize, max_in_flight_loads: usize, max_in_flight_unloads: usize) -> (r: Self)
        ensures
            r == (StreamingCapacity { max_tracked_records, max_in_flight_loads, max_in_flight_unloads }),
    {
        StreamingCapacity { max_tracked_records, max_in_flight_loads, max_in_flight_unloads }
    }

    /// A capacity that never limits anything a controller can hold.
    pub fn unlimited() -> (r: Self)
        ensures
            r == (StreamingCapacity {
                max_tracked_records: usize::MAX,
                max_in_flight_loads: usize::MAX,
                max_in_flight_unloads: usize::MAX,
            }),
    {
        StreamingCapacity {
            max_tracked_records: usize::MAX,
            max_in_flight_loads: usize::MAX,
            max_in_flight_unloads: usize::MAX,
        }
    }

    /// Most chunk records tracked at once.
    pub fn max_tracked_records(&self) -> (r: usize)
        ensures
            r == self.max_tracked_records,
    {
        self.max_tracked_records
    }

    /// Most load requests in flight at once.
    pub fn max_in_flight_loads(&self) -> (r: usize)
        ensures
            r == self.max_in_flight_loads,
    {
        self.max_in_flight_loads
    }

    /// Most unload requests in flight at once.
    pub fn max_in_flight_unloads(&self) -> (r: usize)
        ensures
            r == self.max_in_flight_unloads,
    {
        self.max_in_flight_unloads
    }
}

/// Counters of what the controller holds after a tick.
#[derive(Debug, Copy, Clone, PartialEq, Eq, Structural, Default)]
pub struct StreamingPressureDiagnostics {
    pub tracked_records: usize,
    pub in_flight_loads: usize,
    pub in_flight_unloads: usize,
    pub deferred_loads: usize,
    pub deferred_unloads: usize,
}

impl StreamingPressureDiagnostics {
    /// Chunk records tracked.
    pub fn tracked_records(&self) -> (r: usize)
        ensures
            r == self.tracked_records,
    {
        self.tracked_records
    }

    /// Load requests in flight.
    pub fn in_flight_loads(&self) -> (r: usize)
        ensures
            r == self.in_flight_loads,
    {
        self.in_flight_loads
    }

    /// Unload requests in flight.
    pub fn in_flight_unloads(&self) -> (r: usize)
        ensures
            r == self.in_flight_unloads,
    {
        self.in_flight_unloads
    }

    /// Queued loads that wait for a budget, capacity or request id.
    pub fn deferred_loads(&self) -> (r: usize)
        ensures
            r == self.deferred_loads,
    {
        self.deferred_loads
    }

    /// Queued unloads that wait for a budget, capacity or request id.
    pub fn deferred_unloads(&self) -> (r: usize)
        ensures
            r == self.deferred_unloads,
    {
        self.deferred_unloads
    }
}

/// The controller's state.
pub struct ControllerModel {
    pub world_id: crate::ids::WorldId,
    pub planner: PlannerModel,
    pub budgets: StreamingBudgets,
    pub capacity: StreamingCapacity,
    pub records: Map<ChunkId, RecordModel>,
    pub pending: Map<StreamRequestId, ChunkId>,
    pub next_request_id: Option<StreamRequestId>,
}

/// The record of a chunk the controller did not know yet.
pub open spec fn fresh_record(chunk_id: ChunkId) -> RecordModel {
    RecordModel {
        chunk_id,
        desired: false,
        rank: DemandRank::spec_from(0),
        availability: ChunkAvailability::Absent,
        operation: ChunkOperation::Idle,
        blocking_failure: None,
    }
}

/// The request kind a chunk needs to reach its target.
pub open spec fn required_kind(r: RecordModel) -> StreamRequestKind {
    if r.desired {
        StreamRequestKind::Load
    } else {
        StreamRequestKind::Unload
    }
}

/// The queued operation of a request kind.
pub open spec fn queued_operation(kind: StreamRequestKind) -> ChunkOperation {
    match kind {
        StreamRequestKind::Load => ChunkOperation::LoadQueued,
        StreamRequestKind::Unload => ChunkOperation::UnloadQueued,
    }
}

/// The event that reports a queued operation.
pub open spec fn queued_event(kind: StreamRequestKind) -> WorldStreamingEventKind {
    match kind {
        StreamRequestKind::Load => WorldStreamingEventKind::LoadQueued,
        StreamRequestKind::Unload => WorldStreamingEventKind::UnloadQueued,
    }
}

/// The event that reports an issued request.
pub open spec fn requested_event(kind: StreamRequestKind) -> WorldStreamingEventKind {
    match kind {
        StreamRequestKind::Load => WorldStreamingEventKind::LoadRequested,
        StreamRequestKind::Unload => WorldStreamingEventKind::UnloadRequested,
    }
}

/// The requested operation of a request.
pub open spec fn requested_operation(request: StreamRequest) -> ChunkOperation {
    match request.kind {
        StreamRequestKind::Load => ChunkOperation::LoadRequested(request),
        StreamRequestKind::Unload => ChunkOperation::UnloadRequested(request),
    }
}

/// The chunk's availability is what its demand asks for.
pub open spec fn target_satisfied(r: RecordModel) -> bool {
    (r.availability == ChunkAvailability::Resident) == r.desired
}

/// An idle chunk whose availability differs from its demand gets the
/// matching operation queued, unless a failure of that kind blocks it; a
/// satisfied chunk forgets its failure.
pub open spec fn reconcile(r: RecordModel) -> (RecordModel, Seq<WorldStreamingEvent>) {
    if r.operation != ChunkOperation::Idle {
        (r, Seq::empty())
    } else if target_satisfied(r) {
        (RecordModel { blocking_failure: None, ..r }, Seq::empty())
    } else if r.blocking_failure == Some(required_kind(r)) {
        (r, Seq::empty())
    } else {
        (
            RecordModel {
                blocking_failure: None,
                operation: queued_operation(required_kind(r)),
                ..r
            },
            seq![
                WorldStreamingEvent {
                    chunk_id: r.chunk_id,
                    request_id: None,
                    kind: queued_event(required_kind(r)),
                },
            ],
        )
    }
}

/// A chunk becomes demanded, with a rank; a queued unload is cancelled.
pub open spec fn mark_desired(
    recs: Map<ChunkId, RecordModel>,
    id: ChunkId,
    rank: DemandRank,
) -> (Map<ChunkId, RecordModel>, Seq<WorldStreamingEvent>) {
    let base = if recs.contains_key(id) {
        recs[id]
    } else {
        fresh_record(id)
    };
    let r = RecordModel {
        desired: true,
        rank,
        operation: if base.operation == ChunkOperation::UnloadQueued {
            ChunkOperation::Idle
        } else {
            base.operation
        },
        ..base
    };
    (recs.insert(id, reconcile(r).0), reconcile(r).1)
}

/// A known chunk stops being demanded; a queued load is cancelled.
pub open spec fn mark_undesired(
    recs: Map<ChunkId, RecordModel>,
    id: ChunkId,
    rank: DemandRank,
) -> (Map<ChunkId, RecordModel>, Seq<WorldStreamingEvent>) {
    if !recs.contains_key(id) {
        (recs, Seq::empty())
    } else {
        let base = recs[id];
        let r = RecordModel {
            desired: false,
            rank,
            operation: if base.operation == ChunkOperation::LoadQueued {
                ChunkOperation::Idle
            } else {
                base.operation
            },
            ..base
        };
        (recs.insert(id, reconcile(r).0), reconcile(r).1)
    }
}

/// A known chunk takes a new rank.
pub open spec fn refresh_rank(recs: Map<ChunkId, RecordModel>, id: ChunkId, rank: DemandRank) -> Map<
    ChunkId,
    RecordModel,
> {
    if recs.contains_key(id) {
        recs.insert(id, RecordModel { rank, ..recs[id] })
    } else {
        recs
    }
}

/// Whether a chunk can be marked demanded: it has a record already, or
/// fewer than `cap` records are tracked.
pub open spec fn has_room(recs: Map<ChunkId, RecordModel>, id: ChunkId, cap: usize) -> bool {
    recs.contains_key(id) || recs.dom().len() < cap
}

/// Marks entered chunks demanded, in order; a chunk without a record gets
/// one only while fewer than `cap` records are tracked.
pub open spec fn enter_all(recs: Map<ChunkId, RecordModel>, s: Seq<DemandedChunk>, cap: usize) -> (Map<
    ChunkId,
    RecordModel,
>, Seq<WorldStreamingEvent>)
    decreases s.len(),
{
    if s.len() == 0 {
        (recs, Seq::empty())
    } else {
        let (r0, e0) = enter_all(recs, s.drop_last(), cap);
        if has_room(r0, s.last().chunk_id, cap) {
            let (r1, e1) = mark_desired(r0, s.last().chunk_id, s.last().rank);
            (r1, e0 + e1)
        } else {
            (r0, e0)
        }
    }
}

/// The demanded chunks that have no record yet, in rank order.
pub open spec fn untracked(recs: Map<ChunkId, RecordModel>, chunks: Seq<DemandedChunk>) -> Seq<DemandedChunk> {
    chunks.filter(|c: DemandedChunk| !recs.contains_key(c.chunk_id))
}

/// Gives demanded chunks without a record one, in rank order, while fewer
/// than `cap` records are tracked.
pub open spec fn track_demanded(recs: Map<ChunkId, RecordModel>, chunks: Seq<DemandedChunk>, cap: usize) -> (Map<
    ChunkId,
    RecordModel,
>, Seq<WorldStreamingEvent>) {
    enter_all(recs, untracked(recs, chunks), cap)
}

/// Gives updated chunks their new ranks.
pub open spec fn update_all(recs: Map<ChunkId, RecordModel>, s: Seq<DemandedChunk>) -> Map<
    ChunkId,
    RecordModel,
>
    decreases s.len(),
{
    if s.len() == 0 {
        recs
    } else {
        refresh_rank(update_all(recs, s.drop_last()), s.last().chunk_id, s.last().rank)
    }
}

/// Marks exited chunks not demanded, in order.
pub open spec fn exit_all(recs: Map<ChunkId, RecordModel>, s: Seq<DemandedChunk>) -> (Map<
    ChunkId,
    RecordModel,
>, Seq<WorldStreamingEvent>)
    decreases s.len(),
{
    if s.len() == 0 {
        (recs, Seq::empty())
    } else {
        let (r0, e0) = exit_all(recs, s.drop_last());
        let (r1, e1) = mark_undesired(r0, s.last().chunk_id, s.last().rank);
        (r1, e0 + e1)
    }
}

/// A record that says nothing: not demanded, absent, idle, no failure.
pub open spec fn neutral(r: RecordModel) -> bool {
    !r.desired && r.availability == ChunkAvailability::Absent && r.operation
        == ChunkOperation::Idle && r.blocking_failure is None
}

/// Drops neutral records.
pub open spec fn prune(recs: Map<ChunkId, RecordModel>) -> Map<ChunkId, RecordModel> {
    Map::new(|id: ChunkId| recs.contains_key(id) && !neutral(recs[id]), |id: ChunkId| recs[id])
}

/// Applies a demand change to the records: entered, then updated, then
/// exited chunks; neutral records are dropped afterwards.
pub open spec fn apply_demand(recs: Map<ChunkId, RecordModel>, old: Seq<DemandedChunk>, new: Seq<DemandedChunk>, cap: usize) -> (Map<
    ChunkId,
    RecordModel,
>, Seq<WorldStreamingEvent>) {
    let (r1, e1) = enter_all(recs, entered_chunks(old, new), cap);
    let r2 = update_all(r1, updated_chunks(old, new));
    let (r3, e3) = exit_all(r2, exited_chunks(old, new));
    (prune(r3), e1 + e3)
}

/// A queued chunk keyed for issuing: rank first, then chunk id.
#[derive(Debug, Copy, Clone, PartialEq, Eq, Structural)]
pub struct QueueKey {
    pub rank: u32,
    pub chunk_id: ChunkId,
}

impl StrictKey for QueueKey {
    open spec fn key_less(self, other: Self) -> bool {
        self.rank < other.rank || (self.rank == other.rank && chunk_id_lt(self.chunk_id, other.chunk_id))
    }

    proof fn lemma_strict_total() {
    }

    fn less(&self, other: &Self) -> (r: bool) {
        self.rank < other.rank || (self.rank == other.rank && chunk_id_less(&self.chunk_id, &other.chunk_id))
    }
}

/// The keys of the chunks whose operation is the queued one of `kind`.
pub open spec fn queued_keys(recs: Map<ChunkId, RecordModel>, kind: StreamRequestKind) -> Set<QueueKey> {
    Set::new(
        |k: QueueKey|
            recs.contains_key(k.chunk_id) && recs[k.chunk_id].operation == queued_operation(kind)
                && k.rank == recs[k.chunk_id].rank@,
    )
}

/// The chunks to issue requests of `kind` for: queued ones, by rank and id,
/// at most `budget` of them.
pub open spec fn queued_chunks(recs: Map<ChunkId, RecordModel>, kind: StreamRequestKind, budget: usize) -> Seq<ChunkId> {
    let keys = arrange(queued_keys(recs, kind));
    let n = if budget < keys.len() {
        budget as int
    } else {
        keys.len() as int
    };
    Seq::new(n as nat, |i: int| keys[i].chunk_id)
}

/// `count` consecutive request ids from `next`, and the id after them; `None`
/// when they run out.
pub open spec fn reserve(next: Option<StreamRequestId>, count: int) -> Option<(Seq<StreamRequestId>, Option<StreamRequestId>)> {
    if count == 0 {
        Some((Seq::empty(), next))
    } else if next is None {
        None
    } else if next->0@ + count - 1 > u64::MAX {
        None
    } else {
        let first = next->0@;
        let last = first + count - 1;
        Some(
            (
                Seq::new(count as nat, |i: int| StreamRequestId::spec_from((first + i) as u64)),
                if last + 1 > u64::MAX {
                    None
                } else {
                    Some(StreamRequestId::spec_from((last + 1) as u64))
                },
            ),
        )
    }
}

/// Issues requests of `kind` for `chunks`, with `ids`, in order.
pub open spec fn issue(
    recs: Map<ChunkId, RecordModel>,
    pending: Map<StreamRequestId, ChunkId>,
    kind: StreamRequestKind,
    chunks: Seq<ChunkId>,
    ids: Seq<StreamRequestId>,
) -> (Map<ChunkId, RecordModel>, Map<StreamRequestId, ChunkId>, Seq<StreamRequest>, Seq<WorldStreamingEvent>)
    decreases chunks.len(),
{
    if chunks.len() == 0 {
        (recs, pending, Seq::empty(), Seq::empty())
    } else {
        let (r0, p0, q0, e0) = issue(recs, pending, kind, chunks.drop_last(), ids);
        let i = chunks.len() - 1;
        let id = chunks[i];
        let request = StreamRequest { request_id: ids[i], chunk_id: id, kind, rank: r0[id].rank };
        (
            r0.insert(id, RecordModel { operation: requested_operation(request), ..r0[id] }),
            p0.insert(ids[i], id),
            q0.push(request),
            e0.push(
                WorldStreamingEvent {
                    chunk_id: id,
                    request_id: Some(ids[i]),
                    kind: requested_event(kind),
                },
            ),
        )
    }
}

/// What one tick returns: the issued requests, the events, whether the
/// request ids ran out, and the pressure counters afterwards.
pub struct TickModel {
    pub requests: Seq<StreamRequest>,
    pub events: Seq<WorldStreamingEvent>,
    pub request_id_exhausted: bool,
    pub pressure: StreamingPressureDiagnostics,
}

/// Whether an operation is a request of `kind` under way.
pub open spec fn in_flight_as(op: ChunkOperation, kind: StreamRequestKind) -> bool {
    match kind {
        StreamRequestKind::Load => op is LoadRequested || op is Loading,
        StreamRequestKind::Unload => op is UnloadRequested || op is Unloading,
    }
}

/// Number of records with a request of `kind` under way.
pub open spec fn in_flight_count(recs: Map<ChunkId, RecordModel>, kind: StreamRequestKind) -> int {
    recs.dom().filter(|id: ChunkId| in_flight_as(recs[id].operation, kind)).len() as int
}

/// Number of records with a request of `kind` queued.
pub open spec fn queued_count(recs: Map<ChunkId, RecordModel>, kind: StreamRequestKind) -> int {
    recs.dom().filter(|id: ChunkId| recs[id].operation == queued_operation(kind)).len() as int
}

/// How many more requests fit below `limit` when `used` are in flight, and
/// within `budget`.
pub open spec fn allowance(budget: usize, limit: usize, used: int) -> usize {
    if used >= limit {
        0
    } else if limit - used < budget {
        (limit - used) as usize
    } else {
        budget
    }
}

/// The pressure counters of a set of records.
pub open spec fn pressure_of(recs: Map<ChunkId, RecordModel>) -> StreamingPressureDiagnostics {
    StreamingPressureDiagnostics {
        tracked_records: recs.dom().len() as usize,
        in_flight_loads: in_flight_count(recs, StreamRequestKind::Load) as usize,
        in_flight_unloads: in_flight_count(recs, StreamRequestKind::Unload) as usize,
        deferred_loads: queued_count(recs, StreamRequestKind::Load) as usize,
        deferred_unloads: queued_count(recs, StreamRequestKind::Unload) as usize,
    }
}

/// The loads a tick issues for `recs`: queued ones, within the budget and
/// the in-flight load limit.
pub open spec fn tick_loads(m: ControllerModel, recs: Map<ChunkId, RecordModel>) -> Seq<ChunkId> {
    queued_chunks(
        recs,
        StreamRequestKind::Load,
        allowance(
            m.budgets.max_load_requests_per_tick,
            m.capacity.max_in_flight_loads,
            in_flight_count(recs, StreamRequestKind::Load),
        ),
    )
}

/// The unloads a tick issues for `recs`: queued ones, within the budget and
/// the in-flight unload limit.
pub open spec fn tick_unloads(m: ControllerModel, recs: Map<ChunkId, RecordModel>) -> Seq<ChunkId> {
    queued_chunks(
        recs,
        StreamRequestKind::Unload,
        allowance(
            m.budgets.max_unload_requests_per_tick,
            m.capacity.max_in_flight_unloads,
            in_flight_count(recs, StreamRequestKind::Unload),
        ),
    )
}

/// The records of a tick before it issues requests: the demand change
/// applied (when the tick has changes), then untracked demanded chunks
/// tracked; and the events of both.
pub open spec fn prepared(
    m: ControllerModel,
    planner: PlannerModel,
    changes: Seq<crate::demand::source::DemandSourceChange>,
) -> (Map<ChunkId, RecordModel>, Seq<WorldStreamingEvent>) {
    let (r0, e0) = if changes.len() > 0 {
        apply_demand(m.records, m.planner.chunks, planner.chunks, m.capacity.max_tracked_records)
    } else {
        (m.records, Seq::empty())
    };
    let (r1, e1) = track_demanded(r0, planner.chunks, m.capacity.max_tracked_records);
    (r1, e0 + e1)
}

/// What a tick does: applies a demand transaction (when it has changes),
/// tracks demanded chunks without a record while the record limit allows,
/// then issues queued requests within the budgets and the in-flight limits.
pub open spec fn tick_spec(m: ControllerModel, changes: Seq<crate::demand::source::DemandSourceChange>) -> Result<
    (ControllerModel, TickModel),
    WorldStreamingError,
> {
    if changes.len() > 0 && plan(m.planner, changes) is Err {
        Err(WorldStreamingError::SpatialDemand(plan(m.planner, changes)->Err_0))
    } else {
        let planner = if changes.len() > 0 {
            plan(m.planner, changes)->Ok_0
        } else {
            m.planner
        };
        let (recs, events) = prepared(m, planner, changes);
        let loads = tick_loads(m, recs);
        let unloads = tick_unloads(m, recs);
        match reserve(m.next_request_id, (loads.len() + unloads.len()) as int) {
            None => Ok(
                (
                    ControllerModel { planner, records: recs, ..m },
                    TickModel {
                        requests: Seq::empty(),
                        events,
                        request_id_exhausted: true,
                        pressure: pressure_of(recs),
                    },
                ),
            ),
            Some((ids, next)) => {
                let (r1, p1, q1, e1) = issue(recs, m.pending, StreamRequestKind::Load, loads, ids);
                let (r2, p2, q2, e2) = issue(
                    r1,
                    p1,
                    StreamRequestKind::Unload,
                    unloads,
                    ids.skip(loads.len() as int),
                );
                Ok(
                    (
                        ControllerModel {
                            planner,
                            records: r2,
                            pending: p2,
                            next_request_id: next,
                            ..m
                        },
                        TickModel {
                            requests: q1 + q2,
                            events: events + e1 + e2,
                            request_id_exhausted: false,
                            pressure: pressure_of(r2),
                        },
                    ),
                )
            },
        }
    }
}

/// The event an accepted provider report produces first.
pub open spec fn provider_event(e: ProviderEvent, kind: WorldStreamingEventKind) -> WorldStreamingEvent {
    WorldStreamingEvent { chunk_id: e.chunk_id, request_id: Some(e.request_id), kind }
}

/// What a provider report does to the chunk's record: the new record,
/// whether the request is finished, and the events; `None` when the report
/// does not fit the record's operation and availability.
pub open spec fn provider_step(r: RecordModel, e: ProviderEvent) -> Option<(RecordModel, bool, Seq<WorldStreamingEvent>)> {
    match (r.operation, e.kind, r.availability) {
        (ChunkOperation::LoadRequested(q), ProviderEventKind::Started, ChunkAvailability::Absent) => Some(
            (
                RecordModel { operation: ChunkOperation::Loading(q), ..r },
                false,
                seq![provider_event(e, WorldStreamingEventKind::ProviderStarted)],
            ),
        ),
        (ChunkOperation::UnloadRequested(q), ProviderEventKind::Started, ChunkAvailability::Resident) => Some(
            (
                RecordModel { operation: ChunkOperation::Unloading(q), ..r },
                false,
                seq![provider_event(e, WorldStreamingEventKind::ProviderStarted)],
            ),
        ),
        (ChunkOperation::LoadRequested(_), ProviderEventKind::Completed, ChunkAvailability::Absent)
        | (ChunkOperation::Loading(_), ProviderEventKind::Completed, ChunkAvailability::Absent) => {
            let r1 = RecordModel {
                availability: ChunkAvailability::Resident,
                operation: ChunkOperation::Idle,
                blocking_failure: None,
                ..r
            };
            Some(
                (
                    reconcile(r1).0,
                    true,
                    seq![
                        provider_event(e, WorldStreamingEventKind::ProviderCompleted),
                        provider_event(e, WorldStreamingEventKind::Resident),
                    ] + reconcile(r1).1,
                ),
            )
        },
        (ChunkOperation::LoadRequested(_), ProviderEventKind::Failed, ChunkAvailability::Absent)
        | (ChunkOperation::Loading(_), ProviderEventKind::Failed, ChunkAvailability::Absent) => {
            let r1 = RecordModel {
                operation: ChunkOperation::Idle,
                blocking_failure: if r.desired {
                    Some(StreamRequestKind::Load)
                } else {
                    None
                },
                ..r
            };
            Some(
                (
                    reconcile(r1).0,
                    true,
                    seq![provider_event(e, WorldStreamingEventKind::ProviderFailed)] + reconcile(r1).1,
                ),
            )
        },
        (ChunkOperation::UnloadRequested(_), ProviderEventKind::Completed, ChunkAvailability::Resident)
        | (ChunkOperation::Unloading(_), ProviderEventKind::Completed, ChunkAvailability::Resident) => {
            let r1 = RecordModel {
                availability: ChunkAvailability::Absent,
                operation: ChunkOperation::Idle,
                blocking_failure: None,
                ..r
            };
            Some(
                (
                    reconcile(r1).0,
                    true,
                    seq![
                        provider_event(e, WorldStreamingEventKind::ProviderCompleted),
                        provider_event(e, WorldStreamingEventKind::Unloaded),
                    ] + reconcile(r1).1,
                ),
            )
        },
        (ChunkOperation::UnloadRequested(_), ProviderEventKind::Failed, ChunkAvailability::Resident)
        | (ChunkOperation::Unloading(_), ProviderEventKind::Failed, ChunkAvailability::Resident) => {
            let r1 = RecordModel {
                operation: ChunkOperation::Idle,
                blocking_failure: if !r.desired {
                    Some(StreamRequestKind::Unload)
                } else {
                    None
                },
                ..r
            };
            Some(
                (
                    reconcile(r1).0,
                    true,
                    seq![provider_event(e, WorldStreamingEventKind::ProviderFailed)] + reconcile(r1).1,
                ),
            )
        },
        _ => None,
    }
}

/// What a provider report does to the controller, or why it is rejected.
pub open spec fn accept_spec(m: ControllerModel, e: ProviderEvent) -> Result<
    (ControllerModel, Seq<WorldStreamingEvent>),
    WorldStreamingError,
> {
    if !m.pending.contains_key(e.request_id) {
        Err(WorldStreamingError::UnknownRequest { request_id: e.request_id })
    } else if m.pending[e.request_id] != e.chunk_id {
        Err(
            WorldStreamingError::RequestChunkMismatch {
                request_id: e.request_id,
                expected: m.pending[e.request_id],
                actual: e.chunk_id,
            },
        )
    } else if !m.records.contains_key(e.chunk_id) {
        Err(WorldStreamingError::UnknownRequest { request_id: e.request_id })
    } else {
        let r = m.records[e.chunk_id];
        let invalid = WorldStreamingError::InvalidProviderEvent {
            request_id: e.request_id,
            event_kind: e.kind,
            availability: r.availability,
            operation: r.operation,
        };
        if spec_active_request(r.operation) is None || spec_active_request(r.operation)->0.request_id
            != e.request_id {
            Err(invalid)
        } else if provider_step(r, e) is None {
            Err(invalid)
        } else {
            let (r2, finished, events) = provider_step(r, e)->0;
            Ok(
                (
                    ControllerModel {
                        records: prune(m.records.insert(e.chunk_id, r2)),
                        pending: if finished {
                            m.pending.remove(e.request_id)
                        } else {
                            m.pending
                        },
                        ..m
                    },
                    events,
                ),
            )
        }
    }
}

/// What an explicit retry of a blocking failure does, or why it is rejected.
pub open spec fn retry_spec(m: ControllerModel, chunk_id: ChunkId) -> Result<
    (ControllerModel, WorldStreamingEvent),
    WorldStreamingError,
> {
    if !m.records.contains_key(chunk_id) {
        Err(WorldStreamingError::UnknownChunk { chunk_id })
    } else {
        let r = m.records[chunk_id];
        let load = r.desired && r.availability == ChunkAvailability::Absent && r.operation
            == ChunkOperation::Idle && r.blocking_failure == Some(StreamRequestKind::Load);
        let unload = !r.desired && r.availability == ChunkAvailability::Resident && r.operation
            == ChunkOperation::Idle && r.blocking_failure == Some(StreamRequestKind::Unload);
        if !load && !unload {
            Err(
                WorldStreamingError::InvalidBlockingFailureRetry {
                    chunk_id,
                    desired: r.desired,
                    availability: r.availability,
                    operation: r.operation,
                    blocking_failure: r.blocking_failure,
                },
            )
        } else {
            let kind = r.blocking_failure->0;
            Ok(
                (
                    ControllerModel {
                        records: m.records.insert(
                            chunk_id,
                            RecordModel {
                                blocking_failure: None,
                                operation: queued_operation(kind),
                                ..r
                            },
                        ),
                        ..m
                    },
                    WorldStreamingEvent { chunk_id, request_id: None, kind: queued_event(kind) },
                ),
            )
        }
    }
}

} // verus!
