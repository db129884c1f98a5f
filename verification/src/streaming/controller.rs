//! The streaming controller.

use vstd::prelude::*;
use crate::ids::{ChunkId, WorldId};
use crate::order::{StrictKey, arrange, chunk_id_lt, chunk_id_less, chunk_id_eq,
    lemma_arrange_of_sorted, strictly_sorted, sorted_insert};
use crate::grid::GridPartitionConfig;
use crate::demand::identity::DemandRank;
use crate::demand::limits::DemandLimits;
use crate::demand::model::{PlannerModel, plan, entered_chunks, updated_chunks, exited_chunks};
use crate::demand::planner::SpatialDemandPlanner;
use crate::demand::snapshot::{DemandedChunk, EffectiveDemandSnapshot};
use crate::demand::source::DemandSourceChange;
use crate::streaming::error::WorldStreamingError;
use crate::streaming::events::{ProviderEvent, ProviderEventKind, WorldStreamingEvent,
    WorldStreamingEventKind};
use crate::streaming::lifecycle::{ChunkAvailability, ChunkOperation, spec_active_request};
use crate::streaming::model::{ControllerModel, RecordModel, StreamingBudgets, QueueKey,
    StreamingCapacity, StreamingPressureDiagnostics, in_flight_as, in_flight_count, queued_count,
    allowance, pressure_of, tick_loads, tick_unloads,
    TickModel, fresh_record, reconcile, mark_desired, mark_undesired, refresh_rank, enter_all,
    update_all, exit_all, neutral, prune, apply_demand, has_room, untracked, track_demanded, prepared, queued_keys, queued_chunks, reserve,
    issue, tick_spec, accept_spec, retry_spec, provider_step, queued_operation, queued_event,
    required_kind, target_satisfied, requested_operation, requested_event};
use crate::streaming::record::{ChunkRuntimeRecord, records_sorted, has_record, record_map,
    lemma_record_at, lemma_record_update, lemma_record_insert, lemma_record_push,
    pending_sorted, has_pending, pending_map, lemma_pending_at, lemma_pending_remove,
    lemma_pending_push, lemma_record_ids, lemma_record_count};
use crate::streaming::request::{StreamRequest, StreamRequestId, StreamRequestKind};
use crate::streaming::availability::{availability_of, same_availability, lemma_same_availability_trans, lemma_enter_all_availability,
    lemma_demand_changes_keep_availability};
use crate::streaming::shape::{all_shaped, record_shape, lemma_demand_changes_keep_shape, lemma_enter_all_shape,
    lemma_provider_reports_keep_shape, lemma_retry_keeps_shape};
use crate::streaming::demanded::{desired_in, demand_matches, lemma_demand_changes_match_demand, lemma_tracking_matches_demand,
    lemma_update_all_keys, lemma_exit_all_keys,
    lemma_provider_reports_keep_demand, lemma_retry_keeps_demand};
use crate::streaming::invariants::{active_from, lemma_demand_changes_start_nothing, active_kept, lemma_active_kept_trans, lemma_enter_all_active,
    lemma_update_all_active, lemma_exit_all_active, lemma_prune_active, lemma_issue_facts,
    lemma_reconcile_active, lemma_issue_requests, lemma_enter_all_from};

verus! {

impl Default for StreamingBudgets {
    /// Four loads and four unloads per tick.
    fn default() -> (r: Self)
        ensures
            r == (StreamingBudgets { max_load_requests_per_tick: 4, max_unload_requests_per_tick: 4 }),
    {
        StreamingBudgets { max_load_requests_per_tick: 4, max_unload_requests_per_tick: 4 }
    }
}

/// How to build a controller.
#[derive(Debug, Clone, PartialEq)]
pub struct WorldStreamingConfig {
    pub world_id: WorldId,
    pub partition: GridPartitionConfig,
    pub demand_limits: DemandLimits,
    pub budgets: StreamingBudgets,
    pub capacity: StreamingCapacity,
}

impl WorldStreamingConfig {
    /// A configuration with the default budgets and a capacity that limits
    /// nothing.
    pub fn new(world_id: WorldId, partition: GridPartitionConfig, demand_limits: DemandLimits) -> (r: Self)
        ensures
            r.world_id == world_id,
            r.partition == partition,
            r.demand_limits == demand_limits,
            r.budgets == (StreamingBudgets { max_load_requests_per_tick: 4, max_unload_requests_per_tick: 4 }),
            r.capacity == (StreamingCapacity {
                max_tracked_records: usize::MAX,
                max_in_flight_loads: usize::MAX,
                max_in_flight_unloads: usize::MAX,
            }),
    {
        WorldStreamingConfig {
            world_id,
            partition,
            demand_limits,
            budgets: StreamingBudgets::default(),
            capacity: StreamingCapacity::unlimited(),
        }
    }
}

/// The input of one tick: a demand transaction, possibly empty.
#[derive(Debug, Clone, Default)]
pub struct StreamingTick {
    demand_changes: Vec<DemandSourceChange>,
}

impl StreamingTick {
    /// The tick's demand changes.
    pub closed spec fn spec_changes(&self) -> Seq<DemandSourceChange> {
        self.demand_changes@
    }

    /// A tick that only issues queued requests.
    pub fn without_demand_changes() -> (r: Self)
        ensures
            r.spec_changes() == Seq::<DemandSourceChange>::empty(),
    {
        StreamingTick { demand_changes: Vec::new() }
    }

    /// A tick that applies a demand transaction first.
    pub fn from_demand_changes(changes: Vec<DemandSourceChange>) -> (r: Self)
        ensures
            r.spec_changes() == changes@,
    {
        StreamingTick { demand_changes: changes }
    }
}

/// What a tick produced.
#[derive(Debug, Clone, PartialEq, Eq, Default)]
pub struct StreamingTickOutput {
    pub requests: Vec<StreamRequest>,
    pub events: Vec<WorldStreamingEvent>,
    pub request_id_exhausted: bool,
    pub pressure: StreamingPressureDiagnostics,
}

impl StrictKey for StreamRequestId {
    open spec fn key_less(self, other: Self) -> bool {
        self@ < other@
    }

    proof fn lemma_strict_total() {
        assert forall|a: Self, b: Self| a != b implies #[trigger] a.key_less(b) || #[trigger] b.key_less(a) by {
            StreamRequestId::lemma_view_injective(a, b);
        }
    }

    fn less(&self, other: &Self) -> (r: bool) {
        self.get() < other.get()
    }
}

/// The records in chunk order.
pub open spec fn record_list(m: Map<ChunkId, RecordModel>) -> Seq<RecordModel> {
    let ids = arrange(m.dom());
    Seq::new(ids.len(), |i: int| m[ids[i]])
}

/// The pending requests in id order.
pub open spec fn pending_list(m: ControllerModel) -> Seq<StreamRequest> {
    let ids = arrange(m.pending.dom());
    Seq::new(
        ids.len(),
        |i: int| spec_active_request(m.records[m.pending[ids[i]]].operation)->0,
    )
}

/// Turns effective demand into budgeted provider requests and follows each
/// chunk through its load and unload lifecycle.
pub struct WorldStreamingController {
    world_id: WorldId,
    planner: SpatialDemandPlanner,
    budgets: StreamingBudgets,
    capacity: StreamingCapacity,
    records: Vec<ChunkRuntimeRecord>,
    pending: Vec<(StreamRequestId, ChunkId)>,
    next_request_id: Option<StreamRequestId>,
}

impl View for WorldStreamingController {
    type V = ControllerModel;

    closed spec fn view(&self) -> ControllerModel {
        ControllerModel {
            world_id: self.world_id,
            planner: self.planner@,
            budgets: self.budgets,
            capacity: self.capacity,
            records: record_map(self.records@),
            pending: pending_map(self.pending@),
            next_request_id: self.next_request_id,
        }
    }
}

/// Every pending request is the active request of its chunk's record, and
/// every pending id is below the next id.
pub open spec fn pending_consistent(m: ControllerModel) -> bool {
    &&& forall|id: StreamRequestId| #[trigger] m.pending.contains_key(id) ==> {
        &&& m.records.contains_key(m.pending[id])
        &&& spec_active_request(m.records[m.pending[id]].operation) is Some
        &&& spec_active_request(m.records[m.pending[id]].operation)->0.request_id == id
        &&& spec_active_request(m.records[m.pending[id]].operation)->0.chunk_id == m.pending[id]
    }
    &&& forall|id: StreamRequestId| #[trigger] m.pending.contains_key(id) ==> (m.next_request_id matches Some(n) ==> id@ < n@)
    &&& forall|id: ChunkId| #[trigger] m.records.contains_key(id) ==> m.records[id].chunk_id == id
    &&& m.next_request_id matches Some(n) ==> n@ > 0
}

/// Every in-flight request of a record is pending, for that record's chunk.
pub open spec fn active_pending(m: ControllerModel) -> bool {
    forall|id: ChunkId| #[trigger] m.records.contains_key(id) && spec_active_request(m.records[id].operation) is Some ==> {
        let q = spec_active_request(m.records[id].operation)->0;
        m.pending.contains_key(q.request_id) && m.pending[q.request_id] == id
    }
}

/// Issuing the queued loads and then the queued unloads with consecutive
/// fresh ids keeps the pending requests consistent.
proof fn lemma_issue_consistent(
    m: ControllerModel,
    loads: Seq<ChunkId>,
    unloads: Seq<ChunkId>,
    ids: Seq<StreamRequestId>,
    next: Option<StreamRequestId>,
)
    requires
        pending_consistent(m),
        forall|k: int| 0 <= k < loads.len() ==> m.records.contains_key(#[trigger] loads[k])
            && m.records[loads[k]].operation == queued_operation(StreamRequestKind::Load),
        forall|k: int| 0 <= k < unloads.len() ==> m.records.contains_key(#[trigger] unloads[k])
            && m.records[unloads[k]].operation == queued_operation(StreamRequestKind::Unload),
        forall|a: int, b: int| 0 <= a < b < loads.len() ==> #[trigger] loads[a] != #[trigger] loads[b],
        forall|a: int, b: int| 0 <= a < b < unloads.len() ==> #[trigger] unloads[a] != #[trigger] unloads[b],
        reserve(m.next_request_id, (loads.len() + unloads.len()) as int) == Some((ids, next)),
    ensures
        ({
            let (r1, p1, q1, e1) = issue(m.records, m.pending, StreamRequestKind::Load, loads, ids);
            let (r2, p2, q2, e2) = issue(r1, p1, StreamRequestKind::Unload, unloads, ids.skip(loads.len() as int));
            &&& pending_consistent(ControllerModel { records: r2, pending: p2, next_request_id: next, ..m })
            &&& active_pending(m) ==> active_pending(ControllerModel { records: r2, pending: p2, next_request_id: next, ..m })
        }),
{
    let n = loads.len() + unloads.len();
    let first = if n > 0 { m.next_request_id->0@ as int } else { 0 };
    if n > 0 && next is Some {
        StreamRequestId::lemma_spec_from((first + n) as u64);
        assert(next->0@ == first + n);
    }
    assert forall|k: int| 0 <= k < ids.len() implies (#[trigger] ids[k])@ == first + k by {
        StreamRequestId::lemma_spec_from((first + k) as u64);
    }
    assert forall|a: int, b: int| 0 <= a < b < ids.len() implies #[trigger] ids[a] != #[trigger] ids[b] by {
        assert(ids[a]@ < ids[b]@);
    }
    lemma_issue_facts(m.records, m.pending, StreamRequestKind::Load, loads, ids);
    let (r1, p1, q1, e1) = issue(m.records, m.pending, StreamRequestKind::Load, loads, ids);
    let sub = ids.skip(loads.len() as int);
    assert forall|k: int| 0 <= k < unloads.len() implies r1.contains_key(#[trigger] unloads[k])
        && r1[unloads[k]].operation == queued_operation(StreamRequestKind::Unload) by {
        if loads.contains(unloads[k]) {
            let j = choose|j: int| 0 <= j < loads.len() && loads[j] == unloads[k];
        }
    }
    assert forall|a: int, b: int| 0 <= a < b < sub.len() implies #[trigger] sub[a] != #[trigger] sub[b] by {
        assert(sub[a] == ids[loads.len() + a] && sub[b] == ids[loads.len() + b]);
    }
    lemma_issue_facts(r1, p1, StreamRequestKind::Unload, unloads, sub);
    let (r2, p2, q2, e2) = issue(r1, p1, StreamRequestKind::Unload, unloads, sub);
    lemma_active_kept_trans(m.records, r1, r2);
    assert forall|id: StreamRequestId| #[trigger] p2.contains_key(id) implies {
        &&& r2.contains_key(p2[id])
        &&& spec_active_request(r2[p2[id]].operation) is Some
        &&& spec_active_request(r2[p2[id]].operation)->0.request_id == id
        &&& spec_active_request(r2[p2[id]].operation)->0.chunk_id == p2[id]
        &&& (next matches Some(nx) ==> id@ < nx@)
    } by {
        if exists|k: int| 0 <= k < unloads.len() && sub[k] == id {
            let k = choose|k: int| 0 <= k < unloads.len() && sub[k] == id;
            assert(p2[sub[k]] == unloads[k]);
            assert(sub[k] == ids[loads.len() + k]);
            assert(ids[loads.len() + k]@ == first + loads.len() + k);
        } else {
            assert(p1.contains_key(id));
            assert(p2[id] == p1[id]);
            if exists|k: int| 0 <= k < loads.len() && ids[k] == id {
                let k = choose|k: int| 0 <= k < loads.len() && ids[k] == id;
                assert(p1[ids[k]] == loads[k]);
                assert(ids[k]@ == first + k);
                assert(!unloads.contains(loads[k])) by {
                    if unloads.contains(loads[k]) {
                        let j = choose|j: int| 0 <= j < unloads.len() && unloads[j] == loads[k];
                    }
                }
            } else {
                assert(m.pending.contains_key(id));
                assert(p1[id] == m.pending[id]);
                let c = m.pending[id];
                assert(m.records.contains_key(c) && spec_active_request(m.records[c].operation) is Some);
                if n > 0 {
                    assert(id@ < first);
                }
            }
        }
    }
    if active_pending(m) {
        assert forall|id: ChunkId| #[trigger] r2.contains_key(id) && spec_active_request(r2[id].operation) is Some implies {
            let q = spec_active_request(r2[id].operation)->0;
            p2.contains_key(q.request_id) && p2[q.request_id] == id
        } by {
            if unloads.contains(id) {
                let k = choose|k: int| 0 <= k < unloads.len() && unloads[k] == id;
                assert(p2[sub[k]] == unloads[k]);
            } else if loads.contains(id) {
                let k = choose|k: int| 0 <= k < loads.len() && loads[k] == id;
                assert(p1[ids[k]] == loads[k]);
                assert(r2[id] == r1[id]);
                assert forall|j: int| 0 <= j < unloads.len() implies sub[j] != ids[k] by {
                    assert(sub[j] == ids[loads.len() + j]);
                }
            } else {
                assert(r1[id] == m.records[id]);
                assert(r2[id] == m.records[id]);
                let q = spec_active_request(m.records[id].operation)->0;
                assert(m.pending.contains_key(q.request_id));
                if n > 0 {
                    assert(q.request_id@ < first);
                    assert forall|j: int| 0 <= j < loads.len() implies ids[j] != q.request_id by {
                        assert(ids[j]@ == first + j);
                    }
                    assert forall|j: int| 0 <= j < unloads.len() implies sub[j] != q.request_id by {
                        assert(sub[j] == ids[loads.len() + j]);
                        assert(ids[loads.len() + j]@ == first + loads.len() + j);
                    }
                }
            }
        }
    }
    assert forall|id: ChunkId| #[trigger] r2.contains_key(id) implies r2[id].chunk_id == id by {
        if unloads.contains(id) {
            let k = choose|k: int| 0 <= k < unloads.len() && unloads[k] == id;
        } else if loads.contains(id) {
            let k = choose|k: int| 0 <= k < loads.len() && loads[k] == id;
            assert(r1[loads[k]].chunk_id == m.records[loads[k]].chunk_id);
        }
    }
}

/// Issuing requests for queued chunks of records that hold no neutral
/// one leaves no neutral record, and changes no chunk's availability.
proof fn lemma_issue_no_neutral(
    recs: Map<ChunkId, RecordModel>,
    pending: Map<StreamRequestId, ChunkId>,
    loads: Seq<ChunkId>,
    unloads: Seq<ChunkId>,
    ids: Seq<StreamRequestId>,
)
    requires
        no_neutral(recs),
        loads.len() + unloads.len() <= ids.len(),
        forall|k: int| 0 <= k < loads.len() ==> recs.contains_key(#[trigger] loads[k])
            && recs[loads[k]].operation == queued_operation(StreamRequestKind::Load),
        forall|k: int| 0 <= k < unloads.len() ==> recs.contains_key(#[trigger] unloads[k])
            && recs[unloads[k]].operation == queued_operation(StreamRequestKind::Unload),
        forall|a: int, b: int| 0 <= a < b < loads.len() ==> #[trigger] loads[a] != #[trigger] loads[b],
        forall|a: int, b: int| 0 <= a < b < unloads.len() ==> #[trigger] unloads[a] != #[trigger] unloads[b],
        forall|a: int, b: int| 0 <= a < b < ids.len() ==> #[trigger] ids[a] != #[trigger] ids[b],
    ensures
        ({
            let (r1, p1, q1, e1) = issue(recs, pending, StreamRequestKind::Load, loads, ids);
            let (r2, p2, q2, e2) = issue(r1, p1, StreamRequestKind::Unload, unloads, ids.skip(loads.len() as int));
            &&& no_neutral(r2)
            &&& same_availability(recs, r2)
            &&& all_shaped(recs) ==> all_shaped(r2)
            &&& forall|id: ChunkId| #[trigger] desired_in(r2, id) == desired_in(recs, id)
            &&& r2.dom() == recs.dom()
        }),
{
    lemma_issue_facts(recs, pending, StreamRequestKind::Load, loads, ids);
    let (r1, p1, q1, e1) = issue(recs, pending, StreamRequestKind::Load, loads, ids);
    let sub = ids.skip(loads.len() as int);
    assert forall|k: int| 0 <= k < unloads.len() implies r1.contains_key(#[trigger] unloads[k])
        && r1[unloads[k]].operation == queued_operation(StreamRequestKind::Unload) by {
        if loads.contains(unloads[k]) {
            let j = choose|j: int| 0 <= j < loads.len() && loads[j] == unloads[k];
        }
    }
    assert forall|id: ChunkId| #[trigger] r1.contains_key(id) implies !neutral(r1[id]) by {
        if loads.contains(id) {
            let k = choose|k: int| 0 <= k < loads.len() && loads[k] == id;
        }
    }
    assert forall|a: int, b: int| 0 <= a < b < sub.len() implies #[trigger] sub[a] != #[trigger] sub[b] by {
        assert(sub[a] == ids[loads.len() + a] && sub[b] == ids[loads.len() + b]);
    }
    lemma_issue_facts(r1, p1, StreamRequestKind::Unload, unloads, sub);
    let (r2, p2, q2, e2) = issue(r1, p1, StreamRequestKind::Unload, unloads, sub);
    assert forall|id: ChunkId| #[trigger] r2.contains_key(id) implies !neutral(r2[id]) by {
        if unloads.contains(id) {
            let k = choose|k: int| 0 <= k < unloads.len() && unloads[k] == id;
        }
    }
    assert forall|id: ChunkId| #[trigger] desired_in(r2, id) == desired_in(recs, id) by {
        if unloads.contains(id) {
            let k = choose|k: int| 0 <= k < unloads.len() && unloads[k] == id;
        }
        if loads.contains(id) {
            let k = choose|k: int| 0 <= k < loads.len() && loads[k] == id;
        }
    }
    if all_shaped(recs) {
        assert forall|id: ChunkId| #[trigger] r2.contains_key(id) implies record_shape(r2[id]) by {
            assert(recs.contains_key(id));
            if unloads.contains(id) {
                let k = choose|k: int| 0 <= k < unloads.len() && unloads[k] == id;
                assert(r1.contains_key(id));
                if loads.contains(id) {
                    let j = choose|j: int| 0 <= j < loads.len() && loads[j] == id;
                }
            } else if loads.contains(id) {
                let k = choose|k: int| 0 <= k < loads.len() && loads[k] == id;
            }
        }
    }
    assert forall|id: ChunkId| #[trigger] availability_of(recs, id) == availability_of(r2, id) by {
        if unloads.contains(id) {
            let k = choose|k: int| 0 <= k < unloads.len() && unloads[k] == id;
        }
        if loads.contains(id) {
            let k = choose|k: int| 0 <= k < loads.len() && loads[k] == id;
        }
    }
}

/// An accepted provider report keeps the pending requests consistent.
proof fn lemma_accept_consistent(m: ControllerModel, e: ProviderEvent)
    requires
        pending_consistent(m),
        accept_spec(m, e) is Ok,
    ensures
        pending_consistent(accept_spec(m, e)->Ok_0.0),
{
    let c = e.chunk_id;
    let r = m.records[c];
    let (r2, fin, evs) = provider_step(r, e)->0;
    let m2 = accept_spec(m, e)->Ok_0.0;
    let ins = m.records.insert(c, r2);
    assert(r2.chunk_id == r.chunk_id);
    assert(!fin ==> spec_active_request(r2.operation) == spec_active_request(r.operation));
    assert forall|pid: StreamRequestId| #[trigger] m2.pending.contains_key(pid) implies {
        &&& m2.records.contains_key(m2.pending[pid])
        &&& spec_active_request(m2.records[m2.pending[pid]].operation) is Some
        &&& spec_active_request(m2.records[m2.pending[pid]].operation)->0.request_id == pid
        &&& spec_active_request(m2.records[m2.pending[pid]].operation)->0.chunk_id == m2.pending[pid]
        &&& (m2.next_request_id matches Some(n) ==> pid@ < n@)
    } by {
        assert(m.pending.contains_key(pid));
        assert(m2.pending[pid] == m.pending[pid]);
        let cc = m.pending[pid];
        assert(m.records.contains_key(cc) && spec_active_request(m.records[cc].operation) is Some);
        if cc == c {
            assert(pid == e.request_id);
            assert(!fin);
        }
        assert(ins.contains_key(cc) && !neutral(ins[cc]));
    }
}

/// Records that changed only by keeping in-flight requests keep the pending
/// requests consistent.
proof fn lemma_consistent_after_kept(m: ControllerModel, recs: Map<ChunkId, RecordModel>)
    requires
        pending_consistent(m),
        active_kept(m.records, recs),
        forall|id: ChunkId| #[trigger] recs.contains_key(id) ==> recs[id].chunk_id == id,
    ensures
        pending_consistent(ControllerModel { records: recs, ..m }),
{
    assert forall|id: StreamRequestId| #[trigger] m.pending.contains_key(id) implies recs.contains_key(m.pending[id])
        && recs[m.pending[id]].operation == m.records[m.pending[id]].operation by {
        let c = m.pending[id];
        assert(m.records.contains_key(c) && spec_active_request(m.records[c].operation) is Some);
    }
}

/// A record map holds each record under its own chunk.
proof fn lemma_record_map_keys(s: Seq<ChunkRuntimeRecord>)
    ensures
        forall|id: ChunkId| #[trigger] record_map(s).contains_key(id) ==> record_map(s)[id].chunk_id == id,
{
    assert forall|id: ChunkId| #[trigger] record_map(s).contains_key(id) implies record_map(s)[id].chunk_id == id by {
        let k = choose|k: int| 0 <= k < s.len() && (#[trigger] s[k])@.chunk_id == id;
    }
}

/// The position of a chunk's record, or where it would go.
fn find_record(records: &Vec<ChunkRuntimeRecord>, chunk_id: ChunkId) -> (r: Result<usize, usize>)
    requires
        records_sorted(records@),
    ensures
        r matches Ok(i) ==> i < records@.len() && records@[i as int]@.chunk_id == chunk_id
            && record_map(records@).contains_key(chunk_id)
            && record_map(records@)[chunk_id] == records@[i as int]@,
        r matches Err(pos) ==> pos <= records@.len() && !record_map(records@).contains_key(chunk_id)
            && (forall|k: int| 0 <= k < pos ==> chunk_id_lt((#[trigger] records@[k])@.chunk_id, chunk_id))
            && (forall|k: int| pos <= k < records@.len() ==> chunk_id_lt(chunk_id, (#[trigger] records@[k])@.chunk_id)),
{
    let mut i: usize = 0;
    while i < records.len() && chunk_id_less(&records[i].chunk_id, &chunk_id)
        invariant
            i <= records@.len(),
            records_sorted(records@),
            forall|k: int| 0 <= k < i ==> chunk_id_lt((#[trigger] records@[k])@.chunk_id, chunk_id),
        decreases records@.len() - i,
    {
        proof {
            ChunkRuntimeRecord::lemma_view_chunk(records@[i as int]);
        }
        i = i + 1;
    }
    proof {
        ChunkId::lemma_strict_total();
    }
    if i < records.len() && chunk_id_eq(&records[i].chunk_id, &chunk_id) {
        proof {
            ChunkRuntimeRecord::lemma_view_chunk(records@[i as int]);
            lemma_record_at(records@, i as int);
        }
        return Ok(i);
    }
    proof {
        let s = records@;
        if i < s.len() {
            ChunkRuntimeRecord::lemma_view_chunk(s[i as int]);
            assert(chunk_id_lt(chunk_id, s[i as int]@.chunk_id));
        }
        assert forall|k: int| i <= k < s.len() implies chunk_id_lt(chunk_id, (#[trigger] s[k])@.chunk_id) by {
            if k > i {
                assert(chunk_id_lt(s[i as int]@.chunk_id, s[k]@.chunk_id));
            }
        }
        if has_record(s, chunk_id) {
            let k = choose|k: int| 0 <= k < s.len() && (#[trigger] s[k])@.chunk_id == chunk_id;
            if k < i {
                assert(chunk_id_lt(s[k]@.chunk_id, chunk_id));
            } else {
                assert(chunk_id_lt(chunk_id, s[k]@.chunk_id));
            }
        }
    }
    Err(i)
}

/// The queued operation of a request kind.
fn queued_operation_exec(kind: StreamRequestKind) -> (r: ChunkOperation)
    ensures
        r == queued_operation(kind),
{
    match kind {
        StreamRequestKind::Load => ChunkOperation::LoadQueued,
        StreamRequestKind::Unload => ChunkOperation::UnloadQueued,
    }
}

/// The event kind that reports a queued operation.
fn queued_event_exec(kind: StreamRequestKind) -> (r: WorldStreamingEventKind)
    ensures
        r == queued_event(kind),
{
    match kind {
        StreamRequestKind::Load => WorldStreamingEventKind::LoadQueued,
        StreamRequestKind::Unload => WorldStreamingEventKind::UnloadQueued,
    }
}

/// Queues the operation an idle record needs, as [`reconcile`] says.
fn reconcile_exec(r: ChunkRuntimeRecord, events: &mut Vec<WorldStreamingEvent>) -> (out: ChunkRuntimeRecord)
    ensures
        out@ == reconcile(r@).0,
        final(events)@ == old(events)@ + reconcile(r@).1,
        out.chunk_id == r.chunk_id,
{
    proof {
        ChunkRuntimeRecord::lemma_view_fields(r);
    }
    let mut out = r;
    match r.operation {
        ChunkOperation::Idle => {},
        _ => {
            proof {
                assert(old(events)@ + Seq::<WorldStreamingEvent>::empty() =~= old(events)@);
            }
            return out;
        },
    }
    let resident = match r.availability {
        ChunkAvailability::Resident => true,
        ChunkAvailability::Absent => false,
    };
    if resident == r.desired {
        out.blocking_failure = None;
        proof {
            ChunkRuntimeRecord::lemma_view_fields(out);
            assert(old(events)@ + Seq::<WorldStreamingEvent>::empty() =~= old(events)@);
        }
        return out;
    }
    let kind = if r.desired {
        StreamRequestKind::Load
    } else {
        StreamRequestKind::Unload
    };
    let blocked = match (r.blocking_failure, kind) {
        (Some(StreamRequestKind::Load), StreamRequestKind::Load) => true,
        (Some(StreamRequestKind::Unload), StreamRequestKind::Unload) => true,
        _ => false,
    };
    if blocked {
        proof {
            assert(old(events)@ + Seq::<WorldStreamingEvent>::empty() =~= old(events)@);
        }
        return out;
    }
    out.blocking_failure = None;
    out.operation = queued_operation_exec(kind);
    events.push(WorldStreamingEvent::new(r.chunk_id, queued_event_exec(kind)));
    proof {
        ChunkRuntimeRecord::lemma_view_fields(out);
        assert(final(events)@ =~= old(events)@ + reconcile(r@).1) by {
            assert(reconcile(r@).1 =~= seq![WorldStreamingEvent { chunk_id: r.chunk_id, request_id: None, kind: queued_event(kind) }]);
        }
    }
    out
}

/// Marks a chunk demanded, as [`mark_desired`] says.
fn mark_desired_in(
    records: &mut Vec<ChunkRuntimeRecord>,
    chunk_id: ChunkId,
    rank: DemandRank,
    events: &mut Vec<WorldStreamingEvent>,
)
    requires
        records_sorted(old(records)@),
    ensures
        records_sorted(final(records)@),
        record_map(final(records)@) == mark_desired(record_map(old(records)@), chunk_id, rank).0,
        final(events)@ == old(events)@ + mark_desired(record_map(old(records)@), chunk_id, rank).1,
{
    let ghost m0 = record_map(records@);
    match find_record(records, chunk_id) {
        Ok(i) => {
            let mut r = records[i];
            proof {
                ChunkRuntimeRecord::lemma_view_fields(r);
            }
            r.desired = true;
            r.rank = rank;
            match r.operation {
                ChunkOperation::UnloadQueued => {
                    r.operation = ChunkOperation::Idle;
                },
                _ => {},
            }
            proof {
                ChunkRuntimeRecord::lemma_view_fields(r);
            }
            let r2 = reconcile_exec(r, events);
            proof {
                ChunkRuntimeRecord::lemma_view_fields(r2);
                lemma_record_update(records@, i as int, r2);
            }
            records.set(i, r2);
        },
        Err(pos) => {
            let r = ChunkRuntimeRecord::from_model(
                chunk_id,
                true,
                rank,
                ChunkAvailability::Absent,
                ChunkOperation::Idle,
                None,
            );
            let r2 = reconcile_exec(r, events);
            proof {
                ChunkRuntimeRecord::lemma_view_fields(r2);
                lemma_record_insert(records@, pos as int, r2);
            }
            records.insert(pos, r2);
        },
    }
}

/// Marks a known chunk not demanded, as [`mark_undesired`] says.
fn mark_undesired_in(
    records: &mut Vec<ChunkRuntimeRecord>,
    chunk_id: ChunkId,
    rank: DemandRank,
    events: &mut Vec<WorldStreamingEvent>,
)
    requires
        records_sorted(old(records)@),
    ensures
        records_sorted(final(records)@),
        record_map(final(records)@) == mark_undesired(record_map(old(records)@), chunk_id, rank).0,
        final(events)@ == old(events)@ + mark_undesired(record_map(old(records)@), chunk_id, rank).1,
{
    match find_record(records, chunk_id) {
        Ok(i) => {
            let mut r = records[i];
            proof {
                ChunkRuntimeRecord::lemma_view_fields(r);
            }
            r.desired = false;
            r.rank = rank;
            match r.operation {
                ChunkOperation::LoadQueued => {
                    r.operation = ChunkOperation::Idle;
                },
                _ => {},
            }
            proof {
                ChunkRuntimeRecord::lemma_view_fields(r);
            }
            let r2 = reconcile_exec(r, events);
            proof {
                ChunkRuntimeRecord::lemma_view_fields(r2);
                lemma_record_update(records@, i as int, r2);
            }
            records.set(i, r2);
        },
        Err(_) => {
            proof {
                assert(old(events)@ + Seq::<WorldStreamingEvent>::empty() =~= old(events)@);
            }
        },
    }
}

/// Gives a known chunk a new rank, as [`refresh_rank`] says.
fn refresh_rank_in(records: &mut Vec<ChunkRuntimeRecord>, chunk_id: ChunkId, rank: DemandRank)
    requires
        records_sorted(old(records)@),
    ensures
        records_sorted(final(records)@),
        record_map(final(records)@) == refresh_rank(record_map(old(records)@), chunk_id, rank),
{
    match find_record(records, chunk_id) {
        Ok(i) => {
            let mut r = records[i];
            proof {
                ChunkRuntimeRecord::lemma_view_fields(r);
            }
            r.rank = rank;
            proof {
                ChunkRuntimeRecord::lemma_view_fields(r);
                lemma_record_update(records@, i as int, r);
            }
            records.set(i, r);
        },
        Err(_) => {},
    }
}

/// Whether a record says nothing.
fn is_neutral(r: &ChunkRuntimeRecord) -> (b: bool)
    ensures
        b == neutral(r@),
{
    proof {
        ChunkRuntimeRecord::lemma_view_fields(*r);
    }
    !r.desired && match r.availability {
        ChunkAvailability::Absent => true,
        _ => false,
    } && match r.operation {
        ChunkOperation::Idle => true,
        _ => false,
    } && r.blocking_failure.is_none()
}

/// Drops neutral records.
fn prune_records(records: &mut Vec<ChunkRuntimeRecord>)
    requires
        records_sorted(old(records)@),
    ensures
        records_sorted(final(records)@),
        record_map(final(records)@) == prune(record_map(old(records)@)),
{
    let ghost s = records@;
    let mut out: Vec<ChunkRuntimeRecord> = Vec::new();
    let mut k: usize = 0;
    proof {
        assert(record_map(s.take(0)) =~= Map::<ChunkId, RecordModel>::empty());
        assert(record_map(out@) =~= Map::<ChunkId, RecordModel>::empty());
        assert(prune(Map::<ChunkId, RecordModel>::empty()) =~= Map::<ChunkId, RecordModel>::empty());
    }
    while k < records.len()
        invariant
            s == records@,
            records_sorted(s),
            k <= s.len(),
            records_sorted(out@),
            record_map(out@) == prune(record_map(s.take(k as int))),
            forall|a: int| 0 <= a < out@.len() ==> exists|b: int| 0 <= b < k && (#[trigger] out@[a]) == s[b],
        decreases s.len() - k,
    {
        let r = records[k];
        let ghost pre = s.take(k as int);
        proof {
            assert(s.take(k + 1) =~= pre.push(r));
            assert(records_sorted(pre)) by {
                assert forall|a: int, b: int| 0 <= a < b < pre.len() implies chunk_id_lt((#[trigger] pre[a])@.chunk_id, (#[trigger] pre[b])@.chunk_id) by {
                    assert(pre[a] == s[a] && pre[b] == s[b]);
                }
            }
            assert forall|a: int| 0 <= a < pre.len() implies chunk_id_lt((#[trigger] pre[a])@.chunk_id, r@.chunk_id) by {
                assert(pre[a] == s[a]);
            }
            lemma_record_push(pre, r);
        }
        if !is_neutral(&r) {
            proof {
                assert forall|a: int| 0 <= a < out@.len() implies chunk_id_lt((#[trigger] out@[a])@.chunk_id, r@.chunk_id) by {
                    let b = choose|b: int| 0 <= b < k && out@[a] == s[b];
                    assert(chunk_id_lt(s[b]@.chunk_id, s[k as int]@.chunk_id));
                }
                lemma_record_push(out@, r);
            }
            out.push(r);
            proof {
                assert(record_map(out@) =~= prune(record_map(s.take(k + 1))));
            }
        } else {
            proof {
                assert(record_map(out@) =~= prune(record_map(s.take(k + 1))));
            }
        }
        k = k + 1;
    }
    proof {
        assert(s.take(s.len() as int) =~= s);
    }
    *records = out;
}

/// Marks a chunk demanded when it has a record or fewer than `cap` records
/// are tracked, as one step of [`enter_all`] says.
fn enter_in(
    records: &mut Vec<ChunkRuntimeRecord>,
    chunk_id: ChunkId,
    rank: DemandRank,
    cap: usize,
    events: &mut Vec<WorldStreamingEvent>,
)
    requires
        records_sorted(old(records)@),
    ensures
        records_sorted(final(records)@),
        has_room(record_map(old(records)@), chunk_id, cap) ==> record_map(final(records)@) == mark_desired(
            record_map(old(records)@),
            chunk_id,
            rank,
        ).0 && final(events)@ == old(events)@ + mark_desired(record_map(old(records)@), chunk_id, rank).1,
        !has_room(record_map(old(records)@), chunk_id, cap) ==> final(records)@ == old(records)@ && final(events)@
            == old(events)@,
{
    proof {
        lemma_record_ids(records@);
    }
    let room = match find_record(records, chunk_id) {
        Ok(_) => true,
        Err(_) => records.len() < cap,
    };
    if room {
        mark_desired_in(records, chunk_id, rank, events);
    }
}

/// Gives demanded chunks without a record one, in rank order, while fewer
/// than `cap` records are tracked, as [`track_demanded`] says.
fn track_in(
    records: &mut Vec<ChunkRuntimeRecord>,
    chunks: &[DemandedChunk],
    cap: usize,
    events: &mut Vec<WorldStreamingEvent>,
)
    requires
        records_sorted(old(records)@),
        forall|a: int, b: int| 0 <= a < b < chunks@.len() ==> (#[trigger] chunks@[a]).chunk_id != (#[trigger] chunks@[b]).chunk_id,
    ensures
        records_sorted(final(records)@),
        record_map(final(records)@) == track_demanded(record_map(old(records)@), chunks@, cap).0,
        final(events)@ == old(events)@ + track_demanded(record_map(old(records)@), chunks@, cap).1,
{
    let ghost m0 = record_map(records@);
    let ghost ev0 = events@;
    let ghost p = |c: DemandedChunk| !m0.contains_key(c.chunk_id);
    let mut i: usize = 0;
    proof {
        assert(chunks@.take(0) =~= Seq::<DemandedChunk>::empty());
        assert(Seq::<DemandedChunk>::empty().filter(p) =~= Seq::<DemandedChunk>::empty());
        assert(ev0 + Seq::<WorldStreamingEvent>::empty() =~= ev0);
    }
    while i < chunks.len()
        invariant
            i <= chunks@.len(),
            records_sorted(records@),
            forall|a: int, b: int| 0 <= a < b < chunks@.len() ==> (#[trigger] chunks@[a]).chunk_id != (#[trigger] chunks@[b]).chunk_id,
            p == (|c: DemandedChunk| !m0.contains_key(c.chunk_id)),
            record_map(records@) == enter_all(m0, chunks@.take(i as int).filter(p), cap).0,
            events@ == ev0 + enter_all(m0, chunks@.take(i as int).filter(p), cap).1,
            forall|id: ChunkId| #[trigger] m0.contains_key(id) ==> record_map(records@).contains_key(id),
            forall|id: ChunkId| #[trigger] record_map(records@).contains_key(id) ==> m0.contains_key(id)
                || exists|k: int| 0 <= k < i && (#[trigger] chunks@[k]).chunk_id == id,
        decreases chunks@.len() - i,
    {
        let c = chunks[i];
        let ghost t = chunks@.take(i as int).filter(p);
        proof {
            crate::seqs::lemma_take_filter_step(chunks@, p, i as int);
        }
        match find_record(records, c.chunk_id) {
            Ok(_) => {
                proof {
                    if !m0.contains_key(c.chunk_id) {
                        let k = choose|k: int| 0 <= k < i && (#[trigger] chunks@[k]).chunk_id == c.chunk_id;
                        assert(chunks@[k].chunk_id != chunks@[i as int].chunk_id);
                    }
                    assert(!p(c));
                }
            },
            Err(_) => {
                proof {
                    assert(p(c));
                    let t2 = t.push(c);
                    assert(t2.drop_last() =~= t);
                    assert(t2.last() == c);
                }
                enter_in(records, c.chunk_id, c.rank, cap, events);
                proof {
                    let t2 = t.push(c);
                    assert(events@ =~= ev0 + enter_all(m0, t2, cap).1);
                    assert forall|id: ChunkId| #[trigger] record_map(records@).contains_key(id) implies m0.contains_key(id)
                        || exists|k: int| 0 <= k < i + 1 && (#[trigger] chunks@[k]).chunk_id == id by {
                        if id == c.chunk_id {
                            assert(chunks@[i as int].chunk_id == id);
                        }
                    }
                }
            },
        }
        i = i + 1;
    }
    proof {
        assert(chunks@.take(chunks@.len() as int) =~= chunks@);
        assert(chunks@.filter(p) == untracked(m0, chunks@));
    }
}

/// Applies an effective-demand delta to the records, as [`apply_demand`] says.
fn apply_delta_in(
    records: &mut Vec<ChunkRuntimeRecord>,
    delta: &crate::demand::snapshot::SpatialDemandDelta,
    cap: usize,
    events: &mut Vec<WorldStreamingEvent>,
)
    requires
        records_sorted(old(records)@),
    ensures
        records_sorted(final(records)@),
        ({
            let m0 = record_map(old(records)@);
            let (r1, e1) = enter_all(m0, delta.spec_entered(), cap);
            let r2 = update_all(r1, delta.spec_updated());
            let (r3, e3) = exit_all(r2, delta.spec_exited());
            record_map(final(records)@) == prune(r3) && final(events)@ == old(events)@ + e1 + e3
        }),
{
    let ghost m0 = record_map(records@);
    let ghost ev0 = events@;
    let entered = delta.entered();
    let mut i: usize = 0;
    proof {
        assert(entered@.take(0) =~= Seq::<DemandedChunk>::empty());
        assert(ev0 + Seq::<WorldStreamingEvent>::empty() =~= ev0);
    }
    while i < entered.len()
        invariant
            i <= entered@.len(),
            records_sorted(records@),
            record_map(records@) == enter_all(m0, entered@.take(i as int), cap).0,
            events@ == ev0 + enter_all(m0, entered@.take(i as int), cap).1,
        decreases entered@.len() - i,
    {
        let c = entered[i];
        enter_in(records, c.chunk_id, c.rank, cap, events);
        proof {
            let t = entered@.take(i + 1);
            assert(t.drop_last() =~= entered@.take(i as int));
            assert(t.last() == c);
            assert(events@ =~= ev0 + enter_all(m0, t, cap).1);
        }
        i = i + 1;
    }
    proof {
        assert(entered@.take(entered@.len() as int) =~= entered@);
    }
    let ghost r1 = record_map(records@);
    let ghost e1 = events@;
    let updated = delta.updated();
    let mut i: usize = 0;
    proof {
        assert(updated@.take(0) =~= Seq::<DemandedChunk>::empty());
    }
    while i < updated.len()
        invariant
            i <= updated@.len(),
            records_sorted(records@),
            record_map(records@) == update_all(r1, updated@.take(i as int)),
            events@ == e1,
        decreases updated@.len() - i,
    {
        let c = updated[i];
        refresh_rank_in(records, c.chunk_id, c.rank);
        proof {
            let t = updated@.take(i + 1);
            assert(t.drop_last() =~= updated@.take(i as int));
            assert(t.last() == c);
        }
        i = i + 1;
    }
    proof {
        assert(updated@.take(updated@.len() as int) =~= updated@);
    }
    let ghost r2 = record_map(records@);
    let exited = delta.exited();
    let mut i: usize = 0;
    proof {
        assert(exited@.take(0) =~= Seq::<DemandedChunk>::empty());
        assert(e1 + Seq::<WorldStreamingEvent>::empty() =~= e1);
    }
    while i < exited.len()
        invariant
            i <= exited@.len(),
            records_sorted(records@),
            record_map(records@) == exit_all(r2, exited@.take(i as int)).0,
            events@ == e1 + exit_all(r2, exited@.take(i as int)).1,
        decreases exited@.len() - i,
    {
        let c = exited[i];
        mark_undesired_in(records, c.chunk_id, c.rank, events);
        proof {
            let t = exited@.take(i + 1);
            assert(t.drop_last() =~= exited@.take(i as int));
            assert(t.last() == c);
            assert(events@ =~= e1 + exit_all(r2, t).1);
        }
        i = i + 1;
    }
    proof {
        assert(exited@.take(exited@.len() as int) =~= exited@);
        assert(events@ =~= ev0 + enter_all(m0, delta.spec_entered(), cap).1 + exit_all(r2, delta.spec_exited()).1);
    }
    prune_records(records);
}

/// Whether an operation is a request of `kind` under way, as
/// [`in_flight_as`] says.
fn in_flight_exec(op: ChunkOperation, kind: StreamRequestKind) -> (b: bool)
    ensures
        b == in_flight_as(op, kind),
{
    match kind {
        StreamRequestKind::Load => match op {
            ChunkOperation::LoadRequested(_) => true,
            ChunkOperation::Loading(_) => true,
            _ => false,
        },
        StreamRequestKind::Unload => match op {
            ChunkOperation::UnloadRequested(_) => true,
            ChunkOperation::Unloading(_) => true,
            _ => false,
        },
    }
}

/// Whether an operation is the queued one of `kind`.
fn queued_exec(op: ChunkOperation, kind: StreamRequestKind) -> (b: bool)
    ensures
        b == (op == queued_operation(kind)),
{
    match kind {
        StreamRequestKind::Load => match op {
            ChunkOperation::LoadQueued => true,
            _ => false,
        },
        StreamRequestKind::Unload => match op {
            ChunkOperation::UnloadQueued => true,
            _ => false,
        },
    }
}

/// Counts the records whose operation passes one of the four tests.
fn count_ops(records: &Vec<ChunkRuntimeRecord>, kind: StreamRequestKind, flight: bool) -> (r: usize)
    requires
        records_sorted(records@),
    ensures
        flight ==> r == in_flight_count(record_map(records@), kind),
        !flight ==> r == queued_count(record_map(records@), kind),
{
    let ghost p = if flight {
        |x: RecordModel| in_flight_as(x.operation, kind)
    } else {
        |x: RecordModel| x.operation == queued_operation(kind)
    };
    let ghost pv = |r: ChunkRuntimeRecord| p(r@);
    let mut n: usize = 0;
    let mut i: usize = 0;
    proof {
        assert(records@.take(0) =~= Seq::<ChunkRuntimeRecord>::empty());
        assert(Seq::<ChunkRuntimeRecord>::empty().filter(pv) =~= Seq::<ChunkRuntimeRecord>::empty());
    }
    while i < records.len()
        invariant
            i <= records@.len(),
            n == records@.take(i as int).filter(pv).len(),
            n <= i,
            pv == (|r: ChunkRuntimeRecord| p(r@)),
            p == (if flight {
                |x: RecordModel| in_flight_as(x.operation, kind)
            } else {
                |x: RecordModel| x.operation == queued_operation(kind)
            }),
        decreases records@.len() - i,
    {
        let op = records[i].operation();
        let hit = if flight {
            in_flight_exec(op, kind)
        } else {
            queued_exec(op, kind)
        };
        proof {
            crate::seqs::lemma_take_filter_step(records@, pv, i as int);
            assert(hit == pv(records@[i as int]));
        }
        if hit {
            n = n + 1;
        }
        i = i + 1;
    }
    proof {
        let s = records@;
        let m = record_map(s);
        assert(s.take(s.len() as int) =~= s);
        lemma_record_count(s, p);
        if flight {
            assert(m.dom().filter(|id: ChunkId| p(m[id])) =~= m.dom().filter(
                |id: ChunkId| in_flight_as(m[id].operation, kind),
            ));
        } else {
            assert(m.dom().filter(|id: ChunkId| p(m[id])) =~= m.dom().filter(
                |id: ChunkId| m[id].operation == queued_operation(kind),
            ));
        }
    }
    n
}

/// The pressure counters of the records, as [`pressure_of`] says.
fn count_pressure(records: &Vec<ChunkRuntimeRecord>) -> (r: StreamingPressureDiagnostics)
    requires
        records_sorted(records@),
    ensures
        r == pressure_of(record_map(records@)),
{
    proof {
        lemma_record_ids(records@);
    }
    StreamingPressureDiagnostics {
        tracked_records: records.len(),
        in_flight_loads: count_ops(records, StreamRequestKind::Load, true),
        in_flight_unloads: count_ops(records, StreamRequestKind::Unload, true),
        deferred_loads: count_ops(records, StreamRequestKind::Load, false),
        deferred_unloads: count_ops(records, StreamRequestKind::Unload, false),
    }
}

/// How many requests a tick may issue, as [`allowance`] says.
fn allowance_exec(budget: usize, limit: usize, used: usize) -> (r: usize)
    ensures
        r == allowance(budget, limit, used as int),
{
    if used >= limit {
        0
    } else if limit - used < budget {
        limit - used
    } else {
        budget
    }
}

/// The keys of the queued records of `kind` among the first `j` records.
spec fn queued_prefix(s: Seq<ChunkRuntimeRecord>, kind: StreamRequestKind, j: int) -> Set<QueueKey> {
    Set::new(
        |k: QueueKey|
            exists|i: int|
                0 <= i < j && (#[trigger] s[i])@.chunk_id == k.chunk_id && s[i]@.operation
                    == queued_operation(kind) && k.rank == s[i]@.rank@,
    )
}

/// The chunks to issue requests of `kind` for, as [`queued_chunks`] says.
fn queued_candidates(records: &Vec<ChunkRuntimeRecord>, kind: StreamRequestKind, budget: usize) -> (r: Vec<ChunkId>)
    requires
        records_sorted(records@),
    ensures
        r@ == queued_chunks(record_map(records@), kind, budget),
        forall|k: int| 0 <= k < r@.len() ==> record_map(records@).contains_key(#[trigger] r@[k])
            && record_map(records@)[r@[k]].operation == queued_operation(kind),
        forall|a: int, b: int| 0 <= a < b < r@.len() ==> #[trigger] r@[a] != #[trigger] r@[b],
{
    let ghost s = records@;
    let mut keys: Vec<QueueKey> = Vec::new();
    let mut j: usize = 0;
    proof {
        assert(keys@.to_set() =~= queued_prefix(s, kind, 0));
    }
    while j < records.len()
        invariant
            s == records@,
            j <= s.len(),
            strictly_sorted(keys@),
            keys@.to_set() == queued_prefix(s, kind, j as int),
        decreases s.len() - j,
    {
        let r = records[j];
        proof {
            ChunkRuntimeRecord::lemma_view_fields(r);
        }
        let queued = match (kind, r.operation) {
            (StreamRequestKind::Load, ChunkOperation::LoadQueued) => true,
            (StreamRequestKind::Unload, ChunkOperation::UnloadQueued) => true,
            _ => false,
        };
        let ghost before = keys@;
        if queued {
            let key = QueueKey { rank: r.rank.get(), chunk_id: r.chunk_id };
            sorted_insert(&mut keys, key);
            proof {
                assert(keys@.to_set() =~= queued_prefix(s, kind, j + 1)) by {
                    assert forall|k: QueueKey| keys@.to_set().contains(k) <==> queued_prefix(s, kind, j + 1).contains(k) by {
                        if queued_prefix(s, kind, j + 1).contains(k) {
                            let i = choose|i: int| 0 <= i < j + 1 && (#[trigger] s[i])@.chunk_id == k.chunk_id && s[i]@.operation == queued_operation(kind) && k.rank == s[i]@.rank@;
                            if i < j {
                                assert(queued_prefix(s, kind, j as int).contains(k));
                            } else {
                                assert(k == key);
                            }
                        }
                        if keys@.to_set().contains(k) && k != key {
                            assert(before.to_set().contains(k));
                            let i = choose|i: int| 0 <= i < j && (#[trigger] s[i])@.chunk_id == k.chunk_id && s[i]@.operation == queued_operation(kind) && k.rank == s[i]@.rank@;
                        }
                    }
                }
            }
        } else {
            proof {
                assert(keys@.to_set() =~= queued_prefix(s, kind, j + 1)) by {
                    assert forall|k: QueueKey| queued_prefix(s, kind, j + 1).contains(k) implies keys@.to_set().contains(k) by {
                        let i = choose|i: int| 0 <= i < j + 1 && (#[trigger] s[i])@.chunk_id == k.chunk_id && s[i]@.operation == queued_operation(kind) && k.rank == s[i]@.rank@;
                        if i < j {
                            assert(queued_prefix(s, kind, j as int).contains(k));
                        }
                    }
                }
            }
        }
        j = j + 1;
    }
    proof {
        let m = record_map(s);
        assert(queued_prefix(s, kind, s.len() as int) =~= queued_keys(m, kind)) by {
            assert forall|k: QueueKey| queued_prefix(s, kind, s.len() as int).contains(k) <==> queued_keys(m, kind).contains(k) by {
                if queued_prefix(s, kind, s.len() as int).contains(k) {
                    let i = choose|i: int| 0 <= i < s.len() && (#[trigger] s[i])@.chunk_id == k.chunk_id && s[i]@.operation == queued_operation(kind) && k.rank == s[i]@.rank@;
                    lemma_record_at(s, i);
                }
                if queued_keys(m, kind).contains(k) {
                    let i = choose|i: int| 0 <= i < s.len() && (#[trigger] s[i])@.chunk_id == k.chunk_id;
                    lemma_record_at(s, i);
                }
            }
        }
        lemma_arrange_of_sorted(keys@);
    }
    let n = if budget < keys.len() {
        budget
    } else {
        keys.len()
    };
    let mut out: Vec<ChunkId> = Vec::new();
    let mut i: usize = 0;
    while i < n
        invariant
            n <= keys@.len(),
            i <= n,
            out@ == Seq::new(i as nat, |k: int| keys@[k].chunk_id),
        decreases n - i,
    {
        out.push(keys[i].chunk_id);
        proof {
            assert(out@ =~= Seq::new((i + 1) as nat, |k: int| keys@[k].chunk_id));
        }
        i = i + 1;
    }
    proof {
        let m = record_map(s);
        assert(out@ =~= queued_chunks(m, kind, budget));
        assert forall|k: int| 0 <= k < out@.len() implies m.contains_key(#[trigger] out@[k]) && m[out@[k]].operation == queued_operation(kind) by {
            assert(keys@.to_set().contains(keys@[k]));
            assert(queued_keys(m, kind).contains(keys@[k]));
        }
        assert forall|a: int, b: int| 0 <= a < b < out@.len() implies #[trigger] out@[a] != #[trigger] out@[b] by {
            assert(keys@[a].key_less(keys@[b]));
            let ka = keys@[a];
            let kb = keys@[b];
            assert(queued_keys(m, kind).contains(ka));
            assert(queued_keys(m, kind).contains(kb));
            if ka.chunk_id == kb.chunk_id {
                assert(ka.rank == kb.rank);
            }
        }
    }
    out
}

/// Takes `count` consecutive request ids from `next`, as [`reserve`] says:
/// the ids and the id after them, or `None` when the ids run out.
pub fn reserve_request_ids(next: Option<StreamRequestId>, count: usize) -> (r: Option<(Vec<StreamRequestId>, Option<StreamRequestId>)>)
    requires
        next matches Some(n) ==> n@ > 0,
    ensures
        match reserve(next, count as int) {
            None => r is None,
            Some((ids, after)) => r matches Some((v, n2)) && v@ == ids && n2 == after,
        },
        r matches Some((_, n2)) ==> (n2 matches Some(n) ==> n@ > 0),
{
    reserve_ids(next, count as u128)
}

/// [`reserve_request_ids`] for a count of any size.
fn reserve_ids(next: Option<StreamRequestId>, count: u128) -> (r: Option<(Vec<StreamRequestId>, Option<StreamRequestId>)>)
    requires
        next matches Some(n) ==> n@ > 0,
    ensures
        match reserve(next, count as int) {
            None => r is None,
            Some((ids, after)) => r matches Some((v, n2)) && v@ == ids && n2 == after,
        },
        r matches Some((_, n2)) ==> (n2 matches Some(n) ==> n@ > 0),
{
    if count == 0 {
        let v: Vec<StreamRequestId> = Vec::new();
        proof {
            assert(v@ =~= Seq::<StreamRequestId>::empty());
        }
        return Some((v, next));
    }
    let first = match next {
        Some(first) => first,
        None => {
            return None;
        },
    };
    let start = first.get();
    if count - 1 > u64::MAX as u128 - start as u128 {
        return None;
    }
    let last: u64 = (start as u128 + (count - 1)) as u64;
    let mut ids: Vec<StreamRequestId> = Vec::new();
    let mut i: u64 = 0;
    while (i as u128) < count
        invariant
            start > 0,
            start + count - 1 == last,
            last <= u64::MAX,
            i <= count,
            ids@ == Seq::new(i as nat, |k: int| StreamRequestId::spec_from((start + k) as u64)),
        decreases count - i,
    {
        let id = StreamRequestId::try_new(start + i);
        match id {
            Some(id) => {
                ids.push(id);
            },
            None => {
                proof {
                    assert(false);
                }
            },
        }
        proof {
            assert(ids@ =~= Seq::new((i + 1) as nat, |k: int| StreamRequestId::spec_from((start + k) as u64)));
        }
        i = i + 1;
    }
    let after = if last == u64::MAX {
        None
    } else {
        StreamRequestId::try_new(last + 1)
    };
    proof {
        if after is Some {
            StreamRequestId::lemma_spec_from((last + 1) as u64);
        }
    }
    Some((ids, after))
}

/// Issues requests of `kind` for `chunks` with the ids from position
/// `offset` of `ids`, as [`issue`] says.
fn issue_in(
    records: &mut Vec<ChunkRuntimeRecord>,
    pending: &mut Vec<(StreamRequestId, ChunkId)>,
    kind: StreamRequestKind,
    chunks: &Vec<ChunkId>,
    ids: &Vec<StreamRequestId>,
    offset: usize,
    requests: &mut Vec<StreamRequest>,
    events: &mut Vec<WorldStreamingEvent>,
)
    requires
        records_sorted(old(records)@),
        pending_sorted(old(pending)@),
        offset + chunks@.len() <= ids@.len(),
        forall|k: int| 0 <= k < chunks@.len() ==> record_map(old(records)@).contains_key(#[trigger] chunks@[k]),
        forall|a: int, b: int| 0 <= a < b < ids@.len() ==> (#[trigger] ids@[a])@ < (#[trigger] ids@[b])@,
        forall|k: int| 0 <= k < old(pending)@.len() ==> (#[trigger] old(pending)@[k]).0@ < ids@[offset as int]@ || chunks@.len() == 0,
    ensures
        records_sorted(final(records)@),
        pending_sorted(final(pending)@),
        ({
            let (r1, p1, q1, e1) = issue(record_map(old(records)@), pending_map(old(pending)@), kind, chunks@, ids@.skip(offset as int));
            &&& record_map(final(records)@) == r1
            &&& pending_map(final(pending)@) == p1
            &&& final(requests)@ == old(requests)@ + q1
            &&& final(events)@ == old(events)@ + e1
        }),
        forall|k: int| 0 <= k < final(pending)@.len() ==> (#[trigger] final(pending)@[k]).0@ < ids@[offset + chunks@.len() - 1]@ + 1 || (chunks@.len() == 0 && final(pending)@ == old(pending)@),
{
    let ghost m0 = record_map(records@);
    let ghost p0 = pending_map(pending@);
    let ghost q0 = requests@;
    let ghost e0 = events@;
    let ghost sub = ids@.skip(offset as int);
    let n_ids = ids.len();
    let mut i: usize = 0;
    proof {
        assert(chunks@.take(0) =~= Seq::<ChunkId>::empty());
        assert(q0 + Seq::<StreamRequest>::empty() =~= q0);
        assert(e0 + Seq::<WorldStreamingEvent>::empty() =~= e0);
    }
    while i < chunks.len()
        invariant
            i <= chunks@.len(),
            offset + chunks@.len() <= ids@.len(),
            n_ids == ids@.len(),
            sub == ids@.skip(offset as int),
            records_sorted(records@),
            pending_sorted(pending@),
            forall|k: int| 0 <= k < chunks@.len() ==> record_map(records@).contains_key(#[trigger] chunks@[k]),
            forall|a: int, b: int| 0 <= a < b < ids@.len() ==> (#[trigger] ids@[a])@ < (#[trigger] ids@[b])@,
            i < chunks@.len() ==> forall|k: int| 0 <= k < pending@.len() ==> (#[trigger] pending@[k]).0@ < ids@[offset + i]@,
            i > 0 ==> forall|k: int| 0 <= k < pending@.len() ==> (#[trigger] pending@[k]).0@ < ids@[offset + i - 1]@ + 1,
            i == 0 ==> pending@ == old(pending)@,
            ({
                let (r1, p1, q1, e1) = issue(m0, p0, kind, chunks@.take(i as int), sub);
                &&& record_map(records@) == r1
                &&& pending_map(pending@) == p1
                &&& requests@ == q0 + q1
                &&& events@ == e0 + e1
            }),
        decreases chunks@.len() - i,
    {
        let chunk_id = chunks[i];
        let request_id = ids[offset + i];
        let pos = match find_record(records, chunk_id) {
            Ok(pos) => pos,
            Err(_) => {
                proof {
                    assert(false);
                }
                0
            },
        };
        let mut r = records[pos];
        proof {
            ChunkRuntimeRecord::lemma_view_fields(r);
        }
        let request = StreamRequest { request_id, chunk_id, kind, rank: r.rank };
        r.operation = match kind {
            StreamRequestKind::Load => ChunkOperation::LoadRequested(request),
            StreamRequestKind::Unload => ChunkOperation::UnloadRequested(request),
        };
        proof {
            ChunkRuntimeRecord::lemma_view_fields(r);
            lemma_record_update(records@, pos as int, r);
            lemma_pending_push(pending@, (request_id, chunk_id));
        }
        records.set(pos, r);
        pending.push((request_id, chunk_id));
        requests.push(request);
        let event_kind = match kind {
            StreamRequestKind::Load => WorldStreamingEventKind::LoadRequested,
            StreamRequestKind::Unload => WorldStreamingEventKind::UnloadRequested,
        };
        events.push(WorldStreamingEvent::with_request(chunk_id, request_id, event_kind));
        proof {
            let t = chunks@.take(i + 1);
            assert(t.drop_last() =~= chunks@.take(i as int));
            assert(t.last() == chunk_id);
            assert(sub[i as int] == request_id);
            assert(requests@ =~= q0 + issue(m0, p0, kind, t, sub).2);
            assert(events@ =~= e0 + issue(m0, p0, kind, t, sub).3);
            if i + 1 < chunks@.len() {
                assert(ids@[offset + i] == request_id);
                assert forall|k: int| 0 <= k < pending@.len() implies (#[trigger] pending@[k]).0@ < ids@[offset + i + 1]@ by {
                    assert(ids@[offset + i]@ < ids@[offset + i + 1]@);
                }
            }
        }
        i = i + 1;
    }
    proof {
        assert(chunks@.take(chunks@.len() as int) =~= chunks@);
    }
}

/// What a provider report does to a record, as [`provider_step`] says; the
/// events are appended.
fn provider_step_exec(r: ChunkRuntimeRecord, e: ProviderEvent, events: &mut Vec<WorldStreamingEvent>) -> (out: Option<(ChunkRuntimeRecord, bool)>)
    ensures
        match provider_step(r@, e) {
            None => out is None && final(events)@ == old(events)@,
            Some((r2, finished, evs)) => out matches Some((x, f)) && x@ == r2 && f == finished
                && final(events)@ == old(events)@ + evs && x.chunk_id == r.chunk_id,
        },
{
    proof {
        ChunkRuntimeRecord::lemma_view_fields(r);
    }
    let ghost ev0 = events@;
    let mut out = r;
    match (r.operation, e.kind, r.availability) {
        (ChunkOperation::LoadRequested(q), ProviderEventKind::Started, ChunkAvailability::Absent) => {
            out.operation = ChunkOperation::Loading(q);
            events.push(WorldStreamingEvent::with_request(e.chunk_id, e.request_id, WorldStreamingEventKind::ProviderStarted));
            proof {
                ChunkRuntimeRecord::lemma_view_fields(out);
                let ghost step = provider_step(r@, e)->0;
                assert(events@ =~= ev0 + step.2);
            }
            Some((out, false))
        },
        (ChunkOperation::UnloadRequested(q), ProviderEventKind::Started, ChunkAvailability::Resident) => {
            out.operation = ChunkOperation::Unloading(q);
            events.push(WorldStreamingEvent::with_request(e.chunk_id, e.request_id, WorldStreamingEventKind::ProviderStarted));
            proof {
                ChunkRuntimeRecord::lemma_view_fields(out);
                let ghost step = provider_step(r@, e)->0;
                assert(events@ =~= ev0 + step.2);
            }
            Some((out, false))
        },
        (ChunkOperation::LoadRequested(_), ProviderEventKind::Completed, ChunkAvailability::Absent)
        | (ChunkOperation::Loading(_), ProviderEventKind::Completed, ChunkAvailability::Absent) => {
            out.availability = ChunkAvailability::Resident;
            out.operation = ChunkOperation::Idle;
            out.blocking_failure = None;
            events.push(WorldStreamingEvent::with_request(e.chunk_id, e.request_id, WorldStreamingEventKind::ProviderCompleted));
            events.push(WorldStreamingEvent::with_request(e.chunk_id, e.request_id, WorldStreamingEventKind::Resident));
            let ghost mid = events@;
            proof {
                ChunkRuntimeRecord::lemma_view_fields(out);
            }
            let out2 = reconcile_exec(out, events);
            proof {
                let ghost step = provider_step(r@, e)->0;
                assert(events@ =~= ev0 + step.2);
            }
            Some((out2, true))
        },
        (ChunkOperation::LoadRequested(_), ProviderEventKind::Failed, ChunkAvailability::Absent)
        | (ChunkOperation::Loading(_), ProviderEventKind::Failed, ChunkAvailability::Absent) => {
            out.operation = ChunkOperation::Idle;
            out.blocking_failure = if r.desired {
                Some(StreamRequestKind::Load)
            } else {
                None
            };
            events.push(WorldStreamingEvent::with_request(e.chunk_id, e.request_id, WorldStreamingEventKind::ProviderFailed));
            proof {
                ChunkRuntimeRecord::lemma_view_fields(out);
            }
            let out2 = reconcile_exec(out, events);
            proof {
                let ghost step = provider_step(r@, e)->0;
                assert(events@ =~= ev0 + step.2);
            }
            Some((out2, true))
        },
        (ChunkOperation::UnloadRequested(_), ProviderEventKind::Completed, ChunkAvailability::Resident)
        | (ChunkOperation::Unloading(_), ProviderEventKind::Completed, ChunkAvailability::Resident) => {
            out.availability = ChunkAvailability::Absent;
            out.operation = ChunkOperation::Idle;
            out.blocking_failure = None;
            events.push(WorldStreamingEvent::with_request(e.chunk_id, e.request_id, WorldStreamingEventKind::ProviderCompleted));
            events.push(WorldStreamingEvent::with_request(e.chunk_id, e.request_id, WorldStreamingEventKind::Unloaded));
            proof {
                ChunkRuntimeRecord::lemma_view_fields(out);
            }
            let out2 = reconcile_exec(out, events);
            proof {
                let ghost step = provider_step(r@, e)->0;
                assert(events@ =~= ev0 + step.2);
            }
            Some((out2, true))
        },
        (ChunkOperation::UnloadRequested(_), ProviderEventKind::Failed, ChunkAvailability::Resident)
        | (ChunkOperation::Unloading(_), ProviderEventKind::Failed, ChunkAvailability::Resident) => {
            out.operation = ChunkOperation::Idle;
            out.blocking_failure = if !r.desired {
                Some(StreamRequestKind::Unload)
            } else {
                None
            };
            events.push(WorldStreamingEvent::with_request(e.chunk_id, e.request_id, WorldStreamingEventKind::ProviderFailed));
            proof {
                ChunkRuntimeRecord::lemma_view_fields(out);
            }
            let out2 = reconcile_exec(out, events);
            proof {
                let ghost step = provider_step(r@, e)->0;
                assert(events@ =~= ev0 + step.2);
            }
            Some((out2, true))
        },
        _ => None,
    }
}

/// A tick issues requests with fresh ids: each is at least the next id
/// before the tick and below the next id after it, so no id is used twice.
pub proof fn lemma_tick_issues_fresh_ids(m: ControllerModel, changes: Seq<DemandSourceChange>)
    requires
        tick_spec(m, changes) is Ok,
    ensures
        ({
            let (m2, out) = tick_spec(m, changes)->Ok_0;
            forall|k: int| 0 <= k < out.requests.len() ==> {
                &&& m.next_request_id is Some
                &&& m.next_request_id->0@ <= (#[trigger] out.requests[k]).request_id@
                &&& (m2.next_request_id matches Some(n) ==> out.requests[k].request_id@ < n@)
            }
        }),
{
    let planner = if changes.len() > 0 { plan(m.planner, changes)->Ok_0 } else { m.planner };
    let recs = prepared(m, planner, changes).0;
    let loads = tick_loads(m, recs);
    let unloads = tick_unloads(m, recs);
    let n = loads.len() + unloads.len();
    if reserve(m.next_request_id, n as int) is Some {
        let (ids, next) = reserve(m.next_request_id, n as int)->0;
        let (r1, p1, q1, e1) = issue(recs, m.pending, StreamRequestKind::Load, loads, ids);
        let sub = ids.skip(loads.len() as int);
        let (r2, p2, q2, e2) = issue(r1, p1, StreamRequestKind::Unload, unloads, sub);
        lemma_issue_requests(recs, m.pending, StreamRequestKind::Load, loads, ids);
        lemma_issue_requests(r1, p1, StreamRequestKind::Unload, unloads, sub);
        let out = tick_spec(m, changes)->Ok_0.1;
        assert(out.requests == q1 + q2);
        if n > 0 {
            let first = m.next_request_id->0@;
            if next is Some {
                StreamRequestId::lemma_spec_from((first + n) as u64);
            }
            assert forall|k: int| 0 <= k < out.requests.len() implies {
                &&& m.next_request_id is Some
                &&& m.next_request_id->0@ <= (#[trigger] out.requests[k]).request_id@
                &&& (next matches Some(nx) ==> out.requests[k].request_id@ < nx@)
            } by {
                if k < q1.len() {
                    assert(out.requests[k] == q1[k]);
                    StreamRequestId::lemma_spec_from((first + k) as u64);
                } else {
                    assert(out.requests[k] == q2[k - q1.len()]);
                    assert(sub[k - q1.len()] == ids[k]);
                    StreamRequestId::lemma_spec_from((first + k) as u64);
                }
            }
        }
    }
}

/// A tick issues as many requests of each kind as it may. With `n` loads
/// issued first and the rest unloads: the loads are no more than the load
/// budget and leave no more loads in flight than the capacity allows, and
/// when fewer than the budget are issued while room is left in flight, no
/// load is left queued (none is deferred); likewise for unloads.
pub proof fn lemma_tick_issues_up_to_capacity(m: ControllerModel, changes: Seq<DemandSourceChange>)
    requires
        tick_spec(m, changes) is Ok,
        tracked_within(m.records, m.capacity.max_tracked_records),
        in_flight_within(m.records, m.capacity),
    ensures
        ({
            let (m2, out) = tick_spec(m, changes)->Ok_0;
            !out.request_id_exhausted ==> exists|n: int| {
                &&& #[trigger] loads_then_unloads(out.requests, n, m.budgets)
                &&& in_flight_count(m2.records, StreamRequestKind::Load) <= m.capacity.max_in_flight_loads
                &&& in_flight_count(m2.records, StreamRequestKind::Unload) <= m.capacity.max_in_flight_unloads
                &&& (n < m.budgets.max_load_requests_per_tick && in_flight_count(m2.records, StreamRequestKind::Load)
                    < m.capacity.max_in_flight_loads ==> queued_count(m2.records, StreamRequestKind::Load) == 0
                    && out.pressure.deferred_loads == 0)
                &&& (out.requests.len() - n < m.budgets.max_unload_requests_per_tick && in_flight_count(
                    m2.records,
                    StreamRequestKind::Unload,
                ) < m.capacity.max_in_flight_unloads ==> queued_count(m2.records, StreamRequestKind::Unload) == 0
                    && out.pressure.deferred_unloads == 0)
            }
        }),
{
    let planner = if changes.len() > 0 { plan(m.planner, changes)->Ok_0 } else { m.planner };
    let cap = m.capacity.max_tracked_records;
    let r0 = if changes.len() > 0 {
        apply_demand(m.records, m.planner.chunks, planner.chunks, cap).0
    } else {
        m.records
    };
    if changes.len() > 0 {
        lemma_apply_demand_within(m.records, m.planner.chunks, planner.chunks, cap);
        lemma_demand_changes_start_nothing(m.records, m.planner.chunks, planner.chunks, cap);
        lemma_in_flight_within_from(m.records, r0, m.capacity);
    }
    let f = untracked(r0, planner.chunks);
    let recs = prepared(m, planner, changes).0;
    assert(recs == enter_all(r0, f, cap).0);
    lemma_enter_all_within(r0, f, cap);
    lemma_enter_all_from(r0, f, cap);
    lemma_in_flight_within_from(r0, recs, m.capacity);
    let ul = in_flight_count(recs, StreamRequestKind::Load);
    let uu = in_flight_count(recs, StreamRequestKind::Unload);
    let al = allowance(m.budgets.max_load_requests_per_tick, m.capacity.max_in_flight_loads, ul);
    let au = allowance(m.budgets.max_unload_requests_per_tick, m.capacity.max_in_flight_unloads, uu);
    let loads = tick_loads(m, recs);
    let unloads = tick_unloads(m, recs);
    lemma_queued_chunks_facts(recs, StreamRequestKind::Load, al);
    lemma_queued_chunks_facts(recs, StreamRequestKind::Unload, au);
    let n = loads.len() + unloads.len();
    let (m2, out) = tick_spec(m, changes)->Ok_0;
    if reserve(m.next_request_id, n as int) is Some {
        let (ids, next) = reserve(m.next_request_id, n as int)->0;
        let (r1, p1, q1, e1) = issue(recs, m.pending, StreamRequestKind::Load, loads, ids);
        let sub = ids.skip(loads.len() as int);
        let (r2, p2, q2, e2) = issue(r1, p1, StreamRequestKind::Unload, unloads, sub);
        lemma_issue_requests(recs, m.pending, StreamRequestKind::Load, loads, ids);
        lemma_issue_requests(r1, p1, StreamRequestKind::Unload, unloads, sub);
        assert(out.requests == q1 + q2);
        assert(m2.records == r2);
        if n > 0 {
            let first = m.next_request_id->0@;
            assert forall|a: int, b: int| 0 <= a < b < ids.len() implies #[trigger] ids[a] != #[trigger] ids[b] by {
                StreamRequestId::lemma_spec_from((first + a) as u64);
                StreamRequestId::lemma_spec_from((first + b) as u64);
            }
        }
        lemma_issue_within(recs, m.pending, loads, unloads, ids, m.capacity);
        let split = q1.len() as int;
        assert forall|k: int| 0 <= k < split implies (#[trigger] out.requests[k]).kind == StreamRequestKind::Load by {
            assert(out.requests[k] == q1[k]);
        }
        assert forall|k: int| split <= k < out.requests.len() implies (#[trigger] out.requests[k]).kind == StreamRequestKind::Unload by {
            assert(out.requests[k] == q2[k - split]);
        }
        assert(loads_then_unloads(out.requests, split, m.budgets));
        if split < m.budgets.max_load_requests_per_tick && in_flight_count(r2, StreamRequestKind::Load) < m.capacity.max_in_flight_loads {
            assert(loads.len() < al);
            let e = r2.dom().filter(|id: ChunkId| r2[id].operation == queued_operation(StreamRequestKind::Load));
            assert(e =~= Set::<ChunkId>::empty()) by {
                assert forall|id: ChunkId| !e.contains(id) by {
                    if r2.contains_key(id) && r2[id].operation == queued_operation(StreamRequestKind::Load) {
                        assert(recs.contains_key(id) && recs[id].operation == queued_operation(StreamRequestKind::Load));
                    }
                }
            }
        }
        if out.requests.len() - split < m.budgets.max_unload_requests_per_tick && in_flight_count(r2, StreamRequestKind::Unload)
            < m.capacity.max_in_flight_unloads {
            assert(unloads.len() < au);
            let e = r2.dom().filter(|id: ChunkId| r2[id].operation == queued_operation(StreamRequestKind::Unload));
            assert(e =~= Set::<ChunkId>::empty()) by {
                assert forall|id: ChunkId| !e.contains(id) by {
                    if r2.contains_key(id) && r2[id].operation == queued_operation(StreamRequestKind::Unload) {
                        assert(recs.contains_key(id) && recs[id].operation == queued_operation(StreamRequestKind::Unload));
                    }
                }
            }
        }
    }
}

/// The first `n` requests are loads, the rest unloads, and neither number
/// exceeds its budget.
pub open spec fn loads_then_unloads(reqs: Seq<StreamRequest>, n: int, budgets: StreamingBudgets) -> bool {
    &&& 0 <= n <= reqs.len()
    &&& n <= budgets.max_load_requests_per_tick
    &&& reqs.len() - n <= budgets.max_unload_requests_per_tick
    &&& forall|k: int| 0 <= k < n ==> (#[trigger] reqs[k]).kind == StreamRequestKind::Load
    &&& forall|k: int| n <= k < reqs.len() ==> (#[trigger] reqs[k]).kind == StreamRequestKind::Unload
}

/// A tick issues its load requests first and then its unload requests,
/// never more of either than the budget allows.
pub proof fn lemma_tick_respects_budgets(m: ControllerModel, changes: Seq<DemandSourceChange>)
    requires
        tick_spec(m, changes) is Ok,
    ensures
        ({
            let out = tick_spec(m, changes)->Ok_0.1;
            exists|n: int| #[trigger] loads_then_unloads(out.requests, n, m.budgets)
        }),
{
    let planner = if changes.len() > 0 { plan(m.planner, changes)->Ok_0 } else { m.planner };
    let recs = prepared(m, planner, changes).0;
    let loads = tick_loads(m, recs);
    let unloads = tick_unloads(m, recs);
    let n = loads.len() + unloads.len();
    let out = tick_spec(m, changes)->Ok_0.1;
    if reserve(m.next_request_id, n as int) is Some {
        let (ids, next) = reserve(m.next_request_id, n as int)->0;
        let (r1, p1, q1, e1) = issue(recs, m.pending, StreamRequestKind::Load, loads, ids);
        let sub = ids.skip(loads.len() as int);
        let (r2, p2, q2, e2) = issue(r1, p1, StreamRequestKind::Unload, unloads, sub);
        lemma_issue_requests(recs, m.pending, StreamRequestKind::Load, loads, ids);
        lemma_issue_requests(r1, p1, StreamRequestKind::Unload, unloads, sub);
        assert(out.requests == q1 + q2);
        let split = q1.len() as int;
        assert forall|k: int| 0 <= k < split implies (#[trigger] out.requests[k]).kind == StreamRequestKind::Load by {
            assert(out.requests[k] == q1[k]);
        }
        assert forall|k: int| split <= k < out.requests.len() implies (#[trigger] out.requests[k]).kind == StreamRequestKind::Unload by {
            assert(out.requests[k] == q2[k - split]);
        }
        assert(loads_then_unloads(out.requests, split, m.budgets));
    } else {
        assert(out.requests.len() == 0);
        assert(loads_then_unloads(out.requests, 0, m.budgets));
    }
}

/// No more load or unload requests in flight than the capacity allows.
pub open spec fn in_flight_within(recs: Map<ChunkId, RecordModel>, cap: StreamingCapacity) -> bool {
    &&& in_flight_count(recs, StreamRequestKind::Load) <= cap.max_in_flight_loads
    &&& in_flight_count(recs, StreamRequestKind::Unload) <= cap.max_in_flight_unloads
}

/// Every record of `b` with a request of `kind` in flight is a record of
/// `a` with one too.
pub open spec fn in_flight_from(a: Map<ChunkId, RecordModel>, b: Map<ChunkId, RecordModel>, kind: StreamRequestKind) -> bool {
    forall|id: ChunkId| #[trigger] b.contains_key(id) && in_flight_as(b[id].operation, kind) ==> a.contains_key(id)
        && in_flight_as(a[id].operation, kind)
}

/// Records that started nothing have no more requests in flight.
proof fn lemma_in_flight_le(a: Map<ChunkId, RecordModel>, b: Map<ChunkId, RecordModel>, kind: StreamRequestKind)
    requires
        a.dom().finite(),
        in_flight_from(a, b, kind),
    ensures
        in_flight_count(b, kind) <= in_flight_count(a, kind),
{
    let fa = a.dom().filter(|id: ChunkId| in_flight_as(a[id].operation, kind));
    let fb = b.dom().filter(|id: ChunkId| in_flight_as(b[id].operation, kind));
    assert(fb.subset_of(fa));
    vstd::set_lib::lemma_len_subset(fb, fa);
}

/// Records that started nothing new have no more requests of either kind
/// in flight.
proof fn lemma_in_flight_within_from(a: Map<ChunkId, RecordModel>, b: Map<ChunkId, RecordModel>, cap: StreamingCapacity)
    requires
        a.dom().finite(),
        in_flight_within(a, cap),
        active_from(a, b),
    ensures
        in_flight_within(b, cap),
{
    assert(in_flight_from(a, b, StreamRequestKind::Load));
    assert(in_flight_from(a, b, StreamRequestKind::Unload));
    lemma_in_flight_le(a, b, StreamRequestKind::Load);
    lemma_in_flight_le(a, b, StreamRequestKind::Unload);
}

/// Issuing requests of `kind` for queued chunks puts exactly those chunks
/// in flight, and changes nothing in flight of the other kind.
proof fn lemma_issue_in_flight(
    recs: Map<ChunkId, RecordModel>,
    pending: Map<StreamRequestId, ChunkId>,
    kind: StreamRequestKind,
    chunks: Seq<ChunkId>,
    ids: Seq<StreamRequestId>,
    other: StreamRequestKind,
)
    requires
        recs.dom().finite(),
        other != kind,
        chunks.len() <= ids.len(),
        forall|k: int| 0 <= k < chunks.len() ==> recs.contains_key(#[trigger] chunks[k])
            && recs[chunks[k]].operation == queued_operation(kind),
        forall|a: int, b: int| 0 <= a < b < chunks.len() ==> #[trigger] chunks[a] != #[trigger] chunks[b],
        forall|a: int, b: int| 0 <= a < b < ids.len() ==> #[trigger] ids[a] != #[trigger] ids[b],
    ensures
        ({
            let r1 = issue(recs, pending, kind, chunks, ids).0;
            &&& in_flight_count(r1, kind) == in_flight_count(recs, kind) + chunks.len()
            &&& in_flight_count(r1, other) == in_flight_count(recs, other)
            &&& r1.dom().finite()
        }),
{
    lemma_issue_facts(recs, pending, kind, chunks, ids);
    let r1 = issue(recs, pending, kind, chunks, ids).0;
    let f0 = recs.dom().filter(|id: ChunkId| in_flight_as(recs[id].operation, kind));
    let f1 = r1.dom().filter(|id: ChunkId| in_flight_as(r1[id].operation, kind));
    let g0 = recs.dom().filter(|id: ChunkId| in_flight_as(recs[id].operation, other));
    let g1 = r1.dom().filter(|id: ChunkId| in_flight_as(r1[id].operation, other));
    let cs = chunks.to_set();
    assert forall|k: int| 0 <= k < chunks.len() implies in_flight_as(r1[#[trigger] chunks[k]].operation, kind)
        && !in_flight_as(r1[chunks[k]].operation, other) by {
    }
    assert(f1 =~= f0 + cs) by {
        assert forall|id: ChunkId| f1.contains(id) <==> (f0 + cs).contains(id) by {
            if cs.contains(id) {
                let k = choose|k: int| 0 <= k < chunks.len() && chunks[k] == id;
                assert(in_flight_as(r1[chunks[k]].operation, kind));
            } else {
                if r1.contains_key(id) {
                    assert(r1[id] == recs[id]);
                }
            }
        }
    }
    assert(f0.disjoint(cs)) by {
        assert forall|id: ChunkId| !(f0.contains(id) && cs.contains(id)) by {
            if cs.contains(id) {
                let k = choose|k: int| 0 <= k < chunks.len() && chunks[k] == id;
                assert(recs[chunks[k]].operation == queued_operation(kind));
            }
        }
    }
    assert(g1 =~= g0) by {
        assert forall|id: ChunkId| g1.contains(id) <==> g0.contains(id) by {
            if cs.contains(id) {
                let k = choose|k: int| 0 <= k < chunks.len() && chunks[k] == id;
                assert(!in_flight_as(r1[chunks[k]].operation, other));
                assert(recs[chunks[k]].operation == queued_operation(kind));
            } else if r1.contains_key(id) {
                assert(r1[id] == recs[id]);
            }
        }
    }
    assert(chunks.no_duplicates()) by {
        assert forall|a: int, b: int| 0 <= a < chunks.len() && 0 <= b < chunks.len() && a != b implies chunks[a] != chunks[b] by {
            if a < b {
                assert(chunks[a] != chunks[b]);
            } else {
                assert(chunks[b] != chunks[a]);
            }
        }
    }
    chunks.unique_seq_to_set();
    vstd::set_lib::lemma_set_disjoint_lens(f0, cs);
}

/// Issuing loads within the load allowance and then unloads within the
/// unload allowance keeps the requests in flight within the capacity.
proof fn lemma_issue_within(
    recs: Map<ChunkId, RecordModel>,
    pending: Map<StreamRequestId, ChunkId>,
    loads: Seq<ChunkId>,
    unloads: Seq<ChunkId>,
    ids: Seq<StreamRequestId>,
    cap: StreamingCapacity,
)
    requires
        recs.dom().finite(),
        in_flight_within(recs, cap),
        loads.len() + unloads.len() <= ids.len(),
        loads.len() <= allowance(loads.len() as usize, cap.max_in_flight_loads, in_flight_count(recs, StreamRequestKind::Load)),
        unloads.len() <= allowance(unloads.len() as usize, cap.max_in_flight_unloads, in_flight_count(recs, StreamRequestKind::Unload)),
        forall|k: int| 0 <= k < loads.len() ==> recs.contains_key(#[trigger] loads[k])
            && recs[loads[k]].operation == queued_operation(StreamRequestKind::Load),
        forall|k: int| 0 <= k < unloads.len() ==> recs.contains_key(#[trigger] unloads[k])
            && recs[unloads[k]].operation == queued_operation(StreamRequestKind::Unload),
        forall|a: int, b: int| 0 <= a < b < loads.len() ==> #[trigger] loads[a] != #[trigger] loads[b],
        forall|a: int, b: int| 0 <= a < b < unloads.len() ==> #[trigger] unloads[a] != #[trigger] unloads[b],
        forall|a: int, b: int| 0 <= a < b < ids.len() ==> #[trigger] ids[a] != #[trigger] ids[b],
    ensures
        ({
            let (r1, p1, q1, e1) = issue(recs, pending, StreamRequestKind::Load, loads, ids);
            let r2 = issue(r1, p1, StreamRequestKind::Unload, unloads, ids.skip(loads.len() as int)).0;
            &&& in_flight_within(r2, cap)
            &&& in_flight_count(r2, StreamRequestKind::Load) == in_flight_count(recs, StreamRequestKind::Load) + loads.len()
            &&& in_flight_count(r2, StreamRequestKind::Unload) == in_flight_count(recs, StreamRequestKind::Unload)
                + unloads.len()
            &&& forall|id: ChunkId| #[trigger] r2.contains_key(id) && r2[id].operation == queued_operation(StreamRequestKind::Load)
                ==> recs.contains_key(id) && recs[id].operation == queued_operation(StreamRequestKind::Load) && !loads.contains(id)
            &&& forall|id: ChunkId| #[trigger] r2.contains_key(id) && r2[id].operation == queued_operation(StreamRequestKind::Unload)
                ==> recs.contains_key(id) && recs[id].operation == queued_operation(StreamRequestKind::Unload) && !unloads.contains(id)
        }),
{
    lemma_issue_facts(recs, pending, StreamRequestKind::Load, loads, ids);
    lemma_issue_in_flight(recs, pending, StreamRequestKind::Load, loads, ids, StreamRequestKind::Unload);
    let (r1, p1, q1, e1) = issue(recs, pending, StreamRequestKind::Load, loads, ids);
    let sub = ids.skip(loads.len() as int);
    assert forall|k: int| 0 <= k < unloads.len() implies r1.contains_key(#[trigger] unloads[k])
        && r1[unloads[k]].operation == queued_operation(StreamRequestKind::Unload) by {
        if loads.contains(unloads[k]) {
            let j = choose|j: int| 0 <= j < loads.len() && loads[j] == unloads[k];
            assert(recs[loads[j]].operation == queued_operation(StreamRequestKind::Load));
        }
    }
    assert forall|a: int, b: int| 0 <= a < b < sub.len() implies #[trigger] sub[a] != #[trigger] sub[b] by {
        assert(sub[a] == ids[a + loads.len()]);
        assert(sub[b] == ids[b + loads.len()]);
    }
    lemma_issue_in_flight(r1, p1, StreamRequestKind::Unload, unloads, sub, StreamRequestKind::Load);
    lemma_issue_facts(r1, p1, StreamRequestKind::Unload, unloads, sub);
    let r2 = issue(r1, p1, StreamRequestKind::Unload, unloads, sub).0;
    assert forall|id: ChunkId| #[trigger] r2.contains_key(id) && r2[id].operation == queued_operation(StreamRequestKind::Load)
        implies recs.contains_key(id) && recs[id].operation == queued_operation(StreamRequestKind::Load) && !loads.contains(id) by {
        if unloads.contains(id) {
            let k = choose|k: int| 0 <= k < unloads.len() && unloads[k] == id;
            assert(r2[unloads[k]].operation is UnloadRequested);
        }
        assert(r2[id] == r1[id]);
        if loads.contains(id) {
            let k = choose|k: int| 0 <= k < loads.len() && loads[k] == id;
            assert(r1[loads[k]].operation is LoadRequested);
        }
    }
    assert forall|id: ChunkId| #[trigger] r2.contains_key(id) && r2[id].operation == queued_operation(StreamRequestKind::Unload)
        implies recs.contains_key(id) && recs[id].operation == queued_operation(StreamRequestKind::Unload) && !unloads.contains(id) by {
        if unloads.contains(id) {
            let k = choose|k: int| 0 <= k < unloads.len() && unloads[k] == id;
            assert(r2[unloads[k]].operation is UnloadRequested);
        }
        assert(r2[id] == r1[id]);
        if loads.contains(id) {
            let k = choose|k: int| 0 <= k < loads.len() && loads[k] == id;
            assert(r1[loads[k]].operation is LoadRequested);
        }
    }
}

/// The chunks a tick takes for requests of `kind`: queued records, each
/// once, no more than the budget, and all of the queued ones when fewer
/// than the budget are taken.
proof fn lemma_queued_chunks_facts(recs: Map<ChunkId, RecordModel>, kind: StreamRequestKind, budget: usize)
    requires
        recs.dom().finite(),
    ensures
        ({
            let q = queued_chunks(recs, kind, budget);
            &&& q.len() <= budget
            &&& forall|k: int| 0 <= k < q.len() ==> recs.contains_key(#[trigger] q[k])
                && recs[q[k]].operation == queued_operation(kind)
            &&& forall|a: int, b: int| 0 <= a < b < q.len() ==> #[trigger] q[a] != #[trigger] q[b]
            &&& q.len() < budget ==> forall|id: ChunkId|
                #[trigger] recs.contains_key(id) && recs[id].operation == queued_operation(kind) ==> q.contains(id)
        }),
{
    let ks = queued_keys(recs, kind);
    let ids = crate::seqs::lemma_set_as_seq(recs.dom());
    let pq = |id: ChunkId| recs[id].operation == queued_operation(kind);
    let fil = ids.filter(pq);
    let kq = fil.map_values(|id: ChunkId| QueueKey { rank: recs[id].rank@, chunk_id: id });
    ids.filter_lemma(pq);
    assert(kq.to_set() =~= ks) by {
        assert forall|k: QueueKey| kq.to_set().contains(k) <==> ks.contains(k) by {
            if ks.contains(k) {
                let id = k.chunk_id;
                assert(ids.to_set().contains(id));
                let i = choose|i: int| 0 <= i < ids.len() && ids[i] == id;
                assert(fil.contains(ids[i]));
                let j = choose|j: int| 0 <= j < fil.len() && fil[j] == id;
                assert(kq[j] == k);
            }
            if kq.to_set().contains(k) {
                let j = choose|j: int| 0 <= j < kq.len() && kq[j] == k;
                assert(pq(fil[j]));
                ids.lemma_filter_contains_rev(pq, fil[j]);
                assert(ids.contains(fil[j]));
                let i = choose|i: int| 0 <= i < ids.len() && ids[i] == fil[j];
                assert(ids.to_set().contains(fil[j]));
            }
        }
    }
    crate::order::lemma_arrange_exists(kq);
    let keys = arrange(ks);
    let q = queued_chunks(recs, kind, budget);
    QueueKey::lemma_strict_total();
    assert forall|k: int| 0 <= k < q.len() implies recs.contains_key(#[trigger] q[k])
        && recs[q[k]].operation == queued_operation(kind) by {
        assert(keys.to_set().contains(keys[k]));
    }
    assert forall|a: int, b: int| 0 <= a < b < q.len() implies #[trigger] q[a] != #[trigger] q[b] by {
        assert(keys[a].key_less(keys[b]));
        assert(keys.to_set().contains(keys[a]));
        assert(keys.to_set().contains(keys[b]));
    }
    if q.len() < budget {
        assert forall|id: ChunkId| #[trigger] recs.contains_key(id) && recs[id].operation == queued_operation(kind)
            implies q.contains(id) by {
            let k = QueueKey { rank: recs[id].rank@, chunk_id: id };
            assert(ks.contains(k));
            assert(keys.to_set().contains(k));
            let i = choose|i: int| 0 <= i < keys.len() && keys[i] == k;
            assert(q[i] == id);
        }
    }
}

/// A provider report never puts a request in flight that was not.
proof fn lemma_provider_step_in_flight(r: RecordModel, e: ProviderEvent, kind: StreamRequestKind)
    requires
        provider_step(r, e) is Some,
    ensures
        in_flight_as((provider_step(r, e)->0).0.operation, kind) ==> in_flight_as(r.operation, kind),
{
    let r2 = (provider_step(r, e)->0).0;
    if !(r.operation is LoadRequested || r.operation is UnloadRequested) || e.kind != ProviderEventKind::Started {
        let r1 = RecordModel { operation: ChunkOperation::Idle, ..r };
        lemma_reconcile_active(r1);
        assert forall|x: RecordModel| x.operation == ChunkOperation::Idle implies !in_flight_as(#[trigger] reconcile(x).0.operation, kind) by {
            lemma_reconcile_active(x);
        }
    }
}

/// No more than `cap` records are tracked.
pub open spec fn tracked_within(recs: Map<ChunkId, RecordModel>, cap: usize) -> bool {
    recs.dom().finite() && recs.dom().len() <= cap
}

/// Records whose chunks are among those of records within a limit are
/// within it too.
proof fn lemma_tracked_subset(a: Map<ChunkId, RecordModel>, b: Map<ChunkId, RecordModel>, cap: usize)
    requires
        tracked_within(a, cap),
        b.dom().subset_of(a.dom()),
    ensures
        tracked_within(b, cap),
{
    vstd::set_lib::lemma_len_subset(b.dom(), a.dom());
}

/// Marking chunks demanded creates records only while fewer than `cap` are
/// tracked.
proof fn lemma_enter_all_within(m: Map<ChunkId, RecordModel>, s: Seq<DemandedChunk>, cap: usize)
    requires
        tracked_within(m, cap),
    ensures
        tracked_within(enter_all(m, s, cap).0, cap),
    decreases s.len(),
{
    if s.len() > 0 {
        lemma_enter_all_within(m, s.drop_last(), cap);
        let r0 = enter_all(m, s.drop_last(), cap).0;
        let x = s.last().chunk_id;
        if has_room(r0, x, cap) {
            let r1 = mark_desired(r0, x, s.last().rank).0;
            if r0.contains_key(x) {
                assert(r1.dom() =~= r0.dom());
            } else {
                assert(r1.dom() =~= r0.dom().insert(x));
            }
        }
    }
}

/// Applying a demand change keeps the records within the limit.
proof fn lemma_apply_demand_within(recs: Map<ChunkId, RecordModel>, old: Seq<DemandedChunk>, new: Seq<DemandedChunk>, cap: usize)
    requires
        tracked_within(recs, cap),
    ensures
        tracked_within(apply_demand(recs, old, new, cap).0, cap),
{
    let r1 = enter_all(recs, entered_chunks(old, new), cap).0;
    let r2 = update_all(r1, updated_chunks(old, new));
    let r3 = exit_all(r2, exited_chunks(old, new)).0;
    lemma_enter_all_within(recs, entered_chunks(old, new), cap);
    assert(r3.dom() =~= r1.dom()) by {
        assert forall|id: ChunkId| r3.dom().contains(id) <==> r1.dom().contains(id) by {
            lemma_update_all_keys(r1, updated_chunks(old, new), id);
            lemma_exit_all_keys(r2, exited_chunks(old, new), id);
        }
    }
    lemma_tracked_subset(r3, prune(r3), cap);
}

/// Marking chunks demanded leaves a chunk of `s` without a record only when
/// `cap` records are tracked, and never drops a record.
proof fn lemma_enter_all_full(m: Map<ChunkId, RecordModel>, s: Seq<DemandedChunk>, cap: usize, id: ChunkId)
    requires
        m.dom().finite(),
    ensures
        enter_all(m, s, cap).0.dom().finite(),
        m.dom().subset_of(enter_all(m, s, cap).0.dom()),
        enter_all(m, s, cap).0.dom().len() >= m.dom().len(),
        crate::demand::snapshot::has_chunk(s, id) && !enter_all(m, s, cap).0.contains_key(id)
            ==> enter_all(m, s, cap).0.dom().len() >= cap,
    decreases s.len(),
{
    if s.len() > 0 {
        lemma_enter_all_full(m, s.drop_last(), cap, id);
        let r0 = enter_all(m, s.drop_last(), cap).0;
        let x = s.last().chunk_id;
        if crate::demand::snapshot::has_chunk(s, id) && x != id {
            let j = choose|j: int| 0 <= j < s.len() && (#[trigger] s[j]).chunk_id == id;
            assert(s.drop_last()[j] == s[j]);
        }
        if has_room(r0, x, cap) {
            let r1 = mark_desired(r0, x, s.last().rank).0;
            if r0.contains_key(x) {
                assert(r1.dom() =~= r0.dom());
            } else {
                assert(r1.dom() =~= r0.dom().insert(x));
            }
        }
    }
}

/// Marking chunks demanded leaves no neutral record behind.
proof fn lemma_enter_all_no_neutral(m: Map<ChunkId, RecordModel>, s: Seq<DemandedChunk>, cap: usize)
    requires
        no_neutral(m),
    ensures
        no_neutral(enter_all(m, s, cap).0),
    decreases s.len(),
{
    if s.len() > 0 {
        lemma_enter_all_no_neutral(m, s.drop_last(), cap);
        let r0 = enter_all(m, s.drop_last(), cap).0;
        let x = s.last().chunk_id;
        if has_room(r0, x, cap) {
            let base = if r0.contains_key(x) { r0[x] } else { fresh_record(x) };
            let r = RecordModel {
                desired: true,
                rank: s.last().rank,
                operation: if base.operation == ChunkOperation::UnloadQueued { ChunkOperation::Idle } else { base.operation },
                ..base
            };
            assert(reconcile(r).0.desired == r.desired);
        }
    }
}

/// No record is neutral.
pub open spec fn no_neutral(recs: Map<ChunkId, RecordModel>) -> bool {
    forall|id: ChunkId| #[trigger] recs.contains_key(id) ==> !neutral(recs[id])
}

/// The controller never keeps a record that says nothing: each record is
/// demanded, resident, busy or blocked.
pub proof fn lemma_no_neutral_record(c: &WorldStreamingController)
    requires
        c.wf(),
    ensures
        no_neutral(c@.records),
{
}

/// A tracked chunk's record is demanded exactly when the chunk is in the
/// effective demand.
pub proof fn lemma_records_desired_exactly_when_demanded(c: &WorldStreamingController)
    requires
        c.wf(),
    ensures
        demand_matches(c@.records, c@.planner.chunks),
{
}

/// The controller never tracks more chunk records than its capacity allows.
pub proof fn lemma_tracked_records_within_capacity(c: &WorldStreamingController)
    requires
        c.wf(),
    ensures
        c@.records.dom().finite(),
        c@.records.dom().len() <= c@.capacity.max_tracked_records,
{
}

/// The controller never has more load requests, nor more unload requests,
/// in flight than its capacity allows.
pub proof fn lemma_in_flight_within_capacity(c: &WorldStreamingController)
    requires
        c.wf(),
    ensures
        in_flight_count(c@.records, StreamRequestKind::Load) <= c@.capacity.max_in_flight_loads,
        in_flight_count(c@.records, StreamRequestKind::Unload) <= c@.capacity.max_in_flight_unloads,
{
}

/// Every in-flight operation of a record is pending under its request id,
/// for that record's chunk; with `lemma_pending_requests_are_owned`, the
/// pending requests are exactly the records' in-flight requests.
pub proof fn lemma_in_flight_requests_are_pending(c: &WorldStreamingController)
    requires
        c.wf(),
    ensures
        active_pending(c@),
{
}

/// Every record keeps its shape: load operations only on absent chunks,
/// unload operations only on resident ones; a blocked load only on an
/// idle, demanded, absent chunk and a blocked unload only on an idle,
/// undemanded, resident one; and an idle, unblocked record has the
/// availability its demand asks for.
pub proof fn lemma_records_keep_their_shape(c: &WorldStreamingController)
    requires
        c.wf(),
    ensures
        all_shaped(c@.records),
{
}

/// Every pending request is the in-flight request of its chunk's live
/// record, and lies below the next request id: ids are never reused.
pub proof fn lemma_pending_requests_are_owned(c: &WorldStreamingController)
    requires
        c.wf(),
    ensures
        pending_consistent(c@),
{
}

/// The pending requests, as `pending_requests` lists them, are exactly the
/// in-flight requests of the records, each once, in increasing id order:
/// each is the in-flight request of the record of its chunk, and every
/// record's in-flight request is among them. Load requests are in flight
/// only for absent chunks, unload requests only for resident ones.
pub proof fn lemma_pending_requests_are_the_in_flight_operations(c: &WorldStreamingController)
    requires
        c.wf(),
    ensures
        ({
            let m = c@;
            let l = pending_list(m);
            &&& forall|i: int, j: int| 0 <= i < j < l.len() ==> (#[trigger] l[i]).request_id@ < (#[trigger] l[j]).request_id@
            &&& forall|i: int|
                0 <= i < l.len() ==> m.records.contains_key((#[trigger] l[i]).chunk_id)
                    && spec_active_request(m.records[l[i].chunk_id].operation) == Some(l[i])
            &&& forall|id: ChunkId|
                #[trigger] m.records.contains_key(id) && spec_active_request(m.records[id].operation) is Some
                    ==> l.contains(spec_active_request(m.records[id].operation)->0)
            &&& all_shaped(m.records)
        }),
{
    let m = c@;
    let ps = c.pending@;
    let ks = Seq::new(ps.len(), |i: int| ps[i].0);
    assert(strictly_sorted(ks)) by {
        assert forall|a: int, b: int| 0 <= a < b < ks.len() implies (#[trigger] ks[a]).key_less(#[trigger] ks[b]) by {
        }
    }
    assert(ks.to_set() =~= m.pending.dom()) by {
        assert forall|id: StreamRequestId| ks.to_set().contains(id) <==> m.pending.dom().contains(id) by {
            if ks.to_set().contains(id) {
                let k = choose|k: int| 0 <= k < ks.len() && ks[k] == id;
                assert(has_pending(ps, id));
            }
            if m.pending.dom().contains(id) {
                let k = choose|k: int| 0 <= k < ps.len() && (#[trigger] ps[k]).0 == id;
                assert(ks[k] == id);
            }
        }
    }
    lemma_arrange_of_sorted(ks);
    let l = pending_list(m);
    assert forall|i: int| 0 <= i < l.len() implies m.records.contains_key((#[trigger] l[i]).chunk_id)
        && spec_active_request(m.records[l[i].chunk_id].operation) == Some(l[i]) by {
        assert(m.pending.contains_key(ks[i]));
    }
    assert forall|i: int, j: int| 0 <= i < j < l.len() implies (#[trigger] l[i]).request_id@ < (#[trigger] l[j]).request_id@ by {
        assert(m.pending.contains_key(ks[i]));
        assert(m.pending.contains_key(ks[j]));
        assert(ks[i].key_less(ks[j]));
    }
    assert forall|id: ChunkId|
        #[trigger] m.records.contains_key(id) && spec_active_request(m.records[id].operation) is Some
            implies l.contains(spec_active_request(m.records[id].operation)->0) by {
        let q = spec_active_request(m.records[id].operation)->0;
        assert(m.pending.contains_key(q.request_id));
        assert(ks.to_set().contains(q.request_id));
        let k = choose|k: int| 0 <= k < ks.len() && ks[k] == q.request_id;
        assert(l[k] == q);
    }
}

impl WorldStreamingController {
    /// Takes a provider's report about a pending request. A report about an
    /// unknown request, about another chunk than the request's, or that does
    /// not fit the chunk's operation is rejected and changes nothing.
    pub fn accept_provider_event(&mut self, event: ProviderEvent) -> (r: Result<Vec<WorldStreamingEvent>, WorldStreamingError>)
        requires
            old(self).wf(),
        ensures
            final(self).wf(),
            match accept_spec(old(self)@, event) {
                Err(e) => r == Err::<Vec<WorldStreamingEvent>, _>(e) && final(self)@ == old(self)@,
                Ok((m, evs)) => final(self)@ == m && (r matches Ok(v) && v@ == evs),
            },
    {
        let ghost m0 = self@;
        proof {
            lemma_record_map_keys(self.records@);
        }
        let mut i: usize = 0;
        while i < self.pending.len() && self.pending[i].0.get() != event.request_id.get()
            invariant
                i <= self.pending@.len(),
                forall|k: int| 0 <= k < i ==> (#[trigger] self.pending@[k]).0@ != event.request_id@,
            decreases self.pending@.len() - i,
        {
            i = i + 1;
        }
        if i == self.pending.len() {
            proof {
                if has_pending(self.pending@, event.request_id) {
                    let k = choose|k: int| 0 <= k < self.pending@.len() && (#[trigger] self.pending@[k]).0 == event.request_id;
                }
            }
            return Err(WorldStreamingError::UnknownRequest { request_id: event.request_id });
        }
        proof {
            StreamRequestId::lemma_view_injective(self.pending@[i as int].0, event.request_id);
            lemma_pending_at(self.pending@, i as int);
        }
        let expected = self.pending[i].1;
        if !chunk_id_eq(&expected, &event.chunk_id) {
            return Err(WorldStreamingError::RequestChunkMismatch {
                request_id: event.request_id,
                expected,
                actual: event.chunk_id,
            });
        }
        let pos = match find_record(&self.records, event.chunk_id) {
            Ok(pos) => pos,
            Err(_) => {
                return Err(WorldStreamingError::UnknownRequest { request_id: event.request_id });
            },
        };
        let r = self.records[pos];
        proof {
            ChunkRuntimeRecord::lemma_view_fields(r);
        }
        let invalid = WorldStreamingError::InvalidProviderEvent {
            request_id: event.request_id,
            event_kind: event.kind,
            availability: r.availability,
            operation: r.operation,
        };
        match r.operation.active_request() {
            None => {
                return Err(invalid);
            },
            Some(active) => {
                if active.request_id.get() != event.request_id.get() {
                    return Err(invalid);
                }
                proof {
                    StreamRequestId::lemma_view_injective(active.request_id, event.request_id);
                }
            },
        }
        let mut events: Vec<WorldStreamingEvent> = Vec::new();
        let (r2, finished) = match provider_step_exec(r, event, &mut events) {
            None => {
                return Err(invalid);
            },
            Some(pair) => pair,
        };
        proof {
            ChunkRuntimeRecord::lemma_view_fields(r2);
            lemma_record_update(self.records@, pos as int, r2);
        }
        self.records.set(pos, r2);
        if finished {
            proof {
                lemma_pending_remove(self.pending@, i as int);
            }
            self.pending.remove(i);
        }
        let ghost before_prune = record_map(self.records@);
        prune_records(&mut self.records);
        proof {
            lemma_record_map_keys(self.records@);
            lemma_accept_consistent(m0, event);
            assert(self@.records.dom().subset_of(m0.records.dom())) by {
                assert forall|id: ChunkId| #[trigger] self@.records.dom().contains(id) implies m0.records.dom().contains(id) by {
                    assert(before_prune.contains_key(id));
                }
            }
            lemma_tracked_subset(m0.records, self@.records, m0.capacity.max_tracked_records);
            let rm = m0.records[event.chunk_id];
            lemma_provider_step_in_flight(rm, event, StreamRequestKind::Load);
            lemma_provider_step_in_flight(rm, event, StreamRequestKind::Unload);
            assert(in_flight_from(m0.records, self@.records, StreamRequestKind::Load)) by {
                assert forall|id: ChunkId| #[trigger] self@.records.contains_key(id) && in_flight_as(self@.records[id].operation, StreamRequestKind::Load)
                    implies m0.records.contains_key(id) && in_flight_as(m0.records[id].operation, StreamRequestKind::Load) by {
                    assert(before_prune.contains_key(id));
                }
            }
            assert(in_flight_from(m0.records, self@.records, StreamRequestKind::Unload)) by {
                assert forall|id: ChunkId| #[trigger] self@.records.contains_key(id) && in_flight_as(self@.records[id].operation, StreamRequestKind::Unload)
                    implies m0.records.contains_key(id) && in_flight_as(m0.records[id].operation, StreamRequestKind::Unload) by {
                    assert(before_prune.contains_key(id));
                }
            }
            lemma_in_flight_le(m0.records, self@.records, StreamRequestKind::Load);
            lemma_in_flight_le(m0.records, self@.records, StreamRequestKind::Unload);
        }
        Ok(events)
    }

    /// Queues again the request kind whose failure blocks a chunk: a load
    /// for a demanded absent chunk, an unload for an undemanded resident one.
    pub fn retry_blocking_failure(&mut self, chunk_id: ChunkId) -> (r: Result<WorldStreamingEvent, WorldStreamingError>)
        requires
            old(self).wf(),
        ensures
            final(self).wf(),
            match retry_spec(old(self)@, chunk_id) {
                Err(e) => r == Err::<WorldStreamingEvent, _>(e) && final(self)@ == old(self)@,
                Ok((m, ev)) => final(self)@ == m && r == Ok::<WorldStreamingEvent, WorldStreamingError>(ev),
            },
    {
        let ghost m0 = self@;
        proof {
            lemma_record_map_keys(self.records@);
        }
        let pos = match find_record(&self.records, chunk_id) {
            Ok(pos) => pos,
            Err(_) => {
                return Err(WorldStreamingError::UnknownChunk { chunk_id });
            },
        };
        let r = self.records[pos];
        proof {
            ChunkRuntimeRecord::lemma_view_fields(r);
        }
        let kind = match (r.desired, r.availability, r.operation, r.blocking_failure) {
            (true, ChunkAvailability::Absent, ChunkOperation::Idle, Some(StreamRequestKind::Load)) => StreamRequestKind::Load,
            (false, ChunkAvailability::Resident, ChunkOperation::Idle, Some(StreamRequestKind::Unload)) => StreamRequestKind::Unload,
            _ => {
                return Err(WorldStreamingError::InvalidBlockingFailureRetry {
                    chunk_id,
                    desired: r.desired,
                    availability: r.availability,
                    operation: r.operation,
                    blocking_failure: r.blocking_failure,
                });
            },
        };
        let mut r2 = r;
        r2.blocking_failure = None;
        r2.operation = queued_operation_exec(kind);
        proof {
            ChunkRuntimeRecord::lemma_view_fields(r2);
            lemma_record_update(self.records@, pos as int, r2);
        }
        self.records.set(pos, r2);
        proof {
            lemma_record_map_keys(self.records@);
            let m1 = self@;
            assert forall|pid: StreamRequestId| #[trigger] m1.pending.contains_key(pid) implies {
                &&& m1.records.contains_key(m1.pending[pid])
                &&& spec_active_request(m1.records[m1.pending[pid]].operation) is Some
                &&& spec_active_request(m1.records[m1.pending[pid]].operation)->0.request_id == pid
                &&& spec_active_request(m1.records[m1.pending[pid]].operation)->0.chunk_id == m1.pending[pid]
                &&& (m1.next_request_id matches Some(n) ==> pid@ < n@)
            } by {
                let cc = m0.pending[pid];
                assert(m0.records.contains_key(cc) && spec_active_request(m0.records[cc].operation) is Some);
            }
            assert forall|id: ChunkId| #[trigger] m1.records.contains_key(id) implies !neutral(m1.records[id]) by {
                if id != chunk_id {
                    assert(m0.records.contains_key(id));
                }
            }
            assert(m1.records.dom() =~= m0.records.dom());
            lemma_record_ids(self.records@);
            assert(in_flight_from(m0.records, m1.records, StreamRequestKind::Load));
            assert(in_flight_from(m0.records, m1.records, StreamRequestKind::Unload));
            lemma_in_flight_le(m0.records, m1.records, StreamRequestKind::Load);
            lemma_in_flight_le(m0.records, m1.records, StreamRequestKind::Unload);
        }
        Ok(WorldStreamingEvent::new(chunk_id, queued_event_exec(kind)))
    }

    /// The id the next request will get, if any is left.
    pub fn next_request_id(&self) -> (r: Option<StreamRequestId>)
        ensures
            r == self@.next_request_id,
    {
        self.next_request_id
    }

    /// Moves request numbering forward to `next`: it is accepted, and `true`
    /// returned, when it does not lie below the current next id (`None`,
    /// no id left, is always accepted; once no id is left, none comes
    /// back). Ids are issued in increasing order, so no id is ever issued
    /// twice. Otherwise nothing changes.
    pub fn set_next_request_id(&mut self, next: Option<StreamRequestId>) -> (r: bool)
        requires
            old(self).wf(),
        ensures
            final(self).wf(),
            r == match (old(self)@.next_request_id, next) {
                (_, None) => true,
                (None, Some(_)) => false,
                (Some(o), Some(n)) => o@ <= n@,
            },
            r ==> final(self)@ == (ControllerModel { next_request_id: next, ..old(self)@ }),
            !r ==> final(self)@ == old(self)@,
    {
        if let Some(n) = next {
            match self.next_request_id {
                None => {
                    return false;
                },
                Some(o) => {
                    if n.get() < o.get() {
                        return false;
                    }
                },
            }
        }
        self.next_request_id = next;
        true
    }

    /// Runs one tick: applies the tick's demand transaction, if it has
    /// changes; gives demanded chunks without a record one, in rank order,
    /// while fewer records than the capacity allows are tracked; then issues
    /// queued load and unload requests within the budgets and the in-flight
    /// limits, with fresh request ids, and reports the pressure counters. A
    /// rejected transaction changes nothing; when the request ids run out,
    /// nothing is issued. A demanded chunk is left without a record only
    /// when the record limit is reached.
    #[verifier::rlimit(60)]
    #[verifier::spinoff_prover]
    pub fn tick(&mut self, tick: StreamingTick) -> (r: Result<StreamingTickOutput, WorldStreamingError>)
        requires
            old(self).wf(),
        ensures
            final(self).wf(),
            match tick_spec(old(self)@, tick.spec_changes()) {
                Err(e) => r == Err::<StreamingTickOutput, _>(e) && final(self)@ == old(self)@,
                Ok((m, out)) => final(self)@ == m && (r matches Ok(o) && o.requests@ == out.requests
                    && o.events@ == out.events && o.request_id_exhausted == out.request_id_exhausted
                    && o.pressure == out.pressure),
            },
            r is Ok ==> forall|id: ChunkId|
                crate::demand::snapshot::has_chunk(final(self)@.planner.chunks, id) && !#[trigger] final(self)@.records.contains_key(id)
                    ==> final(self)@.records.dom().len() >= final(self)@.capacity.max_tracked_records,
            same_availability(old(self)@.records, final(self)@.records),
    {
        let ghost m0 = self@;
        proof {
            lemma_record_map_keys(self.records@);
        }
        let mut events: Vec<WorldStreamingEvent> = Vec::new();
        let changes = tick.demand_changes;
        let cap = self.capacity.max_tracked_records;
        if changes.len() > 0 {
            match self.planner.apply_changes(changes) {
                Err(e) => {
                    return Err(WorldStreamingError::SpatialDemand(e));
                },
                Ok(delta) => {
                    apply_delta_in(&mut self.records, &delta, cap, &mut events);
                    proof {
                        let r1 = enter_all(m0.records, delta.spec_entered(), cap).0;
                        let r2 = update_all(r1, delta.spec_updated());
                        let r3 = exit_all(r2, delta.spec_exited()).0;
                        lemma_enter_all_active(m0.records, delta.spec_entered(), cap);
                        lemma_update_all_active(r1, delta.spec_updated());
                        lemma_exit_all_active(r2, delta.spec_exited());
                        lemma_prune_active(r3);
                        lemma_active_kept_trans(m0.records, r1, r2);
                        lemma_active_kept_trans(m0.records, r2, r3);
                        lemma_active_kept_trans(m0.records, r3, prune(r3));
                        lemma_record_map_keys(self.records@);
                        lemma_consistent_after_kept(m0, record_map(self.records@));
                        assert(events@ =~= apply_demand(m0.records, m0.planner.chunks, self@.planner.chunks, cap).1);
                        lemma_demand_changes_keep_availability(m0.records, m0.planner.chunks, self@.planner.chunks, cap);
                        lemma_demand_changes_keep_shape(m0.records, m0.planner.chunks, self@.planner.chunks, cap);
                        lemma_demand_changes_match_demand(m0.records, m0.planner.chunks, self@.planner.chunks, cap);
                        lemma_demand_changes_start_nothing(m0.records, m0.planner.chunks, self@.planner.chunks, cap);
                        lemma_apply_demand_within(m0.records, m0.planner.chunks, self@.planner.chunks, cap);
                    }
                },
            }
        } else {
            proof {
                assert(events@ =~= Seq::<WorldStreamingEvent>::empty());
            }
        }
        let ghost mh = self@;
        let ghost eh = events@;
        proof {
            crate::demand::laws::lemma_effective_demand_order(&self.planner);
            lemma_record_ids(self.records@);
            if tick.spec_changes().len() > 0 {
                lemma_demand_changes_start_nothing(m0.records, m0.planner.chunks, mh.planner.chunks, cap);
                lemma_in_flight_within_from(m0.records, mh.records, m0.capacity);
            }
            assert(in_flight_within(mh.records, mh.capacity));
        }
        track_in(&mut self.records, self.planner.effective_snapshot().chunks(), cap, &mut events);
        proof {
            let f = untracked(mh.records, mh.planner.chunks);
            lemma_enter_all_active(mh.records, f, cap);
            lemma_record_map_keys(self.records@);
            lemma_consistent_after_kept(mh, record_map(self.records@));
            lemma_enter_all_availability(mh.records, f, cap);
            lemma_same_availability_trans(m0.records, mh.records, self@.records);
            lemma_enter_all_shape(mh.records, f, cap);
            lemma_tracking_matches_demand(mh.records, mh.planner.chunks, cap);
            lemma_enter_all_from(mh.records, f, cap);
            lemma_enter_all_no_neutral(mh.records, f, cap);
            lemma_enter_all_within(mh.records, f, cap);
            lemma_in_flight_within_from(mh.records, self@.records, mh.capacity);
            assert(events@ =~= prepared(m0, mh.planner, tick.spec_changes()).1);
            let pf = |c: DemandedChunk| !mh.records.contains_key(c.chunk_id);
            assert forall|id: ChunkId| crate::demand::snapshot::has_chunk(mh.planner.chunks, id) && !#[trigger] self@.records.contains_key(id)
                implies self@.records.dom().len() >= cap by {
                lemma_enter_all_full(mh.records, f, cap, id);
                let j = choose|j: int| 0 <= j < mh.planner.chunks.len() && (#[trigger] mh.planner.chunks[j]).chunk_id == id;
                assert(pf(mh.planner.chunks[j]));
                assert(f.contains(mh.planner.chunks[j]));
                let k = choose|k: int| 0 <= k < f.len() && f[k] == mh.planner.chunks[j];
                assert(f[k].chunk_id == id);
            }
        }
        let ghost m1 = self@;
        assert(same_availability(m0.records, m1.records));
        assert(pending_consistent(m1));
        assert(no_neutral(m1.records));
        let in_flight_loads = count_ops(&self.records, StreamRequestKind::Load, true);
        let in_flight_unloads = count_ops(&self.records, StreamRequestKind::Unload, true);
        let load_allowance = allowance_exec(
            self.budgets.max_load_requests_per_tick,
            self.capacity.max_in_flight_loads,
            in_flight_loads,
        );
        let unload_allowance = allowance_exec(
            self.budgets.max_unload_requests_per_tick,
            self.capacity.max_in_flight_unloads,
            in_flight_unloads,
        );
        let loads = queued_candidates(&self.records, StreamRequestKind::Load, load_allowance);
        let unloads = queued_candidates(&self.records, StreamRequestKind::Unload, unload_allowance);
        let reserved = reserve_ids(self.next_request_id, loads.len() as u128 + unloads.len() as u128);
        let (ids, next) = match reserved {
            None => {
                let pressure = count_pressure(&self.records);
                return Ok(StreamingTickOutput { requests: Vec::new(), events, request_id_exhausted: true, pressure });
            },
            Some(pair) => pair,
        };
        let nl = loads.len();
        let mut requests: Vec<StreamRequest> = Vec::new();
        let ghost recs1 = record_map(self.records@);
        let ghost pend1 = pending_map(self.pending@);
        proof {
            assert forall|a: int, b: int| 0 <= a < b < ids@.len() implies (#[trigger] ids@[a])@ < (#[trigger] ids@[b])@ by {
                StreamRequestId::lemma_spec_from((m1.next_request_id->0@ + a) as u64);
                StreamRequestId::lemma_spec_from((m1.next_request_id->0@ + b) as u64);
            }
            assert forall|k: int| 0 <= k < self.pending@.len() implies (#[trigger] self.pending@[k]).0@ < ids@[0]@ || loads@.len() == 0 by {
                if loads@.len() > 0 {
                    lemma_pending_at(self.pending@, k);
                    StreamRequestId::lemma_spec_from((m1.next_request_id->0@) as u64);
                }
            }
            assert(requests@ =~= Seq::<StreamRequest>::empty());
        }
        issue_in(&mut self.records, &mut self.pending, StreamRequestKind::Load, &loads, &ids, 0, &mut requests, &mut events);
        proof {
            assert(ids@.skip(0) =~= ids@);
            assert forall|a: int, b: int| 0 <= a < b < ids@.len() implies #[trigger] ids@[a] != #[trigger] ids@[b] by {
                assert(ids@[a]@ < ids@[b]@);
            }
            lemma_issue_facts(recs1, pend1, StreamRequestKind::Load, loads@, ids@);
            assert forall|k: int| 0 <= k < self.pending@.len() implies (#[trigger] self.pending@[k]).0@ < ids@[nl as int]@ || unloads@.len() == 0 by {
                if unloads@.len() > 0 {
                    if nl > 0 {
                        assert(ids@[nl - 1]@ < ids@[nl as int]@);
                    } else {
                        lemma_pending_at(self.pending@, k);
                        StreamRequestId::lemma_spec_from((m1.next_request_id->0@) as u64);
                    }
                }
            }
        }
        issue_in(&mut self.records, &mut self.pending, StreamRequestKind::Unload, &unloads, &ids, nl, &mut requests, &mut events);
        self.next_request_id = next;
        proof {
            lemma_issue_consistent(m1, loads@, unloads@, ids@, next);
            lemma_issue_no_neutral(m1.records, m1.pending, loads@, unloads@, ids@);
            lemma_record_map_keys(self.records@);
            let (r1, p1, q1, e1) = issue(m1.records, m1.pending, StreamRequestKind::Load, loads@, ids@);
            let r2 = issue(r1, p1, StreamRequestKind::Unload, unloads@, ids@.skip(loads@.len() as int)).0;
            assert(self@.records == r2);
            lemma_same_availability_trans(m0.records, m1.records, self@.records);
            lemma_tracked_subset(m1.records, r2, self@.capacity.max_tracked_records);
            assert(r2.dom() =~= m1.records.dom());
            lemma_issue_within(m1.records, m1.pending, loads@, unloads@, ids@, m1.capacity);
            assert forall|id: ChunkId| #[trigger] r2.contains_key(id) implies r2[id].desired == crate::demand::snapshot::has_chunk(self@.planner.chunks, id) by {
                assert(desired_in(r2, id) == desired_in(m1.records, id));
                assert(m1.records.contains_key(id));
            }
        }
        let pressure = count_pressure(&self.records);
        Ok(StreamingTickOutput { requests, events, request_id_exhausted: false, pressure })
    }

    /// The controller's invariant.
    pub closed spec fn wf(&self) -> bool {
        &&& self.planner.wf()
        &&& records_sorted(self.records@)
        &&& pending_sorted(self.pending@)
        &&& pending_consistent(self@)
        &&& no_neutral(self@.records)
        &&& all_shaped(self@.records)
        &&& demand_matches(self@.records, self@.planner.chunks)
        &&& active_pending(self@)
        &&& tracked_within(self@.records, self@.capacity.max_tracked_records)
        &&& in_flight_within(self@.records, self@.capacity)
    }

    /// A controller with no demand, no records and request ids from 1.
    pub fn new(config: WorldStreamingConfig) -> (r: Self)
        ensures
            r.wf(),
            r@.world_id == config.world_id,
            r@.planner.world_id == config.world_id,
            r@.planner.limits == config.demand_limits,
            r@.planner.sources.len() == 0,
            r@.planner.chunks.len() == 0,
            r@.budgets == config.budgets,
            r@.capacity == config.capacity,
            r@.records == Map::<ChunkId, RecordModel>::empty(),
            r@.pending == Map::<StreamRequestId, ChunkId>::empty(),
            r@.next_request_id == Some(StreamRequestId::spec_from(1)),
    {
        let planner = SpatialDemandPlanner::new(config.world_id, config.partition, config.demand_limits);
        let r = WorldStreamingController {
            world_id: config.world_id,
            planner,
            budgets: config.budgets,
            capacity: config.capacity,
            records: Vec::new(),
            pending: Vec::new(),
            next_request_id: StreamRequestId::try_new(1),
        };
        proof {
            assert(record_map(r.records@) =~= Map::<ChunkId, RecordModel>::empty());
            assert(pending_map(r.pending@) =~= Map::<StreamRequestId, ChunkId>::empty());
            let e = Map::<ChunkId, RecordModel>::empty();
            assert(e.dom().filter(|id: ChunkId| in_flight_as(e[id].operation, StreamRequestKind::Load)) =~= Set::<ChunkId>::empty());
            assert(e.dom().filter(|id: ChunkId| in_flight_as(e[id].operation, StreamRequestKind::Unload)) =~= Set::<ChunkId>::empty());
            assert(e.dom() =~= Set::<ChunkId>::empty());
        }
        r
    }

    /// The controller's world.
    pub fn world_id(&self) -> (r: WorldId)
        ensures
            r == self@.world_id,
    {
        self.world_id
    }

    /// Whether the controller tracks any chunk record.
    pub fn has_records(&self) -> (r: bool)
        requires
            self.wf(),
        ensures
            r <==> exists|id: ChunkId| self@.records.contains_key(id),
    {
        proof {
            if self.records@.len() > 0 {
                lemma_record_at(self.records@, 0);
            }
        }
        self.records.len() > 0
    }

    /// The request budgets.
    pub fn budgets(&self) -> (r: StreamingBudgets)
        ensures
            r == self@.budgets,
    {
        self.budgets
    }

    /// Replaces the request budgets.
    pub fn set_budgets(&mut self, budgets: StreamingBudgets)
        requires
            old(self).wf(),
        ensures
            final(self).wf(),
            final(self)@ == (ControllerModel { budgets, ..old(self)@ }),
    {
        self.budgets = budgets;
    }

    /// The demand planner's limits.
    pub fn demand_limits(&self) -> (r: DemandLimits)
        ensures
            r == self@.planner.limits,
    {
        self.planner.limits()
    }

    /// The current effective demand.
    pub fn effective_demand(&self) -> (r: &EffectiveDemandSnapshot)
        ensures
            r.spec_chunks() == self@.planner.chunks,
            r.spec_pressure() == self@.planner.pressure,
    {
        self.planner.effective_snapshot()
    }

    /// All records, in chunk order.
    pub fn records(&self) -> (r: Vec<ChunkRuntimeRecord>)
        requires
            self.wf(),
        ensures
            Seq::new(r@.len(), |i: int| r@[i]@) == record_list(self@.records),
    {
        let mut out: Vec<ChunkRuntimeRecord> = Vec::new();
        let mut i: usize = 0;
        while i < self.records.len()
            invariant
                i <= self.records@.len(),
                out@ == self.records@.take(i as int),
            decreases self.records@.len() - i,
        {
            out.push(self.records[i]);
            proof {
                assert(self.records@.take(i + 1) =~= self.records@.take(i as int).push(self.records@[i as int]));
            }
            i = i + 1;
        }
        proof {
            let s = self.records@;
            assert(s.take(s.len() as int) =~= s);
            let ids = Seq::new(s.len(), |k: int| s[k]@.chunk_id);
            assert(strictly_sorted(ids)) by {
                assert forall|a: int, b: int| 0 <= a < b < ids.len() implies (#[trigger] ids[a]).key_less(#[trigger] ids[b]) by {
                    assert(chunk_id_lt(s[a]@.chunk_id, s[b]@.chunk_id));
                }
            }
            assert(ids.to_set() =~= record_map(s).dom()) by {
                assert forall|id: ChunkId| ids.to_set().contains(id) <==> record_map(s).dom().contains(id) by {
                    if ids.to_set().contains(id) {
                        let k = choose|k: int| 0 <= k < ids.len() && ids[k] == id;
                        assert(has_record(s, id));
                    }
                    if record_map(s).dom().contains(id) {
                        let k = choose|k: int| 0 <= k < s.len() && (#[trigger] s[k])@.chunk_id == id;
                        assert(ids[k] == id);
                    }
                }
            }
            lemma_arrange_of_sorted(ids);
            assert forall|k: int| 0 <= k < s.len() implies #[trigger] s[k]@ == record_map(s)[ids[k]] by {
                lemma_record_at(s, k);
            }
            assert(Seq::new(out@.len(), |k: int| out@[k]@) =~= record_list(record_map(s)));
        }
        out
    }

    /// The record of a chunk, if the controller keeps one.
    pub fn record(&self, chunk_id: ChunkId) -> (r: Option<ChunkRuntimeRecord>)
        requires
            self.wf(),
        ensures
            r is Some <==> self@.records.contains_key(chunk_id),
            r matches Some(x) ==> x@ == self@.records[chunk_id],
    {
        match find_record(&self.records, chunk_id) {
            Ok(i) => Some(self.records[i]),
            Err(_) => None,
        }
    }

    /// The requests the provider still owes an answer for, in id order.
    pub fn pending_requests(&self) -> (r: Vec<StreamRequest>)
        requires
            self.wf(),
        ensures
            r@ == pending_list(self@),
    {
        let mut out: Vec<StreamRequest> = Vec::new();
        let mut i: usize = 0;
        let ghost m = self@;
        while i < self.pending.len()
            invariant
                self.wf(),
                m == self@,
                i <= self.pending@.len(),
                out@ == Seq::new(i as nat, |k: int| spec_active_request(m.records[self.pending@[k].1].operation)->0),
            decreases self.pending@.len() - i,
        {
            let (id, chunk) = self.pending[i];
            proof {
                lemma_pending_at(self.pending@, i as int);
                assert(m.pending.contains_key(id));
            }
            match find_record(&self.records, chunk) {
                Ok(k) => {
                    proof {
                        ChunkRuntimeRecord::lemma_view_fields(self.records@[k as int]);
                    }
                    match self.records[k].operation.active_request() {
                        Some(request) => {
                            out.push(request);
                        },
                        None => {
                            proof {
                                assert(false);
                            }
                        },
                    }
                },
                Err(_) => {
                    proof {
                        assert(false);
                    }
                },
            }
            proof {
                assert(out@ =~= Seq::new((i + 1) as nat, |k: int| spec_active_request(m.records[self.pending@[k].1].operation)->0));
            }
            i = i + 1;
        }
        proof {
            let s = self.pending@;
            let ids = Seq::new(s.len(), |k: int| s[k].0);
            assert(strictly_sorted(ids)) by {
                assert forall|a: int, b: int| 0 <= a < b < ids.len() implies (#[trigger] ids[a]).key_less(#[trigger] ids[b]) by {
                    assert(s[a].0@ < s[b].0@);
                }
            }
            assert(ids.to_set() =~= pending_map(s).dom()) by {
                assert forall|id: StreamRequestId| ids.to_set().contains(id) <==> pending_map(s).dom().contains(id) by {
                    if ids.to_set().contains(id) {
                        let k = choose|k: int| 0 <= k < ids.len() && ids[k] == id;
                        assert(has_pending(s, id));
                    }
                    if pending_map(s).dom().contains(id) {
                        let k = choose|k: int| 0 <= k < s.len() && (#[trigger] s[k]).0 == id;
                        assert(ids[k] == id);
                    }
                }
            }
            lemma_arrange_of_sorted(ids);
            assert forall|k: int| 0 <= k < s.len() implies #[trigger] s[k].1 == m.pending[ids[k]] by {
                lemma_pending_at(s, k);
            }
            assert(out@ =~= pending_list(m));
        }
        out
    }
}

} // verus!
