//! What changes a chunk's availability: only a provider's report that a
//! request completed. Demand changes, issuing requests, other reports and
//! retries leave every chunk's availability as it was.

use vstd::prelude::*;
use crate::ids::ChunkId;
use crate::demand::identity::DemandRank;
use crate::demand::snapshot::DemandedChunk;
use crate::streaming::events::{ProviderEvent, ProviderEventKind};
use crate::streaming::lifecycle::{ChunkAvailability, ChunkOperation};
use crate::streaming::model::{ControllerModel, RecordModel, reconcile, mark_desired,
    mark_undesired, refresh_rank, enter_all, has_room, update_all, exit_all, prune, apply_demand,
    provider_step, accept_spec, retry_spec, fresh_record};

verus! {

/// A chunk's availability; a chunk without a record is absent.
pub open spec fn availability_of(recs: Map<ChunkId, RecordModel>, id: ChunkId) -> ChunkAvailability {
    if recs.contains_key(id) {
        recs[id].availability
    } else {
        ChunkAvailability::Absent
    }
}

/// Every chunk has the same availability in `a` and in `b`.
pub open spec fn same_availability(a: Map<ChunkId, RecordModel>, b: Map<ChunkId, RecordModel>) -> bool {
    forall|id: ChunkId| #[trigger] availability_of(a, id) == availability_of(b, id)
}

/// Having the same availabilities composes.
pub proof fn lemma_same_availability_trans(a: Map<ChunkId, RecordModel>, b: Map<ChunkId, RecordModel>, c: Map<ChunkId, RecordModel>)
    requires
        same_availability(a, b),
        same_availability(b, c),
    ensures
        same_availability(a, c),
{
    assert forall|id: ChunkId| #[trigger] availability_of(a, id) == availability_of(c, id) by {
        assert(availability_of(a, id) == availability_of(b, id));
    }
}

proof fn lemma_mark_desired_availability(m: Map<ChunkId, RecordModel>, id: ChunkId, rank: DemandRank)
    ensures
        same_availability(m, mark_desired(m, id, rank).0),
{
    let base = if m.contains_key(id) { m[id] } else { fresh_record(id) };
    let r = RecordModel {
        desired: true,
        rank,
        operation: if base.operation == ChunkOperation::UnloadQueued { ChunkOperation::Idle } else { base.operation },
        ..base
    };
    assert(reconcile(r).0.availability == base.availability);
    let m2 = mark_desired(m, id, rank).0;
    assert forall|x: ChunkId| #[trigger] availability_of(m, x) == availability_of(m2, x) by {
        if x == id {
            assert(m2[x] == reconcile(r).0);
        }
    }
}

proof fn lemma_mark_undesired_availability(m: Map<ChunkId, RecordModel>, id: ChunkId, rank: DemandRank)
    ensures
        same_availability(m, mark_undesired(m, id, rank).0),
{
    if m.contains_key(id) {
        let base = m[id];
        let r = RecordModel {
            desired: false,
            rank,
            operation: if base.operation == ChunkOperation::LoadQueued { ChunkOperation::Idle } else { base.operation },
            ..base
        };
        assert(reconcile(r).0.availability == base.availability);
        let m2 = mark_undesired(m, id, rank).0;
        assert forall|x: ChunkId| #[trigger] availability_of(m, x) == availability_of(m2, x) by {
            if x == id {
                assert(m2[x] == reconcile(r).0);
            }
        }
    }
}

pub proof fn lemma_enter_all_availability(m: Map<ChunkId, RecordModel>, s: Seq<DemandedChunk>, cap: usize)
    ensures
        same_availability(m, enter_all(m, s, cap).0),
    decreases s.len(),
{
    if s.len() > 0 {
        lemma_enter_all_availability(m, s.drop_last(), cap);
        let r0 = enter_all(m, s.drop_last(), cap).0;
        if has_room(r0, s.last().chunk_id, cap) {
            lemma_mark_desired_availability(r0, s.last().chunk_id, s.last().rank);
            lemma_same_availability_trans(m, r0, enter_all(m, s, cap).0);
        }
    }
}

proof fn lemma_update_all_availability(m: Map<ChunkId, RecordModel>, s: Seq<DemandedChunk>)
    ensures
        same_availability(m, update_all(m, s)),
    decreases s.len(),
{
    if s.len() > 0 {
        lemma_update_all_availability(m, s.drop_last());
        let r0 = update_all(m, s.drop_last());
        let r1 = refresh_rank(r0, s.last().chunk_id, s.last().rank);
        assert forall|x: ChunkId| #[trigger] availability_of(r0, x) == availability_of(r1, x) by {}
        lemma_same_availability_trans(m, r0, r1);
    }
}

proof fn lemma_exit_all_availability(m: Map<ChunkId, RecordModel>, s: Seq<DemandedChunk>)
    ensures
        same_availability(m, exit_all(m, s).0),
    decreases s.len(),
{
    if s.len() > 0 {
        lemma_exit_all_availability(m, s.drop_last());
        let r0 = exit_all(m, s.drop_last()).0;
        lemma_mark_undesired_availability(r0, s.last().chunk_id, s.last().rank);
        lemma_same_availability_trans(m, r0, exit_all(m, s).0);
    }
}

proof fn lemma_prune_availability(m: Map<ChunkId, RecordModel>)
    ensures
        same_availability(m, prune(m)),
{
    assert forall|x: ChunkId| #[trigger] availability_of(m, x) == availability_of(prune(m), x) by {}
}

/// Applying a demand change to the records changes no chunk's
/// availability: chunks that enter demand stay absent until a provider
/// completes their load, and chunks that leave it stay resident until a
/// provider completes their unload.
pub proof fn lemma_demand_changes_keep_availability(
    recs: Map<ChunkId, RecordModel>,
    old: Seq<DemandedChunk>,
    new: Seq<DemandedChunk>,
    cap: usize,
)
    ensures
        same_availability(recs, apply_demand(recs, old, new, cap).0),
{
    let r1 = enter_all(recs, crate::demand::model::entered_chunks(old, new), cap).0;
    let r2 = update_all(r1, crate::demand::model::updated_chunks(old, new));
    let r3 = exit_all(r2, crate::demand::model::exited_chunks(old, new)).0;
    lemma_enter_all_availability(recs, crate::demand::model::entered_chunks(old, new), cap);
    lemma_update_all_availability(r1, crate::demand::model::updated_chunks(old, new));
    lemma_exit_all_availability(r2, crate::demand::model::exited_chunks(old, new));
    lemma_prune_availability(r3);
    lemma_same_availability_trans(recs, r1, r2);
    lemma_same_availability_trans(recs, r2, r3);
    lemma_same_availability_trans(recs, r3, prune(r3));
}

/// A provider report changes availability only when it reports a
/// completion, and then only for its own chunk: a completed load makes
/// the chunk resident, a completed unload makes it absent. A start or a
/// failure changes no chunk's availability.
pub proof fn lemma_only_completions_change_availability(m: ControllerModel, e: ProviderEvent)
    requires
        accept_spec(m, e) is Ok,
    ensures
        ({
            let m2 = accept_spec(m, e)->Ok_0.0;
            &&& forall|id: ChunkId| id != e.chunk_id ==> #[trigger] availability_of(m2.records, id)
                == availability_of(m.records, id)
            &&& e.kind != ProviderEventKind::Completed ==> availability_of(m2.records, e.chunk_id)
                == availability_of(m.records, e.chunk_id)
            &&& e.kind == ProviderEventKind::Completed ==> availability_of(m2.records, e.chunk_id)
                != availability_of(m.records, e.chunk_id)
        }),
{
    let r = m.records[e.chunk_id];
    let (r2, finished, events) = provider_step(r, e)->0;
    let inserted = m.records.insert(e.chunk_id, r2);
    lemma_prune_availability(inserted);
    assert(r2.availability == r.availability || e.kind == ProviderEventKind::Completed);
    assert forall|id: ChunkId| id != e.chunk_id implies #[trigger] availability_of(prune(inserted), id)
        == availability_of(m.records, id) by {
        assert(availability_of(inserted, id) == availability_of(m.records, id));
    }
    assert(availability_of(inserted, e.chunk_id) == r2.availability);
}

/// Retrying a blocked request changes no chunk's availability.
pub proof fn lemma_retry_keeps_availability(m: ControllerModel, chunk_id: ChunkId)
    requires
        retry_spec(m, chunk_id) is Ok,
    ensures
        same_availability(m.records, retry_spec(m, chunk_id)->Ok_0.0.records),
{
    let m2 = retry_spec(m, chunk_id)->Ok_0.0;
    assert forall|x: ChunkId| #[trigger] availability_of(m.records, x) == availability_of(m2.records, x) by {}
}

} // verus!
