//! The shape every chunk record keeps: load operations only while the
//! chunk is absent and unload operations only while it is resident; a
//! blocking failure only on an idle record that still needs the failed
//! kind of request; and an idle, unblocked record always satisfied.

use vstd::prelude::*;
use crate::ids::ChunkId;
use crate::demand::identity::DemandRank;
use crate::demand::snapshot::DemandedChunk;
use crate::streaming::events::ProviderEvent;
use crate::streaming::lifecycle::{ChunkAvailability, ChunkOperation};
use crate::streaming::model::{ControllerModel, RecordModel, reconcile, mark_desired,
    mark_undesired, refresh_rank, enter_all, update_all, exit_all, prune, apply_demand,
    provider_step, accept_spec, retry_spec, fresh_record};
use crate::streaming::request::StreamRequestKind;

verus! {

/// Whether an operation is part of loading the chunk.
pub open spec fn is_load_operation(op: ChunkOperation) -> bool {
    op is LoadQueued || op is LoadRequested || op is Loading
}

/// Whether an operation is part of unloading the chunk.
pub open spec fn is_unload_operation(op: ChunkOperation) -> bool {
    op is UnloadQueued || op is UnloadRequested || op is Unloading
}

/// Load operations run only on absent chunks, unload operations only on
/// resident ones.
pub open spec fn operation_fits(r: RecordModel) -> bool {
    &&& is_load_operation(r.operation) ==> r.availability == ChunkAvailability::Absent
    &&& is_unload_operation(r.operation) ==> r.availability == ChunkAvailability::Resident
}

/// The shape of a record.
pub open spec fn record_shape(r: RecordModel) -> bool {
    &&& operation_fits(r)
    &&& r.operation != ChunkOperation::Idle ==> r.blocking_failure is None
    &&& r.blocking_failure == Some(StreamRequestKind::Load) ==> r.desired && r.availability
        == ChunkAvailability::Absent && r.operation == ChunkOperation::Idle
    &&& r.blocking_failure == Some(StreamRequestKind::Unload) ==> !r.desired && r.availability
        == ChunkAvailability::Resident && r.operation == ChunkOperation::Idle
    &&& r.operation == ChunkOperation::Idle && r.blocking_failure is None ==> r.desired == (
    r.availability == ChunkAvailability::Resident)
}

/// Every record has the shape.
pub open spec fn all_shaped(recs: Map<ChunkId, RecordModel>) -> bool {
    forall|id: ChunkId| #[trigger] recs.contains_key(id) ==> record_shape(recs[id])
}

/// Reconciling a record whose operation fits and which is blocked only
/// while idle gives a record of the shape.
pub proof fn lemma_reconcile_shape(r: RecordModel)
    requires
        operation_fits(r),
        r.operation != ChunkOperation::Idle ==> r.blocking_failure is None,
    ensures
        record_shape(reconcile(r).0),
{
}

proof fn lemma_mark_desired_shape(m: Map<ChunkId, RecordModel>, id: ChunkId, rank: DemandRank)
    requires
        all_shaped(m),
    ensures
        all_shaped(mark_desired(m, id, rank).0),
{
    let base = if m.contains_key(id) { m[id] } else { fresh_record(id) };
    let r = RecordModel {
        desired: true,
        rank,
        operation: if base.operation == ChunkOperation::UnloadQueued { ChunkOperation::Idle } else { base.operation },
        ..base
    };
    lemma_reconcile_shape(r);
    let m2 = mark_desired(m, id, rank).0;
    assert forall|x: ChunkId| #[trigger] m2.contains_key(x) implies record_shape(m2[x]) by {
        if x != id {
            assert(m.contains_key(x));
        }
    }
}

proof fn lemma_mark_undesired_shape(m: Map<ChunkId, RecordModel>, id: ChunkId, rank: DemandRank)
    requires
        all_shaped(m),
    ensures
        all_shaped(mark_undesired(m, id, rank).0),
{
    if m.contains_key(id) {
        let base = m[id];
        let r = RecordModel {
            desired: false,
            rank,
            operation: if base.operation == ChunkOperation::LoadQueued { ChunkOperation::Idle } else { base.operation },
            ..base
        };
        lemma_reconcile_shape(r);
        let m2 = mark_undesired(m, id, rank).0;
        assert forall|x: ChunkId| #[trigger] m2.contains_key(x) implies record_shape(m2[x]) by {
            if x != id {
                assert(m.contains_key(x));
            }
        }
    }
}

pub proof fn lemma_enter_all_shape(m: Map<ChunkId, RecordModel>, s: Seq<DemandedChunk>, cap: usize)
    requires
        all_shaped(m),
    ensures
        all_shaped(enter_all(m, s, cap).0),
    decreases s.len(),
{
    if s.len() > 0 {
        lemma_enter_all_shape(m, s.drop_last(), cap);
        lemma_mark_desired_shape(enter_all(m, s.drop_last(), cap).0, s.last().chunk_id, s.last().rank);
    }
}

proof fn lemma_update_all_shape(m: Map<ChunkId, RecordModel>, s: Seq<DemandedChunk>)
    requires
        all_shaped(m),
    ensures
        all_shaped(update_all(m, s)),
    decreases s.len(),
{
    if s.len() > 0 {
        lemma_update_all_shape(m, s.drop_last());
        let r0 = update_all(m, s.drop_last());
        let r1 = refresh_rank(r0, s.last().chunk_id, s.last().rank);
        assert forall|x: ChunkId| #[trigger] r1.contains_key(x) implies record_shape(r1[x]) by {
            assert(r0.contains_key(x));
        }
    }
}

proof fn lemma_exit_all_shape(m: Map<ChunkId, RecordModel>, s: Seq<DemandedChunk>)
    requires
        all_shaped(m),
    ensures
        all_shaped(exit_all(m, s).0),
    decreases s.len(),
{
    if s.len() > 0 {
        lemma_exit_all_shape(m, s.drop_last());
        lemma_mark_undesired_shape(exit_all(m, s.drop_last()).0, s.last().chunk_id, s.last().rank);
    }
}

/// Applying a demand change keeps every record's shape.
pub proof fn lemma_demand_changes_keep_shape(recs: Map<ChunkId, RecordModel>, old: Seq<DemandedChunk>, new: Seq<DemandedChunk>, cap: usize)
    requires
        all_shaped(recs),
    ensures
        all_shaped(apply_demand(recs, old, new, cap).0),
{
    let r1 = enter_all(recs, crate::demand::model::entered_chunks(old, new), cap).0;
    let r2 = update_all(r1, crate::demand::model::updated_chunks(old, new));
    let r3 = exit_all(r2, crate::demand::model::exited_chunks(old, new)).0;
    lemma_enter_all_shape(recs, crate::demand::model::entered_chunks(old, new), cap);
    lemma_update_all_shape(r1, crate::demand::model::updated_chunks(old, new));
    lemma_exit_all_shape(r2, crate::demand::model::exited_chunks(old, new));
    let p = prune(r3);
    assert forall|x: ChunkId| #[trigger] p.contains_key(x) implies record_shape(p[x]) by {
        assert(r3.contains_key(x));
    }
}

/// An accepted provider report keeps every record's shape.
pub proof fn lemma_provider_reports_keep_shape(m: ControllerModel, e: ProviderEvent)
    requires
        all_shaped(m.records),
        accept_spec(m, e) is Ok,
    ensures
        all_shaped(accept_spec(m, e)->Ok_0.0.records),
{
    let r = m.records[e.chunk_id];
    assert(record_shape(r));
    let (r2, finished, events) = provider_step(r, e)->0;
    match (r.operation, e.kind, r.availability) {
        (ChunkOperation::LoadRequested(_), crate::streaming::events::ProviderEventKind::Started, ChunkAvailability::Absent) => {},
        (ChunkOperation::UnloadRequested(_), crate::streaming::events::ProviderEventKind::Started, ChunkAvailability::Resident) => {},
        (_, crate::streaming::events::ProviderEventKind::Started, _) => {},
        (_, crate::streaming::events::ProviderEventKind::Completed, ChunkAvailability::Absent) => {
            let r1 = RecordModel {
                availability: ChunkAvailability::Resident,
                operation: ChunkOperation::Idle,
                blocking_failure: None,
                ..r
            };
            lemma_reconcile_shape(r1);
        },
        (_, crate::streaming::events::ProviderEventKind::Completed, ChunkAvailability::Resident) => {
            let r1 = RecordModel {
                availability: ChunkAvailability::Absent,
                operation: ChunkOperation::Idle,
                blocking_failure: None,
                ..r
            };
            lemma_reconcile_shape(r1);
        },
        (_, crate::streaming::events::ProviderEventKind::Failed, ChunkAvailability::Absent) => {
            let r1 = RecordModel {
                operation: ChunkOperation::Idle,
                blocking_failure: if r.desired { Some(StreamRequestKind::Load) } else { None },
                ..r
            };
            lemma_reconcile_shape(r1);
        },
        (_, crate::streaming::events::ProviderEventKind::Failed, ChunkAvailability::Resident) => {
            let r1 = RecordModel {
                operation: ChunkOperation::Idle,
                blocking_failure: if !r.desired { Some(StreamRequestKind::Unload) } else { None },
                ..r
            };
            lemma_reconcile_shape(r1);
        },
    }
    assert(record_shape(r2));
    let inserted = m.records.insert(e.chunk_id, r2);
    let p = prune(inserted);
    assert forall|x: ChunkId| #[trigger] p.contains_key(x) implies record_shape(p[x]) by {
        if x != e.chunk_id {
            assert(m.records.contains_key(x));
        }
    }
}

/// An accepted retry keeps every record's shape.
pub proof fn lemma_retry_keeps_shape(m: ControllerModel, chunk_id: ChunkId)
    requires
        all_shaped(m.records),
        retry_spec(m, chunk_id) is Ok,
    ensures
        all_shaped(retry_spec(m, chunk_id)->Ok_0.0.records),
{
    let m2 = retry_spec(m, chunk_id)->Ok_0.0;
    assert forall|x: ChunkId| #[trigger] m2.records.contains_key(x) implies record_shape(m2.records[x]) by {
        assert(m.records.contains_key(x));
    }
}

} // verus!
