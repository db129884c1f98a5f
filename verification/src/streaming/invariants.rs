//! Facts about the record transitions that keep in-flight requests intact.

use vstd::prelude::*;
use crate::ids::ChunkId;
use crate::demand::identity::DemandRank;
use crate::demand::snapshot::DemandedChunk;
use crate::streaming::lifecycle::{ChunkOperation, spec_active_request};
use crate::streaming::model::{RecordModel, reconcile, mark_desired, mark_undesired, refresh_rank,
    enter_all, has_room, update_all, exit_all, neutral, prune, issue, queued_operation, requested_operation};
use crate::streaming::request::{StreamRequest, StreamRequestId, StreamRequestKind};

verus! {

/// Every record of `m1` with an in-flight request is in `m2` with the same operation.
pub open spec fn active_kept(m1: Map<ChunkId, RecordModel>, m2: Map<ChunkId, RecordModel>) -> bool {
    forall|id: ChunkId|
        #[trigger] m1.contains_key(id) && spec_active_request(m1[id].operation) is Some ==> m2.contains_key(id)
            && m2[id].operation == m1[id].operation
}

/// Keeping in-flight requests composes.
pub proof fn lemma_active_kept_trans(a: Map<ChunkId, RecordModel>, b: Map<ChunkId, RecordModel>, c: Map<ChunkId, RecordModel>)
    requires
        active_kept(a, b),
        active_kept(b, c),
    ensures
        active_kept(a, c),
{
    assert forall|id: ChunkId| #[trigger] a.contains_key(id) && spec_active_request(a[id].operation) is Some implies c.contains_key(id)
        && c[id].operation == a[id].operation by {
        assert(b.contains_key(id) && b[id].operation == a[id].operation);
    }
}

/// Reconciling leaves a record with an in-flight request as it is, and never
/// starts one.
pub proof fn lemma_reconcile_active(r: RecordModel)
    ensures
        spec_active_request(r.operation) is Some ==> reconcile(r).0 == r,
        spec_active_request(r.operation) is None ==> spec_active_request(reconcile(r).0.operation) is None,
        reconcile(r).0.chunk_id == r.chunk_id,
{
}

/// Marking a chunk demanded keeps in-flight requests.
pub proof fn lemma_mark_desired_active(m: Map<ChunkId, RecordModel>, id: ChunkId, rank: DemandRank)
    ensures
        active_kept(m, mark_desired(m, id, rank).0),
        mark_desired(m, id, rank).0.dom() == m.dom().insert(id),
{
    let base = if m.contains_key(id) { m[id] } else { crate::streaming::model::fresh_record(id) };
    let r = RecordModel {
        desired: true,
        rank,
        operation: if base.operation == ChunkOperation::UnloadQueued { ChunkOperation::Idle } else { base.operation },
        ..base
    };
    lemma_reconcile_active(r);
    assert(mark_desired(m, id, rank).0.dom() =~= m.dom().insert(id));
}

/// Marking a chunk not demanded keeps in-flight requests.
pub proof fn lemma_mark_undesired_active(m: Map<ChunkId, RecordModel>, id: ChunkId, rank: DemandRank)
    ensures
        active_kept(m, mark_undesired(m, id, rank).0),
        mark_undesired(m, id, rank).0.dom() == m.dom(),
{
    if m.contains_key(id) {
        let base = m[id];
        let r = RecordModel {
            desired: false,
            rank,
            operation: if base.operation == ChunkOperation::LoadQueued { ChunkOperation::Idle } else { base.operation },
            ..base
        };
        lemma_reconcile_active(r);
        assert(mark_undesired(m, id, rank).0.dom() =~= m.dom());
    }
}

/// Marking entered chunks keeps in-flight requests.
pub proof fn lemma_enter_all_active(m: Map<ChunkId, RecordModel>, s: Seq<DemandedChunk>, cap: usize)
    ensures
        active_kept(m, enter_all(m, s, cap).0),
    decreases s.len(),
{
    if s.len() > 0 {
        lemma_enter_all_active(m, s.drop_last(), cap);
        let r0 = enter_all(m, s.drop_last(), cap).0;
        if has_room(r0, s.last().chunk_id, cap) {
            lemma_mark_desired_active(r0, s.last().chunk_id, s.last().rank);
            lemma_active_kept_trans(m, r0, enter_all(m, s, cap).0);
        }
    }
}

/// Refreshing ranks keeps in-flight requests.
pub proof fn lemma_update_all_active(m: Map<ChunkId, RecordModel>, s: Seq<DemandedChunk>)
    ensures
        active_kept(m, update_all(m, s)),
    decreases s.len(),
{
    if s.len() > 0 {
        lemma_update_all_active(m, s.drop_last());
        let r0 = update_all(m, s.drop_last());
        assert(active_kept(r0, refresh_rank(r0, s.last().chunk_id, s.last().rank)));
        lemma_active_kept_trans(m, r0, update_all(m, s));
    }
}

/// Marking exited chunks keeps in-flight requests.
pub proof fn lemma_exit_all_active(m: Map<ChunkId, RecordModel>, s: Seq<DemandedChunk>)
    ensures
        active_kept(m, exit_all(m, s).0),
    decreases s.len(),
{
    if s.len() > 0 {
        lemma_exit_all_active(m, s.drop_last());
        let r0 = exit_all(m, s.drop_last()).0;
        lemma_mark_undesired_active(r0, s.last().chunk_id, s.last().rank);
        lemma_active_kept_trans(m, r0, exit_all(m, s).0);
    }
}

/// Pruning keeps in-flight requests: their records are not neutral.
pub proof fn lemma_prune_active(m: Map<ChunkId, RecordModel>)
    ensures
        active_kept(m, prune(m)),
{
}

/// Issuing requests for queued chunks keeps other in-flight requests, gives
/// each chunk its request, and adds the request ids to the pending map.
pub proof fn lemma_issue_facts(
    recs: Map<ChunkId, RecordModel>,
    pending: Map<StreamRequestId, ChunkId>,
    kind: StreamRequestKind,
    chunks: Seq<ChunkId>,
    ids: Seq<StreamRequestId>,
)
    requires
        chunks.len() <= ids.len(),
        forall|k: int| 0 <= k < chunks.len() ==> recs.contains_key(#[trigger] chunks[k])
            && recs[chunks[k]].operation == queued_operation(kind),
        forall|a: int, b: int| 0 <= a < b < chunks.len() ==> #[trigger] chunks[a] != #[trigger] chunks[b],
        forall|a: int, b: int| 0 <= a < b < ids.len() ==> #[trigger] ids[a] != #[trigger] ids[b],
    ensures
        ({
            let (r1, p1, q1, e1) = issue(recs, pending, kind, chunks, ids);
            &&& active_kept(recs, r1)
            &&& r1.dom() == recs.dom()
            &&& forall|id: ChunkId| #[trigger] r1.contains_key(id) && !chunks.contains(id) ==> r1[id] == recs[id]
            &&& forall|k: int| 0 <= k < chunks.len() ==> r1[#[trigger] chunks[k]] == (RecordModel {
                operation: requested_operation(StreamRequest { request_id: ids[k], chunk_id: chunks[k], kind, rank: recs[chunks[k]].rank }),
                ..recs[chunks[k]]
            })
            &&& forall|id: StreamRequestId| #[trigger] p1.contains_key(id) ==> pending.contains_key(id) || exists|k: int| 0 <= k < chunks.len() && ids[k] == id
            &&& forall|id: StreamRequestId| #[trigger] pending.contains_key(id) && !(exists|k: int| 0 <= k < chunks.len() && ids[k] == id) ==> p1.contains_key(id) && p1[id] == pending[id]
            &&& forall|k: int| 0 <= k < chunks.len() ==> p1.contains_key(#[trigger] ids[k]) && p1[ids[k]] == chunks[k]
        }),
    decreases chunks.len(),
{
    if chunks.len() > 0 {
        let d = chunks.drop_last();
        assert forall|k: int| 0 <= k < d.len() implies recs.contains_key(#[trigger] d[k]) && recs[d[k]].operation == queued_operation(kind) by {
            assert(d[k] == chunks[k]);
        }
        assert forall|a: int, b: int| 0 <= a < b < d.len() implies #[trigger] d[a] != #[trigger] d[b] by {
            assert(d[a] == chunks[a] && d[b] == chunks[b]);
        }
        lemma_issue_facts(recs, pending, kind, d, ids);
        let (r0, p0, q0, e0) = issue(recs, pending, kind, d, ids);
        let i = chunks.len() - 1;
        let id = chunks[i];
        assert(!d.contains(id)) by {
            if d.contains(id) {
                let k = choose|k: int| 0 <= k < d.len() && d[k] == id;
                assert(chunks[k] == chunks[i]);
            }
        }
        assert(r0[id] == recs[id]);
        let (r1, p1, q1, e1) = issue(recs, pending, kind, chunks, ids);
        assert(r1.dom() =~= recs.dom());
        assert forall|x: ChunkId| #[trigger] recs.contains_key(x) && spec_active_request(recs[x].operation) is Some implies r1.contains_key(x) && r1[x].operation == recs[x].operation by {
            if x == id {
                assert(spec_active_request(queued_operation(kind)) is None);
            } else {
                assert(r0.contains_key(x) && r0[x].operation == recs[x].operation);
            }
        }
        assert forall|x: ChunkId| #[trigger] r1.contains_key(x) && !chunks.contains(x) implies r1[x] == recs[x] by {
            assert(x != id);
            if d.contains(x) {
                let k = choose|k: int| 0 <= k < d.len() && d[k] == x;
                assert(chunks[k] == x);
            }
        }
        assert forall|k: int| 0 <= k < chunks.len() implies r1[#[trigger] chunks[k]] == (RecordModel {
            operation: requested_operation(StreamRequest { request_id: ids[k], chunk_id: chunks[k], kind, rank: recs[chunks[k]].rank }),
            ..recs[chunks[k]]
        }) by {
            if k < i {
                assert(d[k] == chunks[k]);
                assert(chunks[k] != id);
            }
        }
        assert forall|x: StreamRequestId| #[trigger] p1.contains_key(x) implies pending.contains_key(x) || exists|k: int| 0 <= k < chunks.len() && ids[k] == x by {
            if x != ids[i] {
                assert(p0.contains_key(x));
                if !pending.contains_key(x) {
                    let k = choose|k: int| 0 <= k < d.len() && ids[k] == x;
                }
            }
        }
        assert forall|x: StreamRequestId| #[trigger] pending.contains_key(x) && !(exists|k: int| 0 <= k < chunks.len() && ids[k] == x) implies p1.contains_key(x) && p1[x] == pending[x] by {
            assert(!(exists|k: int| 0 <= k < d.len() && ids[k] == x)) by {
                if exists|k: int| 0 <= k < d.len() && ids[k] == x {
                    let k = choose|k: int| 0 <= k < d.len() && ids[k] == x;
                    assert(0 <= k < chunks.len() && ids[k] == x);
                }
            }
            assert(ids[i] != x);
        }
        assert forall|k: int| 0 <= k < chunks.len() implies p1.contains_key(#[trigger] ids[k]) && p1[ids[k]] == chunks[k] by {
            if k < i {
                assert(p0.contains_key(ids[k]));
                assert(ids[i] != ids[k]);
                assert(d[k] == chunks[k]);
            }
        }
    }
}

/// The requests issued for `chunks` carry the ids in order.
pub proof fn lemma_issue_requests(
    recs: Map<ChunkId, RecordModel>,
    pending: Map<StreamRequestId, ChunkId>,
    kind: StreamRequestKind,
    chunks: Seq<ChunkId>,
    ids: Seq<StreamRequestId>,
)
    ensures
        issue(recs, pending, kind, chunks, ids).2.len() == chunks.len(),
        forall|k: int| 0 <= k < chunks.len() ==> (#[trigger] issue(recs, pending, kind, chunks, ids).2[k]).request_id == ids[k]
            && issue(recs, pending, kind, chunks, ids).2[k].chunk_id == chunks[k]
            && issue(recs, pending, kind, chunks, ids).2[k].kind == kind,
    decreases chunks.len(),
{
    if chunks.len() > 0 {
        lemma_issue_requests(recs, pending, kind, chunks.drop_last(), ids);
        let q0 = issue(recs, pending, kind, chunks.drop_last(), ids).2;
        assert forall|k: int| 0 <= k < chunks.len() implies (#[trigger] issue(recs, pending, kind, chunks, ids).2[k]).request_id == ids[k]
            && issue(recs, pending, kind, chunks, ids).2[k].chunk_id == chunks[k]
            && issue(recs, pending, kind, chunks, ids).2[k].kind == kind by {
            if k < chunks.len() - 1 {
                assert(issue(recs, pending, kind, chunks, ids).2[k] == q0[k]);
                assert(chunks.drop_last()[k] == chunks[k]);
            }
        }
    }
}

/// Every record of `m2` with an in-flight request was in `m1` with the same
/// operation: no request starts.
pub open spec fn active_from(m1: Map<ChunkId, RecordModel>, m2: Map<ChunkId, RecordModel>) -> bool {
    forall|id: ChunkId|
        #[trigger] m2.contains_key(id) && spec_active_request(m2[id].operation) is Some ==> m1.contains_key(id)
            && m1[id].operation == m2[id].operation
}

proof fn lemma_active_from_trans(a: Map<ChunkId, RecordModel>, b: Map<ChunkId, RecordModel>, c: Map<ChunkId, RecordModel>)
    requires
        active_from(a, b),
        active_from(b, c),
    ensures
        active_from(a, c),
{
    assert forall|id: ChunkId| #[trigger] c.contains_key(id) && spec_active_request(c[id].operation) is Some implies a.contains_key(id)
        && a[id].operation == c[id].operation by {
        assert(b.contains_key(id) && b[id].operation == c[id].operation);
    }
}

proof fn lemma_mark_desired_from(m: Map<ChunkId, RecordModel>, id: ChunkId, rank: DemandRank)
    ensures
        active_from(m, mark_desired(m, id, rank).0),
{
    let base = if m.contains_key(id) { m[id] } else { crate::streaming::model::fresh_record(id) };
    let r = RecordModel {
        desired: true,
        rank,
        operation: if base.operation == ChunkOperation::UnloadQueued { ChunkOperation::Idle } else { base.operation },
        ..base
    };
    lemma_reconcile_active(r);
}

proof fn lemma_mark_undesired_from(m: Map<ChunkId, RecordModel>, id: ChunkId, rank: DemandRank)
    ensures
        active_from(m, mark_undesired(m, id, rank).0),
{
    if m.contains_key(id) {
        let base = m[id];
        let r = RecordModel {
            desired: false,
            rank,
            operation: if base.operation == ChunkOperation::LoadQueued { ChunkOperation::Idle } else { base.operation },
            ..base
        };
        lemma_reconcile_active(r);
    }
}

pub proof fn lemma_enter_all_from(m: Map<ChunkId, RecordModel>, s: Seq<DemandedChunk>, cap: usize)
    ensures
        active_from(m, enter_all(m, s, cap).0),
    decreases s.len(),
{
    if s.len() > 0 {
        lemma_enter_all_from(m, s.drop_last(), cap);
        let r0 = enter_all(m, s.drop_last(), cap).0;
        if has_room(r0, s.last().chunk_id, cap) {
            lemma_mark_desired_from(r0, s.last().chunk_id, s.last().rank);
            lemma_active_from_trans(m, r0, enter_all(m, s, cap).0);
        }
    }
}

proof fn lemma_update_all_from(m: Map<ChunkId, RecordModel>, s: Seq<DemandedChunk>)
    ensures
        active_from(m, update_all(m, s)),
    decreases s.len(),
{
    if s.len() > 0 {
        lemma_update_all_from(m, s.drop_last());
        let r0 = update_all(m, s.drop_last());
        assert(active_from(r0, refresh_rank(r0, s.last().chunk_id, s.last().rank)));
        lemma_active_from_trans(m, r0, update_all(m, s));
    }
}

proof fn lemma_exit_all_from(m: Map<ChunkId, RecordModel>, s: Seq<DemandedChunk>)
    ensures
        active_from(m, exit_all(m, s).0),
    decreases s.len(),
{
    if s.len() > 0 {
        lemma_exit_all_from(m, s.drop_last());
        let r0 = exit_all(m, s.drop_last()).0;
        lemma_mark_undesired_from(r0, s.last().chunk_id, s.last().rank);
        lemma_active_from_trans(m, r0, exit_all(m, s).0);
    }
}

/// Applying a demand change starts no request.
pub proof fn lemma_demand_changes_start_nothing(recs: Map<ChunkId, RecordModel>, old: Seq<DemandedChunk>, new: Seq<DemandedChunk>, cap: usize)
    ensures
        active_from(recs, crate::streaming::model::apply_demand(recs, old, new, cap).0),
{
    let r1 = enter_all(recs, crate::demand::model::entered_chunks(old, new), cap).0;
    let r2 = update_all(r1, crate::demand::model::updated_chunks(old, new));
    let r3 = exit_all(r2, crate::demand::model::exited_chunks(old, new)).0;
    lemma_enter_all_from(recs, crate::demand::model::entered_chunks(old, new), cap);
    lemma_update_all_from(r1, crate::demand::model::updated_chunks(old, new));
    lemma_exit_all_from(r2, crate::demand::model::exited_chunks(old, new));
    lemma_active_from_trans(recs, r1, r2);
    lemma_active_from_trans(recs, r2, r3);
    assert(active_from(r3, prune(r3)));
    lemma_active_from_trans(recs, r3, prune(r3));
}

} // verus!
