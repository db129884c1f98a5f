//! A tracked record is demanded exactly when its chunk is in the effective
//! demand.

use vstd::prelude::*;
use crate::ids::ChunkId;
use crate::demand::identity::DemandRank;
use crate::demand::snapshot::{DemandedChunk, has_chunk};
use crate::demand::model::{entered_chunks, updated_chunks, exited_chunks};
use crate::streaming::lifecycle::ChunkOperation;
use crate::streaming::model::{ControllerModel, RecordModel, reconcile, mark_desired,
    mark_undesired, refresh_rank, enter_all, update_all, exit_all, prune, apply_demand, has_room,
    untracked, track_demanded,
    provider_step, accept_spec, retry_spec, fresh_record};
use crate::streaming::events::ProviderEvent;

verus! {

/// The controller holds a demanded record for `id`.
pub open spec fn desired_in(recs: Map<ChunkId, RecordModel>, id: ChunkId) -> bool {
    recs.contains_key(id) && recs[id].desired
}

/// Every record is demanded exactly when its chunk is in `chunks`.
pub open spec fn demand_matches(recs: Map<ChunkId, RecordModel>, chunks: Seq<DemandedChunk>) -> bool {
    forall|id: ChunkId| #[trigger] recs.contains_key(id) ==> (recs[id].desired == has_chunk(chunks, id))
}

proof fn lemma_has_chunk_drop_last(s: Seq<DemandedChunk>, id: ChunkId)
    requires
        s.len() > 0,
    ensures
        has_chunk(s, id) <==> (has_chunk(s.drop_last(), id) || s.last().chunk_id == id),
{
    if has_chunk(s, id) {
        let j = choose|j: int| 0 <= j < s.len() && (#[trigger] s[j]).chunk_id == id;
        if j < s.len() - 1 {
            assert(s.drop_last()[j] == s[j]);
        }
    }
    if has_chunk(s.drop_last(), id) {
        let j = choose|j: int| 0 <= j < s.drop_last().len() && (#[trigger] s.drop_last()[j]).chunk_id == id;
        assert(s[j] == s.drop_last()[j]);
    }
    if s.last().chunk_id == id {
        assert(s[s.len() - 1].chunk_id == id);
    }
}

proof fn lemma_enter_all_desired(m: Map<ChunkId, RecordModel>, s: Seq<DemandedChunk>, cap: usize, id: ChunkId)
    ensures
        m.contains_key(id) ==> enter_all(m, s, cap).0.contains_key(id),
        enter_all(m, s, cap).0.contains_key(id) ==> (m.contains_key(id) || has_chunk(s, id)),
        enter_all(m, s, cap).0.contains_key(id) ==> (enter_all(m, s, cap).0[id].desired <==> (has_chunk(s, id)
            || desired_in(m, id))),
        m.dom().finite() ==> enter_all(m, s, cap).0.dom().finite(),
    decreases s.len(),
{
    if s.len() == 0 {
    } else {
        lemma_enter_all_desired(m, s.drop_last(), cap, id);
        lemma_has_chunk_drop_last(s, id);
        let r0 = enter_all(m, s.drop_last(), cap).0;
        let x = s.last().chunk_id;
        let base = if r0.contains_key(x) { r0[x] } else { fresh_record(x) };
        let r = RecordModel {
            desired: true,
            rank: s.last().rank,
            operation: if base.operation == ChunkOperation::UnloadQueued { ChunkOperation::Idle } else { base.operation },
            ..base
        };
        assert(reconcile(r).0.desired == r.desired);
        if !has_room(r0, x, cap) && x == id {
            assert(!r0.contains_key(id));
        }
    }
}

proof fn lemma_update_all_desired(m: Map<ChunkId, RecordModel>, s: Seq<DemandedChunk>, id: ChunkId)
    ensures
        desired_in(update_all(m, s), id) <==> desired_in(m, id),
    decreases s.len(),
{
    if s.len() > 0 {
        lemma_update_all_desired(m, s.drop_last(), id);
    }
}

proof fn lemma_exit_all_desired(m: Map<ChunkId, RecordModel>, s: Seq<DemandedChunk>, id: ChunkId)
    ensures
        desired_in(exit_all(m, s).0, id) <==> (desired_in(m, id) && !has_chunk(s, id)),
    decreases s.len(),
{
    if s.len() == 0 {
    } else {
        lemma_exit_all_desired(m, s.drop_last(), id);
        lemma_has_chunk_drop_last(s, id);
        let r0 = exit_all(m, s.drop_last()).0;
        let x = s.last().chunk_id;
        if r0.contains_key(x) {
            let base = r0[x];
            let r = RecordModel {
                desired: false,
                rank: s.last().rank,
                operation: if base.operation == ChunkOperation::LoadQueued { ChunkOperation::Idle } else { base.operation },
                ..base
            };
            assert(reconcile(r).0.desired == r.desired);
        }
    }
}

#[allow(deprecated)]
proof fn lemma_filter_has_chunk(new: Seq<DemandedChunk>, old: Seq<DemandedChunk>, id: ChunkId)
    ensures
        has_chunk(entered_chunks(old, new), id) <==> (has_chunk(new, id) && !has_chunk(old, id)),
        has_chunk(exited_chunks(old, new), id) <==> (has_chunk(old, id) && !has_chunk(new, id)),
{
    let p1 = |c: DemandedChunk| !has_chunk(old, c.chunk_id);
    let p2 = |c: DemandedChunk| !has_chunk(new, c.chunk_id);
    let f1 = new.filter(p1);
    let f2 = old.filter(p2);
    assert(f1 == entered_chunks(old, new));
    assert(f2 == exited_chunks(old, new));
    new.filter_lemma(p1);
    old.filter_lemma(p2);
    if has_chunk(f1, id) {
        let j = choose|j: int| 0 <= j < f1.len() && (#[trigger] f1[j]).chunk_id == id;
        assert(f1.contains(f1[j]));
        new.lemma_filter_contains_rev(p1, f1[j]);
        assert(p1(f1[j]));
    }
    if has_chunk(new, id) && !has_chunk(old, id) {
        let i = choose|i: int| 0 <= i < new.len() && (#[trigger] new[i]).chunk_id == id;
        assert(p1(new[i]));
        assert(f1.contains(new[i]));
    }
    if has_chunk(f2, id) {
        let j = choose|j: int| 0 <= j < f2.len() && (#[trigger] f2[j]).chunk_id == id;
        assert(f2.contains(f2[j]));
        old.lemma_filter_contains_rev(p2, f2[j]);
        assert(p2(f2[j]));
    }
    if has_chunk(old, id) && !has_chunk(new, id) {
        let i = choose|i: int| 0 <= i < old.len() && (#[trigger] old[i]).chunk_id == id;
        assert(p2(old[i]));
        assert(f2.contains(old[i]));
    }
}

/// Applying a demand change to records that match the old effective demand
/// gives records that match the new one: entered chunks become demanded,
/// exited chunks stop being demanded, and the rest keep their demand.
pub proof fn lemma_demand_changes_match_demand(recs: Map<ChunkId, RecordModel>, old: Seq<DemandedChunk>, new: Seq<DemandedChunk>, cap: usize)
    requires
        demand_matches(recs, old),
    ensures
        demand_matches(apply_demand(recs, old, new, cap).0, new),
{
    let r1 = enter_all(recs, entered_chunks(old, new), cap).0;
    let r2 = update_all(r1, updated_chunks(old, new));
    let r3 = exit_all(r2, exited_chunks(old, new)).0;
    assert forall|id: ChunkId| #[trigger] prune(r3).contains_key(id) implies (prune(r3)[id].desired == has_chunk(new, id)) by {
        lemma_enter_all_desired(recs, entered_chunks(old, new), cap, id);
        lemma_update_all_desired(r1, updated_chunks(old, new), id);
        lemma_exit_all_desired(r2, exited_chunks(old, new), id);
        lemma_update_all_keys(r1, updated_chunks(old, new), id);
        lemma_exit_all_keys(r2, exited_chunks(old, new), id);
        lemma_filter_has_chunk(new, old, id);
        if recs.contains_key(id) {
            assert(recs[id].desired == has_chunk(old, id));
        }
    }
}

/// Refreshing ranks keeps the tracked chunks.
pub proof fn lemma_update_all_keys(m: Map<ChunkId, RecordModel>, s: Seq<DemandedChunk>, id: ChunkId)
    ensures
        update_all(m, s).contains_key(id) == m.contains_key(id),
    decreases s.len(),
{
    if s.len() > 0 {
        lemma_update_all_keys(m, s.drop_last(), id);
    }
}

/// Marking chunks not demanded keeps the tracked chunks.
pub proof fn lemma_exit_all_keys(m: Map<ChunkId, RecordModel>, s: Seq<DemandedChunk>, id: ChunkId)
    ensures
        exit_all(m, s).0.contains_key(id) == m.contains_key(id),
    decreases s.len(),
{
    if s.len() > 0 {
        lemma_exit_all_keys(m, s.drop_last(), id);
    }
}

/// Tracking untracked demanded chunks keeps the records matching the
/// demand: each tracked record is demanded, and the others keep theirs.
pub proof fn lemma_tracking_matches_demand(recs: Map<ChunkId, RecordModel>, chunks: Seq<DemandedChunk>, cap: usize)
    requires
        demand_matches(recs, chunks),
    ensures
        demand_matches(track_demanded(recs, chunks, cap).0, chunks),
{
    let f = untracked(recs, chunks);
    let pf = |c: DemandedChunk| !recs.contains_key(c.chunk_id);
    assert forall|id: ChunkId| #[trigger] track_demanded(recs, chunks, cap).0.contains_key(id) implies (track_demanded(recs, chunks, cap).0[id].desired
        == has_chunk(chunks, id)) by {
        lemma_enter_all_desired(recs, f, cap, id);
        if has_chunk(f, id) {
            let j = choose|j: int| 0 <= j < f.len() && (#[trigger] f[j]).chunk_id == id;
            assert(f.contains(f[j]));
            chunks.lemma_filter_contains_rev(pf, f[j]);
            let i = choose|i: int| 0 <= i < chunks.len() && chunks[i] == f[j];
            assert(has_chunk(chunks, id));
            assert(!recs.contains_key(id));
        }
    }
}

/// An accepted provider report changes no record's demand.
pub proof fn lemma_provider_reports_keep_demand(m: ControllerModel, e: ProviderEvent, id: ChunkId)
    requires
        accept_spec(m, e) is Ok,
    ensures
        desired_in(accept_spec(m, e)->Ok_0.0.records, id) == desired_in(m.records, id),
{
    let r = m.records[e.chunk_id];
    let (r2, finished, events) = provider_step(r, e)->0;
    assert(r2.desired == r.desired);
}

/// An accepted retry changes no record's demand.
pub proof fn lemma_retry_keeps_demand(m: ControllerModel, chunk_id: ChunkId, id: ChunkId)
    requires
        retry_spec(m, chunk_id) is Ok,
    ensures
        desired_in(retry_spec(m, chunk_id)->Ok_0.0.records, id) == desired_in(m.records, id),
{
}

} // verus!
