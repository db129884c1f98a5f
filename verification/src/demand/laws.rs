//! What holds of every demand transaction.

use vstd::prelude::*;
use crate::ids::{ChunkCoord3, WorldId};
use crate::order::{StrictKey, arrange, lemma_arrange_exists, strictly_sorted,
    lemma_strictly_sorted_no_duplicates};
use crate::demand::identity::{DemandClass, DemandRank, DemandSourceId, class_order};
use crate::demand::limits::DemandLimits;
use crate::demand::error::SpatialDemandError;
use crate::demand::snapshot::{DemandedChunk, SpatialDemandDelta, has_chunk, first_entry, lemma_first_entry_at};
use crate::demand::geometry::within;
use crate::demand::source::{DemandSourceChange, SnapshotModel};
use crate::demand::model::{Contribution, all_contributions, source_contributions, pinned_contributions, keyed_contributions, focus_keys, first_per_chunk, candidates, pinned_count, select, min_int, plan_entries, all_fit, entry_fits, EntryModel, PlannerModel, SourceModel, changed, count_total,
    duplicated, has_duplicate, held, least_duplicate, next_chunks, next_entries, next_snapshot,
    next_sources, plan, prior_chunks, replacement, retained_only, source_count, desired_in,
    world_error, entered_chunks, updated_chunks, exited_chunks, settled, pins_in_world};
use crate::demand::planner::SpatialDemandPlanner;
use crate::seqs::{lemma_take_filter_step, lemma_filter_no_duplicates};
use crate::ids::ChunkId;

verus! {

/// `b` lists the changes of `a` in another order: position `i` of `b` holds
/// position `p[i]` of `a`, and every position of `a` is used once.
#[verifier::opaque]
pub open spec fn reorders(a: Seq<DemandSourceChange>, b: Seq<DemandSourceChange>, p: Seq<int>) -> bool {
    &&& a.len() == b.len()
    &&& p.len() == b.len()
    &&& forall|i: int| 0 <= i < b.len() ==> 0 <= #[trigger] p[i] < a.len() && b[i] == a[p[i]]
    &&& forall|i: int, j: int| 0 <= i < j < b.len() ==> #[trigger] p[i] != #[trigger] p[j]
    &&& forall|k: int| 0 <= k < a.len() ==> #[trigger] used(p, k)
}

/// Some position of `p` holds `k`.
pub open spec fn used(p: Seq<int>, k: int) -> bool {
    exists|i: int| 0 <= i < p.len() && p[i] == k
}

/// A source is changed twice in `a` exactly when it is in `b`.
proof fn lemma_reordered_duplicates(
    a: Seq<DemandSourceChange>,
    b: Seq<DemandSourceChange>,
    p: Seq<int>,
)
    requires
        reorders(a, b, p),
    ensures
        forall|id: DemandSourceId| #[trigger] duplicated(a, id) == duplicated(b, id),
{
    reveal(reorders);
    assert forall|id: DemandSourceId| #[trigger] duplicated(a, id) == duplicated(b, id) by {
        if duplicated(b, id) {
            let (i, j) = choose|i: int, j: int|
                0 <= i < j < b.len() && (#[trigger] b[i]).spec_source_id() == id && (
                #[trigger] b[j]).spec_source_id() == id;
            assert(p[i] != p[j]);
            if p[i] < p[j] {
                assert(a[p[i]].spec_source_id() == id && a[p[j]].spec_source_id() == id);
            } else {
                assert(a[p[j]].spec_source_id() == id && a[p[i]].spec_source_id() == id);
            }
        }
        if duplicated(a, id) {
            let (i, j) = choose|i: int, j: int|
                0 <= i < j < a.len() && (#[trigger] a[i]).spec_source_id() == id && (
                #[trigger] a[j]).spec_source_id() == id;
            assert(used(p, i) && used(p, j));
            let ii = choose|ii: int| 0 <= ii < p.len() && p[ii] == i;
            let jj = choose|jj: int| 0 <= jj < p.len() && p[jj] == j;
            assert(ii != jj);
            assert(b[ii] == a[i] && b[jj] == a[j]);
            if ii < jj {
                assert(b[ii].spec_source_id() == id && b[jj].spec_source_id() == id);
            } else {
                assert(b[jj].spec_source_id() == id && b[ii].spec_source_id() == id);
            }
        }
    }
}

/// Without duplicates, reordered changes give every source the same snapshot.
proof fn lemma_reordered_snapshots(
    sources: Seq<SourceModel>,
    a: Seq<DemandSourceChange>,
    b: Seq<DemandSourceChange>,
    p: Seq<int>,
)
    requires
        reorders(a, b, p),
        !has_duplicate(a),
    ensures
        forall|id: DemandSourceId|
            #[trigger] next_snapshot(sources, a, id) == next_snapshot(sources, b, id),
{
    reveal(reorders);
    assert forall|id: DemandSourceId|
        #[trigger] next_snapshot(sources, a, id) == next_snapshot(sources, b, id) by {
        if changed(b, id) {
            let ib = choose|i: int| 0 <= i < b.len() && (#[trigger] b[i]).spec_source_id() == id;
            assert(a[p[ib]].spec_source_id() == id);
            assert(changed(a, id));
            let ia = choose|i: int| 0 <= i < a.len() && (#[trigger] a[i]).spec_source_id() == id;
            if ia != p[ib] {
                if ia < p[ib] {
                    assert(duplicated(a, id));
                } else {
                    assert(duplicated(a, id));
                }
            }
        }
        if changed(a, id) {
            let ia = choose|i: int| 0 <= i < a.len() && (#[trigger] a[i]).spec_source_id() == id;
            assert(used(p, ia));
            let ii = choose|ii: int| 0 <= ii < p.len() && p[ii] == ia;
            assert(b[ii].spec_source_id() == id);
            assert(changed(b, id));
        }
    }
}

/// Without duplicates, reordered changes give the same sources.
proof fn lemma_reordered_entries(
    sources: Seq<SourceModel>,
    a: Seq<DemandSourceChange>,
    b: Seq<DemandSourceChange>,
    p: Seq<int>,
)
    requires
        reorders(a, b, p),
        !has_duplicate(a),
    ensures
        next_entries(sources, a) == next_entries(sources, b),
{
    lemma_reordered_snapshots(sources, a, b, p);
    let sa = Set::new(|id: DemandSourceId| next_snapshot(sources, a, id) is Some);
    let sb = Set::new(|id: DemandSourceId| next_snapshot(sources, b, id) is Some);
    assert(sa =~= sb);
    assert(next_entries(sources, a) =~= next_entries(sources, b));
}

/// Some duplicated source of a transaction is the least one.
pub proof fn lemma_least_duplicate_exists(a: Seq<DemandSourceChange>, v: nat)
    requires
        exists|id: DemandSourceId| #[trigger] duplicated(a, id) && id@ <= v,
    ensures
        duplicated(a, least_duplicate(a)),
        forall|o: DemandSourceId| #[trigger] duplicated(a, o) ==> least_duplicate(a)@ <= o@,
    decreases v,
{
    if v > 0 && exists|id: DemandSourceId| #[trigger] duplicated(a, id) && id@ <= v - 1 {
        lemma_least_duplicate_exists(a, (v - 1) as nat);
    } else {
        let x = choose|id: DemandSourceId| #[trigger] duplicated(a, id) && id@ <= v;
        assert forall|o: DemandSourceId| #[trigger] duplicated(a, o) implies x@ <= o@ by {
            if o@ < x@ {
                assert(o@ <= v - 1);
            }
        }
        assert(duplicated(a, x) && forall|o: DemandSourceId| duplicated(a, o) ==> x@ <= o@);
    }
}

/// Two transactions with the same duplicated sources have the same least one.
proof fn lemma_same_least_duplicate(a: Seq<DemandSourceChange>, b: Seq<DemandSourceChange>)
    requires
        forall|id: DemandSourceId| #[trigger] duplicated(a, id) == duplicated(b, id),
    ensures
        has_duplicate(a) == has_duplicate(b),
        has_duplicate(a) ==> least_duplicate(a) == least_duplicate(b),
{
    if has_duplicate(a) {
        let x = choose|id: DemandSourceId| duplicated(a, id);
        assert(duplicated(b, x));
        lemma_least_duplicate_exists(a, x@ as nat);
        lemma_least_duplicate_exists(b, x@ as nat);
        let la = least_duplicate(a);
        let lb = least_duplicate(b);
        assert(duplicated(b, la));
        assert(duplicated(a, lb));
        assert(la@ <= lb@ && lb@ <= la@);
        DemandSourceId::lemma_view_injective(la, lb);
    }
    if has_duplicate(b) {
        let x = choose|id: DemandSourceId| duplicated(b, id);
        assert(duplicated(a, x));
    }
}

/// The order of the changes of a transaction does not matter: reordered
/// changes give the same outcome, or the same error.
pub proof fn lemma_plan_order_independent(
    m: PlannerModel,
    a: Seq<DemandSourceChange>,
    b: Seq<DemandSourceChange>,
    p: Seq<int>,
)
    requires
        reorders(a, b, p),
    ensures
        plan(m, a) == plan(m, b),
{
    lemma_reordered_duplicates(a, b, p);
    lemma_same_least_duplicate(a, b);
    if !has_duplicate(a) {
        lemma_reordered_entries(m.sources, a, b, p);
    }
}

/// The ids of a transaction's sources after the changes are a strictly
/// increasing arrangement of exactly the sources that have a snapshot.
proof fn lemma_next_ids_arranged(sources: Seq<SourceModel>, c: Seq<DemandSourceChange>)
    ensures
        ({
            let s = Set::new(|id: DemandSourceId| next_snapshot(sources, c, id) is Some);
            strictly_sorted(arrange(s)) && arrange(s).to_set() == s
        }),
{
    let s = Set::new(|id: DemandSourceId| next_snapshot(sources, c, id) is Some);
    let pred = |id: DemandSourceId| next_snapshot(sources, c, id) is Some;
    let t = Seq::new(sources.len(), |k: int| sources[k].id) + Seq::new(
        c.len(),
        |i: int| c[i].spec_source_id(),
    );
    assert forall|id: DemandSourceId| t.filter(pred).to_set().contains(id) <==> s.contains(id) by {
        if s.contains(id) {
            if changed(c, id) {
                let i = choose|i: int| 0 <= i < c.len() && (#[trigger] c[i]).spec_source_id() == id;
                assert(t[sources.len() + i] == id);
                t.lemma_filter_contains(pred, sources.len() + i);
            } else {
                assert(held(sources, id));
                let k = choose|k: int| 0 <= k < sources.len() && (#[trigger] sources[k]).id == id;
                assert(t[k] == id);
                t.lemma_filter_contains(pred, k);
            }
            let j = choose|j: int| 0 <= j < t.filter(pred).len() && t.filter(pred)[j] == id;
            assert(t.filter(pred).to_set().contains(id));
        }
        if t.filter(pred).to_set().contains(id) {
            let j = choose|j: int| 0 <= j < t.filter(pred).len() && t.filter(pred)[j] == id;
            t.lemma_filter_pred(pred, j);
        }
    }
    assert(t.filter(pred).to_set() =~= s);
    lemma_arrange_exists(t.filter(pred));
}

/// The chunks a source demands do not change when its snapshot is applied again.
proof fn lemma_next_chunks_replay(e: EntryModel)
    ensures
        next_chunks(EntryModel { id: e.id, snapshot: e.snapshot, prior: next_chunks(e) }) == next_chunks(e),
{
    if e.snapshot.focus is Some {
        let f = e.snapshot.focus->0;
        let e2 = EntryModel { id: e.id, snapshot: e.snapshot, prior: next_chunks(e) };
        let keep = |c: ChunkCoord3| retained_only(c, e.snapshot);
        assert(next_chunks(e).filter(keep) =~= e.prior.filter(keep));
        assert(next_chunks(e2) =~= next_chunks(e));
    } else {
    }
}

/// A source's contribution count does not change when its snapshot is applied again.
proof fn lemma_source_count_replay(world: WorldId, limits: DemandLimits, e: EntryModel)
    ensures
        source_count(world, limits, EntryModel { id: e.id, snapshot: e.snapshot, prior: next_chunks(e) })
            == source_count(world, limits, e),
{
    let e2 = EntryModel { id: e.id, snapshot: e.snapshot, prior: next_chunks(e) };
    if e.snapshot.focus is Some {
        let snap = e.snapshot;
        let keep = |c: ChunkCoord3| retained_only(c, snap);
        assert(e2.prior.filter(keep) =~= e.prior.filter(keep));
        let extra1 = |p: crate::ids::ChunkId|
            !desired_in(p.coord, snap) && !(e.prior.contains(p.coord) && retained_only(p.coord, snap));
        let extra2 = |p: crate::ids::ChunkId|
            !desired_in(p.coord, snap) && !(e2.prior.contains(p.coord) && retained_only(p.coord, snap));
        assert(extra1 =~= extra2);
    }
}

/// Entry sequences whose sources count alike have the same total.
proof fn lemma_count_total_pointwise(
    world: WorldId,
    limits: DemandLimits,
    x: Seq<EntryModel>,
    y: Seq<EntryModel>,
)
    requires
        x.len() == y.len(),
        forall|k: int|
            0 <= k < x.len() ==> source_count(world, limits, #[trigger] x[k]) == source_count(
                world,
                limits,
                y[k],
            ),
    ensures
        count_total(world, limits, x) == count_total(world, limits, y),
    decreases x.len(),
{
    if x.len() > 0 {
        lemma_count_total_pointwise(world, limits, x.drop_last(), y.drop_last());
        assert(source_count(world, limits, x[x.len() - 1]) == source_count(world, limits, y[y.len() - 1]));
    }
}

/// Applying a transaction a second time changes nothing: the planner state
/// it reaches is the same, and so the effective demand enters, updates and
/// exits nothing.
pub proof fn lemma_plan_replay_is_idempotent(m: PlannerModel, c: Seq<DemandSourceChange>)
    requires
        plan(m, c) is Ok,
    ensures
        plan(plan(m, c)->Ok_0, c) == plan(m, c),
        entered_chunks(plan(m, c)->Ok_0.chunks, plan(m, c)->Ok_0.chunks).len() == 0,
        updated_chunks(plan(m, c)->Ok_0.chunks, plan(m, c)->Ok_0.chunks).len() == 0,
        exited_chunks(plan(m, c)->Ok_0.chunks, plan(m, c)->Ok_0.chunks).len() == 0,
{
    reveal(plan_entries);
    let m1 = plan(m, c)->Ok_0;
    let e = next_entries(m.sources, c);
    let s = Set::new(|id: DemandSourceId| next_snapshot(m.sources, c, id) is Some);
    lemma_next_ids_arranged(m.sources, c);
    let ids = arrange(s);
    assert(m1.sources == next_sources(e));
    lemma_strictly_sorted_no_duplicates(ids);
    assert forall|id: DemandSourceId|
        #[trigger] next_snapshot(m1.sources, c, id) == next_snapshot(m.sources, c, id) by {
        if !changed(c, id) {
            if s.contains(id) {
                let q = choose|q: int| 0 <= q < ids.len() && ids[q] == id;
                assert(m1.sources[q].id == id);
                assert(held(m1.sources, id));
                let k1 = choose|k: int| 0 <= k < m1.sources.len() && (#[trigger] m1.sources[k]).id == id;
                assert(ids[k1] == id);
                assert(k1 == q);
            } else {
                if held(m1.sources, id) {
                    let k1 = choose|k: int| 0 <= k < m1.sources.len() && (#[trigger] m1.sources[k]).id == id;
                    assert(ids[k1] == id);
                    assert(ids.to_set().contains(id));
                }
            }
        }
    }
    let s1 = Set::new(|id: DemandSourceId| next_snapshot(m1.sources, c, id) is Some);
    assert(s1 =~= s);
    let e1 = next_entries(m1.sources, c);
    assert forall|k: int| 0 <= k < e.len() implies #[trigger] e1[k] == (EntryModel {
        id: e[k].id,
        snapshot: e[k].snapshot,
        prior: next_chunks(e[k]),
    }) by {
        let id = ids[k];
        assert(m1.sources[k].id == id);
        assert(held(m1.sources, id));
        let k1 = choose|kk: int| 0 <= kk < m1.sources.len() && (#[trigger] m1.sources[kk]).id == id;
        assert(ids[k1] == id);
        assert(k1 == k);
    }
    assert forall|k: int| 0 <= k < e.len() implies source_count(m.world_id, m.limits, #[trigger] e1[k])
        == source_count(m.world_id, m.limits, e[k]) by {
        lemma_source_count_replay(m.world_id, m.limits, e[k]);
    }
    lemma_count_total_pointwise(m.world_id, m.limits, e1, e);
    assert(all_fit(e1) == all_fit(e)) by {
        assert forall|k: int| 0 <= k < e.len() implies entry_fits(#[trigger] e1[k]) == entry_fits(e[k]) by {
        }
    }
    assert forall|k: int| 0 <= k < e.len() implies #[trigger] next_sources(e1)[k] == next_sources(e)[k] by {
        lemma_next_chunks_replay(e[k]);
    }
    assert(next_sources(e1) =~= next_sources(e));
    let old = m1.chunks;
    let pe = |x: DemandedChunk| !has_chunk(old, x.chunk_id);
    let pu = |x: DemandedChunk| has_chunk(old, x.chunk_id) && !old.contains(x);
    assert forall|k: int| 0 <= k < old.len() implies has_chunk(old, (#[trigger] old[k]).chunk_id) && old.contains(old[k]) by {
    }
    assert(old.all(|x: DemandedChunk| !pe(x)));
    assert(old.all(|x: DemandedChunk| !pu(x)));
    old.lemma_all_neg_filter_empty(pe);
    old.lemma_all_neg_filter_empty(pu);
    assert(entered_chunks(old, old) == old.filter(pe));
    assert(updated_chunks(old, old) == old.filter(pu));
    assert(exited_chunks(old, old) == old.filter(pe));
}

/// All contributions of a sequence of sources, listed source by source.
pub open spec fn contribution_list(world: WorldId, sources: Seq<SourceModel>) -> Seq<Contribution>
    decreases sources.len(),
{
    if sources.len() == 0 {
        Seq::empty()
    } else {
        let s = sources.last();
        contribution_list(world, sources.drop_last()) + pinned_contributions(s)
            + keyed_contributions(world, s, focus_keys(s, true), DemandClass::Desired)
            + keyed_contributions(world, s, focus_keys(s, false), DemandClass::Retained)
    }
}

/// The list holds exactly the contributions of all sources.
proof fn lemma_contribution_list(world: WorldId, sources: Seq<SourceModel>)
    ensures
        contribution_list(world, sources).to_set() == all_contributions(world, sources),
    decreases sources.len(),
{
    if sources.len() > 0 {
        let s = sources.last();
        lemma_contribution_list(world, sources.drop_last());
        let a = contribution_list(world, sources.drop_last());
        let b = pinned_contributions(s);
        let c = keyed_contributions(world, s, focus_keys(s, true), DemandClass::Desired);
        let d = keyed_contributions(world, s, focus_keys(s, false), DemandClass::Retained);
        vstd::seq_lib::seq_to_set_distributes_over_add(a, b);
        vstd::seq_lib::seq_to_set_distributes_over_add(a + b, c);
        vstd::seq_lib::seq_to_set_distributes_over_add(a + b + c, d);
        assert(contribution_list(world, sources).to_set() =~= all_contributions(world, sources));
    } else {
        assert(contribution_list(world, sources).to_set() =~= Set::<Contribution>::empty());
    }
}

/// A source's contributions are among all contributions.
proof fn lemma_source_in_all(world: WorldId, sources: Seq<SourceModel>, k: int)
    requires
        0 <= k < sources.len(),
    ensures
        source_contributions(world, sources[k]).subset_of(all_contributions(world, sources)),
    decreases sources.len(),
{
    if k < sources.len() - 1 {
        lemma_source_in_all(world, sources.drop_last(), k);
        assert(sources.drop_last()[k] == sources[k]);
    }
}

/// Every kept contribution was in the input, and a strictly sorted input
/// stays strictly sorted.
proof fn lemma_first_per_chunk_sorted(s: Seq<Contribution>)
    ensures
        forall|j: int| 0 <= j < first_per_chunk(s).len() ==> s.contains(#[trigger] first_per_chunk(s)[j]),
        strictly_sorted(s) ==> strictly_sorted(first_per_chunk(s)),
        forall|a: int, b: int| 0 <= a < b < first_per_chunk(s).len() ==> (#[trigger] first_per_chunk(s)[a]).chunk_id
            != (#[trigger] first_per_chunk(s)[b]).chunk_id,
    decreases s.len(),
{
    if s.len() > 0 {
        let d = s.drop_last();
        lemma_first_per_chunk_sorted(d);
        let p = first_per_chunk(d);
        let f = first_per_chunk(s);
        assert forall|j: int| 0 <= j < p.len() implies s.contains(#[trigger] p[j]) by {
            assert(d.contains(p[j]));
            let i = choose|i: int| 0 <= i < d.len() && d[i] == p[j];
            assert(s[i] == p[j]);
        }
        if strictly_sorted(s) {
            assert(strictly_sorted(d)) by {
                assert forall|a: int, b: int| 0 <= a < b < d.len() implies (#[trigger] d[a]).key_less(#[trigger] d[b]) by {
                    assert(d[a] == s[a] && d[b] == s[b]);
                }
            }
            assert forall|j: int| 0 <= j < p.len() implies (#[trigger] p[j]).key_less(s.last()) by {
                assert(d.contains(p[j]));
                let i = choose|i: int| 0 <= i < d.len() && d[i] == p[j];
                assert(s[i] == d[i]);
            }
        }
        if !(exists|j: int| 0 <= j < p.len() && (#[trigger] p[j]).chunk_id == s.last().chunk_id) {
            assert(f == p.push(s.last()));
            assert(s.contains(s.last())) by {
                assert(s[s.len() - 1] == s.last());
            }
        } else {
            assert(f == p);
        }
    } else {
        assert(first_per_chunk(s) == Seq::<Contribution>::empty());
    }
}

/// For each contribution, a contribution for the same chunk that comes no
/// later is kept.
proof fn lemma_first_per_chunk_covers(s: Seq<Contribution>, i: int)
    requires
        0 <= i < s.len(),
    ensures
        exists|j: int, i2: int|
            0 <= j < first_per_chunk(s).len() && 0 <= i2 <= i && #[trigger] first_per_chunk(s)[j] == #[trigger] s[i2]
                && s[i2].chunk_id == s[i].chunk_id,
    decreases s.len(),
{
    let d = s.drop_last();
    let p = first_per_chunk(d);
    let f = first_per_chunk(s);
    if i < s.len() - 1 {
        lemma_first_per_chunk_covers(d, i);
        let (j, i2) = choose|j: int, i2: int|
            0 <= j < p.len() && 0 <= i2 <= i && #[trigger] p[j] == #[trigger] d[i2] && d[i2].chunk_id == d[i].chunk_id;
        if exists|jj: int| 0 <= jj < p.len() && (#[trigger] p[jj]).chunk_id == s.last().chunk_id {
            assert(f == p);
        } else {
            assert(f == p.push(s.last()));
            assert(f[j] == p[j]);
        }
        assert(f[j] == s[i2]);
    } else {
        if exists|jj: int| 0 <= jj < p.len() && (#[trigger] p[jj]).chunk_id == s.last().chunk_id {
            let jj = choose|jj: int| 0 <= jj < p.len() && (#[trigger] p[jj]).chunk_id == s.last().chunk_id;
            assert(f == p);
            lemma_first_per_chunk_sorted(d);
            assert(d.contains(p[jj]));
            let i2 = choose|i2: int| 0 <= i2 < d.len() && d[i2] == p[jj];
            assert(s[i2] == d[i2]);
            assert(f[jj] == s[i2]);
        } else {
            assert(f == p.push(s.last()));
            assert(f[p.len() as int] == s[i]);
        }
    }
}

/// Every pin of every source is in the effective demand, as a pinned chunk:
/// pins override focus demand and are never suppressed.
pub proof fn lemma_plan_keeps_every_pin(m: PlannerModel, c: Seq<DemandSourceChange>, k: int, i: int)
    requires
        plan(m, c) is Ok,
        0 <= k < (plan(m, c)->Ok_0).sources.len(),
        0 <= i < (plan(m, c)->Ok_0).sources[k].snapshot.pins.len(),
    ensures
        ({
            let m1 = plan(m, c)->Ok_0;
            exists|j: int|
                0 <= j < m1.chunks.len() && (#[trigger] m1.chunks[j]).chunk_id
                    == m1.sources[k].snapshot.pins[i] && m1.chunks[j].class == DemandClass::Pinned
        }),
{
    reveal(plan_entries);
    let m1 = plan(m, c)->Ok_0;
    let sources = m1.sources;
    let cands = candidates(m.world_id, sources);
    let n = min_int(m.limits.spec_max_effective_chunks() as int, cands.len() as int);
    lemma_pin_selected(m.world_id, sources, m.limits.spec_max_effective_chunks() as int, k, i);
    let j = choose|j: int|
        0 <= j < m.limits.spec_max_effective_chunks() && j < cands.len() && (#[trigger] cands[j]).chunk_id
            == sources[k].snapshot.pins[i] && cands[j].class == DemandClass::Pinned;
    assert(m1.chunks == select(cands, n));
    assert(m1.chunks[j].chunk_id == cands[j].chunk_id);
}

/// With no more pinned candidates than `n`, every pin of every source is a
/// pinned candidate among the first `n`.
proof fn lemma_pin_selected(world: WorldId, sources: Seq<SourceModel>, n: int, k: int, i: int)
    requires
        0 <= k < sources.len(),
        0 <= i < sources[k].snapshot.pins.len(),
        pinned_count(candidates(world, sources)) <= n,
    ensures
        exists|j: int|
            0 <= j < n && j < candidates(world, sources).len() && (#[trigger] candidates(world, sources)[j]).chunk_id
                == sources[k].snapshot.pins[i] && candidates(world, sources)[j].class == DemandClass::Pinned,
{
    let cands = candidates(world, sources);
    lemma_pin_is_pinned_candidate(world, sources, k, i);
    let j = choose|j: int|
        0 <= j < cands.len() && (#[trigger] cands[j]).chunk_id == sources[k].snapshot.pins[i]
            && cands[j].class == DemandClass::Pinned;
    lemma_candidates_ordered(world, sources);
    let pinned = |y: Contribution| y.class == DemandClass::Pinned;
    assert forall|a: int| 0 <= a <= j implies pinned(#[trigger] cands[a]) by {
        if a < j {
            assert(class_order(cands[a].class) <= class_order(cands[j].class));
        }
    }
    assert(cands.take(j + 1).filter(pinned) =~= cands.take(j + 1)) by {
        assert(cands.take(j + 1).all(pinned)) by {
            assert forall|a: int| 0 <= a < cands.take(j + 1).len() implies pinned(#[trigger] cands.take(j + 1)[a]) by {
                assert(cands.take(j + 1)[a] == cands[a]);
            }
        }
        lemma_filter_all(cands.take(j + 1), pinned);
    }
    cands.lemma_filter_take_len(pinned, j + 1);
    assert(j < n);
}

/// Every pin of every source of the planner is in its effective demand, as
/// a pinned chunk: pins are never suppressed.
pub proof fn lemma_every_pin_is_effective(p: &SpatialDemandPlanner, k: int, i: int)
    requires
        p.wf(),
        0 <= k < p@.sources.len(),
        0 <= i < p@.sources[k].snapshot.pins.len(),
    ensures
        exists|j: int|
            0 <= j < p@.chunks.len() && (#[trigger] p@.chunks[j]).chunk_id == p@.sources[k].snapshot.pins[i]
                && p@.chunks[j].class == DemandClass::Pinned,
{
    p.lemma_settled();
    let m = p@;
    let cands = candidates(m.world_id, m.sources);
    lemma_pin_selected(m.world_id, m.sources, m.limits.spec_max_effective_chunks() as int, k, i);
    let j = choose|j: int|
        0 <= j < m.limits.spec_max_effective_chunks() && j < cands.len() && (#[trigger] cands[j]).chunk_id
            == m.sources[k].snapshot.pins[i] && cands[j].class == DemandClass::Pinned;
    assert(m.chunks[j].chunk_id == cands[j].chunk_id);
}

/// Filtering keeps a sequence whose elements all pass.
proof fn lemma_filter_all<A>(s: Seq<A>, p: spec_fn(A) -> bool)
    requires
        s.all(p),
    ensures
        s.filter(p) == s,
    decreases s.len(),
{
    reveal(Seq::filter);
    if s.len() > 0 {
        lemma_filter_all(s.drop_last(), p);
        assert(p(s[s.len() - 1]));
        assert(s.drop_last().push(s.last()) =~= s);
    } else {
        assert(s.filter(p) =~= s);
    }
}

/// The effective demand after a transaction: at most the effective limit,
/// each chunk once, ranked by position, and with no more pinned chunks than
/// the limit.
pub proof fn lemma_plan_effective_shape(m: PlannerModel, c: Seq<DemandSourceChange>)
    requires
        plan(m, c) is Ok,
    ensures
        ({
            let m1 = plan(m, c)->Ok_0;
            &&& m1.chunks.len() <= m.limits.spec_max_effective_chunks()
            &&& forall|i: int| 0 <= i < m1.chunks.len() ==> (#[trigger] m1.chunks[i]).rank@ == i
            &&& forall|a: int, b: int|
                0 <= a < b < m1.chunks.len() ==> (#[trigger] m1.chunks[a]).chunk_id != (
                #[trigger] m1.chunks[b]).chunk_id
            &&& m1.pressure.selected_effective_chunks == m1.chunks.len()
            &&& m1.pressure.unique_pinned_effective_chunks <= m.limits.spec_max_effective_chunks()
        }),
{
    reveal(plan_entries);
    let m1 = plan(m, c)->Ok_0;
    let sources = m1.sources;
    let all = all_contributions(m.world_id, sources);
    let cands = first_per_chunk(arrange(all));
    lemma_first_per_chunk_sorted(arrange(all));
    assert forall|i: int| 0 <= i < m1.chunks.len() implies (#[trigger] m1.chunks[i]).rank@ == i by {
        DemandRank::lemma_spec_from(i);
    }
}

/// Hysteresis is per source: after a transaction, a source with a focus
/// demands every chunk of its desired box, keeps every chunk it demanded
/// before that is still inside its retain box, and demands nothing else:
/// no chunk outside its retain box, and no chunk outside its desired box
/// that it did not itself demand before. A source without a focus demands
/// no focus chunk.
pub proof fn lemma_plan_hysteresis(m: PlannerModel, c: Seq<DemandSourceChange>, k: int, x: ChunkCoord3)
    requires
        plan(m, c) is Ok,
        0 <= k < (plan(m, c)->Ok_0).sources.len(),
    ensures
        ({
            let s = (plan(m, c)->Ok_0).sources[k];
            let prior = prior_chunks(m.sources, s.id);
            match s.snapshot.focus {
                None => !s.chunks.contains(x),
                Some(f) => {
                    &&& within(x, f.spec_center().coord, f.spec_hd() as int, f.spec_vd() as int)
                        ==> s.chunks.contains(x)
                    &&& prior.contains(x) && within(x, f.spec_center().coord, f.spec_hr() as int, f.spec_vr() as int)
                        ==> s.chunks.contains(x)
                    &&& s.chunks.contains(x) ==> within(x, f.spec_center().coord, f.spec_hr() as int, f.spec_vr() as int)
                        || within(x, f.spec_center().coord, f.spec_hd() as int, f.spec_vd() as int)
                    &&& s.chunks.contains(x) && !within(x, f.spec_center().coord, f.spec_hd() as int, f.spec_vd() as int)
                        ==> prior.contains(x)
                },
            }
        }),
{
    reveal(plan_entries);
    assert(!has_duplicate(c));
    let entries = next_entries(m.sources, c);
    let m1 = plan(m, c)->Ok_0;
    assert(m1.sources == next_sources(entries));
    let e = entries[k];
    assert(m1.sources[k].chunks == next_chunks(e));
    assert(m1.sources[k].id == e.id && m1.sources[k].snapshot == e.snapshot);
    assert(e.prior == prior_chunks(m.sources, e.id));
}


/// The candidates are each chunk once, strongest first: pins, then desired
/// chunks, then retained ones.
proof fn lemma_candidates_ordered(world: WorldId, sources: Seq<SourceModel>)
    ensures
        ({
            let c = candidates(world, sources);
            &&& forall|a: int, b: int|
                0 <= a < b < c.len() ==> class_order((#[trigger] c[a]).class) <= class_order((#[trigger] c[b]).class)
            &&& forall|a: int, b: int| 0 <= a < b < c.len() ==> (#[trigger] c[a]).chunk_id != (#[trigger] c[b]).chunk_id
        }),
{
    let all = all_contributions(world, sources);
    lemma_contribution_list(world, sources);
    lemma_arrange_exists(contribution_list(world, sources));
    lemma_first_per_chunk_sorted(arrange(all));
}

/// Past position `n`, no element passes: the filtered prefixes stay equal.
proof fn lemma_filter_take_stable<A>(c: Seq<A>, p: spec_fn(A) -> bool, n: int, k: int)
    requires
        0 <= n <= k <= c.len(),
        forall|j: int| n <= j < c.len() ==> !p(#[trigger] c[j]),
    ensures
        c.take(k).filter(p) == c.take(n).filter(p),
    decreases k - n,
{
    if k > n {
        lemma_filter_take_stable(c, p, n, k - 1);
        lemma_take_filter_step(c, p, k - 1);
    }
}

/// With classes in order and no more pinned candidates than `n`, every
/// pinned candidate is among the first `n`.
proof fn lemma_pins_in_prefix(c: Seq<Contribution>, n: int)
    requires
        forall|a: int, b: int|
            0 <= a < b < c.len() ==> class_order((#[trigger] c[a]).class) <= class_order((#[trigger] c[b]).class),
        pinned_count(c) <= n <= c.len(),
    ensures
        c.take(n).filter(|x: Contribution| x.class == DemandClass::Pinned).len() == pinned_count(c),
{
    let pinned = |x: Contribution| x.class == DemandClass::Pinned;
    assert forall|j: int| n <= j < c.len() implies !pinned(#[trigger] c[j]) by {
        if pinned(c[j]) {
            assert forall|a: int| 0 <= a < j + 1 implies pinned(#[trigger] c.take(j + 1)[a]) by {
                assert(c.take(j + 1)[a] == c[a]);
                if a < j {
                    assert(class_order(c[a].class) <= class_order(c[j].class));
                }
            }
            assert(c.take(j + 1).all(pinned));
            lemma_filter_all(c.take(j + 1), pinned);
            c.lemma_filter_take_len(pinned, j + 1);
        }
    }
    lemma_filter_take_stable(c, pinned, n, c.len() as int);
    assert(c.take(c.len() as int) =~= c);
}

/// Selecting keeps each candidate's class.
proof fn lemma_select_pinned(c: Seq<Contribution>, n: int)
    requires
        0 <= n <= c.len(),
    ensures
        select(c, n).filter(|d: DemandedChunk| d.class == DemandClass::Pinned).len() == c.take(n).filter(
            |x: Contribution| x.class == DemandClass::Pinned,
        ).len(),
    decreases n,
{
    let pd = |d: DemandedChunk| d.class == DemandClass::Pinned;
    let pc = |x: Contribution| x.class == DemandClass::Pinned;
    if n > 0 {
        lemma_select_pinned(c, n - 1);
        let s = select(c, n);
        assert(s.take(n - 1) =~= select(c, n - 1));
        assert(s.take(n) =~= s);
        lemma_take_filter_step(s, pd, n - 1);
        lemma_take_filter_step(c, pc, n - 1);
    } else {
        assert(select(c, 0) =~= Seq::<DemandedChunk>::empty());
        assert(c.take(0) =~= Seq::<Contribution>::empty());
        assert(Seq::<DemandedChunk>::empty().filter(pd) =~= Seq::<DemandedChunk>::empty());
        assert(Seq::<Contribution>::empty().filter(pc) =~= Seq::<Contribution>::empty());
    }
}

/// The counters of the effective demand describe it: the selected chunks are
/// the effective demand, as many as the candidates or the effective limit
/// allows, whichever is fewer; the suppressed ones are the candidates that
/// were not selected; the pinned count is the number of pinned chunks in the
/// effective demand, none of them suppressed; and the source count is the
/// number of sources.
pub proof fn lemma_pressure_counts(p: &SpatialDemandPlanner)
    requires
        p.wf(),
    ensures
        ({
            let m = p@;
            let x = m.pressure;
            &&& x.selected_effective_chunks == m.chunks.len()
            &&& x.selected_effective_chunks <= x.candidate_effective_chunks
            &&& x.suppressed_effective_chunks == x.candidate_effective_chunks - x.selected_effective_chunks
            &&& x.selected_effective_chunks == min_int(
                x.candidate_effective_chunks as int,
                m.limits.spec_max_effective_chunks() as int,
            )
            &&& x.unique_pinned_effective_chunks <= x.selected_effective_chunks
            &&& x.unique_pinned_effective_chunks == m.chunks.filter(
                |d: DemandedChunk| d.class == DemandClass::Pinned,
            ).len()
            &&& x.source_count == m.sources.len()
        }),
{
    p.lemma_settled();
    let m = p@;
    let c = candidates(m.world_id, m.sources);
    let n = min_int(m.limits.spec_max_effective_chunks() as int, c.len() as int);
    lemma_candidates_ordered(m.world_id, m.sources);
    lemma_pins_in_prefix(c, n);
    lemma_select_pinned(c, n);
}

/// The effective demand holds each chunk once, ranked by position, pins
/// first, then desired chunks, then retained ones, and no more chunks than
/// the effective limit.
pub proof fn lemma_effective_demand_order(p: &SpatialDemandPlanner)
    requires
        p.wf(),
    ensures
        ({
            let s = p@.chunks;
            &&& s.len() <= p@.limits.spec_max_effective_chunks()
            &&& ranked(s)
            &&& forall|a: int, b: int|
                0 <= a < b < s.len() ==> class_order((#[trigger] s[a]).class) <= class_order((#[trigger] s[b]).class)
        }),
{
    p.lemma_settled();
    let m = p@;
    let c = candidates(m.world_id, m.sources);
    lemma_candidates_ordered(m.world_id, m.sources);
    assert forall|i: int| 0 <= i < m.chunks.len() implies (#[trigger] m.chunks[i]).rank@ == i by {
        DemandRank::lemma_spec_from(i);
    }
}

/// Each chunk once, its rank its position.
pub open spec fn ranked(s: Seq<DemandedChunk>) -> bool {
    &&& forall|i: int| 0 <= i < s.len() ==> (#[trigger] s[i]).rank@ == i
    &&& forall|a: int, b: int| 0 <= a < b < s.len() ==> (#[trigger] s[a]).chunk_id != (#[trigger] s[b]).chunk_id
}

/// A filter keeps elements of its input, in their order.
proof fn lemma_filter_in_rank_order(s: Seq<DemandedChunk>, p: spec_fn(DemandedChunk) -> bool)
    requires
        forall|i: int| 0 <= i < s.len() ==> (#[trigger] s[i]).rank@ == i,
    ensures
        forall|a: int| 0 <= a < s.filter(p).len() ==> s.contains(#[trigger] s.filter(p)[a]) && p(s.filter(p)[a]),
        forall|a: int, b: int|
            0 <= a < b < s.filter(p).len() ==> (#[trigger] s.filter(p)[a]).rank@ < (#[trigger] s.filter(p)[b]).rank@,
    decreases s.len(),
{
    reveal(Seq::filter);
    if s.len() > 0 {
        let d = s.drop_last();
        lemma_filter_in_rank_order(d, p);
        let f = d.filter(p);
        assert forall|a: int| 0 <= a < f.len() implies s.contains(#[trigger] f[a]) && f[a].rank@ < s.len() - 1 by {
            let i = choose|i: int| 0 <= i < d.len() && d[i] == f[a];
            assert(s[i] == f[a]);
        }
        if p(s.last()) {
            assert(s.filter(p) == f.push(s.last()));
            assert(s.contains(s.last())) by {
                assert(s[s.len() - 1] == s.last());
            }
        } else {
            assert(s.filter(p) == f);
        }
    } else {
        assert(s.filter(p) =~= Seq::<DemandedChunk>::empty());
    }
}

/// Each list of a delta between two ranked effective demands is each chunk
/// once, in rank order: the entered chunks are new entries whose chunk the
/// old demand lacks, the updated ones new entries whose chunk the old demand
/// has with another rank or class, and the exited ones old entries whose
/// chunk the new demand lacks. Each is the one entry that its demand (the
/// new one, or the old one for an exited chunk) holds for its chunk.
pub proof fn lemma_delta_lists(old: Seq<DemandedChunk>, new: Seq<DemandedChunk>)
    requires
        ranked(old),
        ranked(new),
    ensures
        forall|a: int|
            0 <= a < entered_chunks(old, new).len() ==> sole_entry(new, #[trigger] entered_chunks(old, new)[a])
                && !has_chunk(old, entered_chunks(old, new)[a].chunk_id),
        forall|a: int|
            0 <= a < updated_chunks(old, new).len() ==> sole_entry(new, #[trigger] updated_chunks(old, new)[a])
                && has_chunk(old, updated_chunks(old, new)[a].chunk_id) && !old.contains(updated_chunks(old, new)[a]),
        forall|a: int|
            0 <= a < exited_chunks(old, new).len() ==> sole_entry(old, #[trigger] exited_chunks(old, new)[a])
                && !has_chunk(new, exited_chunks(old, new)[a].chunk_id),
        ranked_subsequence(entered_chunks(old, new)),
        ranked_subsequence(updated_chunks(old, new)),
        ranked_subsequence(exited_chunks(old, new)),
{
    let pe = |c: DemandedChunk| !has_chunk(old, c.chunk_id);
    let pu = |c: DemandedChunk| has_chunk(old, c.chunk_id) && !old.contains(c);
    let px = |c: DemandedChunk| !has_chunk(new, c.chunk_id);
    lemma_filter_in_rank_order(new, pe);
    lemma_filter_in_rank_order(new, pu);
    lemma_filter_in_rank_order(old, px);
    lemma_ranked_members(new, new.filter(pe));
    lemma_ranked_members(new, new.filter(pu));
    lemma_ranked_members(old, old.filter(px));
    assert forall|a: int| 0 <= a < new.filter(pe).len() implies sole_entry(new, #[trigger] new.filter(pe)[a]) by {
        lemma_sole_entry(new, new.filter(pe)[a]);
    }
    assert forall|a: int| 0 <= a < new.filter(pu).len() implies sole_entry(new, #[trigger] new.filter(pu)[a]) by {
        lemma_sole_entry(new, new.filter(pu)[a]);
    }
    assert forall|a: int| 0 <= a < old.filter(px).len() implies sole_entry(old, #[trigger] old.filter(px)[a]) by {
        lemma_sole_entry(old, old.filter(px)[a]);
    }
}

/// `x` is in `s`, and it is the only entry of `s` about its chunk.
pub open spec fn sole_entry(s: Seq<DemandedChunk>, x: DemandedChunk) -> bool {
    &&& s.contains(x)
    &&& forall|j: int| 0 <= j < s.len() && (#[trigger] s[j]).chunk_id == x.chunk_id ==> s[j] == x
}

/// An entry of a ranked sequence is the only one about its chunk.
proof fn lemma_sole_entry(s: Seq<DemandedChunk>, x: DemandedChunk)
    requires
        ranked(s),
        s.contains(x),
    ensures
        sole_entry(s, x),
{
    let i = choose|i: int| 0 <= i < s.len() && s[i] == x;
    assert forall|j: int| 0 <= j < s.len() && (#[trigger] s[j]).chunk_id == x.chunk_id implies s[j] == x by {
        if j < i {
            assert(s[j].chunk_id != s[i].chunk_id);
        } else if i < j {
            assert(s[i].chunk_id != s[j].chunk_id);
        }
    }
}

/// Strictly increasing ranks and each chunk once.
pub open spec fn ranked_subsequence(s: Seq<DemandedChunk>) -> bool {
    &&& forall|a: int, b: int| 0 <= a < b < s.len() ==> (#[trigger] s[a]).rank@ < (#[trigger] s[b]).rank@
    &&& forall|a: int, b: int| 0 <= a < b < s.len() ==> (#[trigger] s[a]).chunk_id != (#[trigger] s[b]).chunk_id
}

/// Entries of a ranked sequence with distinct ranks have distinct chunks.
proof fn lemma_ranked_members(whole: Seq<DemandedChunk>, s: Seq<DemandedChunk>)
    requires
        ranked(whole),
        forall|a: int| 0 <= a < s.len() ==> whole.contains(#[trigger] s[a]),
        forall|a: int, b: int| 0 <= a < b < s.len() ==> (#[trigger] s[a]).rank@ < (#[trigger] s[b]).rank@,
    ensures
        ranked_subsequence(s),
{
    assert forall|a: int, b: int| 0 <= a < b < s.len() implies (#[trigger] s[a]).chunk_id != (#[trigger] s[b]).chunk_id by {
        assert(whole.contains(s[a]));
        assert(whole.contains(s[b]));
        let i = choose|i: int| 0 <= i < whole.len() && whole[i] == s[a];
        let j = choose|j: int| 0 <= j < whole.len() && whole[j] == s[b];
        assert(whole[i].rank@ == i);
        assert(whole[j].rank@ == j);
        if i < j {
            assert(whole[i].chunk_id != whole[j].chunk_id);
        } else {
            assert(whole[j].chunk_id != whole[i].chunk_id);
        }
    }
}

/// The chunks that the sources pin, each once.
pub open spec fn pinned_ids(sources: Seq<SourceModel>) -> Set<ChunkId> {
    Set::new(
        |id: ChunkId|
            exists|k: int, i: int|
                0 <= k < sources.len() && 0 <= i < sources[k].snapshot.pins.len()
                    && #[trigger] sources[k].snapshot.pins[i] == id,
    )
}

/// A contribution of all sources is a contribution of one of them.
proof fn lemma_all_from_one(world: WorldId, sources: Seq<SourceModel>, x: Contribution)
    requires
        all_contributions(world, sources).contains(x),
    ensures
        exists|k: int| 0 <= k < sources.len() && #[trigger] source_contributions(world, sources[k]).contains(x),
    decreases sources.len(),
{
    if sources.len() > 0 {
        let d = sources.drop_last();
        if all_contributions(world, d).contains(x) {
            lemma_all_from_one(world, d, x);
            let k = choose|k: int| 0 <= k < d.len() && #[trigger] source_contributions(world, d[k]).contains(x);
            assert(d[k] == sources[k]);
        } else {
            assert(source_contributions(world, sources[sources.len() - 1]).contains(x));
        }
    }
}

/// A pinned contribution of a source is one of its pins.
proof fn lemma_pinned_from_pin(world: WorldId, s: SourceModel, x: Contribution)
    requires
        source_contributions(world, s).contains(x),
        x.class == DemandClass::Pinned,
    ensures
        exists|i: int| 0 <= i < s.snapshot.pins.len() && #[trigger] s.snapshot.pins[i] == x.chunk_id,
{
    let a = pinned_contributions(s);
    let b = keyed_contributions(world, s, focus_keys(s, true), DemandClass::Desired);
    let c = keyed_contributions(world, s, focus_keys(s, false), DemandClass::Retained);
    if b.to_set().contains(x) {
        let j = choose|j: int| 0 <= j < b.len() && b[j] == x;
        assert(b[j].class == DemandClass::Desired);
    } else if c.to_set().contains(x) {
        let j = choose|j: int| 0 <= j < c.len() && c[j] == x;
        assert(c[j].class == DemandClass::Retained);
    } else {
        assert(a.to_set().contains(x));
        let j = choose|j: int| 0 <= j < a.len() && a[j] == x;
        assert(s.snapshot.pins[j] == x.chunk_id);
    }
}

/// Every pin of every source is a pinned candidate.
proof fn lemma_pin_is_pinned_candidate(world: WorldId, sources: Seq<SourceModel>, k: int, i: int)
    requires
        0 <= k < sources.len(),
        0 <= i < sources[k].snapshot.pins.len(),
    ensures
        exists|j: int|
            0 <= j < candidates(world, sources).len() && (#[trigger] candidates(world, sources)[j]).chunk_id
                == sources[k].snapshot.pins[i] && candidates(world, sources)[j].class == DemandClass::Pinned,
{
    let all = all_contributions(world, sources);
    lemma_contribution_list(world, sources);
    lemma_arrange_exists(contribution_list(world, sources));
    let q = arrange(all);
    let cands = first_per_chunk(q);
    let x = pinned_contributions(sources[k])[i];
    assert(pinned_contributions(sources[k]).to_set().contains(x));
    lemma_source_in_all(world, sources, k);
    assert(q.to_set().contains(x));
    let ix = choose|ix: int| 0 <= ix < q.len() && q[ix] == x;
    lemma_first_per_chunk_covers(q, ix);
    let (j, i2) = choose|j: int, i2: int|
        0 <= j < cands.len() && 0 <= i2 <= ix && #[trigger] cands[j] == #[trigger] q[i2]
            && q[i2].chunk_id == q[ix].chunk_id;
    Contribution::lemma_strict_total();
    if i2 < ix {
        assert(q[i2].key_less(q[ix]));
    }
    assert(cands[j].class == DemandClass::Pinned);
    assert(cands == candidates(world, sources));
    assert(cands[j].chunk_id == x.chunk_id);
}

/// The pinned candidates are the chunks that the sources pin, each once.
proof fn lemma_pinned_count_is_distinct_pins(world: WorldId, sources: Seq<SourceModel>)
    ensures
        pinned_ids(sources).finite(),
        pinned_count(candidates(world, sources)) == pinned_ids(sources).len(),
{
    let c = candidates(world, sources);
    let pc = |x: Contribution| x.class == DemandClass::Pinned;
    let all = all_contributions(world, sources);
    lemma_contribution_list(world, sources);
    lemma_arrange_exists(contribution_list(world, sources));
    lemma_first_per_chunk_sorted(arrange(all));
    lemma_candidates_ordered(world, sources);
    assert(c.no_duplicates()) by {
        assert forall|a: int, b: int| 0 <= a < c.len() && 0 <= b < c.len() && a != b implies c[a] != c[b] by {
            if a < b {
                assert(c[a].chunk_id != c[b].chunk_id);
            } else {
                assert(c[b].chunk_id != c[a].chunk_id);
            }
        }
    }
    let pins = c.filter(pc);
    lemma_filter_no_duplicates(c, pc);
    let ids = pins.map_values(|x: Contribution| x.chunk_id);
    assert forall|a: int| 0 <= a < pins.len() implies c.contains(#[trigger] pins[a]) && pc(pins[a]) by {
        assert(pins.to_set().contains(pins[a]));
    }
    assert(ids.no_duplicates()) by {
        assert forall|a: int, b: int| 0 <= a < ids.len() && 0 <= b < ids.len() && a != b implies ids[a] != ids[b] by {
            assert(pins[a] != pins[b]);
            assert(c.contains(pins[a]) && c.contains(pins[b]));
            let i = choose|i: int| 0 <= i < c.len() && c[i] == pins[a];
            let j = choose|j: int| 0 <= j < c.len() && c[j] == pins[b];
            if i < j {
                assert(c[i].chunk_id != c[j].chunk_id);
            } else {
                assert(c[j].chunk_id != c[i].chunk_id);
            }
        }
    }
    assert(ids.to_set() =~= pinned_ids(sources)) by {
        assert forall|id: ChunkId| ids.to_set().contains(id) implies pinned_ids(sources).contains(id) by {
            let a = choose|a: int| 0 <= a < ids.len() && ids[a] == id;
            let y = pins[a];
            assert(c.contains(y));
            assert(arrange(all).contains(y));
            assert(arrange(all).to_set().contains(y));
            assert(all.contains(y));
            lemma_all_from_one(world, sources, y);
            let k = choose|k: int| 0 <= k < sources.len() && #[trigger] source_contributions(world, sources[k]).contains(y);
            lemma_pinned_from_pin(world, sources[k], y);
            let i = choose|i: int| 0 <= i < sources[k].snapshot.pins.len() && #[trigger] sources[k].snapshot.pins[i] == y.chunk_id;
            assert(sources[k].snapshot.pins[i] == id);
        }
        assert forall|id: ChunkId| pinned_ids(sources).contains(id) implies ids.to_set().contains(id) by {
            let (k, i) = choose|k: int, i: int|
                0 <= k < sources.len() && 0 <= i < sources[k].snapshot.pins.len()
                    && #[trigger] sources[k].snapshot.pins[i] == id;
            lemma_pin_is_pinned_candidate(world, sources, k, i);
            let j = choose|j: int|
                0 <= j < c.len() && (#[trigger] c[j]).chunk_id == sources[k].snapshot.pins[i]
                    && c[j].class == DemandClass::Pinned;
            assert(c.to_set().contains(c[j]));
            assert(pins.to_set().contains(c[j]));
            let a = choose|a: int| 0 <= a < pins.len() && pins[a] == c[j];
            assert(ids[a] == id);
        }
    }
    ids.unique_seq_to_set();
}

/// The pinned count of the effective demand is the number of distinct
/// chunks that the planner's sources pin.
pub proof fn lemma_pinned_count_counts_distinct_pins(p: &SpatialDemandPlanner)
    requires
        p.wf(),
    ensures
        pinned_ids(p@.sources).finite(),
        p@.pressure.unique_pinned_effective_chunks == pinned_ids(p@.sources).len(),
{
    p.lemma_settled();
    lemma_pinned_count_is_distinct_pins(p@.world_id, p@.sources);
}

/// A transaction that passes the checks before the pinned capacity check
/// fails exactly when its sources pin more distinct chunks than the
/// effective limit, and then reports that number.
pub proof fn lemma_pinned_capacity(m: PlannerModel, c: Seq<DemandSourceChange>)
    requires
        !has_duplicate(c),
        next_entries(m.sources, c).len() <= m.limits.spec_max_sources(),
        count_total(m.world_id, m.limits, next_entries(m.sources, c)) is Ok,
        all_fit(next_entries(m.sources, c)),
    ensures
        ({
            let pins = pinned_ids(next_sources(next_entries(m.sources, c)));
            let limit = m.limits.spec_max_effective_chunks();
            &&& pins.finite()
            &&& plan(m, c) is Ok <==> pins.len() <= limit
            &&& pins.len() > limit ==> plan(m, c) == Err::<PlannerModel, SpatialDemandError>(
                SpatialDemandError::PinnedCapacityExceeded { limit, pinned: pins.len() as usize },
            )
        }),
{
    reveal(plan_entries);
    lemma_pinned_count_is_distinct_pins(m.world_id, next_sources(next_entries(m.sources, c)));
}

/// A contribution of a source that pins only chunks of the world is for a
/// chunk of the world.
proof fn lemma_contribution_in_world(world: WorldId, sources: Seq<SourceModel>, k: int, x: Contribution)
    requires
        pins_in_world(world, sources),
        0 <= k < sources.len(),
        source_contributions(world, sources[k]).contains(x),
    ensures
        x.chunk_id.world_id == world,
{
    let s = sources[k];
    let a = pinned_contributions(s);
    let b = keyed_contributions(world, s, focus_keys(s, true), DemandClass::Desired);
    let c = keyed_contributions(world, s, focus_keys(s, false), DemandClass::Retained);
    if b.to_set().contains(x) {
        let j = choose|j: int| 0 <= j < b.len() && b[j] == x;
    } else if c.to_set().contains(x) {
        let j = choose|j: int| 0 <= j < c.len() && c[j] == x;
    } else {
        assert(a.to_set().contains(x));
        let j = choose|j: int| 0 <= j < a.len() && a[j] == x;
        assert(s.snapshot.pins[j] == x.chunk_id);
    }
}

/// Every chunk of the effective demand is in the planner's world.
pub proof fn lemma_effective_demand_in_world(p: &SpatialDemandPlanner)
    requires
        p.wf(),
    ensures
        forall|i: int| 0 <= i < p@.chunks.len() ==> (#[trigger] p@.chunks[i]).chunk_id.world_id == p@.world_id,
{
    p.lemma_settled();
    let m = p@;
    let world = m.world_id;
    let all = all_contributions(world, m.sources);
    lemma_contribution_list(world, m.sources);
    lemma_arrange_exists(contribution_list(world, m.sources));
    lemma_first_per_chunk_sorted(arrange(all));
    let c = candidates(world, m.sources);
    assert forall|i: int| 0 <= i < m.chunks.len() implies (#[trigger] m.chunks[i]).chunk_id.world_id == world by {
        let y = c[i];
        assert(m.chunks[i].chunk_id == y.chunk_id);
        assert(arrange(all).contains(y));
        assert(arrange(all).to_set().contains(y));
        lemma_all_from_one(world, m.sources, y);
        let k = choose|k: int| 0 <= k < m.sources.len() && #[trigger] source_contributions(world, m.sources[k]).contains(y);
        lemma_contribution_in_world(world, m.sources, k, y);
    }
}

/// The delta of a transaction between two planner states: each of its
/// lists holds each chunk once, in rank order; entered and updated entries
/// are the entries that the new effective demand gives for their chunks
/// (what its `get` returns), exited entries those of the old one; and its
/// counters are the new effective demand's.
pub proof fn lemma_transaction_delta(before: &SpatialDemandPlanner, after: &SpatialDemandPlanner, d: &SpatialDemandDelta)
    requires
        before.wf(),
        after.wf(),
        d.spec_entered() == entered_chunks(before@.chunks, after@.chunks),
        d.spec_updated() == updated_chunks(before@.chunks, after@.chunks),
        d.spec_exited() == exited_chunks(before@.chunks, after@.chunks),
        d.spec_pressure() == after@.pressure,
    ensures
        ranked_subsequence(d.spec_entered()),
        ranked_subsequence(d.spec_updated()),
        ranked_subsequence(d.spec_exited()),
        forall|a: int| 0 <= a < d.spec_entered().len() ==> sole_entry(after@.chunks, #[trigger] d.spec_entered()[a]),
        forall|a: int| 0 <= a < d.spec_updated().len() ==> sole_entry(after@.chunks, #[trigger] d.spec_updated()[a]),
        forall|a: int| 0 <= a < d.spec_exited().len() ==> sole_entry(before@.chunks, #[trigger] d.spec_exited()[a]),
        d.spec_pressure().suppressed_effective_chunks == d.spec_pressure().candidate_effective_chunks
            - d.spec_pressure().selected_effective_chunks,
        forall|a: int|
            0 <= a < d.spec_entered().len() ==> first_entry(after@.chunks, (#[trigger] d.spec_entered()[a]).chunk_id)
                == Some(d.spec_entered()[a]),
        forall|a: int|
            0 <= a < d.spec_updated().len() ==> first_entry(after@.chunks, (#[trigger] d.spec_updated()[a]).chunk_id)
                == Some(d.spec_updated()[a]),
        forall|a: int|
            0 <= a < d.spec_exited().len() ==> first_entry(before@.chunks, (#[trigger] d.spec_exited()[a]).chunk_id)
                == Some(d.spec_exited()[a]),
{
    lemma_effective_demand_order(before);
    lemma_effective_demand_order(after);
    lemma_delta_lists(before@.chunks, after@.chunks);
    lemma_pressure_counts(after);
    assert forall|a: int| 0 <= a < d.spec_entered().len() implies first_entry(after@.chunks, (#[trigger] d.spec_entered()[a]).chunk_id)
        == Some(d.spec_entered()[a]) by {
        lemma_sole_first(after@.chunks, d.spec_entered()[a]);
    }
    assert forall|a: int| 0 <= a < d.spec_updated().len() implies first_entry(after@.chunks, (#[trigger] d.spec_updated()[a]).chunk_id)
        == Some(d.spec_updated()[a]) by {
        lemma_sole_first(after@.chunks, d.spec_updated()[a]);
    }
    assert forall|a: int| 0 <= a < d.spec_exited().len() implies first_entry(before@.chunks, (#[trigger] d.spec_exited()[a]).chunk_id)
        == Some(d.spec_exited()[a]) by {
        lemma_sole_first(before@.chunks, d.spec_exited()[a]);
    }
}

/// The only entry about a chunk is the first one.
proof fn lemma_sole_first(s: Seq<DemandedChunk>, x: DemandedChunk)
    requires
        sole_entry(s, x),
    ensures
        first_entry(s, x.chunk_id) == Some(x),
{
    let i = choose|i: int| 0 <= i < s.len() && s[i] == x;
    lemma_first_index(s, x.chunk_id, i);
    let j = choose|j: int|
        0 <= j <= i && (#[trigger] s[j]).chunk_id == x.chunk_id && forall|k: int| 0 <= k < j ==> (#[trigger] s[k]).chunk_id != x.chunk_id;
    lemma_first_entry_at(s, x.chunk_id, j);
}

/// An entry about `id` has a first one at or before it.
proof fn lemma_first_index(s: Seq<DemandedChunk>, id: ChunkId, i: int)
    requires
        0 <= i < s.len(),
        s[i].chunk_id == id,
    ensures
        exists|j: int|
            0 <= j <= i && (#[trigger] s[j]).chunk_id == id && forall|k: int| 0 <= k < j ==> (#[trigger] s[k]).chunk_id != id,
    decreases i,
{
    if exists|k: int| 0 <= k < i && (#[trigger] s[k]).chunk_id == id {
        let k = choose|k: int| 0 <= k < i && (#[trigger] s[k]).chunk_id == id;
        lemma_first_index(s, id, k);
    } else {
        assert(forall|k: int| 0 <= k < i ==> (#[trigger] s[k]).chunk_id != id);
    }
}

/// The planner never holds more sources than its source limit.
pub proof fn lemma_sources_within_limit(p: &SpatialDemandPlanner)
    requires
        p.wf(),
    ensures
        p@.sources.len() <= p@.limits.spec_max_sources(),
{
    p.lemma_settled();
}

/// A transaction without a repeated source whose outcome would hold more
/// sources than the limit is rejected with the source limit and that number,
/// before any other check.
pub proof fn lemma_source_limit(m: PlannerModel, c: Seq<DemandSourceChange>)
    requires
        !has_duplicate(c),
        next_entries(m.sources, c).len() > m.limits.spec_max_sources(),
    ensures
        plan(m, c) == Err::<PlannerModel, SpatialDemandError>(
            SpatialDemandError::SourceLimitExceeded {
                limit: m.limits.spec_max_sources(),
                candidate: next_entries(m.sources, c).len() as usize,
            },
        ),
{
    reveal(plan_entries);
}

/// Pinned chunks rank before all others, and desired chunks before retained
/// ones: along the effective demand, a pinned chunk has only pinned chunks
/// before it, and a desired chunk has no retained chunk before it.
pub proof fn lemma_effective_demand_class_ranks(p: &SpatialDemandPlanner)
    requires
        p.wf(),
    ensures
        forall|a: int, b: int|
            0 <= a < b < p@.chunks.len() ==> ((#[trigger] p@.chunks[b]).class == DemandClass::Pinned
                ==> (#[trigger] p@.chunks[a]).class == DemandClass::Pinned),
        forall|a: int, b: int|
            0 <= a < b < p@.chunks.len() ==> ((#[trigger] p@.chunks[b]).class == DemandClass::Desired
                ==> (#[trigger] p@.chunks[a]).class != DemandClass::Retained),
{
    lemma_effective_demand_order(p);
    let s = p@.chunks;
    assert forall|a: int, b: int| 0 <= a < b < s.len() implies ((#[trigger] s[b]).class == DemandClass::Pinned
        ==> (#[trigger] s[a]).class == DemandClass::Pinned) by {
        assert(class_order(s[a].class) <= class_order(s[b].class));
    }
    assert forall|a: int, b: int| 0 <= a < b < s.len() implies ((#[trigger] s[b]).class == DemandClass::Desired
        ==> (#[trigger] s[a]).class != DemandClass::Retained) by {
        assert(class_order(s[a].class) <= class_order(s[b].class));
    }
}

/// The effective limit suppresses retained demand first: while a retained
/// chunk is in the effective demand, every chunk that some source pins or
/// desires (every candidate that is not only retained) is in it too, with
/// that class.
pub proof fn lemma_retained_only_after_desired(p: &SpatialDemandPlanner, j: int, i: int)
    requires
        p.wf(),
        0 <= j < p@.chunks.len(),
        p@.chunks[j].class == DemandClass::Retained,
        0 <= i < candidates(p@.world_id, p@.sources).len(),
        candidates(p@.world_id, p@.sources)[i].class != DemandClass::Retained,
    ensures
        exists|k: int|
            0 <= k < p@.chunks.len() && (#[trigger] p@.chunks[k]).chunk_id == candidates(p@.world_id, p@.sources)[i].chunk_id
                && p@.chunks[k].class == candidates(p@.world_id, p@.sources)[i].class,
{
    p.lemma_settled();
    let m = p@;
    let c = candidates(m.world_id, m.sources);
    lemma_candidates_ordered(m.world_id, m.sources);
    assert(m.chunks[j].class == c[j].class);
    if j < i {
        assert(class_order(c[j].class) <= class_order(c[i].class));
    }
    assert(i < j);
    assert(m.chunks[i].chunk_id == c[i].chunk_id);
}

} // verus!
