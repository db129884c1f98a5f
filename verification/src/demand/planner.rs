//! The demand planner: holds the sources and derives the effective demand.

use vstd::prelude::*;
use crate::ids::{ChunkCoord3, ChunkId, WorldId};
use crate::order::{chunk_id_eq, StrictKey, strictly_sorted, arrange, lemma_arrange_of_sorted,
    lemma_strictly_sorted_no_duplicates, sorted_insert};
use crate::grid::GridPartitionConfig;
use crate::demand::error::SpatialDemandError;
use crate::demand::identity::{DemandClass, DemandRank, DemandSourceId, class_index};
use crate::demand::limits::DemandLimits;
use crate::demand::source::{DemandSourceChange, DemandSourceSnapshot, SnapshotModel};
use crate::demand::snapshot::{DemandedChunk, DemandPressureDiagnostics, EffectiveDemandSnapshot,
    SpatialDemandDelta, has_chunk};
use crate::demand::geometry::{within, is_within, box_volume, box_fits, box_fits_exec, box_chunks};
use crate::error::SpatialMathError;
use crate::seqs::{lemma_take_filter_step, lemma_filter_no_duplicates};
use crate::demand::model::{Contribution, DistKey, EntryModel, PlannerModel, SourceModel,
    all_contributions, all_fit, candidates, changed, count_total, desired_in, dist_key,
    duplicated, entered_chunks, entry_fits, exited_chunks, first_per_chunk, focus_keys,
    has_duplicate, held, keyed_contributions, least_duplicate, min_int, next_chunks,
    next_entries, next_snapshot, next_sources, pinned_contributions, pinned_coord, pinned_count,
    plan, plan_entries, prior_chunks, replacement, retained_only, select, source_contributions, source_count,
    settled, pins_in_world, updated_chunks, world_error};

verus! {

/// The largest of two radii.
pub open spec fn max_radius(a: u32, b: u32) -> int {
    if a >= b {
        a as int
    } else {
        b as int
    }
}

/// All of a source's chunks lie in the union of its boxes; a source without
/// focus has none.
pub open spec fn chunks_bounded(snapshot: SnapshotModel, chunks: Set<ChunkCoord3>) -> bool {
    match snapshot.focus {
        None => chunks == Set::<ChunkCoord3>::empty(),
        Some(f) => forall|c: ChunkCoord3|
            #[trigger] chunks.contains(c) ==> within(
                c,
                f.spec_center().coord,
                max_radius(f.spec_hd(), f.spec_hr()),
                max_radius(f.spec_vd(), f.spec_vr()),
            ),
    }
}

/// One source held by the planner.
struct SourceState {
    id: DemandSourceId,
    snapshot: DemandSourceSnapshot,
    chunks: Vec<ChunkCoord3>,
}

impl SourceState {
    spec fn model(&self) -> SourceModel {
        SourceModel { id: self.id, snapshot: self.snapshot@, chunks: self.chunks@.to_set() }
    }

    spec fn wf(&self) -> bool {
        self.chunks@.no_duplicates() && chunks_bounded(self.snapshot@, self.chunks@.to_set())
    }
}

/// One source of a transaction's outcome: its snapshot and the position of
/// its previous state among the planner's sources, if it had one.
struct Entry {
    id: DemandSourceId,
    snapshot: DemandSourceSnapshot,
    prior: Option<usize>,
}

/// Merges demand sources into one ranked, bounded effective demand.
pub struct SpatialDemandPlanner {
    world_id: WorldId,
    partition: GridPartitionConfig,
    limits: DemandLimits,
    sources: Vec<SourceState>,
    snapshot: EffectiveDemandSnapshot,
}

/// The ids of a sequence of entries.
spec fn entry_ids(s: Seq<Entry>) -> Seq<DemandSourceId> {
    Seq::new(s.len(), |i: int| s[i].id)
}

/// The ids of a sequence of sources.
pub open spec fn source_ids(s: Seq<SourceModel>) -> Seq<DemandSourceId> {
    Seq::new(s.len(), |i: int| s[i].id)
}

impl View for SpatialDemandPlanner {
    type V = PlannerModel;

    closed spec fn view(&self) -> PlannerModel {
        PlannerModel {
            world_id: self.world_id,
            limits: self.limits,
            sources: Seq::new(self.sources@.len(), |i: int| self.sources@[i].model()),
            chunks: self.snapshot.spec_chunks(),
            pressure: self.snapshot.spec_pressure(),
        }
    }
}

impl SpatialDemandPlanner {
    /// The model of an entry: its snapshot and the chunks of its previous state.
    spec fn entry_model(&self, e: Entry) -> EntryModel {
        EntryModel {
            id: e.id,
            snapshot: e.snapshot@,
            prior: match e.prior {
                Some(k) => self.sources@[k as int].chunks@.to_set(),
                None => Set::empty(),
            },
        }
    }

    /// An entry holds the snapshot that the changes give its source, and the
    /// chunks of the source's previous state.
    spec fn entry_current(&self, changes: Seq<DemandSourceChange>, e: Entry) -> bool {
        &&& next_snapshot(self@.sources, changes, e.id) is Some
        &&& self.entry_model(e) == (EntryModel {
            id: e.id,
            snapshot: next_snapshot(self@.sources, changes, e.id)->0,
            prior: prior_chunks(self@.sources, e.id),
        })
    }

    /// The previous state of the source at position `q` is the one with its id.
    proof fn lemma_prior_of_held(&self, q: int)
        requires
            self.wf(),
            0 <= q < self.sources@.len(),
        ensures
            held(self@.sources, self@.sources[q].id),
            prior_chunks(self@.sources, self@.sources[q].id) == self.sources@[q].chunks@.to_set(),
            next_snapshot(self@.sources, Seq::empty(), self@.sources[q].id) == Some(
                self.sources@[q].snapshot@,
            ),
    {
        let sources = self@.sources;
        let id = sources[q].id;
        assert(held(sources, id));
        let kk = choose|kk: int| 0 <= kk < sources.len() && (#[trigger] sources[kk]).id == id;
        if kk != q {
            lemma_strictly_sorted_no_duplicates(source_ids(sources));
            assert(source_ids(sources)[kk] == source_ids(sources)[q]);
        }
        assert(!changed(Seq::<DemandSourceChange>::empty(), id));
    }

    /// The entries' previous states are the planner's sources with their ids.
    spec fn entries_linked(&self, entries: Seq<Entry>) -> bool {
        forall|q: int|
            0 <= q < entries.len() ==> match (#[trigger] entries[q]).prior {
                Some(k) => k < self.sources@.len() && self.sources@[k as int].id == entries[q].id,
                None => !held(self@.sources, entries[q].id),
            }
    }

    /// The planner's invariant: sources in increasing id order, each with
    /// distinct chunks inside its boxes.
    pub closed spec fn wf(&self) -> bool {
        &&& strictly_sorted(source_ids(self@.sources))
        &&& forall|i: int| 0 <= i < self.sources@.len() ==> (#[trigger] self.sources@[i]).wf()
        &&& settled(self@)
    }

    /// A well-formed planner is settled: its effective demand and its
    /// counters are the ones its own sources give.
    pub proof fn lemma_settled(&self)
        requires
            self.wf(),
        ensures
            settled(self@),
    {
    }

    /// The partition the planner was built with.
    pub closed spec fn spec_partition(&self) -> GridPartitionConfig {
        self.partition
    }

    /// A planner without sources and without demand.
    pub fn new(world_id: WorldId, partition: GridPartitionConfig, limits: DemandLimits) -> (r: Self)
        ensures
            r.wf(),
            r@.world_id == world_id,
            r@.limits == limits,
            r@.sources.len() == 0,
            r@.chunks.len() == 0,
            r@.pressure == (DemandPressureDiagnostics {
                candidate_effective_chunks: 0,
                selected_effective_chunks: 0,
                unique_pinned_effective_chunks: 0,
                suppressed_effective_chunks: 0,
                total_source_contributions: 0,
                source_count: 0,
            }),
            r.spec_partition() == partition,
    {
        let pressure = DemandPressureDiagnostics::new(0, 0, 0, 0, 0);
        let r = SpatialDemandPlanner {
            world_id,
            partition,
            limits,
            sources: Vec::new(),
            snapshot: EffectiveDemandSnapshot::new(Vec::new(), pressure),
        };
        proof {
            assert(source_ids(r@.sources) =~= Seq::<DemandSourceId>::empty());
            lemma_no_candidates(world_id, r@.sources);
            assert(select(Seq::<Contribution>::empty(), 0) =~= Seq::<DemandedChunk>::empty());
            assert(Seq::<Contribution>::empty().filter(|x: Contribution| x.class == DemandClass::Pinned)
                =~= Seq::<Contribution>::empty());
        }
        r
    }

    /// The planner's world.
    pub fn world_id(&self) -> (r: WorldId)
        ensures
            r == self@.world_id,
    {
        self.world_id
    }

    /// The partition the planner was built with.
    pub fn partition(&self) -> (r: &GridPartitionConfig)
        ensures
            *r == self.spec_partition(),
    {
        &self.partition
    }

    /// The planner's limits.
    pub fn limits(&self) -> (r: DemandLimits)
        ensures
            r == self@.limits,
    {
        self.limits
    }

    /// The current effective demand.
    pub fn effective_snapshot(&self) -> (r: &EffectiveDemandSnapshot)
        ensures
            r.spec_chunks() == self@.chunks,
            r.spec_pressure() == self@.pressure,
    {
        &self.snapshot
    }

    /// Number of sources.
    pub fn source_count(&self) -> (r: usize)
        ensures
            r == self@.sources.len(),
    {
        self.sources.len()
    }
}

/// Sources whose counting succeeded pin only chunks of the world.
proof fn lemma_counted_pins_in_world(world: WorldId, limits: DemandLimits, entries: Seq<EntryModel>)
    requires
        count_total(world, limits, entries) is Ok,
    ensures
        pins_in_world(world, next_sources(entries)),
    decreases entries.len(),
{
    if entries.len() > 0 {
        let d = entries.drop_last();
        lemma_counted_pins_in_world(world, limits, d);
        let e = entries.last();
        assert(world_error(world, e.snapshot) is None);
        let s = next_sources(entries);
        assert forall|k: int, i: int|
            0 <= k < s.len() && 0 <= i < s[k].snapshot.pins.len() implies (#[trigger] s[k].snapshot.pins[i]).world_id
                == world by {
            if k < d.len() {
                assert(next_sources(d)[k].snapshot == s[k].snapshot);
            } else {
                assert(s[k].snapshot == e.snapshot);
                if s[k].snapshot.pins[i].world_id != world {
                    assert(exists|j: int| 0 <= j < e.snapshot.pins.len() && (#[trigger] e.snapshot.pins[j]).world_id != world);
                }
            }
        }
    }
}

/// Without sources there is no candidate.
proof fn lemma_no_candidates(world: WorldId, sources: Seq<SourceModel>)
    requires
        sources.len() == 0,
    ensures
        candidates(world, sources) == Seq::<Contribution>::empty(),
{
    let e = Seq::<Contribution>::empty();
    crate::order::lemma_arrange_exists(e);
    assert(all_contributions(world, sources) == e.to_set());
    let a = arrange(e.to_set());
    if a.len() > 0 {
        assert(a.to_set().contains(a[0]));
    }
    assert(a =~= e);
}

/// With no source changed twice, the first `i + 1` changes decide a source's
/// snapshot as the first `i` do, except for the source of change `i`.
proof fn lemma_next_snapshot_step(
    sources: Seq<SourceModel>,
    changes: Seq<DemandSourceChange>,
    i: int,
    id: DemandSourceId,
)
    requires
        !has_duplicate(changes),
        0 <= i < changes.len(),
    ensures
        next_snapshot(sources, changes.take(i + 1), id) == if id == changes[i].spec_source_id() {
            replacement(changes[i])
        } else {
            next_snapshot(sources, changes.take(i), id)
        },
{
    let t1 = changes.take(i + 1);
    let t0 = changes.take(i);
    if id == changes[i].spec_source_id() {
        assert(t1[i] == changes[i]);
        assert(changed(t1, id));
        let k = choose|k: int| 0 <= k < t1.len() && (#[trigger] t1[k]).spec_source_id() == id;
        if k != i {
            assert(t1[k] == changes[k]);
            assert(duplicated(changes, id));
        }
    } else {
        if changed(t1, id) {
            let k1 = choose|k: int| 0 <= k < t1.len() && (#[trigger] t1[k]).spec_source_id() == id;
            assert(k1 != i);
            assert(t0[k1] == t1[k1]);
            assert(changed(t0, id));
            let k0 = choose|k: int| 0 <= k < t0.len() && (#[trigger] t0[k]).spec_source_id() == id;
            assert(t1[k0] == t0[k0]);
            if k0 != k1 {
                assert(changes[k0] == t0[k0]);
                assert(changes[k1] == t1[k1]);
                if k0 < k1 {
                    assert(duplicated(changes, id));
                } else {
                    assert(duplicated(changes, id));
                }
            }
        } else {
            assert forall|k: int| 0 <= k < t0.len() implies (#[trigger] t0[k]).spec_source_id()
                != id by {
                assert(t1[k] == t0[k]);
            }
        }
    }
}

impl SpatialDemandPlanner {
    /// How many chunks an entry's source will contribute, or why it is rejected.
    fn entry_count(&self, e: &Entry) -> (r: Result<u64, SpatialDemandError>)
        requires
            self.wf(),
            self.entries_linked(seq![*e]),
        ensures
            match source_count(self@.world_id, self@.limits, self.entry_model(*e)) {
                Ok(c) => r == Ok::<u64, SpatialDemandError>(c as u64) && c <= u32::MAX,
                Err(x) => r == Err::<u64, SpatialDemandError>(x),
            },
    {
        let em = Ghost(self.entry_model(*e));
        proof {
            let one = seq![*e];
            assert(one[0] == *e);
        }
        let limit = self.limits.max_contributions_per_source();
        match snapshot_world_error(self.world_id, &e.snapshot) {
            Some(x) => {
                return Err(x);
            },
            None => {},
        }
        let pins = e.snapshot.pins();
        match e.snapshot.focus() {
            None => {
                if pins.len() as u64 > limit as u64 {
                    return Err(
                        SpatialDemandError::PerSourceContributionLimitExceeded {
                            source_id: e.id,
                            limit,
                            candidate: pins.len(),
                        },
                    );
                }
                return Ok(pins.len() as u64);
            },
            Some(f) => {
                let center = f.center().coord;
                let hd = f.horizontal_desired_radius();
                let hr = f.horizontal_retain_radius();
                let vd = f.vertical_desired_radius();
                let vr = f.vertical_retain_radius();
                let h = hd as u128;
                let v = vd as u128;
                assert((2 * h + 1) * (2 * v + 1) <= 0x4_0000_0000_0000_0000u128) by (nonlinear_arith)
                    requires
                        h <= u32::MAX,
                        v <= u32::MAX,
                ;
                assert((2 * h + 1) * (2 * v + 1) * (2 * h + 1) <= 0x8_0000_0000_0000_0000_0000_0000u128) by (nonlinear_arith)
                    requires
                        h <= u32::MAX,
                        (2 * h + 1) * (2 * v + 1) <= 0x4_0000_0000_0000_0000u128,
                ;
                let volume: u128 = (2 * h + 1) * (2 * v + 1) * (2 * h + 1);
                assert(volume == box_volume(hd as int, vd as int));
                if volume > usize::MAX as u128 {
                    return Err(
                        SpatialDemandError::CountOverflow {
                            operation: "desired focus volume conversion",
                        },
                    );
                }
                if volume > limit as u128 {
                    return Err(
                        SpatialDemandError::PerSourceContributionLimitExceeded {
                            source_id: e.id,
                            limit,
                            candidate: volume as usize,
                        },
                    );
                }
                let ghost snap = e.snapshot@;
                let ghost keep = |c: ChunkCoord3| retained_only(c, snap);
                let mut kept: u64 = 0;
                match e.prior {
                    Some(k) => {
                        let chunks = &self.sources[k].chunks;
                        let mut j: usize = 0;
                        while j < chunks.len()
                            invariant
                                j <= chunks@.len(),
                                kept == chunks@.take(j as int).filter(keep).len(),
                                kept <= j,
                                snap.focus == Some(f),
                                center == f.spec_center().coord,
                                hd == f.spec_hd(),
                                hr == f.spec_hr(),
                                vd == f.spec_vd(),
                                vr == f.spec_vr(),
                                keep == (|c: ChunkCoord3| retained_only(c, snap)),
                            decreases chunks@.len() - j,
                        {
                            let c = chunks[j];
                            proof {
                                lemma_take_filter_step(chunks@, keep, j as int);
                            }
                            if is_within(c, center, hr, vr) && !is_within(c, center, hd, vd) {
                                kept = kept + 1;
                            }
                            j = j + 1;
                        }
                        proof {
                            assert(chunks@.take(chunks@.len() as int) =~= chunks@);
                            assert(self.sources@[k as int].wf());
                            lemma_filter_no_duplicates(chunks@, keep);
                        }
                    },
                    None => {
                        proof {
                            assert(em@.prior.filter(keep) =~= Set::<ChunkCoord3>::empty());
                        }
                    },
                }
                assert(kept == em@.prior.filter(keep).len());
                let ghost extra_pred = |p: ChunkId|
                    !desired_in(p.coord, snap) && !(em@.prior.contains(p.coord) && retained_only(p.coord, snap));
                let mut extra: u64 = 0;
                let mut j: usize = 0;
                while j < pins.len()
                    invariant
                        j <= pins@.len(),
                        pins@ == snap.pins,
                        extra == pins@.take(j as int).filter(extra_pred).len(),
                        extra <= j,
                        snap.focus == Some(f),
                        center == f.spec_center().coord,
                        hd == f.spec_hd(),
                        hr == f.spec_hr(),
                        vd == f.spec_vd(),
                        vr == f.spec_vr(),
                        self.wf(),
                        self.entries_linked(seq![*e]),
                        em@ == self.entry_model(*e),
                        e.prior matches Some(k) ==> k < self.sources@.len(),
                        extra_pred == (|p: ChunkId|
                            !desired_in(p.coord, snap) && !(em@.prior.contains(p.coord) && retained_only(p.coord, snap))),
                    decreases pins@.len() - j,
                {
                    let c = pins[j].coord;
                    proof {
                        lemma_take_filter_step(pins@, extra_pred, j as int);
                    }
                    let desired = is_within(c, center, hd, vd);
                    let in_prior = match e.prior {
                        Some(k) => contains_coord(&self.sources[k].chunks, c),
                        None => false,
                    };
                    if !desired && !(in_prior && is_within(c, center, hr, vr)) {
                        extra = extra + 1;
                    }
                    j = j + 1;
                }
                proof {
                    assert(pins@.take(pins@.len() as int) =~= pins@);
                }
                let count: u128 = volume + kept as u128 + extra as u128;
                if count > limit as u128 {
                    return Err(
                        SpatialDemandError::PerSourceContributionLimitExceeded {
                            source_id: e.id,
                            limit,
                            candidate: #[verifier::truncate] (count as usize),
                        },
                    );
                }
                return Ok(count as u64);
            },
        }
    }

    /// The chunks an entry's source demands after the transaction.
    fn entry_chunks(&self, e: &Entry) -> (r: Vec<ChunkCoord3>)
        requires
            self.wf(),
            self.entries_linked(seq![*e]),
            entry_fits(self.entry_model(*e)),
        ensures
            r@.no_duplicates(),
            r@.to_set() == next_chunks(self.entry_model(*e)),
            chunks_bounded(e.snapshot@, r@.to_set()),
    {
        let ghost em = self.entry_model(*e);
        proof {
            let one = seq![*e];
            assert(one[0] == *e);
        }
        match e.snapshot.focus() {
            None => {
                let r: Vec<ChunkCoord3> = Vec::new();
                proof {
                    assert(r@.to_set() =~= Set::<ChunkCoord3>::empty());
                }
                r
            },
            Some(f) => {
                let center = f.center().coord;
                let hd = f.horizontal_desired_radius();
                let hr = f.horizontal_retain_radius();
                let vd = f.vertical_desired_radius();
                let vr = f.vertical_retain_radius();
                let mut out = box_chunks(center, hd, vd);
                let ghost snap = e.snapshot@;
                let ghost boxed = out@.to_set();
                let ghost keep = |c: ChunkCoord3| retained_only(c, snap);
                proof {
                    lemma_strictly_sorted_no_duplicates(out@);
                }
                match e.prior {
                    Some(k) => {
                        let chunks = &self.sources[k].chunks;
                        proof {
                            assert(self.sources@[k as int].wf());
                        }
                        let mut j: usize = 0;
                        while j < chunks.len()
                            invariant
                                j <= chunks@.len(),
                                chunks@.no_duplicates(),
                                out@.no_duplicates(),
                                out@.to_set() == boxed.union(chunks@.take(j as int).to_set().filter(keep)),
                                boxed == Set::new(|c: ChunkCoord3| within(c, center, hd as int, vd as int)),
                                snap.focus == Some(f),
                                center == f.spec_center().coord,
                                hd == f.spec_hd(),
                                hr == f.spec_hr(),
                                vd == f.spec_vd(),
                                vr == f.spec_vr(),
                                keep == (|c: ChunkCoord3| retained_only(c, snap)),
                            decreases chunks@.len() - j,
                        {
                            let c = chunks[j];
                            let ghost before = out@;
                            proof {
                                assert(chunks@.take(j + 1) =~= chunks@.take(j as int).push(c));
                                chunks@.take(j as int).lemma_push_to_set_commute(c);
                            }
                            if is_within(c, center, hr, vr) && !is_within(c, center, hd, vd) {
                                proof {
                                    assert(!before.contains(c)) by {
                                        if before.contains(c) {
                                            assert(before.to_set().contains(c));
                                            if !boxed.contains(c) {
                                                assert(chunks@.take(j as int).to_set().contains(c));
                                                let q = choose|q: int| 0 <= q < j && chunks@.take(j as int)[q] == c;
                                                assert(chunks@[q] == chunks@[j as int]);
                                            }
                                        }
                                    }
                                }
                                out.push(c);
                                proof {
                                    before.lemma_push_to_set_commute(c);
                                    assert(out@.to_set() =~= boxed.union(chunks@.take(j + 1).to_set().filter(keep)));
                                }
                            } else {
                                proof {
                                    assert(out@.to_set() =~= boxed.union(chunks@.take(j + 1).to_set().filter(keep)));
                                }
                            }
                            j = j + 1;
                        }
                        proof {
                            assert(chunks@.take(chunks@.len() as int) =~= chunks@);
                        }
                    },
                    None => {
                        proof {
                            assert(out@.to_set() =~= boxed.union(em.prior.filter(keep)));
                        }
                    },
                }
                proof {
                    assert(out@.to_set() =~= next_chunks(em));
                    assert forall|c: ChunkCoord3| #[trigger] out@.to_set().contains(c) implies within(
                        c,
                        center,
                        max_radius(hd, hr),
                        max_radius(vd, vr),
                    ) by {
                    }
                }
                out
            },
        }
    }

    /// Applies a transaction of source changes: all of them, or none.
    ///
    /// A source may be the subject of one change at most. The result does
    /// not depend on the order of the changes. On error nothing changes.
    pub fn apply_changes(&mut self, changes: Vec<DemandSourceChange>) -> (r: Result<
        SpatialDemandDelta,
        SpatialDemandError,
    >)
        requires
            old(self).wf(),
        ensures
            final(self).wf(),
            final(self).spec_partition() == old(self).spec_partition(),
            match plan(old(self)@, changes@) {
                Ok(m) => final(self)@ == m && (r matches Ok(d) && d.spec_entered() == entered_chunks(
                    old(self)@.chunks,
                    m.chunks,
                ) && d.spec_updated() == updated_chunks(old(self)@.chunks, m.chunks)
                    && d.spec_exited() == exited_chunks(old(self)@.chunks, m.chunks)
                    && d.spec_pressure() == m.pressure),
                Err(e) => final(self)@ == old(self)@ && r == Err::<SpatialDemandDelta, _>(e),
            },
    {
        let ghost m0 = self@;
        proof {
            reveal(plan_entries);
        }
        match find_least_duplicate(&changes) {
            Some(id) => {
                return Err(SpatialDemandError::DuplicateSourceChange { source_id: id });
            },
            None => {},
        }
        let entries = self.collect_entries(&changes);
        let ghost ems = Seq::new(entries@.len(), |q: int| self.entry_model(entries@[q]));
        assert(ems == next_entries(m0.sources, changes@));
        let max_sources = self.limits.max_sources();
        if entries.len() > max_sources as usize {
            return Err(
                SpatialDemandError::SourceLimitExceeded {
                    limit: max_sources,
                    candidate: entries.len(),
                },
            );
        }
        let max_total = self.limits.max_total_contributions();
        let mut total: u64 = 0;
        let mut i: usize = 0;
        proof {
            assert(ems.take(0) =~= Seq::<EntryModel>::empty());
        }
        while i < entries.len()
            invariant
                self.wf(),
                self@ == m0,
                *self == *old(self),
                max_total == m0.limits.spec_max_total_contributions(),
                self.entries_linked(entries@),
                ems == Seq::new(entries@.len(), |q: int| self.entry_model(entries@[q])),
                !has_duplicate(changes@),
                ems == next_entries(m0.sources, changes@),
                entries@.len() <= m0.limits.spec_max_sources(),
                i <= entries@.len(),
                count_total(m0.world_id, m0.limits, ems.take(i as int)) == Ok::<int, SpatialDemandError>(total as int),
                total <= max_total,
            decreases entries@.len() - i,
        {
            proof {
                let one = seq![entries@[i as int]];
                assert forall|q: int| 0 <= q < one.len() implies match (#[trigger] one[q]).prior {
                    Some(k) => k < self.sources@.len() && self.sources@[k as int].id == one[q].id,
                    None => !held(self@.sources, one[q].id),
                } by {
                    assert(one[q] == entries@[i as int]);
                }
                assert(ems.take(i + 1).drop_last() =~= ems.take(i as int));
                assert(ems.take(i + 1).last() == self.entry_model(entries@[i as int]));
            }
            match self.entry_count(&entries[i]) {
                Err(e) => {
                    proof {
                        lemma_count_total_prefix_err(m0.world_id, m0.limits, ems, i + 1);
                        reveal(plan_entries);
                    }
                    return Err(e);
                },
                Ok(c) => {
                    if total + c > max_total as u64 {
                        proof {
                            lemma_count_total_prefix_err(m0.world_id, m0.limits, ems, i + 1);
                            reveal(plan_entries);
                        }
                        return Err(
                            SpatialDemandError::TotalContributionLimitExceeded {
                                limit: max_total,
                                candidate: (total + c) as usize,
                            },
                        );
                    }
                    total = total + c;
                },
            }
            i = i + 1;
        }
        proof {
            assert(ems.take(ems.len() as int) =~= ems);
        }
        let mut k: usize = 0;
        while k < entries.len()
            invariant
                self.wf(),
                self@ == m0,
                *self == *old(self),
                ems == Seq::new(entries@.len(), |q: int| self.entry_model(entries@[q])),
                !has_duplicate(changes@),
                ems == next_entries(m0.sources, changes@),
                entries@.len() <= m0.limits.spec_max_sources(),
                k <= entries@.len(),
                count_total(m0.world_id, m0.limits, ems) == Ok::<int, SpatialDemandError>(total as int),
                forall|q: int| 0 <= q < k ==> entry_fits(#[trigger] ems[q]),
            decreases entries@.len() - k,
        {
            match entries[k].snapshot.focus() {
                Some(f) => {
                    if !box_fits_exec(f.center().coord, f.horizontal_desired_radius(), f.vertical_desired_radius()) {
                        proof {
                            assert(!entry_fits(ems[k as int]));
                            reveal(plan_entries);
                        }
                        return Err(
                            SpatialDemandError::SpatialMath(
                                SpatialMathError::ArithmeticOverflow { operation: "demand chunk range" },
                            ),
                        );
                    }
                },
                None => {},
            }
            k = k + 1;
        }
        let mut states: Vec<SourceState> = Vec::new();
        let mut k: usize = 0;
        while k < entries.len()
            invariant
                self.wf(),
                self@ == m0,
                *self == *old(self),
                self.entries_linked(entries@),
                strictly_sorted(entry_ids(entries@)),
                ems == Seq::new(entries@.len(), |q: int| self.entry_model(entries@[q])),
                !has_duplicate(changes@),
                ems == next_entries(m0.sources, changes@),
                entries@.len() <= m0.limits.spec_max_sources(),
                all_fit(ems),
                count_total(m0.world_id, m0.limits, ems) == Ok::<int, SpatialDemandError>(total as int),
                k <= entries@.len(),
                states@.len() == k,
                forall|q: int| 0 <= q < k ==> (#[trigger] states@[q]).wf(),
                forall|q: int| 0 <= q < k ==> (#[trigger] states@[q]).model() == next_sources(ems)[q],
            decreases entries@.len() - k,
        {
            proof {
                let one = seq![entries@[k as int]];
                assert forall|q: int| 0 <= q < one.len() implies match (#[trigger] one[q]).prior {
                    Some(kk) => kk < self.sources@.len() && self.sources@[kk as int].id == one[q].id,
                    None => !held(self@.sources, one[q].id),
                } by {
                    assert(one[q] == entries@[k as int]);
                }
                assert(entry_fits(ems[k as int]));
            }
            let chunks = self.entry_chunks(&entries[k]);
            let snapshot = entries[k].snapshot.duplicate();
            states.push(SourceState { id: entries[k].id, snapshot, chunks });
            k = k + 1;
        }
        let ghost new_sources = next_sources(ems);
        proof {
            assert(state_models(states@) =~= new_sources);
        }
        let world = self.world_id;
        let all = collect_contributions(world, &states);
        let cands = first_per_chunk_exec(&all);
        let pinned = count_pinned(&cands);
        let capacity = self.limits.max_effective_chunks();
        if pinned > capacity as usize {
            return Err(
                SpatialDemandError::PinnedCapacityExceeded { limit: capacity, pinned },
            );
        }
        let n = if (capacity as usize) < cands.len() {
            capacity as usize
        } else {
            cands.len()
        };
        let selected = select_exec(&cands, n);
        let pressure = DemandPressureDiagnostics::new(
            cands.len(),
            n,
            pinned,
            total as usize,
            entries.len(),
        );
        let (entered, updated, exited) = delta_lists(self.snapshot.chunks(), selected.as_slice());
        let delta = SpatialDemandDelta::new(entered, updated, exited, pressure);
        self.sources = states;
        self.snapshot = EffectiveDemandSnapshot::new(selected, pressure);
        proof {
            assert(source_ids(self@.sources) =~= entry_ids(entries@)) by {
                assert forall|q: int| 0 <= q < entries@.len() implies source_ids(self@.sources)[q] == entry_ids(entries@)[q] by {
                    assert(self@.sources[q] == self.sources@[q].model());
                    assert(self.sources@[q].model() == next_sources(ems)[q]);
                }
            }
            assert(self@.sources =~= new_sources);
            lemma_counted_pins_in_world(world, self.limits, ems);
            assert(settled(self@));
        }
        Ok(delta)
    }

    /// Replaces (or adds) one source's snapshot, as a transaction of one change.
    pub fn replace_source(&mut self, source_id: DemandSourceId, snapshot: DemandSourceSnapshot) -> (r: Result<
        SpatialDemandDelta,
        SpatialDemandError,
    >)
        requires
            old(self).wf(),
        ensures
            final(self).wf(),
            final(self).spec_partition() == old(self).spec_partition(),
            match plan(old(self)@, seq![DemandSourceChange::Replace { source_id, snapshot }]) {
                Ok(m) => final(self)@ == m && (r matches Ok(d) && d.spec_entered() == entered_chunks(
                    old(self)@.chunks,
                    m.chunks,
                ) && d.spec_updated() == updated_chunks(old(self)@.chunks, m.chunks)
                    && d.spec_exited() == exited_chunks(old(self)@.chunks, m.chunks)
                    && d.spec_pressure() == m.pressure),
                Err(e) => final(self)@ == old(self)@ && r == Err::<SpatialDemandDelta, _>(e),
            },
    {
        let ghost expected = seq![DemandSourceChange::Replace { source_id, snapshot }];
        let mut changes: Vec<DemandSourceChange> = Vec::new();
        changes.push(DemandSourceChange::Replace { source_id, snapshot });
        assert(changes@ =~= expected);
        self.apply_changes(changes)
    }

    /// Removes one source, as a transaction of one change.
    pub fn remove_source(&mut self, source_id: DemandSourceId) -> (r: Result<
        SpatialDemandDelta,
        SpatialDemandError,
    >)
        requires
            old(self).wf(),
        ensures
            final(self).wf(),
            final(self).spec_partition() == old(self).spec_partition(),
            match plan(old(self)@, seq![DemandSourceChange::Remove { source_id }]) {
                Ok(m) => final(self)@ == m && (r matches Ok(d) && d.spec_entered() == entered_chunks(
                    old(self)@.chunks,
                    m.chunks,
                ) && d.spec_updated() == updated_chunks(old(self)@.chunks, m.chunks)
                    && d.spec_exited() == exited_chunks(old(self)@.chunks, m.chunks)
                    && d.spec_pressure() == m.pressure),
                Err(e) => final(self)@ == old(self)@ && r == Err::<SpatialDemandDelta, _>(e),
            },
    {
        let mut changes: Vec<DemandSourceChange> = Vec::new();
        changes.push(DemandSourceChange::Remove { source_id });
        assert(changes@ =~= seq![DemandSourceChange::Remove { source_id }]);
        self.apply_changes(changes)
    }

    /// The sources after the changes, in increasing id order.
    fn collect_entries(&self, changes: &Vec<DemandSourceChange>) -> (r: Vec<Entry>)
        requires
            self.wf(),
            !has_duplicate(changes@),
        ensures
            self.entries_linked(r@),
            strictly_sorted(entry_ids(r@)),
            Seq::new(r@.len(), |q: int| self.entry_model(r@[q])) == next_entries(
                self@.sources,
                changes@,
            ),
    {
        let ghost sources = self@.sources;
        let mut entries: Vec<Entry> = Vec::new();
        let mut k: usize = 0;
        while k < self.sources.len()
            invariant
                self.wf(),
                sources == self@.sources,
                k <= self.sources@.len(),
                entries@.len() == k,
                forall|q: int|
                    0 <= q < k ==> (#[trigger] entries@[q]).id == self.sources@[q].id
                        && entries@[q].prior == Some(q as usize) && entries@[q].snapshot@
                        == self.sources@[q].snapshot@,
            decreases self.sources@.len() - k,
        {
            let snapshot = self.sources[k].snapshot.duplicate();
            entries.push(Entry { id: self.sources[k].id, snapshot, prior: Some(k) });
            k = k + 1;
        }
        proof {
            assert forall|q: int| 0 <= q < entries@.len() implies self.entry_current(
                changes@.take(0),
                #[trigger] entries@[q],
            ) by {
                assert(sources[q].id == entries@[q].id);
                self.lemma_prior_of_held(q);
                assert(!changed(changes@.take(0), entries@[q].id));
            }
            assert forall|id: DemandSourceId|
                #[trigger] next_snapshot(sources, changes@.take(0), id) is Some implies exists|q: int|
                0 <= q < entries@.len() && (#[trigger] entries@[q]).id == id by {
                assert(!changed(changes@.take(0), id));
                let kk = choose|kk: int| 0 <= kk < sources.len() && (#[trigger] sources[kk]).id == id;
                assert(entries@[kk].id == id);
            }
            assert(entry_ids(entries@) =~= source_ids(sources));
        }
        let mut i: usize = 0;
        while i < changes.len()
            invariant
                self.wf(),
                sources == self@.sources,
                !has_duplicate(changes@),
                i <= changes@.len(),
                strictly_sorted(entry_ids(entries@)),
                self.entries_linked(entries@),
                forall|q: int|
                    0 <= q < entries@.len() ==> self.entry_current(
                        changes@.take(i as int),
                        #[trigger] entries@[q],
                    ),
                forall|id: DemandSourceId|
                    #[trigger] next_snapshot(sources, changes@.take(i as int), id) is Some ==> exists|q: int|
                        0 <= q < entries@.len() && (#[trigger] entries@[q]).id == id,
            decreases changes@.len() - i,
        {
            let id = changes[i].source_id();
            let mut p: usize = 0;
            while p < entries.len() && entries[p].id.get() < id.get()
                invariant
                    p <= entries@.len(),
                    forall|q: int| 0 <= q < p ==> (#[trigger] entries@[q]).id@ < id@,
                decreases entries@.len() - p,
            {
                p = p + 1;
            }
            let ghost old_entries = entries@;
            let ghost ids = entry_ids(old_entries);
            proof {
                lemma_strictly_sorted_no_duplicates(ids);
                assert forall|q: int| p <= q < old_entries.len() implies id@ <= (
                #[trigger] old_entries[q]).id@ by {
                    if q > p {
                        assert(ids[p as int].key_less(ids[q]));
                    }
                }
                assert forall|id2: DemandSourceId| #[trigger]
                    next_snapshot(sources, changes@.take(i + 1), id2) == if id2 == id {
                        replacement(changes@[i as int])
                    } else {
                        next_snapshot(sources, changes@.take(i as int), id2)
                    } by {
                    lemma_next_snapshot_step(sources, changes@, i as int, id2);
                }
            }
            let found = p < entries.len() && entries[p].id.get() == id.get();
            if found {
                proof {
                    DemandSourceId::lemma_view_injective(entries@[p as int].id, id);
                }
                match &changes[i] {
                    DemandSourceChange::Replace { snapshot, .. } => {
                        let prior = entries[p].prior;
                        let copy = snapshot.duplicate();
                        entries.set(p, Entry { id, snapshot: copy, prior });
                        proof {
                            assert(entry_ids(entries@) =~= ids);
                            assert forall|q: int| 0 <= q < entries@.len() implies self.entry_current(
                                changes@.take(i + 1),
                                #[trigger] entries@[q],
                            ) by {
                                if q != p {
                                    assert(entries@[q] == old_entries[q]);
                                    assert(ids[q] != ids[p as int]);
                                }
                            }
                            assert forall|id2: DemandSourceId|
                                #[trigger] next_snapshot(sources, changes@.take(i + 1), id2) is Some implies exists|q: int|
                                0 <= q < entries@.len() && (#[trigger] entries@[q]).id == id2 by {
                                if id2 == id {
                                    assert(entries@[p as int].id == id2);
                                } else {
                                    let q = choose|q: int| 0 <= q < old_entries.len() && (#[trigger] old_entries[q]).id == id2;
                                    assert(entries@[q].id == id2);
                                }
                            }
                        }
                    },
                    DemandSourceChange::Remove { .. } => {
                        entries.remove(p);
                        proof {
                            assert(entry_ids(entries@) =~= ids.remove(p as int));
                            assert forall|a: int, b: int| 0 <= a < b < entry_ids(entries@).len() implies (#[trigger] entry_ids(entries@)[a]).key_less(#[trigger] entry_ids(entries@)[b]) by {
                                let aa = if a < p { a } else { a + 1 };
                                let bb = if b < p { b } else { b + 1 };
                                assert(ids[aa].key_less(ids[bb]));
                            }
                            assert forall|q: int| 0 <= q < entries@.len() implies self.entry_current(
                                changes@.take(i + 1),
                                #[trigger] entries@[q],
                            ) by {
                                let qq = if q < p { q } else { q + 1 };
                                assert(entries@[q] == old_entries[qq]);
                                assert(ids[qq] != ids[p as int]);
                            }
                            assert forall|id2: DemandSourceId|
                                #[trigger] next_snapshot(sources, changes@.take(i + 1), id2) is Some implies exists|q: int|
                                0 <= q < entries@.len() && (#[trigger] entries@[q]).id == id2 by {
                                assert(id2 != id);
                                let q = choose|q: int| 0 <= q < old_entries.len() && (#[trigger] old_entries[q]).id == id2;
                                assert(q != p);
                                if q < p {
                                    assert(entries@[q].id == id2);
                                } else {
                                    assert(entries@[q - 1].id == id2);
                                }
                            }
                        }
                    },
                }
            } else {
                proof {
                    if p < old_entries.len() {
                        if old_entries[p as int].id@ == id@ {
                            DemandSourceId::lemma_view_injective(old_entries[p as int].id, id);
                        }
                        assert(id@ < old_entries[p as int].id@);
                    }
                    assert forall|q: int| 0 <= q < old_entries.len() implies (#[trigger] old_entries[q]).id != id by {
                        if q >= p {
                            assert(id@ < old_entries[p as int].id@);
                            if q > p {
                                assert(ids[p as int].key_less(ids[q]));
                            }
                        }
                    }
                    assert(!held(sources, id)) by {
                        if held(sources, id) {
                            if changed(changes@.take(i as int), id) {
                                let k = choose|k: int| 0 <= k < changes@.take(i as int).len() && (#[trigger] changes@.take(i as int)[k]).spec_source_id() == id;
                                assert(changes@[k] == changes@.take(i as int)[k]);
                                assert(duplicated(changes@, id));
                            }
                            assert(next_snapshot(sources, changes@.take(i as int), id) is Some);
                        }
                    }
                }
                match &changes[i] {
                    DemandSourceChange::Replace { snapshot, .. } => {
                        let copy = snapshot.duplicate();
                        entries.insert(p, Entry { id, snapshot: copy, prior: None });
                        proof {
                            assert(entry_ids(entries@) =~= ids.insert(p as int, id));
                            assert forall|a: int, b: int| 0 <= a < b < entry_ids(entries@).len() implies (#[trigger] entry_ids(entries@)[a]).key_less(#[trigger] entry_ids(entries@)[b]) by {
                                if a < p && b < p {
                                    assert(ids[a].key_less(ids[b]));
                                } else if a < p && b == p {
                                } else if a < p {
                                    assert(ids[a].key_less(ids[b - 1]));
                                } else if a == p {
                                    assert(id@ <= ids[b - 1]@);
                                    assert(ids[b - 1] != id);
                                    DemandSourceId::lemma_view_injective(ids[b - 1], id);
                                } else {
                                    assert(ids[a - 1].key_less(ids[b - 1]));
                                }
                            }
                            assert forall|q: int| 0 <= q < entries@.len() implies self.entry_current(
                                changes@.take(i + 1),
                                #[trigger] entries@[q],
                            ) by {
                                if q < p {
                                    assert(entries@[q] == old_entries[q]);
                                } else if q > p {
                                    assert(entries@[q] == old_entries[q - 1]);
                                }
                            }
                            assert forall|id2: DemandSourceId|
                                #[trigger] next_snapshot(sources, changes@.take(i + 1), id2) is Some implies exists|q: int|
                                0 <= q < entries@.len() && (#[trigger] entries@[q]).id == id2 by {
                                if id2 == id {
                                    assert(entries@[p as int].id == id2);
                                } else {
                                    let q = choose|q: int| 0 <= q < old_entries.len() && (#[trigger] old_entries[q]).id == id2;
                                    if q < p {
                                        assert(entries@[q].id == id2);
                                    } else {
                                        assert(entries@[q + 1].id == id2);
                                    }
                                }
                            }
                        }
                    },
                    DemandSourceChange::Remove { .. } => {
                        proof {
                            assert forall|q: int| 0 <= q < entries@.len() implies self.entry_current(
                                changes@.take(i + 1),
                                #[trigger] entries@[q],
                            ) by {
                                assert(entries@[q].id != id);
                            }
                        }
                    },
                }
            }
            i = i + 1;
        }
        proof {
            assert(changes@.take(changes@.len() as int) =~= changes@);
            let idset = Set::new(|id: DemandSourceId| next_snapshot(sources, changes@, id) is Some);
            assert(entry_ids(entries@).to_set() =~= idset) by {
                assert forall|id: DemandSourceId| entry_ids(entries@).to_set().contains(id) implies idset.contains(id) by {
                    let q = choose|q: int| 0 <= q < entry_ids(entries@).len() && entry_ids(entries@)[q] == id;
                    assert(self.entry_current(changes@, entries@[q]));
                }
                assert forall|id: DemandSourceId| idset.contains(id) implies entry_ids(entries@).to_set().contains(id) by {
                    let q = choose|q: int| 0 <= q < entries@.len() && (#[trigger] entries@[q]).id == id;
                    assert(entry_ids(entries@)[q] == id);
                }
            }
            lemma_arrange_of_sorted(entry_ids(entries@));
            let ne = next_entries(sources, changes@);
            assert(ne.len() == entries@.len());
            assert forall|q: int| 0 <= q < entries@.len() implies #[trigger] self.entry_model(entries@[q]) == ne[q] by {
                assert(self.entry_current(changes@, entries@[q]));
                assert(entry_ids(entries@)[q] == entries@[q].id);
            }
            assert(Seq::new(entries@.len(), |q: int| self.entry_model(entries@[q])) =~= ne);
        }
        entries
    }
}

/// Whether `c` is one of `v`'s elements.
fn contains_coord(v: &Vec<ChunkCoord3>, c: ChunkCoord3) -> (r: bool)
    ensures
        r == v@.contains(c),
{
    let mut i: usize = 0;
    while i < v.len()
        invariant
            i <= v@.len(),
            forall|k: int| 0 <= k < i ==> v@[k] != c,
        decreases v@.len() - i,
    {
        if v[i].x == c.x && v[i].y == c.y && v[i].z == c.z {
            return true;
        }
        i = i + 1;
    }
    false
}

/// Whether some pin has coordinate `c`.
fn pins_have_coord(pins: &[ChunkId], c: ChunkCoord3) -> (r: bool)
    ensures
        r == exists|i: int| 0 <= i < pins@.len() && (#[trigger] pins@[i]).coord == c,
{
    let mut i: usize = 0;
    while i < pins.len()
        invariant
            i <= pins@.len(),
            forall|k: int| 0 <= k < i ==> (#[trigger] pins@[k]).coord != c,
        decreases pins@.len() - i,
    {
        if pins[i].coord.x == c.x && pins[i].coord.y == c.y && pins[i].coord.z == c.z {
            return true;
        }
        i = i + 1;
    }
    false
}

/// The first world mismatch of a snapshot, if any.
fn snapshot_world_error(world: WorldId, snapshot: &DemandSourceSnapshot) -> (r: Option<
    SpatialDemandError,
>)
    ensures
        r == world_error(world, snapshot@),
{
    match snapshot.focus() {
        Some(f) => {
            let center = f.center();
            if center.world_id.0 != world.0 {
                return Some(
                    SpatialDemandError::SpatialMath(
                        SpatialMathError::WorldMismatch { expected: world, actual: center.world_id },
                    ),
                );
            }
        },
        None => {},
    }
    assert(!(snapshot@.focus is Some && snapshot@.focus->0.spec_center().world_id != world));
    let pins = snapshot.pins();
    let mut i: usize = 0;
    while i < pins.len()
        invariant
            i <= pins@.len(),
            pins@ == snapshot@.pins,
            !(snapshot@.focus is Some && snapshot@.focus->0.spec_center().world_id != world),
            forall|k: int| 0 <= k < i ==> (#[trigger] pins@[k]).world_id == world,
        decreases pins@.len() - i,
    {
        if pins[i].world_id.0 != world.0 {
            proof {
                let ii = i as int;
                let sp = snapshot@.pins;
                assert(sp[ii].world_id != world);
                assert(exists|j: int| 0 <= j < sp.len() && (#[trigger] sp[j]).world_id != world);
                let j = choose|j: int|
                    0 <= j < sp.len() && (#[trigger] sp[j]).world_id != world && forall|k: int|
                        0 <= k < j ==> (#[trigger] sp[k]).world_id == world;
                assert(0 <= ii < sp.len() && sp[ii].world_id != world && forall|k: int|
                    0 <= k < ii ==> (#[trigger] sp[k]).world_id == world);
                if j < ii {
                    assert(sp[j].world_id == world);
                } else if j > ii {
                    assert(sp[ii].world_id == world);
                }
                assert(j == ii);
                assert(world_error(world, snapshot@) == Some(
                    SpatialDemandError::SpatialMath(
                        SpatialMathError::WorldMismatch { expected: world, actual: sp[ii].world_id },
                    ),
                ));
            }
            return Some(
                SpatialDemandError::SpatialMath(
                    SpatialMathError::WorldMismatch { expected: world, actual: pins[i].world_id },
                ),
            );
        }
        i = i + 1;
    }
    None
}

/// The distance key of a chunk near a center.
fn distance_key(c: ChunkCoord3, center: ChunkCoord3) -> (r: DistKey)
    requires
        within(c, center, u32::MAX as int, u32::MAX as int),
    ensures
        r == dist_key(c, center),
{
    let dx = c.x as i128 - center.x as i128;
    let dy = c.y as i128 - center.y as i128;
    let dz = c.z as i128 - center.z as i128;
    let m: i128 = u32::MAX as i128;
    assert(dx * dx <= m * m && dy * dy <= m * m && dz * dz <= m * m && dx * dx >= 0 && dy * dy >= 0
        && dz * dz >= 0) by (nonlinear_arith)
        requires
            -m <= dx <= m,
            -m <= dy <= m,
            -m <= dz <= m,
    ;
    assert(m * m == 0xffff_fffe_0000_0001) by (nonlinear_arith)
        requires
            m == 0xffff_ffff,
    ;
    let d = dx * dx + dy * dy + dz * dz;
    DistKey { dist: d as u128, coord: c }
}

/// Inserts the first `n` elements of `items` into a sorted vector.
fn insert_all(out: &mut Vec<Contribution>, items: &Vec<Contribution>)
    requires
        strictly_sorted(old(out)@),
    ensures
        strictly_sorted(final(out)@),
        final(out)@.to_set() == old(out)@.to_set().union(items@.to_set()),
{
    let ghost start = out@.to_set();
    let mut i: usize = 0;
    while i < items.len()
        invariant
            i <= items@.len(),
            strictly_sorted(out@),
            out@.to_set() == start.union(items@.take(i as int).to_set()),
        decreases items@.len() - i,
    {
        let ghost before = out@;
        sorted_insert(out, items[i]);
        proof {
            assert(items@.take(i + 1) =~= items@.take(i as int).push(items@[i as int]));
            items@.take(i as int).lemma_push_to_set_commute(items@[i as int]);
            assert(out@.to_set() =~= start.union(items@.take(i + 1).to_set()));
        }
        i = i + 1;
    }
    proof {
        assert(items@.take(items@.len() as int) =~= items@);
    }
}

impl SourceState {
    /// The source's pins as contributions.
    fn pinned_contributions_exec(&self) -> (r: Vec<Contribution>)
        ensures
            r@ == pinned_contributions(self.model()),
    {
        let pins = self.snapshot.pins();
        let mut r: Vec<Contribution> = Vec::new();
        let mut i: usize = 0;
        while i < pins.len()
            invariant
                i <= pins@.len(),
                pins@ == self.snapshot@.pins,
                r@ == pinned_contributions(self.model()).take(i as int),
            decreases pins@.len() - i,
        {
            r.push(
                Contribution {
                    chunk_id: pins[i],
                    class: DemandClass::Pinned,
                    source_id: self.id,
                    ordinal: i,
                },
            );
            proof {
                assert(r@ =~= pinned_contributions(self.model()).take(i + 1));
            }
            i = i + 1;
        }
        proof {
            assert(r@ =~= pinned_contributions(self.model()));
        }
        r
    }

    /// The source's focus chunks of one class, nearest first.
    fn focus_keys_exec(&self, desired: bool) -> (r: Vec<DistKey>)
        requires
            self.wf(),
        ensures
            r@ == focus_keys(self.model(), desired),
    {
        let ghost m = self.model();
        match self.snapshot.focus() {
            None => {
                let r: Vec<DistKey> = Vec::new();
                proof {
                    assert(r@ =~= Seq::<DistKey>::empty());
                }
                r
            },
            Some(f) => {
                let center = f.center().coord;
                let hd = f.horizontal_desired_radius();
                let vd = f.vertical_desired_radius();
                let pins = self.snapshot.pins();
                let ghost pred = |c: ChunkCoord3| desired_in(c, m.snapshot) == desired && !pinned_coord(m.snapshot, c);
                let ghost dk = |c: ChunkCoord3| dist_key(c, center);
                let mut keys: Vec<DistKey> = Vec::new();
                let mut j: usize = 0;
                while j < self.chunks.len()
                    invariant
                        self.wf(),
                        m == self.model(),
                        m.snapshot.focus == Some(f),
                        pins@ == m.snapshot.pins,
                        center == f.spec_center().coord,
                        hd == f.spec_hd(),
                        vd == f.spec_vd(),
                        pred == (|c: ChunkCoord3| desired_in(c, m.snapshot) == desired && !pinned_coord(m.snapshot, c)),
                        dk == (|c: ChunkCoord3| dist_key(c, center)),
                        j <= self.chunks@.len(),
                        strictly_sorted(keys@),
                        keys@.to_set() == self.chunks@.take(j as int).to_set().filter(pred).map(dk),
                    decreases self.chunks@.len() - j,
                {
                    let c = self.chunks[j];
                    proof {
                        assert(self.chunks@.take(j + 1) =~= self.chunks@.take(j as int).push(c));
                        self.chunks@.take(j as int).lemma_push_to_set_commute(c);
                        assert(m.chunks.contains(c));
                    }
                    if is_within(c, center, hd, vd) == desired && !pins_have_coord(pins, c) {
                        let key = distance_key(c, center);
                        let ghost before = keys@;
                        sorted_insert(&mut keys, key);
                        proof {
                            let s0 = self.chunks@.take(j as int).to_set();
                            let s1 = self.chunks@.take(j + 1).to_set();
                            assert(s1 == s0.insert(c));
                            assert(pred(c));
                            assert forall|x: DistKey| keys@.to_set().contains(x) <==> s1.filter(pred).map(dk).contains(x) by {
                                if keys@.to_set().contains(x) {
                                    if x == key {
                                        assert(s1.filter(pred).contains(c) && x == dk(c));
                                    } else {
                                        assert(before.to_set().contains(x));
                                        assert(s0.filter(pred).map(dk).contains(x));
                                        let y = choose|y: ChunkCoord3| s0.filter(pred).contains(y) && x == dk(y);
                                        assert(s1.filter(pred).contains(y));
                                    }
                                }
                                if s1.filter(pred).map(dk).contains(x) {
                                    let y = choose|y: ChunkCoord3| s1.filter(pred).contains(y) && x == dk(y);
                                    if y == c {
                                        assert(x == key);
                                    } else {
                                        assert(s0.filter(pred).contains(y));
                                        assert(s0.filter(pred).map(dk).contains(x));
                                        assert(before.to_set().contains(x));
                                    }
                                }
                            }
                            assert(keys@.to_set() =~= s1.filter(pred).map(dk));
                        }
                    } else {
                        proof {
                            let s0 = self.chunks@.take(j as int).to_set();
                            let s1 = self.chunks@.take(j + 1).to_set();
                            assert(s1 == s0.insert(c));
                            assert(!pred(c));
                            assert(s1.filter(pred) =~= s0.filter(pred));
                            assert(keys@.to_set() =~= s1.filter(pred).map(dk));
                        }
                    }
                    j = j + 1;
                }
                proof {
                    assert(self.chunks@.take(self.chunks@.len() as int) =~= self.chunks@);
                    lemma_arrange_of_sorted(keys@);
                }
                keys
            },
        }
    }

    /// Ranked focus chunks as contributions of one class.
    fn keyed_contributions_exec(&self, world: WorldId, keys: &Vec<DistKey>, class: DemandClass) -> (r: Vec<
        Contribution,
    >)
        ensures
            r@ == keyed_contributions(world, self.model(), keys@, class),
    {
        let mut r: Vec<Contribution> = Vec::new();
        let mut i: usize = 0;
        while i < keys.len()
            invariant
                i <= keys@.len(),
                r@ == keyed_contributions(world, self.model(), keys@, class).take(i as int),
            decreases keys@.len() - i,
        {
            r.push(
                Contribution {
                    chunk_id: ChunkId { world_id: world, coord: keys[i].coord },
                    class,
                    source_id: self.id,
                    ordinal: i,
                },
            );
            proof {
                assert(r@ =~= keyed_contributions(world, self.model(), keys@, class).take(i + 1));
            }
            i = i + 1;
        }
        proof {
            assert(r@ =~= keyed_contributions(world, self.model(), keys@, class));
        }
        r
    }

    /// Inserts everything the source contributes into a sorted vector.
    fn add_contributions(&self, world: WorldId, out: &mut Vec<Contribution>)
        requires
            self.wf(),
            strictly_sorted(old(out)@),
        ensures
            strictly_sorted(final(out)@),
            final(out)@.to_set() == old(out)@.to_set().union(source_contributions(world, self.model())),
    {
        let ghost start = out@.to_set();
        let pinned = self.pinned_contributions_exec();
        insert_all(out, &pinned);
        let desired_keys = self.focus_keys_exec(true);
        let desired = self.keyed_contributions_exec(world, &desired_keys, DemandClass::Desired);
        insert_all(out, &desired);
        let retained_keys = self.focus_keys_exec(false);
        let retained = self.keyed_contributions_exec(world, &retained_keys, DemandClass::Retained);
        insert_all(out, &retained);
        proof {
            assert(out@.to_set() =~= start.union(source_contributions(world, self.model())));
        }
    }
}

/// The models of a sequence of source states.
spec fn state_models(s: Seq<SourceState>) -> Seq<SourceModel> {
    Seq::new(s.len(), |i: int| s[i].model())
}

/// Everything all sources contribute, strongest first.
fn collect_contributions(world: WorldId, states: &Vec<SourceState>) -> (r: Vec<Contribution>)
    requires
        forall|i: int| 0 <= i < states@.len() ==> (#[trigger] states@[i]).wf(),
    ensures
        r@ == arrange(all_contributions(world, state_models(states@))),
{
    let mut out: Vec<Contribution> = Vec::new();
    let mut k: usize = 0;
    proof {
        assert(state_models(states@).take(0) =~= Seq::<SourceModel>::empty());
        assert(out@.to_set() =~= Set::<Contribution>::empty());
    }
    while k < states.len()
        invariant
            k <= states@.len(),
            forall|i: int| 0 <= i < states@.len() ==> (#[trigger] states@[i]).wf(),
            strictly_sorted(out@),
            out@.to_set() == all_contributions(world, state_models(states@).take(k as int)),
        decreases states@.len() - k,
    {
        states[k].add_contributions(world, &mut out);
        proof {
            let ms = state_models(states@);
            assert(ms.take(k + 1).drop_last() =~= ms.take(k as int));
            assert(ms.take(k + 1).last() == states@[k as int].model());
        }
        k = k + 1;
    }
    proof {
        assert(state_models(states@).take(states@.len() as int) =~= state_models(states@));
        lemma_arrange_of_sorted(out@);
    }
    out
}

/// Keeps the first contribution for each chunk.
fn first_per_chunk_exec(s: &Vec<Contribution>) -> (r: Vec<Contribution>)
    ensures
        r@ == first_per_chunk(s@),
{
    let mut r: Vec<Contribution> = Vec::new();
    let mut i: usize = 0;
    proof {
        assert(s@.take(0) =~= Seq::<Contribution>::empty());
    }
    while i < s.len()
        invariant
            i <= s@.len(),
            r@ == first_per_chunk(s@.take(i as int)),
        decreases s@.len() - i,
    {
        let c = s[i];
        let mut j: usize = 0;
        let mut seen = false;
        while j < r.len()
            invariant
                j <= r@.len(),
                seen == exists|k: int| 0 <= k < j && (#[trigger] r@[k]).chunk_id == c.chunk_id,
            decreases r@.len() - j,
        {
            if chunk_id_eq(&r[j].chunk_id, &c.chunk_id) {
                seen = true;
            }
            j = j + 1;
        }
        proof {
            let t = s@.take(i + 1);
            assert(t.drop_last() =~= s@.take(i as int));
            assert(t.last() == c);
        }
        if !seen {
            r.push(c);
        }
        i = i + 1;
    }
    proof {
        assert(s@.take(s@.len() as int) =~= s@);
    }
    r
}

/// Number of pinned candidates.
fn count_pinned(c: &Vec<Contribution>) -> (r: usize)
    ensures
        r == pinned_count(c@),
{
    let ghost pred = |x: Contribution| x.class == DemandClass::Pinned;
    let mut n: usize = 0;
    let mut i: usize = 0;
    while i < c.len()
        invariant
            i <= c@.len(),
            n == c@.take(i as int).filter(pred).len(),
            n <= i,
            pred == (|x: Contribution| x.class == DemandClass::Pinned),
        decreases c@.len() - i,
    {
        proof {
            lemma_take_filter_step(c@, pred, i as int);
        }
        match c[i].class {
            DemandClass::Pinned => {
                n = n + 1;
            },
            _ => {},
        }
        i = i + 1;
    }
    proof {
        assert(c@.take(c@.len() as int) =~= c@);
    }
    n
}

/// The first `n` candidates, ranked by position.
fn select_exec(c: &Vec<Contribution>, n: usize) -> (r: Vec<DemandedChunk>)
    requires
        n <= c@.len(),
        n <= u32::MAX + 1,
    ensures
        r@ == select(c@, n as int),
{
    let mut r: Vec<DemandedChunk> = Vec::new();
    let mut i: usize = 0;
    while i < n
        invariant
            i <= n,
            n <= c@.len(),
            n <= u32::MAX + 1,
            r@ == select(c@, n as int).take(i as int),
        decreases n - i,
    {
        let rank = DemandRank::from_bounded_index(i);
        r.push(DemandedChunk::new(c[i].chunk_id, rank, c[i].class));
        proof {
            assert(r@ =~= select(c@, n as int).take(i + 1));
        }
        i = i + 1;
    }
    proof {
        assert(r@ =~= select(c@, n as int));
    }
    r
}

/// Whether some entry of `s` is about chunk `id`.
fn has_chunk_exec(s: &[DemandedChunk], id: ChunkId) -> (r: bool)
    ensures
        r == has_chunk(s@, id),
{
    let mut i: usize = 0;
    while i < s.len()
        invariant
            i <= s@.len(),
            forall|k: int| 0 <= k < i ==> (#[trigger] s@[k]).chunk_id != id,
        decreases s@.len() - i,
    {
        if chunk_id_eq(&s[i].chunk_id, &id) {
            return true;
        }
        i = i + 1;
    }
    false
}

/// Whether `s` holds exactly `c`.
fn contains_demanded(s: &[DemandedChunk], c: DemandedChunk) -> (r: bool)
    ensures
        r == s@.contains(c),
{
    let mut i: usize = 0;
    while i < s.len()
        invariant
            i <= s@.len(),
            forall|k: int| 0 <= k < i ==> s@[k] != c,
        decreases s@.len() - i,
    {
        let e = s[i];
        if chunk_id_eq(&e.chunk_id, &c.chunk_id) && e.rank.get() == c.rank.get() && class_index(e.class)
            == class_index(c.class) {
            proof {
                DemandRank::lemma_view_injective(e.rank, c.rank);
            }
            return true;
        }
        i = i + 1;
    }
    false
}

/// The entered, updated and exited chunks between two effective demands.
fn delta_lists(old: &[DemandedChunk], new: &[DemandedChunk]) -> (r: (Vec<DemandedChunk>, Vec<DemandedChunk>, Vec<DemandedChunk>))
    ensures
        r.0@ == entered_chunks(old@, new@),
        r.1@ == updated_chunks(old@, new@),
        r.2@ == exited_chunks(old@, new@),
{
    let ghost pe = |c: DemandedChunk| !has_chunk(old@, c.chunk_id);
    let ghost pu = |c: DemandedChunk| has_chunk(old@, c.chunk_id) && !old@.contains(c);
    let ghost px = |c: DemandedChunk| !has_chunk(new@, c.chunk_id);
    let mut entered: Vec<DemandedChunk> = Vec::new();
    let mut updated: Vec<DemandedChunk> = Vec::new();
    let mut i: usize = 0;
    while i < new.len()
        invariant
            i <= new@.len(),
            entered@ == new@.take(i as int).filter(pe),
            updated@ == new@.take(i as int).filter(pu),
            pe == (|c: DemandedChunk| !has_chunk(old@, c.chunk_id)),
            pu == (|c: DemandedChunk| has_chunk(old@, c.chunk_id) && !old@.contains(c)),
        decreases new@.len() - i,
    {
        let c = new[i];
        proof {
            lemma_take_filter_step(new@, pe, i as int);
            lemma_take_filter_step(new@, pu, i as int);
        }
        if !has_chunk_exec(old, c.chunk_id) {
            entered.push(c);
        } else if !contains_demanded(old, c) {
            updated.push(c);
        }
        i = i + 1;
    }
    let mut exited: Vec<DemandedChunk> = Vec::new();
    let mut k: usize = 0;
    while k < old.len()
        invariant
            k <= old@.len(),
            exited@ == old@.take(k as int).filter(px),
            px == (|c: DemandedChunk| !has_chunk(new@, c.chunk_id)),
        decreases old@.len() - k,
    {
        let c = old[k];
        proof {
            lemma_take_filter_step(old@, px, k as int);
        }
        if !has_chunk_exec(new, c.chunk_id) {
            exited.push(c);
        }
        k = k + 1;
    }
    proof {
        assert(new@.take(new@.len() as int) =~= new@);
        assert(old@.take(old@.len() as int) =~= old@);
    }
    (entered, updated, exited)
}

/// A failed total count stays failed, with the same error, as more sources follow.
proof fn lemma_count_total_prefix_err(
    world: WorldId,
    limits: DemandLimits,
    s: Seq<EntryModel>,
    i: int,
)
    requires
        0 <= i <= s.len(),
        count_total(world, limits, s.take(i)) is Err,
    ensures
        count_total(world, limits, s) == count_total(world, limits, s.take(i)),
    decreases s.len() - i,
{
    if i < s.len() {
        assert(s.take(i + 1).drop_last() =~= s.take(i));
        lemma_count_total_prefix_err(world, limits, s, i + 1);
    } else {
        assert(s.take(i) =~= s);
    }
}

/// The least source that two changes are about, if any.
fn find_least_duplicate(changes: &Vec<DemandSourceChange>) -> (r: Option<DemandSourceId>)
    ensures
        r is None <==> !has_duplicate(changes@),
        r matches Some(id) ==> id == least_duplicate(changes@),
{
    let n = changes.len();
    let mut best: Option<DemandSourceId> = None;
    let mut i: usize = 0;
    while i < n
        invariant
            n == changes@.len(),
            i <= n,
            best is None ==> forall|a: int, b: int|
                0 <= a < i && a < b < n ==> (#[trigger] changes@[a]).spec_source_id() != (
                #[trigger] changes@[b]).spec_source_id(),
            best matches Some(x) ==> duplicated(changes@, x) && forall|a: int, b: int|
                0 <= a < i && a < b < n && (#[trigger] changes@[a]).spec_source_id() == (
                #[trigger] changes@[b]).spec_source_id() ==> x@ <= changes@[a].spec_source_id()@,
        decreases n - i,
    {
        let mut j: usize = i + 1;
        while j < n
            invariant
                n == changes@.len(),
                i < n,
                i < j <= n,
                best is None ==> forall|a: int, b: int|
                    0 <= a < i && a < b < n ==> (#[trigger] changes@[a]).spec_source_id() != (
                    #[trigger] changes@[b]).spec_source_id(),
                best is None ==> forall|b: int|
                    i < b < j ==> changes@[i as int].spec_source_id() != (
                    #[trigger] changes@[b]).spec_source_id(),
                best matches Some(x) ==> duplicated(changes@, x) && (forall|a: int, b: int|
                    0 <= a < i && a < b < n && (#[trigger] changes@[a]).spec_source_id() == (
                    #[trigger] changes@[b]).spec_source_id() ==> x@ <= changes@[a].spec_source_id()@)
                    && (forall|b: int|
                    i < b < j && changes@[i as int].spec_source_id() == (
                    #[trigger] changes@[b]).spec_source_id() ==> x@
                        <= changes@[i as int].spec_source_id()@),
            decreases n - j,
        {
            let a = changes[i].source_id();
            let b = changes[j].source_id();
            if a.get() == b.get() {
                proof {
                    DemandSourceId::lemma_view_injective(a, b);
                    assert(duplicated(changes@, a));
                }
                match best {
                    None => {
                        best = Some(a);
                    },
                    Some(x) => {
                        if a.get() < x.get() {
                            best = Some(a);
                        }
                    },
                }
            } else {
                proof {
                    DemandSourceId::lemma_view_injective(a, b);
                }
            }
            j = j + 1;
        }
        i = i + 1;
    }
    proof {
        if has_duplicate(changes@) {
            let id = choose|id: DemandSourceId| duplicated(changes@, id);
            let (a, b) = choose|a: int, b: int|
                0 <= a < b < changes@.len() && (#[trigger] changes@[a]).spec_source_id() == id && (
                #[trigger] changes@[b]).spec_source_id() == id;
            assert(best is Some);
        }
        if best is Some {
            let x = best->0;
            assert forall|o: DemandSourceId| duplicated(changes@, o) implies x@ <= o@ by {
                let (a, b) = choose|a: int, b: int|
                    0 <= a < b < changes@.len() && (#[trigger] changes@[a]).spec_source_id() == o
                        && (#[trigger] changes@[b]).spec_source_id() == o;
            }
            let l = least_duplicate(changes@);
            assert(duplicated(changes@, l) && forall|o: DemandSourceId|
                duplicated(changes@, o) ==> l@ <= o@);
            DemandSourceId::lemma_view_injective(l, x);
        }
    }
    best
}

} // verus!
