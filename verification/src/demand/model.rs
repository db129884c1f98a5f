//! The mathematical model of demand planning: what a transaction does to
//! the planner's sources and to the effective demand.

use vstd::prelude::*;
use crate::ids::{ChunkCoord3, ChunkId, WorldId};
use crate::order::{StrictKey, coord_lt, coord_less, arrange};
use crate::error::SpatialMathError;
use crate::demand::error::SpatialDemandError;
use crate::demand::identity::{DemandClass, DemandRank, DemandSourceId, class_order, class_index};
use crate::demand::limits::DemandLimits;
use crate::demand::source::{DemandSourceChange, SnapshotModel};
use crate::demand::snapshot::{DemandedChunk, DemandPressureDiagnostics, has_chunk};
use crate::demand::geometry::{within, box_set, box_fits, box_volume, squared_distance};

verus! {

impl StrictKey for DemandSourceId {
    open spec fn key_less(self, other: Self) -> bool {
        self@ < other@
    }

    proof fn lemma_strict_total() {
        assert forall|a: Self, b: Self| a != b implies #[trigger] a.key_less(b) || #[trigger] b.key_less(a) by {
            DemandSourceId::lemma_view_injective(a, b);
        }
    }

    fn less(&self, other: &Self) -> (r: bool) {
        self.get() < other.get()
    }
}

/// A chunk keyed by its squared distance to a center, nearest first and
/// then by coordinate.
#[derive(Debug, Copy, Clone, PartialEq, Eq, Structural)]
pub struct DistKey {
    pub dist: u128,
    pub coord: ChunkCoord3,
}

impl StrictKey for DistKey {
    open spec fn key_less(self, other: Self) -> bool {
        self.dist < other.dist || (self.dist == other.dist && coord_lt(self.coord, other.coord))
    }

    proof fn lemma_strict_total() {
    }

    fn less(&self, other: &Self) -> (r: bool) {
        self.dist < other.dist || (self.dist == other.dist && coord_less(&self.coord, &other.coord))
    }
}

/// The key of chunk `c` around `center`.
pub open spec fn dist_key(c: ChunkCoord3, center: ChunkCoord3) -> DistKey {
    DistKey { dist: squared_distance(c, center) as u128, coord: c }
}

/// One source's demand for one chunk, with the source-local ordinal of the
/// chunk within its class.
#[derive(Debug, Copy, Clone, PartialEq, Eq, Structural)]
pub struct Contribution {
    pub chunk_id: ChunkId,
    pub class: DemandClass,
    pub source_id: DemandSourceId,
    pub ordinal: usize,
}

/// Order of contributions: class, then ordinal, then source, then chunk.
pub open spec fn contribution_lt(a: Contribution, b: Contribution) -> bool {
    class_order(a.class) < class_order(b.class) || (class_order(a.class) == class_order(b.class) && (
    a.ordinal < b.ordinal || (a.ordinal == b.ordinal && (a.source_id@ < b.source_id@ || (
    a.source_id@ == b.source_id@ && (coord_lt(a.chunk_id.coord, b.chunk_id.coord) || (
    a.chunk_id.coord == b.chunk_id.coord && a.chunk_id.world_id.0 < b.chunk_id.world_id.0)))))))
}

impl StrictKey for Contribution {
    open spec fn key_less(self, other: Self) -> bool {
        contribution_lt(self, other)
    }

    proof fn lemma_strict_total() {
        assert forall|a: Self, b: Self| a != b implies #[trigger] a.key_less(b) || #[trigger] b.key_less(a) by {
            DemandSourceId::lemma_view_injective(a.source_id, b.source_id);
            if class_order(a.class) == class_order(b.class) {
                assert(a.class == b.class);
            }
            if a.chunk_id.world_id.0 == b.chunk_id.world_id.0 {
                assert(a.chunk_id.world_id == b.chunk_id.world_id);
            }
        }
    }

    fn less(&self, other: &Self) -> (r: bool) {
        let ca = class_index(self.class);
        let cb = class_index(other.class);
        if ca != cb {
            return ca < cb;
        }
        if self.ordinal != other.ordinal {
            return self.ordinal < other.ordinal;
        }
        let sa = self.source_id.get();
        let sb = other.source_id.get();
        if sa != sb {
            return sa < sb;
        }
        if coord_less(&self.chunk_id.coord, &other.chunk_id.coord) {
            return true;
        }
        if coord_less(&other.chunk_id.coord, &self.chunk_id.coord) {
            return false;
        }
        self.chunk_id.world_id.0 < other.chunk_id.world_id.0
    }
}

/// One source as the planner holds it: its snapshot and the chunks its focus
/// demands (desired and retained).
pub struct SourceModel {
    pub id: DemandSourceId,
    pub snapshot: SnapshotModel,
    pub chunks: Set<ChunkCoord3>,
}

/// One source of a transaction's outcome, before its chunks are computed:
/// its snapshot and the chunks its previous state demanded.
pub struct EntryModel {
    pub id: DemandSourceId,
    pub snapshot: SnapshotModel,
    pub prior: Set<ChunkCoord3>,
}

/// The planner's state.
pub struct PlannerModel {
    pub world_id: WorldId,
    pub limits: DemandLimits,
    pub sources: Seq<SourceModel>,
    pub chunks: Seq<DemandedChunk>,
    pub pressure: DemandPressureDiagnostics,
}

// ---------------------------------------------------------------- changes

/// The snapshot that a change installs, `None` for a removal.
pub open spec fn replacement(c: DemandSourceChange) -> Option<SnapshotModel> {
    match c {
        DemandSourceChange::Replace { snapshot, .. } => Some(snapshot@),
        DemandSourceChange::Remove { .. } => None,
    }
}

/// `id` is the source of two changes of the transaction.
pub open spec fn duplicated(changes: Seq<DemandSourceChange>, id: DemandSourceId) -> bool {
    exists|i: int, j: int|
        0 <= i < j < changes.len() && (#[trigger] changes[i]).spec_source_id() == id && (
        #[trigger] changes[j]).spec_source_id() == id
}

/// Some source is the subject of two changes.
pub open spec fn has_duplicate(changes: Seq<DemandSourceChange>) -> bool {
    exists|id: DemandSourceId| duplicated(changes, id)
}

/// The least source that is the subject of two changes.
pub open spec fn least_duplicate(changes: Seq<DemandSourceChange>) -> DemandSourceId {
    choose|id: DemandSourceId|
        duplicated(changes, id) && forall|o: DemandSourceId| duplicated(changes, o) ==> id@ <= o@
}

/// Some change is about `id`.
pub open spec fn changed(changes: Seq<DemandSourceChange>, id: DemandSourceId) -> bool {
    exists|i: int| 0 <= i < changes.len() && (#[trigger] changes[i]).spec_source_id() == id
}

/// The planner holds a source `id`.
pub open spec fn held(sources: Seq<SourceModel>, id: DemandSourceId) -> bool {
    exists|k: int| 0 <= k < sources.len() && (#[trigger] sources[k]).id == id
}

/// The snapshot of source `id` after the changes, `None` if it has none.
pub open spec fn next_snapshot(
    sources: Seq<SourceModel>,
    changes: Seq<DemandSourceChange>,
    id: DemandSourceId,
) -> Option<SnapshotModel> {
    if changed(changes, id) {
        let i = choose|i: int| 0 <= i < changes.len() && (#[trigger] changes[i]).spec_source_id() == id;
        replacement(changes[i])
    } else if held(sources, id) {
        let k = choose|k: int| 0 <= k < sources.len() && (#[trigger] sources[k]).id == id;
        Some(sources[k].snapshot)
    } else {
        None
    }
}

/// The chunks that source `id` demanded before the changes.
pub open spec fn prior_chunks(sources: Seq<SourceModel>, id: DemandSourceId) -> Set<ChunkCoord3> {
    if held(sources, id) {
        let k = choose|k: int| 0 <= k < sources.len() && (#[trigger] sources[k]).id == id;
        sources[k].chunks
    } else {
        Set::empty()
    }
}

/// The sources after the changes, in increasing id order.
pub open spec fn next_entries(sources: Seq<SourceModel>, changes: Seq<DemandSourceChange>) -> Seq<
    EntryModel,
> {
    let ids = arrange(Set::new(|id: DemandSourceId| next_snapshot(sources, changes, id) is Some));
    Seq::new(
        ids.len(),
        |i: int|
            EntryModel {
                id: ids[i],
                snapshot: next_snapshot(sources, changes, ids[i])->0,
                prior: prior_chunks(sources, ids[i]),
            },
    )
}

// ---------------------------------------------------------------- counting

/// The first world mismatch of a snapshot: the focus, then the pins in order.
pub open spec fn world_error(world: WorldId, snap: SnapshotModel) -> Option<SpatialDemandError> {
    if snap.focus is Some && snap.focus->0.spec_center().world_id != world {
        Some(
            SpatialDemandError::SpatialMath(
                SpatialMathError::WorldMismatch {
                    expected: world,
                    actual: snap.focus->0.spec_center().world_id,
                },
            ),
        )
    } else if exists|i: int| 0 <= i < snap.pins.len() && (#[trigger] snap.pins[i]).world_id != world {
        let i = choose|i: int|
            0 <= i < snap.pins.len() && (#[trigger] snap.pins[i]).world_id != world && forall|k: int|
                0 <= k < i ==> (#[trigger] snap.pins[k]).world_id == world;
        Some(
            SpatialDemandError::SpatialMath(
                SpatialMathError::WorldMismatch { expected: world, actual: snap.pins[i].world_id },
            ),
        )
    } else {
        None
    }
}

/// Inside the retain box but outside the desired box of a focus.
pub open spec fn retained_only(c: ChunkCoord3, snap: SnapshotModel) -> bool {
    let f = snap.focus->0;
    within(c, f.spec_center().coord, f.spec_hr() as int, f.spec_vr() as int) && !within(
        c,
        f.spec_center().coord,
        f.spec_hd() as int,
        f.spec_vd() as int,
    )
}

/// Inside the desired box of a focus.
pub open spec fn desired_in(c: ChunkCoord3, snap: SnapshotModel) -> bool {
    let f = snap.focus->0;
    within(c, f.spec_center().coord, f.spec_hd() as int, f.spec_vd() as int)
}

/// The error for a source that would contribute `candidate` chunks.
pub open spec fn per_source_error(
    id: DemandSourceId,
    limits: DemandLimits,
    candidate: int,
) -> SpatialDemandError {
    SpatialDemandError::PerSourceContributionLimitExceeded {
        source_id: id,
        limit: limits.spec_max_contributions_per_source(),
        candidate: candidate as usize,
    }
}

/// How many chunks one source will contribute, counted before anything is
/// built, or why the source is rejected.
pub open spec fn source_count(world: WorldId, limits: DemandLimits, e: EntryModel) -> Result<
    int,
    SpatialDemandError,
> {
    let limit = limits.spec_max_contributions_per_source();
    if world_error(world, e.snapshot) is Some {
        Err(world_error(world, e.snapshot)->0)
    } else if e.snapshot.focus is Some {
        let f = e.snapshot.focus->0;
        let volume = box_volume(f.spec_hd() as int, f.spec_vd() as int);
        if volume > usize::MAX {
            Err(SpatialDemandError::CountOverflow { operation: "desired focus volume conversion" })
        } else if volume > limit {
            Err(per_source_error(e.id, limits, volume))
        } else {
            let kept = e.prior.filter(|c: ChunkCoord3| retained_only(c, e.snapshot)).len();
            let extra = e.snapshot.pins.filter(
                |p: ChunkId|
                    !desired_in(p.coord, e.snapshot) && !(e.prior.contains(p.coord)
                        && retained_only(p.coord, e.snapshot)),
            ).len();
            let count = volume + kept + extra;
            if count > limit {
                Err(per_source_error(e.id, limits, count))
            } else {
                Ok(count)
            }
        }
    } else if e.snapshot.pins.len() > limit {
        Err(per_source_error(e.id, limits, e.snapshot.pins.len() as int))
    } else {
        Ok(e.snapshot.pins.len() as int)
    }
}

/// The total contribution count of the sources, in order, or the first
/// rejection; the total is checked against its limit after each source.
pub open spec fn count_total(world: WorldId, limits: DemandLimits, entries: Seq<EntryModel>) -> Result<
    int,
    SpatialDemandError,
>
    decreases entries.len(),
{
    if entries.len() == 0 {
        Ok(0)
    } else {
        match count_total(world, limits, entries.drop_last()) {
            Err(e) => Err(e),
            Ok(t) => match source_count(world, limits, entries.last()) {
                Err(e) => Err(e),
                Ok(c) => if t + c > limits.spec_max_total_contributions() {
                    Err(
                        SpatialDemandError::TotalContributionLimitExceeded {
                            limit: limits.spec_max_total_contributions(),
                            candidate: (t + c) as usize,
                        },
                    )
                } else {
                    Ok(t + c)
                },
            },
        }
    }
}

// ---------------------------------------------------------------- building

/// The source's desired box has `i64` corners, or it has no focus.
pub open spec fn entry_fits(e: EntryModel) -> bool {
    e.snapshot.focus is Some ==> {
        let f = e.snapshot.focus->0;
        box_fits(f.spec_center().coord, f.spec_hd() as int, f.spec_vd() as int)
    }
}

/// All sources' desired boxes fit.
pub open spec fn all_fit(entries: Seq<EntryModel>) -> bool {
    forall|i: int| 0 <= i < entries.len() ==> entry_fits(#[trigger] entries[i])
}

/// The chunks a source demands after the transaction: its desired box, and
/// those it demanded before that are still inside its retain box.
pub open spec fn next_chunks(e: EntryModel) -> Set<ChunkCoord3> {
    match e.snapshot.focus {
        None => Set::empty(),
        Some(f) => box_set(f.spec_center().coord, f.spec_hd() as int, f.spec_vd() as int).union(
            e.prior.filter(|c: ChunkCoord3| retained_only(c, e.snapshot)),
        ),
    }
}

/// The sources after the transaction.
pub open spec fn next_sources(entries: Seq<EntryModel>) -> Seq<SourceModel> {
    Seq::new(
        entries.len(),
        |i: int|
            SourceModel {
                id: entries[i].id,
                snapshot: entries[i].snapshot,
                chunks: next_chunks(entries[i]),
            },
    )
}

// ---------------------------------------------------------------- ranking

/// The coordinates of a snapshot's pins.
pub open spec fn pinned_coord(snap: SnapshotModel, c: ChunkCoord3) -> bool {
    exists|i: int| 0 <= i < snap.pins.len() && (#[trigger] snap.pins[i]).coord == c
}

/// A source's pins as contributions, ordinal = position among the pins.
pub open spec fn pinned_contributions(s: SourceModel) -> Seq<Contribution> {
    Seq::new(
        s.snapshot.pins.len(),
        |i: int|
            Contribution {
                chunk_id: s.snapshot.pins[i],
                class: DemandClass::Pinned,
                source_id: s.id,
                ordinal: i as usize,
            },
    )
}

/// A source's focus chunks of one class (inside the desired box or not),
/// without its pins, nearest to the center first.
pub open spec fn focus_keys(s: SourceModel, desired: bool) -> Seq<DistKey> {
    match s.snapshot.focus {
        None => Seq::empty(),
        Some(f) => arrange(
            s.chunks.filter(
                |c: ChunkCoord3|
                    desired_in(c, s.snapshot) == desired && !pinned_coord(s.snapshot, c),
            ).map(|c: ChunkCoord3| dist_key(c, f.spec_center().coord)),
        ),
    }
}

/// Ranked focus chunks as contributions of one class.
pub open spec fn keyed_contributions(
    world: WorldId,
    s: SourceModel,
    keys: Seq<DistKey>,
    class: DemandClass,
) -> Seq<Contribution> {
    Seq::new(
        keys.len(),
        |i: int|
            Contribution {
                chunk_id: ChunkId { world_id: world, coord: keys[i].coord },
                class,
                source_id: s.id,
                ordinal: i as usize,
            },
    )
}

/// Everything one source contributes.
pub open spec fn source_contributions(world: WorldId, s: SourceModel) -> Set<Contribution> {
    pinned_contributions(s).to_set().union(
        keyed_contributions(world, s, focus_keys(s, true), DemandClass::Desired).to_set(),
    ).union(keyed_contributions(world, s, focus_keys(s, false), DemandClass::Retained).to_set())
}

/// Everything all sources contribute.
pub open spec fn all_contributions(world: WorldId, sources: Seq<SourceModel>) -> Set<Contribution>
    decreases sources.len(),
{
    if sources.len() == 0 {
        Set::empty()
    } else {
        all_contributions(world, sources.drop_last()).union(
            source_contributions(world, sources.last()),
        )
    }
}

/// Keeps the first contribution for each chunk.
pub open spec fn first_per_chunk(s: Seq<Contribution>) -> Seq<Contribution>
    decreases s.len(),
{
    if s.len() == 0 {
        Seq::empty()
    } else {
        let p = first_per_chunk(s.drop_last());
        if exists|j: int| 0 <= j < p.len() && (#[trigger] p[j]).chunk_id == s.last().chunk_id {
            p
        } else {
            p.push(s.last())
        }
    }
}

/// Every demanded chunk with its strongest contribution, strongest first.
pub open spec fn candidates(world: WorldId, sources: Seq<SourceModel>) -> Seq<Contribution> {
    first_per_chunk(arrange(all_contributions(world, sources)))
}

/// Number of candidates that are pinned.
pub open spec fn pinned_count(c: Seq<Contribution>) -> int {
    c.filter(|x: Contribution| x.class == DemandClass::Pinned).len() as int
}

/// The first `n` candidates, ranked by position.
pub open spec fn select(c: Seq<Contribution>, n: int) -> Seq<DemandedChunk> {
    Seq::new(
        n as nat,
        |i: int|
            DemandedChunk {
                chunk_id: c[i].chunk_id,
                rank: DemandRank::spec_from(i),
                class: c[i].class,
            },
    )
}

/// The smaller of two integers.
pub open spec fn min_int(a: int, b: int) -> int {
    if a <= b {
        a
    } else {
        b
    }
}

/// A planner state as a transaction leaves it: no more sources than their
/// limit, the effective demand is the strongest candidates up to the
/// effective limit, no more pinned candidates than the limit, and counters
/// that describe exactly that selection.
pub open spec fn settled(m: PlannerModel) -> bool {
    let cands = candidates(m.world_id, m.sources);
    let capacity = m.limits.spec_max_effective_chunks() as int;
    &&& pinned_count(cands) <= capacity
    &&& m.chunks == select(cands, min_int(capacity, cands.len() as int))
    &&& m.pressure.candidate_effective_chunks == cands.len()
    &&& m.pressure.selected_effective_chunks == m.chunks.len()
    &&& m.pressure.unique_pinned_effective_chunks == pinned_count(cands)
    &&& m.pressure.suppressed_effective_chunks == cands.len() - m.chunks.len()
    &&& m.pressure.source_count == m.sources.len()
    &&& m.sources.len() <= m.limits.spec_max_sources()
    &&& pins_in_world(m.world_id, m.sources)
}

/// Every pin of every source is in the world.
pub open spec fn pins_in_world(world: WorldId, sources: Seq<SourceModel>) -> bool {
    forall|k: int, i: int|
        0 <= k < sources.len() && 0 <= i < sources[k].snapshot.pins.len()
            ==> (#[trigger] sources[k].snapshot.pins[i]).world_id == world
}

// ---------------------------------------------------------------- the transaction

/// What a transaction does, once its changes are merged into the sources:
/// the next planner state, or why it is rejected.
#[verifier::opaque]
pub open spec fn plan_entries(world: WorldId, limits: DemandLimits, entries: Seq<EntryModel>) -> Result<
    PlannerModel,
    SpatialDemandError,
> {
    if entries.len() > limits.spec_max_sources() {
        Err(
            SpatialDemandError::SourceLimitExceeded {
                limit: limits.spec_max_sources(),
                candidate: entries.len() as usize,
            },
        )
    } else if count_total(world, limits, entries) is Err {
        Err(count_total(world, limits, entries)->Err_0)
    } else if !all_fit(entries) {
        Err(
            SpatialDemandError::SpatialMath(
                SpatialMathError::ArithmeticOverflow { operation: "demand chunk range" },
            ),
        )
    } else {
        let total = count_total(world, limits, entries)->Ok_0;
        let sources = next_sources(entries);
        let cands = candidates(world, sources);
        let pinned = pinned_count(cands);
        let capacity = limits.spec_max_effective_chunks() as int;
        if pinned > capacity {
            Err(
                SpatialDemandError::PinnedCapacityExceeded {
                    limit: limits.spec_max_effective_chunks(),
                    pinned: pinned as usize,
                },
            )
        } else {
            let selected = select(cands, min_int(capacity, cands.len() as int));
            Ok(
                PlannerModel {
                    world_id: world,
                    limits,
                    sources,
                    chunks: selected,
                    pressure: DemandPressureDiagnostics {
                        candidate_effective_chunks: cands.len() as usize,
                        selected_effective_chunks: selected.len() as usize,
                        unique_pinned_effective_chunks: pinned as usize,
                        suppressed_effective_chunks: (cands.len() - selected.len()) as usize,
                        total_source_contributions: total as usize,
                        source_count: entries.len() as usize,
                    },
                },
            )
        }
    }
}

/// What a transaction does: the next planner state, or why it is rejected.
pub open spec fn plan(m: PlannerModel, changes: Seq<DemandSourceChange>) -> Result<
    PlannerModel,
    SpatialDemandError,
> {
    if has_duplicate(changes) {
        Err(SpatialDemandError::DuplicateSourceChange { source_id: least_duplicate(changes) })
    } else {
        plan_entries(m.world_id, m.limits, next_entries(m.sources, changes))
    }
}

/// Chunks of `new` that `old` does not have.
pub open spec fn entered_chunks(old: Seq<DemandedChunk>, new: Seq<DemandedChunk>) -> Seq<
    DemandedChunk,
> {
    new.filter(|c: DemandedChunk| !has_chunk(old, c.chunk_id))
}

/// Chunks of `new` that `old` has with another rank or class.
pub open spec fn updated_chunks(old: Seq<DemandedChunk>, new: Seq<DemandedChunk>) -> Seq<
    DemandedChunk,
> {
    new.filter(|c: DemandedChunk| has_chunk(old, c.chunk_id) && !old.contains(c))
}

/// Chunks of `old` that `new` does not have.
pub open spec fn exited_chunks(old: Seq<DemandedChunk>, new: Seq<DemandedChunk>) -> Seq<
    DemandedChunk,
> {
    old.filter(|c: DemandedChunk| !has_chunk(new, c.chunk_id))
}

} // verus!
