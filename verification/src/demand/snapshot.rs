//! The planner's outputs: effective demand and its changes.

use vstd::prelude::*;
use crate::ids::ChunkId;
use crate::order::chunk_id_eq;
use crate::demand::identity::{DemandClass, DemandRank};

verus! {

/// Counters that describe how much demand competed for the effective set.
#[derive(Debug, Copy, Clone, PartialEq, Eq, Structural)]
pub struct DemandPressureDiagnostics {
    pub candidate_effective_chunks: usize,
    pub selected_effective_chunks: usize,
    pub unique_pinned_effective_chunks: usize,
    pub suppressed_effective_chunks: usize,
    pub total_source_contributions: usize,
    pub source_count: usize,
}

impl DemandPressureDiagnostics {
    /// Builds the counters; the suppressed count is the candidates that were
    /// not selected.
    pub(crate) fn new(
        candidate_effective_chunks: usize,
        selected_effective_chunks: usize,
        unique_pinned_effective_chunks: usize,
        total_source_contributions: usize,
        source_count: usize,
    ) -> (r: Self)
        requires
            selected_effective_chunks <= candidate_effective_chunks,
        ensures
            r.candidate_effective_chunks == candidate_effective_chunks,
            r.selected_effective_chunks == selected_effective_chunks,
            r.unique_pinned_effective_chunks == unique_pinned_effective_chunks,
            r.suppressed_effective_chunks == candidate_effective_chunks - selected_effective_chunks,
            r.total_source_contributions == total_source_contributions,
            r.source_count == source_count,
    {
        DemandPressureDiagnostics {
            candidate_effective_chunks,
            selected_effective_chunks,
            unique_pinned_effective_chunks,
            suppressed_effective_chunks: candidate_effective_chunks - selected_effective_chunks,
            total_source_contributions,
            source_count,
        }
    }

    /// Distinct chunks that some source demanded.
    pub fn candidate_effective_chunks(&self) -> (r: usize)
        ensures
            r == self.candidate_effective_chunks,
    {
        self.candidate_effective_chunks
    }

    /// Chunks that made it into the effective demand.
    pub fn selected_effective_chunks(&self) -> (r: usize)
        ensures
            r == self.selected_effective_chunks,
    {
        self.selected_effective_chunks
    }

    /// Distinct chunks whose strongest demand is a pin.
    pub fn unique_pinned_effective_chunks(&self) -> (r: usize)
        ensures
            r == self.unique_pinned_effective_chunks,
    {
        self.unique_pinned_effective_chunks
    }

    /// Candidates left out because the effective limit was reached.
    pub fn suppressed_effective_chunks(&self) -> (r: usize)
        ensures
            r == self.suppressed_effective_chunks,
    {
        self.suppressed_effective_chunks
    }

    /// All contributions of all sources, duplicates included.
    pub fn total_source_contributions(&self) -> (r: usize)
        ensures
            r == self.total_source_contributions,
    {
        self.total_source_contributions
    }

    /// Number of sources.
    pub fn source_count(&self) -> (r: usize)
        ensures
            r == self.source_count,
    {
        self.source_count
    }
}

/// One chunk of the effective demand.
#[derive(Debug, Copy, Clone, PartialEq, Eq, Structural)]
pub struct DemandedChunk {
    pub chunk_id: ChunkId,
    pub rank: DemandRank,
    pub class: DemandClass,
}

impl DemandedChunk {
    /// Builds an entry.
    pub(crate) fn new(chunk_id: ChunkId, rank: DemandRank, class: DemandClass) -> (r: Self)
        ensures
            r.chunk_id == chunk_id,
            r.rank == rank,
            r.class == class,
    {
        DemandedChunk { chunk_id, rank, class }
    }

    /// The chunk.
    pub fn chunk_id(&self) -> (r: ChunkId)
        ensures
            r == self.chunk_id,
    {
        self.chunk_id
    }

    /// Its rank.
    pub fn rank(&self) -> (r: DemandRank)
        ensures
            r == self.rank,
    {
        self.rank
    }

    /// Its strongest class.
    pub fn class(&self) -> (r: DemandClass)
        ensures
            r == self.class,
    {
        self.class
    }
}

/// Whether some entry of `s` is about chunk `id`.
pub open spec fn has_chunk(s: Seq<DemandedChunk>, id: ChunkId) -> bool {
    exists|j: int| 0 <= j < s.len() && (#[trigger] s[j]).chunk_id == id
}

/// The first entry of `s` about `id`, if any.
pub open spec fn first_entry(s: Seq<DemandedChunk>, id: ChunkId) -> Option<DemandedChunk> {
    if has_chunk(s, id) {
        Some(
            s[choose|j: int|
                0 <= j < s.len() && (#[trigger] s[j]).chunk_id == id && forall|k: int|
                    0 <= k < j ==> (#[trigger] s[k]).chunk_id != id],
        )
    } else {
        None
    }
}

/// The entry at `i` is the first entry about its chunk when no earlier one is.
pub proof fn lemma_first_entry_at(s: Seq<DemandedChunk>, id: ChunkId, i: int)
    requires
        0 <= i < s.len(),
        s[i].chunk_id == id,
        forall|k: int| 0 <= k < i ==> (#[trigger] s[k]).chunk_id != id,
    ensures
        first_entry(s, id) == Some(s[i]),
{
    assert(has_chunk(s, id));
    let j = choose|j: int|
        0 <= j < s.len() && (#[trigger] s[j]).chunk_id == id && forall|k: int| 0 <= k < j ==> (#[trigger] s[k]).chunk_id != id;
    if j < i {
        assert(s[j].chunk_id != id);
    } else if i < j {
        assert(s[i].chunk_id != id);
    }
}

/// The effective demand: chunks in rank order.
#[derive(Debug, Clone, PartialEq, Eq)]
pub struct EffectiveDemandSnapshot {
    chunks: Vec<DemandedChunk>,
    pressure: DemandPressureDiagnostics,
}

impl EffectiveDemandSnapshot {
    /// The chunks in rank order.
    pub closed spec fn spec_chunks(&self) -> Seq<DemandedChunk> {
        self.chunks@
    }

    /// The pressure counters.
    pub closed spec fn spec_pressure(&self) -> DemandPressureDiagnostics {
        self.pressure
    }

    /// Builds a snapshot.
    pub(crate) fn new(chunks: Vec<DemandedChunk>, pressure: DemandPressureDiagnostics) -> (r: Self)
        ensures
            r.spec_chunks() == chunks@,
            r.spec_pressure() == pressure,
    {
        EffectiveDemandSnapshot { chunks, pressure }
    }

    /// The chunks in rank order.
    pub fn chunks(&self) -> (r: &[DemandedChunk])
        ensures
            r@ == self.spec_chunks(),
    {
        self.chunks.as_slice()
    }

    /// Number of chunks.
    pub fn len(&self) -> (r: usize)
        ensures
            r == self.spec_chunks().len(),
    {
        self.chunks.len()
    }

    /// Whether there is no chunk.
    pub fn is_empty(&self) -> (r: bool)
        ensures
            r == (self.spec_chunks().len() == 0),
    {
        self.chunks.len() == 0
    }

    /// The first entry about `chunk_id`, if any.
    pub fn get(&self, chunk_id: ChunkId) -> (r: Option<&DemandedChunk>)
        ensures
            r is None <==> !has_chunk(self.spec_chunks(), chunk_id),
            r matches Some(c) ==> first_entry(self.spec_chunks(), chunk_id) == Some(*c),
    {
        let mut i: usize = 0;
        while i < self.chunks.len()
            invariant
                i <= self.spec_chunks().len(),
                forall|k: int| 0 <= k < i ==> (#[trigger] self.spec_chunks()[k]).chunk_id != chunk_id,
            decreases self.spec_chunks().len() - i,
        {
            if chunk_id_eq(&self.chunks[i].chunk_id, &chunk_id) {
                proof {
                    lemma_first_entry_at(self.spec_chunks(), chunk_id, i as int);
                }
                return Some(&self.chunks[i]);
            }
            i = i + 1;
        }
        None
    }

    /// The pressure counters.
    pub fn pressure(&self) -> (r: DemandPressureDiagnostics)
        ensures
            r == self.spec_pressure(),
    {
        self.pressure
    }
}

/// What one planner transaction changed in the effective demand.
#[derive(Debug, Clone, PartialEq, Eq)]
pub struct SpatialDemandDelta {
    entered: Vec<DemandedChunk>,
    updated: Vec<DemandedChunk>,
    exited: Vec<DemandedChunk>,
    pressure: DemandPressureDiagnostics,
}

impl SpatialDemandDelta {
    /// Chunks that became demanded.
    pub closed spec fn spec_entered(&self) -> Seq<DemandedChunk> {
        self.entered@
    }

    /// Chunks whose rank or class changed.
    pub closed spec fn spec_updated(&self) -> Seq<DemandedChunk> {
        self.updated@
    }

    /// Chunks that stopped being demanded.
    pub closed spec fn spec_exited(&self) -> Seq<DemandedChunk> {
        self.exited@
    }

    /// The pressure counters.
    pub closed spec fn spec_pressure(&self) -> DemandPressureDiagnostics {
        self.pressure
    }

    /// Builds a delta.
    pub(crate) fn new(
        entered: Vec<DemandedChunk>,
        updated: Vec<DemandedChunk>,
        exited: Vec<DemandedChunk>,
        pressure: DemandPressureDiagnostics,
    ) -> (r: Self)
        ensures
            r.spec_entered() == entered@,
            r.spec_updated() == updated@,
            r.spec_exited() == exited@,
            r.spec_pressure() == pressure,
    {
        SpatialDemandDelta { entered, updated, exited, pressure }
    }

    /// Chunks that became demanded, in their new rank order.
    pub fn entered(&self) -> (r: &[DemandedChunk])
        ensures
            r@ == self.spec_entered(),
    {
        self.entered.as_slice()
    }

    /// Chunks that stayed demanded with another rank or class, in their new rank order.
    pub fn updated(&self) -> (r: &[DemandedChunk])
        ensures
            r@ == self.spec_updated(),
    {
        self.updated.as_slice()
    }

    /// Chunks that stopped being demanded, in their old rank order.
    pub fn exited(&self) -> (r: &[DemandedChunk])
        ensures
            r@ == self.spec_exited(),
    {
        self.exited.as_slice()
    }

    /// The pressure counters of the new effective demand.
    pub fn pressure(&self) -> (r: DemandPressureDiagnostics)
        ensures
            r == self.spec_pressure(),
    {
        self.pressure
    }

    /// Whether nothing entered, changed or exited.
    pub fn is_empty(&self) -> (r: bool)
        ensures
            r == (self.spec_entered().len() == 0 && self.spec_updated().len() == 0 && self.spec_exited().len() == 0),
    {
        self.entered.len() == 0 && self.updated.len() == 0 && self.exited.len() == 0
    }
}

} // verus!
