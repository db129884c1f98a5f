//! What one demand source publishes.

use vstd::prelude::*;
use crate::ids::ChunkId;
use crate::order::{StrictKey, strictly_sorted, arrange, lemma_arrange_of_sorted, sorted_insert};
use crate::demand::error::SpatialDemandError;
use crate::demand::focus::DemandFocus;
use crate::demand::identity::DemandSourceId;

verus! {

/// The contents of a source snapshot: its focus and its pins in increasing order.
pub struct SnapshotModel {
    pub focus: Option<DemandFocus>,
    pub pins: Seq<ChunkId>,
}

/// A complete description of one source's demand: an optional focus and a
/// set of pinned chunks, not both empty.
#[derive(Debug, Clone)]
pub struct DemandSourceSnapshot {
    focus: Option<DemandFocus>,
    pins: Vec<ChunkId>,
}

impl View for DemandSourceSnapshot {
    type V = SnapshotModel;

    closed spec fn view(&self) -> SnapshotModel {
        SnapshotModel { focus: self.focus, pins: self.pins@ }
    }
}

impl DemandSourceSnapshot {
    /// The snapshot's invariant: pins strictly increasing, not both empty.
    pub closed spec fn wf(&self) -> bool {
        strictly_sorted(self.pins@) && (self.focus is Some || self.pins@.len() > 0)
    }

    /// Builds a snapshot; the pins are kept as a set, in increasing order.
    pub fn try_new(focus: Option<DemandFocus>, pins: Vec<ChunkId>) -> (r: Result<
        Self,
        SpatialDemandError,
    >)
        ensures
            r is Err <==> (focus is None && pins@.len() == 0),
            r matches Err(e) ==> e == SpatialDemandError::EmptySourceSnapshot,
            r matches Ok(s) ==> s.wf() && s@.focus == focus && s@.pins == arrange(pins@.to_set()),
    {
        if focus.is_none() && pins.len() == 0 {
            return Err(SpatialDemandError::EmptySourceSnapshot);
        }
        let mut sorted: Vec<ChunkId> = Vec::new();
        let mut i: usize = 0;
        while i < pins.len()
            invariant
                i <= pins@.len(),
                strictly_sorted(sorted@),
                sorted@.to_set() == pins@.take(i as int).to_set(),
                i > 0 ==> sorted@.len() > 0,
            decreases pins@.len() - i,
        {
            let ghost before = sorted@;
            sorted_insert(&mut sorted, pins[i]);
            proof {
                assert(pins@.take(i + 1) =~= pins@.take(i as int).push(pins@[i as int]));
                pins@.take(i as int).lemma_push_to_set_commute(pins@[i as int]);
                assert(pins@.take(i + 1).to_set() =~= pins@.take(i as int).to_set().insert(
                    pins@[i as int],
                ));
                if before.len() == 0 {
                    assert(sorted@.to_set().contains(pins@[i as int]));
                }
            }
            i = i + 1;
        }
        proof {
            assert(pins@.take(pins@.len() as int) =~= pins@);
            lemma_arrange_of_sorted(sorted@);
        }
        Ok(DemandSourceSnapshot { focus, pins: sorted })
    }

    /// A copy of the snapshot.
    pub fn duplicate(&self) -> (r: Self)
        ensures
            r@ == self@,
            self.wf() ==> r.wf(),
    {
        let mut pins: Vec<ChunkId> = Vec::new();
        let mut i: usize = 0;
        while i < self.pins.len()
            invariant
                i <= self.pins@.len(),
                pins@ == self.pins@.take(i as int),
            decreases self.pins@.len() - i,
        {
            pins.push(self.pins[i]);
            proof {
                assert(self.pins@.take(i + 1) =~= self.pins@.take(i as int).push(self.pins@[i as int]));
            }
            i = i + 1;
        }
        proof {
            assert(self.pins@.take(self.pins@.len() as int) =~= self.pins@);
        }
        DemandSourceSnapshot { focus: self.focus, pins }
    }

    /// The focus, if any.
    pub fn focus(&self) -> (r: Option<DemandFocus>)
        ensures
            r == self@.focus,
    {
        self.focus
    }

    /// The pins, in increasing order.
    pub fn pins(&self) -> (r: &[ChunkId])
        ensures
            r@ == self@.pins,
    {
        self.pins.as_slice()
    }
}

/// One change of a demand transaction.
#[derive(Debug, Clone)]
pub enum DemandSourceChange {
    /// Replaces (or adds) the source's whole snapshot.
    Replace { source_id: DemandSourceId, snapshot: DemandSourceSnapshot },
    /// Removes the source.
    Remove { source_id: DemandSourceId },
}

impl DemandSourceChange {
    /// The source the change is about.
    pub open spec fn spec_source_id(&self) -> DemandSourceId {
        match self {
            DemandSourceChange::Replace { source_id, .. } => *source_id,
            DemandSourceChange::Remove { source_id } => *source_id,
        }
    }

    /// The source the change is about.
    pub fn source_id(&self) -> (r: DemandSourceId)
        ensures
            r == self.spec_source_id(),
    {
        match self {
            DemandSourceChange::Replace { source_id, .. } => *source_id,
            DemandSourceChange::Remove { source_id } => *source_id,
        }
    }
}

} // verus!
