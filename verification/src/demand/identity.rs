//! Identities, ranks and classes of demand.

use vstd::prelude::*;

verus! {

/// Identifies one demand source.
#[derive(Debug, Copy, Clone, PartialEq, Eq, Structural, PartialOrd, Ord, Hash)]
pub struct DemandSourceId(u64);

impl View for DemandSourceId {
    type V = u64;

    closed spec fn view(&self) -> u64 {
        self.0
    }
}

impl DemandSourceId {
    /// Two ids with the same raw number are equal.
    pub proof fn lemma_view_injective(a: Self, b: Self)
        ensures
            a@ == b@ ==> a == b,
    {
    }

    /// Wraps a raw source number.
    pub fn new(value: u64) -> (id: Self)
        ensures
            id@ == value,
    {
        DemandSourceId(value)
    }

    /// Returns the raw source number.
    pub fn get(self) -> (value: u64)
        ensures
            value == self@,
    {
        self.0
    }
}

/// Position of a chunk in the effective demand order; 0 is the most important.
#[derive(Debug, Copy, Clone, PartialEq, Eq, Structural, PartialOrd, Ord, Hash, Default)]
pub struct DemandRank(u32);

impl View for DemandRank {
    type V = u32;

    closed spec fn view(&self) -> u32 {
        self.0
    }
}

impl DemandRank {
    /// The rank at position `index`.
    pub closed spec fn spec_from(index: int) -> DemandRank {
        DemandRank(index as u32)
    }

    /// Two ranks with the same raw value are equal.
    pub proof fn lemma_view_injective(a: Self, b: Self)
        ensures
            a@ == b@ ==> a == b,
    {
    }

    /// The rank at position `index` has the raw value `index`.
    pub proof fn lemma_spec_from(index: int)
        requires
            0 <= index <= u32::MAX,
        ensures
            DemandRank::spec_from(index)@ == index,
    {
    }

    /// The rank at position `index` of the effective demand order.
    pub(crate) fn from_bounded_index(index: usize) -> (rank: Self)
        requires
            index <= u32::MAX,
        ensures
            rank@ == index,
            rank == DemandRank::spec_from(index as int),
    {
        DemandRank(index as u32)
    }

    /// Returns the raw rank.
    pub fn get(self) -> (value: u32)
        ensures
            value == self@,
    {
        self.0
    }
}

/// Why a chunk is demanded; earlier variants take precedence.
#[derive(Debug, Copy, Clone, PartialEq, Eq, Structural, PartialOrd, Ord, Hash)]
pub enum DemandClass {
    Pinned,
    Desired,
    Retained,
}

/// The precedence of a class: `Pinned` < `Desired` < `Retained`.
pub open spec fn class_order(class: DemandClass) -> int {
    match class {
        DemandClass::Pinned => 0,
        DemandClass::Desired => 1,
        DemandClass::Retained => 2,
    }
}

/// Exact precedence number of a class.
pub fn class_index(class: DemandClass) -> (r: u8)
    ensures
        r == class_order(class),
{
    match class {
        DemandClass::Pinned => 0,
        DemandClass::Desired => 1,
        DemandClass::Retained => 2,
    }
}

/// The axis of a focus radius.
#[derive(Debug, Copy, Clone, PartialEq, Eq, Structural)]
pub enum DemandAxis {
    Horizontal,
    Vertical,
}

/// The kind of a planner limit.
#[derive(Debug, Copy, Clone, PartialEq, Eq, Structural)]
pub enum DemandLimitKind {
    Sources,
    ContributionsPerSource,
    TotalContributions,
    EffectiveChunks,
}

} // verus!
