//! Errors of demand planning.

use vstd::prelude::*;
use crate::error::{SpatialMathError, math_error_text, push_math_error};
use crate::render::{push_str, push_quoted, push_decimal, decimal};
use crate::demand::identity::{DemandAxis, DemandLimitKind, DemandSourceId};

verus! {

/// Why a demand input or a demand transaction was rejected.
#[derive(Debug, Copy, Clone, PartialEq, Eq)]
pub enum SpatialDemandError {
    SpatialMath(SpatialMathError),
    EmptySourceSnapshot,
    RetainRadiusBelowDesired { axis: DemandAxis, desired: u32, retain: u32 },
    ZeroLimit { limit: DemandLimitKind },
    DuplicateSourceChange { source_id: DemandSourceId },
    SourceLimitExceeded { limit: u32, candidate: usize },
    PerSourceContributionLimitExceeded { source_id: DemandSourceId, limit: u32, candidate: usize },
    TotalContributionLimitExceeded { limit: u32, candidate: usize },
    PinnedCapacityExceeded { limit: u32, pinned: usize },
    CountOverflow { operation: &'static str },
}

impl From<SpatialMathError> for SpatialDemandError {
    fn from(value: SpatialMathError) -> (r: Self) {
        SpatialDemandError::SpatialMath(value)
    }
}

impl vstd::std_specs::convert::FromSpecImpl<SpatialMathError> for SpatialDemandError {
    open spec fn obeys_from_spec() -> bool {
        true
    }

    open spec fn from_spec(v: SpatialMathError) -> Self {
        SpatialDemandError::SpatialMath(v)
    }
}

impl SpatialDemandError {
    /// A human-readable description: the error written as `{:?}` writes
    /// it (string fields between double quotes as they are).
    pub fn describe(&self) -> (r: String)
        ensures
            r@ == demand_error_text(*self),
    {
        let mut s = String::new();
        push_demand_error(&mut s, self);
        proof {
            assert(s@ =~= demand_error_text(*self));
        }
        s
    }
}

/// An axis as `{:?}` writes it.
pub open spec fn axis_text(a: DemandAxis) -> Seq<char> {
    match a {
        DemandAxis::Horizontal => "Horizontal"@,
        DemandAxis::Vertical => "Vertical"@,
    }
}

/// A limit kind as `{:?}` writes it.
pub open spec fn limit_kind_text(k: DemandLimitKind) -> Seq<char> {
    match k {
        DemandLimitKind::Sources => "Sources"@,
        DemandLimitKind::ContributionsPerSource => "ContributionsPerSource"@,
        DemandLimitKind::TotalContributions => "TotalContributions"@,
        DemandLimitKind::EffectiveChunks => "EffectiveChunks"@,
    }
}

/// The error as `{:?}` writes it.
pub open spec fn demand_error_text(e: SpatialDemandError) -> Seq<char> {
    match e {
        SpatialDemandError::SpatialMath(m) => "SpatialMath("@ + math_error_text(m) + ")"@,
        SpatialDemandError::EmptySourceSnapshot => "EmptySourceSnapshot"@,
        SpatialDemandError::RetainRadiusBelowDesired { axis, desired, retain } => "RetainRadiusBelowDesired { axis: "@
            + axis_text(axis) + ", desired: "@ + decimal(desired as nat) + ", retain: "@ + decimal(retain as nat) + " }"@,
        SpatialDemandError::ZeroLimit { limit } => "ZeroLimit { limit: "@ + limit_kind_text(limit) + " }"@,
        SpatialDemandError::DuplicateSourceChange { source_id } => "DuplicateSourceChange { source_id: DemandSourceId("@
            + decimal(source_id@ as nat) + ") }"@,
        SpatialDemandError::SourceLimitExceeded { limit, candidate } => "SourceLimitExceeded { limit: "@
            + decimal(limit as nat) + ", candidate: "@ + decimal(candidate as nat) + " }"@,
        SpatialDemandError::PerSourceContributionLimitExceeded { source_id, limit, candidate } =>
            "PerSourceContributionLimitExceeded { source_id: DemandSourceId("@ + decimal(source_id@ as nat)
            + "), limit: "@ + decimal(limit as nat) + ", candidate: "@ + decimal(candidate as nat) + " }"@,
        SpatialDemandError::TotalContributionLimitExceeded { limit, candidate } => "TotalContributionLimitExceeded { limit: "@
            + decimal(limit as nat) + ", candidate: "@ + decimal(candidate as nat) + " }"@,
        SpatialDemandError::PinnedCapacityExceeded { limit, pinned } => "PinnedCapacityExceeded { limit: "@
            + decimal(limit as nat) + ", pinned: "@ + decimal(pinned as nat) + " }"@,
        SpatialDemandError::CountOverflow { operation } => "CountOverflow { operation: "@ + seq!['"'] + operation@
            + seq!['"'] + " }"@,
    }
}

fn push_axis(s: &mut String, a: DemandAxis)
    ensures
        final(s)@ == old(s)@ + axis_text(a),
{
    match a {
        DemandAxis::Horizontal => push_str(s, "Horizontal"),
        DemandAxis::Vertical => push_str(s, "Vertical"),
    }
}

fn push_limit_kind(s: &mut String, k: DemandLimitKind)
    ensures
        final(s)@ == old(s)@ + limit_kind_text(k),
{
    match k {
        DemandLimitKind::Sources => push_str(s, "Sources"),
        DemandLimitKind::ContributionsPerSource => push_str(s, "ContributionsPerSource"),
        DemandLimitKind::TotalContributions => push_str(s, "TotalContributions"),
        DemandLimitKind::EffectiveChunks => push_str(s, "EffectiveChunks"),
    }
}

/// Appends the error as `{:?}` writes it.
pub fn push_demand_error(s: &mut String, e: &SpatialDemandError)
    ensures
        final(s)@ == old(s)@ + demand_error_text(*e),
{
    match e {
        SpatialDemandError::SpatialMath(m) => {
            push_str(s, "SpatialMath(");
            push_math_error(s, m);
            push_str(s, ")");
        },
        SpatialDemandError::EmptySourceSnapshot => {
            push_str(s, "EmptySourceSnapshot");
        },
        SpatialDemandError::RetainRadiusBelowDesired { axis, desired, retain } => {
            push_str(s, "RetainRadiusBelowDesired { axis: ");
            push_axis(s, *axis);
            push_str(s, ", desired: ");
            push_decimal(s, *desired as u64);
            push_str(s, ", retain: ");
            push_decimal(s, *retain as u64);
            push_str(s, " }");
        },
        SpatialDemandError::ZeroLimit { limit } => {
            push_str(s, "ZeroLimit { limit: ");
            push_limit_kind(s, *limit);
            push_str(s, " }");
        },
        SpatialDemandError::DuplicateSourceChange { source_id } => {
            push_str(s, "DuplicateSourceChange { source_id: DemandSourceId(");
            push_decimal(s, source_id.get());
            push_str(s, ") }");
        },
        SpatialDemandError::SourceLimitExceeded { limit, candidate } => {
            push_str(s, "SourceLimitExceeded { limit: ");
            push_decimal(s, *limit as u64);
            push_str(s, ", candidate: ");
            push_decimal(s, *candidate as u64);
            push_str(s, " }");
        },
        SpatialDemandError::PerSourceContributionLimitExceeded { source_id, limit, candidate } => {
            push_str(s, "PerSourceContributionLimitExceeded { source_id: DemandSourceId(");
            push_decimal(s, source_id.get());
            push_str(s, "), limit: ");
            push_decimal(s, *limit as u64);
            push_str(s, ", candidate: ");
            push_decimal(s, *candidate as u64);
            push_str(s, " }");
        },
        SpatialDemandError::TotalContributionLimitExceeded { limit, candidate } => {
            push_str(s, "TotalContributionLimitExceeded { limit: ");
            push_decimal(s, *limit as u64);
            push_str(s, ", candidate: ");
            push_decimal(s, *candidate as u64);
            push_str(s, " }");
        },
        SpatialDemandError::PinnedCapacityExceeded { limit, pinned } => {
            push_str(s, "PinnedCapacityExceeded { limit: ");
            push_decimal(s, *limit as u64);
            push_str(s, ", pinned: ");
            push_decimal(s, *pinned as u64);
            push_str(s, " }");
        },
        SpatialDemandError::CountOverflow { operation } => {
            push_str(s, "CountOverflow { operation: ");
            push_quoted(s, operation);
            push_str(s, " }");
        },
    }
    proof {
        assert(s@ =~= old(s)@ + demand_error_text(*e));
    }
}

} // verus!
