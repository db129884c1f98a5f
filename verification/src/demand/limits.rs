//! Bounds on the planner's work.

use vstd::prelude::*;
use crate::demand::error::SpatialDemandError;
use crate::demand::identity::DemandLimitKind;

verus! {

/// The planner's limits; each is positive.
#[derive(Debug, Copy, Clone, PartialEq, Eq, Structural)]
pub struct DemandLimits {
    max_sources: u32,
    max_contributions_per_source: u32,
    max_total_contributions: u32,
    max_effective_chunks: u32,
}

impl DemandLimits {
    /// Most sources the planner holds at once.
    pub closed spec fn spec_max_sources(self) -> u32 {
        self.max_sources
    }

    /// Most chunks one source may contribute.
    pub closed spec fn spec_max_contributions_per_source(self) -> u32 {
        self.max_contributions_per_source
    }

    /// Most chunk contributions of all sources together.
    pub closed spec fn spec_max_total_contributions(self) -> u32 {
        self.max_total_contributions
    }

    /// Most chunks in the effective demand.
    pub closed spec fn spec_max_effective_chunks(self) -> u32 {
        self.max_effective_chunks
    }

    /// Builds limits; a zero limit is rejected, the first one in the order of
    /// the parameters.
    pub fn try_new(
        max_sources: u32,
        max_contributions_per_source: u32,
        max_total_contributions: u32,
        max_effective_chunks: u32,
    ) -> (r: Result<Self, SpatialDemandError>)
        ensures
            max_sources == 0 ==> r == Err::<Self, _>(
                SpatialDemandError::ZeroLimit { limit: DemandLimitKind::Sources },
            ),
            max_sources != 0 && max_contributions_per_source == 0 ==> r == Err::<Self, _>(
                SpatialDemandError::ZeroLimit { limit: DemandLimitKind::ContributionsPerSource },
            ),
            max_sources != 0 && max_contributions_per_source != 0 && max_total_contributions == 0
                ==> r == Err::<Self, _>(
                SpatialDemandError::ZeroLimit { limit: DemandLimitKind::TotalContributions },
            ),
            max_sources != 0 && max_contributions_per_source != 0 && max_total_contributions != 0
                && max_effective_chunks == 0 ==> r == Err::<Self, _>(
                SpatialDemandError::ZeroLimit { limit: DemandLimitKind::EffectiveChunks },
            ),
            r is Ok <==> (max_sources != 0 && max_contributions_per_source != 0
                && max_total_contributions != 0 && max_effective_chunks != 0),
            r matches Ok(l) ==> l.spec_max_sources() == max_sources
                && l.spec_max_contributions_per_source() == max_contributions_per_source
                && l.spec_max_total_contributions() == max_total_contributions
                && l.spec_max_effective_chunks() == max_effective_chunks,
    {
        if max_sources == 0 {
            return Err(SpatialDemandError::ZeroLimit { limit: DemandLimitKind::Sources });
        }
        if max_contributions_per_source == 0 {
            return Err(
                SpatialDemandError::ZeroLimit { limit: DemandLimitKind::ContributionsPerSource },
            );
        }
        if max_total_contributions == 0 {
            return Err(SpatialDemandError::ZeroLimit { limit: DemandLimitKind::TotalContributions });
        }
        if max_effective_chunks == 0 {
            return Err(SpatialDemandError::ZeroLimit { limit: DemandLimitKind::EffectiveChunks });
        }
        Ok(DemandLimits {
            max_sources,
            max_contributions_per_source,
            max_total_contributions,
            max_effective_chunks,
        })
    }

    /// Most sources the planner holds at once.
    pub fn max_sources(&self) -> (r: u32)
        ensures
            r == self.spec_max_sources(),
    {
        self.max_sources
    }

    /// Most chunks one source may contribute.
    pub fn max_contributions_per_source(&self) -> (r: u32)
        ensures
            r == self.spec_max_contributions_per_source(),
    {
        self.max_contributions_per_source
    }

    /// Most chunk contributions of all sources together.
    pub fn max_total_contributions(&self) -> (r: u32)
        ensures
            r == self.spec_max_total_contributions(),
    {
        self.max_total_contributions
    }

    /// Most chunks in the effective demand.
    pub fn max_effective_chunks(&self) -> (r: u32)
        ensures
            r == self.spec_max_effective_chunks(),
    {
        self.max_effective_chunks
    }
}

impl Default for DemandLimits {
    /// 64 sources, 16 384 contributions per source, 262 144 in total and
    /// 65 536 effective chunks.
    fn default() -> (r: Self)
        ensures
            r.spec_max_sources() == 64,
            r.spec_max_contributions_per_source() == 16_384,
            r.spec_max_total_contributions() == 262_144,
            r.spec_max_effective_chunks() == 65_536,
    {
        DemandLimits {
            max_sources: 64,
            max_contributions_per_source: 16_384,
            max_total_contributions: 262_144,
            max_effective_chunks: 65_536,
        }
    }
}

} // verus!
