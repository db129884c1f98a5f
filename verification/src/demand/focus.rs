//! The focus of one demand source: a center chunk and two boxes around it.

use vstd::prelude::*;
use crate::ids::ChunkId;
use crate::demand::error::SpatialDemandError;
use crate::demand::identity::DemandAxis;

verus! {

/// A center chunk with a desired box and a larger-or-equal retain box.
///
/// Chunks inside the desired box are demanded; chunks that were demanded
/// before stay demanded (retained) while they remain inside the retain box.
/// The horizontal radii apply to `x` and `z`, the vertical radii to `y`.
#[derive(Debug, Copy, Clone, PartialEq, Eq, Structural)]
pub struct DemandFocus {
    center: ChunkId,
    horizontal_desired_radius: u32,
    horizontal_retain_radius: u32,
    vertical_desired_radius: u32,
    vertical_retain_radius: u32,
}

impl DemandFocus {
    /// The center chunk.
    pub closed spec fn spec_center(self) -> ChunkId {
        self.center
    }

    /// Horizontal radius of the desired box.
    pub closed spec fn spec_hd(self) -> u32 {
        self.horizontal_desired_radius
    }

    /// Horizontal radius of the retain box.
    pub closed spec fn spec_hr(self) -> u32 {
        self.horizontal_retain_radius
    }

    /// Vertical radius of the desired box.
    pub closed spec fn spec_vd(self) -> u32 {
        self.vertical_desired_radius
    }

    /// Vertical radius of the retain box.
    pub closed spec fn spec_vr(self) -> u32 {
        self.vertical_retain_radius
    }

    /// Builds a focus; a retain radius below its desired radius is rejected,
    /// the horizontal axis first.
    pub fn try_new(
        center: ChunkId,
        horizontal_desired_radius: u32,
        horizontal_retain_radius: u32,
        vertical_desired_radius: u32,
        vertical_retain_radius: u32,
    ) -> (r: Result<Self, SpatialDemandError>)
        ensures
            horizontal_retain_radius < horizontal_desired_radius ==> r == Err::<Self, _>(
                SpatialDemandError::RetainRadiusBelowDesired {
                    axis: DemandAxis::Horizontal,
                    desired: horizontal_desired_radius,
                    retain: horizontal_retain_radius,
                },
            ),
            horizontal_retain_radius >= horizontal_desired_radius && vertical_retain_radius
                < vertical_desired_radius ==> r == Err::<Self, _>(
                SpatialDemandError::RetainRadiusBelowDesired {
                    axis: DemandAxis::Vertical,
                    desired: vertical_desired_radius,
                    retain: vertical_retain_radius,
                },
            ),
            r is Ok <==> (horizontal_retain_radius >= horizontal_desired_radius
                && vertical_retain_radius >= vertical_desired_radius),
            r matches Ok(f) ==> f.spec_center() == center && f.spec_hd()
                == horizontal_desired_radius && f.spec_hr() == horizontal_retain_radius
                && f.spec_vd() == vertical_desired_radius && f.spec_vr()
                == vertical_retain_radius,
    {
        if horizontal_retain_radius < horizontal_desired_radius {
            return Err(
                SpatialDemandError::RetainRadiusBelowDesired {
                    axis: DemandAxis::Horizontal,
                    desired: horizontal_desired_radius,
                    retain: horizontal_retain_radius,
                },
            );
        }
        if vertical_retain_radius < vertical_desired_radius {
            return Err(
                SpatialDemandError::RetainRadiusBelowDesired {
                    axis: DemandAxis::Vertical,
                    desired: vertical_desired_radius,
                    retain: vertical_retain_radius,
                },
            );
        }
        Ok(
            DemandFocus {
                center,
                horizontal_desired_radius,
                horizontal_retain_radius,
                vertical_desired_radius,
                vertical_retain_radius,
            },
        )
    }

    /// The center chunk.
    pub fn center(&self) -> (r: ChunkId)
        ensures
            r == self.spec_center(),
    {
        self.center
    }

    /// Horizontal radius of the desired box.
    pub fn horizontal_desired_radius(&self) -> (r: u32)
        ensures
            r == self.spec_hd(),
    {
        self.horizontal_desired_radius
    }

    /// Horizontal radius of the retain box.
    pub fn horizontal_retain_radius(&self) -> (r: u32)
        ensures
            r == self.spec_hr(),
    {
        self.horizontal_retain_radius
    }

    /// Vertical radius of the desired box.
    pub fn vertical_desired_radius(&self) -> (r: u32)
        ensures
            r == self.spec_vd(),
    {
        self.vertical_desired_radius
    }

    /// Vertical radius of the retain box.
    pub fn vertical_retain_radius(&self) -> (r: u32)
        ensures
            r == self.spec_vr(),
    {
        self.vertical_retain_radius
    }
}

} // verus!
