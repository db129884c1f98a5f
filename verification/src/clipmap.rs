//! Clipmaps: nested levels of cells, each level `scale` times coarser than
//! the one below, and an odd-sized window of cells around a center cell.

use vstd::prelude::*;
use crate::ids::i64_fits;
use crate::error::SpatialMathError;

verus! {

/// A level of a clipmap; 0 is the finest.
#[derive(Debug, Copy, Clone, PartialEq, Eq, Structural, PartialOrd, Ord, Hash, Default)]
pub struct ClipmapLevel(pub u8);

/// Integer coordinate of one clipmap cell within its level.
#[derive(Debug, Copy, Clone, PartialEq, Eq, Structural, PartialOrd, Ord, Hash, Default)]
pub struct ClipmapCoord3 {
    pub x: i64,
    pub y: i64,
    pub z: i64,
}

/// The cells of one level around a center: `min` and `max` are inclusive.
#[derive(Debug, Copy, Clone, PartialEq, Eq, Structural)]
pub struct ClipmapWindow {
    pub level: ClipmapLevel,
    pub center: ClipmapCoord3,
    pub min: ClipmapCoord3,
    pub max: ClipmapCoord3,
}

/// The integer part of a clipmap's configuration: its level count, the
/// scale factor between levels, and the window size (cells along each axis,
/// each odd, so that the window has a center cell).
#[derive(Debug, Copy, Clone, PartialEq, Eq)]
pub struct ClipmapConfig {
    level_count: u8,
    level_scale_factor: u32,
    window_dims: [u32; 3],
}

/// The first rejected window dimension, axis by axis: zero, then even.
pub open spec fn window_dims_error(d: Seq<u32>) -> Option<SpatialMathError> {
    if d[0] == 0 {
        Some(SpatialMathError::ZeroDimension { axis: 0 })
    } else if d[0] % 2 == 0 {
        Some(SpatialMathError::EvenWindowDimension { axis: 0 })
    } else if d[1] == 0 {
        Some(SpatialMathError::ZeroDimension { axis: 1 })
    } else if d[1] % 2 == 0 {
        Some(SpatialMathError::EvenWindowDimension { axis: 1 })
    } else if d[2] == 0 {
        Some(SpatialMathError::ZeroDimension { axis: 2 })
    } else if d[2] % 2 == 0 {
        Some(SpatialMathError::EvenWindowDimension { axis: 2 })
    } else {
        None
    }
}

/// The first rejected setting of a clipmap: the level count, the scale
/// factor, then the window dimensions.
pub open spec fn clipmap_config_error(level_count: u8, scale: u32, d: Seq<u32>) -> Option<SpatialMathError> {
    if level_count == 0 {
        Some(SpatialMathError::LevelCountZero)
    } else if scale < 2 {
        Some(SpatialMathError::ScaleFactorTooSmall { scale_factor: scale })
    } else {
        window_dims_error(d)
    }
}

fn window_dims_check(d: [u32; 3]) -> (r: Option<SpatialMathError>)
    ensures
        r == window_dims_error(d@),
{
    if d[0] == 0 {
        Some(SpatialMathError::ZeroDimension { axis: 0 })
    } else if d[0] % 2 == 0 {
        Some(SpatialMathError::EvenWindowDimension { axis: 0 })
    } else if d[1] == 0 {
        Some(SpatialMathError::ZeroDimension { axis: 1 })
    } else if d[1] % 2 == 0 {
        Some(SpatialMathError::EvenWindowDimension { axis: 1 })
    } else if d[2] == 0 {
        Some(SpatialMathError::ZeroDimension { axis: 2 })
    } else if d[2] % 2 == 0 {
        Some(SpatialMathError::EvenWindowDimension { axis: 2 })
    } else {
        None
    }
}

impl ClipmapConfig {
    /// Number of levels.
    pub closed spec fn spec_level_count(self) -> u8 {
        self.level_count
    }

    /// Cells of one level per cell of the next, along each axis.
    pub closed spec fn spec_level_scale_factor(self) -> u32 {
        self.level_scale_factor
    }

    /// Window cells along each axis.
    pub closed spec fn spec_window_dims(self) -> Seq<u32> {
        self.window_dims@
    }

    /// The configuration's invariant.
    pub open spec fn wf(self) -> bool {
        &&& self.spec_window_dims().len() == 3
        &&& clipmap_config_error(self.spec_level_count(), self.spec_level_scale_factor(), self.spec_window_dims()) is None
    }

    /// Builds a configuration; the first invalid setting is rejected.
    pub fn try_new(level_count: u8, level_scale_factor: u32, window_dims: [u32; 3]) -> (r: Result<Self, SpatialMathError>)
        ensures
            match clipmap_config_error(level_count, level_scale_factor, window_dims@) {
                Some(e) => r == Err::<Self, SpatialMathError>(e),
                None => r matches Ok(c) && c.wf() && c.spec_level_count() == level_count
                    && c.spec_level_scale_factor() == level_scale_factor
                    && c.spec_window_dims() == window_dims@,
            },
    {
        if level_count == 0 {
            return Err(SpatialMathError::LevelCountZero);
        }
        if level_scale_factor < 2 {
            return Err(SpatialMathError::ScaleFactorTooSmall { scale_factor: level_scale_factor });
        }
        match window_dims_check(window_dims) {
            Some(e) => Err(e),
            None => Ok(ClipmapConfig { level_count, level_scale_factor, window_dims }),
        }
    }

    /// Number of levels.
    pub fn level_count(&self) -> (r: u8)
        ensures
            r == self.spec_level_count(),
    {
        self.level_count
    }

    /// Cells of one level per cell of the next, along each axis.
    pub fn level_scale_factor(&self) -> (r: u32)
        ensures
            r == self.spec_level_scale_factor(),
    {
        self.level_scale_factor
    }

    /// Window cells along each axis.
    pub fn window_dims(&self) -> (r: [u32; 3])
        ensures
            r@ == self.spec_window_dims(),
    {
        self.window_dims
    }

    /// Accepts a level below the level count.
    pub fn validate_level(&self, level: ClipmapLevel) -> (r: Result<(), SpatialMathError>)
        ensures
            r is Ok <==> level.0 < self.spec_level_count(),
            r is Err ==> r == Err::<(), _>(SpatialMathError::LevelOutOfRange {
                level: level.0,
                level_count: self.spec_level_count(),
            }),
    {
        if level.0 >= self.level_count {
            Err(SpatialMathError::LevelOutOfRange { level: level.0, level_count: self.level_count })
        } else {
            Ok(())
        }
    }
}

impl Default for ClipmapConfig {
    /// Four levels, scale factor 2, a window of 17 × 5 × 17 cells.
    fn default() -> (r: Self)
        ensures
            r.wf(),
            r.spec_level_count() == 4,
            r.spec_level_scale_factor() == 2,
            r.spec_window_dims() == seq![17u32, 5u32, 17u32],
    {
        let r = ClipmapConfig { level_count: 4, level_scale_factor: 2, window_dims: [17, 5, 17] };
        assert(r.window_dims@ =~= seq![17u32, 5u32, 17u32]);
        r
    }
}

/// Half the window, rounding down, along axis `k`.
pub open spec fn half_window(config: ClipmapConfig, k: int) -> int {
    (config.spec_window_dims()[k] / 2) as int
}

/// The window of `level` centered on `center`: `center ± half` on each axis.
pub open spec fn window_of(config: ClipmapConfig, level: ClipmapLevel, center: ClipmapCoord3) -> ClipmapWindow {
    ClipmapWindow {
        level,
        center,
        min: ClipmapCoord3 {
            x: (center.x - half_window(config, 0)) as i64,
            y: (center.y - half_window(config, 1)) as i64,
            z: (center.z - half_window(config, 2)) as i64,
        },
        max: ClipmapCoord3 {
            x: (center.x + half_window(config, 0)) as i64,
            y: (center.y + half_window(config, 1)) as i64,
            z: (center.z + half_window(config, 2)) as i64,
        },
    }
}

/// Whether the window's minimum corner fits the `i64` range.
pub open spec fn window_min_fits(config: ClipmapConfig, center: ClipmapCoord3) -> bool {
    i64_fits(center.x - half_window(config, 0)) && i64_fits(center.y - half_window(config, 1))
        && i64_fits(center.z - half_window(config, 2))
}

/// Whether the window's maximum corner fits the `i64` range.
pub open spec fn window_max_fits(config: ClipmapConfig, center: ClipmapCoord3) -> bool {
    i64_fits(center.x + half_window(config, 0)) && i64_fits(center.y + half_window(config, 1))
        && i64_fits(center.z + half_window(config, 2))
}

/// The window of cells of `level` around `center`. A level out of range is
/// rejected, then a minimum corner, then a maximum corner outside the `i64`
/// range.
pub fn window_for_center(config: &ClipmapConfig, level: ClipmapLevel, center: ClipmapCoord3) -> (r: Result<ClipmapWindow, SpatialMathError>)
    requires
        config.wf(),
    ensures
        level.0 >= config.spec_level_count() ==> r == Err::<ClipmapWindow, _>(
            SpatialMathError::LevelOutOfRange { level: level.0, level_count: config.spec_level_count() },
        ),
        level.0 < config.spec_level_count() && !window_min_fits(*config, center) ==> r == Err::<ClipmapWindow, _>(
            SpatialMathError::ArithmeticOverflow { operation: "clipmap window minimum" },
        ),
        level.0 < config.spec_level_count() && window_min_fits(*config, center) && !window_max_fits(*config, center)
            ==> r == Err::<ClipmapWindow, _>(
            SpatialMathError::ArithmeticOverflow { operation: "clipmap window maximum" },
        ),
        level.0 < config.spec_level_count() && window_min_fits(*config, center) && window_max_fits(*config, center)
            ==> r == Ok::<_, SpatialMathError>(window_of(*config, level, center)),
{
    config.validate_level(level)?;
    let dims = config.window_dims();
    let hx = (dims[0] / 2) as i64;
    let hy = (dims[1] / 2) as i64;
    let hz = (dims[2] / 2) as i64;
    let overflow_min = SpatialMathError::ArithmeticOverflow { operation: "clipmap window minimum" };
    let overflow_max = SpatialMathError::ArithmeticOverflow { operation: "clipmap window maximum" };
    let min_x = match center.x.checked_sub(hx) {
        Some(v) => v,
        None => return Err(overflow_min),
    };
    let min_y = match center.y.checked_sub(hy) {
        Some(v) => v,
        None => return Err(overflow_min),
    };
    let min_z = match center.z.checked_sub(hz) {
        Some(v) => v,
        None => return Err(overflow_min),
    };
    let max_x = match center.x.checked_add(hx) {
        Some(v) => v,
        None => return Err(overflow_max),
    };
    let max_y = match center.y.checked_add(hy) {
        Some(v) => v,
        None => return Err(overflow_max),
    };
    let max_z = match center.z.checked_add(hz) {
        Some(v) => v,
        None => return Err(overflow_max),
    };
    Ok(ClipmapWindow {
        level,
        center,
        min: ClipmapCoord3 { x: min_x, y: min_y, z: min_z },
        max: ClipmapCoord3 { x: max_x, y: max_y, z: max_z },
    })
}

/// A window is centered on its center and spans the configured number of
/// cells along each axis.
pub proof fn lemma_window_is_centered(config: ClipmapConfig, level: ClipmapLevel, center: ClipmapCoord3)
    requires
        config.wf(),
        window_min_fits(config, center),
        window_max_fits(config, center),
    ensures
        ({
            let w = window_of(config, level, center);
            &&& w.max.x - w.min.x + 1 == config.spec_window_dims()[0]
            &&& w.max.y - w.min.y + 1 == config.spec_window_dims()[1]
            &&& w.max.z - w.min.z + 1 == config.spec_window_dims()[2]
            &&& w.center.x - w.min.x == w.max.x - w.center.x
            &&& w.center.y - w.min.y == w.max.y - w.center.y
            &&& w.center.z - w.min.z == w.max.z - w.center.z
        }),
{
}

} // verus!
