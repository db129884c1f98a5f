//! Errors of the spatial primitives.

use vstd::prelude::*;
use crate::ids::WorldId;
use crate::render::{push_str, push_quoted, push_decimal, decimal};

verus! {

/// Why a spatial computation or configuration was rejected.
#[derive(Debug, Copy, Clone, PartialEq, Eq)]
pub enum SpatialMathError {
    NonFiniteValue { field: &'static str },
    NonPositiveValue { field: &'static str },
    ZeroDimension { axis: u8 },
    EvenWindowDimension { axis: u8 },
    ScaleFactorTooSmall { scale_factor: u32 },
    LevelCountZero,
    LevelOutOfRange { level: u8, level_count: u8 },
    CoordinateOutOfRange { operation: &'static str },
    PrecisionLoss { operation: &'static str },
    ArithmeticOverflow { operation: &'static str },
    WorldMismatch { expected: WorldId, actual: WorldId },
    LocalPositionOutOfRange { axis: u8 },
}

impl SpatialMathError {
    /// A human-readable description: the prefix `spatial math error: `
    /// and the error written as `{:?}` writes it (string fields between
    /// double quotes as they are).
    pub fn describe(&self) -> (r: String)
        ensures
            r@ == "spatial math error: "@ + math_error_text(*self),
    {
        let mut s = String::new();
        push_str(&mut s, "spatial math error: ");
        push_math_error(&mut s, self);
        proof {
            assert(s@ =~= "spatial math error: "@ + math_error_text(*self));
        }
        s
    }
}

/// The error as `{:?}` writes it.
pub open spec fn math_error_text(e: SpatialMathError) -> Seq<char> {
    match e {
        SpatialMathError::NonFiniteValue { field } => "NonFiniteValue { field: "@ + seq!['"'] + field@ + seq!['"'] + " }"@,
        SpatialMathError::NonPositiveValue { field } => "NonPositiveValue { field: "@ + seq!['"'] + field@ + seq!['"'] + " }"@,
        SpatialMathError::ZeroDimension { axis } => "ZeroDimension { axis: "@ + decimal(axis as nat) + " }"@,
        SpatialMathError::EvenWindowDimension { axis } => "EvenWindowDimension { axis: "@ + decimal(axis as nat) + " }"@,
        SpatialMathError::ScaleFactorTooSmall { scale_factor } => "ScaleFactorTooSmall { scale_factor: "@
            + decimal(scale_factor as nat) + " }"@,
        SpatialMathError::LevelCountZero => "LevelCountZero"@,
        SpatialMathError::LevelOutOfRange { level, level_count } => "LevelOutOfRange { level: "@
            + decimal(level as nat) + ", level_count: "@ + decimal(level_count as nat) + " }"@,
        SpatialMathError::CoordinateOutOfRange { operation } => "CoordinateOutOfRange { operation: "@ + seq!['"'] + operation@ + seq!['"'] + " }"@,
        SpatialMathError::PrecisionLoss { operation } => "PrecisionLoss { operation: "@ + seq!['"'] + operation@ + seq!['"'] + " }"@,
        SpatialMathError::ArithmeticOverflow { operation } => "ArithmeticOverflow { operation: "@ + seq!['"'] + operation@ + seq!['"'] + " }"@,
        SpatialMathError::WorldMismatch { expected, actual } => "WorldMismatch { expected: WorldId("@
            + decimal(expected.0 as nat) + "), actual: WorldId("@ + decimal(actual.0 as nat) + ") }"@,
        SpatialMathError::LocalPositionOutOfRange { axis } => "LocalPositionOutOfRange { axis: "@ + decimal(axis as nat) + " }"@,
    }
}

/// Appends the error as `{:?}` writes it.
pub fn push_math_error(s: &mut String, e: &SpatialMathError)
    ensures
        final(s)@ == old(s)@ + math_error_text(*e),
{
    match e {
        SpatialMathError::NonFiniteValue { field } => {
            push_str(s, "NonFiniteValue { field: ");
            push_quoted(s, field);
            push_str(s, " }");
        },
        SpatialMathError::NonPositiveValue { field } => {
            push_str(s, "NonPositiveValue { field: ");
            push_quoted(s, field);
            push_str(s, " }");
        },
        SpatialMathError::ZeroDimension { axis } => {
            push_str(s, "ZeroDimension { axis: ");
            push_decimal(s, *axis as u64);
            push_str(s, " }");
        },
        SpatialMathError::EvenWindowDimension { axis } => {
            push_str(s, "EvenWindowDimension { axis: ");
            push_decimal(s, *axis as u64);
            push_str(s, " }");
        },
        SpatialMathError::ScaleFactorTooSmall { scale_factor } => {
            push_str(s, "ScaleFactorTooSmall { scale_factor: ");
            push_decimal(s, *scale_factor as u64);
            push_str(s, " }");
        },
        SpatialMathError::LevelCountZero => {
            push_str(s, "LevelCountZero");
        },
        SpatialMathError::LevelOutOfRange { level, level_count } => {
            push_str(s, "LevelOutOfRange { level: ");
            push_decimal(s, *level as u64);
            push_str(s, ", level_count: ");
            push_decimal(s, *level_count as u64);
            push_str(s, " }");
        },
        SpatialMathError::CoordinateOutOfRange { operation } => {
            push_str(s, "CoordinateOutOfRange { operation: ");
            push_quoted(s, operation);
            push_str(s, " }");
        },
        SpatialMathError::PrecisionLoss { operation } => {
            push_str(s, "PrecisionLoss { operation: ");
            push_quoted(s, operation);
            push_str(s, " }");
        },
        SpatialMathError::ArithmeticOverflow { operation } => {
            push_str(s, "ArithmeticOverflow { operation: ");
            push_quoted(s, operation);
            push_str(s, " }");
        },
        SpatialMathError::WorldMismatch { expected, actual } => {
            push_str(s, "WorldMismatch { expected: WorldId(");
            push_decimal(s, expected.0 as u64);
            push_str(s, "), actual: WorldId(");
            push_decimal(s, actual.0 as u64);
            push_str(s, ") }");
        },
        SpatialMathError::LocalPositionOutOfRange { axis } => {
            push_str(s, "LocalPositionOutOfRange { axis: ");
            push_decimal(s, *axis as u64);
            push_str(s, " }");
        },
    }
    proof {
        assert(s@ =~= old(s)@ + math_error_text(*e));
    }
}

} // verus!
