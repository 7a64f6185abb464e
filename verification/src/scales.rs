//! Scales map domain values (categories or numbers) onto pixel
//! coordinates. Two concrete scales exist: `ScaleBand` for categorical
//! data and `ScaleLinear` for continuous data.

use vstd::prelude::*;

pub mod band;
pub mod linear;

verus! {

/// The kind of a scale.
#[derive(Copy, Clone, Debug, PartialEq, Eq, Structural)]
pub enum ScaleType {
    Band,
    Ordinal,
    Linear,
}

/// Failure when querying a scale.
#[derive(Copy, Clone, Debug, PartialEq, Eq, Structural)]
pub enum ScaleError {
    /// A band scale was asked for a category that is not in its domain.
    UnknownCategory,
    /// A value is too large or too finely grained for the scale's exact
    /// arithmetic.
    ValueOutOfRange,
}

impl ScaleError {
    /// A human-readable description of the failure.
    pub fn message(&self) -> String {
        match self {
            ScaleError::UnknownCategory => "the category is not part of the scale's domain".to_owned(),
            ScaleError::ValueOutOfRange => "the value is outside the scale's exact range".to_owned(),
        }
    }
}

/// A reference to either kind of scale, for components that accept both.
pub enum AnyScale<'a> {
    Band(&'a band::ScaleBand),
    Linear(&'a linear::ScaleLinear),
}

} // verus!
