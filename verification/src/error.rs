//! The errors that building and querying a simulation can give.

use vstd::prelude::*;
use vstd::std_specs::convert::FromSpecImpl;

verus! {

/// Why a value could not be sampled.
#[derive(Debug, Clone, Copy, PartialEq, Eq, Structural)]
pub enum SamplingError {
    /// No entity ever carried the component that was asked for.
    ComponentDoesNotExist,
    /// Exactly one entity with the component was expected, and there is none.
    SingleNoEntities,
    /// Exactly one entity with the component was expected, and there are several.
    SingleMultipleEntities,
    /// An aggregate was asked for over no entities at all.
    AggregateNoEntities,
    /// The time series that was asked for has not been set up for recording.
    TimeSeriesNotRecorded,
    /// No entity bears the identifier that was asked for.
    EntityIdentifierNotFound,
    /// More than one entity bears the identifier that was asked for.
    EntityIdentifierNotUnique,
}

/// Why a simulation could not be set up.
#[derive(Debug, Clone, Copy, PartialEq, Eq, Structural)]
pub enum BuilderError {
    /// A time series over the same component, selector and output is recorded already.
    TimeSeriesRecordingConflict,
    /// A time series was asked for with a sample interval of zero steps.
    InvalidSampleInterval,
}

/// Any error of this crate.
#[derive(Debug, Clone, Copy, PartialEq, Eq, Structural)]
pub enum SimulationError {
    Sampling(SamplingError),
    Builder(BuilderError),
}

impl From<SamplingError> for SimulationError {
    fn from(value: SamplingError) -> (e: Self) {
        SimulationError::Sampling(value)
    }
}

impl FromSpecImpl<SamplingError> for SimulationError {
    open spec fn obeys_from_spec() -> bool {
        true
    }

    open spec fn from_spec(value: SamplingError) -> Self {
        SimulationError::Sampling(value)
    }
}

impl From<BuilderError> for SimulationError {
    fn from(value: BuilderError) -> (e: Self) {
        SimulationError::Builder(value)
    }
}

impl FromSpecImpl<BuilderError> for SimulationError {
    open spec fn obeys_from_spec() -> bool {
        true
    }

    open spec fn from_spec(value: BuilderError) -> Self {
        SimulationError::Builder(value)
    }
}

} // verus!
