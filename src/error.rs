//! Failures of a calibration run.
use vstd::prelude::*;

verus! {

/// Why a run could not produce a best candidate.
#[derive(Debug, Clone, Copy, PartialEq, Eq, Structural)]
pub enum GaError {
    /// The bounds or population size do not describe a run that can start.
    InvalidConfiguration,
    /// Every candidate was dropped, so there is nothing to rank.
    EmptyPopulation,
    /// The run log could not be written.
    IoFailure,
}

} // verus!
