//! The outcome of a check for one observation.

use vstd::prelude::*;

verus! {

/// Outcome of a quality-control test for one observation.
#[derive(Clone, Copy, Debug, PartialEq, Eq, Structural)]
#[non_exhaustive]
pub enum Flag {
    /// The observation passed the test.
    Pass,
    /// The observation failed the test.
    Fail,
    /// The observation did not fail, but lies inside a warning threshold.
    Warn,
    /// The test could not reach a conclusion.
    Inconclusive,
    /// The input was invalid, so the observation could not be tested.
    Invalid,
    /// Data that the test needs was missing.
    DataMissing,
    /// Too few neighbours lie within the search radius.
    Isolated,
}

} // verus!
