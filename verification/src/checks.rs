//! The checks, by the kind of data that they work on.

/// Checks of consistency between observations of different kinds.
pub mod consistency;
/// Checks of the observations of one station over time.
pub mod series;
/// Checks of single observations.
pub mod single;
/// Checks of the observations of many stations at one time.
pub mod spatial;
