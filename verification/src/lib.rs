//! Spatial quality control of meteorological observations.
//!
//! The checks flag the observations of a network of stations that do not
//! agree with the observations around them: the buddy check by the spread
//! of the values nearby, the spatial consistency test by an analysis of the
//! surroundings of each station.
//!
//! All decisions are taken in exact integer arithmetic. Observed values are
//! whole numbers of thousandths of their unit. Positions are Cartesian
//! coordinates in whole metres, and elevations, radii and distances are
//! whole metres too. Thresholds are given in thousandths and gradients in
//! millionths; the scores of the spatial consistency test and their limits
//! are whole numbers of a unit of the caller's choice.

pub mod arith;
pub mod cache;
pub mod checks;
pub mod error;
pub mod flag;
pub mod order;
pub mod reading;
pub mod spatial_tree;
pub mod stats;
pub mod sums;
pub mod util;

pub use cache::DataCache;
pub use checks::series::{freeze_check, SeriesCache};
pub use checks::spatial::{
    buddy_check, sct, BuddyCheckArgs, SctArgs, SctBox, SctOutput, SctRun, Score,
};
pub use error::{Error, QcError};
pub use flag::Flag;
pub use reading::Reading;
pub use spatial_tree::{Point, SpatialTree};
pub use stats::{compute_quantile, compute_vertical_profile_theil_sen};
pub use util::{subset, SingleOrVec, Timestamp};
