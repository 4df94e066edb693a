//! Checks that compare each observation with the observations around it.

pub mod buddy_check;
pub mod sct;

pub use crate::cache::{buddy_check_cache, sct_cache};
pub use buddy_check::{buddy_check, BuddyCheckArgs};
pub use sct::{sct, SctArgs, SctBox, SctOutput, SctRun, Score};
