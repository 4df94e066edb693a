//! Measured quantities as whole numbers.

use vstd::prelude::*;

verus! {

/// A measured quantity: a whole number of thousandths of its unit (of
/// metres, for an elevation), or the mark that the instrument gave
/// something that is not a finite number.
#[derive(Clone, Copy, Debug, PartialEq, Eq, Structural)]
pub enum Reading {
    /// A finite measurement.
    Finite(i32),
    /// A measurement that is infinite or not a number.
    NotFinite,
}

impl Reading {
    /// The measured number. Meaningful for finite readings only.
    pub open spec fn value(self) -> int {
        match self {
            Reading::Finite(v) => v as int,
            Reading::NotFinite => 0,
        }
    }

    /// Whether the reading is a finite number.
    pub fn is_valid(&self) -> (valid: bool)
        ensures
            valid == (*self is Finite),
    {
        match self {
            Reading::Finite(_) => true,
            Reading::NotFinite => false,
        }
    }
}

} // verus!
