//! Checks of single observations against fixed limits. Values are whole
//! numbers of thousandths; a reading that is no finite number is neither
//! greater nor less than any limit and equals nothing.

pub use crate::cache::{
    range_check_cache, range_check_humidity_cache, range_check_wind_direction_cache,
    special_values_check_cache,
};
use crate::flag::Flag;
use crate::reading::Reading;
use vstd::prelude::*;

verus! {

/// The least humidity that passes, 5 per cent.
pub const HUMIDITY_MIN: i32 = 5_000;

/// The humidity from which on a value fails, 105 per cent.
pub const HUMIDITY_MAX: i32 = 105_000;

/// Saturation, 100 per cent: values above it are set back to it.
pub const HUMIDITY_FULL: i32 = 100_000;

/// A full turn, 360 degrees.
pub const FULL_TURN: i32 = 360_000;

/// How far beyond a full turn, or below none, a direction may lie and still
/// be set right: 20 degrees.
pub const TURN_SLACK: i32 = 20_000;

/// The verdict of the range check: missing data if the value is absent, a
/// failure if it lies above the upper or below the lower limit.
pub open spec fn range_flag(datum: Option<Reading>, lower_limit: int, upper_limit: int) -> Flag {
    match datum {
        None => Flag::DataMissing,
        Some(Reading::Finite(v)) => if v > upper_limit || v < lower_limit {
            Flag::Fail
        } else {
            Flag::Pass
        },
        Some(Reading::NotFinite) => Flag::Pass,
    }
}

/// Checks whether an observation lies between two limits.
pub fn range_check(datum: Option<Reading>, lower_limit: i32, upper_limit: i32) -> (flag: Flag)
    ensures
        flag == range_flag(datum, lower_limit as int, upper_limit as int),
{
    match datum {
        None => Flag::DataMissing,
        Some(Reading::Finite(v)) => {
            if v > upper_limit || v < lower_limit {
                return Flag::Fail;
            }
            Flag::Pass
        },
        Some(Reading::NotFinite) => Flag::Pass,
    }
}

/// The verdict of the range check for relative humidity, and the value that
/// is to stand for the observation where the check sets it right: a value
/// below 5 or from 105 per cent on fails; a value above 100 per cent is set
/// back to 100 per cent with a warning.
pub open spec fn humidity_verdict(datum: Option<Reading>) -> (Flag, Option<Reading>) {
    match datum {
        None => (Flag::DataMissing, None),
        Some(Reading::Finite(v)) => if !(HUMIDITY_MIN <= v < HUMIDITY_MAX) {
            (Flag::Fail, None)
        } else if v > HUMIDITY_FULL {
            (Flag::Warn, Some(Reading::Finite(HUMIDITY_FULL)))
        } else {
            (Flag::Pass, None)
        },
        Some(Reading::NotFinite) => (Flag::Fail, None),
    }
}

/// Range check with a correction for relative humidity just above
/// saturation.
pub fn range_check_humidity(datum: Option<Reading>) -> (verdict: (Flag, Option<Reading>))
    ensures
        verdict == humidity_verdict(datum),
{
    match datum {
        None => (Flag::DataMissing, None),
        Some(Reading::Finite(v)) => {
            if v < HUMIDITY_MIN || v >= HUMIDITY_MAX {
                return (Flag::Fail, None);
            } else if v > HUMIDITY_FULL {
                return (Flag::Warn, Some(Reading::Finite(HUMIDITY_FULL)));
            }
            (Flag::Pass, None)
        },
        Some(Reading::NotFinite) => (Flag::Fail, None),
    }
}

/// The verdict of the range check for wind direction, and the value that is
/// to stand for the observation where the check sets it right: a direction
/// more than 20 degrees below none or beyond a full turn fails; any other
/// direction below none or from a full turn on is brought back by a full
/// turn with a warning.
pub open spec fn wind_direction_verdict(datum: Option<Reading>) -> (Flag, Option<Reading>) {
    match datum {
        None => (Flag::DataMissing, None),
        Some(Reading::Finite(v)) => if !(-TURN_SLACK <= v <= FULL_TURN + TURN_SLACK) {
            (Flag::Fail, None)
        } else if v < 0 {
            (Flag::Warn, Some(Reading::Finite((v + FULL_TURN) as i32)))
        } else if v >= FULL_TURN {
            (Flag::Warn, Some(Reading::Finite((v - FULL_TURN) as i32)))
        } else {
            (Flag::Pass, None)
        },
        Some(Reading::NotFinite) => (Flag::Fail, None),
    }
}

/// Range check with a correction for wind direction outside 0-360.
pub fn range_check_wind_direction(datum: Option<Reading>) -> (verdict: (Flag, Option<Reading>))
    ensures
        verdict == wind_direction_verdict(datum),
{
    match datum {
        None => (Flag::DataMissing, None),
        Some(Reading::Finite(v)) => {
            if v < -TURN_SLACK || v > FULL_TURN + TURN_SLACK {
                return (Flag::Fail, None);
            } else if v < 0 {
                return (Flag::Warn, Some(Reading::Finite(v + FULL_TURN)));
            } else if v >= FULL_TURN {
                return (Flag::Warn, Some(Reading::Finite(v - FULL_TURN)));
            }
            (Flag::Pass, None)
        },
        Some(Reading::NotFinite) => (Flag::Fail, None),
    }
}

/// The verdict of the check for special values: missing data if the value
/// is absent, a failure if it is one of the special values.
pub open spec fn special_values_flag(datum: Option<Reading>, special_values: Seq<Reading>) -> Flag {
    match datum {
        None => Flag::DataMissing,
        Some(Reading::Finite(v)) => if exists|k: int|
            0 <= k < special_values.len() && special_values[k] == Reading::Finite(v) {
            Flag::Fail
        } else {
            Flag::Pass
        },
        Some(Reading::NotFinite) => Flag::Pass,
    }
}

/// Checks whether an observation matches one of some special values.
pub fn special_values_check(datum: Option<Reading>, special_values: &[Reading]) -> (flag: Flag)
    ensures
        flag == special_values_flag(datum, special_values@),
{
    match datum {
        None => Flag::DataMissing,
        Some(Reading::Finite(v)) => {
            let mut k: usize = 0;
            while k < special_values.len()
                invariant
                    k <= special_values@.len(),
                    datum == Some(Reading::Finite(v)),
                    forall|m: int| 0 <= m < k ==> special_values@[m] != Reading::Finite(v),
                decreases special_values@.len() - k,
            {
                if let Reading::Finite(special) = special_values[k] {
                    if special == v {
                        assert(special_values@[k as int] == Reading::Finite(v));
                        return Flag::Fail;
                    }
                }
                k += 1;
            }
            Flag::Pass
        },
        Some(Reading::NotFinite) => Flag::Pass,
    }
}

} // verus!
