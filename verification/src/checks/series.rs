//! Checks of the observations of one station over time. Values are whole
//! numbers of thousandths; a reading that is no finite number is neither
//! greater nor less than anything and equals nothing.

pub use crate::cache::{flatline_check_cache, spike_check_cache, step_check_cache};
use crate::error::Error;
use crate::flag::Flag;
use crate::reading::Reading;
use vstd::prelude::*;

verus! {

/// One station's time series, with the context points that series checks
/// need before and after the observations under test.
#[derive(Debug, Clone)]
pub struct SeriesCache {
    /// The observations in chronological order; `None` marks a gap.
    pub values: Vec<Option<Reading>>,
    /// How many points at the start are context only.
    pub num_leading_points: u8,
    /// How many points at the end are context only.
    pub num_trailing_points: u8,
}

impl SeriesCache {
    /// Whether the context points leave room for the observations under
    /// test.
    pub open spec fn fits(self) -> bool {
        self.num_leading_points + self.num_trailing_points <= self.values@.len()
    }

    /// The observations under test.
    pub open spec fn tested(self) -> Seq<Option<Reading>> {
        self.values@.subrange(
            self.num_leading_points as int,
            self.values@.len() - self.num_trailing_points,
        )
    }

    /// Where the observations under test start and end.
    pub fn tested_range(&self) -> (range: (usize, usize))
        requires
            self.fits(),
        ensures
            range.0 == self.num_leading_points,
            range.1 == self.values@.len() - self.num_trailing_points,
            range.0 <= range.1 <= self.values@.len(),
    {
        (self.num_leading_points as usize, self.values.len() - self.num_trailing_points as usize)
    }
}

/// Whether two observations hold the same number. A reading that is not
/// finite equals nothing.
pub open spec fn same_number(a: Option<Reading>, b: Option<Reading>) -> bool {
    a matches Some(Reading::Finite(x)) && b matches Some(Reading::Finite(y)) && x == y
}

/// The verdict on one window of consecutive observations: missing data if
/// any is absent, a failure if all repeat the first, a pass otherwise.
pub open spec fn window_flag(window: Seq<Option<Reading>>) -> Flag {
    if exists|k: int| 0 <= k < window.len() && window[k] is None {
        Flag::DataMissing
    } else if forall|k: int| 0 <= k < window.len() ==> same_number(#[trigger] window[k], window[0]) {
        Flag::Fail
    } else {
        Flag::Pass
    }
}

/// Where the first window of `num_points` observations starts.
pub open spec fn freeze_start(data: SeriesCache, num_points: u8) -> int {
    data.num_leading_points - (num_points - 1)
}

/// Where the last window ends.
pub open spec fn freeze_end(data: SeriesCache) -> int {
    data.values@.len() - data.num_trailing_points
}

/// Whether the series has too little leading context for windows of
/// `num_points` observations.
pub open spec fn freeze_rejects(data: SeriesCache, num_points: u8) -> bool {
    data.num_leading_points < num_points - 1 || data.num_leading_points + 1 > data.values@.len()
}

/// The verdict on one window, read off the series in place.
fn judge_window(values: &Vec<Option<Reading>>, start: usize, len: usize) -> (flag: Flag)
    requires
        len >= 1,
        start + len <= values@.len(),
    ensures
        flag == window_flag(values@.subrange(start as int, start + len)),
{
    let ghost window = values@.subrange(start as int, start + len);
    let total: usize = values.len();
    let mut k: usize = 0;
    while k < len
        invariant
            k <= len,
            total == values@.len(),
            start + len <= values@.len(),
            window == values@.subrange(start as int, start + len),
            forall|j: int| 0 <= j < k ==> window[j] is Some,
        decreases len - k,
    {
        if values[start + k].is_none() {
            assert(window[k as int] is None);
            return Flag::DataMissing;
        }
        k += 1;
    }
    let base = match values[start] {
        Some(Reading::Finite(x)) => x,
        _ => {
            assert(!same_number(window[0], window[0]));
            return Flag::Pass;
        },
    };
    let mut k: usize = 0;
    while k < len
        invariant
            k <= len,
            total == values@.len(),
            start + len <= values@.len(),
            window == values@.subrange(start as int, start + len),
            window[0] == Some(Reading::Finite(base)),
            forall|j: int| 0 <= j < len ==> window[j] is Some,
            forall|j: int| 0 <= j < k ==> same_number(#[trigger] window[j], window[0]),
        decreases len - k,
    {
        let same = match values[start + k] {
            Some(Reading::Finite(x)) => x == base,
            _ => false,
        };
        if !same {
            assert(!same_number(window[k as int], window[0]));
            return Flag::Pass;
        }
        k += 1;
    }
    Flag::Fail
}

/// Looks for streaks of repeating values: the last of `num_points`
/// consecutive observations fails when all of them hold the same number, and
/// is marked as missing data when any of them is absent.
///
/// Each observation needs `num_points - 1` predecessors, so the series must
/// carry at least that many leading points; otherwise the check fails with a
/// shape error naming `data`.
pub fn freeze_check(data: &SeriesCache, num_points: u8) -> (checked: Result<Vec<Flag>, Error>)
    requires
        num_points >= 1,
        data.num_trailing_points <= data.values@.len(),
        !freeze_rejects(*data, num_points) ==> freeze_start(*data, num_points) <= freeze_end(*data),
    ensures
        checked is Err <==> freeze_rejects(*data, num_points),
        checked matches Err(e) ==> e.is_shape("data"@),
        checked matches Ok(flags) ==> {
            &&& flags@.len() == if freeze_end(*data) - freeze_start(*data, num_points)
                >= num_points {
                freeze_end(*data) - freeze_start(*data, num_points) - num_points + 1
            } else {
                0
            }
            &&& forall|k: int|
                0 <= k < flags@.len() ==> #[trigger] flags@[k] == window_flag(
                    data.values@.subrange(
                        freeze_start(*data, num_points) + k,
                        freeze_start(*data, num_points) + k + num_points,
                    ),
                )
        },
{
    let needed: u8 = num_points - 1;
    if data.num_leading_points < needed || data.num_leading_points as usize + 1
        > data.values.len() {
        return Err(Error::shape("data"));
    }
    let start: usize = (data.num_leading_points - needed) as usize;
    let end: usize = data.values.len() - data.num_trailing_points as usize;
    let width: usize = num_points as usize;
    let mut flags: Vec<Flag> = Vec::new();
    if end - start < width {
        return Ok(flags);
    }
    let count: usize = end - start - width + 1;
    let mut k: usize = 0;
    while k < count
        invariant
            k <= count,
            width >= 1,
            start + count + width - 1 == end,
            end <= data.values@.len(),
            flags@.len() == k,
            forall|j: int|
                0 <= j < k ==> #[trigger] flags@[j] == window_flag(
                    data.values@.subrange(start + j, start + j + width),
                ),
        decreases count - k,
    {
        let flag = judge_window(&data.values, start + k, width);
        flags.push(flag);
        k += 1;
    }
    Ok(flags)
}

/// How far two numbers lie apart.
pub open spec fn gap(a: int, b: int) -> int {
    if a >= b {
        a - b
    } else {
        b - a
    }
}

/// Whether the middle of three numbers is a peak or a dip whose two flanks
/// add up to more than `limit` and differ by less than 35 hundredths of
/// their sum.
pub open spec fn spikes(before: int, middle: int, after: int, limit: int) -> bool {
    let diffsum = gap(after, middle) + gap(middle, before);
    let diffdiff = gap(gap(after, middle), gap(middle, before));
    &&& (after < middle && before < middle) || (after > middle && before > middle)
    &&& 100 * diffdiff < 35 * diffsum
    &&& diffsum > limit
}

/// [`spikes`], computed.
fn spikes_exec(before: i32, middle: i32, after: i32, limit: i32) -> (spike: bool)
    ensures
        spike == spikes(before as int, middle as int, after as int, limit as int),
{
    if (after < middle && before < middle) || (after > middle && before > middle) {
        let right: i64 = if after >= middle {
            after as i64 - middle as i64
        } else {
            middle as i64 - after as i64
        };
        let left: i64 = if middle >= before {
            middle as i64 - before as i64
        } else {
            before as i64 - middle as i64
        };
        let diffsum: i64 = right + left;
        let diffdiff: i64 = if right >= left {
            right - left
        } else {
            left - right
        };
        return 100 * diffdiff < 35 * diffsum && diffsum > limit as i64;
    }
    false
}

/// Whether an observation holds a finite number.
pub open spec fn is_number(obs: Option<Reading>) -> bool {
    obs matches Some(Reading::Finite(_))
}

/// The number that an observation holds, where it holds one.
pub open spec fn number(obs: Option<Reading>) -> int {
    match obs {
        Some(Reading::Finite(v)) => v as int,
        _ => 0,
    }
}

/// The verdict of the spike check on an observation, its predecessor and
/// its successor: missing data if one of the three is absent, a failure if
/// the observation is a spike beyond `max`.
pub open spec fn spike_flag(data: Seq<Option<Reading>>, max: int) -> Flag {
    if data[0] is None || data[1] is None || data[2] is None {
        Flag::DataMissing
    } else if is_number(data[0]) && is_number(data[1]) && is_number(data[2]) && spikes(
        number(data[0]),
        number(data[1]),
        number(data[2]),
        max,
    ) {
        Flag::Fail
    } else {
        Flag::Pass
    }
}

/// Compares an observation against its immediate predecessor and successor.
pub fn spike_check(data: &[Option<Reading>; 3], max: i32) -> (flag: Flag)
    ensures
        flag == spike_flag(data@, max as int),
{
    if data[0].is_none() || data[1].is_none() || data[2].is_none() {
        return Flag::DataMissing;
    }
    if let Some(Reading::Finite(a)) = data[0] {
        if let Some(Reading::Finite(b)) = data[1] {
            if let Some(Reading::Finite(c)) = data[2] {
                if spikes_exec(a, b, c, max) {
                    return Flag::Fail;
                }
            }
        }
    }
    Flag::Pass
}

/// The verdict of the step check on an observation and its predecessor:
/// missing data if one of the two is absent, a failure if they lie further
/// apart than `max`.
pub open spec fn step_flag(data: Seq<Option<Reading>>, max: int) -> Flag {
    if data[0] is None || data[1] is None {
        Flag::DataMissing
    } else if is_number(data[0]) && is_number(data[1]) && gap(number(data[0]), number(data[1]))
        > max {
        Flag::Fail
    } else {
        Flag::Pass
    }
}

/// Compares an observation against its immediate predecessor.
pub fn step_check(data: &[Option<Reading>; 2], max: i32) -> (flag: Flag)
    ensures
        flag == step_flag(data@, max as int),
{
    if data[0].is_none() || data[1].is_none() {
        return Flag::DataMissing;
    }
    if let Some(Reading::Finite(a)) = data[0] {
        if let Some(Reading::Finite(b)) = data[1] {
            let diff: i64 = a as i64 - b as i64;
            if diff > max as i64 || -diff > max as i64 {
                return Flag::Fail;
            }
        }
    }
    Flag::Pass
}

/// The least rise over the whole series that fails the check for monotonic
/// increase, seven tenths.
pub const RISE_MIN: i32 = 700;

/// The greatest rise over the whole series that fails the check for
/// monotonic increase, one hundred.
pub const RISE_MAX: i32 = 100_000;

/// Whether an observation is less than its predecessor somewhere in the
/// series.
pub open spec fn decreases_somewhere(data: Seq<Option<Reading>>) -> bool {
    exists|k: int|
        0 <= k < data.len() - 1 && is_number(#[trigger] data[k]) && is_number(data[k + 1])
            && number(data[k + 1]) < number(data[k])
}

/// The verdict of the check for monotonic increase: missing data if an
/// observation is absent, a failure if none is less than its predecessor
/// and the last exceeds the first by seven tenths to one hundred.
pub open spec fn monotonic_flag(data: Seq<Option<Reading>>) -> Flag {
    if exists|k: int| 0 <= k < data.len() && #[trigger] data[k] is None {
        Flag::DataMissing
    } else if !decreases_somewhere(data) && is_number(data[0]) && is_number(data[24])
        && RISE_MIN <= number(data[24]) - number(data[0]) <= RISE_MAX {
        Flag::Fail
    } else {
        Flag::Pass
    }
}

/// Looks for a steady increase over 25 observations.
pub fn monotonic_increase_check(data: &[Option<Reading>; 25]) -> (flag: Flag)
    ensures
        flag == monotonic_flag(data@),
{
    let mut k: usize = 0;
    while k < 25
        invariant
            k <= 25,
            data@.len() == 25,
            forall|m: int| 0 <= m < k ==> #[trigger] data@[m] is Some,
        decreases 25 - k,
    {
        if data[k].is_none() {
            return Flag::DataMissing;
        }
        k += 1;
    }
    let mut k: usize = 0;
    while k < 24
        invariant
            k <= 24,
            data@.len() == 25,
            forall|m: int| 0 <= m < 25 ==> #[trigger] data@[m] is Some,
            forall|m: int|
                0 <= m < k ==> !(is_number(#[trigger] data@[m]) && is_number(data@[m + 1])
                    && number(data@[m + 1]) < number(data@[m])),
        decreases 24 - k,
    {
        if let Some(Reading::Finite(a)) = data[k] {
            if let Some(Reading::Finite(b)) = data[k + 1] {
                if b < a {
                    assert(decreases_somewhere(data@));
                    return Flag::Pass;
                }
            }
        }
        k += 1;
    }
    assert(!decreases_somewhere(data@));
    if let Some(Reading::Finite(first)) = data[0] {
        if let Some(Reading::Finite(last)) = data[24] {
            let total_diff: i64 = last as i64 - first as i64;
            if RISE_MIN as i64 <= total_diff && total_diff <= RISE_MAX as i64 {
                return Flag::Fail;
            }
        }
    }
    Flag::Pass
}

/// The verdict of the flatline check: missing data if an observation is
/// absent, invalid if there is none at all, a failure if all hold the same
/// number.
pub open spec fn flatline_flag(data: Seq<Option<Reading>>) -> Flag {
    if data.len() == 0 {
        Flag::Invalid
    } else {
        window_flag(data)
    }
}

/// Looks for a streak of repeating values.
pub fn flatline_check(data: &[Option<Reading>]) -> (flag: Flag)
    ensures
        flag == flatline_flag(data@),
{
    let n = data.len();
    if n == 0 {
        return Flag::Invalid;
    }
    let mut k: usize = 0;
    while k < n
        invariant
            k <= n,
            n == data@.len(),
            forall|j: int| 0 <= j < k ==> data@[j] is Some,
        decreases n - k,
    {
        if data[k].is_none() {
            return Flag::DataMissing;
        }
        k += 1;
    }
    let base = match data[0] {
        Some(Reading::Finite(x)) => x,
        _ => {
            assert(!same_number(data@[0], data@[0]));
            return Flag::Pass;
        },
    };
    let mut k: usize = 0;
    while k < n
        invariant
            k <= n,
            n == data@.len(),
            n >= 1,
            data@[0] == Some(Reading::Finite(base)),
            forall|j: int| 0 <= j < n ==> data@[j] is Some,
            forall|j: int| 0 <= j < k ==> same_number(#[trigger] data@[j], data@[0]),
        decreases n - k,
    {
        let same = match data[k] {
            Some(Reading::Finite(x)) => x == base,
            _ => false,
        };
        if !same {
            assert(!same_number(data@[k as int], data@[0]));
            return Flag::Pass;
        }
        k += 1;
    }
    Flag::Fail
}

/// The verdict of the dip check on an observation, its predecessor and its
/// successor: missing data if one of the three is absent; a failure if the
/// observation is a spike beyond `max`, and a warning if it is one beyond
/// `high`.
pub open spec fn dip_flag(data: Seq<Option<Reading>>, high: int, max: int) -> Flag {
    if data[0] is None || data[1] is None || data[2] is None {
        Flag::DataMissing
    } else if is_number(data[0]) && is_number(data[1]) && is_number(data[2]) {
        if spikes(number(data[0]), number(data[1]), number(data[2]), max) {
            Flag::Fail
        } else if spikes(number(data[0]), number(data[1]), number(data[2]), high) {
            Flag::Warn
        } else {
            Flag::Pass
        }
    } else {
        Flag::Pass
    }
}

/// Whether the series has too little context for the dip check: it needs a
/// leading and a trailing point.
pub open spec fn dip_rejects(data: SeriesCache) -> bool {
    data.num_leading_points < 1 || data.num_trailing_points < 1 || data.num_leading_points
        + data.num_trailing_points + 1 > data.values@.len()
}

/// Compares each observation against its immediate predecessor and
/// successor.
///
/// Fails with a shape error naming `data` where the series lacks a leading
/// or a trailing point.
pub fn dip_check(data: &SeriesCache, high: i32, max: i32) -> (checked: Result<Vec<Flag>, Error>)
    ensures
        checked is Err <==> dip_rejects(*data),
        checked matches Err(e) ==> e.is_shape("data"@),
        checked matches Ok(flags) ==> {
            &&& flags@.len() == data.tested().len()
            &&& forall|k: int|
                0 <= k < flags@.len() ==> #[trigger] flags@[k] == dip_flag(
                    data.values@.subrange(
                        data.num_leading_points - 1 + k,
                        data.num_leading_points + 2 + k,
                    ),
                    high as int,
                    max as int,
                )
        },
{
    if data.num_leading_points < 1 || data.num_trailing_points < 1 || data.num_leading_points as usize
        + data.num_trailing_points as usize + 1 > data.values.len() {
        return Err(Error::shape("data"));
    }
    let start: usize = data.num_leading_points as usize - 1;
    let count: usize = data.values.len() - data.num_leading_points as usize
        - data.num_trailing_points as usize;
    let total: usize = data.values.len();
    let mut flags: Vec<Flag> = Vec::with_capacity(count);
    let mut k: usize = 0;
    while k < count
        invariant
            k <= count,
            total == data.values@.len(),
            start + count + 2 <= data.values@.len(),
            flags@.len() == k,
            forall|j: int|
                0 <= j < k ==> #[trigger] flags@[j] == dip_flag(
                    data.values@.subrange(start + j, start + j + 3),
                    high as int,
                    max as int,
                ),
        decreases count - k,
    {
        let ghost window = data.values@.subrange(start + k, start + k + 3);
        let before = data.values[start + k];
        let middle = data.values[start + k + 1];
        let after = data.values[start + k + 2];
        assert(window[0] == before && window[1] == middle && window[2] == after);
        let mut flag = Flag::Pass;
        if before.is_none() || middle.is_none() || after.is_none() {
            flag = Flag::DataMissing;
        } else if let Some(Reading::Finite(a)) = before {
            if let Some(Reading::Finite(b)) = middle {
                if let Some(Reading::Finite(c)) = after {
                    if spikes_exec(a, b, c, max) {
                        flag = Flag::Fail;
                    } else if spikes_exec(a, b, c, high) {
                        flag = Flag::Warn;
                    }
                }
            }
        }
        flags.push(flag);
        k += 1;
    }
    Ok(flags)
}

} // verus!
