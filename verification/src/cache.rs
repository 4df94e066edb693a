//! Time series of many stations side by side, and the checks applied to all
//! of them at once.

use crate::checks::spatial::buddy_check::{buddy_check, buddy_scene, BuddyCheckArgs};
use crate::error::Error;
use crate::flag::Flag;
use crate::reading::Reading;
use crate::checks::spatial::sct::{answers_fit, sct, sct_outcome, sct_scene, SctArgs, SctBox, Score};
use crate::checks::series::{flatline_check, flatline_flag, spike_check, spike_flag, step_check, step_flag};
use crate::checks::single::{
    humidity_verdict, range_check, range_check_humidity, range_check_wind_direction, range_flag,
    special_values_check, special_values_flag, wind_direction_verdict,
};
use crate::spatial_tree::{indexable, refuses, Point, SpatialTree};
use crate::util::Timestamp;
use chronoutil::RelativeDuration;
use vstd::prelude::*;

verus! {

/// `chronoutil::RelativeDuration`, the time between two observations of a
/// series. A cache carries it as it is.
#[verifier::external_type_specification]
#[verifier::external_body]
pub struct ExRelativeDuration(RelativeDuration);

/// Container for the time series of a set of stations.
#[derive(Debug)]
pub struct DataCache {
    /// The time series, each tagged with an identifier, with its
    /// observations in chronological order. All series are aligned on
    /// `start_time` and `period`; `None` marks a gap.
    pub data: Vec<(String, Vec<Option<Reading>>)>,
    /// Time of the first observation in `data`.
    pub start_time: Timestamp,
    /// The time between successive observations.
    pub period: RelativeDuration,
    /// The positions of the stations.
    pub rtree: SpatialTree,
    /// The number of points at the start of each series that are context
    /// only.
    pub num_leading_points: u8,
    /// The number of points at the end of each series that are context
    /// only.
    pub num_trailing_points: u8,
}

impl DataCache {
    /// The length that all series have; zero where there is none.
    pub open spec fn series_len(self) -> int {
        if self.data@.len() == 0 {
            0
        } else {
            self.data@[0].1@.len() as int
        }
    }

    /// Whether all series have the same length.
    pub open spec fn uniform(self) -> bool {
        forall|i: int|
            0 <= i < self.data@.len() ==> (#[trigger] self.data@[i]).1@.len() == self.series_len()
    }

    /// Whether all series have the same length, with room for the context
    /// points.
    pub open spec fn aligned(self) -> bool {
        &&& self.uniform()
        &&& self.data@.len() > 0 ==> self.num_leading_points + self.num_trailing_points
            <= self.series_len()
    }

    /// The number of observations under test in each series.
    pub open spec fn tested_len(self) -> int {
        if self.data@.len() == 0 || self.num_leading_points + self.num_trailing_points
            > self.series_len() {
            0
        } else {
            self.series_len() - self.num_leading_points - self.num_trailing_points
        }
    }

    /// The `k`-th observation under test of series `i` with its `before`
    /// predecessors and `after` successors.
    pub open spec fn window(self, i: int, k: int, before: int, after: int) -> Seq<Option<Reading>> {
        self.data@[i].1@.subrange(
            self.num_leading_points + k - before,
            self.num_leading_points + k + after + 1,
        )
    }

    /// The observations of all stations at position `t` of their series.
    pub open spec fn timeslice(self, t: int) -> Seq<Option<Reading>> {
        Seq::new(self.data@.len(), |s: int| self.data@[s].1@[t])
    }

    /// The observations of all stations at the `k`-th time under test.
    pub open spec fn tested_slice(self, k: int) -> Seq<Option<Reading>> {
        self.timeslice(self.num_leading_points + k)
    }

    /// The `k`-th observation under test of series `i`.
    pub open spec fn tested(self, i: int, k: int) -> Option<Reading> {
        self.data@[i].1@[self.num_leading_points + k]
    }

    /// Whether `result` holds, for each series under its name, one entry per
    /// observation under test.
    pub open spec fn shapes<T>(self, result: Seq<(String, Vec<T>)>) -> bool {
        &&& result.len() == self.data@.len()
        &&& forall|i: int|
            0 <= i < result.len() ==> (#[trigger] result[i]).0@ == self.data@[i].0@
                && result[i].1@.len() == self.tested_len()
    }

    /// Builds a cache over the stations at `points`.
    ///
    /// Fails where the positions cannot be indexed.
    pub fn new(
        points: Vec<Point>,
        elevs: Vec<Reading>,
        start_time: Timestamp,
        period: RelativeDuration,
        num_leading_points: u8,
        num_trailing_points: u8,
        data: Vec<(String, Vec<Option<Reading>>)>,
    ) -> (built: Result<DataCache, Error>)
        ensures
            match built {
                Ok(cache) => {
                    &&& cache.data@ == data@
                    &&& cache.start_time == start_time
                    &&& cache.period == period
                    &&& cache.rtree.points() == points@
                    &&& cache.rtree.elevs() == elevs@
                    &&& cache.num_leading_points == num_leading_points
                    &&& cache.num_trailing_points == num_trailing_points
                },
                Err(e) => refuses(points@, elevs@, e),
            },
            built is Ok <==> indexable(points@, elevs@),
    {
        match SpatialTree::from_points(points, elevs) {
            Ok(rtree) => Ok(
                DataCache {
                    rtree,
                    data,
                    start_time,
                    period,
                    num_leading_points,
                    num_trailing_points,
                },
            ),
            Err(e) => Err(e),
        }
    }
}

/// A copy of the entries `start..end` of `values`.
fn copy_window(values: &Vec<Option<Reading>>, start: usize, end: usize) -> (window: Vec<Option<Reading>>)
    requires
        start <= end <= values@.len(),
    ensures
        window@ == values@.subrange(start as int, end as int),
{
    let mut window: Vec<Option<Reading>> = Vec::with_capacity(end - start);
    let mut k: usize = start;
    while k < end
        invariant
            start <= k <= end <= values@.len(),
            window@.len() == k - start,
            forall|m: int| 0 <= m < k - start ==> window@[m] == values@[start + m],
        decreases end - k,
    {
        window.push(values[k]);
        k += 1;
    }
    assert(window@ =~= values@.subrange(start as int, end as int));
    window
}

/// Whether `out` is what `check` may return for the window `window`.
pub open spec fn answers<T, F: Fn(Vec<Option<Reading>>) -> T>(
    check: F,
    window: Seq<Option<Reading>>,
    out: T,
) -> bool {
    exists|handed: Vec<Option<Reading>>| handed@ == window && #[trigger] check.ensures((handed,), out)
}

/// Applies `check` to every observation under test of every series, handing
/// it the observation with its `before` predecessors and its `after`
/// successors.
pub fn check_windows<T, F: Fn(Vec<Option<Reading>>) -> T>(
    cache: &DataCache,
    before: u8,
    after: u8,
    check: F,
) -> (result: Vec<(String, Vec<T>)>)
    requires
        cache.aligned(),
        before <= cache.num_leading_points,
        after <= cache.num_trailing_points,
        forall|window: Vec<Option<Reading>>|
            window@.len() == before + after + 1 ==> #[trigger] check.requires((window,)),
    ensures
        result@.len() == cache.data@.len(),
        forall|i: int|
            0 <= i < result@.len() ==> (#[trigger] result@[i]).0@ == cache.data@[i].0@
                && result@[i].1@.len() == cache.tested_len(),
        forall|i: int, k: int|
            0 <= i < result@.len() && 0 <= k < cache.tested_len() ==> answers(
                check,
                cache.window(i, k, before as int, after as int),
                #[trigger] result@[i].1@[k],
            ),
{
    let num_series = cache.data.len();
    let mut result_vec: Vec<(String, Vec<T>)> = Vec::with_capacity(num_series);
    if num_series == 0 {
        return result_vec;
    }
    let series_len = cache.data[0].1.len();
    let lead = cache.num_leading_points as usize;
    let count = series_len - lead - cache.num_trailing_points as usize;
    let mut i: usize = 0;
    while i < num_series
        invariant
            i <= num_series,
            num_series == cache.data@.len(),
            num_series > 0,
            series_len == cache.series_len(),
            cache.aligned(),
            lead == cache.num_leading_points,
            count == cache.tested_len(),
            before <= cache.num_leading_points,
            after <= cache.num_trailing_points,
            forall|window: Vec<Option<Reading>>|
                window@.len() == before + after + 1 ==> #[trigger] check.requires((window,)),
            result_vec@.len() == i,
            forall|j: int|
                0 <= j < i ==> (#[trigger] result_vec@[j]).0@ == cache.data@[j].0@
                    && result_vec@[j].1@.len() == count,
            forall|j: int, k: int|
                0 <= j < i && 0 <= k < count ==> answers(
                    check,
                    cache.window(j, k, before as int, after as int),
                    #[trigger] result_vec@[j].1@[k],
                ),
        decreases num_series - i,
    {
        let series = &cache.data[i].1;
        assert(series@.len() == series_len);
        let mut flags: Vec<T> = Vec::with_capacity(count);
        let mut k: usize = 0;
        while k < count
            invariant
                k <= count,
                i < num_series,
                num_series == cache.data@.len(),
                *series == cache.data@[i as int].1,
                series@.len() == series_len,
                lead == cache.num_leading_points,
                lead + count + cache.num_trailing_points == series_len,
                before <= cache.num_leading_points,
                after <= cache.num_trailing_points,
                forall|window: Vec<Option<Reading>>|
                    window@.len() == before + after + 1 ==> #[trigger] check.requires((window,)),
                flags@.len() == k,
                forall|m: int|
                    0 <= m < k ==> answers(
                        check,
                        cache.window(i as int, m, before as int, after as int),
                        #[trigger] flags@[m],
                    ),
            decreases count - k,
        {
            let window = copy_window(
                series,
                lead + k - before as usize,
                lead + k + after as usize + 1,
            );
            let ghost handed = window;
            let flag = check(window);
            flags.push(flag);
            assert(check.ensures((handed,), flags@[k as int]));
            k += 1;
        }
        result_vec.push((cache.data[i].0.clone(), flags));
        i += 1;
    }
    result_vec
}

/// Applies the range check to every observation under test.
pub fn range_check_cache(cache: &DataCache, lower_limit: i32, upper_limit: i32) -> (result: Vec<
    (String, Vec<Flag>),
>)
    requires
        cache.aligned(),
    ensures
        cache.shapes(result@),
        forall|i: int, k: int|
            0 <= i < result@.len() && 0 <= k < cache.tested_len() ==> #[trigger] result@[i].1@[k]
                == range_flag(cache.tested(i, k), lower_limit as int, upper_limit as int),
{
    let check = |window: Vec<Option<Reading>>| -> (flag: Flag)
        requires
            window@.len() == 1,
        ensures
            flag == range_flag(window@[0], lower_limit as int, upper_limit as int),
        { range_check(window[0], lower_limit, upper_limit) };
    let result = check_windows(cache, 0, 0, check);
    proof {
        assert forall|i: int, k: int|
            0 <= i < result@.len() && 0 <= k < cache.tested_len() implies #[trigger] result@[i].1@[k]
            == range_flag(cache.tested(i, k), lower_limit as int, upper_limit as int) by {
            assert(answers(check, cache.window(i, k, 0, 0), result@[i].1@[k]));
        }
    }
    result
}

/// Applies the range check for relative humidity to every observation
/// under test.
pub fn range_check_humidity_cache(cache: &DataCache) -> (result: Vec<
    (String, Vec<(Flag, Option<Reading>)>),
>)
    requires
        cache.aligned(),
    ensures
        cache.shapes(result@),
        forall|i: int, k: int|
            0 <= i < result@.len() && 0 <= k < cache.tested_len() ==> #[trigger] result@[i].1@[k]
                == humidity_verdict(cache.tested(i, k)),
{
    let check = |window: Vec<Option<Reading>>| -> (verdict: (Flag, Option<Reading>))
        requires
            window@.len() == 1,
        ensures
            verdict == humidity_verdict(window@[0]),
        { range_check_humidity(window[0]) };
    let result = check_windows(cache, 0, 0, check);
    proof {
        assert forall|i: int, k: int|
            0 <= i < result@.len() && 0 <= k < cache.tested_len() implies #[trigger] result@[i].1@[k]
            == humidity_verdict(cache.tested(i, k)) by {
            assert(answers(check, cache.window(i, k, 0, 0), result@[i].1@[k]));
        }
    }
    result
}

/// Applies the range check for wind direction to every observation under
/// test.
pub fn range_check_wind_direction_cache(cache: &DataCache) -> (result: Vec<
    (String, Vec<(Flag, Option<Reading>)>),
>)
    requires
        cache.aligned(),
    ensures
        cache.shapes(result@),
        forall|i: int, k: int|
            0 <= i < result@.len() && 0 <= k < cache.tested_len() ==> #[trigger] result@[i].1@[k]
                == wind_direction_verdict(cache.tested(i, k)),
{
    let check = |window: Vec<Option<Reading>>| -> (verdict: (Flag, Option<Reading>))
        requires
            window@.len() == 1,
        ensures
            verdict == wind_direction_verdict(window@[0]),
        { range_check_wind_direction(window[0]) };
    let result = check_windows(cache, 0, 0, check);
    proof {
        assert forall|i: int, k: int|
            0 <= i < result@.len() && 0 <= k < cache.tested_len() implies #[trigger] result@[i].1@[k]
            == wind_direction_verdict(cache.tested(i, k)) by {
            assert(answers(check, cache.window(i, k, 0, 0), result@[i].1@[k]));
        }
    }
    result
}

/// Applies the check for special values to every observation under test.
pub fn special_values_check_cache(cache: &DataCache, special_values: &[Reading]) -> (result: Vec<
    (String, Vec<Flag>),
>)
    requires
        cache.aligned(),
    ensures
        cache.shapes(result@),
        forall|i: int, k: int|
            0 <= i < result@.len() && 0 <= k < cache.tested_len() ==> #[trigger] result@[i].1@[k]
                == special_values_flag(cache.tested(i, k), special_values@),
{
    let check = |window: Vec<Option<Reading>>| -> (flag: Flag)
        requires
            window@.len() == 1,
        ensures
            flag == special_values_flag(window@[0], special_values@),
        { special_values_check(window[0], special_values) };
    let result = check_windows(cache, 0, 0, check);
    proof {
        assert forall|i: int, k: int|
            0 <= i < result@.len() && 0 <= k < cache.tested_len() implies #[trigger] result@[i].1@[k]
            == special_values_flag(cache.tested(i, k), special_values@) by {
            assert(answers(check, cache.window(i, k, 0, 0), result@[i].1@[k]));
        }
    }
    result
}

/// The names of the series, each with no flag.
fn no_flags(cache: &DataCache) -> (result: Vec<(String, Vec<Flag>)>)
    ensures
        result@.len() == cache.data@.len(),
        forall|i: int|
            0 <= i < result@.len() ==> (#[trigger] result@[i]).0@ == cache.data@[i].0@
                && result@[i].1@.len() == 0,
{
    let mut result: Vec<(String, Vec<Flag>)> = Vec::with_capacity(cache.data.len());
    let mut i: usize = 0;
    while i < cache.data.len()
        invariant
            i <= cache.data@.len(),
            result@.len() == i,
            forall|j: int|
                0 <= j < i ==> (#[trigger] result@[j]).0@ == cache.data@[j].0@
                    && result@[j].1@.len() == 0,
        decreases cache.data@.len() - i,
    {
        result.push((cache.data[i].0.clone(), Vec::new()));
        i += 1;
    }
    result
}

/// The spike check needs this many points before each observation.
pub const SPIKE_LEADING_PER_RUN: u8 = 1;

/// The spike check needs this many points after each observation.
pub const SPIKE_TRAILING_PER_RUN: u8 = 1;

/// The step check needs this many points before each observation.
pub const STEP_LEADING_PER_RUN: u8 = 1;

/// Applies the spike check to every observation under test.
///
/// Fails with a shape error naming `data` where the series lack a leading
/// or a trailing point.
pub fn spike_check_cache(cache: &DataCache, max: i32) -> (checked: Result<
    Vec<(String, Vec<Flag>)>,
    Error,
>)
    requires
        cache.uniform(),
    ensures
        checked is Err <==> (cache.data@.len() > 0 && (cache.num_leading_points < 1
            || cache.num_trailing_points < 1 || cache.num_leading_points
            + cache.num_trailing_points + 1 > cache.series_len())),
        checked matches Err(e) ==> e.is_shape("data"@),
        checked matches Ok(result) ==> {
            &&& cache.shapes(result@)
            &&& forall|i: int, k: int|
                0 <= i < result@.len() && 0 <= k < cache.tested_len() ==> #[trigger] result@[i].1@[k]
                    == spike_flag(cache.window(i, k, 1, 1), max as int)
        },
{
    if cache.data.len() == 0 {
        return Ok(Vec::new());
    }
    let series_len = cache.data[0].1.len();
    if cache.num_leading_points < SPIKE_LEADING_PER_RUN || cache.num_trailing_points
        < SPIKE_TRAILING_PER_RUN || cache.num_leading_points as usize
        + cache.num_trailing_points as usize + 1 > series_len {
        return Err(Error::shape("data"));
    }
    let check = |window: Vec<Option<Reading>>| -> (flag: Flag)
        requires
            window@.len() == 3,
        ensures
            flag == spike_flag(window@, max as int),
        {
            let triple = [window[0], window[1], window[2]];
            assert(triple@ =~= window@);
            spike_check(&triple, max)
        };
    let result = check_windows(cache, SPIKE_LEADING_PER_RUN, SPIKE_TRAILING_PER_RUN, check);
    proof {
        assert forall|i: int, k: int|
            0 <= i < result@.len() && 0 <= k < cache.tested_len() implies #[trigger] result@[i].1@[k]
            == spike_flag(cache.window(i, k, 1, 1), max as int) by {
            assert(answers(check, cache.window(i, k, 1, 1), result@[i].1@[k]));
        }
    }
    Ok(result)
}

/// Applies the step check to every observation under test.
///
/// Fails with a shape error naming `data` where the series lack a leading
/// point. The trailing points must leave room for the first observation
/// under test.
pub fn step_check_cache(cache: &DataCache, max: i32) -> (checked: Result<
    Vec<(String, Vec<Flag>)>,
    Error,
>)
    requires
        cache.uniform(),
        cache.data@.len() > 0 && 1 <= cache.num_leading_points < cache.series_len()
            ==> cache.num_leading_points + cache.num_trailing_points <= cache.series_len() + 1,
    ensures
        checked is Err <==> (cache.data@.len() > 0 && (cache.num_leading_points < 1
            || cache.num_leading_points + 1 > cache.series_len())),
        checked matches Err(e) ==> e.is_shape("data"@),
        checked matches Ok(result) ==> {
            &&& cache.shapes(result@)
            &&& forall|i: int, k: int|
                0 <= i < result@.len() && 0 <= k < cache.tested_len() ==> #[trigger] result@[i].1@[k]
                    == step_flag(cache.window(i, k, 1, 0), max as int)
        },
{
    if cache.data.len() == 0 {
        return Ok(Vec::new());
    }
    let series_len = cache.data[0].1.len();
    if cache.num_leading_points < STEP_LEADING_PER_RUN || cache.num_leading_points as usize + 1
        > series_len {
        return Err(Error::shape("data"));
    }
    if cache.num_leading_points as usize + cache.num_trailing_points as usize > series_len {
        return Ok(no_flags(cache));
    }
    let check = |window: Vec<Option<Reading>>| -> (flag: Flag)
        requires
            window@.len() == 2,
        ensures
            flag == step_flag(window@, max as int),
        {
            let pair = [window[0], window[1]];
            assert(pair@ =~= window@);
            step_check(&pair, max)
        };
    let result = check_windows(cache, STEP_LEADING_PER_RUN, 0, check);
    proof {
        assert forall|i: int, k: int|
            0 <= i < result@.len() && 0 <= k < cache.tested_len() implies #[trigger] result@[i].1@[k]
            == step_flag(cache.window(i, k, 1, 0), max as int) by {
            assert(answers(check, cache.window(i, k, 1, 0), result@[i].1@[k]));
        }
    }
    Ok(result)
}

/// Applies the flatline check to every observation under test, each with
/// its `num_points - 1` predecessors.
///
/// Fails with a shape error naming `data` where the series have fewer than
/// `num_points - 1` leading points. The trailing points must leave room
/// for the first window.
pub fn flatline_check_cache(cache: &DataCache, num_points: u8) -> (checked: Result<
    Vec<(String, Vec<Flag>)>,
    Error,
>)
    requires
        cache.uniform(),
        num_points >= 1,
        cache.data@.len() > 0 && num_points - 1 <= cache.num_leading_points < cache.series_len()
            ==> cache.num_leading_points + cache.num_trailing_points <= cache.series_len()
            + num_points - 1,
    ensures
        checked is Err <==> (cache.data@.len() > 0 && (cache.num_leading_points < num_points - 1
            || cache.num_leading_points + 1 > cache.series_len())),
        checked matches Err(e) ==> e.is_shape("data"@),
        checked matches Ok(result) ==> {
            &&& cache.shapes(result@)
            &&& forall|i: int, k: int|
                0 <= i < result@.len() && 0 <= k < cache.tested_len() ==> #[trigger] result@[i].1@[k]
                    == flatline_flag(cache.window(i, k, num_points - 1, 0))
        },
{
    if cache.data.len() == 0 {
        return Ok(Vec::new());
    }
    let series_len = cache.data[0].1.len();
    let needed: u8 = num_points - 1;
    if cache.num_leading_points < needed || cache.num_leading_points as usize + 1 > series_len {
        return Err(Error::shape("data"));
    }
    if cache.num_leading_points as usize + cache.num_trailing_points as usize > series_len {
        return Ok(no_flags(cache));
    }
    let check = |window: Vec<Option<Reading>>| -> (flag: Flag)
        ensures
            flag == flatline_flag(window@),
        { flatline_check(window.as_slice()) };
    let result = check_windows(cache, needed, 0, check);
    proof {
        assert forall|i: int, k: int|
            0 <= i < result@.len() && 0 <= k < cache.tested_len() implies #[trigger] result@[i].1@[k]
            == flatline_flag(cache.window(i, k, num_points - 1, 0)) by {
            assert(answers(check, cache.window(i, k, needed as int, 0), result@[i].1@[k]));
        }
    }
    Ok(result)
}

/// The observations of all stations at position `t` of their series.
fn take_timeslice(cache: &DataCache, t: usize) -> (slice: Vec<Option<Reading>>)
    requires
        cache.uniform(),
        t < cache.series_len(),
    ensures
        slice@ == cache.timeslice(t as int),
{
    let mut slice: Vec<Option<Reading>> = Vec::with_capacity(cache.data.len());
    let mut s: usize = 0;
    while s < cache.data.len()
        invariant
            s <= cache.data@.len(),
            cache.uniform(),
            t < cache.series_len(),
            slice@.len() == s,
            forall|j: int| 0 <= j < s ==> slice@[j] == cache.data@[j].1@[t as int],
        decreases cache.data@.len() - s,
    {
        assert(cache.data@[s as int].1@.len() == cache.series_len());
        slice.push(cache.data[s].1[t]);
        s += 1;
    }
    assert(slice@ =~= cache.timeslice(t as int));
    slice
}

/// The flags of all stations time by time, turned into the flags of each
/// station under its name.
fn by_series(cache: &DataCache, by_time: &Vec<Vec<Flag>>) -> (result: Vec<(String, Vec<Flag>)>)
    requires
        forall|k: int| 0 <= k < by_time@.len() ==> (#[trigger] by_time@[k])@.len() == cache.data@.len(),
    ensures
        result@.len() == cache.data@.len(),
        forall|i: int|
            0 <= i < result@.len() ==> (#[trigger] result@[i]).0@ == cache.data@[i].0@
                && result@[i].1@.len() == by_time@.len(),
        forall|i: int, k: int|
            0 <= i < result@.len() && 0 <= k < by_time@.len() ==> #[trigger] result@[i].1@[k]
                == by_time@[k]@[i],
{
    let mut result: Vec<(String, Vec<Flag>)> = Vec::with_capacity(cache.data.len());
    let mut i: usize = 0;
    while i < cache.data.len()
        invariant
            i <= cache.data@.len(),
            forall|k: int|
                0 <= k < by_time@.len() ==> (#[trigger] by_time@[k])@.len() == cache.data@.len(),
            result@.len() == i,
            forall|j: int|
                0 <= j < i ==> (#[trigger] result@[j]).0@ == cache.data@[j].0@
                    && result@[j].1@.len() == by_time@.len(),
            forall|j: int, k: int|
                0 <= j < i && 0 <= k < by_time@.len() ==> #[trigger] result@[j].1@[k]
                    == by_time@[k]@[j],
        decreases cache.data@.len() - i,
    {
        let mut flags: Vec<Flag> = Vec::with_capacity(by_time.len());
        let mut k: usize = 0;
        while k < by_time.len()
            invariant
                k <= by_time@.len(),
                i < cache.data@.len(),
                forall|m: int|
                    0 <= m < by_time@.len() ==> (#[trigger] by_time@[m])@.len()
                        == cache.data@.len(),
                flags@.len() == k,
                forall|m: int| 0 <= m < k ==> flags@[m] == by_time@[m]@[i as int],
            decreases by_time@.len() - k,
        {
            assert(by_time@[k as int]@.len() == cache.data@.len());
            flags.push(by_time[k][i]);
            k += 1;
        }
        result.push((cache.data[i].0.clone(), flags));
        i += 1;
    }
    result
}

/// Applies the buddy check to the observations of all stations at each time
/// under test.
///
/// Fails as the buddy check does.
pub fn buddy_check_cache(
    cache: &DataCache,
    args: &BuddyCheckArgs,
    obs_to_check: Option<&[bool]>,
) -> (checked: Result<Vec<(String, Vec<Flag>)>, Error>)
    requires
        cache.uniform(),
        cache.data@.len() > 0,
        cache.num_trailing_points <= cache.series_len(),
    ensures
        match checked {
            Ok(result) => {
                &&& cache.shapes(result@)
                &&& forall|k: int|
                    0 <= k < cache.tested_len() ==> buddy_scene(
                        #[trigger] cache.tested_slice(k),
                        cache.rtree,
                        *args,
                        obs_to_check,
                    ).misshapen() is None
                &&& forall|i: int, k: int|
                    0 <= i < result@.len() && 0 <= k < cache.tested_len()
                        ==> #[trigger] result@[i].1@[k] == buddy_scene(
                        cache.tested_slice(k),
                        cache.rtree,
                        *args,
                        obs_to_check,
                    ).result()[i]
            },
            Err(e) => {
                &&& cache.tested_len() > 0
                &&& buddy_scene(
                    cache.tested_slice(0),
                    cache.rtree,
                    *args,
                    obs_to_check,
                ).misshapen() matches Some(field)
                &&& e.is_shape(field)
            },
        },
{
    let series_len = cache.data[0].1.len();
    let start = cache.num_leading_points as usize;
    let end = series_len - cache.num_trailing_points as usize;
    let mut by_time: Vec<Vec<Flag>> = Vec::new();
    let mut t: usize = start;
    while t < end
        invariant
            start <= t,
            start <= end ==> t <= end,
            start > end ==> t == start,
            end <= series_len,
            series_len == cache.series_len(),
            start == cache.num_leading_points,
            end == series_len - cache.num_trailing_points,
            cache.uniform(),
            cache.data@.len() > 0,
            by_time@.len() == t - start,
            forall|k: int|
                0 <= k < by_time@.len() ==> (#[trigger] by_time@[k])@.len() == cache.data@.len(),
            forall|k: int|
                0 <= k < by_time@.len() ==> buddy_scene(
                    #[trigger] cache.tested_slice(k),
                    cache.rtree,
                    *args,
                    obs_to_check,
                ).misshapen() is None,
            forall|k: int|
                0 <= k < by_time@.len() ==> (#[trigger] by_time@[k])@ == buddy_scene(
                    cache.tested_slice(k),
                    cache.rtree,
                    *args,
                    obs_to_check,
                ).result(),
        decreases end - t,
    {
        let timeslice = take_timeslice(cache, t);
        assert(timeslice@ == cache.tested_slice(t - start));
        let ghost scene = buddy_scene(timeslice@, cache.rtree, *args, obs_to_check);
        match buddy_check(timeslice.as_slice(), &cache.rtree, args, obs_to_check) {
            Ok(spatial_result) => {
                proof {
                    crate::checks::spatial::buddy_check::lemma_sweeps_only_reject(
                        scene,
                        crate::checks::spatial::buddy_check::initial_flags(scene.data),
                        args.num_iterations as nat,
                    );
                }
                by_time.push(spatial_result);
            },
            Err(e) => {
                proof {
                    let first = buddy_scene(
                        cache.tested_slice(0),
                        cache.rtree,
                        *args,
                        obs_to_check,
                    );
                    assert(first.misshapen() == scene.misshapen());
                }
                return Err(e);
            },
        }
        t += 1;
    }
    let result = by_series(cache, &by_time);
    proof {
        assert(by_time@.len() == cache.tested_len());
        assert forall|i: int, k: int|
            0 <= i < result@.len() && 0 <= k < cache.tested_len() implies #[trigger] result@[i].1@[k]
            == buddy_scene(cache.tested_slice(k), cache.rtree, *args, obs_to_check).result()[i] by {
            assert(result@[i].1@[k] == by_time@[k]@[i]);
        }
        assert(cache.shapes(result@));
    }
    Ok(result)
}

/// Applies the spatial consistency test to the observations of all stations
/// at each time under test. `analyse` is the numerical analysis of a box.
///
/// Fails as the spatial consistency test does.
pub fn sct_cache<F: Fn(SctBox) -> Vec<Score> + Copy>(
    cache: &DataCache,
    args: &SctArgs,
    obs_to_check: Option<&[bool]>,
    analyse: F,
) -> (checked: Result<Vec<(String, Vec<Flag>)>, Error>)
    requires
        cache.uniform(),
        cache.data@.len() > 0,
        cache.num_trailing_points <= cache.series_len(),
        forall|b: SctBox| #[trigger] analyse.requires((b,)),
    ensures
        match checked {
            Ok(result) => {
                &&& cache.shapes(result@)
                &&& forall|k: int|
                    0 <= k < cache.tested_len() ==> sct_scene(
                        #[trigger] cache.tested_slice(k),
                        cache.rtree,
                        *args,
                        obs_to_check,
                    ).refusal() is None
                &&& forall|i: int, k: int|
                    0 <= i < result@.len() && 0 <= k < cache.tested_len() ==> slice_outcome(
                        sct_scene(cache.tested_slice(k), cache.rtree, *args, obs_to_check),
                        i,
                        #[trigger] result@[i].1@[k],
                    )
            },
            Err(e) => {
                &&& cache.tested_len() > 0
                &&& match sct_scene(
                    cache.tested_slice(0),
                    cache.rtree,
                    *args,
                    obs_to_check,
                ).refusal() {
                    Some(why) => why.reported_by(e),
                    None => e.is_shape("scores"@) && !answers_fit(analyse),
                }
            },
        },
{
    let series_len = cache.data[0].1.len();
    let start = cache.num_leading_points as usize;
    let end = series_len - cache.num_trailing_points as usize;
    let mut by_time: Vec<Vec<Flag>> = Vec::new();
    let mut t: usize = start;
    while t < end
        invariant
            start <= t,
            start <= end ==> t <= end,
            start > end ==> t == start,
            end <= series_len,
            series_len == cache.series_len(),
            start == cache.num_leading_points,
            end == series_len - cache.num_trailing_points,
            cache.uniform(),
            cache.data@.len() > 0,
            forall|b: SctBox| #[trigger] analyse.requires((b,)),
            by_time@.len() == t - start,
            forall|k: int|
                0 <= k < by_time@.len() ==> (#[trigger] by_time@[k])@.len() == cache.data@.len(),
            forall|k: int|
                0 <= k < by_time@.len() ==> sct_scene(
                    #[trigger] cache.tested_slice(k),
                    cache.rtree,
                    *args,
                    obs_to_check,
                ).refusal() is None,
            forall|i: int, k: int|
                0 <= i < cache.data@.len() && 0 <= k < by_time@.len() ==> slice_outcome(
                    sct_scene(cache.tested_slice(k), cache.rtree, *args, obs_to_check),
                    i,
                    #[trigger] by_time@[k]@[i],
                ),
        decreases end - t,
    {
        let timeslice = take_timeslice(cache, t);
        assert(timeslice@ == cache.tested_slice(t - start));
        let ghost scene = sct_scene(timeslice@, cache.rtree, *args, obs_to_check);
        match sct(timeslice.as_slice(), &cache.rtree, args, obs_to_check, analyse) {
            Ok(spatial_result) => {
                assert(sct_outcome(
                    scene,
                    spatial_result.flags@,
                    spatial_result.prob_gross_error@,
                ));
                by_time.push(spatial_result.flags);
            },
            Err(e) => {
                proof {
                    let first = sct_scene(
                        cache.tested_slice(0),
                        cache.rtree,
                        *args,
                        obs_to_check,
                    );
                    lemma_refusal_ignores_values(first, scene);
                }
                return Err(e);
            },
        }
        t += 1;
    }
    let result = by_series(cache, &by_time);
    proof {
        assert(by_time@.len() == cache.tested_len());
        assert forall|i: int, k: int|
            0 <= i < result@.len() && 0 <= k < cache.tested_len() implies slice_outcome(
            sct_scene(cache.tested_slice(k), cache.rtree, *args, obs_to_check),
            i,
            #[trigger] result@[i].1@[k],
        ) by {
            assert(result@[i].1@[k] == by_time@[k]@[i]);
        }
        assert(cache.shapes(result@));
    }
    Ok(result)
}

/// Whether `flag` can be the outcome of the spatial consistency test for
/// station `i`: it differs from the flag that the station started with
/// only where the station is selected and passed, and is then a failure or
/// the mark of isolation.
pub open spec fn slice_outcome(scene: crate::checks::spatial::sct::SctScene, i: int, flag: Flag) -> bool {
    flag == scene.initial_flag(i) || (scene.initial_flag(i) == Flag::Pass
        && crate::checks::spatial::buddy_check::selected(scene.mask, i) && (flag == Flag::Fail || flag
        == Flag::Isolated))
}

/// Whether the test refuses its input does not depend on the observations,
/// only on their number.
pub proof fn lemma_refusal_ignores_values(a: crate::checks::spatial::sct::SctScene, b: crate::checks::spatial::sct::SctScene)
    requires
        a.points == b.points,
        a.elevs == b.elevs,
        a.args == b.args,
        a.mask == b.mask,
        a.data.len() == b.data.len(),
    ensures
        a.refusal() == b.refusal(),
{
}

} // verus!
