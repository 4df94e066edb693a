//! Robust statistics: quantiles, and the vertical profile of a value over
//! elevation that is fitted by median slopes.

use crate::arith::{div_trunc, divide, magnitude};
use crate::order::{ascending, lemma_ascending_total, sort_ascending};
use crate::sums::{collect, from_kept, lemma_collect};
use vstd::prelude::*;

verus! {

/// What the entry at position `j` contributes to a ranking: its value and
/// its position.
pub open spec fn entry_fn(array: Seq<Option<i64>>) -> spec_fn(int) -> (i64, usize) {
    |j: int|
        (
            match array[j] {
                Some(v) => v,
                None => 0i64,
            },
            j as usize,
        )
}

/// Whether the entry at position `j` is a number.
pub open spec fn valid_fn(array: Seq<Option<i64>>) -> spec_fn(int) -> bool {
    |j: int| array[j] is Some
}

/// The entries that are numbers, from the least on; equal values in the
/// order of their positions.
pub open spec fn ranked(array: Seq<Option<i64>>) -> Seq<(i64, usize)> {
    collect(entry_fn(array), valid_fn(array), array.len() as int).sort_by(ascending())
}

/// The value at `percent` hundredths of the way through the ranks of
/// `sorted`: where that place lies between two ranks, the value that lies
/// as far between the values at these ranks, rounded towards the lower one.
pub open spec fn interpolate(sorted: Seq<(i64, usize)>, percent: int) -> int {
    let place = percent * (sorted.len() - 1);
    let lower = place / 100;
    let part = place % 100;
    if part == 0 {
        sorted[lower].0 as int
    } else {
        sorted[lower].0 + ((sorted[lower + 1].0 - sorted[lower].0) * part) / 100
    }
}

/// The quantile of the numbers in `array` at `percent` hundredths.
pub open spec fn quantile(percent: int, array: Seq<Option<i64>>) -> int {
    interpolate(ranked(array), percent)
}

/// Whether every number in `array` lies between `lo` and `hi`.
pub open spec fn bounded(array: Seq<Option<i64>>, lo: int, hi: int) -> bool {
    forall|j: int| 0 <= j < array.len() ==> (#[trigger] array[j] matches Some(v) ==> lo <= v <= hi)
}

/// The entries of `array` that are numbers, each with its position, in the
/// order of `array`.
fn valid_entries(array: &[Option<i64>]) -> (pairs: Vec<(i64, usize)>)
    ensures
        pairs@ == collect(entry_fn(array@), valid_fn(array@), array@.len() as int),
{
    let mut pairs: Vec<(i64, usize)> = Vec::new();
    let mut j: usize = 0;
    while j < array.len()
        invariant
            j <= array@.len(),
            pairs@ == collect(entry_fn(array@), valid_fn(array@), j as int),
        decreases array@.len() - j,
    {
        if let Some(v) = array[j] {
            pairs.push((v, j));
        }
        j += 1;
    }
    pairs
}

/// The quantile of the numbers in `array` at `percent` hundredths, found by
/// linear interpolation between the ranks of the sorted numbers. Entries
/// that are not numbers are left out.
pub fn compute_quantile(percent: u8, array: &[Option<i64>]) -> (q: i64)
    requires
        percent <= 100,
        exists|k: int| 0 <= k < array@.len() && array@[k] is Some,
    ensures
        q == quantile(percent as int, array@),
        forall|lo: int, hi: int| #[trigger] bounded(array@, lo, hi) ==> lo <= q <= hi,
{
    let total = array.len();
    let mut pairs = valid_entries(array);
    let ghost unsorted = pairs@;
    proof {
        let item = entry_fn(array@);
        let keep = valid_fn(array@);
        assert forall|a: int, b: int| 0 <= a < b < total && keep(a) && keep(b) implies #[trigger] item(
            a,
        ) != #[trigger] item(b) by {
            assert(item(a).1 == a as usize && item(b).1 == b as usize);
        }
        lemma_collect(item, keep, array@.len() as int);
        let k = choose|k: int| 0 <= k < array@.len() && array@[k] is Some;
        assert(keep(k));
        assert(unsorted.contains(item(k)));
    }
    sort_ascending(&mut pairs);
    proof {
        lemma_ascending_total();
        unsorted.lemma_sort_by_ensures(ascending());
        vstd::seq_lib::to_multiset_len(unsorted);
        vstd::seq_lib::to_multiset_len(pairs@);
    }
    let n = pairs.len();
    assert(n >= 1);
    proof {
        assert forall|k: int, lo: int, hi: int|
            #![trigger pairs@[k], bounded(array@, lo, hi)]
            0 <= k < n && bounded(array@, lo, hi) implies lo <= pairs@[k].0 <= hi by {
            vstd::seq_lib::to_multiset_contains(pairs@, pairs@[k]);
            vstd::seq_lib::to_multiset_contains(unsorted, pairs@[k]);
            assert(pairs@.contains(pairs@[k]));
            let u = choose|u: int| 0 <= u < unsorted.len() && unsorted[u] == pairs@[k];
            assert(from_kept(entry_fn(array@), valid_fn(array@), total as int, unsorted[u]));
        }
    }
    assert(0 <= (percent as i128) * ((n - 1) as i128) <= 100 * (n - 1)) by (nonlinear_arith)
        requires
            0 <= percent <= 100,
            n >= 1,
    ;
    let place: i128 = (percent as i128) * ((n - 1) as i128);
    let lower: usize = (place / 100) as usize;
    let part: i128 = place % 100;
    let lower_value = pairs[lower].0;
    if part == 0 {
        return lower_value;
    }
    let upper_value = pairs[lower + 1].0;
    assert(ascending()(pairs@[lower as int], pairs@[lower + 1]));
    let gap: i128 = upper_value as i128 - lower_value as i128;
    assert(0 <= gap * part <= gap * 100) by (nonlinear_arith)
        requires
            0 <= gap,
            0 <= part < 100,
    ;
    let step: i128 = (gap * part) / 100;
    assert(0 <= step <= gap) by (nonlinear_arith)
        requires
            step == (gap * part) / 100,
            0 <= gap * part <= gap * 100,
            0 <= gap,
    ;
    (lower_value as i128 + step) as i64
}

/// Slopes and gradients are given in this many parts of one thousandth of
/// the value's unit per metre.
pub const GRADIENT_SCALE: i64 = 1_000_000;

/// The slope that is taken where none can be fitted: the lapse rate of the
/// standard atmosphere, 0.0065 degrees or 6.5 thousandths of a degree per
/// metre, in millionths of a thousandth.
pub const DEFAULT_GRADIENT: i64 = -6_500_000;

/// The largest magnitude of a value that a profile is fitted to.
pub const VALUE_LIMIT: i64 = 0x8000_0000;

/// The largest magnitude of an elevation that a profile is fitted to.
pub const ELEVATION_LIMIT: i64 = 0x2000_0000;

/// The largest magnitude that a value of a profile can have.
pub const PROFILE_LIMIT: i64 = 0x4000_0000_8000_0000;

/// The largest magnitude that a fitted slope can have.
pub const SLOPE_LIMIT: i64 = 0x1_0000_0000 * 1_000_000;

/// The sum of the entries of `values`.
pub open spec fn seq_sum(values: Seq<i64>) -> int
    decreases values.len(),
{
    if values.len() == 0 {
        0
    } else {
        seq_sum(values.drop_last()) + values.last()
    }
}

/// Whether all elevations are the same.
pub open spec fn flat(elevs: Seq<i64>) -> bool {
    forall|i: int| 0 <= i < elevs.len() ==> #[trigger] elevs[i] == elevs[0]
}

/// The numbers of `values`, as entries of a ranking.
pub open spec fn numbers(values: Seq<i64>) -> Seq<Option<i64>> {
    Seq::new(values.len(), |i: int| Some(values[i]))
}

/// The slope between the stations `i` and `j`: the difference of their
/// values by the difference of their elevations, and zero where the
/// elevations differ by less than a metre.
pub open spec fn pair_slope(elevs: Seq<i64>, values: Seq<i64>, i: int, j: int) -> int {
    let rise = elevs[i] - elevs[j];
    if rise == 0 {
        0
    } else {
        div_trunc((values[i] - values[j]) * GRADIENT_SCALE, rise)
    }
}

/// The slopes between station `i` and the stations after it up to `end`.
pub open spec fn slopes_row(elevs: Seq<i64>, values: Seq<i64>, i: int, end: int) -> Seq<Option<i64>>
    decreases end - i,
{
    if end <= i + 1 {
        Seq::empty()
    } else {
        slopes_row(elevs, values, i, end - 1).push(
            Some(pair_slope(elevs, values, i, end - 1) as i64),
        )
    }
}

/// The slopes between all pairs of stations whose first is below `rows`.
pub open spec fn slopes_upto(elevs: Seq<i64>, values: Seq<i64>, rows: int) -> Seq<Option<i64>>
    decreases rows,
{
    if rows <= 0 {
        Seq::empty()
    } else {
        slopes_upto(elevs, values, rows - 1) + slopes_row(
            elevs,
            values,
            rows - 1,
            values.len() as int,
        )
    }
}

/// How far a profile of slope `slope` rises up to the elevation `elev`.
pub open spec fn lift(slope: int, elev: int) -> int {
    div_trunc(slope * elev, GRADIENT_SCALE as int)
}

/// The slope of the vertical profile: the median of the slopes between all
/// pairs of stations, or the default where the stations are fewer than
/// `num_min_prof` or the bulk of their elevations spans less than
/// `min_elev_diff`.
pub open spec fn profile_slope(
    elevs: Seq<i64>,
    values: Seq<i64>,
    num_min_prof: int,
    min_elev_diff: int,
) -> int {
    if values.len() < num_min_prof || quantile(95, numbers(elevs)) - quantile(5, numbers(elevs))
        < min_elev_diff {
        DEFAULT_GRADIENT as int
    } else {
        quantile(50, slopes_upto(elevs, values, values.len() - 1))
    }
}

/// What each station's value would be at elevation zero on a profile of
/// slope `slope`.
pub open spec fn offsets(elevs: Seq<i64>, values: Seq<i64>, slope: int) -> Seq<Option<i64>> {
    Seq::new(values.len(), |i: int| Some((values[i] - lift(slope, elevs[i] as int)) as i64))
}

/// The vertical profile: the value expected at each station's elevation.
/// Where all elevations are the same this is the mean of the values.
/// Otherwise it is the line whose slope is [`profile_slope`] and whose
/// value at elevation zero is the median of the [`offsets`].
pub open spec fn vertical_profile(
    elevs: Seq<i64>,
    values: Seq<i64>,
    num_min_prof: int,
    min_elev_diff: int,
) -> Seq<i64> {
    if flat(elevs) {
        Seq::new(values.len(), |i: int| div_trunc(seq_sum(values), values.len() as int) as i64)
    } else {
        let slope = profile_slope(elevs, values, num_min_prof, min_elev_diff);
        let base = quantile(50, offsets(elevs, values, slope));
        Seq::new(values.len(), |i: int| (base + lift(slope, elevs[i] as int)) as i64)
    }
}

/// Whether the values and elevations can be fitted: there is one elevation
/// per value, and all lie within their limits.
pub open spec fn fits(elevs: Seq<i64>, values: Seq<i64>) -> bool {
    &&& elevs.len() == values.len()
    &&& forall|i: int| 0 <= i < values.len() ==> -VALUE_LIMIT <= #[trigger] values[i] <= VALUE_LIMIT
    &&& forall|i: int|
        0 <= i < elevs.len() ==> -ELEVATION_LIMIT <= #[trigger] elevs[i] <= ELEVATION_LIMIT
}

/// `values` as entries of a ranking.
fn as_numbers(values: &[i64]) -> (entries: Vec<Option<i64>>)
    ensures
        entries@ == numbers(values@),
{
    let mut entries: Vec<Option<i64>> = Vec::with_capacity(values.len());
    let mut i: usize = 0;
    while i < values.len()
        invariant
            i <= values@.len(),
            entries@.len() == i,
            forall|k: int| 0 <= k < i ==> entries@[k] == Some(values@[k]),
        decreases values@.len() - i,
    {
        entries.push(Some(values[i]));
        i += 1;
    }
    assert(entries@ =~= numbers(values@));
    entries
}

/// [`lift`], computed.
fn lift_exec(slope: i64, elev: i64) -> (rise: i64)
    requires
        -SLOPE_LIMIT <= slope <= SLOPE_LIMIT,
        -ELEVATION_LIMIT <= elev <= ELEVATION_LIMIT,
    ensures
        rise == lift(slope as int, elev as int),
        -0x2000_0000_0000_0000 <= rise <= 0x2000_0000_0000_0000,
{
    assert(-0x1_0000_0000 * 1_000_000 * 0x2000_0000 <= (slope as i128) * (elev as i128)
        <= 0x1_0000_0000 * 1_000_000 * 0x2000_0000) by (nonlinear_arith)
        requires
            -0x1_0000_0000 * 1_000_000 <= slope <= 0x1_0000_0000 * 1_000_000,
            -0x2000_0000 <= elev <= 0x2000_0000,
    ;
    let product: i128 = (slope as i128) * (elev as i128);
    let q = divide(product, GRADIENT_SCALE as i128);
    assert(-0x2000_0000_0000_0000 <= q <= 0x2000_0000_0000_0000) by {
        assert(magnitude(product as int) / 1_000_000 <= 0x2000_0000_0000_0000);
    }
    q as i64
}

/// [`pair_slope`], computed.
fn slope_between(elevs: &[i64], values: &[i64], i: usize, j: usize) -> (slope: i64)
    requires
        fits(elevs@, values@),
        i < values@.len(),
        j < values@.len(),
    ensures
        slope == pair_slope(elevs@, values@, i as int, j as int),
        -SLOPE_LIMIT <= slope <= SLOPE_LIMIT,
{
    let rise: i128 = elevs[i] as i128 - elevs[j] as i128;
    if rise == 0 {
        return 0;
    }
    let gain: i128 = (values[i] as i128 - values[j] as i128) * (GRADIENT_SCALE as i128);
    let q = divide(gain, rise);
    q as i64
}

/// The sum of `values`.
fn sum_of(values: &[i64]) -> (sum: i128)
    requires
        forall|i: int| 0 <= i < values@.len() ==> -VALUE_LIMIT <= #[trigger] values@[i] <= VALUE_LIMIT,
    ensures
        sum == seq_sum(values@),
        -values@.len() * VALUE_LIMIT <= sum <= values@.len() * VALUE_LIMIT,
{
    let mut sum: i128 = 0;
    let mut i: usize = 0;
    while i < values.len()
        invariant
            i <= values@.len(),
            forall|k: int|
                0 <= k < values@.len() ==> -VALUE_LIMIT <= #[trigger] values@[k] <= VALUE_LIMIT,
            sum == seq_sum(values@.take(i as int)),
            -i * VALUE_LIMIT <= sum <= i * VALUE_LIMIT,
        decreases values@.len() - i,
    {
        assert(values@.take(i + 1).drop_last() =~= values@.take(i as int));
        sum = sum + values[i] as i128;
        i += 1;
    }
    assert(values@.take(values@.len() as int) =~= values@);
    sum
}

/// Whether all elevations are the same.
fn is_flat(elevs: &[i64]) -> (same: bool)
    ensures
        same == flat(elevs@),
{
    let mut i: usize = 0;
    while i < elevs.len()
        invariant
            i <= elevs@.len(),
            forall|k: int| 0 <= k < i ==> #[trigger] elevs@[k] == elevs@[0],
        decreases elevs@.len() - i,
    {
        if elevs[i] != elevs[0] {
            return false;
        }
        i += 1;
    }
    true
}

/// The slopes between all pairs of stations.
fn all_slopes(elevs: &[i64], values: &[i64]) -> (slopes: Vec<Option<i64>>)
    requires
        fits(elevs@, values@),
        values@.len() >= 1,
    ensures
        slopes@ == slopes_upto(elevs@, values@, values@.len() - 1),
        bounded(slopes@, -SLOPE_LIMIT as int, SLOPE_LIMIT as int),
        values@.len() >= 2 ==> slopes@.len() >= 1,
{
    let n = values.len();
    let mut m: Vec<Option<i64>> = Vec::new();
    let mut i: usize = 0;
    while i < n - 1
        invariant
            n == values@.len(),
            n >= 1,
            i <= n - 1,
            fits(elevs@, values@),
            m@ == slopes_upto(elevs@, values@, i as int),
            bounded(m@, -SLOPE_LIMIT as int, SLOPE_LIMIT as int),
            i >= 1 ==> m@.len() >= 1,
        decreases n - 1 - i,
    {
        let ghost before = m@;
        let mut j: usize = i + 1;
        while j < n
            invariant
                n == values@.len(),
                i < n - 1,
                i + 1 <= j <= n,
                fits(elevs@, values@),
                m@ == before + slopes_row(elevs@, values@, i as int, j as int),
                bounded(m@, -SLOPE_LIMIT as int, SLOPE_LIMIT as int),
                j > i + 1 ==> m@.len() >= 1,
            decreases n - j,
        {
            let slope = slope_between(elevs, values, i, j);
            m.push(Some(slope));
            assert(m@ =~= before + slopes_row(elevs@, values@, i as int, j + 1));
            j += 1;
        }
        i += 1;
    }
    m
}

/// The vertical profile of the values over the elevations, fitted by median
/// slopes: the value expected at each station's elevation.
pub fn compute_vertical_profile_theil_sen(
    elevs: &[i64],
    values: &[i64],
    num_min_prof: usize,
    min_elev_diff: i64,
) -> (profile: Vec<i64>)
    requires
        fits(elevs@, values@),
    ensures
        profile@ == vertical_profile(elevs@, values@, num_min_prof as int, min_elev_diff as int),
        forall|k: int|
            0 <= k < profile@.len() ==> -PROFILE_LIMIT <= #[trigger] profile@[k] <= PROFILE_LIMIT,
{
    let n = values.len();
    let mut profile: Vec<i64> = Vec::with_capacity(n);
    if is_flat(elevs) {
        if n == 0 {
            assert(profile@ =~= vertical_profile(
                elevs@,
                values@,
                num_min_prof as int,
                min_elev_diff as int,
            ));
            return profile;
        }
        let sum = sum_of(values);
        let mean = divide(sum, n as i128);
        assert(-VALUE_LIMIT <= mean <= VALUE_LIMIT) by (nonlinear_arith)
            requires
                -n * VALUE_LIMIT <= sum <= n * VALUE_LIMIT,
                n >= 1,
                mean == div_trunc(sum as int, n as int),
        ;
        let mut i: usize = 0;
        while i < n
            invariant
                i <= n,
                profile@.len() == i,
                -VALUE_LIMIT <= mean <= VALUE_LIMIT,
                forall|k: int| 0 <= k < i ==> #[trigger] profile@[k] == mean as i64,
            decreases n - i,
        {
            profile.push(mean as i64);
            i += 1;
        }
        assert(profile@ =~= vertical_profile(
            elevs@,
            values@,
            num_min_prof as int,
            min_elev_diff as int,
        ));
        return profile;
    }
    assert(n >= 2) by {
        if n < 2 {
            assert(flat(elevs@));
        }
    }
    let heights = as_numbers(elevs);
    assert(heights@[0] is Some);
    assert(bounded(heights@, -ELEVATION_LIMIT as int, ELEVATION_LIMIT as int));
    // is the terrain too flat for a fit?
    let z05 = compute_quantile(5, heights.as_slice());
    let z95 = compute_quantile(95, heights.as_slice());
    let use_basic = n < num_min_prof || (z95 - z05) < min_elev_diff;
    let m_median: i64 = if use_basic {
        DEFAULT_GRADIENT
    } else {
        let m = all_slopes(elevs, values);
        assert(exists|k: int| 0 <= k < m@.len() && m@[k] is Some) by {
            lemma_slopes_are_numbers(elevs@, values@, n - 1);
            assert(m@[0] is Some);
        }
        compute_quantile(50, m.as_slice())
    };
    let ghost slope = profile_slope(elevs@, values@, num_min_prof as int, min_elev_diff as int);
    assert(m_median == slope);
    let mut q: Vec<Option<i64>> = Vec::with_capacity(n);
    let mut i: usize = 0;
    while i < n
        invariant
            i <= n,
            n == values@.len(),
            fits(elevs@, values@),
            -SLOPE_LIMIT <= m_median <= SLOPE_LIMIT,
            q@.len() == i,
            forall|k: int|
                0 <= k < i ==> q@[k] == Some(
                    (values@[k] - lift(m_median as int, elevs@[k] as int)) as i64,
                ),
            bounded(q@, -0x2000_0000_8000_0000, 0x2000_0000_8000_0000),
        decreases n - i,
    {
        let rise = lift_exec(m_median, elevs[i]);
        q.push(Some(values[i] - rise));
        i += 1;
    }
    assert(q@ =~= offsets(elevs@, values@, slope));
    assert(q@[0] is Some);
    let q_median = compute_quantile(50, q.as_slice());
    let mut i: usize = 0;
    while i < n
        invariant
            i <= n,
            n == values@.len(),
            fits(elevs@, values@),
            -SLOPE_LIMIT <= m_median <= SLOPE_LIMIT,
            -0x2000_0000_8000_0000 <= q_median <= 0x2000_0000_8000_0000,
            profile@.len() == i,
            forall|k: int|
                0 <= k < i ==> -PROFILE_LIMIT <= #[trigger] profile@[k] <= PROFILE_LIMIT,
            forall|k: int|
                0 <= k < i ==> profile@[k] == (q_median + lift(
                    m_median as int,
                    elevs@[k] as int,
                )) as i64,
        decreases n - i,
    {
        let rise = lift_exec(m_median, elevs[i]);
        profile.push(q_median + rise);
        i += 1;
    }
    assert(profile@ =~= vertical_profile(
        elevs@,
        values@,
        num_min_prof as int,
        min_elev_diff as int,
    ));
    profile
}

/// Where all elevations are the same, the profile is constant: at every
/// station it is the mean of the values, whatever the smallest number of
/// stations and the smallest spread of elevations that are asked for.
pub proof fn lemma_flat_profile_is_mean(
    elevs: Seq<i64>,
    values: Seq<i64>,
    num_min_prof: int,
    min_elev_diff: int,
    k: int,
)
    requires
        flat(elevs),
        0 <= k < values.len(),
    ensures
        vertical_profile(elevs, values, num_min_prof, min_elev_diff).len() == values.len(),
        vertical_profile(elevs, values, num_min_prof, min_elev_diff)[k] == div_trunc(
            seq_sum(values),
            values.len() as int,
        ) as i64,
{
}

/// Every slope is a number.
pub proof fn lemma_slopes_are_numbers(elevs: Seq<i64>, values: Seq<i64>, rows: int)
    ensures
        forall|k: int|
            0 <= k < slopes_upto(elevs, values, rows).len() ==> #[trigger] slopes_upto(
                elevs,
                values,
                rows,
            )[k] is Some,
    decreases rows,
{
    if rows > 0 {
        lemma_slopes_are_numbers(elevs, values, rows - 1);
        lemma_row_is_numbers(elevs, values, rows - 1, values.len() as int);
    }
}

/// Every slope of a row is a number.
pub proof fn lemma_row_is_numbers(elevs: Seq<i64>, values: Seq<i64>, i: int, end: int)
    ensures
        forall|k: int|
            0 <= k < slopes_row(elevs, values, i, end).len() ==> #[trigger] slopes_row(
                elevs,
                values,
                i,
                end,
            )[k] is Some,
    decreases end - i,
{
    if end > i + 1 {
        lemma_row_is_numbers(elevs, values, i, end - 1);
    }
}

} // verus!
