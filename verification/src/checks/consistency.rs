//! Checks of the consistency between observations of different kinds. Values
//! are whole numbers of thousandths; a reading that is no finite number is
//! neither greater nor less than anything and equals nothing.

use crate::error::Error;
use crate::flag::Flag;
use crate::reading::Reading;
use crate::checks::series::SeriesCache;
use vstd::prelude::*;

verus! {

/// Cloud bases below this height, 1500 metres, are low.
pub const LOW_CLOUD_BASE: i32 = 1_500_000;

/// Cloud bases below this height, 2500 metres, are examined against the
/// cloud cover.
pub const MIDDLE_CLOUD_BASE: i32 = 2_500_000;

/// The medium cloud type that goes with a low cloud base.
pub const MEDIUM_CLOUD_TYPE: i32 = 2_000;

/// Whether `a` is less than `b`, both being finite numbers.
pub open spec fn less(a: Reading, b: int) -> bool {
    a matches Reading::Finite(v) && v < b
}

/// Whether `a` is greater than `b`, both being finite numbers.
pub open spec fn greater(a: Reading, b: int) -> bool {
    a matches Reading::Finite(v) && v > b
}

/// Whether `a` is the number `b`.
pub open spec fn equals(a: Reading, b: int) -> bool {
    a matches Reading::Finite(v) && v == b
}

/// The verdict on a first value that, once corrected, must not exceed a
/// second.
pub open spec fn greater_than_flag(
    datum1: Option<Reading>,
    datum2: Option<Reading>,
    datum1_correction: int,
) -> Flag {
    match (datum1, datum2) {
        (Some(Reading::Finite(a)), Some(b)) => if less(b, a + datum1_correction) {
            Flag::Fail
        } else {
            Flag::Pass
        },
        (Some(_), Some(_)) => Flag::Pass,
        _ => Flag::DataMissing,
    }
}

/// Fails where the first value, with the correction added, is greater than
/// the second.
pub fn greater_than(datum1: Option<Reading>, datum2: Option<Reading>, datum1_correction: i32) -> (flag:
    Flag)
    ensures
        flag == greater_than_flag(datum1, datum2, datum1_correction as int),
{
    if datum1.is_none() || datum2.is_none() {
        return Flag::DataMissing;
    }
    if let Some(Reading::Finite(a)) = datum1 {
        if let Some(Reading::Finite(b)) = datum2 {
            if a as i64 + datum1_correction as i64 > b as i64 {
                return Flag::Fail;
            }
        }
    }
    Flag::Pass
}

/// The verdict on two values that must not differ by more than a threshold.
pub open spec fn not_equal_flag(datum1: Option<Reading>, datum2: Option<Reading>, threshold: int) -> Flag {
    match (datum1, datum2) {
        (Some(Reading::Finite(a)), Some(Reading::Finite(b))) => if a - b > threshold || b - a
            > threshold {
            Flag::Fail
        } else {
            Flag::Pass
        },
        (Some(_), Some(_)) => Flag::Pass,
        _ => Flag::DataMissing,
    }
}

/// Fails where the two values differ by more than the threshold.
pub fn not_equal(datum1: Option<Reading>, datum2: Option<Reading>, threshold: i32) -> (flag: Flag)
    ensures
        flag == not_equal_flag(datum1, datum2, threshold as int),
{
    if datum1.is_none() || datum2.is_none() {
        return Flag::DataMissing;
    }
    if let Some(Reading::Finite(a)) = datum1 {
        if let Some(Reading::Finite(b)) = datum2 {
            let diff: i64 = a as i64 - b as i64;
            if diff > threshold as i64 || -diff > threshold as i64 {
                return Flag::Fail;
            }
        }
    }
    Flag::Pass
}

/// The lesser of the least reading so far and a further reading. A reading
/// that is no finite number gives way to any other.
pub open spec fn lesser(so_far: Option<Reading>, next: Reading) -> Reading {
    match (so_far, next) {
        (Some(Reading::Finite(a)), Reading::Finite(b)) => if b < a {
            next
        } else {
            Reading::Finite(a)
        },
        (Some(Reading::Finite(a)), Reading::NotFinite) => Reading::Finite(a),
        _ => next,
    }
}

/// The greater of the greatest reading so far and a further reading. A
/// reading that is no finite number gives way to any other.
pub open spec fn larger(so_far: Option<Reading>, next: Reading) -> Reading {
    match (so_far, next) {
        (Some(Reading::Finite(a)), Reading::Finite(b)) => if b > a {
            next
        } else {
            Reading::Finite(a)
        },
        (Some(Reading::Finite(a)), Reading::NotFinite) => Reading::Finite(a),
        _ => next,
    }
}

/// The least of the readings that are present, if any is.
pub open spec fn least(sequence: Seq<Option<Reading>>) -> Option<Reading>
    decreases sequence.len(),
{
    if sequence.len() == 0 {
        None
    } else {
        match sequence.last() {
            Some(next) => Some(lesser(least(sequence.drop_last()), next)),
            None => least(sequence.drop_last()),
        }
    }
}

/// The greatest of the readings that are present, if any is.
pub open spec fn greatest(sequence: Seq<Option<Reading>>) -> Option<Reading>
    decreases sequence.len(),
{
    if sequence.len() == 0 {
        None
    } else {
        match sequence.last() {
            Some(next) => Some(larger(greatest(sequence.drop_last()), next)),
            None => greatest(sequence.drop_last()),
        }
    }
}

/// Whether one of the first `n` entries of the sequence is absent.
pub open spec fn missing_before(sequence: Seq<Option<Reading>>, n: int) -> bool {
    exists|k: int| 0 <= k < n && #[trigger] sequence[k] is None
}

/// Whether an entry of the sequence is absent.
pub open spec fn any_missing(sequence: Seq<Option<Reading>>) -> bool {
    missing_before(sequence, sequence.len() as int)
}

/// The verdict on a single value that the extreme of a sequence, with the
/// adjustment added, must not exceed: missing data where the single value
/// or the whole sequence is absent; a failure where the extreme exceeds the
/// single value; else missing data where part of the sequence is absent.
pub open spec fn extreme_flag(
    single: Option<Reading>,
    extreme: Option<Reading>,
    missing: bool,
    adjustment: int,
) -> Flag {
    match (single, extreme) {
        (Some(s), Some(e)) => if e matches Reading::Finite(v) && less(s, v + adjustment) {
            Flag::Fail
        } else if missing {
            Flag::DataMissing
        } else {
            Flag::Pass
        },
        _ => Flag::DataMissing,
    }
}

/// [`extreme_flag`], computed.
fn judge_extreme(
    single: Option<Reading>,
    extreme: Option<Reading>,
    missing: bool,
    adjustment: i32,
) -> (flag: Flag)
    ensures
        flag == extreme_flag(single, extreme, missing, adjustment as int),
{
    let single = match single {
        Some(value) => value,
        None => {
            return Flag::DataMissing;
        },
    };
    let extreme = match extreme {
        Some(value) => value,
        None => {
            return Flag::DataMissing;
        },
    };
    if let Reading::Finite(e) = extreme {
        if let Reading::Finite(s) = single {
            if e as i64 + adjustment as i64 > s as i64 {
                return Flag::Fail;
            }
        }
    }
    if missing {
        Flag::DataMissing
    } else {
        Flag::Pass
    }
}

/// Fails where the least value of the sequence, with the adjustment added,
/// is greater than the single value.
pub fn min_greater_than_single(
    single: Option<Reading>,
    sequence: &[Option<Reading>],
    adjustment: i32,
) -> (flag: Flag)
    ensures
        flag == extreme_flag(single, least(sequence@), any_missing(sequence@), adjustment as int),
{
    let mut min: Option<Reading> = None;
    let mut missing = false;
    let mut k: usize = 0;
    while k < sequence.len()
        invariant
            k <= sequence@.len(),
            min == least(sequence@.take(k as int)),
            missing == missing_before(sequence@, k as int),
        decreases sequence@.len() - k,
    {
        proof {
            assert(sequence@.take(k + 1).drop_last() =~= sequence@.take(k as int));
        }
        match sequence[k] {
            Some(value) => {
                min = Some(
                    match (min, value) {
                        (Some(Reading::Finite(a)), Reading::Finite(b)) => if b < a {
                            value
                        } else {
                            Reading::Finite(a)
                        },
                        (Some(Reading::Finite(a)), Reading::NotFinite) => Reading::Finite(a),
                        _ => value,
                    },
                );
            },
            None => {
                missing = true;
            },
        }
        k += 1;
    }
    assert(sequence@.take(k as int) =~= sequence@);
    judge_extreme(single, min, missing, adjustment)
}

/// Fails where the greatest value of the sequence, with the adjustment
/// added, is greater than the single value.
pub fn max_greater_than_single(
    single: Option<Reading>,
    sequence: &[Option<Reading>],
    adjustment: i32,
) -> (flag: Flag)
    ensures
        flag == extreme_flag(
            single,
            greatest(sequence@),
            any_missing(sequence@),
            adjustment as int,
        ),
{
    let mut max: Option<Reading> = None;
    let mut missing = false;
    let mut k: usize = 0;
    while k < sequence.len()
        invariant
            k <= sequence@.len(),
            max == greatest(sequence@.take(k as int)),
            missing == missing_before(sequence@, k as int),
        decreases sequence@.len() - k,
    {
        proof {
            assert(sequence@.take(k + 1).drop_last() =~= sequence@.take(k as int));
        }
        match sequence[k] {
            Some(value) => {
                max = Some(
                    match (max, value) {
                        (Some(Reading::Finite(a)), Reading::Finite(b)) => if b > a {
                            value
                        } else {
                            Reading::Finite(a)
                        },
                        (Some(Reading::Finite(a)), Reading::NotFinite) => Reading::Finite(a),
                        _ => value,
                    },
                );
            },
            None => {
                missing = true;
            },
        }
        k += 1;
    }
    assert(sequence@.take(k as int) =~= sequence@);
    judge_extreme(single, max, missing, adjustment)
}

/// The flag of an entry of a set before it is compared: missing data where
/// it is absent, else a pass.
pub open spec fn presence_flag(entry: Option<Reading>) -> Flag {
    if entry is None {
        Flag::DataMissing
    } else {
        Flag::Pass
    }
}

/// Whether every entry of the set is absent.
pub open spec fn all_missing(set: Seq<Option<Reading>>) -> bool {
    forall|k: int| 0 <= k < set.len() ==> set[k] is None
}

/// The place and the value of the lowest of the first `n` entries: going
/// through the entries that are present, each takes the place of the
/// lowest so far unless that one is less.
pub open spec fn lowest(set: Seq<Option<Reading>>, n: int) -> Option<(int, Reading)>
    decreases n,
{
    if n <= 0 {
        None
    } else {
        match (lowest(set, n - 1), set[n - 1]) {
            (so_far, None) => so_far,
            (Some((i, Reading::Finite(a))), Some(next)) => if greater(next, a as int) {
                Some((i, Reading::Finite(a)))
            } else {
                Some((n - 1, next))
            },
            (_, Some(next)) => Some((n - 1, next)),
        }
    }
}

/// The verdict on an aggregate that must not be less than the lowest entry
/// of a set with the adjustment added, and the flags of the entries: where
/// it is less, the aggregate and the lowest entry fail.
pub open spec fn aggregate_verdict(
    aggregate: Option<Reading>,
    set: Seq<Option<Reading>>,
    adjustment: int,
) -> (Flag, Seq<Flag>) {
    match (aggregate, lowest(set, set.len() as int)) {
        (Some(total), Some((place, low))) => {
            let flags = Seq::new(set.len(), |k: int| presence_flag(set[k]));
            if low matches Reading::Finite(v) && less(total, v + adjustment) {
                (Flag::Fail, flags.update(place, Flag::Fail))
            } else {
                (Flag::Pass, flags)
            }
        },
        _ => (Flag::DataMissing, Seq::new(set.len(), |k: int| Flag::DataMissing)),
    }
}

/// A vector of `n` flags `flag`.
fn repeat_flag(flag: Flag, n: usize) -> (flags: Vec<Flag>)
    ensures
        flags@ == Seq::new(n as nat, |k: int| flag),
{
    let mut flags: Vec<Flag> = Vec::with_capacity(n);
    let mut k: usize = 0;
    while k < n
        invariant
            k <= n,
            flags@.len() == k,
            forall|m: int| 0 <= m < k ==> flags@[m] == flag,
        decreases n - k,
    {
        flags.push(flag);
        k += 1;
    }
    assert(flags@ =~= Seq::new(n as nat, |k: int| flag));
    flags
}

/// Fails where the aggregate is less than the lowest entry of the set with
/// the adjustment added.
pub fn aggregate_less_than_set(
    aggregate: Option<Reading>,
    set: &[Option<Reading>],
    adjustment: i32,
) -> (verdict: (Flag, Vec<Flag>))
    ensures
        (verdict.0, verdict.1@) == aggregate_verdict(aggregate, set@, adjustment as int),
{
    let n = set.len();
    let mut set_flags: Vec<Flag> = Vec::with_capacity(n);
    let mut min: Option<(usize, Reading)> = None;
    let mut k: usize = 0;
    while k < n
        invariant
            k <= n,
            n == set@.len(),
            set_flags@.len() == k,
            forall|m: int| 0 <= m < k ==> set_flags@[m] == presence_flag(set@[m]),
            match min {
                Some((i, low)) => lowest(set@, k as int) == Some((i as int, low)) && i < k,
                None => lowest(set@, k as int) is None,
            },
        decreases n - k,
    {
        match set[k] {
            None => {
                set_flags.push(Flag::DataMissing);
            },
            Some(next) => {
                set_flags.push(Flag::Pass);
                let keep = match (min, next) {
                    (Some((_, Reading::Finite(a))), Reading::Finite(b)) => b > a,
                    _ => false,
                };
                if !keep {
                    min = Some((k, next));
                }
            },
        }
        k += 1;
    }
    let total = match aggregate {
        Some(total) => total,
        None => {
            return (Flag::DataMissing, repeat_flag(Flag::DataMissing, n));
        },
    };
    let (place, low) = match min {
        Some(found) => found,
        None => {
            return (Flag::DataMissing, repeat_flag(Flag::DataMissing, n));
        },
    };
    assert(set_flags@ =~= Seq::new(set@.len(), |k: int| presence_flag(set@[k])));
    if let Reading::Finite(v) = low {
        if let Reading::Finite(t) = total {
            if (t as i64) < v as i64 + adjustment as i64 {
                set_flags.set(place, Flag::Fail);
                return (Flag::Fail, set_flags);
            }
        }
    }
    (Flag::Pass, set_flags)
}

/// The flag of an entry of a set that the single value must not exceed by
/// more than the adjustment.
pub open spec fn element_flag(single: Reading, entry: Option<Reading>, adjustment: int) -> Flag {
    match entry {
        Some(Reading::Finite(v)) => if greater(single, v + adjustment) {
            Flag::Fail
        } else {
            Flag::Pass
        },
        Some(Reading::NotFinite) => Flag::Pass,
        None => Flag::DataMissing,
    }
}

/// The verdict on a single value that must not exceed any entry of a set by
/// more than the adjustment, and the flags of the entries: the single value
/// fails where an entry fails, and else misses data where an entry does.
pub open spec fn element_verdict(
    single: Option<Reading>,
    set: Seq<Option<Reading>>,
    adjustment: int,
) -> (Flag, Seq<Flag>) {
    match single {
        Some(value) if !all_missing(set) => {
            let flags = Seq::new(set.len(), |k: int| element_flag(value, set[k], adjustment));
            (
                if flags.contains(Flag::Fail) {
                    Flag::Fail
                } else if flags.contains(Flag::DataMissing) {
                    Flag::DataMissing
                } else {
                    Flag::Pass
                },
                flags,
            )
        },
        _ => (Flag::DataMissing, Seq::new(set.len(), |k: int| Flag::DataMissing)),
    }
}

/// Fails the single value, and each entry of the set that it exceeds by
/// more than the adjustment.
pub fn single_greater_than_element(
    single: Option<Reading>,
    set: &[Option<Reading>],
    adjustment: i32,
) -> (verdict: (Flag, Vec<Flag>))
    ensures
        (verdict.0, verdict.1@) == element_verdict(single, set@, adjustment as int),
{
    let n = set.len();
    let value = match single {
        Some(value) => value,
        None => {
            return (Flag::DataMissing, repeat_flag(Flag::DataMissing, n));
        },
    };
    let mut set_flags: Vec<Flag> = Vec::with_capacity(n);
    let mut failed = false;
    let mut missing = false;
    let mut present = false;
    let mut k: usize = 0;
    while k < n
        invariant
            k <= n,
            n == set@.len(),
            set_flags@.len() == k,
            forall|m: int|
                0 <= m < k ==> set_flags@[m] == element_flag(value, set@[m], adjustment as int),
            failed == set_flags@.contains(Flag::Fail),
            missing == set_flags@.contains(Flag::DataMissing),
            present == exists|m: int| 0 <= m < k && set@[m] is Some,
        decreases n - k,
    {
        let flag = match set[k] {
            Some(Reading::Finite(v)) => {
                let exceeds = match value {
                    Reading::Finite(s) => s as i64 > v as i64 + adjustment as i64,
                    Reading::NotFinite => false,
                };
                if exceeds {
                    Flag::Fail
                } else {
                    Flag::Pass
                }
            },
            Some(Reading::NotFinite) => Flag::Pass,
            None => Flag::DataMissing,
        };
        let ghost before = set_flags@;
        set_flags.push(flag);
        proof {
            assert forall|f: Flag| set_flags@.contains(f) == (before.contains(f) || f == flag) by {
                if before.contains(f) {
                    let m = choose|m: int| 0 <= m < before.len() && before[m] == f;
                    assert(set_flags@[m] == f);
                }
                if f == flag {
                    assert(set_flags@[k as int] == f);
                }
                if set_flags@.contains(f) {
                    let m = choose|m: int| 0 <= m < set_flags@.len() && set_flags@[m] == f;
                    if m < k {
                        assert(before[m] == f);
                    }
                }
            }
            if set@[k as int] is Some {
                assert(exists|m: int| 0 <= m < k + 1 && set@[m] is Some);
            }
        }
        if flag == Flag::Fail {
            failed = true;
        }
        if flag == Flag::DataMissing {
            missing = true;
        }
        if set[k].is_some() {
            present = true;
        }
        k += 1;
    }
    if !present {
        assert(all_missing(set@));
        return (Flag::DataMissing, repeat_flag(Flag::DataMissing, n));
    }
    proof {
        let m = choose|m: int| 0 <= m < n && set@[m] is Some;
        assert(!all_missing(set@));
        assert(set_flags@ =~= Seq::new(
            set@.len(),
            |k: int| element_flag(value, set@[k], adjustment as int),
        ));
    }
    let single_flag = if failed {
        Flag::Fail
    } else if missing {
        Flag::DataMissing
    } else {
        Flag::Pass
    };
    (single_flag, set_flags)
}

/// The verdict on the clouds of one observation time: missing data if one
/// of the three values is absent; a failure if the cloud base is low and
/// there is no low cloud, unless the medium cloud is of the type that goes
/// with a low base.
pub open spec fn cloud_flag(
    low_type_cloud: Option<Reading>,
    medium_type_cloud: Option<Reading>,
    cloud_base_height: Option<Reading>,
) -> Flag {
    match (low_type_cloud, medium_type_cloud, cloud_base_height) {
        (Some(low), Some(medium), Some(base)) => if less(base, LOW_CLOUD_BASE as int) && equals(
            low,
            0,
        ) && !equals(medium, MEDIUM_CLOUD_TYPE as int) {
            Flag::Fail
        } else {
            Flag::Pass
        },
        _ => Flag::DataMissing,
    }
}

/// The verdict on the clouds of one observation time: missing data if one
/// of the three values is absent; a failure if the cloud base is not high
/// and there are both a low cloud and a cloud cover.
pub open spec fn cloud_flag2(
    low_type_cloud: Option<Reading>,
    cloud_area_fraction: Option<Reading>,
    cloud_base_height: Option<Reading>,
) -> Flag {
    match (low_type_cloud, cloud_area_fraction, cloud_base_height) {
        (Some(low), Some(fraction), Some(base)) => if less(base, MIDDLE_CLOUD_BASE as int)
            && !equals(low, 0) && !equals(fraction, 0) {
            Flag::Fail
        } else {
            Flag::Pass
        },
        _ => Flag::DataMissing,
    }
}

/// Whether a reading is the number `b`.
fn equals_exec(a: Reading, b: i32) -> (same: bool)
    ensures
        same == equals(a, b as int),
{
    match a {
        Reading::Finite(v) => v == b,
        Reading::NotFinite => false,
    }
}

/// Whether a reading is a number less than `b`.
fn less_exec(a: Reading, b: i32) -> (is_less: bool)
    ensures
        is_less == less(a, b as int),
{
    match a {
        Reading::Finite(v) => v < b,
        Reading::NotFinite => false,
    }
}

/// Consistency check between the type of the low clouds, the type of the
/// medium clouds and the height of the cloud base.
///
/// Fails with a shape error where the three slices differ in length.
pub fn cloud_consistency_check(
    low_type_cloud: &[Option<Reading>],
    medium_type_cloud: &[Option<Reading>],
    cloud_base_height: &[Option<Reading>],
) -> (checked: Result<Vec<Flag>, Error>)
    ensures
        checked is Err <==> (low_type_cloud@.len() != medium_type_cloud@.len()
            || low_type_cloud@.len() != cloud_base_height@.len()),
        checked matches Err(e) ==> e.is_shape("all input slices must have the same dimensions"@),
        checked matches Ok(flags) ==> {
            &&& flags@.len() == low_type_cloud@.len()
            &&& forall|k: int|
                0 <= k < flags@.len() ==> #[trigger] flags@[k] == cloud_flag(
                    low_type_cloud@[k],
                    medium_type_cloud@[k],
                    cloud_base_height@[k],
                )
        },
{
    let n = low_type_cloud.len();
    if n != medium_type_cloud.len() || n != cloud_base_height.len() {
        return Err(Error::shape("all input slices must have the same dimensions"));
    }
    let mut flags: Vec<Flag> = Vec::with_capacity(n);
    let mut k: usize = 0;
    while k < n
        invariant
            k <= n,
            n == low_type_cloud@.len(),
            n == medium_type_cloud@.len(),
            n == cloud_base_height@.len(),
            flags@.len() == k,
            forall|m: int|
                0 <= m < k ==> #[trigger] flags@[m] == cloud_flag(
                    low_type_cloud@[m],
                    medium_type_cloud@[m],
                    cloud_base_height@[m],
                ),
        decreases n - k,
    {
        let flag = match (low_type_cloud[k], medium_type_cloud[k], cloud_base_height[k]) {
            (Some(low), Some(medium), Some(base)) => {
                if less_exec(base, LOW_CLOUD_BASE) && equals_exec(low, 0) && !equals_exec(
                    medium,
                    MEDIUM_CLOUD_TYPE,
                ) {
                    Flag::Fail
                } else {
                    Flag::Pass
                }
            },
            _ => Flag::DataMissing,
        };
        flags.push(flag);
        k += 1;
    }
    Ok(flags)
}

/// Consistency check between the type of the low clouds, the cloud cover
/// and the height of the cloud base.
///
/// Fails with a shape error where the three slices differ in length.
pub fn cloud_consistency_check2(
    low_type_cloud: &[Option<Reading>],
    cloud_area_fraction: &[Option<Reading>],
    cloud_base_height: &[Option<Reading>],
) -> (checked: Result<Vec<Flag>, Error>)
    ensures
        checked is Err <==> (low_type_cloud@.len() != cloud_area_fraction@.len()
            || low_type_cloud@.len() != cloud_base_height@.len()),
        checked matches Err(e) ==> e.is_shape("all input slices must have the same dimensions"@),
        checked matches Ok(flags) ==> {
            &&& flags@.len() == low_type_cloud@.len()
            &&& forall|k: int|
                0 <= k < flags@.len() ==> #[trigger] flags@[k] == cloud_flag2(
                    low_type_cloud@[k],
                    cloud_area_fraction@[k],
                    cloud_base_height@[k],
                )
        },
{
    let n = low_type_cloud.len();
    if n != cloud_area_fraction.len() || n != cloud_base_height.len() {
        return Err(Error::shape("all input slices must have the same dimensions"));
    }
    let mut flags: Vec<Flag> = Vec::with_capacity(n);
    let mut k: usize = 0;
    while k < n
        invariant
            k <= n,
            n == low_type_cloud@.len(),
            n == cloud_area_fraction@.len(),
            n == cloud_base_height@.len(),
            flags@.len() == k,
            forall|m: int|
                0 <= m < k ==> #[trigger] flags@[m] == cloud_flag2(
                    low_type_cloud@[m],
                    cloud_area_fraction@[m],
                    cloud_base_height@[m],
                ),
        decreases n - k,
    {
        let flag = match (low_type_cloud[k], cloud_area_fraction[k], cloud_base_height[k]) {
            (Some(low), Some(fraction), Some(base)) => {
                if less_exec(base, MIDDLE_CLOUD_BASE) && !equals_exec(low, 0) && !equals_exec(
                    fraction,
                    0,
                ) {
                    Flag::Fail
                } else {
                    Flag::Pass
                }
            },
            _ => Flag::DataMissing,
        };
        flags.push(flag);
        k += 1;
    }
    Ok(flags)
}

/// The verdict on a pair of which the first must not lie below a limit
/// while the second is a special value.
pub open spec fn special_pair_flag(
    elem1: Option<Reading>,
    limit: int,
    elem2: Option<Reading>,
    special_value: int,
) -> Flag {
    match (elem1, elem2) {
        (Some(a), Some(b)) => if less(a, limit) && equals(b, special_value) {
            Flag::Fail
        } else {
            Flag::Pass
        },
        _ => Flag::DataMissing,
    }
}

/// Whether a reading is a number between two limits.
pub open spec fn in_range(a: Reading, lower_limit: int, upper_limit: int) -> bool {
    a matches Reading::Finite(v) && lower_limit <= v <= upper_limit
}

/// The verdict on a pair of which each must lie in its range.
pub open spec fn range_pair_flag(
    elem1: Option<Reading>,
    upper_limit1: int,
    lower_limit1: int,
    elem2: Option<Reading>,
    upper_limit2: int,
    lower_limit2: int,
) -> Flag {
    match (elem1, elem2) {
        (Some(a), Some(b)) => if in_range(a, lower_limit1, upper_limit1) && in_range(
            b,
            lower_limit2,
            upper_limit2,
        ) {
            Flag::Pass
        } else {
            Flag::Fail
        },
        _ => Flag::DataMissing,
    }
}

/// Consistency check that fails where the first series lies under a limit
/// while the second holds a special value.
///
/// Fails with a shape error where the two series hold different numbers of
/// observations under test.
pub fn lower_limit_special_value_pair(
    data1: &SeriesCache,
    limit: i32,
    data2: &SeriesCache,
    special_value: i32,
) -> (checked: Result<Vec<Flag>, Error>)
    requires
        data1.fits(),
        data2.fits(),
    ensures
        checked is Err <==> data1.tested().len() != data2.tested().len(),
        checked matches Err(e) ==> e.is_shape("data1 and data2 must have the same dimensions"@),
        checked matches Ok(flags) ==> {
            &&& flags@.len() == data1.tested().len()
            &&& forall|k: int|
                0 <= k < flags@.len() ==> #[trigger] flags@[k] == special_pair_flag(
                    data1.tested()[k],
                    limit as int,
                    data2.tested()[k],
                    special_value as int,
                )
        },
{
    let (start1, end1) = data1.tested_range();
    let (start2, end2) = data2.tested_range();
    if end1 - start1 != end2 - start2 {
        return Err(Error::shape("data1 and data2 must have the same dimensions"));
    }
    let n = end1 - start1;
    let mut flags: Vec<Flag> = Vec::with_capacity(n);
    let mut k: usize = 0;
    while k < n
        invariant
            k <= n,
            start1 + n == end1 <= data1.values@.len(),
            start2 + n == end2 <= data2.values@.len(),
            start1 == data1.num_leading_points,
            start2 == data2.num_leading_points,
            end1 == data1.values@.len() - data1.num_trailing_points,
            end2 == data2.values@.len() - data2.num_trailing_points,
            flags@.len() == k,
            forall|m: int|
                0 <= m < k ==> #[trigger] flags@[m] == special_pair_flag(
                    data1.tested()[m],
                    limit as int,
                    data2.tested()[m],
                    special_value as int,
                ),
        decreases n - k,
    {
        let flag = match (data1.values[start1 + k], data2.values[start2 + k]) {
            (Some(a), Some(b)) => {
                if less_exec(a, limit) && equals_exec(b, special_value) {
                    Flag::Fail
                } else {
                    Flag::Pass
                }
            },
            _ => Flag::DataMissing,
        };
        flags.push(flag);
        k += 1;
    }
    Ok(flags)
}

/// Whether a reading is a number between two limits.
fn in_range_exec(a: Reading, lower_limit: i32, upper_limit: i32) -> (inside: bool)
    ensures
        inside == in_range(a, lower_limit as int, upper_limit as int),
{
    match a {
        Reading::Finite(v) => lower_limit <= v && v <= upper_limit,
        Reading::NotFinite => false,
    }
}

/// Range check over pairs of values, where each member of the pair must be
/// in its range to pass.
///
/// Fails with a shape error where the two series hold different numbers of
/// observations under test.
pub fn range_check_pair(
    data1: &SeriesCache,
    upper_limit1: i32,
    lower_limit1: i32,
    data2: &SeriesCache,
    upper_limit2: i32,
    lower_limit2: i32,
) -> (checked: Result<Vec<Flag>, Error>)
    requires
        data1.fits(),
        data2.fits(),
    ensures
        checked is Err <==> data1.tested().len() != data2.tested().len(),
        checked matches Err(e) ==> e.is_shape("data1 and data2 must have the same dimensions"@),
        checked matches Ok(flags) ==> {
            &&& flags@.len() == data1.tested().len()
            &&& forall|k: int|
                0 <= k < flags@.len() ==> #[trigger] flags@[k] == range_pair_flag(
                    data1.tested()[k],
                    upper_limit1 as int,
                    lower_limit1 as int,
                    data2.tested()[k],
                    upper_limit2 as int,
                    lower_limit2 as int,
                )
        },
{
    let (start1, end1) = data1.tested_range();
    let (start2, end2) = data2.tested_range();
    if end1 - start1 != end2 - start2 {
        return Err(Error::shape("data1 and data2 must have the same dimensions"));
    }
    let n = end1 - start1;
    let mut flags: Vec<Flag> = Vec::with_capacity(n);
    let mut k: usize = 0;
    while k < n
        invariant
            k <= n,
            start1 + n == end1 <= data1.values@.len(),
            start2 + n == end2 <= data2.values@.len(),
            start1 == data1.num_leading_points,
            start2 == data2.num_leading_points,
            end1 == data1.values@.len() - data1.num_trailing_points,
            end2 == data2.values@.len() - data2.num_trailing_points,
            flags@.len() == k,
            forall|m: int|
                0 <= m < k ==> #[trigger] flags@[m] == range_pair_flag(
                    data1.tested()[m],
                    upper_limit1 as int,
                    lower_limit1 as int,
                    data2.tested()[m],
                    upper_limit2 as int,
                    lower_limit2 as int,
                ),
        decreases n - k,
    {
        let flag = match (data1.values[start1 + k], data2.values[start2 + k]) {
            (Some(a), Some(b)) => {
                if in_range_exec(a, lower_limit1, upper_limit1) && in_range_exec(
                    b,
                    lower_limit2,
                    upper_limit2,
                ) {
                    Flag::Pass
                } else {
                    Flag::Fail
                }
            },
            _ => Flag::DataMissing,
        };
        flags.push(flag);
        k += 1;
    }
    Ok(flags)
}

} // verus!
