use chronoutil::RelativeDuration;
use olympian::cache::{
    buddy_check_cache, flatline_check_cache, range_check_cache, range_check_humidity_cache,
    range_check_wind_direction_cache, sct_cache, special_values_check_cache, spike_check_cache,
    step_check_cache,
};
use olympian::checks::consistency::{
    aggregate_less_than_set, cloud_consistency_check, cloud_consistency_check2, greater_than,
    lower_limit_special_value_pair, max_greater_than_single, min_greater_than_single, not_equal,
    range_check_pair, single_greater_than_element,
};
use olympian::checks::series::{
    dip_check, flatline_check, monotonic_increase_check, spike_check, step_check,
};
use olympian::checks::single::{
    range_check, range_check_humidity, range_check_wind_direction, special_values_check,
};
use olympian::{
    BuddyCheckArgs, DataCache, Error, Flag, Reading, SctArgs, SeriesCache, Score, SingleOrVec,
    Timestamp,
};

/// A value in thousandths.
fn num(value: f32) -> Option<Reading> {
    Some(Reading::Finite((value as f64 * 1000.).round() as i32))
}

fn milli(value: f32) -> i32 {
    (value as f64 * 1000.).round() as i32
}

fn nums(values: &[Option<f32>]) -> Vec<Option<Reading>> {
    values.iter().map(|v| v.and_then(num)).collect()
}

/// Earth-centred position in whole metres.
fn geodetic(lat: f64, lon: f64) -> (i64, i64, i64) {
    let (lat, lon) = (lat.to_radians(), lon.to_radians());
    (
        (lat.cos() * lon.cos() * 6_371_000.).round() as i64,
        (lat.cos() * lon.sin() * 6_371_000.).round() as i64,
        (lat.sin() * 6_371_000.).round() as i64,
    )
}

/// A cache over stations at the latitudes and longitudes 0, 1, 2, ... on the
/// ground, with one leading and one trailing point.
fn cache(positions: usize, data: Vec<(&str, Vec<Option<f32>>)>) -> DataCache {
    DataCache::new(
        (0..positions).map(|i| geodetic(i as f64, i as f64)).collect(),
        vec![Reading::Finite(0); positions],
        Timestamp(0),
        RelativeDuration::minutes(10),
        1,
        1,
        data.into_iter().map(|(name, values)| (name.to_string(), nums(&values))).collect(),
    )
    .unwrap()
}

fn named<T>(flags: Vec<(&str, Vec<T>)>) -> Vec<(String, Vec<T>)> {
    flags.into_iter().map(|(name, flags)| (name.to_string(), flags)).collect()
}

#[test]
fn test_greater_than() {
    assert_eq!(greater_than(num(1.), num(1.), milli(0.2)), Flag::Fail);
    assert_eq!(greater_than(num(1.), num(1.5), milli(0.2)), Flag::Pass);
    assert_eq!(greater_than(num(1.), None, milli(0.2)), Flag::DataMissing);
}

#[test]
fn test_min_greater_than_single() {
    assert_eq!(
        min_greater_than_single(num(1.), &vec![num(1.), num(2.), num(2.)], milli(0.2)),
        Flag::Fail
    );
    assert_eq!(
        min_greater_than_single(num(1.), &vec![num(1.), num(2.), num(2.)], milli(-0.2)),
        Flag::Pass
    );
    assert_eq!(
        min_greater_than_single(num(1.), &vec![num(1.), None, num(2.)], milli(-0.2)),
        Flag::DataMissing
    );
    assert_eq!(
        min_greater_than_single(num(1.), &vec![num(1.), None, num(2.)], milli(0.2)),
        Flag::Fail
    );
}

#[test]
fn test_not_equal() {
    assert_eq!(not_equal(num(1.), num(1.1), milli(0.2)), Flag::Pass);
    assert_eq!(not_equal(num(1.), num(1.2), milli(0.1)), Flag::Fail);
    assert_eq!(not_equal(num(1.), None, milli(0.1)), Flag::DataMissing);
}

#[test]
fn test_monotonic_increase_check() {
    let increasing_sequence: Vec<Option<Reading>> =
        (0..25).map(|i| num(1. + (i as f32 * 0.1))).collect();
    let non_increasing_sequence = {
        let mut s = increasing_sequence.clone();
        s[10] = num(1. + 10. * 0.1 - 0.2);
        s
    };
    let non_increasing: [Option<Reading>; 25] = non_increasing_sequence.try_into().unwrap();
    let increasing: [Option<Reading>; 25] = increasing_sequence.try_into().unwrap();
    assert_eq!(monotonic_increase_check(&non_increasing), Flag::Pass);
    assert_eq!(monotonic_increase_check(&increasing), Flag::Fail);
}

#[test]
fn test_spike_check_cache() {
    assert_eq!(
        spike_check_cache(
            &cache(
                4,
                vec![
                    ("blindern1", vec![Some(0.), Some(0.), Some(0.)]),
                    ("blindern2", vec![Some(0.), Some(1.), Some(1.)]),
                    // the flanks add up to a spike, but they differ too much
                    ("blindern3", vec![Some(0.), Some(1.6), Some(1.)]),
                    ("blindern4", vec![Some(0.), Some(-1.1), Some(0.)]),
                    ("blindern5", vec![Some(1.), None, Some(1.)]),
                    ("blindern6", vec![None, Some(1.), Some(1.)]),
                ],
            ),
            milli(1.),
        )
        .unwrap(),
        named(vec![
            ("blindern1", vec![Flag::Pass]),
            ("blindern2", vec![Flag::Pass]),
            ("blindern3", vec![Flag::Pass]),
            ("blindern4", vec![Flag::Fail]),
            ("blindern5", vec![Flag::DataMissing]),
            ("blindern6", vec![Flag::DataMissing]),
        ])
    )
}

#[test]
fn test_step_check_cache() {
    assert_eq!(
        step_check_cache(
            &cache(
                4,
                vec![
                    ("blindern1", vec![Some(0.), Some(0.), None]),
                    ("blindern2", vec![Some(0.), Some(1.), Some(1.)]),
                    ("blindern3", vec![Some(0.), Some(-1.1), Some(1.)]),
                    ("blindern4", vec![Some(1.), None, Some(1.)]),
                    ("blindern5", vec![None, Some(1.), Some(1.)]),
                ],
            ),
            milli(1.),
        )
        .unwrap(),
        named(vec![
            ("blindern1", vec![Flag::Pass]),
            ("blindern2", vec![Flag::Pass]),
            ("blindern3", vec![Flag::Fail]),
            ("blindern4", vec![Flag::DataMissing]),
            ("blindern5", vec![Flag::DataMissing]),
        ])
    )
}

#[test]
fn test_range_check_cache() {
    assert_eq!(
        range_check_cache(
            &cache(
                4,
                vec![
                    ("blindern1", vec![Some(0.), Some(0.), None]),
                    ("blindern2", vec![Some(0.), Some(1.), Some(1.)]),
                    ("blindern3", vec![Some(0.), Some(-1.), Some(1.)]),
                    ("blindern4", vec![Some(1.), None, Some(1.)]),
                ],
            ),
            milli(0.),
            milli(0.5),
        ),
        named(vec![
            ("blindern1", vec![Flag::Pass]),
            ("blindern2", vec![Flag::Fail]),
            ("blindern3", vec![Flag::Fail]),
            ("blindern4", vec![Flag::DataMissing])
        ])
    )
}

#[test]
fn test_range_check_humidity_cache() {
    assert_eq!(
        range_check_humidity_cache(&cache(
            4,
            vec![
                ("blindern1", vec![Some(0.), Some(50.), Some(1.)]),
                ("blindern2", vec![Some(0.), Some(3.), None]),
                ("blindern3", vec![Some(0.), Some(103.), Some(1.)]),
                ("blindern4", vec![Some(1.), None, Some(1.)]),
            ],
        ),),
        named(vec![
            ("blindern1", vec![(Flag::Pass, None)]),
            ("blindern2", vec![(Flag::Fail, None)]),
            ("blindern3", vec![(Flag::Warn, num(100.))]),
            ("blindern4", vec![(Flag::DataMissing, None)])
        ])
    )
}

#[test]
fn test_range_check_wind_direction_cache() {
    assert_eq!(
        range_check_wind_direction_cache(&cache(
            4,
            vec![
                ("blindern1", vec![Some(0.), Some(120.), Some(390.)]),
                ("blindern2", vec![Some(0.), Some(390.), None]),
                ("blindern3", vec![Some(0.), Some(-5.), Some(1.)]),
                ("blindern4", vec![Some(390.), None, Some(1.)]),
            ],
        ),),
        named(vec![
            ("blindern1", vec![(Flag::Pass, None)]),
            ("blindern2", vec![(Flag::Fail, None)]),
            ("blindern3", vec![(Flag::Warn, num(355.))]),
            ("blindern4", vec![(Flag::DataMissing, None)])
        ])
    )
}

#[test]
fn test_special_values_check_cache() {
    assert_eq!(
        special_values_check_cache(
            &cache(
                3,
                vec![
                    ("blindern1", vec![Some(0.), Some(0.), None]),
                    ("blindern2", vec![Some(0.), Some(1.), Some(1.)]),
                    ("blindern3", vec![Some(1.), None, Some(1.)]),
                ],
            ),
            &vec![Reading::Finite(1000), Reading::Finite(2000)]
        ),
        named(vec![
            ("blindern1", vec![Flag::Pass]),
            ("blindern2", vec![Flag::Fail]),
            ("blindern3", vec![Flag::DataMissing])
        ])
    )
}

#[test]
fn range_check_limits_are_inclusive() {
    assert_eq!(range_check(num(0.5), milli(0.5), milli(1.5)), Flag::Pass);
    assert_eq!(range_check(num(1.5), milli(0.5), milli(1.5)), Flag::Pass);
    assert_eq!(range_check(num(0.499), milli(0.5), milli(1.5)), Flag::Fail);
    assert_eq!(range_check(num(1.501), milli(0.5), milli(1.5)), Flag::Fail);
    assert_eq!(range_check(None, milli(0.5), milli(1.5)), Flag::DataMissing);
    assert_eq!(range_check(Some(Reading::NotFinite), 0, 1), Flag::Pass);
}

#[test]
fn humidity_is_set_back_to_saturation() {
    assert_eq!(range_check_humidity(num(5.)), (Flag::Pass, None));
    assert_eq!(range_check_humidity(num(4.999)), (Flag::Fail, None));
    assert_eq!(range_check_humidity(num(100.)), (Flag::Pass, None));
    assert_eq!(range_check_humidity(num(100.001)), (Flag::Warn, num(100.)));
    assert_eq!(range_check_humidity(num(104.999)), (Flag::Warn, num(100.)));
    assert_eq!(range_check_humidity(num(105.)), (Flag::Fail, None));
    assert_eq!(range_check_humidity(Some(Reading::NotFinite)), (Flag::Fail, None));
    assert_eq!(range_check_humidity(None), (Flag::DataMissing, None));
}

#[test]
fn wind_direction_is_brought_back_by_a_full_turn() {
    assert_eq!(range_check_wind_direction(num(0.)), (Flag::Pass, None));
    assert_eq!(range_check_wind_direction(num(359.999)), (Flag::Pass, None));
    assert_eq!(range_check_wind_direction(num(360.)), (Flag::Warn, num(0.)));
    assert_eq!(range_check_wind_direction(num(380.)), (Flag::Warn, num(20.)));
    assert_eq!(range_check_wind_direction(num(380.001)), (Flag::Fail, None));
    assert_eq!(range_check_wind_direction(num(-0.001)), (Flag::Warn, num(359.999)));
    assert_eq!(range_check_wind_direction(num(-20.)), (Flag::Warn, num(340.)));
    assert_eq!(range_check_wind_direction(num(-20.001)), (Flag::Fail, None));
    assert_eq!(range_check_wind_direction(Some(Reading::NotFinite)), (Flag::Fail, None));
    assert_eq!(range_check_wind_direction(None), (Flag::DataMissing, None));
}

#[test]
fn special_values_fail() {
    let special = [Reading::Finite(-999_000), Reading::NotFinite];
    assert_eq!(special_values_check(num(-999.), &special), Flag::Fail);
    assert_eq!(special_values_check(num(999.), &special), Flag::Pass);
    assert_eq!(special_values_check(Some(Reading::NotFinite), &special), Flag::Pass);
    assert_eq!(special_values_check(None, &special), Flag::DataMissing);
    assert_eq!(special_values_check(num(1.), &[]), Flag::Pass);
}

#[test]
fn greatest_of_a_sequence_must_not_exceed_the_single_value() {
    let seq = [num(1.), num(3.), num(2.)];
    assert_eq!(max_greater_than_single(num(3.), &seq, 0), Flag::Pass);
    assert_eq!(max_greater_than_single(num(3.), &seq, 1), Flag::Fail);
    assert_eq!(max_greater_than_single(num(2.999), &seq, 0), Flag::Fail);
    assert_eq!(max_greater_than_single(None, &seq, 0), Flag::DataMissing);
    assert_eq!(max_greater_than_single(num(3.), &[None, None], 0), Flag::DataMissing);
    assert_eq!(max_greater_than_single(num(3.), &[], 0), Flag::DataMissing);
    assert_eq!(max_greater_than_single(num(3.), &[num(1.), None], 0), Flag::DataMissing);
    assert_eq!(max_greater_than_single(num(0.), &[num(1.), None], 0), Flag::Fail);
    let with_gap = [Some(Reading::NotFinite), num(1.)];
    assert_eq!(max_greater_than_single(num(0.), &with_gap, 0), Flag::Fail);
    assert_eq!(max_greater_than_single(num(0.), &[Some(Reading::NotFinite)], 0), Flag::Pass);
    assert_eq!(min_greater_than_single(num(0.), &[Some(Reading::NotFinite), num(1.)], 0), Flag::Fail);
    assert_eq!(min_greater_than_single(num(1.), &[num(2.), num(1.), num(5.)], 0), Flag::Pass);
}

#[test]
fn aggregate_must_reach_the_lowest_of_the_set() {
    let set = [num(3.), None, num(1.), num(2.), num(1.)];
    let present = vec![Flag::Pass, Flag::DataMissing, Flag::Pass, Flag::Pass, Flag::Pass];
    assert_eq!(aggregate_less_than_set(num(1.), &set, 0), (Flag::Pass, present.clone()));
    // the last of the lowest entries fails with the aggregate
    let mut failed = present.clone();
    failed[4] = Flag::Fail;
    assert_eq!(aggregate_less_than_set(num(0.999), &set, 0), (Flag::Fail, failed.clone()));
    assert_eq!(aggregate_less_than_set(num(1.), &set, 1), (Flag::Fail, failed));
    assert_eq!(aggregate_less_than_set(None, &set, 0), (Flag::DataMissing, vec![Flag::DataMissing; 5]));
    assert_eq!(
        aggregate_less_than_set(num(1.), &[None, None], 0),
        (Flag::DataMissing, vec![Flag::DataMissing; 2])
    );
    assert_eq!(aggregate_less_than_set(num(1.), &[], 0), (Flag::DataMissing, vec![]));
}

#[test]
fn single_value_must_not_exceed_an_element() {
    let set = [num(3.), None, num(1.)];
    assert_eq!(
        single_greater_than_element(num(2.), &set, 0),
        (Flag::Fail, vec![Flag::Pass, Flag::DataMissing, Flag::Fail])
    );
    assert_eq!(
        single_greater_than_element(num(2.), &set, milli(1.)),
        (Flag::DataMissing, vec![Flag::Pass, Flag::DataMissing, Flag::Pass])
    );
    assert_eq!(
        single_greater_than_element(num(1.), &[num(1.), num(2.)], 0),
        (Flag::Pass, vec![Flag::Pass, Flag::Pass])
    );
    assert_eq!(
        single_greater_than_element(None, &set, 0),
        (Flag::DataMissing, vec![Flag::DataMissing; 3])
    );
    assert_eq!(
        single_greater_than_element(num(9.), &[None, None], 0),
        (Flag::DataMissing, vec![Flag::DataMissing; 2])
    );
}

#[test]
fn clouds_must_fit_the_cloud_base() {
    let low = nums(&[Some(0.), Some(0.), Some(0.), Some(1.), None]);
    let medium = nums(&[Some(1.), Some(2.), Some(1.), Some(1.), Some(1.)]);
    let base = nums(&[Some(1499.), Some(1499.), Some(1500.), Some(100.), Some(100.)]);
    assert_eq!(
        cloud_consistency_check(&low, &medium, &base).unwrap(),
        [Flag::Fail, Flag::Pass, Flag::Pass, Flag::Pass, Flag::DataMissing]
    );
    let fraction = nums(&[Some(1.), Some(1.), Some(1.), Some(0.), Some(1.)]);
    let low = nums(&[Some(1.), Some(0.), Some(1.), Some(1.), None]);
    let base = nums(&[Some(2499.), Some(2499.), Some(2500.), Some(100.), Some(100.)]);
    assert_eq!(
        cloud_consistency_check2(&low, &fraction, &base).unwrap(),
        [Flag::Fail, Flag::Pass, Flag::Pass, Flag::Pass, Flag::DataMissing]
    );
    let message = "all input slices must have the same dimensions".to_string();
    assert_eq!(
        cloud_consistency_check(&low, &medium[..4], &base).err().unwrap(),
        Error::InvalidInputShape(message.clone())
    );
    assert_eq!(
        cloud_consistency_check2(&low, &fraction, &base[..1]).err().unwrap(),
        Error::InvalidInputShape(message)
    );
}

fn series(values: &[Option<f32>], leading: u8, trailing: u8) -> SeriesCache {
    SeriesCache { values: nums(values), num_leading_points: leading, num_trailing_points: trailing }
}

#[test]
fn pairs_are_checked_side_by_side() {
    let first = series(&[Some(9.), Some(0.4), Some(0.5), None, Some(0.)], 1, 0);
    let second = series(&[Some(7.), Some(7.), Some(7.), Some(8.), Some(9.)], 0, 1);
    assert_eq!(
        lower_limit_special_value_pair(&first, milli(0.5), &second, milli(7.)).unwrap(),
        [Flag::Fail, Flag::Pass, Flag::DataMissing, Flag::Pass]
    );
    assert_eq!(
        range_check_pair(&first, milli(0.5), milli(0.), &second, milli(8.), milli(7.)).unwrap(),
        [Flag::Pass, Flag::Pass, Flag::DataMissing, Flag::Pass]
    );
    assert_eq!(
        range_check_pair(&first, milli(0.4), milli(0.), &second, milli(7.), milli(7.)).unwrap(),
        [Flag::Pass, Flag::Fail, Flag::DataMissing, Flag::Fail]
    );
    let shorter = series(&[Some(7.), Some(7.)], 0, 0);
    let message = "data1 and data2 must have the same dimensions".to_string();
    assert_eq!(
        range_check_pair(&first, 0, 0, &shorter, 0, 0).err().unwrap(),
        Error::InvalidInputShape(message.clone())
    );
    assert_eq!(
        lower_limit_special_value_pair(&first, 0, &shorter, 0).err().unwrap(),
        Error::InvalidInputShape(message)
    );
}

#[test]
fn spike_needs_a_peak_or_a_dip_with_even_flanks() {
    let at = |a: f32, b: f32, c: f32, max: f32| spike_check(&[num(a), num(b), num(c)], milli(max));
    assert_eq!(at(0., 1.1, 0., 2.), Flag::Fail);
    assert_eq!(at(0., 1., 0., 2.), Flag::Pass);
    assert_eq!(at(0., -1.1, 0., 2.), Flag::Fail);
    assert_eq!(at(0., 1.1, 2., 2.), Flag::Pass);
    // the flanks 2 and 1 differ by a third of their sum, the flanks 2.1 and 1 by more than 0.35
    assert_eq!(at(0., 2., 1., 2.), Flag::Fail);
    assert_eq!(at(0., 2.1, 1.1, 2.), Flag::Pass);
    assert_eq!(spike_check(&[None, num(1.), num(0.)], 0), Flag::DataMissing);
    assert_eq!(spike_check(&[num(0.), Some(Reading::NotFinite), num(0.)], 0), Flag::Pass);
}

#[test]
fn step_is_measured_either_way() {
    assert_eq!(step_check(&[num(0.), num(1.)], milli(1.)), Flag::Pass);
    assert_eq!(step_check(&[num(0.), num(1.001)], milli(1.)), Flag::Fail);
    assert_eq!(step_check(&[num(1.001), num(0.)], milli(1.)), Flag::Fail);
    assert_eq!(step_check(&[num(0.), None], milli(1.)), Flag::DataMissing);
    assert_eq!(step_check(&[num(0.), Some(Reading::NotFinite)], milli(1.)), Flag::Pass);
}

#[test]
fn steady_rise_is_told_from_a_jump() {
    let rising = |total: f32| -> [Option<Reading>; 25] {
        let values: Vec<Option<Reading>> = (0..25).map(|i| num(i as f32 * total / 24.)).collect();
        values.try_into().unwrap()
    };
    assert_eq!(monotonic_increase_check(&rising(0.72)), Flag::Fail);
    assert_eq!(monotonic_increase_check(&rising(0.48)), Flag::Pass);
    assert_eq!(monotonic_increase_check(&rising(96.)), Flag::Fail);
    assert_eq!(monotonic_increase_check(&rising(120.)), Flag::Pass);
    let mut gap = rising(24.);
    gap[7] = None;
    assert_eq!(monotonic_increase_check(&gap), Flag::DataMissing);
}

#[test]
fn flatline_needs_observations() {
    assert_eq!(flatline_check(&[]), Flag::Invalid);
    assert_eq!(flatline_check(&nums(&[Some(1.), Some(1.), Some(1.)])), Flag::Fail);
    assert_eq!(flatline_check(&nums(&[Some(1.), Some(1.), Some(1.001)])), Flag::Pass);
    assert_eq!(flatline_check(&nums(&[Some(1.), None, Some(1.)])), Flag::DataMissing);
    assert_eq!(flatline_check(&[Some(Reading::NotFinite)]), Flag::Pass);
}

#[test]
fn dip_warns_before_it_fails() {
    let data = series(
        &[Some(0.), Some(0.), Some(3.), Some(0.), Some(1.5), Some(0.), None, Some(0.), Some(0.)],
        1,
        1,
    );
    assert_eq!(
        dip_check(&data, milli(2.), milli(5.)).unwrap(),
        [
            Flag::Pass,
            Flag::Fail,
            Flag::Warn,
            Flag::Warn,
            Flag::DataMissing,
            Flag::DataMissing,
            Flag::DataMissing
        ]
    );
    let shape = Error::InvalidInputShape("data".to_string());
    assert_eq!(dip_check(&series(&[Some(0.); 3], 0, 1), 0, 0).err().unwrap(), shape);
    assert_eq!(dip_check(&series(&[Some(0.); 3], 1, 0), 0, 0).err().unwrap(), shape);
    assert_eq!(dip_check(&series(&[Some(0.); 2], 1, 1), 0, 0).err().unwrap(), shape);
    assert_eq!(dip_check(&series(&[Some(0.); 3], 1, 1), 0, 0).unwrap(), [Flag::Pass]);
}

#[test]
fn flatline_over_a_cache() {
    let data = cache(
        2,
        vec![
            ("a", vec![Some(1.), Some(1.), Some(1.), Some(2.)]),
            ("b", vec![Some(1.), None, Some(1.), Some(1.)]),
        ],
    );
    assert_eq!(
        flatline_check_cache(&data, 2).unwrap(),
        named(vec![
            ("a", vec![Flag::Fail, Flag::Fail]),
            ("b", vec![Flag::DataMissing, Flag::DataMissing])
        ])
    );
    assert_eq!(
        flatline_check_cache(&data, 3).err().unwrap(),
        Error::InvalidInputShape("data".to_string())
    );
    assert_eq!(
        spike_check_cache(&cache(1, vec![("a", vec![Some(1.), Some(1.)])]), 0).err().unwrap(),
        Error::InvalidInputShape("data".to_string())
    );
    assert_eq!(spike_check_cache(&cache(1, vec![]), 0).unwrap(), named(vec![]));
}

#[test]
fn spatial_checks_over_a_cache() {
    let data = DataCache::new(
        (0..4).map(|i| (i * 10, 0, 0)).collect(),
        vec![Reading::Finite(0); 4],
        Timestamp(0),
        RelativeDuration::minutes(10),
        1,
        0,
        vec![
            ("a".to_string(), nums(&[Some(9.), Some(0.), Some(0.)])),
            ("b".to_string(), nums(&[Some(9.), Some(0.), None])),
            ("c".to_string(), nums(&[Some(9.), Some(0.), Some(0.)])),
            ("d".to_string(), nums(&[Some(0.), Some(1.), Some(0.)])),
        ],
    )
    .unwrap();
    let args = BuddyCheckArgs {
        radii: SingleOrVec::Single(1000),
        nums_min: SingleOrVec::Single(1),
        threshold: 1000,
        max_elev_diff: 0,
        elev_gradient: 0,
        min_std: 10,
        num_iterations: 2,
    };
    assert_eq!(
        buddy_check_cache(&data, &args, None).unwrap(),
        vec![
            ("a".to_string(), vec![Flag::Pass, Flag::Pass]),
            ("b".to_string(), vec![Flag::Pass, Flag::DataMissing]),
            ("c".to_string(), vec![Flag::Pass, Flag::Pass]),
            ("d".to_string(), vec![Flag::Fail, Flag::Pass]),
        ]
    );
    assert_eq!(
        buddy_check_cache(&data, &args, Some(&[true; 3])).err().unwrap(),
        Error::InvalidInputShape("obs_to_check".to_string())
    );
    let args = SctArgs {
        num_min: 2,
        num_max: 10,
        inner_radius: 100,
        outer_radius: 100,
        num_iterations: 2,
        num_min_prof: 0,
        min_elev_diff: 100,
        min_horizontal_scale: 100,
        vertical_scale: 100,
        pos: SingleOrVec::Single(5),
        neg: SingleOrVec::Single(5),
        eps2: SingleOrVec::Single(500),
    };
    // an analysis that rejects whatever lies above the profile
    let analyse = |input: olympian::SctBox| -> Vec<Score> {
        input.residuals.iter().map(|r| Score { cvres: -1, pog: *r }).collect()
    };
    assert_eq!(
        sct_cache(&data, &args, None, analyse).unwrap(),
        vec![
            ("a".to_string(), vec![Flag::Pass, Flag::Pass]),
            ("b".to_string(), vec![Flag::Pass, Flag::DataMissing]),
            ("c".to_string(), vec![Flag::Pass, Flag::Pass]),
            ("d".to_string(), vec![Flag::Fail, Flag::Pass]),
        ]
    );
    let refused = SctArgs { num_min: 1, ..args };
    assert_eq!(
        sct_cache(&data, &refused, None, analyse).err().unwrap(),
        Error::InvalidArg("num_min".to_string(), "must be > 1".to_string())
    );
}
