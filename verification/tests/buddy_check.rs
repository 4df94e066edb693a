use olympian::{buddy_check, BuddyCheckArgs, Error, Flag, Reading, SingleOrVec, SpatialTree};

const RADIUS_EARTH_M: f64 = 6_371_000.0;

/// Earth-centred position in whole metres.
fn geodetic(lat: f64, lon: f64) -> (i64, i64, i64) {
    let (lat, lon) = (lat.to_radians(), lon.to_radians());
    (
        (lat.cos() * lon.cos() * RADIUS_EARTH_M).round() as i64,
        (lat.cos() * lon.sin() * RADIUS_EARTH_M).round() as i64,
        (lat.sin() * RADIUS_EARTH_M).round() as i64,
    )
}

/// A value in thousandths of its unit.
fn milli(value: f32) -> Option<Reading> {
    Some(Reading::Finite((value as f64 * 1000.0).round() as i32))
}

const LONS: [f64; 10] = [
    60.,
    60.00011111,
    60.00022222,
    60.00033333,
    60.00044444,
    60.00055556,
    60.00066667,
    60.00077778,
    60.00088889,
    60.001,
];

const VALUES: [f32; 10] = [0., 0., 0., 0., 0., 0., 0., 0., 0.1, 1.];

fn line_args() -> BuddyCheckArgs {
    BuddyCheckArgs {
        radii: SingleOrVec::Single(10000),
        nums_min: SingleOrVec::Single(1),
        threshold: 1000,
        max_elev_diff: 200,
        elev_gradient: -6_500_000,
        min_std: 10,
        num_iterations: 2,
    }
}

#[test]
fn buddy_check_test_buddy_check() {
    let data: Vec<Option<Reading>> = VALUES.iter().map(|v| milli(*v)).collect();
    let tree = SpatialTree::from_points(
        LONS.iter().map(|lon| geodetic(60., *lon)).collect(),
        vec![Reading::Finite(0); 10],
    )
    .unwrap();
    assert_eq!(
        buddy_check(&data, &tree, &line_args(), None).unwrap(),
        [
            Flag::Pass,
            Flag::Pass,
            Flag::Pass,
            Flag::Pass,
            Flag::Pass,
            Flag::Pass,
            Flag::Pass,
            Flag::Pass,
            Flag::Fail,
            Flag::Fail
        ]
    )
}

#[test]
fn qc_tests_test_buddy_check() {
    // planar positions: latitude and longitude in millionths of a degree
    let points: Vec<(i64, i64, i64)> =
        LONS.iter().map(|lon| (60_000_000, (lon * 1e6).round() as i64, 0)).collect();
    let data: Vec<Option<Reading>> = VALUES.iter().map(|v| milli(*v)).collect();
    let tree = SpatialTree::from_points(points, vec![Reading::Finite(0); 10]).unwrap();
    let obs_to_check = [true; 10];
    let flags = buddy_check(&data, &tree, &line_args(), Some(&obs_to_check)).unwrap();
    let failed: Vec<u32> = flags.iter().map(|f| (*f != Flag::Pass) as u32).collect();
    assert_eq!(failed, [0, 0, 0, 0, 0, 0, 0, 0, 1, 1])
}

#[test]
fn three_stations_third_deviates() {
    let data = [milli(0.), milli(0.), milli(1.)];
    let tree = SpatialTree::from_points(
        [60., 60.00011111, 60.00022222].iter().map(|lon| geodetic(60., *lon)).collect(),
        vec![Reading::Finite(0); 3],
    )
    .unwrap();
    assert_eq!(
        buddy_check(&data, &tree, &line_args(), None).unwrap(),
        [Flag::Pass, Flag::Pass, Flag::Fail]
    )
}

fn line(n: i64) -> SpatialTree {
    SpatialTree::from_points(
        (0..n).map(|i| (i * 10, 0, 0)).collect(),
        vec![Reading::Finite(0); n as usize],
    )
    .unwrap()
}

fn values(thousandths: &[i32]) -> Vec<Option<Reading>> {
    thousandths.iter().map(|v| Some(Reading::Finite(*v))).collect()
}

fn plain_args() -> BuddyCheckArgs {
    BuddyCheckArgs {
        radii: SingleOrVec::Single(1000),
        nums_min: SingleOrVec::Single(1),
        threshold: 1000,
        max_elev_diff: 0,
        elev_gradient: 0,
        min_std: 10,
        num_iterations: 1,
    }
}

#[test]
fn deviation_is_measured_against_the_least_spread() {
    // the buddies of the third station agree, so the spread is taken as 10
    let only_third = [false, false, true];
    let check = |v: i32| {
        buddy_check(&values(&[0, 0, v]), &line(3), &plain_args(), Some(&only_third)).unwrap()[2]
    };
    assert_eq!(check(10), Flag::Pass);
    assert_eq!(check(11), Flag::Fail);
    assert_eq!(check(-10), Flag::Pass);
    assert_eq!(check(-11), Flag::Fail);
}

#[test]
fn deviation_is_measured_against_the_spread_of_the_buddies() {
    // buddies 0 and 100: mean 50, variance 2500, enlarged by its half to 3750
    let only_third = [false, false, true];
    let check = |v: i32, threshold: u32| {
        let args = BuddyCheckArgs { threshold, ..plain_args() };
        buddy_check(&values(&[0, 100, v]), &line(3), &args, Some(&only_third)).unwrap()[2]
    };
    // 61 squared is 3721, 62 squared is 3844
    assert_eq!(check(111, 1000), Flag::Pass);
    assert_eq!(check(112, 1000), Flag::Fail);
    assert_eq!(check(-11, 1000), Flag::Pass);
    assert_eq!(check(-12, 1000), Flag::Fail);
    // twice the spread: 122 squared is 14884, 123 squared is 15129, four times 3750 is 15000
    assert_eq!(check(172, 2000), Flag::Pass);
    assert_eq!(check(173, 2000), Flag::Fail);
    // a threshold of nothing rejects whatever differs from the mean
    assert_eq!(check(50, 0), Flag::Pass);
    assert_eq!(check(51, 0), Flag::Fail);
}

#[test]
fn buddies_are_brought_to_the_elevation_of_the_station() {
    // the buddies stand 100 and 200 metres higher; along the gradient of
    // 6.5 thousandths per metre they would read 650 and 1300 more down here
    let tree = SpatialTree::from_points(
        vec![(0, 0, 0), (10, 0, 0), (20, 0, 0)],
        vec![Reading::Finite(0), Reading::Finite(100), Reading::Finite(200)],
    )
    .unwrap();
    let args = BuddyCheckArgs { max_elev_diff: 200, elev_gradient: -6_500_000, ..plain_args() };
    let only_first = [true, false, false];
    let check = |v: i32| {
        buddy_check(&values(&[v, 9350, 8700]), &tree, &args, Some(&only_first)).unwrap()[0]
    };
    assert_eq!(check(10000), Flag::Pass);
    assert_eq!(check(10010), Flag::Pass);
    assert_eq!(check(10011), Flag::Fail);
    assert_eq!(check(9350), Flag::Fail);
    // without elevations the buddies read 9350 and 8700: mean 9025
    let ignoring = BuddyCheckArgs { max_elev_diff: 0, ..args.clone() };
    let flags = buddy_check(&values(&[9025, 9350, 8700]), &tree, &ignoring, Some(&only_first));
    assert_eq!(flags.unwrap()[0], Flag::Pass);
}

#[test]
fn buddies_too_far_up_or_down_are_left_out() {
    let tree = SpatialTree::from_points(
        vec![(0, 0, 0), (10, 0, 0), (20, 0, 0), (30, 0, 0)],
        vec![Reading::Finite(0), Reading::Finite(50), Reading::Finite(51), Reading::NotFinite],
    )
    .unwrap();
    let args = BuddyCheckArgs { max_elev_diff: 50, ..plain_args() };
    let only_first = [true, false, false, false];
    // only the second station is a buddy of the first
    let flags = buddy_check(&values(&[0, 0, 5000, 5000]), &tree, &args, Some(&only_first));
    assert_eq!(flags.unwrap()[0], Flag::Pass);
    let flags = buddy_check(&values(&[0, 5000, 0, 0]), &tree, &args, Some(&only_first));
    assert_eq!(flags.unwrap()[0], Flag::Fail);
    // with two buddies asked for, the first station is left alone
    let two = BuddyCheckArgs { nums_min: SingleOrVec::Single(2), ..args };
    let flags = buddy_check(&values(&[0, 5000, 0, 0]), &tree, &two, Some(&only_first));
    assert_eq!(flags.unwrap()[0], Flag::Pass);
}

#[test]
fn station_with_too_few_buddies_is_left_alone() {
    let data: Vec<Option<Reading>> = VALUES.iter().map(|v| milli(*v)).collect();
    let many = BuddyCheckArgs { nums_min: SingleOrVec::Single(10), ..plain_args() };
    assert_eq!(buddy_check(&data, &line(10), &many, None).unwrap(), vec![Flag::Pass; 10]);
    // each station has its own radius and its own least number of buddies
    let mut nums_min = vec![1; 10];
    nums_min[9] = 10;
    let own = BuddyCheckArgs { nums_min: SingleOrVec::Vec(nums_min), ..plain_args() };
    let flags = buddy_check(&data, &line(10), &own, None).unwrap();
    assert_eq!(flags[9], Flag::Pass);
    let mut radii = vec![1000; 10];
    radii[9] = 9;
    let own = BuddyCheckArgs { radii: SingleOrVec::Vec(radii), ..plain_args() };
    let flags = buddy_check(&data, &line(10), &own, None).unwrap();
    assert_eq!(flags[9], Flag::Pass);
}

#[test]
fn unusable_observations_are_flagged_and_lend_nothing() {
    let data = vec![
        Some(Reading::Finite(0)),
        None,
        Some(Reading::NotFinite),
        Some(Reading::Finite(0)),
        Some(Reading::Finite(1000)),
    ];
    let flags = buddy_check(&data, &line(5), &plain_args(), None).unwrap();
    assert_eq!(
        flags,
        [Flag::Pass, Flag::DataMissing, Flag::Fail, Flag::Pass, Flag::Fail]
    );
    // a station whose only neighbours are unusable has no buddy
    let lonely = BuddyCheckArgs { radii: SingleOrVec::Single(10), ..plain_args() };
    let data = vec![None, Some(Reading::Finite(5000)), Some(Reading::NotFinite)];
    assert_eq!(
        buddy_check(&data, &line(3), &lonely, None).unwrap(),
        [Flag::DataMissing, Flag::Pass, Flag::Fail]
    );
}

#[test]
fn failures_only_grow_from_sweep_to_sweep() {
    let data: Vec<Option<Reading>> = VALUES.iter().map(|v| milli(*v)).collect();
    let mut before = buddy_check(
        &data,
        &line(10),
        &BuddyCheckArgs { num_iterations: 0, ..plain_args() },
        None,
    )
    .unwrap();
    assert_eq!(before, vec![Flag::Pass; 10]);
    for sweeps in 1..5 {
        let args = BuddyCheckArgs { num_iterations: sweeps, ..plain_args() };
        let after = buddy_check(&data, &line(10), &args, None).unwrap();
        for (a, b) in before.iter().zip(after.iter()) {
            assert!(a == b || (*a == Flag::Pass && *b == Flag::Fail));
        }
        before = after;
    }
    let one = buddy_check(&data, &line(10), &plain_args(), None).unwrap();
    assert_eq!(one[8..], [Flag::Pass, Flag::Fail]);
}

#[test]
fn more_sweeps_change_nothing_once_the_check_has_converged() {
    let data: Vec<Option<Reading>> = VALUES.iter().map(|v| milli(*v)).collect();
    let flags = |sweeps: u32| {
        let args = BuddyCheckArgs { num_iterations: sweeps, ..plain_args() };
        buddy_check(&data, &line(10), &args, None).unwrap()
    };
    let converged = flags(3);
    assert_eq!(converged[8..], [Flag::Fail, Flag::Fail]);
    assert_eq!(flags(2), converged);
    assert_eq!(flags(4), converged);
    assert_eq!(flags(1000), converged);
    assert_eq!(flags(u32::MAX), converged);
}

#[test]
fn stations_that_are_not_selected_are_not_judged() {
    let data: Vec<Option<Reading>> = VALUES.iter().map(|v| milli(*v)).collect();
    let mut mask = [true; 10];
    mask[9] = false;
    let flags = buddy_check(&data, &line(10), &line_args(), Some(&mask)).unwrap();
    assert_eq!(flags, vec![Flag::Pass; 10]);
}

#[test]
fn misshapen_input_is_named() {
    let data = values(&[0, 0, 0]);
    let shape = |name: &str| Error::InvalidInputShape(name.to_string());
    assert_eq!(
        buddy_check(&data, &line(4), &plain_args(), None).err().unwrap(),
        shape("tree_points")
    );
    let args = BuddyCheckArgs { radii: SingleOrVec::Vec(vec![1; 2]), ..plain_args() };
    assert_eq!(buddy_check(&data, &line(3), &args, None).err().unwrap(), shape("radii"));
    let args = BuddyCheckArgs { nums_min: SingleOrVec::Vec(vec![1; 4]), ..plain_args() };
    assert_eq!(buddy_check(&data, &line(3), &args, None).err().unwrap(), shape("nums_min"));
    assert_eq!(
        buddy_check(&data, &line(3), &plain_args(), Some(&[true; 2])).err().unwrap(),
        shape("obs_to_check")
    );
}
