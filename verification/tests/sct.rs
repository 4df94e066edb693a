use faer::{solvers::SolverCore, Mat};
use olympian::{sct, Error, Flag, Reading, SctArgs, SctBox, SctRun, Score, SingleOrVec, SpatialTree};

const RADIUS_EARTH_M: f64 = 6_371_000.0;

/// Scores are handed over in thousandths.
const SCORE_SCALE: f32 = 1000.0;

/// Earth-centred position in whole metres.
fn geodetic(lat: f32, lon: f32) -> (i64, i64, i64) {
    let (lat, lon) = ((lat as f64).to_radians(), (lon as f64).to_radians());
    (
        (lat.cos() * lon.cos() * RADIUS_EARTH_M).round() as i64,
        (lat.cos() * lon.sin() * RADIUS_EARTH_M).round() as i64,
        (lat.sin() * RADIUS_EARTH_M).round() as i64,
    )
}

fn to_fixed(value: f32) -> i64 {
    assert!(value.is_finite());
    let scaled = (value * SCORE_SCALE).round() as i64;
    // keep the sign of a value that rounds to zero
    if scaled == 0 && value < 0. {
        -1
    } else {
        scaled
    }
}

/// The analysis of a box by optimal interpolation.
fn analyse(
    points: &[(i64, i64, i64)],
    elevs: &[f32],
    eps2: f32,
    vertical_scale: f32,
    input: SctBox,
) -> Vec<Score> {
    let box_size = input.members.len();
    let stations: Vec<usize> = input.members.iter().map(|m| m.1).collect();
    let dh_mean = input.horizontal_scale as f32;
    let disth = |i: usize, j: usize| {
        let (a, b) = (points[stations[i]], points[stations[j]]);
        (((a.0 - b.0).pow(2) + (a.1 - b.1).pow(2) + (a.2 - b.2).pow(2)) as f32).sqrt()
    };
    let distz = |i: usize, j: usize| (elevs[stations[i]] - elevs[stations[j]]).abs();
    let mut s: Mat<f32> = Mat::from_fn(box_size, box_size, |i, j| {
        let value = (-0.5 * (disth(i, j) / dh_mean).powi(2)
            - 0.5 * (distz(i, j) / vertical_scale).powi(2))
        .exp();
        if i == j {
            value + eps2
        } else {
            value
        }
    });
    let d: Vec<f32> = input.residuals.iter().map(|r| *r as f32 / 1000.).collect();
    let s_inv = s.partial_piv_lu().inverse();
    for i in 0..box_size {
        s.write(i, i, s.read(i, i) - eps2)
    }
    let s_inv_d: Vec<f32> =
        (0..box_size).map(|i| (0..box_size).map(|j| s_inv.read(i, j) * d[j]).sum()).collect();
    let ares_temp: Vec<f32> =
        (0..box_size).map(|i| (0..box_size).map(|j| s.read(i, j) * s_inv_d[j]).sum()).collect();
    let z_inv: Vec<f32> = (0..box_size).map(|i| 1. / s_inv.read(i, i)).collect();
    let ares: Vec<f32> = (0..box_size).map(|i| ares_temp[i] - d[i]).collect();
    let cvres: Vec<f32> = (0..box_size).map(|i| -1. * z_inv[i] * s_inv_d[i]).collect();
    let sig2o =
        0.01_f32.max((0..box_size).map(|i| d[i] * -1. * ares[i]).sum::<f32>() / box_size as f32);
    (0..box_size)
        .map(|i| Score { cvres: to_fixed(cvres[i]), pog: to_fixed(cvres[i] * ares[i] / sig2o) })
        .collect()
}

fn readings(values: &[f32]) -> Vec<Option<Reading>> {
    values.iter().map(|v| Some(Reading::Finite((v * 1000.).round() as i32))).collect()
}

fn elevations(elevs: &[f32]) -> Vec<Reading> {
    elevs.iter().map(|e| Reading::Finite(e.round() as i32)).collect()
}

fn simple_args() -> SctArgs {
    SctArgs {
        num_min: 3,
        num_max: 10,
        inner_radius: 10000,
        outer_radius: 10000,
        num_iterations: 1,
        num_min_prof: 0,
        min_elev_diff: 100,
        min_horizontal_scale: 10000,
        vertical_scale: 200,
        pos: SingleOrVec::Single(2000),
        neg: SingleOrVec::Single(2000),
        eps2: SingleOrVec::Single(500),
    }
}

#[test]
fn sct_test_sct_simple() {
    let lats = [10., 10.01, 10.02];
    let elevs = [0., 1., 100.];
    let points: Vec<(i64, i64, i64)> = lats.iter().map(|lat| geodetic(*lat, 0.)).collect();
    let tree = SpatialTree::from_points(points.clone(), elevations(&elevs)).unwrap();
    let out = sct(&readings(&[60.; 3]), &tree, &simple_args(), None, |input| {
        analyse(&points, &elevs, 0.5, 200., input)
    })
    .unwrap();
    assert_eq!(out.flags, [Flag::Pass, Flag::Pass, Flag::Fail]);

    // level ground, and one limit per station
    let lons = [10., 10.01, 10.02];
    let elevs = [0.; 3];
    let points: Vec<(i64, i64, i64)> = lons.iter().map(|lon| geodetic(60., *lon)).collect();
    let tree = SpatialTree::from_points(points.clone(), elevations(&elevs)).unwrap();
    let args = SctArgs {
        pos: SingleOrVec::Vec(vec![2000; 3]),
        neg: SingleOrVec::Vec(vec![2000; 3]),
        eps2: SingleOrVec::Vec(vec![500; 3]),
        ..simple_args()
    };
    let out = sct(&readings(&[0., 1., 100.]), &tree, &args, None, |input| {
        analyse(&points, &elevs, 0.5, 200., input)
    })
    .unwrap();
    assert_eq!(out.flags, [Flag::Pass, Flag::Pass, Flag::Fail]);

    const N: usize = 10000;
    let lats: Vec<f32> = (0..N).map(|i| ((i as f32).powi(2) * 0.001) % 1.).collect();
    let lons: Vec<f32> = (0..N).map(|i| ((i as f32 + 1.).powi(2) * 0.001) % 1.).collect();
    let elevs = vec![1.; N];
    let points: Vec<(i64, i64, i64)> =
        lats.iter().zip(lons.iter()).map(|(lat, lon)| geodetic(*lat, *lon)).collect();
    let tree = SpatialTree::from_points(points.clone(), elevations(&elevs)).unwrap();
    let args = SctArgs {
        num_min: 5,
        num_max: 100,
        inner_radius: 50000,
        outer_radius: 150000,
        num_iterations: 5,
        num_min_prof: 20,
        min_elev_diff: 200,
        min_horizontal_scale: 10000,
        vertical_scale: 200,
        pos: SingleOrVec::Single(4000),
        neg: SingleOrVec::Single(8000),
        eps2: SingleOrVec::Single(500),
    };
    let out = sct(&readings(&vec![1.; N]), &tree, &args, Some(&vec![true; N]), |input| {
        analyse(&points, &elevs, 0.5, 200., input)
    })
    .unwrap();
    assert_eq!(out.flags, vec![Flag::Pass; N]);
}

#[test]
fn station_with_few_neighbours_is_isolated() {
    // the third station lies 30 km from the others
    let points = vec![(0, 0, 0), (1000, 0, 0), (30000, 0, 0)];
    let tree = SpatialTree::from_points(points.clone(), elevations(&[0.; 3])).unwrap();
    let args = SctArgs { num_min: 2, ..simple_args() };
    let out = sct(&readings(&[1., 1., 1.]), &tree, &args, None, |input| {
        analyse(&points, &[0.; 3], 0.5, 200., input)
    })
    .unwrap();
    assert_eq!(out.flags, [Flag::Pass, Flag::Pass, Flag::Isolated]);
    assert_eq!(out.prob_gross_error, [0, 0, 0]);
}

#[test]
fn missing_and_unusable_stations_keep_their_flags() {
    let points = vec![(0, 0, 0), (10, 0, 0), (20, 0, 0), (30, 0, 0), (40, 0, 0)];
    let elevs =
        vec![Reading::Finite(0), Reading::Finite(0), Reading::NotFinite, Reading::Finite(0), Reading::Finite(0)];
    let data = vec![
        None,
        Some(Reading::NotFinite),
        Some(Reading::Finite(1000)),
        Some(Reading::Finite(1000)),
        Some(Reading::Finite(1000)),
    ];
    let tree = SpatialTree::from_points(points, elevs).unwrap();
    let args = SctArgs { num_min: 2, ..simple_args() };
    let mut run = SctRun::new(&data, &tree, &args, None).unwrap();
    assert_eq!(
        run.flags(),
        &[Flag::DataMissing, Flag::Fail, Flag::Invalid, Flag::Pass, Flag::Pass]
    );
    assert!(run.next_box());
    // only the two stations that pass stand in a box
    let members: Vec<usize> = run.pending_box().unwrap().iter().map(|m| m.1).collect();
    assert_eq!(members, [3, 4]);
    assert_eq!(run.pending_box().unwrap()[0], (0, 3));
    assert_eq!(run.pending_box().unwrap()[1], (100, 4));
    run.apply(&[Score { cvres: 0, pog: 0 }, Score { cvres: -5, pog: 2001 }]).unwrap();
    assert!(!run.next_box());
    assert!(run.is_finished());
    let out = run.into_output();
    assert_eq!(
        out.flags,
        [Flag::DataMissing, Flag::Fail, Flag::Invalid, Flag::Pass, Flag::Fail]
    );
    assert_eq!(out.prob_gross_error, [0, 0, 0, 0, 2001]);
}

#[test]
fn refused_arguments_are_named() {
    let tree = SpatialTree::from_points(vec![(0, 0, 0); 3], elevations(&[0.; 3])).unwrap();
    let data = readings(&[1.; 3]);
    let refused = |args: SctArgs| SctRun::new(&data, &tree, &args, None).err().unwrap();
    let arg = |name: &str, why: &str| Error::InvalidArg(name.to_string(), why.to_string());
    assert_eq!(refused(SctArgs { num_min: 1, ..simple_args() }), arg("num_min", "must be > 1"));
    assert_eq!(
        refused(SctArgs { num_max: 2, ..simple_args() }),
        arg("num_max", "must be > num_min")
    );
    assert_eq!(
        refused(SctArgs { num_iterations: 0, ..simple_args() }),
        arg("num_iterations", "must be >= 1")
    );
    assert_eq!(
        refused(SctArgs { min_elev_diff: 0, ..simple_args() }),
        arg("min_elev_diff", "must be > 0")
    );
    assert_eq!(
        refused(SctArgs { min_horizontal_scale: 0, ..simple_args() }),
        arg("min_horizontal_scale", "must be > 0")
    );
    assert_eq!(
        refused(SctArgs { vertical_scale: -1, ..simple_args() }),
        arg("vertical_scale", "must be > 0")
    );
    assert_eq!(
        refused(SctArgs { inner_radius: 10001, ..simple_args() }),
        arg("outer_radius", "must be >= inner_radius")
    );
    assert_eq!(
        refused(SctArgs { pos: SingleOrVec::Single(-1), ..simple_args() }),
        arg("pos", "all values must be >= 0")
    );
    assert_eq!(
        refused(SctArgs { neg: SingleOrVec::Vec(vec![0, -1, 0]), ..simple_args() }),
        arg("neg", "all values must be >= 0")
    );
    assert_eq!(
        refused(SctArgs { eps2: SingleOrVec::Single(0), ..simple_args() }),
        arg("eps2", "all values must be > 0")
    );
    assert_eq!(
        refused(SctArgs { eps2: SingleOrVec::Vec(vec![1, 1]), ..simple_args() }),
        Error::InvalidInputShape("eps2".to_string())
    );
    assert_eq!(
        SctRun::new(&data[..2], &tree, &simple_args(), None).err().unwrap(),
        Error::InvalidInputShape("tree_points".to_string())
    );
    assert_eq!(
        SctRun::new(&data, &tree, &simple_args(), Some(&[true; 2])).err().unwrap(),
        Error::InvalidInputShape("obs_to_check".to_string())
    );
}

#[test]
fn wrong_number_of_scores_is_refused() {
    let points = vec![(0, 0, 0), (10, 0, 0), (20, 0, 0)];
    let tree = SpatialTree::from_points(points, elevations(&[0.; 3])).unwrap();
    let out = sct(&readings(&[1.; 3]), &tree, &simple_args(), None, |_| Vec::new());
    assert_eq!(out.err().unwrap(), Error::InvalidInputShape("scores".to_string()));
}

/// An analysis that scores each member by what its value lies above the
/// profile of the box.
fn by_residual(input: SctBox) -> Vec<Score> {
    input.residuals.iter().map(|r| Score { cvres: if *r > 0 { -1 } else { 1 }, pog: r.abs() }).collect()
}

fn grid_args(num_iterations: u32) -> SctArgs {
    SctArgs {
        num_min: 3,
        num_max: 5,
        inner_radius: 15,
        outer_radius: 100,
        num_iterations,
        num_min_prof: 100,
        min_elev_diff: 100,
        min_horizontal_scale: 10,
        vertical_scale: 100,
        pos: SingleOrVec::Single(2000),
        neg: SingleOrVec::Single(4000),
        eps2: SingleOrVec::Single(500),
    }
}

fn row_of_stations(n: i64) -> SpatialTree {
    SpatialTree::from_points((0..n).map(|i| (i * 10, 0, 0)).collect(), vec![Reading::Finite(0); n as usize])
        .unwrap()
}

#[test]
fn box_holds_the_nearest_stations_and_their_residuals() {
    let tree = SpatialTree::from_points(
        vec![(0, 0, 0), (30, 0, 0), (0, 40, 0), (20, 0, 0), (500, 0, 0), (0, 0, 10)],
        vec![
            Reading::Finite(7),
            Reading::Finite(7),
            Reading::Finite(7),
            Reading::Finite(7),
            Reading::Finite(7),
            Reading::Finite(7),
        ],
    )
    .unwrap();
    let data = readings(&[1., 2., 6., 3., 9., 1.]);
    let args = SctArgs { num_max: 4, ..grid_args(1) };
    let mut run = SctRun::new(&data, &tree, &args, None).unwrap();
    assert!(run.next_box());
    let input = run.pending_input().unwrap();
    // from the nearest on; the station 500 metres off is out of reach, the
    // one 40 metres off is one too many
    assert_eq!(input.members, [(0, 0), (100, 5), (400, 3), (900, 1)]);
    assert_eq!(run.pending_box().unwrap(), &input.members);
    // on level ground the profile is the mean of 1, 1, 3 and 2
    assert_eq!(input.residuals, [-750, -750, 1250, 250]);
    // the tenth of the way through the distances to the other members:
    // from 10, 20, 30; from 10, 22, 31; from 10, 20, 22; from 10, 30, 31
    assert_eq!(input.horizontal_scale, (12 + 12 + 12 + 14) / 4);
    let low = SctArgs { min_horizontal_scale: 5, ..args.clone() };
    let mut run = SctRun::new(&data, &tree, &low, None).unwrap();
    assert!(run.next_box());
    assert_eq!(run.pending_input().unwrap().horizontal_scale, 12);
    let floor = SctArgs { min_horizontal_scale: 13, ..args };
    let mut run = SctRun::new(&data, &tree, &floor, None).unwrap();
    assert!(run.next_box());
    assert_eq!(run.pending_input().unwrap().horizontal_scale, 13);
}

#[test]
fn scores_are_judged_by_the_sign_of_the_residual() {
    let tree = row_of_stations(3);
    let data = readings(&[0., 0., 0.]);
    let args = grid_args(1);
    let judge = |cvres: i64, pog: i64| {
        let mut run = SctRun::new(&data, &tree, &args, None).unwrap();
        assert!(run.next_box());
        run.apply(&[Score { cvres, pog }, Score { cvres: 0, pog: 0 }, Score { cvres: 0, pog: 0 }])
            .unwrap();
        (run.flags()[0], run.prob_gross_error()[0])
    };
    // a negative residual is held against the first limit, any other against the second
    assert_eq!(judge(-1, 2000), (Flag::Pass, 2000));
    assert_eq!(judge(-1, 2001), (Flag::Fail, 2001));
    assert_eq!(judge(0, 2001), (Flag::Pass, 2001));
    assert_eq!(judge(0, 4000), (Flag::Pass, 4000));
    assert_eq!(judge(1, 4001), (Flag::Fail, 4001));
    assert_eq!(judge(1, -7), (Flag::Pass, 0));
}

#[test]
fn analysis_settles_the_members_within_the_inner_radius() {
    let tree = row_of_stations(4);
    let data = readings(&[0.; 4]);
    let args = grid_args(2);
    let mask = [true, false, true, true];
    let mut run = SctRun::new(&data, &tree, &args, Some(&mask)).unwrap();
    assert!(run.next_box());
    assert_eq!(run.pending_box().unwrap(), &[(0, 0), (100, 1), (400, 2), (900, 3)]);
    // the second station is within reach but not selected, the third and fourth lie too far
    run.apply(&[Score { cvres: -1, pog: 5 }, Score { cvres: -1, pog: 9000 }, Score { cvres: -1, pog: 9000 }, Score { cvres: -1, pog: 9000 }]).unwrap();
    assert_eq!(run.flags(), &[Flag::Pass; 4]);
    assert_eq!(run.prob_gross_error(), &[5, 0, 0, 0]);
    // the third station is next: the first was dealt with, the second is not selected
    assert!(run.next_box());
    assert_eq!(run.pending_box().unwrap(), &[(0, 2), (100, 1), (100, 3), (400, 0)]);
    assert_eq!(
        run.apply(&[Score { cvres: 0, pog: 0 }]).err().unwrap(),
        Error::InvalidInputShape("scores".to_string())
    );
    run.apply(&[Score { cvres: 1, pog: 4001 }, Score { cvres: 1, pog: 1 }, Score { cvres: 1, pog: 3 }, Score { cvres: 1, pog: 1 }]).unwrap();
    assert_eq!(run.flags(), &[Flag::Pass, Flag::Pass, Flag::Fail, Flag::Pass]);
    assert_eq!(run.prob_gross_error(), &[5, 0, 4001, 3]);
    // the fourth station was dealt with; the sweep rejected a station, so another follows
    assert!(run.next_box());
    assert_eq!(run.pending_box().unwrap(), &[(0, 0), (100, 1), (900, 3)]);
    assert_eq!(
        run.apply(&[]).err().unwrap(),
        Error::InvalidInputShape("scores".to_string())
    );
    run.apply(&[Score { cvres: 1, pog: 1 }; 3]).unwrap();
    assert!(run.next_box());
    assert_eq!(run.pending_box().unwrap(), &[(0, 3), (400, 1), (900, 0)]);
    run.apply(&[Score { cvres: 1, pog: 7 }; 3]).unwrap();
    assert!(!run.next_box());
    assert!(run.is_finished());
    assert_eq!(run.apply(&[]).err().unwrap(), Error::InvalidInputShape("scores".to_string()));
    let out = run.into_output();
    assert_eq!(out.flags, [Flag::Pass, Flag::Pass, Flag::Fail, Flag::Pass]);
    assert_eq!(out.prob_gross_error, [5, 0, 4001, 7]);
}

#[test]
fn more_sweeps_change_nothing_once_the_test_has_converged() {
    let n = 12;
    let tree = row_of_stations(n);
    let mut values = vec![1.; n as usize];
    values[3] = 9.;
    values[8] = 4.;
    let data = readings(&values);
    let flags = |sweeps: u32| sct(&data, &tree, &grid_args(sweeps), None, by_residual).unwrap().flags;
    let converged = flags(50);
    assert_eq!(converged[3], Flag::Fail);
    assert_eq!(converged[8], Flag::Fail);
    assert_eq!(converged.iter().filter(|f| **f == Flag::Pass).count(), 10);
    let mut before = vec![Flag::Pass; n as usize];
    let mut settled = false;
    for sweeps in 1..8 {
        let after = flags(sweeps);
        // failures only grow
        for (a, b) in before.iter().zip(after.iter()) {
            assert!(a == b || *a == Flag::Pass);
        }
        settled = settled || after == converged;
        if settled {
            assert_eq!(after, converged);
        }
        before = after;
    }
    assert!(settled);
}

#[test]
fn stations_that_are_not_selected_are_not_tested() {
    let n = 6;
    let tree = row_of_stations(n);
    let data = readings(&[1., 1., 9., 1., 1., 1.]);
    let mut mask = vec![true; n as usize];
    mask[2] = false;
    let out = sct(&data, &tree, &grid_args(3), Some(&mask), by_residual).unwrap();
    assert_eq!(out.flags[2], Flag::Pass);
    assert_eq!(out.prob_gross_error[2], 0);
}
