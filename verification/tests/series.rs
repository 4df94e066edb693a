use olympian::checks::spatial::buddy_check::init_flags;
use olympian::checks::spatial::sct::remove_flagged;
use olympian::{freeze_check, subset, Error, Flag, QcError, Reading, SeriesCache, SingleOrVec};

fn series(values: &[Option<i32>], leading: u8, trailing: u8) -> SeriesCache {
    SeriesCache {
        values: values.iter().map(|v| v.map(Reading::Finite)).collect(),
        num_leading_points: leading,
        num_trailing_points: trailing,
    }
}

#[test]
fn repeated_values_fail() {
    let data = series(&[Some(1), Some(1), Some(1), Some(2), Some(2), Some(2), Some(2)], 2, 0);
    assert_eq!(
        freeze_check(&data, 3).unwrap(),
        [Flag::Fail, Flag::Pass, Flag::Pass, Flag::Fail, Flag::Fail]
    );
}

#[test]
fn gaps_are_missing_data() {
    let data = series(&[Some(1), None, Some(1), Some(1), Some(1)], 1, 1);
    assert_eq!(
        freeze_check(&data, 2).unwrap(),
        [Flag::DataMissing, Flag::DataMissing, Flag::Fail]
    );
}

#[test]
fn needless_context_is_left_out() {
    let data = series(&[Some(9), Some(9), Some(9), Some(1), Some(2), Some(3), Some(3)], 3, 2);
    assert_eq!(freeze_check(&data, 2).unwrap(), [Flag::Pass, Flag::Pass]);
    assert_eq!(freeze_check(&data, 1).unwrap(), [Flag::Fail, Flag::Fail]);
}

#[test]
fn readings_that_are_no_numbers_repeat_nothing() {
    let data = SeriesCache {
        values: vec![Some(Reading::NotFinite), Some(Reading::NotFinite), Some(Reading::Finite(1))],
        num_leading_points: 1,
        num_trailing_points: 0,
    };
    assert_eq!(freeze_check(&data, 2).unwrap(), [Flag::Pass, Flag::Pass]);
}

#[test]
fn too_little_context_is_refused() {
    let data = series(&[Some(1), Some(1), Some(1)], 1, 0);
    assert_eq!(
        freeze_check(&data, 3).err().unwrap(),
        Error::InvalidInputShape("data".to_string())
    );
    let data = series(&[Some(1)], 1, 0);
    assert_eq!(
        freeze_check(&data, 1).err().unwrap(),
        Error::InvalidInputShape("data".to_string())
    );
}

#[test]
fn short_series_gives_no_window() {
    let data = series(&[Some(1), Some(1), Some(1)], 2, 1);
    assert_eq!(freeze_check(&data, 3).unwrap(), Vec::<Flag>::new());
}

#[test]
fn errors_read_well() {
    assert_eq!(
        Error::InvalidInputShape("pos".to_string()).message(),
        "input vector pos does not have compatible size"
    );
    assert_eq!(
        Error::InvalidArg("num_min".to_string(), "must be > 1".to_string()).message(),
        "argument num_min does not have a valid value: must be > 1"
    );
    assert_eq!(
        QcError::InvalidInputShape("eps2".to_string()).message(),
        "input vector eps2 does not have compatible size"
    );
    assert_eq!(
        QcError::from(Error::InvalidArg("a".to_string(), "b".to_string())).message(),
        "argument a does not have a valid value: b"
    );
    assert!(matches!(
        QcError::from(Error::InvalidInputShape("a".to_string())),
        QcError::InvalidInputShape(name) if name == "a"
    ));
}

#[test]
fn single_or_vec_gives_each_station_its_value() {
    assert_eq!(*SingleOrVec::Single(7).index(3), 7);
    assert_eq!(*SingleOrVec::Vec(vec![1, 2, 3]).index(1), 2);
}

#[test]
fn subset_picks_in_the_order_of_the_indices() {
    assert_eq!(subset(&[10, 20, 30, 40], &[3, 0, 0, 2]), [40, 10, 10, 30]);
    assert_eq!(subset(&[1.5, 2.5], &[]), Vec::<f64>::new());
}

#[test]
fn flags_start_from_the_observations() {
    let flags = init_flags(&[
        Some(Reading::Finite(0)),
        None,
        Some(Reading::NotFinite),
        Some(Reading::Finite(-5)),
    ]);
    assert_eq!(flags, [Flag::Pass, Flag::DataMissing, Flag::Fail, Flag::Pass]);
    // only the stations that pass are kept, each with its distance
    assert_eq!(
        remove_flagged(vec![3, 1, 0, 2], vec![30, 10, 0, 20], &flags),
        (vec![3, 0], vec![30, 0])
    );
    assert!(Reading::Finite(0).is_valid());
    assert!(!Reading::NotFinite.is_valid());
}
