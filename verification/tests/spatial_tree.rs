use olympian::spatial_tree::check_latlon;
use olympian::{Error, Reading, SpatialTree};

fn flat_tree(points: Vec<(i64, i64, i64)>) -> SpatialTree {
    let n = points.len();
    SpatialTree::from_points(points, vec![Reading::Finite(0); n]).unwrap()
}

#[test]
fn neighbours_within_radius_are_found() {
    let tree = flat_tree(vec![(0, 0, 0), (3, 4, 0), (10, 0, 0), (0, 0, 0)]);
    let mut found = tree.get_neighbours((0, 0, 0), 5, true);
    found.sort();
    assert_eq!(found, vec![0, 1, 3]);
    // stations at the very point of the query are left out on demand
    let mut others = tree.get_neighbours((0, 0, 0), 5, false);
    others.sort();
    assert_eq!(others, vec![1]);
}

#[test]
fn radius_is_inclusive() {
    let tree = flat_tree(vec![(3, 4, 0), (3, 4, 1)]);
    assert_eq!(tree.get_neighbours((0, 0, 0), 5, true), vec![0]);
    assert_eq!(tree.get_neighbours((0, 0, 0), 4, true), Vec::<usize>::new());
}

#[test]
fn neighbours_with_distance_agree_with_neighbours() {
    let points: Vec<(i64, i64, i64)> =
        (0..200).map(|i| ((i * 37) % 101 - 50, (i * 53) % 89 - 40, (i * 11) % 7)).collect();
    let tree = flat_tree(points.clone());
    for (q, radius) in [((0, 0, 0), 30u32), ((10, -20, 3), 45), ((200, 200, 200), 5), ((1, 1, 1), 0)] {
        for include_match in [true, false] {
            let mut plain = tree.get_neighbours(q, radius, include_match);
            let (mut found, distances) = tree.get_neighbours_with_distance(q, radius, include_match);
            assert_eq!(found.len(), distances.len());
            for (station, d2) in found.iter().zip(distances.iter()) {
                let p = points[*station];
                assert_eq!(*d2, (p.0 - q.0).pow(2) + (p.1 - q.1).pow(2) + (p.2 - q.2).pow(2));
                assert!(*d2 <= (radius as i64).pow(2));
            }
            plain.sort();
            found.sort();
            assert_eq!(plain, found);
            // and they are all the stations within the radius
            let expected: Vec<usize> = (0..points.len())
                .filter(|j| {
                    let p = points[*j];
                    let d2 = (p.0 - q.0).pow(2) + (p.1 - q.1).pow(2) + (p.2 - q.2).pow(2);
                    d2 <= (radius as i64).pow(2) && (include_match || p != q)
                })
                .collect();
            assert_eq!(found, expected);
        }
    }
}

#[test]
fn huge_radius_finds_everything() {
    let limit = 536_870_912;
    let tree = flat_tree(vec![(limit, limit, limit), (-limit, -limit, -limit), (0, 0, 0)]);
    let mut found = tree.get_neighbours((limit, limit, limit), u32::MAX, true);
    found.sort();
    assert_eq!(found, vec![0, 1, 2]);
    let (_, distances) = tree.get_neighbours_with_distance((-limit, -limit, -limit), u32::MAX, true);
    assert!(distances.contains(&(3 * (2 * limit).pow(2))));
}

#[test]
fn empty_tree_has_no_neighbours() {
    let tree = flat_tree(Vec::new());
    assert_eq!(tree.size(), 0);
    assert_eq!(tree.get_neighbours((1, 2, 3), 1000, true), Vec::<usize>::new());
}

#[test]
fn size_and_coordinates() {
    let tree = SpatialTree::from_points(
        vec![(1, 2, 3), (4, 5, 6)],
        vec![Reading::Finite(7), Reading::NotFinite],
    )
    .unwrap();
    assert_eq!(tree.size(), 2);
    assert_eq!(tree.get_coords_at_index(0), ((1, 2, 3), Reading::Finite(7)));
    assert_eq!(tree.get_coords_at_index(1), ((4, 5, 6), Reading::NotFinite));
}

#[test]
fn spacing_is_the_whole_part_of_the_distance() {
    let tree = flat_tree(vec![(0, 0, 0), (3, 4, 0), (1, 1, 0), (1000, 1000, 1000)]);
    assert_eq!(tree.spacing(0, 1), 5);
    assert_eq!(tree.spacing(0, 2), 1);
    assert_eq!(tree.spacing(0, 3), 1732);
    assert_eq!(tree.spacing(2, 2), 0);
}

#[test]
fn misshapen_input_is_refused() {
    let shape = |name: &str| Error::InvalidInputShape(name.to_string());
    let arg = |name: &str| Error::InvalidArg(name.to_string(), "outside valid range".to_string());
    assert_eq!(
        SpatialTree::from_points(vec![(0, 0, 0)], vec![]).err().unwrap(),
        shape("elevs")
    );
    assert_eq!(
        SpatialTree::from_points(vec![(0, 0, 536_870_913)], vec![Reading::Finite(0)]).err().unwrap(),
        arg("points")
    );
    assert_eq!(
        SpatialTree::from_points(vec![(0, -536_870_913, 0)], vec![Reading::Finite(0)]).err().unwrap(),
        arg("points")
    );
    assert_eq!(
        SpatialTree::from_points(vec![(0, 0, 0)], vec![Reading::Finite(536_870_913)]).err().unwrap(),
        arg("elevs")
    );
    assert!(SpatialTree::from_points(vec![(536_870_912, 0, 0)], vec![Reading::Finite(-536_870_912)])
        .is_ok());
}

#[test]
fn places_off_the_globe_are_refused() {
    let refused = Error::InvalidArg("latlon".to_string(), "outside valid range".to_string());
    assert!(check_latlon(90_000_000, 360_000_000).is_ok());
    assert!(check_latlon(-90_000_000, -360_000_000).is_ok());
    assert_eq!(check_latlon(90_000_001, 0).err().unwrap(), refused);
    assert_eq!(check_latlon(-90_000_001, 0).err().unwrap(), refused);
    assert_eq!(check_latlon(0, 360_000_001).err().unwrap(), refused);
    assert_eq!(check_latlon(0, -360_000_001).err().unwrap(), refused);
}

#[test]
fn copy_of_a_tree_answers_alike() {
    let tree = flat_tree(vec![(0, 0, 0), (3, 4, 0), (10, 0, 0)]);
    let copy = tree.clone();
    assert_eq!(copy.size(), 3);
    let mut found = copy.get_neighbours((0, 0, 0), 5, true);
    found.sort();
    assert_eq!(found, vec![0, 1]);
}
