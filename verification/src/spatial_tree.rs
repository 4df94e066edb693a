//! A spatial index over the positions of the stations.

use crate::arith::{integer_sqrt, sqrt_floor};
use crate::error::Error;
use crate::reading::Reading;
use rstar::primitives::GeomWithData;
use rstar::RTree;
use vstd::prelude::*;

verus! {

/// A position: Cartesian coordinates in whole metres.
pub type Point = (i64, i64, i64);

/// The largest magnitude a coordinate may have. Squared distances between
/// points within this limit fit the tree's 64-bit arithmetic.
pub const COORD_LIMIT: i64 = 536_870_912;

/// The largest radius that is told apart from "everything": no two points
/// within [`COORD_LIMIT`] are further apart than this.
pub const RADIUS_CAP: u32 = 2_147_483_648;

/// The R*-tree of `rstar` over the stations' positions. Each point is stored
/// with its station's number as payload.
#[verifier::external_body]
#[derive(Debug)]
pub struct PointIndex {
    tree: RTree<GeomWithData<[i64; 3], usize>>,
}

/// The points that a tree holds: the point at position `i` is the one stored
/// with payload `i`.
pub uninterp spec fn tree_points(tree: PointIndex) -> Seq<Point>;

/// Squared Euclidean distance between two points.
pub open spec fn dist2(a: Point, b: Point) -> int {
    (a.0 - b.0) * (a.0 - b.0) + (a.1 - b.1) * (a.1 - b.1) + (a.2 - b.2) * (a.2 - b.2)
}

/// Whether every coordinate of `p` lies within [`COORD_LIMIT`].
pub open spec fn in_limit(p: Point) -> bool {
    &&& -COORD_LIMIT <= p.0 <= COORD_LIMIT
    &&& -COORD_LIMIT <= p.1 <= COORD_LIMIT
    &&& -COORD_LIMIT <= p.2 <= COORD_LIMIT
}

/// Whether an elevation, if it is known, lies within [`COORD_LIMIT`].
pub open spec fn elev_in_limit(e: Reading) -> bool {
    e matches Reading::Finite(v) ==> -COORD_LIMIT <= v <= COORD_LIMIT
}

/// The largest latitude, in millionths of a degree.
pub const LATITUDE_LIMIT: i64 = 90_000_000;

/// The largest longitude, in millionths of a degree. Longitudes are counted
/// from 0 to 360 degrees by some and from -180 to 180 degrees by others, so
/// a full turn either way is accepted.
pub const LONGITUDE_LIMIT: i64 = 360_000_000;

/// Whether a latitude and a longitude, in millionths of a degree, name a
/// place on the globe.
pub open spec fn on_globe(lat: i64, lon: i64) -> bool {
    -LATITUDE_LIMIT <= lat <= LATITUDE_LIMIT && -LONGITUDE_LIMIT <= lon <= LONGITUDE_LIMIT
}

/// Examines a latitude and a longitude, in millionths of a degree: fails
/// with an argument error naming `latlon` where they name no place on the
/// globe.
pub fn check_latlon(lat: i64, lon: i64) -> (checked: Result<(), Error>)
    ensures
        checked is Ok <==> on_globe(lat, lon),
        checked matches Err(e) ==> e.is_arg("latlon"@, "outside valid range"@),
{
    if lat < -LATITUDE_LIMIT || lat > LATITUDE_LIMIT || lon < -LONGITUDE_LIMIT || lon
        > LONGITUDE_LIMIT {
        return Err(Error::arg("latlon", "outside valid range"));
    }
    Ok(())
}

/// Whether the positions and elevations can be indexed: there is one
/// elevation per position, there are no more than `u32::MAX` stations, and
/// every coordinate and every known elevation lies within [`COORD_LIMIT`].
pub open spec fn indexable(points: Seq<Point>, elevs: Seq<Reading>) -> bool {
    &&& elevs.len() == points.len()
    &&& points.len() <= u32::MAX
    &&& forall|j: int| 0 <= j < points.len() ==> in_limit(#[trigger] points[j])
    &&& forall|j: int| 0 <= j < elevs.len() ==> elev_in_limit(#[trigger] elevs[j])
}

/// Whether `e` names the first reason for which the positions and
/// elevations cannot be indexed.
pub open spec fn refuses(points: Seq<Point>, elevs: Seq<Reading>, e: Error) -> bool {
    if elevs.len() != points.len() {
        e.is_shape("elevs"@)
    } else if points.len() > u32::MAX {
        e.is_shape("points"@)
    } else if !(forall|j: int| 0 <= j < points.len() ==> in_limit(#[trigger] points[j])) {
        e.is_arg("points"@, "outside valid range"@)
    } else {
        e.is_arg("elevs"@, "outside valid range"@)
    }
}

/// Whether `p` lies no further than `radius` from `q`.
pub open spec fn within(p: Point, q: Point, radius: int) -> bool {
    dist2(p, q) <= radius * radius
}

/// Whether station `j` counts as a neighbour of the point `q`: it lies within
/// `radius`, and, unless `include_match` is set, not at `q` itself.
pub open spec fn is_neighbour(
    points: Seq<Point>,
    q: Point,
    radius: int,
    include_match: bool,
    j: int,
) -> bool {
    &&& 0 <= j < points.len()
    &&& within(points[j], q, radius)
    &&& (include_match || points[j] != q)
}

/// `rstar::RTree::bulk_load` on the points, each stored with its position in
/// `points` as payload (`GeomWithData::new`). The tree then holds exactly
/// these points under these payloads.
#[verifier::external_body]
fn tree_bulk_load(points: &Vec<Point>) -> (tree: PointIndex)
    ensures
        tree_points(tree) == points@,
{
    let items = points.iter().enumerate().map(|(i, p)| GeomWithData::new([p.0, p.1, p.2], i));
    PointIndex { tree: RTree::bulk_load(items.collect()) }
}

/// `rstar::RTree::size`: the number of points the tree holds.
#[verifier::external_body]
fn tree_size(tree: &PointIndex) -> (n: usize)
    ensures
        n == tree_points(*tree).len(),
{
    tree.tree.size()
}

/// `rstar::RTree::locate_within_distance`, handing out the payload of each
/// element found. The tree returns, in no stated order and each once, the
/// elements whose squared distance to the query point is at most
/// `max_squared_radius`. The tree computes squared distances in `i64`, so the
/// points and the query must lie within [`COORD_LIMIT`].
#[verifier::external_body]
fn tree_locate_within_distance(
    tree: &PointIndex,
    q: Point,
    max_squared_radius: i64,
) -> (found: Vec<usize>)
    requires
        in_limit(q),
        forall|j: int| 0 <= j < tree_points(*tree).len() ==> in_limit(#[trigger] tree_points(*tree)[j]),
    ensures
        found@.no_duplicates(),
        found@.len() <= tree_points(*tree).len(),
        forall|k: int|
            0 <= k < found@.len() ==> 0 <= #[trigger] found@[k] < tree_points(*tree).len() && dist2(
                tree_points(*tree)[found@[k] as int],
                q,
            ) <= max_squared_radius,
        forall|j: int|
            0 <= j < tree_points(*tree).len() && dist2(#[trigger] tree_points(*tree)[j], q)
                <= max_squared_radius ==> found@.contains(j as usize),
{
    tree.tree.locate_within_distance([q.0, q.1, q.2], max_squared_radius).map(|p| p.data).collect()
}

/// A spatial index over the positions of a set of stations, with the
/// elevation of each station.
#[derive(Debug)]
pub struct SpatialTree {
    tree: PointIndex,
    points: Vec<Point>,
    elevs: Vec<Reading>,
}

/// The squared distance between two points within the coordinate limit.
fn squared_distance(a: Point, b: Point) -> (d: i64)
    requires
        in_limit(a),
        in_limit(b),
    ensures
        d == dist2(a, b),
        0 <= d <= 3 * 0x1000_0000_0000_0000,
{
    let dx: i64 = a.0 - b.0;
    let dy: i64 = a.1 - b.1;
    let dz: i64 = a.2 - b.2;
    assert(0 <= dx * dx <= 0x1000_0000_0000_0000) by (nonlinear_arith)
        requires
            -0x4000_0000 <= dx <= 0x4000_0000,
    ;
    assert(0 <= dy * dy <= 0x1000_0000_0000_0000) by (nonlinear_arith)
        requires
            -0x4000_0000 <= dy <= 0x4000_0000,
    ;
    assert(0 <= dz * dz <= 0x1000_0000_0000_0000) by (nonlinear_arith)
        requires
            -0x4000_0000 <= dz <= 0x4000_0000,
    ;
    dx * dx + dy * dy + dz * dz
}

/// The bound on squared distances between points within the limit.
pub proof fn lemma_dist2_bound(a: Point, b: Point)
    requires
        in_limit(a),
        in_limit(b),
    ensures
        0 <= dist2(a, b) <= 3 * 0x1000_0000_0000_0000,
{
    let dx = a.0 - b.0;
    let dy = a.1 - b.1;
    let dz = a.2 - b.2;
    assert(0 <= dx * dx <= 0x1000_0000_0000_0000) by (nonlinear_arith)
        requires
            -0x4000_0000 <= dx <= 0x4000_0000,
    ;
    assert(0 <= dy * dy <= 0x1000_0000_0000_0000) by (nonlinear_arith)
        requires
            -0x4000_0000 <= dy <= 0x4000_0000,
    ;
    assert(0 <= dz * dz <= 0x1000_0000_0000_0000) by (nonlinear_arith)
        requires
            -0x4000_0000 <= dz <= 0x4000_0000,
    ;
}

/// The square of `radius`, with radii beyond [`RADIUS_CAP`] taken as the cap:
/// for points within the limit the two select the same neighbours.
fn squared_radius(radius: u32) -> (r2: i64)
    ensures
        radius <= RADIUS_CAP ==> r2 == radius * radius,
        radius > RADIUS_CAP ==> r2 == RADIUS_CAP * RADIUS_CAP,
        forall|p: Point, q: Point|
            in_limit(p) && in_limit(q) ==> (#[trigger] within(p, q, radius as int) <==> dist2(p, q)
                <= r2),
{
    let capped: i64 = if radius > RADIUS_CAP {
        RADIUS_CAP as i64
    } else {
        radius as i64
    };
    assert(0 <= capped * capped <= 0x4000_0000_0000_0000) by (nonlinear_arith)
        requires
            0 <= capped <= 0x8000_0000,
    ;
    let r2: i64 = capped * capped;
    proof {
        assert forall|p: Point, q: Point| in_limit(p) && in_limit(q) implies (#[trigger] within(
            p,
            q,
            radius as int,
        ) <==> dist2(p, q) <= r2) by {
            lemma_dist2_bound(p, q);
            if radius > RADIUS_CAP {
                let r = radius as int;
                assert(r * r >= 0x4000_0000_0000_0000) by (nonlinear_arith)
                    requires
                        r >= 0x8000_0000,
                ;
            }
        }
    }
    r2
}

impl SpatialTree {
    /// The positions of the stations, in station order.
    pub closed spec fn points(&self) -> Seq<Point> {
        self.points@
    }

    /// The elevations of the stations, in station order.
    pub closed spec fn elevs(&self) -> Seq<Reading> {
        self.elevs@
    }

    /// The index holds one point per station, each within the coordinate
    /// limit, and one elevation per station.
    #[verifier::type_invariant]
    pub closed spec fn wf(&self) -> bool {
        &&& tree_points(self.tree) == self.points@
        &&& self.elevs@.len() == self.points@.len()
        &&& self.points@.len() <= u32::MAX
        &&& forall|j: int| 0 <= j < self.points@.len() ==> in_limit(#[trigger] self.points@[j])
        &&& forall|j: int| 0 <= j < self.elevs@.len() ==> elev_in_limit(#[trigger] self.elevs@[j])
    }

    /// What well-formedness says in terms of the public views.
    pub proof fn lemma_wf(&self)
        requires
            self.wf(),
        ensures
            self.elevs().len() == self.points().len(),
            self.points().len() <= u32::MAX,
            forall|j: int| 0 <= j < self.points().len() ==> in_limit(#[trigger] self.points()[j]),
            forall|j: int| 0 <= j < self.elevs().len() ==> elev_in_limit(#[trigger] self.elevs()[j]),
    {
    }

    /// Builds the index over `points`, with `elevs[i]` the elevation of the
    /// station at `points[i]`.
    ///
    /// Fails with a shape error naming `elevs` when the two vectors differ in
    /// length, and naming `points` when there are more than `u32::MAX`
    /// stations; with an argument error naming `points` when a coordinate,
    /// and naming `elevs` when an elevation, lies beyond [`COORD_LIMIT`].
    pub fn from_points(points: Vec<Point>, elevs: Vec<Reading>) -> (built: Result<
        SpatialTree,
        Error,
    >)
        ensures
            match built {
                Ok(tree) => {
                    &&& tree.wf()
                    &&& tree.points() == points@
                    &&& tree.elevs() == elevs@
                },
                Err(e) => refuses(points@, elevs@, e),
            },
            built is Ok <==> indexable(points@, elevs@),
    {
        if elevs.len() != points.len() {
            return Err(Error::shape("elevs"));
        }
        if points.len() > u32::MAX as usize {
            return Err(Error::shape("points"));
        }
        let mut i: usize = 0;
        while i < points.len()
            invariant
                i <= points@.len(),
                elevs@.len() == points@.len(),
                points@.len() <= u32::MAX,
                forall|j: int| 0 <= j < i ==> in_limit(#[trigger] points@[j]),
            decreases points@.len() - i,
        {
            let p = points[i];
            if p.0 < -COORD_LIMIT || p.0 > COORD_LIMIT || p.1 < -COORD_LIMIT || p.1 > COORD_LIMIT
                || p.2 < -COORD_LIMIT || p.2 > COORD_LIMIT {
                assert(!in_limit(points@[i as int]));
                return Err(Error::arg("points", "outside valid range"));
            }
            i += 1;
        }
        let mut i: usize = 0;
        while i < elevs.len()
            invariant
                i <= elevs@.len(),
                elevs@.len() == points@.len(),
                points@.len() <= u32::MAX,
                forall|j: int| 0 <= j < points@.len() ==> in_limit(#[trigger] points@[j]),
                forall|j: int| 0 <= j < i ==> elev_in_limit(#[trigger] elevs@[j]),
            decreases elevs@.len() - i,
        {
            if let Reading::Finite(v) = elevs[i] {
                if (v as i64) < -COORD_LIMIT || (v as i64) > COORD_LIMIT {
                    assert(!elev_in_limit(elevs@[i as int]));
                    return Err(Error::arg("elevs", "outside valid range"));
                }
            }
            i += 1;
        }
        let tree = tree_bulk_load(&points);
        Ok(SpatialTree { tree, points, elevs })
    }

    /// The number of stations in the index.
    pub fn size(&self) -> (n: usize)
        ensures
            n == self.points().len(),
    {
        proof {
            use_type_invariant(self);
        }
        tree_size(&self.tree)
    }

    /// The position and the elevation of station `i`.
    pub fn get_coords_at_index(&self, i: usize) -> (coords: (Point, Reading))
        requires
            i < self.points().len(),
        ensures
            coords.0 == self.points()[i as int],
            coords.1 == self.elevs()[i as int],
            in_limit(coords.0),
    {
        proof {
            use_type_invariant(self);
        }
        (self.points[i], self.elevs[i])
    }

    /// The distance between the stations `a` and `b`, in whole metres.
    pub fn spacing(&self, a: usize, b: usize) -> (d: i64)
        requires
            a < self.points().len(),
            b < self.points().len(),
        ensures
            d == sqrt_floor(dist2(self.points()[a as int], self.points()[b as int])),
            0 <= d <= 0x1_0000_0000,
    {
        proof {
            use_type_invariant(self);
        }
        integer_sqrt(squared_distance(self.points[a], self.points[b]))
    }

    /// The stations within `radius` of the point `q`, each once and in no
    /// stated order. Stations at `q` itself are left out unless
    /// `include_match` is set.
    pub fn get_neighbours(&self, q: Point, radius: u32, include_match: bool) -> (found: Vec<usize>)
        requires
            in_limit(q),
        ensures
            found@.no_duplicates(),
            found@.len() <= self.points().len(),
            forall|k: int|
                0 <= k < found@.len() ==> is_neighbour(
                    self.points(),
                    q,
                    radius as int,
                    include_match,
                    #[trigger] found@[k] as int,
                ),
            forall|j: int|
                is_neighbour(self.points(), q, radius as int, include_match, j)
                    ==> found@.contains(j as usize),
    {
        proof {
            use_type_invariant(self);
        }
        let r2 = squared_radius(radius);
        let located = tree_locate_within_distance(&self.tree, q, r2);
        assert forall|k: int| 0 <= k < located@.len() implies is_neighbour(
            self.points(),
            q,
            radius as int,
            true,
            #[trigger] located@[k] as int,
        ) by {
            assert(within(self.points@[located@[k] as int], q, radius as int));
        }
        assert forall|j: int|
            is_neighbour(self.points(), q, radius as int, true, j) implies located@.contains(
            j as usize,
        ) by {
            assert(within(self.points@[j], q, radius as int));
        }
        if include_match {
            return located;
        }
        let mut found: Vec<usize> = Vec::new();
        let mut k: usize = 0;
        while k < located.len()
            invariant
                self.wf(),
                k <= located@.len(),
                found@.len() <= k,
                located@.len() <= self.points@.len(),
                located@.no_duplicates(),
                forall|i: int|
                    0 <= i < located@.len() ==> 0 <= #[trigger] located@[i] < self.points@.len(),
                found@.no_duplicates(),
                forall|i: int|
                    0 <= i < found@.len() ==> exists|m: int|
                        0 <= m < k && located@[m] == #[trigger] found@[i],
                forall|i: int|
                    0 <= i < found@.len() ==> self.points@[#[trigger] found@[i] as int] != q,
                forall|m: int|
                    0 <= m < k && self.points@[#[trigger] located@[m] as int] != q
                        ==> found@.contains(located@[m]),
            decreases located@.len() - k,
        {
            let idx = located[k];
            let p = self.points[idx];
            if p.0 != q.0 || p.1 != q.1 || p.2 != q.2 {
                proof {
                    assert forall|a: int| 0 <= a < found@.len() implies found@[a] != idx by {
                        let m = choose|m: int| 0 <= m < k && located@[m] == found@[a];
                        assert(located@[m] != located@[k as int]);
                    }
                }
                let ghost before = found@;
                found.push(idx);
                proof {
                    assert forall|m: int|
                        0 <= m < k + 1 && self.points@[#[trigger] located@[m] as int]
                            != q implies found@.contains(located@[m]) by {
                        if m < k {
                            assert(before.contains(located@[m]));
                            let a = choose|a: int| 0 <= a < before.len() && before[a] == located@[m];
                            assert(found@[a] == located@[m]);
                        } else {
                            assert(found@[found@.len() - 1] == located@[m]);
                        }
                    }
                    assert forall|i: int| 0 <= i < found@.len() implies exists|m: int|
                        0 <= m < k + 1 && located@[m] == #[trigger] found@[i] by {
                        if i < before.len() {
                            let m = choose|m: int| 0 <= m < k && located@[m] == before[i];
                            assert(located@[m] == found@[i]);
                        } else {
                            assert(located@[k as int] == found@[i]);
                        }
                    }
                }
            }
            k += 1;
        }
        proof {
            assert forall|i: int| 0 <= i < found@.len() implies is_neighbour(
                self.points(),
                q,
                radius as int,
                false,
                #[trigger] found@[i] as int,
            ) by {
                let m = choose|m: int| 0 <= m < k && located@[m] == found@[i];
                assert(is_neighbour(self.points(), q, radius as int, true, located@[m] as int));
            }
            assert forall|j: int|
                is_neighbour(self.points(), q, radius as int, false, j) implies found@.contains(
                j as usize,
            ) by {
                assert(is_neighbour(self.points(), q, radius as int, true, j));
                assert(located@.contains(j as usize));
                let m = choose|m: int| 0 <= m < located@.len() && located@[m] == j as usize;
                assert(self.points@[located@[m] as int] != q);
            }
        }
        found
    }

    /// The stations within `radius` of the point `q`, as
    /// [`SpatialTree::get_neighbours`] returns them, and beside each its
    /// squared distance from `q`.
    pub fn get_neighbours_with_distance(&self, q: Point, radius: u32, include_match: bool) -> (found:
        (Vec<usize>, Vec<i64>))
        requires
            in_limit(q),
        ensures
            found.0@.no_duplicates(),
            found.0@.len() <= self.points().len(),
            forall|k: int|
                0 <= k < found.0@.len() ==> is_neighbour(
                    self.points(),
                    q,
                    radius as int,
                    include_match,
                    #[trigger] found.0@[k] as int,
                ),
            forall|j: int|
                is_neighbour(self.points(), q, radius as int, include_match, j)
                    ==> found.0@.contains(j as usize),
            found.1@.len() == found.0@.len(),
            forall|k: int|
                0 <= k < found.0@.len() ==> #[trigger] found.1@[k] == dist2(
                    self.points()[found.0@[k] as int],
                    q,
                ),
    {
        proof {
            use_type_invariant(self);
        }
        let points = self.get_neighbours(q, radius, include_match);
        let vec_length = points.len();
        let mut distances: Vec<i64> = Vec::with_capacity(vec_length);
        let mut i: usize = 0;
        while i < vec_length
            invariant
                self.wf(),
                in_limit(q),
                vec_length == points@.len(),
                i <= vec_length,
                distances@.len() == i,
                forall|k: int|
                    0 <= k < points@.len() ==> is_neighbour(
                        self.points(),
                        q,
                        radius as int,
                        include_match,
                        #[trigger] points@[k] as int,
                    ),
                forall|k: int|
                    0 <= k < i ==> #[trigger] distances@[k] == dist2(
                        self.points()[points@[k] as int],
                        q,
                    ),
            decreases vec_length - i,
        {
            let idx = points[i];
            let d = squared_distance(self.points[idx], q);
            distances.push(d);
            i += 1;
        }
        (points, distances)
    }
}

impl Clone for SpatialTree {
    /// An index over the same stations.
    fn clone(&self) -> (copy: Self)
        ensures
            copy.wf(),
            copy.points() == self.points(),
            copy.elevs() == self.elevs(),
    {
        proof {
            use_type_invariant(self);
        }
        let mut points: Vec<Point> = Vec::with_capacity(self.points.len());
        let mut elevs: Vec<Reading> = Vec::with_capacity(self.elevs.len());
        let mut i: usize = 0;
        while i < self.points.len()
            invariant
                self.wf(),
                i <= self.points@.len(),
                points@.len() == i,
                elevs@.len() == i,
                forall|j: int| 0 <= j < i ==> points@[j] == self.points@[j],
                forall|j: int| 0 <= j < i ==> elevs@[j] == self.elevs@[j],
            decreases self.points@.len() - i,
        {
            points.push(self.points[i]);
            elevs.push(self.elevs[i]);
            i += 1;
        }
        assert(points@ =~= self.points@);
        assert(elevs@ =~= self.elevs@);
        match SpatialTree::from_points(points, elevs) {
            Ok(copy) => copy,
            Err(_) => vstd::pervasive::unreached(),
        }
    }
}

/// A query with distances names the same stations as the query without, and
/// no station that it names lies further than the radius.
pub proof fn lemma_with_distance_agrees(
    tree: SpatialTree,
    q: Point,
    radius: int,
    include_match: bool,
    plain: Seq<usize>,
    found: Seq<usize>,
    distances: Seq<i64>,
)
    requires
        forall|k: int|
            0 <= k < plain.len() ==> is_neighbour(
                tree.points(),
                q,
                radius,
                include_match,
                #[trigger] plain[k] as int,
            ),
        forall|j: int|
            is_neighbour(tree.points(), q, radius, include_match, j) ==> plain.contains(j as usize),
        forall|k: int|
            0 <= k < found.len() ==> is_neighbour(
                tree.points(),
                q,
                radius,
                include_match,
                #[trigger] found[k] as int,
            ),
        forall|j: int|
            is_neighbour(tree.points(), q, radius, include_match, j) ==> found.contains(j as usize),
        distances.len() == found.len(),
        forall|k: int|
            0 <= k < found.len() ==> #[trigger] distances[k] == dist2(
                tree.points()[found[k] as int],
                q,
            ),
    ensures
        forall|j: usize| plain.contains(j) <==> found.contains(j),
        forall|k: int| 0 <= k < distances.len() ==> #[trigger] distances[k] <= radius * radius,
{
    assert forall|j: usize| plain.contains(j) <==> found.contains(j) by {
        if plain.contains(j) {
            let k = choose|k: int| 0 <= k < plain.len() && plain[k] == j;
            assert(is_neighbour(tree.points(), q, radius, include_match, plain[k] as int));
        }
        if found.contains(j) {
            let k = choose|k: int| 0 <= k < found.len() && found[k] == j;
            assert(is_neighbour(tree.points(), q, radius, include_match, found[k] as int));
        }
    }
    assert forall|k: int| 0 <= k < distances.len() implies #[trigger] distances[k] <= radius
        * radius by {
        assert(is_neighbour(tree.points(), q, radius, include_match, found[k] as int));
    }
}

} // verus!
