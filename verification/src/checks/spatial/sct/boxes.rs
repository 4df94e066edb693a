//! The boxes of the spatial consistency test: which stations stand in the
//! box of a station, and what the analysis of a box takes in.

use super::{SctArgs, SctScene};
use crate::arith::{div_trunc, divide};
use crate::flag::Flag;
use crate::order::{ascending, lemma_ascending_total, lemma_sort_by_members, sort_ascending};
use crate::reading::Reading;
use crate::spatial_tree::{is_neighbour, SpatialTree};
use crate::stats::{bounded, compute_quantile, compute_vertical_profile_theil_sen};
use crate::sums::{from_kept, lemma_collect, lemma_same_members_same_multiset};
use vstd::prelude::*;

verus! {

/// The neighbours that still pass, and beside each its distance, in the
/// order of `neighbours`.
pub open spec fn passing(neighbours: Seq<usize>, distances: Seq<i64>, flags: Seq<Flag>) -> (
    Seq<usize>,
    Seq<i64>,
)
    decreases neighbours.len(),
{
    if neighbours.len() == 0 {
        (Seq::empty(), Seq::empty())
    } else {
        let front = passing(neighbours.drop_last(), distances.drop_last(), flags);
        if flags[neighbours.last() as int] == Flag::Pass {
            (front.0.push(neighbours.last()), front.1.push(distances.last()))
        } else {
            front
        }
    }
}

/// What [`passing`] keeps: every kept entry is an entry of the input that
/// passes, with its distance; every entry that passes is kept; and no
/// entry is kept more often than it stands in the input.
pub proof fn lemma_passing(neighbours: Seq<usize>, distances: Seq<i64>, flags: Seq<Flag>)
    requires
        distances.len() == neighbours.len(),
        neighbours.no_duplicates(),
    ensures
        passing(neighbours, distances, flags).0.len() == passing(
            neighbours,
            distances,
            flags,
        ).1.len(),
        passing(neighbours, distances, flags).0.len() <= neighbours.len(),
        passing(neighbours, distances, flags).0.no_duplicates(),
        forall|k: int|
            0 <= k < passing(neighbours, distances, flags).0.len() ==> kept_from(
                neighbours,
                distances,
                flags,
                #[trigger] passing(neighbours, distances, flags).0[k],
                passing(neighbours, distances, flags).1[k],
            ),
        forall|m: int|
            0 <= m < neighbours.len() && flags[neighbours[m] as int] == Flag::Pass ==> kept_in(
                passing(neighbours, distances, flags),
                #[trigger] neighbours[m],
                distances[m],
            ),
    decreases neighbours.len(),
{
    let out = passing(neighbours, distances, flags);
    if neighbours.len() > 0 {
        let front_n = neighbours.drop_last();
        let front_d = distances.drop_last();
        let front = passing(front_n, front_d, flags);
        lemma_passing(front_n, front_d, flags);
        let last = neighbours.len() - 1;
        assert forall|k: int| 0 <= k < out.0.len() implies kept_from(
            neighbours,
            distances,
            flags,
            #[trigger] out.0[k],
            out.1[k],
        ) by {
            if k < front.0.len() {
                assert(kept_from(front_n, front_d, flags, front.0[k], front.1[k]));
                let m = choose|m: int|
                    0 <= m < front_n.len() && #[trigger] front_n[m] == front.0[k] && front_d[m]
                        == front.1[k] && flags[front_n[m] as int] == Flag::Pass;
                assert(neighbours[m] == out.0[k] && distances[m] == out.1[k]);
            } else {
                assert(neighbours[last] == out.0[k] && distances[last] == out.1[k]);
            }
        }
        assert forall|m: int|
            0 <= m < neighbours.len() && flags[neighbours[m] as int] == Flag::Pass implies kept_in(
            out,
            #[trigger] neighbours[m],
            distances[m],
        ) by {
            if m < last {
                assert(kept_in(front, front_n[m], front_d[m]));
                let k = choose|k: int|
                    0 <= k < front.0.len() && #[trigger] front.0[k] == front_n[m] && front.1[k]
                        == front_d[m];
                assert(out.0[k] == neighbours[m] && out.1[k] == distances[m]);
            } else {
                assert(out.0[out.0.len() - 1] == neighbours[m] && out.1[out.0.len() - 1]
                    == distances[m]);
            }
        }
        assert forall|a: int, b: int|
            0 <= a < out.0.len() && 0 <= b < out.0.len() && a != b implies out.0[a] != out.0[b] by {
            if a < front.0.len() && b < front.0.len() {
                assert(front.0[a] != front.0[b]);
            } else if a < front.0.len() {
                assert(kept_from(front_n, front_d, flags, front.0[a], front.1[a]));
                let m = choose|m: int|
                    0 <= m < front_n.len() && #[trigger] front_n[m] == front.0[a] && front_d[m]
                        == front.1[a] && flags[front_n[m] as int] == Flag::Pass;
                assert(neighbours[m] != neighbours[last]);
            } else {
                assert(kept_from(front_n, front_d, flags, front.0[b], front.1[b]));
                let m = choose|m: int|
                    0 <= m < front_n.len() && #[trigger] front_n[m] == front.0[b] && front_d[m]
                        == front.1[b] && flags[front_n[m] as int] == Flag::Pass;
                assert(neighbours[m] != neighbours[last]);
            }
        }
    }
}

/// Whether `station` with `distance` is an entry of the input that passes.
pub open spec fn kept_from(
    neighbours: Seq<usize>,
    distances: Seq<i64>,
    flags: Seq<Flag>,
    station: usize,
    distance: i64,
) -> bool {
    exists|m: int|
        0 <= m < neighbours.len() && #[trigger] neighbours[m] == station && distances[m] == distance
            && flags[neighbours[m] as int] == Flag::Pass
}

/// Whether `station` with `distance` is an entry of `kept`.
pub open spec fn kept_in(kept: (Seq<usize>, Seq<i64>), station: usize, distance: i64) -> bool {
    exists|k: int| 0 <= k < kept.0.len() && #[trigger] kept.0[k] == station && kept.1[k] == distance
}

/// Drops the neighbours that no longer pass, and their distances with them.
pub fn remove_flagged(neighbours: Vec<usize>, distances: Vec<i64>, flags: &[Flag]) -> (kept: (
    Vec<usize>,
    Vec<i64>,
))
    requires
        distances@.len() == neighbours@.len(),
        forall|k: int| 0 <= k < neighbours@.len() ==> neighbours@[k] < flags@.len(),
    ensures
        (kept.0@, kept.1@) == passing(neighbours@, distances@, flags@),
{
    let vec_length = neighbours.len();
    let mut neighbours_new: Vec<usize> = Vec::with_capacity(vec_length);
    let mut distances_new: Vec<i64> = Vec::with_capacity(vec_length);
    let mut i: usize = 0;
    while i < vec_length
        invariant
            i <= vec_length,
            vec_length == neighbours@.len(),
            distances@.len() == neighbours@.len(),
            forall|k: int| 0 <= k < neighbours@.len() ==> neighbours@[k] < flags@.len(),
            (neighbours_new@, distances_new@) == passing(
                neighbours@.take(i as int),
                distances@.take(i as int),
                flags@,
            ),
        decreases vec_length - i,
    {
        proof {
            assert(neighbours@.take(i + 1).drop_last() =~= neighbours@.take(i as int));
            assert(distances@.take(i + 1).drop_last() =~= distances@.take(i as int));
        }
        if flags[neighbours[i]] == Flag::Pass {
            neighbours_new.push(neighbours[i]);
            distances_new.push(distances[i]);
        }
        i += 1;
    }
    proof {
        assert(neighbours@.take(vec_length as int) =~= neighbours@);
        assert(distances@.take(vec_length as int) =~= distances@);
    }
    (neighbours_new, distances_new)
}

/// The box of station `i` under the flags `flags`.
pub(crate) fn build_box(
    tree: &SpatialTree,
    flags: &Vec<Flag>,
    i: usize,
    args: &SctArgs,
    Ghost(scene): Ghost<SctScene>,
) -> (members: Vec<(i64, usize)>)
    requires
        scene.points == tree.points(),
        scene.args == *args,
        scene.data.len() == tree.points().len(),
        flags@.len() == tree.points().len(),
        i < flags@.len(),
    ensures
        members@ == scene.station_box(flags@, i as int),
        forall|k: int|
            0 <= k < members@.len() ==> (#[trigger] members@[k]).1 < flags@.len()
                && flags@[members@[k].1 as int] == Flag::Pass,
{
    proof {
        use_type_invariant(tree);
        tree.lemma_wf();
    }
    let n = flags.len();
    let (p, _) = tree.get_coords_at_index(i);
    let (neighbours_unfiltered, distances_unfiltered) = tree.get_neighbours_with_distance(
        p,
        args.outer_radius,
        true,
    );
    let ghost found = neighbours_unfiltered@;
    let ghost found_d = distances_unfiltered@;
    assert forall|k: int| 0 <= k < found.len() implies found[k] < flags@.len() by {
        assert(is_neighbour(tree.points(), p, args.outer_radius as int, true, found[k] as int));
    }
    let (neighbours, distances) = remove_flagged(
        neighbours_unfiltered,
        distances_unfiltered,
        flags.as_slice(),
    );
    proof {
        lemma_passing(found, found_d, flags@);
    }
    let mut pairs: Vec<(i64, usize)> = Vec::with_capacity(neighbours.len());
    let mut k: usize = 0;
    while k < neighbours.len()
        invariant
            k <= neighbours@.len(),
            distances@.len() == neighbours@.len(),
            pairs@.len() == k,
            forall|m: int| 0 <= m < k ==> #[trigger] pairs@[m] == (distances@[m], neighbours@[m]),
        decreases neighbours@.len() - k,
    {
        pairs.push((distances[k], neighbours[k]));
        k += 1;
    }
    let ghost unsorted = pairs@;
    sort_ascending(&mut pairs);
    let ghost sorted = pairs@;
    if pairs.len() > args.num_max {
        pairs.truncate(args.num_max);
    }
    proof {
        let item = scene.member_fn(i as int);
        let keep = scene.candidate_fn(flags@, i as int);
        let wanted = scene.candidates(flags@, i as int);
        lemma_collect(item, keep, n as int);
        assert(unsorted.no_duplicates()) by {
            assert forall|a: int, b: int|
                0 <= a < unsorted.len() && 0 <= b < unsorted.len() && a != b implies unsorted[a]
                != unsorted[b] by {
                assert(neighbours@[a] != neighbours@[b]);
            }
        }
        assert forall|x: (i64, usize)| unsorted.contains(x) <==> wanted.contains(x) by {
            if unsorted.contains(x) {
                let m = choose|m: int| 0 <= m < unsorted.len() && unsorted[m] == x;
                assert(kept_from(found, found_d, flags@, neighbours@[m], distances@[m]));
                let f = choose|f: int|
                    0 <= f < found.len() && #[trigger] found[f] == neighbours@[m] && found_d[f]
                        == distances@[m] && flags@[found[f] as int] == Flag::Pass;
                assert(is_neighbour(
                    tree.points(),
                    p,
                    args.outer_radius as int,
                    true,
                    found[f] as int,
                ));
                let j = found[f] as int;
                crate::spatial_tree::lemma_dist2_bound(tree.points()[j], p);
                assert(keep(j));
                assert(item(j) == x);
                assert(wanted.contains(item(j)));
            }
            if wanted.contains(x) {
                let c = choose|c: int| 0 <= c < wanted.len() && wanted[c] == x;
                assert(from_kept(item, keep, n as int, wanted[c]));
                let j = choose|j: int| 0 <= j < n && #[trigger] keep(j) && item(j) == x;
                assert(scene.candidate(flags@, i as int, j));
                assert(found.contains(j as usize));
                let f = choose|f: int| 0 <= f < found.len() && found[f] == j as usize;
                assert(kept_in((neighbours@, distances@), found[f], found_d[f]));
                let m = choose|m: int|
                    0 <= m < neighbours@.len() && #[trigger] neighbours@[m] == found[f]
                        && distances@[m] == found_d[f];
                crate::spatial_tree::lemma_dist2_bound(tree.points()[j], p);
                assert(unsorted[m] == x);
            }
        }
        lemma_same_members_same_multiset(unsorted, wanted);
        lemma_sort_by_members(unsorted, wanted);
        lemma_ascending_total();
        unsorted.lemma_sort_by_ensures(ascending());
        assert forall|m: int| 0 <= m < sorted.len() implies (#[trigger] sorted[m]).1 < n
            && flags@[sorted[m].1 as int] == Flag::Pass by {
            vstd::seq_lib::to_multiset_contains(sorted, sorted[m]);
            vstd::seq_lib::to_multiset_contains(unsorted, sorted[m]);
            assert(sorted.contains(sorted[m]));
            let u = choose|u: int| 0 <= u < unsorted.len() && unsorted[u] == sorted[m];
            assert(kept_from(found, found_d, flags@, neighbours@[u], distances@[u]));
        }
        if sorted.len() > args.num_max {
            assert(sorted.take(args.num_max as int) =~= sorted.subrange(0, args.num_max as int));
        }
    }
    pairs
}

/// The values and the elevations of the members of a box.
fn box_columns(
    data: &[Option<Reading>],
    tree: &SpatialTree,
    members: &Vec<(i64, usize)>,
    Ghost(scene): Ghost<SctScene>,
) -> (columns: (Vec<i64>, Vec<i64>))
    requires
        scene.points == tree.points(),
        scene.elevs == tree.elevs(),
        scene.data == data@,
        data@.len() == tree.points().len(),
        forall|k: int| 0 <= k < members@.len() ==> (#[trigger] members@[k]).1 < data@.len(),
    ensures
        columns.0@ == scene.box_values(members@),
        columns.1@ == scene.box_elevs(members@),
        crate::stats::fits(columns.1@, columns.0@),
{
    proof {
        use_type_invariant(tree);
        tree.lemma_wf();
    }
    let mut values_box: Vec<i64> = Vec::with_capacity(members.len());
    let mut elevs_box: Vec<i64> = Vec::with_capacity(members.len());
    let mut k: usize = 0;
    while k < members.len()
        invariant
            k <= members@.len(),
            tree.wf(),
            scene.points == tree.points(),
            scene.elevs == tree.elevs(),
            scene.data == data@,
            data@.len() == tree.points().len(),
            forall|m: int| 0 <= m < members@.len() ==> (#[trigger] members@[m]).1 < data@.len(),
            values_box@.len() == k,
            elevs_box@.len() == k,
            forall|m: int|
                0 <= m < k ==> #[trigger] values_box@[m] == scene.station_value(
                    members@[m].1 as int,
                ),
            forall|m: int|
                0 <= m < k ==> #[trigger] elevs_box@[m] == scene.station_elev(members@[m].1 as int),
            forall|m: int|
                0 <= m < k ==> -crate::stats::VALUE_LIMIT <= #[trigger] values_box@[m]
                    <= crate::stats::VALUE_LIMIT,
            forall|m: int|
                0 <= m < k ==> -crate::stats::ELEVATION_LIMIT <= #[trigger] elevs_box@[m]
                    <= crate::stats::ELEVATION_LIMIT,
        decreases members@.len() - k,
    {
        let station = members[k].1;
        let value: i64 = match data[station] {
            Some(Reading::Finite(v)) => v as i64,
            _ => 0,
        };
        let (_, elev) = tree.get_coords_at_index(station);
        proof {
            tree.lemma_wf();
            assert(crate::spatial_tree::elev_in_limit(tree.elevs()[station as int]));
        }
        let height: i64 = match elev {
            Reading::Finite(v) => v as i64,
            _ => 0,
        };
        values_box.push(value);
        elevs_box.push(height);
        k += 1;
    }
    proof {
        assert(values_box@ =~= scene.box_values(members@));
        assert(elevs_box@ =~= scene.box_elevs(members@));
    }
    (values_box, elevs_box)
}

/// What each member's value lies above the vertical profile of the box.
pub(crate) fn box_residuals(
    data: &[Option<Reading>],
    tree: &SpatialTree,
    args: &SctArgs,
    members: &Vec<(i64, usize)>,
    Ghost(scene): Ghost<SctScene>,
) -> (residuals: Vec<i64>)
    requires
        scene.points == tree.points(),
        scene.elevs == tree.elevs(),
        scene.data == data@,
        scene.args == *args,
        data@.len() == tree.points().len(),
        forall|k: int| 0 <= k < members@.len() ==> (#[trigger] members@[k]).1 < data@.len(),
    ensures
        residuals@ == scene.residuals(members@),
{
    let (values_box, elevs_box) = box_columns(data, tree, members, Ghost(scene));
    // the background
    let vertical_profile = compute_vertical_profile_theil_sen(
        elevs_box.as_slice(),
        values_box.as_slice(),
        args.num_min_prof,
        args.min_elev_diff,
    );
    assert(vertical_profile@.len() == members@.len());
    // difference between the value and the value on the profile
    let mut d: Vec<i64> = Vec::with_capacity(members.len());
    let mut i: usize = 0;
    while i < members.len()
        invariant
            i <= members@.len(),
            values_box@.len() == members@.len(),
            vertical_profile@.len() == members@.len(),
            crate::stats::fits(elevs_box@, values_box@),
            forall|k: int|
                0 <= k < vertical_profile@.len() ==> -crate::stats::PROFILE_LIMIT
                    <= #[trigger] vertical_profile@[k] <= crate::stats::PROFILE_LIMIT,
            d@.len() == i,
            forall|k: int|
                0 <= k < i ==> #[trigger] d@[k] == (values_box@[k] - vertical_profile@[k]) as i64,
        decreases members@.len() - i,
    {
        d.push(values_box[i] - vertical_profile[i]);
        i += 1;
    }
    assert(d@ =~= scene.residuals(members@));
    d
}

/// The horizontal decorrelation length of a box.
pub(crate) fn box_horizontal_scale(
    tree: &SpatialTree,
    args: &SctArgs,
    members: &Vec<(i64, usize)>,
    Ghost(scene): Ghost<SctScene>,
) -> (scale: i64)
    requires
        scene.points == tree.points(),
        scene.args == *args,
        members@.len() >= 2,
        forall|k: int| 0 <= k < members@.len() ==> (#[trigger] members@[k]).1 < tree.points().len(),
    ensures
        scale == scene.horizontal_scale(members@),
{
    let box_size = members.len();
    let mut sum: i128 = 0;
    let mut i: usize = 0;
    while i < box_size
        invariant
            i <= box_size,
            box_size == members@.len(),
            box_size >= 2,
            scene.points == tree.points(),
            forall|k: int|
                0 <= k < members@.len() ==> (#[trigger] members@[k]).1 < tree.points().len(),
            sum == scene.scale_sum(members@, i as int),
            0 <= sum <= i * 0x1_0000_0000,
        decreases box_size - i,
    {
        let mut dh_vector: Vec<Option<i64>> = Vec::with_capacity(box_size);
        let mut j: usize = 0;
        while j < box_size
            invariant
                j <= box_size,
                i < box_size,
                box_size == members@.len(),
                scene.points == tree.points(),
                forall|k: int|
                    0 <= k < members@.len() ==> (#[trigger] members@[k]).1 < tree.points().len(),
                dh_vector@.len() == j,
                forall|l: int| 0 <= l < j ==> dh_vector@[l] == scene.spacings(members@, i as int)[l],
                bounded(dh_vector@, 0, 0x1_0000_0000),
            decreases box_size - j,
        {
            if i != j {
                dh_vector.push(Some(tree.spacing(members[i].1, members[j].1)));
            } else {
                dh_vector.push(None);
            }
            j += 1;
        }
        proof {
            assert(dh_vector@ =~= scene.spacings(members@, i as int));
            let other = if i == 0 {
                1int
            } else {
                0int
            };
            assert(dh_vector@[other] is Some);
        }
        let nearest_tenth = compute_quantile(10, dh_vector.as_slice());
        proof {
            assert(bounded(dh_vector@, 0, 0x1_0000_0000));
        }
        sum = sum + nearest_tenth as i128;
        i += 1;
    }
    let mean = divide(sum, box_size as i128);
    assert(0 <= mean <= 0x1_0000_0000) by (nonlinear_arith)
        requires
            box_size >= 2,
            0 <= sum <= box_size * 0x1_0000_0000,
            mean == div_trunc(sum as int, box_size as int),
    ;
    if mean > args.min_horizontal_scale as i128 {
        mean as i64
    } else {
        args.min_horizontal_scale
    }
}

/// A copy of `pairs`.
pub(crate) fn copy_pairs(pairs: &Vec<(i64, usize)>) -> (copy: Vec<(i64, usize)>)
    ensures
        copy@ == pairs@,
{
    let mut copy: Vec<(i64, usize)> = Vec::with_capacity(pairs.len());
    let mut k: usize = 0;
    while k < pairs.len()
        invariant
            k <= pairs@.len(),
            copy@.len() == k,
            forall|m: int| 0 <= m < k ==> copy@[m] == pairs@[m],
        decreases pairs@.len() - k,
    {
        copy.push(pairs[k]);
        k += 1;
    }
    assert(copy@ =~= pairs@);
    copy
}

} // verus!
