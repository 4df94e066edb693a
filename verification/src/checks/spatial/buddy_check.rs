//! The buddy check: flags the observations that lie too far from the mean of
//! the observations nearby.

use crate::arith::{div_trunc, magnitude};
use crate::error::Error;
use crate::flag::Flag;
use crate::reading::Reading;
use crate::spatial_tree::{is_neighbour, Point, SpatialTree};
use crate::stats::GRADIENT_SCALE;
use crate::sums::{lemma_list_sum_is_range_sum, lemma_range_sum_same, list_sum, range_sum};
use crate::util::SingleOrVec;
use vstd::prelude::*;

verus! {

/// The threshold is given in this many parts of one standard deviation.
pub const THRESHOLD_SCALE: u32 = 1000;

/// The largest magnitude that a buddy's value can have once it has been
/// brought to the elevation of the station under test.
pub const BUDDY_VALUE_LIMIT: i128 = 0x2000_0000_0000;

/// The arguments of [`buddy_check`].
#[derive(Debug, Clone)]
pub struct BuddyCheckArgs {
    /// Search radius in which the buddies of a station are looked for, in
    /// metres.
    pub radii: SingleOrVec<u32>,
    /// The fewest buddies with which a station is judged.
    pub nums_min: SingleOrVec<u32>,
    /// How far a value may lie from the mean of its buddies, in thousandths
    /// of a standard deviation.
    pub threshold: u32,
    /// The largest difference in elevation that a buddy may have, in metres.
    /// Zero or less turns the use of elevations off.
    pub max_elev_diff: i32,
    /// The change of the value with elevation, in millionths of a thousandth
    /// per metre.
    pub elev_gradient: i32,
    /// The standard deviation that is used when the buddies vary less, in
    /// thousandths.
    pub min_std: u32,
    /// The number of sweeps over all stations.
    pub num_iterations: u32,
}

/// Everything that a buddy check reads.
pub struct BuddyScene {
    /// The positions of the stations.
    pub points: Seq<Point>,
    /// The elevations of the stations.
    pub elevs: Seq<Reading>,
    /// The observations of the stations.
    pub data: Seq<Option<Reading>>,
    /// The arguments of the check.
    pub args: BuddyCheckArgs,
    /// Which stations are to be judged; `None` selects all.
    pub mask: Option<Seq<bool>>,
}

/// The flag an observation starts with: missing data if it is absent, a
/// failure if it is not a finite number, a pass otherwise.
pub open spec fn initial_flag(obs: Option<Reading>) -> Flag {
    match obs {
        None => Flag::DataMissing,
        Some(Reading::NotFinite) => Flag::Fail,
        Some(Reading::Finite(_)) => Flag::Pass,
    }
}

/// The flags that a check starts with.
pub open spec fn initial_flags(data: Seq<Option<Reading>>) -> Seq<Flag> {
    Seq::new(data.len(), |i: int| initial_flag(data[i]))
}

/// Whether station `i` is to be judged.
pub open spec fn selected(mask: Option<Seq<bool>>, i: int) -> bool {
    match mask {
        Some(m) => m[i],
        None => true,
    }
}

/// Whether both elevations are known and differ by no more than `max_diff`.
pub open spec fn elevation_close(a: Reading, b: Reading, max_diff: int) -> bool {
    a is Finite && b is Finite && -max_diff <= a.value() - b.value() <= max_diff
}

/// Whether a value deviates from its buddies. The mean of the buddies'
/// values is rounded towards zero, and their variance is the mean of the
/// squared distances of their values from that mean; `sum_sq - 2 * mean *
/// sum + count * mean * mean` is the sum of these squares. With the
/// variance enlarged by its `count`-th part, and the standard deviation
/// taken as no less than `min_std`, the value deviates if it lies more than
/// `threshold` thousandths of a standard deviation from the mean.
pub open spec fn deviates(
    value: int,
    count: int,
    sum: int,
    sum_sq: int,
    threshold: int,
    min_std: int,
) -> bool {
    let mean = div_trunc(sum, count);
    let spread = sum_sq - 2 * mean * sum + count * mean * mean;
    let variance = div_trunc(spread, count);
    let adjusted = variance + div_trunc(variance, count);
    let deviation = THRESHOLD_SCALE * magnitude(value - mean);
    &&& count > 0
    &&& deviation > threshold * min_std
    &&& deviation * deviation > (threshold * threshold) * adjusted
}

impl BuddyScene {
    /// The number of stations.
    pub open spec fn len(self) -> int {
        self.data.len() as int
    }

    /// Whether every input has one entry per station.
    pub open spec fn shaped(self) -> bool {
        &&& self.points.len() == self.data.len()
        &&& self.elevs.len() == self.data.len()
        &&& self.args.radii.covers(self.len())
        &&& self.args.nums_min.covers(self.len())
        &&& self.mask matches Some(m) ==> m.len() == self.data.len()
    }

    /// Whether station `j` may lend its value to the check of station `i`:
    /// it holds a finite value that still passes and, where elevations are
    /// used, lies close enough in elevation.
    pub open spec fn lends(self, flags: Seq<Flag>, i: int, j: int) -> bool {
        &&& flags[j] == Flag::Pass
        &&& self.data[j] matches Some(Reading::Finite(_))
        &&& self.args.max_elev_diff > 0 ==> elevation_close(
            self.elevs[i],
            self.elevs[j],
            self.args.max_elev_diff as int,
        )
    }

    /// Whether station `j` is a buddy of station `i`: a neighbour within the
    /// radius of `i`, not at the very position of `i`, that lends its value.
    pub open spec fn is_buddy(self, flags: Seq<Flag>, i: int, j: int) -> bool {
        &&& is_neighbour(self.points, self.points[i], self.args.radii.at(i) as int, false, j)
        &&& self.lends(flags, i, j)
    }

    /// The value that buddy `j` contributes to the check of station `i`:
    /// its own value, brought to the elevation of `i` along the gradient
    /// where elevations are used.
    pub open spec fn buddy_value(self, i: int, j: int) -> int {
        let v = match self.data[j] {
            Some(r) => r.value(),
            None => 0,
        };
        if self.args.max_elev_diff > 0 {
            v + div_trunc(
                (self.elevs[i].value() - self.elevs[j].value()) * self.args.elev_gradient,
                GRADIENT_SCALE as int,
            )
        } else {
            v
        }
    }

    /// [`BuddyScene::lends`] as a predicate on `j`.
    pub open spec fn lends_fn(self, flags: Seq<Flag>, i: int) -> spec_fn(int) -> bool {
        |j: int| self.lends(flags, i, j)
    }

    /// [`BuddyScene::is_buddy`] as a predicate on `j`.
    pub open spec fn buddy_fn(self, flags: Seq<Flag>, i: int) -> spec_fn(int) -> bool {
        |j: int| self.is_buddy(flags, i, j)
    }

    /// [`BuddyScene::buddy_value`] as a function of `j`.
    pub open spec fn value_fn(self, i: int) -> spec_fn(int) -> int {
        |j: int| self.buddy_value(i, j)
    }

    /// The square of [`BuddyScene::buddy_value`] as a function of `j`.
    pub open spec fn square_fn(self, i: int) -> spec_fn(int) -> int {
        |j: int| self.buddy_value(i, j) * self.buddy_value(i, j)
    }

    /// The number of buddies of station `i`.
    pub open spec fn buddy_count(self, flags: Seq<Flag>, i: int) -> int {
        range_sum(one_fn(), self.buddy_fn(flags, i), self.len())
    }

    /// The sum of the values of the buddies of station `i`.
    pub open spec fn buddy_sum(self, flags: Seq<Flag>, i: int) -> int {
        range_sum(self.value_fn(i), self.buddy_fn(flags, i), self.len())
    }

    /// The sum of the squared values of the buddies of station `i`.
    pub open spec fn buddy_sum_sq(self, flags: Seq<Flag>, i: int) -> int {
        range_sum(self.square_fn(i), self.buddy_fn(flags, i), self.len())
    }

    /// Whether station `i` is rejected under the flags `flags`: it still
    /// passes, is selected, has enough buddies, and deviates from them.
    pub open spec fn rejects(self, flags: Seq<Flag>, i: int) -> bool {
        &&& flags[i] == Flag::Pass
        &&& selected(self.mask, i)
        &&& self.data[i] matches Some(Reading::Finite(v))
        &&& self.buddy_count(flags, i) >= self.args.nums_min.at(i)
        &&& deviates(
            v as int,
            self.buddy_count(flags, i),
            self.buddy_sum(flags, i),
            self.buddy_sum_sq(flags, i),
            self.args.threshold as int,
            self.args.min_std as int,
        )
    }

    /// The flags after station `i` has been judged.
    pub open spec fn check_station(self, flags: Seq<Flag>, i: int) -> Seq<Flag> {
        if self.rejects(flags, i) {
            flags.update(i, Flag::Fail)
        } else {
            flags
        }
    }

    /// The flags after the stations below `n` have been judged in station
    /// order, each under the flags that the stations before it left.
    pub open spec fn sweep_prefix(self, flags: Seq<Flag>, n: int) -> Seq<Flag>
        decreases n,
    {
        if n <= 0 {
            flags
        } else {
            self.check_station(self.sweep_prefix(flags, n - 1), n - 1)
        }
    }

    /// The flags after one sweep over all stations.
    pub open spec fn sweep(self, flags: Seq<Flag>) -> Seq<Flag> {
        self.sweep_prefix(flags, self.len())
    }

    /// The flags after `k` sweeps.
    pub open spec fn sweeps(self, flags: Seq<Flag>, k: nat) -> Seq<Flag>
        decreases k,
    {
        if k == 0 {
            flags
        } else {
            self.sweep(self.sweeps(flags, (k - 1) as nat))
        }
    }

    /// The flags that the buddy check assigns.
    pub open spec fn result(self) -> Seq<Flag> {
        self.sweeps(initial_flags(self.data), self.args.num_iterations as nat)
    }

    /// The input whose size does not fit the number of observations, if any,
    /// in the order in which the inputs are examined.
    pub open spec fn misshapen(self) -> Option<Seq<char>> {
        if self.points.len() != self.data.len() {
            Some("tree_points"@)
        } else if !self.args.radii.covers(self.len()) {
            Some("radii"@)
        } else if !self.args.nums_min.covers(self.len()) {
            Some("nums_min"@)
        } else if self.mask matches Some(m) && m.len() != self.data.len() {
            Some("obs_to_check"@)
        } else {
            None
        }
    }
}

/// The function that counts: one for every station.
pub open spec fn one_fn() -> spec_fn(int) -> int {
    |j: int| 1int
}

/// The scene that the arguments of [`buddy_check`] describe.
pub open spec fn buddy_scene(
    data: Seq<Option<Reading>>,
    rtree: SpatialTree,
    args: BuddyCheckArgs,
    obs_to_check: Option<&[bool]>,
) -> BuddyScene {
    BuddyScene {
        points: rtree.points(),
        elevs: rtree.elevs(),
        data,
        args,
        mask: match obs_to_check {
            Some(m) => Some(m@),
            None => None,
        },
    }
}

/// The flags that a check starts with.
pub fn init_flags(data: &[Option<Reading>]) -> (flags: Vec<Flag>)
    ensures
        flags@ == initial_flags(data@),
{
    let mut flags: Vec<Flag> = Vec::with_capacity(data.len());
    let mut i: usize = 0;
    while i < data.len()
        invariant
            i <= data@.len(),
            flags@.len() == i,
            forall|k: int| 0 <= k < i ==> flags@[k] == initial_flag(data@[k]),
        decreases data@.len() - i,
    {
        let flag = match data[i] {
            None => Flag::DataMissing,
            Some(Reading::NotFinite) => Flag::Fail,
            Some(Reading::Finite(_)) => Flag::Pass,
        };
        flags.push(flag);
        i += 1;
    }
    assert(flags@ =~= initial_flags(data@));
    flags
}

/// Whether `x` exceeds the product of `t2` and `v`, found without forming
/// the product.
fn exceeds_product(x: i128, t2: i128, v: i128) -> (more: bool)
    requires
        0 <= x,
        0 <= t2,
        v > i128::MIN,
    ensures
        more == (x > t2 * v),
{
    if v <= 0 {
        assert(t2 * v <= 0) by (nonlinear_arith)
            requires
                0 <= t2,
                v <= 0,
        ;
        assert(t2 > 0 && v < 0 ==> t2 * v < 0) by (nonlinear_arith);
        assert(t2 == 0 || v == 0 ==> t2 * v == 0) by (nonlinear_arith);
        x > 0 || (t2 > 0 && v < 0)
    } else {
        let q = x / v;
        let rem = x % v;
        assert(x == q * v + rem && 0 <= rem < v) by {
            vstd::arithmetic::div_mod::lemma_fundamental_div_mod(x as int, v as int);
            assert(v * q == q * v) by (nonlinear_arith);
        }
        assert((q > t2 || (q == t2 && rem > 0)) == (x > t2 * v)) by (nonlinear_arith)
            requires
                x == q * v + rem,
                0 <= rem < v,
        ;
        q > t2 || (q == t2 && rem > 0)
    }
}

/// [`deviates`], computed.
fn deviates_exec(value: i32, count: i128, sum: i128, sum_sq: i128, threshold: u32, min_std: u32) -> (out: bool)
    requires
        0 <= count <= u32::MAX,
        -count * BUDDY_VALUE_LIMIT <= sum <= count * BUDDY_VALUE_LIMIT,
        0 <= sum_sq <= count * (BUDDY_VALUE_LIMIT * BUDDY_VALUE_LIMIT),
    ensures
        out == deviates(
            value as int,
            count as int,
            sum as int,
            sum_sq as int,
            threshold as int,
            min_std as int,
        ),
{
    if count == 0 {
        return false;
    }
    let ghost limit = BUDDY_VALUE_LIMIT as int;
    let ghost limit2 = limit * limit;
    assert(limit2 == 0x400_0000_0000_0000_0000_0000) by (nonlinear_arith)
        requires
            limit == 0x2000_0000_0000,
            limit2 == limit * limit,
    ;
    let mean: i128 = sum / count;
    assert(-limit <= mean <= limit) by (nonlinear_arith)
        requires
            count > 0,
            -count * limit <= sum <= count * limit,
            mean == div_trunc(sum as int, count as int),
    ;
    // every term of the spread lies within 2^32 times the square of the limit
    let ghost cap = 0x1_0000_0000 * limit2;
    assert(cap == 0x400_0000_0000_0000_0000_0000_0000_0000) by (nonlinear_arith)
        requires
            cap == 0x1_0000_0000 * limit2,
            limit2 == 0x400_0000_0000_0000_0000_0000,
    ;
    assert(0 <= sum_sq <= cap) by (nonlinear_arith)
        requires
            0 <= sum_sq <= count * limit2,
            0 <= count <= 0xffff_ffff,
            0 <= limit2,
            cap == 0x1_0000_0000 * limit2,
    ;
    assert(-cap <= mean * sum <= cap) by (nonlinear_arith)
        requires
            -limit <= mean <= limit,
            -count * limit <= sum <= count * limit,
            0 <= count <= 0xffff_ffff,
            0 <= limit,
            limit2 == limit * limit,
            cap == 0x1_0000_0000 * limit2,
    ;
    assert(0 <= mean * mean <= limit2) by (nonlinear_arith)
        requires
            -limit <= mean <= limit,
            limit2 == limit * limit,
    ;
    assert(0 <= count * (mean * mean) <= cap) by (nonlinear_arith)
        requires
            0 <= mean * mean <= limit2,
            0 <= count <= 0xffff_ffff,
            cap == 0x1_0000_0000 * limit2,
    ;
    assert(count * (mean * mean) == count * mean * mean) by (nonlinear_arith);
    let spread: i128 = sum_sq - 2 * (mean * sum) + count * (mean * mean);
    assert(spread == sum_sq - 2 * mean * sum + count * mean * mean) by (nonlinear_arith)
        requires
            spread == sum_sq - 2 * (mean * sum) + count * (mean * mean),
    ;
    let variance: i128 = spread / count;
    let part: i128 = variance / count;
    assert(-4 * cap <= variance <= 4 * cap && -4 * cap <= part <= 4 * cap) by (nonlinear_arith)
        requires
            count > 0,
            -4 * cap <= spread <= 4 * cap,
            variance == div_trunc(spread as int, count as int),
            part == div_trunc(variance as int, count as int),
    ;
    let adjusted: i128 = variance + part;
    let diff: i128 = value as i128 - mean;
    let dev: i128 = if diff < 0 {
        -diff
    } else {
        diff
    };
    let deviation: i128 = (THRESHOLD_SCALE as i128) * dev;
    assert(0 <= (threshold as i128) * (min_std as i128) <= 0xffff_ffff * 0xffff_ffff)
        by (nonlinear_arith)
        requires
            0 <= threshold <= 0xffff_ffff,
            0 <= min_std <= 0xffff_ffff,
    ;
    let floor: i128 = (threshold as i128) * (min_std as i128);
    if deviation <= floor {
        return false;
    }
    assert(0 <= deviation * deviation <= 0x1_0000_0000_0000_0000_0000_0000_0000) by (nonlinear_arith)
        requires
            0 <= deviation <= 0x100_0000_0000_0000,
    ;
    let x: i128 = deviation * deviation;
    assert(0 <= (threshold as i128) * (threshold as i128) <= 0xffff_ffff * 0xffff_ffff)
        by (nonlinear_arith)
        requires
            0 <= threshold <= 0xffff_ffff,
    ;
    let t2: i128 = (threshold as i128) * (threshold as i128);
    exceeds_product(x, t2, adjusted)
}

/// The value of a buddy with value `v` at elevation `theirs`, brought to the
/// elevation `ours` along the gradient.
fn adjusted_value(v: i32, ours: i32, theirs: i32, gradient: i32) -> (adjusted: i128)
    ensures
        adjusted == v + div_trunc((ours - theirs) * gradient, GRADIENT_SCALE as int),
        -BUDDY_VALUE_LIMIT <= adjusted <= BUDDY_VALUE_LIMIT,
{
    let diff: i64 = ours as i64 - theirs as i64;
    assert(-0x7fff_ffff_8000_0000 <= diff * (gradient as i64) <= 0x7fff_ffff_8000_0000)
        by (nonlinear_arith)
        requires
            -0xffff_ffff <= diff <= 0xffff_ffff,
            -0x8000_0000 <= gradient <= 0x7fff_ffff,
    ;
    let shift: i64 = (diff * (gradient as i64)) / GRADIENT_SCALE;
    v as i128 + shift as i128
}

/// Whether the buddies of station `i` reject it, given that it still passes
/// and is selected.
fn judge_station(
    data: &[Option<Reading>],
    rtree: &SpatialTree,
    args: &BuddyCheckArgs,
    flags: &Vec<Flag>,
    i: usize,
    Ghost(scene): Ghost<BuddyScene>,
) -> (rejected: bool)
    requires
        scene.points == rtree.points(),
        scene.elevs == rtree.elevs(),
        scene.data == data@,
        scene.args == *args,
        scene.shaped(),
        flags@.len() == data@.len(),
        i < data@.len(),
        flags@[i as int] == Flag::Pass,
        selected(scene.mask, i as int),
    ensures
        rejected == scene.rejects(flags@, i as int),
{
    proof {
        use_type_invariant(rtree);
        rtree.lemma_wf();
    }
    let n = data.len();
    let value = match data[i] {
        Some(Reading::Finite(v)) => v,
        _ => {
            return false;
        },
    };
    let (p, elev) = rtree.get_coords_at_index(i);
    let radius = *args.radii.index(i);
    let min_count = *args.nums_min.index(i);
    let neighbours = rtree.get_neighbours(p, radius, false);
    let ghost keep = scene.lends_fn(flags@, i as int);
    let ghost values = scene.value_fn(i as int);
    let ghost squares = scene.square_fn(i as int);
    proof {
        assert forall|m: int| 0 <= m < neighbours@.len() implies neighbours@[m] < n by {
            assert(is_neighbour(rtree.points(), p, radius as int, false, neighbours@[m] as int));
        }
    }
    let mut count: i128 = 0;
    let mut sum: i128 = 0;
    let mut sum_sq: i128 = 0;
    let mut k: usize = 0;
    while k < neighbours.len()
        invariant
            k <= neighbours@.len(),
            neighbours@.len() <= n <= u32::MAX,
            n == data@.len(),
            rtree.wf(),
            scene.points == rtree.points(),
            scene.elevs == rtree.elevs(),
            scene.data == data@,
            scene.args == *args,
            scene.shaped(),
            flags@.len() == data@.len(),
            i < n,
            elev == scene.elevs[i as int],
            forall|m: int| 0 <= m < neighbours@.len() ==> neighbours@[m] < n,
            keep == scene.lends_fn(flags@, i as int),
            values == scene.value_fn(i as int),
            squares == scene.square_fn(i as int),
            count == list_sum(one_fn(), keep, neighbours@.take(k as int)),
            sum == list_sum(values, keep, neighbours@.take(k as int)),
            sum_sq == list_sum(squares, keep, neighbours@.take(k as int)),
            0 <= count <= k,
            -count * BUDDY_VALUE_LIMIT <= sum <= count * BUDDY_VALUE_LIMIT,
            0 <= sum_sq <= count * (BUDDY_VALUE_LIMIT * BUDDY_VALUE_LIMIT),
        decreases neighbours@.len() - k,
    {
        let j = neighbours[k];
        proof {
            let taken = neighbours@.take(k + 1);
            assert(taken.drop_last() =~= neighbours@.take(k as int));
            assert(taken.last() == j);
        }
        let mut lends = false;
        let mut contribution: i128 = 0;
        if flags[j] == Flag::Pass {
            if let Some(Reading::Finite(v)) = data[j] {
                if args.max_elev_diff > 0 {
                    let (_, elev_j) = rtree.get_coords_at_index(j);
                    if let Reading::Finite(ours) = elev {
                        if let Reading::Finite(theirs) = elev_j {
                            let diff: i64 = ours as i64 - theirs as i64;
                            if -(args.max_elev_diff as i64) <= diff && diff <= args.max_elev_diff as i64 {
                                lends = true;
                                contribution = adjusted_value(v, ours, theirs, args.elev_gradient);
                            }
                        }
                    }
                } else {
                    lends = true;
                    contribution = v as i128;
                }
            }
        }
        assert(lends == scene.lends(flags@, i as int, j as int));
        assert(lends ==> contribution == scene.buddy_value(i as int, j as int));
        if lends {
            assert(0 <= contribution * contribution <= BUDDY_VALUE_LIMIT * BUDDY_VALUE_LIMIT)
                by (nonlinear_arith)
                requires
                    -BUDDY_VALUE_LIMIT <= contribution <= BUDDY_VALUE_LIMIT,
            ;
            assert(BUDDY_VALUE_LIMIT * BUDDY_VALUE_LIMIT == 0x400_0000_0000_0000_0000_0000)
                by (nonlinear_arith);
            count += 1;
            sum += contribution;
            sum_sq += contribution * contribution;
        }
        k += 1;
    }
    proof {
        let listed = |j: int| keep(j) && neighbours@.contains(j as usize);
        let buddies = scene.buddy_fn(flags@, i as int);
        assert(neighbours@.take(neighbours@.len() as int) =~= neighbours@);
        assert forall|j: int| 0 <= j < n implies #[trigger] listed(j) == buddies(j) by {
            assert(buddies(j) == scene.is_buddy(flags@, i as int, j));
            assert(keep(j) == scene.lends(flags@, i as int, j));
            if neighbours@.contains(j as usize) {
                let m = choose|m: int| 0 <= m < neighbours@.len() && neighbours@[m] == j as usize;
                assert(is_neighbour(rtree.points(), p, radius as int, false, neighbours@[m] as int));
            }
            if is_neighbour(rtree.points(), p, radius as int, false, j) {
                assert(neighbours@.contains(j as usize));
            }
        }
        lemma_list_sum_is_range_sum(one_fn(), keep, neighbours@, listed, n as int);
        lemma_list_sum_is_range_sum(values, keep, neighbours@, listed, n as int);
        lemma_list_sum_is_range_sum(squares, keep, neighbours@, listed, n as int);
        lemma_range_sum_same(one_fn(), listed, one_fn(), buddies, n as int);
        lemma_range_sum_same(values, listed, values, buddies, n as int);
        lemma_range_sum_same(squares, listed, squares, buddies, n as int);
        assert(count == scene.buddy_count(flags@, i as int));
        assert(sum == scene.buddy_sum(flags@, i as int));
        assert(sum_sq == scene.buddy_sum_sq(flags@, i as int));
    }
    if count < min_count as i128 {
        return false;
    }
    deviates_exec(value, count, sum, sum_sq, args.threshold, args.min_std)
}

/// Once a sweep changes nothing, no later sweep does.
pub proof fn lemma_sweeps_settle(scene: BuddyScene, flags: Seq<Flag>, k: nat, m: nat)
    requires
        k <= m,
        scene.sweeps(flags, k + 1) == scene.sweeps(flags, k),
    ensures
        scene.sweeps(flags, m) == scene.sweeps(flags, k),
    decreases m,
{
    if m > k {
        lemma_sweeps_settle(scene, flags, k, (m - 1) as nat);
    }
}

/// Flags every observation that deviates too far from its buddies, the
/// observations that still pass at the stations nearby.
///
/// The stations are judged in station order, each under the flags that the
/// stations before it left, in up to `args.num_iterations` sweeps. A sweep
/// that rejects no station ends the check, since no later sweep would reject
/// one either. `obs_to_check`, if given, selects the stations that are
/// judged; every station serves as a buddy.
///
/// Fails with a shape error that names the first input whose size does not
/// fit the number of observations: `tree_points`, `radii`, `nums_min` or
/// `obs_to_check`.
pub fn buddy_check(
    data: &[Option<Reading>],
    rtree: &SpatialTree,
    args: &BuddyCheckArgs,
    obs_to_check: Option<&[bool]>,
) -> (checked: Result<Vec<Flag>, Error>)
    ensures
        match checked {
            Ok(flags) => {
                &&& buddy_scene(data@, *rtree, *args, obs_to_check).misshapen() is None
                &&& flags@ == buddy_scene(data@, *rtree, *args, obs_to_check).result()
            },
            Err(e) => {
                &&& buddy_scene(data@, *rtree, *args, obs_to_check).misshapen() matches Some(field)
                &&& e.is_shape(field)
            },
        },
{
    let ghost scene = buddy_scene(data@, *rtree, *args, obs_to_check);
    proof {
        use_type_invariant(rtree);
        rtree.lemma_wf();
    }
    let n = data.len();
    if rtree.size() != n {
        return Err(Error::shape("tree_points"));
    }
    if let SingleOrVec::Vec(v) = &args.radii {
        if v.len() != n {
            return Err(Error::shape("radii"));
        }
    }
    if let SingleOrVec::Vec(v) = &args.nums_min {
        if v.len() != n {
            return Err(Error::shape("nums_min"));
        }
    }
    if let Some(m) = obs_to_check {
        if m.len() != n {
            return Err(Error::shape("obs_to_check"));
        }
    }
    assert(scene.misshapen() is None);
    assert(scene.shaped());
    let mut flags = init_flags(data);
    let ghost initial = flags@;
    let mut iteration: u32 = 0;
    while iteration < args.num_iterations
        invariant
            iteration <= args.num_iterations,
            n == data@.len(),
            scene == buddy_scene(data@, *rtree, *args, obs_to_check),
            scene.shaped(),
            initial == initial_flags(data@),
            flags@.len() == n,
            flags@ == scene.sweeps(initial, iteration as nat),
        decreases args.num_iterations - iteration,
    {
        let ghost before = flags@;
        let mut rejected_now: usize = 0;
        let mut i: usize = 0;
        while i < n
            invariant
                i <= n,
                n == data@.len(),
                scene == buddy_scene(data@, *rtree, *args, obs_to_check),
                scene.shaped(),
                flags@.len() == n,
                flags@ == scene.sweep_prefix(before, i as int),
                rejected_now == 0 ==> flags@ == before,
                rejected_now <= i,
            decreases n - i,
        {
            let is_selected = match obs_to_check {
                Some(m) => m[i],
                None => true,
            };
            if flags[i] == Flag::Pass && is_selected {
                let rejected = judge_station(data, rtree, args, &flags, i, Ghost(scene));
                if rejected {
                    flags.set(i, Flag::Fail);
                    rejected_now += 1;
                }
            }
            i += 1;
        }
        iteration += 1;
        if rejected_now == 0 {
            proof {
                lemma_sweeps_settle(
                    scene,
                    initial,
                    (iteration - 1) as nat,
                    args.num_iterations as nat,
                );
            }
            return Ok(flags);
        }
    }
    Ok(flags)
}

impl BuddyScene {
    /// The squared distance of the value of buddy `j` from `mean`, as a
    /// function of `j`.
    pub open spec fn distance_fn(self, i: int, mean: int) -> spec_fn(int) -> int {
        |j: int| (self.buddy_value(i, j) - mean) * (self.buddy_value(i, j) - mean)
    }
}

/// The spread from which the variance is taken is the sum of the squared
/// distances of the buddies' values from the mean.
pub proof fn lemma_spread_is_sum_of_squares(
    scene: BuddyScene,
    flags: Seq<Flag>,
    i: int,
    mean: int,
    n: int,
)
    ensures
        range_sum(scene.distance_fn(i, mean), scene.buddy_fn(flags, i), n) == range_sum(
            scene.square_fn(i),
            scene.buddy_fn(flags, i),
            n,
        ) - 2 * mean * range_sum(scene.value_fn(i), scene.buddy_fn(flags, i), n) + range_sum(
            one_fn(),
            scene.buddy_fn(flags, i),
            n,
        ) * mean * mean,
    decreases n,
{
    if n > 0 {
        lemma_spread_is_sum_of_squares(scene, flags, i, mean, n - 1);
        let a = scene.buddy_value(i, n - 1);
        let squares = range_sum(scene.square_fn(i), scene.buddy_fn(flags, i), n - 1);
        let values = range_sum(scene.value_fn(i), scene.buddy_fn(flags, i), n - 1);
        let count = range_sum(one_fn(), scene.buddy_fn(flags, i), n - 1);
        assert((a - mean) * (a - mean) + (squares - 2 * mean * values + count * mean * mean) == (
        squares + a * a) - 2 * mean * (values + a) + (count + 1) * mean * mean)
            by (nonlinear_arith);
    }
}

/// Whether the flags `after` can come after the flags `before`: a flag
/// changes only where a selected station passed, and only to a failure.
pub open spec fn only_rejects(scene: BuddyScene, before: Seq<Flag>, after: Seq<Flag>) -> bool {
    &&& after.len() == before.len()
    &&& forall|j: int|
        0 <= j < before.len() ==> #[trigger] after[j] == before[j] || (before[j] == Flag::Pass
            && selected(scene.mask, j) && after[j] == Flag::Fail)
}

/// Judging the stations below `n` rejects stations only.
pub proof fn lemma_sweep_prefix_only_rejects(scene: BuddyScene, flags: Seq<Flag>, n: int)
    requires
        n <= flags.len(),
    ensures
        only_rejects(scene, flags, scene.sweep_prefix(flags, n)),
    decreases n,
{
    if n > 0 {
        lemma_sweep_prefix_only_rejects(scene, flags, n - 1);
    }
}

/// The set of failed stations does not shrink from sweep to sweep: in
/// whatever number of sweeps, a flag changes only where a selected station
/// passed, and only to a failure. A station that has failed never passes
/// again.
pub proof fn lemma_sweeps_only_reject(scene: BuddyScene, flags: Seq<Flag>, k: nat)
    requires
        flags.len() == scene.len(),
    ensures
        only_rejects(scene, flags, scene.sweeps(flags, k)),
    decreases k,
{
    if k > 0 {
        lemma_sweeps_only_reject(scene, flags, (k - 1) as nat);
        lemma_sweep_prefix_only_rejects(scene, scene.sweeps(flags, (k - 1) as nat), scene.len());
    }
}

/// A station with fewer buddies than its minimum is left as it is.
pub proof fn lemma_too_few_buddies(scene: BuddyScene, flags: Seq<Flag>, i: int)
    requires
        scene.buddy_count(flags, i) < scene.args.nums_min.at(i),
    ensures
        scene.check_station(flags, i) == flags,
{
}

/// A station whose value is missing or is not a finite number is flagged
/// so from the start, keeps that flag through every sweep, and is the
/// buddy of no station in any sweep.
pub proof fn lemma_missing_data_contained(scene: BuddyScene, k: nat, j: int)
    requires
        0 <= j < scene.len(),
        !(scene.data[j] matches Some(Reading::Finite(_))),
    ensures
        initial_flags(scene.data)[j] == (if scene.data[j] is None {
            Flag::DataMissing
        } else {
            Flag::Fail
        }),
        scene.sweeps(initial_flags(scene.data), k)[j] == initial_flags(scene.data)[j],
        forall|i: int| !scene.is_buddy(scene.sweeps(initial_flags(scene.data), k), i, j),
{
    lemma_sweeps_only_reject(scene, initial_flags(scene.data), k);
}

impl BuddyScene {
    /// The same scene with another number of sweeps.
    pub open spec fn with_iterations(self, num_iterations: u32) -> BuddyScene {
        BuddyScene { args: BuddyCheckArgs { num_iterations, ..self.args }, ..self }
    }
}

/// What a station's buddies say of it does not depend on the number of
/// sweeps.
pub proof fn lemma_rejects_ignores_iterations(scene: BuddyScene, m: u32, flags: Seq<Flag>, i: int)
    ensures
        scene.with_iterations(m).rejects(flags, i) == scene.rejects(flags, i),
{
    let other = scene.with_iterations(m);
    let n = scene.len();
    assert forall|j: int| 0 <= j < n implies #[trigger] other.buddy_fn(flags, i)(j)
        == scene.buddy_fn(flags, i)(j) by {}
    assert forall|j: int| 0 <= j < n implies #[trigger] other.value_fn(i)(j) == scene.value_fn(i)(
        j,
    ) by {}
    assert forall|j: int| 0 <= j < n implies #[trigger] other.square_fn(i)(j) == scene.square_fn(
        i,
    )(j) by {}
    lemma_range_sum_same(one_fn(), other.buddy_fn(flags, i), one_fn(), scene.buddy_fn(flags, i), n);
    lemma_range_sum_same(
        other.value_fn(i),
        other.buddy_fn(flags, i),
        scene.value_fn(i),
        scene.buddy_fn(flags, i),
        n,
    );
    lemma_range_sum_same(
        other.square_fn(i),
        other.buddy_fn(flags, i),
        scene.square_fn(i),
        scene.buddy_fn(flags, i),
        n,
    );
}

/// Judging the stations below `n` does not depend on the number of sweeps.
pub proof fn lemma_sweep_prefix_ignores_iterations(
    scene: BuddyScene,
    m: u32,
    flags: Seq<Flag>,
    n: int,
)
    ensures
        scene.with_iterations(m).sweep_prefix(flags, n) == scene.sweep_prefix(flags, n),
    decreases n,
{
    if n > 0 {
        lemma_sweep_prefix_ignores_iterations(scene, m, flags, n - 1);
        lemma_rejects_ignores_iterations(scene, m, scene.sweep_prefix(flags, n - 1), n - 1);
    }
}

/// A number of sweeps does not depend on the number of sweeps allowed.
pub proof fn lemma_sweeps_ignore_iterations(scene: BuddyScene, m: u32, flags: Seq<Flag>, k: nat)
    ensures
        scene.with_iterations(m).sweeps(flags, k) == scene.sweeps(flags, k),
    decreases k,
{
    if k > 0 {
        lemma_sweeps_ignore_iterations(scene, m, flags, (k - 1) as nat);
        lemma_sweep_prefix_ignores_iterations(
            scene,
            m,
            scene.sweeps(flags, (k - 1) as nat),
            scene.len(),
        );
    }
}

/// Once the check has converged, more sweeps change nothing: where a
/// further sweep would leave the flags of the check as they are, the check
/// with any larger number of sweeps assigns the same flags.
pub proof fn lemma_converged_check_is_final(scene: BuddyScene, more: u32)
    requires
        more >= scene.args.num_iterations,
        scene.sweep(scene.result()) == scene.result(),
    ensures
        scene.with_iterations(more).result() == scene.result(),
{
    let start = initial_flags(scene.data);
    lemma_sweeps_settle(scene, start, scene.args.num_iterations as nat, more as nat);
    lemma_sweeps_ignore_iterations(scene, more, start, more as nat);
}

} // verus!
