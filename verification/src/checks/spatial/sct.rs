//! The spatial consistency test: flags the observations that an analysis of
//! their surroundings rejects. The test visits the stations, builds the box
//! of each and takes the scores of the box from a numerical analysis that the
//! caller supplies.

use crate::arith::{div_trunc, sqrt_floor};
use crate::checks::spatial::buddy_check::{initial_flag, selected};
use crate::error::Error;
use crate::flag::Flag;
use crate::order::ascending;
use crate::reading::Reading;
use crate::spatial_tree::{dist2, is_neighbour, Point, SpatialTree};
use crate::stats::{quantile, vertical_profile};
use crate::sums::collect;
use crate::util::SingleOrVec;
use vstd::prelude::*;

pub mod boxes;
pub mod laws;

pub use boxes::remove_flagged;
use boxes::{box_horizontal_scale, box_residuals, build_box, copy_pairs};
use laws::{lemma_scan_follows, lemma_settle_follows};

verus! {

/// The arguments of the spatial consistency test.
#[derive(Debug, Clone)]
pub struct SctArgs {
    /// A station with fewer stations in its box is not tested but marked as
    /// isolated.
    pub num_min: usize,
    /// The most stations that a box holds: the nearest ones.
    pub num_max: usize,
    /// Radius within which the analysis of a box settles its members, in
    /// metres.
    pub inner_radius: u32,
    /// Radius within which the members of a box are looked for, in metres.
    pub outer_radius: u32,
    /// The number of sweeps over all stations.
    pub num_iterations: u32,
    /// The fewest stations from which a vertical profile is fitted.
    pub num_min_prof: usize,
    /// The smallest spread of elevations over which a vertical profile is
    /// fitted, in metres.
    pub min_elev_diff: i64,
    /// The smallest horizontal decorrelation length, in metres.
    pub min_horizontal_scale: i64,
    /// The vertical decorrelation length, in metres.
    pub vertical_scale: i64,
    /// The largest score a station may have whose cross-validation residual
    /// is negative.
    pub pos: SingleOrVec<i64>,
    /// The largest score a station may have whose cross-validation residual
    /// is not negative.
    pub neg: SingleOrVec<i64>,
    /// Ratio of the observation error variance to the background variance.
    pub eps2: SingleOrVec<i64>,
}

/// What the analysis of a box says of one of its members.
#[derive(Clone, Copy, Debug, PartialEq, Eq, Structural)]
pub struct Score {
    /// The cross-validation residual.
    pub cvres: i64,
    /// The probability of gross error.
    pub pog: i64,
}

/// A box as its analysis takes it in.
#[derive(Debug, Clone)]
pub struct SctBox {
    /// Squared distance from the station under test and station number of
    /// each member, from the nearest on.
    pub members: Vec<(i64, usize)>,
    /// What each member's value lies above the vertical profile of the box.
    pub residuals: Vec<i64>,
    /// The horizontal decorrelation length of the box, in metres.
    pub horizontal_scale: i64,
}

/// The outcome of the spatial consistency test.
#[derive(Debug, Clone)]
pub struct SctOutput {
    /// The flag of each station.
    pub flags: Vec<Flag>,
    /// The largest probability of gross error found for each station.
    pub prob_gross_error: Vec<i64>,
}

/// Why the test refuses its input.
pub enum Refusal {
    /// The named input does not have one entry per station.
    Shape(Seq<char>),
    /// The named argument lies outside its domain, for the given reason.
    Arg(Seq<char>, Seq<char>),
}

impl Refusal {
    /// Whether `e` reports this refusal.
    pub open spec fn reported_by(self, e: Error) -> bool {
        match self {
            Refusal::Shape(field) => e.is_shape(field),
            Refusal::Arg(field, reason) => e.is_arg(field, reason),
        }
    }
}

/// Whether every value of the parameter is at least `bound`.
pub open spec fn every_at_least(values: SingleOrVec<i64>, bound: int) -> bool {
    match values {
        SingleOrVec::Single(v) => v >= bound,
        SingleOrVec::Vec(v) => forall|k: int| 0 <= k < v@.len() ==> v@[k] >= bound,
    }
}

/// Everything that the spatial consistency test reads.
pub struct SctScene {
    /// The positions of the stations.
    pub points: Seq<Point>,
    /// The elevations of the stations.
    pub elevs: Seq<Reading>,
    /// The observations of the stations.
    pub data: Seq<Option<Reading>>,
    /// The arguments of the test.
    pub args: SctArgs,
    /// Which stations are to be tested; `None` selects all.
    pub mask: Option<Seq<bool>>,
}

/// Where a run of the test stands.
pub struct SctState {
    /// The flag of each station.
    pub flags: Seq<Flag>,
    /// The largest probability of gross error found so far for each station.
    pub prob_gross_error: Seq<i64>,
    /// Which stations have been dealt with in the current sweep.
    pub checked: Seq<bool>,
    /// The next station to visit in the current sweep.
    pub cursor: int,
    /// The number of sweeps that are complete.
    pub sweep: int,
    /// Whether the current sweep has rejected a station.
    pub rejected: bool,
    /// The box that waits for its analysis: squared distance from the
    /// station under test and station number of each member.
    pub pending: Option<Seq<(i64, usize)>>,
    /// Whether the run is over.
    pub finished: bool,
}

impl SctScene {
    /// The number of stations.
    pub open spec fn len(self) -> int {
        self.data.len() as int
    }

    /// The first reason, if any, for which the test refuses this input:
    /// sizes and domains are examined parameter by parameter.
    pub open spec fn refusal(self) -> Option<Refusal> {
        if self.points.len() != self.data.len() {
            Some(Refusal::Shape("tree_points"@))
        } else if !self.args.pos.covers(self.len()) {
            Some(Refusal::Shape("pos"@))
        } else if !every_at_least(self.args.pos, 0) {
            Some(Refusal::Arg("pos"@, "all values must be >= 0"@))
        } else if !self.args.neg.covers(self.len()) {
            Some(Refusal::Shape("neg"@))
        } else if !every_at_least(self.args.neg, 0) {
            Some(Refusal::Arg("neg"@, "all values must be >= 0"@))
        } else if !self.args.eps2.covers(self.len()) {
            Some(Refusal::Shape("eps2"@))
        } else if !every_at_least(self.args.eps2, 1) {
            Some(Refusal::Arg("eps2"@, "all values must be > 0"@))
        } else if self.mask matches Some(m) && m.len() != self.data.len() {
            Some(Refusal::Shape("obs_to_check"@))
        } else if self.args.num_min < 2 {
            Some(Refusal::Arg("num_min"@, "must be > 1"@))
        } else if self.args.num_max < self.args.num_min {
            Some(Refusal::Arg("num_max"@, "must be > num_min"@))
        } else if self.args.num_iterations < 1 {
            Some(Refusal::Arg("num_iterations"@, "must be >= 1"@))
        } else if self.args.min_elev_diff <= 0 {
            Some(Refusal::Arg("min_elev_diff"@, "must be > 0"@))
        } else if self.args.min_horizontal_scale <= 0 {
            Some(Refusal::Arg("min_horizontal_scale"@, "must be > 0"@))
        } else if self.args.vertical_scale <= 0 {
            Some(Refusal::Arg("vertical_scale"@, "must be > 0"@))
        } else if self.args.outer_radius < self.args.inner_radius {
            Some(Refusal::Arg("outer_radius"@, "must be >= inner_radius"@))
        } else {
            None
        }
    }

    /// The flag a station starts with: invalid if its elevation is not a
    /// finite number, else as its observation says.
    pub open spec fn initial_flag(self, i: int) -> Flag {
        if self.elevs[i] is Finite {
            initial_flag(self.data[i])
        } else {
            Flag::Invalid
        }
    }

    /// The state in which a run starts.
    pub open spec fn start(self) -> SctState {
        SctState {
            flags: Seq::new(self.data.len(), |i: int| self.initial_flag(i)),
            prob_gross_error: Seq::new(self.data.len(), |i: int| 0i64),
            checked: Seq::new(self.data.len(), |i: int| false),
            cursor: 0,
            sweep: 0,
            rejected: false,
            pending: None,
            finished: false,
        }
    }

    /// Whether station `j` may stand in the box of station `i`: it lies
    /// within the outer radius and still passes.
    pub open spec fn candidate(self, flags: Seq<Flag>, i: int, j: int) -> bool {
        &&& is_neighbour(self.points, self.points[i], self.args.outer_radius as int, true, j)
        &&& flags[j] == Flag::Pass
    }

    /// [`SctScene::candidate`] as a predicate on `j`.
    pub open spec fn candidate_fn(self, flags: Seq<Flag>, i: int) -> spec_fn(int) -> bool {
        |j: int| self.candidate(flags, i, j)
    }

    /// What a box holds of station `j`: its squared distance from station
    /// `i`, and its number.
    pub open spec fn member_fn(self, i: int) -> spec_fn(int) -> (i64, usize) {
        |j: int| (dist2(self.points[j], self.points[i]) as i64, j as usize)
    }

    /// The candidates for the box of station `i`, in station order.
    pub open spec fn candidates(self, flags: Seq<Flag>, i: int) -> Seq<(i64, usize)> {
        collect(self.member_fn(i), self.candidate_fn(flags, i), self.len())
    }

    /// The box of station `i`: its candidates from the nearest on, ties in
    /// station order, and no more than `num_max` of them.
    pub open spec fn station_box(self, flags: Seq<Flag>, i: int) -> Seq<(i64, usize)> {
        let sorted = self.candidates(flags, i).sort_by(ascending());
        if sorted.len() > self.args.num_max {
            sorted.take(self.args.num_max as int)
        } else {
            sorted
        }
    }

    /// Whether a run in state `s` goes on by itself: it is not over and
    /// waits for no analysis.
    pub open spec fn live(self, s: SctState) -> bool {
        &&& !s.finished
        &&& s.pending is None
        &&& 0 <= s.sweep < self.args.num_iterations
        &&& 0 <= s.cursor <= self.len()
    }

    /// Whether the state `b` lies further on in the run than the state `a`.
    pub open spec fn further(self, a: SctState, b: SctState) -> bool {
        &&& b.cursor <= self.len()
        &&& b.sweep <= self.args.num_iterations
        &&& b.sweep > a.sweep || (b.sweep == a.sweep && b.cursor > a.cursor)
    }

    /// One step of a live run. At the end of a sweep the run is over if the
    /// sweep rejected no station or was the last one, else the next sweep
    /// starts with no station dealt with. Otherwise the station at the
    /// cursor is visited: one that is not selected or does not pass is dealt
    /// with; one that was dealt with is passed over; of the others, one
    /// whose box holds fewer than `num_min` stations is marked as isolated,
    /// and the box of any other waits for its analysis.
    pub open spec fn visit(self, s: SctState) -> SctState {
        let i = s.cursor;
        if s.cursor >= self.len() {
            if !s.rejected || s.sweep + 1 >= self.args.num_iterations {
                SctState { sweep: s.sweep + 1, finished: true, ..s }
            } else {
                SctState {
                    checked: Seq::new(self.data.len(), |i: int| false),
                    cursor: 0,
                    sweep: s.sweep + 1,
                    rejected: false,
                    ..s
                }
            }
        } else if !selected(self.mask, i) || s.flags[i] != Flag::Pass {
            SctState { checked: s.checked.update(i, true), cursor: i + 1, ..s }
        } else if s.checked[i] {
            SctState { cursor: i + 1, ..s }
        } else if self.station_box(s.flags, i).len() < self.args.num_min {
            SctState {
                flags: s.flags.update(i, Flag::Isolated),
                checked: s.checked.update(i, true),
                cursor: i + 1,
                ..s
            }
        } else {
            SctState { cursor: i + 1, pending: Some(self.station_box(s.flags, i)), ..s }
        }
    }

    /// The state in which a run next stops: over, or with a box that waits
    /// for its analysis.
    pub open spec fn scan(self, s: SctState) -> SctState
        decreases self.args.num_iterations - s.sweep, self.len() - s.cursor,
    {
        if self.live(s) {
            self.scan(self.visit(s))
        } else {
            s
        }
    }

    /// The value of station `j`, where it is a finite number.
    pub open spec fn station_value(self, j: int) -> i64 {
        match self.data[j] {
            Some(Reading::Finite(v)) => v as i64,
            _ => 0,
        }
    }

    /// The elevation of station `j`, where it is a finite number.
    pub open spec fn station_elev(self, j: int) -> i64 {
        match self.elevs[j] {
            Reading::Finite(v) => v as i64,
            _ => 0,
        }
    }

    /// The values of the members of a box.
    pub open spec fn box_values(self, members: Seq<(i64, usize)>) -> Seq<i64> {
        Seq::new(members.len(), |k: int| self.station_value(members[k].1 as int))
    }

    /// The elevations of the members of a box.
    pub open spec fn box_elevs(self, members: Seq<(i64, usize)>) -> Seq<i64> {
        Seq::new(members.len(), |k: int| self.station_elev(members[k].1 as int))
    }

    /// What each member's value lies above the vertical profile that is
    /// fitted to the box.
    pub open spec fn residuals(self, members: Seq<(i64, usize)>) -> Seq<i64> {
        let profile = vertical_profile(
            self.box_elevs(members),
            self.box_values(members),
            self.args.num_min_prof as int,
            self.args.min_elev_diff as int,
        );
        Seq::new(members.len(), |k: int| (self.box_values(members)[k] - profile[k]) as i64)
    }

    /// The distances, in whole metres, from the `k`-th member of a box to
    /// the other members; the member itself has none.
    pub open spec fn spacings(self, members: Seq<(i64, usize)>, k: int) -> Seq<Option<i64>> {
        Seq::new(
            members.len(),
            |l: int|
                if l == k {
                    None
                } else {
                    Some(
                        sqrt_floor(
                            dist2(self.points[members[k].1 as int], self.points[members[l].1 as int]),
                        ) as i64,
                    )
                },
        )
    }

    /// The sum, over the first `rows` members, of the distance within which
    /// a tenth of the other members lie.
    pub open spec fn scale_sum(self, members: Seq<(i64, usize)>, rows: int) -> int
        decreases rows,
    {
        if rows <= 0 {
            0
        } else {
            self.scale_sum(members, rows - 1) + quantile(10, self.spacings(members, rows - 1))
        }
    }

    /// The horizontal decorrelation length of a box: the mean, over its
    /// members, of the distance within which a tenth of the other members
    /// lie, and no less than `min_horizontal_scale`.
    pub open spec fn horizontal_scale(self, members: Seq<(i64, usize)>) -> int {
        let mean = div_trunc(self.scale_sum(members, members.len() as int), members.len() as int);
        if mean > self.args.min_horizontal_scale {
            mean
        } else {
            self.args.min_horizontal_scale as int
        }
    }

    /// Whether `input` is the box that waits in the state `s`, as its
    /// analysis takes it in.
    pub open spec fn asks(self, s: SctState, input: SctBox) -> bool {
        &&& s.pending == Some(input.members@)
        &&& input.residuals@ == self.residuals(input.members@)
        &&& input.horizontal_scale == self.horizontal_scale(input.members@)
    }

    /// The state in which a run stops once its first boxes have been
    /// analysed with the outcomes `answers`, one after the other.
    pub open spec fn replay(self, answers: Seq<Seq<Score>>) -> SctState
        decreases answers.len(),
    {
        if answers.len() == 0 {
            self.scan(self.start())
        } else {
            self.scan(self.settle(self.replay(answers.drop_last()), answers.last()))
        }
    }

    /// Whether the state `b` can come after the state `a`: a flag changes
    /// only where a selected station passed, and only to a failure or to
    /// the mark of isolation; and no score falls.
    pub open spec fn follows(self, a: SctState, b: SctState) -> bool {
        &&& b.flags.len() == a.flags.len()
        &&& b.prob_gross_error.len() == a.prob_gross_error.len()
        &&& forall|j: int|
            0 <= j < a.flags.len() ==> #[trigger] b.flags[j] == a.flags[j] || (a.flags[j]
                == Flag::Pass && selected(self.mask, j) && (b.flags[j] == Flag::Fail || b.flags[j]
                == Flag::Isolated))
        &&& forall|j: int|
            0 <= j < a.prob_gross_error.len() ==> #[trigger] b.prob_gross_error[j]
                >= a.prob_gross_error[j]
    }

    /// Whether the state has one entry per station in each of its vectors,
    /// and its cursor on a station or just behind the last.
    pub open spec fn shaped(self, s: SctState) -> bool {
        &&& s.flags.len() == self.len()
        &&& s.prob_gross_error.len() == self.len()
        &&& s.checked.len() == self.len()
        &&& 0 <= s.cursor <= self.len()
    }

    /// Whether every member of the box that waits in `s` still passes and
    /// is a station.
    pub open spec fn box_passes(self, s: SctState) -> bool {
        s.pending matches Some(members) ==> forall|k: int|
            0 <= k < members.len() ==> (#[trigger] members[k]).1 < self.len() && s.flags[members[k].1 as int]
                == Flag::Pass
    }

    /// Whether the analysis rejects a member: its score exceeds the limit
    /// that belongs to the sign of its cross-validation residual.
    pub open spec fn fails(self, station: int, score: Score) -> bool {
        if score.cvres < 0 {
            score.pog > self.args.pos.at(station)
        } else {
            score.pog > self.args.neg.at(station)
        }
    }

    /// The state after the analysis has spoken of one member of the box. A
    /// member that is selected and lies within the inner radius is dealt
    /// with: its score is remembered if it is the largest so far, and the
    /// member fails if the analysis rejects it.
    pub open spec fn settle_member(self, s: SctState, member: (i64, usize), score: Score) -> SctState {
        let station = member.1 as int;
        if selected(self.mask, station) && member.0 <= self.args.inner_radius
            * self.args.inner_radius {
            SctState {
                flags: if self.fails(station, score) {
                    s.flags.update(station, Flag::Fail)
                } else {
                    s.flags
                },
                prob_gross_error: if score.pog > s.prob_gross_error[station] {
                    s.prob_gross_error.update(station, score.pog)
                } else {
                    s.prob_gross_error
                },
                checked: s.checked.update(station, true),
                rejected: s.rejected || self.fails(station, score),
                ..s
            }
        } else {
            s
        }
    }

    /// The state after the analysis has spoken of the first `k` members.
    pub open spec fn settle_prefix(
        self,
        s: SctState,
        members: Seq<(i64, usize)>,
        scores: Seq<Score>,
        k: int,
    ) -> SctState
        decreases k,
    {
        if k <= 0 {
            s
        } else {
            self.settle_member(
                self.settle_prefix(s, members, scores, k - 1),
                members[k - 1],
                scores[k - 1],
            )
        }
    }

    /// The state after the analysis of the waiting box: `scores[k]` is what
    /// it says of the `k`-th member.
    pub open spec fn settle(self, s: SctState, scores: Seq<Score>) -> SctState {
        match s.pending {
            Some(members) => self.settle_prefix(
                SctState { pending: None, ..s },
                members,
                scores,
                members.len() as int,
            ),
            None => s,
        }
    }
}

/// The scene that the arguments of the test describe.
pub open spec fn sct_scene(
    data: Seq<Option<Reading>>,
    rtree: SpatialTree,
    args: SctArgs,
    obs_to_check: Option<&[bool]>,
) -> SctScene {
    SctScene {
        points: rtree.points(),
        elevs: rtree.elevs(),
        data,
        args,
        mask: match obs_to_check {
            Some(m) => Some(m@),
            None => None,
        },
    }
}

/// Whether every entry of `v` is at least `bound`.
fn all_at_least(v: &Vec<i64>, bound: i64) -> (ok: bool)
    ensures
        ok == (forall|k: int| 0 <= k < v@.len() ==> v@[k] >= bound),
{
    let mut k: usize = 0;
    while k < v.len()
        invariant
            k <= v@.len(),
            forall|m: int| 0 <= m < k ==> v@[m] >= bound,
        decreases v@.len() - k,
    {
        if v[k] < bound {
            return false;
        }
        k += 1;
    }
    true
}

/// Whether every value of the parameter is at least `bound`.
fn check_every_at_least(values: &SingleOrVec<i64>, bound: i64) -> (ok: bool)
    ensures
        ok == every_at_least(*values, bound as int),
{
    match values {
        SingleOrVec::Single(v) => *v >= bound,
        SingleOrVec::Vec(v) => all_at_least(v, bound),
    }
}

/// Whether the parameter has one value per station, if it has one each.
fn check_covers(values: &SingleOrVec<i64>, n: usize) -> (ok: bool)
    ensures
        ok == values.covers(n as int),
{
    match values {
        SingleOrVec::Single(_) => true,
        SingleOrVec::Vec(v) => v.len() == n,
    }
}

/// Examines the sizes and the domains of the arguments of the test.
pub fn validate(
    data: &[Option<Reading>],
    rtree: &SpatialTree,
    args: &SctArgs,
    obs_to_check: Option<&[bool]>,
) -> (checked: Result<(), Error>)
    ensures
        match checked {
            Ok(_) => sct_scene(data@, *rtree, *args, obs_to_check).refusal() is None,
            Err(e) => sct_scene(data@, *rtree, *args, obs_to_check).refusal() matches Some(why)
                && why.reported_by(e),
        },
{
    let n = data.len();
    if rtree.size() != n {
        return Err(Error::shape("tree_points"));
    }
    if !check_covers(&args.pos, n) {
        return Err(Error::shape("pos"));
    }
    if !check_every_at_least(&args.pos, 0) {
        return Err(Error::arg("pos", "all values must be >= 0"));
    }
    if !check_covers(&args.neg, n) {
        return Err(Error::shape("neg"));
    }
    if !check_every_at_least(&args.neg, 0) {
        return Err(Error::arg("neg", "all values must be >= 0"));
    }
    if !check_covers(&args.eps2, n) {
        return Err(Error::shape("eps2"));
    }
    if !check_every_at_least(&args.eps2, 1) {
        return Err(Error::arg("eps2", "all values must be > 0"));
    }
    if let Some(m) = obs_to_check {
        if m.len() != n {
            return Err(Error::shape("obs_to_check"));
        }
    }
    if args.num_min < 2 {
        return Err(Error::arg("num_min", "must be > 1"));
    }
    if args.num_max < args.num_min {
        return Err(Error::arg("num_max", "must be > num_min"));
    }
    if args.num_iterations < 1 {
        return Err(Error::arg("num_iterations", "must be >= 1"));
    }
    if args.min_elev_diff <= 0 {
        return Err(Error::arg("min_elev_diff", "must be > 0"));
    }
    if args.min_horizontal_scale <= 0 {
        return Err(Error::arg("min_horizontal_scale", "must be > 0"));
    }
    if args.vertical_scale <= 0 {
        return Err(Error::arg("vertical_scale", "must be > 0"));
    }
    if args.outer_radius < args.inner_radius {
        return Err(Error::arg("outer_radius", "must be >= inner_radius"));
    }
    Ok(())
}

/// Marks no station as dealt with.
fn clear_marks(marks: &mut Vec<bool>)
    ensures
        final(marks)@ == Seq::new(old(marks)@.len(), |i: int| false),
{
    let n = marks.len();
    let mut k: usize = 0;
    while k < n
        invariant
            k <= n,
            marks@.len() == n,
            forall|m: int| 0 <= m < k ==> !marks@[m],
        decreases n - k,
    {
        marks.set(k, false);
        k += 1;
    }
    assert(marks@ =~= Seq::new(n as nat, |i: int| false));
}

/// A run of the spatial consistency test. The run visits the stations
/// sweep by sweep; whenever the box of a station is to be analysed it stops,
/// hands the box out, and goes on once it has been told the scores.
pub struct SctRun<'a> {
    tree: &'a SpatialTree,
    args: &'a SctArgs,
    mask: Option<&'a [bool]>,
    data: &'a [Option<Reading>],
    flags: Vec<Flag>,
    prob_gross_error: Vec<i64>,
    checked: Vec<bool>,
    cursor: usize,
    sweep: u32,
    rejected: bool,
    pending: Option<Vec<(i64, usize)>>,
    finished: bool,
}

impl<'a> SctRun<'a> {
    /// What the run tests.
    pub closed spec fn scene(&self) -> SctScene {
        sct_scene(self.data@, *self.tree, *self.args, self.mask)
    }

    /// Where the run stands.
    pub closed spec fn view(&self) -> SctState {
        SctState {
            flags: self.flags@,
            prob_gross_error: self.prob_gross_error@,
            checked: self.checked@,
            cursor: self.cursor as int,
            sweep: self.sweep as int,
            rejected: self.rejected,
            pending: match self.pending {
                Some(members) => Some(members@),
                None => None,
            },
            finished: self.finished,
        }
    }

    /// The run's state fits its scene: the input was accepted, every vector
    /// has one entry per station, and a waiting box names stations only.
    pub closed spec fn wf(&self) -> bool {
        &&& self.tree.wf()
        &&& self.scene().refusal() is None
        &&& self.flags@.len() == self.scene().len()
        &&& self.prob_gross_error@.len() == self.scene().len()
        &&& self.checked@.len() == self.scene().len()
        &&& self.cursor <= self.scene().len()
        &&& self.sweep <= self.args.num_iterations
        &&& !self.finished ==> self.sweep < self.args.num_iterations
        &&& self.finished ==> self.pending is None
        &&& forall|j: int|
            0 <= j < self.flags@.len() && #[trigger] self.flags@[j] == Flag::Pass
                ==> self.scene().initial_flag(j) == Flag::Pass
        &&& self.pending matches Some(members) ==> {
            &&& members@.len() >= 2
            &&& forall|k: int|
                0 <= k < members@.len() ==> (#[trigger] members@[k]).1 < self.scene().len()
                    && self.scene().initial_flag(members@[k].1 as int) == Flag::Pass
                    && self.flags@[members@[k].1 as int] == Flag::Pass
        }
    }

    /// Starts a run of the test on the observations `data` of the stations
    /// of `rtree`. `obs_to_check`, if given, selects the stations that are
    /// tested; every station may stand in the box of another.
    ///
    /// Fails, before anything is computed, with the first reason for which
    /// the input is refused.
    pub fn new(
        data: &'a [Option<Reading>],
        rtree: &'a SpatialTree,
        args: &'a SctArgs,
        obs_to_check: Option<&'a [bool]>,
    ) -> (started: Result<SctRun<'a>, Error>)
        ensures
            match started {
                Ok(run) => {
                    &&& run.wf()
                    &&& run.scene() == sct_scene(data@, *rtree, *args, obs_to_check)
                    &&& run.scene().refusal() is None
                    &&& run@ == run.scene().start()
                },
                Err(e) => sct_scene(data@, *rtree, *args, obs_to_check).refusal() matches Some(
                    why,
                ) && why.reported_by(e),
            },
    {
        match validate(data, rtree, args, obs_to_check) {
            Err(e) => {
                return Err(e);
            },
            Ok(_) => {},
        }
        let ghost scene = sct_scene(data@, *rtree, *args, obs_to_check);
        proof {
            use_type_invariant(rtree);
            rtree.lemma_wf();
        }
        let n = data.len();
        let mut flags: Vec<Flag> = Vec::with_capacity(n);
        let mut prob_gross_error: Vec<i64> = Vec::with_capacity(n);
        let mut checked: Vec<bool> = Vec::with_capacity(n);
        let mut i: usize = 0;
        while i < n
            invariant
                i <= n,
                n == data@.len(),
                n == rtree.points().len(),
                rtree.elevs().len() == n,
                scene == sct_scene(data@, *rtree, *args, obs_to_check),
                flags@.len() == i,
                prob_gross_error@.len() == i,
                checked@.len() == i,
                forall|k: int| 0 <= k < i ==> flags@[k] == scene.initial_flag(k),
                forall|k: int| 0 <= k < i ==> prob_gross_error@[k] == 0,
                forall|k: int| 0 <= k < i ==> !checked@[k],
            decreases n - i,
        {
            let (_, elev) = rtree.get_coords_at_index(i);
            let flag = if !elev.is_valid() {
                Flag::Invalid
            } else {
                match data[i] {
                    None => Flag::DataMissing,
                    Some(Reading::NotFinite) => Flag::Fail,
                    Some(Reading::Finite(_)) => Flag::Pass,
                }
            };
            flags.push(flag);
            prob_gross_error.push(0);
            checked.push(false);
            i += 1;
        }
        let run = SctRun {
            tree: rtree,
            args,
            mask: obs_to_check,
            data,
            flags,
            prob_gross_error,
            checked,
            cursor: 0,
            sweep: 0,
            rejected: false,
            pending: None,
            finished: false,
        };
        proof {
            assert(run@.flags =~= scene.start().flags);
            assert(run@.prob_gross_error =~= scene.start().prob_gross_error);
            assert(run@.checked =~= scene.start().checked);
        }
        Ok(run)
    }

    /// The flags as they stand.
    pub fn flags(&self) -> (flags: &Vec<Flag>)
        ensures
            flags@ == self@.flags,
    {
        &self.flags
    }

    /// The largest probability of gross error found so far for each station.
    pub fn prob_gross_error(&self) -> (scores: &Vec<i64>)
        ensures
            scores@ == self@.prob_gross_error,
    {
        &self.prob_gross_error
    }

    /// Whether the run is over.
    pub fn is_finished(&self) -> (finished: bool)
        ensures
            finished == self@.finished,
    {
        self.finished
    }

    /// The box that waits for its analysis, if one does: squared distance
    /// from the station under test and station number of each member, from
    /// the nearest on.
    pub fn pending_box(&self) -> (waiting: Option<&Vec<(i64, usize)>>)
        ensures
            match waiting {
                Some(members) => self@.pending == Some(members@),
                None => self@.pending is None,
            },
    {
        self.pending.as_ref()
    }

    /// Goes on with the run until it is over or a box waits for its
    /// analysis, and says whether a box waits.
    pub fn next_box(&mut self) -> (waiting: bool)
        requires
            old(self).wf(),
        ensures
            final(self).wf(),
            final(self).scene() == old(self).scene(),
            final(self)@ == old(self).scene().scan(old(self)@),
            waiting == (final(self)@.pending is Some),
            !waiting ==> final(self)@.finished,
            old(self).scene().live(old(self)@) ==> old(self).scene().further(
                old(self)@,
                final(self)@,
            ),
    {
        let n = self.flags.len();
        let ghost scene = self.scene();
        loop
            invariant
                self.wf(),
                self.scene() == scene,
                scene == old(self).scene(),
                n == scene.len(),
                scene.scan(self@) == scene.scan(old(self)@),
                self@ == old(self)@ || scene.further(old(self)@, self@),
            decreases
                    self.args.num_iterations - self.sweep,
                    n - self.cursor,
                    (if self.finished {
                        0int
                    } else {
                        1int
                    }),
        {
            if self.finished {
                return false;
            }
            if self.pending.is_some() {
                return true;
            }
            let ghost before = self@;
            assert(scene.live(before));
            if self.cursor >= n {
                self.sweep = self.sweep + 1;
                if !self.rejected || self.sweep >= self.args.num_iterations {
                    self.finished = true;
                } else {
                    clear_marks(&mut self.checked);
                    self.cursor = 0;
                    self.rejected = false;
                }
            } else {
                let i = self.cursor;
                self.cursor = i + 1;
                let is_selected = match self.mask {
                    Some(m) => m[i],
                    None => true,
                };
                if !is_selected || self.flags[i] != Flag::Pass {
                    self.checked.set(i, true);
                } else if self.checked[i] {
                } else {
                    proof {
                        use_type_invariant(self.tree);
                        self.tree.lemma_wf();
                    }
                    let members = build_box(self.tree, &self.flags, i, self.args, Ghost(scene));
                    assert forall|k: int| 0 <= k < members@.len() implies scene.initial_flag(
                        (#[trigger] members@[k]).1 as int,
                    ) == Flag::Pass by {
                        assert(self.flags@[members@[k].1 as int] == Flag::Pass);
                    }
                    if members.len() < self.args.num_min {
                        self.flags.set(i, Flag::Isolated);
                        self.checked.set(i, true);
                    } else {
                        self.pending = Some(members);
                    }
                }
            }
            assert(self@ == scene.visit(before));
        }
    }

    /// Takes in what the analysis says of the waiting box: `scores[k]`
    /// belongs to the `k`-th member.
    ///
    /// Fails with a shape error naming `scores`, and changes nothing, when no
    /// box waits or the number of scores is not that of its members.
    pub fn apply(&mut self, scores: &[Score]) -> (applied: Result<(), Error>)
        requires
            old(self).wf(),
        ensures
            final(self).wf(),
            final(self).scene() == old(self).scene(),
            match applied {
                Ok(_) => {
                    &&& old(self)@.pending matches Some(members) && members.len() == scores@.len()
                    &&& final(self)@ == old(self).scene().settle(old(self)@, scores@)
                    &&& final(self)@.pending is None
                    &&& final(self)@.cursor == old(self)@.cursor
                    &&& final(self)@.sweep == old(self)@.sweep
                    &&& final(self)@.finished == old(self)@.finished
                },
                Err(e) => {
                    &&& !(old(self)@.pending matches Some(members) && members.len()
                        == scores@.len())
                    &&& e.is_shape("scores"@)
                    &&& final(self)@ == old(self)@
                },
            },
    {
        let fits = match &self.pending {
            Some(members) => members.len() == scores.len(),
            None => false,
        };
        if !fits {
            return Err(Error::shape("scores"));
        }
        let ghost scene = self.scene();
        let ghost before = self@;
        let mut taken: Option<Vec<(i64, usize)>> = None;
        core::mem::swap(&mut self.pending, &mut taken);
        let members = taken.unwrap();
        let ghost start = self@;
        assert(start == SctState { pending: None, ..before });
        assert(0 <= (self.args.inner_radius as i128) * (self.args.inner_radius as i128)
            <= 0xffff_ffff * 0xffff_ffff) by (nonlinear_arith)
            requires
                0 <= self.args.inner_radius <= 0xffff_ffff,
        ;
        let inner: i128 = (self.args.inner_radius as i128) * (self.args.inner_radius as i128);
        let n = self.flags.len();
        let mut k: usize = 0;
        while k < members.len()
            invariant
                self.wf(),
                self.scene() == scene,
                n == scene.len(),
                k <= members@.len(),
                members@.len() == scores@.len(),
                inner == self.args.inner_radius * self.args.inner_radius,
                forall|m: int| 0 <= m < members@.len() ==> (#[trigger] members@[m]).1 < n,
                self@ == scene.settle_prefix(start, members@, scores@, k as int),
                self@.cursor == before.cursor,
                self@.sweep == before.sweep,
                self@.finished == before.finished,
                self@.pending is None,
            decreases members@.len() - k,
        {
            let (distance, station) = members[k];
            let score = scores[k];
            let ghost prefix = self@;
            let is_selected = match self.mask {
                Some(m) => m[station],
                None => true,
            };
            if is_selected && (distance as i128) <= inner {
                let limit = if score.cvres < 0 {
                    *self.args.pos.index(station)
                } else {
                    *self.args.neg.index(station)
                };
                let fails = score.pog > limit;
                if fails {
                    self.flags.set(station, Flag::Fail);
                    self.rejected = true;
                }
                if score.pog > self.prob_gross_error[station] {
                    self.prob_gross_error.set(station, score.pog);
                }
                self.checked.set(station, true);
            }
            assert(self@ == scene.settle_member(prefix, members@[k as int], scores@[k as int]));
            k += 1;
        }
        Ok(())
    }

    /// The waiting box as its analysis takes it in, if a box waits: its
    /// members, what each member's value lies above the vertical profile
    /// of the box, and the horizontal decorrelation length of the box.
    pub fn pending_input(&self) -> (input: Option<SctBox>)
        requires
            self.wf(),
        ensures
            match input {
                Some(b) => {
                    &&& self@.pending == Some(b.members@)
                    &&& b.residuals@ == self.scene().residuals(b.members@)
                    &&& b.horizontal_scale == self.scene().horizontal_scale(b.members@)
                },
                None => self@.pending is None,
            },
    {
        match &self.pending {
            None => None,
            Some(members) => {
                proof {
                    use_type_invariant(self.tree);
                    self.tree.lemma_wf();
                }
                let residuals = box_residuals(
                    self.data,
                    self.tree,
                    self.args,
                    members,
                    Ghost(self.scene()),
                );
                let horizontal_scale = box_horizontal_scale(
                    self.tree,
                    self.args,
                    members,
                    Ghost(self.scene()),
                );
                Some(SctBox { members: copy_pairs(members), residuals, horizontal_scale })
            },
        }
    }

    /// Ends the run and hands out the flags and the scores.
    pub fn into_output(self) -> (output: SctOutput)
        ensures
            output.flags@ == self@.flags,
            output.prob_gross_error@ == self@.prob_gross_error,
    {
        SctOutput { flags: self.flags, prob_gross_error: self.prob_gross_error }
    }
}

/// Whether `flags` and `scores` can be the outcome of a run: a flag differs
/// from the one that the station started with only where a selected
/// station passed, and is then a failure or the mark of isolation; and no
/// score is negative.
pub open spec fn sct_outcome(scene: SctScene, flags: Seq<Flag>, scores: Seq<i64>) -> bool {
    &&& flags.len() == scene.len()
    &&& scores.len() == scene.len()
    &&& forall|j: int|
        0 <= j < scene.len() ==> #[trigger] flags[j] == scene.initial_flag(j) || (
        scene.initial_flag(j) == Flag::Pass && selected(scene.mask, j) && (flags[j] == Flag::Fail
            || flags[j] == Flag::Isolated))
    &&& forall|j: int| 0 <= j < scene.len() ==> #[trigger] scores[j] >= 0
}

/// Whether `answer` is what `analyse` may return for the box that waits in
/// the state `s`, one score per member.
pub open spec fn answers_box<F: Fn(SctBox) -> Vec<Score>>(
    scene: SctScene,
    analyse: F,
    s: SctState,
    answer: Seq<Score>,
) -> bool {
    exists|input: SctBox, scores: Vec<Score>|
        scene.asks(s, input) && #[trigger] analyse.ensures((input,), scores) && scores@ == answer
            && answer.len() == input.members@.len()
}

/// Whether `answers` are what `analyse` may return for the boxes of a run,
/// one after the other.
pub open spec fn answers_run<F: Fn(SctBox) -> Vec<Score>>(
    scene: SctScene,
    analyse: F,
    answers: Seq<Seq<Score>>,
) -> bool {
    forall|k: int|
        0 <= k < answers.len() ==> answers_box(
            scene,
            analyse,
            scene.replay(#[trigger] answers.take(k)),
            answers[k],
        )
}

/// Whether `out` is the outcome of a run in which `analyse` returned
/// `answers`, one after the other, and which is over after them.
pub open spec fn run_outcome<F: Fn(SctBox) -> Vec<Score>>(
    scene: SctScene,
    analyse: F,
    answers: Seq<Seq<Score>>,
    out: SctOutput,
) -> bool {
    &&& answers_run(scene, analyse, answers)
    &&& scene.replay(answers).finished
    &&& out.flags@ == scene.replay(answers).flags
    &&& out.prob_gross_error@ == scene.replay(answers).prob_gross_error
}

/// The spatial consistency test. Every observation is compared with what
/// the observations around it lead one to expect, and fails where the
/// analysis of its surroundings rejects it.
///
/// The stations are visited in station order, in up to
/// `args.num_iterations` sweeps. A station that still passes, is selected
/// and has not been dealt with in the sweep gets a box: the stations within
/// `args.outer_radius` that still pass, the nearest `args.num_max` of
/// them. With fewer than `args.num_min` members the station is marked as
/// isolated. Otherwise `analyse` is asked for the scores of the box, and
/// every selected member within `args.inner_radius` is dealt with: it
/// fails where its score exceeds its limit. A sweep that rejects no
/// station is the last.
///
/// `analyse` is the numerical analysis of a box by optimal interpolation; it
/// returns one score per member. Fails with the first reason for which the
/// input is refused, and with a shape error naming `scores` when `analyse`
/// returns another number of scores than the box has members.
pub fn sct<F: Fn(SctBox) -> Vec<Score>>(
    data: &[Option<Reading>],
    rtree: &SpatialTree,
    args: &SctArgs,
    obs_to_check: Option<&[bool]>,
    analyse: F,
) -> (tested: Result<SctOutput, Error>)
    requires
        forall|b: SctBox| #[trigger] analyse.requires((b,)),
    ensures
        match tested {
            Ok(out) => {
                &&& sct_scene(data@, *rtree, *args, obs_to_check).refusal() is None
                &&& exists|answers: Seq<Seq<Score>>| #[trigger]
                    run_outcome(
                        sct_scene(data@, *rtree, *args, obs_to_check),
                        analyse,
                        answers,
                        out,
                    )
                &&& sct_outcome(
                    sct_scene(data@, *rtree, *args, obs_to_check),
                    out.flags@,
                    out.prob_gross_error@,
                )
            },
            Err(e) => match sct_scene(data@, *rtree, *args, obs_to_check).refusal() {
                Some(why) => why.reported_by(e),
                None => e.is_shape("scores"@) && !answers_fit(analyse),
            },
        },
{
    let ghost scene = sct_scene(data@, *rtree, *args, obs_to_check);
    let mut run = match SctRun::new(data, rtree, args, obs_to_check) {
        Ok(run) => run,
        Err(e) => {
            return Err(e);
        },
    };
    let ghost start = run@;
    let ghost mut answers: Seq<Seq<Score>> = Seq::empty();
    loop
        invariant
            run.wf(),
            run.scene() == scene,
            scene == sct_scene(data@, *rtree, *args, obs_to_check),
            scene.refusal() is None,
            start == scene.start(),
            scene.shaped(run@),
            scene.follows(start, run@),
            run@.pending is None,
            forall|b: SctBox| #[trigger] analyse.requires((b,)),
            answers_run(scene, analyse, answers),
            scene.scan(run@) == scene.replay(answers),
        decreases
                args.num_iterations - run@.sweep,
                scene.len() - run@.cursor,
                (if run@.finished {
                    0int
                } else {
                    1int
                }),
    {
        let ghost before = run@;
        let waiting = run.next_box();
        proof {
            lemma_scan_follows(scene, before);
        }
        if !waiting {
            let ghost last = run@;
            let output = run.into_output();
            proof {
                assert forall|j: int| 0 <= j < scene.len() implies #[trigger] output.flags@[j]
                    == scene.initial_flag(j) || (scene.initial_flag(j) == Flag::Pass && selected(
                    scene.mask,
                    j,
                ) && (output.flags@[j] == Flag::Fail || output.flags@[j] == Flag::Isolated)) by {
                    assert(start.flags[j] == scene.initial_flag(j));
                    assert(last.flags[j] == start.flags[j] || start.flags[j] == Flag::Pass);
                }
                assert forall|j: int| 0 <= j < scene.len() implies #[trigger] output.prob_gross_error@[j]
                    >= 0 by {
                    assert(start.prob_gross_error[j] == 0);
                    assert(last.prob_gross_error[j] >= start.prob_gross_error[j]);
                }
                assert(run_outcome(scene, analyse, answers, output));
            }
            return Ok(output);
        }
        let ghost stopped = run@;
        proof {
            if !scene.live(before) {
                assert(scene.scan(before) == before);
            }
            assert(scene.further(before, stopped));
        }
        let input = match run.pending_input() {
            Some(input) => input,
            None => {
                return Err(Error::shape("scores"));
            },
        };
        let ghost asked = input;
        let scores = analyse(input);
        match run.apply(scores.as_slice()) {
            Ok(_) => {},
            Err(e) => {
                assert(analyse.ensures((asked,), scores));
                assert(scores@.len() != asked.members@.len());
                return Err(e);
            },
        }
        proof {
            lemma_settle_follows(scene, stopped, scores@);
            let longer = answers.push(scores@);
            assert(longer.drop_last() =~= answers);
            assert(longer.last() == scores@);
            assert(answers_run(scene, analyse, longer)) by {
                assert forall|k: int| 0 <= k < longer.len() implies answers_box(
                    scene,
                    analyse,
                    scene.replay(#[trigger] longer.take(k)),
                    longer[k],
                ) by {
                    if k < answers.len() {
                        assert(longer.take(k) =~= answers.take(k));
                        assert(answers_box(
                            scene,
                            analyse,
                            scene.replay(answers.take(k)),
                            answers[k],
                        ));
                    } else {
                        assert(longer.take(k) =~= answers);
                        assert(scene.asks(stopped, asked));
                        assert(analyse.ensures((asked,), scores));
                    }
                }
            }
            answers = longer;
        }
    }
}

/// Whether every answer of `analyse` holds one score per member of the box
/// that it was asked about.
pub open spec fn answers_fit<F: Fn(SctBox) -> Vec<Score>>(analyse: F) -> bool {
    forall|b: SctBox, scores: Vec<Score>| #[trigger]
        analyse.ensures((b,), scores) ==> scores@.len() == b.members@.len()
}

} // verus!
