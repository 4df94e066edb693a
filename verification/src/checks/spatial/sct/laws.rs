//! What holds of every run of the spatial consistency test.

use super::{Score, SctArgs, SctScene, SctState};
use crate::checks::spatial::buddy_check::selected;
use crate::flag::Flag;
use crate::order::{ascending, lemma_ascending_total};
use crate::sums::{from_kept, lemma_collect, lemma_collect_same};
use vstd::prelude::*;

verus! {

/// A step of a run changes a flag only where a selected station passed.
pub proof fn lemma_visit_follows(scene: SctScene, s: SctState)
    requires
        scene.shaped(s),
        scene.live(s),
    ensures
        scene.shaped(scene.visit(s)),
        scene.follows(s, scene.visit(s)),
{
}

/// A run changes a flag only where a selected station passed, and only to
/// a failure or to the mark of isolation: no flag goes back to a pass, and
/// no station that is not selected, that misses its value, or whose value
/// or elevation is not a finite number, ever changes its flag.
pub proof fn lemma_scan_follows(scene: SctScene, s: SctState)
    requires
        scene.shaped(s),
    ensures
        scene.shaped(scene.scan(s)),
        scene.follows(s, scene.scan(s)),
    decreases scene.args.num_iterations - s.sweep, scene.len() - s.cursor,
{
    if scene.live(s) {
        lemma_visit_follows(scene, s);
        lemma_scan_follows(scene, scene.visit(s));
    }
}

/// The analysis of the first `k` members of a box changes a flag only
/// where a selected member passed, and only to a failure.
pub proof fn lemma_settle_prefix_follows(
    scene: SctScene,
    s: SctState,
    members: Seq<(i64, usize)>,
    scores: Seq<Score>,
    k: int,
)
    requires
        scene.shaped(s),
        0 <= k <= members.len(),
        forall|m: int|
            0 <= m < members.len() ==> (#[trigger] members[m]).1 < scene.len() && s.flags[members[m].1 as int]
                == Flag::Pass,
    ensures
        scene.shaped(scene.settle_prefix(s, members, scores, k)),
        scene.follows(s, scene.settle_prefix(s, members, scores, k)),
        scene.settle_prefix(s, members, scores, k).cursor == s.cursor,
        scene.settle_prefix(s, members, scores, k).sweep == s.sweep,
        scene.settle_prefix(s, members, scores, k).finished == s.finished,
        scene.settle_prefix(s, members, scores, k).pending == s.pending,
    decreases k,
{
    if k > 0 {
        lemma_settle_prefix_follows(scene, s, members, scores, k - 1);
        assert(members[k - 1].1 < scene.len());
    }
}

/// The analysis of a box changes a flag only where a selected member
/// passed, and only to a failure.
pub proof fn lemma_settle_follows(scene: SctScene, s: SctState, scores: Seq<Score>)
    requires
        scene.shaped(s),
        scene.box_passes(s),
    ensures
        scene.shaped(scene.settle(s, scores)),
        scene.follows(s, scene.settle(s, scores)),
{
    match s.pending {
        Some(members) => {
            lemma_settle_prefix_follows(
                scene,
                SctState { pending: None, ..s },
                members,
                scores,
                members.len() as int,
            );
        },
        None => {},
    }
}

/// Every member of a box is a station that lies within the outer radius
/// and still passes, and stands in the box with its squared distance from
/// the station under test: no station that has failed, that is isolated,
/// that misses its value or that is unusable lends its value to another.
pub proof fn lemma_box_members_pass(scene: SctScene, flags: Seq<Flag>, i: int, k: int)
    requires
        0 <= k < scene.station_box(flags, i).len(),
        scene.len() <= usize::MAX,
    ensures
        scene.station_box(flags, i)[k].1 < scene.len(),
        scene.candidate(flags, i, scene.station_box(flags, i)[k].1 as int),
        scene.station_box(flags, i)[k] == scene.member_fn(i)(
            scene.station_box(flags, i)[k].1 as int,
        ),
{
    let item = scene.member_fn(i);
    let keep = scene.candidate_fn(flags, i);
    let wanted = scene.candidates(flags, i);
    let sorted = wanted.sort_by(ascending());
    let member = scene.station_box(flags, i)[k];
    assert(member == sorted[k]);
    assert forall|a: int, b: int| 0 <= a < b < scene.len() && keep(a) && keep(b) implies #[trigger] item(
        a,
    ) != #[trigger] item(b) by {
        assert(item(a).1 == a as usize && item(b).1 == b as usize);
    }
    lemma_collect(item, keep, scene.len());
    lemma_ascending_total();
    wanted.lemma_sort_by_ensures(ascending());
    vstd::seq_lib::to_multiset_contains(sorted, member);
    vstd::seq_lib::to_multiset_contains(wanted, member);
    assert(sorted.contains(member));
    let c = choose|c: int| 0 <= c < wanted.len() && wanted[c] == member;
    assert(from_kept(item, keep, scene.len(), wanted[c]));
    let j = choose|j: int| 0 <= j < scene.len() && #[trigger] keep(j) && item(j) == member;
    assert(member.1 == j as usize);
}

/// A selected station that passes, has not been dealt with, and whose box
/// holds fewer than `num_min` stations is marked as isolated, and nothing
/// is asked of the analysis for it.
pub proof fn lemma_small_box_isolates(scene: SctScene, s: SctState)
    requires
        scene.live(s),
        s.cursor < scene.len(),
        selected(scene.mask, s.cursor),
        s.flags[s.cursor] == Flag::Pass,
        !s.checked[s.cursor],
        scene.station_box(s.flags, s.cursor).len() < scene.args.num_min,
    ensures
        scene.visit(s).flags == s.flags.update(s.cursor, Flag::Isolated),
        scene.visit(s).pending is None,
        scene.visit(s).prob_gross_error == s.prob_gross_error,
{
}

impl SctScene {
    /// The same scene with another number of sweeps.
    pub open spec fn with_iterations(self, num_iterations: u32) -> SctScene {
        SctScene { args: SctArgs { num_iterations, ..self.args }, ..self }
    }
}

/// The box of a station does not depend on the number of sweeps.
pub proof fn lemma_box_ignores_iterations(scene: SctScene, m: u32, flags: Seq<Flag>, i: int)
    ensures
        scene.with_iterations(m).station_box(flags, i) == scene.station_box(flags, i),
{
    let other = scene.with_iterations(m);
    assert forall|j: int| 0 <= j < scene.len() implies #[trigger] other.candidate_fn(flags, i)(j)
        == scene.candidate_fn(flags, i)(j) by {}
    assert forall|j: int| 0 <= j < scene.len() implies #[trigger] other.member_fn(i)(j)
        == scene.member_fn(i)(j) by {}
    lemma_collect_same(
        other.member_fn(i),
        other.candidate_fn(flags, i),
        scene.member_fn(i),
        scene.candidate_fn(flags, i),
        scene.len(),
    );
}

/// What the analysis of a box does to the state does not depend on the
/// number of sweeps.
pub proof fn lemma_settle_ignores_iterations(
    scene: SctScene,
    m: u32,
    s: SctState,
    members: Seq<(i64, usize)>,
    scores: Seq<Score>,
    k: int,
)
    ensures
        scene.with_iterations(m).settle_prefix(s, members, scores, k) == scene.settle_prefix(
            s,
            members,
            scores,
            k,
        ),
    decreases k,
{
    if k > 0 {
        lemma_settle_ignores_iterations(scene, m, s, members, scores, k - 1);
    }
}

/// A run that ends because a sweep rejected no station ends in the same
/// state whatever larger number of sweeps is allowed: up to the next stop
/// the run with `more` sweeps goes as the run of the scene does, unless
/// that one ends on its last sweep with a station rejected.
pub proof fn lemma_converged_run_is_final(scene: SctScene, more: u32, s: SctState)
    requires
        more >= scene.args.num_iterations,
        !s.finished ==> s.sweep < scene.args.num_iterations,
    ensures
        !(scene.scan(s).finished && scene.scan(s).rejected) ==> scene.with_iterations(more).scan(s)
            == scene.scan(s),
    decreases scene.args.num_iterations - s.sweep, scene.len() - s.cursor,
{
    let other = scene.with_iterations(more);
    if scene.live(s) {
        assert(other.live(s));
        if s.cursor < scene.len() {
            lemma_box_ignores_iterations(scene, more, s.flags, s.cursor);
        }
        if s.cursor >= scene.len() && s.rejected && s.sweep + 1 >= scene.args.num_iterations {
            assert(scene.scan(scene.visit(s)) == scene.visit(s));
        } else {
            assert(other.visit(s) == scene.visit(s));
            lemma_converged_run_is_final(scene, more, scene.visit(s));
        }
    } else {
        assert(!other.live(s));
    }
}

/// Whether the sweeps of a state are in order: no more are complete than
/// are allowed, a run that goes on has one left, and a run that is over
/// waits for nothing.
pub open spec fn in_order(scene: SctScene, s: SctState) -> bool {
    &&& 0 <= s.sweep <= scene.args.num_iterations
    &&& !s.finished ==> s.sweep < scene.args.num_iterations
    &&& s.finished ==> s.pending is None
}

/// A run keeps its sweeps in order up to its next stop.
pub proof fn lemma_scan_in_order(scene: SctScene, s: SctState)
    requires
        in_order(scene, s),
    ensures
        in_order(scene, scene.scan(s)),
    decreases scene.args.num_iterations - s.sweep, scene.len() - s.cursor,
{
    if scene.live(s) {
        lemma_scan_in_order(scene, scene.visit(s));
    }
}

/// The analysis of a box leaves the sweeps of a run as they are.
pub proof fn lemma_settle_keeps_sweeps(
    scene: SctScene,
    s: SctState,
    members: Seq<(i64, usize)>,
    scores: Seq<Score>,
    k: int,
)
    ensures
        scene.settle_prefix(s, members, scores, k).sweep == s.sweep,
        scene.settle_prefix(s, members, scores, k).cursor == s.cursor,
        scene.settle_prefix(s, members, scores, k).finished == s.finished,
        scene.settle_prefix(s, members, scores, k).pending == s.pending,
    decreases k,
{
    if k > 0 {
        lemma_settle_keeps_sweeps(scene, s, members, scores, k - 1);
    }
}

/// Once the test has converged, more sweeps change nothing. Take a run
/// whose boxes were analysed with the outcomes `answers`, each box waiting
/// when its outcome came, and that ended because a sweep rejected no
/// station. With any larger number of sweeps allowed, the same outcomes
/// lead to the same end: the same flags and the same scores.
pub proof fn lemma_converged_test_is_final(scene: SctScene, more: u32, answers: Seq<Seq<Score>>)
    requires
        1 <= scene.args.num_iterations <= more,
        forall|k: int|
            0 <= k < answers.len() ==> scene.replay(#[trigger] answers.take(k)).pending is Some,
        scene.replay(answers).finished,
        !scene.replay(answers).rejected,
    ensures
        scene.with_iterations(more).replay(answers) == scene.replay(answers),
{
    lemma_replay_ignores_iterations(scene, more, answers);
}

/// Up to any stop that is not the end on the last sweep with a station
/// rejected, a run with more sweeps allowed goes as the run of the scene
/// does.
pub proof fn lemma_replay_ignores_iterations(scene: SctScene, more: u32, answers: Seq<Seq<Score>>)
    requires
        1 <= scene.args.num_iterations <= more,
        forall|k: int|
            0 <= k < answers.len() ==> scene.replay(#[trigger] answers.take(k)).pending is Some,
    ensures
        in_order(scene, scene.replay(answers)),
        !(scene.replay(answers).finished && scene.replay(answers).rejected) ==> scene.with_iterations(
            more,
        ).replay(answers) == scene.replay(answers),
    decreases answers.len(),
{
    let other = scene.with_iterations(more);
    if answers.len() == 0 {
        assert(other.start().flags =~= scene.start().flags);
        assert(other.start().prob_gross_error =~= scene.start().prob_gross_error);
        assert(other.start().checked =~= scene.start().checked);
        assert(other.start() == scene.start());
        lemma_scan_in_order(scene, scene.start());
        lemma_converged_run_is_final(scene, more, scene.start());
    } else {
        let front = answers.drop_last();
        assert forall|k: int| 0 <= k < front.len() implies scene.replay(
            #[trigger] front.take(k),
        ).pending is Some by {
            assert(front.take(k) =~= answers.take(k));
        }
        lemma_replay_ignores_iterations(scene, more, front);
        let stopped = scene.replay(front);
        assert(answers.take(answers.len() - 1) =~= front);
        assert(stopped.pending is Some);
        let members = stopped.pending->0;
        let cleared = SctState { pending: None, ..stopped };
        lemma_settle_keeps_sweeps(scene, cleared, members, answers.last(), members.len() as int);
        lemma_settle_ignores_iterations(
            scene,
            more,
            cleared,
            members,
            answers.last(),
            members.len() as int,
        );
        let settled = scene.settle(stopped, answers.last());
        assert(other.settle(stopped, answers.last()) == settled);
        lemma_scan_in_order(scene, settled);
        lemma_converged_run_is_final(scene, more, settled);
    }
}

} // verus!
