//! The trajectory linker: candidate sampling and the dynamic-programming
//! pass that links one configuration per waypoint under the two-level
//! objective (fewest reconfigurations first, least joint travel second),
//! subject to per-step velocity feasibility.

use vstd::prelude::*;
use crate::num::{
    MAX_DIST, MAX_TIME, MAX_WAYPOINTS, MAX_DOF, sq_dist, sqrt_floor,
};
use crate::pose::{Waypoint, waypoint_ok};
use crate::motion::Motion;
use crate::robot::{Robot, joint_dist, velocity_feasible};
use crate::robot_kinematics::{config_ok, vel_ok};
use crate::relaxed_ik::{OptimizationEngine, clone_config};
use crate::cluster::{cluster_representatives, is_pool_member};

verus! {

/// Candidate quota per waypoint.
pub const QUOTA: usize = 300;

/// Cap on failed reach attempts per waypoint. An unbounded retry would
/// loop forever on an unreachable pose; the cap surfaces such a waypoint
/// as an empty or short candidate list instead, and is configurable.
pub const DEFAULT_REACH_ATTEMPTS: usize = 2000;

/// Cost of a candidate: either not yet linked to the start, or reached with
/// a primary cost (number of reconfigurations) and a secondary cost (total
/// joint-space travel, in ticks).
#[derive(Clone, Copy, PartialEq, Eq, Structural, Debug)]
pub enum Score {
    Unreached,
    Reached { primary: u64, secondary: u64 },
}

/// One candidate configuration for one waypoint, with the cost and
/// backtrace link the linking pass assigns.
pub struct Node {
    pub ik: Vec<i64>,
    pub score: Score,
    pub predecessor: usize,
}

impl Node {
    /// A fresh candidate: costs unreached, no predecessor.
    pub fn new(ik: Vec<i64>) -> (n: Node)
        ensures
            n.ik == ik,
            n.score == Score::Unreached,
            n.predecessor == 0,
    {
        Node { ik, score: Score::Unreached, predecessor: 0 }
    }
}

/// Mathematical view of a score: `None` is unreached (infinite cost).
pub open spec fn sv(s: Score) -> Option<(int, int)> {
    match s {
        Score::Unreached => Option::None,
        Score::Reached { primary, secondary } => Option::Some((primary as int, secondary as int)),
    }
}

/// Lexicographic order on cost pairs, `None` greatest.
pub open spec fn lex_le(a: Option<(int, int)>, b: Option<(int, int)>) -> bool {
    match b {
        Option::None => true,
        Option::Some(bv) => match a {
            Option::None => false,
            Option::Some(av) => av.0 < bv.0 || (av.0 == bv.0 && av.1 <= bv.1),
        },
    }
}

pub open spec fn lex_lt(a: Option<(int, int)>, b: Option<(int, int)>) -> bool {
    lex_le(a, b) && a != b
}

/// Primary cost strictly smaller, `None` greatest.
pub open spec fn p_lt(a: Option<(int, int)>, b: Option<(int, int)>) -> bool {
    match a {
        Option::None => false,
        Option::Some(av) => match b {
            Option::None => true,
            Option::Some(bv) => av.0 < bv.0,
        },
    }
}

pub open spec fn p_le(a: Option<(int, int)>, b: Option<(int, int)>) -> bool {
    match b {
        Option::None => true,
        Option::Some(bv) => match a {
            Option::None => false,
            Option::Some(av) => av.0 <= bv.0,
        },
    }
}

/// Cost after one reconfiguration edge: primary grows by one.
pub open spec fn bump1(a: Option<(int, int)>) -> Option<(int, int)> {
    match a {
        Option::None => Option::None,
        Option::Some(av) => Option::Some((av.0 + 1, av.1)),
    }
}

/// Euclidean joint-space distance, rounded down.
pub open spec fn dist_of(a: Seq<i64>, b: Seq<i64>) -> int {
    sqrt_floor(sq_dist(a, b))
}

/// Cost of reaching a candidate with configuration `ik` through a
/// continuous edge from predecessor `j`: only defined when `j` is reached
/// and the step is velocity-feasible; inherits the primary cost and extends
/// the secondary cost by the step distance.
pub open spec fn cont_val(ik: Seq<i64>, prev: Seq<Node>, j: int, vel: Seq<i64>, dt: i64) -> Option<
    (int, int),
> {
    match sv(prev[j].score) {
        Option::None => Option::None,
        Option::Some(pv) => if vel_ok(ik, prev[j].ik@, vel, dt) {
            Option::Some((pv.0, pv.1 + dist_of(ik, prev[j].ik@)))
        } else {
            Option::None
        },
    }
}

/// The linking relation for one candidate of one column, against the
/// finished previous column: its score is at most every reconfiguration
/// option (lexicographically) and at most every continuous option in
/// primary cost; it is attained through the recorded predecessor, either as
/// a reconfiguration edge, or as a continuous edge that beats every
/// reconfiguration option strictly on primary cost and every continuous
/// option lexicographically. An unreached score is only allowed when no
/// option exists at all.
pub open spec fn node_post(ik: Seq<i64>, prev: Seq<Node>, vel: Seq<i64>, dt: i64, node: Node) -> bool {
    let s = sv(node.score);
    let j = node.predecessor as int;
    &&& forall|j2: int|
        0 <= j2 < prev.len() ==> lex_le(s, bump1(sv((#[trigger] prev[j2]).score)))
    &&& forall|j2: int|
        0 <= j2 < prev.len() ==> p_le(s, #[trigger] cont_val(ik, prev, j2, vel, dt))
    &&& (node.score is Unreached ==> node.predecessor == 0)
    &&& (node.score is Reached ==> {
        &&& 0 <= j < prev.len()
        &&& ({
            ||| s == bump1(sv(prev[j].score))
            ||| {
                &&& s == cont_val(ik, prev, j, vel, dt)
                &&& forall|j2: int|
                    0 <= j2 < prev.len() ==> p_lt(s, bump1(sv((#[trigger] prev[j2]).score)))
                &&& forall|j2: int|
                    0 <= j2 < prev.len() ==> lex_le(s, #[trigger] cont_val(ik, prev, j2, vel, dt))
            }
        })
    })
}

/// Cost bounds after column `x`: at most one reconfiguration per step and
/// one maximal joint-space move per step.
pub open spec fn score_bounded(s: Score, x: int) -> bool {
    match s {
        Score::Unreached => true,
        Score::Reached { primary, secondary } => primary <= x && secondary <= x * (MAX_DIST as int),
    }
}

/// Every candidate of the column holds an in-range configuration.
pub open spec fn col_ok(dofs: int, col: Seq<Node>) -> bool {
    forall|y: int| 0 <= y < col.len() ==> config_ok(dofs, (#[trigger] col[y]).ik@)
}

pub open spec fn col_scores_ok(col: Seq<Node>, x: int) -> bool {
    forall|y: int| 0 <= y < col.len() ==> score_bounded((#[trigger] col[y]).score, x)
}

/// Every candidate of the column is freshly sampled: costs unreached, no
/// predecessor link yet.
pub open spec fn col_fresh(col: Seq<Node>) -> bool {
    forall|y: int|
        0 <= y < col.len() ==> (#[trigger] col[y]).score == Score::Unreached && col[y].predecessor
            == 0
}

/// Some candidate of the column is reached.
pub open spec fn col_has_reached(col: Seq<Node>) -> bool {
    exists|y: int| 0 <= y < col.len() && (#[trigger] col[y]).score is Reached
}

/// Decides strict lexicographic order of two scores.
fn score_lt(a: &Score, b: &Score) -> (r: bool)
    ensures
        r == lex_lt(sv(*a), sv(*b)),
{
    match (a, b) {
        (
            Score::Reached { primary: ap, secondary: asec },
            Score::Reached { primary: bp, secondary: bsec },
        ) => *ap < *bp || (*ap == *bp && *asec < *bsec),
        (Score::Reached { .. }, Score::Unreached) => true,
        _ => false,
    }
}

/// Lexicographically best score of a column, with its index: `Unreached`
/// only when the whole column is unreached.
fn best_of_column(col: &Vec<Node>) -> (r: (Score, usize))
    ensures
        forall|y2: int| 0 <= y2 < col@.len() ==> lex_le(sv(r.0), sv((#[trigger] col@[y2]).score)),
        r.0 is Reached ==> r.1 < col@.len() && r.0 == col@[r.1 as int].score,
        r.0 is Unreached ==> r.1 == 0 && forall|y2: int|
            0 <= y2 < col@.len() ==> (#[trigger] col@[y2]).score is Unreached,
{
    let mut best = Score::Unreached;
    let mut best_idx: usize = 0;
    let mut y: usize = 0;
    while y < col.len()
        invariant
            y <= col@.len(),
            forall|y2: int| 0 <= y2 < y ==> lex_le(sv(best), sv((#[trigger] col@[y2]).score)),
            best is Reached ==> best_idx < y && best == col@[best_idx as int].score,
            best is Unreached ==> best_idx == 0 && forall|y2: int|
                0 <= y2 < y ==> (#[trigger] col@[y2]).score is Unreached,
        decreases col@.len() - y,
    {
        let cand = col[y].score;
        if score_lt(&cand, &best) {
            best = cand;
            best_idx = y;
        }
        y += 1;
    }
    (best, best_idx)
}

/// Links one column against its finished predecessor column: returns the
/// same candidates with their optimal scores and predecessor links.
fn dp_column(vel: &Vec<i64>, prev: &Vec<Node>, cur: &Vec<Node>, dt: i64, x: usize, dofs: usize) -> (res: Vec<Node>)
    requires
        dofs <= MAX_DOF,
        vel@.len() == dofs,
        col_ok(dofs as int, prev@),
        col_ok(dofs as int, cur@),
        col_scores_ok(prev@, x - 1),
        1 <= x <= MAX_WAYPOINTS,
        0 <= dt <= 2 * MAX_TIME,
    ensures
        res@.len() == cur@.len(),
        forall|y: int| 0 <= y < cur@.len() ==> (#[trigger] res@[y]).ik@ == cur@[y].ik@,
        forall|y: int|
            0 <= y < cur@.len() ==> node_post(cur@[y].ik@, prev@, vel@, dt, #[trigger] res@[y]),
        col_scores_ok(res@, x as int),
        col_ok(dofs as int, res@),
{
    // Best predecessor through an arm reconfiguration, shared by the column.
    let mut floor_score = Score::Unreached;
    let mut floor_idx: usize = 0;
    let mut j: usize = 0;
    while j < prev.len()
        invariant
            j <= prev@.len(),
            forall|j2: int|
                0 <= j2 < j ==> lex_le(sv(floor_score), bump1(sv((#[trigger] prev@[j2]).score))),
            floor_score is Reached ==> floor_idx < j && sv(floor_score) == bump1(
                sv(prev@[floor_idx as int].score),
            ),
            floor_score is Unreached ==> floor_idx == 0 && forall|j2: int|
                0 <= j2 < j ==> (#[trigger] prev@[j2]).score is Unreached,
            score_bounded(floor_score, x as int),
        decreases prev@.len() - j,
    {
        match prev[j].score {
            Score::Reached { primary, secondary } => {
                let cand = Score::Reached { primary: primary + 1, secondary };
                if score_lt(&cand, &floor_score) {
                    floor_score = cand;
                    floor_idx = j;
                }
            },
            Score::Unreached => {},
        }
        j += 1;
    }
    // Per candidate: best continuous predecessor, taken only when strictly
    // better than the reconfiguration floor on primary cost.
    let mut res: Vec<Node> = Vec::new();
    let mut y1: usize = 0;
    while y1 < cur.len()
        invariant
            y1 <= cur@.len(),
            res@.len() == y1,
            forall|y: int| 0 <= y < y1 ==> (#[trigger] res@[y]).ik@ == cur@[y].ik@,
            forall|y: int|
                0 <= y < y1 ==> node_post(cur@[y].ik@, prev@, vel@, dt, #[trigger] res@[y]),
            col_scores_ok(res@, x as int),
            col_ok(dofs as int, res@),
        decreases cur@.len() - y1,
    {
        let cur_ik = &cur[y1].ik;
        let ghost ikv = cur@[y1 as int].ik@;
        let mut best = floor_score;
        let mut best_idx = floor_idx;
        let mut from_cont = false;
        let mut j: usize = 0;
        while j < prev.len()
            invariant
                j <= prev@.len(),
                !from_cont ==> best == floor_score && best_idx == floor_idx,
                from_cont ==> {
                    &&& best is Reached
                    &&& best_idx < j
                    &&& sv(best) == cont_val(ikv, prev@, best_idx as int, vel@, dt)
                    &&& p_lt(sv(best), sv(floor_score))
                },
                from_cont ==> forall|j2: int|
                    0 <= j2 < j ==> lex_le(sv(best), #[trigger] cont_val(ikv, prev@, j2, vel@, dt)),
                !from_cont ==> forall|j2: int|
                    0 <= j2 < j ==> !p_lt(
                        #[trigger] cont_val(ikv, prev@, j2, vel@, dt),
                        sv(floor_score),
                    ),
                score_bounded(best, x as int),
            decreases prev@.len() - j,
        {
            let prev_score = prev[j].score;
            match prev_score {
                Score::Reached { primary, secondary } => {
                    if velocity_feasible(cur_ik, &prev[j].ik, vel, dt) {
                        let d = joint_dist(cur_ik, &prev[j].ik);
                        proof {
                            assert((x - 1) * (MAX_DIST as int) + (MAX_DIST as int) == x * (
                            MAX_DIST as int)) by (nonlinear_arith);
                            assert(x * (MAX_DIST as int) <= MAX_WAYPOINTS * (MAX_DIST as int))
                                by (nonlinear_arith)
                                requires
                                    0 <= x <= MAX_WAYPOINTS,
                            {
                            }
                        }
                        let cand = Score::Reached { primary, secondary: secondary + d };
                        proof {
                            assert(sv(cand) == cont_val(ikv, prev@, j as int, vel@, dt));
                        }
                        let take = if from_cont {
                            score_lt(&cand, &best)
                        } else {
                            match floor_score {
                                Score::Unreached => true,
                                Score::Reached { primary: fp, .. } => primary < fp,
                            }
                        };
                        if take {
                            best = cand;
                            best_idx = j;
                            from_cont = true;
                        }
                    } else {
                        proof {
                            assert(cont_val(ikv, prev@, j as int, vel@, dt) is None);
                        }
                    }
                },
                Score::Unreached => {
                    proof {
                        assert(cont_val(ikv, prev@, j as int, vel@, dt) is None);
                    }
                },
            }
            j += 1;
        }
        let node = Node { ik: clone_config(cur_ik), score: best, predecessor: best_idx };
        res.push(node);
        proof {
            let nd = res@[y1 as int];
            assert(nd.ik@ == ikv);
            if from_cont {
                assert forall|j2: int| 0 <= j2 < prev@.len()
                    implies lex_le(sv(nd.score), bump1(sv((#[trigger] prev@[j2]).score)))
                        && p_lt(sv(nd.score), bump1(sv(prev@[j2].score))) by {
                    assert(lex_le(sv(floor_score), bump1(sv(prev@[j2].score))));
                }
                assert(node_post(ikv, prev@, vel@, dt, nd));
            } else {
                if floor_score is Unreached {
                    assert forall|j2: int| 0 <= j2 < prev@.len()
                        implies lex_le(sv(nd.score), bump1(sv((#[trigger] prev@[j2]).score)))
                            && p_le(sv(nd.score), cont_val(ikv, prev@, j2, vel@, dt)) by {
                        assert(prev@[j2].score is Unreached);
                        assert(cont_val(ikv, prev@, j2, vel@, dt) is None);
                    }
                    assert(node_post(ikv, prev@, vel@, dt, nd));
                } else {
                    assert forall|j2: int| 0 <= j2 < prev@.len()
                        implies p_le(sv(nd.score), #[trigger] cont_val(ikv, prev@, j2, vel@, dt))
                        by {
                        assert(!p_lt(cont_val(ikv, prev@, j2, vel@, dt), sv(floor_score)));
                    }
                    assert(node_post(ikv, prev@, vel@, dt, nd));
                }
            }
        }
        y1 += 1;
    }
    res
}

/// Initializes the first column: every candidate starts the motion at zero
/// cost.
fn init_column(cur: &Vec<Node>, dofs: usize) -> (res: Vec<Node>)
    requires
        col_ok(dofs as int, cur@),
    ensures
        res@.len() == cur@.len(),
        forall|y: int| 0 <= y < cur@.len() ==> (#[trigger] res@[y]).ik@ == cur@[y].ik@,
        forall|y: int|
            0 <= y < cur@.len() ==> (#[trigger] res@[y]).score == (Score::Reached {
                primary: 0,
                secondary: 0,
            }) && res@[y].predecessor == 0,
        col_ok(dofs as int, res@),
        col_scores_ok(res@, 0),
{
    let mut res: Vec<Node> = Vec::new();
    let mut y: usize = 0;
    while y < cur.len()
        invariant
            y <= cur@.len(),
            res@.len() == y,
            forall|y2: int| 0 <= y2 < y ==> (#[trigger] res@[y2]).ik@ == cur@[y2].ik@,
            forall|y2: int|
                0 <= y2 < y ==> (#[trigger] res@[y2]).score == (Score::Reached {
                    primary: 0,
                    secondary: 0,
                }) && res@[y2].predecessor == 0,
            col_ok(dofs as int, res@),
        decreases cur@.len() - y,
    {
        let node = Node {
            ik: clone_config(&cur[y].ik),
            score: Score::Reached { primary: 0, secondary: 0 },
            predecessor: 0,
        };
        res.push(node);
        y += 1;
    }
    res
}

/// Every configuration in the pool is in range for `dofs` joints.
pub open spec fn pool_ok(dofs: int, pool: Seq<Vec<i64>>) -> bool {
    forall|i: int| 0 <= i < pool.len() ==> config_ok(dofs, (#[trigger] pool[i])@)
}

/// The candidate table: one column per waypoint, in-range configurations.
pub open spec fn table_shape(dofs: int, traj: Seq<Waypoint>, table: Seq<Vec<Node>>) -> bool {
    &&& table.len() == traj.len()
    &&& forall|x: int| 0 <= x < table.len() ==> col_ok(dofs, (#[trigger] table[x])@)
}

/// Time step between waypoint `x - 1` and waypoint `x`.
pub open spec fn dt_of(traj: Seq<Waypoint>, x: int) -> i64 {
    (traj[x].time - traj[x - 1].time) as i64
}

/// The finished linking pass: the first column is at zero cost, and every
/// later candidate satisfies the linking relation against its predecessor
/// column at that step's time delta.
pub open spec fn dp_table_post(traj: Seq<Waypoint>, vel: Seq<i64>, table: Seq<Vec<Node>>) -> bool {
    &&& table.len() == traj.len()
    &&& (table.len() > 0 ==> forall|y: int|
        0 <= y < table[0]@.len() ==> (#[trigger] table[0]@[y]).score == (Score::Reached {
            primary: 0,
            secondary: 0,
        }) && table[0]@[y].predecessor == 0)
    &&& forall|x: int, y: int|
        1 <= x < table.len() && 0 <= y < table[x]@.len() ==> node_post(
            (#[trigger] table[x]@[y]).ik@,
            table[x - 1]@,
            vel,
            dt_of(traj, x),
            table[x]@[y],
        )
}

/// The backtraced optimal path: one candidate index per waypoint, linked by
/// the recorded predecessors, carrying the motion's configurations, ending
/// at a lexicographically minimal reached candidate of the last column.
pub open spec fn path_ok(path: Seq<int>, table: Seq<Vec<Node>>, m: Motion) -> bool {
    let last = table.len() - 1;
    &&& path.len() == table.len()
    &&& m.data@.len() == table.len()
    &&& forall|i: int| 0 <= i < path.len() ==> 0 <= #[trigger] path[i] < table[i]@.len()
    &&& forall|i: int|
        0 <= i < path.len() ==> (#[trigger] m.data@[i]).1@ == table[i]@[path[i]].ik@
    &&& forall|i: int|
        1 <= i < path.len() ==> #[trigger] path[i - 1] == table[i]@[path[i]].predecessor as int
    &&& (table.len() > 0 ==> {
        &&& table[last]@[path[last]].score is Reached
        &&& forall|y: int|
            0 <= y < table[last]@.len() ==> lex_le(
                sv(table[last]@[path[last]].score),
                sv((#[trigger] table[last]@[y]).score),
            )
    })
}

/// A backtraced path of `m` through `table` exists.
pub open spec fn linked_motion(table: Seq<Vec<Node>>, m: Motion) -> bool {
    exists|path: Seq<int>| #[trigger] path_ok(path, table, m)
}

#[derive(Clone, Copy, PartialEq, Eq, Structural, Debug)]
pub enum LinkError {
    /// No end-to-end feasible chain of candidates exists: every candidate
    /// of the last waypoint is still unreached after the linking pass.
    /// A waypoint whose sampling budget ran out before any candidate was
    /// found leaves an empty column and surfaces here too.
    NoFeasiblePath,
}

/// The trajectory linker: a robot session, the input waypoints, and the
/// candidate table the sampler fills and the linking pass scores.
pub struct IKLink<S> {
    pub robot: Robot<S>,
    pub trajectory: Vec<Waypoint>,
    pub table: Vec<Vec<Node>>,
    pub reach_attempt_cap: usize,
}

impl<S: OptimizationEngine> IKLink<S> {
    pub open spec fn wf(self) -> bool {
        &&& self.robot.wf()
        &&& self.trajectory@.len() <= MAX_WAYPOINTS
        &&& forall|i: int|
            0 <= i < self.trajectory@.len() ==> waypoint_ok(#[trigger] self.trajectory@[i])
        &&& forall|i: int|
            1 <= i < self.trajectory@.len() ==> self.trajectory@[i - 1].time < (
            #[trigger] self.trajectory@[i]).time
    }

    pub fn new(robot: Robot<S>, traj: Vec<Waypoint>) -> (r: IKLink<S>)
        ensures
            r.robot == robot,
            r.trajectory == traj,
            r.table@.len() == 0,
            r.reach_attempt_cap == DEFAULT_REACH_ATTEMPTS,
    {
        IKLink { robot, trajectory: traj, table: Vec::new(), reach_attempt_cap: DEFAULT_REACH_ATTEMPTS }
    }

    /// Builds the candidate table: per waypoint, in order, cluster the pool
    /// propagated from earlier waypoints into seed candidates, then fill up
    /// to the quota with random reach attempts, greedily tracking each
    /// success forward through the remaining waypoints into their pools.
    pub fn sample_candidates(&mut self)
        requires
            old(self).wf(),
        ensures
            final(self).wf(),
            final(self).trajectory == old(self).trajectory,
            old(self).robot.same_model(final(self).robot),
            final(self).reach_attempt_cap == old(self).reach_attempt_cap,
            table_shape(
                final(self).robot.arm_num_dofs as int,
                final(self).trajectory@,
                final(self).table@,
            ),
            forall|x: int|
                0 <= x < final(self).table@.len() ==> (#[trigger] final(self).table@[x])@.len()
                    <= QUOTA,
            forall|x: int|
                0 <= x < final(self).table@.len() ==> col_fresh(
                    (#[trigger] final(self).table@[x])@,
                ),
    {
        let n = self.trajectory.len();
        let dofs = self.robot.arm_num_dofs;
        let mut tmp: Vec<Vec<Vec<i64>>> = Vec::new();
        let mut k: usize = 0;
        while k < n
            invariant
                k <= n,
                tmp@.len() == k,
                forall|x: int| 0 <= x < k ==> (#[trigger] tmp@[x])@.len() == 0,
            decreases n - k,
        {
            tmp.push(Vec::new());
            k += 1;
        }
        let mut table: Vec<Vec<Node>> = Vec::new();
        let mut i: usize = 0;
        while i < n
            invariant
                i <= n == self.trajectory@.len(),
                self.wf(),
                old(self).robot.same_model(self.robot),
                self.trajectory == old(self).trajectory,
                self.reach_attempt_cap == old(self).reach_attempt_cap,
                self.robot.arm_num_dofs == dofs,
                tmp@.len() == n,
                table@.len() == i,
                forall|x: int| 0 <= x < n ==> pool_ok(dofs as int, (#[trigger] tmp@[x])@),
                forall|x: int| 0 <= x < i ==> col_ok(dofs as int, (#[trigger] table@[x])@),
                forall|x: int| 0 <= x < i ==> (#[trigger] table@[x])@.len() <= QUOTA,
                forall|x: int| 0 <= x < i ==> col_fresh((#[trigger] table@[x])@),
            decreases n - i,
        {
            proof {
                assert forall|t: int| 0 <= t < tmp@[i as int]@.len()
                    implies (#[trigger] tmp@[i as int]@[t])@.len() == dofs by {
                    assert(config_ok(dofs as int, tmp@[i as int]@[t]@));
                }
                assert forall|t: int, c: int|
                    0 <= t < tmp@[i as int]@.len() && 0 <= c < dofs
                    implies crate::num::abs_val(
                        ((#[trigger] tmp@[i as int]@[t]@[c])) as int,
                    ) <= crate::num::MAX_JOINT by {
                    assert(config_ok(dofs as int, tmp@[i as int]@[t]@));
                }
            }
            let reps = cluster_representatives(&tmp[i], dofs);
            let mut col: Vec<Node> = Vec::new();
            let mut t: usize = 0;
            while t < reps.len() && col.len() < QUOTA
                invariant
                    t <= reps@.len(),
                    col@.len() == t,
                    col@.len() <= QUOTA,
                    col_fresh(col@),
                    forall|u: int| 0 <= u < reps@.len() ==> is_pool_member(
                        tmp@[i as int].deep_view(),
                        (#[trigger] reps@[u])@,
                    ),
                    pool_ok(dofs as int, tmp@[i as int]@),
                    col_ok(dofs as int, col@),
                decreases reps@.len() - t,
            {
                proof {
                    let pts = tmp@[i as int].deep_view();
                    assert(is_pool_member(pts, reps@[t as int]@));
                    let kw = choose|kk: int|
                        0 <= kk < pts.len() && reps@[t as int]@ == #[trigger] pts[kk];
                    assert(pts[kw] == tmp@[i as int]@[kw]@);
                    assert(config_ok(dofs as int, reps@[t as int]@));
                }
                col.push(Node::new(clone_config(&reps[t])));
                t += 1;
            }
            let mut attempts: usize = 0;
            while col.len() < QUOTA && attempts < self.reach_attempt_cap
                invariant
                    self.wf(),
                    old(self).robot.same_model(self.robot),
                    self.trajectory == old(self).trajectory,
                    self.reach_attempt_cap == old(self).reach_attempt_cap,
                    self.robot.arm_num_dofs == dofs,
                    i < n == self.trajectory@.len(),
                    tmp@.len() == n,
                    forall|x: int| 0 <= x < n ==> pool_ok(dofs as int, (#[trigger] tmp@[x])@),
                    col_ok(dofs as int, col@),
                    col@.len() <= QUOTA,
                    col_fresh(col@),
                    attempts <= self.reach_attempt_cap,
                decreases QUOTA + self.reach_attempt_cap - col@.len() - attempts,
            {
                let wp = self.trajectory[i];
                let (found, ik) = self.robot.try_to_reach(&wp.position, &wp.orientation);
                if found {
                    col.push(Node::new(ik));
                    let mut r: usize = i;
                    while r < n
                        invariant
                            i <= r <= n,
                            self.wf(),
                            old(self).robot.same_model(self.robot),
                            self.trajectory == old(self).trajectory,
                            self.reach_attempt_cap == old(self).reach_attempt_cap,
                            self.robot.arm_num_dofs == dofs,
                            n == self.trajectory@.len(),
                            tmp@.len() == n,
                            forall|x: int| 0 <= x < n ==> pool_ok(
                                dofs as int,
                                (#[trigger] tmp@[x])@,
                            ),
                        decreases n - r,
                    {
                        let wpr = self.trajectory[r];
                        let (found2, ik2) = self.robot.try_to_track(&wpr.position, &wpr.orientation);
                        if !found2 {
                            break;
                        }
                        tmp[r].push(ik2);
                        r += 1;
                    }
                } else {
                    attempts += 1;
                }
            }
            table.push(col);
            i += 1;
        }
        self.table = table;
    }
}

/// Copy of a name list, elementwise.
fn clone_names(v: &Vec<String>) -> (r: Vec<String>)
    ensures
        r@ == v@,
{
    let mut r: Vec<String> = Vec::new();
    let mut i: usize = 0;
    while i < v.len()
        invariant
            i <= v@.len(),
            r@ == v@.take(i as int),
        decreases v@.len() - i,
    {
        r.push(v[i].clone());
        proof {
            assert(r@ =~= v@.take(i + 1));
        }
        i += 1;
    }
    proof {
        assert(v@.take(v@.len() as int) =~= v@);
    }
    r
}

impl<S: OptimizationEngine> IKLink<S> {
    /// The linking pass: scores every candidate bottom-up under the
    /// two-level objective, then backtraces the optimal path into a Motion.
    /// Succeeds iff some candidate of the last waypoint is reached; fails
    /// with `NoFeasiblePath` otherwise. The candidate configurations are
    /// left untouched; only scores and predecessor links change, so the
    /// pass can be re-run over a frozen table.
    /// The forward scoring pass: initializes the first column at zero cost
    /// and links every later column against its finished predecessor.
    #[verifier::rlimit(100)]
    fn link_columns(&mut self)
        requires
            old(self).wf(),
            table_shape(
                old(self).robot.arm_num_dofs as int,
                old(self).trajectory@,
                old(self).table@,
            ),
            old(self).trajectory@.len() >= 1,
        ensures
            final(self).wf(),
            final(self).trajectory == old(self).trajectory,
            final(self).robot == old(self).robot,
            final(self).reach_attempt_cap == old(self).reach_attempt_cap,
            table_shape(
                final(self).robot.arm_num_dofs as int,
                final(self).trajectory@,
                final(self).table@,
            ),
            final(self).table@.len() == old(self).table@.len(),
            forall|x: int|
                0 <= x < old(self).table@.len() ==> (#[trigger] final(self).table@[x])@.len()
                    == old(self).table@[x]@.len(),
            forall|x: int, y: int|
                0 <= x < old(self).table@.len() && 0 <= y < old(self).table@[x]@.len() ==> (
                #[trigger] final(self).table@[x]@[y]).ik@ == old(self).table@[x]@[y].ik@,
            dp_table_post(
                final(self).trajectory@,
                final(self).robot.kinematics.joint_velocity_limits@,
                final(self).table@,
            ),
    {
        let n = self.trajectory.len();
        let dofs = self.robot.arm_num_dofs;
        let ghost t0 = old(self).table@;
        let col0 = init_column(&self.table[0], dofs);
        self.table.set(0, col0);
        let mut x: usize = 1;
        while x < n
            invariant
                1 <= x <= n,
                self.wf(),
                self.robot == old(self).robot,
                self.trajectory == old(self).trajectory,
                self.reach_attempt_cap == old(self).reach_attempt_cap,
                self.robot.arm_num_dofs == dofs,
                n == self.trajectory@.len(),
                self.table@.len() == n == t0.len(),
                forall|x2: int|
                    0 <= x2 < n ==> (#[trigger] self.table@[x2])@.len() == t0[x2]@.len(),
                forall|x2: int, y: int|
                    0 <= x2 < n && 0 <= y < t0[x2]@.len() ==> (
                    #[trigger] self.table@[x2]@[y]).ik@ == t0[x2]@[y].ik@,
                table_shape(dofs as int, self.trajectory@, self.table@),
                forall|y: int|
                    0 <= y < self.table@[0]@.len() ==> (#[trigger] self.table@[0]@[y]).score == (
                    Score::Reached { primary: 0, secondary: 0 }) && self.table@[0]@[y].predecessor
                        == 0,
                forall|x2: int, y: int|
                    1 <= x2 < x && 0 <= y < self.table@[x2]@.len() ==> node_post(
                        (#[trigger] self.table@[x2]@[y]).ik@,
                        self.table@[x2 - 1]@,
                        self.robot.kinematics.joint_velocity_limits@,
                        dt_of(self.trajectory@, x2),
                        self.table@[x2]@[y],
                    ),
                forall|x2: int|
                    0 <= x2 < x ==> col_scores_ok((#[trigger] self.table@[x2])@, x2),
            decreases n - x,
        {
            proof {
                assert(waypoint_ok(self.trajectory@[x as int]));
                assert(waypoint_ok(self.trajectory@[x - 1]));
            }
            let dt = self.trajectory[x].time - self.trajectory[x - 1].time;
            let newcol = dp_column(
                &self.robot.kinematics.joint_velocity_limits,
                &self.table[x - 1],
                &self.table[x],
                dt,
                x,
                dofs,
            );
            self.table.set(x, newcol);
            x += 1;
        }
    }

    pub fn dp(&mut self) -> (r: Result<Motion, LinkError>)
        requires
            old(self).wf(),
            table_shape(
                old(self).robot.arm_num_dofs as int,
                old(self).trajectory@,
                old(self).table@,
            ),
            old(self).trajectory@.len() >= 1,
        ensures
            final(self).wf(),
            final(self).trajectory == old(self).trajectory,
            final(self).robot == old(self).robot,
            final(self).reach_attempt_cap == old(self).reach_attempt_cap,
            table_shape(
                final(self).robot.arm_num_dofs as int,
                final(self).trajectory@,
                final(self).table@,
            ),
            final(self).table@.len() == old(self).table@.len(),
            forall|x: int|
                0 <= x < old(self).table@.len() ==> (#[trigger] final(self).table@[x])@.len()
                    == old(self).table@[x]@.len(),
            forall|x: int, y: int|
                0 <= x < old(self).table@.len() && 0 <= y < old(self).table@[x]@.len() ==> (
                #[trigger] final(self).table@[x]@[y]).ik@ == old(self).table@[x]@[y].ik@,
            dp_table_post(
                final(self).trajectory@,
                final(self).robot.kinematics.joint_velocity_limits@,
                final(self).table@,
            ),
            r is Ok <==> col_has_reached(
                final(self).table@[final(self).table@.len() - 1]@,
            ),
            r is Ok ==> {
                let m = r->Ok_0;
                &&& m.robot_name@ == final(self).robot.robot_name@
                &&& m.joint_names@ == final(self).robot.kinematics.joint_names@
                &&& m.data@.len() == final(self).trajectory@.len()
                &&& forall|i: int|
                    0 <= i < m.data@.len()
                        ==> (#[trigger] m.data@[i]).0 == final(self).trajectory@[i].time
                &&& linked_motion(final(self).table@, m)
            },
            r is Err ==> r == Result::<Motion, LinkError>::Err(LinkError::NoFeasiblePath),
    {
        let n = self.trajectory.len();
        self.link_columns();
        let (best, best_idx) = best_of_column(&self.table[n - 1]);
        match best {
            Score::Unreached => {
                proof {
                    if col_has_reached(self.table@[n - 1]@) {
                        let yw = choose|y2: int|
                            0 <= y2 < self.table@[n - 1]@.len() && (
                            #[trigger] self.table@[n - 1]@[y2]).score is Reached;
                    }
                }
                return Result::Err(LinkError::NoFeasiblePath);
            },
            Score::Reached { .. } => {},
        }
        proof {
            assert(col_has_reached(self.table@[n - 1]@)) by {
                assert(self.table@[n - 1]@[best_idx as int].score is Reached);
            }
        }
        let m = self.backtrace(best_idx);
        Result::Ok(m)
    }

    /// Backtraces the optimal path from `best_idx` at the last waypoint down
    /// to the first, then emits the motion in increasing time order.
    #[verifier::rlimit(100)]
    fn backtrace(&self, best_idx: usize) -> (m: Motion)
        requires
            self.wf(),
            self.trajectory@.len() >= 1,
            self.table@.len() == self.trajectory@.len(),
            dp_table_post(
                self.trajectory@,
                self.robot.kinematics.joint_velocity_limits@,
                self.table@,
            ),
            best_idx < self.table@[self.table@.len() - 1]@.len(),
            self.table@[self.table@.len() - 1]@[best_idx as int].score is Reached,
            forall|y2: int|
                0 <= y2 < self.table@[self.table@.len() - 1]@.len() ==> lex_le(
                    sv(self.table@[self.table@.len() - 1]@[best_idx as int].score),
                    sv((#[trigger] self.table@[self.table@.len() - 1]@[y2]).score),
                ),
        ensures
            m.robot_name@ == self.robot.robot_name@,
            m.joint_names@ == self.robot.kinematics.joint_names@,
            m.data@.len() == self.trajectory@.len(),
            forall|i: int|
                0 <= i < m.data@.len() ==> (#[trigger] m.data@[i]).0 == self.trajectory@[i].time,
            linked_motion(self.table@, m),
    {
        let n = self.trajectory.len();
        // backtrace: collect indices from the last waypoint to the first
        let mut idxs: Vec<usize> = Vec::new();
        let mut idx: usize = best_idx;
        let mut i: usize = n;
        while i > 0
            invariant
                i <= n == self.table@.len(),
                idxs@.len() == n - i,
                i > 0 ==> idx < self.table@[i - 1]@.len() && self.table@[i - 1]@[
                    idx as int
                ].score is Reached,
                forall|k: int|
                    0 <= k < idxs@.len() ==> 0 <= ((#[trigger] idxs@[k]) as int)
                        && ((idxs@[k]) as int) < self.table@[n - 1 - k]@.len(),
                forall|k: int|
                    0 <= k < idxs@.len() ==> (self.table@[n - 1 - k]@[
                        (#[trigger] idxs@[k]) as int
                    ]).score is Reached,
                forall|k: int|
                    1 <= k < idxs@.len() ==> (#[trigger] idxs@[k]) as int == self.table@[n - k]@[
                        idxs@[k - 1] as int
                    ].predecessor as int,
                idxs@.len() == 0 ==> i == n && idx == best_idx,
                idxs@.len() > 0 ==> idxs@[0] == best_idx,
                i > 0 && idxs@.len() > 0 ==> idx == self.table@[i as int]@[
                    idxs@[idxs@.len() - 1] as int
                ].predecessor,
            decreases i,
        {
            i -= 1;
            idxs.push(idx);
            if i > 0 {
                let ghost nd = self.table@[i as int]@[idx as int];
                proof {
                    assert(node_post(
                        nd.ik@,
                        self.table@[i - 1]@,
                        self.robot.kinematics.joint_velocity_limits@,
                        dt_of(self.trajectory@, i as int),
                        nd,
                    ));
                    assert(nd.score is Reached);
                    assert(self.table@[i - 1]@[nd.predecessor as int].score is Reached) by {
                        let s = sv(nd.score);
                        let j = nd.predecessor as int;
                        if s == bump1(sv(self.table@[i - 1]@[j].score)) {
                        } else {
                        }
                    }
                }
                idx = self.table[i][idx].predecessor;
            }
        }
        // emit the motion in increasing time order
        let mut data: Vec<(i64, Vec<i64>)> = Vec::new();
        let mut i2: usize = 0;
        while i2 < n
            invariant
                i2 <= n == self.table@.len() == self.trajectory@.len(),
                idxs@.len() == n,
                data@.len() == i2,
                forall|k: int|
                    0 <= k < n ==> 0 <= ((#[trigger] idxs@[k]) as int)
                        && ((idxs@[k]) as int) < self.table@[n - 1 - k]@.len(),
                forall|t: int|
                    0 <= t < i2 ==> (#[trigger] data@[t]).0 == self.trajectory@[t].time,
                forall|t: int|
                    0 <= t < i2 ==> (#[trigger] data@[t]).1@ == self.table@[t]@[
                        idxs@[n - 1 - t] as int
                    ].ik@,
            decreases n - i2,
        {
            let j = idxs[n - 1 - i2];
            let cfg = clone_config(&self.table[i2][j].ik);
            data.push((self.trajectory[i2].time, cfg));
            i2 += 1;
        }
        let robot_name = self.robot.robot_name.clone();
        let joint_names = clone_names(&self.robot.kinematics.joint_names);
        let m = Motion { robot_name, joint_names, data };
        proof {
            let tb = self.table@;
            let path = Seq::new(n as nat, |q: int| idxs@[n - 1 - q] as int);
            assert forall|q: int| 0 <= q < n implies 0 <= #[trigger] path[q] < tb[q]@.len() by {
                assert(((idxs@[n - 1 - q]) as int) < tb[n - 1 - (n - 1 - q)]@.len());
            }
            assert forall|q: int| 0 <= q < n implies (#[trigger] m.data@[q]).1@ == tb[q]@[
                path[q]
            ].ik@ by {}
            assert forall|q: int| 1 <= q < n implies #[trigger] path[q - 1] == tb[q]@[
                path[q]
            ].predecessor as int by {
                assert((idxs@[n - q]) as int == tb[q]@[idxs@[n - q - 1] as int].predecessor as int);
            }
            assert(path[n - 1] == best_idx as int);
            assert(path_ok(path, tb, m));
            assert(linked_motion(tb, m));
        }
        m
    }

    /// Samples the candidate table, then links it: the full pipeline from
    /// waypoints to a joint-space motion. On success the motion has exactly
    /// one entry per waypoint, in the input's (strictly increasing) time
    /// order, each carrying a sampled candidate configuration of its
    /// waypoint, backtraced along optimal predecessor links.
    pub fn solve(&mut self) -> (r: Result<Motion, LinkError>)
        requires
            old(self).wf(),
            old(self).trajectory@.len() >= 1,
        ensures
            final(self).wf(),
            final(self).trajectory == old(self).trajectory,
            old(self).robot.same_model(final(self).robot),
            table_shape(
                final(self).robot.arm_num_dofs as int,
                final(self).trajectory@,
                final(self).table@,
            ),
            dp_table_post(
                final(self).trajectory@,
                final(self).robot.kinematics.joint_velocity_limits@,
                final(self).table@,
            ),
            r is Ok <==> col_has_reached(
                final(self).table@[final(self).table@.len() - 1]@,
            ),
            r is Ok ==> {
                let m = r->Ok_0;
                &&& m.robot_name@ == final(self).robot.robot_name@
                &&& m.joint_names@ == final(self).robot.kinematics.joint_names@
                &&& m.data@.len() == final(self).trajectory@.len()
                &&& forall|i: int|
                    0 <= i < m.data@.len()
                        ==> (#[trigger] m.data@[i]).0 == final(self).trajectory@[i].time
                &&& linked_motion(final(self).table@, m)
            },
            r is Err ==> r == Result::<Motion, LinkError>::Err(LinkError::NoFeasiblePath),
    {
        self.sample_candidates();
        self.dp()
    }
}

/// A reconfiguration edge between linked candidates: the primary cost grows
/// by exactly one and the secondary cost is kept.
pub open spec fn reconfig_edge(a: Node, b: Node) -> bool {
    match (sv(a.score), sv(b.score)) {
        (Option::Some(av), Option::Some(bv)) => av.0 == bv.0 + 1 && av.1 == bv.1,
        _ => false,
    }
}

/// A continuous edge between linked candidates: the step is velocity
/// feasible, the primary cost is inherited unchanged, and the secondary
/// cost grows by the joint-space step distance.
pub open spec fn continuous_edge(a: Node, b: Node, vel: Seq<i64>, dt: i64) -> bool {
    &&& vel_ok(a.ik@, b.ik@, vel, dt)
    &&& match (sv(a.score), sv(b.score)) {
        (Option::Some(av), Option::Some(bv)) => av.0 == bv.0 && av.1 == bv.1 + dist_of(
            a.ik@,
            b.ik@,
        ),
        _ => false,
    }
}

/// Every candidate on the backtraced path is reached.
pub proof fn lemma_path_reached(
    traj: Seq<Waypoint>,
    vel: Seq<i64>,
    table: Seq<Vec<Node>>,
    path: Seq<int>,
    m: Motion,
    i: int,
)
    requires
        dp_table_post(traj, vel, table),
        path_ok(path, table, m),
        table.len() > 0,
        0 <= i < path.len(),
    ensures
        table[i]@[path[i]].score is Reached,
    decreases path.len() - i,
{
    if i == path.len() - 1 {
    } else {
        lemma_path_reached(traj, vel, table, path, m, i + 1);
        let nd = table[i + 1]@[path[i + 1]];
        assert(node_post(nd.ik@, table[i]@, vel, dt_of(traj, i + 1), nd));
        assert(path[i] == nd.predecessor as int);
        let s = sv(nd.score);
        if s == bump1(sv(table[i]@[nd.predecessor as int].score)) {
        } else {
        }
    }
}

/// Law: along the backtraced path, adjacent motion entries are linked
/// either by a continuous edge (velocity-feasible at that step's time
/// delta, primary cost inherited unchanged, secondary cost extended by the
/// step distance) or by a reconfiguration edge (primary cost larger by
/// exactly one, secondary cost kept).
pub proof fn lemma_path_edges(
    traj: Seq<Waypoint>,
    vel: Seq<i64>,
    table: Seq<Vec<Node>>,
    path: Seq<int>,
    m: Motion,
    i: int,
)
    requires
        dp_table_post(traj, vel, table),
        path_ok(path, table, m),
        table.len() > 0,
        1 <= i < path.len(),
    ensures
        reconfig_edge(table[i]@[path[i]], table[i - 1]@[path[i - 1]]) || continuous_edge(
            table[i]@[path[i]],
            table[i - 1]@[path[i - 1]],
            vel,
            dt_of(traj, i),
        ),
{
    lemma_path_reached(traj, vel, table, path, m, i);
    lemma_path_reached(traj, vel, table, path, m, i - 1);
    let nd = table[i]@[path[i]];
    let pd = table[i - 1]@[path[i - 1]];
    assert(node_post(nd.ik@, table[i - 1]@, vel, dt_of(traj, i), nd));
    assert(path[i - 1] == nd.predecessor as int);
    let s = sv(nd.score);
    if s == bump1(sv(pd.score)) {
        assert(reconfig_edge(nd, pd));
    } else {
        assert(s == cont_val(nd.ik@, table[i - 1]@, nd.predecessor as int, vel, dt_of(traj, i)));
        assert(continuous_edge(nd, pd, vel, dt_of(traj, i)));
    }
}

/// Law: the linking relation determines every score uniquely, so re-running
/// the linking pass over a frozen candidate table reproduces each
/// primary/secondary cost exactly.
pub proof fn lemma_scores_deterministic(
    ik: Seq<i64>,
    prev: Seq<Node>,
    vel: Seq<i64>,
    dt: i64,
    n1: Node,
    n2: Node,
)
    requires
        node_post(ik, prev, vel, dt, n1),
        node_post(ik, prev, vel, dt, n2),
    ensures
        n1.score == n2.score,
{
    let s1 = sv(n1.score);
    let s2 = sv(n2.score);
    let j1 = n1.predecessor as int;
    let j2 = n2.predecessor as int;
    if n1.score is Reached && n2.score is Unreached {
        if s1 == bump1(sv(prev[j1].score)) {
            assert(lex_le(s2, bump1(sv(prev[j1].score))));
        } else {
            assert(p_le(s2, cont_val(ik, prev, j1, vel, dt)));
        }
    } else if n1.score is Unreached && n2.score is Reached {
        if s2 == bump1(sv(prev[j2].score)) {
            assert(lex_le(s1, bump1(sv(prev[j2].score))));
        } else {
            assert(p_le(s1, cont_val(ik, prev, j2, vel, dt)));
        }
    } else if n1.score is Reached && n2.score is Reached {
        let b1 = s1 == bump1(sv(prev[j1].score));
        let b2 = s2 == bump1(sv(prev[j2].score));
        if b1 && b2 {
            assert(lex_le(s1, bump1(sv(prev[j2].score))));
            assert(lex_le(s2, bump1(sv(prev[j1].score))));
        } else if b1 && !b2 {
            assert(p_lt(s2, bump1(sv(prev[j1].score))));
            assert(p_le(s1, cont_val(ik, prev, j2, vel, dt)));
        } else if !b1 && b2 {
            assert(p_lt(s1, bump1(sv(prev[j2].score))));
            assert(p_le(s2, cont_val(ik, prev, j1, vel, dt)));
        } else {
            assert(lex_le(s1, cont_val(ik, prev, j2, vel, dt)));
            assert(lex_le(s2, cont_val(ik, prev, j1, vel, dt)));
        }
    }
}

} // verus!
