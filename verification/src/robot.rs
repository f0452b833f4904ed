//! The robot session: kinematics model, solver session, random restarts, and
//! the reach/track/feasibility queries the sampler and linker use.

use vstd::prelude::*;
use rand::RngExt;
use crate::num::{
    MAX_DOF, MAX_JOINT, MAX_TIME, MAX_DIST, SCALE, abs_val, sq, sq_dist, sqrt_floor, isqrt,
    lemma_sq_dist_bound, lemma_sqrt_floor_le_max, lemma_sq_dist_nonneg,
};
use crate::pose::{Vec3, Quat, vec3_ok, quat_ok, pose_matches, POS_TOL_SQ, ANG_DOT_MIN};
use crate::robot_kinematics::{RobotKinematics, JointKind, ModelError, config_ok, vel_ok};
use crate::relaxed_ik::{RelaxedIK, OptimizationEngine, clone_config};

verus! {

/// One half turn in ticks (pi, rounded up): continuous joints are reseeded
/// uniformly over `[-PI_TICKS, PI_TICKS)`.
pub const PI_TICKS: i64 = 3_141_593;

#[verifier::external_type_specification]
#[verifier::external_body]
pub struct ExThreadRng(rand::rngs::ThreadRng);

/// Relies on rand::rng: a handle to the thread-local generator.
#[verifier::external_body]
pub fn fresh_rng() -> rand::rngs::ThreadRng {
    rand::rng()
}

/// Relies on rand::Rng::random_range over a non-empty inclusive `i64` range:
/// the draw lies within the range.
#[verifier::external_body]
pub fn random_in_range(rng: &mut rand::rngs::ThreadRng, lo: i64, hi: i64) -> (r: i64)
    requires
        lo <= hi,
    ensures
        lo <= r <= hi,
{
    rng.random_range(lo..=hi)
}

/// A robot with one kinematic chain, its solver session, and a random source
/// for restart seeding. Never share one instance across concurrent samplers.
pub struct Robot<S> {
    pub robot_name: String,
    pub kinematics: RobotKinematics,
    pub ik_solver: RelaxedIK<S>,
    pub rng: rand::rngs::ThreadRng,
    pub arm_num_dofs: usize,
}

impl<S: OptimizationEngine> Robot<S> {
    pub open spec fn wf(self) -> bool {
        &&& self.kinematics.wf()
        &&& self.arm_num_dofs == self.kinematics.num_dofs
        &&& self.ik_solver.num_dofs == self.arm_num_dofs
        &&& self.ik_solver.wf()
    }

    /// The parts of a robot that reach and track queries never change.
    pub open spec fn same_model(self, other: Robot<S>) -> bool {
        &&& self.robot_name == other.robot_name
        &&& self.kinematics == other.kinematics
        &&& self.arm_num_dofs == other.arm_num_dofs
    }

    /// Builds the robot around a kinematics model; fails on a model the
    /// linking engine cannot drive (more than one chain, or one that does
    /// not satisfy its own invariant).
    pub fn new(robot_name: String, kinematics: RobotKinematics, engine: S) -> (r: Result<
        Robot<S>,
        ModelError,
    >)
        requires
            kinematics.wf(),
        ensures
            r is Ok,
            r->Ok_0.wf(),
            r->Ok_0.kinematics == kinematics,
            r->Ok_0.robot_name == robot_name,
    {
        let arm_num_dofs = kinematics.num_dofs;
        let ik_solver = RelaxedIK::new(engine, arm_num_dofs);
        Result::Ok(Robot { robot_name, kinematics, ik_solver, rng: fresh_rng(), arm_num_dofs })
    }

    /// Draws a fresh configuration: uniform over one turn for continuous
    /// joints, uniform over the position limits for bounded joints.
    pub fn get_random_arm_config(&mut self) -> (c: Vec<i64>)
        requires
            old(self).wf(),
        ensures
            final(self).wf(),
            old(self).same_model(*final(self)),
            final(self).ik_solver == old(self).ik_solver,
            config_ok(final(self).arm_num_dofs as int, c@),
            forall|k: int|
                0 <= k < c@.len() && old(self).kinematics.joint_types@[k] is Continuous
                    ==> -PI_TICKS <= #[trigger] c@[k] < PI_TICKS,
            forall|k: int|
                0 <= k < c@.len() && old(self).kinematics.joint_types@[k] is Bounded
                    ==> old(self).kinematics.lower_joint_limits@[k] <= #[trigger] c@[k]
                        <= old(self).kinematics.upper_joint_limits@[k],
    {
        let mut c: Vec<i64> = Vec::new();
        let mut i: usize = 0;
        while i < self.arm_num_dofs
            invariant
                self.wf(),
                old(self).same_model(*self),
                self.ik_solver == old(self).ik_solver,
                i <= self.arm_num_dofs,
                c@.len() == i,
                forall|k: int| 0 <= k < i ==> abs_val((#[trigger] c@[k]) as int) <= MAX_JOINT,
                forall|k: int|
                    0 <= k < i && self.kinematics.joint_types@[k] is Continuous
                        ==> -PI_TICKS <= #[trigger] c@[k] < PI_TICKS,
                forall|k: int|
                    0 <= k < i && self.kinematics.joint_types@[k] is Bounded
                        ==> self.kinematics.lower_joint_limits@[k] <= #[trigger] c@[k]
                            <= self.kinematics.upper_joint_limits@[k],
            decreases self.arm_num_dofs - i,
        {
            let v = match self.kinematics.joint_types[i] {
                JointKind::Continuous => random_in_range(&mut self.rng, -PI_TICKS, PI_TICKS - 1),
                JointKind::Bounded => random_in_range(
                    &mut self.rng,
                    self.kinematics.lower_joint_limits[i],
                    self.kinematics.upper_joint_limits[i],
                ),
            };
            c.push(v);
            i += 1;
        }
        c
    }

    /// End-effector pose at `config`, as the engine's forward kinematics
    /// reports it.
    pub fn fk(&self, config: &Vec<i64>) -> (Vec3, Quat) {
        self.ik_solver.engine.fk(config)
    }

    /// Re-evaluates `config` through forward kinematics and decides whether
    /// the resulting pose matches the target within tolerance. A pose the
    /// engine reports out of numeric range never matches.
    pub fn check_pose(&self, config: &Vec<i64>, pos: &Vec3, quat: &Quat) -> (r: bool)
        requires
            vec3_ok(*pos),
            quat_ok(*quat),
    {
        let (p, q) = self.fk(config);
        if !vec3_in_range(&p) || !quat_in_range(&q) {
            return false;
        }
        pose_matches(&p, &q, pos, quat)
    }

    /// Reseeds the solver session to a random configuration.
    pub fn reset_random(&mut self)
        requires
            old(self).wf(),
        ensures
            final(self).wf(),
            old(self).same_model(*final(self)),
    {
        let config = self.get_random_arm_config();
        self.ik_solver.reset(config);
    }

    /// One "reach" query: reseed to a random restart, solve unconstrained,
    /// and accept the result only if the pose matches. Failure reports an
    /// empty configuration.
    pub fn try_to_reach(&mut self, pos: &Vec3, quat: &Quat) -> (r: (bool, Vec<i64>))
        requires
            old(self).wf(),
            vec3_ok(*pos),
            quat_ok(*quat),
        ensures
            final(self).wf(),
            old(self).same_model(*final(self)),
            r.0 ==> config_ok(final(self).arm_num_dofs as int, r.1@),
            r.0 ==> final(self).ik_solver.xopt@ == r.1@,
            !r.0 ==> r.1@.len() == 0,
    {
        self.reset_random();
        let config = self.ik_solver.solve(pos, quat, false);
        if self.check_pose(&config, pos, quat) {
            (true, config)
        } else {
            (false, Vec::new())
        }
    }

    /// One "track" query: solve from the current session state under the
    /// continuity constraint, accepting only a matching pose. On success the
    /// session state advances to the returned configuration; on failure it
    /// keeps its previous value.
    pub fn try_to_track(&mut self, pos: &Vec3, quat: &Quat) -> (r: (bool, Vec<i64>))
        requires
            old(self).wf(),
            vec3_ok(*pos),
            quat_ok(*quat),
        ensures
            final(self).wf(),
            old(self).same_model(*final(self)),
            r.0 ==> config_ok(final(self).arm_num_dofs as int, r.1@),
            r.0 ==> final(self).ik_solver.xopt@ == r.1@,
            !r.0 ==> r.1@.len() == 0,
            !r.0 ==> final(self).ik_solver.xopt@ == old(self).ik_solver.xopt@,
    {
        let previous = clone_config(&self.ik_solver.xopt);
        let config = self.ik_solver.solve(pos, quat, true);
        if self.check_pose(&config, pos, quat) {
            (true, config)
        } else {
            self.ik_solver.restore(previous);
            (false, Vec::new())
        }
    }

    /// Decides per-joint velocity feasibility of moving from `prev_config`
    /// to `config` in `delta_t` ticks of time.
    pub fn check_velocity(&self, config: &Vec<i64>, prev_config: &Vec<i64>, delta_t: i64) -> (r:
        bool)
        requires
            self.wf(),
            config_ok(self.arm_num_dofs as int, config@),
            config_ok(self.arm_num_dofs as int, prev_config@),
            0 <= delta_t <= 2 * MAX_TIME,
        ensures
            r == vel_ok(config@, prev_config@, self.kinematics.joint_velocity_limits@, delta_t),
    {
        velocity_feasible(config, prev_config, &self.kinematics.joint_velocity_limits, delta_t)
    }

    /// Euclidean joint-space distance of two configurations, rounded down.
    pub fn joint_movement(&self, config1: &Vec<i64>, config2: &Vec<i64>) -> (d: u64)
        requires
            self.wf(),
            config_ok(self.arm_num_dofs as int, config1@),
            config_ok(self.arm_num_dofs as int, config2@),
        ensures
            d == sqrt_floor(sq_dist(config1@, config2@)),
            d <= MAX_DIST,
    {
        joint_dist(config1, config2)
    }
}

/// Decides [`vel_ok`]. The comparison `|a_i - b_i| <= vel_i * dt` is made
/// exactly, in 128-bit arithmetic after scaling the left side.
pub fn velocity_feasible(a: &Vec<i64>, b: &Vec<i64>, vel: &Vec<i64>, delta_t: i64) -> (r: bool)
    requires
        a@.len() == b@.len(),
        a@.len() <= vel@.len(),
        forall|i: int| 0 <= i < a@.len() ==> abs_val((#[trigger] a@[i]) as int) <= MAX_JOINT,
        forall|i: int| 0 <= i < b@.len() ==> abs_val((#[trigger] b@[i]) as int) <= MAX_JOINT,
        delta_t >= 0,
    ensures
        r == vel_ok(a@, b@, vel@, delta_t),
{
    let mut i: usize = 0;
    while i < a.len()
        invariant
            i <= a@.len(),
            forall|k: int| 0 <= k < i
                ==> SCALE * abs_val((#[trigger] a@[k]) as int - b@[k] as int)
                    <= (vel@[k] as int) * (delta_t as int),
        decreases a@.len() - i,
    {
        let diff = a[i] - b[i];
        let ad: i64 = if diff < 0 { -diff } else { diff };
        proof {
            assert(0 <= (SCALE as int) * (ad as int) <= 200_000_000_000_000) by (nonlinear_arith)
                requires
                    0 <= ad <= 200_000_000,
            {
            }
            assert(-85070591730234615865843651857942052864
                <= (vel@[i as int] as int) * (delta_t as int)
                <= 85070591730234615865843651857942052864) by (nonlinear_arith)
                requires
                    -9223372036854775808 <= vel@[i as int] <= 9223372036854775807,
                    0 <= delta_t <= 9223372036854775807,
            {
            }
        }
        let lhs: i128 = (SCALE as i128) * (ad as i128);
        let rhs: i128 = (vel[i] as i128) * (delta_t as i128);
        if lhs > rhs {
            return false;
        }
        i += 1;
    }
    true
}

/// Sum of squared componentwise differences of two in-range configurations.
pub fn sq_dist_val(a: &Vec<i64>, b: &Vec<i64>) -> (s: u64)
    requires
        a@.len() == b@.len() <= MAX_DOF,
        forall|i: int| 0 <= i < a@.len() ==> abs_val((#[trigger] a@[i]) as int) <= MAX_JOINT,
        forall|i: int| 0 <= i < b@.len() ==> abs_val((#[trigger] b@[i]) as int) <= MAX_JOINT,
    ensures
        s == sq_dist(a@, b@),
{
    let mut sum: u64 = 0;
    let mut i: usize = 0;
    while i < a.len()
        invariant
            i <= a@.len(),
            sum == sq_dist(a@.take(i as int), b@.take(i as int)),
            sum <= i * 40_000_000_000_000_000,
        decreases a@.len() - i,
    {
        let diff = a[i] - b[i];
        proof {
            assert(0 <= diff * diff <= 40_000_000_000_000_000) by (nonlinear_arith)
                requires
                    -200_000_000 <= diff <= 200_000_000,
            {
            }
            assert((i + 1) * 40_000_000_000_000_000
                == i * 40_000_000_000_000_000 + 40_000_000_000_000_000) by (nonlinear_arith);
            assert((i + 1) * 40_000_000_000_000_000 <= MAX_DOF * 40_000_000_000_000_000)
                by (nonlinear_arith)
                requires
                    0 <= i + 1 <= MAX_DOF,
            {
            }
            assert(a@.take(i + 1).drop_last() =~= a@.take(i as int));
            assert(b@.take(i + 1).drop_last() =~= b@.take(i as int));
            assert(sq(diff as int) == diff * diff);
        }
        let term = (diff * diff) as u64;
        sum = sum + term;
        i += 1;
    }
    proof {
        assert(a@.take(a@.len() as int) =~= a@);
        assert(b@.take(b@.len() as int) =~= b@);
    }
    sum
}

/// Decides the floor of the Euclidean joint-space distance.
pub fn joint_dist(a: &Vec<i64>, b: &Vec<i64>) -> (d: u64)
    requires
        a@.len() == b@.len() <= MAX_DOF,
        forall|i: int| 0 <= i < a@.len() ==> abs_val((#[trigger] a@[i]) as int) <= MAX_JOINT,
        forall|i: int| 0 <= i < b@.len() ==> abs_val((#[trigger] b@[i]) as int) <= MAX_JOINT,
    ensures
        d == sqrt_floor(sq_dist(a@, b@)),
        d <= MAX_DIST,
{
    let sum = sq_dist_val(a, b);
    proof {
        lemma_sq_dist_nonneg(a@, b@);
        lemma_sq_dist_bound(a@, b@);
        lemma_sqrt_floor_le_max(sq_dist(a@, b@));
    }
    isqrt(sum)
}

/// Decides [`vec3_ok`].
pub fn vec3_in_range(v: &Vec3) -> (r: bool)
    ensures
        r == vec3_ok(*v),
{
    -100_000_000 <= v.x && v.x <= 100_000_000 && -100_000_000 <= v.y && v.y <= 100_000_000
        && -100_000_000 <= v.z && v.z <= 100_000_000
}

/// Decides [`quat_ok`].
pub fn quat_in_range(q: &Quat) -> (r: bool)
    ensures
        r == quat_ok(*q),
{
    -SCALE <= q.x && q.x <= SCALE && -SCALE <= q.y && q.y <= SCALE && -SCALE <= q.z && q.z <= SCALE
        && -SCALE <= q.w && q.w <= SCALE
}

} // verus!
