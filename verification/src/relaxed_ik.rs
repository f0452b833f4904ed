//! Session wrapper around the external pose-solving optimizer.

use vstd::prelude::*;
use crate::pose::{Vec3, Quat};
use crate::robot_kinematics::{config_ok, check_config};

verus! {

/// The gradient-based local pose solver the engine consumes as a black box.
/// An implementation maps a target pose and an initial guess to a joint
/// configuration; `None` signals a numerical failure, such as a solver
/// answering with NaN components. Nothing is assumed of a result: callers
/// validate every configuration before using it.
pub trait OptimizationEngine {
    /// Reseed the optimizer's internal state to the given configuration.
    fn reset(&mut self, x: &Vec<i64>);

    /// Run the local solver from `start` toward the target pose. With
    /// `constrain_velocity` the search must stay numerically close to
    /// `start`; without it the search is unconstrained.
    fn optimize(
        &mut self,
        start: &Vec<i64>,
        goal_pos: &Vec3,
        goal_quat: &Quat,
        constrain_velocity: bool,
        iterations: u32,
    ) -> Option<Vec<i64>>;

    /// Forward kinematics: the end-effector pose at `config`.
    fn fk(&self, config: &Vec<i64>) -> (Vec3, Quat);
}

/// Holds the solver together with its current solution, the session state
/// that "track" queries continue from.
pub struct RelaxedIK<S> {
    pub engine: S,
    pub xopt: Vec<i64>,
    pub num_dofs: usize,
}

impl<S: OptimizationEngine> RelaxedIK<S> {
    pub open spec fn wf(self) -> bool {
        config_ok(self.num_dofs as int, self.xopt@)
    }

    pub fn new(engine: S, num_dofs: usize) -> (r: RelaxedIK<S>)
        ensures
            r.wf(),
            r.num_dofs == num_dofs,
    {
        let mut xopt: Vec<i64> = Vec::new();
        let mut i: usize = 0;
        while i < num_dofs
            invariant
                i <= num_dofs,
                xopt@.len() == i,
                forall|k: int| 0 <= k < i ==> #[trigger] xopt@[k] == 0i64,
            decreases num_dofs - i,
        {
            xopt.push(0);
            i += 1;
        }
        RelaxedIK { engine, xopt, num_dofs }
    }

    /// Reseed the session to configuration `x`.
    pub fn reset(&mut self, x: Vec<i64>)
        requires
            config_ok(old(self).num_dofs as int, x@),
        ensures
            final(self).xopt == x,
            final(self).num_dofs == old(self).num_dofs,
            final(self).wf(),
    {
        self.engine.reset(&x);
        self.xopt = x;
    }

    /// Restores the session state to `x` without consulting the engine.
    pub fn restore(&mut self, x: Vec<i64>)
        requires
            config_ok(old(self).num_dofs as int, x@),
        ensures
            final(self).xopt == x,
            final(self).num_dofs == old(self).num_dofs,
            final(self).engine == old(self).engine,
            final(self).wf(),
    {
        self.xopt = x;
    }

    /// The keep-or-advance decision on a solver answer: a well-formed
    /// result becomes the session state and is returned; a failure or a
    /// malformed result keeps the old state and returns it.
    pub fn accept_solution(&mut self, result: Option<Vec<i64>>) -> (r: Vec<i64>)
        requires
            old(self).wf(),
        ensures
            final(self).wf(),
            final(self).num_dofs == old(self).num_dofs,
            final(self).engine == old(self).engine,
            r@ == final(self).xopt@,
            match result {
                Option::Some(c) => if config_ok(old(self).num_dofs as int, c@) {
                    final(self).xopt@ == c@
                } else {
                    final(self).xopt@ == old(self).xopt@
                },
                Option::None => final(self).xopt@ == old(self).xopt@,
            },
    {
        match result {
            Option::Some(c) => {
                if check_config(self.num_dofs, &c) {
                    self.xopt = c;
                }
            },
            Option::None => {},
        }
        let r = clone_config(&self.xopt);
        r
    }

    /// One solver call. What the engine answers is applied by
    /// [`Self::accept_solution`]: a failed or malformed result leaves the
    /// session state unchanged and returns the previous solution; a
    /// well-formed result advances the session state and is returned.
    pub fn solve(&mut self, goal_pos: &Vec3, goal_quat: &Quat, constrain_velocity: bool) -> (r:
        Vec<i64>)
        requires
            old(self).wf(),
        ensures
            final(self).wf(),
            final(self).num_dofs == old(self).num_dofs,
            r@ == final(self).xopt@,
            config_ok(old(self).num_dofs as int, r@),
    {
        let iterations: u32 = if constrain_velocity { 100 } else { 1000 };
        let result = self.engine.optimize(
            &self.xopt,
            goal_pos,
            goal_quat,
            constrain_velocity,
            iterations,
        );
        self.accept_solution(result)
    }
}

/// Copy of a configuration vector, elementwise.
pub fn clone_config(c: &Vec<i64>) -> (r: Vec<i64>)
    ensures
        r@ == c@,
{
    let mut r: Vec<i64> = Vec::new();
    let mut i: usize = 0;
    while i < c.len()
        invariant
            i <= c@.len(),
            r@ == c@.take(i as int),
        decreases c@.len() - i,
    {
        r.push(c[i]);
        proof {
            assert(r@ =~= c@.take(i + 1));
        }
        i += 1;
    }
    proof {
        assert(c@.take(c@.len() as int) =~= c@);
    }
    r
}

} // verus!
