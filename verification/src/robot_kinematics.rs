//! The kinematics model: joint limits, velocity limits, joint kinds, and the
//! predicates the linking engine needs.

use vstd::prelude::*;
use crate::num::{MAX_DOF, MAX_JOINT, MAX_VEL, SCALE, abs_val};

verus! {

#[derive(Clone, Copy, PartialEq, Eq, Structural, Debug)]
pub enum JointKind {
    /// A joint without position limits; sampled uniformly over one turn.
    Continuous,
    /// A joint confined to `[lower, upper]`.
    Bounded,
}

/// One controllable joint, as plain values; the caller extracts these from a
/// robot description.
#[derive(Clone, Debug)]
pub struct JointDescription {
    pub name: String,
    pub kind: JointKind,
    pub lower: i64,
    pub upper: i64,
    pub velocity: i64,
}

#[derive(Clone, Copy, PartialEq, Eq, Structural, Debug)]
pub enum ModelError {
    /// The engine links exactly one kinematic chain.
    MultipleChains,
    /// More joints than the model can hold.
    TooManyJoints,
    /// A bounded joint with inverted or out-of-range limits, or a velocity
    /// limit out of range.
    BadJointLimits,
    /// A joint named in the ordering that no description carries.
    UnknownOrderedJoint,
}

pub struct RobotKinematics {
    pub num_chains: usize,
    pub num_dofs: usize,
    pub lower_joint_limits: Vec<i64>,
    pub upper_joint_limits: Vec<i64>,
    pub joint_velocity_limits: Vec<i64>,
    pub joint_names: Vec<String>,
    pub joint_types: Vec<JointKind>,
}

/// A joint configuration with one in-range coordinate per controlled joint.
pub open spec fn config_ok(dofs: int, c: Seq<i64>) -> bool {
    &&& c.len() == dofs
    &&& forall|i: int| 0 <= i < c.len() ==> abs_val((#[trigger] c[i]) as int) <= MAX_JOINT
}

/// Velocity feasibility: every joint moves no faster than its limit allows
/// over `dt` ticks, i.e. `|a_i - b_i| <= vel_i * dt` in base units.
pub open spec fn vel_ok(a: Seq<i64>, b: Seq<i64>, vel: Seq<i64>, dt: i64) -> bool {
    forall|i: int| 0 <= i < a.len()
        ==> SCALE * abs_val((#[trigger] a[i]) as int - b[i] as int) <= (vel[i] as int) * (dt as int)
}

pub open spec fn desc_ok(d: JointDescription) -> bool {
    &&& 0 <= d.velocity <= MAX_VEL
    &&& (d.kind is Bounded ==> -MAX_JOINT <= d.lower <= d.upper <= MAX_JOINT)
}

/// Limits actually stored for a description: continuous joints get the full
/// representable range.
pub open spec fn norm_lower(d: JointDescription) -> i64 {
    if d.kind is Continuous { (-MAX_JOINT) as i64 } else { d.lower }
}

pub open spec fn norm_upper(d: JointDescription) -> i64 {
    if d.kind is Continuous { MAX_JOINT } else { d.upper }
}

/// `j` is the first description whose name is `name`.
pub open spec fn is_first_match(joints: Seq<JointDescription>, name: Seq<char>, j: int) -> bool {
    &&& 0 <= j < joints.len()
    &&& joints[j].name@ == name
    &&& forall|j2: int| 0 <= j2 < j ==> (#[trigger] joints[j2].name)@ != name
}

pub open spec fn name_resolvable(joints: Seq<JointDescription>, name: Seq<char>) -> bool {
    exists|j: int| 0 <= j < joints.len() && (#[trigger] joints[j].name)@ == name
}

/// The `i`-th stored joint of `m` carries the data of the first description
/// named `name`.
pub open spec fn ordered_entry_ok(
    m: RobotKinematics,
    joints: Seq<JointDescription>,
    name: Seq<char>,
    i: int,
) -> bool {
    exists|j: int| is_first_match(joints, name, j) && entry_matches(m, i, joints[j])
}

/// The `i`-th stored joint of `m` carries exactly the data of description `d`.
pub open spec fn entry_matches(m: RobotKinematics, i: int, d: JointDescription) -> bool {
    &&& m.joint_names@[i]@ == d.name@
    &&& m.joint_types@[i] == d.kind
    &&& m.lower_joint_limits@[i] == norm_lower(d)
    &&& m.upper_joint_limits@[i] == norm_upper(d)
    &&& m.joint_velocity_limits@[i] == d.velocity
}

impl RobotKinematics {
    pub open spec fn wf(self) -> bool {
        &&& self.num_chains == 1
        &&& self.num_dofs <= MAX_DOF
        &&& self.lower_joint_limits@.len() == self.num_dofs
        &&& self.upper_joint_limits@.len() == self.num_dofs
        &&& self.joint_velocity_limits@.len() == self.num_dofs
        &&& self.joint_names@.len() == self.num_dofs
        &&& self.joint_types@.len() == self.num_dofs
        &&& forall|i: int| 0 <= i < self.num_dofs
            ==> -MAX_JOINT <= #[trigger] self.lower_joint_limits@[i]
                <= self.upper_joint_limits@[i] <= MAX_JOINT
        &&& forall|i: int| 0 <= i < self.num_dofs
            ==> 0 <= #[trigger] self.joint_velocity_limits@[i] <= MAX_VEL
    }

    /// Builds the model from per-joint descriptions, optionally re-indexed by
    /// an explicit joint ordering (each named joint must exist; the first
    /// description with a given name wins). Construction fails on a model
    /// with more than one chain, on more joints than the model can hold, on
    /// malformed limits, and on an unresolvable ordering name.
    pub fn from_joint_descriptions(
        num_chains: usize,
        joints: &Vec<JointDescription>,
        joint_ordering: &Option<Vec<String>>,
    ) -> (r: Result<RobotKinematics, ModelError>)
        ensures
            num_chains != 1 ==> r == Result::<RobotKinematics, ModelError>::Err(
                ModelError::MultipleChains,
            ),
            r is Ok ==> {
                let m = r->Ok_0;
                &&& m.wf()
                &&& num_chains == 1
                &&& (match joint_ordering {
                    Option::None => {
                        &&& m.num_dofs == joints@.len()
                        &&& forall|i: int| 0 <= i < joints@.len()
                            ==> #[trigger] entry_matches(m, i, joints@[i])
                    },
                    Option::Some(ord) => {
                        &&& m.num_dofs == ord@.len()
                        &&& forall|i: int| 0 <= i < ord@.len()
                            ==> ordered_entry_ok(m, joints@, (#[trigger] ord@[i])@, i)
                    },
                })
            },
            num_chains == 1 ==> (r is Ok <==> {
                &&& joints@.len() <= MAX_DOF
                &&& (joint_ordering matches Option::Some(ord) ==> ord@.len() <= MAX_DOF)
                &&& forall|j: int| 0 <= j < joints@.len() ==> desc_ok(#[trigger] joints@[j])
                &&& (joint_ordering matches Option::Some(ord)
                    ==> forall|i: int| 0 <= i < ord@.len()
                        ==> name_resolvable(joints@, (#[trigger] ord@[i])@))
            }),
    {
        if num_chains != 1 {
            return Result::Err(ModelError::MultipleChains);
        }
        if joints.len() > MAX_DOF {
            return Result::Err(ModelError::TooManyJoints);
        }
        if let Option::Some(ord) = joint_ordering {
            if ord.len() > MAX_DOF {
                return Result::Err(ModelError::TooManyJoints);
            }
        }
        let mut j: usize = 0;
        while j < joints.len()
            invariant
                j <= joints@.len(),
                forall|j2: int| 0 <= j2 < j ==> desc_ok(#[trigger] joints@[j2]),
            decreases joints@.len() - j,
        {
            let d = &joints[j];
            let limits_ok = match d.kind {
                JointKind::Bounded => -MAX_JOINT <= d.lower && d.lower <= d.upper
                    && d.upper <= MAX_JOINT,
                JointKind::Continuous => true,
            };
            if !(0 <= d.velocity && d.velocity <= MAX_VEL && limits_ok) {
                return Result::Err(ModelError::BadJointLimits);
            }
            j += 1;
        }
        // Indices of the descriptions to store, in storage order.
        let mut sel: Vec<usize> = Vec::new();
        match joint_ordering {
            Option::None => {
                let mut i: usize = 0;
                while i < joints.len()
                    invariant
                        i <= joints@.len(),
                        sel@.len() == i,
                        forall|t: int| 0 <= t < i ==> #[trigger] sel@[t] == t,
                    decreases joints@.len() - i,
                {
                    sel.push(i);
                    i += 1;
                }
            },
            Option::Some(ord) => {
                let mut i: usize = 0;
                while i < ord.len()
                    invariant
                        i <= ord@.len(),
                        sel@.len() == i,
                        forall|t: int| 0 <= t < i
                            ==> is_first_match(joints@, ord@[t]@, #[trigger] sel@[t] as int),
                    decreases ord@.len() - i,
                {
                    match find_joint(joints, &ord[i]) {
                        Option::Some(fj) => {
                            sel.push(fj);
                        },
                        Option::None => {
                            return Result::Err(ModelError::UnknownOrderedJoint);
                        },
                    }
                    i += 1;
                }
                proof {
                    assert forall|i2: int| 0 <= i2 < ord@.len()
                        implies name_resolvable(joints@, ord@[i2]@) by {
                        assert(is_first_match(joints@, ord@[i2]@, sel@[i2] as int));
                    }
                }
            },
        }
        let dofs = sel.len();
        let mut lower_joint_limits: Vec<i64> = Vec::new();
        let mut upper_joint_limits: Vec<i64> = Vec::new();
        let mut joint_velocity_limits: Vec<i64> = Vec::new();
        let mut joint_names: Vec<String> = Vec::new();
        let mut joint_types: Vec<JointKind> = Vec::new();
        let mut t: usize = 0;
        while t < dofs
            invariant
                t <= dofs == sel@.len() <= MAX_DOF,
                forall|u: int| 0 <= u < sel@.len() ==> 0 <= #[trigger] sel@[u] < joints@.len(),
                forall|j2: int| 0 <= j2 < joints@.len() ==> desc_ok(#[trigger] joints@[j2]),
                lower_joint_limits@.len() == t,
                upper_joint_limits@.len() == t,
                joint_velocity_limits@.len() == t,
                joint_names@.len() == t,
                joint_types@.len() == t,
                forall|u: int| 0 <= u < t
                    ==> (#[trigger] joint_names@[u])@ == joints@[sel@[u] as int].name@,
                forall|u: int| 0 <= u < t
                    ==> #[trigger] joint_types@[u] == joints@[sel@[u] as int].kind,
                forall|u: int| 0 <= u < t
                    ==> #[trigger] lower_joint_limits@[u] == norm_lower(joints@[sel@[u] as int]),
                forall|u: int| 0 <= u < t
                    ==> #[trigger] upper_joint_limits@[u] == norm_upper(joints@[sel@[u] as int]),
                forall|u: int| 0 <= u < t
                    ==> #[trigger] joint_velocity_limits@[u] == joints@[sel@[u] as int].velocity,
            decreases dofs - t,
        {
            let d = &joints[sel[t]];
            joint_names.push(d.name.clone());
            joint_types.push(d.kind);
            match d.kind {
                JointKind::Continuous => {
                    lower_joint_limits.push(-MAX_JOINT);
                    upper_joint_limits.push(MAX_JOINT);
                },
                JointKind::Bounded => {
                    lower_joint_limits.push(d.lower);
                    upper_joint_limits.push(d.upper);
                },
            }
            joint_velocity_limits.push(d.velocity);
            t += 1;
        }
        let m = RobotKinematics {
            num_chains: 1,
            num_dofs: dofs,
            lower_joint_limits,
            upper_joint_limits,
            joint_velocity_limits,
            joint_names,
            joint_types,
        };
        proof {
            assert forall|i2: int| 0 <= i2 < sel@.len()
                implies #[trigger] entry_matches(m, i2, joints@[sel@[i2] as int]) by {
                assert(m.joint_names@[i2]@ == joints@[sel@[i2] as int].name@);
            }
            assert forall|i2: int| 0 <= i2 < m.num_dofs
                implies -MAX_JOINT <= #[trigger] m.lower_joint_limits@[i2]
                    <= m.upper_joint_limits@[i2] <= MAX_JOINT by {
                assert(desc_ok(joints@[sel@[i2] as int]));
            }
            match joint_ordering {
                Option::Some(ord) => {
                    assert forall|i2: int| 0 <= i2 < ord@.len()
                        implies ordered_entry_ok(m, joints@, (#[trigger] ord@[i2])@, i2) by {
                        let j = sel@[i2] as int;
                        assert(is_first_match(joints@, ord@[i2]@, j));
                        assert(entry_matches(m, i2, joints@[j]));
                    }
                },
                Option::None => {},
            }
        }
        Result::Ok(m)
    }
}

/// First description carrying `name`, if any.
fn find_joint(joints: &Vec<JointDescription>, name: &String) -> (r: Option<usize>)
    ensures
        match r {
            Option::Some(j) => is_first_match(joints@, name@, j as int),
            Option::None => !name_resolvable(joints@, name@),
        },
{
    let mut j: usize = 0;
    while j < joints.len()
        invariant
            j <= joints@.len(),
            forall|j2: int| 0 <= j2 < j ==> (#[trigger] joints@[j2].name)@ != name@,
        decreases joints@.len() - j,
    {
        if joints[j].name == *name {
            return Option::Some(j);
        }
        j += 1;
    }
    Option::None
}

/// Decides [`config_ok`].
pub fn check_config(dofs: usize, c: &Vec<i64>) -> (r: bool)
    ensures
        r == config_ok(dofs as int, c@),
{
    if c.len() != dofs {
        return false;
    }
    let mut i: usize = 0;
    while i < c.len()
        invariant
            i <= c@.len(),
            forall|i2: int| 0 <= i2 < i ==> abs_val((#[trigger] c@[i2]) as int) <= MAX_JOINT,
        decreases c@.len() - i,
    {
        if c[i] > MAX_JOINT || c[i] < -MAX_JOINT {
            return false;
        }
        i += 1;
    }
    true
}

} // verus!
