use iklink::num::{isqrt, MAX_JOINT, SCALE};
use iklink::pose::{pose_matches, Quat, Vec3};
use iklink::robot::{joint_dist, velocity_feasible};
use iklink::robot_kinematics::{JointDescription, JointKind, ModelError, RobotKinematics};

fn ident() -> Quat {
    Quat { x: 0, y: 0, z: 0, w: SCALE }
}

#[test]
fn isqrt_exact_values() {
    assert_eq!(isqrt(0), 0);
    assert_eq!(isqrt(1), 1);
    assert_eq!(isqrt(15), 3);
    assert_eq!(isqrt(16), 4);
    assert_eq!(isqrt(2_500_000_000), 50_000);
    assert_eq!(isqrt(u64::MAX), 4_294_967_295);
}

#[test]
fn joint_dist_pythagorean() {
    // (3, 4) against the origin: distance 5.
    assert_eq!(joint_dist(&vec![3, 4], &vec![0, 0]), 5);
    assert_eq!(joint_dist(&vec![0, 0], &vec![3, 4]), 5);
    // floor behaviour: sqrt(2) rounds down
    assert_eq!(joint_dist(&vec![1, 1], &vec![0, 0]), 1);
    assert_eq!(joint_dist(&vec![7], &vec![7]), 0);
}

#[test]
fn velocity_limit_exact_boundary() {
    // moving 1000 ticks (1e-3 rad) in one second (1e6 ticks)
    // limit 1000 ticks/s: 1000 * 1e6 == SCALE * 1000, exactly feasible
    assert!(velocity_feasible(&vec![1000], &vec![0], &vec![1000], 1_000_000));
    // limit 999 ticks/s: infeasible
    assert!(!velocity_feasible(&vec![1000], &vec![0], &vec![999], 1_000_000));
    // zero time step admits only zero movement
    assert!(velocity_feasible(&vec![5], &vec![5], &vec![1], 0));
    assert!(!velocity_feasible(&vec![6], &vec![5], &vec![1], 0));
}

#[test]
fn pose_match_position_tolerance() {
    let q = ident();
    let origin = Vec3 { x: 0, y: 0, z: 0 };
    // 999 ticks off: norm < 0.001 units
    assert!(pose_matches(&Vec3 { x: 999, y: 0, z: 0 }, &q, &origin, &q));
    // exactly 1000 ticks off: not strictly inside the tolerance
    assert!(!pose_matches(&Vec3 { x: 1000, y: 0, z: 0 }, &q, &origin, &q));
}

#[test]
fn pose_match_orientation_tolerance() {
    let origin = Vec3 { x: 0, y: 0, z: 0 };
    let q = ident();
    // dot 999_988_000_000 is above the cos(0.005) threshold
    let close = Quat { x: 0, y: 0, z: 0, w: 999_988 };
    assert!(pose_matches(&origin, &close, &origin, &q));
    // dot 999_987_000_000 is below it
    let far = Quat { x: 0, y: 0, z: 0, w: 999_987 };
    assert!(!pose_matches(&origin, &far, &origin, &q));
    // the antipodal quaternion is the same orientation
    let neg = Quat { x: 0, y: 0, z: 0, w: -SCALE };
    assert!(pose_matches(&origin, &neg, &origin, &q));
}

fn j(name: &str, lower: i64, upper: i64, velocity: i64) -> JointDescription {
    JointDescription {
        name: name.to_string(),
        kind: JointKind::Bounded,
        lower,
        upper,
        velocity,
    }
}

#[test]
fn model_built_from_descriptions() {
    let joints = vec![j("shoulder", -1_000_000, 1_000_000, 500_000), j("elbow", 0, 2_000_000, 250_000)];
    let m = RobotKinematics::from_joint_descriptions(1, &joints, &None).unwrap();
    assert_eq!(m.num_chains, 1);
    assert_eq!(m.num_dofs, 2);
    assert_eq!(m.joint_names, vec!["shoulder".to_string(), "elbow".to_string()]);
    assert_eq!(m.lower_joint_limits, vec![-1_000_000, 0]);
    assert_eq!(m.upper_joint_limits, vec![1_000_000, 2_000_000]);
    assert_eq!(m.joint_velocity_limits, vec![500_000, 250_000]);
}

#[test]
fn model_rejects_multiple_chains() {
    let joints = vec![j("a", 0, 1, 1)];
    assert!(matches!(
        RobotKinematics::from_joint_descriptions(2, &joints, &None),
        Err(ModelError::MultipleChains)
    ));
}

#[test]
fn model_rejects_inverted_limits() {
    let joints = vec![j("a", 5, -5, 1)];
    assert!(matches!(
        RobotKinematics::from_joint_descriptions(1, &joints, &None),
        Err(ModelError::BadJointLimits)
    ));
}

#[test]
fn model_rejects_negative_velocity() {
    let joints = vec![j("a", -5, 5, -1)];
    assert!(matches!(
        RobotKinematics::from_joint_descriptions(1, &joints, &None),
        Err(ModelError::BadJointLimits)
    ));
}

#[test]
fn model_reorders_by_joint_ordering() {
    let joints = vec![j("a", -1, 1, 10), j("b", -2, 2, 20)];
    let ordering = Some(vec!["b".to_string(), "a".to_string()]);
    let m = RobotKinematics::from_joint_descriptions(1, &joints, &ordering).unwrap();
    assert_eq!(m.joint_names, vec!["b".to_string(), "a".to_string()]);
    assert_eq!(m.lower_joint_limits, vec![-2, -1]);
    assert_eq!(m.joint_velocity_limits, vec![20, 10]);
}

#[test]
fn model_rejects_unknown_ordered_joint() {
    let joints = vec![j("a", -1, 1, 10)];
    let ordering = Some(vec!["missing".to_string()]);
    assert!(matches!(
        RobotKinematics::from_joint_descriptions(1, &joints, &ordering),
        Err(ModelError::UnknownOrderedJoint)
    ));
}

#[test]
fn continuous_joint_gets_full_range() {
    let joints = vec![JointDescription {
        name: "spin".to_string(),
        kind: JointKind::Continuous,
        lower: 123,
        upper: 456,
        velocity: 1000,
    }];
    let m = RobotKinematics::from_joint_descriptions(1, &joints, &None).unwrap();
    assert_eq!(m.lower_joint_limits, vec![-MAX_JOINT]);
    assert_eq!(m.upper_joint_limits, vec![MAX_JOINT]);
    assert_eq!(m.joint_types, vec![JointKind::Continuous]);
}
