use iklink::iklink::{IKLink, LinkError, Node, Score};
use iklink::num::SCALE;
use iklink::pose::{Quat, Vec3, Waypoint};
use iklink::relaxed_ik::OptimizationEngine;
use iklink::robot::Robot;
use iklink::robot_kinematics::{JointDescription, JointKind, RobotKinematics};

/// A one-joint test arm whose forward kinematics maps the joint value
/// directly onto the x coordinate, and whose solver answers every target
/// exactly — or not at all.
struct PerfectSolver {
    answer: bool,
}

impl OptimizationEngine for PerfectSolver {
    fn reset(&mut self, _x: &Vec<i64>) {}

    fn optimize(
        &mut self,
        _start: &Vec<i64>,
        goal_pos: &Vec3,
        _goal_quat: &Quat,
        _constrain_velocity: bool,
        _iterations: u32,
    ) -> Option<Vec<i64>> {
        if self.answer {
            Some(vec![goal_pos.x])
        } else {
            None
        }
    }

    fn fk(&self, config: &Vec<i64>) -> (Vec3, Quat) {
        let x = if config.is_empty() { 0 } else { config[0] };
        (Vec3 { x, y: 0, z: 0 }, Quat { x: 0, y: 0, z: 0, w: SCALE })
    }
}

fn one_joint_robot(velocity: i64, answer: bool) -> Robot<PerfectSolver> {
    let joints = vec![JointDescription {
        name: "j1".to_string(),
        kind: JointKind::Bounded,
        lower: -50_000_000,
        upper: 50_000_000,
        velocity,
    }];
    let m = RobotKinematics::from_joint_descriptions(1, &joints, &None).unwrap();
    Robot::new("arm".to_string(), m, PerfectSolver { answer }).unwrap()
}

fn wp(time: i64, x: i64) -> Waypoint {
    Waypoint {
        time,
        position: Vec3 { x, y: 0, z: 0 },
        orientation: Quat { x: 0, y: 0, z: 0, w: SCALE },
    }
}

#[test]
fn single_reachable_waypoint_zero_cost() {
    let robot = one_joint_robot(1_000_000, true);
    let mut link = IKLink::new(robot, vec![wp(0, 5_000_000)]);
    let motion = link.solve().unwrap();
    assert_eq!(motion.robot_name, "arm".to_string());
    assert_eq!(motion.joint_names, vec!["j1".to_string()]);
    assert_eq!(motion.data.len(), 1);
    assert_eq!(motion.data[0].0, 0);
    assert_eq!(motion.data[0].1, vec![5_000_000]);
    // the chosen candidate carries primary cost 0
    let found = link.table[0]
        .iter()
        .any(|n| n.score == Score::Reached { primary: 0, secondary: 0 });
    assert!(found);
    // output header: time column, then robot-joint columns in model order
    assert_eq!(motion.header_row(), vec!["time".to_string(), "arm-j1".to_string()]);
}

#[test]
fn velocity_infeasible_step_takes_one_reconfiguration() {
    // 10 rad in 1 s against a 1 rad/s limit: no continuous edge exists
    let robot = one_joint_robot(1_000_000, true);
    let mut link = IKLink::new(robot, vec![wp(0, 0), wp(1_000_000, 10_000_000)]);
    let motion = link.solve().unwrap();
    assert_eq!(motion.data.len(), 2);
    assert_eq!(motion.data[0].1, vec![0]);
    assert_eq!(motion.data[1].1, vec![10_000_000]);
    // every last-column candidate was linked through exactly one jump
    assert!(link.table[1]
        .iter()
        .all(|n| n.score == Score::Reached { primary: 1, secondary: 0 }));
}

#[test]
fn velocity_feasible_step_keeps_zero_reconfigurations() {
    // 0.5 rad in 1 s against a 1 rad/s limit: a continuous edge exists
    let robot = one_joint_robot(1_000_000, true);
    let mut link = IKLink::new(robot, vec![wp(0, 0), wp(1_000_000, 500_000)]);
    let motion = link.solve().unwrap();
    assert_eq!(motion.data.len(), 2);
    // primary 0, secondary = the 500_000-tick move
    assert!(link.table[1]
        .iter()
        .all(|n| n.score == Score::Reached { primary: 0, secondary: 500_000 }));
    assert_eq!(motion.data[0].0, 0);
    assert_eq!(motion.data[1].0, 1_000_000);
}

#[test]
fn failed_track_keeps_session_state() {
    // a track query that fails must leave the session state untouched
    let mut robot = one_joint_robot(1_000_000, false);
    let seed = vec![3_000_000i64];
    robot.ik_solver.reset(seed.clone());
    let pos = Vec3 { x: 9_000_000, y: 0, z: 0 };
    let quat = Quat { x: 0, y: 0, z: 0, w: SCALE };
    let (ok, out) = robot.try_to_track(&pos, &quat);
    assert!(!ok);
    assert!(out.is_empty());
    assert_eq!(robot.ik_solver.xopt, seed);
}

#[test]
fn unreachable_pose_reports_no_feasible_path() {
    // the solver never returns a configuration: the sampler exhausts its
    // attempt budget, the table stays empty, and linking fails
    let robot = one_joint_robot(1_000_000, false);
    let mut link = IKLink::new(robot, vec![wp(0, 5_000_000)]);
    link.reach_attempt_cap = 10;
    assert!(matches!(link.solve(), Err(LinkError::NoFeasiblePath)));
}

#[test]
fn relinking_a_frozen_table_is_deterministic() {
    let robot = one_joint_robot(1_000_000, true);
    let mut link = IKLink::new(robot, vec![wp(0, 0), wp(1_000_000, 400_000)]);
    // a frozen candidate table, built by hand
    link.table = vec![
        vec![Node::new(vec![0]), Node::new(vec![100_000])],
        vec![Node::new(vec![400_000]), Node::new(vec![2_000_000])],
    ];
    let m1 = link.dp().unwrap();
    let scores1: Vec<(Score, usize)> = link.table[1]
        .iter()
        .map(|n| (n.score, n.predecessor))
        .collect();
    let m2 = link.dp().unwrap();
    let scores2: Vec<(Score, usize)> = link.table[1]
        .iter()
        .map(|n| (n.score, n.predecessor))
        .collect();
    assert_eq!(scores1, scores2);
    assert_eq!(m1.data, m2.data);
    // the close candidate links continuously from the nearer predecessor
    assert_eq!(
        link.table[1][0].score,
        Score::Reached { primary: 0, secondary: 300_000 }
    );
    assert_eq!(link.table[1][0].predecessor, 1);
    // the far candidate needs a reconfiguration
    assert_eq!(
        link.table[1][1].score,
        Score::Reached { primary: 1, secondary: 0 }
    );
}

#[test]
fn motion_times_follow_the_trajectory() {
    let robot = one_joint_robot(10_000_000, true);
    let traj = vec![wp(0, 0), wp(500_000, 100_000), wp(1_500_000, 200_000)];
    let mut link = IKLink::new(robot, traj.clone());
    let motion = link.solve().unwrap();
    assert_eq!(motion.data.len(), 3);
    for (i, w) in traj.iter().enumerate() {
        assert_eq!(motion.data[i].0, w.time);
    }
    // strictly increasing
    assert!(motion.data.windows(2).all(|p| p[0].0 < p[1].0));
}

#[test]
fn motion_configurations_match_their_waypoint_pose() {
    // re-evaluate each entry through the engine's forward kinematics
    let robot = one_joint_robot(10_000_000, true);
    let traj = vec![wp(0, 0), wp(1_000_000, 700_000)];
    let mut link = IKLink::new(robot, traj.clone());
    let motion = link.solve().unwrap();
    let checker = PerfectSolver { answer: true };
    for (i, (_, config)) in motion.data.iter().enumerate() {
        let (pos, _) = checker.fk(config);
        let dx = pos.x - traj[i].position.x;
        assert!(dx * dx < 1_000_000, "entry {} misses its pose", i);
    }
}
