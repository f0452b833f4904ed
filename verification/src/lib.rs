#![verifier::loop_isolation(false)]
//! Retargets a Cartesian end-effector trajectory onto a multi-jointed arm.
//!
//! The library samples feasible joint configurations for every waypoint of a
//! trajectory, deduplicates them with density-based clustering, and then links
//! one configuration per waypoint by dynamic programming so that the number of
//! discontinuous arm reconfigurations is minimized first and the total
//! joint-space travel second, subject to per-step velocity feasibility.
//!
//! All quantities are fixed-point integers: lengths, angles, times and
//! velocities are expressed in millionths of their base unit (see [`num`]).

pub mod num;
pub mod pose;
pub mod motion;
pub mod robot_kinematics;
pub mod relaxed_ik;
pub mod robot;
pub mod cluster;
pub mod iklink;
