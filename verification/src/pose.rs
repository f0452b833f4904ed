//! Cartesian poses, waypoints, and the fixed-point pose-matching predicate.

use vstd::prelude::*;
use crate::num::{MAX_POS, MAX_TIME, SCALE, sq, abs_val};

verus! {

/// Squared position tolerance: (0.001 base units in ticks)^2.
pub const POS_TOL_SQ: i64 = 1_000_000;

/// Orientation tolerance, encoded for quaternions: two unit quaternions are
/// within 0.01 rad of rotation of each other iff the magnitude of their dot
/// product exceeds cos(0.005); this is floor(cos(0.005) * SCALE^2), the same
/// threshold for dot products of SCALE-scaled quaternions.
pub const ANG_DOT_MIN: i64 = 999_987_500_026;

#[derive(Clone, Copy, PartialEq, Eq, Structural, Debug)]
pub struct Vec3 {
    pub x: i64,
    pub y: i64,
    pub z: i64,
}

#[derive(Clone, Copy, PartialEq, Eq, Structural, Debug)]
pub struct Quat {
    pub x: i64,
    pub y: i64,
    pub z: i64,
    pub w: i64,
}

/// One timestamped target pose of the input trajectory.
#[derive(Clone, Copy, PartialEq, Eq, Structural, Debug)]
pub struct Waypoint {
    pub time: i64,
    pub position: Vec3,
    pub orientation: Quat,
}

pub open spec fn vec3_ok(v: Vec3) -> bool {
    &&& abs_val(v.x as int) <= MAX_POS
    &&& abs_val(v.y as int) <= MAX_POS
    &&& abs_val(v.z as int) <= MAX_POS
}

/// A quaternion scaled by `SCALE`; each component of a unit quaternion then
/// has magnitude at most `SCALE`.
pub open spec fn quat_ok(q: Quat) -> bool {
    &&& abs_val(q.x as int) <= SCALE
    &&& abs_val(q.y as int) <= SCALE
    &&& abs_val(q.z as int) <= SCALE
    &&& abs_val(q.w as int) <= SCALE
}

pub open spec fn waypoint_ok(w: Waypoint) -> bool {
    &&& abs_val(w.time as int) <= MAX_TIME
    &&& vec3_ok(w.position)
    &&& quat_ok(w.orientation)
}

/// Dot product of two scaled quaternions; for unit quaternions this is the
/// cosine of half the angle of the relative rotation, times `SCALE^2`.
pub open spec fn quat_dot(a: Quat, b: Quat) -> int {
    a.x * b.x + a.y * b.y + a.z * b.z + a.w * b.w
}

pub open spec fn pos_sq_err(p: Vec3, t: Vec3) -> int {
    sq(p.x - t.x) + sq(p.y - t.y) + sq(p.z - t.z)
}

/// A pose matches a target iff the position error norm is below 0.001 base
/// units and the relative rotation angle is below 0.01 rad.
pub open spec fn pose_close(p: Vec3, q: Quat, tp: Vec3, tq: Quat) -> bool {
    &&& pos_sq_err(p, tp) < POS_TOL_SQ
    &&& abs_val(quat_dot(q, tq)) > ANG_DOT_MIN
}

proof fn lemma_prod_bound(a: int, b: int)
    requires
        abs_val(a) <= SCALE,
        abs_val(b) <= SCALE,
    ensures
        -1_000_000_000_000 <= a * b <= 1_000_000_000_000,
{
    assert(-1_000_000_000_000 <= a * b <= 1_000_000_000_000) by (nonlinear_arith)
        requires
            -1_000_000 <= a <= 1_000_000,
            -1_000_000 <= b <= 1_000_000,
    {
    }
}

/// Decides [`pose_close`] on an evaluated pose `(p, q)` against the target
/// `(tp, tq)`.
pub fn pose_matches(p: &Vec3, q: &Quat, tp: &Vec3, tq: &Quat) -> (r: bool)
    requires
        vec3_ok(*p),
        vec3_ok(*tp),
        quat_ok(*q),
        quat_ok(*tq),
    ensures
        r == pose_close(*p, *q, *tp, *tq),
{
    let dx = p.x - tp.x;
    let dy = p.y - tp.y;
    let dz = p.z - tp.z;
    proof {
        assert(sq(dx as int) <= 40_000_000_000_000_000
            && sq(dy as int) <= 40_000_000_000_000_000
            && sq(dz as int) <= 40_000_000_000_000_000
            && sq(dx as int) >= 0 && sq(dy as int) >= 0 && sq(dz as int) >= 0)
            by (nonlinear_arith)
            requires
                -200_000_000 <= dx <= 200_000_000,
                -200_000_000 <= dy <= 200_000_000,
                -200_000_000 <= dz <= 200_000_000,
        {
        }
    }
    let pos_err = dx * dx + dy * dy + dz * dz;
    proof {
        lemma_prod_bound(q.x as int, tq.x as int);
        lemma_prod_bound(q.y as int, tq.y as int);
        lemma_prod_bound(q.z as int, tq.z as int);
        lemma_prod_bound(q.w as int, tq.w as int);
    }
    let dot = q.x * tq.x + q.y * tq.y + q.z * tq.z + q.w * tq.w;
    let dot_abs = if dot < 0 { -dot } else { dot };
    pos_err < POS_TOL_SQ && dot_abs > ANG_DOT_MIN
}

} // verus!
