//! Fixed-point scalars and the integer square root.
//!
//! Every physical quantity in this crate is a scaled integer: one unit of
//! length, angle (radian), time (second) or velocity is [`SCALE`] ticks.

use vstd::prelude::*;

verus! {

/// Number of fixed-point ticks per base unit (length unit, radian, second).
pub const SCALE: i64 = 1_000_000;

/// Largest magnitude a joint coordinate may have (100 rad in ticks).
pub const MAX_JOINT: i64 = 100_000_000;

/// Largest magnitude a Cartesian coordinate may have (100 length units in ticks).
pub const MAX_POS: i64 = 100_000_000;

/// Largest magnitude a timestamp may have (1e6 s in ticks).
pub const MAX_TIME: i64 = 1_000_000_000_000;

/// Largest per-joint velocity limit (100 rad/s in ticks).
pub const MAX_VEL: i64 = 100_000_000;

/// Most joints a kinematics model may drive.
pub const MAX_DOF: usize = 64;

/// Most waypoints a trajectory may have.
pub const MAX_WAYPOINTS: usize = 1_000_000;

/// Upper bound on the joint-space distance of two in-range configurations:
/// `MAX_DIST * MAX_DIST` exceeds `MAX_DOF * (2 * MAX_JOINT)^2`.
pub const MAX_DIST: u64 = 1_600_000_000;

pub open spec fn abs_val(x: int) -> int {
    if x < 0 { -x } else { x }
}

pub open spec fn sq(x: int) -> int {
    x * x
}

/// Sum of the squared componentwise differences of two equal-length vectors.
pub open spec fn sq_dist(a: Seq<i64>, b: Seq<i64>) -> int
    decreases a.len(),
{
    if a.len() == 0 {
        0
    } else {
        sq_dist(a.drop_last(), b.drop_last()) + sq(a.last() - b.last())
    }
}

/// Floor of the square root of `n` (0 for negative `n`).
pub open spec fn sqrt_floor(n: int) -> int
    decreases n,
{
    if n <= 0 {
        0
    } else if sq(sqrt_floor(n - 1) + 1) <= n {
        sqrt_floor(n - 1) + 1
    } else {
        sqrt_floor(n - 1)
    }
}

pub proof fn lemma_sqrt_floor_props(n: int)
    requires
        n >= 0,
    ensures
        0 <= sqrt_floor(n),
        sq(sqrt_floor(n)) <= n,
        sq(sqrt_floor(n) + 1) > n,
    decreases n,
{
    if n == 0 {
        assert(sqrt_floor(0) == 0);
    } else {
        lemma_sqrt_floor_props(n - 1);
        let r = sqrt_floor(n - 1);
        if sq(r + 1) <= n {
            assert(sq(r + 2) == sq(r + 1) + 2 * (r + 1) + 1) by (nonlinear_arith);
            assert(sq(r + 2) > n) by (nonlinear_arith)
                requires
                    r >= 0,
                    sq(r + 1) > n - 1,
                    sq(r + 2) == sq(r + 1) + 2 * (r + 1) + 1,
            {
            }
        } else {
            assert(sq(r) <= n - 1 <= n);
        }
    }
}

/// A value that squares to at most `n` while its successor squares above `n`
/// is the floor square root of `n`.
pub proof fn lemma_sqrt_floor_unique(n: int, r: int)
    requires
        n >= 0,
        r >= 0,
        sq(r) <= n,
        sq(r + 1) > n,
    ensures
        r == sqrt_floor(n),
{
    lemma_sqrt_floor_props(n);
    let s = sqrt_floor(n);
    if r < s {
        assert(sq(r + 1) <= sq(s)) by (nonlinear_arith)
            requires
                0 <= r,
                r + 1 <= s,
        {
        }
    }
    if s < r {
        assert(sq(s + 1) <= sq(r)) by (nonlinear_arith)
            requires
                0 <= s,
                s + 1 <= r,
        {
        }
    }
}

/// Executable floor square root, by binary search on the root.
pub fn isqrt(n: u64) -> (r: u64)
    ensures
        r == sqrt_floor(n as int),
{
    let mut lo: u64 = 0;
    let mut hi: u64 = 4_294_967_296;
    while hi - lo > 1
        invariant
            lo < hi <= 4_294_967_296,
            sq(lo as int) <= n as int,
            sq(hi as int) > n as int,
        decreases hi - lo,
    {
        let mid = lo + (hi - lo) / 2;
        assert(mid * mid < 18446744073709551616) by (nonlinear_arith)
            requires
                mid < 4_294_967_296,
        {
        }
        if mid * mid <= n {
            lo = mid;
        } else {
            hi = mid;
        }
    }
    proof {
        assert(sq((4_294_967_296) as int) > u64::MAX as int) by (nonlinear_arith);
        lemma_sqrt_floor_unique(n as int, lo as int);
    }
    lo
}

pub proof fn lemma_sq_dist_nonneg(a: Seq<i64>, b: Seq<i64>)
    ensures
        sq_dist(a, b) >= 0,
    decreases a.len(),
{
    if a.len() > 0 {
        lemma_sq_dist_nonneg(a.drop_last(), b.drop_last());
        assert(sq(a.last() - b.last()) >= 0) by (nonlinear_arith);
    }
}

/// Two vectors of at most `MAX_DOF` in-range coordinates are at squared
/// distance at most `MAX_DIST^2`.
pub proof fn lemma_sq_dist_bound(a: Seq<i64>, b: Seq<i64>)
    requires
        a.len() == b.len() <= MAX_DOF,
        forall|i: int| 0 <= i < a.len() ==> abs_val(#[trigger] a[i] as int) <= MAX_JOINT,
        forall|i: int| 0 <= i < b.len() ==> abs_val(#[trigger] b[i] as int) <= MAX_JOINT,
    ensures
        sq_dist(a, b) <= a.len() * 40_000_000_000_000_000,
        sq_dist(a, b) <= sq(MAX_DIST as int),
    decreases a.len(),
{
    if a.len() == 0 {
        assert(sq(MAX_DIST as int) >= 0) by (nonlinear_arith);
    } else {
        lemma_sq_dist_bound(a.drop_last(), b.drop_last());
        let d = a.last() - b.last();
        assert(sq(d) <= 40_000_000_000_000_000) by (nonlinear_arith)
            requires
                -200_000_000 <= d <= 200_000_000,
        {
        }
        assert(a.len() * 40_000_000_000_000_000
            == (a.len() - 1) * 40_000_000_000_000_000 + 40_000_000_000_000_000)
            by (nonlinear_arith);
        assert(a.len() * 40_000_000_000_000_000 <= MAX_DOF * 40_000_000_000_000_000)
            by (nonlinear_arith)
            requires
                0 <= a.len() <= MAX_DOF,
        {
        }
        assert(sq(MAX_DIST as int) >= MAX_DOF * 40_000_000_000_000_000) by (nonlinear_arith);
    }
}

/// The floor square root never exceeds `MAX_DIST` on arguments up to
/// `MAX_DIST^2`.
pub proof fn lemma_sqrt_floor_le_max(n: int)
    requires
        0 <= n <= sq(MAX_DIST as int),
    ensures
        0 <= sqrt_floor(n) <= MAX_DIST,
{
    lemma_sqrt_floor_props(n);
    let r = sqrt_floor(n);
    if r > MAX_DIST {
        assert(sq(r) > sq(MAX_DIST as int)) by (nonlinear_arith)
            requires
                r >= MAX_DIST + 1,
        {
        }
    }
}

} // verus!
