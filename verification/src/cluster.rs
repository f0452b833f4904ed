//! Density-based deduplication of sampled configurations.
//!
//! Configurations proposed for one waypoint are grouped greedily: a point
//! joins the first group whose every member lies within the neighborhood
//! tolerance, else it opens a new group. Groups therefore have pairwise
//! diameter at most the tolerance, and groups smaller than the minimum
//! cluster size are noise and yield no representative. The representative
//! of a group is its first point, in input order.
//!
//! Keeping every group within the tolerance is a deliberate choice: no two
//! configurations farther apart than the tolerance ever share a group
//! ([`lemma_cluster_no_far_merge`]). Its price is that a chain of
//! neighbors can fall into several groups — a chain-merging scheme would
//! keep the chain whole, but only by merging configurations arbitrarily
//! far apart. What the greedy rule does guarantee against splitting is
//! [`lemma_cluster_no_split`]: a point fitting every member of an earlier
//! group joins that group or an even earlier one.

use vstd::prelude::*;
use crate::num::{MAX_DOF, MAX_JOINT, abs_val, sq_dist, sq};
use crate::relaxed_ik::clone_config;

verus! {

/// Minimum cluster size of the deduplication pass.
pub const MIN_CLUSTER_SIZE: usize = 2;

/// Neighborhood tolerance of the deduplication pass: 0.05 in joint-space
/// distance, in ticks.
pub const CLUSTER_TOL: i64 = 50_000;

/// Two configurations are neighbors iff their joint-space distance is at
/// most `tol`, compared exactly on squares.
pub open spec fn neighbors(a: Seq<i64>, b: Seq<i64>, tol: i64) -> bool {
    sq_dist(a, b) <= tol * tol
}


/// `p` is one of the pool's configurations.
pub open spec fn is_pool_member(pool: Seq<Seq<i64>>, p: Seq<i64>) -> bool {
    exists|k: int| 0 <= k < pool.len() && p == #[trigger] pool[k]
}

/// Some point before `i2`, assigned to group `g`, is no neighbor of point
/// `i2`: the reason `i2` could not join `g`.
pub open spec fn group_conflict(
    pool: Seq<Seq<i64>>,
    assign: Seq<usize>,
    tol: i64,
    i2: int,
    g: int,
) -> bool {
    exists|i: int|
        0 <= i < i2 && ((#[trigger] assign[i]) as int) == g && !neighbors(pool[i], pool[i2], tol)
}

/// Group `g` has a member among the first `upto` points.
pub open spec fn group_inhabited(assign: Seq<usize>, upto: int, g: int) -> bool {
    exists|i: int| 0 <= i < upto && ((#[trigger] assign[i]) as int) == g
}

/// The greedy group assignment is valid for `pool`: members of one group
/// are pairwise neighbors, a point never skips a group it fits, and group
/// ids below `ngroups` are all inhabited.
pub open spec fn assignment_ok(
    pool: Seq<Seq<i64>>,
    assign: Seq<usize>,
    ngroups: int,
    tol: i64,
) -> bool {
    &&& assign.len() == pool.len()
    &&& forall|i: int| 0 <= i < assign.len() ==> ((#[trigger] assign[i]) as int) < ngroups
    &&& forall|i1: int, i2: int|
        0 <= i1 < i2 < assign.len() && #[trigger] assign[i1] == #[trigger] assign[i2]
            ==> neighbors(pool[i1], pool[i2], tol)
    &&& forall|i2: int, g: int|
        0 <= i2 < assign.len() && 0 <= g < assign[i2]
            ==> #[trigger] group_conflict(pool, assign, tol, i2, g)
    &&& forall|g: int| 0 <= g < ngroups ==> #[trigger] group_inhabited(assign, assign.len() as int, g)
}

/// Number of points among the first `n` assigned to group `g`.
pub open spec fn group_size_upto(assign: Seq<usize>, g: int, n: int) -> int
    decreases n,
{
    if n <= 0 {
        0
    } else {
        group_size_upto(assign, g, n - 1) + if assign[n - 1] as int == g {
            1int
        } else {
            0int
        }
    }
}

pub open spec fn group_size(assign: Seq<usize>, g: int) -> int {
    group_size_upto(assign, g, assign.len() as int)
}

/// Index of the first point at or after `i` assigned to group `g`, or the
/// length if there is none.
pub open spec fn group_first_from(assign: Seq<usize>, g: int, i: int) -> int
    decreases assign.len() - i,
{
    if i < 0 || i >= assign.len() {
        assign.len() as int
    } else if assign[i] as int == g {
        i
    } else {
        group_first_from(assign, g, i + 1)
    }
}

pub open spec fn group_first(assign: Seq<usize>, g: int) -> int {
    group_first_from(assign, g, 0)
}

/// The representatives of the groups below `g`: the first point of every
/// group of at least the minimum cluster size, in group order.
pub open spec fn reps_of_groups(pool: Seq<Seq<i64>>, assign: Seq<usize>, g: int) -> Seq<Seq<i64>>
    decreases g,
{
    if g <= 0 {
        Seq::empty()
    } else {
        let r = reps_of_groups(pool, assign, g - 1);
        if group_size(assign, g - 1) >= MIN_CLUSTER_SIZE {
            r.push(pool[group_first(assign, g - 1)])
        } else {
            r
        }
    }
}

/// `reps` is exactly the representative list of a valid greedy assignment
/// of `pool`: one entry — the group's first point — per group of at least
/// the minimum cluster size, in group order, and nothing else.
pub open spec fn valid_representatives(pool: Seq<Seq<i64>>, tol: i64, reps: Seq<Seq<i64>>) -> bool {
    exists|assign: Seq<usize>, ngroups: int|
        #[trigger] assignment_ok(pool, assign, ngroups, tol) && reps == reps_of_groups(
            pool,
            assign,
            ngroups,
        )
}

proof fn lemma_group_first_from(assign: Seq<usize>, g: int, i: int, f: int)
    requires
        0 <= i <= f < assign.len(),
        assign[f] as int == g,
        forall|i2: int| i <= i2 < f ==> ((#[trigger] assign[i2]) as int) != g,
    ensures
        group_first_from(assign, g, i) == f,
    decreases f - i,
{
    if i < f {
        lemma_group_first_from(assign, g, i + 1, f);
    }
}

pub proof fn lemma_sq_dist_sym(a: Seq<i64>, b: Seq<i64>)
    requires
        a.len() == b.len(),
    ensures
        sq_dist(a, b) == sq_dist(b, a),
    decreases a.len(),
{
    if a.len() > 0 {
        lemma_sq_dist_sym(a.drop_last(), b.drop_last());
        assert(sq(a.last() - b.last()) == sq(b.last() - a.last())) by (nonlinear_arith);
    }
}

/// Law: the clustering never merges two configurations whose joint-space
/// distance exceeds the tolerance into one group; any two points of one
/// group are neighbors.
pub proof fn lemma_cluster_no_far_merge(
    pool: Seq<Seq<i64>>,
    assign: Seq<usize>,
    ngroups: int,
    tol: i64,
    i1: int,
    i2: int,
)
    requires
        assignment_ok(pool, assign, ngroups, tol),
        0 <= i1 < assign.len(),
        0 <= i2 < assign.len(),
        i1 != i2,
        assign[i1] == assign[i2],
        pool[i1].len() == pool[i2].len(),
    ensures
        neighbors(pool[i1], pool[i2], tol),
        neighbors(pool[i2], pool[i1], tol),
{
    if i1 < i2 {
        assert(neighbors(pool[i1], pool[i2], tol));
    } else {
        assert(neighbors(pool[i2], pool[i1], tol));
    }
    lemma_sq_dist_sym(pool[i1], pool[i2]);
}

/// Law: two configurations within the tolerance, alone in the pool, are
/// never split into separate groups.
pub proof fn lemma_cluster_pair_not_split(
    pool: Seq<Seq<i64>>,
    assign: Seq<usize>,
    ngroups: int,
    tol: i64,
)
    requires
        assignment_ok(pool, assign, ngroups, tol),
        pool.len() == 2,
        pool[0].len() == pool[1].len(),
        neighbors(pool[0], pool[1], tol),
    ensures
        assign[0] == assign[1],
        ngroups == 1,
{
    assert((assign[0] as int) < ngroups);
    assert(assign[0] as int == 0) by {
        if (assign[0] as int) > 0 {
            assert(group_conflict(pool, assign, tol, 0, 0));
            let i = choose|i: int|
                0 <= i < 0 && ((#[trigger] assign[i]) as int) == 0 && !neighbors(
                    pool[i],
                    pool[0],
                    tol,
                );
        }
    }
    if assign[1] != assign[0] {
        assert((assign[1] as int) > 0);
        assert(group_conflict(pool, assign, tol, 1, 0));
        let i = choose|i: int|
            0 <= i < 1 && ((#[trigger] assign[i]) as int) == 0 && !neighbors(
                pool[i],
                pool[1],
                tol,
            );
        assert(i == 0);
    }
    if ngroups > 1 {
        assert(group_inhabited(assign, 2, 1));
        let i = choose|i: int| 0 <= i < 2 && ((#[trigger] assign[i]) as int) == 1;
    }
}

/// Law: a configuration is never split away from an earlier group that it
/// fits: if a later point is a neighbor of every earlier point of some
/// group, it is assigned to that group or to an even earlier one.
pub proof fn lemma_cluster_no_split(
    pool: Seq<Seq<i64>>,
    assign: Seq<usize>,
    ngroups: int,
    tol: i64,
    i: int,
    j: int,
)
    requires
        assignment_ok(pool, assign, ngroups, tol),
        0 <= i < j < assign.len(),
        forall|t: int|
            0 <= t < j && (#[trigger] assign[t]) == assign[i] ==> neighbors(pool[t], pool[j], tol),
    ensures
        assign[j] <= assign[i],
{
    if assign[j] > assign[i] {
        assert(group_conflict(pool, assign, tol, j, assign[i] as int));
        let t = choose|t: int|
            0 <= t < j && ((#[trigger] assign[t]) as int) == assign[i] as int && !neighbors(
                pool[t],
                pool[j],
                tol,
            );
    }
}

/// Decides [`neighbors`] for in-range configurations.
pub fn neighbors_within(a: &Vec<i64>, b: &Vec<i64>, tol: i64) -> (r: bool)
    requires
        a@.len() == b@.len() <= MAX_DOF,
        forall|i: int| 0 <= i < a@.len() ==> abs_val((#[trigger] a@[i]) as int) <= MAX_JOINT,
        forall|i: int| 0 <= i < b@.len() ==> abs_val((#[trigger] b@[i]) as int) <= MAX_JOINT,
        0 <= tol <= 1_000_000,
    ensures
        r == neighbors(a@, b@, tol),
{
    let sq_sum = crate::robot::sq_dist_val(a, b);
    proof {
        assert(0 <= tol * tol <= 1_000_000_000_000) by (nonlinear_arith)
            requires
                0 <= tol <= 1_000_000,
        {
        }
        crate::num::lemma_sq_dist_nonneg(a@, b@);
    }
    sq_sum <= (tol * tol) as u64
}

fn group_fits(
    pool: &Vec<Vec<i64>>,
    assign: &Vec<usize>,
    g: usize,
    j: usize,
    tol: i64,
    dof: usize,
) -> (r: bool)
    requires
        assign@.len() <= pool@.len(),
        j < pool@.len(),
        dof <= MAX_DOF,
        forall|i: int| 0 <= i < pool@.len() ==> (#[trigger] pool@[i])@.len() == dof,
        forall|i: int, k: int|
            0 <= i < pool@.len() && 0 <= k < dof ==> abs_val(
                ((#[trigger] pool@[i]@[k])) as int,
            ) <= MAX_JOINT,
        0 <= tol <= 1_000_000,
    ensures
        r == forall|i: int|
            0 <= i < assign@.len() && (#[trigger] assign@[i]) == g ==> neighbors(
                pool@[i]@,
                pool@[j as int]@,
                tol,
            ),
{
    let mut i: usize = 0;
    while i < assign.len()
        invariant
            i <= assign@.len(),
            forall|i2: int|
                0 <= i2 < i && (#[trigger] assign@[i2]) == g ==> neighbors(
                    pool@[i2]@,
                    pool@[j as int]@,
                    tol,
                ),
        decreases assign@.len() - i,
    {
        if assign[i] == g {
            if !neighbors_within(&pool[i], &pool[j], tol) {
                return false;
            }
        }
        i += 1;
    }
    true
}

/// Greedy density grouping: each point joins the first group whose every
/// member is a neighbor, else opens a new group. Returns the assignment and
/// the number of groups.
pub fn cluster_assign(pool: &Vec<Vec<i64>>, dof: usize, tol: i64) -> (r: (Vec<usize>, usize))
    requires
        dof <= MAX_DOF,
        forall|i: int| 0 <= i < pool@.len() ==> (#[trigger] pool@[i])@.len() == dof,
        forall|i: int, k: int|
            0 <= i < pool@.len() && 0 <= k < dof ==> abs_val(
                ((#[trigger] pool@[i]@[k])) as int,
            ) <= MAX_JOINT,
        0 <= tol <= 1_000_000,
    ensures
        assignment_ok(pool.deep_view(), r.0@, r.1 as int, tol),
        r.1 <= pool@.len(),
{
    let ghost pts = pool.deep_view();
    proof {
        assert forall|i: int| 0 <= i < pts.len() implies (#[trigger] pts[i]) == pool@[i]@ by {}
    }
    let mut assign: Vec<usize> = Vec::new();
    let mut ngroups: usize = 0;
    let mut j: usize = 0;
    while j < pool.len()
        invariant
            j <= pool@.len(),
            ngroups <= j,
            pts == pool.deep_view(),
            assign@.len() == j,
            forall|i: int| 0 <= i < j ==> ((#[trigger] assign@[i]) as int) < ngroups,
            forall|i1: int, i2: int|
                0 <= i1 < i2 < j && #[trigger] assign@[i1] == #[trigger] assign@[i2]
                    ==> neighbors(pts[i1], pts[i2], tol),
            forall|i2: int, g: int|
                0 <= i2 < j && 0 <= g < assign@[i2]
                    ==> #[trigger] group_conflict(pts, assign@, tol, i2, g),
            forall|g: int| 0 <= g < ngroups ==> #[trigger] group_inhabited(assign@, j as int, g),
        decreases pool@.len() - j,
    {
        let ghost pre = assign@;
        let mut g: usize = 0;
        let mut chosen: usize = ngroups;
        while g < ngroups
            invariant
                g <= ngroups,
                assign@ == pre,
                chosen == ngroups || chosen < g,
                chosen == ngroups ==> forall|g2: int|
                    0 <= g2 < g ==> #[trigger] group_conflict(pts, pre, tol, j as int, g2),
                chosen < ngroups ==> {
                    &&& (forall|i: int|
                        0 <= i < pre.len() && (#[trigger] pre[i]) == chosen ==> neighbors(
                            pts[i],
                            pts[j as int],
                            tol,
                        ))
                    &&& (forall|g2: int|
                        0 <= g2 < chosen ==> #[trigger] group_conflict(pts, pre, tol, j as int, g2))
                },
            decreases ngroups - g,
        {
            if chosen == ngroups {
                if group_fits(pool, &assign, g, j, tol, dof) {
                    chosen = g;
                } else {
                    proof {
                        let iw = choose|i: int|
                            0 <= i < pre.len() && (#[trigger] pre[i]) == g && !neighbors(
                                pts[i],
                                pts[j as int],
                                tol,
                            );
                        assert(group_conflict(pts, pre, tol, j as int, g as int));
                    }
                }
            }
            g += 1;
        }
        if chosen == ngroups {
            ngroups += 1;
        }
        assign.push(chosen);
        proof {
            let a2 = assign@;
            assert(a2 == pre.push(chosen));
            // pairwise neighborhood, new point included
            assert forall|i1: int, i2: int|
                0 <= i1 < i2 < a2.len() && #[trigger] a2[i1] == #[trigger] a2[i2]
                implies neighbors(pts[i1], pts[i2], tol) by {
                if i2 == j as int {
                    assert(pre[i1] == chosen);
                    assert(neighbors(pts[i1], pts[j as int], tol));
                }
            }
            // conflict witnesses carry over to the extended assignment
            assert forall|i2: int, g2: int|
                0 <= i2 < a2.len() && 0 <= g2 < a2[i2]
                implies #[trigger] group_conflict(pts, a2, tol, i2, g2) by {
                if i2 == j as int {
                    assert(group_conflict(pts, pre, tol, j as int, g2));
                    let iw = choose|i: int|
                        0 <= i < j && ((#[trigger] pre[i]) as int) == g2 && !neighbors(
                            pts[i],
                            pts[j as int],
                            tol,
                        );
                    assert(((a2[iw]) as int) == g2 && !neighbors(pts[iw], pts[i2], tol));
                } else {
                    assert(group_conflict(pts, pre, tol, i2, g2));
                    let iw = choose|i: int|
                        0 <= i < i2 && ((#[trigger] pre[i]) as int) == g2 && !neighbors(
                            pts[i],
                            pts[i2],
                            tol,
                        );
                    assert(((a2[iw]) as int) == g2 && !neighbors(pts[iw], pts[i2], tol));
                }
            }
            // every group id below the (possibly grown) count is inhabited
            assert forall|g2: int| 0 <= g2 < ngroups
                implies #[trigger] group_inhabited(a2, j + 1, g2) by {
                if g2 == chosen as int {
                    assert(((a2[j as int]) as int) == g2);
                } else {
                    assert(group_inhabited(pre, j as int, g2));
                    let iw = choose|i: int| 0 <= i < j && ((#[trigger] pre[i]) as int) == g2;
                    assert(((a2[iw]) as int) == g2);
                }
            }
        }
        j += 1;
    }
    proof {
        assert(pts.len() == pool@.len());
    }
    (assign, ngroups)
}

/// Clusters `pool` (minimum size [`MIN_CLUSTER_SIZE`], tolerance
/// [`CLUSTER_TOL`]) and returns the first point of every group of at least
/// the minimum size, in opening order. Noise contributes nothing.
pub fn cluster_representatives(pool: &Vec<Vec<i64>>, dof: usize) -> (reps: Vec<Vec<i64>>)
    requires
        dof <= MAX_DOF,
        forall|i: int| 0 <= i < pool@.len() ==> (#[trigger] pool@[i])@.len() == dof,
        forall|i: int, k: int|
            0 <= i < pool@.len() && 0 <= k < dof ==> abs_val(
                ((#[trigger] pool@[i]@[k])) as int,
            ) <= MAX_JOINT,
    ensures
        valid_representatives(pool.deep_view(), CLUSTER_TOL, reps.deep_view()),
        forall|t: int|
            0 <= t < reps@.len() ==> is_pool_member(pool.deep_view(), (#[trigger] reps@[t])@),
{
    let ghost pts = pool.deep_view();
    let (assign, ngroups) = cluster_assign(pool, dof, CLUSTER_TOL);
    let mut reps: Vec<Vec<i64>> = Vec::new();
    let mut g: usize = 0;
    while g < ngroups
        invariant
            g <= ngroups,
            assign@.len() == pool@.len(),
            pts == pool.deep_view(),
            reps.deep_view() == reps_of_groups(pts, assign@, g as int),
            forall|t: int|
                0 <= t < reps@.len() ==> is_pool_member(pool.deep_view(), (#[trigger] reps@[t])@),
        decreases ngroups - g,
    {
        let mut size: usize = 0;
        let mut first: usize = 0;
        let mut i: usize = 0;
        while i < assign.len()
            invariant
                i <= assign@.len() == pool@.len(),
                size == group_size_upto(assign@, g as int, i as int),
                size <= i,
                size > 0 ==> first < i && assign@[first as int] == g && forall|i2: int|
                    0 <= i2 < first ==> (#[trigger] assign@[i2]) != g,
                size == 0 ==> forall|i2: int| 0 <= i2 < i ==> (#[trigger] assign@[i2]) != g,
            decreases assign@.len() - i,
        {
            if assign[i] == g {
                if size == 0 {
                    first = i;
                }
                size += 1;
            }
            i += 1;
        }
        if size >= MIN_CLUSTER_SIZE {
            proof {
                lemma_group_first_from(assign@, g as int, 0, first as int);
            }
            let ghost pre_reps = reps@;
            let p = clone_config(&pool[first]);
            reps.push(p);
            proof {
                assert(reps.deep_view() =~= reps_of_groups(pts, assign@, g as int).push(
                    pts[group_first(assign@, g as int)],
                ));
                assert forall|t: int|
                    0 <= t < reps@.len() implies is_pool_member(
                    pool.deep_view(),
                    (#[trigger] reps@[t])@,
                ) by {
                    if t == pre_reps.len() {
                        assert(reps@[t]@ == pool.deep_view()[first as int]);
                    } else {
                        assert(reps@[t] == pre_reps[t]);
                    }
                }
            }
        }
        g += 1;
    }
    proof {
        assert(assignment_ok(pts, assign@, ngroups as int, CLUSTER_TOL) && reps.deep_view()
            == reps_of_groups(pts, assign@, ngroups as int));
        assert(valid_representatives(pts, CLUSTER_TOL, reps.deep_view()));
    }
    reps
}

} // verus!
