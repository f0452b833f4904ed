use iklink::cluster::{cluster_assign, cluster_representatives, CLUSTER_TOL};

#[test]
fn close_pair_shares_one_group() {
    // 10_000 ticks apart: within the 50_000-tick (0.05) tolerance
    let pool = vec![vec![0i64], vec![10_000]];
    let (assign, ngroups) = cluster_assign(&pool, 1, CLUSTER_TOL);
    assert_eq!(ngroups, 1);
    assert_eq!(assign[0], assign[1]);
}

#[test]
fn far_pair_never_merges() {
    // 200_000 ticks apart: beyond the tolerance
    let pool = vec![vec![0i64], vec![200_000]];
    let (assign, ngroups) = cluster_assign(&pool, 1, CLUSTER_TOL);
    assert_eq!(ngroups, 2);
    assert_ne!(assign[0], assign[1]);
}

#[test]
fn boundary_distance_is_within_tolerance() {
    // exactly 50_000 ticks apart: neighbors (distance <= tolerance)
    let pool = vec![vec![0i64], vec![50_000]];
    let (_, ngroups) = cluster_assign(&pool, 1, CLUSTER_TOL);
    assert_eq!(ngroups, 1);
    let pool2 = vec![vec![0i64], vec![50_001]];
    let (_, ngroups2) = cluster_assign(&pool2, 1, CLUSTER_TOL);
    assert_eq!(ngroups2, 2);
}

#[test]
fn representatives_take_first_of_each_cluster() {
    let pool = vec![
        vec![0i64],
        vec![10_000],
        vec![200_000],
        vec![210_000],
    ];
    let reps = cluster_representatives(&pool, 1);
    assert_eq!(reps, vec![vec![0i64], vec![200_000]]);
}

#[test]
fn noise_points_give_no_representative() {
    // two isolated points: singleton groups, below the minimum cluster size
    let pool = vec![vec![0i64], vec![200_000]];
    let reps = cluster_representatives(&pool, 1);
    assert!(reps.is_empty());
}

#[test]
fn empty_pool_gives_no_representative() {
    let pool: Vec<Vec<i64>> = vec![];
    let reps = cluster_representatives(&pool, 1);
    assert!(reps.is_empty());
}

#[test]
fn multidimensional_distance_is_euclidean() {
    // (30_000, 40_000) is 50_000 away from the origin: still one group
    let pool = vec![vec![0i64, 0], vec![30_000, 40_000]];
    let (_, ngroups) = cluster_assign(&pool, 2, CLUSTER_TOL);
    assert_eq!(ngroups, 1);
    // (30_000, 40_001) is just over
    let pool2 = vec![vec![0i64, 0], vec![30_000, 40_001]];
    let (_, ngroups2) = cluster_assign(&pool2, 2, CLUSTER_TOL);
    assert_eq!(ngroups2, 2);
}
