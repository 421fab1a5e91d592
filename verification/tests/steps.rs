use k_means::assign::{assign_clusters, find_closest_centroid};
use k_means::converge::has_converged;
use k_means::points::{sq_l2_dist, PointSet};
use k_means::sampler::{get_random_centroids, select_rows};
use k_means::error::KMeansError;
use k_means::update::compute_centroids;

fn set(rows: Vec<Vec<i32>>) -> PointSet {
    PointSet::from_rows(rows).unwrap()
}

#[test]
fn closest_centroid_is_the_nearest() {
    let centroids = set(vec![vec![0, 0], vec![10, 10], vec![-10, 5]]);
    assert_eq!(find_closest_centroid(&centroids, &vec![9, 8]), 1);
    assert_eq!(find_closest_centroid(&centroids, &vec![-7, 3]), 2);
    assert_eq!(find_closest_centroid(&centroids, &vec![1, -1]), 0);
}

#[test]
fn closest_centroid_of_a_single_centroid() {
    let centroids = set(vec![vec![1000, -1000]]);
    assert_eq!(find_closest_centroid(&centroids, &vec![0, 0]), 0);
}

#[test]
fn equal_centroids_give_the_first() {
    let centroids = set(vec![vec![3, 3], vec![3, 3], vec![3, 3]]);
    assert_eq!(find_closest_centroid(&centroids, &vec![8, 1]), 0);
    let later = set(vec![vec![9, 9], vec![3, 3], vec![3, 3]]);
    assert_eq!(find_closest_centroid(&later, &vec![3, 3]), 1);
}

#[test]
fn update_takes_the_mean_of_each_cluster() {
    let data = set(vec![vec![0, 0], vec![2, 4], vec![10, 10], vec![4, 2], vec![12, 14]]);
    let previous = set(vec![vec![1, 1], vec![9, 9]]);
    let updated = compute_centroids(&data, &vec![0, 0, 1, 0, 1], &previous);
    assert_eq!(updated.to_rows(), vec![vec![2, 2], vec![11, 12]]);
}

#[test]
fn update_keeps_the_centroid_of_an_empty_cluster() {
    let data = set(vec![vec![0, 0], vec![2, 2], vec![4, 4]]);
    let previous = set(vec![vec![1, 1], vec![50, 60], vec![3, 3]]);
    let updated = compute_centroids(&data, &vec![0, 0, 2], &previous);
    assert_eq!(updated.n_samples(), 3);
    assert_eq!(updated.to_rows(), vec![vec![1, 1], vec![50, 60], vec![4, 4]]);
}

#[test]
fn update_without_points_keeps_all_centroids() {
    let data = PointSet::new(2);
    let previous = set(vec![vec![1, 2], vec![3, 4]]);
    let updated = compute_centroids(&data, &vec![], &previous);
    assert_eq!(updated.to_rows(), vec![vec![1, 2], vec![3, 4]]);
}

#[test]
fn convergence_is_strictly_below_the_tolerance() {
    let previous = set(vec![vec![0, 0], vec![10, 10]]);
    let moved = set(vec![vec![1, 2], vec![10, 13]]);
    // displacement 1 + 4 + 9 = 14
    assert!(!has_converged(&previous, &moved, 14));
    assert!(has_converged(&previous, &moved, 15));
    assert!(!has_converged(&previous, &moved, 1));
    assert!(!has_converged(&previous, &moved, 0));
    assert!(has_converged(&previous, &previous, 1));
    assert!(!has_converged(&previous, &previous, 0));
}

#[test]
fn convergence_with_the_largest_displacements() {
    let low = set(vec![vec![i32::MIN; 4], vec![i32::MIN; 4]]);
    let high = set(vec![vec![i32::MAX; 4], vec![i32::MAX; 4]]);
    let side: u128 = 4294967295;
    let total: u128 = 8 * side * side;
    assert!(!has_converged(&low, &high, total));
    assert!(has_converged(&low, &high, total + 1));
    assert!(has_converged(&low, &high, u128::MAX));
}

#[test]
fn selected_rows_follow_the_indices() {
    let data = set(vec![vec![0, 1], vec![10, 11], vec![20, 21], vec![30, 31]]);
    let selected = select_rows(&data, &vec![3, 0, 2]);
    assert_eq!(selected.to_rows(), vec![vec![30, 31], vec![0, 1], vec![20, 21]]);
    assert_eq!(select_rows(&data, &vec![]).n_samples(), 0);
}

#[test]
fn random_centroids_are_distinct_points_of_the_data() {
    let rows: Vec<Vec<i32>> = (0..50).map(|i| vec![i, 2 * i]).collect();
    let data = set(rows.clone());
    for seed in 0..20u64 {
        let centroids = get_random_centroids(7, &data, seed).unwrap().to_rows();
        assert_eq!(centroids.len(), 7);
        for (t, c) in centroids.iter().enumerate() {
            assert!(rows.contains(c));
            for other in &centroids[..t] {
                assert_ne!(c, other);
            }
        }
    }
}

#[test]
fn random_centroids_with_as_many_clusters_as_points() {
    let rows: Vec<Vec<i32>> = (0..9).map(|i| vec![i * i]).collect();
    let data = set(rows.clone());
    let mut centroids = get_random_centroids(9, &data, 3).unwrap().to_rows();
    centroids.sort();
    assert_eq!(centroids, rows);
}

#[test]
fn random_centroids_repeat_with_the_seed() {
    let data = set((0..100).map(|i| vec![i]).collect());
    let first = get_random_centroids(5, &data, 42).unwrap().to_rows();
    let second = get_random_centroids(5, &data, 42).unwrap().to_rows();
    assert_eq!(first, second);
}

#[test]
fn random_centroids_refuse_a_bad_cluster_count() {
    let data = set(vec![vec![1], vec![2], vec![3]]);
    assert_eq!(
        get_random_centroids(0, &data, 1).err(),
        Some(KMeansError::ConfigurationError)
    );
    assert_eq!(
        get_random_centroids(4, &data, 1).err(),
        Some(KMeansError::ConfigurationError)
    );
    assert!(get_random_centroids(3, &data, 1).is_ok());
    let none = PointSet::new(1);
    assert_eq!(
        get_random_centroids(1, &none, 1).err(),
        Some(KMeansError::ConfigurationError)
    );
}

fn objective(data: &PointSet, centroids: &PointSet, memberships: &[usize]) -> u128 {
    let mut total = 0;
    for (i, t) in memberships.iter().enumerate() {
        total += sq_l2_dist(data.row(i), centroids.row(*t));
    }
    total
}

#[test]
fn objective_never_increases_over_iterations() {
    let data = set(vec![
        vec![0, 0],
        vec![1, 7],
        vec![9, 2],
        vec![3, 3],
        vec![-5, 8],
        vec![12, -4],
        vec![6, 6],
        vec![-8, -8],
        vec![5, 1],
    ]);
    let mut centroids = set(vec![vec![0, 0], vec![1, 7], vec![9, 2]]);
    let mut memberships = assign_clusters(&data, &centroids);
    let mut last = objective(&data, &centroids, &memberships);
    assert_eq!(last, 270);
    for _ in 0..6 {
        let next = compute_centroids(&data, &memberships, &centroids);
        assert!(objective(&data, &next, &memberships) <= last);
        let next_memberships = assign_clusters(&data, &next);
        let now = objective(&data, &next, &next_memberships);
        assert!(now <= objective(&data, &next, &memberships));
        assert!(now <= last);
        last = now;
        centroids = next;
        memberships = next_memberships;
    }
}

#[test]
fn update_does_not_depend_on_the_order_of_the_points() {
    let previous = set(vec![vec![1, 1], vec![9, 9], vec![-4, 0]]);
    let rows = vec![vec![0, 0], vec![2, 5], vec![10, 10], vec![4, 2], vec![13, 14]];
    let memberships = vec![0, 0, 1, 0, 1];
    let expected = vec![vec![2, 2], vec![12, 12], vec![-4, 0]];
    let orders: Vec<Vec<usize>> = vec![
        vec![0, 1, 2, 3, 4],
        vec![4, 3, 2, 1, 0],
        vec![2, 0, 4, 1, 3],
        vec![3, 4, 0, 2, 1],
    ];
    for order in &orders {
        let data = set(order.iter().map(|i| rows[*i].clone()).collect());
        let labels: Vec<usize> = order.iter().map(|i| memberships[*i]).collect();
        assert_eq!(compute_centroids(&data, &labels, &previous).to_rows(), expected);
    }
}
