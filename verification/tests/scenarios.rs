use k_means::assign::{assign_clusters, find_closest_centroid};
use k_means::converge::has_converged;
use k_means::engine::{KMeans, DEFAULT_MAX_ITERATIONS, DEFAULT_TOLERANCE};
use k_means::error::KMeansError;
use k_means::points::{sq_l2_dist, PointSet};
use k_means::update::compute_centroids;

fn four_points() -> PointSet {
    PointSet::from_rows(vec![vec![0, 0], vec![0, 2], vec![10, 0], vec![10, 2]]).unwrap()
}

#[test]
fn two_clusters_first_pass_assignment() {
    let data = four_points();
    let centroids = PointSet::from_rows(vec![vec![0, 0], vec![10, 0]]).unwrap();
    assert_eq!(assign_clusters(&data, &centroids), vec![0, 0, 1, 1]);
}

#[test]
fn two_clusters_first_pass_update() {
    let data = four_points();
    let centroids = PointSet::from_rows(vec![vec![0, 0], vec![10, 0]]).unwrap();
    let memberships = assign_clusters(&data, &centroids);
    let updated = compute_centroids(&data, &memberships, &centroids);
    assert_eq!(updated.to_rows(), vec![vec![0, 1], vec![10, 1]]);
    assert!(!has_converged(&centroids, &updated, DEFAULT_TOLERANCE));
    let again = compute_centroids(&data, &assign_clusters(&data, &updated), &updated);
    assert_eq!(again.to_rows(), vec![vec![0, 1], vec![10, 1]]);
    assert!(has_converged(&updated, &again, DEFAULT_TOLERANCE));
}

#[test]
fn two_clusters_fit_from_given_centroids() {
    let data = four_points();
    let initial = PointSet::from_rows(vec![vec![0, 0], vec![10, 0]]).unwrap();
    let mut engine = KMeans::new(2);
    let iterations = engine.fit_from_centroids(&data, initial);
    assert_eq!(iterations, Ok(2));
    assert_eq!(
        engine.centroids.as_ref().unwrap().to_rows(),
        vec![vec![0, 1], vec![10, 1]]
    );
    assert_eq!(engine.predict(&data), Ok(vec![0, 0, 1, 1]));
}

#[test]
fn more_clusters_than_points_is_refused() {
    let data = PointSet::from_rows(vec![vec![1, 1], vec![2, 2], vec![3, 3]]).unwrap();
    let mut engine = KMeans::new(5);
    assert_eq!(engine.fit(&data, 7), Err(KMeansError::ConfigurationError));
    assert!(engine.centroids.is_none());
    assert_eq!(
        engine.predict(&data),
        Err(KMeansError::UnfittedModelError)
    );
}

#[test]
fn tie_goes_to_lowest_index() {
    let centroids = PointSet::from_rows(vec![vec![4, 0], vec![-2, 0], vec![2, 0]]).unwrap();
    let sample = vec![0, 0];
    assert_eq!(sq_l2_dist(&sample, centroids.row(1)), 4);
    assert_eq!(sq_l2_dist(&sample, centroids.row(2)), 4);
    for _ in 0..5 {
        assert_eq!(find_closest_centroid(&centroids, &sample), 1);
    }
}

#[test]
fn defaults_of_a_new_engine() {
    assert_eq!(DEFAULT_TOLERANCE, 1);
    assert_eq!(DEFAULT_MAX_ITERATIONS, 300);
    let engine = KMeans::new(3);
    assert!(engine.centroids.is_none());
}
