use k_means::engine::{EngineState, KMeans};
use k_means::error::KMeansError;
use k_means::points::PointSet;

fn set(rows: Vec<Vec<i32>>) -> PointSet {
    PointSet::from_rows(rows).unwrap()
}

#[test]
fn new_engine_is_uninitialized() {
    let engine = KMeans::new(4);
    assert_eq!(engine.n_clusters(), 4);
    assert_eq!(engine.tolerance(), 1);
    assert_eq!(engine.max_iterations(), 300);
    assert_eq!(engine.state(), EngineState::Uninitialized);
    assert!(engine.centroids.is_none());
}

#[test]
fn builders_change_one_setting() {
    let engine = KMeans::new(2).with_tolerance(77).with_max_iterations(5);
    assert_eq!(engine.n_clusters(), 2);
    assert_eq!(engine.tolerance(), 77);
    assert_eq!(engine.max_iterations(), 5);
    assert_eq!(engine.state(), EngineState::Uninitialized);
}

#[test]
fn single_cluster_converges_to_the_mean() {
    let data = set(vec![vec![0, 10], vec![4, 20], vec![8, 60], vec![100, -2]]);
    for seed in 0..10u64 {
        let mut engine = KMeans::new(1);
        let iterations = engine.fit(&data, seed).unwrap();
        assert!(iterations >= 1 && iterations <= 2);
        assert_eq!(engine.state(), EngineState::Converged);
        assert_eq!(engine.centroids.as_ref().unwrap().to_rows(), vec![vec![28, 22]]);
    }
}

#[test]
fn one_cluster_per_point_converges_at_once() {
    let rows = vec![vec![5, 5], vec![-3, 9], vec![0, 0], vec![7, -7], vec![2, 2]];
    let data = set(rows.clone());
    for seed in 0..10u64 {
        let mut engine = KMeans::new(5);
        assert_eq!(engine.fit(&data, seed), Ok(1));
        let mut centroids = engine.centroids.as_ref().unwrap().to_rows();
        centroids.sort();
        let mut expected = rows.clone();
        expected.sort();
        assert_eq!(centroids, expected);
    }
}

#[test]
fn one_cluster_per_point_with_equal_points() {
    let rows = vec![vec![1, 1], vec![1, 1], vec![4, 4]];
    let data = set(rows.clone());
    let mut engine = KMeans::new(3);
    assert_eq!(engine.fit(&data, 11), Ok(1));
    let mut centroids = engine.centroids.as_ref().unwrap().to_rows();
    centroids.sort();
    assert_eq!(centroids, rows);
}

#[test]
fn two_far_groups_are_told_apart() {
    let mut rows = Vec::new();
    for i in 0..20 {
        rows.push(vec![1000 + i % 3, 1000 - i % 2, 1000]);
        rows.push(vec![-1000 - i % 3, -1000 + i % 2, -1000]);
    }
    let data = set(rows);
    for seed in 0..5u64 {
        let mut engine = KMeans::new(2);
        assert!(engine.fit(&data, seed).is_ok());
        let mut centroids = engine.centroids.as_ref().unwrap().to_rows();
        centroids.sort();
        assert_eq!(centroids, vec![vec![-1001, -999, -1000], vec![1001, 1000, 1000]]);
        let labels = engine.predict(&set(vec![vec![900, 900, 900], vec![-900, -900, -900]]));
        let labels = labels.unwrap();
        assert_ne!(labels[0], labels[1]);
    }
}

#[test]
fn no_cluster_is_refused() {
    let data = set(vec![vec![1], vec![2]]);
    let mut engine = KMeans::new(0);
    assert_eq!(engine.fit(&data, 0), Err(KMeansError::ConfigurationError));
    assert_eq!(engine.state(), EngineState::Uninitialized);
    assert!(engine.centroids.is_none());
}

#[test]
fn refused_fit_keeps_the_centroids_of_an_earlier_fit() {
    let data = set(vec![vec![0, 0], vec![0, 2], vec![10, 0], vec![10, 2]]);
    let mut engine = KMeans::new(2);
    assert_eq!(
        engine.fit_from_centroids(&data, set(vec![vec![0, 0], vec![10, 0]])),
        Ok(2)
    );
    let fitted = vec![vec![0, 1], vec![10, 1]];
    assert_eq!(engine.centroids.as_ref().unwrap().to_rows(), fitted);

    let too_few = set(vec![vec![5, 5]]);
    assert_eq!(engine.fit(&too_few, 9), Err(KMeansError::ConfigurationError));
    assert_eq!(engine.state(), EngineState::Converged);
    assert_eq!(engine.centroids.as_ref().unwrap().to_rows(), fitted);
    assert_eq!(engine.predict(&data), Ok(vec![0, 0, 1, 1]));

    let r = engine.fit_from_centroids(&data, set(vec![vec![1, 1, 1], vec![2, 2, 2]]));
    assert_eq!(r, Err(KMeansError::ConfigurationError));
    assert_eq!(engine.state(), EngineState::Converged);
    assert_eq!(engine.centroids.as_ref().unwrap().to_rows(), fitted);
    assert_eq!(engine.predict(&data), Ok(vec![0, 0, 1, 1]));
}

#[test]
fn refused_fit_keeps_the_state_of_a_timed_out_fit() {
    let data = set(vec![vec![0, 0], vec![0, 2], vec![10, 0], vec![10, 2]]);
    let mut engine = KMeans::new(2).with_max_iterations(1);
    let r = engine.fit_from_centroids(&data, set(vec![vec![0, 0], vec![10, 0]]));
    assert_eq!(r, Err(KMeansError::ConvergenceTimeout));
    let r = engine.fit(&set(vec![vec![3, 3]]), 1);
    assert_eq!(r, Err(KMeansError::ConfigurationError));
    assert_eq!(
        engine.state(),
        EngineState::Failed(KMeansError::ConvergenceTimeout)
    );
    assert_eq!(
        engine.centroids.as_ref().unwrap().to_rows(),
        vec![vec![0, 1], vec![10, 1]]
    );
}

#[test]
fn fit_from_centroids_checks_their_shape() {
    let data = set(vec![vec![1, 1], vec![2, 2], vec![3, 3]]);
    let mut engine = KMeans::new(2);
    assert_eq!(
        engine.fit_from_centroids(&data, set(vec![vec![1, 1]])),
        Err(KMeansError::ConfigurationError)
    );
    assert_eq!(
        engine.fit_from_centroids(&data, set(vec![vec![1], vec![2]])),
        Err(KMeansError::ConfigurationError)
    );
    assert!(engine.centroids.is_none());
    assert_eq!(
        engine.fit_from_centroids(&data, set(vec![vec![1, 1], vec![3, 3]])),
        Ok(2)
    );
    assert_eq!(
        engine.centroids.as_ref().unwrap().to_rows(),
        vec![vec![2, 2], vec![3, 3]]
    );
}

#[test]
fn iteration_cap_gives_a_timeout_and_keeps_the_last_centroids() {
    let data = set(vec![vec![0, 0], vec![0, 2], vec![10, 0], vec![10, 2]]);
    let mut engine = KMeans::new(2).with_max_iterations(1);
    let r = engine.fit_from_centroids(&data, set(vec![vec![0, 0], vec![10, 0]]));
    assert_eq!(r, Err(KMeansError::ConvergenceTimeout));
    assert_eq!(
        engine.state(),
        EngineState::Failed(KMeansError::ConvergenceTimeout)
    );
    assert_eq!(
        engine.centroids.as_ref().unwrap().to_rows(),
        vec![vec![0, 1], vec![10, 1]]
    );
    assert_eq!(engine.predict(&data), Err(KMeansError::UnfittedModelError));
}

#[test]
fn no_iterations_allowed_times_out_on_the_first_centroids() {
    let data = set(vec![vec![0], vec![4]]);
    let mut engine = KMeans::new(1).with_max_iterations(0);
    let r = engine.fit_from_centroids(&data, set(vec![vec![4]]));
    assert_eq!(r, Err(KMeansError::ConvergenceTimeout));
    assert_eq!(engine.centroids.as_ref().unwrap().to_rows(), vec![vec![4]]);
}

#[test]
fn wide_tolerance_stops_after_one_iteration() {
    let data = set(vec![vec![0, 0], vec![0, 2], vec![10, 0], vec![10, 2]]);
    let mut engine = KMeans::new(2).with_tolerance(3);
    let r = engine.fit_from_centroids(&data, set(vec![vec![0, 0], vec![10, 0]]));
    assert_eq!(r, Ok(1));
    let mut exact = KMeans::new(2).with_tolerance(2);
    let r = exact.fit_from_centroids(&data, set(vec![vec![0, 0], vec![10, 0]]));
    assert_eq!(r, Ok(2));
}

#[test]
fn predict_before_fit_fails() {
    let engine = KMeans::new(2);
    let data = set(vec![vec![1, 2]]);
    assert_eq!(engine.predict(&data), Err(KMeansError::UnfittedModelError));
}

#[test]
fn predict_refuses_another_dimension() {
    let data = set(vec![vec![0, 0], vec![9, 9]]);
    let mut engine = KMeans::new(2);
    assert_eq!(engine.fit(&data, 5), Ok(1));
    let other = set(vec![vec![1, 2, 3]]);
    assert_eq!(engine.predict(&other), Err(KMeansError::ConfigurationError));
    let labels = engine.predict(&set(vec![vec![8, 8], vec![1, 0], vec![9, 9]])).unwrap();
    assert_eq!(labels[0], labels[2]);
    assert_ne!(labels[0], labels[1]);
}

#[test]
fn refit_after_failure_works() {
    let small = set(vec![vec![1]]);
    let data = set(vec![vec![1], vec![3], vec![100]]);
    let mut engine = KMeans::new(2);
    assert_eq!(engine.fit(&small, 0), Err(KMeansError::ConfigurationError));
    assert!(engine.fit(&data, 0).is_ok());
    assert_eq!(engine.state(), EngineState::Converged);
    let mut centroids = engine.centroids.as_ref().unwrap().to_rows();
    centroids.sort();
    assert_eq!(centroids, vec![vec![2], vec![100]]);
}
