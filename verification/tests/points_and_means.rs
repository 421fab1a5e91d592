use k_means::points::{copy_point, sq_l2_dist, PointSet};
use k_means::rolling_mean::RollingMean;

#[test]
fn squared_distance_of_small_points() {
    assert_eq!(sq_l2_dist(&vec![0, 0], &vec![3, 4]), 25);
    assert_eq!(sq_l2_dist(&vec![1, -2, 3], &vec![1, -2, 3]), 0);
    assert_eq!(sq_l2_dist(&vec![-1], &vec![1]), 4);
    assert_eq!(sq_l2_dist(&vec![], &vec![]), 0);
}

#[test]
fn squared_distance_at_the_ends_of_the_range() {
    let low = vec![i32::MIN, i32::MIN];
    let high = vec![i32::MAX, i32::MAX];
    let side: u128 = 4294967295;
    assert_eq!(sq_l2_dist(&low, &high), 2 * side * side);
    assert_eq!(sq_l2_dist(&high, &low), 36893488130239234050);
}

#[test]
fn point_set_from_rows_keeps_rows_in_order() {
    let set = PointSet::from_rows(vec![vec![1, 2, 3], vec![4, 5, 6]]).unwrap();
    assert_eq!(set.n_samples(), 2);
    assert_eq!(set.n_features(), 3);
    assert_eq!(set.row(1), &vec![4, 5, 6]);
    assert_eq!(set.to_rows(), vec![vec![1, 2, 3], vec![4, 5, 6]]);
}

#[test]
fn point_set_refuses_ragged_rows() {
    assert!(PointSet::from_rows(vec![vec![1, 2], vec![3]]).is_none());
    assert!(PointSet::from_rows(vec![vec![1], vec![2], vec![3, 4]]).is_none());
}

#[test]
fn point_set_without_rows() {
    let set = PointSet::from_rows(vec![]).unwrap();
    assert_eq!(set.n_samples(), 0);
    assert_eq!(set.n_features(), 0);
    let mut grown = PointSet::new(2);
    assert_eq!(grown.n_features(), 2);
    grown.push_row(vec![7, 8]);
    assert_eq!(grown.to_rows(), vec![vec![7, 8]]);
}

#[test]
fn copy_of_a_point_is_equal() {
    assert_eq!(copy_point(&vec![5, -6, 7]), vec![5, -6, 7]);
}

#[test]
fn rolling_mean_of_one_point_is_the_point() {
    let mean = RollingMean::new(vec![4, -9, 0]);
    assert_eq!(mean.n_samples(), 1);
    assert_eq!(mean.current_mean(), vec![4, -9, 0]);
}

#[test]
fn rolling_mean_is_the_arithmetic_mean() {
    let mut mean = RollingMean::new(vec![1, 2]);
    mean.accumulate(&vec![3, 4]);
    assert_eq!(mean.current_mean(), vec![2, 3]);
    mean.accumulate(&vec![8, 0]);
    assert_eq!(mean.n_samples(), 3);
    assert_eq!(mean.current_mean(), vec![4, 2]);
}

#[test]
fn rolling_mean_rounds_to_nearest_and_halves_up() {
    let mut mean = RollingMean::new(vec![0, -1, -3, 1, 0]);
    mean.accumulate(&vec![1, 0, -4, 1, 0]);
    // 0.5 -> 1, -0.5 -> 0, -3.5 -> -3
    assert_eq!(mean.current_mean(), vec![1, 0, -3, 1, 0]);
    mean.accumulate(&vec![0, 0, -4, 2, 1]);
    // 1/3 -> 0, -1/3 -> 0, -11/3 -> -4, 4/3 -> 1, 1/3 -> 0
    assert_eq!(mean.current_mean(), vec![0, 0, -4, 1, 0]);
}

#[test]
fn rolling_mean_at_the_ends_of_the_range() {
    let mut mean = RollingMean::new(vec![i32::MAX, i32::MIN, i32::MAX]);
    mean.accumulate(&vec![i32::MAX, i32::MIN, i32::MIN]);
    assert_eq!(mean.current_mean(), vec![i32::MAX, i32::MIN, 0]);
    mean.accumulate(&vec![i32::MAX, i32::MIN, i32::MIN]);
    assert_eq!(mean.current_mean(), vec![i32::MAX, i32::MIN, -715827883]);
}

fn folded(points: &[Vec<i32>]) -> Vec<i32> {
    let mut mean = RollingMean::new(points[0].clone());
    for p in &points[1..] {
        mean.accumulate(p);
    }
    mean.current_mean()
}

#[test]
fn rolling_mean_does_not_depend_on_the_order() {
    let a = vec![7, -2];
    let b = vec![-100, 41];
    let c = vec![13, 13];
    let d = vec![0, 5];
    let expected = vec![-20, 14];
    let orders = vec![
        vec![a.clone(), b.clone(), c.clone(), d.clone()],
        vec![d.clone(), c.clone(), b.clone(), a.clone()],
        vec![b.clone(), a.clone(), d.clone(), c.clone()],
        vec![c.clone(), d.clone(), a.clone(), b.clone()],
        vec![b.clone(), d.clone(), a.clone(), c.clone()],
    ];
    for order in &orders {
        assert_eq!(folded(order), expected);
    }
}
