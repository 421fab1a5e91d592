//! What holds of every run of the iteration, proved over its model.

use vstd::prelude::*;
use vstd::set_lib::{lemma_int_range, lemma_subset_equality, set_int_range};
use crate::assign::{closest, lemma_closest_is_closest, memberships};
use crate::converge::{displacement, lemma_displacement_self};
use crate::engine::{lloyd, lloyd_step, FitOutcome};
use crate::points::{lemma_sq_dist_prefix_bounds, lemma_sq_dist_zero, rectangular, sq_dist};
use crate::rolling_mean::{column_sum, lemma_rounded_mean_of_copies, rounded_mean};
use crate::sampler::{gather, valid_sample};
use crate::update::{
    cluster_count,
    lemma_cluster_count_bounds,
    lemma_cluster_of_all,
    lemma_cluster_of_copies,
    updated_centroid,
};

verus! {

/// The centroids that a run ends with.
pub open spec fn final_centroids(outcome: FitOutcome) -> Seq<Seq<i32>> {
    match outcome {
        FitOutcome::Converged { centroids, iterations } => centroids,
        FitOutcome::TimedOut { centroids } => centroids,
    }
}

/// A run never changes the shape of the centroid set: it ends with one
/// centroid per cluster, each of the dimension it started with, also where a
/// cluster lost all its members on the way. A run that converges has spent
/// at least one iteration and no more than the cap.
pub proof fn lemma_run_keeps_shape(
    points: Seq<Seq<i32>>,
    centroids: Seq<Seq<i32>>,
    width: int,
    tolerance: int,
    max_iterations: nat,
    done: nat,
)
    requires
        rectangular(centroids, width),
        done <= max_iterations,
    ensures
        final_centroids(lloyd(points, centroids, tolerance, max_iterations, done)).len()
            == centroids.len(),
        rectangular(
            final_centroids(lloyd(points, centroids, tolerance, max_iterations, done)),
            width,
        ),
        lloyd(points, centroids, tolerance, max_iterations, done) matches FitOutcome::Converged {
            centroids: fitted,
            iterations,
        } ==> done < iterations <= max_iterations,
    decreases max_iterations - done,
{
    if done < max_iterations {
        let next = lloyd_step(points, centroids);
        assert forall|t: int| 0 <= t < next.len() implies (#[trigger] next[t]).len() == width by {
            assert(centroids[t].len() == width);
        }
        if displacement(centroids, next) >= tolerance {
            lemma_run_keeps_shape(points, next, width, tolerance, max_iterations, done + 1);
        }
    }
}

/// The mean of all points, each coordinate rounded to the grid.
pub open spec fn grid_mean(points: Seq<Seq<i32>>) -> Seq<i32> {
    Seq::new(
        points[0].len(),
        |j: int| rounded_mean(column_sum(points, j, points.len() as int), points.len() as int) as i32,
    )
}

/// With a single cluster, one iteration moves the centroid to the mean of
/// all points, wherever it was before.
pub proof fn lemma_single_cluster_step(points: Seq<Seq<i32>>, centroids: Seq<Seq<i32>>)
    requires
        points.len() >= 1,
        centroids.len() == 1,
        centroids[0].len() == points[0].len(),
    ensures
        lloyd_step(points, centroids) == seq![grid_mean(points)],
{
    let a = memberships(points, centroids);
    let n = points.len() as int;
    assert forall|i: int| 0 <= i < n implies a[i] == 0 by {
        assert(closest(centroids, points[i]) == 0);
    }
    lemma_cluster_of_all(points, a, 0, 0, n);
    let moved = updated_centroid(points, a, centroids, 0);
    assert forall|j: int| 0 <= j < moved.len() implies moved[j] == grid_mean(points)[j] by {
        lemma_cluster_of_all(points, a, 0, j, n);
    }
    assert(moved =~= grid_mean(points));
    assert(lloyd_step(points, centroids) =~= seq![grid_mean(points)]);
}

/// With a single cluster, a fit converges from any first centroid: at the
/// latest the second iteration finds the centroid at rest, and the centroid
/// it returns is the mean of all points.
pub proof fn lemma_single_cluster_fit(
    points: Seq<Seq<i32>>,
    centroids: Seq<Seq<i32>>,
    tolerance: int,
    max_iterations: nat,
)
    requires
        points.len() >= 1,
        centroids.len() == 1,
        centroids[0].len() == points[0].len(),
        tolerance >= 1,
        max_iterations >= 2,
    ensures
        lloyd(points, centroids, tolerance, max_iterations, 0) matches FitOutcome::Converged {
            centroids: fitted,
            iterations,
        } && fitted == seq![grid_mean(points)] && 1 <= iterations <= 2,
{
    let next = lloyd_step(points, centroids);
    lemma_single_cluster_step(points, centroids);
    if displacement(centroids, next) >= tolerance {
        lemma_single_cluster_step(points, next);
        lemma_displacement_self(next, 1);
        assert(lloyd(points, next, tolerance, max_iterations, 1) == FitOutcome::Converged {
            centroids: next,
            iterations: 2,
        });
    }
}

/// A sample of as many distinct indices as there are points names every
/// point.
pub proof fn lemma_full_sample_covers(indices: Seq<usize>, n: int, i: int)
    requires
        valid_sample(indices, n, n),
        0 <= i < n,
    ensures
        exists|t: int| 0 <= t < n && #[trigger] indices[t] == i,
{
    let as_ints = Seq::new(indices.len(), |t: int| indices[t] as int);
    assert(as_ints.no_duplicates());
    as_ints.unique_seq_to_set();
    lemma_int_range(0, n);
    assert(as_ints.to_set().subset_of(set_int_range(0, n))) by {
        assert forall|v: int| as_ints.to_set().contains(v) implies set_int_range(0, n).contains(
            v,
        ) by {
            let t = choose|t: int| 0 <= t < as_ints.len() && as_ints[t] == v;
            assert(indices[t] < n);
        }
    }
    vstd::set_lib::lemma_len_subset(as_ints.to_set(), set_int_range(0, n));
    lemma_subset_equality(as_ints.to_set(), set_int_range(0, n));
    assert(set_int_range(0, n).contains(i));
    assert(as_ints.to_set().contains(i));
    let t = choose|t: int| 0 <= t < as_ints.len() && as_ints[t] == i;
    assert(indices[t] == i);
}

/// Where every point is one of the centroids, an iteration leaves every
/// centroid where it is.
pub proof fn lemma_step_rests_on_points(points: Seq<Seq<i32>>, centroids: Seq<Seq<i32>>, width: int)
    requires
        1 <= centroids.len() <= usize::MAX,
        rectangular(points, width),
        rectangular(centroids, width),
        forall|i: int|
            0 <= i < points.len() ==> exists|t: int|
                0 <= t < centroids.len() && centroids[t] == #[trigger] points[i],
    ensures
        lloyd_step(points, centroids) == centroids,
{
    let a = memberships(points, centroids);
    let n = points.len() as int;
    assert forall|i: int| 0 <= i < n implies points[i] == centroids[a[i] as int] by {
        let p = points[i];
        let t = choose|t: int| 0 <= t < centroids.len() && centroids[t] == p;
        lemma_closest_is_closest(centroids, p);
        let m = closest(centroids, p);
        assert(a[i] == m);
        lemma_sq_dist_zero(p, centroids[t]);
        assert(sq_dist(p, centroids[m]) <= sq_dist(p, centroids[t]));
        lemma_sq_dist_prefix_bounds(p, centroids[m], p.len() as int);
        lemma_sq_dist_zero(p, centroids[m]);
    }
    let next = lloyd_step(points, centroids);
    assert forall|t: int| 0 <= t < centroids.len() implies next[t] == centroids[t] by {
        let members = cluster_count(a, t, n);
        lemma_cluster_count_bounds(a, t, n);
        let moved = updated_centroid(points, a, centroids, t);
        if members > 0 {
            assert forall|j: int| 0 <= j < moved.len() implies moved[j] == centroids[t][j] by {
                let v = centroids[t][j] as int;
                lemma_cluster_of_copies(points, a, t, j, n, v);
                lemma_rounded_mean_of_copies(v, members);
            }
            assert(moved =~= centroids[t]);
        }
    }
    assert(next =~= centroids);
}

/// With as many clusters as points, every point is its own centroid from
/// the start: the first iteration moves nothing, and the fit converges at
/// once on the centroids that were drawn.
pub proof fn lemma_one_cluster_per_point(
    points: Seq<Seq<i32>>,
    indices: Seq<usize>,
    width: int,
    tolerance: int,
    max_iterations: nat,
)
    requires
        1 <= points.len() <= usize::MAX,
        rectangular(points, width),
        valid_sample(indices, points.len() as int, points.len() as int),
        tolerance >= 1,
        max_iterations >= 1,
    ensures
        lloyd_step(points, gather(points, indices)) == gather(points, indices),
        lloyd(points, gather(points, indices), tolerance, max_iterations, 0)
            == (FitOutcome::Converged { centroids: gather(points, indices), iterations: 1 }),
{
    let centroids = gather(points, indices);
    let n = points.len() as int;
    assert forall|i: int| 0 <= i < n implies exists|t: int|
        0 <= t < centroids.len() && centroids[t] == #[trigger] points[i] by {
        lemma_full_sample_covers(indices, n, i);
        let t = choose|t: int| 0 <= t < n && #[trigger] indices[t] == i;
        assert(centroids[t] == points[i]);
    }
    lemma_step_rests_on_points(points, centroids, width);
    lemma_displacement_self(centroids, centroids.len() as int);
}

} // verus!
