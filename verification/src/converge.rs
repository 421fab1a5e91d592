//! The convergence test: how far did the centroids move in one iteration?

use vstd::prelude::*;
use crate::points::{lemma_sq_dist_prefix_bounds, lemma_sq_dist_zero, sq_dist, sq_l2_dist, PointSet};

verus! {

/// The summed squared distance between the first `n` rows of `a` and the
/// rows of `b` at the same index.
pub open spec fn displacement_prefix(a: Seq<Seq<i32>>, b: Seq<Seq<i32>>, n: int) -> int
    decreases n,
{
    if n <= 0 {
        0
    } else {
        displacement_prefix(a, b, n - 1) + sq_dist(a[n - 1], b[n - 1])
    }
}

/// The total displacement between two centroid sets of the same shape: the
/// sum over all clusters of the squared distance between the old and the new
/// centroid.
pub open spec fn displacement(a: Seq<Seq<i32>>, b: Seq<Seq<i32>>) -> int {
    displacement_prefix(a, b, a.len() as int)
}

/// The displacement only grows with the number of rows counted.
pub proof fn lemma_displacement_prefix_monotone(
    a: Seq<Seq<i32>>,
    b: Seq<Seq<i32>>,
    m: int,
    n: int,
)
    requires
        0 <= m <= n <= a.len(),
        a.len() == b.len(),
        forall|t: int| 0 <= t < a.len() ==> (#[trigger] a[t]).len() == b[t].len(),
    ensures
        0 <= displacement_prefix(a, b, m) <= displacement_prefix(a, b, n),
    decreases n,
{
    if n > 0 {
        lemma_sq_dist_prefix_bounds(a[n - 1], b[n - 1], a[n - 1].len() as int);
        if m < n {
            lemma_displacement_prefix_monotone(a, b, m, n - 1);
        } else {
            lemma_displacement_prefix_monotone(a, b, m - 1, n - 1);
        }
    }
}

/// Two equal centroid sets are at displacement zero.
pub proof fn lemma_displacement_self(a: Seq<Seq<i32>>, n: int)
    requires
        0 <= n <= a.len(),
    ensures
        displacement_prefix(a, a, n) == 0,
    decreases n,
{
    if n > 0 {
        lemma_displacement_self(a, n - 1);
        lemma_sq_dist_zero(a[n - 1], a[n - 1]);
    }
}

/// Whether the centroids have settled: the total displacement from
/// `previous` to `new_centroids` is strictly below `tolerance`.
pub fn has_converged(previous: &PointSet, new_centroids: &PointSet, tolerance: u128) -> (settled:
    bool)
    requires
        previous.wf(),
        new_centroids.wf(),
        previous@.len() == new_centroids@.len(),
        previous.width() == new_centroids.width(),
    ensures
        settled == (displacement(previous@, new_centroids@) < tolerance),
{
    let k: usize = previous.n_samples();
    let mut total: u128 = 0;
    let mut t: usize = 0;
    while t < k
        invariant
            previous.wf(),
            new_centroids.wf(),
            k == previous@.len(),
            k == new_centroids@.len(),
            previous.width() == new_centroids.width(),
            t <= k,
            total == displacement_prefix(previous@, new_centroids@, t as int),
        decreases k - t,
    {
        let moved: u128 = sq_l2_dist(previous.row(t), new_centroids.row(t));
        if tolerance <= total || moved >= tolerance - total {
            proof {
                lemma_displacement_prefix_monotone(previous@, new_centroids@, t + 1, k as int);
            }
            return false;
        }
        total = total + moved;
        t = t + 1;
    }
    total < tolerance
}

} // verus!
