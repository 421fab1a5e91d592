//! The clustering objective, and why an iteration never increases it.

use vstd::prelude::*;
use crate::assign::{closest, lemma_closest_is_closest, memberships};
use crate::engine::lloyd_step;
use crate::points::{rectangular, sq_dist, sq_dist_prefix};
use crate::rolling_mean::{lemma_rounded_mean_nearest, lemma_rounded_mean_range, rounded_mean};
use crate::update::{
    cluster_count,
    cluster_sum,
    lemma_cluster_count_bounds,
    lemma_cluster_sum_bounds,
    updated_centroid,
    updated_centroids,
    valid_memberships,
};

verus! {

/// The summed squared distance of the first `n` points to the centroids of
/// their clusters.
pub open spec fn objective_prefix(
    points: Seq<Seq<i32>>,
    centroids: Seq<Seq<i32>>,
    memberships: Seq<usize>,
    n: int,
) -> int
    decreases n,
{
    if n <= 0 {
        0
    } else {
        objective_prefix(points, centroids, memberships, n - 1) + sq_dist(
            points[n - 1],
            centroids[memberships[n - 1] as int],
        )
    }
}

/// The clustering objective: the summed squared distance of every point to
/// the centroid of its cluster.
pub open spec fn objective(
    points: Seq<Seq<i32>>,
    centroids: Seq<Seq<i32>>,
    memberships: Seq<usize>,
) -> int {
    objective_prefix(points, centroids, memberships, points.len() as int)
}

/// What cluster `t` gains on the first `m` coordinates of its members among
/// the first `n` points when its centroid moves from `c` to `r`.
spec fn gain(
    points: Seq<Seq<i32>>,
    memberships: Seq<usize>,
    t: int,
    c: Seq<i32>,
    r: Seq<i32>,
    m: int,
    n: int,
) -> int
    decreases n,
{
    if n <= 0 {
        0
    } else {
        gain(points, memberships, t, c, r, m, n - 1) + if memberships[n - 1] == t {
            sq_dist_prefix(points[n - 1], c, m) - sq_dist_prefix(points[n - 1], r, m)
        } else {
            0int
        }
    }
}

/// The gains of the first `k` clusters together.
spec fn total_gain(
    points: Seq<Seq<i32>>,
    memberships: Seq<usize>,
    before: Seq<Seq<i32>>,
    after: Seq<Seq<i32>>,
    width: int,
    k: int,
    n: int,
) -> int
    decreases k,
{
    if k <= 0 {
        0
    } else {
        total_gain(points, memberships, before, after, width, k - 1, n) + gain(
            points,
            memberships,
            k - 1,
            before[k - 1],
            after[k - 1],
            width,
            n,
        )
    }
}

proof fn lemma_gain_no_coordinates(
    points: Seq<Seq<i32>>,
    memberships: Seq<usize>,
    t: int,
    c: Seq<i32>,
    r: Seq<i32>,
    n: int,
)
    ensures
        gain(points, memberships, t, c, r, 0, n) == 0,
    decreases n,
{
    if n > 0 {
        lemma_gain_no_coordinates(points, memberships, t, c, r, n - 1);
    }
}

/// One more coordinate adds to the gain a term in the cluster's sum and
/// count alone.
proof fn lemma_gain_coordinate(
    points: Seq<Seq<i32>>,
    memberships: Seq<usize>,
    t: int,
    c: Seq<i32>,
    r: Seq<i32>,
    m: int,
    n: int,
)
    requires
        m >= 1,
    ensures
        gain(points, memberships, t, c, r, m, n) == gain(points, memberships, t, c, r, m - 1, n)
            + (r[m - 1] - c[m - 1]) * (2 * cluster_sum(points, memberships, t, m - 1, n)
            - cluster_count(memberships, t, n) * (r[m - 1] + c[m - 1])),
    decreases n,
{
    if n > 0 {
        lemma_gain_coordinate(points, memberships, t, c, r, m, n - 1);
        let s: int = cluster_sum(points, memberships, t, m - 1, n - 1);
        let cnt: int = cluster_count(memberships, t, n - 1);
        let c1: int = c[m - 1] as int;
        let r1: int = r[m - 1] as int;
        if memberships[n - 1] == t {
            let p: int = points[n - 1][m - 1] as int;
            assert((r1 - c1) * (2 * (s + p) - (cnt + 1) * (r1 + c1)) == (r1 - c1) * (2 * s - cnt
                * (r1 + c1)) + ((p - c1) * (p - c1) - (p - r1) * (p - r1))) by (nonlinear_arith);
        }
    } else {
        assert((r[m - 1] - c[m - 1]) * (2 * 0 - 0 * (r[m - 1] + c[m - 1])) == 0)
            by (nonlinear_arith);
    }
}

/// Moving a centroid from a grid point to the grid point nearest to the mean
/// of `count` values that sum to `sum` gains a non-negative amount.
proof fn lemma_nearest_gains(sum: int, count: int, c: int)
    requires
        count >= 1,
    ensures
        (rounded_mean(sum, count) - c) * (2 * sum - count * (rounded_mean(sum, count) + c)) >= 0,
{
    lemma_rounded_mean_nearest(sum, count);
    let r = rounded_mean(sum, count);
    let d = c - r;
    let e = 2 * sum - 2 * count * r;
    assert((r - c) * (2 * sum - count * (r + c)) == d * (count * d - e)) by (nonlinear_arith)
        requires
            d == c - r,
            e == 2 * sum - 2 * count * r,
    ;
    if d >= 1 {
        assert(d * (count * d - e) >= 0) by (nonlinear_arith)
            requires
                d >= 1,
                count >= 1,
                e < count,
        ;
    } else if d <= -1 {
        assert(d * (count * d - e) >= 0) by (nonlinear_arith)
            requires
                d <= -1,
                count >= 1,
                -count <= e,
        ;
    } else {
        assert(d * (count * d - e) == 0) by (nonlinear_arith)
            requires
                d == 0,
        ;
    }
}

/// A cluster gains a non-negative amount when its centroid is updated.
proof fn lemma_gain_nonnegative(
    points: Seq<Seq<i32>>,
    memberships: Seq<usize>,
    previous: Seq<Seq<i32>>,
    t: int,
    m: int,
)
    requires
        0 <= t < previous.len(),
        0 <= m <= previous[t].len(),
    ensures
        gain(
            points,
            memberships,
            t,
            previous[t],
            updated_centroid(points, memberships, previous, t),
            m,
            points.len() as int,
        ) >= 0,
    decreases m,
{
    let n = points.len() as int;
    let c = previous[t];
    let r = updated_centroid(points, memberships, previous, t);
    if m == 0 {
        lemma_gain_no_coordinates(points, memberships, t, c, r, n);
    } else {
        lemma_gain_nonnegative(points, memberships, previous, t, m - 1);
        lemma_gain_coordinate(points, memberships, t, c, r, m, n);
        let count = cluster_count(memberships, t, n);
        let sum = cluster_sum(points, memberships, t, m - 1, n);
        lemma_cluster_count_bounds(memberships, t, n);
        if count == 0 {
            assert((r[m - 1] - c[m - 1]) * (2 * sum - count * (r[m - 1] + c[m - 1])) == 0)
                by (nonlinear_arith)
                requires
                    r[m - 1] == c[m - 1],
            ;
        } else {
            lemma_cluster_sum_bounds(points, memberships, t, m - 1, n);
            lemma_rounded_mean_range(sum, count);
            assert(r[m - 1] == rounded_mean(sum, count));
            lemma_nearest_gains(sum, count, c[m - 1] as int);
        }
    }
}

proof fn lemma_total_gain_nonnegative(
    points: Seq<Seq<i32>>,
    memberships: Seq<usize>,
    previous: Seq<Seq<i32>>,
    width: int,
    k: int,
)
    requires
        0 <= k <= previous.len(),
        width >= 0,
        rectangular(previous, width),
    ensures
        total_gain(
            points,
            memberships,
            previous,
            updated_centroids(points, memberships, previous),
            width,
            k,
            points.len() as int,
        ) >= 0,
    decreases k,
{
    if k > 0 {
        lemma_total_gain_nonnegative(points, memberships, previous, width, k - 1);
        lemma_gain_nonnegative(points, memberships, previous, k - 1, width);
    }
}

proof fn lemma_total_gain_no_points(
    points: Seq<Seq<i32>>,
    memberships: Seq<usize>,
    before: Seq<Seq<i32>>,
    after: Seq<Seq<i32>>,
    width: int,
    k: int,
)
    ensures
        total_gain(points, memberships, before, after, width, k, 0) == 0,
    decreases k,
{
    if k > 0 {
        lemma_total_gain_no_points(points, memberships, before, after, width, k - 1);
    }
}

/// One more point adds its own gain to the gain of its cluster, and so to
/// the total.
proof fn lemma_total_gain_point(
    points: Seq<Seq<i32>>,
    memberships: Seq<usize>,
    before: Seq<Seq<i32>>,
    after: Seq<Seq<i32>>,
    width: int,
    k: int,
    n: int,
)
    requires
        n >= 1,
        k >= 0,
    ensures
        total_gain(points, memberships, before, after, width, k, n) == total_gain(
            points,
            memberships,
            before,
            after,
            width,
            k,
            n - 1,
        ) + if memberships[n - 1] < k {
            sq_dist_prefix(points[n - 1], before[memberships[n - 1] as int], width)
                - sq_dist_prefix(points[n - 1], after[memberships[n - 1] as int], width)
        } else {
            0int
        },
    decreases k,
{
    if k > 0 {
        lemma_total_gain_point(points, memberships, before, after, width, k - 1, n);
    }
}

/// The objective falls by the total gain of the clusters.
proof fn lemma_objective_difference(
    points: Seq<Seq<i32>>,
    memberships: Seq<usize>,
    before: Seq<Seq<i32>>,
    after: Seq<Seq<i32>>,
    width: int,
    n: int,
)
    requires
        0 <= n <= points.len(),
        n <= memberships.len(),
        rectangular(points, width),
        valid_memberships(memberships, before.len() as int),
    ensures
        objective_prefix(points, before, memberships, n) - objective_prefix(
            points,
            after,
            memberships,
            n,
        ) == total_gain(points, memberships, before, after, width, before.len() as int, n),
    decreases n,
{
    if n > 0 {
        lemma_objective_difference(points, memberships, before, after, width, n - 1);
        lemma_total_gain_point(points, memberships, before, after, width, before.len() as int, n);
        assert(points[n - 1].len() == width);
        assert(memberships[n - 1] < before.len());
    } else {
        lemma_total_gain_no_points(points, memberships, before, after, width, before.len() as int);
    }
}

/// The update step never increases the objective: with the memberships held
/// fixed, the updated centroids are at least as near to their members, in
/// total, as the previous ones.
pub proof fn lemma_update_lowers_objective(
    points: Seq<Seq<i32>>,
    memberships: Seq<usize>,
    previous: Seq<Seq<i32>>,
    width: int,
)
    requires
        width >= 0,
        rectangular(points, width),
        rectangular(previous, width),
        memberships.len() == points.len(),
        valid_memberships(memberships, previous.len() as int),
    ensures
        objective(points, updated_centroids(points, memberships, previous), memberships)
            <= objective(points, previous, memberships),
{
    let after = updated_centroids(points, memberships, previous);
    lemma_objective_difference(points, memberships, previous, after, width, points.len() as int);
    lemma_total_gain_nonnegative(points, memberships, previous, width, previous.len() as int);
}

proof fn lemma_assignment_lowers_prefix(
    points: Seq<Seq<i32>>,
    centroids: Seq<Seq<i32>>,
    other: Seq<usize>,
    n: int,
)
    requires
        0 <= n <= points.len(),
        n <= other.len(),
        1 <= centroids.len() <= usize::MAX,
        valid_memberships(other, centroids.len() as int),
    ensures
        objective_prefix(points, centroids, memberships(points, centroids), n) <= objective_prefix(
            points,
            centroids,
            other,
            n,
        ),
    decreases n,
{
    if n > 0 {
        lemma_assignment_lowers_prefix(points, centroids, other, n - 1);
        lemma_closest_is_closest(centroids, points[n - 1]);
        let nearest = closest(centroids, points[n - 1]);
        assert(memberships(points, centroids)[n - 1] == nearest);
        assert(sq_dist(points[n - 1], centroids[nearest]) <= sq_dist(
            points[n - 1],
            centroids[other[n - 1] as int],
        ));
    }
}

/// The assignment step never increases the objective: no other way of
/// assigning the points to the same centroids has a smaller one.
pub proof fn lemma_assignment_lowers_objective(
    points: Seq<Seq<i32>>,
    centroids: Seq<Seq<i32>>,
    other: Seq<usize>,
)
    requires
        1 <= centroids.len() <= usize::MAX,
        other.len() == points.len(),
        valid_memberships(other, centroids.len() as int),
    ensures
        objective(points, centroids, memberships(points, centroids)) <= objective(
            points,
            centroids,
            other,
        ),
{
    lemma_assignment_lowers_prefix(points, centroids, other, points.len() as int);
}

/// The objective never increases from one iteration to the next: the
/// centroids after an iteration, with the memberships they induce, are at
/// least as good as the centroids before it with theirs.
pub proof fn lemma_objective_monotone(
    points: Seq<Seq<i32>>,
    centroids: Seq<Seq<i32>>,
    width: int,
)
    requires
        width >= 0,
        1 <= centroids.len() <= usize::MAX,
        rectangular(points, width),
        rectangular(centroids, width),
    ensures
        objective(
            points,
            lloyd_step(points, centroids),
            memberships(points, lloyd_step(points, centroids)),
        ) <= objective(points, centroids, memberships(points, centroids)),
{
    let a = memberships(points, centroids);
    assert forall|i: int| 0 <= i < a.len() implies (#[trigger] a[i]) < centroids.len() by {
        lemma_closest_is_closest(centroids, points[i]);
    }
    let after = lloyd_step(points, centroids);
    lemma_update_lowers_objective(points, a, centroids, width);
    lemma_assignment_lowers_objective(points, after, a);
}

} // verus!
