//! The update step: each centroid moves to the mean of its members.

use vstd::prelude::*;
use crate::points::{copy_point, PointSet};
use crate::rolling_mean::{column_sum, rounded_mean, RollingMean};

verus! {

/// How many of the first `n` points belong to cluster `t`.
pub open spec fn cluster_count(memberships: Seq<usize>, t: int, n: int) -> int
    decreases n,
{
    if n <= 0 {
        0
    } else {
        cluster_count(memberships, t, n - 1) + if memberships[n - 1] == t {
            1int
        } else {
            0int
        }
    }
}

/// The sum of coordinate `j` over those of the first `n` points that belong
/// to cluster `t`.
pub open spec fn cluster_sum(
    points: Seq<Seq<i32>>,
    memberships: Seq<usize>,
    t: int,
    j: int,
    n: int,
) -> int
    decreases n,
{
    if n <= 0 {
        0
    } else {
        cluster_sum(points, memberships, t, j, n - 1) + if memberships[n - 1] == t {
            points[n - 1][j] as int
        } else {
            0int
        }
    }
}

/// The new centroid of cluster `t`: the mean of its members, each coordinate
/// rounded to the grid; a cluster without members keeps its previous
/// centroid.
pub open spec fn updated_centroid(
    points: Seq<Seq<i32>>,
    memberships: Seq<usize>,
    previous: Seq<Seq<i32>>,
    t: int,
) -> Seq<i32> {
    let n = points.len() as int;
    let members = cluster_count(memberships, t, n);
    if members == 0 {
        previous[t]
    } else {
        Seq::new(
            previous[t].len(),
            |j: int| rounded_mean(cluster_sum(points, memberships, t, j, n), members) as i32,
        )
    }
}

/// The centroid set after one update step. It has as many rows as `previous`.
pub open spec fn updated_centroids(
    points: Seq<Seq<i32>>,
    memberships: Seq<usize>,
    previous: Seq<Seq<i32>>,
) -> Seq<Seq<i32>> {
    Seq::new(previous.len(), |t: int| updated_centroid(points, memberships, previous, t))
}

/// Every entry of `memberships` names one of `k` clusters.
pub open spec fn valid_memberships(memberships: Seq<usize>, k: int) -> bool {
    forall|i: int| 0 <= i < memberships.len() ==> (#[trigger] memberships[i]) < k
}

/// A cluster has between zero and `n` of the first `n` points.
pub proof fn lemma_cluster_count_bounds(memberships: Seq<usize>, t: int, n: int)
    requires
        0 <= n,
    ensures
        0 <= cluster_count(memberships, t, n) <= n,
    decreases n,
{
    if n > 0 {
        lemma_cluster_count_bounds(memberships, t, n - 1);
    }
}

/// A cluster without members among the first `n` points has all sums zero.
pub proof fn lemma_empty_cluster_sum(
    points: Seq<Seq<i32>>,
    memberships: Seq<usize>,
    t: int,
    j: int,
    n: int,
)
    requires
        0 <= n,
        cluster_count(memberships, t, n) == 0,
    ensures
        cluster_sum(points, memberships, t, j, n) == 0,
    decreases n,
{
    if n > 0 {
        lemma_cluster_count_bounds(memberships, t, n - 1);
        lemma_empty_cluster_sum(points, memberships, t, j, n - 1);
    }
}

/// The sum of a cluster's coordinate is a sum of that many 32-bit values.
pub proof fn lemma_cluster_sum_bounds(
    points: Seq<Seq<i32>>,
    memberships: Seq<usize>,
    t: int,
    j: int,
    n: int,
)
    requires
        0 <= n,
    ensures
        i32::MIN * cluster_count(memberships, t, n) <= cluster_sum(points, memberships, t, j, n)
            <= i32::MAX * cluster_count(memberships, t, n),
    decreases n,
{
    if n > 0 {
        lemma_cluster_sum_bounds(points, memberships, t, j, n - 1);
        let c = cluster_count(memberships, t, n - 1);
        assert(i32::MIN * (c + 1) == i32::MIN * c + i32::MIN) by (nonlinear_arith);
        assert(i32::MAX * (c + 1) == i32::MAX * c + i32::MAX) by (nonlinear_arith);
    }
}

/// Where all of the first `n` points belong to cluster `t`, the cluster's
/// count and sums are those of all these points.
pub proof fn lemma_cluster_of_all(
    points: Seq<Seq<i32>>,
    memberships: Seq<usize>,
    t: int,
    j: int,
    n: int,
)
    requires
        0 <= n <= memberships.len(),
        forall|i: int| 0 <= i < n ==> memberships[i] == t,
    ensures
        cluster_count(memberships, t, n) == n,
        cluster_sum(points, memberships, t, j, n) == column_sum(points, j, n),
    decreases n,
{
    if n > 0 {
        lemma_cluster_of_all(points, memberships, t, j, n - 1);
    }
}

/// Where every member of cluster `t` among the first `n` points has the
/// value `v` at coordinate `j`, the cluster's sum is its count times `v`.
pub proof fn lemma_cluster_of_copies(
    points: Seq<Seq<i32>>,
    memberships: Seq<usize>,
    t: int,
    j: int,
    n: int,
    v: int,
)
    requires
        0 <= n <= memberships.len(),
        forall|i: int| 0 <= i < n && memberships[i] == t ==> points[i][j] == v,
    ensures
        cluster_sum(points, memberships, t, j, n) == cluster_count(memberships, t, n) * v,
    decreases n,
{
    if n > 0 {
        lemma_cluster_of_copies(points, memberships, t, j, n - 1, v);
        let c = cluster_count(memberships, t, n - 1);
        assert((c + 1) * v == c * v + v) by (nonlinear_arith);
    }
}

/// The points, each paired with its cluster.
pub open spec fn labelled(points: Seq<Seq<i32>>, memberships: Seq<usize>) -> Seq<
    (Seq<i32>, usize),
> {
    Seq::new(points.len(), |i: int| (points[i], memberships[i]))
}

/// The count and the sums of a cluster over `n` points depend on those
/// points and their clusters only.
proof fn lemma_cluster_prefix(
    p: Seq<Seq<i32>>,
    a: Seq<usize>,
    q: Seq<Seq<i32>>,
    b: Seq<usize>,
    t: int,
    j: int,
    n: int,
)
    requires
        0 <= n,
        forall|i: int| 0 <= i < n ==> p[i] == q[i] && a[i] == b[i],
    ensures
        cluster_count(a, t, n) == cluster_count(b, t, n),
        cluster_sum(p, a, t, j, n) == cluster_sum(q, b, t, j, n),
    decreases n,
{
    if n > 0 {
        lemma_cluster_prefix(p, a, q, b, t, j, n - 1);
    }
}

/// Taking point `i` out takes it out of the count and the sums of its
/// cluster, and of no other.
proof fn lemma_cluster_remove(
    points: Seq<Seq<i32>>,
    memberships: Seq<usize>,
    t: int,
    j: int,
    i: int,
)
    requires
        0 <= i < points.len(),
        memberships.len() == points.len(),
    ensures
        cluster_count(memberships, t, points.len() as int) == cluster_count(
            memberships.remove(i),
            t,
            points.len() - 1,
        ) + if memberships[i] == t {
            1int
        } else {
            0int
        },
        cluster_sum(points, memberships, t, j, points.len() as int) == cluster_sum(
            points.remove(i),
            memberships.remove(i),
            t,
            j,
            points.len() - 1,
        ) + if memberships[i] == t {
            points[i][j] as int
        } else {
            0int
        },
    decreases points.len(),
{
    let n = points.len() as int;
    let rest = points.drop_last();
    let rest_a = memberships.drop_last();
    lemma_cluster_prefix(points, memberships, rest, rest_a, t, j, n - 1);
    if i == n - 1 {
        assert(points.remove(i) =~= rest);
        assert(memberships.remove(i) =~= rest_a);
    } else {
        lemma_cluster_remove(rest, rest_a, t, j, i);
        let shorter = points.remove(i);
        let shorter_a = memberships.remove(i);
        assert(shorter[n - 2] == points[n - 1]);
        assert(shorter_a[n - 2] == memberships[n - 1]);
        lemma_cluster_prefix(shorter, shorter_a, rest.remove(i), rest_a.remove(i), t, j, n - 2);
    }
}

/// The count and the sums of a cluster are the same for two runs of points
/// that hold the same points with the same clusters, whatever their order.
proof fn lemma_cluster_permutation(
    points: Seq<Seq<i32>>,
    memberships: Seq<usize>,
    reordered: Seq<Seq<i32>>,
    reordered_memberships: Seq<usize>,
    t: int,
    j: int,
)
    requires
        memberships.len() == points.len(),
        reordered_memberships.len() == reordered.len(),
        labelled(points, memberships).to_multiset() == labelled(
            reordered,
            reordered_memberships,
        ).to_multiset(),
    ensures
        points.len() == reordered.len(),
        cluster_count(memberships, t, points.len() as int) == cluster_count(
            reordered_memberships,
            t,
            reordered.len() as int,
        ),
        cluster_sum(points, memberships, t, j, points.len() as int) == cluster_sum(
            reordered,
            reordered_memberships,
            t,
            j,
            reordered.len() as int,
        ),
    decreases points.len(),
{
    let s = labelled(points, memberships);
    let s2 = labelled(reordered, reordered_memberships);
    s.to_multiset_ensures();
    s2.to_multiset_ensures();
    if points.len() > 0 {
        let n = points.len() as int;
        let x = s[n - 1];
        assert(s.contains(x));
        assert(s2.to_multiset().count(x) > 0);
        assert(s2.contains(x));
        let i = choose|i: int| 0 <= i < s2.len() && s2[i] == x;
        assert(s.remove(n - 1) =~= labelled(points.remove(n - 1), memberships.remove(n - 1)));
        assert(s2.remove(i) =~= labelled(reordered.remove(i), reordered_memberships.remove(i)));
        assert(s.remove(n - 1).to_multiset() == s.to_multiset().remove(x));
        assert(s2.remove(i).to_multiset() == s2.to_multiset().remove(x));
        lemma_cluster_permutation(
            points.remove(n - 1),
            memberships.remove(n - 1),
            reordered.remove(i),
            reordered_memberships.remove(i),
            t,
            j,
        );
        lemma_cluster_remove(points, memberships, t, j, n - 1);
        lemma_cluster_remove(reordered, reordered_memberships, t, j, i);
    }
}

/// The update step does not depend on the order of the points: the same
/// points with the same clusters, taken in another order, give the same
/// centroids.
pub proof fn lemma_update_order_independent(
    points: Seq<Seq<i32>>,
    memberships: Seq<usize>,
    reordered: Seq<Seq<i32>>,
    reordered_memberships: Seq<usize>,
    previous: Seq<Seq<i32>>,
)
    requires
        memberships.len() == points.len(),
        reordered_memberships.len() == reordered.len(),
        labelled(points, memberships).to_multiset() == labelled(
            reordered,
            reordered_memberships,
        ).to_multiset(),
    ensures
        updated_centroids(points, memberships, previous) == updated_centroids(
            reordered,
            reordered_memberships,
            previous,
        ),
{
    let first = updated_centroids(points, memberships, previous);
    let second = updated_centroids(reordered, reordered_memberships, previous);
    assert forall|t: int| 0 <= t < previous.len() implies first[t] == second[t] by {
        lemma_cluster_permutation(points, memberships, reordered, reordered_memberships, t, 0);
        let a = updated_centroid(points, memberships, previous, t);
        let b = updated_centroid(reordered, reordered_memberships, previous, t);
        assert forall|j: int| 0 <= j < previous[t].len() implies cluster_sum(
            points,
            memberships,
            t,
            j,
            points.len() as int,
        ) == cluster_sum(reordered, reordered_memberships, t, j, reordered.len() as int) by {
            lemma_cluster_permutation(points, memberships, reordered, reordered_memberships, t, j);
        }
        assert(a =~= b);
    }
    assert(first =~= second);
}

/// The accumulator slot of cluster `t` agrees with the first `n` points.
spec fn slot_tracks(
    slot: Option<RollingMean>,
    points: Seq<Seq<i32>>,
    memberships: Seq<usize>,
    t: int,
    n: int,
    width: int,
) -> bool {
    match slot {
        None => cluster_count(memberships, t, n) == 0,
        Some(acc) => {
            &&& acc.wf()
            &&& acc.count() == cluster_count(memberships, t, n)
            &&& acc.sums().len() == width
            &&& forall|j: int|
                0 <= j < width ==> (#[trigger] acc.sums()[j]) == cluster_sum(
                    points,
                    memberships,
                    t,
                    j,
                    n,
                )
        },
    }
}

/// Computes the new centroid of every cluster from the points assigned to it.
///
/// The points are folded one by one through a rolling mean per cluster, so no
/// list of members is ever built. A cluster that received no point keeps the
/// centroid it had in `previous`, and the result always has one row per
/// cluster.
pub fn compute_centroids(
    data: &PointSet,
    cluster_memberships: &Vec<usize>,
    previous: &PointSet,
) -> (new_centroids: PointSet)
    requires
        data.wf(),
        previous.wf(),
        data.width() == previous.width(),
        cluster_memberships@.len() == data@.len(),
        valid_memberships(cluster_memberships@, previous@.len() as int),
    ensures
        new_centroids.wf(),
        new_centroids.width() == previous.width(),
        new_centroids@ == updated_centroids(data@, cluster_memberships@, previous@),
{
    let n: usize = data.n_samples();
    let k: usize = previous.n_samples();
    let n_features: usize = data.n_features();
    let ghost points = data@;
    let ghost a = cluster_memberships@;

    let mut accumulators: Vec<Option<RollingMean>> = Vec::new();
    let mut t: usize = 0;
    while t < k
        invariant
            t <= k,
            accumulators@.len() == t,
            forall|u: int| 0 <= u < t ==> (#[trigger] accumulators@[u]).is_none(),
        decreases k - t,
    {
        accumulators.push(None);
        t = t + 1;
    }

    let mut i: usize = 0;
    while i < n
        invariant
            data.wf(),
            points == data@,
            a == cluster_memberships@,
            n == points.len(),
            n == a.len(),
            k == previous@.len(),
            n_features == data.width(),
            valid_memberships(a, k as int),
            i <= n,
            accumulators@.len() == k,
            forall|u: int|
                0 <= u < k ==> slot_tracks(
                    #[trigger] accumulators@[u],
                    points,
                    a,
                    u,
                    i as int,
                    n_features as int,
                ),
        decreases n - i,
    {
        let cluster_index: usize = cluster_memberships[i];
        let row: &Vec<i32> = data.row(i);
        let ghost before = accumulators@;
        let mut slot: Option<RollingMean> = None;
        accumulators.set_and_swap(cluster_index, &mut slot);
        assert(slot_tracks(slot, points, a, cluster_index as int, i as int, n_features as int));
        let updated: RollingMean = match slot {
            Some(mut rolling_mean) => {
                proof {
                    lemma_cluster_count_bounds(a, cluster_index as int, i as int);
                }
                rolling_mean.accumulate(row);
                rolling_mean
            },
            None => {
                let first = RollingMean::new(copy_point(row));
                proof {
                    assert forall|j: int| 0 <= j < n_features implies (#[trigger] first.sums()[j])
                        == cluster_sum(points, a, cluster_index as int, j, i + 1) by {
                        lemma_empty_cluster_sum(points, a, cluster_index as int, j, i as int);
                    }
                }
                first
            },
        };
        assert(slot_tracks(
            Some(updated),
            points,
            a,
            cluster_index as int,
            i + 1,
            n_features as int,
        ));
        accumulators.set(cluster_index, Some(updated));
        proof {
            assert forall|u: int| 0 <= u < k implies slot_tracks(
                #[trigger] accumulators@[u],
                points,
                a,
                u,
                i + 1,
                n_features as int,
            ) by {
                if u != cluster_index {
                    assert(accumulators@[u] == before[u]);
                    assert(slot_tracks(before[u], points, a, u, i as int, n_features as int));
                }
            }
        }
        i = i + 1;
    }

    let mut new_centroids: PointSet = PointSet::new(n_features);
    let mut t: usize = 0;
    while t < k
        invariant
            previous.wf(),
            points == data@,
            a == cluster_memberships@,
            n == points.len(),
            k == previous@.len(),
            n_features == previous.width(),
            t <= k,
            accumulators@.len() == k,
            forall|u: int|
                0 <= u < k ==> slot_tracks(
                    #[trigger] accumulators@[u],
                    points,
                    a,
                    u,
                    n as int,
                    n_features as int,
                ),
            new_centroids.wf(),
            new_centroids.width() == n_features,
            new_centroids@.len() == t,
            forall|u: int|
                0 <= u < t ==> (#[trigger] new_centroids@[u]) == updated_centroid(
                    points,
                    a,
                    previous@,
                    u,
                ),
        decreases k - t,
    {
        assert(slot_tracks(accumulators@[t as int], points, a, t as int, n as int, n_features as int));
        assert(previous@[t as int].len() == n_features);
        let centroid: Vec<i32> = match &accumulators[t] {
            Some(rolling_mean) => {
                let m = rolling_mean.current_mean();
                assert(m@ =~= updated_centroid(points, a, previous@, t as int));
                m
            },
            None => copy_point(previous.row(t)),
        };
        new_centroids.push_row(centroid);
        t = t + 1;
    }
    assert(new_centroids@ =~= updated_centroids(points, a, previous@));
    new_centroids
}

} // verus!
