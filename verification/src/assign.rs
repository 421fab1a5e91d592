//! The assignment step: each point goes to its nearest centroid.

use vstd::prelude::*;
use crate::points::{sq_dist, sq_l2_dist, PointSet};

verus! {

/// The index of the centroid nearest to `p` among the first `n`, the lowest
/// such index where several are equally near.
pub open spec fn closest_among(centroids: Seq<Seq<i32>>, p: Seq<i32>, n: int) -> int
    decreases n,
{
    if n <= 1 {
        0
    } else {
        let best = closest_among(centroids, p, n - 1);
        if sq_dist(p, centroids[n - 1]) < sq_dist(p, centroids[best]) {
            n - 1
        } else {
            best
        }
    }
}

/// The cluster of `p`: the index of its nearest centroid, ties going to the
/// lowest index.
pub open spec fn closest(centroids: Seq<Seq<i32>>, p: Seq<i32>) -> int {
    closest_among(centroids, p, centroids.len() as int)
}

/// `t` is the index of a centroid that no centroid is nearer to `p` than, and
/// every centroid before it is strictly farther away.
pub open spec fn is_closest(centroids: Seq<Seq<i32>>, p: Seq<i32>, t: int) -> bool {
    &&& 0 <= t < centroids.len()
    &&& forall|u: int|
        0 <= u < centroids.len() ==> sq_dist(p, centroids[t]) <= sq_dist(p, #[trigger] centroids[u])
    &&& forall|u: int| 0 <= u < t ==> sq_dist(p, centroids[t]) < sq_dist(p, #[trigger] centroids[u])
}

/// The cluster of every point of `points`, in order.
pub open spec fn memberships(points: Seq<Seq<i32>>, centroids: Seq<Seq<i32>>) -> Seq<usize> {
    Seq::new(points.len(), |i: int| closest(centroids, points[i]) as usize)
}

/// What `closest_among` returns for the first `n` centroids.
pub proof fn lemma_closest_among(centroids: Seq<Seq<i32>>, p: Seq<i32>, n: int)
    requires
        1 <= n <= centroids.len(),
    ensures
        0 <= closest_among(centroids, p, n) < n,
        forall|u: int|
            0 <= u < n ==> sq_dist(p, centroids[closest_among(centroids, p, n)]) <= sq_dist(
                p,
                #[trigger] centroids[u],
            ),
        forall|u: int|
            0 <= u < closest_among(centroids, p, n) ==> sq_dist(
                p,
                centroids[closest_among(centroids, p, n)],
            ) < sq_dist(p, #[trigger] centroids[u]),
    decreases n,
{
    if n > 1 {
        lemma_closest_among(centroids, p, n - 1);
    }
}

/// `closest` is the one index that `is_closest` describes.
pub proof fn lemma_closest_is_closest(centroids: Seq<Seq<i32>>, p: Seq<i32>)
    requires
        centroids.len() >= 1,
    ensures
        is_closest(centroids, p, closest(centroids, p)),
        forall|t: int| is_closest(centroids, p, t) ==> t == closest(centroids, p),
{
    lemma_closest_among(centroids, p, centroids.len() as int);
    let c = closest(centroids, p);
    assert forall|t: int| is_closest(centroids, p, t) implies t == c by {
        if t < c {
            assert(sq_dist(p, centroids[c]) < sq_dist(p, centroids[t]));
            assert(sq_dist(p, centroids[t]) <= sq_dist(p, centroids[c]));
        } else if c < t {
            assert(sq_dist(p, centroids[t]) < sq_dist(p, centroids[c]));
            assert(sq_dist(p, centroids[c]) <= sq_dist(p, centroids[t]));
        }
    }
}

/// The index of the centroid nearest to `sample` by squared Euclidean
/// distance. Where several centroids are equally near, the lowest index wins.
pub fn find_closest_centroid(centroids: &PointSet, sample: &Vec<i32>) -> (closest_index: usize)
    requires
        centroids.wf(),
        centroids@.len() >= 1,
        sample@.len() == centroids.width(),
    ensures
        is_closest(centroids@, sample@, closest_index as int),
        closest_index == closest(centroids@, sample@),
{
    let k: usize = centroids.n_samples();
    let mut closest_index: usize = 0;
    let mut minimum_distance: u128 = sq_l2_dist(sample, centroids.row(0));
    let mut index: usize = 1;
    while index < k
        invariant
            centroids.wf(),
            k == centroids@.len(),
            sample@.len() == centroids.width(),
            1 <= index <= k,
            closest_index == closest_among(centroids@, sample@, index as int),
            closest_index < index,
            minimum_distance == sq_dist(sample@, centroids@[closest_index as int]),
        decreases k - index,
    {
        let distance: u128 = sq_l2_dist(sample, centroids.row(index));
        if distance < minimum_distance {
            minimum_distance = distance;
            closest_index = index;
        }
        index = index + 1;
    }
    proof {
        lemma_closest_is_closest(centroids@, sample@);
    }
    closest_index
}

/// The cluster of every point of `data` under `centroids`, in order.
pub fn assign_clusters(data: &PointSet, centroids: &PointSet) -> (cluster_memberships: Vec<usize>)
    requires
        data.wf(),
        centroids.wf(),
        centroids@.len() >= 1,
        data.width() == centroids.width(),
    ensures
        cluster_memberships@ == memberships(data@, centroids@),
        forall|i: int|
            0 <= i < data@.len() ==> is_closest(
                centroids@,
                data@[i],
                #[trigger] cluster_memberships@[i] as int,
            ),
{
    let n: usize = data.n_samples();
    let mut cluster_memberships: Vec<usize> = Vec::new();
    let mut i: usize = 0;
    while i < n
        invariant
            data.wf(),
            centroids.wf(),
            centroids@.len() >= 1,
            data.width() == centroids.width(),
            n == data@.len(),
            i <= n,
            cluster_memberships@.len() == i,
            forall|r: int|
                0 <= r < i ==> (#[trigger] cluster_memberships@[r]) == closest(
                    centroids@,
                    data@[r],
                ) && is_closest(centroids@, data@[r], cluster_memberships@[r] as int),
        decreases n - i,
    {
        let t: usize = find_closest_centroid(centroids, data.row(i));
        cluster_memberships.push(t);
        i = i + 1;
    }
    assert(cluster_memberships@ =~= memberships(data@, centroids@));
    cluster_memberships
}

} // verus!
