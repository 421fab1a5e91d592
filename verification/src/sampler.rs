//! Initialisation: the first centroids are distinct points of the data,
//! drawn at random from a seeded generator.

use vstd::prelude::*;
use rand::SeedableRng;
use crate::error::KMeansError;
use crate::points::{copy_point, PointSet};

verus! {

/// A seeded pseudo-random generator of the `rand` crate. Nothing of its
/// state is visible to the proofs.
#[verifier::external_type_specification]
#[verifier::external_body]
pub struct ExStdRng(rand::rngs::StdRng);

/// `indices` holds `amount` pairwise different indices below `length`.
pub open spec fn valid_sample(indices: Seq<usize>, length: int, amount: int) -> bool {
    &&& indices.len() == amount
    &&& forall|t: int| 0 <= t < indices.len() ==> (#[trigger] indices[t]) < length
    &&& forall|t: int, u: int|
        0 <= t < u < indices.len() ==> (#[trigger] indices[t]) != (#[trigger] indices[u])
}

/// The rows of `points` that `indices` names, in the order of `indices`.
pub open spec fn gather(points: Seq<Seq<i32>>, indices: Seq<usize>) -> Seq<Seq<i32>> {
    Seq::new(indices.len(), |t: int| points[indices[t] as int])
}

/// Calls `rand::SeedableRng::seed_from_u64` for `rand::rngs::StdRng`: a
/// generator whose stream is fixed by `seed`. Nothing is claimed of it.
#[verifier::external_body]
fn seeded_rng(seed: u64) -> (rng: rand::rngs::StdRng) {
    rand::rngs::StdRng::seed_from_u64(seed)
}

/// Calls `rand::seq::index::sample` and unpacks its result with
/// `IndexVec::into_vec`. The crate documents that it returns exactly
/// `amount` distinct indices from `0..length`, in random order, and that it
/// panics when `amount > length`; which indices come out is left open. For a
/// `length` beyond 32 bits it samples by rejection, which asserts
/// `amount < length`, so there a full sample is left out as well.
#[verifier::external_body]
fn sample_indices(rng: &mut rand::rngs::StdRng, length: usize, amount: usize) -> (indices: Vec<
    usize,
>)
    requires
        amount <= length,
        length <= u32::MAX || amount < length,
    ensures
        valid_sample(indices@, length as int, amount as int),
{
    rand::seq::index::sample(rng, length, amount).into_vec()
}

/// Copies the rows of `data` that `indices` names into a new point set, in
/// the order of `indices`.
pub fn select_rows(data: &PointSet, indices: &Vec<usize>) -> (selected: PointSet)
    requires
        data.wf(),
        forall|t: int| 0 <= t < indices@.len() ==> (#[trigger] indices@[t]) < data@.len(),
    ensures
        selected.wf(),
        selected.width() == data.width(),
        selected@ == gather(data@, indices@),
{
    let k: usize = indices.len();
    let mut selected: PointSet = PointSet::new(data.n_features());
    let mut t: usize = 0;
    while t < k
        invariant
            data.wf(),
            k == indices@.len(),
            forall|u: int| 0 <= u < indices@.len() ==> (#[trigger] indices@[u]) < data@.len(),
            t <= k,
            selected.wf(),
            selected.width() == data.width(),
            selected@.len() == t,
            forall|u: int| 0 <= u < t ==> (#[trigger] selected@[u]) == data@[indices@[u] as int],
        decreases k - t,
    {
        let row: Vec<i32> = copy_point(data.row(indices[t]));
        selected.push_row(row);
        t = t + 1;
    }
    assert(selected@ =~= gather(data@, indices@));
    selected
}

/// Draws `n_clusters` distinct points of `data` as the first centroids, from
/// a generator seeded with `seed`.
///
/// Fails with a configuration error, and draws nothing, when no cluster is
/// asked for or more clusters than there are points.
///
/// Which points come out is the generator's choice: the contract holds of
/// every draw and does not tie it to `seed`. The generator is deterministic,
/// but its makers do not promise the same stream on every configuration and
/// version, so no claim of that kind is made of it here.
pub fn get_random_centroids(n_clusters: u16, data: &PointSet, seed: u64) -> (r: Result<
    PointSet,
    KMeansError,
>)
    requires
        data.wf(),
    ensures
        r.is_err() <==> (n_clusters == 0 || n_clusters > data@.len()),
        r.is_err() ==> r == Err::<PointSet, KMeansError>(KMeansError::ConfigurationError),
        r.is_ok() ==> r.unwrap().wf() && r.unwrap().width() == data.width() && exists|
            indices: Seq<usize>,
        |
            valid_sample(indices, data@.len() as int, n_clusters as int) && r.unwrap()@ == gather(
                data@,
                indices,
            ),
{
    let n_samples: usize = data.n_samples();
    if n_clusters == 0 || n_clusters as usize > n_samples {
        return Err(KMeansError::ConfigurationError);
    }
    let mut rng = seeded_rng(seed);
    let indices: Vec<usize> = sample_indices(&mut rng, n_samples, n_clusters as usize);
    let centroids = select_rows(data, &indices);
    assert(valid_sample(indices@, data@.len() as int, n_clusters as int) && centroids@ == gather(
        data@,
        indices@,
    ));
    Ok(centroids)
}

} // verus!
