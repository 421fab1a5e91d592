//! The engine: initialisation, then assignment, update and convergence test
//! in turn until the centroids settle or the iteration cap is reached.

use vstd::prelude::*;
use crate::assign::{assign_clusters, memberships};
use crate::converge::{displacement, has_converged};
use crate::error::KMeansError;
use crate::points::PointSet;
use crate::sampler::{gather, get_random_centroids, valid_sample};
use crate::update::{compute_centroids, updated_centroids};

verus! {

/// The tolerance of a new engine: with whole-numbered displacements, the
/// centroids have settled when none of them moved at all.
pub const DEFAULT_TOLERANCE: u128 = 1;

/// The iteration cap of a new engine.
pub const DEFAULT_MAX_ITERATIONS: usize = 300;

/// Where an engine stands.
#[derive(Clone, Copy, Debug, PartialEq, Eq, Structural)]
pub enum EngineState {
    /// No fit has run yet; there are no centroids.
    Uninitialized,
    /// The last fit converged; the centroids hold its result.
    Converged,
    /// The last fit that ran failed, for the reason given. A fit that is
    /// refused does not run, and leaves the state as it was.
    Failed(KMeansError),
}

/// How a run of the iteration ends.
pub enum FitOutcome {
    /// The centroids settled after `iterations` iterations.
    Converged { centroids: Seq<Seq<i32>>, iterations: nat },
    /// The cap was reached; `centroids` are the last ones computed.
    TimedOut { centroids: Seq<Seq<i32>> },
}

/// One iteration: assign every point to its nearest centroid, then move each
/// centroid to the mean of its members.
pub open spec fn lloyd_step(points: Seq<Seq<i32>>, centroids: Seq<Seq<i32>>) -> Seq<Seq<i32>> {
    updated_centroids(points, memberships(points, centroids), centroids)
}

/// The run that starts from `centroids` with `done` iterations already
/// spent: iterate until one step moves the centroids by less than
/// `tolerance` in total, or until `max_iterations` iterations are spent.
pub open spec fn lloyd(
    points: Seq<Seq<i32>>,
    centroids: Seq<Seq<i32>>,
    tolerance: int,
    max_iterations: nat,
    done: nat,
) -> FitOutcome
    decreases max_iterations - done,
{
    if done >= max_iterations {
        FitOutcome::TimedOut { centroids }
    } else {
        let next = lloyd_step(points, centroids);
        if displacement(centroids, next) < tolerance {
            FitOutcome::Converged { centroids: next, iterations: done + 1 }
        } else {
            lloyd(points, next, tolerance, max_iterations, done + 1)
        }
    }
}

/// K-means clustering partitions a set of observations into `n_clusters`
/// clusters, each observation belonging to the cluster with the nearest
/// centroid, the mean of the cluster's members.
///
/// An engine is uninitialized until its first fit; a fit leaves it converged
/// or failed. While a fit runs the engine is borrowed, so no state in between
/// can be observed.
#[derive(Debug)]
pub struct KMeans {
    /// The centroids, one row per cluster. `None` until a fit has run; after
    /// a fit that ran, the centroids it computed last. A fit that is refused
    /// leaves them as they were.
    pub centroids: Option<PointSet>,
    n_clusters: u16,
    tolerance: u128,
    max_iterations: usize,
    state: EngineState,
}

impl KMeans {
    /// The number of clusters looked for.
    pub closed spec fn clusters(&self) -> nat {
        self.n_clusters as nat
    }

    /// The total displacement below which the centroids count as settled.
    pub closed spec fn tol(&self) -> int {
        self.tolerance as int
    }

    /// The largest number of iterations one fit may spend.
    pub closed spec fn cap(&self) -> nat {
        self.max_iterations as nat
    }

    /// Where the engine stands.
    pub closed spec fn status(&self) -> EngineState {
        self.state
    }

    /// The centroids as a sequence of points, if there are any.
    pub closed spec fn centroid_rows(&self) -> Option<Seq<Seq<i32>>> {
        match self.centroids {
            Some(c) => Some(c@),
            None => None,
        }
    }

    /// The number of coordinates of each centroid; zero without centroids.
    pub closed spec fn centroid_width(&self) -> nat {
        match self.centroids {
            Some(c) => c.width(),
            None => 0,
        }
    }

    /// The invariant of the type: centroids are rectangular, and a converged
    /// engine holds one centroid per cluster.
    pub closed spec fn wf(&self) -> bool {
        &&& self.centroids.is_some() ==> self.centroids.unwrap().wf()
        &&& self.state == EngineState::Converged ==> self.n_clusters >= 1
            && self.centroids.is_some() && self.centroids.unwrap()@.len() == self.n_clusters
    }

    /// `other` looks for as many clusters, with the same tolerance and cap.
    pub open spec fn same_configuration(&self, other: &KMeans) -> bool {
        &&& self.clusters() == other.clusters()
        &&& self.tol() == other.tol()
        &&& self.cap() == other.cap()
    }

    /// The engine can be fitted to `n_samples` points: it looks for at least
    /// one cluster and for no more clusters than there are points.
    pub open spec fn fits(&self, n_samples: nat) -> bool {
        1 <= self.clusters() <= n_samples
    }

    /// A fit of `data` from the first centroids `initial` is refused: the
    /// engine does not fit the number of points, or `initial` is not one
    /// centroid per cluster of the dimension of `data`.
    pub open spec fn refuses(&self, data: &PointSet, initial: &PointSet) -> bool {
        ||| !self.fits(data@.len())
        ||| initial@.len() != self.clusters()
        ||| initial.width() != data.width()
    }

    /// The engine and the result `r` of a fit record that the fit was
    /// refused: a configuration error, and the engine is as it was `before`
    /// the call, with the state and the centroids it had.
    pub open spec fn refused(&self, before: &KMeans, r: Result<usize, KMeansError>) -> bool {
        &&& r == Err::<usize, KMeansError>(KMeansError::ConfigurationError)
        &&& *self == *before
    }

    /// The engine and the result `r` of a fit record the outcome `outcome`:
    /// either way the engine holds the outcome's centroids.
    pub open spec fn records(&self, r: Result<usize, KMeansError>, outcome: FitOutcome) -> bool {
        match outcome {
            FitOutcome::Converged { centroids, iterations } => {
                &&& r == Ok::<usize, KMeansError>(iterations as usize)
                &&& self.status() == EngineState::Converged
                &&& self.centroid_rows() == Some(centroids)
            },
            FitOutcome::TimedOut { centroids } => {
                &&& r == Err::<usize, KMeansError>(KMeansError::ConvergenceTimeout)
                &&& self.status() == EngineState::Failed(KMeansError::ConvergenceTimeout)
                &&& self.centroid_rows() == Some(centroids)
            },
        }
    }

    /// An engine that looks for `n_clusters` clusters, with the default
    /// tolerance and iteration cap. It holds no centroids yet.
    pub fn new(n_clusters: u16) -> (engine: KMeans)
        ensures
            engine.wf(),
            engine.centroid_rows().is_none(),
            engine.centroid_width() == 0,
            engine.clusters() == n_clusters,
            engine.tol() == DEFAULT_TOLERANCE,
            engine.cap() == DEFAULT_MAX_ITERATIONS,
            engine.status() == EngineState::Uninitialized,
    {
        KMeans {
            centroids: None,
            n_clusters,
            tolerance: DEFAULT_TOLERANCE,
            max_iterations: DEFAULT_MAX_ITERATIONS,
            state: EngineState::Uninitialized,
        }
    }

    /// The same engine with another tolerance: the centroids count as
    /// settled when one iteration moves them by less than `tolerance` in
    /// total, measured in squared grid units.
    pub fn with_tolerance(self, tolerance: u128) -> (engine: KMeans)
        requires
            self.wf(),
        ensures
            engine.wf(),
            engine.tol() == tolerance,
            engine.clusters() == self.clusters(),
            engine.cap() == self.cap(),
            engine.status() == self.status(),
            engine.centroid_rows() == self.centroid_rows(),
            engine.centroid_width() == self.centroid_width(),
    {
        KMeans {
            centroids: self.centroids,
            n_clusters: self.n_clusters,
            tolerance,
            max_iterations: self.max_iterations,
            state: self.state,
        }
    }

    /// The same engine with another iteration cap.
    pub fn with_max_iterations(self, max_iterations: usize) -> (engine: KMeans)
        requires
            self.wf(),
        ensures
            engine.wf(),
            engine.cap() == max_iterations,
            engine.clusters() == self.clusters(),
            engine.tol() == self.tol(),
            engine.status() == self.status(),
            engine.centroid_rows() == self.centroid_rows(),
            engine.centroid_width() == self.centroid_width(),
    {
        KMeans {
            centroids: self.centroids,
            n_clusters: self.n_clusters,
            tolerance: self.tolerance,
            max_iterations,
            state: self.state,
        }
    }

    /// The number of clusters looked for.
    pub fn n_clusters(&self) -> (k: u16)
        ensures
            k == self.clusters(),
    {
        self.n_clusters
    }

    /// The total displacement below which the centroids count as settled.
    pub fn tolerance(&self) -> (tolerance: u128)
        ensures
            tolerance == self.tol(),
    {
        self.tolerance
    }

    /// The largest number of iterations one fit may spend.
    pub fn max_iterations(&self) -> (cap: usize)
        ensures
            cap == self.cap(),
    {
        self.max_iterations
    }

    /// Where the engine stands.
    pub fn state(&self) -> (state: EngineState)
        ensures
            state == self.status(),
    {
        self.state
    }

    /// Runs the iteration on `data` from the given first centroids and leaves
    /// the engine converged or failed.
    ///
    /// The fit is refused with a configuration error, before any iteration,
    /// when no cluster is looked for, when there are more clusters than
    /// points, or when `initial` is not one centroid per cluster of the
    /// dimension of `data`; the engine then stays as it was. Otherwise the
    /// outcome is that of `lloyd`, and the centroids have the dimension of
    /// `data`.
    pub fn fit_from_centroids(&mut self, data: &PointSet, initial: PointSet) -> (r: Result<
        usize,
        KMeansError,
    >)
        requires
            old(self).wf(),
            data.wf(),
            initial.wf(),
        ensures
            final(self).wf(),
            final(self).same_configuration(old(self)),
            old(self).refuses(data, &initial) ==> final(self).refused(old(self), r),
            !old(self).refuses(data, &initial) ==> final(self).centroid_width() == data.width()
                && final(self).records(
                r,
                lloyd(data@, initial@, old(self).tol(), old(self).cap(), 0),
            ),
    {
        let k: usize = self.n_clusters as usize;
        if k == 0 || k > data.n_samples() || initial.n_samples() != k || initial.n_features()
            != data.n_features() {
            return Err(KMeansError::ConfigurationError);
        }
        let tolerance: u128 = self.tolerance;
        let max_iterations: usize = self.max_iterations;
        let ghost first = initial@;
        let mut centroids: PointSet = initial;
        let mut done: usize = 0;
        while done < max_iterations
            invariant
                data.wf(),
                centroids.wf(),
                centroids.width() == data.width(),
                centroids@.len() == k,
                k >= 1,
                k == self.n_clusters,
                tolerance == self.tolerance,
                max_iterations == self.max_iterations,
                self.same_configuration(old(self)),
                !old(self).refuses(data, &initial),
                first == initial@,
                done <= max_iterations,
                lloyd(data@, first, tolerance as int, max_iterations as nat, 0) == lloyd(
                    data@,
                    centroids@,
                    tolerance as int,
                    max_iterations as nat,
                    done as nat,
                ),
            decreases max_iterations - done,
        {
            let cluster_memberships: Vec<usize> = assign_clusters(data, &centroids);
            let new_centroids: PointSet = compute_centroids(data, &cluster_memberships, &centroids);
            assert(new_centroids@ == lloyd_step(data@, centroids@));
            assert(new_centroids@.len() == k);
            let settled: bool = has_converged(&centroids, &new_centroids, tolerance);
            centroids = new_centroids;
            done = done + 1;
            if settled {
                self.centroids = Some(centroids);
                self.state = EngineState::Converged;
                return Ok(done);
            }
        }
        self.centroids = Some(centroids);
        self.state = EngineState::Failed(KMeansError::ConvergenceTimeout);
        Err(KMeansError::ConvergenceTimeout)
    }

    /// Determines `n_clusters` centroids for `data`: draws distinct points of
    /// `data` as the first centroids, from a generator seeded with `seed`,
    /// and iterates from them.
    ///
    /// The fit is refused with a configuration error, before anything is
    /// drawn, when no cluster is looked for or there are more clusters than
    /// points; the engine then stays as it was. Otherwise the outcome is that
    /// of `lloyd` from some choice of distinct points, and the centroids have
    /// the dimension of `data`.
    ///
    /// Which points are drawn is left to the generator. It is deterministic,
    /// so one build repeats its draw for one seed, but its makers do not
    /// promise the same stream on every configuration and version, and no
    /// clause here ties the draw to `seed`. A caller that must be able to
    /// repeat a fit exactly keeps the first centroids and calls
    /// `fit_from_centroids`, whose outcome is a function of its arguments.
    pub fn fit(&mut self, data: &PointSet, seed: u64) -> (r: Result<usize, KMeansError>)
        requires
            old(self).wf(),
            data.wf(),
        ensures
            final(self).wf(),
            final(self).same_configuration(old(self)),
            !old(self).fits(data@.len()) ==> final(self).refused(old(self), r),
            old(self).fits(data@.len()) ==> final(self).centroid_width() == data.width()
                && exists|indices: Seq<usize>|
                valid_sample(indices, data@.len() as int, old(self).clusters() as int) && final(self).records(
                    r,
                    lloyd(data@, gather(data@, indices), old(self).tol(), old(self).cap(), 0),
                ),
    {
        match get_random_centroids(self.n_clusters, data, seed) {
            Err(_) => Err(KMeansError::ConfigurationError),
            Ok(initial) => {
                let ghost indices = choose|indices: Seq<usize>|
                    valid_sample(indices, data@.len() as int, self.n_clusters as int) && initial@
                        == gather(data@, indices);
                let r = self.fit_from_centroids(data, initial);
                assert(valid_sample(indices, data@.len() as int, old(self).clusters() as int)
                    && self.records(
                    r,
                    lloyd(data@, gather(data@, indices), old(self).tol(), old(self).cap(), 0),
                ));
                r
            },
        }
    }

    /// The cluster of every point of `data` under the fitted centroids.
    ///
    /// Fails when the engine holds no converged centroids, and with a
    /// configuration error when the points of `data` have another dimension
    /// than the centroids.
    pub fn predict(&self, data: &PointSet) -> (r: Result<Vec<usize>, KMeansError>)
        requires
            self.wf(),
            data.wf(),
        ensures
            self.status() != EngineState::Converged ==> r == Err::<Vec<usize>, KMeansError>(
                KMeansError::UnfittedModelError,
            ),
            self.status() == EngineState::Converged && self.centroid_width() != data.width() ==> r
                == Err::<Vec<usize>, KMeansError>(KMeansError::ConfigurationError),
            self.status() == EngineState::Converged && self.centroid_width() == data.width()
                ==> r.is_ok() && self.centroid_rows().is_some() && r.unwrap()@ == memberships(
                data@,
                self.centroid_rows().unwrap(),
            ),
    {
        match self.state {
            EngineState::Converged => {},
            _ => {
                return Err(KMeansError::UnfittedModelError);
            },
        }
        match &self.centroids {
            None => Err(KMeansError::UnfittedModelError),
            Some(centroids) => {
                if centroids.n_features() != data.n_features() {
                    return Err(KMeansError::ConfigurationError);
                }
                Ok(assign_clusters(data, centroids))
            },
        }
    }
}

} // verus!
