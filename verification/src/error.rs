//! The ways in which fitting and prediction can fail.

use vstd::prelude::*;

verus! {

/// Why a call on the engine did not produce a result.
#[derive(Clone, Copy, Debug, PartialEq, Eq, Structural)]
pub enum KMeansError {
    /// The parameters do not fit the data: no cluster was asked for, more
    /// clusters than points, or points of another dimension than the
    /// centroids. Found before any computation.
    ConfigurationError,
    /// The iteration cap was reached before the centroids settled. The
    /// centroids computed last stay available on the engine.
    ConvergenceTimeout,
    /// A prediction was asked of an engine that holds no converged centroids.
    UnfittedModelError,
}

} // verus!
