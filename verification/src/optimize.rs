//! Plain data of the optimization layer: how a solve ended and how it
//! failed. A problem (the handoff format between a modeling language and a
//! solver) and the solvers themselves carry floating-point data and live
//! outside this crate.
use vstd::prelude::*;

use crate::sparse::SparseError;

verus! {

/// How a solve ended.
#[derive(Debug, Clone, Copy, PartialEq, Eq, Structural)]
pub enum SolveStatus {
    Optimal,
    Infeasible,
    Unbounded,
    IterationLimit,
}

/// Why a solver could not produce a solution.
#[derive(Debug)]
pub enum OptimizeError {
    /// The solver does not (yet) handle this problem class; the text names
    /// what is missing.
    NotImplemented(&'static str),
    Sparse(SparseError),
}

/// Placeholder solver: it reports every problem as not implemented, so
/// the modeling pipeline can be wired end to end before a real solver
/// exists.
#[derive(Debug, Clone, Copy)]
pub struct StubSolver;

} // verus!
