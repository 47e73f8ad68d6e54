//! Plain data of the Swift-facing surface: its error type and the solve
//! status it reports.
use vstd::prelude::*;

use crate::optimize::SolveStatus;

verus! {

/// Errors that cross the FFI boundary: deliberately flat and
/// string-carrying rather than mirroring each source error exactly.
#[derive(Debug, Clone, PartialEq, Eq)]
pub enum FfiError {
    DimensionMismatch { message: String },
    /// A solver failed (for example, a problem class it does not handle);
    /// kept apart from dimension errors so callers can tell them apart.
    SolverError { message: String },
}

/// Mirror of `SolveStatus` at the FFI boundary.
#[derive(Debug, Clone, Copy, PartialEq, Eq, Structural)]
pub enum FfiSolveStatus {
    Optimal,
    Infeasible,
    Unbounded,
    IterationLimit,
}

/// The variant of the same name.
pub open spec fn ffi_status_of(status: SolveStatus) -> FfiSolveStatus {
    match status {
        SolveStatus::Optimal => FfiSolveStatus::Optimal,
        SolveStatus::Infeasible => FfiSolveStatus::Infeasible,
        SolveStatus::Unbounded => FfiSolveStatus::Unbounded,
        SolveStatus::IterationLimit => FfiSolveStatus::IterationLimit,
    }
}

impl From<SolveStatus> for FfiSolveStatus {
    fn from(status: SolveStatus) -> (r: Self) {
        match status {
            SolveStatus::Optimal => FfiSolveStatus::Optimal,
            SolveStatus::Infeasible => FfiSolveStatus::Infeasible,
            SolveStatus::Unbounded => FfiSolveStatus::Unbounded,
            SolveStatus::IterationLimit => FfiSolveStatus::IterationLimit,
        }
    }
}

impl vstd::std_specs::convert::FromSpecImpl<SolveStatus> for FfiSolveStatus {
    open spec fn obeys_from_spec() -> bool {
        true
    }

    open spec fn from_spec(status: SolveStatus) -> FfiSolveStatus {
        ffi_status_of(status)
    }
}

} // verus!
