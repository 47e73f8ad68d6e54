use vstd::prelude::*;

verus! {

/// The dense matrix decompositions the library knows about.
#[derive(Debug, Clone, Copy, PartialEq, Eq, Structural)]
pub enum DecompositionKind {
    Lu,
    Qr,
    Cholesky,
    Svd,
}

} // verus!
