use vstd::prelude::*;

verus! {

/// Runtime element-type tag carried by every buffer that crosses the C ABI.
///
/// Generic code never needs it; the non-generic FFI boundary does, so the
/// set of variants and their order are part of the published interface.
#[derive(Debug, Clone, Copy, PartialEq, Eq, Hash)]
pub enum DType {
    Float32,
    Float64,
}

impl DType {
    /// Width of one element of this type, in bytes.
    pub open spec fn spec_size_in_bytes(self) -> usize {
        match self {
            DType::Float32 => 4,
            DType::Float64 => 8,
        }
    }

    pub fn size_in_bytes(self) -> (n: usize)
        ensures
            n == self.spec_size_in_bytes(),
    {
        match self {
            DType::Float32 => 4,
            DType::Float64 => 8,
        }
    }
}

} // verus!
