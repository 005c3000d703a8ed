use vstd::prelude::*;

verus! {

/// Error of a BLAS operation.
#[derive(Debug)]
pub enum CublasError {
    /// The CUDA driver reported the given result code.
    Driver { code: u32 },
    /// An embedded CUDA module could not be loaded.
    EmbeddedModule,
    /// An operand had the wrong size.
    DimensionMismatch { what: &'static str, expected: usize, got: usize },
    /// The request cannot be served.
    InvalidArgument(&'static str),
}

} // verus!
