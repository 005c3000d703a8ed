use vstd::prelude::*;

verus! {

/// Configuration for a GEMM operation: `C = alpha * A * B + beta * C`,
/// with `A` of shape `m x k`, `B` of shape `k x n` and `C` of shape `m x n`,
/// all row-major.
#[derive(Debug, Clone)]
pub struct GemmConfig<T> {
    pub m: usize,
    pub n: usize,
    pub k: usize,
    pub alpha: T,
    pub beta: T,
}

/// Layout convention for matrix operands.
#[derive(Debug, Clone, Copy, PartialEq, Eq, Structural)]
pub enum MatrixLayout {
    RowMajor,
    ColMajor,
}

/// Whether the matrix is transposed.
#[derive(Debug, Clone, Copy, PartialEq, Eq, Structural)]
pub enum Transpose {
    NoTrans,
    Trans,
}

/// Whether a triangular matrix is upper- or lower-triangular.
#[derive(Debug, Clone, Copy, PartialEq, Eq, Structural)]
pub enum Triangular {
    Upper,
    Lower,
}

/// Whether the triangular matrix has a unit (implicit 1) diagonal.
#[derive(Debug, Clone, Copy, PartialEq, Eq, Structural)]
pub enum Diag {
    NonUnit,
    Unit,
}

/// An IEEE-754 binary16 value, held as its 16-bit pattern.
///
/// Half-precision operands travel to the device as raw `u16` words, so the
/// library keeps them in that form.
#[derive(Debug, Clone, Copy, PartialEq, Eq, Structural)]
pub struct Half {
    pub bits: u16,
}

/// Bit pattern of binary16 `+0.0`.
pub const HALF_ZERO_BITS: u16 = 0x0000u16;

/// Bit pattern of binary16 `1.0`: sign 0, biased exponent 15, mantissa 0.
pub const HALF_ONE_BITS: u16 = 0x3c00u16;

impl Half {
    /// The value with the given bit pattern.
    pub fn from_bits(bits: u16) -> (h: Half)
        ensures
            h.bits == bits,
    {
        Half { bits }
    }

    /// The bit pattern of this value.
    pub fn to_bits(self) -> (b: u16)
        ensures
            b == self.bits,
    {
        self.bits
    }
}

/// Scalar types supported by the BLAS operations.
pub trait BlasScalar: Copy + Clone + Sized {
    /// Additive identity (zero).
    fn zero() -> Self;

    /// Multiplicative identity (one).
    fn one() -> Self;
}

impl BlasScalar for Half {
    fn zero() -> (z: Half)
        ensures
            z.bits == HALF_ZERO_BITS,
    {
        Half { bits: HALF_ZERO_BITS }
    }

    fn one() -> (o: Half)
        ensures
            o.bits == HALF_ONE_BITS,
    {
        Half { bits: HALF_ONE_BITS }
    }
}

} // verus!
