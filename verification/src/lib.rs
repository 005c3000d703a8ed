//! Host-side logic of a cuBLAS-style BLAS library for CUDA devices: the
//! argument checks and launch plans of every operation, the per-thread
//! index maps of the device kernels, batch packing for batched GEMM, the
//! half-precision bit conversions, and the exact (bit-level) ISAMAX
//! reduction, each with its contract.

pub mod types;
pub mod error;
pub mod launch;
pub mod iamax;
pub mod half_bits;
pub mod level1;
pub mod gemm;
pub mod batched;
pub mod level2;
