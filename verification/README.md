# cublas_rs

The host-side logic of a cuBLAS-style BLAS library for CUDA devices, with
its contracts and laws proved.

- `src/` — the library: the launch shapes of every operation (`launch`,
  `level1`, `level2`, `gemm`, `batched`), with the operand lengths each one
  accepts stated as preconditions; the per-thread index maps of the device
  kernels (reduction scan and tree, GEMV tiles, TRSV order, GEMM tiles,
  strided batches) with their coverage and equivalence laws; batch packing
  for batched GEMM; the half-precision bit conversions (`half_bits`); and
  the exact bit-level ISAMAX reduction (`iamax`).
- `app/` — the GPU layer: CUDA context, streams, device buffers, kernel
  modules, the device kernels (floating-point code), the argument checks
  that precede each call into the library, and the `Handle` API. It
  depends on the cuda-oxide crates and a CUDA toolkit.
- `tests/` — tests of the library, including CPU runs of the kernels'
  schedules built from the library's index maps.

Implemented: `saxpy`, `daxpy`, `haxpy`, `sscal`, `scopy`, `sdot`, `snrm2`,
`sasum`, `isamax`; `sgemv` (naive and tiled), `dgemv`, `hgemv`, `strsv`,
`ssymv`; `sgemm` (naive, tiled, vectorized, double-buffered), `dgemm`,
`hgemm_half`, batched and strided batched SGEMM. The tensor-core HGEMM is
refused.
