use vstd::prelude::*;
use crate::launch::{
    LaunchConfig, ceil_div, for_num_elems, for_num_elems_spec, global_index_1d, in_grid_1d, lemma_block_lane,
    lemma_block_lane_unique, lemma_ceil_div,
};
use crate::level1::halves_to_bits;
use crate::types::{Diag, Half, Transpose, Triangular};

verus! {

/// Threads per block of the tiled GEMV kernels, and width of their `x`
/// tiles.
pub const GEMV_TILE: u32 = 32u32;

/// Lengths of `x` and `y` in `y = alpha * op(A) * x + beta * y` with `A` of
/// shape `m x n`: `(n, m)` for `A`, `(m, n)` for `A` transposed.
pub open spec fn gemv_lens_spec(trans: Transpose, m: int, n: int) -> (int, int) {
    match trans {
        Transpose::NoTrans => (n, m),
        Transpose::Trans => (m, n),
    }
}

/// Lengths of `x` and `y` for a GEMV (see `gemv_lens_spec`).
pub fn gemv_lens(trans: Transpose, m: usize, n: usize) -> (r: (usize, usize))
    ensures
        (r.0 as int, r.1 as int) == gemv_lens_spec(trans, m as int, n as int),
{
    match trans {
        Transpose::NoTrans => (n, m),
        Transpose::Trans => (m, n),
    }
}

/// Operand lengths the GEMV host operations accept: `A` holds exactly
/// `m * n` elements, `x` and `y` at least the lengths `op(A)` needs.
pub open spec fn gemv_operands_ok(trans: Transpose, m: int, n: int, a_len: int, x_len: int, y_len: int) -> bool {
    &&& a_len == m * n
    &&& x_len >= gemv_lens_spec(trans, m, n).0
    &&& y_len >= gemv_lens_spec(trans, m, n).1
}

/// The GEMV launch: the naive kernels run one thread per element of `y`
/// (the default one-dimensional launch), the tiled kernels one block of 32
/// threads per element of `y`. Dimensions reach the device as `u32`.
pub open spec fn gemv_launch_spec(trans: Transpose, m: usize, n: usize, tiled: bool) -> LaunchConfig {
    let outputs: usize = match trans {
        Transpose::NoTrans => m,
        Transpose::Trans => n,
    };
    if tiled {
        LaunchConfig {
            grid_dim: (outputs as u32, 1u32, 1u32),
            block_dim: (GEMV_TILE, 1u32, 1u32),
            shared_mem_bytes: 0,
        }
    } else {
        for_num_elems_spec(outputs as u32)
    }
}

/// Host side of SGEMV (naive or tiled): nothing to launch when `y` is empty
/// (`m == 0` for `A`, `n == 0` for `A` transposed), else the variant's
/// launch. When the sum is empty (the other dimension is zero) the kernels
/// leave `beta * y`.
pub fn gemv_launch(
    trans: Transpose,
    m: usize,
    n: usize,
    a_len: usize,
    x_len: usize,
    y_len: usize,
    tiled: bool,
) -> (r: Option<LaunchConfig>)
    requires
        gemv_operands_ok(trans, m as int, n as int, a_len as int, x_len as int, y_len as int),
    ensures
        r is None <==> gemv_lens_spec(trans, m as int, n as int).1 == 0,
        r matches Some(cfg) ==> cfg == gemv_launch_spec(trans, m, n, tiled),
        r matches Some(cfg) ==> tiled ==> cfg.grid_dim == (gemv_lens_spec(trans, m as int, n as int).1 as u32, 1u32, 1u32)
            && cfg.block_dim == (GEMV_TILE, 1u32, 1u32),
        r matches Some(cfg) ==> !tiled ==> cfg == for_num_elems_spec(gemv_lens_spec(trans, m as int, n as int).1 as u32),
{
    let outputs: usize = match trans {
        Transpose::NoTrans => m,
        Transpose::Trans => n,
    };
    if outputs == 0 {
        return None;
    }
    if tiled {
        Some(LaunchConfig { grid_dim: (outputs as u32, 1, 1), block_dim: (GEMV_TILE, 1, 1), shared_mem_bytes: 0 })
    } else {
        Some(for_num_elems(outputs as u32))
    }
}

/// The GEMV launches make one unit of work per element of `y` (length
/// `gemv_lens_spec(trans, m, n).1`: `m` for `A`, `n` for `A` transposed): the
/// tiled launch has exactly that many blocks of 32 threads, and in the
/// naive launch every element `out` of `y` is reached by exactly one
/// thread, `(out / 256, out % 256)`.
pub proof fn lemma_gemv_launch_one_per_output(trans: Transpose, m: usize, n: usize, out: int, block: int, lane: int)
    requires
        gemv_lens_spec(trans, m as int, n as int).1 <= u32::MAX,
    ensures
        gemv_launch_spec(trans, m, n, true).grid_dim == (gemv_lens_spec(trans, m as int, n as int).1 as u32, 1u32, 1u32),
        gemv_launch_spec(trans, m, n, true).block_dim == (32u32, 1u32, 1u32),
        0 <= out < gemv_lens_spec(trans, m as int, n as int).1 ==> {
            let cfg = gemv_launch_spec(trans, m, n, false);
            &&& in_grid_1d(cfg, out / 256, out % 256)
            &&& global_index_1d(cfg, out / 256, out % 256) == out
            &&& (in_grid_1d(cfg, block, lane) && global_index_1d(cfg, block, lane) == out ==> block == out / 256
                && lane == out % 256)
        },
{
    let ylen = gemv_lens_spec(trans, m as int, n as int).1;
    let cfg = gemv_launch_spec(trans, m, n, false);
    assert(cfg == for_num_elems_spec(ylen as u32));
    if 0 <= out < ylen {
        lemma_block_lane(out, 256, ylen);
        lemma_ceil_div(ylen, 256);
        assert(ceil_div(ylen, 256) <= u32::MAX) by {
            vstd::arithmetic::div_mod::lemma_div_is_ordered(ylen, u32::MAX as int, 256);
        }
        if in_grid_1d(cfg, block, lane) && global_index_1d(cfg, block, lane) == out {
            lemma_block_lane_unique(block, lane, out / 256, out % 256, 256);
        }
    }
}

/// Index into `A` (`m x n`, row-major) of the entry that multiplies `x[j]`
/// for output `out`: `A[out, j]` for `A`, `A[j, out]` for `A` transposed.
pub open spec fn gemv_a_index_spec(trans: Transpose, n: int, out: int, j: int) -> int {
    match trans {
        Transpose::NoTrans => out * n + j,
        Transpose::Trans => j * n + out,
    }
}

/// The `A` index a GEMV kernel reads for output `out` and term `j`.
pub fn gemv_a_index(trans: Transpose, m: usize, n: usize, out: usize, j: usize) -> (r: usize)
    requires
        m * n <= usize::MAX,
        trans == Transpose::NoTrans ==> out < m && j < n,
        trans == Transpose::Trans ==> out < n && j < m,
    ensures
        r == gemv_a_index_spec(trans, n as int, out as int, j as int),
        r < m * n,
{
    match trans {
        Transpose::NoTrans => {
            proof {
                lemma_row_major(out as int, j as int, m as int, n as int);
            }
            out * n + j
        },
        Transpose::Trans => {
            proof {
                lemma_row_major(j as int, out as int, m as int, n as int);
            }
            j * n + out
        },
    }
}

proof fn lemma_row_major(r: int, c: int, rows: int, cols: int)
    requires
        0 <= r < rows,
        0 <= c < cols,
    ensures
        0 <= r * cols + c < rows * cols,
{
    assert(r * cols + c < rows * cols) by (nonlinear_arith)
        requires 0 <= r < rows, 0 <= c < cols;
    assert(0 <= r * cols) by (nonlinear_arith)
        requires 0 <= r, 0 <= cols;
}

/// Every entry of `A` is read by exactly one (output, term) pair of a GEMV:
/// the reads of different pairs are different entries, all inside `A`.
pub proof fn lemma_gemv_reads_each_entry_once(
    trans: Transpose,
    m: int,
    n: int,
    o1: int,
    j1: int,
    o2: int,
    j2: int,
)
    requires
        match trans {
            Transpose::NoTrans => 0 <= o1 < m && 0 <= j1 < n && 0 <= o2 < m && 0 <= j2 < n,
            Transpose::Trans => 0 <= o1 < n && 0 <= j1 < m && 0 <= o2 < n && 0 <= j2 < m,
        },
    ensures
        0 <= gemv_a_index_spec(trans, n, o1, j1) < m * n,
        gemv_a_index_spec(trans, n, o1, j1) == gemv_a_index_spec(trans, n, o2, j2) ==> o1 == o2 && j1
            == j2,
{
    match trans {
        Transpose::NoTrans => {
            lemma_row_major(o1, j1, m, n);
            if o1 * n + j1 == o2 * n + j2 {
                lemma_block_lane_unique(o1, j1, o2, j2, n);
            }
        },
        Transpose::Trans => {
            lemma_row_major(j1, o1, m, n);
            if j1 * n + o1 == j2 * n + o2 {
                lemma_block_lane_unique(j1, o1, j2, o2, n);
            }
        },
    }
}

/// Element of `x` that lane `tid` of a tiled GEMV block stages in tile
/// `tile`: `x[tile * 32 + tid]`, or `None` (a zero) past the end of `x`.
pub fn gemv_tile_element(tile: usize, tid: usize, len: usize) -> (r: Option<usize>)
    requires
        tid < GEMV_TILE,
        tile * 32 + tid <= usize::MAX,
    ensures
        r matches Some(j) ==> j == tile * 32 + tid && j < len,
        r is None ==> tile * 32 + tid >= len,
{
    let j = tile * 32 + tid;
    if j < len {
        Some(j)
    } else {
        None
    }
}

/// In a tiled GEMV block, over its `ceil_div(len, 32)` tiles, every element
/// `j < len` of `x` is staged, and multiplied into a partial sum, by exactly
/// one lane: lane `j % 32` in tile `j / 32`.
pub proof fn lemma_gemv_tiles_cover(len: int, j: int, tile: int, tid: int)
    requires
        0 <= j < len,
        0 <= tile,
        0 <= tid < 32,
        tile * 32 + tid == j,
    ensures
        tile == j / 32,
        tid == j % 32,
        j / 32 < ceil_div(len, 32),
{
    lemma_block_lane(j, 32, len);
    lemma_block_lane_unique(tile, tid, j / 32, j % 32, 32);
}

/// What HGEMV sends to the device: the bit patterns of `A`, of `x[..x_len]`
/// and of `y[..y_len]`, the scalars, and the launch (one thread per element
/// of `y`).
pub struct HalfGemvUpload {
    pub a: Vec<u16>,
    pub x: Vec<u16>,
    pub y: Vec<u16>,
    pub alpha: Half,
    pub beta: Half,
    pub launch: LaunchConfig,
}

/// Host side of HGEMV (`y = alpha * op(A) * x + beta * y` in half precision
/// with single-precision accumulation): nothing to do when `y` is empty
/// (`m == 0` for `A`, `n == 0` for `A` transposed); otherwise (an empty sum
/// included, which leaves `beta * y`) the operands' bit patterns, cut to the
/// lengths `op(A)` needs, and the launch. The results come back with
/// `store_halves`.
pub fn hgemv(
    trans: Transpose,
    m: usize,
    n: usize,
    alpha: Half,
    a: &[Half],
    x: &[Half],
    beta: Half,
    y: &[Half],
) -> (r: Option<HalfGemvUpload>)
    requires
        gemv_operands_ok(trans, m as int, n as int, a@.len() as int, x@.len() as int, y@.len() as int),
    ensures
        r is None <==> gemv_lens_spec(trans, m as int, n as int).1 == 0,
        r matches Some(up) ==> {
            let (xl, yl) = gemv_lens_spec(trans, m as int, n as int);
            &&& up.a@.len() == a@.len()
            &&& forall|i: int| 0 <= i < a@.len() ==> up.a@[i] == #[trigger] a@[i].bits
            &&& up.x@.len() == xl
            &&& forall|i: int| 0 <= i < xl ==> up.x@[i] == #[trigger] x@[i].bits
            &&& up.y@.len() == yl
            &&& forall|i: int| 0 <= i < yl ==> up.y@[i] == #[trigger] y@[i].bits
            &&& up.alpha == alpha
            &&& up.beta == beta
            &&& up.launch == gemv_launch_spec(trans, m, n, false)
        },
{
    let (x_len, y_len) = gemv_lens(trans, m, n);
    if y_len == 0 {
        return None;
    }
    let launch = gemv_launch(trans, m, n, a.len(), x.len(), y.len(), false);
    let ab = halves_to_bits(a, a.len());
    let xb = halves_to_bits(x, x_len);
    let yb = halves_to_bits(y, y_len);
    match launch {
        Some(cfg) => Some(HalfGemvUpload { a: ab, x: xb, y: yb, alpha, beta, launch: cfg }),
        None => None,
    }
}

/// The four single-thread triangular-solve kernels.
#[derive(Debug, Clone, Copy, PartialEq, Eq, Structural)]
pub enum TrsvKernel {
    /// Solve `L x = b`: forward substitution over the rows of `L`.
    LowerN,
    /// Solve `U x = b`: back substitution over the rows of `U`.
    UpperN,
    /// Solve `L^T x = b`: back substitution over the columns of `L`.
    LowerT,
    /// Solve `U^T x = b`: forward substitution over the columns of `U`.
    UpperT,
}

/// The kernel that solves `op(A) x = b` for a triangle and a transpose.
pub open spec fn trsv_kernel_spec(uplo: Triangular, trans: Transpose) -> TrsvKernel {
    match (uplo, trans) {
        (Triangular::Lower, Transpose::NoTrans) => TrsvKernel::LowerN,
        (Triangular::Upper, Transpose::NoTrans) => TrsvKernel::UpperN,
        (Triangular::Lower, Transpose::Trans) => TrsvKernel::LowerT,
        (Triangular::Upper, Transpose::Trans) => TrsvKernel::UpperT,
    }
}

/// A TRSV launch: the kernel, its unit-diagonal flag, and the launch
/// shape (one block of one thread).
pub struct TrsvLaunch {
    pub kernel: TrsvKernel,
    pub unit_diag: u32,
    pub launch: LaunchConfig,
}

/// Host side of STRSV (solve `op(A) x = b` in place, `A` an `n x n`
/// triangle): nothing to launch when `n == 0`; else the kernel for the
/// triangle and transpose, the flag `1` for a unit diagonal and `0`
/// otherwise, and a single-thread launch.
pub fn strsv(uplo: Triangular, trans: Transpose, diag: Diag, n: usize, a_len: usize, b_len: usize) -> (r:
    Option<TrsvLaunch>)
    requires
        a_len == n * n,
        b_len >= n,
    ensures
        r is None <==> n == 0,
        r matches Some(l) ==> {
            &&& l.kernel == trsv_kernel_spec(uplo, trans)
            &&& l.unit_diag == (if diag == Diag::Unit { 1u32 } else { 0u32 })
            &&& l.launch.grid_dim == (1u32, 1u32, 1u32)
            &&& l.launch.block_dim == (1u32, 1u32, 1u32)
            &&& l.launch.shared_mem_bytes == 0
        },
{
    if n == 0 {
        return None;
    }
    let unit: u32 = if diag == Diag::Unit { 1 } else { 0 };
    let kernel = match (uplo, trans) {
        (Triangular::Lower, Transpose::NoTrans) => TrsvKernel::LowerN,
        (Triangular::Upper, Transpose::NoTrans) => TrsvKernel::UpperN,
        (Triangular::Lower, Transpose::Trans) => TrsvKernel::LowerT,
        (Triangular::Upper, Transpose::Trans) => TrsvKernel::UpperT,
    };
    Some(
        TrsvLaunch {
            kernel,
            unit_diag: unit,
            launch: LaunchConfig { grid_dim: (1, 1, 1), block_dim: (1, 1, 1), shared_mem_bytes: 0 },
        },
    )
}

/// The kernel solves the unknowns in increasing order.
pub open spec fn trsv_forward(kernel: TrsvKernel) -> bool {
    kernel == TrsvKernel::LowerN || kernel == TrsvKernel::UpperT
}

/// Step at which the kernel solves unknown `i` of `n`.
pub open spec fn trsv_step(kernel: TrsvKernel, n: int, i: int) -> int {
    if trsv_forward(kernel) {
        i
    } else {
        n - 1 - i
    }
}

/// While solving unknown `i`, the kernel subtracts the term of unknown `j`.
pub open spec fn trsv_reads(kernel: TrsvKernel, i: int, j: int) -> bool {
    if trsv_forward(kernel) {
        j < i
    } else {
        j > i
    }
}

/// The unknown the kernel solves at step `step` of `n`: `step` for the
/// forward kernels, `n - 1 - step` for the backward ones.
pub fn trsv_row(kernel: TrsvKernel, n: usize, step: usize) -> (r: usize)
    requires
        step < n,
    ensures
        r < n,
        trsv_step(kernel, n as int, r as int) == step,
{
    match kernel {
        TrsvKernel::LowerN | TrsvKernel::UpperT => step,
        TrsvKernel::UpperN | TrsvKernel::LowerT => n - 1 - step,
    }
}

/// The unknowns the kernel subtracts while solving unknown `i` of `n`, as
/// the half-open range `lo .. hi`: `0 .. i` for the forward kernels,
/// `i + 1 .. n` for the backward ones.
pub fn trsv_read_range(kernel: TrsvKernel, n: usize, i: usize) -> (r: (usize, usize))
    requires
        i < n,
    ensures
        r.0 <= r.1 <= n,
        forall|j: int| r.0 <= j < r.1 <==> (0 <= j < n && trsv_reads(kernel, i as int, j)),
{
    match kernel {
        TrsvKernel::LowerN | TrsvKernel::UpperT => (0, i),
        TrsvKernel::UpperN | TrsvKernel::LowerT => (i + 1, n),
    }
}

/// Index into `A` of the coefficient of unknown `j` in equation `i`:
/// `A[i, j]` for the plain kernels, `A[j, i]` for the transposed ones.
pub open spec fn trsv_entry_spec(kernel: TrsvKernel, n: int, i: int, j: int) -> int {
    match kernel {
        TrsvKernel::LowerN | TrsvKernel::UpperN => i * n + j,
        TrsvKernel::LowerT | TrsvKernel::UpperT => j * n + i,
    }
}

/// The `A` index a TRSV kernel reads for equation `i` and unknown `j`.
pub fn trsv_entry(kernel: TrsvKernel, n: usize, i: usize, j: usize) -> (r: usize)
    requires
        i < n,
        j < n,
        n * n <= usize::MAX,
    ensures
        r == trsv_entry_spec(kernel, n as int, i as int, j as int),
        r < n * n,
{
    match kernel {
        TrsvKernel::LowerN | TrsvKernel::UpperN => {
            proof {
                lemma_row_major(i as int, j as int, n as int, n as int);
            }
            i * n + j
        },
        TrsvKernel::LowerT | TrsvKernel::UpperT => {
            proof {
                lemma_row_major(j as int, i as int, n as int, n as int);
            }
            j * n + i
        },
    }
}

/// Index into `A` of the divisor of equation `i`: none for a unit diagonal
/// (flag `1`, the diagonal is never read), else the diagonal entry
/// `A[i, i]`.
pub open spec fn trsv_divisor_spec(unit_diag: u32, n: int, i: int) -> Option<int> {
    if unit_diag == 1 {
        None
    } else {
        Some(i * n + i)
    }
}

/// The divisor a TRSV kernel reads for equation `i` (see
/// `trsv_divisor_spec`).
pub fn trsv_divisor(unit_diag: u32, n: usize, i: usize) -> (r: Option<usize>)
    requires
        i < n,
        n * n <= usize::MAX,
    ensures
        r is None <==> trsv_divisor_spec(unit_diag, n as int, i as int) is None,
        r matches Some(e) ==> trsv_divisor_spec(unit_diag, n as int, i as int) == Some(e as int) && e < n * n,
{
    if unit_diag == 1 {
        None
    } else {
        proof {
            lemma_row_major(i as int, i as int, n as int, n as int);
        }
        Some(i * n + i)
    }
}

/// Entry `e` of the `n x n` row-major `A` lies where a solve with this
/// triangle and diagonal may look: strictly inside the triangle, or on the
/// diagonal when it is not unit.
pub open spec fn trsv_may_read(uplo: Triangular, diag: Diag, n: int, e: int) -> bool {
    let row = e / n;
    let col = e % n;
    ||| (uplo == Triangular::Lower && row > col)
    ||| (uplo == Triangular::Upper && row < col)
    ||| (diag == Diag::NonUnit && row == col)
}

/// The triangular solves read only what they may: every unknown `x[j]`
/// subtracted while solving `x[i]` was solved at an earlier step, its
/// coefficient lies strictly inside the chosen triangle (below the
/// diagonal for `Lower`, above it for `Upper`), and the divisor of
/// equation `i` is the diagonal entry `A[i, i]`.
pub proof fn lemma_trsv_reads_solved_triangle(uplo: Triangular, trans: Transpose, n: int, i: int, j: int)
    requires
        0 <= i < n,
        0 <= j < n,
        trsv_reads(trsv_kernel_spec(uplo, trans), i, j),
    ensures
        trsv_step(trsv_kernel_spec(uplo, trans), n, j) < trsv_step(trsv_kernel_spec(uplo, trans), n, i),
        ({
            let e = trsv_entry_spec(trsv_kernel_spec(uplo, trans), n, i, j);
            let row = e / n;
            let col = e % n;
            &&& 0 <= e < n * n
            &&& (uplo == Triangular::Lower ==> row > col)
            &&& (uplo == Triangular::Upper ==> row < col)
        }),
        trsv_entry_spec(trsv_kernel_spec(uplo, trans), n, i, i) == i * n + i,
{
    let kernel = trsv_kernel_spec(uplo, trans);
    let e = trsv_entry_spec(kernel, n, i, j);
    match kernel {
        TrsvKernel::LowerN | TrsvKernel::UpperN => {
            lemma_row_major(i, j, n, n);
            vstd::arithmetic::div_mod::lemma_fundamental_div_mod_converse(e, n, i, j);
        },
        TrsvKernel::LowerT | TrsvKernel::UpperT => {
            lemma_row_major(j, i, n, n);
            vstd::arithmetic::div_mod::lemma_fundamental_div_mod_converse(e, n, j, i);
        },
    }
}

/// Entries outside the triangle, and the diagonal when it is unit, never
/// influence a triangular solve: two matrices that agree where
/// `trsv_may_read` holds give the kernel the same value at every
/// coefficient it subtracts and at every divisor it reads (for the flag
/// `strsv` passes with `diag`), so the solves
/// (which read nothing else of `A`) compute the same `x`.
pub proof fn lemma_trsv_noninterference<T>(
    uplo: Triangular,
    trans: Transpose,
    diag: Diag,
    unit_diag: u32,
    n: int,
    a1: Seq<T>,
    a2: Seq<T>,
)
    requires
        unit_diag == (if diag == Diag::Unit { 1u32 } else { 0u32 }),
        0 <= n,
        a1.len() == n * n,
        a2.len() == n * n,
        forall|e: int| 0 <= e < n * n && #[trigger] trsv_may_read(uplo, diag, n, e) ==> a1[e] == a2[e],
    ensures
        forall|i: int, j: int|
            0 <= i < n && 0 <= j < n && #[trigger] trsv_reads(trsv_kernel_spec(uplo, trans), i, j) ==> a1[trsv_entry_spec(
                trsv_kernel_spec(uplo, trans),
                n,
                i,
                j,
            )] == a2[trsv_entry_spec(trsv_kernel_spec(uplo, trans), n, i, j)],
        forall|i: int|
            0 <= i < n && (#[trigger] trsv_divisor_spec(unit_diag, n, i)) is Some ==> a1[i * n + i] == a2[i * n
                + i],
{
    let kernel = trsv_kernel_spec(uplo, trans);
    assert forall|i: int, j: int|
        0 <= i < n && 0 <= j < n && #[trigger] trsv_reads(kernel, i, j) implies a1[trsv_entry_spec(kernel, n, i, j)]
        == a2[trsv_entry_spec(kernel, n, i, j)] by {
        lemma_trsv_reads_solved_triangle(uplo, trans, n, i, j);
        assert(trsv_may_read(uplo, diag, n, trsv_entry_spec(kernel, n, i, j)));
    }
    assert forall|i: int|
        0 <= i < n && (#[trigger] trsv_divisor_spec(unit_diag, n, i)) is Some implies a1[i * n + i] == a2[i * n + i] by {
        lemma_row_major(i, i, n, n);
        vstd::arithmetic::div_mod::lemma_fundamental_div_mod_converse(i * n + i, n, i, i);
        assert(trsv_may_read(uplo, diag, n, i * n + i));
    }
}

/// Index into `A` (`n x n`, row-major) of the entry the symmetric
/// matrix-vector product uses for `A[i, j]`: the stored entry when it lies
/// in the given triangle, else its mirror image `A[j, i]`.
pub open spec fn symv_entry_spec(uplo: Triangular, n: int, i: int, j: int) -> int {
    if (uplo == Triangular::Upper && i <= j) || (uplo == Triangular::Lower && i >= j) {
        i * n + j
    } else {
        j * n + i
    }
}

/// The `A` index read for `A[i, j]` of a symmetric matrix stored in one
/// triangle (see `symv_entry_spec`).
pub fn symv_entry(uplo: Triangular, n: usize, i: usize, j: usize) -> (r: usize)
    requires
        i < n,
        j < n,
        n * n <= usize::MAX,
    ensures
        r == symv_entry_spec(uplo, n as int, i as int, j as int),
        r < n * n,
        (r / n == i && r % n == j) || (r / n == j && r % n == i),
{
    proof {
        lemma_symv_entry_is_entry_or_mirror(uplo, n as int, i as int, j as int);
    }
    let stored = match uplo {
        Triangular::Upper => i <= j,
        Triangular::Lower => i >= j,
    };
    if stored {
        proof {
            lemma_row_major(i as int, j as int, n as int, n as int);
        }
        i * n + j
    } else {
        proof {
            lemma_row_major(j as int, i as int, n as int, n as int);
        }
        j * n + i
    }
}

/// A symmetric product reads only the given triangle (diagonal included):
/// the entry used for `A[i, j]` has row <= column for `Upper` and
/// row >= column for `Lower`; and `A[i, j]` and `A[j, i]` read the same
/// entry.
pub proof fn lemma_symv_reads_triangle(uplo: Triangular, n: int, i: int, j: int)
    requires
        0 <= i < n,
        0 <= j < n,
    ensures
        ({
            let e = symv_entry_spec(uplo, n, i, j);
            &&& 0 <= e < n * n
            &&& (uplo == Triangular::Upper ==> e / n <= e % n)
            &&& (uplo == Triangular::Lower ==> e / n >= e % n)
        }),
        symv_entry_spec(uplo, n, i, j) == symv_entry_spec(uplo, n, j, i),
{
    let e = symv_entry_spec(uplo, n, i, j);
    if (uplo == Triangular::Upper && i <= j) || (uplo == Triangular::Lower && i >= j) {
        lemma_row_major(i, j, n, n);
        vstd::arithmetic::div_mod::lemma_fundamental_div_mod_converse(e, n, i, j);
    } else {
        lemma_row_major(j, i, n, n);
        vstd::arithmetic::div_mod::lemma_fundamental_div_mod_converse(e, n, j, i);
    }
}

/// The entry a symmetric product uses for `A[i, j]` is `A[i, j]` itself or
/// its mirror `A[j, i]`, whichever lies in the stored triangle: its row and
/// column are `(i, j)` or `(j, i)`, and it lies in the triangle. (When
/// `i != j` exactly one of the two does, so this fixes the entry.)
pub proof fn lemma_symv_entry_is_entry_or_mirror(uplo: Triangular, n: int, i: int, j: int)
    requires
        0 <= i < n,
        0 <= j < n,
    ensures
        ({
            let e = symv_entry_spec(uplo, n, i, j);
            &&& 0 <= e < n * n
            &&& (e / n == i && e % n == j) || (e / n == j && e % n == i)
            &&& (uplo == Triangular::Upper ==> e / n <= e % n)
            &&& (uplo == Triangular::Lower ==> e / n >= e % n)
        }),
{
    let e = symv_entry_spec(uplo, n, i, j);
    lemma_row_major(i, j, n, n);
    lemma_row_major(j, i, n, n);
    if e == i * n + j {
        vstd::arithmetic::div_mod::lemma_fundamental_div_mod_converse(e, n, i, j);
    } else {
        assert(e == j * n + i);
        vstd::arithmetic::div_mod::lemma_fundamental_div_mod_converse(e, n, j, i);
    }
    lemma_symv_reads_triangle(uplo, n, i, j);
}

} // verus!
