use vstd::prelude::*;
use vstd::arithmetic::mul::*;
use crate::launch::{
    LaunchConfig, ceil_div, div_ceil_u32, lemma_block_lane, lemma_block_lane_unique, lemma_ceil_div,
};
use crate::level1::halves_to_bits;
use crate::error::CublasError;
use crate::types::{GemmConfig, Half};

verus! {

/// Side of the square thread block and shared-memory tile of the naive,
/// tiled and double-buffered GEMM kernels.
pub const TILE_SIZE: u32 = 16u32;

/// Rows of `C` per block in the vectorized GEMM kernel.
pub const VEC_TILE_M: u32 = 32u32;

/// Columns of `C` per block in the vectorized GEMM kernel.
pub const VEC_TILE_N: u32 = 32u32;

/// Width of the `k`-direction tile in the vectorized GEMM kernel.
pub const VEC_TILE_K: u32 = 16u32;

/// Rows of `C` computed by each thread of the vectorized GEMM kernel.
pub const VEC_THREAD_M: u32 = 4u32;

/// The GEMM kernel variants.
#[derive(Debug, Clone, Copy, PartialEq, Eq, Structural)]
pub enum GemmVariant {
    /// One thread per element of `C`, no shared memory.
    Naive,
    /// 16x16 shared-memory tiles of `A` and `B`.
    Tiled,
    /// 32x32 block of `C`, each thread computing 4 rows of one column.
    Vectorized,
    /// 16x16 tiles in two ping-pong shared-memory buffers.
    DoubleBuf,
}

/// Operand lengths the GEMM host operations accept: `A` is `m x k`, `B` is
/// `k x n` and `C` is `m x n`, each exactly.
pub open spec fn gemm_operands_ok(m: int, n: int, k: int, a_len: int, b_len: int, c_len: int) -> bool {
    &&& a_len == m * k
    &&& b_len == k * n
    &&& c_len == m * n
}

/// The launch a GEMM variant uses for an `m x n` result. The dimensions
/// reach the device as `u32` (truncated).
pub open spec fn gemm_launch_spec(variant: GemmVariant, m: usize, n: usize) -> LaunchConfig {
    let m32 = (m as u32) as int;
    let n32 = (n as u32) as int;
    if variant == GemmVariant::Vectorized {
        LaunchConfig {
            grid_dim: (ceil_div(n32, 32) as u32, ceil_div(m32, 32) as u32, 1u32),
            block_dim: (VEC_TILE_N, VEC_TILE_M / VEC_THREAD_M, 1u32),
            shared_mem_bytes: 0,
        }
    } else {
        LaunchConfig {
            grid_dim: (ceil_div(n32, 16) as u32, ceil_div(m32, 16) as u32, 1u32),
            block_dim: (TILE_SIZE, TILE_SIZE, 1u32),
            shared_mem_bytes: 0,
        }
    }
}

/// Host side of a GEMM (`C = alpha * A * B + beta * C`): launches nothing
/// when `C` is empty (`m == 0` or `n == 0`), and otherwise gives the
/// variant's launch. With `k == 0` the product is empty and the kernels
/// leave `beta * C`.
pub fn gemm_launch<T>(
    variant: GemmVariant,
    config: &GemmConfig<T>,
    a_len: usize,
    b_len: usize,
    c_len: usize,
) -> (r: Option<LaunchConfig>)
    requires
        gemm_operands_ok(
            config.m as int,
            config.n as int,
            config.k as int,
            a_len as int,
            b_len as int,
            c_len as int,
        ),
    ensures
        r is None <==> (config.m == 0 || config.n == 0),
        r matches Some(cfg) ==> cfg == gemm_launch_spec(variant, config.m, config.n),
{
    let m = config.m;
    let n = config.n;
    if m == 0 || n == 0 {
        return None;
    }
    match variant {
        GemmVariant::Vectorized => Some(
            LaunchConfig {
                grid_dim: (div_ceil_u32(n as u32, VEC_TILE_N), div_ceil_u32(m as u32, VEC_TILE_M), 1),
                block_dim: (VEC_TILE_N, VEC_TILE_M / VEC_THREAD_M, 1),
                shared_mem_bytes: 0,
            },
        ),
        _ => Some(
            LaunchConfig {
                grid_dim: (div_ceil_u32(n as u32, TILE_SIZE), div_ceil_u32(m as u32, TILE_SIZE), 1),
                block_dim: (TILE_SIZE, TILE_SIZE, 1),
                shared_mem_bytes: 0,
            },
        ),
    }
}

/// The element of `C` that thread `(tx, ty)` of block `(bx, by)` owns in the
/// 16x16 launches: row `by * 16 + ty`, column `bx * 16 + tx`.
pub open spec fn tile_cell(bx: int, by: int, tx: int, ty: int) -> (int, int) {
    (by * 16 + ty, bx * 16 + tx)
}

/// The element of `C` (`m x n`, row-major) that the thread for `(row, col)`
/// writes: `row * n + col` when `(row, col)` lies inside `C` (and the index
/// fits in `usize`), else none.
pub open spec fn gemm_target(row: usize, col: usize, m: usize, n: usize) -> Option<usize> {
    if row < m && col < n && row * n + col <= usize::MAX {
        Some((row * n + col) as usize)
    } else {
        None
    }
}

/// The `C` element a GEMM thread writes (see `gemm_target`); threads of
/// the launch's ragged edge, outside `C`, write nothing. Every target lies
/// inside `C`, and every element of `C` is the target of its own
/// `(row, col)` when `m * n` fits in `usize`.
pub fn gemm_write_target(row: usize, col: usize, m: usize, n: usize) -> (r: Option<usize>)
    ensures
        r == gemm_target(row, col, m, n),
        r matches Some(e) ==> e < m * n,
        row < m && col < n && m * n <= usize::MAX ==> r == Some((row * n + col) as usize),
{
    if row >= m || col >= n {
        return None;
    }
    proof {
        lemma_cell_in_matrix(row as int, col as int, m as int, n as int);
    }
    let inner = match row.checked_mul(n) {
        Some(v) => v,
        None => return None,
    };
    inner.checked_add(col)
}

proof fn lemma_cell_in_matrix(row: int, col: int, m: int, n: int)
    requires
        0 <= row < m,
        0 <= col < n,
    ensures
        0 <= row * n,
        row * n + col < m * n,
{
    assert(0 <= row * n) by (nonlinear_arith)
        requires 0 <= row, 0 <= n;
    assert(row * n + col < m * n) by (nonlinear_arith)
        requires 0 <= row < m, 0 <= col < n;
}

/// Thread `(tx, ty)` of block `(bx, by)` exists in the launch.
pub open spec fn in_grid_2d(cfg: LaunchConfig, bx: int, by: int, tx: int, ty: int) -> bool {
    &&& 0 <= bx < cfg.grid_dim.0
    &&& 0 <= by < cfg.grid_dim.1
    &&& 0 <= tx < cfg.block_dim.0
    &&& 0 <= ty < cfg.block_dim.1
}

/// In the naive, tiled and double-buffered launches every element
/// `(row, col)` of an `m x n` result is owned by exactly one thread:
/// thread `(col % 16, row % 16)` of block `(col / 16, row / 16)`.
pub proof fn lemma_tile_launch_covers(
    variant: GemmVariant,
    m: usize,
    n: usize,
    row: int,
    col: int,
    bx: int,
    by: int,
    tx: int,
    ty: int,
)
    requires
        variant != GemmVariant::Vectorized,
        m <= u32::MAX,
        n <= u32::MAX,
        0 <= row < m,
        0 <= col < n,
        in_grid_2d(gemm_launch_spec(variant, m, n), bx, by, tx, ty),
        tile_cell(bx, by, tx, ty) == (row, col),
    ensures
        in_grid_2d(gemm_launch_spec(variant, m, n), col / 16, row / 16, col % 16, row % 16),
        tile_cell(col / 16, row / 16, col % 16, row % 16) == (row, col),
        bx == col / 16 && by == row / 16 && tx == col % 16 && ty == row % 16,
{
    lemma_block_lane(row, 16, m as int);
    lemma_block_lane(col, 16, n as int);
    lemma_ceil_div(m as int, 16);
    lemma_ceil_div(n as int, 16);
    assert(m as u32 == m);
    assert(n as u32 == n);
    lemma_block_lane_unique(by, ty, row / 16, row % 16, 16);
    lemma_block_lane_unique(bx, tx, col / 16, col % 16, 16);
}

/// The elements of `C` that thread `(tx, ty)` of block `(bx, by)` owns in the
/// vectorized launch: rows `by * 32 + ty * 4 + r` for `r < 4`, column
/// `bx * 32 + tx`.
pub open spec fn vec_cell(bx: int, by: int, tx: int, ty: int, r: int) -> (int, int) {
    (by * 32 + ty * 4 + r, bx * 32 + tx)
}

/// In the vectorized launch every element `(row, col)` of an `m x n` result
/// is owned by exactly one (thread, row slot): row slot `row % 4` of thread
/// `(col % 32, (row % 32) / 4)` of block `(col / 32, row / 32)`.
pub proof fn lemma_vec_launch_covers(
    m: usize,
    n: usize,
    row: int,
    col: int,
    bx: int,
    by: int,
    tx: int,
    ty: int,
    r: int,
)
    requires
        m <= u32::MAX,
        n <= u32::MAX,
        0 <= row < m,
        0 <= col < n,
        in_grid_2d(gemm_launch_spec(GemmVariant::Vectorized, m, n), bx, by, tx, ty),
        0 <= r < 4,
        vec_cell(bx, by, tx, ty, r) == (row, col),
    ensures
        in_grid_2d(
            gemm_launch_spec(GemmVariant::Vectorized, m, n),
            col / 32,
            row / 32,
            col % 32,
            (row % 32) / 4,
        ),
        vec_cell(col / 32, row / 32, col % 32, (row % 32) / 4, row % 4) == (row, col),
        bx == col / 32 && by == row / 32 && tx == col % 32 && ty == (row % 32) / 4 && r == row % 4,
{
    lemma_block_lane(row, 32, m as int);
    lemma_block_lane(col, 32, n as int);
    lemma_block_lane(row % 32, 4, 32);
    vstd::arithmetic::div_mod::lemma_mod_mod(row, 4, 8);
    lemma_ceil_div(m as int, 32);
    lemma_ceil_div(n as int, 32);
    assert(m as u32 == m);
    assert(n as u32 == n);
    lemma_block_lane_unique(bx, tx, col / 32, col % 32, 32);
    lemma_block_lane_unique(ty, r, (row % 32) / 4, row % 4, 4);
    lemma_block_lane_unique(by, ty * 4 + r, row / 32, row % 32, 32);
}

/// Element of `A` (`m x k`, row-major) that a thread stages into the
/// shared `A` tile for row `row` and column `tile_start + lane`, or `None`
/// for the zero padding outside `A`.
pub open spec fn tile_a_src(m: int, k: int, row: int, tile_start: int, lane: int) -> Option<int> {
    if row < m && tile_start + lane < k {
        Some(row * k + tile_start + lane)
    } else {
        None
    }
}

/// Element of `B` (`k x n`, row-major) that a thread stages into the
/// shared `B` tile for row `tile_start + lane` and column `col`, or `None`
/// for the zero padding outside `B`.
pub open spec fn tile_b_src(k: int, n: int, col: int, tile_start: int, lane: int) -> Option<int> {
    if tile_start + lane < k && col < n {
        Some((tile_start + lane) * n + col)
    } else {
        None
    }
}

proof fn lemma_row_major_bound(r: int, c: int, rows: int, cols: int)
    requires
        0 <= r < rows,
        0 <= c < cols,
    ensures
        0 <= r * cols + c < rows * cols,
{
    assert(r * cols + c < rows * cols) by (nonlinear_arith)
        requires 0 <= r < rows, 0 <= c < cols;
    assert(0 <= r * cols) by (nonlinear_arith)
        requires 0 <= r, 0 <= cols;
}

/// The `A` element a thread stages for its tile row (see `tile_a_src`).
pub fn tile_a_source(m: usize, k: usize, row: usize, tile_start: usize, lane: usize) -> (r: Option<usize>)
    requires
        m * k <= usize::MAX,
        tile_start + lane <= usize::MAX,
    ensures
        r matches Some(i) ==> tile_a_src(m as int, k as int, row as int, tile_start as int, lane as int)
            == Some(i as int) && i < m * k,
        r is None ==> tile_a_src(m as int, k as int, row as int, tile_start as int, lane as int) is None,
{
    let a_col = tile_start + lane;
    if row < m && a_col < k {
        proof {
            lemma_row_major_bound(row as int, a_col as int, m as int, k as int);
        }
        Some(row * k + a_col)
    } else {
        None
    }
}

/// The `B` element a thread stages for its tile row (see `tile_b_src`).
pub fn tile_b_source(k: usize, n: usize, col: usize, tile_start: usize, lane: usize) -> (r: Option<usize>)
    requires
        k * n <= usize::MAX,
        tile_start + lane <= usize::MAX,
    ensures
        r matches Some(i) ==> tile_b_src(k as int, n as int, col as int, tile_start as int, lane as int)
            == Some(i as int) && i < k * n,
        r is None ==> tile_b_src(k as int, n as int, col as int, tile_start as int, lane as int) is None,
{
    let b_row = tile_start + lane;
    if b_row < k && col < n {
        proof {
            lemma_row_major_bound(b_row as int, col as int, k as int, n as int);
        }
        Some(b_row * n + col)
    } else {
        None
    }
}

/// Product term `p` of the naive kernel for element `(row, col)`:
/// `A[row, p] * B[p, col]`, read from `a[row * k + p]` and `b[p * n + col]`.
pub open spec fn naive_term(n: int, k: int, row: int, col: int, p: int) -> (Option<int>, Option<int>) {
    (Some(row * k + p), Some(p * n + col))
}

/// Product term `i` of tile `t` of the tiled kernels for element
/// `(row, col)`: the thread multiplies shared `A` slot `(ty, i)`, staged by
/// thread `(i, ty)` from row `row`, with shared `B` slot `(i, tx)`, staged
/// by thread `(tx, i)` for column `col`.
pub open spec fn tiled_term(m: int, n: int, k: int, row: int, col: int, t: int, i: int) -> (
    Option<int>,
    Option<int>,
) {
    (tile_a_src(m, k, row, t * 16, i), tile_b_src(k, n, col, t * 16, i))
}

/// The tiled kernels (16x16 tiles, plain, double-buffered and strided
/// batched) multiply, for every element `(row, col)` of `C`, exactly the
/// products of the naive kernel in the same order: term `i` of tile `t` is
/// naive term `t * 16 + i` when that is below `k`, and a product of two
/// zero paddings afterwards. Every naive term `p < k` appears once, as term
/// `p % 16` of tile `p / 16`, and tile `p / 16` is among the
/// `ceil_div(k, 16)` tiles the kernel runs.
pub proof fn lemma_tiled_matches_naive(m: int, n: int, k: int, row: int, col: int, t: int, i: int)
    requires
        0 <= row < m,
        0 <= col < n,
        0 <= k,
        0 <= t,
        0 <= i < 16,
    ensures
        t * 16 + i < k ==> tiled_term(m, n, k, row, col, t, i) == naive_term(n, k, row, col, t * 16 + i),
        t * 16 + i >= k ==> tiled_term(m, n, k, row, col, t, i) == (None::<int>, None::<int>),
        t * 16 + i < k ==> t < ceil_div(k, 16),
        forall|p: int|
            0 <= p < k ==> 0 <= p % 16 < 16 && 0 <= p / 16 < ceil_div(k, 16) && tiled_term(
                m,
                n,
                k,
                row,
                col,
                p / 16,
                p % 16,
            ) == #[trigger] naive_term(n, k, row, col, p),
{
    assert forall|p: int| 0 <= p < k implies 0 <= p % 16 < 16 && 0 <= p / 16 < ceil_div(k, 16)
        && tiled_term(m, n, k, row, col, p / 16, p % 16) == #[trigger] naive_term(n, k, row, col, p) by {
        lemma_block_lane(p, 16, k);
    }
    if t * 16 + i < k {
        lemma_block_lane(t * 16 + i, 16, k);
        lemma_block_lane_unique(t, i, (t * 16 + i) / 16, (t * 16 + i) % 16, 16);
    }
}

/// Threads per block of the vectorized GEMM kernel (32 x 8).
pub const VEC_THREADS: usize = 256usize;

/// Shared-memory slot that thread `tid` fills in its `half`-th cooperative
/// load (each of the 256 threads loads two of the 512 slots of a tile).
pub fn vec_load_slot(tid: usize, half: usize) -> (slot: usize)
    requires
        tid < VEC_THREADS,
        half < 2,
    ensures
        slot == tid + 256 * half,
        slot < 512,
{
    tid + VEC_THREADS * half
}

/// The two cooperative loads of the vectorized kernel fill each of the 512
/// slots of a tile exactly once: slot `s` by thread `s % 256` in load
/// `s / 256`.
pub proof fn lemma_vec_loads_cover(s: int, tid: int, half: int)
    requires
        0 <= s < 512,
        0 <= tid < 256,
        0 <= half < 2,
        tid + 256 * half == s,
    ensures
        tid == s % 256,
        half == s / 256,
{
    lemma_block_lane_unique(half, tid, s / 256, s % 256, 256);
    lemma_block_lane(s, 256, 512);
}

/// Element of `A` staged in slot `slot` of the vectorized kernel's shared
/// `A` tile (32 rows x 16 columns): row `block_row + slot / 16`, column
/// `tile_start + slot % 16`.
pub open spec fn vec_a_slot_src(m: int, k: int, block_row: int, tile_start: int, slot: int) -> Option<int> {
    tile_a_src(m, k, block_row + slot / 16, tile_start, slot % 16)
}

/// Element of `B` staged in slot `slot` of the vectorized kernel's shared
/// `B` tile (16 rows x 32 columns): row `tile_start + slot / 32`, column
/// `block_col + slot % 32`.
pub open spec fn vec_b_slot_src(k: int, n: int, block_col: int, tile_start: int, slot: int) -> Option<int> {
    tile_b_src(k, n, block_col + slot % 32, tile_start, slot / 32)
}

/// The `A` element staged in a slot of the vectorized kernel's `A` tile.
pub fn vec_a_slot_source(m: usize, k: usize, block_row: usize, tile_start: usize, slot: usize) -> (r:
    Option<usize>)
    requires
        m * k <= usize::MAX,
        slot < 512,
        block_row + 32 <= usize::MAX,
        tile_start + 16 <= usize::MAX,
    ensures
        r matches Some(i) ==> vec_a_slot_src(m as int, k as int, block_row as int, tile_start as int, slot as int)
            == Some(i as int) && i < m * k,
        r is None ==> vec_a_slot_src(m as int, k as int, block_row as int, tile_start as int, slot as int) is None,
{
    let r0 = slot / 16;
    let kk = slot % 16;
    tile_a_source(m, k, block_row + r0, tile_start, kk)
}

/// The `B` element staged in a slot of the vectorized kernel's `B` tile.
pub fn vec_b_slot_source(k: usize, n: usize, block_col: usize, tile_start: usize, slot: usize) -> (r:
    Option<usize>)
    requires
        k * n <= usize::MAX,
        slot < 512,
        block_col + 32 <= usize::MAX,
        tile_start + 16 <= usize::MAX,
    ensures
        r matches Some(i) ==> vec_b_slot_src(k as int, n as int, block_col as int, tile_start as int, slot as int)
            == Some(i as int) && i < k * n,
        r is None ==> vec_b_slot_src(k as int, n as int, block_col as int, tile_start as int, slot as int) is None,
{
    let kk = slot / 32;
    let cc = slot % 32;
    tile_b_source(k, n, block_col + cc, tile_start, kk)
}

/// In the vectorized kernel, row slot `r` of thread `(tx, ty)` multiplies
/// shared `A` slot `(ty * 4 + r) * 16 + kk` with shared `B` slot
/// `kk * 32 + tx`; these hold exactly the operands of term `kk` of the
/// tiled scheme for its element `(block_row + ty * 4 + r, block_col + tx)`,
/// so by `lemma_tiled_matches_naive` the vectorized kernel multiplies the
/// naive kernel's products in the naive order.
pub proof fn lemma_vec_matches_tiled(
    m: int,
    n: int,
    k: int,
    block_row: int,
    block_col: int,
    tile_start: int,
    tx: int,
    ty: int,
    r: int,
    kk: int,
)
    requires
        0 <= tx < 32,
        0 <= ty < 8,
        0 <= r < 4,
        0 <= kk < 16,
    ensures
        vec_a_slot_src(m, k, block_row, tile_start, (ty * 4 + r) * 16 + kk) == tile_a_src(
            m,
            k,
            block_row + ty * 4 + r,
            tile_start,
            kk,
        ),
        vec_b_slot_src(k, n, block_col, tile_start, kk * 32 + tx) == tile_b_src(
            k,
            n,
            block_col + tx,
            tile_start,
            kk,
        ),
{
    lemma_block_lane(kk * 32 + tx, 32, 512);
    lemma_block_lane_unique(kk, tx, (kk * 32 + tx) / 32, (kk * 32 + tx) % 32, 32);
    lemma_block_lane(((ty * 4 + r) * 16 + kk), 16, 512);
    lemma_block_lane_unique(ty * 4 + r, kk, ((ty * 4 + r) * 16 + kk) / 16, ((ty * 4 + r) * 16 + kk) % 16, 16);
}

/// Offsets (in elements) of the shared-memory buffer the double-buffered
/// kernel computes on in iteration `tile`, and of the buffer it prefetches
/// tile `tile + 1` into.
pub fn double_buf_offsets(tile: usize) -> (r: (usize, usize))
    requires
        tile < usize::MAX,
    ensures
        r.0 == double_buf_offset(tile as int),
        r.1 == double_buf_offset(tile + 1),
{
    let cur: usize = tile & 1;
    let next: usize = (tile + 1) & 1;
    proof {
        let t1 = (tile + 1) as usize;
        assert(tile & 1 == tile % 2) by (bit_vector);
        assert(t1 & 1 == t1 % 2) by (bit_vector);
    }
    (cur * 256, next * 256)
}

/// The buffer that holds tile `t` in the double-buffered kernel: tile `t`
/// is loaded into, and later read from, the buffer at offset
/// `(t % 2) * 256`.
pub open spec fn double_buf_offset(t: int) -> int {
    (t % 2) * 256
}

/// The double-buffered kernel reads each tile from the buffer it was loaded
/// into; the prefetch of tile `t + 1` never targets the buffer tile `t` is
/// read from; and the next load into that buffer (tile `t + 2`) happens in
/// the iteration after the one that reads tile `t`, past the barrier that
/// ends it.
pub proof fn lemma_double_buf_no_overwrite(t: int)
    requires
        t >= 0,
    ensures
        double_buf_offset(t + 1) != double_buf_offset(t),
        double_buf_offset(t + 2) == double_buf_offset(t),
        double_buf_offset(t) == 0 || double_buf_offset(t) == 256,
{
}

/// What HGEMM sends to the device: the bit patterns of `A`, `B` and `C`,
/// the scalars, and the launch.
pub struct HalfGemmUpload {
    pub a: Vec<u16>,
    pub b: Vec<u16>,
    pub c: Vec<u16>,
    pub alpha: Half,
    pub beta: Half,
    pub launch: LaunchConfig,
}

/// Host side of the scalar half-precision GEMM (`C = alpha * A * B + beta *
/// C`, half-precision operands, single-precision accumulation, 16x16
/// tiles): nothing to do when `C` is empty (`m == 0` or `n == 0`);
/// otherwise (`k == 0` included, which leaves `beta * C`) the operands'
/// bit patterns and the tiled launch. The results come back with
/// `store_halves`.
pub fn hgemm_half(config: &GemmConfig<Half>, a: &[Half], b: &[Half], c: &[Half]) -> (r: Option<
    HalfGemmUpload,
>)
    requires
        gemm_operands_ok(
            config.m as int,
            config.n as int,
            config.k as int,
            a@.len() as int,
            b@.len() as int,
            c@.len() as int,
        ),
    ensures
        r is None <==> (config.m == 0 || config.n == 0),
        r matches Some(up) ==> {
            &&& up.a@.len() == a@.len()
            &&& forall|i: int| 0 <= i < a@.len() ==> up.a@[i] == #[trigger] a@[i].bits
            &&& up.b@.len() == b@.len()
            &&& forall|i: int| 0 <= i < b@.len() ==> up.b@[i] == #[trigger] b@[i].bits
            &&& up.c@.len() == c@.len()
            &&& forall|i: int| 0 <= i < c@.len() ==> up.c@[i] == #[trigger] c@[i].bits
            &&& up.alpha == config.alpha
            &&& up.beta == config.beta
            &&& up.launch == gemm_launch_spec(GemmVariant::Tiled, config.m, config.n)
        },
{
    let launch = gemm_launch(GemmVariant::Tiled, config, a.len(), b.len(), c.len());
    match launch {
        None => None,
        Some(cfg) => {
            let ab = halves_to_bits(a, a.len());
            let bb = halves_to_bits(b, b.len());
            let cb = halves_to_bits(c, c.len());
            Some(HalfGemmUpload { a: ab, b: bb, c: cb, alpha: config.alpha, beta: config.beta, launch: cfg })
        },
    }
}

/// Tensor-core half-precision GEMM (sm_80+). The kernels have no access to
/// the warp matrix multiply-accumulate instructions this path needs, so
/// every request is refused with `InvalidArgument`.
pub fn hgemm_tensor_core(config: &GemmConfig<Half>, a: &[Half], b: &[Half], c: &[Half]) -> (r: Result<
    HalfGemmUpload,
    CublasError,
>)
    ensures
        r matches Err(CublasError::InvalidArgument(_)),
{
    Err(CublasError::InvalidArgument("tensor-core HGEMM is not available: no warp matrix multiply-accumulate support"))
}

} // verus!
