use vstd::prelude::*;
use crate::launch::{LaunchConfig, ceil_div, div_ceil_u32, lemma_block_lane, lemma_block_lane_unique, lemma_ceil_div};
use crate::gemm::TILE_SIZE;
use crate::types::GemmConfig;

verus! {

/// The launch of the strided batched GEMM kernel: the 16x16 tiling of one
/// `m x n` result, repeated along the grid's `z` axis once per batch.
/// Dimensions and batch count reach the device as `u32` (truncated).
pub open spec fn strided_launch_spec(m: usize, n: usize, batch_count: usize) -> LaunchConfig {
    LaunchConfig {
        grid_dim: (
            ceil_div((n as u32) as int, 16) as u32,
            ceil_div((m as u32) as int, 16) as u32,
            batch_count as u32,
        ),
        block_dim: (TILE_SIZE, TILE_SIZE, 1u32),
        shared_mem_bytes: 0,
    }
}

/// Host side of the strided batched GEMM (`C_b = alpha * A_b * B_b + beta *
/// C_b` with `A_b = a[b * stride_a ..]` and likewise for `B` and `C`):
/// nothing to launch when every `C_b` is empty (`m == 0` or `n == 0`) or the
/// batch count is zero, else the strided launch. With `k == 0` the products
/// are empty and the kernel leaves `beta * C_b`. Besides the
/// `batch_count * stride` elements of each buffer, a launch needs the last
/// batch's whole matrix inside the buffer (see
/// `lemma_strided_reads_in_bounds`), which a stride smaller than the matrix
/// would otherwise leave out.
pub fn strided_batched_sgemm<T>(
    config: &GemmConfig<T>,
    batch_count: usize,
    a_len: usize,
    stride_a: usize,
    b_len: usize,
    stride_b: usize,
    c_len: usize,
    stride_c: usize,
) -> (r: Option<LaunchConfig>)
    requires
        batch_count * stride_a <= a_len,
        batch_count * stride_b <= b_len,
        batch_count * stride_c <= c_len,
        config.m > 0 && config.n > 0 && batch_count > 0 ==> {
            &&& (batch_count - 1) * stride_a + config.m * config.k <= a_len
            &&& (batch_count - 1) * stride_b + config.k * config.n <= b_len
            &&& (batch_count - 1) * stride_c + config.m * config.n <= c_len
        },
    ensures
        r is None <==> (config.m == 0 || config.n == 0 || batch_count == 0),
        r matches Some(cfg) ==> cfg == strided_launch_spec(config.m, config.n, batch_count),
{
    let m = config.m;
    let n = config.n;
    if m == 0 || n == 0 || batch_count == 0 {
        return None;
    }
    Some(
        LaunchConfig {
            grid_dim: (div_ceil_u32(n as u32, TILE_SIZE), div_ceil_u32(m as u32, TILE_SIZE), batch_count as u32),
            block_dim: (TILE_SIZE, TILE_SIZE, 1),
            shared_mem_bytes: 0,
        },
    )
}

/// Index into a strided buffer of element `(row, col)` of the matrix of
/// batch `batch` (row-major with `cols` columns).
pub fn strided_offset(batch: usize, stride: usize, row: usize, cols: usize, col: usize) -> (r: usize)
    requires
        batch * stride + row * cols + col <= usize::MAX,
    ensures
        r == batch * stride + row * cols + col,
{
    proof {
        vstd::arithmetic::mul::lemma_mul_nonnegative(batch as int, stride as int);
        vstd::arithmetic::mul::lemma_mul_nonnegative(row as int, cols as int);
    }
    batch * stride + row * cols + col
}

proof fn lemma_inner_bound(row: int, col: int, m: int, n: int)
    requires
        0 <= row < m,
        0 <= col < n,
    ensures
        0 <= row * n + col < m * n,
{
    assert(row * n + col < m * n) by (nonlinear_arith)
        requires 0 <= row < m, 0 <= col < n;
    assert(0 <= row * n) by (nonlinear_arith)
        requires 0 <= row, 0 <= n;
}

/// Index in a strided buffer of element `(i, j)` of batch `t`'s matrix
/// (row-major with `n` columns, batches `stride` apart).
pub open spec fn strided_index(stride: int, n: int, t: int, i: int, j: int) -> int {
    t * stride + i * n + j
}

/// The element of `C` that the thread for `(row, col)` of batch `batch`
/// writes: its strided index when `(row, col)` lies inside the `m x n`
/// matrix (and the index fits in `usize`), else none.
pub open spec fn strided_target(batch: usize, stride_c: usize, row: usize, col: usize, m: usize, n: usize) -> Option<
    usize,
> {
    let idx = strided_index(stride_c as int, n as int, batch as int, row as int, col as int);
    if row < m && col < n && idx <= usize::MAX {
        Some(idx as usize)
    } else {
        None
    }
}

/// The `C` element a thread of the strided batched kernel writes (see
/// `strided_target`); threads outside the matrix write nothing.
pub fn strided_write_target(batch: usize, stride_c: usize, row: usize, col: usize, m: usize, n: usize) -> (r:
    Option<usize>)
    ensures
        r == strided_target(batch, stride_c, row, col, m, n),
{
    if row >= m || col >= n {
        return None;
    }
    proof {
        vstd::arithmetic::mul::lemma_mul_nonnegative(batch as int, stride_c as int);
        vstd::arithmetic::mul::lemma_mul_nonnegative(row as int, n as int);
    }
    let base = match batch.checked_mul(stride_c) {
        Some(v) => v,
        None => return None,
    };
    let inner = match row.checked_mul(n) {
        Some(v) => v,
        None => return None,
    };
    let off = match inner.checked_add(col) {
        Some(v) => v,
        None => return None,
    };
    base.checked_add(off)
}

/// The set of `C` elements the strided batched kernel writes: element
/// `(i, j)` of every batch `t < batch_count`.
pub open spec fn strided_written(m: int, n: int, stride_c: int, batch_count: int, idx: int) -> bool {
    exists|t: int, i: int, j: int|
        0 <= t < batch_count && 0 <= i < m && 0 <= j < n && idx == #[trigger] strided_index(stride_c, n, t, i, j)
}

/// The strided batched kernel writes exactly the elements of its matrices:
/// every write target of a batch below `batch_count` is in
/// `strided_written`, and every element of `strided_written` is the write
/// target of the thread that owns it, which the launch contains (thread
/// `(j % 16, i % 16)` of block `(j / 16, i / 16, t)`). Every other element
/// of `C` (the gaps between batches, the tail) is left alone.
pub proof fn lemma_strided_write_set(m: usize, n: usize, stride_c: usize, batch_count: usize)
    requires
        m <= u32::MAX,
        n <= u32::MAX,
        batch_count <= u32::MAX,
        batch_count > 0 ==> (batch_count - 1) * stride_c + m * n <= usize::MAX,
    ensures
        forall|t: usize, row: usize, col: usize|
            t < batch_count && (#[trigger] strided_target(t, stride_c, row, col, m, n)) is Some ==> strided_written(
                m as int,
                n as int,
                stride_c as int,
                batch_count as int,
                strided_target(t, stride_c, row, col, m, n)->0 as int,
            ),
        forall|t: usize, i: usize, j: usize|
            t < batch_count && i < m && j < n ==> {
                let cfg = strided_launch_spec(m, n, batch_count);
                &&& j / 16 < cfg.grid_dim.0
                &&& i / 16 < cfg.grid_dim.1
                &&& t < cfg.grid_dim.2
                &&& (j / 16) * 16 + j % 16 == j
                &&& (i / 16) * 16 + i % 16 == i
                &&& #[trigger] strided_target(t, stride_c, i, j, m, n) == Some(
                    strided_index(stride_c as int, n as int, t as int, i as int, j as int) as usize,
                )
            },
{
    assert forall|t: usize, row: usize, col: usize|
        t < batch_count && (#[trigger] strided_target(t, stride_c, row, col, m, n)) is Some implies strided_written(
            m as int,
            n as int,
            stride_c as int,
            batch_count as int,
            strided_target(t, stride_c, row, col, m, n)->0 as int,
        ) by {
        let idx = strided_index(stride_c as int, n as int, t as int, row as int, col as int);
        assert(0 <= t * stride_c) by (nonlinear_arith)
            requires 0 <= t, 0 <= stride_c;
        assert(0 <= row * n) by (nonlinear_arith)
            requires 0 <= row, 0 <= n;
        assert(strided_target(t, stride_c, row, col, m, n)->0 as int == idx);
    }
    assert forall|t: usize, i: usize, j: usize| t < batch_count && i < m && j < n implies {
        let cfg = strided_launch_spec(m, n, batch_count);
        &&& j / 16 < cfg.grid_dim.0
        &&& i / 16 < cfg.grid_dim.1
        &&& t < cfg.grid_dim.2
        &&& (j / 16) * 16 + j % 16 == j
        &&& (i / 16) * 16 + i % 16 == i
        &&& #[trigger] strided_target(t, stride_c, i, j, m, n) == Some(
            strided_index(stride_c as int, n as int, t as int, i as int, j as int) as usize,
        )
    } by {
        lemma_block_lane(i as int, 16, m as int);
        lemma_block_lane(j as int, 16, n as int);
        lemma_ceil_div(m as int, 16);
        lemma_ceil_div(n as int, 16);
        assert(m as u32 == m);
        assert(n as u32 == n);
        assert(batch_count as u32 == batch_count);
        lemma_strided_reads_in_bounds(
            usize::MAX as int + 1,
            stride_c as int,
            m as int,
            n as int,
            batch_count as int,
            t as int,
            i as int,
            j as int,
        );
    }
}

/// The strided batched kernel reads element `(row, col)` of batch `batch`'s
/// `rows x cols` operand at `batch * stride + row * cols + col`: when the
/// buffer holds at least `(batch_count - 1) * stride + rows * cols`
/// elements (the last batch's matrix fits), every such read is in bounds.
pub proof fn lemma_strided_reads_in_bounds(
    len: int,
    stride: int,
    rows: int,
    cols: int,
    batch_count: int,
    batch: int,
    row: int,
    col: int,
)
    requires
        0 <= stride,
        0 <= batch < batch_count,
        0 <= row < rows,
        0 <= col < cols,
        len >= (batch_count - 1) * stride + rows * cols,
    ensures
        0 <= batch * stride + row * cols + col < len,
{
    lemma_inner_bound(row, col, rows, cols);
    assert(batch * stride <= (batch_count - 1) * stride) by (nonlinear_arith)
        requires 0 <= batch <= batch_count - 1, 0 <= stride;
    assert(0 <= batch * stride) by (nonlinear_arith)
        requires 0 <= batch, 0 <= stride;
}

/// When `stride_c >= m * n`, the strided batched kernel writes each element
/// `(batch, row, col)` to its own index below `batch_count * stride_c`: no
/// two threads write the same element of `C`, and no write leaves the
/// `batch_count * stride_c` elements the host checked.
pub proof fn lemma_strided_writes_disjoint(
    m: int,
    n: int,
    stride_c: int,
    batch_count: int,
    b1: int,
    r1: int,
    c1: int,
    b2: int,
    r2: int,
    c2: int,
)
    requires
        stride_c >= m * n,
        0 <= b1 < batch_count,
        0 <= b2 < batch_count,
        0 <= r1 < m,
        0 <= r2 < m,
        0 <= c1 < n,
        0 <= c2 < n,
    ensures
        b1 * stride_c + r1 * n + c1 < batch_count * stride_c,
        b1 * stride_c + r1 * n + c1 == b2 * stride_c + r2 * n + c2 ==> b1 == b2 && r1 == r2 && c1 == c2,
{
    lemma_inner_bound(r1, c1, m, n);
    lemma_inner_bound(r2, c2, m, n);
    assert(b1 * stride_c + stride_c <= batch_count * stride_c) by (nonlinear_arith)
        requires b1 < batch_count, stride_c >= 0;
    if b1 * stride_c + r1 * n + c1 == b2 * stride_c + r2 * n + c2 {
        lemma_block_lane_unique(b1, r1 * n + c1, b2, r2 * n + c2, stride_c);
        lemma_block_lane_unique(r1, c1, r2, c2, n);
    }
}

/// `cat` holds the parts back to back: element `i` of part `b` at
/// `b * stride + i`, and nothing else.
pub open spec fn packed<T>(parts: Seq<Seq<T>>, stride: int, cat: Seq<T>) -> bool {
    &&& cat.len() == parts.len() * stride
    &&& forall|b: int, i: int|
        0 <= b < parts.len() && 0 <= i < stride ==> cat[b * stride + i] == #[trigger] parts[b][i]
}

/// The parts of `cat`: `count` consecutive runs of `stride` elements.
pub open spec fn unpacked<T>(cat: Seq<T>, stride: int, count: int) -> Seq<Seq<T>> {
    Seq::new(count as nat, |b: int| cat.subrange(b * stride, b * stride + stride))
}

/// Every part has exactly `stride` elements.
pub open spec fn parts_have_len<T>(parts: Seq<Seq<T>>, stride: int) -> bool {
    forall|b: int| 0 <= b < parts.len() ==> (#[trigger] parts[b]).len() == stride
}

proof fn lemma_run_fits(b: int, count: int, stride: int)
    requires
        0 <= b < count,
        stride >= 0,
    ensures
        0 <= b * stride,
        b * stride + stride <= count * stride,
{
    assert(0 <= b * stride) by (nonlinear_arith)
        requires 0 <= b, stride >= 0;
    assert(b * stride + stride <= count * stride) by (nonlinear_arith)
        requires b < count, stride >= 0;
}

/// Packing parts of equal length and cutting the result back into runs
/// gives the parts back.
pub proof fn lemma_unpack_pack<T>(parts: Seq<Seq<T>>, stride: int, cat: Seq<T>)
    requires
        stride >= 0,
        parts_have_len(parts, stride),
        packed(parts, stride, cat),
    ensures
        unpacked(cat, stride, parts.len() as int) == parts,
{
    let u = unpacked(cat, stride, parts.len() as int);
    assert forall|b: int| 0 <= b < parts.len() implies #[trigger] u[b] == parts[b] by {
        lemma_run_fits(b, parts.len() as int, stride);
        assert(u[b].len() == parts[b].len());
        assert forall|i: int| 0 <= i < stride implies u[b][i] == parts[b][i] by {
            assert(cat[b * stride + i] == parts[b][i]);
        }
        assert(u[b] =~= parts[b]);
    }
    assert(u =~= parts);
}

/// The parts of a slice of slices, as sequences.
pub open spec fn parts_view<T>(parts: Seq<&[T]>) -> Seq<Seq<T>> {
    Seq::new(parts.len(), |b: int| parts[b]@)
}

proof fn lemma_earlier_run(bb: int, b: int, stride: int, j: int)
    requires
        0 <= bb < b,
        0 <= j < stride,
    ensures
        0 <= bb * stride + j < b * stride,
{
    assert(bb * stride + j < b * stride) by (nonlinear_arith)
        requires 0 <= bb < b, 0 <= j < stride;
    assert(0 <= bb * stride) by (nonlinear_arith)
        requires 0 <= bb, 0 <= stride;
}

proof fn lemma_index_step(b: int, stride: int, i: int)
    ensures
        b * stride + i + 1 == b * stride + (i + 1),
        (b + 1) * stride == b * stride + stride,
{
    assert((b + 1) * stride == b * stride + stride) by (nonlinear_arith);
}

/// Concatenates `count` parts of `stride` elements each into one buffer.
pub fn pack_batches<T: Copy>(parts: &[&[T]], stride: usize) -> (cat: Vec<T>)
    requires
        parts_have_len(parts_view(parts@), stride as int),
        parts@.len() * stride <= usize::MAX,
    ensures
        packed(parts_view(parts@), stride as int, cat@),
{
    let ghost pv = parts_view(parts@);
    let count = parts.len();
    let mut cat: Vec<T> = Vec::new();
    let mut b: usize = 0;
    while b < count
        invariant
            count == parts@.len(),
            pv == parts_view(parts@),
            parts_have_len(pv, stride as int),
            count * stride <= usize::MAX,
            b <= count,
            cat@.len() == b * stride,
            forall|bb: int, i: int|
                0 <= bb < b && 0 <= i < stride ==> cat@[bb * stride + i] == #[trigger] pv[bb][i],
        decreases count - b,
    {
        let part: &[T] = parts[b];
        proof {
            assert(pv[b as int] == part@);
            lemma_run_fits(b as int, count as int, stride as int);
        }
        let mut i: usize = 0;
        while i < stride
            invariant
                count == parts@.len(),
                pv == parts_view(parts@),
                parts_have_len(pv, stride as int),
                count * stride <= usize::MAX,
                b < count,
                part@ == pv[b as int],
                part@.len() == stride,
                i <= stride,
                cat@.len() == b * stride + i,
                b * stride + stride <= count * stride,
                forall|bb: int, j: int|
                    0 <= bb < b && 0 <= j < stride ==> cat@[bb * stride + j] == #[trigger] pv[bb][j],
                forall|j: int| 0 <= j < i ==> cat@[b * stride + j] == #[trigger] pv[b as int][j],
            decreases stride - i,
        {
            proof {
                lemma_index_step(b as int, stride as int, i as int);
            }
            let ghost before = cat@;
            cat.push(part[i]);
            proof {
                assert forall|bb: int, j: int| 0 <= bb < b && 0 <= j < stride implies cat@[bb * stride + j]
                    == #[trigger] pv[bb][j] by {
                    lemma_earlier_run(bb, b as int, stride as int, j);
                    assert(cat@[bb * stride + j] == before[bb * stride + j]);
                }
            }
            i = i + 1;
        }
        proof {
            lemma_index_step(b as int, stride as int, 0);
            assert forall|bb: int, j: int| 0 <= bb < b + 1 && 0 <= j < stride implies cat@[bb * stride + j]
                == #[trigger] pv[bb][j] by {
                if bb == b {
                } else {
                }
            }
        }
        b = b + 1;
    }
    proof {
        assert(cat@.len() == pv.len() * stride);
    }
    cat
}

/// Copies each run of `stride` elements of `cat` back into its part:
/// part `b` becomes `cat[b * stride .. (b + 1) * stride]`.
pub fn unpack_batches<T: Copy>(cat: &[T], stride: usize, parts: &mut Vec<Vec<T>>)
    requires
        cat@.len() == old(parts)@.len() * stride,
    ensures
        final(parts)@.len() == old(parts)@.len(),
        forall|b: int|
            0 <= b < final(parts)@.len() ==> (#[trigger] final(parts)@[b])@ == unpacked(
                cat@,
                stride as int,
                old(parts)@.len() as int,
            )[b],
{
    let count = parts.len();
    let total = cat.len();
    let mut b: usize = 0;
    while b < count
        invariant
            count == parts@.len(),
            count == old(parts)@.len(),
            total == cat@.len(),
            cat@.len() == count * stride,
            b <= count,
            forall|bb: int|
                0 <= bb < b ==> (#[trigger] parts@[bb])@ == unpacked(cat@, stride as int, count as int)[bb],
        decreases count - b,
    {
        proof {
            lemma_run_fits(b as int, count as int, stride as int);
        }
        let start: usize = b * stride;
        let mut run: Vec<T> = Vec::new();
        let mut i: usize = 0;
        while i < stride
            invariant
                cat@.len() == count * stride,
                total == cat@.len(),
                b < count,
                start == b * stride,
                start + stride <= count * stride,
                i <= stride,
                run@ == cat@.subrange(start as int, start + i),
            decreases stride - i,
        {
            run.push(cat[start + i]);
            i = i + 1;
            proof {
                assert(run@ =~= cat@.subrange(start as int, start + i));
            }
        }
        parts.set(b, run);
        b = b + 1;
    }
}

proof fn lemma_fits_one(count: int, stride: int)
    requires
        count >= 1,
        stride >= 0,
    ensures
        stride <= count * stride,
        (count - 1) * stride + stride == count * stride,
{
    assert(stride <= count * stride) by (nonlinear_arith)
        requires count >= 1, stride >= 0;
    assert((count - 1) * stride + stride == count * stride) by (nonlinear_arith);
}

/// What batched GEMM sends to the strided kernel: the per-batch operands
/// packed back to back, their strides, and the launch.
pub struct BatchedUpload<T> {
    pub a: Vec<T>,
    pub b: Vec<T>,
    pub c: Vec<T>,
    pub stride_a: usize,
    pub stride_b: usize,
    pub stride_c: usize,
    pub launch: LaunchConfig,
}

/// Host side of same-shape batched GEMM with per-batch operands: nothing to
/// do when each `C_b` is empty (`m == 0` or `n == 0`) or the batch count is
/// zero; otherwise (`k == 0` included, which leaves `beta * C_b`) the operands
/// packed with strides `m * k`, `k * n` and `m * n` (so batch `b` of the
/// strided kernel reads exactly `a[b]`, `b[b]` and `c[b]`) and the strided
/// launch. The results come back with `unpack_batches`.
pub fn batched_sgemm<T: Copy>(
    config: &GemmConfig<T>,
    batch_count: usize,
    a: &[&[T]],
    b: &[&[T]],
    c: &[&[T]],
) -> (r: Option<BatchedUpload<T>>)
    requires
        a@.len() == batch_count,
        b@.len() == batch_count,
        c@.len() == batch_count,
        batch_count * (config.m * config.k) <= usize::MAX,
        batch_count * (config.k * config.n) <= usize::MAX,
        batch_count * (config.m * config.n) <= usize::MAX,
        config.m != 0 && config.n != 0 && batch_count != 0 ==> {
            &&& parts_have_len(parts_view(a@), config.m * config.k)
            &&& parts_have_len(parts_view(b@), config.k * config.n)
            &&& parts_have_len(parts_view(c@), config.m * config.n)
        },
    ensures
        r is None <==> (config.m == 0 || config.n == 0 || batch_count == 0),
        r matches Some(up) ==> {
            &&& up.stride_a == config.m * config.k
            &&& up.stride_b == config.k * config.n
            &&& up.stride_c == config.m * config.n
            &&& packed(parts_view(a@), up.stride_a as int, up.a@)
            &&& packed(parts_view(b@), up.stride_b as int, up.b@)
            &&& packed(parts_view(c@), up.stride_c as int, up.c@)
            &&& up.launch == strided_launch_spec(config.m, config.n, batch_count)
        },
{
    let m = config.m;
    let n = config.n;
    let k = config.k;
    if m == 0 || n == 0 || batch_count == 0 {
        return None;
    }
    proof {
        lemma_fits_one(batch_count as int, m * k);
        lemma_fits_one(batch_count as int, k * n);
        lemma_fits_one(batch_count as int, m * n);
    }
    let stride_a = m * k;
    let stride_b = k * n;
    let stride_c = m * n;
    let a_cat = pack_batches(a, stride_a);
    let b_cat = pack_batches(b, stride_b);
    let c_cat = pack_batches(c, stride_c);
    let launch = strided_batched_sgemm(
        config,
        batch_count,
        a_cat.len(),
        stride_a,
        b_cat.len(),
        stride_b,
        c_cat.len(),
        stride_c,
    );
    match launch {
        Some(cfg) => Some(
            BatchedUpload { a: a_cat, b: b_cat, c: c_cat, stride_a, stride_b, stride_c, launch: cfg },
        ),
        None => None,
    }
}

/// In the strided launch every element `(row, col)` of every batch `b` is
/// owned by exactly one thread: thread `(col % 16, row % 16)` of block
/// `(col / 16, row / 16, b)`.
pub proof fn lemma_strided_launch_covers(
    m: usize,
    n: usize,
    batch_count: usize,
    batch: int,
    row: int,
    col: int,
    bx: int,
    by: int,
    bz: int,
    tx: int,
    ty: int,
)
    requires
        m <= u32::MAX,
        n <= u32::MAX,
        batch_count <= u32::MAX,
        0 <= batch < batch_count,
        0 <= row < m,
        0 <= col < n,
        ({
            let cfg = strided_launch_spec(m, n, batch_count);
            &&& 0 <= bx < cfg.grid_dim.0
            &&& 0 <= by < cfg.grid_dim.1
            &&& 0 <= bz < cfg.grid_dim.2
            &&& 0 <= tx < cfg.block_dim.0
            &&& 0 <= ty < cfg.block_dim.1
        }),
        bz == batch,
        by * 16 + ty == row,
        bx * 16 + tx == col,
    ensures
        ({
            let cfg = strided_launch_spec(m, n, batch_count);
            &&& col / 16 < cfg.grid_dim.0
            &&& row / 16 < cfg.grid_dim.1
            &&& batch < cfg.grid_dim.2
        }),
        bx == col / 16 && by == row / 16 && tx == col % 16 && ty == row % 16,
{
    lemma_block_lane(row, 16, m as int);
    lemma_block_lane(col, 16, n as int);
    lemma_ceil_div(m as int, 16);
    lemma_ceil_div(n as int, 16);
    assert(m as u32 == m);
    assert(n as u32 == n);
    assert(batch_count as u32 == batch_count);
    lemma_block_lane_unique(by, ty, row / 16, row % 16, 16);
    lemma_block_lane_unique(bx, tx, col / 16, col % 16, 16);
}

/// After packing with stride `rows * cols`, batch `b` of the strided kernel
/// reads element `(row, col)` of part `b`: the packed buffer holds at
/// `b * stride + row * cols + col` exactly `parts[b][row * cols + col]`.
pub proof fn lemma_packed_batch_reads<T>(
    parts: Seq<Seq<T>>,
    rows: int,
    cols: int,
    cat: Seq<T>,
    b: int,
    row: int,
    col: int,
)
    requires
        packed(parts, rows * cols, cat),
        0 <= b < parts.len(),
        0 <= row < rows,
        0 <= col < cols,
    ensures
        0 <= b * (rows * cols) + row * cols + col < cat.len(),
        cat[b * (rows * cols) + row * cols + col] == parts[b][row * cols + col],
{
    lemma_inner_bound(row, col, rows, cols);
    lemma_run_fits(b, parts.len() as int, rows * cols);
}

/// Batched GEMM is the strided kernel on the packed operands: with strides
/// `m * k`, `k * n` and `m * n`, batch `t` of the strided kernel reads
/// `A_t[i, p]`, `B_t[p, j]` and `C_t[i, j]` exactly where it looks for them,
/// and cutting the strided result back into runs of `m * n` gives batch
/// `t`'s `C[i, j]` from the element the kernel wrote for it.
pub proof fn lemma_batched_is_strided_on_packed<T>(
    a: Seq<Seq<T>>,
    b: Seq<Seq<T>>,
    c: Seq<Seq<T>>,
    m: int,
    n: int,
    k: int,
    cat_a: Seq<T>,
    cat_b: Seq<T>,
    cat_c: Seq<T>,
    out_c: Seq<T>,
    t: int,
    i: int,
    j: int,
    p: int,
)
    requires
        0 <= m,
        0 <= n,
        0 <= k,
        packed(a, m * k, cat_a),
        packed(b, k * n, cat_b),
        packed(c, m * n, cat_c),
        a.len() == b.len() && b.len() == c.len(),
        out_c.len() == c.len() * (m * n),
        0 <= t < c.len(),
        0 <= i < m,
        0 <= j < n,
        0 <= p < k,
    ensures
        cat_a[strided_index(m * k, k, t, i, p)] == a[t][i * k + p],
        cat_b[strided_index(k * n, n, t, p, j)] == b[t][p * n + j],
        cat_c[strided_index(m * n, n, t, i, j)] == c[t][i * n + j],
        unpacked(out_c, m * n, c.len() as int)[t][i * n + j] == out_c[strided_index(m * n, n, t, i, j)],
{
    lemma_packed_batch_reads(a, m, k, cat_a, t, i, p);
    lemma_packed_batch_reads(b, k, n, cat_b, t, p, j);
    lemma_packed_batch_reads(c, m, n, cat_c, t, i, j);
    lemma_inner_bound(i, j, m, n);
    assert(0 <= m * n) by (nonlinear_arith)
        requires 0 <= m, 0 <= n;
    lemma_run_fits(t, c.len() as int, m * n);
}

} // verus!
