use vstd::prelude::*;
use crate::launch::{
    LaunchConfig, for_num_elems, for_num_elems_spec, lemma_block_lane, lemma_block_lane_unique,
};
use crate::iamax::{REDUCE_THREADS, isamax_kernel, isamax_result};
use crate::types::Half;

verus! {

/// Launch of an element-wise vector kernel (AXPY, COPY, SCAL) over `n`
/// elements: nothing to launch when `n == 0`, else the default
/// one-dimensional launch for `n` elements.
pub fn elementwise_launch(n: usize) -> (r: Option<LaunchConfig>)
    ensures
        r is None <==> n == 0,
        r matches Some(cfg) ==> cfg == for_num_elems_spec(n as u32),
{
    if n == 0 {
        return None;
    }
    Some(for_num_elems(n as u32))
}

/// Launch of a single-block reduction kernel (DOT, ASUM, IAMAX) over `n`
/// elements: nothing to launch when `n == 0`, else one block of 32 threads.
pub fn reduction_launch(n: usize) -> (r: Option<LaunchConfig>)
    ensures
        r is None <==> n == 0,
        r matches Some(cfg) ==> cfg.grid_dim == (1u32, 1u32, 1u32) && cfg.block_dim == (
            REDUCE_THREADS,
            1u32,
            1u32,
        ) && cfg.shared_mem_bytes == 0,
{
    if n == 0 {
        return None;
    }
    Some(LaunchConfig { grid_dim: (1, 1, 1), block_dim: (REDUCE_THREADS, 1, 1), shared_mem_bytes: 0 })
}

/// In the single-block reductions, thread `t` scans elements `t`, `t + 32`,
/// ...: every element `i` is scanned by exactly one thread, thread `i % 32`,
/// at step `i / 32` of its loop.
pub proof fn lemma_reduction_partition(n: int, i: int, t: int, step: int)
    requires
        0 <= i < n,
        0 <= t < 32,
        step >= 0,
        t + 32 * step == i,
    ensures
        t == i % 32,
        step == i / 32,
{
    lemma_block_lane_unique(step, t, i / 32, i % 32, 32);
    lemma_block_lane(i, 32, n);
}

/// Element that reduction thread `tid` handles at step `step` of its
/// stride-32 loop over `n` elements: `tid + 32 * step` while that is below
/// `n`, else `None`, which ends the loop. Step `step` of thread `t` thus
/// adds `reduce_term(f, n, t + 32 * step)`, the term `thread_partial`
/// counts.
pub fn reduction_element(tid: usize, step: usize, n: usize) -> (r: Option<usize>)
    ensures
        r == (if tid + 32 * step < n {
            Some((tid + 32 * step) as usize)
        } else {
            None::<usize>
        }),
{
    if tid >= n {
        return None;
    }
    let room: usize = n - tid - 1;
    proof {
        vstd::arithmetic::div_mod::lemma_fundamental_div_mod(room as int, 32);
    }
    if step <= room / 32 {
        Some(tid + 32 * step)
    } else {
        None
    }
}

/// Partner of slot `tid` in the tree-reduction round with stride `stride`
/// over `slots` shared slots: slot `tid + stride` when `tid < stride` and
/// that slot exists (then `tid` adds it, as in `tree_round`), else `None`
/// (the slot is left alone).
pub fn tree_partner(tid: usize, stride: usize, slots: usize) -> (r: Option<usize>)
    ensures
        r == (if tid < stride && tid + stride < slots {
            Some((tid + stride) as usize)
        } else {
            None::<usize>
        }),
{
    if tid < stride && tid < slots && stride < slots - tid {
        Some(tid + stride)
    } else {
        None
    }
}

/// One round of the in-place tree reduction: slot `t < h` adds slot `t + h`.
pub open spec fn tree_round(v: Seq<int>, h: int) -> Seq<int> {
    Seq::new(v.len(), |t: int| if t < h { v[t] + v[t + h] } else { v[t] })
}

/// Sum of the first `w` slots.
pub open spec fn slot_sum(v: Seq<int>, w: int) -> int
    decreases w,
{
    if w <= 0 {
        0
    } else {
        slot_sum(v, w - 1) + v[w - 1]
    }
}

/// The slots after the rounds with strides `h`, `h / 2`, ..., `1`.
pub open spec fn tree_rounds(v: Seq<int>, h: int) -> Seq<int>
    decreases h,
{
    if h <= 0 {
        v
    } else {
        tree_rounds(tree_round(v, h), h / 2)
    }
}

proof fn lemma_slot_sum_split(v: Seq<int>, h: int, w: int)
    requires
        0 <= w <= h,
        2 * h <= v.len(),
    ensures
        slot_sum(tree_round(v, h), w) == slot_sum(v, w) + (slot_sum(v, h + w) - slot_sum(v, h)),
    decreases w,
{
    if w > 0 {
        lemma_slot_sum_split(v, h, w - 1);
    }
}

/// The kernels' shared-memory tree reduction (strides 16, 8, 4, 2, 1 over
/// 32 partial results) leaves in slot 0 the sum of all 32 partial results,
/// each counted once.
pub proof fn lemma_tree_reduction_sums(v: Seq<int>)
    requires
        v.len() == 32,
    ensures
        tree_rounds(v, 16)[0] == slot_sum(v, 32),
{
    let v16 = tree_round(v, 16);
    lemma_slot_sum_split(v, 16, 16);
    let v8 = tree_round(v16, 8);
    lemma_slot_sum_split(v16, 8, 8);
    let v4 = tree_round(v8, 4);
    lemma_slot_sum_split(v8, 4, 4);
    let v2 = tree_round(v4, 2);
    lemma_slot_sum_split(v4, 2, 2);
    let v1 = tree_round(v2, 1);
    lemma_slot_sum_split(v2, 1, 1);
    assert(tree_rounds(v1, 0) == v1);
    assert(tree_rounds(v2, 1) == tree_rounds(v1, 0));
    assert(tree_rounds(v4, 2) == tree_rounds(v2, 1));
    assert(tree_rounds(v8, 4) == tree_rounds(v4, 2));
    assert(tree_rounds(v16, 8) == tree_rounds(v8, 4));
    assert(tree_rounds(v, 16) == tree_rounds(v16, 8));
    assert(slot_sum(v1, 0) == 0);
    assert(slot_sum(v1, 1) == v1[0]);
}

/// Term `j` of a reduction over the first `len` values of `f`.
pub open spec fn reduce_term(f: spec_fn(int) -> int, len: int, j: int) -> int {
    if 0 <= j < len {
        f(j)
    } else {
        0
    }
}

/// Partial result of reduction thread `t` after `steps` steps of its
/// stride-32 loop: the sum of terms `t`, `t + 32`, ..., `t + 32 * (steps - 1)`.
pub open spec fn thread_partial(f: spec_fn(int) -> int, len: int, t: int, steps: nat) -> int
    decreases steps,
{
    if steps == 0 {
        0
    } else {
        thread_partial(f, len, t, (steps - 1) as nat) + reduce_term(f, len, t + 32 * (steps - 1))
    }
}

/// A reduction thread stops at the first step where `reduction_element`
/// gives `None`; every later step would add a zero term, so its partial
/// result equals the one `thread_partials` takes for any larger step
/// count.
pub proof fn lemma_thread_partial_stops(f: spec_fn(int) -> int, len: int, t: int, s1: nat, s2: nat)
    requires
        0 <= t,
        s1 <= s2,
        t + 32 * s1 >= len,
    ensures
        thread_partial(f, len, t, s2) == thread_partial(f, len, t, s1),
    decreases s2,
{
    if s2 > s1 {
        lemma_thread_partial_stops(f, len, t, s1, (s2 - 1) as nat);
    }
}

/// Sum of the first `len` values of `f`.
pub open spec fn prefix_sum(f: spec_fn(int) -> int, len: nat) -> int
    decreases len,
{
    if len == 0 {
        0
    } else {
        prefix_sum(f, (len - 1) as nat) + f(len - 1)
    }
}

/// The 32 partial results the reduction threads put in shared memory.
pub open spec fn thread_partials(f: spec_fn(int) -> int, len: int, steps: nat) -> Seq<int> {
    Seq::new(32, |t: int| thread_partial(f, len, t, steps))
}

proof fn lemma_partial_empty(f: spec_fn(int) -> int, t: int, steps: nat)
    requires
        0 <= t,
    ensures
        thread_partial(f, 0, t, steps) == 0,
    decreases steps,
{
    if steps > 0 {
        lemma_partial_empty(f, t, (steps - 1) as nat);
    }
}

proof fn lemma_partial_grow(f: spec_fn(int) -> int, len: int, t: int, steps: nat)
    requires
        0 <= len,
        0 <= t < 32,
    ensures
        thread_partial(f, len + 1, t, steps) == thread_partial(f, len, t, steps) + if t == len % 32 && len
            / 32 < steps {
            f(len)
        } else {
            0
        },
    decreases steps,
{
    if steps > 0 {
        lemma_partial_grow(f, len, t, (steps - 1) as nat);
        let j = t + 32 * (steps - 1);
        vstd::arithmetic::div_mod::lemma_fundamental_div_mod(len, 32);
        if j == len {
            lemma_block_lane_unique(steps - 1, t, len / 32, len % 32, 32);
        }
        if t == len % 32 && len / 32 == steps - 1 {
            assert(j == len);
        }
    }
}

proof fn lemma_slot_sum_bump(v: Seq<int>, u: Seq<int>, t0: int, c: int, w: int)
    requires
        0 <= w <= v.len(),
        u.len() == v.len(),
        forall|t: int| 0 <= t < v.len() ==> #[trigger] u[t] == v[t] + if t == t0 { c } else { 0 },
    ensures
        slot_sum(u, w) == slot_sum(v, w) + if 0 <= t0 < w { c } else { 0 },
    decreases w,
{
    if w > 0 {
        lemma_slot_sum_bump(v, u, t0, c, w - 1);
    }
}

/// The single-block reductions (SDOT, SASUM and the tiled GEMV) add every
/// term exactly once: when the 32 threads' stride-32 loops run for enough
/// steps to pass `len`, the 32 partial results sum to the sum of all `len`
/// terms, and the shared-memory tree leaves that sum in slot 0 (exact
/// arithmetic).
pub proof fn lemma_reduction_adds_each_term_once(f: spec_fn(int) -> int, len: nat, steps: nat)
    requires
        len <= 32 * steps,
    ensures
        slot_sum(thread_partials(f, len as int, steps), 32) == prefix_sum(f, len),
        tree_rounds(thread_partials(f, len as int, steps), 16)[0] == prefix_sum(f, len),
    decreases len,
{
    if len == 0 {
        let v = thread_partials(f, 0, steps);
        assert forall|t: int| 0 <= t < 32 implies #[trigger] v[t] == 0 by {
            lemma_partial_empty(f, t, steps);
        }
        lemma_slot_sum_zero(v, 32);
    } else {
        let l = (len - 1) as nat;
        lemma_reduction_adds_each_term_once(f, l, steps);
        let v = thread_partials(f, l as int, steps);
        let u = thread_partials(f, len as int, steps);
        vstd::arithmetic::div_mod::lemma_fundamental_div_mod(l as int, 32);
        assert((l as int) / 32 < steps) by {
            if (l as int) / 32 >= steps {
                vstd::arithmetic::mul::lemma_mul_inequality(steps as int, (l as int) / 32, 32);
            }
        }
        assert forall|t: int| 0 <= t < 32 implies #[trigger] u[t] == v[t] + if t == (l as int) % 32 {
            f(l as int)
        } else {
            0
        } by {
            lemma_partial_grow(f, l as int, t, steps);
        }
        lemma_slot_sum_bump(v, u, (l as int) % 32, f(l as int), 32);
    }
    lemma_tree_reduction_sums(thread_partials(f, len as int, steps));
}

proof fn lemma_slot_sum_zero(v: Seq<int>, w: int)
    requires
        0 <= w <= v.len(),
        forall|t: int| 0 <= t < v.len() ==> #[trigger] v[t] == 0,
    ensures
        slot_sum(v, w) == 0,
    decreases w,
{
    if w > 0 {
        lemma_slot_sum_zero(v, w - 1);
    }
}

/// ISAMAX on the bit patterns of the first `n` `f32` values of `x`: `0`
/// when `n == 0`, else the index the single-block kernel reports (see
/// `isamax_kernel`).
pub fn isamax(n: usize, x: &[u32]) -> (r: usize)
    requires
        x@.len() >= n,
        n <= u32::MAX,
    ensures
        n == 0 ==> r == 0,
        n > 0 ==> isamax_result(x@, n as int, r as int),
{
    if n == 0 {
        return 0;
    }
    let idx = isamax_kernel(n as u32, x);
    idx as usize
}

/// Bit patterns of the first `n` half-precision values, in order.
pub fn halves_to_bits(x: &[Half], n: usize) -> (r: Vec<u16>)
    requires
        n <= x@.len(),
    ensures
        r@.len() == n,
        forall|i: int| 0 <= i < n ==> r@[i] == #[trigger] x@[i].bits,
{
    let mut r: Vec<u16> = Vec::new();
    let mut i: usize = 0;
    while i < n
        invariant
            n <= x@.len(),
            i <= n,
            r@.len() == i,
            forall|j: int| 0 <= j < i ==> r@[j] == #[trigger] x@[j].bits,
        decreases n - i,
    {
        r.push(x[i].bits);
        i = i + 1;
    }
    r
}

/// Writes the device results back: `y[i]` becomes the half-precision value
/// with bit pattern `result[i]` for every `i < result.len()`; the rest of
/// `y` is unchanged.
pub fn store_halves(result: &[u16], y: &mut Vec<Half>)
    requires
        result@.len() <= old(y)@.len(),
    ensures
        final(y)@.len() == old(y)@.len(),
        forall|i: int| 0 <= i < result@.len() ==> (#[trigger] final(y)@[i]).bits == result@[i],
        forall|i: int| result@.len() <= i < old(y)@.len() ==> #[trigger] final(y)@[i] == old(y)@[i],
{
    let mut i: usize = 0;
    while i < result.len()
        invariant
            result@.len() <= y@.len(),
            y@.len() == old(y)@.len(),
            i <= result@.len(),
            forall|j: int| 0 <= j < i ==> (#[trigger] y@[j]).bits == result@[j],
            forall|j: int| i <= j < old(y)@.len() ==> #[trigger] y@[j] == old(y)@[j],
        decreases result@.len() - i,
    {
        y.set(i, Half { bits: result[i] });
        i = i + 1;
    }
}

/// What HAXPY sends to the device: the bit patterns of `x[..n]` and
/// `y[..n]` and the element-wise launch over `n`.
pub struct HalfAxpyUpload {
    pub x: Vec<u16>,
    pub y: Vec<u16>,
    pub launch: LaunchConfig,
}

/// Host side of HAXPY (`y[i] = alpha * x[i] + y[i]` in half precision with
/// single-precision arithmetic): nothing to do when `n == 0`; otherwise the
/// operands' bit patterns and the launch.
pub fn haxpy(n: usize, x: &[Half], y: &[Half]) -> (r: Option<HalfAxpyUpload>)
    requires
        x@.len() >= n,
        y@.len() >= n,
    ensures
        r is None <==> n == 0,
        r matches Some(up) ==> {
            &&& up.x@.len() == n
            &&& up.y@.len() == n
            &&& forall|i: int| 0 <= i < n ==> up.x@[i] == #[trigger] x@[i].bits
            &&& forall|i: int| 0 <= i < n ==> up.y@[i] == #[trigger] y@[i].bits
            &&& up.launch == for_num_elems_spec(n as u32)
        },
{
    if n == 0 {
        return None;
    }
    let xb = halves_to_bits(x, n);
    let yb = halves_to_bits(y, n);
    Some(HalfAxpyUpload { x: xb, y: yb, launch: for_num_elems(n as u32) })
}

} // verus!
