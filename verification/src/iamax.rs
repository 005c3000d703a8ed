use vstd::prelude::*;
use vstd::arithmetic::div_mod::*;

verus! {

/// Number of threads of the single block that runs the reduction.
pub const REDUCE_THREADS: u32 = 32u32;

/// Comparison key of an `f32` bit pattern under the kernel's test
/// `|v| > best` (with `best` starting at `-1.0`): the pattern of `|v|` read
/// as an integer, which orders non-NaN magnitudes exactly as the floats
/// do, and `-1` for a NaN, which never compares greater.
pub open spec fn abs_key(b: u32) -> int {
    let a = b & 0x7fff_ffffu32;
    if a > 0x7f80_0000u32 {
        -1
    } else {
        a as int
    }
}

/// Element `i` wins against element `j` of `x`: a strictly larger magnitude,
/// or the same magnitude and a smaller index.
pub open spec fn wins(x: Seq<u32>, i: int, j: int) -> bool {
    ||| abs_key(x[i]) > abs_key(x[j])
    ||| (abs_key(x[i]) == abs_key(x[j]) && i < j)
}

/// The pattern is not a NaN: its magnitude bits are at most those of
/// infinity.
pub open spec fn not_nan(b: u32) -> bool {
    b & 0x7fff_ffffu32 <= 0x7f80_0000u32
}

/// The comparison key is the magnitude: for a non-NaN pattern it is the
/// pattern with the sign bit cleared (which IEEE 754 orders exactly as the
/// magnitudes |a| < |b|, zeros, subnormals, normals and infinity alike), so
/// two non-NaN patterns compare by key exactly as by magnitude; a NaN's key
/// is below every non-NaN key.
pub proof fn lemma_abs_key_orders_magnitudes(a: u32, b: u32)
    ensures
        not_nan(a) ==> abs_key(a) == (a & 0x7fff_ffffu32) as int,
        !not_nan(a) ==> abs_key(a) == -1,
        not_nan(a) && not_nan(b) ==> (abs_key(a) < abs_key(b) <==> (a & 0x7fff_ffffu32) < (b & 0x7fff_ffffu32)),
        not_nan(a) && not_nan(b) ==> (abs_key(a) == abs_key(b) <==> (a & 0x7fff_ffffu32) == (b & 0x7fff_ffffu32)),
        not_nan(a) && !not_nan(b) ==> abs_key(b) < abs_key(a),
{
}

/// Some element among the first `n` is not a NaN.
pub open spec fn has_candidate(x: Seq<u32>, n: int) -> bool {
    exists|j: int| 0 <= j < n && abs_key(x[j]) >= 0
}

/// The index the ISAMAX kernel reports for the first `n` elements of `x`
/// (as `f32` bit patterns): the non-NaN element of largest magnitude, the
/// smallest such index when several share it; `0` when every element is a
/// NaN.
pub open spec fn isamax_result(x: Seq<u32>, n: int, r: int) -> bool {
    if has_candidate(x, n) {
        &&& 0 <= r < n
        &&& abs_key(x[r]) >= 0
        &&& forall|j: int| 0 <= j < n && j != r && abs_key(x[j]) >= 0 ==> wins(x, r, j)
    } else {
        r == 0
    }
}

/// Element `j` belongs to residue class `t` modulo `w`.
pub open spec fn in_class(j: int, w: int, t: int) -> bool {
    j % w == t
}

/// The reduction slot that owns residue class `t` modulo `w` holds the
/// winner of that class among the first `n` elements (or `(-1, 0)` when
/// the class has no non-NaN element).
pub open spec fn slot_ok(x: Seq<u32>, n: int, w: int, t: int, val: int, idx: int) -> bool {
    if exists|j: int| 0 <= j < n && #[trigger] in_class(j, w, t) && abs_key(x[j]) >= 0 {
        &&& val >= 0
        &&& 0 <= idx < n
        &&& idx % w == t
        &&& abs_key(x[idx]) == val
        &&& forall|j: int|
            0 <= j < n && in_class(j, w, t) && j != idx && abs_key(x[j]) >= 0 ==> #[trigger] wins(x, idx, j)
    } else {
        val == -1 && idx == 0
    }
}

/// A residue class modulo `h` is the union of two classes modulo `2h`.
proof fn lemma_class_split(j: int, h: int)
    requires
        j >= 0,
        h > 0,
    ensures
        (j % (2 * h)) % h == j % h,
        j % (2 * h) == j % h || j % (2 * h) == j % h + h,
{
    lemma_mod_breakdown(j, h, 2);
    lemma_mod_mod(j, h, 2);
    lemma_mod_pos_bound(j / h, 2);
    assert(h * ((j / h) % 2) == 0 || h * ((j / h) % 2) == h) by (nonlinear_arith)
        requires 0 <= (j / h) % 2 < 2;
}

/// Comparison key of one `f32` bit pattern (see `abs_key`).
pub fn abs_key_of(b: u32) -> (k: i64)
    ensures
        k == abs_key(b),
        b & 0x7fff_ffffu32 <= 0x7f80_0000u32 ==> k == (b & 0x7fff_ffffu32) as int,
        b & 0x7fff_ffffu32 > 0x7f80_0000u32 ==> k == -1,
{
    proof {
        lemma_abs_key_orders_magnitudes(b, b);
    }
    let a = b & 0x7fff_ffffu32;
    if a > 0x7f80_0000u32 {
        -1
    } else {
        a as i64
    }
}

/// Two indices in the same residue class modulo 32 that are less than 32
/// apart are equal.
proof fn lemma_same_class_close(i: int, j: int)
    requires
        i >= 0,
        i <= j < i + 32,
        j % 32 == i % 32,
    ensures
        j == i,
{
    lemma_fundamental_div_mod(i, 32);
    lemma_fundamental_div_mod(j, 32);
}

/// One scanning step of a thread: folding element `i` into the running
/// winner of its class keeps the winner correct for the longer prefix.
proof fn lemma_thread_step(
    x: Seq<u32>,
    n: int,
    t: int,
    i: int,
    val: int,
    idx: int,
    new_val: int,
    new_idx: int,
)
    requires
        0 <= t < 32,
        i % 32 == t,
        0 <= i < n,
        n <= x.len(),
        slot_ok(x, i, 32, t, val, idx),
        abs_key(x[i]) > val ==> new_val == abs_key(x[i]) && new_idx == i,
        abs_key(x[i]) <= val ==> new_val == val && new_idx == idx,
    ensures
        slot_ok(x, if i + 32 < n { i + 32 } else { n }, 32, t, new_val, new_idx),
{
    let lim2 = if i + 32 < n { i + 32 } else { n };
    let k = abs_key(x[i]);
    assert forall|j: int| 0 <= j < lim2 && #[trigger] in_class(j, 32, t) implies j < i || j == i by {
        if j >= i {
            lemma_same_class_close(i, j);
        }
    }
    let old_has = exists|j: int| 0 <= j < i && #[trigger] in_class(j, 32, t) && abs_key(x[j]) >= 0;
    if k > val {
        assert(k >= 0);
        assert(0 <= i < lim2 && in_class(i, 32, t) && abs_key(x[i]) >= 0);
        assert forall|j: int|
            0 <= j < lim2 && in_class(j, 32, t) && j != new_idx && abs_key(x[j]) >= 0 implies #[trigger] wins(x, new_idx, j) by {
            assert(j < i);
            assert(old_has);
            if j != idx {
                assert(wins(x, idx, j));
            }
        }
    } else {
        if old_has {
            assert forall|j: int|
                0 <= j < lim2 && in_class(j, 32, t) && j != new_idx && abs_key(x[j]) >= 0 implies #[trigger] wins(x, new_idx, j) by {
                if j == i {
                    assert(idx < i);
                }
            }
        } else {
            assert(val == -1);
            assert forall|j: int| 0 <= j < lim2 && #[trigger] in_class(j, 32, t) implies abs_key(x[j]) < 0 by {
                if j < i {
                } else {
                    assert(j == i);
                }
            }
        }
    }
}

/// One thread of the ISAMAX kernel: thread `t` scans elements `t`, `t + 32`,
/// `t + 64`, ... below `n` and keeps the first element of largest magnitude
/// (`(-1, 0)` when it saw no non-NaN element).
pub fn isamax_thread(n: u32, x: &[u32], t: u32) -> (res: (i64, u32))
    requires
        x@.len() >= n,
        t < REDUCE_THREADS,
    ensures
        slot_ok(x@, n as int, 32, t as int, res.0 as int, res.1 as int),
{
    let mut best_val: i64 = -1;
    let mut best_idx: u32 = 0;
    let mut i: u64 = t as u64;
    proof {
        assert forall|j: int| 0 <= j < (if i < n { i as int } else { n as int }) && #[trigger] in_class(j, 32, t as int) implies false by {
            lemma_small_mod(j as nat, 32);
        }
    }
    while i < n as u64
        invariant
            x@.len() >= n,
            t < 32,
            i % 32 == t,
            t <= i,
            i < n ==> i + 32 <= u64::MAX,
            slot_ok(x@, if i < n { i as int } else { n as int }, 32, t as int, best_val as int, best_idx as int),
            -1 <= best_val <= 0x7f80_0000,
            i <= n + 32,
        decreases n + 32 - i,
    {
        let ghost old_val = best_val as int;
        let ghost old_idx = best_idx as int;
        let k = abs_key_of(x[i as usize]);
        if k > best_val {
            best_val = k;
            best_idx = i as u32;
        }
        proof {
            lemma_thread_step(x@, n as int, t as int, i as int, old_val, old_idx, best_val as int, best_idx as int);
        }
        i = i + 32;
    }
    (best_val, best_idx)
}

/// Merging two reduction slots (residue classes `t` and `t + h` modulo
/// `2h`) with the kernel's rule (take the upper slot when its value is
/// larger, or equal with a smaller index) yields the winner of class `t`
/// modulo `h`.
proof fn lemma_merge(
    x: Seq<u32>,
    n: int,
    h: int,
    t: int,
    lval: int,
    lidx: int,
    rval: int,
    ridx: int,
    nval: int,
    nidx: int,
)
    requires
        h == 16 || h == 8 || h == 4 || h == 2 || h == 1,
        0 <= t < h,
        0 <= n <= x.len(),
        slot_ok(x, n, 2 * h, t, lval, lidx),
        slot_ok(x, n, 2 * h, t + h, rval, ridx),
        (rval > lval || (rval == lval && ridx < lidx)) ==> nval == rval && nidx == ridx,
        !(rval > lval || (rval == lval && ridx < lidx)) ==> nval == lval && nidx == lidx,
    ensures
        slot_ok(x, n, h, t, nval, nidx),
{
    lemma_small_mod(t as nat, h as nat);
    assert((t + h) % h == t) by {
        lemma_mod_add_multiples_vanish(t, h);
    }
    assert forall|j: int| j >= 0 && #[trigger] in_class(j, h, t) implies in_class(j, 2 * h, t) || in_class(j, 2 * h, t + h) by {
        lemma_class_split(j, h);
    }
    assert forall|j: int| j >= 0 && (in_class(j, 2 * h, t) || in_class(j, 2 * h, t + h)) implies #[trigger] in_class(j, h, t) by {
        lemma_class_split(j, h);
    }
    let l_has = exists|j: int| 0 <= j < n && #[trigger] in_class(j, 2 * h, t) && abs_key(x[j]) >= 0;
    let r_has = exists|j: int| 0 <= j < n && #[trigger] in_class(j, 2 * h, t + h) && abs_key(x[j]) >= 0;
    if rval > lval || (rval == lval && ridx < lidx) {
        assert(r_has);
        assert(in_class(ridx, h, t));
        assert forall|j: int|
            0 <= j < n && in_class(j, h, t) && j != nidx && abs_key(x[j]) >= 0 implies #[trigger] wins(x, nidx, j) by {
            if in_class(j, 2 * h, t + h) {
            } else {
                assert(in_class(j, 2 * h, t));
                assert(l_has);
                if j != lidx {
                    assert(wins(x, lidx, j));
                }
            }
        }
    } else if !l_has {
        assert(!r_has);
        assert forall|j: int| 0 <= j < n && #[trigger] in_class(j, h, t) implies abs_key(x[j]) < 0 by {
            if in_class(j, 2 * h, t) {
            } else {
                assert(in_class(j, 2 * h, t + h));
            }
        }
    } else {
        assert(in_class(lidx, h, t));
        assert forall|j: int|
            0 <= j < n && in_class(j, h, t) && j != nidx && abs_key(x[j]) >= 0 implies #[trigger] wins(x, nidx, j) by {
            if in_class(j, 2 * h, t) {
            } else {
                assert(in_class(j, 2 * h, t + h));
                assert(r_has);
                if j != ridx {
                    assert(wins(x, ridx, j));
                }
                lemma_class_split(j, h);
                lemma_class_split(lidx, h);
            }
        }
    }
}

/// The ISAMAX kernel run by its single block of 32 threads, on the bit
/// patterns of `n` `f32` values: each thread scans its stride, then a tree
/// reduction over strides 16, 8, 4, 2, 1 keeps, in each pair of slots, the
/// upper slot when its magnitude is larger, or equal with a smaller index.
/// Returns the 0-based index the kernel writes out.
pub fn isamax_kernel(n: u32, x: &[u32]) -> (r: u32)
    requires
        x@.len() >= n,
    ensures
        isamax_result(x@, n as int, r as int),
{
    let mut sval: Vec<i64> = Vec::new();
    let mut sidx: Vec<u32> = Vec::new();
    let mut t: u32 = 0;
    while t < REDUCE_THREADS
        invariant
            x@.len() >= n,
            t <= 32,
            sval.len() == t,
            sidx.len() == t,
            forall|u: int|
                0 <= u < t ==> #[trigger] slot_ok(x@, n as int, 32, u, sval@[u] as int, sidx@[u] as int),
        decreases 32 - t,
    {
        let res = isamax_thread(n, x, t);
        sval.push(res.0);
        sidx.push(res.1);
        t = t + 1;
    }
    let mut width: usize = 32;
    while width > 1
        invariant
            x@.len() >= n,
            width == 32 || width == 16 || width == 8 || width == 4 || width == 2 || width == 1,
            sval.len() == 32,
            sidx.len() == 32,
            forall|u: int|
                0 <= u < width ==> #[trigger] slot_ok(x@, n as int, width as int, u, sval@[u] as int, sidx@[u] as int),
        decreases width,
    {
        let h: usize = width / 2;
        let mut t: usize = 0;
        while t < h
            invariant
                x@.len() >= n,
                width == 32 || width == 16 || width == 8 || width == 4 || width == 2,
                h * 2 == width,
                t <= h,
                sval.len() == 32,
                sidx.len() == 32,
                forall|u: int|
                    0 <= u < t ==> #[trigger] slot_ok(x@, n as int, h as int, u, sval@[u] as int, sidx@[u] as int),
                forall|u: int|
                    t <= u < width ==> #[trigger] slot_ok(x@, n as int, width as int, u, sval@[u] as int, sidx@[u] as int),
            decreases h - t,
        {
            let ghost lval = sval@[t as int] as int;
            let ghost lidx = sidx@[t as int] as int;
            let ghost rval = sval@[(t + h) as int] as int;
            let ghost ridx = sidx@[(t + h) as int] as int;
            assert(slot_ok(x@, n as int, width as int, t as int, lval, lidx));
            assert(slot_ok(x@, n as int, width as int, (t + h) as int, rval, ridx));
            let other_val = sval[t + h];
            let other_idx = sidx[t + h];
            if other_val > sval[t] || (other_val == sval[t] && other_idx < sidx[t]) {
                sval.set(t, other_val);
                sidx.set(t, other_idx);
            }
            proof {
                lemma_merge(
                    x@,
                    n as int,
                    h as int,
                    t as int,
                    lval,
                    lidx,
                    rval,
                    ridx,
                    sval@[t as int] as int,
                    sidx@[t as int] as int,
                );
            }
            t = t + 1;
        }
        width = h;
    }
    let r = sidx[0];
    proof {
        assert(slot_ok(x@, n as int, 1, 0, sval@[0] as int, r as int));
        assert forall|j: int| j >= 0 implies #[trigger] in_class(j, 1, 0) by {
            lemma_small_mod(0, 1);
            lemma_mod_multiples_basic(j, 1);
        }
        if has_candidate(x@, n as int) {
            let j = choose|j: int| 0 <= j < n && abs_key(x@[j]) >= 0;
            assert(in_class(j, 1, 0));
        }
    }
    r
}

/// What ISAMAX reports, in terms of magnitudes alone: when some element is
/// not a NaN, the result is a non-NaN element whose magnitude bits (the
/// pattern without its sign) are at least those of every other non-NaN
/// element, and strictly larger than those of every non-NaN element before
/// it; so it is the first element of largest magnitude. When every element
/// is a NaN, the result is `0`.
pub proof fn lemma_isamax_first_largest_magnitude(x: Seq<u32>, n: int, r: int)
    requires
        0 <= n <= x.len(),
        isamax_result(x, n, r),
    ensures
        (exists|j: int| 0 <= j < n && not_nan(#[trigger] x[j])) ==> {
            &&& 0 <= r < n
            &&& not_nan(x[r])
            &&& forall|j: int|
                0 <= j < n && not_nan(#[trigger] x[j]) ==> (x[j] & 0x7fff_ffffu32) <= (x[r] & 0x7fff_ffffu32)
            &&& forall|j: int|
                0 <= j < r && not_nan(#[trigger] x[j]) ==> (x[j] & 0x7fff_ffffu32) < (x[r] & 0x7fff_ffffu32)
        },
        (forall|j: int| 0 <= j < n ==> !not_nan(#[trigger] x[j])) ==> r == 0,
{
    if exists|j: int| 0 <= j < n && not_nan(#[trigger] x[j]) {
        let j0 = choose|j: int| 0 <= j < n && not_nan(#[trigger] x[j]);
        lemma_abs_key_orders_magnitudes(x[j0], x[j0]);
        assert(has_candidate(x, n));
        lemma_abs_key_orders_magnitudes(x[r], x[r]);
        assert forall|j: int| 0 <= j < n && not_nan(#[trigger] x[j]) implies (x[j] & 0x7fff_ffffu32) <= (x[r]
            & 0x7fff_ffffu32) by {
            lemma_abs_key_orders_magnitudes(x[j], x[r]);
            if j != r {
                assert(wins(x, r, j));
            }
        }
        assert forall|j: int| 0 <= j < r && not_nan(#[trigger] x[j]) implies (x[j] & 0x7fff_ffffu32) < (x[r]
            & 0x7fff_ffffu32) by {
            lemma_abs_key_orders_magnitudes(x[j], x[r]);
            assert(wins(x, r, j));
        }
    } else {
        if has_candidate(x, n) {
            let j = choose|j: int| 0 <= j < n && abs_key(x[j]) >= 0;
            lemma_abs_key_orders_magnitudes(x[j], x[j]);
        }
    }
}

} // verus!
