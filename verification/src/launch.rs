use vstd::prelude::*;
use vstd::arithmetic::div_mod::*;
use vstd::arithmetic::mul::*;

verus! {

/// Grid and block shape of a kernel launch (the host-side launch
/// configuration handed to the driver).
#[derive(Debug, Clone, Copy)]
pub struct LaunchConfig {
    /// Grid dimensions `(x, y, z)` in thread blocks.
    pub grid_dim: (u32, u32, u32),
    /// Block dimensions `(x, y, z)` in threads.
    pub block_dim: (u32, u32, u32),
    /// Bytes of dynamic shared memory per block.
    pub shared_mem_bytes: u32,
}

/// Threads per block of the default one-dimensional launch.
pub const DEFAULT_BLOCK_SIZE: u32 = 256u32;

/// `x / d` rounded up.
pub open spec fn ceil_div(x: int, d: int) -> int {
    x / d + if x % d == 0 { 0int } else { 1int }
}

/// `x / d` rounded up, on `u32` (never overflows).
pub fn div_ceil_u32(x: u32, d: u32) -> (r: u32)
    requires
        d > 0,
    ensures
        r == ceil_div(x as int, d as int),
{
    let q: u32 = x / d;
    if x % d == 0 {
        q
    } else {
        proof {
            lemma_fundamental_div_mod(x as int, d as int);
            if q as int >= u32::MAX {
                lemma_mul_inequality(u32::MAX as int, q as int, d as int);
                lemma_mul_increases(u32::MAX as int, d as int);
                assert(d * q >= u32::MAX);
            }
        }
        q + 1
    }
}

/// Facts about rounding up a division: the rounded quotient times `d`
/// reaches `x`, and one block fewer does not.
pub proof fn lemma_ceil_div(x: int, d: int)
    requires
        x >= 0,
        d > 0,
    ensures
        ceil_div(x, d) >= 0,
        ceil_div(x, d) * d >= x,
        (ceil_div(x, d) - 1) * d < x || ceil_div(x, d) == 0,
        x == 0 ==> ceil_div(x, d) == 0,
{
    lemma_fundamental_div_mod(x, d);
    lemma_div_pos_is_pos(x, d);
    let q = x / d;
    let r = x % d;
    assert(x == d * q + r);
    lemma_mul_is_commutative(d, q);
    if r == 0 {
        assert(ceil_div(x, d) * d == x);
        if x > 0 {
            assert(q > 0) by (nonlinear_arith)
                requires x == q * d, x > 0, d > 0;
            assert((q - 1) * d == q * d - d) by (nonlinear_arith);
        }
    } else {
        assert((q + 1) * d == q * d + d) by (nonlinear_arith);
    }
    if x == 0 {
        lemma_small_mod(0, d as nat);
    }
}

/// Splitting a coordinate into a block index and a lane: `x` is reached by
/// block `x / t`, lane `x % t`, and that block lies inside a grid of
/// `ceil_div(extent, t)` blocks whenever `x < extent`.
pub proof fn lemma_block_lane(x: int, t: int, extent: int)
    requires
        0 <= x < extent,
        t > 0,
    ensures
        0 <= x % t < t,
        0 <= x / t < ceil_div(extent, t),
        (x / t) * t + x % t == x,
{
    lemma_fundamental_div_mod(x, t);
    lemma_mul_is_commutative(t, x / t);
    lemma_div_pos_is_pos(x, t);
    lemma_ceil_div(extent, t);
    if x / t >= ceil_div(extent, t) {
        lemma_mul_inequality(ceil_div(extent, t), x / t, t);
    }
}

/// A block index and a lane below `t` determine the coordinate uniquely.
pub proof fn lemma_block_lane_unique(b1: int, l1: int, b2: int, l2: int, t: int)
    requires
        t > 0,
        0 <= l1 < t,
        0 <= l2 < t,
        b1 >= 0,
        b2 >= 0,
        b1 * t + l1 == b2 * t + l2,
    ensures
        b1 == b2,
        l1 == l2,
{
    lemma_fundamental_div_mod_converse(b1 * t + l1, t, b1, l1);
    lemma_fundamental_div_mod_converse(b2 * t + l2, t, b2, l2);
}

/// The default one-dimensional launch for `n` elements: blocks of 256
/// threads, as many blocks as needed to reach `n`.
pub fn for_num_elems(n: u32) -> (cfg: LaunchConfig)
    ensures
        cfg.grid_dim == (ceil_div(n as int, DEFAULT_BLOCK_SIZE as int) as u32, 1u32, 1u32),
        cfg.block_dim == (DEFAULT_BLOCK_SIZE, 1u32, 1u32),
        cfg.shared_mem_bytes == 0,
{
    let grid_x = div_ceil_u32(n, DEFAULT_BLOCK_SIZE);
    LaunchConfig {
        grid_dim: (grid_x, 1, 1),
        block_dim: (DEFAULT_BLOCK_SIZE, 1, 1),
        shared_mem_bytes: 0,
    }
}

/// Thread `(block, lane)` of a one-dimensional launch exists.
pub open spec fn in_grid_1d(cfg: LaunchConfig, block: int, lane: int) -> bool {
    &&& 0 <= block < cfg.grid_dim.0
    &&& 0 <= lane < cfg.block_dim.0
}

/// Global index of thread `(block, lane)` in a one-dimensional launch.
pub open spec fn global_index_1d(cfg: LaunchConfig, block: int, lane: int) -> int {
    block * cfg.block_dim.0 + lane
}

/// Every element `i < n` of a one-dimensional launch made by
/// `for_num_elems(n)` is handled by exactly one thread: thread
/// `(i / 256, i % 256)` reaches it, and no other thread has that index.
pub proof fn lemma_for_num_elems_covers(n: u32, i: int, block: int, lane: int)
    requires
        0 <= i < n,
        in_grid_1d(for_num_elems_spec(n), block, lane),
        global_index_1d(for_num_elems_spec(n), block, lane) == i,
    ensures
        in_grid_1d(for_num_elems_spec(n), i / 256, i % 256),
        global_index_1d(for_num_elems_spec(n), i / 256, i % 256) == i,
        block == i / 256,
        lane == i % 256,
{
    lemma_block_lane(i, 256, n as int);
    lemma_ceil_div(n as int, 256);
    assert(ceil_div(n as int, 256) <= u32::MAX) by {
        lemma_div_is_ordered(n as int, u32::MAX as int, 256);
    }
    lemma_block_lane_unique(block, lane, i / 256, i % 256, 256);
}

/// The launch `for_num_elems` builds, as a value.
pub open spec fn for_num_elems_spec(n: u32) -> LaunchConfig {
    LaunchConfig {
        grid_dim: (ceil_div(n as int, DEFAULT_BLOCK_SIZE as int) as u32, 1u32, 1u32),
        block_dim: (DEFAULT_BLOCK_SIZE, 1u32, 1u32),
        shared_mem_bytes: 0,
    }
}

} // verus!
