use vstd::prelude::*;
use vstd::arithmetic::power2::pow2;

verus! {

/// The primary tap weights: strong, then for a zero primary strength.
pub const CDEF_PRI_TAPS: [[i32; 2]; 2] = [[4, 2], [3, 3]];

/// The secondary tap weights.
pub const CDEF_SEC_TAPS: [[i32; 2]; 2] = [[2, 1], [2, 1]];

/// The offsets `(dy, dx)` of the two taps of each of the eight directions.
pub const CDEF_DIRECTIONS: [[(i32, i32); 2]; 8] = [
    [(-1, 1), (-2, 2)],
    [(0, 1), (-1, 2)],
    [(0, 1), (0, 2)],
    [(0, 1), (1, 2)],
    [(1, 1), (2, 2)],
    [(1, 0), (2, 1)],
    [(1, 0), (2, 0)],
    [(1, 0), (2, -1)],
];

/// Tap `k` of direction `d`.
pub open spec fn cdef_dir(d: int, k: int) -> (int, int) {
    let e = CDEF_DIRECTIONS[d][k];
    (e.0 as int, e.1 as int)
}

/// The position of the highest set bit of `n`, for `n >= 1`.
pub open spec fn log2_floor(n: int) -> int
    decreases n,
{
    if n <= 1 {
        0
    } else {
        1 + log2_floor(n / 2)
    }
}

/// `31 - s.leading_zeros()`: 31 for a negative value, -1 for zero, else the
/// position of the highest set bit.
pub open spec fn top_bit(s: i32) -> int {
    if s < 0 {
        31
    } else if s == 0 {
        -1
    } else {
        log2_floor(s as int)
    }
}

/// Two to the power `k`.
pub open spec fn pow_two(k: nat) -> int
    decreases k,
{
    if k == 0 {
        1
    } else {
        2 * pow_two((k - 1) as nat)
    }
}

proof fn lemma_log2_lt(n: int, k: nat)
    requires
        1 <= n < pow_two(k),
    ensures
        0 <= log2_floor(n) < k,
    decreases k,
{
    if n > 1 {
        lemma_log2_lt(n / 2, (k - 1) as nat);
    }
}

/// Computes `31 - s.leading_zeros()`.
pub(crate) fn top_bit_index(s: i32) -> (r: i32)
    ensures
        r == top_bit(s),
{
    if s < 0 {
        return 31;
    }
    if s == 0 {
        return -1;
    }
    proof {
        reveal_with_fuel(pow_two, 32);
        assert(pow_two(31) == 0x8000_0000);
        lemma_log2_lt(s as int, 31);
    }
    let mut v = s;
    let mut k: i32 = 0;
    while v > 1
        invariant
            1 <= v <= s,
            0 <= k,
            k + log2_floor(v as int) == log2_floor(s as int),
            0 <= log2_floor(s as int) < 31,
            pow_two(31) == 0x8000_0000,
        decreases v,
    {
        proof {
            lemma_log2_lt(v as int, 31);
            lemma_log2_lt(v as int / 2, 31);
        }
        v = v / 2;
        k = k + 1;
    }
    k
}

/// The damping shift of a strength.
pub open spec fn constrain_shift(strength: i32, damping: i32) -> int {
    let t = damping - top_bit(strength);
    if t > 0 {
        t
    } else {
        0
    }
}

/// `constrain` does not overflow for differences of 8-bit samples.
pub open spec fn constrain_ok(strength: i32, damping: i32) -> bool {
    strength == 0 || (damping - top_bit(strength) >= i32::MIN && constrain_shift(strength, damping) < 32
        && strength >= i32::MIN + 255)
}

/// How much of the difference `diff` a tap lets through: nothing at zero
/// strength; otherwise at most `strength` less the damped difference, and
/// never more than the difference itself, with its sign.
pub open spec fn constrain_spec(diff: int, strength: i32, damping: i32) -> int {
    if strength == 0 {
        0
    } else {
        let a = if diff < 0 {
            -diff
        } else {
            diff
        };
        let v = strength - a / (pow2(constrain_shift(strength, damping) as nat) as int);
        let val = if v > 0 {
            v
        } else {
            0
        };
        let m = if a < val {
            a
        } else {
            val
        };
        if diff < 0 {
            -m
        } else {
            m
        }
    }
}

/// Limits a tap's difference by strength and damping.
fn constrain(diff: i32, strength: i32, damping: i32) -> (r: i32)
    requires
        -255 <= diff <= 255,
        constrain_ok(strength, damping),
    ensures
        r == constrain_spec(diff as int, strength, damping),
        -255 <= r <= 255,
{
    if strength == 0 {
        return 0;
    }
    let t = damping - top_bit_index(strength);
    let shift: i32 = if 0 > t {
        0
    } else {
        t
    };
    let abs_diff: i32 = if diff < 0 {
        -diff
    } else {
        diff
    };
    let q = (abs_diff as u32) >> (shift as u32);
    proof {
        vstd::bits::lemma_u32_shr_is_div(abs_diff as u32, shift as u32);
        vstd::arithmetic::power2::lemma_pow2_pos(shift as nat);
        vstd::arithmetic::div_mod::lemma_div_is_ordered_by_denominator(abs_diff as int, 1, pow2(shift as nat) as int);
    }
    let v = strength - q as i32;
    let val: i32 = if 0 > v {
        0
    } else {
        v
    };
    let m: i32 = if abs_diff < val {
        abs_diff
    } else {
        val
    };
    if diff < 0 {
        -m
    } else {
        m
    }
}

/// The sample at row `y`, column `x`.
pub open spec fn px(src: Seq<u8>, stride: int, y: int, x: int) -> int {
    src[y * stride + x] as int
}

/// The samples of a `bw` by `bh` block lie within `src`.
pub open spec fn block_fits(len: int, stride: int, bw: int, bh: int) -> bool {
    bw >= 1 && bh >= 1 && (bh - 1) * stride + bw - 1 < len
}

/// The cost that pixel `(y, x)` adds to direction `dir`: the squared
/// differences to its neighbours along the direction's first tap, both ways.
pub open spec fn dir_term(src: Seq<u8>, stride: int, bw: int, bh: int, y: int, x: int, dir: int) -> int {
    let (dy, dx) = cdef_dir(dir, 0);
    let p = px(src, stride, y, x);
    let a = if 0 <= y + dy < bh && 0 <= x + dx < bw {
        (p - px(src, stride, y + dy, x + dx)) * (p - px(src, stride, y + dy, x + dx))
    } else {
        0
    };
    let b = if 0 <= y - dy < bh && 0 <= x - dx < bw {
        (p - px(src, stride, y - dy, x - dx)) * (p - px(src, stride, y - dy, x - dx))
    } else {
        0
    };
    a + b
}

/// The cost of direction `dir` over the first `n` pixels, row by row.
pub open spec fn dir_cost(src: Seq<u8>, stride: int, bw: int, bh: int, dir: int, n: int) -> int
    decreases n,
{
    if n <= 0 || bw <= 0 {
        0
    } else {
        dir_cost(src, stride, bw, bh, dir, n - 1) + dir_term(src, stride, bw, bh, (n - 1) / bw, (n - 1) % bw, dir)
    }
}

/// The cost of each direction over the whole block.
pub open spec fn block_costs(src: Seq<u8>, stride: int, bw: int, bh: int) -> Seq<int> {
    Seq::new(8, |d: int| dir_cost(src, stride, bw, bh, d, bw * bh))
}

/// The first direction of least cost.
pub open spec fn first_min(c: Seq<int>, r: int) -> bool {
    &&& 0 <= r < c.len()
    &&& forall|d: int| 0 <= d < c.len() ==> c[r] <= #[trigger] c[d]
    &&& forall|d: int| 0 <= d < r ==> c[r] < #[trigger] c[d]
}

proof fn lemma_term_bounds(src: Seq<u8>, stride: int, bw: int, bh: int, y: int, x: int, dir: int)
    requires
        0 <= dir < 8,
        0 <= y < bh,
        0 <= x < bw,
        0 <= stride,
        block_fits(src.len() as int, stride, bw, bh),
    ensures
        0 <= dir_term(src, stride, bw, bh, y, x, dir) <= 2 * 255 * 255,
{
    let (dy, dx) = cdef_dir(dir, 0);
    let p = px(src, stride, y, x);
    assert(0 <= p <= 255);
    if 0 <= y + dy < bh && 0 <= x + dx < bw {
        let q = px(src, stride, y + dy, x + dx);
        assert(0 <= q <= 255);
        assert(0 <= (p - q) * (p - q) <= 255 * 255) by (nonlinear_arith)
            requires
                0 <= p <= 255,
                0 <= q <= 255,
        ;
    }
    if 0 <= y - dy < bh && 0 <= x - dx < bw {
        let q = px(src, stride, y - dy, x - dx);
        assert(0 <= q <= 255);
        assert(0 <= (p - q) * (p - q) <= 255 * 255) by (nonlinear_arith)
            requires
                0 <= p <= 255,
                0 <= q <= 255,
        ;
    }
}

proof fn lemma_cost_monotone(src: Seq<u8>, stride: int, bw: int, bh: int, dir: int, n: int, m: int)
    requires
        0 <= dir < 8,
        0 <= n <= m <= bw * bh,
        0 <= stride,
        block_fits(src.len() as int, stride, bw, bh),
    ensures
        0 <= dir_cost(src, stride, bw, bh, dir, n) <= dir_cost(src, stride, bw, bh, dir, m),
    decreases m,
{
    if n < m {
        lemma_cost_monotone(src, stride, bw, bh, dir, n, m - 1);
        lemma_pixel_of(bw, bh, m - 1);
        lemma_term_bounds(src, stride, bw, bh, (m - 1) / bw, (m - 1) % bw, dir);
    } else if n > 0 {
        lemma_cost_monotone(src, stride, bw, bh, dir, n - 1, n - 1);
        lemma_pixel_of(bw, bh, n - 1);
        lemma_term_bounds(src, stride, bw, bh, (n - 1) / bw, (n - 1) % bw, dir);
    }
}

proof fn lemma_pixel_of(bw: int, bh: int, i: int)
    requires
        bw >= 1,
        0 <= i < bw * bh,
    ensures
        0 <= i / bw < bh,
        0 <= i % bw < bw,
{
    assert(0 <= i / bw < bh) by (nonlinear_arith)
        requires
            bw >= 1,
            0 <= i < bw * bh,
    ;
}

proof fn lemma_index_in_block(stride: int, bw: int, bh: int, y: int, x: int)
    requires
        0 <= y < bh,
        0 <= x < bw,
        0 <= stride,
    ensures
        0 <= y * stride + x <= (bh - 1) * stride + bw - 1,
{
    assert(y * stride <= (bh - 1) * stride && 0 <= y * stride) by (nonlinear_arith)
        requires
            0 <= y < bh,
            0 <= stride,
    ;
}

/// Finds the direction of an 8-bit block along which it changes least: the
/// first of the eight directions of least cost.
pub fn cdef_analyze_direction(src: &[u8], stride: usize, bw: usize, bh: usize) -> (r: u8)
    requires
        block_fits(src@.len() as int, stride as int, bw as int, bh as int),
        bw <= i32::MAX,
        bh <= i32::MAX,
        forall|d: int| 0 <= d < 8 ==> #[trigger] dir_cost(src@, stride as int, bw as int, bh as int, d, bw * bh)
            <= i32::MAX,
    ensures
        first_min(block_costs(src@, stride as int, bw as int, bh as int), r as int),
{
    let ghost s = src@;
    let ghost sw = stride as int;
    let slen = src.len();
    let mut cost = [0i32; 8];
    let mut y: usize = 0;
    while y < bh
        invariant
            s == src@,
            slen == s.len(),
            sw == stride,
            block_fits(s.len() as int, sw, bw as int, bh as int),
            bw <= i32::MAX,
            bh <= i32::MAX,
            forall|d: int| 0 <= d < 8 ==> #[trigger] dir_cost(s, sw, bw as int, bh as int, d, bw * bh) <= i32::MAX,
            y <= bh,
            forall|d: int| 0 <= d < 8 ==> #[trigger] cost@[d] == dir_cost(s, sw, bw as int, bh as int, d, (y * bw) as int),
        decreases bh - y,
    {
        let mut x: usize = 0;
        while x < bw
            invariant
                s == src@,
                slen == s.len(),
                sw == stride,
                block_fits(s.len() as int, sw, bw as int, bh as int),
                bw <= i32::MAX,
                bh <= i32::MAX,
                forall|d: int| 0 <= d < 8 ==> #[trigger] dir_cost(s, sw, bw as int, bh as int, d, bw * bh) <= i32::MAX,
                y < bh,
                x <= bw,
                forall|d: int| 0 <= d < 8 ==> #[trigger] cost@[d] == dir_cost(s, sw, bw as int, bh as int, d, (y * bw + x) as int),
            decreases bw - x,
        {
            let ghost n = (y * bw + x) as int;
            assert(n < bw * bh && n + 1 <= bw * bh) by (nonlinear_arith)
                requires
                    x < bw,
                    y < bh,
                    n == y * bw + x,
            ;
            assert(n / (bw as int) == y && n % (bw as int) == x) by (nonlinear_arith)
                requires
                    x < bw,
                    n == y * bw + x,
            ;
            proof {
                lemma_index_in_block(sw, bw as int, bh as int, y as int, x as int);
            }
            let p = src[y * stride + x] as i32;
            let mut dir: usize = 0;
            while dir < 8
                invariant
                    s == src@,
                    slen == s.len(),
                    sw == stride,
                    block_fits(s.len() as int, sw, bw as int, bh as int),
                    bw <= i32::MAX,
                    bh <= i32::MAX,
                    forall|d: int| 0 <= d < 8 ==> #[trigger] dir_cost(s, sw, bw as int, bh as int, d, bw * bh) <= i32::MAX,
                    y < bh,
                    x < bw,
                    n == y * bw + x,
                    n / (bw as int) == y,
                    n % (bw as int) == x,
                    n + 1 <= bw * bh,
                    p == px(s, sw, y as int, x as int),
                    dir <= 8,
                    forall|d: int| 0 <= d < dir ==> #[trigger] cost@[d] == dir_cost(s, sw, bw as int, bh as int, d, n + 1),
                    forall|d: int| dir <= d < 8 ==> #[trigger] cost@[d] == dir_cost(s, sw, bw as int, bh as int, d, n),
                decreases 8 - dir,
            {
                proof {
                    lemma_cost_monotone(s, sw, bw as int, bh as int, dir as int, n + 1, bw * bh);
                    lemma_term_bounds(s, sw, bw as int, bh as int, y as int, x as int, dir as int);
                }
                let (dy, dx) = CDEF_DIRECTIONS[dir][0];
                let ny1 = y as i32 + dy;
                let nx1 = x as i32 + dx;
                let ny2 = y as i32 - dy;
                let nx2 = x as i32 - dx;
                let mut add: i32 = 0;
                if ny1 >= 0 && ny1 < bh as i32 && nx1 >= 0 && nx1 < bw as i32 {
                    proof {
                        lemma_index_in_block(sw, bw as int, bh as int, ny1 as int, nx1 as int);
                    }
                    let q1 = src[ny1 as usize * stride + nx1 as usize] as i32;
                    assert(0 <= (p - q1) * (p - q1) <= 65025) by (nonlinear_arith)
                        requires
                            0 <= p <= 255,
                            0 <= q1 <= 255,
                    ;
                    add = add + (p - q1) * (p - q1);
                }
                if ny2 >= 0 && ny2 < bh as i32 && nx2 >= 0 && nx2 < bw as i32 {
                    proof {
                        lemma_index_in_block(sw, bw as int, bh as int, ny2 as int, nx2 as int);
                    }
                    let q2 = src[ny2 as usize * stride + nx2 as usize] as i32;
                    assert(0 <= (p - q2) * (p - q2) <= 65025) by (nonlinear_arith)
                        requires
                            0 <= p <= 255,
                            0 <= q2 <= 255,
                    ;
                    add = add + (p - q2) * (p - q2);
                }
                assert(add == dir_term(s, sw, bw as int, bh as int, y as int, x as int, dir as int));
                cost[dir] = cost[dir] + add;
                dir += 1;
            }
            x += 1;
        }
        assert((y * bw + bw) as int == ((y + 1) * bw) as int) by (nonlinear_arith);
        y += 1;
    }
    let ghost costs = block_costs(s, sw, bw as int, bh as int);
    assert forall|d: int| 0 <= d < 8 implies #[trigger] cost@[d] == costs[d] by {
        assert((y * bw) as int == bw * bh);
    }
    let mut best_dir: u8 = 0;
    let mut min_cost: i32 = i32::MAX;
    let mut d: usize = 0;
    while d < 8
        invariant
            d <= 8,
            costs.len() == 8,
            forall|k: int| 0 <= k < 8 ==> #[trigger] cost@[k] == costs[k],
            forall|k: int| 0 <= k < 8 ==> #[trigger] costs[k] <= i32::MAX,
            best_dir < 8,
            d == 0 ==> best_dir == 0 && min_cost == i32::MAX,
            d > 0 ==> min_cost == costs[best_dir as int] && best_dir < d,
            forall|k: int| 0 <= k < d ==> min_cost <= #[trigger] costs[k],
            forall|k: int| 0 <= k < best_dir ==> min_cost < #[trigger] costs[k],
        decreases 8 - d,
    {
        let c = cost[d];
        if c < min_cost {
            min_cost = c;
            best_dir = d as u8;
        } else if d == 0 {
            assert(c == i32::MAX);
        }
        d += 1;
    }
    best_dir
}

/// What tap `k` of direction `dir`, on the side `sign`, adds for the pixel
/// at `(y, x)`: the tap weight times the constrained difference to the
/// neighbour, where the neighbour lies in the block.
pub open spec fn cdef_tap(
    src: Seq<u8>,
    stride: int,
    w: int,
    h: int,
    y: int,
    x: int,
    dir: int,
    k: int,
    sign: int,
    strength: i32,
    damping: i32,
    tap: int,
) -> int {
    let (dy, dx) = cdef_dir(dir, k);
    let ny = y + sign * dy;
    let nx = x + sign * dx;
    if 0 <= ny < h && 0 <= nx < w {
        tap * constrain_spec(px(src, stride, ny, nx) - px(src, stride, y, x), strength, damping)
    } else {
        0
    }
}

/// What both taps of a direction add, both ways.
pub open spec fn cdef_dir_sum(
    src: Seq<u8>,
    stride: int,
    w: int,
    h: int,
    y: int,
    x: int,
    dir: int,
    strength: i32,
    damping: i32,
    t0: int,
    t1: int,
) -> int {
    cdef_tap(src, stride, w, h, y, x, dir, 0, -1, strength, damping, t0) + cdef_tap(
        src,
        stride,
        w,
        h,
        y,
        x,
        dir,
        0,
        1,
        strength,
        damping,
        t0,
    ) + cdef_tap(src, stride, w, h, y, x, dir, 1, -1, strength, damping, t1) + cdef_tap(
        src,
        stride,
        w,
        h,
        y,
        x,
        dir,
        1,
        1,
        strength,
        damping,
        t1,
    )
}

/// The filtered pixel at `(y, x)`: the primary taps along `dir`, the
/// secondary taps along the directions two steps either side, and the
/// pixel moved by their rounded sum over sixteen, clamped to 8 bits.
#[verifier::opaque]
pub open spec fn cdef_pixel(
    src: Seq<u8>,
    stride: int,
    w: int,
    h: int,
    y: int,
    x: int,
    dir: int,
    pri: i32,
    sec: i32,
    damping: i32,
) -> int {
    let weak = if pri == 0 {
        1int
    } else {
        0int
    };
    let sum = cdef_dir_sum(
        src,
        stride,
        w,
        h,
        y,
        x,
        dir,
        pri,
        damping,
        CDEF_PRI_TAPS[weak][0] as int,
        CDEF_PRI_TAPS[weak][1] as int,
    ) + cdef_dir_sum(src, stride, w, h, y, x, (dir + 2) % 8, sec, damping, 2, 1) + cdef_dir_sum(
        src,
        stride,
        w,
        h,
        y,
        x,
        (dir + 6) % 8,
        sec,
        damping,
        2,
        1,
    );
    let f = px(src, stride, y, x) + (8 + sum - (if sum < 0 {
        1int
    } else {
        0int
    })) / 16;
    if f < 0 {
        0
    } else if f > 255 {
        255
    } else {
        f
    }
}

/// One tap's contribution.
fn tap_value(
    src: &[u8],
    stride: usize,
    w: usize,
    h: usize,
    y: usize,
    x: usize,
    dir: usize,
    k: usize,
    sign: i32,
    strength: i32,
    damping: i32,
    tap: i32,
) -> (r: i32)
    requires
        block_fits(src@.len() as int, stride as int, w as int, h as int),
        w <= i32::MAX - 4,
        h <= i32::MAX - 4,
        y < h,
        x < w,
        dir < 8,
        k < 2,
        sign == -1 || sign == 1,
        0 <= tap <= 4,
        constrain_ok(strength, damping),
    ensures
        r == cdef_tap(src@, stride as int, w as int, h as int, y as int, x as int, dir as int, k as int, sign as int, strength, damping, tap as int),
        -1020 <= r <= 1020,
{
    let slen = src.len();
    let (dy, dx) = CDEF_DIRECTIONS[dir][k];
    let ny = y as i32 + sign * dy;
    let nx = x as i32 + sign * dx;
    if ny >= 0 && ny < h as i32 && nx >= 0 && nx < w as i32 {
        proof {
            lemma_index_in_block(stride as int, w as int, h as int, ny as int, nx as int);
            lemma_index_in_block(stride as int, w as int, h as int, y as int, x as int);
        }
        let p = src[y * stride + x] as i32;
        let p1 = src[ny as usize * stride + nx as usize] as i32;
        let c = constrain(p1 - p, strength, damping);
        assert(-1020 <= tap * c <= 1020) by (nonlinear_arith)
            requires
                0 <= tap <= 4,
                -255 <= c <= 255,
        ;
        tap * c
    } else {
        0
    }
}

/// Both taps of a direction, both ways.
fn dir_sum_value(
    src: &[u8],
    stride: usize,
    w: usize,
    h: usize,
    y: usize,
    x: usize,
    dir: usize,
    strength: i32,
    damping: i32,
    t0: i32,
    t1: i32,
) -> (r: i32)
    requires
        block_fits(src@.len() as int, stride as int, w as int, h as int),
        w <= i32::MAX - 4,
        h <= i32::MAX - 4,
        y < h,
        x < w,
        dir < 8,
        0 <= t0 <= 4,
        0 <= t1 <= 4,
        constrain_ok(strength, damping),
    ensures
        r == cdef_dir_sum(src@, stride as int, w as int, h as int, y as int, x as int, dir as int, strength, damping, t0 as int, t1 as int),
        -4080 <= r <= 4080,
{
    let a = tap_value(src, stride, w, h, y, x, dir, 0, -1, strength, damping, t0);
    let b = tap_value(src, stride, w, h, y, x, dir, 0, 1, strength, damping, t0);
    let c = tap_value(src, stride, w, h, y, x, dir, 1, -1, strength, damping, t1);
    let d = tap_value(src, stride, w, h, y, x, dir, 1, 1, strength, damping, t1);
    a + b + c + d
}

proof fn lemma_shift4(v: i32)
    requires
        -0x100000 <= v <= 0x100000,
    ensures
        (v >> 4i32) as int * 16 <= v < (v >> 4i32) as int * 16 + 16,
{
    assert((v >> 4i32) * 16 <= v && v < (v >> 4i32) * 16 + 16) by (bit_vector)
        requires
            -0x100000 <= v <= 0x100000,
    ;
}

/// Position `i` of a plane with rows of `stride` lies in the top-left
/// `w` by `h` block.
pub open spec fn in_block(i: int, stride: int, w: int, h: int) -> bool {
    0 <= i && i / stride < h && i % stride < w
}

proof fn lemma_row_col(y: int, x: int, stride: int)
    requires
        0 <= y,
        0 <= x < stride,
    ensures
        (y * stride + x) / stride == y,
        (y * stride + x) % stride == x,
{
    vstd::arithmetic::div_mod::lemma_fundamental_div_mod_converse(y * stride + x, stride, y, x);
}

/// The value written at `(y, x)`: the filtered pixel, or a copy where both
/// strengths are zero.
pub open spec fn cdef_out(
    src: Seq<u8>,
    stride: int,
    w: int,
    h: int,
    y: int,
    x: int,
    dir: int,
    pri: i32,
    sec: i32,
    damping: i32,
) -> int {
    if pri == 0 && sec == 0 {
        px(src, stride, y, x)
    } else {
        cdef_pixel(src, stride, w, h, y, x, dir, pri, sec, damping)
    }
}

/// `out` holds the block filtered along `dir`, which is the block's
/// direction unless both strengths are zero.
pub open spec fn cdef_result(
    src: Seq<u8>,
    out: Seq<u8>,
    stride: int,
    dst_stride: int,
    w: int,
    h: int,
    dir: int,
    pri: i32,
    sec: i32,
    damping: i32,
) -> bool {
    &&& (!(pri == 0 && sec == 0) ==> first_min(block_costs(src, stride, w, h), dir))
    &&& forall|y: int, x: int|
        0 <= y < h && 0 <= x < w ==> #[trigger] out[y * dst_stride + x] == cdef_out(
            src,
            stride,
            w,
            h,
            y,
            x,
            dir,
            pri,
            sec,
            damping,
        )
}

/// The filtered value at `(y, x)`.
fn filter_pixel(
    src: &[u8],
    stride: usize,
    w: usize,
    h: usize,
    y: usize,
    x: usize,
    dir: usize,
    pri_strength: i32,
    sec_strength: i32,
    damping: i32,
) -> (r: u8)
    requires
        block_fits(src@.len() as int, stride as int, w as int, h as int),
        w <= i32::MAX - 4,
        h <= i32::MAX - 4,
        y < h,
        x < w,
        dir < 8,
        constrain_ok(pri_strength, damping),
        constrain_ok(sec_strength, damping),
    ensures
        r == cdef_pixel(src@, stride as int, w as int, h as int, y as int, x as int, dir as int, pri_strength, sec_strength, damping),
{
    let slen = src.len();
    proof {
        lemma_index_in_block(stride as int, w as int, h as int, y as int, x as int);
    }
    assert(y * stride <= y * stride + x < slen);
    let p = src[y * stride + x] as i32;
    let weak: usize = if pri_strength == 0 {
        1
    } else {
        0
    };
    let pri_taps = CDEF_PRI_TAPS[weak];
    let sec_taps = CDEF_SEC_TAPS[weak];
    let dir2 = (dir + 2) % 8;
    let dir3 = (dir + 6) % 8;
    let a = dir_sum_value(src, stride, w, h, y, x, dir, pri_strength, damping, pri_taps[0], pri_taps[1]);
    let b = dir_sum_value(src, stride, w, h, y, x, dir2, sec_strength, damping, sec_taps[0], sec_taps[1]);
    let c = dir_sum_value(src, stride, w, h, y, x, dir3, sec_strength, damping, sec_taps[0], sec_taps[1]);
    let sum = a + b + c;
    let neg: i32 = if sum < 0 {
        1
    } else {
        0
    };
    let v = 8 + sum - neg;
    proof {
        lemma_shift4(v);
    }
    let filtered = p + (v >> 4i32);
    assert((v >> 4i32) as int == v as int / 16);
    proof {
        reveal(cdef_pixel);
    }
    if filtered < 0 {
        0
    } else if filtered > 255 {
        255
    } else {
        filtered as u8
    }
}

/// Applies the constrained directional enhancement filter to a `width` by
/// `height` block of 8-bit samples, writing the result to `dst`: each pixel
/// is moved by the constrained differences to its neighbours along the
/// block's direction and the directions two steps either side. With both
/// strengths zero the block is copied. Rows of `dst` do not overlap.
pub fn cdef_filter_block(
    src: &[u8],
    stride: usize,
    dst: &mut [u8],
    dst_stride: usize,
    width: usize,
    height: usize,
    pri_strength: i32,
    sec_strength: i32,
    damping: i32,
)
    requires
        block_fits(src@.len() as int, stride as int, width as int, height as int),
        block_fits(old(dst)@.len() as int, dst_stride as int, width as int, height as int),
        dst_stride >= width,
        width <= i32::MAX - 4,
        height <= i32::MAX - 4,
        !(pri_strength == 0 && sec_strength == 0) ==> {
            &&& constrain_ok(pri_strength, damping)
            &&& constrain_ok(sec_strength, damping)
            &&& forall|d: int|
                0 <= d < 8 ==> #[trigger] dir_cost(src@, stride as int, width as int, height as int, d, width * height)
                    <= i32::MAX
        },
    ensures
        final(dst)@.len() == old(dst)@.len(),
        exists|dir: int|
            #[trigger] cdef_result(
                src@,
                final(dst)@,
                stride as int,
                dst_stride as int,
                width as int,
                height as int,
                dir,
                pri_strength,
                sec_strength,
                damping,
            ),
        forall|i: int|
            0 <= i < old(dst)@.len() && !in_block(i, dst_stride as int, width as int, height as int)
                ==> #[trigger] final(dst)@[i] == old(dst)@[i],
{
    let ghost orig = dst@;
    let ghost s = src@;
    let copy = pri_strength == 0 && sec_strength == 0;
    let dir: usize = if copy {
        0
    } else {
        cdef_analyze_direction(src, stride, width, height) as usize
    };
    let ghost ds = dst_stride as int;
    let slen = src.len();
    let dlen = dst.len();
    let mut y: usize = 0;
    while y < height
        invariant
            s == src@,
            slen == s.len(),
            dlen == orig.len(),
            copy == (pri_strength == 0 && sec_strength == 0),
            dir < 8,
            !copy ==> constrain_ok(pri_strength, damping) && constrain_ok(sec_strength, damping),
            block_fits(s.len() as int, stride as int, width as int, height as int),
            block_fits(orig.len() as int, ds, width as int, height as int),
            ds == dst_stride,
            ds >= width,
            width <= i32::MAX - 4,
            height <= i32::MAX - 4,
            dst@.len() == orig.len(),
            y <= height,
            forall|yy: int, xx: int|
                0 <= yy < y && 0 <= xx < width ==> #[trigger] dst@[yy * ds + xx] == cdef_out(
                    s,
                    stride as int,
                    width as int,
                    height as int,
                    yy,
                    xx,
                    dir as int,
                    pri_strength,
                    sec_strength,
                    damping,
                ),
            forall|i: int|
                0 <= i < orig.len() && !(in_block(i, ds, width as int, y as int)) ==> #[trigger] dst@[i] == orig[i],
        decreases height - y,
    {
        let mut x: usize = 0;
        while x < width
            invariant
                s == src@,
                slen == s.len(),
                dlen == orig.len(),
                copy == (pri_strength == 0 && sec_strength == 0),
                dir < 8,
                !copy ==> constrain_ok(pri_strength, damping) && constrain_ok(sec_strength, damping),
                block_fits(s.len() as int, stride as int, width as int, height as int),
                block_fits(orig.len() as int, ds, width as int, height as int),
                ds == dst_stride,
                ds >= width,
                width <= i32::MAX - 4,
                height <= i32::MAX - 4,
                dst@.len() == orig.len(),
                y < height,
                x <= width,
                forall|yy: int, xx: int|
                    (0 <= yy < y && 0 <= xx < width) || (yy == y && 0 <= xx < x) ==> #[trigger] dst@[yy * ds
                        + xx] == cdef_out(
                        s,
                        stride as int,
                        width as int,
                        height as int,
                        yy,
                        xx,
                        dir as int,
                        pri_strength,
                        sec_strength,
                        damping,
                    ),
                forall|i: int|
                    0 <= i < orig.len() && !(in_block(i, ds, width as int, y as int)) && !(i / ds == y && i
                        % ds < x) ==> #[trigger] dst@[i] == orig[i],
            decreases width - x,
        {
            proof {
                lemma_index_in_block(stride as int, width as int, height as int, y as int, x as int);
                lemma_index_in_block(ds, width as int, height as int, y as int, x as int);
                lemma_row_col(y as int, x as int, ds);
            }
            assert(y * stride <= y * stride + x < slen);
            assert(y * dst_stride <= y * dst_stride + x < dlen);
            let value: u8 = if copy {
                src[y * stride + x]
            } else {
                filter_pixel(src, stride, width, height, y, x, dir, pri_strength, sec_strength, damping)
            };
            let ghost q = (y * dst_stride + x) as int;
            let ghost before = dst@;
            dst[y * dst_stride + x] = value;
            assert forall|yy: int, xx: int|
                (0 <= yy < y && 0 <= xx < width) || (yy == y && 0 <= xx < x + 1) implies #[trigger] dst@[yy
                    * ds + xx] == cdef_out(
                    s,
                    stride as int,
                    width as int,
                    height as int,
                    yy,
                    xx,
                    dir as int,
                    pri_strength,
                    sec_strength,
                    damping,
                ) by {
                lemma_row_col(yy, xx, ds);
                lemma_index_in_block(ds, width as int, height as int, yy, xx);
                if yy * ds + xx != q {
                    assert(dst@[yy * ds + xx] == before[yy * ds + xx]);
                }
            }
            assert forall|i: int|
                0 <= i < orig.len() && !(in_block(i, ds, width as int, y as int)) && !(i / ds == y && i % ds
                    < x + 1) implies #[trigger] dst@[i] == orig[i] by {
                assert(i != q);
            }
            x += 1;
        }
        assert forall|i: int|
            0 <= i < orig.len() && !(in_block(i, ds, width as int, (y + 1) as int)) implies #[trigger] dst@[i]
                == orig[i] by {
            assert(!(in_block(i, ds, width as int, y as int)) && !(i / ds == y && i % ds < width));
        }
        y += 1;
    }
    proof {
        if !copy {
            assert(first_min(block_costs(s, stride as int, width as int, height as int), dir as int));
        }
    }
    assert(cdef_result(
        s,
        dst@,
        stride as int,
        ds,
        width as int,
        height as int,
        dir as int,
        pri_strength,
        sec_strength,
        damping,
    ));
}

/// A tap never reverses the difference it limits: the result has the sign
/// of `diff`, is no larger than `diff` in magnitude, and no larger than the
/// strength.
pub proof fn lemma_constrain_keeps_sign(diff: int, strength: i32, damping: i32)
    ensures
        diff < 0 ==> diff <= constrain_spec(diff, strength, damping) <= 0,
        diff > 0 ==> 0 <= constrain_spec(diff, strength, damping) <= diff,
        diff == 0 ==> constrain_spec(diff, strength, damping) == 0,
        strength >= 0 ==> -(strength as int) <= constrain_spec(diff, strength, damping) <= strength,
{
    let a = if diff < 0 { -diff } else { diff };
    let q = pow2(constrain_shift(strength, damping) as nat) as int;
    vstd::arithmetic::power2::lemma_pow2_pos(constrain_shift(strength, damping) as nat);
    assert(a / q >= 0) by (nonlinear_arith)
        requires
            a >= 0,
            q > 0,
    ;
}

/// A tap of non-negative weight toward a neighbour no brighter than the
/// pixel adds nothing positive.
proof fn lemma_tap_not_up(
    src: Seq<u8>,
    stride: int,
    w: int,
    h: int,
    y: int,
    x: int,
    dir: int,
    k: int,
    sign: int,
    strength: i32,
    damping: i32,
    tap: int,
)
    requires
        tap >= 0,
        forall|ny: int, nx: int| 0 <= ny < h && 0 <= nx < w ==> #[trigger] px(src, stride, ny, nx) <= px(src, stride, y, x),
    ensures
        cdef_tap(src, stride, w, h, y, x, dir, k, sign, strength, damping, tap) <= 0,
{
    let (dy, dx) = cdef_dir(dir, k);
    let ny = y + sign * dy;
    let nx = x + sign * dx;
    if 0 <= ny < h && 0 <= nx < w {
        let d = px(src, stride, ny, nx) - px(src, stride, y, x);
        assert(d <= 0);
        lemma_constrain_keeps_sign(d, strength, damping);
        let c = constrain_spec(d, strength, damping);
        assert(tap * c <= 0) by (nonlinear_arith)
            requires
                tap >= 0,
                c <= 0,
        ;
    }
}

/// A tap of non-negative weight toward a neighbour no darker than the
/// pixel takes nothing away.
proof fn lemma_tap_not_down(
    src: Seq<u8>,
    stride: int,
    w: int,
    h: int,
    y: int,
    x: int,
    dir: int,
    k: int,
    sign: int,
    strength: i32,
    damping: i32,
    tap: int,
)
    requires
        tap >= 0,
        forall|ny: int, nx: int| 0 <= ny < h && 0 <= nx < w ==> #[trigger] px(src, stride, ny, nx) >= px(src, stride, y, x),
    ensures
        cdef_tap(src, stride, w, h, y, x, dir, k, sign, strength, damping, tap) >= 0,
{
    let (dy, dx) = cdef_dir(dir, k);
    let ny = y + sign * dy;
    let nx = x + sign * dx;
    if 0 <= ny < h && 0 <= nx < w {
        let d = px(src, stride, ny, nx) - px(src, stride, y, x);
        assert(d >= 0);
        lemma_constrain_keeps_sign(d, strength, damping);
        let c = constrain_spec(d, strength, damping);
        assert(tap * c >= 0) by (nonlinear_arith)
            requires
                tap >= 0,
                c >= 0,
        ;
    }
}

/// CDEF never brightens a pixel that is at least as bright as every pixel
/// of its block, and never darkens one that is at least as dark as every
/// pixel of its block.
pub proof fn lemma_cdef_keeps_extremes(
    src: Seq<u8>,
    out: Seq<u8>,
    stride: int,
    dst_stride: int,
    w: int,
    h: int,
    dir: int,
    pri: i32,
    sec: i32,
    damping: i32,
    y: int,
    x: int,
)
    requires
        cdef_result(src, out, stride, dst_stride, w, h, dir, pri, sec, damping),
        0 <= y < h,
        0 <= x < w,
    ensures
        (forall|ny: int, nx: int| 0 <= ny < h && 0 <= nx < w ==> #[trigger] px(src, stride, ny, nx) <= px(src, stride, y, x))
            ==> out[y * dst_stride + x] <= px(src, stride, y, x),
        (forall|ny: int, nx: int| 0 <= ny < h && 0 <= nx < w ==> #[trigger] px(src, stride, ny, nx) >= px(src, stride, y, x))
            ==> out[y * dst_stride + x] >= px(src, stride, y, x),
{
    assert(out[y * dst_stride + x] == cdef_out(src, stride, w, h, y, x, dir, pri, sec, damping));
    if !(pri == 0 && sec == 0) {
        reveal(cdef_pixel);
        let weak = if pri == 0 { 1int } else { 0int };
        let t0 = CDEF_PRI_TAPS[weak][0] as int;
        let t1 = CDEF_PRI_TAPS[weak][1] as int;
        assert(t0 >= 0 && t1 >= 0);
        let d2 = (dir + 2) % 8;
        let d6 = (dir + 6) % 8;
        if forall|ny: int, nx: int| 0 <= ny < h && 0 <= nx < w ==> #[trigger] px(src, stride, ny, nx) <= px(src, stride, y, x) {
            lemma_tap_not_up(src, stride, w, h, y, x, dir, 0, -1, pri, damping, t0);
            lemma_tap_not_up(src, stride, w, h, y, x, dir, 0, 1, pri, damping, t0);
            lemma_tap_not_up(src, stride, w, h, y, x, dir, 1, -1, pri, damping, t1);
            lemma_tap_not_up(src, stride, w, h, y, x, dir, 1, 1, pri, damping, t1);
            lemma_tap_not_up(src, stride, w, h, y, x, d2, 0, -1, sec, damping, 2);
            lemma_tap_not_up(src, stride, w, h, y, x, d2, 0, 1, sec, damping, 2);
            lemma_tap_not_up(src, stride, w, h, y, x, d2, 1, -1, sec, damping, 1);
            lemma_tap_not_up(src, stride, w, h, y, x, d2, 1, 1, sec, damping, 1);
            lemma_tap_not_up(src, stride, w, h, y, x, d6, 0, -1, sec, damping, 2);
            lemma_tap_not_up(src, stride, w, h, y, x, d6, 0, 1, sec, damping, 2);
            lemma_tap_not_up(src, stride, w, h, y, x, d6, 1, -1, sec, damping, 1);
            lemma_tap_not_up(src, stride, w, h, y, x, d6, 1, 1, sec, damping, 1);
        }
        if forall|ny: int, nx: int| 0 <= ny < h && 0 <= nx < w ==> #[trigger] px(src, stride, ny, nx) >= px(src, stride, y, x) {
            lemma_tap_not_down(src, stride, w, h, y, x, dir, 0, -1, pri, damping, t0);
            lemma_tap_not_down(src, stride, w, h, y, x, dir, 0, 1, pri, damping, t0);
            lemma_tap_not_down(src, stride, w, h, y, x, dir, 1, -1, pri, damping, t1);
            lemma_tap_not_down(src, stride, w, h, y, x, dir, 1, 1, pri, damping, t1);
            lemma_tap_not_down(src, stride, w, h, y, x, d2, 0, -1, sec, damping, 2);
            lemma_tap_not_down(src, stride, w, h, y, x, d2, 0, 1, sec, damping, 2);
            lemma_tap_not_down(src, stride, w, h, y, x, d2, 1, -1, sec, damping, 1);
            lemma_tap_not_down(src, stride, w, h, y, x, d2, 1, 1, sec, damping, 1);
            lemma_tap_not_down(src, stride, w, h, y, x, d6, 0, -1, sec, damping, 2);
            lemma_tap_not_down(src, stride, w, h, y, x, d6, 0, 1, sec, damping, 2);
            lemma_tap_not_down(src, stride, w, h, y, x, d6, 1, -1, sec, damping, 1);
            lemma_tap_not_down(src, stride, w, h, y, x, d6, 1, 1, sec, damping, 1);
        }
    }
}

} // verus!
