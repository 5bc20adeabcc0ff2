use vstd::prelude::*;
use crate::dct::TxType;
use crate::y4m::half_up;

verus! {

broadcast use crate::shifts::group_shifts;

/// Partition context value stored for a block of each size when it is not split.
pub const PARTITION_CTX_NONE: [u8; 5] = [0, 0x10, 0x18, 0x1c, 0x1e];

/// Number of partition symbols coded at each block level.
pub const PARTITION_NSYMS: [u32; 5] = [9, 9, 9, 9, 3];

/// Context class of each intra prediction mode.
pub const INTRA_MODE_CONTEXT: [usize; 13] = [0, 1, 2, 3, 4, 4, 4, 4, 3, 0, 1, 2, 0];

/// Smooth-prediction weights; those of a block side `n` are entries `n..2n`.
pub const SM_WEIGHTS: [u8; 128] = [
    0, 0, 255, 128, 255, 149, 85, 64, 255, 197, 146, 105, 73, 50, 37, 32,
    255, 225, 196, 170, 145, 123, 102, 84, 68, 54, 43, 33, 26, 20, 17, 16,
    255, 240, 225, 210, 196, 182, 169, 157, 145, 133, 122, 111, 101, 92, 83, 74,
    66, 59, 52, 45, 39, 34, 29, 25, 21, 17, 14, 12, 10, 9, 8, 8,
    255, 248, 240, 233, 225, 218, 210, 203, 196, 189, 182, 176, 169, 163, 156, 150,
    144, 138, 133, 127, 121, 116, 111, 106, 101, 96, 91, 86, 82, 77, 73, 69,
    65, 61, 57, 54, 50, 47, 44, 41, 38, 35, 32, 29, 27, 25, 22, 20,
    18, 16, 15, 13, 12, 10, 9, 8, 7, 6, 6, 5, 5, 4, 4, 4,
];

/// Directional prediction derivatives, by half angle.
pub const DR_INTRA_DERIVATIVE: [u16; 44] = [
    0, 1023, 0, 547, 372, 0, 0, 273, 215, 0, 178, 151, 0, 132, 116, 0,
    102, 0, 90, 80, 0, 71, 64, 0, 57, 51, 0, 45, 0, 40, 35, 0,
    31, 27, 0, 23, 19, 0, 15, 0, 11, 0, 7, 3,
];

/// Nominal angle of each directional mode, from mode 1.
pub const MODE_TO_ANGLE: [i32; 8] = [90, 180, 45, 135, 113, 157, 203, 67];

/// Transform types of the intra set, in symbol order.
pub const TXTP_INTRA2_MAP: [TxType; 5] = [TxType::Idtx, TxType::DctDct, TxType::AdstAdst, TxType::AdstDct, TxType::DctAdst];

/// The symbol that codes an intra transform type.
pub fn txtype_to_intra2_symbol(tx: TxType) -> (r: u32)
    ensures
        TXTP_INTRA2_MAP@[r as int] == tx,
        r < 5,
{
    match tx {
        TxType::Idtx => 0,
        TxType::DctDct => 1,
        TxType::AdstAdst => 2,
        TxType::AdstDct => 3,
        TxType::DctAdst => 4,
    }
}

/// The class of an end-of-block position: 0 for 0, then `1 + floor(log2 eob)`, at most 7.
pub open spec fn eob_bin_spec(eob: int) -> int {
    if eob == 0 { 0 } else if eob == 1 { 1 } else if eob < 4 { 2 } else if eob < 8 { 3 } else if eob < 16 { 4 } else if eob < 32 { 5 } else if eob < 64 { 6 } else { 7 }
}

/// The class of an end-of-block position.
pub fn eob_to_bin(eob: usize) -> (r: usize)
    ensures
        r as int == eob_bin_spec(eob as int),
{
    if eob == 0 {
        0
    } else if eob == 1 {
        1
    } else if eob <= 3 {
        2
    } else if eob <= 7 {
        3
    } else if eob <= 15 {
        4
    } else if eob <= 31 {
        5
    } else if eob <= 63 {
        6
    } else {
        7
    }
}

/// The level token of a coefficient magnitude: 0, `0x41` for 1, `0x82` for 2,
/// and for larger ones the magnitude capped at 15 plus `0xc0`.
pub fn level_tok(magnitude: u32) -> (r: u8)
    ensures
        r as int == (if magnitude == 0 { 0int } else if magnitude == 1 { 0x41int } else if magnitude == 2 { 0x82int } else if magnitude < 15 { magnitude as int + 0xc0 } else { 15int + 0xc0 }),
{
    match magnitude {
        0 => 0,
        1 => 0x41,
        2 => 0x82,
        m => (if m < 15 { m as u8 } else { 15 }) + 0xc0,
    }
}

/// The sum of the neighbour levels right, below and diagonally below right of
/// the current position, in a level map with the given row stride.
pub fn get_hi_mag(level: &[u8], stride: usize) -> (r: u32)
    requires
        stride + 1 < level@.len(),
    ensures
        r as int == level@[1] as int + level@[stride as int] as int + level@[stride + 1] as int,
{
    level[1] as u32 + level[stride] as u32 + level[stride + 1] as u32
}

/// The coefficient context that a block leaves for its neighbours: the
/// cumulative level with the sign class of its DC coefficient in the top bits.
pub fn coef_ctx_value(cul_level: u8, dc_sign_negative: bool, dc_is_zero: bool) -> (r: u8)
    requires
        cul_level < 0x40,
    ensures
        r as int == cul_level as int + (if dc_is_zero { 0x40int } else if dc_sign_negative { 0 } else { 0x80 }),
{
    let dc_sign_level: u8 = if dc_is_zero {
        0x40
    } else if dc_sign_negative {
        0x00
    } else {
        0x80
    };
    assert(cul_level | dc_sign_level == cul_level + dc_sign_level) by (bit_vector)
        requires
            cul_level < 0x40,
            dc_sign_level == 0 || dc_sign_level == 0x40 || dc_sign_level == 0x80,
    ;
    cul_level | dc_sign_level
}

/// The low-token context of a coefficient and the magnitude of its three
/// nearest neighbours: a position offset by row and column (capped at 4)
/// plus the rounded sum of the five neighbour levels over 128, at most 4.
pub fn get_lo_ctx(level: &[u8], stride: usize, x: usize, y: usize) -> (r: (usize, u32))
    requires
        2 * stride < level@.len(),
        stride >= 2,
    ensures
        ({
            let hi = level@[1] as int + level@[stride as int] as int + level@[stride + 1] as int;
            let full = hi + level@[2] as int + level@[2 * stride] as int;
            let xi = if x < 4 { x as int } else { 4 };
            let yi = if y < 4 { y as int } else { 4 };
            &&& r.1 as int == hi
            &&& r.0 as int == crate::scan::LO_CTX_OFFSETS_2D@[yi]@[xi] as int + (if full > 512 { 4 } else { (full + 64) / 128 })
        }),
{
    let mag = level[1] as u32 + level[stride] as u32;
    let hi_mag = mag + level[stride + 1] as u32;
    let full_mag = hi_mag + level[2] as u32 + level[2 * stride] as u32;
    let yi = if y < 4 { y } else { 4 };
    let xi = if x < 4 { x } else { 4 };
    let offset = crate::scan::LO_CTX_OFFSETS_2D[yi][xi] as usize;
    let mag_ctx = if full_mag > 512 { 4 } else { ((full_mag + 64) / 128) as usize };
    (offset + mag_ctx, hi_mag)
}

/// Quantizes one coefficient: its magnitude divided by `dq` with rounding, sign kept.
pub open spec fn quantize_spec(c: int, dq: int) -> int {
    if c < 0 { -((-c + dq / 2) / dq) } else { (c + dq / 2) / dq }
}

/// The quantizer step of position `i`: `dc_dq` for the first, `ac_dq` for the rest.
pub open spec fn step_for(i: int, dc_dq: u32, ac_dq: u32) -> int {
    if i == 0 { dc_dq as int } else { ac_dq as int }
}

/// Quantizes the first `n` coefficients.
pub fn quantize_coeffs(dct_coeffs: &[i32], n: usize, dc_dq: u32, ac_dq: u32) -> (r: Vec<i32>)
    requires
        n <= dct_coeffs@.len(),
        1 <= dc_dq <= 0x4000_0000,
        1 <= ac_dq <= 0x4000_0000,
        forall|i: int| 0 <= i < n ==> -0x4000_0000 <= #[trigger] dct_coeffs@[i] <= 0x4000_0000,
    ensures
        r@.len() == n,
        forall|i: int| 0 <= i < n ==> #[trigger] r@[i] as int == quantize_spec(dct_coeffs@[i] as int, step_for(i, dc_dq, ac_dq)),
{
    let mut quantized: Vec<i32> = Vec::new();
    let mut i: usize = 0;
    while i < n
        invariant
            i <= n,
            n <= dct_coeffs@.len(),
            1 <= dc_dq <= 0x4000_0000,
            1 <= ac_dq <= 0x4000_0000,
            forall|j: int| 0 <= j < n ==> -0x4000_0000 <= #[trigger] dct_coeffs@[j] <= 0x4000_0000,
            quantized@.len() == i,
            forall|j: int| 0 <= j < i ==> #[trigger] quantized@[j] as int == quantize_spec(dct_coeffs@[j] as int, step_for(j, dc_dq, ac_dq)),
        decreases n - i,
    {
        let dq = if i == 0 { dc_dq } else { ac_dq };
        let c = dct_coeffs[i];
        let abs_val: u32 = if c < 0 { (-c) as u32 } else { c as u32 };
        let tok = (abs_val + dq / 2) / dq;
        assert(tok <= 0x4000_0000) by (nonlinear_arith)
            requires
                tok == (abs_val + dq / 2) / (dq as int),
                abs_val <= 0x4000_0000,
                1 <= dq <= 0x4000_0000,
        ;
        quantized.push(if c < 0 { -(tok as i32) } else { tok as i32 });
        i += 1;
    }
    quantized
}

/// Dequantizes the first `n` coefficients: each multiplied by its step.
pub fn dequantize_coeffs(quantized: &[i32], n: usize, dc_dq: u32, ac_dq: u32) -> (r: Vec<i32>)
    requires
        n <= quantized@.len(),
        dc_dq <= 0x7fff_ffff,
        ac_dq <= 0x7fff_ffff,
        forall|i: int| 0 <= i < n ==> i32::MIN <= #[trigger] quantized@[i] * step_for(i, dc_dq, ac_dq) <= i32::MAX,
    ensures
        r@.len() == n,
        forall|i: int| 0 <= i < n ==> #[trigger] r@[i] as int == quantized@[i] * step_for(i, dc_dq, ac_dq),
{
    let mut out: Vec<i32> = Vec::new();
    let mut i: usize = 0;
    while i < n
        invariant
            i <= n,
            n <= quantized@.len(),
            dc_dq <= 0x7fff_ffff,
            ac_dq <= 0x7fff_ffff,
            forall|j: int| 0 <= j < n ==> i32::MIN <= #[trigger] quantized@[j] * step_for(j, dc_dq, ac_dq) <= i32::MAX,
            out@.len() == i,
            forall|j: int| 0 <= j < i ==> #[trigger] out@[j] as int == quantized@[j] * step_for(j, dc_dq, ac_dq),
        decreases n - i,
    {
        let dq = if i == 0 { dc_dq } else { ac_dq };
        assert(i32::MIN <= quantized@[i as int] * step_for(i as int, dc_dq, ac_dq) <= i32::MAX);
        out.push(quantized[i] * dq as i32);
        i += 1;
    }
    out
}

/// The probability of a split on the top edge, gathered from a partition CDF
/// in wrapping 16-bit arithmetic.
pub open spec fn top_partition_prob_spec(pc: Seq<u16>, bl: int) -> int {
    let base = (pc[1] as int - pc[4] as int + pc[5] as int) % 65536;
    if bl != 0 { (base + pc[8] as int - pc[7] as int) % 65536 } else { base }
}

/// The probability of a split on the left edge, gathered from a partition CDF
/// in wrapping 16-bit arithmetic.
pub open spec fn left_partition_prob_spec(pc: Seq<u16>, bl: int) -> int {
    let base = (pc[0] as int - pc[1] as int + pc[2] as int - pc[6] as int) % 65536;
    if bl != 0 { (base + pc[7] as int - pc[8] as int) % 65536 } else { base }
}

/// Gathers the top-edge split probability from a partition CDF.
pub fn gather_top_partition_prob(pc: &[u16], bl: usize) -> (r: u16)
    requires
        pc@.len() >= 9,
    ensures
        r as int == top_partition_prob_spec(pc@, bl as int),
{
    let a = pc[1];
    let b = pc[4];
    let c = pc[5];
    let mut out = a.wrapping_sub(b);
    out = out.wrapping_add(c);
    assert(out as int == (a as int - b as int + c as int) % 65536);
    if bl != 0 {
        let d = pc[8];
        let e = pc[7];
        let prev = out;
        out = out.wrapping_add(d.wrapping_sub(e));
        assert(out as int == (prev as int + d as int - e as int) % 65536);
    }
    out
}

/// Gathers the left-edge split probability from a partition CDF.
pub fn gather_left_partition_prob(pc: &[u16], bl: usize) -> (r: u16)
    requires
        pc@.len() >= 9,
    ensures
        r as int == left_partition_prob_spec(pc@, bl as int),
{
    let a = pc[0];
    let b = pc[1];
    let c = pc[2];
    let d = pc[6];
    let mut out = a.wrapping_sub(b);
    out = out.wrapping_add(c.wrapping_sub(d));
    assert(out as int == (a as int - b as int + c as int - d as int) % 65536);
    if bl != 0 {
        let e = pc[7];
        let f = pc[8];
        let prev = out;
        out = out.wrapping_add(e.wrapping_sub(f));
        assert(out as int == (prev as int + e as int - f as int) % 65536);
    }
    out
}

/// The sum of absolute differences over the first `n` pairs.
pub open spec fn sad_spec(a: Seq<u8>, b: Seq<u8>, n: int) -> int
    decreases n,
{
    if n <= 0 {
        0
    } else {
        sad_spec(a, b, n - 1) + (if a[n - 1] >= b[n - 1] { a[n - 1] - b[n - 1] } else { b[n - 1] - a[n - 1] })
    }
}

/// The sum of absolute differences of two blocks, over the shorter one.
pub fn compute_sad(source: &[u8], prediction: &[u8]) -> (r: u32)
    requires
        source@.len() <= 0x100_0000,
    ensures
        r as int == sad_spec(source@, prediction@, if source@.len() < prediction@.len() { source@.len() as int } else { prediction@.len() as int }),
{
    let n = if source.len() < prediction.len() { source.len() } else { prediction.len() };
    let mut sum: u32 = 0;
    let mut i: usize = 0;
    while i < n
        invariant
            i <= n,
            n <= source@.len(),
            n <= prediction@.len(),
            n <= 0x100_0000,
            sum as int == sad_spec(source@, prediction@, i as int),
            sum <= 255 * i,
        decreases n - i,
    {
        let a = source[i];
        let b = prediction[i];
        let d: u32 = if a >= b { (a - b) as u32 } else { (b - a) as u32 };
        sum = sum + d;
        i += 1;
    }
    sum
}

/// The sum of absolute differences of a source block and its prediction.
pub fn compute_block_sad(source: &[u8], predicted: &[u8]) -> (r: u32)
    requires
        source@.len() <= 0x100_0000,
    ensures
        r as int == sad_spec(source@, predicted@, if source@.len() < predicted@.len() { source@.len() as int } else { predicted@.len() as int }),
{
    compute_sad(source, predicted)
}

/// The sum of the first `n` entries.
pub open spec fn sum_spec(s: Seq<u8>, n: int) -> int
    decreases n,
{
    if n <= 0 { 0 } else { sum_spec(s, n - 1) + s[n - 1] }
}

proof fn lemma_sum_bound(s: Seq<u8>, n: int)
    requires
        0 <= n <= s.len(),
    ensures
        0 <= sum_spec(s, n) <= 255 * n,
    decreases n,
{
    if n > 0 {
        lemma_sum_bound(s, n - 1);
    }
}

/// Sums the first `n` entries.
fn sum_first(s: &[u8], n: usize) -> (r: u32)
    requires
        n <= s@.len(),
        n <= 0x10000,
    ensures
        r as int == sum_spec(s@, n as int),
{
    let mut sum: u32 = 0;
    let mut i: usize = 0;
    while i < n
        invariant
            i <= n,
            n <= s@.len(),
            n <= 0x10000,
            sum as int == sum_spec(s@, i as int),
        decreases n - i,
    {
        proof {
            lemma_sum_bound(s@, i as int);
        }
        sum = sum + s[i] as u32;
        i += 1;
    }
    sum
}

/// The DC prediction value: the rounded mean of the available edges, 128 with none.
pub open spec fn dc_value(above: Seq<u8>, left: Seq<u8>, have_above: bool, have_left: bool, w: int, h: int) -> int {
    if have_above && have_left {
        (sum_spec(above, w) + sum_spec(left, h) + (w + h) / 2) / (w + h)
    } else if have_above {
        (sum_spec(above, w) + w / 2) / w
    } else if have_left {
        (sum_spec(left, h) + h / 2) / h
    } else {
        128
    }
}

/// A `w * h` block of one value.
pub open spec fn flat_block(v: int, w: int, h: int) -> Seq<u8> {
    Seq::new((w * h) as nat, |i: int| v as u8)
}

/// DC prediction: a flat block at the mean of the available edges.
pub fn predict_dc(above: &[u8], left: &[u8], have_above: bool, have_left: bool, w: usize, h: usize) -> (r: Vec<u8>)
    requires
        1 <= w <= 4096,
        1 <= h <= 4096,
        have_above ==> above@.len() >= w,
        have_left ==> left@.len() >= h,
    ensures
        r@ == flat_block(dc_value(above@, left@, have_above, have_left, w as int, h as int), w as int, h as int),
        0 <= dc_value(above@, left@, have_above, have_left, w as int, h as int) <= 255,
{
    proof {
        lemma_sum_bound(above@, if have_above { w as int } else { 0 });
        lemma_sum_bound(left@, if have_left { h as int } else { 0 });
    }
    let val: u32 = if have_above && have_left {
        let sum = sum_first(above, w) + sum_first(left, h);
        let n = (w + h) as u32;
        assert((sum + n / 2) / (n as int) <= 255) by (nonlinear_arith)
            requires
                sum <= 255 * n,
                n >= 1,
        ;
        (sum + n / 2) / n
    } else if have_above {
        let n = w as u32;
        let sum = sum_first(above, w);
        assert((sum + n / 2) / (n as int) <= 255) by (nonlinear_arith)
            requires
                sum <= 255 * n,
                n >= 1,
        ;
        (sum + n / 2) / n
    } else if have_left {
        let n = h as u32;
        let sum = sum_first(left, h);
        assert((sum + n / 2) / (n as int) <= 255) by (nonlinear_arith)
            requires
                sum <= 255 * n,
                n >= 1,
        ;
        (sum + n / 2) / n
    } else {
        128
    };
    assert(w * h <= 0x100_0000) by (nonlinear_arith)
        requires
            1 <= w <= 4096,
            1 <= h <= 4096,
    ;
    let r = vec![val as u8; w * h];
    assert(r@ =~= flat_block(val as int, w as int, h as int));
    r
}

/// Vertical prediction: every row copies the row above.
pub fn predict_v(above: &[u8], w: usize, h: usize) -> (r: Vec<u8>)
    requires
        1 <= w,
        above@.len() >= w,
        w * h <= usize::MAX,
    ensures
        r@ == Seq::new((w * h) as nat, |i: int| above@[i % w as int]),
{
    let n = w * h;
    let mut out: Vec<u8> = Vec::new();
    let mut i: usize = 0;
    while i < n
        invariant
            i <= n,
            n == w * h,
            1 <= w,
            above@.len() >= w,
            out@.len() == i,
            forall|j: int| 0 <= j < i ==> #[trigger] out@[j] == above@[j % w as int],
        decreases n - i,
    {
        out.push(above[i % w]);
        i += 1;
    }
    assert(out@ =~= Seq::new((w * h) as nat, |i: int| above@[i % w as int]));
    out
}

/// Horizontal prediction: every column copies the column to the left.
pub fn predict_h(left: &[u8], w: usize, h: usize) -> (r: Vec<u8>)
    requires
        1 <= w,
        left@.len() >= h,
        w * h <= usize::MAX,
    ensures
        r@ == Seq::new((w * h) as nat, |i: int| left@[i / w as int]),
{
    let n = w * h;
    let mut out: Vec<u8> = Vec::new();
    let mut i: usize = 0;
    while i < n
        invariant
            i <= n,
            n == w * h,
            1 <= w,
            left@.len() >= h,
            out@.len() == i,
            forall|j: int| 0 <= j < i ==> #[trigger] out@[j] == left@[j / w as int],
        decreases n - i,
    {
        assert(i / w < h) by (nonlinear_arith)
            requires
                i < n,
                n == w * h,
                1 <= w,
        ;
        out.push(left[i / w]);
        i += 1;
    }
    assert(out@ =~= Seq::new((w * h) as nat, |i: int| left@[i / w as int]));
    out
}

/// The Paeth predictor: whichever of left, top and top-left is closest to
/// `left + top - top_left`, preferring left, then top.
pub open spec fn paeth_spec(top: int, left: int, tl: int) -> int {
    let base = left + top - tl;
    let pl = if base >= left { base - left } else { left - base };
    let pt = if base >= top { base - top } else { top - base };
    let ptl = if base >= tl { base - tl } else { tl - base };
    if pl <= pt && pl <= ptl { left } else if pt <= ptl { top } else { tl }
}


/// Paeth prediction picks, for every sample, the one of its left, top and
/// top-left neighbours nearest to `left + top - top_left`: no other is
/// strictly nearer, ties go to the left sample and then to the top one.
pub proof fn lemma_paeth_picks_nearest(above: Seq<u8>, left: Seq<u8>, top_left: u8, w: int, h: int, r: Seq<u8>)
    requires
        1 <= w,
        0 <= h,
        above.len() >= w,
        left.len() >= h,
        r == Seq::new((w * h) as nat, |i: int| paeth_spec(above[i % w] as int, left[i / w] as int, top_left as int) as u8),
    ensures
        forall|i: int| #![trigger r[i]] 0 <= i < w * h ==> {
            let t = above[i % w] as int;
            let l = left[i / w] as int;
            let c = top_left as int;
            let base = l + t - c;
            let d = |v: int| if v >= base { v - base } else { base - v };
            let p = r[i] as int;
            &&& p == l || p == t || p == c
            &&& d(p) <= d(l) && d(p) <= d(t) && d(p) <= d(c)
            &&& (d(l) <= d(t) && d(l) <= d(c) ==> p == l)
            &&& (d(t) < d(l) && d(t) <= d(c) ==> p == t)
        },
{
    assert forall|i: int| #![trigger r[i]] 0 <= i < w * h implies {
        let t = above[i % w] as int;
        let l = left[i / w] as int;
        let c = top_left as int;
        let base = l + t - c;
        let d = |v: int| if v >= base { v - base } else { base - v };
        let p = r[i] as int;
        &&& p == l || p == t || p == c
        &&& d(p) <= d(l) && d(p) <= d(t) && d(p) <= d(c)
        &&& (d(l) <= d(t) && d(l) <= d(c) ==> p == l)
        &&& (d(t) < d(l) && d(t) <= d(c) ==> p == t)
    } by {
        let t = above[i % w] as int;
        let l = left[i / w] as int;
        let c = top_left as int;
        let v = paeth_spec(t, l, c);
        assert(v == l || v == t || v == c);
        assert(0 <= v <= 255);
        assert(r[i] as int == v);
    }
}

/// Paeth prediction of a `w * h` block.
pub fn predict_paeth(above: &[u8], left: &[u8], top_left: u8, w: usize, h: usize) -> (r: Vec<u8>)
    requires
        1 <= w,
        above@.len() >= w,
        left@.len() >= h,
        w * h <= usize::MAX,
    ensures
        r@ == Seq::new((w * h) as nat, |i: int| paeth_spec(above@[i % w as int] as int, left@[i / w as int] as int, top_left as int) as u8),
{
    let n = w * h;
    let mut out: Vec<u8> = Vec::new();
    let tl = top_left as i32;
    let mut i: usize = 0;
    while i < n
        invariant
            i <= n,
            n == w * h,
            1 <= w,
            above@.len() >= w,
            left@.len() >= h,
            tl == top_left as i32,
            out@.len() == i,
            forall|j: int| 0 <= j < i ==> #[trigger] out@[j] == paeth_spec(above@[j % w as int] as int, left@[j / w as int] as int, top_left as int) as u8,
        decreases n - i,
    {
        assert(i / w < h) by (nonlinear_arith)
            requires
                i < n,
                n == w * h,
                1 <= w,
        ;
        let r = i / w;
        let c = i % w;
        let l = left[r] as i32;
        let t = above[c] as i32;
        let base = l + t - tl;
        let p_left = if base >= l { base - l } else { l - base };
        let p_top = if base >= t { base - t } else { t - base };
        let p_tl = if base >= tl { base - tl } else { tl - base };
        let v = if p_left <= p_top && p_left <= p_tl {
            left[r]
        } else if p_top <= p_tl {
            above[c]
        } else {
            top_left
        };
        out.push(v);
        i += 1;
    }
    assert(out@ =~= Seq::new((w * h) as nat, |i: int| paeth_spec(above@[i % w as int] as int, left@[i / w as int] as int, top_left as int) as u8));
    out
}

/// The smooth predictor at row `r`, column `c`: weighted averages toward the
/// bottom-left and top-right samples in both directions.
pub open spec fn smooth_spec(above: Seq<u8>, left: Seq<u8>, w: int, h: int, r: int, c: int) -> int {
    let wy = SM_WEIGHTS@[h + r] as int;
    let wx = SM_WEIGHTS@[w + c] as int;
    let pred = wy * above[c] + (256 - wy) * left[h - 1] + wx * left[r] + (256 - wx) * above[w - 1];
    (pred + 256) / 512
}

/// The vertical smooth predictor at row `r`, column `c`.
pub open spec fn smooth_v_spec(above: Seq<u8>, left: Seq<u8>, h: int, r: int, c: int) -> int {
    let wy = SM_WEIGHTS@[h + r] as int;
    (wy * above[c] + (256 - wy) * left[h - 1] + 128) / 256
}

/// The horizontal smooth predictor at row `r`, column `c`.
pub open spec fn smooth_h_spec(above: Seq<u8>, left: Seq<u8>, w: int, r: int, c: int) -> int {
    let wx = SM_WEIGHTS@[w + c] as int;
    (wx * left[r] + (256 - wx) * above[w - 1] + 128) / 256
}

proof fn lemma_sm_weights_bytes()
    ensures
        forall|k: int| 0 <= k < 128 ==> 0 <= #[trigger] SM_WEIGHTS@[k] <= 255,
{
}

proof fn lemma_weighted_pair(wt: i32, a: i32, b: i32)
    requires
        0 <= wt <= 256,
        0 <= a <= 255,
        0 <= b <= 255,
    ensures
        0 <= wt * a <= 65280,
        0 <= (256 - wt) * b <= 65280,
{
    assert(0 <= wt * a <= 65280) by (nonlinear_arith)
        requires
            0 <= wt <= 256,
            0 <= a <= 255,
    ;
    assert(0 <= (256 - wt) * b <= 65280) by (nonlinear_arith)
        requires
            0 <= wt <= 256,
            0 <= b <= 255,
    ;
}

/// Smooth prediction of a `w * h` block.
pub fn predict_smooth(above: &[u8], left: &[u8], w: usize, h: usize) -> (r: Vec<u8>)
    requires
        1 <= w <= 64,
        1 <= h <= 64,
        above@.len() >= w,
        left@.len() >= h,
    ensures
        r@ == Seq::new((w * h) as nat, |i: int| smooth_spec(above@, left@, w as int, h as int, i / w as int, i % w as int) as u8),
{
    assert(w * h <= 4096) by (nonlinear_arith)
        requires
            1 <= w <= 64,
            1 <= h <= 64,
    ;
    let n = w * h;
    let mut out: Vec<u8> = Vec::new();
    let right = above[w - 1] as i32;
    let bottom = left[h - 1] as i32;
    let mut i: usize = 0;
    while i < n
        invariant
            i <= n,
            n == w * h,
            1 <= w <= 64,
            1 <= h <= 64,
            above@.len() >= w,
            left@.len() >= h,
            right == above@[w - 1] as i32,
            bottom == left@[h - 1] as i32,
            out@.len() == i,
            forall|j: int| 0 <= j < i ==> #[trigger] out@[j] == smooth_spec(above@, left@, w as int, h as int, j / w as int, j % w as int) as u8,
        decreases n - i,
    {
        assert(i / w < h) by (nonlinear_arith)
            requires
                i < n,
                n == w * h,
                1 <= w,
        ;
        let r = i / w;
        let c = i % w;
        let wy = SM_WEIGHTS[h + r] as i32;
        let wx = SM_WEIGHTS[w + c] as i32;
        proof {
            lemma_sm_weights_bytes();
            lemma_weighted_pair(wy, above[c as int] as i32, bottom);
            lemma_weighted_pair(wx, left[r as int] as i32, right);
        }
        let pred = wy * above[c] as i32 + (256 - wy) * bottom + wx * left[r] as i32 + (256 - wx) * right;
        out.push(((pred + 256) >> 9u32) as u8);
        i += 1;
    }
    assert(out@ =~= Seq::new((w * h) as nat, |i: int| smooth_spec(above@, left@, w as int, h as int, i / w as int, i % w as int) as u8));
    out
}

/// Vertical smooth prediction of a `w * h` block.
pub fn predict_smooth_v(above: &[u8], left: &[u8], w: usize, h: usize) -> (r: Vec<u8>)
    requires
        1 <= w <= 64,
        1 <= h <= 64,
        above@.len() >= w,
        left@.len() >= h,
    ensures
        r@ == Seq::new((w * h) as nat, |i: int| smooth_v_spec(above@, left@, h as int, i / w as int, i % w as int) as u8),
{
    assert(w * h <= 4096) by (nonlinear_arith)
        requires
            1 <= w <= 64,
            1 <= h <= 64,
    ;
    let n = w * h;
    let mut out: Vec<u8> = Vec::new();
    let bottom = left[h - 1] as i32;
    let mut i: usize = 0;
    while i < n
        invariant
            i <= n,
            n == w * h,
            1 <= w <= 64,
            1 <= h <= 64,
            above@.len() >= w,
            left@.len() >= h,
            bottom == left@[h - 1] as i32,
            out@.len() == i,
            forall|j: int| 0 <= j < i ==> #[trigger] out@[j] == smooth_v_spec(above@, left@, h as int, j / w as int, j % w as int) as u8,
        decreases n - i,
    {
        assert(i / w < h) by (nonlinear_arith)
            requires
                i < n,
                n == w * h,
                1 <= w,
        ;
        let r = i / w;
        let c = i % w;
        let wy = SM_WEIGHTS[h + r] as i32;
        proof {
            lemma_sm_weights_bytes();
            lemma_weighted_pair(wy, above[c as int] as i32, bottom);
        }
        let pred = wy * above[c] as i32 + (256 - wy) * bottom;
        out.push(((pred + 128) >> 8u32) as u8);
        i += 1;
    }
    assert(out@ =~= Seq::new((w * h) as nat, |i: int| smooth_v_spec(above@, left@, h as int, i / w as int, i % w as int) as u8));
    out
}

/// Horizontal smooth prediction of a `w * h` block.
pub fn predict_smooth_h(above: &[u8], left: &[u8], w: usize, h: usize) -> (r: Vec<u8>)
    requires
        1 <= w <= 64,
        1 <= h <= 64,
        above@.len() >= w,
        left@.len() >= h,
    ensures
        r@ == Seq::new((w * h) as nat, |i: int| smooth_h_spec(above@, left@, w as int, i / w as int, i % w as int) as u8),
{
    assert(w * h <= 4096) by (nonlinear_arith)
        requires
            1 <= w <= 64,
            1 <= h <= 64,
    ;
    let n = w * h;
    let mut out: Vec<u8> = Vec::new();
    let right = above[w - 1] as i32;
    let mut i: usize = 0;
    while i < n
        invariant
            i <= n,
            n == w * h,
            1 <= w <= 64,
            1 <= h <= 64,
            above@.len() >= w,
            left@.len() >= h,
            right == above@[w - 1] as i32,
            out@.len() == i,
            forall|j: int| 0 <= j < i ==> #[trigger] out@[j] == smooth_h_spec(above@, left@, w as int, j / w as int, j % w as int) as u8,
        decreases n - i,
    {
        assert(i / w < h) by (nonlinear_arith)
            requires
                i < n,
                n == w * h,
                1 <= w,
        ;
        let r = i / w;
        let c = i % w;
        let wx = SM_WEIGHTS[w + c] as i32;
        proof {
            lemma_sm_weights_bytes();
            lemma_weighted_pair(wx, left[r as int] as i32, right);
        }
        let pred = wx * left[r] as i32 + (256 - wx) * right;
        out.push(((pred + 128) >> 8u32) as u8);
        i += 1;
    }
    assert(out@ =~= Seq::new((w * h) as nat, |i: int| smooth_h_spec(above@, left@, w as int, i / w as int, i % w as int) as u8));
    out
}

/// `s` with the entries `start..start + n` that exist set to `v`.
pub open spec fn filled<T>(s: Seq<T>, start: int, n: int, v: T) -> Seq<T> {
    Seq::new(s.len(), |j: int| if start <= j < start + n { v } else { s[j] })
}

/// Sets the entries `start..start + n` of `s` that exist to `v`.
fn fill_range<T: Copy>(s: &mut [T], start: usize, n: usize, v: T)
    ensures
        final(s)@ == filled(old(s)@, start as int, n as int, v),
{
    let ghost orig = s@;
    if start >= s.len() {
        assert(s@ =~= filled(orig, start as int, n as int, v));
        return;
    }
    let len = s.len();
    let room = len - start;
    let m = if n < room { n } else { room };
    let mut i: usize = 0;
    while i < m
        invariant
            len == s@.len(),
            i <= m,
            m <= n,
            start + m <= s@.len(),
            s@.len() == orig.len(),
            forall|j: int| 0 <= j < s@.len() ==> #[trigger] s@[j] == (if start <= j < start + i { v } else { orig[j] }),
        decreases m - i,
    {
        assert(start + i < s@.len());
        s[start + i] = v;
        i += 1;
    }
    assert(s@ =~= filled(orig, start as int, n as int, v));
}

/// `s` with the entries from `start` replaced by `src`, as far as `s` and
/// the `room` entries allowed reach.
pub open spec fn copied(s: Seq<u8>, start: int, src: Seq<u8>, room: int) -> Seq<u8> {
    Seq::new(s.len(), |j: int| if start <= j < start + src.len() && j - start < room { src[j - start] } else { s[j] })
}

/// Copies the first `n` entries of `src` into `s` from `start`, as far as
/// `s` and the `room` entries allowed reach.
fn copy_range(s: &mut [u8], start: usize, src: &[u8], n: usize, room: usize)
    requires
        n <= src@.len(),
    ensures
        final(s)@ == copied(old(s)@, start as int, src@.subrange(0, n as int), room as int),
{
    let ghost orig = s@;
    let len = s.len();
    let mut i: usize = 0;
    while i < n
        invariant
            len == s@.len(),
            i <= n,
            n <= src@.len(),
            s@.len() == orig.len(),
            forall|j: int| 0 <= j < s@.len() ==> #[trigger] s@[j] == (if start <= j < start + i && j - start < room { src@[j - start] } else { orig[j] }),
        decreases n - i,
    {
        if start < len && i < len - start && i < room {
            s[start + i] = src[i];
        }
        i += 1;
    }
    assert(s@ =~= copied(orig, start as int, src@.subrange(0, n as int), room as int));
}

/// How many entries fit between `pos` and `limit`.
fn room_before(pos: usize, limit: usize) -> (r: usize)
    ensures
        r as int == (if pos < limit { limit - pos } else { 0 }),
{
    if pos < limit { limit - pos } else { 0 }
}

/// Bit `k` of `v`.
pub open spec fn bit(v: u8, k: int) -> int {
    (v as int / vstd::arithmetic::power2::pow2(k as nat) as int) % 2
}

/// The lower five bits of a row position: its row inside a 128-pixel superblock, in 4x4 units.
pub open spec fn in_sb(by: u32) -> int {
    by as int % 32
}

/// `x & 31` is `x % 32`.
pub broadcast proof fn lemma_low5(x: u32)
    ensures
        #[trigger] (x & 31) == x % 32,
{
    assert((x & 31) == x % 32) by (bit_vector);
}

/// `x & 15` is `x % 16`.
pub broadcast proof fn lemma_low4(x: u32)
    ensures
        #[trigger] (x & 15) == x % 16,
{
    assert((x & 15) == x % 16) by (bit_vector);
}

/// Neighbour state of the block being coded: what lies above along the
/// whole tile width and what lies to the left within the current
/// superblock row, in 4x4 (or 8x8 for partitions) units.
pub struct TileContext {
    pub above_partition: Vec<u8>,
    pub above_skip: Vec<u8>,
    pub left_partition: [u8; 16],
    pub left_skip: [u8; 32],
    pub above_recon_y: Vec<u8>,
    pub above_recon_u: Vec<u8>,
    pub above_recon_v: Vec<u8>,
    pub left_recon_y: [u8; 64],
    pub left_recon_u: [u8; 32],
    pub left_recon_v: [u8; 32],
    pub above_lcoef: Vec<u8>,
    pub left_lcoef: [u8; 32],
    pub above_ccoef_u: Vec<u8>,
    pub above_ccoef_v: Vec<u8>,
    pub left_ccoef_u: [u8; 16],
    pub left_ccoef_v: [u8; 16],
    pub above_intra: Vec<bool>,
    pub left_intra: [bool; 32],
    pub above_mode: Vec<u8>,
    pub left_mode: [u8; 32],
    pub above_newmv: Vec<bool>,
    pub left_newmv: [bool; 32],
}

/// A sequence of `n` copies of `v`.
pub open spec fn repeat<T>(v: T, n: int) -> Seq<T> {
    Seq::new(n as nat, |i: int| v)
}

/// How many entries of a left context a block of level `bl` covers, in 4x4 units.
pub open spec fn span4(bl: int) -> int {
    2 * half_span_spec(bl)
}

/// `16 >> bl`: how many 8x8 units a block of level `bl` spans.
pub open spec fn half_span_spec(bl: int) -> int {
    if bl == 0 { 16 } else if bl == 1 { 8 } else if bl == 2 { 4 } else if bl == 3 { 2 } else { 1 }
}

/// `16 >> bl` for a block level.
fn half_span(bl: usize) -> (r: usize)
    requires
        bl <= 4,
    ensures
        r as int == half_span_spec(bl as int),
        1 <= r <= 16,
{
    if bl == 0 { 16 } else if bl == 1 { 8 } else if bl == 2 { 4 } else if bl == 3 { 2 } else { 1 }
}

/// `c` is the context of a fresh tile `mi_cols` units wide: neutral edges,
/// coefficient contexts, modes and flags everywhere.
pub open spec fn fresh_context(c: TileContext, mi_cols: u32) -> bool {
    &&& c.above_partition@ == repeat(0u8, mi_cols / 2 + 16)
    &&& c.above_skip@ == repeat(0u8, mi_cols + 32)
    &&& c.left_partition@ == repeat(0u8, 16)
    &&& c.left_skip@ == repeat(0u8, 32)
    &&& c.above_recon_y@ == repeat(128u8, mi_cols * 4 + 32)
    &&& c.above_recon_u@ == repeat(128u8, mi_cols * 2 + 16)
    &&& c.above_recon_v@ == repeat(128u8, mi_cols * 2 + 16)
    &&& c.left_recon_y@ == repeat(128u8, 64)
    &&& c.left_recon_u@ == repeat(128u8, 32)
    &&& c.left_recon_v@ == repeat(128u8, 32)
    &&& c.above_lcoef@ == repeat(0x40u8, mi_cols + 32)
    &&& c.left_lcoef@ == repeat(0x40u8, 32)
    &&& c.above_ccoef_u@ == repeat(0x40u8, mi_cols / 2 + 16)
    &&& c.above_ccoef_v@ == repeat(0x40u8, mi_cols / 2 + 16)
    &&& c.left_ccoef_u@ == repeat(0x40u8, 16)
    &&& c.left_ccoef_v@ == repeat(0x40u8, 16)
    &&& c.above_intra@ == repeat(false, mi_cols + 32)
    &&& c.left_intra@ == repeat(false, 32)
    &&& c.above_mode@ == repeat(0u8, mi_cols + 32)
    &&& c.left_mode@ == repeat(0u8, 32)
    &&& c.above_newmv@ == repeat(false, mi_cols + 32)
    &&& c.left_newmv@ == repeat(false, 32)
}

/// `c1` is `c0` with its left context cleared for a new superblock row.
pub open spec fn left_reset(c0: TileContext, c1: TileContext) -> bool {
    &&& c1.left_partition@ == repeat(0u8, 16)
    &&& c1.left_skip@ == repeat(0u8, 32)
    &&& c1.left_recon_y@ == repeat(128u8, 64)
    &&& c1.left_recon_u@ == repeat(128u8, 32)
    &&& c1.left_recon_v@ == repeat(128u8, 32)
    &&& c1.left_lcoef@ == repeat(0x40u8, 32)
    &&& c1.left_ccoef_u@ == repeat(0x40u8, 16)
    &&& c1.left_ccoef_v@ == repeat(0x40u8, 16)
    &&& c1.left_intra@ == repeat(false, 32)
    &&& c1.left_mode@ == repeat(0u8, 32)
    &&& c1.left_newmv@ == repeat(false, 32)
    &&& c1.above_partition == c0.above_partition
    &&& c1.above_skip == c0.above_skip
    &&& c1.above_recon_y == c0.above_recon_y
    &&& c1.above_recon_u == c0.above_recon_u
    &&& c1.above_recon_v == c0.above_recon_v
    &&& c1.above_lcoef == c0.above_lcoef
    &&& c1.above_ccoef_u == c0.above_ccoef_u
    &&& c1.above_ccoef_v == c0.above_ccoef_v
    &&& c1.above_intra == c0.above_intra
    &&& c1.above_mode == c0.above_mode
    &&& c1.above_newmv == c0.above_newmv
}

impl TileContext {
    /// A fresh context for a tile `mi_cols` 4x4 units wide: no partitions,
    /// no skips, mid-grey reconstruction, empty coefficient contexts,
    /// intra and non-NEWMV neighbours.
    pub fn new(mi_cols: u32) -> (r: TileContext)
        requires
            mi_cols <= 0x0fff_ffff,
        ensures
            r.above_partition@ == repeat(0u8, mi_cols / 2 + 16),
            r.above_skip@ == repeat(0u8, mi_cols + 32),
            r.left_partition@ == repeat(0u8, 16),
            r.left_skip@ == repeat(0u8, 32),
            r.above_recon_y@ == repeat(128u8, mi_cols * 4 + 32),
            r.above_recon_u@ == repeat(128u8, mi_cols * 2 + 16),
            r.above_recon_v@ == repeat(128u8, mi_cols * 2 + 16),
            r.left_recon_y@ == repeat(128u8, 64),
            r.left_recon_u@ == repeat(128u8, 32),
            r.left_recon_v@ == repeat(128u8, 32),
            r.above_lcoef@ == repeat(0x40u8, mi_cols + 32),
            r.left_lcoef@ == repeat(0x40u8, 32),
            r.above_ccoef_u@ == repeat(0x40u8, mi_cols / 2 + 16),
            r.above_ccoef_v@ == repeat(0x40u8, mi_cols / 2 + 16),
            r.left_ccoef_u@ == repeat(0x40u8, 16),
            r.left_ccoef_v@ == repeat(0x40u8, 16),
            r.above_intra@ == repeat(false, mi_cols + 32),
            r.left_intra@ == repeat(false, 32),
            r.above_mode@ == repeat(0u8, mi_cols + 32),
            r.left_mode@ == repeat(0u8, 32),
            r.above_newmv@ == repeat(false, mi_cols + 32),
            r.left_newmv@ == repeat(false, 32),
    {
        let mc = mi_cols as usize;
        let above_part_size = mc / 2 + 16;
        let above_skip_size = mc + 32;
        let above_recon_y_size = mc * 4 + 32;
        let above_recon_uv_size = mc * 2 + 16;
        let above_coef_size = mc + 32;
        let above_ccoef_size = mc / 2 + 16;
        let above_inter_size = mc + 32;
        let r = TileContext {
            above_partition: vec![0u8; above_part_size],
            above_skip: vec![0u8; above_skip_size],
            left_partition: [0u8; 16],
            left_skip: [0u8; 32],
            above_recon_y: vec![128u8; above_recon_y_size],
            above_recon_u: vec![128u8; above_recon_uv_size],
            above_recon_v: vec![128u8; above_recon_uv_size],
            left_recon_y: [128u8; 64],
            left_recon_u: [128u8; 32],
            left_recon_v: [128u8; 32],
            above_lcoef: vec![0x40u8; above_coef_size],
            left_lcoef: [0x40u8; 32],
            above_ccoef_u: vec![0x40u8; above_ccoef_size],
            above_ccoef_v: vec![0x40u8; above_ccoef_size],
            left_ccoef_u: [0x40u8; 16],
            left_ccoef_v: [0x40u8; 16],
            above_intra: vec![false; above_inter_size],
            left_intra: [false; 32],
            above_mode: vec![0u8; mc + 32],
            left_mode: [0u8; 32],
            above_newmv: vec![false; above_inter_size],
            left_newmv: [false; 32],
        };
        assert(r.above_partition@ =~= repeat(0u8, mi_cols / 2 + 16));
        assert(r.above_skip@ =~= repeat(0u8, mi_cols + 32));
        assert(r.left_partition@ =~= repeat(0u8, 16));
        assert(r.left_skip@ =~= repeat(0u8, 32));
        assert(r.above_recon_y@ =~= repeat(128u8, mi_cols * 4 + 32));
        assert(r.above_recon_u@ =~= repeat(128u8, mi_cols * 2 + 16));
        assert(r.above_recon_v@ =~= repeat(128u8, mi_cols * 2 + 16));
        assert(r.left_recon_y@ =~= repeat(128u8, 64));
        assert(r.left_recon_u@ =~= repeat(128u8, 32));
        assert(r.left_recon_v@ =~= repeat(128u8, 32));
        assert(r.above_lcoef@ =~= repeat(0x40u8, mi_cols + 32));
        assert(r.left_lcoef@ =~= repeat(0x40u8, 32));
        assert(r.above_ccoef_u@ =~= repeat(0x40u8, mi_cols / 2 + 16));
        assert(r.above_ccoef_v@ =~= repeat(0x40u8, mi_cols / 2 + 16));
        assert(r.left_ccoef_u@ =~= repeat(0x40u8, 16));
        assert(r.left_ccoef_v@ =~= repeat(0x40u8, 16));
        assert(r.above_intra@ =~= repeat(false, mi_cols + 32));
        assert(r.left_intra@ =~= repeat(false, 32));
        assert(r.above_mode@ =~= repeat(0u8, mi_cols + 32));
        assert(r.left_mode@ =~= repeat(0u8, 32));
        assert(r.above_newmv@ =~= repeat(false, mi_cols + 32));
        assert(r.left_newmv@ =~= repeat(false, 32));
        r
    }

    /// Clears the left context at the start of a superblock row.
    pub fn reset_left_for_sb_row(&mut self)
        ensures
            final(self).left_partition@ == repeat(0u8, 16),
            final(self).left_skip@ == repeat(0u8, 32),
            final(self).left_recon_y@ == repeat(128u8, 64),
            final(self).left_recon_u@ == repeat(128u8, 32),
            final(self).left_recon_v@ == repeat(128u8, 32),
            final(self).left_lcoef@ == repeat(0x40u8, 32),
            final(self).left_ccoef_u@ == repeat(0x40u8, 16),
            final(self).left_ccoef_v@ == repeat(0x40u8, 16),
            final(self).left_intra@ == repeat(false, 32),
            final(self).left_mode@ == repeat(0u8, 32),
            final(self).left_newmv@ == repeat(false, 32),
            final(self).above_partition == old(self).above_partition,
            final(self).above_skip == old(self).above_skip,
            final(self).above_recon_y == old(self).above_recon_y,
            final(self).above_recon_u == old(self).above_recon_u,
            final(self).above_recon_v == old(self).above_recon_v,
            final(self).above_lcoef == old(self).above_lcoef,
            final(self).above_ccoef_u == old(self).above_ccoef_u,
            final(self).above_ccoef_v == old(self).above_ccoef_v,
            final(self).above_intra == old(self).above_intra,
            final(self).above_mode == old(self).above_mode,
            final(self).above_newmv == old(self).above_newmv,
    {
        self.left_partition = [0u8; 16];
        self.left_skip = [0u8; 32];
        self.left_recon_y = [128u8; 64];
        self.left_recon_u = [128u8; 32];
        self.left_recon_v = [128u8; 32];
        self.left_lcoef = [0x40u8; 32];
        self.left_ccoef_u = [0x40u8; 16];
        self.left_ccoef_v = [0x40u8; 16];
        self.left_intra = [false; 32];
        self.left_mode = [0u8; 32];
        self.left_newmv = [false; 32];
        assert(self.left_partition@ =~= repeat(0u8, 16));
        assert(self.left_skip@ =~= repeat(0u8, 32));
        assert(self.left_recon_y@ =~= repeat(128u8, 64));
        assert(self.left_recon_u@ =~= repeat(128u8, 32));
        assert(self.left_recon_v@ =~= repeat(128u8, 32));
        assert(self.left_lcoef@ =~= repeat(0x40u8, 32));
        assert(self.left_ccoef_u@ =~= repeat(0x40u8, 16));
        assert(self.left_ccoef_v@ =~= repeat(0x40u8, 16));
        assert(self.left_intra@ =~= repeat(false, 32));
        assert(self.left_mode@ =~= repeat(0u8, 32));
        assert(self.left_newmv@ =~= repeat(false, 32));
    }

    /// The partition context of a block: whether the block above and the
    /// block to the left were split at this level, as bits 0 and 1.
    pub fn partition_ctx(&self, bx: u32, by: u32, bl: usize) -> (r: usize)
        requires
            (bx / 2) < self.above_partition@.len(),
            bl <= 4,
        ensures
            r as int == bit(self.above_partition@[(bx / 2) as int], 4 - bl) + 2 * bit(self.left_partition@[in_sb(by) / 2], 4 - bl),
    {
        proof {
            lemma_low5(by);
        }
        let bx8 = (bx / 2) as usize;
        let by8 = ((by & 31) / 2) as usize;
        let amount = (4 - bl) as u8;
        let a = self.above_partition[bx8] >> amount;
        let l = self.left_partition[by8] >> amount;
        proof {
            vstd::bits::lemma_u8_shr_is_div(self.above_partition@[bx8 as int], amount);
            vstd::bits::lemma_u8_shr_is_div(self.left_partition@[by8 as int], amount);
            lemma_low5(by);
        }
        ((a % 2) as usize) + 2 * ((l % 2) as usize)
    }

    /// The skip context of a block: how many of its top and left neighbours were skipped.
    pub fn skip_ctx(&self, bx: u32, by: u32) -> (r: usize)
        requires
            bx < self.above_skip@.len(),
        ensures
            r as int == self.above_skip@[bx as int] as int + self.left_skip@[in_sb(by)] as int,
    {
        proof {
            lemma_low5(by);
        }
        self.above_skip[bx as usize] as usize + self.left_skip[(by & 31) as usize] as usize
    }
}
/// Every field of the context but the partition ones is the same in `a` and `b`.
pub open spec fn same_but_partition(a: TileContext, b: TileContext) -> bool {
    &&& a.above_skip == b.above_skip
    &&& a.left_skip == b.left_skip
    &&& a.above_recon_y == b.above_recon_y
    &&& a.above_recon_u == b.above_recon_u
    &&& a.above_recon_v == b.above_recon_v
    &&& a.left_recon_y == b.left_recon_y
    &&& a.left_recon_u == b.left_recon_u
    &&& a.left_recon_v == b.left_recon_v
    &&& a.above_lcoef == b.above_lcoef
    &&& a.left_lcoef == b.left_lcoef
    &&& a.above_ccoef_u == b.above_ccoef_u
    &&& a.above_ccoef_v == b.above_ccoef_v
    &&& a.left_ccoef_u == b.left_ccoef_u
    &&& a.left_ccoef_v == b.left_ccoef_v
    &&& a.above_intra == b.above_intra
    &&& a.left_intra == b.left_intra
    &&& a.above_mode == b.above_mode
    &&& a.left_mode == b.left_mode
    &&& a.above_newmv == b.above_newmv
    &&& a.left_newmv == b.left_newmv
}

/// Every field of the context but the skip ones is the same in `a` and `b`.
pub open spec fn same_but_skip(a: TileContext, b: TileContext) -> bool {
    &&& a.above_partition == b.above_partition
    &&& a.left_partition == b.left_partition
    &&& a.above_recon_y == b.above_recon_y
    &&& a.above_recon_u == b.above_recon_u
    &&& a.above_recon_v == b.above_recon_v
    &&& a.left_recon_y == b.left_recon_y
    &&& a.left_recon_u == b.left_recon_u
    &&& a.left_recon_v == b.left_recon_v
    &&& a.above_lcoef == b.above_lcoef
    &&& a.left_lcoef == b.left_lcoef
    &&& a.above_ccoef_u == b.above_ccoef_u
    &&& a.above_ccoef_v == b.above_ccoef_v
    &&& a.left_ccoef_u == b.left_ccoef_u
    &&& a.left_ccoef_v == b.left_ccoef_v
    &&& a.above_intra == b.above_intra
    &&& a.left_intra == b.left_intra
    &&& a.above_mode == b.above_mode
    &&& a.left_mode == b.left_mode
    &&& a.above_newmv == b.above_newmv
    &&& a.left_newmv == b.left_newmv
}

/// Every field of the context but the coef ones is the same in `a` and `b`.
pub open spec fn same_but_coef(a: TileContext, b: TileContext) -> bool {
    &&& a.above_partition == b.above_partition
    &&& a.above_skip == b.above_skip
    &&& a.left_partition == b.left_partition
    &&& a.left_skip == b.left_skip
    &&& a.above_recon_y == b.above_recon_y
    &&& a.above_recon_u == b.above_recon_u
    &&& a.above_recon_v == b.above_recon_v
    &&& a.left_recon_y == b.left_recon_y
    &&& a.left_recon_u == b.left_recon_u
    &&& a.left_recon_v == b.left_recon_v
    &&& a.above_intra == b.above_intra
    &&& a.left_intra == b.left_intra
    &&& a.above_mode == b.above_mode
    &&& a.left_mode == b.left_mode
    &&& a.above_newmv == b.above_newmv
    &&& a.left_newmv == b.left_newmv
}

/// Every field of the context but the recon ones is the same in `a` and `b`.
pub open spec fn same_but_recon(a: TileContext, b: TileContext) -> bool {
    &&& a.above_partition == b.above_partition
    &&& a.above_skip == b.above_skip
    &&& a.left_partition == b.left_partition
    &&& a.left_skip == b.left_skip
    &&& a.above_lcoef == b.above_lcoef
    &&& a.left_lcoef == b.left_lcoef
    &&& a.above_ccoef_u == b.above_ccoef_u
    &&& a.above_ccoef_v == b.above_ccoef_v
    &&& a.left_ccoef_u == b.left_ccoef_u
    &&& a.left_ccoef_v == b.left_ccoef_v
    &&& a.above_intra == b.above_intra
    &&& a.left_intra == b.left_intra
    &&& a.above_mode == b.above_mode
    &&& a.left_mode == b.left_mode
    &&& a.above_newmv == b.above_newmv
    &&& a.left_newmv == b.left_newmv
}

/// Every field of the context but the intra ones is the same in `a` and `b`.
pub open spec fn same_but_intra(a: TileContext, b: TileContext) -> bool {
    &&& a.above_partition == b.above_partition
    &&& a.above_skip == b.above_skip
    &&& a.left_partition == b.left_partition
    &&& a.left_skip == b.left_skip
    &&& a.above_recon_y == b.above_recon_y
    &&& a.above_recon_u == b.above_recon_u
    &&& a.above_recon_v == b.above_recon_v
    &&& a.left_recon_y == b.left_recon_y
    &&& a.left_recon_u == b.left_recon_u
    &&& a.left_recon_v == b.left_recon_v
    &&& a.above_lcoef == b.above_lcoef
    &&& a.left_lcoef == b.left_lcoef
    &&& a.above_ccoef_u == b.above_ccoef_u
    &&& a.above_ccoef_v == b.above_ccoef_v
    &&& a.left_ccoef_u == b.left_ccoef_u
    &&& a.left_ccoef_v == b.left_ccoef_v
    &&& a.above_mode == b.above_mode
    &&& a.left_mode == b.left_mode
    &&& a.above_newmv == b.above_newmv
    &&& a.left_newmv == b.left_newmv
}

/// Every field of the context but the newmv ones is the same in `a` and `b`.
pub open spec fn same_but_newmv(a: TileContext, b: TileContext) -> bool {
    &&& a.above_partition == b.above_partition
    &&& a.above_skip == b.above_skip
    &&& a.left_partition == b.left_partition
    &&& a.left_skip == b.left_skip
    &&& a.above_recon_y == b.above_recon_y
    &&& a.above_recon_u == b.above_recon_u
    &&& a.above_recon_v == b.above_recon_v
    &&& a.left_recon_y == b.left_recon_y
    &&& a.left_recon_u == b.left_recon_u
    &&& a.left_recon_v == b.left_recon_v
    &&& a.above_lcoef == b.above_lcoef
    &&& a.left_lcoef == b.left_lcoef
    &&& a.above_ccoef_u == b.above_ccoef_u
    &&& a.above_ccoef_v == b.above_ccoef_v
    &&& a.left_ccoef_u == b.left_ccoef_u
    &&& a.left_ccoef_v == b.left_ccoef_v
    &&& a.above_intra == b.above_intra
    &&& a.left_intra == b.left_intra
    &&& a.above_mode == b.above_mode
    &&& a.left_mode == b.left_mode
}

/// Every field of the context but the mode ones is the same in `a` and `b`.
pub open spec fn same_but_mode(a: TileContext, b: TileContext) -> bool {
    &&& a.above_partition == b.above_partition
    &&& a.above_skip == b.above_skip
    &&& a.left_partition == b.left_partition
    &&& a.left_skip == b.left_skip
    &&& a.above_recon_y == b.above_recon_y
    &&& a.above_recon_u == b.above_recon_u
    &&& a.above_recon_v == b.above_recon_v
    &&& a.left_recon_y == b.left_recon_y
    &&& a.left_recon_u == b.left_recon_u
    &&& a.left_recon_v == b.left_recon_v
    &&& a.above_lcoef == b.above_lcoef
    &&& a.left_lcoef == b.left_lcoef
    &&& a.above_ccoef_u == b.above_ccoef_u
    &&& a.above_ccoef_v == b.above_ccoef_v
    &&& a.left_ccoef_u == b.left_ccoef_u
    &&& a.left_ccoef_v == b.left_ccoef_v
    &&& a.above_intra == b.above_intra
    &&& a.left_intra == b.left_intra
    &&& a.above_newmv == b.above_newmv
    &&& a.left_newmv == b.left_newmv
}


/// How many units from `bx` fit before `mi_cols`, capped at `cap`.
pub open spec fn run_len(cap: int, avail: int) -> int {
    if cap < avail { cap } else { avail }
}

impl TileContext {
    /// Records a block of level `bl` at `(bx, by)` as not split, in both partition contexts.
    pub fn update_partition_ctx(&mut self, bx: u32, by: u32, bl: usize, mi_cols: u32, mi_rows: u32)
        requires
            bx <= mi_cols,
            by <= mi_rows,
            bl <= 4,
        ensures
            final(self).above_partition@ == filled(old(self).above_partition@, (bx / 2) as int, run_len(half_span_spec(bl as int), half_up((mi_cols - bx) as int)), PARTITION_CTX_NONE@[bl as int]),
            final(self).left_partition@ == filled(old(self).left_partition@, in_sb(by) / 2, run_len(half_span_spec(bl as int), half_up((mi_rows - by) as int)), PARTITION_CTX_NONE@[bl as int]),
            same_but_partition(*old(self), *final(self)),
    {
        proof {
            lemma_low5(by);
        }
        let bx8 = (bx / 2) as usize;
        let by8 = ((by & 31) / 2) as usize;
        let hsz = half_span(bl);
        let ac = crate::y4m::div_ceil2(mi_cols - bx) as usize;
        let lc = crate::y4m::div_ceil2(mi_rows - by) as usize;
        let aw = if hsz < ac { hsz } else { ac };
        let lh = if hsz < lc { hsz } else { lc };
        let val = PARTITION_CTX_NONE[bl];
        fill_range(self.above_partition.as_mut_slice(), bx8, aw, val);
        fill_range(&mut self.left_partition, by8, lh, val);
    }

    /// Records whether the block of level `bl` at `(bx, by)` was skipped.
    pub fn update_skip_ctx(&mut self, bx: u32, by: u32, bl: usize, mi_cols: u32, mi_rows: u32, is_skip: bool)
        requires
            bx <= mi_cols,
            by <= mi_rows,
            bl <= 4,
        ensures
            final(self).above_skip@ == filled(old(self).above_skip@, bx as int, run_len(span4(bl as int), (mi_cols - bx) as int), if is_skip { 1u8 } else { 0u8 }),
            final(self).left_skip@ == filled(old(self).left_skip@, in_sb(by), run_len(span4(bl as int), (mi_rows - by) as int), if is_skip { 1u8 } else { 0u8 }),
            same_but_skip(*old(self), *final(self)),
    {
        proof {
            lemma_low5(by);
        }
        let bx4 = bx as usize;
        let by4 = (by & 31) as usize;
        let bw4 = 2 * half_span(bl);
        let ac = (mi_cols - bx) as usize;
        let lc = (mi_rows - by) as usize;
        let aw = if bw4 < ac { bw4 } else { ac };
        let lh = if bw4 < lc { bw4 } else { lc };
        let val: u8 = if is_skip { 1 } else { 0 };
        fill_range(self.above_skip.as_mut_slice(), bx4, aw, val);
        fill_range(&mut self.left_skip, by4, lh, val);
    }

    /// Records whether the block of level `bl` at `(bx, by)` is intra coded.
    pub fn update_intra_ctx(&mut self, bx: u32, by: u32, bl: usize, mi_cols: u32, mi_rows: u32, is_intra: bool)
        requires
            bx <= mi_cols,
            by <= mi_rows,
            bl <= 4,
        ensures
            final(self).above_intra@ == filled(old(self).above_intra@, bx as int, run_len(span4(bl as int), (mi_cols - bx) as int), is_intra),
            final(self).left_intra@ == filled(old(self).left_intra@, in_sb(by), run_len(span4(bl as int), (mi_rows - by) as int), is_intra),
            same_but_intra(*old(self), *final(self)),
    {
        proof {
            lemma_low5(by);
        }
        let bx4 = bx as usize;
        let by4 = (by & 31) as usize;
        let bw4 = 2 * half_span(bl);
        let ac = (mi_cols - bx) as usize;
        let lc = (mi_rows - by) as usize;
        let aw = if bw4 < ac { bw4 } else { ac };
        let lh = if bw4 < lc { bw4 } else { lc };
        fill_range(self.above_intra.as_mut_slice(), bx4, aw, is_intra);
        fill_range(&mut self.left_intra, by4, lh, is_intra);
    }

    /// Records whether the block of level `bl` at `(bx, by)` used a new motion vector.
    pub fn update_newmv_flag(&mut self, bx: u32, by: u32, bl: usize, mi_cols: u32, mi_rows: u32, is_newmv: bool)
        requires
            bx <= mi_cols,
            by <= mi_rows,
            bl <= 4,
        ensures
            final(self).above_newmv@ == filled(old(self).above_newmv@, bx as int, run_len(span4(bl as int), (mi_cols - bx) as int), is_newmv),
            final(self).left_newmv@ == filled(old(self).left_newmv@, in_sb(by), run_len(span4(bl as int), (mi_rows - by) as int), is_newmv),
            same_but_newmv(*old(self), *final(self)),
    {
        proof {
            lemma_low5(by);
        }
        let bx4 = bx as usize;
        let by4 = (by & 31) as usize;
        let bw4 = 2 * half_span(bl);
        let ac = (mi_cols - bx) as usize;
        let lc = (mi_rows - by) as usize;
        let aw = if bw4 < ac { bw4 } else { ac };
        let lh = if bw4 < lc { bw4 } else { lc };
        fill_range(self.above_newmv.as_mut_slice(), bx4, aw, is_newmv);
        fill_range(&mut self.left_newmv, by4, lh, is_newmv);
    }

    /// Records the intra mode of the block of level `bl` at `(bx, by)`.
    pub fn update_mode_ctx(&mut self, bx: u32, by: u32, bl: usize, mi_cols: u32, mi_rows: u32, mode: u8)
        requires
            bx <= mi_cols,
            by <= mi_rows,
            bl <= 4,
        ensures
            final(self).above_mode@ == filled(old(self).above_mode@, bx as int, run_len(span4(bl as int), (mi_cols - bx) as int), mode),
            final(self).left_mode@ == filled(old(self).left_mode@, in_sb(by), run_len(span4(bl as int), (mi_rows - by) as int), mode),
            same_but_mode(*old(self), *final(self)),
    {
        proof {
            lemma_low5(by);
        }
        let bx4 = bx as usize;
        let by4 = (by & 31) as usize;
        let bw4 = 2 * half_span(bl);
        let ac = (mi_cols - bx) as usize;
        let lc = (mi_rows - by) as usize;
        let aw = if bw4 < ac { bw4 } else { ac };
        let lh = if bw4 < lc { bw4 } else { lc };
        fill_range(self.above_mode.as_mut_slice(), bx4, aw, mode);
        fill_range(&mut self.left_mode, by4, lh, mode);
    }

    /// Records the coefficient contexts that the block of level `bl` at
    /// `(bx, by)` leaves: `y_ctx` over its luma span, `u_ctx` and `v_ctx`
    /// over its chroma span.
    pub fn update_coef_ctx(&mut self, bx: u32, by: u32, bl: usize, mi_cols: u32, mi_rows: u32, y_ctx: u8, u_ctx: u8, v_ctx: u8)
        requires
            bx <= mi_cols,
            by <= mi_rows,
            bl <= 4,
        ensures
            final(self).above_lcoef@ == filled(old(self).above_lcoef@, bx as int, run_len(span4(bl as int), (mi_cols - bx) as int), y_ctx),
            final(self).left_lcoef@ == filled(old(self).left_lcoef@, in_sb(by), run_len(span4(bl as int), (mi_rows - by) as int), y_ctx),
            final(self).above_ccoef_u@ == filled(old(self).above_ccoef_u@, (bx / 2) as int, run_len(half_span_spec(bl as int), half_up((mi_cols - bx) as int)), u_ctx),
            final(self).above_ccoef_v@ == filled(old(self).above_ccoef_v@, (bx / 2) as int, run_len(half_span_spec(bl as int), half_up((mi_cols - bx) as int)), v_ctx),
            final(self).left_ccoef_u@ == filled(old(self).left_ccoef_u@, in_sb(by) / 2, run_len(half_span_spec(bl as int), half_up((mi_rows - by) as int)), u_ctx),
            final(self).left_ccoef_v@ == filled(old(self).left_ccoef_v@, in_sb(by) / 2, run_len(half_span_spec(bl as int), half_up((mi_rows - by) as int)), v_ctx),
            same_but_coef(*old(self), *final(self)),
    {
        proof {
            lemma_low5(by);
        }
        let bx4 = bx as usize;
        let by4 = (by & 31) as usize;
        let bw4 = 2 * half_span(bl);
        let ac = (mi_cols - bx) as usize;
        let lc = (mi_rows - by) as usize;
        let aw = if bw4 < ac { bw4 } else { ac };
        let lh = if bw4 < lc { bw4 } else { lc };
        fill_range(self.above_lcoef.as_mut_slice(), bx4, aw, y_ctx);
        fill_range(&mut self.left_lcoef, by4, lh, y_ctx);

        let cbx4 = (bx / 2) as usize;
        let cby4 = ((by & 31) / 2) as usize;
        let cw4 = half_span(bl);
        let cac = crate::y4m::div_ceil2(mi_cols - bx) as usize;
        let clc = crate::y4m::div_ceil2(mi_rows - by) as usize;
        let caw = if cw4 < cac { cw4 } else { cac };
        let clh = if cw4 < clc { cw4 } else { clc };
        fill_range(self.above_ccoef_u.as_mut_slice(), cbx4, caw, u_ctx);
        fill_range(self.above_ccoef_v.as_mut_slice(), cbx4, caw, v_ctx);
        fill_range(&mut self.left_ccoef_u, cby4, clh, u_ctx);
        fill_range(&mut self.left_ccoef_v, cby4, clh, v_ctx);
    }
}

/// The sum of `coef[start + k] / 64` for `k` below `n`, counting 1 for
/// entries past the end.
pub open spec fn sign_sum(coef: Seq<u8>, start: int, n: int) -> int
    decreases n,
{
    if n <= 0 {
        0
    } else {
        sign_sum(coef, start, n - 1) + (if start + n - 1 < coef.len() { coef[start + n - 1] as int / 64 } else { 1 })
    }
}

/// Some of the entries `coef[start..start + n]` that exist differs from `0x40`.
pub open spec fn any_coded(coef: Seq<u8>, start: int, n: int) -> bool
    decreases n,
{
    n > 0 && (any_coded(coef, start, n - 1) || (start + n - 1 < coef.len() && coef[start + n - 1] != 0x40))
}

/// The sum of the entries `recon[start..start + n]` that exist.
pub open spec fn sum_avail(recon: Seq<u8>, start: int, n: int) -> int
    decreases n,
{
    if n <= 0 {
        0
    } else {
        sum_avail(recon, start, n - 1) + (if start + n - 1 < recon.len() { recon[start + n - 1] as int } else { 0 })
    }
}

/// The DC sign context from the summed neighbour signs: 1 when negative dominates, 2 when positive does.
pub open spec fn sign_ctx(above: Seq<u8>, left: Seq<u8>, a: int, l: int, n: int) -> int {
    let s = sign_sum(above, a, n) + sign_sum(left, l, n) - 2 * n;
    if s < 0 { 1 } else if s > 0 { 2 } else { 0 }
}

/// Sums the sign classes of `n` entries from `start`.
fn sum_signs(coef: &[u8], start: usize, n: usize) -> (r: i32)
    requires
        n <= 64,
        start <= usize::MAX - 64,
    ensures
        r as int == sign_sum(coef@, start as int, n as int),
        0 <= r <= 4 * n,
{
    let mut sum: i32 = 0;
    let mut i: usize = 0;
    while i < n
        invariant
            i <= n,
            n <= 64,
            start <= usize::MAX - 64,
            sum as int == sign_sum(coef@, start as int, i as int),
            0 <= sum <= 4 * i,
        decreases n - i,
    {
        let idx = start + i;
        if idx < coef.len() {
            proof {
                vstd::bits::lemma_u8_shr_is_div(coef@[idx as int], 6u8);
                vstd::arithmetic::power2::lemma2_to64();
            }
            sum = sum + (coef[idx] >> 6u8) as i32;
        } else {
            sum = sum + 1;
        }
        i += 1;
    }
    sum
}

/// Whether any of `n` entries from `start` differs from `0x40`.
fn any_coded_in(coef: &[u8], start: usize, n: usize) -> (r: bool)
    requires
        start <= usize::MAX - 64,
        n <= 64,
    ensures
        r == any_coded(coef@, start as int, n as int),
{
    let mut found = false;
    let mut i: usize = 0;
    while i < n
        invariant
            i <= n,
            n <= 64,
            start <= usize::MAX - 64,
            found == any_coded(coef@, start as int, i as int),
        decreases n - i,
    {
        let idx = start + i;
        if idx < coef.len() && coef[idx] != 0x40 {
            found = true;
        }
        i += 1;
    }
    found
}

/// Sums the `n` entries from `start` that exist.
fn sum_available(recon: &[u8], start: usize, n: usize) -> (r: u32)
    requires
        n <= 256,
        start <= usize::MAX - 256,
    ensures
        r as int == sum_avail(recon@, start as int, n as int),
        r <= 255 * n,
{
    let mut sum: u32 = 0;
    let mut i: usize = 0;
    while i < n
        invariant
            i <= n,
            n <= 256,
            start <= usize::MAX - 256,
            sum as int == sum_avail(recon@, start as int, i as int),
            sum <= 255 * i,
        decreases n - i,
    {
        let idx = start + i;
        if idx < recon.len() {
            sum = sum + recon[idx] as u32;
        }
        i += 1;
    }
    sum
}

/// A rounded mean of a sum over `count` samples.
pub open spec fn rounded_mean(sum: int, count: int) -> int {
    (sum + count / 2) / count
}

/// `1 << k` for a small `k`.
pub open spec fn pow2_small(k: int) -> int {
    vstd::arithmetic::power2::pow2(k as nat) as int
}

impl TileContext {
    /// The DC sign context of a block: the sign that dominates among the
    /// coefficient contexts along its top and left edges, for `plane` 0
    /// (luma), 1 or 2.
    pub fn dc_sign_ctx(&self, bx: u32, by: u32, bl: usize, plane: usize) -> (r: usize)
        requires
            bl <= 4,
            plane <= 2,
            bx <= 0x0fff_ffff,
        ensures
            r as int == (if plane == 0 {
                sign_ctx(self.above_lcoef@, self.left_lcoef@, bx as int, in_sb(by), span4(bl as int))
            } else if plane == 1 {
                sign_ctx(self.above_ccoef_u@, self.left_ccoef_u@, bx as int / 2, in_sb(by) / 2, half_span_spec(bl as int))
            } else {
                sign_ctx(self.above_ccoef_v@, self.left_ccoef_v@, bx as int / 2, in_sb(by) / 2, half_span_spec(bl as int))
            }),
    {
        proof {
            lemma_low5(by);
        }
        let (sa, sl, n) = if plane == 0 {
            let n = 2 * half_span(bl);
            (sum_signs(self.above_lcoef.as_slice(), bx as usize, n), sum_signs(&self.left_lcoef, (by & 31) as usize, n), n)
        } else if plane == 1 {
            let n = half_span(bl);
            (sum_signs(self.above_ccoef_u.as_slice(), (bx / 2) as usize, n), sum_signs(&self.left_ccoef_u, ((by & 31) / 2) as usize, n), n)
        } else {
            let n = half_span(bl);
            (sum_signs(self.above_ccoef_v.as_slice(), (bx / 2) as usize, n), sum_signs(&self.left_ccoef_v, ((by & 31) / 2) as usize, n), n)
        };
        let s = sa + sl - 2 * (n as i32);
        if s < 0 {
            1
        } else if s > 0 {
            2
        } else {
            0
        }
    }

    /// The chroma coefficient skip context: 7, plus one for each of the top
    /// and left edges along which some context was coded.
    pub fn chroma_txb_skip_ctx(&self, bx: u32, by: u32, bl: usize, plane: usize) -> (r: usize)
        requires
            bl <= 4,
            1 <= plane <= 2,
            bx <= 0x0fff_ffff,
        ensures
            r as int == 7 + (if plane == 1 {
                (if any_coded(self.above_ccoef_u@, bx as int / 2, half_span_spec(bl as int)) { 1int } else { 0 })
                + (if any_coded(self.left_ccoef_u@, in_sb(by) / 2, half_span_spec(bl as int)) { 1int } else { 0 })
            } else {
                (if any_coded(self.above_ccoef_v@, bx as int / 2, half_span_spec(bl as int)) { 1int } else { 0 })
                + (if any_coded(self.left_ccoef_v@, in_sb(by) / 2, half_span_spec(bl as int)) { 1int } else { 0 })
            }),
    {
        proof {
            lemma_low5(by);
        }
        let bx4 = (bx / 2) as usize;
        let by4 = ((by & 31) / 2) as usize;
        let n = half_span(bl);
        let (ca, cl) = if plane == 1 {
            (any_coded_in(self.above_ccoef_u.as_slice(), bx4, n), any_coded_in(&self.left_ccoef_u, by4, n))
        } else {
            (any_coded_in(self.above_ccoef_v.as_slice(), bx4, n), any_coded_in(&self.left_ccoef_v, by4, n))
        };
        7 + (if ca { 1 } else { 0 }) + (if cl { 1 } else { 0 })
    }

    /// The DC predictor of a block from the reconstructed row above and
    /// column to the left: the rounded mean over the available edges, 128
    /// with neither.
    pub fn dc_prediction(&self, bx: u32, by: u32, bl: usize, plane: usize) -> (r: u8)
        requires
            bl <= 4,
            plane <= 2,
            bx <= 0x0fff_ffff,
        ensures
            r as int == dc_pred_spec(*self, bx, by, bl, plane),
    {
        let have_top = by > 0;
        let have_left = bx > 0;
        if !have_top && !have_left {
            return 128;
        }
        proof {
            lemma_low4(by);
            vstd::arithmetic::power2::lemma2_to64();
        }
        let (above_recon, left_recon, px_x, left_local_py, block_pixels) = if plane == 0 {
            let bp: usize = if bl == 0 { 128 } else if bl == 1 { 64 } else if bl == 2 { 32 } else if bl == 3 { 16 } else { 8 };
            (self.above_recon_y.as_slice(), self.left_recon_y.as_slice(), (bx * 4) as usize, ((by & 15) * 4) as usize, bp)
        } else {
            let bp: usize = if bl == 0 { 64 } else if bl == 1 { 32 } else if bl == 2 { 16 } else if bl == 3 { 8 } else { 4 };
            if plane == 1 {
                (self.above_recon_u.as_slice(), self.left_recon_u.as_slice(), (bx * 2) as usize, ((by & 15) * 2) as usize, bp)
            } else {
                (self.above_recon_v.as_slice(), self.left_recon_v.as_slice(), (bx * 2) as usize, ((by & 15) * 2) as usize, bp)
            }
        };
        if have_top && have_left {
            let sum = sum_available(above_recon, px_x, block_pixels) + sum_available(left_recon, left_local_py, block_pixels);
            let count = (2 * block_pixels) as u32;
            assert((sum + count / 2) / (count as int) <= 255) by (nonlinear_arith)
                requires
                    sum <= 255 * count,
                    count >= 1,
            ;
            ((sum + count / 2) / count) as u8
        } else if have_top {
            let sum = sum_available(above_recon, px_x, block_pixels);
            let count = block_pixels as u32;
            assert((sum + count / 2) / (count as int) <= 255) by (nonlinear_arith)
                requires
                    sum <= 255 * count,
                    count >= 1,
            ;
            ((sum + count / 2) / count) as u8
        } else {
            let sum = sum_available(left_recon, left_local_py, block_pixels);
            let count = block_pixels as u32;
            assert((sum + count / 2) / (count as int) <= 255) by (nonlinear_arith)
                requires
                    sum <= 255 * count,
                    count >= 1,
            ;
            ((sum + count / 2) / count) as u8
        }
    }
}

/// The NEWMV context: from how many neighbours are inter coded, one less
/// when one of them used a new motion vector.
pub open spec fn newmv_ctx_spec(c: TileContext, bx: u32, by: u32) -> int {
    let a = above_inter(c, bx, by);
    let l = left_inter(c, bx, by);
    let have_newmv = (a && (bx as int) < c.above_newmv@.len() && c.above_newmv@[bx as int]) || (l && c.left_newmv@[in_sb(by)]);
    let nearest = (if a { 1int } else { 0 }) + (if l { 1int } else { 0 });
    if nearest == 0 { 0 } else if nearest == 1 { 3 - (if have_newmv { 1int } else { 0 }) } else { 5 - (if have_newmv { 1int } else { 0 }) }
}

/// The intra/inter context: from how many neighbours are intra coded, 3 when
/// both are, doubled when only one neighbour exists.
pub open spec fn is_inter_ctx_spec(c: TileContext, bx: u32, by: u32) -> int {
    let l = if c.left_intra@[in_sb(by)] { 1int } else { 0 };
    let a = if (bx as int) < c.above_intra@.len() && c.above_intra@[bx as int] { 1int } else { 0 };
    if bx > 0 {
        if by > 0 { if l + a == 2 { 3 } else { l + a } } else { 2 * l }
    } else if by > 0 {
        2 * a
    } else {
        0
    }
}

/// The DC predictor of plane `plane` for the block of level `bl` at `(bx, by)`:
/// the rounded mean of the reconstructed edges that exist, 128 with none.
pub open spec fn dc_pred_spec(c: TileContext, bx: u32, by: u32, bl: usize, plane: usize) -> int {
    let (above, left, px, py, bp) = if plane == 0 {
        (c.above_recon_y@, c.left_recon_y@, 4 * bx as int, 4 * (by as int % 16), pow2_small(7 - bl))
    } else if plane == 1 {
        (c.above_recon_u@, c.left_recon_u@, 2 * bx as int, 2 * (by as int % 16), pow2_small(6 - bl))
    } else {
        (c.above_recon_v@, c.left_recon_v@, 2 * bx as int, 2 * (by as int % 16), pow2_small(6 - bl))
    };
    if by == 0 && bx == 0 {
        128
    } else if by > 0 && bx > 0 {
        rounded_mean(sum_avail(above, px, bp) + sum_avail(left, py, bp), 2 * bp)
    } else if by > 0 {
        rounded_mean(sum_avail(above, px, bp), bp)
    } else {
        rounded_mean(sum_avail(left, py, bp), bp)
    }
}

/// The neighbour above is inter coded: it exists, lies inside the context and is not intra.
pub open spec fn above_inter(c: TileContext, bx: u32, by: u32) -> bool {
    by > 0 && (bx as int) < c.above_intra@.len() && !c.above_intra@[bx as int]
}

/// The neighbour to the left is inter coded.
pub open spec fn left_inter(c: TileContext, bx: u32, by: u32) -> bool {
    bx > 0 && !c.left_intra@[in_sb(by)]
}

impl TileContext {
    /// Stores the bottom row and right column of a reconstructed block as
    /// the new above and left neighbours, in all three planes, as far as
    /// the frame reaches.
    pub fn update_recon(
        &mut self,
        bx: u32,
        by: u32,
        mi_cols: u32,
        mi_rows: u32,
        y_bottom_row: &[u8],
        y_right_col: &[u8],
        u_bottom_row: &[u8],
        u_right_col: &[u8],
        v_bottom_row: &[u8],
        v_right_col: &[u8],
    )
        requires
            bx <= 0x0fff_ffff,
            by <= 0x0fff_ffff,
            mi_cols <= 0x0fff_ffff,
            mi_rows <= 0x0fff_ffff,
            v_bottom_row@.len() >= u_bottom_row@.len(),
            v_right_col@.len() >= u_right_col@.len(),
            old(self).above_recon_v@.len() == old(self).above_recon_u@.len(),
        ensures
            final(self).above_recon_y@ == copied(old(self).above_recon_y@, 4 * bx as int, y_bottom_row@, 4 * mi_cols as int - 4 * bx as int),
            final(self).left_recon_y@ == copied(old(self).left_recon_y@, 4 * (by as int % 16), y_right_col@, 4 * mi_rows as int - 4 * by as int),
            final(self).above_recon_u@ == copied(old(self).above_recon_u@, 2 * bx as int, u_bottom_row@, 2 * mi_cols as int - 2 * bx as int),
            final(self).above_recon_v@ == copied(old(self).above_recon_v@, 2 * bx as int, v_bottom_row@.subrange(0, u_bottom_row@.len() as int), 2 * mi_cols as int - 2 * bx as int),
            final(self).left_recon_u@ == copied(old(self).left_recon_u@, 2 * (by as int % 16), u_right_col@, 2 * mi_rows as int - 2 * by as int),
            final(self).left_recon_v@ == copied(old(self).left_recon_v@, 2 * (by as int % 16), v_right_col@.subrange(0, u_right_col@.len() as int), 2 * mi_rows as int - 2 * by as int),
            same_but_recon(*old(self), *final(self)),
    {
        proof {
            lemma_low4(by);
        }
        let px_x = (bx * 4) as usize;
        let py_local = ((by & 15) * 4) as usize;
        let max_px_x = (mi_cols * 4) as usize;
        let max_py = (mi_rows * 4) as usize;
        let py_abs = (by * 4) as usize;
        proof {
            assert(y_bottom_row@.subrange(0, y_bottom_row@.len() as int) =~= y_bottom_row@);
            assert(y_right_col@.subrange(0, y_right_col@.len() as int) =~= y_right_col@);
            assert(u_bottom_row@.subrange(0, u_bottom_row@.len() as int) =~= u_bottom_row@);
            assert(u_right_col@.subrange(0, u_right_col@.len() as int) =~= u_right_col@);
        }
        copy_range(self.above_recon_y.as_mut_slice(), px_x, y_bottom_row, y_bottom_row.len(), room_before(px_x, max_px_x));
        copy_range(&mut self.left_recon_y, py_local, y_right_col, y_right_col.len(), room_before(py_abs, max_py));

        let cpx = (bx * 2) as usize;
        let cpy_local = ((by & 15) * 2) as usize;
        let max_cpx = (mi_cols * 2) as usize;
        let cpy_abs = (by * 2) as usize;
        let max_cpy = (mi_rows * 2) as usize;
        let n_row = u_bottom_row.len();
        let n_col = u_right_col.len();
        let room_row = room_before(cpx, max_cpx);
        let room_col = room_before(cpy_abs, max_cpy);
        copy_range(self.above_recon_u.as_mut_slice(), cpx, u_bottom_row, n_row, room_row);
        copy_range(self.above_recon_v.as_mut_slice(), cpx, v_bottom_row, n_row, room_row);
        copy_range(&mut self.left_recon_u, cpy_local, u_right_col, n_col, room_col);
        copy_range(&mut self.left_recon_v, cpy_local, v_right_col, n_col, room_col);
    }

    /// The reference context of an inter block: 2 when a neighbour is inter coded, else 1.
    pub fn ref_ctx(&self, bx: u32, by: u32) -> (r: usize)
        ensures
            r == (if above_inter(*self, bx, by) || left_inter(*self, bx, by) { 2usize } else { 1usize }),
    {
        if self.has_inter_neighbor(bx, by) {
            2
        } else {
            1
        }
    }

    /// Whether the block above or the block to the left is inter coded.
    pub fn has_inter_neighbor(&self, bx: u32, by: u32) -> (r: bool)
        ensures
            r == (above_inter(*self, bx, by) || left_inter(*self, bx, by)),
    {
        proof {
            lemma_low5(by);
        }
        let bx4 = bx as usize;
        let by4 = (by & 31) as usize;
        let have_top = by > 0;
        let have_left = bx > 0;
        let above = have_top && bx4 < self.above_intra.len() && !self.above_intra[bx4];
        let left = have_left && !self.left_intra[by4];
        above || left
    }

    /// The NEWMV context: 0 with no inter neighbour, otherwise 3 or 5 for
    /// one or two inter neighbours, one less when a neighbour used a new vector.
    pub fn newmv_ctx(&self, bx: u32, by: u32) -> (r: usize)
        ensures
            r as int == newmv_ctx_spec(*self, bx, by),
    {
        proof {
            lemma_low5(by);
        }
        let bx4 = bx as usize;
        let by4 = (by & 31) as usize;
        let have_top = by > 0;
        let have_left = bx > 0;
        let above = have_top && bx4 < self.above_intra.len() && !self.above_intra[bx4];
        let left = have_left && !self.left_intra[by4];
        let above_is_newmv = above && bx4 < self.above_newmv.len() && self.above_newmv[bx4];
        let left_is_newmv = left && self.left_newmv[by4];
        let have_newmv: usize = if above_is_newmv || left_is_newmv { 1 } else { 0 };
        let nearest_match: usize = (if above { 1 } else { 0 }) + (if left { 1 } else { 0 });
        if nearest_match == 0 {
            0
        } else if nearest_match == 1 {
            3 - have_newmv
        } else {
            5 - have_newmv
        }
    }

    /// The intra/inter context: from how many neighbours are intra coded,
    /// 3 when both are, doubled when only one neighbour exists.
    pub fn is_inter_ctx(&self, bx: u32, by: u32) -> (r: usize)
        ensures
            r as int == is_inter_ctx_spec(*self, bx, by),
    {
        proof {
            lemma_low5(by);
        }
        let bx4 = bx as usize;
        let by4 = (by & 31) as usize;
        let have_top = by > 0;
        let have_left = bx > 0;
        if have_left {
            let l: usize = if self.left_intra[by4] { 1 } else { 0 };
            if have_top {
                let a: usize = if bx4 < self.above_intra.len() && self.above_intra[bx4] { 1 } else { 0 };
                let ctx = l + a;
                ctx + (if ctx == 2 { 1 } else { 0 })
            } else {
                l * 2
            }
        } else if have_top {
            let a: usize = if bx4 < self.above_intra.len() && self.above_intra[bx4] { 1 } else { 0 };
            a * 2
        } else {
            0
        }
    }

    /// The contexts of the intra modes above and to the left (0 where there is no neighbour).
    pub fn mode_ctx(&self, bx: u32, by: u32) -> (r: (usize, usize))
        ensures
            ({
                let am = if by > 0 && (bx as int) < self.above_mode@.len() { self.above_mode@[bx as int] as int } else { 0 };
                let lm = if bx > 0 { self.left_mode@[in_sb(by)] as int } else { 0 };
                &&& r.0 == INTRA_MODE_CONTEXT@[if am < 12 { am } else { 12 }]
                &&& r.1 == INTRA_MODE_CONTEXT@[if lm < 12 { lm } else { 12 }]
            }),
    {
        proof {
            lemma_low5(by);
        }
        let have_above = by > 0;
        let have_left = bx > 0;
        let above_mode = if have_above {
            let bx4 = bx as usize;
            if bx4 < self.above_mode.len() {
                self.above_mode[bx4] as usize
            } else {
                0
            }
        } else {
            0
        };
        let left_mode = if have_left {
            let by4 = (by & 31) as usize;
            self.left_mode[by4] as usize
        } else {
            0
        };
        let above_ctx = INTRA_MODE_CONTEXT[if above_mode < 12 { above_mode } else { 12 }];
        let left_ctx = INTRA_MODE_CONTEXT[if left_mode < 12 { left_mode } else { 12 }];
        (above_ctx, left_ctx)
    }
}

} // verus!
