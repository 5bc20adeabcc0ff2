use vstd::prelude::*;
use crate::y4m::{FramePixels, div_ceil2, half_up};

verus! {

broadcast use crate::shifts::group_shifts;

/// Loop filter parameters for a frame.
#[derive(Debug, Clone, Copy, PartialEq, Eq, Structural)]
pub struct LoopFilterParams {
    pub y_vert_level: u8,
    pub y_horiz_level: u8,
    pub uv_vert_level: u8,
    pub uv_horiz_level: u8,
    pub sharpness: u8,
    pub delta_enabled: bool,
    pub delta_update: bool,
}

/// Loop filter level by quantizer index: `round(40 * ln(q / 4) / ln 64)`
/// clamped to `0..=63`, and 0 up to `q = 4`.
pub const FILTER_LEVELS: [u8; 256] = [
    0, 0, 0, 0, 0, 2, 4, 5, 7, 8, 9, 10, 11, 11, 12, 13,
    13, 14, 14, 15, 15, 16, 16, 17, 17, 18, 18, 18, 19, 19, 19, 20,
    20, 20, 21, 21, 21, 21, 22, 22, 22, 22, 23, 23, 23, 23, 23, 24,
    24, 24, 24, 24, 25, 25, 25, 25, 25, 26, 26, 26, 26, 26, 26, 27,
    27, 27, 27, 27, 27, 27, 28, 28, 28, 28, 28, 28, 28, 28, 29, 29,
    29, 29, 29, 29, 29, 29, 30, 30, 30, 30, 30, 30, 30, 30, 30, 30,
    31, 31, 31, 31, 31, 31, 31, 31, 31, 31, 32, 32, 32, 32, 32, 32,
    32, 32, 32, 32, 32, 32, 33, 33, 33, 33, 33, 33, 33, 33, 33, 33,
    33, 33, 33, 34, 34, 34, 34, 34, 34, 34, 34, 34, 34, 34, 34, 34,
    34, 35, 35, 35, 35, 35, 35, 35, 35, 35, 35, 35, 35, 35, 35, 35,
    35, 36, 36, 36, 36, 36, 36, 36, 36, 36, 36, 36, 36, 36, 36, 36,
    36, 36, 37, 37, 37, 37, 37, 37, 37, 37, 37, 37, 37, 37, 37, 37,
    37, 37, 37, 37, 37, 37, 38, 38, 38, 38, 38, 38, 38, 38, 38, 38,
    38, 38, 38, 38, 38, 38, 38, 38, 38, 38, 38, 38, 39, 39, 39, 39,
    39, 39, 39, 39, 39, 39, 39, 39, 39, 39, 39, 39, 39, 39, 39, 39,
    39, 39, 39, 39, 40, 40, 40, 40, 40, 40, 40, 40, 40, 40, 40, 40,
];

/// Maps a quantizer index to a loop filter level.
pub fn qp_to_filter_level(q: u8) -> (r: u8)
    ensures
        r == FILTER_LEVELS@[q as int],
{
    FILTER_LEVELS[q as usize]
}

/// Loop filter parameters for a quantizer index: one level for every edge
/// kind, no sharpness, deltas enabled and not updated.
pub fn loop_filter_params_for_qidx(base_q_idx: u8) -> (r: LoopFilterParams)
    ensures
        r == (LoopFilterParams {
            y_vert_level: FILTER_LEVELS@[base_q_idx as int],
            y_horiz_level: FILTER_LEVELS@[base_q_idx as int],
            uv_vert_level: FILTER_LEVELS@[base_q_idx as int],
            uv_horiz_level: FILTER_LEVELS@[base_q_idx as int],
            sharpness: 0,
            delta_enabled: true,
            delta_update: false,
        }),
{
    let y_level = qp_to_filter_level(base_q_idx);
    LoopFilterParams {
        y_vert_level: y_level,
        y_horiz_level: y_level,
        uv_vert_level: y_level,
        uv_horiz_level: y_level,
        sharpness: 0,
        delta_enabled: true,
        delta_update: false,
    }
}

/// The interior limit for a filter level and sharpness: the level shifted
/// down by `(sharpness + 3) / 4` and capped at `9 - sharpness` when the
/// sharpness is set, and never below 1.
pub open spec fn limit_spec(level: int, sharpness: int) -> int {
    let l = if sharpness > 0 {
        let shifted = level / vstd::arithmetic::power2::pow2(((sharpness + 3) / 4) as nat) as int;
        if shifted < 9 - sharpness { shifted } else { 9 - sharpness }
    } else {
        level
    };
    if l < 1 { 1 } else { l }
}

/// The interior limit for a filter level and sharpness.
pub fn calc_limit(level: i32, sharpness: u8) -> (r: i32)
    requires
        0 <= level <= 255,
        sharpness <= 124,
    ensures
        r as int == limit_spec(level as int, sharpness as int),
        1 <= r <= 255,
{
    let sharp = sharpness as i32;
    let mut limit = level;
    if sharp > 0 {
        let amount = ((sharp + 3) / 4) as u32;
        let shifted = (level as u32) >> amount;
        proof {
            vstd::arithmetic::power2::lemma_pow2_pos(amount as nat);
            vstd::bits::lemma_u32_shr_is_div(level as u32, amount);
        }
        limit = shifted as i32;
        if limit > 9 - sharp {
            limit = 9 - sharp;
        }
    }
    if limit < 1 {
        1
    } else {
        limit
    }
}

/// The edge limit `E` for a filter level and sharpness.
pub fn calc_e(level: u8, sharpness: u8) -> (r: i32)
    requires
        sharpness <= 124,
    ensures
        r as int == 2 * (level as int + 2) + limit_spec(level as int, sharpness as int),
{
    let limit = calc_limit(level as i32, sharpness);
    2 * (level as i32 + 2) + limit
}

/// The interior limit `I` for a filter level and sharpness.
pub fn calc_i(level: u8, sharpness: u8) -> (r: i32)
    requires
        sharpness <= 124,
    ensures
        r as int == limit_spec(level as int, sharpness as int),
{
    calc_limit(level as i32, sharpness)
}

/// Absolute value.
pub open spec fn abs_spec(v: int) -> int {
    if v < 0 { -v } else { v }
}

/// `v` limited to `lo..=hi`.
pub open spec fn clamp_spec(v: int, lo: int, hi: int) -> int {
    if v < lo { lo } else if v > hi { hi } else { v }
}

/// Thresholds of one edge, already scaled to the bit depth.
pub struct EdgeThresholds {
    pub e: int,
    pub i: int,
    pub h: int,
    pub f: int,
    pub clip_max: int,
    pub bd_max: int,
    pub wd: int,
}

/// Whether the line of taps `t = t[0] t[1] t[2] t[3] t[4] t[5] t[6] t[7]` is filtered at all.
pub open spec fn filter_mask(t: Seq<int>, k: EdgeThresholds) -> bool {
    &&& abs_spec(t[2] - t[3]) <= k.i
    &&& abs_spec(t[5] - t[4]) <= k.i
    &&& abs_spec(t[3] - t[4]) * 2 + abs_spec(t[2] - t[5]) / 2 <= k.e
    &&& (k.wd > 4 ==> abs_spec(t[1] - t[2]) <= k.i && abs_spec(t[6] - t[5]) <= k.i)
    &&& (k.wd > 6 ==> abs_spec(t[0] - t[1]) <= k.i && abs_spec(t[7] - t[6]) <= k.i)
}

/// Whether the taps are flat enough around the edge for the wide filters.
pub open spec fn filter_flat(t: Seq<int>, k: EdgeThresholds) -> bool {
    &&& k.wd >= 6
    &&& abs_spec(t[1] - t[3]) <= k.f
    &&& abs_spec(t[2] - t[3]) <= k.f
    &&& abs_spec(t[5] - t[4]) <= k.f
    &&& abs_spec(t[6] - t[4]) <= k.f
    &&& (k.wd >= 8 ==> abs_spec(t[0] - t[3]) <= k.f && abs_spec(t[7] - t[4]) <= k.f)
}

/// A rounded eighth of `sum`, clamped to `0..=bd_max`.
#[verifier::opaque]
pub open spec fn avg8_spec(sum: int, bd_max: int) -> int {
    clamp_spec((sum + 4) / 8, 0, bd_max)
}

/// The wide eight-tap filter: six taps replaced by rounded averages.
pub open spec fn wide8_spec(t: Seq<int>, bd_max: int) -> Seq<int> {
    seq![
        t[0],
        avg8_spec(t[0] * 3 + t[1] * 2 + t[2] + t[3] + t[4], bd_max),
        avg8_spec(t[0] * 2 + t[1] * 2 + t[2] * 2 + t[3] + t[4] + t[5], bd_max),
        avg8_spec(t[0] + t[1] + t[2] + t[3] * 2 + t[4] + t[5] + t[6], bd_max),
        avg8_spec(t[1] + t[2] + t[3] + t[4] * 2 + t[5] + t[6] + t[7], bd_max),
        avg8_spec(t[2] + t[3] + t[4] + t[5] * 2 + t[6] + t[7] * 2, bd_max),
        avg8_spec(t[3] + t[4] + t[5] + t[6] * 2 + t[7] * 3, bd_max),
        t[7],
    ]
}

/// The six-tap filter: four taps replaced by rounded averages.
pub open spec fn wide6_spec(t: Seq<int>, bd_max: int) -> Seq<int> {
    seq![
        t[0],
        t[1],
        avg8_spec(t[1] * 3 + t[2] * 2 + t[3] * 2 + t[4], bd_max),
        avg8_spec(t[1] + t[2] * 2 + t[3] * 2 + t[4] * 2 + t[5], bd_max),
        avg8_spec(t[2] + t[3] * 2 + t[4] * 2 + t[5] * 2 + t[6], bd_max),
        avg8_spec(t[3] + t[4] * 2 + t[5] * 2 + t[6] * 3, bd_max),
        t[6],
        t[7],
    ]
}

/// The two corrections of the narrow filter for the taps `p1 p0 q0 q1`:
/// `f1` taken from `q0` and `f2` added to `p0`.
#[verifier::opaque]
pub open spec fn narrow_steps(p1: int, p0: int, q0: int, q1: int, hev: bool, cm: int) -> (int, int) {
    let f = if hev {
        clamp_spec(3 * (q0 - p0) + clamp_spec(p1 - q1, -cm, cm), -cm, cm)
    } else {
        clamp_spec(3 * (q0 - p0), -cm, cm)
    };
    ((if f + 4 < cm { f + 4 } else { cm }) / 8, (if f + 3 < cm { f + 3 } else { cm }) / 8)
}

/// The narrow filter: the step across the edge is pulled in by a clipped
/// amount; with little variance on either side the outer taps move too.
pub open spec fn narrow_spec(t: Seq<int>, hev: bool, clip_max: int, bd_max: int) -> Seq<int> {
    let (f1, f2) = narrow_steps(t[2], t[3], t[4], t[5], hev, clip_max);
    let g = (f1 + 1) / 2;
    if hev {
        seq![t[0], t[1], t[2], clamp_spec(t[3] + f2, 0, bd_max), clamp_spec(t[4] - f1, 0, bd_max), t[5], t[6], t[7]]
    } else {
        seq![
            t[0],
            t[1],
            clamp_spec(t[2] + g, 0, bd_max),
            clamp_spec(t[3] + f2, 0, bd_max),
            clamp_spec(t[4] - f1, 0, bd_max),
            clamp_spec(t[5] - g, 0, bd_max),
            t[6],
            t[7],
        ]
    }
}

/// The taps after filtering: the wide eight-tap filter, the six-tap one, or
/// the narrow one; the line is left alone when the mask rejects it.
pub open spec fn filter_line_spec(t: Seq<int>, k: EdgeThresholds) -> Seq<int> {
    if !filter_mask(t, k) {
        t
    } else if k.wd >= 8 && filter_flat(t, k) {
        wide8_spec(t, k.bd_max)
    } else if k.wd == 6 && filter_flat(t, k) {
        wide6_spec(t, k.bd_max)
    } else {
        narrow_spec(t, abs_spec(t[2] - t[3]) > k.h || abs_spec(t[5] - t[4]) > k.h, k.clip_max, k.bd_max)
    }
}

/// Taps as integers.
pub open spec fn tap_ints(t: Seq<i32>) -> Seq<int> {
    t.map_values(|v: i32| v as int)
}

/// Sixteen-bit taps.
pub open spec fn taps_fit(t: Seq<i32>) -> bool {
    forall|j: int| 0 <= j < t.len() ==> 0 <= #[trigger] t[j] <= 0xffff
}

/// Clamps `v` to `0..=hi`.
fn clamp_to(v: i32, hi: i32) -> (r: i32)
    requires
        0 <= hi,
    ensures
        r as int == clamp_spec(v as int, 0, hi as int),
{
    if v < 0 {
        0
    } else if v > hi {
        hi
    } else {
        v
    }
}

/// Limits `val` to `lo..=hi`.
pub fn clip3(lo: i32, hi: i32, val: i32) -> (r: i32)
    requires
        lo <= hi,
    ensures
        r as int == clamp_spec(val as int, lo as int, hi as int),
{
    if val < lo {
        lo
    } else if val > hi {
        hi
    } else {
        val
    }
}

/// Absolute value of a small difference.
fn abs_i32(v: i32) -> (r: i32)
    requires
        -0x10000 <= v <= 0x10000,
    ensures
        r as int == abs_spec(v as int),
{
    if v < 0 { -v } else { v }
}

/// Thresholds as integers, gathered for the specification.
pub open spec fn thresholds(e: i32, i: i32, h: i32, f: i32, clip_max: i32, bd_max: u16, wd: u8) -> EdgeThresholds {
    EdgeThresholds {
        e: e as int,
        i: i as int,
        h: h as int,
        f: f as int,
        clip_max: clip_max as int,
        bd_max: bd_max as int,
        wd: wd as int,
    }
}

/// A rounded eighth of `sum`, clamped to `0..=bd`.
fn avg8(sum: i32, bd: i32) -> (r: i32)
    requires
        0 <= sum <= 0x100000,
        0 <= bd <= 0xffff,
    ensures
        r as int == avg8_spec(sum as int, bd as int),
        0 <= r <= 0xffff,
{
    reveal(avg8_spec);
    clamp_to((sum + 4) >> 3u32, bd)
}

/// The wide eight-tap filter, on the taps `p3 p2 p1 p0 q0 q1 q2 q3`.
#[verifier::spinoff_prover]
fn filter_wide8(p3: i32, p2: i32, p1: i32, p0: i32, q0: i32, q1: i32, q2: i32, q3: i32, bd: i32) -> (r: [i32; 8])
    requires
        0 <= p3 <= 0xffff,
        0 <= p2 <= 0xffff,
        0 <= p1 <= 0xffff,
        0 <= p0 <= 0xffff,
        0 <= q0 <= 0xffff,
        0 <= q1 <= 0xffff,
        0 <= q2 <= 0xffff,
        0 <= q3 <= 0xffff,
        0 <= bd <= 0xffff,
    ensures
        tap_ints(r@) == wide8_spec(
            seq![p3 as int, p2 as int, p1 as int, p0 as int, q0 as int, q1 as int, q2 as int, q3 as int],
            bd as int,
        ),
        taps_fit(r@),
{
    let r = [
        p3,
        avg8(p3 * 3 + p2 * 2 + p1 + p0 + q0, bd),
        avg8(p3 * 2 + p2 * 2 + p1 * 2 + p0 + q0 + q1, bd),
        avg8(p3 + p2 + p1 + p0 * 2 + q0 + q1 + q2, bd),
        avg8(p2 + p1 + p0 + q0 * 2 + q1 + q2 + q3, bd),
        avg8(p1 + p0 + q0 + q1 * 2 + q2 + q3 * 2, bd),
        avg8(p0 + q0 + q1 + q2 * 2 + q3 * 3, bd),
        q3,
    ];
    assert(tap_ints(r@) =~= wide8_spec(
        seq![p3 as int, p2 as int, p1 as int, p0 as int, q0 as int, q1 as int, q2 as int, q3 as int],
        bd as int,
    ));
    r
}

/// The six-tap filter.
fn filter_wide6(t: [i32; 8], bd: i32) -> (r: [i32; 8])
    requires
        taps_fit(t@),
        0 <= bd <= 0xffff,
    ensures
        tap_ints(r@) == wide6_spec(tap_ints(t@), bd as int),
        taps_fit(r@),
{
    let ghost ts = tap_ints(t@);
    let (p3, p2, p1, p0, q0, q1, q2, q3) = (t[0], t[1], t[2], t[3], t[4], t[5], t[6], t[7]);
    assert(ts[0] == p3 && ts[1] == p2 && ts[2] == p1 && ts[3] == p0);
    assert(ts[4] == q0 && ts[5] == q1 && ts[6] == q2 && ts[7] == q3);
    assert(0 <= t@[0] <= 0xffff && 0 <= t@[1] <= 0xffff && 0 <= t@[2] <= 0xffff && 0 <= t@[3] <= 0xffff);
    assert(0 <= t@[4] <= 0xffff && 0 <= t@[5] <= 0xffff && 0 <= t@[6] <= 0xffff && 0 <= t@[7] <= 0xffff);
    let r = [
        p3,
        p2,
        avg8(p2 * 3 + p1 * 2 + p0 * 2 + q0, bd),
        avg8(p2 + p1 * 2 + p0 * 2 + q0 * 2 + q1, bd),
        avg8(p1 + p0 * 2 + q0 * 2 + q1 * 2 + q2, bd),
        avg8(p0 + q0 * 2 + q1 * 2 + q2 * 3, bd),
        q2,
        q3,
    ];
    assert(tap_ints(r@) =~= wide6_spec(ts, bd as int));
    r
}

/// The corrections of the narrow filter.
fn narrow_corrections(p1: i32, p0: i32, q0: i32, q1: i32, hev: bool, clip_max: i32) -> (r: (i32, i32))
    requires
        0 <= p1 <= 0xffff,
        0 <= p0 <= 0xffff,
        0 <= q0 <= 0xffff,
        0 <= q1 <= 0xffff,
        0 <= clip_max <= 0x1000,
    ensures
        (r.0 as int, r.1 as int) == narrow_steps(p1 as int, p0 as int, q0 as int, q1 as int, hev, clip_max as int),
        -0x1000 <= r.0 <= 0x1000,
        -0x1000 <= r.1 <= 0x1000,
{
    reveal(narrow_steps);
    let f = if hev {
        let fa = clip3(-clip_max, clip_max, p1 - q1);
        clip3(-clip_max, clip_max, 3 * (q0 - p0) + fa)
    } else {
        clip3(-clip_max, clip_max, 3 * (q0 - p0))
    };
    let f1 = (if f + 4 < clip_max { f + 4 } else { clip_max }) >> 3u32;
    let f2 = (if f + 3 < clip_max { f + 3 } else { clip_max }) >> 3u32;
    (f1, f2)
}

/// The narrow filter.
fn filter_narrow(t: [i32; 8], hev: bool, clip_max: i32, bd: i32) -> (r: [i32; 8])
    requires
        taps_fit(t@),
        0 <= bd <= 0xffff,
        0 <= clip_max <= 0x1000,
    ensures
        tap_ints(r@) == narrow_spec(tap_ints(t@), hev, clip_max as int, bd as int),
        taps_fit(r@),
{
    let ghost ts = tap_ints(t@);
    let (p3, p2, p1, p0, q0, q1, q2, q3) = (t[0], t[1], t[2], t[3], t[4], t[5], t[6], t[7]);
    assert(ts[0] == p3 && ts[1] == p2 && ts[2] == p1 && ts[3] == p0);
    assert(ts[4] == q0 && ts[5] == q1 && ts[6] == q2 && ts[7] == q3);
    assert(0 <= t@[0] <= 0xffff && 0 <= t@[1] <= 0xffff && 0 <= t@[2] <= 0xffff && 0 <= t@[3] <= 0xffff);
    assert(0 <= t@[4] <= 0xffff && 0 <= t@[5] <= 0xffff && 0 <= t@[6] <= 0xffff && 0 <= t@[7] <= 0xffff);
    let (f1, f2) = narrow_corrections(p1, p0, q0, q1, hev, clip_max);
    let r = if hev {
        [p3, p2, p1, clamp_to(p0 + f2, bd), clamp_to(q0 - f1, bd), q1, q2, q3]
    } else {
        let g = (f1 + 1) >> 1u32;
        [p3, p2, clamp_to(p1 + g, bd), clamp_to(p0 + f2, bd), clamp_to(q0 - f1, bd), clamp_to(q1 - g, bd), q2, q3]
    };
    assert(tap_ints(r@) =~= narrow_spec(ts, hev, clip_max as int, bd as int));
    r
}

/// Filters one line of eight taps `p3 p2 p1 p0 q0 q1 q2 q3`.
fn filter_taps(t: [i32; 8], e: i32, i: i32, h: i32, f: i32, clip_max: i32, bd_max: u16, wd: u8) -> (r: [i32; 8])
    requires
        taps_fit(t@),
        0 <= clip_max <= 0x1000,
    ensures
        tap_ints(r@) == filter_line_spec(tap_ints(t@), thresholds(e, i, h, f, clip_max, bd_max, wd)),
        taps_fit(r@),
{
    let ghost ts = tap_ints(t@);
    let ghost k = thresholds(e, i, h, f, clip_max, bd_max, wd);
    let (p3, p2, p1, p0, q0, q1, q2, q3) = (t[0], t[1], t[2], t[3], t[4], t[5], t[6], t[7]);
    assert(ts[0] == p3 && ts[1] == p2 && ts[2] == p1 && ts[3] == p0);
    assert(ts[4] == q0 && ts[5] == q1 && ts[6] == q2 && ts[7] == q3);
    let bd = bd_max as i32;

    let mut fm = abs_i32(p1 - p0) <= i && abs_i32(q1 - q0) <= i
        && abs_i32(p0 - q0) * 2 + (abs_i32(p1 - q1) >> 1u32) <= e;
    if wd > 4 {
        fm = fm && abs_i32(p2 - p1) <= i && abs_i32(q2 - q1) <= i;
    }
    if wd > 6 {
        fm = fm && abs_i32(p3 - p2) <= i && abs_i32(q3 - q2) <= i;
    }
    assert(fm == filter_mask(ts, k));
    if !fm {
        return t;
    }
    let flat8in = if wd >= 6 {
        let mut flat = abs_i32(p2 - p0) <= f && abs_i32(p1 - p0) <= f && abs_i32(q1 - q0) <= f
            && abs_i32(q2 - q0) <= f;
        if wd >= 8 {
            flat = flat && abs_i32(p3 - p0) <= f && abs_i32(q3 - q0) <= f;
        }
        flat
    } else {
        false
    };
    assert(flat8in == filter_flat(ts, k));
    if wd >= 8 && flat8in {
        assert(ts =~= seq![p3 as int, p2 as int, p1 as int, p0 as int, q0 as int, q1 as int, q2 as int, q3 as int]);
        assert(0 <= t@[0] <= 0xffff && 0 <= t@[1] <= 0xffff && 0 <= t@[2] <= 0xffff && 0 <= t@[3] <= 0xffff);
        assert(0 <= t@[4] <= 0xffff && 0 <= t@[5] <= 0xffff && 0 <= t@[6] <= 0xffff && 0 <= t@[7] <= 0xffff);
        filter_wide8(p3, p2, p1, p0, q0, q1, q2, q3, bd)
    } else if wd == 6 && flat8in {
        filter_wide6(t, bd)
    } else {
        let hev = abs_i32(p1 - p0) > h || abs_i32(q1 - q0) > h;
        filter_narrow(t, hev, clip_max, bd)
    }
}

/// How many taps on each side of the edge a filter of width `wd` reads.
pub open spec fn filter_radius(wd: int) -> int {
    if wd > 6 { 4 } else if wd > 4 { 3 } else { 2 }
}

/// The pixel of tap `j` (q0 is tap 4) on line `k` of the edge at `(x, y)`.
pub open spec fn tap_pos(stride: int, x: int, y: int, horiz: bool, k: int, j: int) -> int {
    if horiz {
        let row = if j >= 4 { y + (j - 4) } else { y - (4 - j) };
        row * stride + (x + k)
    } else {
        let col = if j >= 4 { x + (j - 4) } else { x - (4 - j) };
        (y + k) * stride + col
    }
}

/// Line `k` of the edge lies far enough inside the plane to be filtered.
pub open spec fn line_active(len: int, stride: int, x: int, y: int, horiz: bool, k: int, wd: int) -> bool {
    let plane_h = len / stride;
    let r = filter_radius(wd);
    let px = if horiz { x + k } else { x };
    let py = if horiz { y } else { y + k };
    &&& px < stride
    &&& py < plane_h
    &&& if horiz { py >= r && py + r <= plane_h } else { px >= r && px + r <= stride }
}

/// The taps of line `k` that the filter reads; the ones beyond its radius read as 0.
pub open spec fn line_taps(plane: Seq<u16>, stride: int, x: int, y: int, horiz: bool, k: int, wd: int) -> Seq<int> {
    let r = filter_radius(wd);
    Seq::new(8, |j: int| if 4 - r <= j < 4 + r { plane[tap_pos(stride, x, y, horiz, k, j)] as int } else { 0 })
}

/// `plane` with taps `j..hi` of line `k` set to `new`.
pub open spec fn write_taps(plane: Seq<u16>, stride: int, x: int, y: int, horiz: bool, k: int, new: Seq<int>, j: int, hi: int) -> Seq<u16>
    decreases hi - j,
{
    if j >= hi {
        plane
    } else {
        write_taps(plane.update(tap_pos(stride, x, y, horiz, k, j), new[j] as u16), stride, x, y, horiz, k, new, j + 1, hi)
    }
}

/// The plane after line `k` of the edge is filtered.
pub open spec fn filter_one_line(plane: Seq<u16>, stride: int, x: int, y: int, horiz: bool, k: int, th: EdgeThresholds) -> Seq<u16> {
    if !line_active(plane.len() as int, stride, x, y, horiz, k, th.wd) {
        plane
    } else {
        let r = filter_radius(th.wd);
        let new = filter_line_spec(line_taps(plane, stride, x, y, horiz, k, th.wd), th);
        write_taps(plane, stride, x, y, horiz, k, new, 4 - r, 4 + r)
    }
}

/// The plane after lines `k..4` of the edge are filtered, in order.
pub open spec fn filter_lines(plane: Seq<u16>, stride: int, x: int, y: int, horiz: bool, k: int, th: EdgeThresholds) -> Seq<u16>
    decreases 4 - k,
{
    if k >= 4 {
        plane
    } else {
        filter_lines(filter_one_line(plane, stride, x, y, horiz, k, th), stride, x, y, horiz, k + 1, th)
    }
}

/// The thresholds of an edge, scaled from 8-bit units to the bit depth.
pub open spec fn edge_thresholds(e: i32, i: i32, h: i32, wd: u8, bd_max: u16, bd_min_8: i32) -> EdgeThresholds {
    let s = if bd_min_8 == 0 { 1int } else if bd_min_8 == 1 { 2int } else { 4int };
    EdgeThresholds {
        e: e * s,
        i: i * s,
        h: h * s,
        f: s,
        clip_max: 128 * s - 1,
        bd_max: bd_max as int,
        wd: wd as int,
    }
}

/// The filtered plane after one edge of four lines at `(x, y)`.
pub open spec fn edge_spec(plane: Seq<u16>, stride: int, x: int, y: int, horiz: bool, th: EdgeThresholds) -> Seq<u16> {
    filter_lines(plane, stride, x, y, horiz, 0, th)
}

proof fn lemma_tap_in_plane(len: int, stride: int, x: int, y: int, horiz: bool, k: int, wd: int, j: int)
    requires
        0 < stride,
        0 <= len,
        0 <= x,
        0 <= y,
        0 <= k < 4,
        line_active(len, stride, x, y, horiz, k, wd),
        4 - filter_radius(wd) <= j < 4 + filter_radius(wd),
    ensures
        0 <= tap_pos(stride, x, y, horiz, k, j) < len,
        horiz ==> 0 <= y + j - 4 && (y + j - 4) * stride <= tap_pos(stride, x, y, horiz, k, j),
        !horiz ==> 0 <= x + j - 4 && (y + k) * stride <= tap_pos(stride, x, y, horiz, k, j),
{
    let plane_h = len / stride;
    assert(plane_h * stride <= len) by (nonlinear_arith)
        requires
            plane_h == len / stride,
            0 < stride,
            0 <= len,
    ;
    let row = if horiz { y + j - 4 } else { y + k };
    assert(0 <= row < plane_h);
    assert((row + 1) * stride <= plane_h * stride) by (nonlinear_arith)
        requires
            row + 1 <= plane_h,
            0 < stride,
    ;
    assert(0 <= row * stride) by (nonlinear_arith)
        requires
            0 <= row,
            0 < stride,
    ;
    assert((row + 1) * stride == row * stride + stride) by (nonlinear_arith);
}

/// The pixel index of tap `j` on line `k`.
fn tap_index(len: usize, stride: usize, x: usize, y: usize, horiz: bool, k: usize, wd: u8, j: usize) -> (r: usize)
    requires
        0 < stride,
        k < 4,
        line_active(len as int, stride as int, x as int, y as int, horiz, k as int, wd as int),
        4 - filter_radius(wd as int) <= j < 4 + filter_radius(wd as int),
    ensures
        r as int == tap_pos(stride as int, x as int, y as int, horiz, k as int, j as int),
        r < len,
{
    proof {
        lemma_tap_in_plane(len as int, stride as int, x as int, y as int, horiz, k as int, wd as int, j as int);
    }
    if horiz {
        let row = if j >= 4 { y + (j - 4) } else { y - (4 - j) };
        row * stride + (x + k)
    } else {
        let col = if j >= 4 { x + (j - 4) } else { x - (4 - j) };
        (y + k) * stride + col
    }
}

/// Reads the taps of line `k` that the filter uses; the others are 0.
fn read_taps(plane: &[u16], stride: usize, x: usize, y: usize, horiz: bool, k: usize, wd: u8) -> (t: [i32; 8])
    requires
        0 < stride,
        k < 4,
        line_active(plane@.len() as int, stride as int, x as int, y as int, horiz, k as int, wd as int),
    ensures
        tap_ints(t@) == line_taps(plane@, stride as int, x as int, y as int, horiz, k as int, wd as int),
        taps_fit(t@),
{
    let radius: usize = if wd > 6 { 4 } else if wd > 4 { 3 } else { 2 };
    let mut t = [0i32; 8];
    let mut j: usize = 4 - radius;
    while j < 4 + radius
        invariant
            radius as int == filter_radius(wd as int),
            4 - radius <= j <= 4 + radius,
            0 < stride,
            k < 4,
            line_active(plane@.len() as int, stride as int, x as int, y as int, horiz, k as int, wd as int),
            forall|jj: int| 0 <= jj < 8 ==> 0 <= #[trigger] t@[jj] <= 0xffff,
            forall|jj: int| 4 - radius <= jj < j ==> #[trigger] t@[jj] as int == plane@[tap_pos(stride as int, x as int, y as int, horiz, k as int, jj)] as int,
            forall|jj: int| 0 <= jj < 8 && !(4 - radius <= jj < j) ==> #[trigger] t@[jj] == 0,
        decreases 4 + radius - j,
    {
        let idx = tap_index(plane.len(), stride, x, y, horiz, k, wd, j);
        t[j] = plane[idx] as i32;
        j += 1;
    }
    assert(tap_ints(t@) =~= line_taps(plane@, stride as int, x as int, y as int, horiz, k as int, wd as int));
    t
}

/// Writes taps `4 - radius .. 4 + radius` of line `k`.
fn write_line(plane: &mut [u16], stride: usize, x: usize, y: usize, horiz: bool, k: usize, wd: u8, t: [i32; 8])
    requires
        0 < stride,
        k < 4,
        line_active(old(plane)@.len() as int, stride as int, x as int, y as int, horiz, k as int, wd as int),
        taps_fit(t@),
    ensures
        final(plane)@.len() == old(plane)@.len(),
        final(plane)@ == write_taps(
            old(plane)@,
            stride as int,
            x as int,
            y as int,
            horiz,
            k as int,
            tap_ints(t@),
            4 - filter_radius(wd as int),
            4 + filter_radius(wd as int),
        ),
{
    let ghost base = plane@;
    let radius: usize = if wd > 6 { 4 } else if wd > 4 { 3 } else { 2 };
    let ghost lo = 4 - radius;
    let mut j: usize = 4 - radius;
    while j < 4 + radius
        invariant
            radius as int == filter_radius(wd as int),
            4 - radius <= j <= 4 + radius,
            0 < stride,
            k < 4,
            plane@.len() == base.len(),
            line_active(base.len() as int, stride as int, x as int, y as int, horiz, k as int, wd as int),
            taps_fit(t@),
            write_taps(plane@, stride as int, x as int, y as int, horiz, k as int, tap_ints(t@), j as int, 4 + radius)
                == write_taps(base, stride as int, x as int, y as int, horiz, k as int, tap_ints(t@), lo, 4 + radius),
        decreases 4 + radius - j,
    {
        let idx = tap_index(plane.len(), stride, x, y, horiz, k, wd, j);
        assert(0 <= t@[j as int] <= 0xffff);
        assert(tap_ints(t@)[j as int] as u16 == t@[j as int] as u16);
        plane[idx] = t[j] as u16;
        j += 1;
    }
}

/// The factor `2^bd_min_8` by which 8-bit thresholds grow with the bit depth.
pub open spec fn depth_scale(bd_min_8: i32) -> int {
    if bd_min_8 == 0 { 1 } else if bd_min_8 == 1 { 2 } else { 4 }
}

/// A threshold scaled to the bit depth still fits in an `i32`.
pub open spec fn scaled_fits(v: i32, bd_min_8: i32) -> bool {
    i32::MIN <= v * depth_scale(bd_min_8) <= i32::MAX
}

/// `v` scaled from 8-bit units to the bit depth.
fn scale_threshold(v: i32, bd_min_8: i32) -> (r: i32)
    requires
        0 <= bd_min_8 <= 2,
        scaled_fits(v, bd_min_8),
    ensures
        r as int == v * depth_scale(bd_min_8),
{
    if bd_min_8 == 0 {
        v
    } else if bd_min_8 == 1 {
        v * 2
    } else {
        v * 4
    }
}

/// Filters the four lines of one edge whose first q0 pixel is at `(x, y)`:
/// a vertical edge runs down four rows, a horizontal one along four columns.
/// `e`, `i`, `h` are 8-bit thresholds, scaled by `2^bd_min_8`.
pub fn loop_filter_edge(
    plane: &mut [u16],
    stride: usize,
    x: usize,
    y: usize,
    horiz: bool,
    e: i32,
    i: i32,
    h: i32,
    wd: u8,
    bd_max: u16,
    bd_min_8: i32,
)
    requires
        0 < stride,
        0 <= bd_min_8 <= 2,
        scaled_fits(e, bd_min_8),
        scaled_fits(i, bd_min_8),
        scaled_fits(h, bd_min_8),
        x + 8 <= usize::MAX,
        y + 8 <= usize::MAX,
    ensures
        final(plane)@ == edge_spec(
            old(plane)@,
            stride as int,
            x as int,
            y as int,
            horiz,
            edge_thresholds(e, i, h, wd, bd_max, bd_min_8),
        ),
{
    let ghost th = edge_thresholds(e, i, h, wd, bd_max, bd_min_8);
    let ghost target = edge_spec(plane@, stride as int, x as int, y as int, horiz, th);
    let s: i32 = if bd_min_8 == 0 { 1 } else if bd_min_8 == 1 { 2 } else { 4 };
    let ev = scale_threshold(e, bd_min_8);
    let iv = scale_threshold(i, bd_min_8);
    let hv = scale_threshold(h, bd_min_8);
    let clip_max = 128 * s - 1;
    assert(thresholds(ev, iv, hv, s, clip_max, bd_max, wd) == th);
    let plane_h = plane.len() / stride;
    let radius: usize = if wd > 6 { 4 } else if wd > 4 { 3 } else { 2 };
    let mut k: usize = 0;
    while k < 4
        invariant
            0 <= k <= 4,
            0 < stride,
            x + 8 <= usize::MAX,
            y + 8 <= usize::MAX,
            plane_h as int == (plane@.len() as int) / (stride as int),
            radius as int == filter_radius(wd as int),
            0 <= clip_max <= 0x1000,
            thresholds(ev, iv, hv, s, clip_max, bd_max, wd) == th,
            filter_lines(plane@, stride as int, x as int, y as int, horiz, k as int, th) == target,
        decreases 4 - k,
    {
        let px = if horiz { x + k } else { x };
        let py = if horiz { y } else { y + k };
        let inside = if horiz { py >= radius && py + radius <= plane_h } else { px >= radius && px + radius <= stride };
        let active = px < stride && py < plane_h && inside;
        assert(active == line_active(plane@.len() as int, stride as int, x as int, y as int, horiz, k as int, wd as int));
        if active {
            let t = read_taps(plane, stride, x, y, horiz, k, wd);
            let nt = filter_taps(t, ev, iv, hv, s, clip_max, bd_max, wd);
            write_line(plane, stride, x, y, horiz, k, wd, nt);
        }
        k += 1;
    }
}

/// The plane after the edges at `(x, y)`, `(x + xs, y)`, ... below `xlim`, in order.
pub open spec fn edges_along(plane: Seq<u16>, stride: int, y: int, x: int, xs: int, xlim: int, horiz: bool, th: EdgeThresholds) -> Seq<u16>
    decreases xlim - x + xs,
{
    if x >= xlim || xs <= 0 {
        plane
    } else {
        edges_along(edge_spec(plane, stride, x, y, horiz, th), stride, y, x + xs, xs, xlim, horiz, th)
    }
}

/// The plane after the edges along the rows `y`, `y + ys`, ... below `ylim`,
/// each row from `x0` in steps of `xs` below `xlim`, in order.
pub open spec fn edge_grid(
    plane: Seq<u16>,
    stride: int,
    y: int,
    ys: int,
    ylim: int,
    x0: int,
    xs: int,
    xlim: int,
    horiz: bool,
    th: EdgeThresholds,
) -> Seq<u16>
    decreases ylim - y + ys,
{
    if y >= ylim || ys <= 0 {
        plane
    } else {
        edge_grid(edges_along(plane, stride, y, x0, xs, xlim, horiz, th), stride, y + ys, ys, ylim, x0, xs, xlim, horiz, th)
    }
}

/// Filters the edges of a grid, row by row; see [`edge_grid`].
fn filter_edge_grid(
    plane: &mut [u16],
    stride: usize,
    y0: usize,
    ys: usize,
    ylim: usize,
    x0: usize,
    xs: usize,
    xlim: usize,
    horiz: bool,
    e: i32,
    i: i32,
    h: i32,
    wd: u8,
    bd_max: u16,
    bd_min_8: i32,
)
    requires
        0 < ys <= 8,
        0 < xs <= 8,
        xlim <= stride,
        ylim + 16 <= usize::MAX,
        stride + 16 <= usize::MAX,
        0 <= bd_min_8 <= 2,
        scaled_fits(e, bd_min_8),
        scaled_fits(i, bd_min_8),
        scaled_fits(h, bd_min_8),
    ensures
        final(plane)@ == edge_grid(
            old(plane)@,
            stride as int,
            y0 as int,
            ys as int,
            ylim as int,
            x0 as int,
            xs as int,
            xlim as int,
            horiz,
            edge_thresholds(e, i, h, wd, bd_max, bd_min_8),
        ),
{
    let ghost th = edge_thresholds(e, i, h, wd, bd_max, bd_min_8);
    let ghost target = edge_grid(plane@, stride as int, y0 as int, ys as int, ylim as int, x0 as int, xs as int, xlim as int, horiz, th);
    let mut y = y0;
    while y < ylim
        invariant
            0 < ys <= 8,
            0 < xs <= 8,
            xlim <= stride,
            ylim + 16 <= usize::MAX,
            stride + 16 <= usize::MAX,
            0 <= bd_min_8 <= 2,
            scaled_fits(e, bd_min_8),
            scaled_fits(i, bd_min_8),
            scaled_fits(h, bd_min_8),
            th == edge_thresholds(e, i, h, wd, bd_max, bd_min_8),
            edge_grid(plane@, stride as int, y as int, ys as int, ylim as int, x0 as int, xs as int, xlim as int, horiz, th) == target,
        decreases ylim + ys - y,
    {
        let ghost row_target = edges_along(plane@, stride as int, y as int, x0 as int, xs as int, xlim as int, horiz, th);
        let mut x = x0;
        while x < xlim
            invariant
                0 < xs <= 8,
                xlim <= stride,
                y < ylim,
                ylim + 16 <= usize::MAX,
                stride + 16 <= usize::MAX,
                0 <= bd_min_8 <= 2,
                scaled_fits(e, bd_min_8),
                scaled_fits(i, bd_min_8),
                scaled_fits(h, bd_min_8),
                th == edge_thresholds(e, i, h, wd, bd_max, bd_min_8),
                edges_along(plane@, stride as int, y as int, x as int, xs as int, xlim as int, horiz, th) == row_target,
            decreases xlim + xs - x,
        {
            loop_filter_edge(plane, stride, x, y, horiz, e, i, h, wd, bd_max, bd_min_8);
            x += xs;
        }
        y += ys;
    }
}

/// The thresholds that a filter level and sharpness give an edge.
pub open spec fn level_thresholds(level: u8, sharpness: u8, wd: u8, bd_max: u16, bd_min_8: i32) -> EdgeThresholds {
    let limit = limit_spec(level as int, sharpness as int);
    edge_thresholds((2 * (level + 2) + limit) as i32, limit as i32, (level / 16) as i32, wd, bd_max, bd_min_8)
}

/// One plane after the loop filter: the vertical edges first, then the
/// horizontal ones, each pass only when its level is set and the plane is
/// wide (or tall) enough.
pub open spec fn plane_filtered(
    p: Seq<u16>,
    w: int,
    h: int,
    vert_level: u8,
    horiz_level: u8,
    vert_on: bool,
    horiz_on: bool,
    sharpness: u8,
    wd: u8,
    bd_max: u16,
    bd_min_8: i32,
) -> Seq<u16> {
    let v = if vert_level > 0 && vert_on {
        edge_grid(p, w, 0, 4, h, 8, 8, w, false, level_thresholds(vert_level, sharpness, wd, bd_max, bd_min_8))
    } else {
        p
    };
    if horiz_level > 0 && horiz_on {
        edge_grid(v, w, 8, 8, h, 0, 4, w, true, level_thresholds(horiz_level, sharpness, wd, bd_max, bd_min_8))
    } else {
        v
    }
}

/// Filters one plane: vertical edges every 8 columns, then horizontal edges every 8 rows.
fn filter_plane(
    plane: &mut [u16],
    w: usize,
    h: usize,
    vert_level: u8,
    horiz_level: u8,
    vert_on: bool,
    horiz_on: bool,
    sharpness: u8,
    wd: u8,
    bd_max: u16,
    bd_min_8: i32,
)
    requires
        w + 16 <= usize::MAX,
        h + 16 <= usize::MAX,
        (vert_level > 0 && vert_on) || (horiz_level > 0 && horiz_on) ==> sharpness <= 124,
        0 <= bd_min_8 <= 2,
    ensures
        final(plane)@ == plane_filtered(old(plane)@, w as int, h as int, vert_level, horiz_level, vert_on, horiz_on, sharpness, wd, bd_max, bd_min_8),
{
    if vert_level > 0 && vert_on {
        let e = calc_e(vert_level, sharpness);
        let i_level = calc_i(vert_level, sharpness);
        let h_level = (vert_level / 16) as i32;
        filter_edge_grid(plane, w, 0, 4, h, 8, 8, w, false, e, i_level, h_level, wd, bd_max, bd_min_8);
    }
    if horiz_level > 0 && horiz_on {
        let e = calc_e(horiz_level, sharpness);
        let i_level = calc_i(horiz_level, sharpness);
        let h_level = (horiz_level / 16) as i32;
        filter_edge_grid(plane, w, 8, 8, h, 0, 4, w, true, e, i_level, h_level, wd, bd_max, bd_min_8);
    }
}

/// Applies the loop filter to a reconstructed picture: luma with the 8-wide
/// filter, chroma with the 4-wide one; a picture whose levels are all zero
/// is left as it is.
pub fn apply_loop_filter(pixels: &mut FramePixels, lfp: &LoopFilterParams)
    requires
        old(pixels).width <= 0x7fff_ffff,
        old(pixels).height <= 0x7fff_ffff,
        lfp.y_vert_level > 0 || lfp.y_horiz_level > 0 || (lfp.uv_vert_level > 0 && half_up(
            old(pixels).width as int,
        ) > 4) || (lfp.uv_horiz_level > 0 && half_up(old(pixels).height as int) > 8) ==> lfp.sharpness <= 124,
    ensures
        final(pixels).width == old(pixels).width,
        final(pixels).height == old(pixels).height,
        final(pixels).bit_depth == old(pixels).bit_depth,
        final(pixels).color_range == old(pixels).color_range,
        final(pixels).y@.len() == old(pixels).y@.len(),
        final(pixels).u@.len() == old(pixels).u@.len(),
        final(pixels).v@.len() == old(pixels).v@.len(),
        samples_within(old(pixels).y@, old(pixels).bit_depth.spec_max_value() as int) ==> samples_within(
            final(pixels).y@,
            old(pixels).bit_depth.spec_max_value() as int,
        ),
        samples_within(old(pixels).u@, old(pixels).bit_depth.spec_max_value() as int) ==> samples_within(
            final(pixels).u@,
            old(pixels).bit_depth.spec_max_value() as int,
        ),
        samples_within(old(pixels).v@, old(pixels).bit_depth.spec_max_value() as int) ==> samples_within(
            final(pixels).v@,
            old(pixels).bit_depth.spec_max_value() as int,
        ),
        final(pixels).y@ == plane_filtered(
            old(pixels).y@,
            old(pixels).width as int,
            old(pixels).height as int,
            lfp.y_vert_level,
            lfp.y_horiz_level,
            true,
            true,
            lfp.sharpness,
            8,
            old(pixels).bit_depth.spec_max_value(),
            (old(pixels).bit_depth.spec_bits() - 8) as i32,
        ),
        final(pixels).u@ == plane_filtered(
            old(pixels).u@,
            half_up(old(pixels).width as int),
            half_up(old(pixels).height as int),
            lfp.uv_vert_level,
            lfp.uv_horiz_level,
            half_up(old(pixels).width as int) > 4,
            half_up(old(pixels).height as int) > 8,
            lfp.sharpness,
            4,
            old(pixels).bit_depth.spec_max_value(),
            (old(pixels).bit_depth.spec_bits() - 8) as i32,
        ),
        final(pixels).v@ == plane_filtered(
            old(pixels).v@,
            half_up(old(pixels).width as int),
            half_up(old(pixels).height as int),
            lfp.uv_vert_level,
            lfp.uv_horiz_level,
            half_up(old(pixels).width as int) > 4,
            half_up(old(pixels).height as int) > 8,
            lfp.sharpness,
            4,
            old(pixels).bit_depth.spec_max_value(),
            (old(pixels).bit_depth.spec_bits() - 8) as i32,
        ),
{
    if lfp.y_vert_level == 0 && lfp.y_horiz_level == 0 && lfp.uv_vert_level == 0 && lfp.uv_horiz_level == 0 {
        return;
    }
    let w = pixels.width as usize;
    let h = pixels.height as usize;
    let bd = pixels.bit_depth.bits();
    let max_val = pixels.bit_depth.max_value();
    let bd_min_8 = (bd as i32) - 8;
    proof {
        crate::video::lemma_bit_depth_values(pixels.bit_depth);
        let uw = half_up(pixels.width as int);
        let uh = half_up(pixels.height as int);
        let sh = lfp.sharpness;
        lemma_plane_filtered_bounded(pixels.y@, w as int, h as int, lfp.y_vert_level, lfp.y_horiz_level, true, true, sh, 8, max_val, bd_min_8);
        lemma_plane_filtered_bounded(pixels.u@, uw, uh, lfp.uv_vert_level, lfp.uv_horiz_level, uw > 4, uh > 8, sh, 4, max_val, bd_min_8);
        lemma_plane_filtered_bounded(pixels.v@, uw, uh, lfp.uv_vert_level, lfp.uv_horiz_level, uw > 4, uh > 8, sh, 4, max_val, bd_min_8);
    }
    filter_plane(pixels.y.as_mut_slice(), w, h, lfp.y_vert_level, lfp.y_horiz_level, true, true, lfp.sharpness, 8, max_val, bd_min_8);
    let uv_w = div_ceil2(pixels.width) as usize;
    let uv_h = div_ceil2(pixels.height) as usize;
    filter_plane(pixels.u.as_mut_slice(), uv_w, uv_h, lfp.uv_vert_level, lfp.uv_horiz_level, uv_w > 4, uv_h > 8, lfp.sharpness, 4, max_val, bd_min_8);
    filter_plane(pixels.v.as_mut_slice(), uv_w, uv_h, lfp.uv_vert_level, lfp.uv_horiz_level, uv_w > 4, uv_h > 8, lfp.sharpness, 4, max_val, bd_min_8);
}

/// Every sample of `p` lies in `0..=m`.
pub open spec fn samples_within(p: Seq<u16>, m: int) -> bool {
    forall|j: int| 0 <= j < p.len() ==> #[trigger] p[j] <= m
}

/// A rounded average lies within `0..=bd_max`.
proof fn lemma_avg8_within(sum: int, bd_max: int)
    requires
        0 <= bd_max,
    ensures
        0 <= avg8_spec(sum, bd_max) <= bd_max,
{
    reveal(avg8_spec);
}

/// Filtering one line of taps keeps every tap within `0..=bd_max`.
proof fn lemma_filter_line_bounded(t: Seq<int>, k: EdgeThresholds)
    requires
        t.len() == 8,
        forall|j: int| 0 <= j < 8 ==> 0 <= #[trigger] t[j] <= k.bd_max,
    ensures
        filter_line_spec(t, k).len() == 8,
        forall|j: int| 0 <= j < 8 ==> 0 <= #[trigger] filter_line_spec(t, k)[j] <= k.bd_max,
{
    let m = k.bd_max;
    assert(0 <= t[0] <= m);
    assert(0 <= t[1] <= m && 0 <= t[2] <= m && 0 <= t[3] <= m);
    assert(0 <= t[4] <= m && 0 <= t[5] <= m && 0 <= t[6] <= m && 0 <= t[7] <= m);
    if !filter_mask(t, k) {
    } else if k.wd >= 8 && filter_flat(t, k) {
        lemma_avg8_within(t[0] * 3 + t[1] * 2 + t[2] + t[3] + t[4], m);
        lemma_avg8_within(t[0] * 2 + t[1] * 2 + t[2] * 2 + t[3] + t[4] + t[5], m);
        lemma_avg8_within(t[0] + t[1] + t[2] + t[3] * 2 + t[4] + t[5] + t[6], m);
        lemma_avg8_within(t[1] + t[2] + t[3] + t[4] * 2 + t[5] + t[6] + t[7], m);
        lemma_avg8_within(t[2] + t[3] + t[4] + t[5] * 2 + t[6] + t[7] * 2, m);
        lemma_avg8_within(t[3] + t[4] + t[5] + t[6] * 2 + t[7] * 3, m);
    } else if k.wd == 6 && filter_flat(t, k) {
        lemma_avg8_within(t[1] * 3 + t[2] * 2 + t[3] * 2 + t[4], m);
        lemma_avg8_within(t[1] + t[2] * 2 + t[3] * 2 + t[4] * 2 + t[5], m);
        lemma_avg8_within(t[2] + t[3] * 2 + t[4] * 2 + t[5] * 2 + t[6], m);
        lemma_avg8_within(t[3] + t[4] * 2 + t[5] * 2 + t[6] * 3, m);
    }
}

/// A line of equal taps comes out of the six-tap and the narrow filters
/// unchanged: every average the six-tap filter takes weighs its taps by
/// eight in all, and the narrow filter finds no step to correct.
pub proof fn lemma_flat_line_unchanged(t: Seq<int>, k: EdgeThresholds)
    requires
        t.len() == 8,
        0 <= t[0] <= k.bd_max,
        forall|j: int| 0 <= j < 8 ==> #[trigger] t[j] == t[0],
        0 <= k.clip_max,
        k.wd < 8,
    ensures
        filter_line_spec(t, k) == t,
{
    reveal(avg8_spec);
    reveal(narrow_steps);
    let v = t[0];
    assert(t[1] == v && t[2] == v && t[3] == v && t[4] == v && t[5] == v && t[6] == v && t[7] == v);
    assert((v * 8 + 4) / 8 == v);
    if filter_mask(t, k) {
        if k.wd == 6 && filter_flat(t, k) {
            assert(wide6_spec(t, k.bd_max) =~= t);
        } else {
            let hev = abs_spec(t[2] - t[3]) > k.h || abs_spec(t[5] - t[4]) > k.h;
            assert(narrow_steps(t[2], t[3], t[4], t[5], hev, k.clip_max) == (0int, 0int));
            assert(narrow_spec(t, hev, k.clip_max, k.bd_max) =~= t);
        }
    }
}

/// Writing taps that lie within `0..=m` keeps the plane's length and its samples within `0..=m`.
proof fn lemma_write_taps_bounded(
    plane: Seq<u16>,
    stride: int,
    x: int,
    y: int,
    horiz: bool,
    k: int,
    new: Seq<int>,
    j: int,
    hi: int,
    m: int,
)
    requires
        forall|jj: int| j <= jj < hi ==> 0 <= #[trigger] tap_pos(stride, x, y, horiz, k, jj) < plane.len(),
    ensures
        write_taps(plane, stride, x, y, horiz, k, new, j, hi).len() == plane.len(),
        samples_within(plane, m) && (forall|jj: int| j <= jj < hi ==> 0 <= #[trigger] new[jj] <= m)
            ==> samples_within(write_taps(plane, stride, x, y, horiz, k, new, j, hi), m),
    decreases hi - j,
{
    if j < hi {
        let next = plane.update(tap_pos(stride, x, y, horiz, k, j), new[j] as u16);
        assert(tap_pos(stride, x, y, horiz, k, j) < plane.len());
        if samples_within(plane, m) && (forall|jj: int| j <= jj < hi ==> 0 <= #[trigger] new[jj] <= m) {
            assert(0 <= new[j] <= m);
            assert(samples_within(next, m));
        }
        lemma_write_taps_bounded(next, stride, x, y, horiz, k, new, j + 1, hi, m);
    }
}

/// Filtering lines `k..4` of an edge keeps the plane's length and its samples within the bit depth.
proof fn lemma_filter_lines_bounded(plane: Seq<u16>, stride: int, x: int, y: int, horiz: bool, k: int, th: EdgeThresholds)
    requires
        0 < stride,
        0 <= x,
        0 <= y,
        0 <= k <= 4,
    ensures
        filter_lines(plane, stride, x, y, horiz, k, th).len() == plane.len(),
        samples_within(plane, th.bd_max) ==> samples_within(filter_lines(plane, stride, x, y, horiz, k, th), th.bd_max),
    decreases 4 - k,
{
    if k < 4 {
        let next = filter_one_line(plane, stride, x, y, horiz, k, th);
        if line_active(plane.len() as int, stride, x, y, horiz, k, th.wd) {
            let r = filter_radius(th.wd);
            let t = line_taps(plane, stride, x, y, horiz, k, th.wd);
            let new = filter_line_spec(t, th);
            assert forall|jj: int| 4 - r <= jj < 4 + r implies 0 <= #[trigger] tap_pos(stride, x, y, horiz, k, jj) < plane.len() by {
                lemma_tap_in_plane(plane.len() as int, stride, x, y, horiz, k, th.wd, jj);
            }
            lemma_write_taps_bounded(plane, stride, x, y, horiz, k, new, 4 - r, 4 + r, th.bd_max);
            if samples_within(plane, th.bd_max) {
                assert(0 <= th.bd_max) by {
                    assert(0 <= tap_pos(stride, x, y, horiz, k, 4) < plane.len());
                    assert(plane[tap_pos(stride, x, y, horiz, k, 4)] <= th.bd_max);
                }
                assert forall|j: int| 0 <= j < 8 implies 0 <= #[trigger] t[j] <= th.bd_max by {
                    if 4 - r <= j < 4 + r {
                        assert(0 <= tap_pos(stride, x, y, horiz, k, j) < plane.len());
                    }
                }
                lemma_filter_line_bounded(t, th);
                assert forall|jj: int| 4 - r <= jj < 4 + r implies 0 <= #[trigger] new[jj] <= th.bd_max by {
                    assert(0 <= new[jj] <= th.bd_max);
                }
            }
        }
        lemma_filter_lines_bounded(next, stride, x, y, horiz, k + 1, th);
    }
}

/// The edges along one row keep the plane's length and its samples within the bit depth.
proof fn lemma_edges_along_bounded(plane: Seq<u16>, stride: int, y: int, x: int, xs: int, xlim: int, horiz: bool, th: EdgeThresholds)
    requires
        0 <= x,
        0 <= y,
        xlim <= stride,
    ensures
        edges_along(plane, stride, y, x, xs, xlim, horiz, th).len() == plane.len(),
        samples_within(plane, th.bd_max) ==> samples_within(edges_along(plane, stride, y, x, xs, xlim, horiz, th), th.bd_max),
    decreases xlim - x + xs,
{
    if x < xlim && xs > 0 {
        lemma_filter_lines_bounded(plane, stride, x, y, horiz, 0, th);
        lemma_edges_along_bounded(edge_spec(plane, stride, x, y, horiz, th), stride, y, x + xs, xs, xlim, horiz, th);
    }
}

/// A grid of edges keeps the plane's length and its samples within the bit depth.
proof fn lemma_edge_grid_bounded(
    plane: Seq<u16>,
    stride: int,
    y: int,
    ys: int,
    ylim: int,
    x0: int,
    xs: int,
    xlim: int,
    horiz: bool,
    th: EdgeThresholds,
)
    requires
        0 <= x0,
        0 <= y,
        xlim <= stride,
    ensures
        edge_grid(plane, stride, y, ys, ylim, x0, xs, xlim, horiz, th).len() == plane.len(),
        samples_within(plane, th.bd_max) ==> samples_within(edge_grid(plane, stride, y, ys, ylim, x0, xs, xlim, horiz, th), th.bd_max),
    decreases ylim - y + ys,
{
    if y < ylim && ys > 0 {
        lemma_edges_along_bounded(plane, stride, y, x0, xs, xlim, horiz, th);
        lemma_edge_grid_bounded(
            edges_along(plane, stride, y, x0, xs, xlim, horiz, th),
            stride,
            y + ys,
            ys,
            ylim,
            x0,
            xs,
            xlim,
            horiz,
            th,
        );
    }
}

/// The loop filter keeps a plane's length, and keeps every sample within
/// `0..=bd_max` when they all were before.
pub proof fn lemma_plane_filtered_bounded(
    p: Seq<u16>,
    w: int,
    h: int,
    vert_level: u8,
    horiz_level: u8,
    vert_on: bool,
    horiz_on: bool,
    sharpness: u8,
    wd: u8,
    bd_max: u16,
    bd_min_8: i32,
)
    requires
        0 <= w,
    ensures
        plane_filtered(p, w, h, vert_level, horiz_level, vert_on, horiz_on, sharpness, wd, bd_max, bd_min_8).len() == p.len(),
        samples_within(p, bd_max as int) ==> samples_within(
            plane_filtered(p, w, h, vert_level, horiz_level, vert_on, horiz_on, sharpness, wd, bd_max, bd_min_8),
            bd_max as int,
        ),
{
    let tv = level_thresholds(vert_level, sharpness, wd, bd_max, bd_min_8);
    let th = level_thresholds(horiz_level, sharpness, wd, bd_max, bd_min_8);
    lemma_edge_grid_bounded(p, w, 0, 4, h, 8, 8, w, false, tv);
    let v = if vert_level > 0 && vert_on { edge_grid(p, w, 0, 4, h, 8, 8, w, false, tv) } else { p };
    lemma_edge_grid_bounded(v, w, 8, 8, h, 0, 4, w, true, th);
}

/// A plane whose vertical and horizontal levels are both zero comes out of
/// the loop filter unchanged.
pub proof fn lemma_zero_levels_leave_plane(
    p: Seq<u16>,
    w: int,
    h: int,
    vert_on: bool,
    horiz_on: bool,
    sharpness: u8,
    wd: u8,
    bd_max: u16,
    bd_min_8: i32,
)
    ensures
        plane_filtered(p, w, h, 0, 0, vert_on, horiz_on, sharpness, wd, bd_max, bd_min_8) == p,
{
}

/// The narrow filter pulls `p0` and `q0` toward each other and never
/// widens the step between them (nor, without high edge variance, moves
/// `p1` or `q1` away); the taps further out are untouched. With high edge
/// variance the outer difference `p1 - q1` also feeds the correction, so
/// the statement there needs it to point the same way as the step.
pub proof fn lemma_narrow_pulls_inward(t: Seq<int>, hev: bool, clip_max: int, bd_max: int)
    requires
        t.len() == 8,
        forall|i: int| 0 <= i < 8 ==> 0 <= #[trigger] t[i] <= bd_max,
        clip_max >= 0,
    ensures
        ({
            let r = narrow_spec(t, hev, clip_max, bd_max);
            &&& r[0] == t[0] && r[1] == t[1] && r[6] == t[6] && r[7] == t[7]
            &&& hev ==> r[2] == t[2] && r[5] == t[5]
            &&& (t[3] <= t[4] && (hev ==> t[2] >= t[5])) ==> {
                &&& t[3] <= r[3] && r[4] <= t[4]
                &&& r[4] - r[3] <= t[4] - t[3]
                &&& !hev ==> t[2] <= r[2] && r[5] <= t[5]
            }
            &&& (t[3] >= t[4] && (hev ==> t[2] <= t[5])) ==> {
                &&& r[3] <= t[3] && t[4] <= r[4]
                &&& r[3] - r[4] <= t[3] - t[4]
                &&& !hev ==> r[2] <= t[2] && t[5] <= r[5]
            }
        }),
{
    reveal(narrow_steps);
    assert(0 <= t[2] <= bd_max && 0 <= t[3] <= bd_max && 0 <= t[4] <= bd_max && 0 <= t[5] <= bd_max);
}

/// A rounded eighth of a sum of eight samples between `lo` and `hi` lies
/// between them too.
proof fn lemma_avg8_between(sum: int, bd_max: int, lo: int, hi: int)
    requires
        0 <= lo <= hi <= bd_max,
        8 * lo <= sum <= 8 * hi,
    ensures
        lo <= avg8_spec(sum, bd_max) <= hi,
{
    reveal(avg8_spec);
}

/// The wide filters only average: every filtered tap lies between the
/// smallest and the largest tap of the line. The second tap of the eight-tap
/// filter is left out: its weights add up to nine eighths, so on a flat line
/// it can rise above the line.
pub proof fn lemma_wide_filters_stay_between(t: Seq<int>, bd_max: int, lo: int, hi: int)
    requires
        t.len() == 8,
        0 <= lo <= hi <= bd_max,
        forall|i: int| 0 <= i < 8 ==> lo <= #[trigger] t[i] <= hi,
    ensures
        forall|i: int| 0 <= i < 8 && i != 2 ==> lo <= #[trigger] wide8_spec(t, bd_max)[i] <= hi,
        forall|i: int| 0 <= i < 8 ==> lo <= #[trigger] wide6_spec(t, bd_max)[i] <= hi,
{
    assert(lo <= t[0] <= hi && lo <= t[1] <= hi && lo <= t[2] <= hi && lo <= t[3] <= hi);
    assert(lo <= t[4] <= hi && lo <= t[5] <= hi && lo <= t[6] <= hi && lo <= t[7] <= hi);
    lemma_avg8_between(t[0] * 3 + t[1] * 2 + t[2] + t[3] + t[4], bd_max, lo, hi);
    lemma_avg8_between(t[0] + t[1] + t[2] + t[3] * 2 + t[4] + t[5] + t[6], bd_max, lo, hi);
    lemma_avg8_between(t[1] + t[2] + t[3] + t[4] * 2 + t[5] + t[6] + t[7], bd_max, lo, hi);
    lemma_avg8_between(t[2] + t[3] + t[4] + t[5] * 2 + t[6] + t[7] * 2, bd_max, lo, hi);
    lemma_avg8_between(t[3] + t[4] + t[5] + t[6] * 2 + t[7] * 3, bd_max, lo, hi);
    lemma_avg8_between(t[1] * 3 + t[2] * 2 + t[3] * 2 + t[4], bd_max, lo, hi);
    lemma_avg8_between(t[1] + t[2] * 2 + t[3] * 2 + t[4] * 2 + t[5], bd_max, lo, hi);
    lemma_avg8_between(t[2] + t[3] * 2 + t[4] * 2 + t[5] * 2 + t[6], bd_max, lo, hi);
    lemma_avg8_between(t[3] + t[4] * 2 + t[5] * 2 + t[6] * 3, bd_max, lo, hi);
}

} // verus!
