use vstd::prelude::*;
use crate::tile::{
    predict_dc, predict_v, predict_h, predict_paeth, predict_smooth, predict_smooth_v, predict_smooth_h,
    flat_block, dc_value, paeth_spec, smooth_spec, smooth_v_spec, smooth_h_spec, DR_INTRA_DERIVATIVE,
    MODE_TO_ANGLE,
};

verus! {

broadcast use crate::shifts::lemma_shr6, crate::shifts::lemma_mask_3e;

/// `v` held to a byte.
pub open spec fn clamp255(v: int) -> int {
    if v < 0 {
        0
    } else if v > 255 {
        255
    } else {
        v
    }
}

/// The fractional position, in even 1/64ths, of a position in 1/64 pixel.
pub open spec fn frac64(p: int) -> int {
    p % 64 - p % 2
}

/// Pixel `(y, x)` of a prediction from the row above at an angle below 90
/// degrees: each row starts `dx * (y + 1)` sixty-fourths along and blends
/// two neighbours of the row above; past the last usable one (the
/// `w + min(w, h) - 1`th, or the last given) it repeats that one.
pub open spec fn z1_pixel(above: Seq<u8>, w: int, h: int, dx: int, y: int, x: int) -> u8 {
    let lim = above.len() - 1;
    let reach = w + (if w < h { w } else { h }) - 1;
    let max_base = if reach < lim { reach } else { lim };
    let pos = dx * (y + 1);
    let base = pos / 64 + x;
    if pos >= 0 && base < max_base {
        let f = frac64(pos);
        clamp255((above[base] * (64 - f) + above[base + 1] * f + 32) / 64) as u8
    } else {
        above[max_base]
    }
}

/// Pixel `(y, x)` of a prediction from the left column at an angle above
/// 180 degrees: the transpose of [`z1_pixel`], with the column to the left.
pub open spec fn z3_pixel(left: Seq<u8>, w: int, h: int, dy: int, y: int, x: int) -> u8 {
    let lim = left.len() - 1;
    let reach = h + (if w < h { w } else { h }) - 1;
    let max_base = if reach < lim { reach } else { lim };
    let pos = dy * (x + 1);
    let base = pos / 64 + y;
    if pos >= 0 && base < max_base {
        let f = frac64(pos);
        clamp255((left[base] * (64 - f) + left[base + 1] * f + 32) / 64) as u8
    } else {
        left[max_base]
    }
}

proof fn lemma_frac64(p: int)
    ensures
        0 <= frac64(p) <= 62,
{
}

/// `a * (64 - f) + b * f`: the blend of two neighbours at the fraction
/// `f` sixty-fourths of the way from `a` to `b`.
fn blend(a: u8, b: u8, f: i32) -> (r: i32)
    requires
        0 <= f <= 64,
    ensures
        r as int == a as int * (64 - f) + b as int * f,
        0 <= r <= 255 * 64,
{
    assert(0 <= a as int * (64 - f) + b as int * f <= 255 * 64) by (nonlinear_arith)
        requires
            0 <= f <= 64,
            a <= 255,
            b <= 255,
    ;
    assert(a as int * (64 - f) <= 255 * 64) by (nonlinear_arith)
        requires
            0 <= f <= 64,
            a <= 255,
    ;
    a as i32 * (64 - f) + b as i32 * f
}

/// Computes `(v + 32) >> 6`, held to a byte.
fn round_to_byte(v: i32) -> (r: u8)
    requires
        -0x1000_0000 <= v <= 0x1000_0000,
    ensures
        r as int == clamp255((v + 32) / 64),
{
    let p = (v + 32) >> 6u32;
    if p < 0 {
        0
    } else if p > 255 {
        255
    } else {
        p as u8
    }
}

/// Directional prediction from the row above, for angles below 90 degrees.
pub fn predict_directional_z1(above: &[u8], w: usize, h: usize, dx: i32) -> (r: Vec<u8>)
    requires
        1 <= w <= 4096,
        1 <= h <= 4096,
        above@.len() >= 1,
        -0x10000 <= dx <= 0x10000,
    ensures
        r@ == Seq::new((w * h) as nat, |i: int| z1_pixel(above@, w as int, h as int, dx as int, i / w as int, i % w as int)),
{
    assert(w * h <= 0x100_0000) by (nonlinear_arith)
        requires
            w <= 4096,
            h <= 4096,
    ;
    let n = w * h;
    let mn = if w < h {
        w
    } else {
        h
    };
    let lim = above.len() - 1;
    let max_base_x = if w + mn - 1 < lim {
        w + mn - 1
    } else {
        lim
    };
    let mut out: Vec<u8> = Vec::new();
    let mut i: usize = 0;
    while i < n
        invariant
            i <= n,
            n == w * h,
            1 <= w <= 4096,
            1 <= h <= 4096,
            -0x10000 <= dx <= 0x10000,
            lim == above@.len() - 1,
            max_base_x == (if w + mn - 1 < lim { w + mn - 1 } else { lim as int }),
            mn == (if w < h { w } else { h }),
            out@.len() == i,
            forall|j: int| 0 <= j < i ==> #[trigger] out@[j] == z1_pixel(above@, w as int, h as int, dx as int, j / w as int, j % w as int),
        decreases n - i,
    {
        let y = i / w;
        let x = i % w;
        assert(y < h) by (nonlinear_arith)
            requires
                i < w * h,
                y == i / w,
                1 <= w,
        ;
        assert(dx as int * (y as int + 1) <= 0x10000 * 4096 && dx as int * (y as int + 1) >= -0x10000 * 4096) by (nonlinear_arith)
            requires
                -0x10000 <= dx <= 0x10000,
                0 <= y < 4096,
        ;
        let pos = dx * (y as i32 + 1);
        let p: u8 = if pos >= 0 && ((pos >> 6u32) as usize) + x < max_base_x {
            let base = (pos >> 6u32) as usize + x;
            let f = pos & 0x3E;
            proof {
                lemma_frac64(pos as int);
            }
            let v = blend(above[base], above[base + 1], f);
            round_to_byte(v)
        } else {
            above[max_base_x]
        };
        out.push(p);
        i += 1;
    }
    assert(out@ =~= Seq::new((w * h) as nat, |i: int| z1_pixel(above@, w as int, h as int, dx as int, i / w as int, i % w as int)));
    out
}

/// Directional prediction from the column to the left, for angles above
/// 180 degrees.
pub fn predict_directional_z3(left: &[u8], w: usize, h: usize, dy: i32) -> (r: Vec<u8>)
    requires
        1 <= w <= 4096,
        1 <= h <= 4096,
        left@.len() >= 1,
        -0x10000 <= dy <= 0x10000,
    ensures
        r@ == Seq::new((w * h) as nat, |i: int| z3_pixel(left@, w as int, h as int, dy as int, i / w as int, i % w as int)),
{
    assert(w * h <= 0x100_0000) by (nonlinear_arith)
        requires
            w <= 4096,
            h <= 4096,
    ;
    let n = w * h;
    let mn = if w < h {
        w
    } else {
        h
    };
    let lim = left.len() - 1;
    let max_base_y = if h + mn - 1 < lim {
        h + mn - 1
    } else {
        lim
    };
    let mut out: Vec<u8> = Vec::new();
    let mut i: usize = 0;
    while i < n
        invariant
            i <= n,
            n == w * h,
            1 <= w <= 4096,
            1 <= h <= 4096,
            -0x10000 <= dy <= 0x10000,
            lim == left@.len() - 1,
            max_base_y == (if h + mn - 1 < lim { h + mn - 1 } else { lim as int }),
            mn == (if w < h { w } else { h }),
            out@.len() == i,
            forall|j: int| 0 <= j < i ==> #[trigger] out@[j] == z3_pixel(left@, w as int, h as int, dy as int, j / w as int, j % w as int),
        decreases n - i,
    {
        let y = i / w;
        let x = i % w;
        assert(y < h) by (nonlinear_arith)
            requires
                i < w * h,
                y == i / w,
                1 <= w,
        ;
        assert(dy as int * (x as int + 1) <= 0x10000 * 4096 && dy as int * (x as int + 1) >= -0x10000 * 4096) by (nonlinear_arith)
            requires
                -0x10000 <= dy <= 0x10000,
                0 <= x < 4096,
        ;
        let pos = dy * (x as i32 + 1);
        let p: u8 = if pos >= 0 && ((pos >> 6u32) as usize) + y < max_base_y {
            let base = (pos >> 6u32) as usize + y;
            let f = pos & 0x3E;
            proof {
                lemma_frac64(pos as int);
            }
            let v = blend(left[base], left[base + 1], f);
            round_to_byte(v)
        } else {
            left[max_base_y]
        };
        out.push(p);
        i += 1;
    }
    assert(out@ =~= Seq::new((w * h) as nat, |i: int| z3_pixel(left@, w as int, h as int, dy as int, i / w as int, i % w as int)));
    out
}

/// Entry `k` of the edge that a prediction between 90 and 180 degrees reads:
/// the left column bottom to top, the top-left pixel, then the row above.
pub open spec fn z2_edge(above: Seq<u8>, left: Seq<u8>, top_left: u8, h: int, k: int) -> int {
    if k < h {
        left[h - 1 - k] as int
    } else if k == h {
        top_left as int
    } else {
        above[k - h - 1] as int
    }
}

/// The blend, in 64ths, behind pixel `(y, x)` of a prediction between 90
/// and 180 degrees: from the row above where the step `dx` lands on or
/// right of the top-left pixel, else from the left column at step `dy`, and
/// the top-left pixel where neither reaches.
pub open spec fn z2_value(above: Seq<u8>, left: Seq<u8>, top_left: u8, w: int, h: int, dx: int, dy: int, y: int, x: int) -> int {
    let n = w + h + 1;
    let xpos = 64 - dx * (y + 1);
    let bx = xpos / 64 + x;
    if bx >= 0 {
        let idx = h + bx;
        let fx = frac64(xpos);
        if idx + 1 < n {
            z2_edge(above, left, top_left, h, idx) * (64 - fx) + z2_edge(above, left, top_left, h, idx + 1) * fx
        } else {
            z2_edge(above, left, top_left, h, n - 1) * 64
        }
    } else {
        let ypos = y * 64 - dy * (x + 1);
        let by = ypos / 64;
        let fy = frac64(ypos);
        if by >= 0 {
            let idx = h - 1 - by;
            if idx >= 1 {
                z2_edge(above, left, top_left, h, idx) * (64 - fy) + z2_edge(above, left, top_left, h, idx - 1) * fy
            } else if idx == 0 {
                z2_edge(above, left, top_left, h, 0) * 64
            } else {
                top_left as int * 64
            }
        } else {
            top_left as int * 64
        }
    }
}

/// Directional prediction from both edges, for angles between 90 and 180
/// degrees.
pub fn predict_directional_z2(
    above: &[u8],
    left: &[u8],
    top_left: u8,
    w: usize,
    h: usize,
    dx: i32,
    dy: i32,
) -> (r: Vec<u8>)
    requires
        1 <= w <= 4096,
        1 <= h <= 4096,
        above@.len() >= w,
        left@.len() >= h,
        -0x10000 <= dx <= 0x10000,
        -0x10000 <= dy <= 0x10000,
    ensures
        r@ == Seq::new(
            (w * h) as nat,
            |i: int|
                clamp255((z2_value(above@, left@, top_left, w as int, h as int, dx as int, dy as int, i / w as int, i % w as int) + 32) / 64) as u8,
        ),
{
    let mut edge: Vec<u8> = Vec::new();
    let mut k: usize = 0;
    while k < h
        invariant
            k <= h,
            left@.len() >= h,
            edge@.len() == k,
            forall|j: int| 0 <= j < k ==> #[trigger] edge@[j] as int == z2_edge(above@, left@, top_left, h as int, j),
        decreases h - k,
    {
        edge.push(left[h - 1 - k]);
        k += 1;
    }
    edge.push(top_left);
    let mut k: usize = 0;
    while k < w
        invariant
            k <= w,
            above@.len() >= w,
            left@.len() >= h,
            edge@.len() == h + 1 + k,
            forall|j: int| 0 <= j < h + 1 + k ==> #[trigger] edge@[j] as int == z2_edge(above@, left@, top_left, h as int, j),
        decreases w - k,
    {
        edge.push(above[k]);
        k += 1;
    }
    let len = edge.len();
    let tl_idx = h;
    assert(w * h <= 0x100_0000) by (nonlinear_arith)
        requires
            w <= 4096,
            h <= 4096,
    ;
    let n = w * h;
    let mut out: Vec<u8> = Vec::new();
    let mut i: usize = 0;
    while i < n
        invariant
            i <= n,
            n == w * h,
            1 <= w <= 4096,
            1 <= h <= 4096,
            tl_idx == h,
            len == w + h + 1,
            edge@.len() == len,
            -0x10000 <= dx <= 0x10000,
            -0x10000 <= dy <= 0x10000,
            forall|j: int| 0 <= j < len ==> #[trigger] edge@[j] as int == z2_edge(above@, left@, top_left, h as int, j),
            out@.len() == i,
            forall|j: int|
                0 <= j < i ==> #[trigger] out@[j] == clamp255(
                    (z2_value(above@, left@, top_left, w as int, h as int, dx as int, dy as int, j / w as int, j % w as int) + 32) / 64,
                ) as u8,
        decreases n - i,
    {
        let y = i / w;
        let x = i % w;
        assert(y < h) by (nonlinear_arith)
            requires
                i < w * h,
                y == i / w,
                1 <= w,
        ;
        assert(dx as int * (y as int + 1) <= 0x10000 * 4096 && dx as int * (y as int + 1) >= -0x10000 * 4096) by (nonlinear_arith)
            requires
                -0x10000 <= dx <= 0x10000,
                0 <= y < 4096,
        ;
        assert(dy as int * (x as int + 1) <= 0x10000 * 4096 && dy as int * (x as int + 1) >= -0x10000 * 4096) by (nonlinear_arith)
            requires
                -0x10000 <= dy <= 0x10000,
                0 <= x < 4096,
        ;
        let xpos_row = 64i32 - dx * (y as i32 + 1);
        let frac_x = xpos_row & 0x3E;
        let base_x = (xpos_row >> 6u32) + x as i32;
        proof {
            lemma_frac64(xpos_row as int);
        }
        let v: i32;
        if base_x >= 0 {
            let idx = tl_idx + base_x as usize;
            if idx + 1 < len {
                v = blend(edge[idx], edge[idx + 1], frac_x);
            } else {
                v = edge[len - 1] as i32 * 64;
            }
        } else {
            let ypos = (y as i32 * 64) - dy * (x as i32 + 1);
            let base_y = ypos >> 6u32;
            let frac_y = ypos & 0x3E;
            proof {
                lemma_frac64(ypos as int);
            }
            if base_y >= 0 {
                let idx = tl_idx as i32 - 1 - base_y;
                if idx >= 1 {
                    v = blend(edge[idx as usize], edge[(idx - 1) as usize], frac_y);
                } else if idx == 0 {
                    v = edge[0] as i32 * 64;
                } else {
                    v = top_left as i32 * 64;
                }
            } else {
                v = top_left as i32 * 64;
            }
        }
        assert(v as int == z2_value(above@, left@, top_left, w as int, h as int, dx as int, dy as int, y as int, x as int));
        out.push(round_to_byte(v));
        i += 1;
    }
    assert(out@ =~= Seq::new(
        (w * h) as nat,
        |i: int|
            clamp255((z2_value(above@, left@, top_left, w as int, h as int, dx as int, dy as int, i / w as int, i % w as int) + 32) / 64) as u8,
    ));
    out
}


/// Step `k` of the directional table.
pub open spec fn dr_step(k: int) -> int {
    DR_INTRA_DERIVATIVE[k] as int
}

/// The edges that a prediction at `angle` needs (the row above from 90
/// degrees down, both between 90 and 180, the left column from 180 up), and
/// an angle whose step the table holds.
pub open spec fn directional_ok(angle: int, above: Seq<u8>, left: Seq<u8>, have_above: bool, have_left: bool, w: int, h: int) -> bool {
    if angle <= 90 {
        if angle < 90 && have_above {
            0 <= angle <= 87 && above.len() >= 1
        } else {
            above.len() >= w
        }
    } else if angle < 180 {
        93 <= angle <= 177 && above.len() >= w && left.len() >= h
    } else if angle > 180 && have_left {
        183 <= angle <= 270 && left.len() >= 1
    } else {
        left.len() >= h
    }
}

/// The prediction at `angle`: from the row above below 90 degrees (a plain
/// copy at 90 or without that row), from both edges between 90 and 180,
/// from the left column above 180 (a plain copy at 180 or without that
/// column).
pub open spec fn directional_spec(
    angle: int,
    above: Seq<u8>,
    left: Seq<u8>,
    top_left: u8,
    have_above: bool,
    have_left: bool,
    w: int,
    h: int,
) -> Seq<u8> {
    if angle <= 90 {
        if angle < 90 && have_above {
            Seq::new((w * h) as nat, |i: int| z1_pixel(above, w, h, dr_step(angle / 2), i / w, i % w))
        } else {
            Seq::new((w * h) as nat, |i: int| above[i % w])
        }
    } else if angle < 180 {
        let dx = dr_step((180 - angle) / 2);
        let dy = dr_step((angle - 90) / 2);
        Seq::new(
            (w * h) as nat,
            |i: int| clamp255((z2_value(above, left, top_left, w, h, dx, dy, i / w, i % w) + 32) / 64) as u8,
        )
    } else if angle > 180 && have_left {
        Seq::new((w * h) as nat, |i: int| z3_pixel(left, w, h, dr_step((270 - angle) / 2), i / w, i % w))
    } else {
        Seq::new((w * h) as nat, |i: int| left[i / w])
    }
}

/// Directional prediction of a `w * h` block at `angle` degrees.
pub fn generate_directional_prediction(
    angle: i32,
    above: &[u8],
    left: &[u8],
    top_left: u8,
    have_above: bool,
    have_left: bool,
    w: usize,
    h: usize,
) -> (r: Vec<u8>)
    requires
        1 <= w <= 4096,
        1 <= h <= 4096,
        directional_ok(angle as int, above@, left@, have_above, have_left, w as int, h as int),
    ensures
        r@ == directional_spec(angle as int, above@, left@, top_left, have_above, have_left, w as int, h as int),
{
    assert(w * h <= 0x100_0000) by (nonlinear_arith)
        requires
            w <= 4096,
            h <= 4096,
    ;
    if angle <= 90 {
        if angle < 90 && have_above {
            let dx = DR_INTRA_DERIVATIVE[(angle / 2) as usize] as i32;
            predict_directional_z1(above, w, h, dx)
        } else {
            predict_v(above, w, h)
        }
    } else if angle < 180 {
        let dx = DR_INTRA_DERIVATIVE[((180 - angle) / 2) as usize] as i32;
        let dy = DR_INTRA_DERIVATIVE[((angle - 90) / 2) as usize] as i32;
        predict_directional_z2(above, left, top_left, w, h, dx, dy)
    } else if angle > 180 && have_left {
        let dy = DR_INTRA_DERIVATIVE[((270 - angle) / 2) as usize] as i32;
        predict_directional_z3(left, w, h, dy)
    } else {
        predict_h(left, w, h)
    }
}

/// The angle of directional mode `mode` (1 to 8) moved by `delta` steps of
/// three degrees.
pub open spec fn mode_angle(mode: u8, delta: i8) -> int {
    MODE_TO_ANGLE[mode - 1] + 3 * delta
}

/// The edges that prediction mode `mode` needs.
pub open spec fn prediction_ok(
    mode: u8,
    delta: i8,
    above: Seq<u8>,
    left: Seq<u8>,
    have_above: bool,
    have_left: bool,
    w: int,
    h: int,
) -> bool {
    if 1 <= mode <= 8 {
        directional_ok(mode_angle(mode, delta), above, left, have_above, have_left, w, h)
    } else if 9 <= mode <= 11 {
        w <= 64 && h <= 64 && above.len() >= w && left.len() >= h
    } else if mode == 12 {
        above.len() >= w && left.len() >= h
    } else {
        (have_above ==> above.len() >= w) && (have_left ==> left.len() >= h)
    }
}

/// The prediction that intra mode `mode` gives: directional for 1 to 8,
/// smooth for 9, vertical smooth for 10, horizontal smooth for 11, Paeth
/// for 12, DC otherwise.
#[verifier::opaque]
pub open spec fn prediction_spec(
    mode: u8,
    delta: i8,
    above: Seq<u8>,
    left: Seq<u8>,
    top_left: u8,
    have_above: bool,
    have_left: bool,
    w: int,
    h: int,
) -> Seq<u8> {
    if 1 <= mode <= 8 {
        directional_spec(mode_angle(mode, delta), above, left, top_left, have_above, have_left, w, h)
    } else if mode == 9 {
        Seq::new((w * h) as nat, |i: int| smooth_spec(above, left, w, h, i / w, i % w) as u8)
    } else if mode == 10 {
        Seq::new((w * h) as nat, |i: int| smooth_v_spec(above, left, h, i / w, i % w) as u8)
    } else if mode == 11 {
        Seq::new((w * h) as nat, |i: int| smooth_h_spec(above, left, w, i / w, i % w) as u8)
    } else if mode == 12 {
        Seq::new((w * h) as nat, |i: int| paeth_spec(above[i % w] as int, left[i / w] as int, top_left as int) as u8)
    } else {
        flat_block(dc_value(above, left, have_above, have_left, w, h), w, h)
    }
}

/// The intra prediction of a `w * h` block in mode `mode`, with the angle
/// moved by `delta` for the directional modes.
pub fn generate_prediction(
    mode: u8,
    delta: i8,
    above: &[u8],
    left: &[u8],
    top_left: u8,
    have_above: bool,
    have_left: bool,
    w: usize,
    h: usize,
) -> (r: Vec<u8>)
    requires
        1 <= w <= 4096,
        1 <= h <= 4096,
        prediction_ok(mode, delta, above@, left@, have_above, have_left, w as int, h as int),
    ensures
        r@ == prediction_spec(mode, delta, above@, left@, top_left, have_above, have_left, w as int, h as int),
        r@.len() == w * h,
{
    assert(w * h <= 0x100_0000) by (nonlinear_arith)
        requires
            w <= 4096,
            h <= 4096,
    ;
    proof {
        reveal(prediction_spec);
    }
    match mode {
        1..=8 => {
            let angle = MODE_TO_ANGLE[(mode - 1) as usize] + 3 * delta as i32;
            generate_directional_prediction(angle, above, left, top_left, have_above, have_left, w, h)
        },
        9 => predict_smooth(above, left, w, h),
        10 => predict_smooth_v(above, left, w, h),
        11 => predict_smooth_h(above, left, w, h),
        12 => predict_paeth(above, left, top_left, w, h),
        _ => predict_dc(above, left, have_above, have_left, w, h),
    }
}

} // verus!
