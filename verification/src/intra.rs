use vstd::prelude::*;

use crate::coef::{
    cdfs_valid, CoefOp, run_ops, state_of, code_bool, code_symbol, lemma_run_push, lemma_run_ops_append, SKIP_BASE,
    KF_Y_MODE_BASE, ANGLE_DELTA_BASE, UV_MODE_BASE, encode_transform_block, txb_ops, txb_result, lemma_scan_4x4_ok,
    lemma_scan_8x8_ok, lemma_scan_mag_sum_bound,
};
use crate::scan::{DEFAULT_SCAN_4X4, DEFAULT_SCAN_8X8};
use crate::tile::{sign_ctx, any_coded, span4, half_span_spec, dc_pred_spec, coef_ctx_value, filled, copied, run_len, PARTITION_CTX_NONE};
use crate::inter::{block_edges, edge_row, edge_col};
use crate::coef::last_nonzero;
use crate::inter::{cdf_view, skip_flags_ok, mi_count, lemma_pos, grey_plane, const_plane, fill_block, flat_plane, copy_rect, block_px};
use crate::msac::MsacEncoder;
use crate::tile::{TileContext, INTRA_MODE_CONTEXT, in_sb, quantize_spec};
use crate::y4m::half_up;
use crate::dct::{
    TxType, ints, bounded, forward_transform_8x8, forward_dct_4x4, forward_transform_8x8_spec,
    forward_transform_4x4_spec, lemma_forward_8x8_bound,
};
use crate::motion::{extract_block, edge_pixel};
use crate::rd_search::{select_best_intra_mode, select_best_txtype, intra_best, best_txtype_from, lemma_intra_best_predictable};
use crate::directional::{generate_prediction, prediction_spec};
use crate::tile::{quantize_coeffs, dequantize_coeffs, step_for};
use crate::dct::{inverse_transform_8x8, inverse_dct_4x4, inverse_transform_8x8_spec, inverse_transform_4x4_spec};

verus! {

/// Encoder state of one intra-coded tile: the range coder and its CDFs, the
/// neighbour context, the source picture, the quantizer steps, and the
/// reconstruction built so far (8-bit samples).
pub struct TileEncoder {
    pub enc: MsacEncoder,
    pub cdfs: Vec<Vec<u16>>,
    pub ctx: TileContext,
    pub mi_cols: u32,
    pub mi_rows: u32,
    pub width: u32,
    pub height: u32,
    pub src_y: Vec<u8>,
    pub src_u: Vec<u8>,
    pub src_v: Vec<u8>,
    pub dc_dq: u32,
    pub ac_dq: u32,
    pub recon_y: Vec<u8>,
    pub recon_u: Vec<u8>,
    pub recon_v: Vec<u8>,
}

impl TileEncoder {
    /// The encoder's parts fit together: the coder and CDFs are well formed,
    /// the planes have the picture's sizes, the quantizer steps are in range
    /// and the context spans the tile.
    pub open spec fn wf(&self) -> bool {
        &&& self.enc.wf()
        &&& cdfs_valid(cdf_view(self.cdfs@))
        &&& 1 <= self.width <= 0xffff
        &&& 1 <= self.height <= 0xffff
        &&& self.mi_cols == mi_count(self.width)
        &&& self.mi_rows == mi_count(self.height)
        &&& 1 <= self.dc_dq <= 0x10000
        &&& 1 <= self.ac_dq <= 0x10000
        &&& self.src_y@.len() == self.width * self.height
        &&& self.recon_y@.len() == self.width * self.height
        &&& self.src_u@.len() == half_up(self.width as int) * half_up(self.height as int)
        &&& self.src_v@.len() == half_up(self.width as int) * half_up(self.height as int)
        &&& self.recon_u@.len() == half_up(self.width as int) * half_up(self.height as int)
        &&& self.recon_v@.len() == half_up(self.width as int) * half_up(self.height as int)
        &&& self.ctx.above_skip@.len() == self.mi_cols + 32
        &&& self.ctx.above_recon_y@.len() == self.mi_cols * 4 + 32
        &&& self.ctx.above_recon_u@.len() == self.ctx.above_recon_v@.len()
        &&& skip_flags_ok(self.ctx)
    }
}

/// Sixteen edge samples from `e` at `start`: the ones that exist, the
/// eighth repeated for a short edge, 128 where there is no edge.
pub open spec fn edge16(e: Seq<u8>, start: int, have: bool) -> Seq<u8> {
    Seq::new(
        16,
        |i: int| if have && start + i < e.len() {
            e[start + i]
        } else if have && i < 8 {
            e[if start + 7 < e.len() - 1 { start + 7 } else { e.len() - 1 }]
        } else {
            128u8
        },
    )
}

/// The luma edges of the block at `(bx, by)`: above, left, and the corner.
pub open spec fn luma_edges(c: TileContext, bx: u32, by: u32) -> (Seq<u8>, Seq<u8>, u8) {
    let ha = by > 0;
    let hl = bx > 0;
    let px = 4 * bx as int;
    let lp = 4 * (by as int % 16);
    let tl = if ha && hl {
        if lp > 0 { c.left_recon_y@[lp - 1] } else if px > 0 { c.above_recon_y@[px - 1] } else { 128u8 }
    } else {
        128u8
    };
    (edge16(c.above_recon_y@, px, ha), edge16(c.left_recon_y@, lp, hl), tl)
}

/// Reads sixteen edge samples.
fn read_edge16(e: &[u8], start: usize, have: bool) -> (r: Vec<u8>)
    requires
        e@.len() >= 1,
        start <= 0x1000_0000,
    ensures
        r@ == edge16(e@, start as int, have),
{
    let mut r: Vec<u8> = Vec::new();
    let mut i: usize = 0;
    while i < 16
        invariant
            i <= 16,
            e@.len() >= 1,
            start <= 0x1000_0000,
            r@ == edge16(e@, start as int, have).take(i as int),
        decreases 16 - i,
    {
        let v = if have && start + i < e.len() {
            e[start + i]
        } else if have && i < 8 {
            let j = if start + 7 < e.len() - 1 { start + 7 } else { e.len() - 1 };
            e[j]
        } else {
            128
        };
        r.push(v);
        i += 1;
        assert(r@ =~= edge16(e@, start as int, have).take(i as int));
    }
    assert(r@ =~= edge16(e@, start as int, have));
    r
}

/// Reads the luma edges of the block at `(bx, by)`.
fn read_luma_edges(c: &TileContext, bx: u32, by: u32) -> (r: (Vec<u8>, Vec<u8>, u8))
    requires
        4 * bx < c.above_recon_y@.len(),
        bx < 0x4000,
    ensures
        (r.0@, r.1@, r.2) == luma_edges(*c, bx, by),
{
    proof {
        crate::tile::lemma_low4(by);
    }
    let px = (bx * 4) as usize;
    let lp = ((by & 15) * 4) as usize;
    let ha = by > 0;
    let hl = bx > 0;
    let above = read_edge16(c.above_recon_y.as_slice(), px, ha);
    let left = read_edge16(&c.left_recon_y, lp, hl);
    let tl = if ha && hl {
        if lp > 0 {
            c.left_recon_y[lp - 1]
        } else if px > 0 {
            c.above_recon_y[px - 1]
        } else {
            128
        }
    } else {
        128
    };
    (above, left, tl)
}

/// The `n` x `n` block of a plane at `(px, py)`, repeating the frame's last
/// row and column past its edge.
pub open spec fn block_at(p: Seq<u8>, stride: int, px: int, py: int, n: int, fw: int, fh: int) -> Seq<u8> {
    Seq::new((n * n) as nat, |i: int| edge_pixel(p, stride, px + i % n, py + i / n, fw, fh))
}

/// Sample differences.
pub open spec fn diff(a: Seq<u8>, b: Seq<u8>) -> Seq<int> {
    Seq::new(a.len(), |i: int| a[i] - b[i])
}

/// Differences from a constant.
pub open spec fn diff_from(a: Seq<u8>, p: int) -> Seq<int> {
    Seq::new(a.len(), |i: int| a[i] - p)
}

/// Quantized coefficients: the first with the DC step, the others with the AC step.
pub open spec fn quant_seq(cf: Seq<int>, dc_dq: u32, ac_dq: u32) -> Seq<i32> {
    Seq::new(cf.len(), |i: int| quantize_spec(cf[i], step_for(i, dc_dq, ac_dq)) as i32)
}

/// A quantized coefficient is no larger than the coefficient.
proof fn lemma_quantize_smaller(c: int, dq: int)
    requires
        1 <= dq,
    ensures
        -(if c < 0 { -c } else { c }) <= quantize_spec(c, dq) <= (if c < 0 { -c } else { c }),
{
    let a = if c < 0 { -c } else { c };
    assert((a + dq / 2) / dq <= a) by (nonlinear_arith)
        requires
            a >= 0,
            dq >= 1,
    {
        if a == 0 {
            assert(dq / 2 < dq);
        } else {
            assert(a + dq / 2 <= a * dq);
        }
    }
    assert((a + dq / 2) / dq >= 0) by (nonlinear_arith)
        requires
            a >= 0,
            dq >= 1,
    ;
}

/// Quantizes `n` coefficients bounded by `b`.
pub(crate) fn quantize_bounded(cf: &[i32], n: usize, dc_dq: u32, ac_dq: u32, Ghost(b): Ghost<int>) -> (r: Vec<i32>)
    requires
        n == cf@.len(),
        1 <= dc_dq <= 0x10000,
        1 <= ac_dq <= 0x10000,
        0 <= b <= 0x100000,
        bounded(ints(cf@), b),
    ensures
        r@ == quant_seq(ints(cf@), dc_dq, ac_dq),
        forall|i: int| 0 <= i < n ==> -b <= #[trigger] r@[i] <= b,
{
    assert forall|i: int| 0 <= i < n implies -0x4000_0000 <= #[trigger] cf@[i] <= 0x4000_0000 by {
        assert(-b <= ints(cf@)[i] <= b);
    }
    let r = quantize_coeffs(cf, n, dc_dq, ac_dq);
    assert forall|i: int| 0 <= i < n implies -b <= #[trigger] r@[i] <= b by {
        assert(-b <= ints(cf@)[i] <= b);
        lemma_quantize_smaller(cf@[i] as int, step_for(i, dc_dq, ac_dq));
    }
    assert(r@ =~= quant_seq(ints(cf@), dc_dq, ac_dq));
    r
}

/// The luma analysis of the 8x8 block at `(px, py)`: the chosen mode and
/// angle step, its prediction, the chosen transform pair and the quantized
/// coefficients.
pub open spec fn luma_choice(
    src: Seq<u8>,
    w: int,
    h: int,
    px: int,
    py: int,
    edges: (Seq<u8>, Seq<u8>, u8),
    ha: bool,
    hl: bool,
    dc_dq: u32,
    ac_dq: u32,
) -> (u8, i8, Seq<u8>, TxType, Seq<i32>) {
    let yb = block_at(src, w, px, py, 8, w, h);
    let b = intra_best(yb, edges.0, edges.1, edges.2, ha, hl, 8, 8, dc_dq, ac_dq, 63);
    let pred = prediction_spec(b.0, b.1, edges.0, edges.1, edges.2, ha, hl, 8, 8);
    let tx = best_txtype_from(yb, pred, dc_dq, ac_dq, 5).0;
    (b.0, b.1, pred, tx, quant_seq(forward_transform_8x8_spec(diff(yb, pred), tx), dc_dq, ac_dq))
}

/// Analyses the luma block at `(px, py)`.
fn analyse_luma(
    src: &Vec<u8>,
    w: u32,
    h: u32,
    px: u32,
    py: u32,
    above: &Vec<u8>,
    left: &Vec<u8>,
    tl: u8,
    ha: bool,
    hl: bool,
    dc_dq: u32,
    ac_dq: u32,
) -> (r: (u8, i8, Vec<u8>, TxType, Vec<i32>))
    requires
        1 <= w <= 0xffff,
        1 <= h <= 0xffff,
        src@.len() == w * h,
        px < 0x20000,
        py < 0x20000,
        above@.len() == 16,
        left@.len() == 16,
        1 <= dc_dq <= 0x10000,
        1 <= ac_dq <= 0x10000,
    ensures
        (r.0, r.1, r.2@, r.3, r.4@) == luma_choice(src@, w as int, h as int, px as int, py as int, (above@, left@, tl), ha, hl, dc_dq, ac_dq),
        r.4@.len() == 64,
        r.2@.len() == 64,
        forall|i: int| 0 <= i < 64 ==> -203727 <= #[trigger] r.4@[i] <= 203727,
        r.0 <= 12,
        -3 <= r.1 <= 3,
        bounded(forward_transform_8x8_spec(diff(block_at(src@, w as int, px as int, py as int, 8, w as int, h as int), r.2@), r.3), 203727),
{
    proof {
        assert((h - 1) * w + w - 1 < w * h && w * h <= 0xffff * 0xffff) by (nonlinear_arith)
            requires
                1 <= w <= 0xffff,
                1 <= h <= 0xffff,
        ;
    }
    let yb = extract_block(src.as_slice(), w, px, py, 8, w, h);
    assert(yb@ =~= block_at(src@, w as int, px as int, py as int, 8, w as int, h as int));
    proof {
        lemma_intra_best_predictable(yb@, above@, left@, tl, ha, hl, dc_dq, ac_dq);
    }
    let (mode, delta) = select_best_intra_mode(yb.as_slice(), above.as_slice(), left.as_slice(), tl, ha, hl, 8, 8, dc_dq, ac_dq);
    let pred = generate_prediction(mode, delta, above.as_slice(), left.as_slice(), tl, ha, hl, 8, 8);
    let tx = select_best_txtype(yb.as_slice(), pred.as_slice(), dc_dq, ac_dq);
    let mut res = [0i32; 64];
    let mut i: usize = 0;
    while i < 64
        invariant
            i <= 64,
            yb@.len() == 64,
            pred@.len() == 64,
            forall|j: int| 0 <= j < i ==> #[trigger] res@[j] as int == yb@[j] - pred@[j],
        decreases 64 - i,
    {
        res[i] = yb[i] as i32 - pred[i] as i32;
        i += 1;
    }
    assert(ints(res@) =~= diff(yb@, pred@));
    assert(bounded(ints(res@), 255));
    let cf = forward_transform_8x8(&res, tx);
    proof {
        lemma_forward_8x8_bound(diff(yb@, pred@), tx);
    }
    let q = quantize_bounded(&cf, 64, dc_dq, ac_dq, Ghost(203727));
    (mode, delta, pred, tx, q)
}

/// A dequantized coefficient lies within half a step of the coefficient's magnitude bound.
proof fn lemma_dequant_within(c: int, dq: int, b: int)
    requires
        1 <= dq,
        -b <= c <= b,
    ensures
        -(b + dq / 2) <= quantize_spec(c, dq) * dq <= b + dq / 2,
{
    let x = if c < 0 { -c + dq / 2 } else { c + dq / 2 };
    vstd::arithmetic::div_mod::lemma_fundamental_div_mod(x, dq);
    assert((x / dq) * dq <= x) by (nonlinear_arith)
        requires
            x == dq * (x / dq) + x % dq,
            0 <= x % dq,
    ;
    assert((x / dq) * dq >= 0) by (nonlinear_arith)
        requires
            x >= 0,
            dq >= 1,
    ;
    if c < 0 {
        assert(quantize_spec(c, dq) * dq == -((x / dq) * dq)) by (nonlinear_arith)
            requires
                quantize_spec(c, dq) == -(x / dq),
        ;
    }
}

/// Dequantized coefficients: each times its step.
pub open spec fn deq_seq(q: Seq<i32>, dc_dq: u32, ac_dq: u32) -> Seq<int> {
    Seq::new(q.len(), |i: int| q[i] * step_for(i, dc_dq, ac_dq))
}

/// Dequantizes `q`, the quantized form of coefficients within `b`.
pub(crate) fn dequantize_bounded(q: &Vec<i32>, dc_dq: u32, ac_dq: u32, Ghost(cf): Ghost<Seq<int>>, Ghost(b): Ghost<int>) -> (r: Vec<i32>)
    requires
        q@ == quant_seq(cf, dc_dq, ac_dq),
        bounded(cf, b),
        0 <= b <= 0x100000,
        1 <= dc_dq <= 0x10000,
        1 <= ac_dq <= 0x10000,
    ensures
        ints(r@) == deq_seq(q@, dc_dq, ac_dq),
        r@.len() == q@.len(),
        bounded(ints(r@), b + 0x8000),
{
    let n = q.len();
    assert forall|i: int| 0 <= i < n implies i32::MIN <= #[trigger] q@[i] * step_for(i, dc_dq, ac_dq) <= i32::MAX && -(b + 0x8000) <= q@[i] * step_for(i, dc_dq, ac_dq) <= b + 0x8000 by {
        assert(-b <= cf[i] <= b);
        lemma_quantize_smaller(cf[i], step_for(i, dc_dq, ac_dq));
        lemma_dequant_within(cf[i], step_for(i, dc_dq, ac_dq), b);
        assert(q@[i] as int == quantize_spec(cf[i], step_for(i, dc_dq, ac_dq)));
    }
    let r = dequantize_coeffs(q.as_slice(), n, dc_dq, ac_dq);
    assert(ints(r@) =~= deq_seq(q@, dc_dq, ac_dq));
    r
}

/// The reconstructed samples: prediction plus residual, clamped to eight bits.
pub open spec fn recon_vals(pred: Seq<int>, res: Seq<int>) -> Seq<u8> {
    Seq::new(res.len(), |i: int| (if pred[i] + res[i] < 0 { 0 } else if pred[i] + res[i] > 255 { 255 } else { pred[i] + res[i] }) as u8)
}

/// A prediction as integers.
pub open spec fn pred_ints(p: Seq<u8>) -> Seq<int> {
    Seq::new(p.len(), |i: int| p[i] as int)
}

/// A flat prediction of `n` samples.
pub open spec fn flat(v: int, n: int) -> Seq<int> {
    Seq::new(n as nat, |i: int| v)
}

/// Prediction plus residual, clamped.
pub(crate) fn add_clamped(pred: &Vec<i64>, res: &Vec<i32>) -> (r: Vec<u8>)
    requires
        pred@.len() == res@.len(),
        forall|i: int| 0 <= i < pred@.len() ==> 0 <= #[trigger] pred@[i] <= 255,
    ensures
        r@ == recon_vals(Seq::new(pred@.len(), |i: int| pred@[i] as int), ints(res@)),
{
    let mut r: Vec<u8> = Vec::new();
    let mut i: usize = 0;
    while i < res.len()
        invariant
            i <= res@.len(),
            pred@.len() == res@.len(),
            forall|j: int| 0 <= j < pred@.len() ==> 0 <= #[trigger] pred@[j] <= 255,
            r@ == recon_vals(Seq::new(pred@.len(), |j: int| pred@[j] as int), ints(res@)).take(i as int),
        decreases res@.len() - i,
    {
        let v = pred[i] + res[i] as i64;
        let c: u8 = if v < 0 { 0 } else if v > 255 { 255 } else { v as u8 };
        r.push(c);
        i += 1;
        assert(r@ =~= recon_vals(Seq::new(pred@.len(), |j: int| pred@[j] as int), ints(res@)).take(i as int));
    }
    assert(r@ =~= recon_vals(Seq::new(pred@.len(), |j: int| pred@[j] as int), ints(res@)));
    r
}

/// `dst` with the `n` x `n` block at `(px, py)` replaced by `vals` (row by
/// row), as far as it lies inside the plane of row stride `stride`.
pub open spec fn paste_rect(dst: Seq<u8>, stride: int, px: int, py: int, n: int, vals: Seq<u8>) -> Seq<u8> {
    Seq::new(
        dst.len(),
        |i: int| if px <= i % stride < px + n && py <= i / stride < py + n { vals[(i / stride - py) * n + (i % stride - px)] } else { dst[i] },
    )
}

/// Writes the `n` x `n` samples `vals` at `(px, py)`, as far as they lie in the plane.
pub(crate) fn paste_block(dst: &mut Vec<u8>, stride: u32, rows: u32, px: u32, py: u32, n: u32, vals: &Vec<u8>)
    requires
        1 <= stride <= 0xffff,
        rows <= 0xffff,
        old(dst)@.len() == stride * rows,
        1 <= n <= 8,
        vals@.len() == n * n,
        px as int + n as int <= 0x4_0000,
        py as int + n as int <= 0x4_0000,
    ensures
        final(dst)@ == paste_rect(old(dst)@, stride as int, px as int, py as int, n as int, vals@),
{
    let ghost orig = dst@;
    let ghost len = orig.len() as int;
    let ghost sd = stride as int;
    let mut r: u32 = 0;
    while r < n
        invariant
            r <= n,
            1 <= n <= 8,
            vals@.len() == n * n,
            1 <= stride <= 0xffff,
            rows <= 0xffff,
            sd == stride as int,
            dst@.len() == len,
            len == stride * rows,
            px as int + n as int <= 0x4_0000,
            py as int + n as int <= 0x4_0000,
            forall|i: int| 0 <= i < len ==> #[trigger] dst@[i] == (if px <= i % sd < px + n && py <= i / sd < py + r { vals@[(i / sd - py) * n + (i % sd - px)] } else { orig[i] }),
        decreases n - r,
    {
        let mut c: u32 = 0;
        while c < n
            invariant
                c <= n,
                r < n,
                1 <= n <= 8,
                vals@.len() == n * n,
                1 <= stride <= 0xffff,
                rows <= 0xffff,
                sd == stride as int,
                dst@.len() == len,
                len == stride * rows,
                px as int + n as int <= 0x4_0000,
                py as int + n as int <= 0x4_0000,
                forall|i: int| 0 <= i < len ==> #[trigger] dst@[i] == (if (px <= i % sd < px + n && py <= i / sd < py + r) || (i / sd == py + r && px <= i % sd < px + c) { vals@[(i / sd - py) * n + (i % sd - px)] } else { orig[i] }),
            decreases n - c,
        {
            let x = px + c;
            let y = py + r;
            if x < stride && y < rows {
                proof {
                    assert(y * stride + x < stride * rows && stride * rows <= 0xffff * 0xffff) by (nonlinear_arith)
                        requires
                            x < stride,
                            y < rows,
                            stride <= 0xffff,
                            rows <= 0xffff,
                    ;
                    assert(r * n + c < n * n && n * n <= 64) by (nonlinear_arith)
                        requires
                            r < n,
                            c < n,
                            n <= 8,
                    ;
                }
                let idx = (y * stride + x) as usize;
                proof {
                    lemma_pos(x as int, y as int, sd);
                }
                let v = vals[(r * n + c) as usize];
                dst.set(idx, v);
                proof {
                    assert forall|i: int| #![trigger dst@[i]] 0 <= i < len && i != idx implies !(i / sd == py + r && i % sd == px + c) by {
                        if i / sd == py + r && i % sd == px + c {
                            vstd::arithmetic::div_mod::lemma_fundamental_div_mod(i, sd);
                            assert(i == sd * (y as int) + x);
                            assert(sd * (y as int) == (y as int) * sd) by (nonlinear_arith);
                        }
                    }
                }
            } else {
                proof {
                    assert forall|i: int| #![trigger dst@[i]] 0 <= i < len implies !(i / sd == py + r && i % sd == px + c) by {
                        if i / sd == py + r && i % sd == px + c {
                            vstd::arithmetic::div_mod::lemma_fundamental_div_mod(i, sd);
                            let q = i / sd;
                            assert(x as int == i % sd);
                            assert(x < stride);
                            assert(q >= rows);
                            assert(sd * q >= sd * (rows as int)) by (nonlinear_arith)
                                requires
                                    q >= rows,
                                    sd >= 1,
                            ;
                        }
                    }
                }
            }
            c += 1;
        }
        r += 1;
    }
    assert(dst@ =~= paste_rect(orig, stride as int, px as int, py as int, n as int, vals@));
}

/// The contexts of the intra modes above and to the left of `(bx, by)`.
pub open spec fn mode_ctx_spec(c: TileContext, bx: u32, by: u32) -> (int, int) {
    let am = if by > 0 && (bx as int) < c.above_mode@.len() { c.above_mode@[bx as int] as int } else { 0 };
    let lm = if bx > 0 { c.left_mode@[in_sb(by)] as int } else { 0 };
    (INTRA_MODE_CONTEXT@[if am < 12 { am } else { 12 }] as int, INTRA_MODE_CONTEXT@[if lm < 12 { lm } else { 12 }] as int)
}

/// The mode syntax of an intra block: skip, luma mode (with its angle step
/// for a directional mode) and a DC chroma mode.
pub open spec fn intra_mode_ops(c: TileContext, bx: u32, by: u32, bl: int, skip: bool, mode: u8, delta: i8) -> Seq<CoefOp> {
    let sctx = c.above_skip@[bx as int] as int + c.left_skip@[in_sb(by)] as int;
    let (a, l) = mode_ctx_spec(c, bx, by);
    let cfl = bl >= 2;
    seq![
        CoefOp::Bool((SKIP_BASE + sctx) as usize, skip),
        CoefOp::Symbol((KF_Y_MODE_BASE + a * 5 + l) as usize, mode as u32, 12),
    ] + (if 1 <= mode <= 8 {
        seq![CoefOp::Symbol((ANGLE_DELTA_BASE + mode - 1) as usize, (delta + 3) as u32, 6)]
    } else {
        Seq::empty()
    }) + seq![CoefOp::Symbol((UV_MODE_BASE + (if cfl { 13int } else { 0 }) + mode) as usize, 0, if cfl { 13 } else { 12 })]
}

/// The coefficient syntax of an intra block that is not skipped.
pub open spec fn intra_coef_ops(c: TileContext, bx: u32, by: u32, bl: int, is_inter: bool, mode: u8, tx: TxType, yq: Seq<i32>, uq: Seq<i32>, vq: Seq<i32>) -> Seq<CoefOp> {
    let hs = half_span_spec(bl);
    let ysign = sign_ctx(c.above_lcoef@, c.left_lcoef@, bx as int, in_sb(by), span4(bl));
    let usign = sign_ctx(c.above_ccoef_u@, c.left_ccoef_u@, bx as int / 2, in_sb(by) / 2, hs);
    let vsign = sign_ctx(c.above_ccoef_v@, c.left_ccoef_v@, bx as int / 2, in_sb(by) / 2, hs);
    let uskip = 7 + (if any_coded(c.above_ccoef_u@, bx as int / 2, hs) { 1int } else { 0 }) + (if any_coded(c.left_ccoef_u@, in_sb(by) / 2, hs) { 1int } else { 0 });
    let vskip = 7 + (if any_coded(c.above_ccoef_v@, bx as int / 2, hs) { 1int } else { 0 }) + (if any_coded(c.left_ccoef_v@, in_sb(by) / 2, hs) { 1int } else { 0 });
    txb_ops(yq, DEFAULT_SCAN_8X8@, false, is_inter, 1, 0, ysign, mode as int, tx)
        + txb_ops(uq, DEFAULT_SCAN_4X4@, true, is_inter, 0, uskip, usign, mode as int, TxType::DctDct)
        + txb_ops(vq, DEFAULT_SCAN_4X4@, true, is_inter, 0, vskip, vsign, mode as int, TxType::DctDct)
}

/// All coefficients zero.
pub open spec fn all_zero(q: Seq<i32>) -> bool {
    forall|i: int| 0 <= i < q.len() ==> q[i] == 0
}

/// Whether all of `q` is zero.
pub(crate) fn is_all_zero(q: &Vec<i32>) -> (r: bool)
    ensures
        r == all_zero(q@),
{
    let mut i: usize = 0;
    while i < q.len()
        invariant
            i <= q@.len(),
            forall|j: int| 0 <= j < i ==> q@[j] == 0,
        decreases q@.len() - i,
    {
        if q[i] != 0 {
            return false;
        }
        i += 1;
    }
    true
}

/// Codes the mode syntax of an intra block.
#[verifier::rlimit(100)]
fn code_intra_modes(enc: &mut MsacEncoder, cdfs: &mut Vec<Vec<u16>>, c: &TileContext, bx: u32, by: u32, bl: usize, skip: bool, mode: u8, delta: i8)
    requires
        old(enc).wf(),
        cdfs_valid(cdf_view(old(cdfs)@)),
        (bx as int) < c.above_skip@.len(),
        skip_flags_ok(*c),
        mode <= 12,
        -3 <= delta <= 3,
        bl <= 4,
    ensures
        final(enc).wf(),
        final(enc).updates_cdf() == old(enc).updates_cdf(),
        cdfs_valid(cdf_view(final(cdfs)@)),
        state_of(*final(enc), final(cdfs)@) == run_ops(state_of(*old(enc), old(cdfs)@), intra_mode_ops(*c, bx, by, bl as int, skip, mode, delta), old(enc).updates_cdf()),
{
    let ghost st0 = state_of(*enc, cdfs@);
    let ghost upd = enc.updates_cdf();
    proof {
        crate::tile::lemma_low5(by);
    }
    let sctx = c.skip_ctx(bx, by);
    assert(c.above_skip@[bx as int] <= 1 && c.left_skip@[in_sb(by)] <= 1);
    let (a, l) = c.mode_ctx(bx, by);
    assert(INTRA_MODE_CONTEXT@ == seq![0usize, 1, 2, 3, 4, 4, 4, 4, 3, 0, 1, 2, 0]);
    let s0 = SKIP_BASE + sctx;
    code_bool(enc, cdfs, s0, skip);
    let ghost mut done: Seq<CoefOp> = seq![CoefOp::Bool(s0, skip)];
    proof {
        lemma_run_push(st0, Seq::empty(), CoefOp::Bool(s0, skip), upd);
        assert(Seq::<CoefOp>::empty().push(CoefOp::Bool(s0, skip)) =~= done);
    }
    let s1 = KF_Y_MODE_BASE + a * 5 + l;
    code_symbol(enc, cdfs, s1, mode as u32, 12);
    proof {
        lemma_run_push(st0, done, CoefOp::Symbol(s1, mode as u32, 12), upd);
        done = done.push(CoefOp::Symbol(s1, mode as u32, 12));
    }
    if 1 <= mode && mode <= 8 {
        let s2 = ANGLE_DELTA_BASE + (mode - 1) as usize;
        let d = (delta + 3) as u32;
        code_symbol(enc, cdfs, s2, d, 6);
        proof {
            lemma_run_push(st0, done, CoefOp::Symbol(s2, d, 6), upd);
            done = done.push(CoefOp::Symbol(s2, d, 6));
        }
    }
    let cfl = bl >= 2;
    let s3 = UV_MODE_BASE + (if cfl { 13 } else { 0 }) + mode as usize;
    let n3: u32 = if cfl { 13 } else { 12 };
    code_symbol(enc, cdfs, s3, 0, n3);
    proof {
        lemma_run_push(st0, done, CoefOp::Symbol(s3, 0, n3), upd);
        done = done.push(CoefOp::Symbol(s3, 0, n3));
        assert(done =~= intra_mode_ops(*c, bx, by, bl as int, skip, mode, delta));
    }
}

/// Codes the coefficients of the three planes of an intra block and
/// returns what coding each plane returned.
#[verifier::rlimit(40)]
pub(crate) fn code_intra_coefs(
    enc: &mut MsacEncoder,
    cdfs: &mut Vec<Vec<u16>>,
    c: &TileContext,
    bx: u32,
    by: u32,
    bl: usize,
    is_inter: bool,
    mode: u8,
    tx: TxType,
    yq: &Vec<i32>,
    uq: &Vec<i32>,
    vq: &Vec<i32>,
) -> (r: ((u8, bool, bool), (u8, bool, bool), (u8, bool, bool)))
    requires
        old(enc).wf(),
        cdfs_valid(cdf_view(old(cdfs)@)),
        mode <= 12,
        bl <= 4,
        bx < 0x4000,
        yq@.len() == 64,
        uq@.len() == 16,
        vq@.len() == 16,
        forall|i: int| 0 <= i < 64 ==> -0x40000 <= #[trigger] yq@[i] <= 0x40000,
        forall|i: int| 0 <= i < 16 ==> -0x40000 <= #[trigger] uq@[i] <= 0x40000,
        forall|i: int| 0 <= i < 16 ==> -0x40000 <= #[trigger] vq@[i] <= 0x40000,
    ensures
        final(enc).wf(),
        final(enc).updates_cdf() == old(enc).updates_cdf(),
        cdfs_valid(cdf_view(final(cdfs)@)),
        state_of(*final(enc), final(cdfs)@) == run_ops(state_of(*old(enc), old(cdfs)@), intra_coef_ops(*c, bx, by, bl as int, is_inter, mode, tx, yq@, uq@, vq@), old(enc).updates_cdf()),
        r.0 == txb_result(yq@, DEFAULT_SCAN_8X8@),
        r.1 == txb_result(uq@, DEFAULT_SCAN_4X4@),
        r.2 == txb_result(vq@, DEFAULT_SCAN_4X4@),
{
    let ghost st0 = state_of(*enc, cdfs@);
    let ghost upd = enc.updates_cdf();
    proof {
        lemma_scan_4x4_ok();
        lemma_scan_8x8_ok();
        lemma_scan_mag_sum_bound(yq@, DEFAULT_SCAN_8X8@, 64, 0x40000);
        lemma_scan_mag_sum_bound(uq@, DEFAULT_SCAN_4X4@, 16, 0x40000);
        lemma_scan_mag_sum_bound(vq@, DEFAULT_SCAN_4X4@, 16, 0x40000);
    }
    let ysign = c.dc_sign_ctx(bx, by, bl, 0);
    let usign = c.dc_sign_ctx(bx, by, bl, 1);
    let vsign = c.dc_sign_ctx(bx, by, bl, 2);
    let uskip = c.chroma_txb_skip_ctx(bx, by, bl, 1);
    let vskip = c.chroma_txb_skip_ctx(bx, by, bl, 2);
    let ghost yops = txb_ops(yq@, DEFAULT_SCAN_8X8@, false, is_inter, 1, 0, ysign as int, mode as int, tx);
    let ghost uops = txb_ops(uq@, DEFAULT_SCAN_4X4@, true, is_inter, 0, uskip as int, usign as int, mode as int, TxType::DctDct);
    let ghost vops = txb_ops(vq@, DEFAULT_SCAN_4X4@, true, is_inter, 0, vskip as int, vsign as int, mode as int, TxType::DctDct);
    let yr = encode_transform_block(enc, cdfs, yq.as_slice(), &DEFAULT_SCAN_8X8, false, is_inter, 1, 0, ysign, mode, tx);
    let ur = encode_transform_block(enc, cdfs, uq.as_slice(), &DEFAULT_SCAN_4X4, true, is_inter, 0, uskip, usign, mode, TxType::DctDct);
    let vr = encode_transform_block(enc, cdfs, vq.as_slice(), &DEFAULT_SCAN_4X4, true, is_inter, 0, vskip, vsign, mode, TxType::DctDct);
    proof {
        lemma_run_ops_append(st0, yops, uops, upd);
        lemma_run_ops_append(st0, yops + uops, vops, upd);
    }
    (yr, ur, vr)
}

/// The quantized chroma coefficients of the 4x4 block at `(px, py)`
/// predicted flat at `pred`.
pub open spec fn chroma_quant(src: Seq<u8>, cw: int, chh: int, px: int, py: int, pred: int, dc_dq: u32, ac_dq: u32) -> Seq<i32> {
    quant_seq(forward_transform_4x4_spec(diff_from(block_at(src, cw, px, py, 4, cw, chh), pred), TxType::DctDct), dc_dq, ac_dq)
}

/// Analyses the chroma block at `(px, py)` predicted flat at `pred`.
fn analyse_chroma(src: &Vec<u8>, cw: u32, chh: u32, px: u32, py: u32, pred: u8, dc_dq: u32, ac_dq: u32) -> (r: Vec<i32>)
    requires
        1 <= cw <= 0x8000,
        1 <= chh <= 0x8000,
        src@.len() == cw * chh,
        px < 0x10000,
        py < 0x10000,
        1 <= dc_dq <= 0x10000,
        1 <= ac_dq <= 0x10000,
    ensures
        r@ == chroma_quant(src@, cw as int, chh as int, px as int, py as int, pred as int, dc_dq, ac_dq),
        r@.len() == 16,
        forall|i: int| 0 <= i < 16 ==> -9188 <= #[trigger] r@[i] <= 9188,
        bounded(forward_transform_4x4_spec(diff_from(block_at(src@, cw as int, px as int, py as int, 4, cw as int, chh as int), pred as int), TxType::DctDct), 9188),
{
    proof {
        assert((chh - 1) * cw + cw - 1 < cw * chh && cw * chh <= 0x8000 * 0x8000) by (nonlinear_arith)
            requires
                1 <= cw <= 0x8000,
                1 <= chh <= 0x8000,
        ;
    }
    let b = extract_block(src.as_slice(), cw, px, py, 4, cw, chh);
    assert(b@ =~= block_at(src@, cw as int, px as int, py as int, 4, cw as int, chh as int));
    let mut res = [0i32; 16];
    let mut i: usize = 0;
    while i < 16
        invariant
            i <= 16,
            b@.len() == 16,
            forall|j: int| 0 <= j < i ==> #[trigger] res@[j] as int == b@[j] - pred,
        decreases 16 - i,
    {
        res[i] = b[i] as i32 - pred as i32;
        i += 1;
    }
    assert(ints(res@) =~= diff_from(b@, pred as int));
    assert(bounded(ints(res@), 255));
    let cf = forward_dct_4x4(&res);
    quantize_bounded(&cf, 16, dc_dq, ac_dq, Ghost(9188))
}

/// The luma residual that the quantized coefficients `q` give back.
#[verifier::opaque]
pub open spec fn luma_residual(q: Seq<i32>, dc_dq: u32, ac_dq: u32, tx: TxType) -> Seq<int> {
    inverse_transform_8x8_spec(deq_seq(q, dc_dq, ac_dq), tx)
}

/// The reconstructed luma samples of a block.
pub(crate) fn luma_recon(q: &Vec<i32>, tx: TxType, pred: &Vec<u8>, dc_dq: u32, ac_dq: u32, Ghost(cf): Ghost<Seq<int>>) -> (r: Vec<u8>)
    requires
        q@ == quant_seq(cf, dc_dq, ac_dq),
        cf.len() == 64,
        bounded(cf, 203727),
        pred@.len() == 64,
        1 <= dc_dq <= 0x10000,
        1 <= ac_dq <= 0x10000,
    ensures
        r@ == recon_vals(pred_ints(pred@), luma_residual(q@, dc_dq, ac_dq, tx)),
        r@.len() == 64,
{
    let d = dequantize_bounded(q, dc_dq, ac_dq, Ghost(cf), Ghost(203727));
    let mut arr = [0i32; 64];
    let mut i: usize = 0;
    while i < 64
        invariant
            i <= 64,
            d@.len() == 64,
            forall|j: int| 0 <= j < i ==> #[trigger] arr@[j] == d@[j],
        decreases 64 - i,
    {
        arr[i] = d[i];
        i += 1;
    }
    assert(arr@ =~= d@);
    let inv = inverse_transform_8x8(&arr, tx);
    proof {
        reveal(luma_residual);
    }
    let mut p: Vec<i64> = Vec::new();
    let mut v: Vec<i32> = Vec::new();
    let mut k: usize = 0;
    while k < 64
        invariant
            k <= 64,
            pred@.len() == 64,
            p@.len() == k,
            v@.len() == k,
            forall|j: int| 0 <= j < k ==> #[trigger] p@[j] == pred@[j] as i64,
            forall|j: int| 0 <= j < k ==> #[trigger] v@[j] == inv@[j],
        decreases 64 - k,
    {
        p.push(pred[k] as i64);
        v.push(inv[k]);
        k += 1;
    }
    assert(v@ =~= inv@);
    let r = add_clamped(&p, &v);
    assert(Seq::new(p@.len(), |j: int| p@[j] as int) =~= pred_ints(pred@));
    r
}

/// The reconstructed chroma samples of a block predicted flat at `pred`.
fn chroma_recon(q: &Vec<i32>, pred: u8, dc_dq: u32, ac_dq: u32, Ghost(cf): Ghost<Seq<int>>) -> (r: Vec<u8>)
    requires
        q@ == quant_seq(cf, dc_dq, ac_dq),
        cf.len() == 16,
        bounded(cf, 9188),
        1 <= dc_dq <= 0x10000,
        1 <= ac_dq <= 0x10000,
    ensures
        r@ == recon_vals(flat(pred as int, 16), inverse_transform_4x4_spec(deq_seq(q@, dc_dq, ac_dq), TxType::DctDct)),
        r@.len() == 16,
{
    let d = dequantize_bounded(q, dc_dq, ac_dq, Ghost(cf), Ghost(9188));
    let mut arr = [0i32; 16];
    let mut i: usize = 0;
    while i < 16
        invariant
            i <= 16,
            d@.len() == 16,
            forall|j: int| 0 <= j < i ==> #[trigger] arr@[j] == d@[j],
        decreases 16 - i,
    {
        arr[i] = d[i];
        i += 1;
    }
    assert(arr@ =~= d@);
    let inv = inverse_dct_4x4(&arr);
    let mut p: Vec<i64> = Vec::new();
    let mut v: Vec<i32> = Vec::new();
    let mut k: usize = 0;
    while k < 16
        invariant
            k <= 16,
            p@.len() == k,
            v@.len() == k,
            forall|j: int| 0 <= j < k ==> #[trigger] p@[j] == pred as i64,
            forall|j: int| 0 <= j < k ==> #[trigger] v@[j] == inv@[j],
        decreases 16 - k,
    {
        p.push(pred as i64);
        v.push(inv[k]);
        k += 1;
    }
    assert(v@ =~= inv@);
    let r = add_clamped(&p, &v);
    assert(Seq::new(p@.len(), |j: int| p@[j] as int) =~= flat(pred as int, 16));
    r
}

/// The reconstructed 4x4 chroma samples of a block predicted by the samples `pred`.
pub(crate) fn chroma_block_recon(q: &Vec<i32>, pred: &Vec<u8>, dc_dq: u32, ac_dq: u32, Ghost(cf): Ghost<Seq<int>>) -> (r: Vec<u8>)
    requires
        q@ == quant_seq(cf, dc_dq, ac_dq),
        cf.len() == 16,
        bounded(cf, 9188),
        pred@.len() == 16,
        1 <= dc_dq <= 0x10000,
        1 <= ac_dq <= 0x10000,
    ensures
        r@ == recon_vals(pred_ints(pred@), inverse_transform_4x4_spec(deq_seq(q@, dc_dq, ac_dq), TxType::DctDct)),
        r@.len() == 16,
{
    let d = dequantize_bounded(q, dc_dq, ac_dq, Ghost(cf), Ghost(9188));
    let mut arr = [0i32; 16];
    let mut i: usize = 0;
    while i < 16
        invariant
            i <= 16,
            d@.len() == 16,
            forall|j: int| 0 <= j < i ==> #[trigger] arr@[j] == d@[j],
        decreases 16 - i,
    {
        arr[i] = d[i];
        i += 1;
    }
    assert(arr@ =~= d@);
    let inv = inverse_dct_4x4(&arr);
    let mut p: Vec<i64> = Vec::new();
    let mut v: Vec<i32> = Vec::new();
    let mut k: usize = 0;
    while k < 16
        invariant
            k <= 16,
            pred@.len() == 16,
            p@.len() == k,
            v@.len() == k,
            forall|j: int| 0 <= j < k ==> #[trigger] p@[j] == pred@[j] as i64,
            forall|j: int| 0 <= j < k ==> #[trigger] v@[j] == inv@[j],
        decreases 16 - k,
    {
        p.push(pred[k] as i64);
        v.push(inv[k]);
        k += 1;
    }
    assert(v@ =~= inv@);
    let r = add_clamped(&p, &v);
    assert(Seq::new(p@.len(), |j: int| p@[j] as int) =~= pred_ints(pred@));
    r
}

/// Reconstructs the 4x4 chroma samples of the block at `(bx, by)`, predicted by `pred`, into `recon`.
pub(crate) fn reconstruct_chroma_block(recon: &mut Vec<u8>, cw: u32, chh: u32, bx: u32, by: u32, pred: &Vec<u8>, q: &Vec<i32>, dc_dq: u32, ac_dq: u32, Ghost(cf): Ghost<Seq<int>>)
    requires
        1 <= cw <= 0x8000,
        1 <= chh <= 0x8000,
        old(recon)@.len() == cw * chh,
        bx < 0x4000,
        by < 0x4000,
        q@ == quant_seq(cf, dc_dq, ac_dq),
        cf.len() == 16,
        bounded(cf, 9188),
        pred@.len() == 16,
        1 <= dc_dq <= 0x10000,
        1 <= ac_dq <= 0x10000,
    ensures
        final(recon)@ == paste_rect(old(recon)@, cw as int, 2 * bx as int, 2 * by as int, 4, recon_vals(pred_ints(pred@), inverse_transform_4x4_spec(deq_seq(q@, dc_dq, ac_dq), TxType::DctDct))),
        final(recon)@.len() == old(recon)@.len(),
{
    let vals = chroma_block_recon(q, pred, dc_dq, ac_dq, Ghost(cf));
    paste_block(recon, cw, chh, bx * 2, by * 2, 4, &vals);
}

/// What the analysis of the block at `(bx, by)` gives: the luma mode and
/// angle step, the luma prediction and transform pair, the quantized luma
/// coefficients, the two flat chroma predictions and quantized chroma
/// coefficients, and whether every coefficient is zero.
#[verifier::opaque]
pub open spec fn intra_analysis(t: TileEncoder, bx: u32, by: u32, bl: usize) -> (u8, i8, Seq<u8>, TxType, Seq<i32>, int, int, Seq<i32>, Seq<i32>, bool) {
    let w = t.width as int;
    let h = t.height as int;
    let cw = half_up(w);
    let chh = half_up(h);
    let (mode, delta, pred, tx, yq) = luma_choice(t.src_y@, w, h, 4 * bx as int, 4 * by as int, luma_edges(t.ctx, bx, by), by > 0, bx > 0, t.dc_dq, t.ac_dq);
    let up = dc_pred_spec(t.ctx, bx, by, bl, 1);
    let vp = dc_pred_spec(t.ctx, bx, by, bl, 2);
    let uq = chroma_quant(t.src_u@, cw, chh, 2 * bx as int, 2 * by as int, up, t.dc_dq, t.ac_dq);
    let vq = chroma_quant(t.src_v@, cw, chh, 2 * bx as int, 2 * by as int, vp, t.dc_dq, t.ac_dq);
    (mode, delta, pred, tx, yq, up, vp, uq, vq, all_zero(yq) && all_zero(uq) && all_zero(vq))
}

/// The coefficient context a coded block leaves: its cumulative level and DC sign class.
pub open spec fn coef_ctx_of(r: (u8, bool, bool)) -> u8 {
    (r.0 as int + (if r.2 { 0x40int } else if r.1 { 0 } else { 0x80 })) as u8
}

pub(crate) proof fn lemma_all_zero_no_eob(q: Seq<i32>, sc: Seq<u16>, k: int)
    requires
        all_zero(q),
        forall|i: int| 0 <= i < sc.len() ==> (#[trigger] sc[i] as int) < q.len(),
        0 <= k <= sc.len(),
    ensures
        last_nonzero(q, sc, k) == -1,
    decreases k,
{
    if k > 0 {
        assert((sc[k - 1] as int) < q.len());
        lemma_all_zero_no_eob(q, sc, k - 1);
    }
}

/// The cumulative level a coded block returns is below 64.
pub(crate) proof fn lemma_txb_result_small(c: Seq<i32>, sc: Seq<u16>)
    ensures
        txb_result(c, sc).0 < 0x40,
{
    let eob = last_nonzero(c, sc, sc.len() as int);
    if eob >= 0 {
        lemma_mag_sum_nonneg(c, sc, eob + 1);
    }
}

/// A sum of magnitudes is not negative.
proof fn lemma_mag_sum_nonneg(c: Seq<i32>, sc: Seq<u16>, k: int)
    ensures
        crate::coef::scan_mag_sum(c, sc, k) >= 0,
    decreases k,
{
    if k > 0 {
        lemma_mag_sum_nonneg(c, sc, k - 1);
    }
}

/// Analyses the luma samples of the block at `(bx, by)`.
fn analyse_luma_block(t: &TileEncoder, bx: u32, by: u32) -> (r: (u8, i8, Vec<u8>, TxType, Vec<i32>))
    requires
        t.wf(),
        bx < t.mi_cols,
        by < t.mi_rows,
    ensures
        (r.0, r.1, r.2@, r.3, r.4@) == luma_choice(t.src_y@, t.width as int, t.height as int, 4 * bx as int, 4 * by as int, luma_edges(t.ctx, bx, by), by > 0, bx > 0, t.dc_dq, t.ac_dq),
        r.0 <= 12,
        -3 <= r.1 <= 3,
        r.2@.len() == 64,
        r.4@.len() == 64,
        bounded(forward_transform_8x8_spec(diff(block_at(t.src_y@, t.width as int, 4 * bx as int, 4 * by as int, 8, t.width as int, t.height as int), r.2@), r.3), 203727),
        forall|i: int| 0 <= i < 64 ==> -203727 <= #[trigger] r.4@[i] <= 203727,
{
    proof {
        assert(bx < 0x4000 && by < 0x4000);
    }
    let (above, left, tl) = read_luma_edges(&t.ctx, bx, by);
    analyse_luma(&t.src_y, t.width, t.height, bx * 4, by * 4, &above, &left, tl, by > 0, bx > 0, t.dc_dq, t.ac_dq)
}

/// Analyses the chroma samples of plane `plane` (1 or 2) of the block at `(bx, by)`.
fn analyse_chroma_block(t: &TileEncoder, bx: u32, by: u32, bl: usize, plane: usize) -> (r: (u8, Vec<i32>))
    requires
        t.wf(),
        bx < t.mi_cols,
        by < t.mi_rows,
        bl <= 4,
        plane == 1 || plane == 2,
    ensures
        r.0 as int == dc_pred_spec(t.ctx, bx, by, bl, plane),
        r.1@ == chroma_quant(if plane == 1 { t.src_u@ } else { t.src_v@ }, half_up(t.width as int), half_up(t.height as int), 2 * bx as int, 2 * by as int, r.0 as int, t.dc_dq, t.ac_dq),
        r.1@.len() == 16,
        forall|i: int| 0 <= i < 16 ==> -9188 <= #[trigger] r.1@[i] <= 9188,
        bounded(forward_transform_4x4_spec(diff_from(block_at(if plane == 1 { t.src_u@ } else { t.src_v@ }, half_up(t.width as int), 2 * bx as int, 2 * by as int, 4, half_up(t.width as int), half_up(t.height as int)), r.0 as int), TxType::DctDct), 9188),
{
    let w = t.width;
    let h = t.height;
    let cw = w / 2 + w % 2;
    let chh = h / 2 + h % 2;
    proof {
        assert(cw * chh == half_up(w as int) * half_up(h as int));
        assert(bx < 0x4000 && by < 0x4000);
    }
    let p = t.ctx.dc_prediction(bx, by, bl, plane);
    let q = if plane == 1 {
        analyse_chroma(&t.src_u, cw, chh, bx * 2, by * 2, p, t.dc_dq, t.ac_dq)
    } else {
        analyse_chroma(&t.src_v, cw, chh, bx * 2, by * 2, p, t.dc_dq, t.ac_dq)
    };
    (p, q)
}

/// Analyses the block at `(bx, by)`.
fn analyse_block(t: &TileEncoder, bx: u32, by: u32, bl: usize) -> (r: (u8, i8, Vec<u8>, TxType, Vec<i32>, u8, u8, Vec<i32>, Vec<i32>, bool))
    requires
        t.wf(),
        bx < t.mi_cols,
        by < t.mi_rows,
        bl <= 4,
    ensures
        (r.0, r.1, r.2@, r.3, r.4@, r.5 as int, r.6 as int, r.7@, r.8@, r.9) == intra_analysis(*t, bx, by, bl),
        r.9 == (all_zero(r.4@) && all_zero(r.7@) && all_zero(r.8@)),
        r.4@ == quant_seq(forward_transform_8x8_spec(diff(block_at(t.src_y@, t.width as int, 4 * bx as int, 4 * by as int, 8, t.width as int, t.height as int), r.2@), r.3), t.dc_dq, t.ac_dq),
        r.7@ == chroma_quant(t.src_u@, half_up(t.width as int), half_up(t.height as int), 2 * bx as int, 2 * by as int, r.5 as int, t.dc_dq, t.ac_dq),
        r.8@ == chroma_quant(t.src_v@, half_up(t.width as int), half_up(t.height as int), 2 * bx as int, 2 * by as int, r.6 as int, t.dc_dq, t.ac_dq),
        r.0 <= 12,
        -3 <= r.1 <= 3,
        r.2@.len() == 64,
        r.4@.len() == 64,
        r.7@.len() == 16,
        r.8@.len() == 16,
        bounded(forward_transform_8x8_spec(diff(block_at(t.src_y@, t.width as int, 4 * bx as int, 4 * by as int, 8, t.width as int, t.height as int), r.2@), r.3), 203727),
        forall|i: int| 0 <= i < 64 ==> -203727 <= #[trigger] r.4@[i] <= 203727,
        forall|i: int| 0 <= i < 16 ==> -9188 <= #[trigger] r.7@[i] <= 9188,
        forall|i: int| 0 <= i < 16 ==> -9188 <= #[trigger] r.8@[i] <= 9188,
        bounded(forward_transform_4x4_spec(diff_from(block_at(t.src_u@, half_up(t.width as int), 2 * bx as int, 2 * by as int, 4, half_up(t.width as int), half_up(t.height as int)), r.5 as int), TxType::DctDct), 9188),
        bounded(forward_transform_4x4_spec(diff_from(block_at(t.src_v@, half_up(t.width as int), 2 * bx as int, 2 * by as int, 4, half_up(t.width as int), half_up(t.height as int)), r.6 as int), TxType::DctDct), 9188),
{
    let (mode, delta, pred, tx, yq) = analyse_luma_block(t, bx, by);
    let (up, uq) = analyse_chroma_block(t, bx, by, bl, 1);
    let (vp, vq) = analyse_chroma_block(t, bx, by, bl, 2);
    let skip = is_all_zero(&yq) && is_all_zero(&uq) && is_all_zero(&vq);
    proof {
        reveal(intra_analysis);
    }
    (mode, delta, pred, tx, yq, up, vp, uq, vq, skip)
}

/// Codes the syntax of an intra block and returns what coding each plane's
/// coefficients returned.
fn code_block_syntax(
    enc: &mut MsacEncoder,
    cdfs: &mut Vec<Vec<u16>>,
    c: &TileContext,
    bx: u32,
    by: u32,
    bl: usize,
    skip: bool,
    mode: u8,
    delta: i8,
    tx: TxType,
    yq: &Vec<i32>,
    uq: &Vec<i32>,
    vq: &Vec<i32>,
) -> (r: ((u8, bool, bool), (u8, bool, bool), (u8, bool, bool)))
    requires
        old(enc).wf(),
        cdfs_valid(cdf_view(old(cdfs)@)),
        (bx as int) < c.above_skip@.len(),
        bx < 0x4000,
        skip_flags_ok(*c),
        mode <= 12,
        -3 <= delta <= 3,
        bl <= 4,
        skip == (all_zero(yq@) && all_zero(uq@) && all_zero(vq@)),
        yq@.len() == 64,
        uq@.len() == 16,
        vq@.len() == 16,
        forall|i: int| 0 <= i < 64 ==> -0x40000 <= #[trigger] yq@[i] <= 0x40000,
        forall|i: int| 0 <= i < 16 ==> -0x40000 <= #[trigger] uq@[i] <= 0x40000,
        forall|i: int| 0 <= i < 16 ==> -0x40000 <= #[trigger] vq@[i] <= 0x40000,
    ensures
        final(enc).wf(),
        final(enc).updates_cdf() == old(enc).updates_cdf(),
        cdfs_valid(cdf_view(final(cdfs)@)),
        state_of(*final(enc), final(cdfs)@) == run_ops(
            state_of(*old(enc), old(cdfs)@),
            intra_mode_ops(*c, bx, by, bl as int, skip, mode, delta) + (if skip {
                Seq::empty()
            } else {
                intra_coef_ops(*c, bx, by, bl as int, false, mode, tx, yq@, uq@, vq@)
            }),
            old(enc).updates_cdf(),
        ),
        r.0 == txb_result(yq@, DEFAULT_SCAN_8X8@),
        r.1 == txb_result(uq@, DEFAULT_SCAN_4X4@),
        r.2 == txb_result(vq@, DEFAULT_SCAN_4X4@),
{
    let ghost st0 = state_of(*enc, cdfs@);
    let ghost upd = enc.updates_cdf();
    code_intra_modes(enc, cdfs, c, bx, by, bl, skip, mode, delta);
    let ghost mops = intra_mode_ops(*c, bx, by, bl as int, skip, mode, delta);
    proof {
        lemma_scan_4x4_ok();
        lemma_scan_8x8_ok();
    }
    if !skip {
        let res = code_intra_coefs(enc, cdfs, c, bx, by, bl, false, mode, tx, yq, uq, vq);
        proof {
            lemma_run_ops_append(st0, mops, intra_coef_ops(*c, bx, by, bl as int, false, mode, tx, yq@, uq@, vq@), upd);
        }
        res
    } else {
        proof {
            lemma_all_zero_no_eob(yq@, DEFAULT_SCAN_8X8@, 64);
            lemma_all_zero_no_eob(uq@, DEFAULT_SCAN_4X4@, 16);
            lemma_all_zero_no_eob(vq@, DEFAULT_SCAN_4X4@, 16);
            assert(mops + Seq::<CoefOp>::empty() =~= mops);
        }
        ((0u8, false, true), (0u8, false, true), (0u8, false, true))
    }
}

/// Stores the edges and contexts of a coded block for its neighbours.
#[verifier::rlimit(60)]
fn store_block_context(
    c: &mut TileContext,
    ry: &Vec<u8>,
    ru: &Vec<u8>,
    rv: &Vec<u8>,
    w: u32,
    h: u32,
    bx: u32,
    by: u32,
    bl: usize,
    mi_cols: u32,
    mi_rows: u32,
    yr: (u8, bool, bool),
    ur: (u8, bool, bool),
    vr: (u8, bool, bool),
    skip: bool,
    mode: u8,
)
    requires
        1 <= w <= 0xffff,
        1 <= h <= 0xffff,
        ry@.len() == w * h,
        ru@.len() == half_up(w as int) * half_up(h as int),
        rv@.len() == half_up(w as int) * half_up(h as int),
        bx < mi_cols <= 0x4000,
        by < mi_rows <= 0x4000,
        bl <= 4,
        yr.0 < 0x40,
        ur.0 < 0x40,
        vr.0 < 0x40,
        old(c).above_recon_u@.len() == old(c).above_recon_v@.len(),
        skip_flags_ok(*old(c)),
    ensures
        skip_flags_ok(*final(c)),
        final(c).above_skip@.len() == old(c).above_skip@.len(),
        final(c).above_recon_y@.len() == old(c).above_recon_y@.len(),
        final(c).above_recon_u@.len() == final(c).above_recon_v@.len(),
        ({
            let c0 = *old(c);
            let c1 = *final(c);
            let wi = w as int;
            let hi = h as int;
            let cw = half_up(wi);
            let chh = half_up(hi);
            let mc = mi_cols as int;
            let mr = mi_rows as int;
            &&& c1.above_recon_y@ == copied(c0.above_recon_y@, 4 * bx as int, edge_row(ry@, wi, hi, 4 * bx, 4 * by, 8), 4 * mc - 4 * bx)
            &&& c1.left_recon_y@ == copied(c0.left_recon_y@, 4 * (by as int % 16), edge_col(ry@, wi, hi, 4 * bx, 4 * by, 8), 4 * mr - 4 * by)
            &&& c1.above_recon_u@ == copied(c0.above_recon_u@, 2 * bx as int, edge_row(ru@, cw, chh, 2 * bx, 2 * by, 4), 2 * mc - 2 * bx)
            &&& c1.above_recon_v@ == copied(c0.above_recon_v@, 2 * bx as int, edge_row(rv@, cw, chh, 2 * bx, 2 * by, 4), 2 * mc - 2 * bx)
            &&& c1.left_recon_u@ == copied(c0.left_recon_u@, 2 * (by as int % 16), edge_col(ru@, cw, chh, 2 * bx, 2 * by, 4), 2 * mr - 2 * by)
            &&& c1.left_recon_v@ == copied(c0.left_recon_v@, 2 * (by as int % 16), edge_col(rv@, cw, chh, 2 * bx, 2 * by, 4), 2 * mr - 2 * by)
            &&& c1.above_lcoef@ == filled(c0.above_lcoef@, bx as int, run_len(span4(bl as int), mc - bx), coef_ctx_of(yr))
            &&& c1.left_lcoef@ == filled(c0.left_lcoef@, in_sb(by), run_len(span4(bl as int), mr - by), coef_ctx_of(yr))
            &&& c1.above_ccoef_u@ == filled(c0.above_ccoef_u@, (bx / 2) as int, run_len(half_span_spec(bl as int), half_up(mc - bx)), coef_ctx_of(ur))
            &&& c1.above_ccoef_v@ == filled(c0.above_ccoef_v@, (bx / 2) as int, run_len(half_span_spec(bl as int), half_up(mc - bx)), coef_ctx_of(vr))
            &&& c1.left_ccoef_u@ == filled(c0.left_ccoef_u@, in_sb(by) / 2, run_len(half_span_spec(bl as int), half_up(mr - by)), coef_ctx_of(ur))
            &&& c1.left_ccoef_v@ == filled(c0.left_ccoef_v@, in_sb(by) / 2, run_len(half_span_spec(bl as int), half_up(mr - by)), coef_ctx_of(vr))
            &&& c1.above_partition@ == filled(c0.above_partition@, (bx / 2) as int, run_len(half_span_spec(bl as int), half_up(mc - bx)), PARTITION_CTX_NONE@[bl as int])
            &&& c1.left_partition@ == filled(c0.left_partition@, in_sb(by) / 2, run_len(half_span_spec(bl as int), half_up(mr - by)), PARTITION_CTX_NONE@[bl as int])
            &&& c1.above_skip@ == filled(c0.above_skip@, bx as int, run_len(span4(bl as int), mc - bx), if skip { 1u8 } else { 0u8 })
            &&& c1.left_skip@ == filled(c0.left_skip@, in_sb(by), run_len(span4(bl as int), mr - by), if skip { 1u8 } else { 0u8 })
            &&& c1.above_mode@ == filled(c0.above_mode@, bx as int, run_len(span4(bl as int), mc - bx), mode)
            &&& c1.left_mode@ == filled(c0.left_mode@, in_sb(by), run_len(span4(bl as int), mr - by), mode)
            &&& c1.above_intra == c0.above_intra
            &&& c1.left_intra == c0.left_intra
            &&& c1.above_newmv == c0.above_newmv
            &&& c1.left_newmv == c0.left_newmv
        }),
{
    let cw = w / 2 + w % 2;
    let chh = h / 2 + h % 2;
    proof {
        assert(cw * chh == half_up(w as int) * half_up(h as int));
    }
    let (y_bottom, y_right) = block_edges(ry, w, h, bx * 4, by * 4, 8);
    let (u_bottom, u_right) = block_edges(ru, cw, chh, bx * 2, by * 2, 4);
    let (v_bottom, v_right) = block_edges(rv, cw, chh, bx * 2, by * 2, 4);
    c.update_recon(bx, by, mi_cols, mi_rows, y_bottom.as_slice(), y_right.as_slice(), u_bottom.as_slice(), u_right.as_slice(), v_bottom.as_slice(), v_right.as_slice());
    proof {
        assert(v_bottom@.subrange(0, u_bottom@.len() as int) =~= v_bottom@);
        assert(v_right@.subrange(0, u_right@.len() as int) =~= v_right@);
    }
    let ycv = coef_ctx_value(yr.0, yr.1, yr.2);
    let ucv = coef_ctx_value(ur.0, ur.1, ur.2);
    let vcv = coef_ctx_value(vr.0, vr.1, vr.2);
    c.update_coef_ctx(bx, by, bl, mi_cols, mi_rows, ycv, ucv, vcv);
    c.update_partition_ctx(bx, by, bl, mi_cols, mi_rows);
    c.update_skip_ctx(bx, by, bl, mi_cols, mi_rows, skip);
    c.update_mode_ctx(bx, by, bl, mi_cols, mi_rows, mode);
    proof {
        assert(forall|j: int| 0 <= j < c.above_skip@.len() ==> #[trigger] c.above_skip@[j] <= 1);
        assert(forall|j: int| 0 <= j < c.left_skip@.len() ==> #[trigger] c.left_skip@[j] <= 1);
    }
}

/// What coding the block of level `bl` at `(bx, by)` leaves, given the
/// analysis `a` of it: `u` is `t` with the symbols of the block coded, its
/// samples reconstructed, and its edges and contexts stored for its neighbours.
pub open spec fn intra_block_done(t: TileEncoder, u: TileEncoder, bx: u32, by: u32, bl: usize, a: (u8, i8, Seq<u8>, TxType, Seq<i32>, int, int, Seq<i32>, Seq<i32>, bool)) -> bool {
    let (mode, delta, pred, tx, yq, up, vp, uq, vq, skip) = a;
    let c0 = t.ctx;
    let c1 = u.ctx;
    let w = t.width as int;
    let h = t.height as int;
    let cw = half_up(w);
    let chh = half_up(h);
    let mc = t.mi_cols as int;
    let mr = t.mi_rows as int;
    let ops = intra_mode_ops(c0, bx, by, bl as int, skip, mode, delta) + (if skip {
        Seq::empty()
    } else {
        intra_coef_ops(c0, bx, by, bl as int, false, mode, tx, yq, uq, vq)
    });
    let ry = paste_rect(t.recon_y@, w, 4 * bx as int, 4 * by as int, 8, recon_vals(pred_ints(pred), luma_residual(yq, t.dc_dq, t.ac_dq, tx)));
    let ru = paste_rect(t.recon_u@, cw, 2 * bx as int, 2 * by as int, 4, recon_vals(flat(up, 16), inverse_transform_4x4_spec(deq_seq(uq, t.dc_dq, t.ac_dq), TxType::DctDct)));
    let rv = paste_rect(t.recon_v@, cw, 2 * bx as int, 2 * by as int, 4, recon_vals(flat(vp, 16), inverse_transform_4x4_spec(deq_seq(vq, t.dc_dq, t.ac_dq), TxType::DctDct)));
    &&& state_of(u.enc, u.cdfs@) == run_ops(state_of(t.enc, t.cdfs@), ops, t.enc.updates_cdf())
    &&& u.recon_y@ == ry
    &&& u.recon_u@ == ru
    &&& u.recon_v@ == rv
    &&& c1.above_recon_y@ == copied(c0.above_recon_y@, 4 * bx as int, edge_row(ry, w, h, 4 * bx, 4 * by, 8), 4 * mc - 4 * bx)
    &&& c1.left_recon_y@ == copied(c0.left_recon_y@, 4 * (by as int % 16), edge_col(ry, w, h, 4 * bx, 4 * by, 8), 4 * mr - 4 * by)
    &&& c1.above_recon_u@ == copied(c0.above_recon_u@, 2 * bx as int, edge_row(ru, cw, chh, 2 * bx, 2 * by, 4), 2 * mc - 2 * bx)
    &&& c1.above_recon_v@ == copied(c0.above_recon_v@, 2 * bx as int, edge_row(rv, cw, chh, 2 * bx, 2 * by, 4), 2 * mc - 2 * bx)
    &&& c1.left_recon_u@ == copied(c0.left_recon_u@, 2 * (by as int % 16), edge_col(ru, cw, chh, 2 * bx, 2 * by, 4), 2 * mr - 2 * by)
    &&& c1.left_recon_v@ == copied(c0.left_recon_v@, 2 * (by as int % 16), edge_col(rv, cw, chh, 2 * bx, 2 * by, 4), 2 * mr - 2 * by)
    &&& c1.above_lcoef@ == filled(c0.above_lcoef@, bx as int, run_len(span4(bl as int), mc - bx), coef_ctx_of(txb_result(yq, DEFAULT_SCAN_8X8@)))
    &&& c1.left_lcoef@ == filled(c0.left_lcoef@, in_sb(by), run_len(span4(bl as int), mr - by), coef_ctx_of(txb_result(yq, DEFAULT_SCAN_8X8@)))
    &&& c1.above_ccoef_u@ == filled(c0.above_ccoef_u@, (bx / 2) as int, run_len(half_span_spec(bl as int), half_up(mc - bx)), coef_ctx_of(txb_result(uq, DEFAULT_SCAN_4X4@)))
    &&& c1.above_ccoef_v@ == filled(c0.above_ccoef_v@, (bx / 2) as int, run_len(half_span_spec(bl as int), half_up(mc - bx)), coef_ctx_of(txb_result(vq, DEFAULT_SCAN_4X4@)))
    &&& c1.left_ccoef_u@ == filled(c0.left_ccoef_u@, in_sb(by) / 2, run_len(half_span_spec(bl as int), half_up(mr - by)), coef_ctx_of(txb_result(uq, DEFAULT_SCAN_4X4@)))
    &&& c1.left_ccoef_v@ == filled(c0.left_ccoef_v@, in_sb(by) / 2, run_len(half_span_spec(bl as int), half_up(mr - by)), coef_ctx_of(txb_result(vq, DEFAULT_SCAN_4X4@)))
    &&& c1.above_partition@ == filled(c0.above_partition@, (bx / 2) as int, run_len(half_span_spec(bl as int), half_up(mc - bx)), PARTITION_CTX_NONE@[bl as int])
    &&& c1.left_partition@ == filled(c0.left_partition@, in_sb(by) / 2, run_len(half_span_spec(bl as int), half_up(mr - by)), PARTITION_CTX_NONE@[bl as int])
    &&& c1.above_skip@ == filled(c0.above_skip@, bx as int, run_len(span4(bl as int), mc - bx), if skip { 1u8 } else { 0u8 })
    &&& c1.left_skip@ == filled(c0.left_skip@, in_sb(by), run_len(span4(bl as int), mr - by), if skip { 1u8 } else { 0u8 })
    &&& c1.above_mode@ == filled(c0.above_mode@, bx as int, run_len(span4(bl as int), mc - bx), mode)
    &&& c1.left_mode@ == filled(c0.left_mode@, in_sb(by), run_len(span4(bl as int), mr - by), mode)
    &&& c1.above_intra == c0.above_intra
    &&& c1.left_intra == c0.left_intra
    &&& c1.above_newmv == c0.above_newmv
    &&& c1.left_newmv == c0.left_newmv
}

/// Coding a block changes no reconstructed sample outside its 8x8 luma
/// window and its two 4x4 chroma windows, and keeps the planes' sizes.
pub proof fn lemma_intra_block_local(
    t: TileEncoder,
    u: TileEncoder,
    bx: u32,
    by: u32,
    bl: usize,
    a: (u8, i8, Seq<u8>, TxType, Seq<i32>, int, int, Seq<i32>, Seq<i32>, bool),
)
    requires
        intra_block_done(t, u, bx, by, bl, a),
    ensures
        u.recon_y@.len() == t.recon_y@.len(),
        u.recon_u@.len() == t.recon_u@.len(),
        u.recon_v@.len() == t.recon_v@.len(),
        forall|i: int|
            0 <= i < t.recon_y@.len() && !(4 * bx <= i % (t.width as int) < 4 * bx + 8 && 4 * by <= i / (t.width as int) < 4 * by + 8)
                ==> #[trigger] u.recon_y@[i] == t.recon_y@[i],
        forall|i: int|
            0 <= i < t.recon_u@.len() && !(2 * bx <= i % half_up(t.width as int) < 2 * bx + 4 && 2 * by <= i / half_up(t.width as int) < 2 * by + 4)
                ==> #[trigger] u.recon_u@[i] == t.recon_u@[i],
        forall|i: int|
            0 <= i < t.recon_v@.len() && !(2 * bx <= i % half_up(t.width as int) < 2 * bx + 4 && 2 * by <= i / half_up(t.width as int) < 2 * by + 4)
                ==> #[trigger] u.recon_v@[i] == t.recon_v@[i],
{
}

/// Reconstructs the 8x8 luma samples of the block at `(bx, by)` into `recon`.
#[verifier::spinoff_prover]
#[verifier::rlimit(40)]
pub(crate) fn reconstruct_luma(recon: &mut Vec<u8>, w: u32, h: u32, bx: u32, by: u32, pred: &Vec<u8>, tx: TxType, q: &Vec<i32>, dc_dq: u32, ac_dq: u32, Ghost(cf): Ghost<Seq<int>>)
    requires
        1 <= w <= 0xffff,
        1 <= h <= 0xffff,
        old(recon)@.len() == w * h,
        bx < 0x4000,
        by < 0x4000,
        q@ == quant_seq(cf, dc_dq, ac_dq),
        cf.len() == 64,
        bounded(cf, 203727),
        pred@.len() == 64,
        1 <= dc_dq <= 0x10000,
        1 <= ac_dq <= 0x10000,
    ensures
        final(recon)@ == paste_rect(old(recon)@, w as int, 4 * bx as int, 4 * by as int, 8, recon_vals(pred_ints(pred@), luma_residual(q@, dc_dq, ac_dq, tx))),
        final(recon)@.len() == old(recon)@.len(),
{
    let vals = luma_recon(q, tx, pred, dc_dq, ac_dq, Ghost(cf));
    paste_block(recon, w, h, bx * 4, by * 4, 8, &vals);
}

/// Reconstructs the 4x4 chroma samples of the block at `(bx, by)`, predicted flat at `pred`, into `recon`.
pub(crate) fn reconstruct_chroma(recon: &mut Vec<u8>, cw: u32, chh: u32, bx: u32, by: u32, pred: u8, q: &Vec<i32>, dc_dq: u32, ac_dq: u32, Ghost(cf): Ghost<Seq<int>>)
    requires
        1 <= cw <= 0x8000,
        1 <= chh <= 0x8000,
        old(recon)@.len() == cw * chh,
        bx < 0x4000,
        by < 0x4000,
        q@ == quant_seq(cf, dc_dq, ac_dq),
        cf.len() == 16,
        bounded(cf, 9188),
        1 <= dc_dq <= 0x10000,
        1 <= ac_dq <= 0x10000,
    ensures
        final(recon)@ == paste_rect(old(recon)@, cw as int, 2 * bx as int, 2 * by as int, 4, recon_vals(flat(pred as int, 16), inverse_transform_4x4_spec(deq_seq(q@, dc_dq, ac_dq), TxType::DctDct))),
        final(recon)@.len() == old(recon)@.len(),
{
    let vals = chroma_recon(q, pred, dc_dq, ac_dq, Ghost(cf));
    paste_block(recon, cw, chh, bx * 2, by * 2, 4, &vals);
}

impl TileEncoder {
    /// Codes the block of level `bl` at 4x4 unit `(bx, by)` as an intra
    /// block: the best intra mode for its top-left 8x8 luma samples (by rate
    /// and distortion), the best transform pair for them, DC prediction for
    /// the 4x4 chroma blocks, the quantized coefficients (all skipped when
    /// every one is zero), the reconstruction of those samples, and the
    /// block's edges, coefficient, partition, skip and mode contexts stored
    /// for its neighbours.
    #[verifier::rlimit(100)]
    pub fn encode_block(&mut self, bx: u32, by: u32, bl: usize)
        requires
            old(self).wf(),
            bx < old(self).mi_cols,
            by < old(self).mi_rows,
            bl <= 4,
        ensures
            final(self).wf(),
            final(self).enc.updates_cdf() == old(self).enc.updates_cdf(),
            final(self).width == old(self).width,
            final(self).height == old(self).height,
            final(self).mi_cols == old(self).mi_cols,
            final(self).mi_rows == old(self).mi_rows,
            final(self).src_y == old(self).src_y,
            final(self).src_u == old(self).src_u,
            final(self).src_v == old(self).src_v,
            final(self).dc_dq == old(self).dc_dq,
            final(self).ac_dq == old(self).ac_dq,
            intra_block_done(*old(self), *final(self), bx, by, bl, intra_analysis(*old(self), bx, by, bl)),
    {
        proof {
            assert(bx < 0x4000 && by < 0x4000);
        }
        let ghost t0 = *self;
        let w = self.width;
        let h = self.height;
        let (mode, delta, pred, tx, yq, up, vp, uq, vq, skip) = analyse_block(self, bx, by, bl);
        self.finish_block(
            bx, by, bl, mode, delta, &pred, tx, &yq, up, vp, &uq, &vq, skip,
            Ghost(forward_transform_8x8_spec(diff(block_at(t0.src_y@, w as int, 4 * bx as int, 4 * by as int, 8, w as int, h as int), pred@), tx)),
            Ghost(forward_transform_4x4_spec(diff_from(block_at(t0.src_u@, half_up(w as int), 2 * bx as int, 2 * by as int, 4, half_up(w as int), half_up(h as int)), up as int), TxType::DctDct)),
            Ghost(forward_transform_4x4_spec(diff_from(block_at(t0.src_v@, half_up(w as int), 2 * bx as int, 2 * by as int, 4, half_up(w as int), half_up(h as int)), vp as int), TxType::DctDct)),
        );
    }

    /// Codes the analysed block of level `bl` at `(bx, by)`, reconstructs its
    /// samples and stores its edges and contexts; `cy`, `cu` and `cv` are the
    /// transform coefficients that `yq`, `uq` and `vq` quantize.
    #[verifier::spinoff_prover]
    #[verifier::rlimit(100)]
    fn finish_block(
        &mut self,
        bx: u32,
        by: u32,
        bl: usize,
        mode: u8,
        delta: i8,
        pred: &Vec<u8>,
        tx: TxType,
        yq: &Vec<i32>,
        up: u8,
        vp: u8,
        uq: &Vec<i32>,
        vq: &Vec<i32>,
        skip: bool,
        Ghost(cy): Ghost<Seq<int>>,
        Ghost(cu): Ghost<Seq<int>>,
        Ghost(cv): Ghost<Seq<int>>,
    )
        requires
            old(self).wf(),
            bx < old(self).mi_cols,
            by < old(self).mi_rows,
            bl <= 4,
            mode <= 12,
            -3 <= delta <= 3,
            pred@.len() == 64,
            skip == (all_zero(yq@) && all_zero(uq@) && all_zero(vq@)),
            yq@ == quant_seq(cy, old(self).dc_dq, old(self).ac_dq),
            uq@ == quant_seq(cu, old(self).dc_dq, old(self).ac_dq),
            vq@ == quant_seq(cv, old(self).dc_dq, old(self).ac_dq),
            cy.len() == 64,
            cu.len() == 16,
            cv.len() == 16,
            bounded(cy, 203727),
            bounded(cu, 9188),
            bounded(cv, 9188),
            yq@.len() == 64,
            uq@.len() == 16,
            vq@.len() == 16,
            forall|i: int| 0 <= i < 64 ==> -203727 <= #[trigger] yq@[i] <= 203727,
            forall|i: int| 0 <= i < 16 ==> -9188 <= #[trigger] uq@[i] <= 9188,
            forall|i: int| 0 <= i < 16 ==> -9188 <= #[trigger] vq@[i] <= 9188,
        ensures
            final(self).wf(),
            final(self).enc.updates_cdf() == old(self).enc.updates_cdf(),
            final(self).width == old(self).width,
            final(self).height == old(self).height,
            final(self).mi_cols == old(self).mi_cols,
            final(self).mi_rows == old(self).mi_rows,
            final(self).src_y == old(self).src_y,
            final(self).src_u == old(self).src_u,
            final(self).src_v == old(self).src_v,
            final(self).dc_dq == old(self).dc_dq,
            final(self).ac_dq == old(self).ac_dq,
            intra_block_done(*old(self), *final(self), bx, by, bl, (mode, delta, pred@, tx, yq@, up as int, vp as int, uq@, vq@, skip)),
    {
        let w = self.width;
        let h = self.height;
        let cw = w / 2 + w % 2;
        let chh = h / 2 + h % 2;
        let dc = self.dc_dq;
        let ac = self.ac_dq;
        proof {
            assert(cw == half_up(w as int) && chh == half_up(h as int));
            assert(cw * chh == half_up(w as int) * half_up(h as int));
            assert(bx < 0x4000 && by < 0x4000);
            lemma_txb_result_small(yq@, DEFAULT_SCAN_8X8@);
            lemma_txb_result_small(uq@, DEFAULT_SCAN_4X4@);
            lemma_txb_result_small(vq@, DEFAULT_SCAN_4X4@);
        }
        let (yr, ur, vr) = code_block_syntax(&mut self.enc, &mut self.cdfs, &self.ctx, bx, by, bl, skip, mode, delta, tx, yq, uq, vq);
        reconstruct_luma(&mut self.recon_y, w, h, bx, by, pred, tx, yq, dc, ac, Ghost(cy));
        reconstruct_chroma(&mut self.recon_u, cw, chh, bx, by, up, uq, dc, ac, Ghost(cu));
        reconstruct_chroma(&mut self.recon_v, cw, chh, bx, by, vp, vq, dc, ac, Ghost(cv));
        let mi_cols = self.mi_cols;
        let mi_rows = self.mi_rows;
        store_block_context(&mut self.ctx, &self.recon_y, &self.recon_u, &self.recon_v, w, h, bx, by, bl, mi_cols, mi_rows, yr, ur, vr, skip, mode);
    }
}

/// What coding the block of level `bl` at `(bx, by)` as a skipped intra
/// block leaves: DC prediction over the whole block in each plane, the skip,
/// DC mode and chroma DC mode syntax, the predicted values as the block's
/// edges, no coefficients, and DC as its mode.
pub open spec fn intra_skip_done(t: TileEncoder, u: TileEncoder, bx: u32, by: u32, bl: usize) -> bool {
    let c0 = t.ctx;
    let c1 = u.ctx;
    let w = t.width as int;
    let h = t.height as int;
    let cw = half_up(w);
    let chh = half_up(h);
    let mc = t.mi_cols as int;
    let mr = t.mi_rows as int;
    let bs = block_px(bl as int);
    let yp = dc_pred_spec(c0, bx, by, bl, 0) as u8;
    let up = dc_pred_spec(c0, bx, by, bl, 1) as u8;
    let vp = dc_pred_spec(c0, bx, by, bl, 2) as u8;
    &&& state_of(u.enc, u.cdfs@) == run_ops(state_of(t.enc, t.cdfs@), intra_mode_ops(c0, bx, by, bl as int, true, 0, 0), t.enc.updates_cdf())
    &&& u.recon_y@ == copy_rect(t.recon_y@, flat_plane(t.recon_y@.len(), yp), w, 4 * bx as int, 4 * by as int, bs, bs)
    &&& u.recon_u@ == copy_rect(t.recon_u@, flat_plane(t.recon_u@.len(), up), cw, 2 * bx as int, 2 * by as int, bs / 2, bs / 2)
    &&& u.recon_v@ == copy_rect(t.recon_v@, flat_plane(t.recon_v@.len(), vp), cw, 2 * bx as int, 2 * by as int, bs / 2, bs / 2)
    &&& c1.above_recon_y@ == copied(c0.above_recon_y@, 4 * bx as int, flat_plane(bs as nat, yp), 4 * mc - 4 * bx)
    &&& c1.left_recon_y@ == copied(c0.left_recon_y@, 4 * (by as int % 16), flat_plane(bs as nat, yp), 4 * mr - 4 * by)
    &&& c1.above_recon_u@ == copied(c0.above_recon_u@, 2 * bx as int, flat_plane((bs / 2) as nat, up), 2 * mc - 2 * bx)
    &&& c1.above_recon_v@ == copied(c0.above_recon_v@, 2 * bx as int, flat_plane((bs / 2) as nat, vp), 2 * mc - 2 * bx)
    &&& c1.left_recon_u@ == copied(c0.left_recon_u@, 2 * (by as int % 16), flat_plane((bs / 2) as nat, up), 2 * mr - 2 * by)
    &&& c1.left_recon_v@ == copied(c0.left_recon_v@, 2 * (by as int % 16), flat_plane((bs / 2) as nat, vp), 2 * mr - 2 * by)
    &&& c1.above_lcoef@ == filled(c0.above_lcoef@, bx as int, run_len(span4(bl as int), mc - bx), 0x40u8)
    &&& c1.left_lcoef@ == filled(c0.left_lcoef@, in_sb(by), run_len(span4(bl as int), mr - by), 0x40u8)
    &&& c1.above_ccoef_u@ == filled(c0.above_ccoef_u@, (bx / 2) as int, run_len(half_span_spec(bl as int), half_up(mc - bx)), 0x40u8)
    &&& c1.above_ccoef_v@ == filled(c0.above_ccoef_v@, (bx / 2) as int, run_len(half_span_spec(bl as int), half_up(mc - bx)), 0x40u8)
    &&& c1.left_ccoef_u@ == filled(c0.left_ccoef_u@, in_sb(by) / 2, run_len(half_span_spec(bl as int), half_up(mr - by)), 0x40u8)
    &&& c1.left_ccoef_v@ == filled(c0.left_ccoef_v@, in_sb(by) / 2, run_len(half_span_spec(bl as int), half_up(mr - by)), 0x40u8)
    &&& c1.above_partition@ == filled(c0.above_partition@, (bx / 2) as int, run_len(half_span_spec(bl as int), half_up(mc - bx)), PARTITION_CTX_NONE@[bl as int])
    &&& c1.left_partition@ == filled(c0.left_partition@, in_sb(by) / 2, run_len(half_span_spec(bl as int), half_up(mr - by)), PARTITION_CTX_NONE@[bl as int])
    &&& c1.above_skip@ == filled(c0.above_skip@, bx as int, run_len(span4(bl as int), mc - bx), 1u8)
    &&& c1.left_skip@ == filled(c0.left_skip@, in_sb(by), run_len(span4(bl as int), mr - by), 1u8)
    &&& c1.above_mode@ == filled(c0.above_mode@, bx as int, run_len(span4(bl as int), mc - bx), 0u8)
    &&& c1.left_mode@ == filled(c0.left_mode@, in_sb(by), run_len(span4(bl as int), mr - by), 0u8)
    &&& c1.above_intra == c0.above_intra
    &&& c1.left_intra == c0.left_intra
    &&& c1.above_newmv == c0.above_newmv
    &&& c1.left_newmv == c0.left_newmv
}

impl TileEncoder {
    /// Codes the block of level `bl` at 4x4 unit `(bx, by)` as a skipped
    /// intra block with DC prediction: the skip flag, DC luma mode and DC
    /// chroma mode, the DC prediction written over the whole block in each
    /// plane, and the block's edges and contexts stored for its neighbours.
    #[verifier::spinoff_prover]
    #[verifier::rlimit(80)]
    pub fn encode_skip_block(&mut self, bx: u32, by: u32, bl: usize)
        requires
            old(self).wf(),
            bx < old(self).mi_cols,
            by < old(self).mi_rows,
            bl <= 4,
        ensures
            final(self).wf(),
            final(self).enc.updates_cdf() == old(self).enc.updates_cdf(),
            final(self).width == old(self).width,
            final(self).height == old(self).height,
            final(self).mi_cols == old(self).mi_cols,
            final(self).mi_rows == old(self).mi_rows,
            final(self).src_y == old(self).src_y,
            final(self).src_u == old(self).src_u,
            final(self).src_v == old(self).src_v,
            final(self).dc_dq == old(self).dc_dq,
            final(self).ac_dq == old(self).ac_dq,
            intra_skip_done(*old(self), *final(self), bx, by, bl),
    {
        proof {
            assert(bx < 0x4000 && by < 0x4000);
        }
        let yp = self.ctx.dc_prediction(bx, by, bl, 0);
        let up = self.ctx.dc_prediction(bx, by, bl, 1);
        let vp = self.ctx.dc_prediction(bx, by, bl, 2);
        code_intra_modes(&mut self.enc, &mut self.cdfs, &self.ctx, bx, by, bl, true, 0, 0);
        let bs: u32 = if bl == 0 { 128 } else if bl == 1 { 64 } else if bl == 2 { 32 } else if bl == 3 { 16 } else { 8 };
        let w = self.width;
        let h = self.height;
        let cw = w / 2 + w % 2;
        let chh = h / 2 + h % 2;
        proof {
            assert(cw == half_up(w as int) && chh == half_up(h as int));
            assert(cw * chh == half_up(w as int) * half_up(h as int));
        }
        fill_block(&mut self.recon_y, w, h, bx * 4, by * 4, bs, yp);
        fill_block(&mut self.recon_u, cw, chh, bx * 2, by * 2, bs / 2, up);
        fill_block(&mut self.recon_v, cw, chh, bx * 2, by * 2, bs / 2, vp);
        let ye = const_plane(bs as usize, yp);
        let ue = const_plane((bs / 2) as usize, up);
        let ve = const_plane((bs / 2) as usize, vp);
        let mi_cols = self.mi_cols;
        let mi_rows = self.mi_rows;
        self.ctx.update_recon(bx, by, mi_cols, mi_rows, ye.as_slice(), ye.as_slice(), ue.as_slice(), ue.as_slice(), ve.as_slice(), ve.as_slice());
        proof {
            assert(ve@.subrange(0, ue@.len() as int) =~= ve@);
        }
        self.ctx.update_coef_ctx(bx, by, bl, mi_cols, mi_rows, 0x40, 0x40, 0x40);
        self.ctx.update_partition_ctx(bx, by, bl, mi_cols, mi_rows);
        self.ctx.update_skip_ctx(bx, by, bl, mi_cols, mi_rows, true);
        self.ctx.update_mode_ctx(bx, by, bl, mi_cols, mi_rows, 0);
        proof {
            let c = self.ctx;
            assert(forall|j: int| 0 <= j < c.above_skip@.len() ==> #[trigger] c.above_skip@[j] <= 1);
            assert(forall|j: int| 0 <= j < c.left_skip@.len() ==> #[trigger] c.left_skip@[j] <= 1);
        }
    }
}


impl TileEncoder {
    /// An encoder for the `width` x `height` source planes `src_y`, `src_u`,
    /// `src_v` with quantizer steps `dc_dq` and `ac_dq`, coding with the CDFs
    /// `cdfs` and adapting them: a fresh coder and context and a mid-grey
    /// reconstruction.
    pub fn new(width: u32, height: u32, src_y: Vec<u8>, src_u: Vec<u8>, src_v: Vec<u8>, dc_dq: u32, ac_dq: u32, cdfs: Vec<Vec<u16>>) -> (t: TileEncoder)
        requires
            1 <= width <= 0xffff,
            1 <= height <= 0xffff,
            src_y@.len() == width * height,
            src_u@.len() == half_up(width as int) * half_up(height as int),
            src_v@.len() == half_up(width as int) * half_up(height as int),
            1 <= dc_dq <= 0x10000,
            1 <= ac_dq <= 0x10000,
            cdfs_valid(cdf_view(cdfs@)),
        ensures
            t.wf(),
            t.enc.updates_cdf(),
            t.enc.model() == (0u32, 0x8000u16, -9i16, Seq::<u16>::empty()),
            t.cdfs@ == cdfs@,
            t.width == width,
            t.height == height,
            t.src_y@ == src_y@,
            t.src_u@ == src_u@,
            t.src_v@ == src_v@,
            t.dc_dq == dc_dq,
            t.ac_dq == ac_dq,
            t.recon_y@ == Seq::new((width * height) as nat, |i: int| 128u8),
            t.recon_u@ == Seq::new((half_up(width as int) * half_up(height as int)) as nat, |i: int| 128u8),
            t.recon_v@ == Seq::new((half_up(width as int) * half_up(height as int)) as nat, |i: int| 128u8),
    {
        let mi_cols = 2 * ((width + 7) / 8);
        let mi_rows = 2 * ((height + 7) / 8);
        let cw = width / 2 + width % 2;
        let chh = height / 2 + height % 2;
        proof {
            assert(width * height <= 0xffff * 0xffff) by (nonlinear_arith)
                requires
                    width <= 0xffff,
                    height <= 0xffff,
            ;
            assert(cw * chh <= 0x8000 * 0x8000) by (nonlinear_arith)
                requires
                    cw <= 0x8000,
                    chh <= 0x8000,
            ;
        }
        let enc = MsacEncoder::new();
        let ctx = TileContext::new(mi_cols);
        TileEncoder {
            enc,
            cdfs,
            ctx,
            mi_cols,
            mi_rows,
            width,
            height,
            src_y,
            src_u,
            src_v,
            dc_dq,
            ac_dq,
            recon_y: grey_plane((width * height) as usize),
            recon_u: grey_plane((cw * chh) as usize),
            recon_v: grey_plane((cw * chh) as usize),
        }
    }
}

} // verus!
