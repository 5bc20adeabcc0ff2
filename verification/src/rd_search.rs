use vstd::prelude::*;
use crate::dct::{
    TxType, bounded, ints, forward_transform_8x8, inverse_transform_8x8, forward_transform_8x8_spec,
    inverse_transform_8x8_spec, lemma_forward_8x8_bound, lemma_inverse_8x8_bound,
};
use crate::directional::clamp255;
use crate::tile::{
    quantize_coeffs, dequantize_coeffs, quantize_spec, step_for, TXTP_INTRA2_MAP, predict_dc, predict_v,
    predict_h, predict_smooth, predict_smooth_v, predict_smooth_h, predict_paeth,
};
use crate::directional::{generate_prediction, prediction_spec, prediction_ok, mode_angle, directional_ok};
use crate::tile::MODE_TO_ANGLE;

verus! {

/// The residual of the first 64 pixels: source minus prediction.
pub open spec fn residual64(src: Seq<u8>, pred: Seq<u8>) -> Seq<int> {
    Seq::new(64, |i: int| src[i] as int - pred[i] as int)
}

/// The quantized coefficients of a block, each with its step.
pub open spec fn quantized64(c: Seq<int>, dc_dq: u32, ac_dq: u32) -> Seq<int> {
    Seq::new(64, |i: int| quantize_spec(c[i], step_for(i, dc_dq, ac_dq)))
}

/// The coefficients rebuilt from their quantized values.
pub open spec fn dequantized64(q: Seq<int>, dc_dq: u32, ac_dq: u32) -> Seq<int> {
    Seq::new(64, |i: int| q[i] * step_for(i, dc_dq, ac_dq))
}

/// The sum over the first `n` pixels of the squared difference between the
/// source and the prediction plus the rebuilt residual, held to a byte.
pub open spec fn recon_sse(src: Seq<u8>, pred: Seq<u8>, rr: Seq<int>, n: int) -> int
    decreases n,
{
    if n <= 0 {
        0
    } else {
        let d = src[n - 1] as int - clamp255(pred[n - 1] as int + rr[n - 1]);
        recon_sse(src, pred, rr, n - 1) + d * d
    }
}

/// How many of the first `n` entries are not zero.
pub open spec fn nonzero_count(q: Seq<int>, n: int) -> int
    decreases n,
{
    if n <= 0 {
        0
    } else {
        nonzero_count(q, n - 1) + (if q[n - 1] != 0 { 1int } else { 0int })
    }
}

/// The rate-distortion cost of coding the 8x8 residual of `pred` against
/// `src` with transform pair `tx`: the squared error of the reconstruction
/// after quantization, plus `ac_dq^2 / 4` for each coefficient left.
#[verifier::opaque]
pub open spec fn rd_cost_spec(src: Seq<u8>, pred: Seq<u8>, dc_dq: u32, ac_dq: u32, tx: TxType) -> int {
    let c = forward_transform_8x8_spec(residual64(src, pred), tx);
    let q = quantized64(c, dc_dq, ac_dq);
    let rr = inverse_transform_8x8_spec(dequantized64(q, dc_dq, ac_dq), tx);
    recon_sse(src, pred, rr, 64) + (ac_dq as int * ac_dq as int) / 4 * nonzero_count(q, 64)
}

pub(crate) proof fn lemma_dequantized_bound(c: int, dq: int)
    requires
        1 <= dq,
        -203727 <= c <= 203727,
    ensures
        -(203727 + dq / 2) <= quantize_spec(c, dq) * dq <= 203727 + dq / 2,
{
    if c < 0 {
        let x = -c + dq / 2;
        vstd::arithmetic::div_mod::lemma_fundamental_div_mod(x, dq);
        assert((x / dq) * dq <= x) by (nonlinear_arith)
            requires
                x == dq * (x / dq) + x % dq,
                0 <= x % dq,
        ;
        assert((x / dq) * dq >= 0) by (nonlinear_arith)
            requires
                x >= 0,
                dq >= 1,
        ;
        assert(quantize_spec(c, dq) * dq == -((x / dq) * dq)) by (nonlinear_arith)
            requires
                quantize_spec(c, dq) == -(x / dq),
        ;
    } else {
        let x = c + dq / 2;
        vstd::arithmetic::div_mod::lemma_fundamental_div_mod(x, dq);
        assert((x / dq) * dq <= x) by (nonlinear_arith)
            requires
                x == dq * (x / dq) + x % dq,
                0 <= x % dq,
        ;
        assert((x / dq) * dq >= 0) by (nonlinear_arith)
            requires
                x >= 0,
                dq >= 1,
        ;
    }
}

/// The rate-distortion cost of predicting the 8x8 block `source` by
/// `prediction` and coding the residual with transform pair `tx_type`.
pub fn compute_rd_cost(source: &[u8], prediction: &[u8], dc_dq: u32, ac_dq: u32, tx_type: TxType) -> (r: u64)
    requires
        source@.len() >= 64,
        prediction@.len() >= 64,
        1 <= dc_dq <= 0x10000,
        1 <= ac_dq <= 0x10000,
    ensures
        r as int == rd_cost_spec(source@, prediction@, dc_dq, ac_dq, tx_type),
{
    let mut residual = [0i32; 64];
    let mut i: usize = 0;
    while i < 64
        invariant
            i <= 64,
            source@.len() >= 64,
            prediction@.len() >= 64,
            forall|j: int| 0 <= j < i ==> #[trigger] residual@[j] as int == source@[j] as int - prediction@[j] as int,
        decreases 64 - i,
    {
        residual[i] = source[i] as i32 - prediction[i] as i32;
        i += 1;
    }
    let ghost res = residual64(source@, prediction@);
    assert(ints(residual@) =~= res);
    assert(bounded(res, 255));
    proof {
        lemma_forward_8x8_bound(res, tx_type);
    }
    let dct_coeffs = forward_transform_8x8(&residual, tx_type);
    let ghost c = forward_transform_8x8_spec(res, tx_type);
    assert forall|j: int| 0 <= j < 64 implies -203727 <= #[trigger] dct_coeffs@[j] <= 203727 by {
        assert(ints(dct_coeffs@)[j] == c[j]);
    }
    let quant = quantize_coeffs(dct_coeffs.as_slice(), 64, dc_dq, ac_dq);
    let ghost q = quantized64(c, dc_dq, ac_dq);
    assert forall|j: int| 0 <= j < 64 implies #[trigger] quant@[j] as int == q[j] by {
        assert(ints(dct_coeffs@)[j] == c[j]);
    }
    assert forall|j: int| 0 <= j < 64 implies i32::MIN <= #[trigger] quant@[j] * step_for(j, dc_dq, ac_dq) <= i32::MAX by {
        lemma_dequantized_bound(dct_coeffs@[j] as int, step_for(j, dc_dq, ac_dq));
    }
    let deq = dequantize_coeffs(quant.as_slice(), 64, dc_dq, ac_dq);
    let mut deq_arr = [0i32; 64];
    let mut i: usize = 0;
    while i < 64
        invariant
            i <= 64,
            deq@.len() == 64,
            forall|j: int| 0 <= j < i ==> #[trigger] deq_arr@[j] == deq@[j],
        decreases 64 - i,
    {
        deq_arr[i] = deq[i];
        i += 1;
    }
    let ghost d = dequantized64(q, dc_dq, ac_dq);
    assert(ints(deq_arr@) =~= d);
    assert(bounded(d, 0x40000)) by {
        assert forall|j: int| 0 <= j < 64 implies -0x40000 <= #[trigger] d[j] <= 0x40000 by {
            lemma_dequantized_bound(dct_coeffs@[j] as int, step_for(j, dc_dq, ac_dq));
            assert(ints(dct_coeffs@)[j] == c[j]);
        }
    }
    proof {
        lemma_inverse_8x8_bound(d, tx_type);
    }
    let recon_residual = inverse_transform_8x8(&deq_arr, tx_type);
    let ghost rr = inverse_transform_8x8_spec(d, tx_type);
    let mut sse: u64 = 0;
    let mut i: usize = 0;
    while i < 64
        invariant
            i <= 64,
            source@.len() >= 64,
            prediction@.len() >= 64,
            ints(recon_residual@) == rr,
            bounded(rr, 32768),
            rr.len() == 64,
            sse as int == recon_sse(source@, prediction@, rr, i as int),
            sse <= 65025 * i,
        decreases 64 - i,
    {
        assert(ints(recon_residual@)[i as int] == rr[i as int]);
        let v = prediction[i] as i32 + recon_residual[i];
        let recon = if v < 0 {
            0
        } else if v > 255 {
            255
        } else {
            v
        };
        let diff = source[i] as i32 - recon;
        assert(diff * diff <= 65025) by (nonlinear_arith)
            requires
                -255 <= diff <= 255,
        ;
        assert(diff * diff >= 0) by (nonlinear_arith);
        sse = sse + (diff * diff) as u64;
        i += 1;
    }
    let mut nz_count: u64 = 0;
    let mut i: usize = 0;
    while i < 64
        invariant
            i <= 64,
            quant@.len() == 64,
            forall|j: int| 0 <= j < 64 ==> #[trigger] quant@[j] as int == q[j],
            nz_count as int == nonzero_count(q, i as int),
            nz_count <= i,
        decreases 64 - i,
    {
        if quant[i] != 0 {
            nz_count = nz_count + 1;
        }
        i += 1;
    }
    let a = ac_dq as u64;
    assert(a * a <= 0x1_0000_0000) by (nonlinear_arith)
        requires
            a <= 0x10000,
    ;
    let sq = a * a;
    let lambda = sq >> 2u64;
    proof {
        vstd::bits::lemma_u64_shr_is_div(sq, 2);
        vstd::arithmetic::power2::lemma2_to64();
    }
    assert(lambda * nz_count <= 0x4000_0000 * 64) by (nonlinear_arith)
        requires
            lambda <= 0x4000_0000,
            nz_count <= 64,
    ;
    proof {
        reveal(rd_cost_spec);
    }
    sse + lambda * nz_count
}


/// The transform pair with the smallest cost, trying DCT/DCT first and then
/// the rest of the intra set in its order; a later pair must cost strictly
/// less to be taken.
pub open spec fn best_txtype_from(src: Seq<u8>, pred: Seq<u8>, dc_dq: u32, ac_dq: u32, k: int) -> (TxType, int)
    decreases k,
{
    if k <= 0 {
        (TxType::DctDct, rd_cost_spec(src, pred, dc_dq, ac_dq, TxType::DctDct))
    } else {
        let prev = best_txtype_from(src, pred, dc_dq, ac_dq, k - 1);
        let tx = TXTP_INTRA2_MAP[k - 1];
        let c = rd_cost_spec(src, pred, dc_dq, ac_dq, tx);
        if tx != TxType::DctDct && c < prev.1 {
            (tx, c)
        } else {
            prev
        }
    }
}

/// Chooses the transform pair of least rate-distortion cost for a block
/// and its prediction.
pub fn select_best_txtype(source: &[u8], prediction: &[u8], dc_dq: u32, ac_dq: u32) -> (r: TxType)
    requires
        source@.len() >= 64,
        prediction@.len() >= 64,
        1 <= dc_dq <= 0x10000,
        1 <= ac_dq <= 0x10000,
    ensures
        r == best_txtype_from(source@, prediction@, dc_dq, ac_dq, 5).0,
{
    let mut best_type = TxType::DctDct;
    let mut best_cost = compute_rd_cost(source, prediction, dc_dq, ac_dq, TxType::DctDct);
    let mut k: usize = 0;
    while k < 5
        invariant
            k <= 5,
            source@.len() >= 64,
            prediction@.len() >= 64,
            1 <= dc_dq <= 0x10000,
            1 <= ac_dq <= 0x10000,
            best_txtype_from(source@, prediction@, dc_dq, ac_dq, k as int) == (best_type, best_cost as int),
        decreases 5 - k,
    {
        let tx = TXTP_INTRA2_MAP[k];
        if tx != TxType::DctDct {
            let cost = compute_rd_cost(source, prediction, dc_dq, ac_dq, tx);
            if cost < best_cost {
                best_cost = cost;
                best_type = tx;
            }
        }
        k += 1;
    }
    best_type
}

/// The intra candidates in the order they are tried, with whether each is
/// tried: DC; vertical with the row above; horizontal with the left column;
/// with both, the three smooth modes, Paeth, then each directional mode 1
/// to 8 at each angle step -3 to 3 (but the plain vertical and horizontal).
pub open spec fn intra_candidates(have_above: bool, have_left: bool) -> Seq<(u8, i8, bool)> {
    let both = have_above && have_left;
    seq![(0u8, 0i8, true), (1u8, 0i8, have_above), (2u8, 0i8, have_left), (9u8, 0i8, both), (10u8, 0i8, both), (
        11u8,
        0i8,
        both,
    ), (12u8, 0i8, both)] + Seq::new(
        56,
        |j: int| ((j / 7 + 1) as u8, (j % 7 - 3) as i8, both && !(j % 7 == 3 && j / 7 < 2)),
    )
}

/// The best of the first `k` candidates under `cost`: the first one tried
/// with the smallest cost.
pub open spec fn best_candidate(cost: spec_fn(u8, i8) -> int, cands: Seq<(u8, i8, bool)>, k: int) -> (u8, i8, int)
    decreases k,
{
    if k <= 1 {
        (cands[0].0, cands[0].1, cost(cands[0].0, cands[0].1))
    } else {
        let prev = best_candidate(cost, cands, k - 1);
        let x = cands[k - 1];
        if x.2 && cost(x.0, x.1) < prev.2 {
            (x.0, x.1, cost(x.0, x.1))
        } else {
            prev
        }
    }
}

/// The cost of predicting `source` in intra mode `mode` at angle step
/// `delta`, coded with DCT/DCT.
#[verifier::opaque]
pub open spec fn intra_mode_cost(
    source: Seq<u8>,
    above: Seq<u8>,
    left: Seq<u8>,
    top_left: u8,
    have_above: bool,
    have_left: bool,
    w: int,
    h: int,
    dc_dq: u32,
    ac_dq: u32,
    mode: u8,
    delta: i8,
) -> int {
    rd_cost_spec(
        source,
        prediction_spec(mode, delta, above, left, top_left, have_above, have_left, w, h),
        dc_dq,
        ac_dq,
        TxType::DctDct,
    )
}


proof fn lemma_untried_tail(cost: spec_fn(u8, i8) -> int, cands: Seq<(u8, i8, bool)>, m: int, k: int)
    requires
        1 <= m <= k <= cands.len(),
        forall|j: int| m <= j < cands.len() ==> !(#[trigger] cands[j]).2,
    ensures
        best_candidate(cost, cands, k) == best_candidate(cost, cands, m),
    decreases k,
{
    if k > m {
        lemma_untried_tail(cost, cands, m, k - 1);
    }
}

proof fn lemma_directional_angles(mode: u8, delta: i8)
    requires
        1 <= mode <= 8,
        -3 <= delta <= 3,
        !(delta == 0 && mode <= 2),
    ensures
        ({
            let a = mode_angle(mode, delta);
            ||| 0 <= a <= 87
            ||| 93 <= a <= 177
            ||| 183 <= a <= 270
        }),
{
    assert(MODE_TO_ANGLE@ == seq![90i32, 180, 45, 135, 113, 157, 203, 67]);
}

/// The best of the first `k` intra candidates for `source`.
pub open spec fn intra_best(
    source: Seq<u8>,
    above: Seq<u8>,
    left: Seq<u8>,
    top_left: u8,
    have_above: bool,
    have_left: bool,
    w: int,
    h: int,
    dc_dq: u32,
    ac_dq: u32,
    k: int,
) -> (u8, i8, int) {
    best_candidate(
        |m: u8, d: i8| intra_mode_cost(source, above, left, top_left, have_above, have_left, w, h, dc_dq, ac_dq, m, d),
        intra_candidates(have_above, have_left),
        k,
    )
}

proof fn lemma_mode_cost(
    source: Seq<u8>,
    above: Seq<u8>,
    left: Seq<u8>,
    top_left: u8,
    have_above: bool,
    have_left: bool,
    w: int,
    h: int,
    dc_dq: u32,
    ac_dq: u32,
    mode: u8,
    delta: i8,
    pred: Seq<u8>,
)
    requires
        pred == prediction_spec(mode, delta, above, left, top_left, have_above, have_left, w, h),
    ensures
        intra_mode_cost(source, above, left, top_left, have_above, have_left, w, h, dc_dq, ac_dq, mode, delta)
            == rd_cost_spec(source, pred, dc_dq, ac_dq, TxType::DctDct),
{
    reveal(intra_mode_cost);
}

/// Takes `(mode, delta)` as the best so far when the prediction `pred`
/// costs strictly less than the best so far.
fn consider(
    source: &[u8],
    pred: &Vec<u8>,
    dc_dq: u32,
    ac_dq: u32,
    mode: u8,
    delta: i8,
    best: &mut (u8, i8, u64),
)
    requires
        source@.len() >= 64,
        pred@.len() >= 64,
        1 <= dc_dq <= 0x10000,
        1 <= ac_dq <= 0x10000,
    ensures
        rd_cost_spec(source@, pred@, dc_dq, ac_dq, TxType::DctDct) < old(best).2 ==> *final(best) == (
            mode,
            delta,
            rd_cost_spec(source@, pred@, dc_dq, ac_dq, TxType::DctDct) as u64,
        ),
        !(rd_cost_spec(source@, pred@, dc_dq, ac_dq, TxType::DctDct) < old(best).2) ==> *final(best) == *old(best),
        rd_cost_spec(source@, pred@, dc_dq, ac_dq, TxType::DctDct) < old(best).2 ==> final(best).2 as int
            == rd_cost_spec(source@, pred@, dc_dq, ac_dq, TxType::DctDct),
{
    let c = compute_rd_cost(source, pred.as_slice(), dc_dq, ac_dq, TxType::DctDct);
    if c < best.2 {
        *best = (mode, delta, c);
    }
}

/// Tries the directional candidates after the first seven.
#[verifier::spinoff_prover]
#[verifier::rlimit(60)]
fn scan_directional(
    source: &[u8],
    above: &[u8],
    left: &[u8],
    top_left: u8,
    w: usize,
    h: usize,
    dc_dq: u32,
    ac_dq: u32,
    best: &mut (u8, i8, u64),
)
    requires
        source@.len() >= 64,
        1 <= w <= 64,
        1 <= h <= 64,
        w * h >= 64,
        above@.len() >= w,
        left@.len() >= h,
        1 <= dc_dq <= 0x10000,
        1 <= ac_dq <= 0x10000,
        intra_best(source@, above@, left@, top_left, true, true, w as int, h as int, dc_dq, ac_dq, 7) == (
            old(best).0,
            old(best).1,
            old(best).2 as int,
        ),
    ensures
        intra_best(source@, above@, left@, top_left, true, true, w as int, h as int, dc_dq, ac_dq, 63) == (
            final(best).0,
            final(best).1,
            final(best).2 as int,
        ),
{
    let ghost cands = intra_candidates(true, true);
    let mut j: usize = 0;
    while j < 56
        invariant
            j <= 56,
            source@.len() >= 64,
            1 <= w <= 64,
            1 <= h <= 64,
            w * h >= 64,
            above@.len() >= w,
            left@.len() >= h,
            1 <= dc_dq <= 0x10000,
            1 <= ac_dq <= 0x10000,
            cands == intra_candidates(true, true),
            intra_best(source@, above@, left@, top_left, true, true, w as int, h as int, dc_dq, ac_dq, 7 + j) == (
                best.0,
                best.1,
                best.2 as int,
            ),
        decreases 56 - j,
    {
        let mode = (j / 7 + 1) as u8;
        let delta = (j % 7) as i8 - 3;
        assert(cands[7 + j as int] == (mode, delta, !(delta == 0 && mode <= 2)));
        if !(delta == 0 && (mode == 1 || mode == 2)) {
            proof {
                lemma_directional_angles(mode, delta);
            }
            let pred = generate_prediction(mode, delta, above, left, top_left, true, true, w, h);
            proof {
                lemma_mode_cost(source@, above@, left@, top_left, true, true, w as int, h as int, dc_dq, ac_dq, mode, delta, pred@);
            }
            assert(w * h <= 4096) by (nonlinear_arith)
                requires
                    w <= 64,
                    h <= 64,
            ;
            consider(source, &pred, dc_dq, ac_dq, mode, delta, best);
        }
        j += 1;
    }
}

/// Chooses the intra mode, and for a directional mode its angle step, of
/// least rate-distortion cost (with DCT/DCT) for an 8x8 block: among the
/// candidates of [`intra_candidates`], the first with the smallest cost.
#[verifier::spinoff_prover]
#[verifier::rlimit(60)]
pub fn select_best_intra_mode(
    source: &[u8],
    above: &[u8],
    left: &[u8],
    top_left: u8,
    have_above: bool,
    have_left: bool,
    w: usize,
    h: usize,
    dc_dq: u32,
    ac_dq: u32,
) -> (r: (u8, i8))
    requires
        source@.len() >= 64,
        1 <= w <= 64,
        1 <= h <= 64,
        w * h >= 64,
        have_above ==> above@.len() >= w,
        have_left ==> left@.len() >= h,
        1 <= dc_dq <= 0x10000,
        1 <= ac_dq <= 0x10000,
    ensures
        ({
            let b = intra_best(source@, above@, left@, top_left, have_above, have_left, w as int, h as int, dc_dq, ac_dq, 63);
            r.0 == b.0 && r.1 == b.1
        }),
{
    let ghost cands = intra_candidates(have_above, have_left);
    let ghost best_at = |k: int|
        intra_best(source@, above@, left@, top_left, have_above, have_left, w as int, h as int, dc_dq, ac_dq, k);
    assert(w * h <= 4096) by (nonlinear_arith)
        requires
            w <= 64,
            h <= 64,
    ;
    assert(MODE_TO_ANGLE@ == seq![90i32, 180, 45, 135, 113, 157, 203, 67]);
    let dc = predict_dc(above, left, have_above, have_left, w, h);
    proof {
        reveal(prediction_spec);
        lemma_mode_cost(source@, above@, left@, top_left, have_above, have_left, w as int, h as int, dc_dq, ac_dq, 0, 0, dc@);
    }
    let c0 = compute_rd_cost(source, dc.as_slice(), dc_dq, ac_dq, TxType::DctDct);
    let mut best: (u8, i8, u64) = (0, 0, c0);
    assert(best_at(1) == (best.0, best.1, best.2 as int));
    if have_above {
        let v = predict_v(above, w, h);
        assert(v@ == prediction_spec(1, 0, above@, left@, top_left, have_above, have_left, w as int, h as int)) by {
            reveal(prediction_spec);
        }
        proof {
            lemma_mode_cost(source@, above@, left@, top_left, have_above, have_left, w as int, h as int, dc_dq, ac_dq, 1, 0, v@);
        }
        consider(source, &v, dc_dq, ac_dq, 1, 0, &mut best);
    }
    assert(best_at(2) == (best.0, best.1, best.2 as int));
    if have_left {
        let hp = predict_h(left, w, h);
        assert(hp@ == prediction_spec(2, 0, above@, left@, top_left, have_above, have_left, w as int, h as int)) by {
            reveal(prediction_spec);
        }
        proof {
            lemma_mode_cost(source@, above@, left@, top_left, have_above, have_left, w as int, h as int, dc_dq, ac_dq, 2, 0, hp@);
        }
        consider(source, &hp, dc_dq, ac_dq, 2, 0, &mut best);
    }
    assert(best_at(3) == (best.0, best.1, best.2 as int));
    if have_above && have_left {
        let smooth = predict_smooth(above, left, w, h);
        proof {
            reveal(prediction_spec);
            lemma_mode_cost(source@, above@, left@, top_left, have_above, have_left, w as int, h as int, dc_dq, ac_dq, 9, 0, smooth@);
        }
        consider(source, &smooth, dc_dq, ac_dq, 9, 0, &mut best);
        assert(best_at(4) == (best.0, best.1, best.2 as int));
        let sv = predict_smooth_v(above, left, w, h);
        proof {
            reveal(prediction_spec);
            lemma_mode_cost(source@, above@, left@, top_left, have_above, have_left, w as int, h as int, dc_dq, ac_dq, 10, 0, sv@);
        }
        consider(source, &sv, dc_dq, ac_dq, 10, 0, &mut best);
        assert(best_at(5) == (best.0, best.1, best.2 as int));
        let sh = predict_smooth_h(above, left, w, h);
        proof {
            reveal(prediction_spec);
            lemma_mode_cost(source@, above@, left@, top_left, have_above, have_left, w as int, h as int, dc_dq, ac_dq, 11, 0, sh@);
        }
        consider(source, &sh, dc_dq, ac_dq, 11, 0, &mut best);
        assert(best_at(6) == (best.0, best.1, best.2 as int));
        let paeth = predict_paeth(above, left, top_left, w, h);
        proof {
            reveal(prediction_spec);
            lemma_mode_cost(source@, above@, left@, top_left, have_above, have_left, w as int, h as int, dc_dq, ac_dq, 12, 0, paeth@);
        }
        consider(source, &paeth, dc_dq, ac_dq, 12, 0, &mut best);
        assert(best_at(7) == (best.0, best.1, best.2 as int));
        scan_directional(source, above, left, top_left, w, h, dc_dq, ac_dq, &mut best);
    } else {
        proof {
            lemma_untried_tail(
                |m: u8, d: i8| intra_mode_cost(source@, above@, left@, top_left, have_above, have_left, w as int, h as int, dc_dq, ac_dq, m, d),
                cands,
                3,
                63,
            );
        }
    }
    (best.0, best.1)
}

/// The best of the first `k` candidates is the first candidate or one that is tried.
proof fn lemma_best_candidate_member(cost: spec_fn(u8, i8) -> int, cands: Seq<(u8, i8, bool)>, k: int) -> (j: int)
    requires
        1 <= k <= cands.len(),
    ensures
        0 <= j < k,
        j == 0 || cands[j].2,
        best_candidate(cost, cands, k).0 == cands[j].0,
        best_candidate(cost, cands, k).1 == cands[j].1,
    decreases k,
{
    if k <= 1 {
        0
    } else {
        let x = cands[k - 1];
        let prev = best_candidate(cost, cands, k - 1);
        if x.2 && cost(x.0, x.1) < prev.2 {
            k - 1
        } else {
            lemma_best_candidate_member(cost, cands, k - 1)
        }
    }
}

/// The intra mode chosen for an 8x8 block with sixteen-sample edges is one
/// whose prediction those edges support.
pub proof fn lemma_intra_best_predictable(
    source: Seq<u8>,
    above: Seq<u8>,
    left: Seq<u8>,
    top_left: u8,
    have_above: bool,
    have_left: bool,
    dc_dq: u32,
    ac_dq: u32,
)
    requires
        above.len() >= 16,
        left.len() >= 16,
    ensures
        ({
            let b = intra_best(source, above, left, top_left, have_above, have_left, 8, 8, dc_dq, ac_dq, 63);
            &&& prediction_ok(b.0, b.1, above, left, have_above, have_left, 8, 8)
            &&& b.0 <= 12
            &&& -3 <= b.1 <= 3
        }),
{
    let cands = intra_candidates(have_above, have_left);
    let cost = |m: u8, d: i8| intra_mode_cost(source, above, left, top_left, have_above, have_left, 8, 8, dc_dq, ac_dq, m, d);
    assert(cands.len() == 63);
    let j = lemma_best_candidate_member(cost, cands, 63);
    let (m, d, en) = cands[j];
    assert(MODE_TO_ANGLE@ == seq![90i32, 180, 45, 135, 113, 157, 203, 67]);
    if j >= 7 {
        let jj = j - 7;
        assert(cands[j] == ((jj / 7 + 1) as u8, (jj % 7 - 3) as i8, have_above && have_left && !(jj % 7 == 3 && jj / 7 < 2)));
        assert(1 <= m <= 8);
        assert(-3 <= d <= 3);
        lemma_directional_angles(m, d);
    }
}

} // verus!
