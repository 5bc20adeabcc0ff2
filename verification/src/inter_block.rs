use vstd::prelude::*;

use crate::cdef::log2_floor;
use crate::coef::{
    slot_symbols, mv_slot_symbols,
    CoefOp, cdfs_valid, run_ops, state_of, code_bool, code_symbol, lemma_run_push, lemma_run_ops_append,
    MV_JOINT_SLOT, MV_COMP_BASE, CDF_COUNT, SKIP_BASE, IS_INTER_BASE, SINGLE_REF_BASE, NEWMV_BASE, ZEROMV_BASE,
    DRL_BASE, txb_result, lemma_scan_4x4_ok, lemma_scan_8x8_ok,
};
use crate::inter::cdf_view;
use crate::motion::{
    decompose_mv_diff, mv_diff_parts, motion_search_block, search_valid, search_prefers, search_dx, search_dy,
    subpel_refine, subpel_sad, refine_after, refine_offset, edge_pixel, MvCandidate, BlockMv, predict_mv_spec,
    gather_candidates, with_candidate, boosted, sorted_by_weight, mv_neighbours, first_match,
    lemma_first_match_range, lemma_sorted_by_weight,
};
use crate::msac::MsacEncoder;
use crate::inter::{mvs_bounded, InterTileEncoder};
use crate::intra::{block_at, diff, quant_seq, quantize_bounded, all_zero, is_all_zero, intra_coef_ops, code_intra_coefs, lemma_all_zero_no_eob};
use crate::scan::{DEFAULT_SCAN_4X4, DEFAULT_SCAN_8X8};
use crate::motion::{extract_block, interpolate_block, interp_pixel, predict_mv};
use crate::tile::{above_inter, left_inter, TileContext, in_sb, is_inter_ctx_spec, newmv_ctx_spec, coef_ctx_value, filled, copied, run_len, span4, half_span_spec, PARTITION_CTX_NONE};
use crate::inter::{block_edges, edge_row, edge_col};
use crate::intra::{coef_ctx_of, paste_rect, recon_vals, pred_ints, luma_residual, deq_seq, reconstruct_luma, reconstruct_chroma_block, lemma_txb_result_small};
use crate::inter::{mv_filled_with, fill_mvs, block_px};
use crate::dct::inverse_transform_4x4_spec;
use crate::inter::{skip_flags_ok, skip_block_ops};
use crate::motion::drl_context;
use crate::dct::{TxType, ints, bounded, forward_dct_8x8, forward_dct_4x4, forward_transform_8x8_spec, forward_transform_4x4_spec, lemma_forward_8x8_bound};
use crate::y4m::half_up;

verus! {

/// `log2_floor` does not fall as its argument grows.
proof fn lemma_log2_mono(n: int, m: int)
    requires
        n <= m,
    ensures
        log2_floor(n) <= log2_floor(m),
    decreases m,
{
    if n > 1 {
        lemma_log2_mono(n / 2, m / 2);
    } else {
        lemma_log2_nonneg(m);
    }
}

proof fn lemma_log2_nonneg(n: int)
    ensures
        log2_floor(n) >= 0,
    decreases n,
{
    if n > 1 {
        lemma_log2_nonneg(n / 2);
    }
}

/// The parts of a difference magnitude of at most 16384: a class of at most
/// ten, and an integer part below 2 in class 0.
proof fn lemma_mv_parts_small(a: u32)
    requires
        1 <= a <= 16384,
    ensures
        mv_diff_parts(a).0 <= 10,
        mv_diff_parts(a).0 == 0 ==> mv_diff_parts(a).1 < 2,
        mv_diff_parts(a).0 > 0 ==> mv_diff_parts(a).1 >= 2,
        mv_diff_parts(a).2 <= 3,
{
    let up = (a - 1) / 8;
    if up >= 2 {
        lemma_log2_mono(up as int, 2047);
        assert(log2_floor(2047) == 10) by {
            reveal_with_fuel(log2_floor, 12);
        }
        lemma_log2_mono(2, up as int);
        assert(log2_floor(2) == 1) by {
            reveal_with_fuel(log2_floor, 3);
        }
    }
}

/// The magnitude of `v`.
pub open spec fn abs_of(v: i32) -> int {
    if v < 0 { -(v as int) } else { v as int }
}

/// The syntax of one non-zero motion-vector difference component (`comp` 0
/// vertical, 1 horizontal): the sign, the class, then for class 0 the
/// integer bit and its fraction, else the class's integer bits low first and
/// the fraction.
pub open spec fn mv_comp_ops(comp: int, value: i32) -> Seq<CoefOp> {
    let p = mv_diff_parts(abs_of(value) as u32);
    mv_parts_ops(comp, value < 0, p.0, p.1, p.2)
}

/// The syntax of a component with sign `neg`, class `cl`, integer part `up`
/// and fraction `fp`.
pub open spec fn mv_parts_ops(comp: int, neg: bool, cl: u32, up: u32, fp: u32) -> Seq<CoefOp> {
    let base = MV_COMP_BASE + 16 * comp;
    seq![CoefOp::Bool(base as usize, neg), CoefOp::Symbol((base + 1) as usize, cl, 10)] + if cl == 0 {
        seq![CoefOp::Bool((base + 2) as usize, up != 0), CoefOp::Symbol((base + 3 + up) as usize, fp, 3)]
    } else {
        mv_bit_ops(base, up, cl as int) + seq![CoefOp::Symbol((base + 15) as usize, fp, 3)]
    }
}

/// The joint of a motion-vector difference: which components are non-zero.
pub open spec fn mv_joint(dy: i32, dx: i32) -> u32 {
    if dy != 0 && dx != 0 { 3 } else if dy != 0 { 2 } else if dx != 0 { 1 } else { 0 }
}

/// The syntax of a motion-vector difference: the joint, then each non-zero
/// component, vertical first.
pub open spec fn mv_residual_ops(dy: i32, dx: i32) -> Seq<CoefOp> {
    seq![CoefOp::Symbol(MV_JOINT_SLOT, mv_joint(dy, dx), 3)] + (if dy != 0 { mv_comp_ops(0, dy) } else {
        Seq::empty()
    }) + (if dx != 0 { mv_comp_ops(1, dx) } else { Seq::empty() })
}

/// The motion-vector component CDFs: each offset of each component has the
/// symbol count of its kind, and lies in the context.
proof fn lemma_mv_slots(comp: int, o: int)
    requires
        0 <= comp <= 1,
        0 <= o < 16,
    ensures
        slot_symbols(MV_COMP_BASE + 16 * comp + o) == mv_slot_symbols(o),
        MV_COMP_BASE + 16 * comp + o < CDF_COUNT,
{
    assert((16 * comp + o) % 16 == o);
}

/// The integer bits of a motion-vector class, low first.
pub open spec fn mv_bit_ops(base: int, up: u32, n: int) -> Seq<CoefOp> {
    Seq::new(n as nat, |k: int| CoefOp::Bool((base + 5 + k) as usize, (up >> (k as u32)) & 1 != 0))
}

/// Codes the `cl` integer bits of `up` with the CDFs from `base + 5`.
#[verifier::spinoff_prover]
fn code_mv_bits(enc: &mut MsacEncoder, cdfs: &mut Vec<Vec<u16>>, comp: usize, up: u32, cl: u32)
    requires
        old(enc).wf(),
        cdfs_valid(cdf_view(old(cdfs)@)),
        comp <= 1,
        cl <= 10,
    ensures
        final(enc).wf(),
        final(enc).updates_cdf() == old(enc).updates_cdf(),
        cdfs_valid(cdf_view(final(cdfs)@)),
        state_of(*final(enc), final(cdfs)@) == run_ops(
            state_of(*old(enc), old(cdfs)@),
            mv_bit_ops(MV_COMP_BASE + 16 * comp, up, cl as int),
            old(enc).updates_cdf(),
        ),
{
    let ghost st0 = state_of(*enc, cdfs@);
    let ghost upd = enc.updates_cdf();
    let base = MV_COMP_BASE + 16 * comp;
    let mut n: u32 = 0;
    assert(mv_bit_ops(base as int, up, 0) =~= Seq::<CoefOp>::empty());
    while n < cl
        invariant
            n <= cl,
            cl <= 10,
            comp <= 1,
            base == MV_COMP_BASE + 16 * comp,
            enc.wf(),
            enc.updates_cdf() == upd,
            cdfs_valid(cdf_view(cdfs@)),
            state_of(*enc, cdfs@) == run_ops(st0, mv_bit_ops(base as int, up, n as int), upd),
        decreases cl - n,
    {
        proof {
            lemma_mv_slots(comp as int, 5 + n);
        }
        let bit = (up >> n) & 1;
        code_bool(enc, cdfs, base + 5 + n as usize, bit != 0);
        proof {
            let o = CoefOp::Bool((base + 5 + n) as usize, (up >> n) & 1 != 0);
            lemma_run_push(st0, mv_bit_ops(base as int, up, n as int), o, upd);
            assert(mv_bit_ops(base as int, up, n as int).push(o) =~= mv_bit_ops(base as int, up, n + 1));
        }
        n += 1;
    }
}

/// Codes the sign and class of a motion-vector difference component.
#[verifier::spinoff_prover]
fn code_mv_head(enc: &mut MsacEncoder, cdfs: &mut Vec<Vec<u16>>, comp: usize, neg: bool, cl: u32)
    requires
        old(enc).wf(),
        cdfs_valid(cdf_view(old(cdfs)@)),
        comp <= 1,
        cl <= 10,
    ensures
        final(enc).wf(),
        final(enc).updates_cdf() == old(enc).updates_cdf(),
        cdfs_valid(cdf_view(final(cdfs)@)),
        state_of(*final(enc), final(cdfs)@) == run_ops(
            state_of(*old(enc), old(cdfs)@),
            seq![CoefOp::Bool((MV_COMP_BASE + 16 * comp) as usize, neg), CoefOp::Symbol((MV_COMP_BASE + 16 * comp + 1) as usize, cl, 10)],
            old(enc).updates_cdf(),
        ),
{
    let ghost st0 = state_of(*enc, cdfs@);
    let ghost upd = enc.updates_cdf();
    proof {
        lemma_mv_slots(comp as int, 0);
        lemma_mv_slots(comp as int, 1);
    }
    let base = MV_COMP_BASE + 16 * comp;
    code_bool(enc, cdfs, base, neg);
    code_symbol(enc, cdfs, base + 1, cl, 10);
    proof {
        let o1 = CoefOp::Bool(base, neg);
        let o2 = CoefOp::Symbol((base + 1) as usize, cl, 10);
        lemma_run_push(st0, Seq::empty(), o1, upd);
        lemma_run_push(st0, Seq::empty().push(o1), o2, upd);
        assert(Seq::empty().push(o1).push(o2) =~= seq![o1, o2]);
    }
}

/// Codes the class-0 integer bit and fraction of a component.
#[verifier::spinoff_prover]
fn code_mv_class0(enc: &mut MsacEncoder, cdfs: &mut Vec<Vec<u16>>, comp: usize, up: u32, fp: u32)
    requires
        old(enc).wf(),
        cdfs_valid(cdf_view(old(cdfs)@)),
        comp <= 1,
        up < 2,
        fp <= 3,
    ensures
        final(enc).wf(),
        final(enc).updates_cdf() == old(enc).updates_cdf(),
        cdfs_valid(cdf_view(final(cdfs)@)),
        state_of(*final(enc), final(cdfs)@) == run_ops(
            state_of(*old(enc), old(cdfs)@),
            seq![CoefOp::Bool((MV_COMP_BASE + 16 * comp + 2) as usize, up != 0), CoefOp::Symbol((MV_COMP_BASE + 16 * comp + 3 + up) as usize, fp, 3)],
            old(enc).updates_cdf(),
        ),
{
    let ghost st0 = state_of(*enc, cdfs@);
    let ghost upd = enc.updates_cdf();
    proof {
        lemma_mv_slots(comp as int, 2);
        lemma_mv_slots(comp as int, 3 + up);
    }
    let base = MV_COMP_BASE + 16 * comp;
    code_bool(enc, cdfs, base + 2, up != 0);
    code_symbol(enc, cdfs, base + 3 + up as usize, fp, 3);
    proof {
        let o1 = CoefOp::Bool((base + 2) as usize, up != 0);
        let o2 = CoefOp::Symbol((base + 3 + up) as usize, fp, 3);
        lemma_run_push(st0, Seq::empty(), o1, upd);
        lemma_run_push(st0, Seq::empty().push(o1), o2, upd);
        assert(Seq::empty().push(o1).push(o2) =~= seq![o1, o2]);
    }
}

/// The class, integer part and fraction of a non-zero component.
#[verifier::spinoff_prover]
fn mv_parts_of(value: i32) -> (r: (u32, u32, u32))
    requires
        value != 0,
        -16384 <= value <= 16384,
    ensures
        r == mv_diff_parts(abs_of(value) as u32),
        r.0 <= 10,
        r.0 == 0 ==> r.1 < 2,
        r.2 <= 3,
{
    let a: u32 = if value < 0 { (0i64 - value as i64) as u32 } else { value as u32 };
    assert(a as int == abs_of(value));
    proof {
        lemma_mv_parts_small(a);
    }
    decompose_mv_diff(a)
}

/// Codes one non-zero motion-vector difference component.
#[verifier::spinoff_prover]
#[verifier::rlimit(40)]
fn encode_mv_component(enc: &mut MsacEncoder, cdfs: &mut Vec<Vec<u16>>, comp: usize, value: i32)
    requires
        old(enc).wf(),
        cdfs_valid(cdf_view(old(cdfs)@)),
        comp <= 1,
        value != 0,
        -16384 <= value <= 16384,
    ensures
        final(enc).wf(),
        final(enc).updates_cdf() == old(enc).updates_cdf(),
        cdfs_valid(cdf_view(final(cdfs)@)),
        state_of(*final(enc), final(cdfs)@) == run_ops(
            state_of(*old(enc), old(cdfs)@),
            mv_comp_ops(comp as int, value),
            old(enc).updates_cdf(),
        ),
{
    let ghost st0 = state_of(*enc, cdfs@);
    let ghost upd = enc.updates_cdf();
    let (cl, up, fp) = mv_parts_of(value);
    let ghost base = MV_COMP_BASE + 16 * comp;
    let ghost head = seq![CoefOp::Bool(base as usize, value < 0), CoefOp::Symbol((base + 1) as usize, cl, 10)];
    code_mv_head(enc, cdfs, comp, value < 0, cl);
    let ghost s1 = state_of(*enc, cdfs@);
    if cl == 0 {
        code_mv_class0(enc, cdfs, comp, up, fp);
        proof {
            let tail = seq![CoefOp::Bool((base + 2) as usize, up != 0), CoefOp::Symbol((base + 3 + up) as usize, fp, 3)];
            lemma_run_ops_append(st0, head, tail, upd);
        }
    } else {
        code_mv_bits(enc, cdfs, comp, up, cl);
        proof {
            lemma_mv_slots(comp as int, 15);
        }
        code_symbol(enc, cdfs, MV_COMP_BASE + 16 * comp + 15, fp, 3);
        proof {
            let bits = mv_bit_ops(base, up, cl as int);
            let o = CoefOp::Symbol((base + 15) as usize, fp, 3);
            lemma_run_ops_append(st0, head, bits, upd);
            lemma_run_push(st0, head + bits, o, upd);
            assert((head + bits).push(o) =~= head + (bits + seq![o]));
        }
    }
}

/// Codes a motion-vector difference: its joint, then each non-zero
/// component, vertical first.
#[verifier::spinoff_prover]
fn encode_mv_residual(enc: &mut MsacEncoder, cdfs: &mut Vec<Vec<u16>>, dy: i32, dx: i32)
    requires
        old(enc).wf(),
        cdfs_valid(cdf_view(old(cdfs)@)),
        -16384 <= dy <= 16384,
        -16384 <= dx <= 16384,
    ensures
        final(enc).wf(),
        final(enc).updates_cdf() == old(enc).updates_cdf(),
        cdfs_valid(cdf_view(final(cdfs)@)),
        state_of(*final(enc), final(cdfs)@) == run_ops(state_of(*old(enc), old(cdfs)@), mv_residual_ops(dy, dx), old(enc).updates_cdf()),
{
    let ghost st0 = state_of(*enc, cdfs@);
    let ghost upd = enc.updates_cdf();
    let joint: u32 = if dy != 0 && dx != 0 { 3 } else if dy != 0 { 2 } else if dx != 0 { 1 } else { 0 };
    code_symbol(enc, cdfs, MV_JOINT_SLOT, joint, 3);
    let ghost j = seq![CoefOp::Symbol(MV_JOINT_SLOT, joint, 3)];
    proof {
        lemma_run_push(st0, Seq::empty(), CoefOp::Symbol(MV_JOINT_SLOT, joint, 3), upd);
        assert(Seq::empty().push(CoefOp::Symbol(MV_JOINT_SLOT, joint, 3)) =~= j);
    }
    let ghost yops = if dy != 0 { mv_comp_ops(0, dy) } else { Seq::empty() };
    let ghost xops = if dx != 0 { mv_comp_ops(1, dx) } else { Seq::empty() };
    if dy != 0 {
        encode_mv_component(enc, cdfs, 0, dy);
    }
    proof {
        lemma_run_ops_append(st0, j, yops, upd);
        if dy == 0 {
            assert(j + yops =~= j);
        }
    }
    if dx != 0 {
        encode_mv_component(enc, cdfs, 1, dx);
    }
    proof {
        lemma_run_ops_append(st0, j + yops, xops, upd);
        if dx == 0 {
            assert(j + yops + xops =~= j + yops);
        }
    }
}

/// Candidate `k` of the full-pixel search is valid and preferred to every
/// other valid one.
pub open spec fn search_winner(src: Seq<u8>, rf: Seq<u8>, w: int, h: int, px: int, py: int, bs: int, k: int) -> bool {
    &&& 0 <= k < 1089
    &&& search_valid(w, h, px, py, bs, k)
    &&& forall|j: int| 0 <= j < 1089 && j != k && search_valid(w, h, px, py, bs, j) ==> #[trigger] search_prefers(src, rf, w, px, py, bs, k, j)
}

/// The full-pixel motion vector the search finds for the `bs` x `bs` block at
/// `(px, py)`: the best candidate within 16 pixels, or none when the block
/// does not lie inside the picture.
pub open spec fn search_best(src: Seq<u8>, rf: Seq<u8>, w: int, h: int, px: int, py: int, bs: int) -> (int, int) {
    if px + bs <= w && py + bs <= h {
        let k = choose|k: int| search_winner(src, rf, w, h, px, py, bs, k);
        (search_dx(k), search_dy(k))
    } else {
        (0, 0)
    }
}

/// At most one candidate wins the search.
proof fn lemma_search_winner_unique(src: Seq<u8>, rf: Seq<u8>, w: int, h: int, px: int, py: int, bs: int, a: int, b: int)
    requires
        search_winner(src, rf, w, h, px, py, bs, a),
        search_winner(src, rf, w, h, px, py, bs, b),
    ensures
        a == b,
{
    if a != b {
        assert(search_prefers(src, rf, w, px, py, bs, a, b));
        assert(search_prefers(src, rf, w, px, py, bs, b, a));
    }
}

/// Searches the full-pixel motion vector of the `bs` x `bs` block at `(px, py)`.
fn full_pel_search(src: &Vec<u8>, rf: &Vec<u8>, w: u32, h: u32, px: u32, py: u32, bs: u32) -> (r: (i32, i32))
    requires
        1 <= w <= 0xffff,
        1 <= h <= 0xffff,
        src@.len() == w * h,
        rf@.len() == w * h,
        px < 0x10000,
        py < 0x10000,
        bs == 8,
    ensures
        (r.0 as int, r.1 as int) == search_best(src@, rf@, w as int, h as int, px as int, py as int, bs as int),
        -16 <= r.0 <= 16,
        -16 <= r.1 <= 16,
{
    proof {
        assert(w * h <= 0xffff * 0xffff) by (nonlinear_arith)
            requires
                w <= 0xffff,
                h <= 0xffff,
        ;
    }
    let r = motion_search_block(src.as_slice(), rf.as_slice(), w, h, px, py, bs);
    proof {
        if px + bs <= w && py + bs <= h {
            let k = (r.1 + 16) * 33 + (r.0 + 16);
            assert(search_winner(src@, rf@, w as int, h as int, px as int, py as int, bs as int, k));
            let c = choose|k: int| search_winner(src@, rf@, w as int, h as int, px as int, py as int, bs as int, k);
            lemma_search_winner_unique(src@, rf@, w as int, h as int, px as int, py as int, bs as int, k, c);
            assert(search_dx(k) == r.0 && search_dy(k) == r.1);
        }
    }
    r
}

/// The vector the sub-pixel refinement reaches from `(mx, my)` (in eighth
/// pels) for the `bs` x `bs` block at `(px, py)`: sixteen steps, each to a
/// neighbour with a smaller SAD, or the same SAD and a shorter vector.
pub open spec fn refine_spec(src: Seq<u8>, rf: Seq<u8>, w: int, h: int, px: int, py: int, bs: int, mx: int, my: int) -> (int, int) {
    let src_block = Seq::new((bs * bs) as nat, |i: int| edge_pixel(src, w, px + i % bs, py + i / bs, w, h));
    let eval = |x: int, y: int| subpel_sad(src_block, rf, w, h, px, py, bs, x, y);
    let fin = refine_after(eval, mx, my, 16);
    (fin.0, fin.1)
}

/// Each refinement step moves at most four eighth pels along each axis.
proof fn lemma_refine_range(eval: spec_fn(int, int) -> int, mx: int, my: int, k: int)
    requires
        0 <= k <= 16,
    ensures
        mx - 4 * k <= refine_after(eval, mx, my, k).0 <= mx + 4 * k,
        my - 4 * k <= refine_after(eval, mx, my, k).1 <= my + 4 * k,
    decreases k,
{
    if k > 0 {
        lemma_refine_range(eval, mx, my, k - 1);
        let o = refine_offset(k - 1);
        assert(-4 <= o.0 <= 4 && -4 <= o.1 <= 4);
    }
}

/// Refines the full-pixel vector `(dx, dy)` to eighth pels.
fn refine_search(src: &Vec<u8>, rf: &Vec<u8>, w: u32, h: u32, px: u32, py: u32, dx: i32, dy: i32) -> (r: (i32, i32))
    requires
        1 <= w <= 0xffff,
        1 <= h <= 0xffff,
        src@.len() == w * h,
        rf@.len() == w * h,
        px < 0x10000,
        py < 0x10000,
        -16 <= dx <= 16,
        -16 <= dy <= 16,
    ensures
        (r.0 as int, r.1 as int) == refine_spec(src@, rf@, w as int, h as int, px as int, py as int, 8, 8 * dx, 8 * dy),
        -192 <= r.0 <= 192,
        -192 <= r.1 <= 192,
{
    proof {
        assert(w * h <= 0xffff * 0xffff) by (nonlinear_arith)
            requires
                w <= 0xffff,
                h <= 0xffff,
        ;
    }
    let r = subpel_refine(src.as_slice(), rf.as_slice(), w, h, px, py, 8, dx * 8, dy * 8);
    proof {
        let src_block = Seq::new(64, |i: int| edge_pixel(src@, w as int, px + i % 8, py + i / 8, w as int, h as int));
        let eval = |x: int, y: int| subpel_sad(src_block, rf@, w as int, h as int, px as int, py as int, 8, x, y);
        lemma_refine_range(eval, 8 * dx, 8 * dy, 16);
    }
    r
}

/// Every candidate's vector has components of at most 192 eighth pels.
pub open spec fn cands_bounded(s: Seq<MvCandidate>) -> bool {
    forall|i: int| 0 <= i < s.len() ==> -192 <= (#[trigger] s[i]).mv_x <= 192 && -192 <= s[i].mv_y <= 192
}

proof fn lemma_gather_bounded(bm: Seq<BlockMv>, idxs: Seq<int>)
    requires
        mvs_bounded(bm),
    ensures
        cands_bounded(gather_candidates(bm, idxs)),
    decreases idxs.len(),
{
    if idxs.len() > 0 {
        let acc = gather_candidates(bm, idxs.drop_last());
        lemma_gather_bounded(bm, idxs.drop_last());
        let i = idxs.last();
        if 0 <= i < bm.len() && bm[i].ref_frame == 0 {
            let x = bm[i].mv_x;
            let y = bm[i].mv_y;
            lemma_first_match_range(acc, x, y, 0);
            let k = first_match(acc, x, y, 0);
            let r = with_candidate(acc, x, y, 2);
            assert forall|j: int| 0 <= j < r.len() implies -192 <= (#[trigger] r[j]).mv_x <= 192 && -192 <= r[j].mv_y <= 192 by {
                if k >= 0 {
                    assert(r[j].mv_x == acc[j].mv_x && r[j].mv_y == acc[j].mv_y);
                } else if j < acc.len() {
                    assert(r[j] == acc[j]);
                }
            }
        }
    }
}

/// The predicted vector of a bounded motion field is bounded.
proof fn lemma_predict_bounded(bm: Seq<BlockMv>, mi_cols: u32, mi_rows: u32, bx: u32, by: u32)
    requires
        mvs_bounded(bm),
    ensures
        -192 <= predict_mv_spec(bm, mi_cols, mi_rows, bx, by).0 <= 192,
        -192 <= predict_mv_spec(bm, mi_cols, mi_rows, bx, by).1 <= 192,
{
    let g = gather_candidates(bm, mv_neighbours(mi_cols, mi_rows, bx, by));
    lemma_gather_bounded(bm, mv_neighbours(mi_cols, mi_rows, bx, by));
    if g.len() > 0 {
        let b = boosted(g);
        assert(cands_bounded(b));
        let st = sorted_by_weight(b);
        lemma_sorted_by_weight(b);
        st.to_multiset_ensures();
        b.to_multiset_ensures();
        assert(st.contains(st[0]));
        assert(b.to_multiset().count(st[0]) > 0);
        assert(b.contains(st[0]));
    }
}

/// The sum of the squared differences of the first `n` samples.
pub open spec fn sq_err(a: Seq<u8>, b: Seq<u8>, n: int) -> int
    decreases n,
{
    if n <= 0 {
        0
    } else {
        sq_err(a, b, n - 1) + (a[n - 1] - b[n - 1]) * (a[n - 1] - b[n - 1])
    }
}

/// The `bs` x `bs` block at `(px, py)` of a plane predicted at the vector
/// `(mx, my)` in eighth pels: the whole-pixel part moves the block, the
/// fraction picks the filter phase.
pub open spec fn interp_block(rf: Seq<u8>, w: int, h: int, px: int, py: int, mx: int, my: int, bs: int) -> Seq<u8> {
    Seq::new(
        (bs * bs) as nat,
        |i: int| interp_pixel(rf, w, h, px + mx / 8, py + my / 8, 2 * (mx % 8), 2 * (my % 8), bs > 4, i / bs, i % bs),
    )
}

/// Half of `v`, rounded toward zero.
pub open spec fn trunc_half(v: int) -> int {
    if v < 0 { -((-v) / 2) } else { v / 2 }
}

/// The motion decision for the block at `(bx, by)`: search the full-pixel
/// vector, refine it to eighth pels when it is not zero, and take it (NEWMV)
/// only when no neighbour is inter coded, the vector is not zero and it
/// predicts the 8x8 luma samples with a smaller squared error than the zero
/// vector; else the zero vector.
#[verifier::opaque]
pub open spec fn mv_choice(t: InterTileEncoder, bx: u32, by: u32) -> (bool, int, int) {
    let w = t.width as int;
    let h = t.height as int;
    let px = 4 * bx as int;
    let py = 4 * by as int;
    let (dx, dy) = search_best(t.src_y@, t.ref_y@, w, h, px, py, 8);
    let (rx, ry) = if dx != 0 || dy != 0 { refine_spec(t.src_y@, t.ref_y@, w, h, px, py, 8, 8 * dx, 8 * dy) } else { (0, 0) };
    let ysrc = block_at(t.src_y@, w, px, py, 8, w, h);
    let zero = block_at(t.ref_y@, w, px, py, 8, w, h);
    let no_inter = !(above_inter(t.ctx, bx, by) || left_inter(t.ctx, bx, by));
    let use_newmv = no_inter && (rx != 0 || ry != 0) && sq_err(ysrc, interp_block(t.ref_y@, w, h, px, py, rx, ry, 8), 64) < sq_err(ysrc, zero, 64);
    if use_newmv { (true, rx, ry) } else { (false, 0, 0) }
}

/// The squared error of two 64-sample blocks.
fn sq_err_64(a: &Vec<u8>, b: &Vec<u8>) -> (r: i64)
    requires
        a@.len() == 64,
        b@.len() == 64,
    ensures
        r == sq_err(a@, b@, 64),
{
    let mut acc: i64 = 0;
    let mut i: usize = 0;
    while i < 64
        invariant
            i <= 64,
            a@.len() == 64,
            b@.len() == 64,
            acc == sq_err(a@, b@, i as int),
            0 <= acc <= i * 65025,
        decreases 64 - i,
    {
        let d = a[i] as i64 - b[i] as i64;
        assert(d * d <= 65025) by (nonlinear_arith)
            requires
                -255 <= d <= 255,
        ;
        assert(d * d >= 0) by (nonlinear_arith);
        acc = acc + d * d;
        i += 1;
    }
    acc
}

/// Splits a vector component in eighth pels into its whole-pixel part and phase.
fn split_mv(v: i32) -> (r: (i32, u32))
    requires
        -1024 <= v <= 1024,
    ensures
        r.0 as int == v as int / 8,
        r.1 as int == v as int % 8,
        -128 <= r.0 <= 128,
        r.1 <= 7,
{
    let t = (v + 1024) as u32;
    assert((v + 1024) / 8 == v / 8 + 128 && (v + 1024) % 8 == v % 8) by (nonlinear_arith)
        requires
            -1024 <= v <= 1024,
    ;
    ((t / 8) as i32 - 128, t % 8)
}

/// Predicts the `bs` x `bs` block at `(px, py)` of a plane at the vector `(mx, my)`.
fn predict_at(rf: &Vec<u8>, w: u32, h: u32, px: u32, py: u32, mx: i32, my: i32, bs: u32) -> (r: Vec<u8>)
    requires
        1 <= w <= 0xffff,
        1 <= h <= 0xffff,
        rf@.len() == w * h,
        px < 0x10000,
        py < 0x10000,
        -1024 <= mx <= 1024,
        -1024 <= my <= 1024,
        bs == 4 || bs == 8,
    ensures
        r@ == interp_block(rf@, w as int, h as int, px as int, py as int, mx as int, my as int, bs as int),
{
    proof {
        assert(w * h <= 0xffff * 0xffff) by (nonlinear_arith)
            requires
                w <= 0xffff,
                h <= 0xffff,
        ;
    }
    let (ix, fx) = split_mv(mx);
    let (iy, fy) = split_mv(my);
    let r = interpolate_block(rf.as_slice(), w, h, px as i32 + ix, py as i32 + iy, fx, fy, bs);
    assert(r@ =~= interp_block(rf@, w as int, h as int, px as int, py as int, mx as int, my as int, bs as int));
    r
}

/// The `n` x `n` block of a plane at `(px, py)`.
fn block_of(p: &Vec<u8>, w: u32, h: u32, px: u32, py: u32, n: usize) -> (r: Vec<u8>)
    requires
        1 <= w <= 0xffff,
        1 <= h <= 0xffff,
        p@.len() == w * h,
        px < 0x10000,
        py < 0x10000,
        1 <= n <= 128,
    ensures
        r@ == block_at(p@, w as int, px as int, py as int, n as int, w as int, h as int),
        r@.len() == n * n,
{
    proof {
        assert((h - 1) * w + w - 1 < w * h && w * h <= 0xffff * 0xffff) by (nonlinear_arith)
            requires
                1 <= w <= 0xffff,
                1 <= h <= 0xffff,
        ;
    }
    assert(n * n <= 128 * 128) by (nonlinear_arith)
        requires
            1 <= n <= 128,
    ;
    let r = extract_block(p.as_slice(), w, px, py, n, w, h);
    assert(r@ =~= block_at(p@, w as int, px as int, py as int, n as int, w as int, h as int));
    r
}

/// Makes the motion decision for the block at `(bx, by)`.
fn choose_mv(t: &InterTileEncoder, bx: u32, by: u32) -> (r: (bool, i32, i32))
    requires
        t.wf(),
        bx < t.mi_cols,
        by < t.mi_rows,
    ensures
        (r.0, r.1 as int, r.2 as int) == mv_choice(*t, bx, by),
        -192 <= r.1 <= 192,
        -192 <= r.2 <= 192,
{
    proof {
        assert(bx < 0x4000 && by < 0x4000);
    }
    let w = t.width;
    let h = t.height;
    let px = bx * 4;
    let py = by * 4;
    let (dx, dy) = full_pel_search(&t.src_y, &t.ref_y, w, h, px, py, 8);
    let (rx, ry) = if dx != 0 || dy != 0 { refine_search(&t.src_y, &t.ref_y, w, h, px, py, dx, dy) } else { (0, 0) };
    let no_inter = !t.ctx.has_inter_neighbor(bx, by);
    proof {
        reveal(mv_choice);
    }
    if no_inter && (rx != 0 || ry != 0) {
        let ysrc = block_of(&t.src_y, w, h, px, py, 8);
        let zero = block_of(&t.ref_y, w, h, px, py, 8);
        let mc = predict_at(&t.ref_y, w, h, px, py, rx, ry, 8);
        let e_mc = sq_err_64(&ysrc, &mc);
        let e_zero = sq_err_64(&ysrc, &zero);
        if e_mc < e_zero {
            return (true, rx, ry);
        }
    }
    (false, 0, 0)
}

/// The luma and chroma predictions of the block at `(bx, by)` at the vector
/// `(mx, my)` when `use_newmv` (chroma at half the vector, rounded toward
/// zero), else the reference blocks at the same place.
#[verifier::opaque]
pub open spec fn inter_preds(t: InterTileEncoder, bx: u32, by: u32, use_newmv: bool, mx: int, my: int) -> (Seq<u8>, Seq<u8>, Seq<u8>) {
    let w = t.width as int;
    let h = t.height as int;
    let cw = half_up(w);
    let chh = half_up(h);
    let px = 4 * bx as int;
    let py = 4 * by as int;
    let cpx = 2 * bx as int;
    let cpy = 2 * by as int;
    if use_newmv {
        let cx = trunc_half(mx);
        let cy = trunc_half(my);
        (
            interp_block(t.ref_y@, w, h, px, py, mx, my, 8),
            interp_block(t.ref_u@, cw, chh, cpx, cpy, cx, cy, 4),
            interp_block(t.ref_v@, cw, chh, cpx, cpy, cx, cy, 4),
        )
    } else {
        (block_at(t.ref_y@, w, px, py, 8, w, h), block_at(t.ref_u@, cw, cpx, cpy, 4, cw, chh), block_at(t.ref_v@, cw, cpx, cpy, 4, cw, chh))
    }
}

/// Builds the predictions of the block at `(bx, by)`.
fn build_preds(t: &InterTileEncoder, bx: u32, by: u32, use_newmv: bool, mx: i32, my: i32) -> (r: (Vec<u8>, Vec<u8>, Vec<u8>))
    requires
        t.wf(),
        bx < t.mi_cols,
        by < t.mi_rows,
        -192 <= mx <= 192,
        -192 <= my <= 192,
    ensures
        (r.0@, r.1@, r.2@) == inter_preds(*t, bx, by, use_newmv, mx as int, my as int),
        r.0@.len() == 64,
        r.1@.len() == 16,
        r.2@.len() == 16,
{
    let w = t.width;
    let h = t.height;
    let cw = w / 2 + w % 2;
    let chh = h / 2 + h % 2;
    proof {
        assert(bx < 0x4000 && by < 0x4000);
        assert(cw == half_up(w as int) && chh == half_up(h as int));
        reveal(inter_preds);
    }
    if use_newmv {
        let cx = if mx < 0 { -((-mx) / 2) } else { mx / 2 };
        let cy = if my < 0 { -((-my) / 2) } else { my / 2 };
        let yp = predict_at(&t.ref_y, w, h, bx * 4, by * 4, mx, my, 8);
        let up = predict_at(&t.ref_u, cw, chh, bx * 2, by * 2, cx, cy, 4);
        let vp = predict_at(&t.ref_v, cw, chh, bx * 2, by * 2, cx, cy, 4);
        (yp, up, vp)
    } else {
        let yp = block_of(&t.ref_y, w, h, bx * 4, by * 4, 8);
        let up = block_of(&t.ref_u, cw, chh, bx * 2, by * 2, 4);
        let vp = block_of(&t.ref_v, cw, chh, bx * 2, by * 2, 4);
        (yp, up, vp)
    }
}

/// Quantizes the 8x8 DCT of the difference of `src` and `pred`.
fn quant8(src: &Vec<u8>, pred: &Vec<u8>, dc_dq: u32, ac_dq: u32) -> (r: Vec<i32>)
    requires
        src@.len() == 64,
        pred@.len() == 64,
        1 <= dc_dq <= 0x10000,
        1 <= ac_dq <= 0x10000,
    ensures
        r@ == quant_seq(forward_transform_8x8_spec(diff(src@, pred@), TxType::DctDct), dc_dq, ac_dq),
        r@.len() == 64,
        forall|i: int| 0 <= i < 64 ==> -203727 <= #[trigger] r@[i] <= 203727,
        bounded(forward_transform_8x8_spec(diff(src@, pred@), TxType::DctDct), 203727),
{
    let mut res = [0i32; 64];
    let mut i: usize = 0;
    while i < 64
        invariant
            i <= 64,
            src@.len() == 64,
            pred@.len() == 64,
            forall|j: int| 0 <= j < i ==> #[trigger] res@[j] as int == src@[j] - pred@[j],
        decreases 64 - i,
    {
        res[i] = src[i] as i32 - pred[i] as i32;
        i += 1;
    }
    assert(ints(res@) =~= diff(src@, pred@));
    assert(bounded(ints(res@), 255));
    let cf = forward_dct_8x8(&res);
    proof {
        lemma_forward_8x8_bound(diff(src@, pred@), TxType::DctDct);
    }
    quantize_bounded(&cf, 64, dc_dq, ac_dq, Ghost(203727))
}

/// Quantizes the 4x4 DCT of the difference of `src` and `pred`.
fn quant4(src: &Vec<u8>, pred: &Vec<u8>, dc_dq: u32, ac_dq: u32) -> (r: Vec<i32>)
    requires
        src@.len() == 16,
        pred@.len() == 16,
        1 <= dc_dq <= 0x10000,
        1 <= ac_dq <= 0x10000,
    ensures
        r@ == quant_seq(forward_transform_4x4_spec(diff(src@, pred@), TxType::DctDct), dc_dq, ac_dq),
        r@.len() == 16,
        forall|i: int| 0 <= i < 16 ==> -9188 <= #[trigger] r@[i] <= 9188,
        bounded(forward_transform_4x4_spec(diff(src@, pred@), TxType::DctDct), 9188),
{
    let mut res = [0i32; 16];
    let mut i: usize = 0;
    while i < 16
        invariant
            i <= 16,
            src@.len() == 16,
            pred@.len() == 16,
            forall|j: int| 0 <= j < i ==> #[trigger] res@[j] as int == src@[j] - pred@[j],
        decreases 16 - i,
    {
        res[i] = src[i] as i32 - pred[i] as i32;
        i += 1;
    }
    assert(ints(res@) =~= diff(src@, pred@));
    assert(bounded(ints(res@), 255));
    let cf = forward_dct_4x4(&res);
    quantize_bounded(&cf, 16, dc_dq, ac_dq, Ghost(9188))
}

/// What the analysis of the inter block at `(bx, by)` gives: whether it
/// codes a new motion vector and which (else the zero vector), the predicted
/// vector and the candidate list, the three predictions, the quantized
/// coefficients of the three planes, and whether every coefficient is zero.
#[verifier::opaque]
pub open spec fn inter_analysis(t: InterTileEncoder, bx: u32, by: u32) -> (bool, int, int, int, int, Seq<MvCandidate>, Seq<u8>, Seq<u8>, Seq<u8>, Seq<i32>, Seq<i32>, Seq<i32>, bool) {
    let w = t.width as int;
    let h = t.height as int;
    let cw = half_up(w);
    let chh = half_up(h);
    let (use_newmv, mx, my) = mv_choice(t, bx, by);
    let (pmx, pmy, cands) = predict_mv_spec(t.block_mvs@, t.mi_cols, t.mi_rows, bx, by);
    let (yp, up, vp) = inter_preds(t, bx, by, use_newmv, mx, my);
    let yq = quant_seq(forward_transform_8x8_spec(diff(block_at(t.src_y@, w, 4 * bx as int, 4 * by as int, 8, w, h), yp), TxType::DctDct), t.dc_dq, t.ac_dq);
    let uq = quant_seq(forward_transform_4x4_spec(diff(block_at(t.src_u@, cw, 2 * bx as int, 2 * by as int, 4, cw, chh), up), TxType::DctDct), t.dc_dq, t.ac_dq);
    let vq = quant_seq(forward_transform_4x4_spec(diff(block_at(t.src_v@, cw, 2 * bx as int, 2 * by as int, 4, cw, chh), vp), TxType::DctDct), t.dc_dq, t.ac_dq);
    (use_newmv, mx, my, pmx as int, pmy as int, cands, yp, up, vp, yq, uq, vq, all_zero(yq) && all_zero(uq) && all_zero(vq))
}

/// The first syntax of an inter block: skip, inter, and the first single
/// reference (three bits of the reference tree).
pub open spec fn inter_head_ops(c: TileContext, bx: u32, by: u32, skip: bool) -> Seq<CoefOp> {
    let sctx = c.above_skip@[bx as int] as int + c.left_skip@[in_sb(by)] as int;
    let rctx = if above_inter(c, bx, by) || left_inter(c, bx, by) { 2int } else { 1int };
    seq![
        CoefOp::Bool((SKIP_BASE + sctx) as usize, skip),
        CoefOp::Bool((IS_INTER_BASE + is_inter_ctx_spec(c, bx, by)) as usize, true),
        CoefOp::Bool((SINGLE_REF_BASE + rctx * 7) as usize, false),
        CoefOp::Bool((SINGLE_REF_BASE + rctx * 7 + 2) as usize, false),
        CoefOp::Bool((SINGLE_REF_BASE + rctx * 7 + 3) as usize, false),
    ]
}

/// The motion syntax of an inter block: NEWMV with, when there is more than
/// one candidate, the first reference-list bit, and the difference from the
/// predicted vector; or GLOBALMV.
pub open spec fn inter_mv_ops(c: TileContext, bx: u32, by: u32, use_newmv: bool, dy: int, dx: int, cands: Seq<MvCandidate>) -> Seq<CoefOp> {
    let nctx = newmv_ctx_spec(c, bx, by);
    if use_newmv {
        seq![CoefOp::Bool((NEWMV_BASE + nctx) as usize, false)] + (if cands.len() > 1 {
            seq![CoefOp::Bool((DRL_BASE + drl_context(cands, 0)) as usize, false)]
        } else {
            Seq::empty()
        }) + mv_residual_ops(dy as i32, dx as i32)
    } else {
        seq![CoefOp::Bool((NEWMV_BASE + nctx) as usize, true), CoefOp::Bool(ZEROMV_BASE, false)]
    }
}

/// Codes the skip, inter and reference syntax of an inter block.
#[verifier::spinoff_prover]
fn code_inter_head(enc: &mut MsacEncoder, cdfs: &mut Vec<Vec<u16>>, ctx: &TileContext, bx: u32, by: u32, skip: bool)
    requires
        old(enc).wf(),
        cdfs_valid(cdf_view(old(cdfs)@)),
        (bx as int) < ctx.above_skip@.len(),
        skip_flags_ok(*ctx),
    ensures
        final(enc).wf(),
        final(enc).updates_cdf() == old(enc).updates_cdf(),
        cdfs_valid(cdf_view(final(cdfs)@)),
        state_of(*final(enc), final(cdfs)@) == run_ops(state_of(*old(enc), old(cdfs)@), inter_head_ops(*ctx, bx, by, skip), old(enc).updates_cdf()),
{
    let ghost st0 = state_of(*enc, cdfs@);
    let ghost upd = enc.updates_cdf();
    proof {
        crate::tile::lemma_low5(by);
    }
    let sctx = ctx.skip_ctx(bx, by);
    assert(ctx.above_skip@[bx as int] <= 1 && ctx.left_skip@[in_sb(by)] <= 1);
    let ictx = ctx.is_inter_ctx(bx, by);
    let rctx = ctx.ref_ctx(bx, by);
    let slots: [usize; 5] = [SKIP_BASE + sctx, IS_INTER_BASE + ictx, SINGLE_REF_BASE + rctx * 7, SINGLE_REF_BASE + rctx * 7 + 2, SINGLE_REF_BASE + rctx * 7 + 3];
    let vals: [bool; 5] = [skip, true, false, false, false];
    let ghost ops = inter_head_ops(*ctx, bx, by, skip);
    let mut k: usize = 0;
    while k < 5
        invariant
            k <= 5,
            enc.wf(),
            enc.updates_cdf() == upd,
            cdfs_valid(cdf_view(cdfs@)),
            ops.len() == 5,
            forall|j: int| 0 <= j < 5 ==> ops[j] == CoefOp::Bool(#[trigger] slots@[j], vals@[j]),
            forall|j: int| 0 <= j < 5 ==> 824 <= #[trigger] slots@[j] < 866,
            state_of(*enc, cdfs@) == run_ops(st0, ops.take(k as int), upd),
        decreases 5 - k,
    {
        code_bool(enc, cdfs, slots[k], vals[k]);
        proof {
            lemma_run_push(st0, ops.take(k as int), CoefOp::Bool(slots@[k as int], vals@[k as int]), upd);
            assert(ops.take(k as int).push(ops[k as int]) =~= ops.take(k + 1));
        }
        k += 1;
    }
    assert(ops.take(5) =~= ops);
}

/// Codes the motion syntax of an inter block.
#[verifier::spinoff_prover]
fn code_inter_mv(enc: &mut MsacEncoder, cdfs: &mut Vec<Vec<u16>>, ctx: &TileContext, bx: u32, by: u32, use_newmv: bool, dy: i32, dx: i32, cands: &Vec<MvCandidate>)
    requires
        old(enc).wf(),
        cdfs_valid(cdf_view(old(cdfs)@)),
        -16384 <= dy <= 16384,
        -16384 <= dx <= 16384,
    ensures
        final(enc).wf(),
        final(enc).updates_cdf() == old(enc).updates_cdf(),
        cdfs_valid(cdf_view(final(cdfs)@)),
        state_of(*final(enc), final(cdfs)@) == run_ops(
            state_of(*old(enc), old(cdfs)@),
            inter_mv_ops(*ctx, bx, by, use_newmv, dy as int, dx as int, cands@),
            old(enc).updates_cdf(),
        ),
{
    let ghost st0 = state_of(*enc, cdfs@);
    let ghost upd = enc.updates_cdf();
    let nctx = ctx.newmv_ctx(bx, by);
    if use_newmv {
        code_bool(enc, cdfs, NEWMV_BASE + nctx, false);
        let ghost a = seq![CoefOp::Bool((NEWMV_BASE + nctx) as usize, false)];
        proof {
            lemma_run_push(st0, Seq::empty(), CoefOp::Bool((NEWMV_BASE + nctx) as usize, false), upd);
            assert(Seq::empty().push(CoefOp::Bool((NEWMV_BASE + nctx) as usize, false)) =~= a);
        }
        let ghost b = if cands@.len() > 1 { seq![CoefOp::Bool((DRL_BASE + drl_context(cands@, 0)) as usize, false)] } else { Seq::<CoefOp>::empty() };
        if cands.len() > 1 {
            let d = crate::motion::get_drl_context(cands.as_slice(), 0);
            code_bool(enc, cdfs, DRL_BASE + d, false);
            proof {
                lemma_run_push(st0, a, CoefOp::Bool((DRL_BASE + d) as usize, false), upd);
                assert(a.push(CoefOp::Bool((DRL_BASE + d) as usize, false)) =~= a + b);
            }
        } else {
            assert(a + b =~= a);
        }
        encode_mv_residual(enc, cdfs, dy, dx);
        proof {
            lemma_run_ops_append(st0, a + b, mv_residual_ops(dy, dx), upd);
        }
    } else {
        code_bool(enc, cdfs, NEWMV_BASE + nctx, true);
        code_bool(enc, cdfs, ZEROMV_BASE, false);
        proof {
            let o1 = CoefOp::Bool((NEWMV_BASE + nctx) as usize, true);
            let o2 = CoefOp::Bool(ZEROMV_BASE, false);
            lemma_run_push(st0, Seq::empty(), o1, upd);
            lemma_run_push(st0, Seq::empty().push(o1), o2, upd);
            assert(Seq::empty().push(o1).push(o2) =~= seq![o1, o2]);
        }
    }
}

/// The whole syntax of an inter block.
pub open spec fn inter_block_ops(c: TileContext, bx: u32, by: u32, bl: int, skip: bool, use_newmv: bool, dy: int, dx: int, cands: Seq<MvCandidate>, yq: Seq<i32>, uq: Seq<i32>, vq: Seq<i32>) -> Seq<CoefOp> {
    inter_head_ops(c, bx, by, skip) + inter_mv_ops(c, bx, by, use_newmv, dy, dx, cands) + (if skip {
        Seq::empty()
    } else {
        intra_coef_ops(c, bx, by, bl, true, 0, TxType::DctDct, yq, uq, vq)
    })
}

/// Codes the syntax of an inter block and returns what coding each plane's
/// coefficients returned.
#[verifier::spinoff_prover]
fn code_inter_syntax(
    enc: &mut MsacEncoder,
    cdfs: &mut Vec<Vec<u16>>,
    c: &TileContext,
    bx: u32,
    by: u32,
    bl: usize,
    skip: bool,
    use_newmv: bool,
    dy: i32,
    dx: i32,
    cands: &Vec<MvCandidate>,
    yq: &Vec<i32>,
    uq: &Vec<i32>,
    vq: &Vec<i32>,
) -> (r: ((u8, bool, bool), (u8, bool, bool), (u8, bool, bool)))
    requires
        old(enc).wf(),
        cdfs_valid(cdf_view(old(cdfs)@)),
        (bx as int) < c.above_skip@.len(),
        bx < 0x4000,
        skip_flags_ok(*c),
        bl <= 4,
        -16384 <= dy <= 16384,
        -16384 <= dx <= 16384,
        skip == (all_zero(yq@) && all_zero(uq@) && all_zero(vq@)),
        yq@.len() == 64,
        uq@.len() == 16,
        vq@.len() == 16,
        forall|i: int| 0 <= i < 64 ==> -0x40000 <= #[trigger] yq@[i] <= 0x40000,
        forall|i: int| 0 <= i < 16 ==> -0x40000 <= #[trigger] uq@[i] <= 0x40000,
        forall|i: int| 0 <= i < 16 ==> -0x40000 <= #[trigger] vq@[i] <= 0x40000,
    ensures
        final(enc).wf(),
        final(enc).updates_cdf() == old(enc).updates_cdf(),
        cdfs_valid(cdf_view(final(cdfs)@)),
        state_of(*final(enc), final(cdfs)@) == run_ops(
            state_of(*old(enc), old(cdfs)@),
            inter_block_ops(*c, bx, by, bl as int, skip, use_newmv, dy as int, dx as int, cands@, yq@, uq@, vq@),
            old(enc).updates_cdf(),
        ),
        r.0 == txb_result(yq@, DEFAULT_SCAN_8X8@),
        r.1 == txb_result(uq@, DEFAULT_SCAN_4X4@),
        r.2 == txb_result(vq@, DEFAULT_SCAN_4X4@),
{
    let ghost st0 = state_of(*enc, cdfs@);
    let ghost upd = enc.updates_cdf();
    let ghost hops = inter_head_ops(*c, bx, by, skip);
    let ghost mops = inter_mv_ops(*c, bx, by, use_newmv, dy as int, dx as int, cands@);
    code_inter_head(enc, cdfs, c, bx, by, skip);
    code_inter_mv(enc, cdfs, c, bx, by, use_newmv, dy, dx, cands);
    proof {
        lemma_run_ops_append(st0, hops, mops, upd);
        lemma_scan_4x4_ok();
        lemma_scan_8x8_ok();
    }
    if !skip {
        let res = code_intra_coefs(enc, cdfs, c, bx, by, bl, true, 0, TxType::DctDct, yq, uq, vq);
        proof {
            lemma_run_ops_append(st0, hops + mops, intra_coef_ops(*c, bx, by, bl as int, true, 0, TxType::DctDct, yq@, uq@, vq@), upd);
        }
        res
    } else {
        proof {
            lemma_all_zero_no_eob(yq@, DEFAULT_SCAN_8X8@, 64);
            lemma_all_zero_no_eob(uq@, DEFAULT_SCAN_4X4@, 16);
            lemma_all_zero_no_eob(vq@, DEFAULT_SCAN_4X4@, 16);
            assert(hops + mops + Seq::<CoefOp>::empty() =~= hops + mops);
        }
        ((0u8, false, true), (0u8, false, true), (0u8, false, true))
    }
}

/// Stores the edges and contexts of a coded inter block for its neighbours.
#[verifier::rlimit(60)]
fn store_inter_context(
    c: &mut TileContext,
    ry: &Vec<u8>,
    ru: &Vec<u8>,
    rv: &Vec<u8>,
    w: u32,
    h: u32,
    bx: u32,
    by: u32,
    bl: usize,
    mi_cols: u32,
    mi_rows: u32,
    yr: (u8, bool, bool),
    ur: (u8, bool, bool),
    vr: (u8, bool, bool),
    skip: bool,
    use_newmv: bool,
)
    requires
        1 <= w <= 0xffff,
        1 <= h <= 0xffff,
        ry@.len() == w * h,
        ru@.len() == half_up(w as int) * half_up(h as int),
        rv@.len() == half_up(w as int) * half_up(h as int),
        bx < mi_cols <= 0x4000,
        by < mi_rows <= 0x4000,
        bl <= 4,
        yr.0 < 0x40,
        ur.0 < 0x40,
        vr.0 < 0x40,
        old(c).above_recon_u@.len() == old(c).above_recon_v@.len(),
        skip_flags_ok(*old(c)),
    ensures
        skip_flags_ok(*final(c)),
        final(c).above_skip@.len() == old(c).above_skip@.len(),
        final(c).above_recon_y@.len() == old(c).above_recon_y@.len(),
        final(c).above_recon_u@.len() == final(c).above_recon_v@.len(),
        ({
            let c0 = *old(c);
            let c1 = *final(c);
            let wi = w as int;
            let hi = h as int;
            let cw = half_up(wi);
            let chh = half_up(hi);
            let mc = mi_cols as int;
            let mr = mi_rows as int;
            &&& c1.above_recon_y@ == copied(c0.above_recon_y@, 4 * bx as int, edge_row(ry@, wi, hi, 4 * bx, 4 * by, 8), 4 * mc - 4 * bx)
            &&& c1.left_recon_y@ == copied(c0.left_recon_y@, 4 * (by as int % 16), edge_col(ry@, wi, hi, 4 * bx, 4 * by, 8), 4 * mr - 4 * by)
            &&& c1.above_recon_u@ == copied(c0.above_recon_u@, 2 * bx as int, edge_row(ru@, cw, chh, 2 * bx, 2 * by, 4), 2 * mc - 2 * bx)
            &&& c1.above_recon_v@ == copied(c0.above_recon_v@, 2 * bx as int, edge_row(rv@, cw, chh, 2 * bx, 2 * by, 4), 2 * mc - 2 * bx)
            &&& c1.left_recon_u@ == copied(c0.left_recon_u@, 2 * (by as int % 16), edge_col(ru@, cw, chh, 2 * bx, 2 * by, 4), 2 * mr - 2 * by)
            &&& c1.left_recon_v@ == copied(c0.left_recon_v@, 2 * (by as int % 16), edge_col(rv@, cw, chh, 2 * bx, 2 * by, 4), 2 * mr - 2 * by)
            &&& c1.above_lcoef@ == filled(c0.above_lcoef@, bx as int, run_len(span4(bl as int), mc - bx), coef_ctx_of(yr))
            &&& c1.left_lcoef@ == filled(c0.left_lcoef@, in_sb(by), run_len(span4(bl as int), mr - by), coef_ctx_of(yr))
            &&& c1.above_ccoef_u@ == filled(c0.above_ccoef_u@, (bx / 2) as int, run_len(half_span_spec(bl as int), half_up(mc - bx)), coef_ctx_of(ur))
            &&& c1.above_ccoef_v@ == filled(c0.above_ccoef_v@, (bx / 2) as int, run_len(half_span_spec(bl as int), half_up(mc - bx)), coef_ctx_of(vr))
            &&& c1.left_ccoef_u@ == filled(c0.left_ccoef_u@, in_sb(by) / 2, run_len(half_span_spec(bl as int), half_up(mr - by)), coef_ctx_of(ur))
            &&& c1.left_ccoef_v@ == filled(c0.left_ccoef_v@, in_sb(by) / 2, run_len(half_span_spec(bl as int), half_up(mr - by)), coef_ctx_of(vr))
            &&& c1.above_partition@ == filled(c0.above_partition@, (bx / 2) as int, run_len(half_span_spec(bl as int), half_up(mc - bx)), PARTITION_CTX_NONE@[bl as int])
            &&& c1.left_partition@ == filled(c0.left_partition@, in_sb(by) / 2, run_len(half_span_spec(bl as int), half_up(mr - by)), PARTITION_CTX_NONE@[bl as int])
            &&& c1.above_skip@ == filled(c0.above_skip@, bx as int, run_len(span4(bl as int), mc - bx), if skip { 1u8 } else { 0u8 })
            &&& c1.left_skip@ == filled(c0.left_skip@, in_sb(by), run_len(span4(bl as int), mr - by), if skip { 1u8 } else { 0u8 })
            &&& c1.above_intra@ == filled(c0.above_intra@, bx as int, run_len(span4(bl as int), mc - bx), false)
            &&& c1.left_intra@ == filled(c0.left_intra@, in_sb(by), run_len(span4(bl as int), mr - by), false)
            &&& c1.above_newmv@ == filled(c0.above_newmv@, bx as int, run_len(span4(bl as int), mc - bx), use_newmv)
            &&& c1.left_newmv@ == filled(c0.left_newmv@, in_sb(by), run_len(span4(bl as int), mr - by), use_newmv)
            &&& c1.above_mode == c0.above_mode
            &&& c1.left_mode == c0.left_mode
        }),
{
    let cw = w / 2 + w % 2;
    let chh = h / 2 + h % 2;
    proof {
        assert(cw * chh == half_up(w as int) * half_up(h as int));
    }
    let (y_bottom, y_right) = block_edges(ry, w, h, bx * 4, by * 4, 8);
    let (u_bottom, u_right) = block_edges(ru, cw, chh, bx * 2, by * 2, 4);
    let (v_bottom, v_right) = block_edges(rv, cw, chh, bx * 2, by * 2, 4);
    c.update_recon(bx, by, mi_cols, mi_rows, y_bottom.as_slice(), y_right.as_slice(), u_bottom.as_slice(), u_right.as_slice(), v_bottom.as_slice(), v_right.as_slice());
    proof {
        assert(v_bottom@.subrange(0, u_bottom@.len() as int) =~= v_bottom@);
        assert(v_right@.subrange(0, u_right@.len() as int) =~= v_right@);
    }
    let ycv = coef_ctx_value(yr.0, yr.1, yr.2);
    let ucv = coef_ctx_value(ur.0, ur.1, ur.2);
    let vcv = coef_ctx_value(vr.0, vr.1, vr.2);
    c.update_coef_ctx(bx, by, bl, mi_cols, mi_rows, ycv, ucv, vcv);
    c.update_partition_ctx(bx, by, bl, mi_cols, mi_rows);
    c.update_skip_ctx(bx, by, bl, mi_cols, mi_rows, skip);
    c.update_intra_ctx(bx, by, bl, mi_cols, mi_rows, false);
    c.update_newmv_flag(bx, by, bl, mi_cols, mi_rows, use_newmv);
    proof {
        assert(forall|j: int| 0 <= j < c.above_skip@.len() ==> #[trigger] c.above_skip@[j] <= 1);
        assert(forall|j: int| 0 <= j < c.left_skip@.len() ==> #[trigger] c.left_skip@[j] <= 1);
    }
}

/// Analyses the inter block at `(bx, by)`.
#[verifier::spinoff_prover]
#[verifier::rlimit(60)]
fn analyse_inter_block(t: &InterTileEncoder, bx: u32, by: u32) -> (r: (bool, i32, i32, i32, i32, Vec<MvCandidate>, Vec<u8>, Vec<u8>, Vec<u8>, Vec<i32>, Vec<i32>, Vec<i32>, bool))
    requires
        t.wf(),
        bx < t.mi_cols,
        by < t.mi_rows,
    ensures
        (r.0, r.1 as int, r.2 as int, r.3 as int, r.4 as int, r.5@, r.6@, r.7@, r.8@, r.9@, r.10@, r.11@, r.12) == inter_analysis(*t, bx, by),
        -192 <= r.1 <= 192,
        -192 <= r.2 <= 192,
        -192 <= r.3 <= 192,
        -192 <= r.4 <= 192,
        r.6@.len() == 64,
        r.7@.len() == 16,
        r.8@.len() == 16,
        r.9@.len() == 64,
        r.10@.len() == 16,
        r.11@.len() == 16,
        r.12 == (all_zero(r.9@) && all_zero(r.10@) && all_zero(r.11@)),
        r.9@ == quant_seq(forward_transform_8x8_spec(diff(block_at(t.src_y@, t.width as int, 4 * bx as int, 4 * by as int, 8, t.width as int, t.height as int), r.6@), TxType::DctDct), t.dc_dq, t.ac_dq),
        r.10@ == quant_seq(forward_transform_4x4_spec(diff(block_at(t.src_u@, half_up(t.width as int), 2 * bx as int, 2 * by as int, 4, half_up(t.width as int), half_up(t.height as int)), r.7@), TxType::DctDct), t.dc_dq, t.ac_dq),
        r.11@ == quant_seq(forward_transform_4x4_spec(diff(block_at(t.src_v@, half_up(t.width as int), 2 * bx as int, 2 * by as int, 4, half_up(t.width as int), half_up(t.height as int)), r.8@), TxType::DctDct), t.dc_dq, t.ac_dq),
        bounded(forward_transform_8x8_spec(diff(block_at(t.src_y@, t.width as int, 4 * bx as int, 4 * by as int, 8, t.width as int, t.height as int), r.6@), TxType::DctDct), 203727),
        bounded(forward_transform_4x4_spec(diff(block_at(t.src_u@, half_up(t.width as int), 2 * bx as int, 2 * by as int, 4, half_up(t.width as int), half_up(t.height as int)), r.7@), TxType::DctDct), 9188),
        bounded(forward_transform_4x4_spec(diff(block_at(t.src_v@, half_up(t.width as int), 2 * bx as int, 2 * by as int, 4, half_up(t.width as int), half_up(t.height as int)), r.8@), TxType::DctDct), 9188),
        forall|i: int| 0 <= i < 64 ==> -203727 <= #[trigger] r.9@[i] <= 203727,
        forall|i: int| 0 <= i < 16 ==> -9188 <= #[trigger] r.10@[i] <= 9188,
        forall|i: int| 0 <= i < 16 ==> -9188 <= #[trigger] r.11@[i] <= 9188,
{
    let w = t.width;
    let h = t.height;
    let cw = w / 2 + w % 2;
    let chh = h / 2 + h % 2;
    proof {
        assert(bx < 0x4000 && by < 0x4000);
        assert(cw == half_up(w as int) && chh == half_up(h as int));
        assert(cw * chh == half_up(w as int) * half_up(h as int));
        assert((by as int + 2) * t.mi_cols as int + bx as int <= u32::MAX) by (nonlinear_arith)
            requires
                by < 0x4000,
                bx < 0x4000,
                t.mi_cols <= 0x4000,
        ;
        lemma_predict_bounded(t.block_mvs@, t.mi_cols, t.mi_rows, bx, by);
    }
    let (use_newmv, mx, my) = choose_mv(t, bx, by);
    let (pmx, pmy, cands) = predict_mv(t.block_mvs.as_slice(), t.mi_cols, t.mi_rows, bx, by);
    let (yp, up, vp) = build_preds(t, bx, by, use_newmv, mx, my);
    let ys = block_of(&t.src_y, w, h, bx * 4, by * 4, 8);
    let us = block_of(&t.src_u, cw, chh, bx * 2, by * 2, 4);
    let vs = block_of(&t.src_v, cw, chh, bx * 2, by * 2, 4);
    let yq = quant8(&ys, &yp, t.dc_dq, t.ac_dq);
    let uq = quant4(&us, &up, t.dc_dq, t.ac_dq);
    let vq = quant4(&vs, &vp, t.dc_dq, t.ac_dq);
    let skip = is_all_zero(&yq) && is_all_zero(&uq) && is_all_zero(&vq);
    proof {
        reveal(inter_analysis);
    }
    (use_newmv, mx, my, pmx, pmy, cands, yp, up, vp, yq, uq, vq, skip)
}

/// What coding the inter block of level `bl` at `(bx, by)` leaves, given the
/// analysis `a` of it: `u` is `t` with the block's syntax coded, its samples
/// reconstructed from the predictions, its edges and contexts stored for its
/// neighbours, and its vector stored over its 8x8 luma samples.
pub open spec fn inter_block_done(
    t: InterTileEncoder,
    u: InterTileEncoder,
    bx: u32,
    by: u32,
    bl: usize,
    a: (bool, int, int, int, int, Seq<MvCandidate>, Seq<u8>, Seq<u8>, Seq<u8>, Seq<i32>, Seq<i32>, Seq<i32>, bool),
) -> bool {
    let (use_newmv, mx, my, pmx, pmy, cands, yp, up, vp, yq, uq, vq, skip) = a;
    let c0 = t.ctx;
    let c1 = u.ctx;
    let w = t.width as int;
    let h = t.height as int;
    let cw = half_up(w);
    let chh = half_up(h);
    let mc = t.mi_cols as int;
    let mr = t.mi_rows as int;
    let ops = inter_block_ops(c0, bx, by, bl as int, skip, use_newmv, my - pmy, mx - pmx, cands, yq, uq, vq);
    let ry = paste_rect(t.recon_y@, w, 4 * bx as int, 4 * by as int, 8, recon_vals(pred_ints(yp), luma_residual(yq, t.dc_dq, t.ac_dq, TxType::DctDct)));
    let ru = paste_rect(t.recon_u@, cw, 2 * bx as int, 2 * by as int, 4, recon_vals(pred_ints(up), inverse_transform_4x4_spec(deq_seq(uq, t.dc_dq, t.ac_dq), TxType::DctDct)));
    let rv = paste_rect(t.recon_v@, cw, 2 * bx as int, 2 * by as int, 4, recon_vals(pred_ints(vp), inverse_transform_4x4_spec(deq_seq(vq, t.dc_dq, t.ac_dq), TxType::DctDct)));
    &&& state_of(u.enc, u.cdfs@) == run_ops(state_of(t.enc, t.cdfs@), ops, t.enc.updates_cdf())
    &&& u.recon_y@ == ry
    &&& u.recon_u@ == ru
    &&& u.recon_v@ == rv
    &&& u.block_mvs@ == mv_filled_with(t.block_mvs@, mc, bx as int, by as int, 2, BlockMv { mv_x: mx as i32, mv_y: my as i32, ref_frame: 0 })
    &&& c1.above_recon_y@ == copied(c0.above_recon_y@, 4 * bx as int, edge_row(ry, w, h, 4 * bx, 4 * by, 8), 4 * mc - 4 * bx)
    &&& c1.left_recon_y@ == copied(c0.left_recon_y@, 4 * (by as int % 16), edge_col(ry, w, h, 4 * bx, 4 * by, 8), 4 * mr - 4 * by)
    &&& c1.above_recon_u@ == copied(c0.above_recon_u@, 2 * bx as int, edge_row(ru, cw, chh, 2 * bx, 2 * by, 4), 2 * mc - 2 * bx)
    &&& c1.above_recon_v@ == copied(c0.above_recon_v@, 2 * bx as int, edge_row(rv, cw, chh, 2 * bx, 2 * by, 4), 2 * mc - 2 * bx)
    &&& c1.left_recon_u@ == copied(c0.left_recon_u@, 2 * (by as int % 16), edge_col(ru, cw, chh, 2 * bx, 2 * by, 4), 2 * mr - 2 * by)
    &&& c1.left_recon_v@ == copied(c0.left_recon_v@, 2 * (by as int % 16), edge_col(rv, cw, chh, 2 * bx, 2 * by, 4), 2 * mr - 2 * by)
    &&& c1.above_lcoef@ == filled(c0.above_lcoef@, bx as int, run_len(span4(bl as int), mc - bx), coef_ctx_of(txb_result(yq, DEFAULT_SCAN_8X8@)))
    &&& c1.left_lcoef@ == filled(c0.left_lcoef@, in_sb(by), run_len(span4(bl as int), mr - by), coef_ctx_of(txb_result(yq, DEFAULT_SCAN_8X8@)))
    &&& c1.above_ccoef_u@ == filled(c0.above_ccoef_u@, (bx / 2) as int, run_len(half_span_spec(bl as int), half_up(mc - bx)), coef_ctx_of(txb_result(uq, DEFAULT_SCAN_4X4@)))
    &&& c1.above_ccoef_v@ == filled(c0.above_ccoef_v@, (bx / 2) as int, run_len(half_span_spec(bl as int), half_up(mc - bx)), coef_ctx_of(txb_result(vq, DEFAULT_SCAN_4X4@)))
    &&& c1.left_ccoef_u@ == filled(c0.left_ccoef_u@, in_sb(by) / 2, run_len(half_span_spec(bl as int), half_up(mr - by)), coef_ctx_of(txb_result(uq, DEFAULT_SCAN_4X4@)))
    &&& c1.left_ccoef_v@ == filled(c0.left_ccoef_v@, in_sb(by) / 2, run_len(half_span_spec(bl as int), half_up(mr - by)), coef_ctx_of(txb_result(vq, DEFAULT_SCAN_4X4@)))
    &&& c1.above_partition@ == filled(c0.above_partition@, (bx / 2) as int, run_len(half_span_spec(bl as int), half_up(mc - bx)), PARTITION_CTX_NONE@[bl as int])
    &&& c1.left_partition@ == filled(c0.left_partition@, in_sb(by) / 2, run_len(half_span_spec(bl as int), half_up(mr - by)), PARTITION_CTX_NONE@[bl as int])
    &&& c1.above_skip@ == filled(c0.above_skip@, bx as int, run_len(span4(bl as int), mc - bx), if skip { 1u8 } else { 0u8 })
    &&& c1.left_skip@ == filled(c0.left_skip@, in_sb(by), run_len(span4(bl as int), mr - by), if skip { 1u8 } else { 0u8 })
    &&& c1.above_intra@ == filled(c0.above_intra@, bx as int, run_len(span4(bl as int), mc - bx), false)
    &&& c1.left_intra@ == filled(c0.left_intra@, in_sb(by), run_len(span4(bl as int), mr - by), false)
    &&& c1.above_newmv@ == filled(c0.above_newmv@, bx as int, run_len(span4(bl as int), mc - bx), use_newmv)
    &&& c1.left_newmv@ == filled(c0.left_newmv@, in_sb(by), run_len(span4(bl as int), mr - by), use_newmv)
    &&& c1.above_mode == c0.above_mode
    &&& c1.left_mode == c0.left_mode
}

/// A skipped inter block at the zero vector (GLOBALMV) codes exactly the
/// syntax of the skip block.
pub proof fn lemma_skipped_zero_mv_is_skip_syntax(c: TileContext, bx: u32, by: u32, bl: int, dy: int, dx: int, cands: Seq<MvCandidate>, yq: Seq<i32>, uq: Seq<i32>, vq: Seq<i32>)
    ensures
        inter_block_ops(c, bx, by, bl, true, false, dy, dx, cands, yq, uq, vq) == skip_block_ops(c, bx, by),
{
    assert(inter_block_ops(c, bx, by, bl, true, false, dy, dx, cands, yq, uq, vq) =~= skip_block_ops(c, bx, by));
}

/// Coding an inter block changes no reconstructed sample outside its 8x8
/// luma window and its two 4x4 chroma windows, and no stored vector outside
/// its 2x2 units.
#[verifier::spinoff_prover]
pub proof fn lemma_inter_block_local(
    t: InterTileEncoder,
    u: InterTileEncoder,
    bx: u32,
    by: u32,
    bl: usize,
    a: (bool, int, int, int, int, Seq<MvCandidate>, Seq<u8>, Seq<u8>, Seq<u8>, Seq<i32>, Seq<i32>, Seq<i32>, bool),
)
    requires
        inter_block_done(t, u, bx, by, bl, a),
    ensures
        u.recon_y@.len() == t.recon_y@.len(),
        u.block_mvs@.len() == t.block_mvs@.len(),
        forall|i: int|
            0 <= i < t.recon_y@.len() && !(4 * bx <= i % (t.width as int) < 4 * bx + 8 && 4 * by <= i / (t.width as int) < 4 * by + 8)
                ==> #[trigger] u.recon_y@[i] == t.recon_y@[i],
        forall|i: int|
            0 <= i < t.recon_u@.len() && !(2 * bx <= i % half_up(t.width as int) < 2 * bx + 4 && 2 * by <= i / half_up(t.width as int) < 2 * by + 4)
                ==> #[trigger] u.recon_u@[i] == t.recon_u@[i],
        forall|i: int|
            0 <= i < t.recon_v@.len() && !(2 * bx <= i % half_up(t.width as int) < 2 * bx + 4 && 2 * by <= i / half_up(t.width as int) < 2 * by + 4)
                ==> #[trigger] u.recon_v@[i] == t.recon_v@[i],
        forall|i: int|
            0 <= i < t.block_mvs@.len() && !(bx <= i % (t.mi_cols as int) < bx + 2 && by <= i / (t.mi_cols as int) < by + 2)
                ==> #[trigger] u.block_mvs@[i] == t.block_mvs@[i],
{
}

impl InterTileEncoder {
    /// Codes the block of level `bl` at 4x4 unit `(bx, by)` as an inter
    /// block from the reference: the motion decision for its 8x8 luma
    /// samples, the prediction at the chosen vector, the quantized DCT
    /// coefficients of the residual (all skipped when every one is zero), the
    /// skip, reference, motion and coefficient syntax, the reconstruction, the
    /// block's edges and contexts stored for its neighbours, and its vector
    /// stored over its units.
    #[verifier::spinoff_prover]
    pub fn encode_inter_block(&mut self, bx: u32, by: u32, bl: usize)
        requires
            old(self).wf(),
            bx < old(self).mi_cols,
            by < old(self).mi_rows,
            bl <= 4,
        ensures
            final(self).wf(),
            final(self).enc.updates_cdf() == old(self).enc.updates_cdf(),
            final(self).width == old(self).width,
            final(self).height == old(self).height,
            final(self).mi_cols == old(self).mi_cols,
            final(self).mi_rows == old(self).mi_rows,
            final(self).src_y == old(self).src_y,
            final(self).src_u == old(self).src_u,
            final(self).src_v == old(self).src_v,
            final(self).ref_y == old(self).ref_y,
            final(self).ref_u == old(self).ref_u,
            final(self).ref_v == old(self).ref_v,
            final(self).dc_dq == old(self).dc_dq,
            final(self).ac_dq == old(self).ac_dq,
            inter_block_done(*old(self), *final(self), bx, by, bl, inter_analysis(*old(self), bx, by)),
    {
        let ghost t0 = *self;
        let w = self.width;
        let h = self.height;
        let (use_newmv, mx, my, pmx, pmy, cands, yp, up, vp, yq, uq, vq, skip) = analyse_inter_block(self, bx, by);
        self.finish_inter_block(
            bx, by, bl, use_newmv, mx, my, pmx, pmy, &cands, &yp, &up, &vp, &yq, &uq, &vq, skip,
            Ghost(forward_transform_8x8_spec(diff(block_at(t0.src_y@, w as int, 4 * bx as int, 4 * by as int, 8, w as int, h as int), yp@), TxType::DctDct)),
            Ghost(forward_transform_4x4_spec(diff(block_at(t0.src_u@, half_up(w as int), 2 * bx as int, 2 * by as int, 4, half_up(w as int), half_up(h as int)), up@), TxType::DctDct)),
            Ghost(forward_transform_4x4_spec(diff(block_at(t0.src_v@, half_up(w as int), 2 * bx as int, 2 * by as int, 4, half_up(w as int), half_up(h as int)), vp@), TxType::DctDct)),
        );
    }

    /// Codes the analysed inter block of level `bl` at `(bx, by)`,
    /// reconstructs its samples and stores its edges, contexts and vector;
    /// `cy`, `cu` and `cv` are the transform coefficients that `yq`, `uq` and
    /// `vq` quantize.
    #[verifier::spinoff_prover]
    #[verifier::rlimit(100)]
    fn finish_inter_block(
        &mut self,
        bx: u32,
        by: u32,
        bl: usize,
        use_newmv: bool,
        mx: i32,
        my: i32,
        pmx: i32,
        pmy: i32,
        cands: &Vec<MvCandidate>,
        yp: &Vec<u8>,
        up: &Vec<u8>,
        vp: &Vec<u8>,
        yq: &Vec<i32>,
        uq: &Vec<i32>,
        vq: &Vec<i32>,
        skip: bool,
        Ghost(cy): Ghost<Seq<int>>,
        Ghost(cu): Ghost<Seq<int>>,
        Ghost(cv): Ghost<Seq<int>>,
    )
        requires
            old(self).wf(),
            bx < old(self).mi_cols,
            by < old(self).mi_rows,
            bl <= 4,
            -192 <= mx <= 192,
            -192 <= my <= 192,
            -192 <= pmx <= 192,
            -192 <= pmy <= 192,
            yp@.len() == 64,
            up@.len() == 16,
            vp@.len() == 16,
            skip == (all_zero(yq@) && all_zero(uq@) && all_zero(vq@)),
            yq@ == quant_seq(cy, old(self).dc_dq, old(self).ac_dq),
            uq@ == quant_seq(cu, old(self).dc_dq, old(self).ac_dq),
            vq@ == quant_seq(cv, old(self).dc_dq, old(self).ac_dq),
            cy.len() == 64,
            cu.len() == 16,
            cv.len() == 16,
            bounded(cy, 203727),
            bounded(cu, 9188),
            bounded(cv, 9188),
            yq@.len() == 64,
            uq@.len() == 16,
            vq@.len() == 16,
            forall|i: int| 0 <= i < 64 ==> -203727 <= #[trigger] yq@[i] <= 203727,
            forall|i: int| 0 <= i < 16 ==> -9188 <= #[trigger] uq@[i] <= 9188,
            forall|i: int| 0 <= i < 16 ==> -9188 <= #[trigger] vq@[i] <= 9188,
        ensures
            final(self).wf(),
            final(self).enc.updates_cdf() == old(self).enc.updates_cdf(),
            final(self).width == old(self).width,
            final(self).height == old(self).height,
            final(self).mi_cols == old(self).mi_cols,
            final(self).mi_rows == old(self).mi_rows,
            final(self).src_y == old(self).src_y,
            final(self).src_u == old(self).src_u,
            final(self).src_v == old(self).src_v,
            final(self).ref_y == old(self).ref_y,
            final(self).ref_u == old(self).ref_u,
            final(self).ref_v == old(self).ref_v,
            final(self).dc_dq == old(self).dc_dq,
            final(self).ac_dq == old(self).ac_dq,
            inter_block_done(*old(self), *final(self), bx, by, bl, (use_newmv, mx as int, my as int, pmx as int, pmy as int, cands@, yp@, up@, vp@, yq@, uq@, vq@, skip)),
    {
        let w = self.width;
        let h = self.height;
        let cw = w / 2 + w % 2;
        let chh = h / 2 + h % 2;
        let dc = self.dc_dq;
        let ac = self.ac_dq;
        proof {
            assert(cw == half_up(w as int) && chh == half_up(h as int));
            assert(cw * chh == half_up(w as int) * half_up(h as int));
            assert(bx < 0x4000 && by < 0x4000);
            lemma_txb_result_small(yq@, DEFAULT_SCAN_8X8@);
            lemma_txb_result_small(uq@, DEFAULT_SCAN_4X4@);
            lemma_txb_result_small(vq@, DEFAULT_SCAN_4X4@);
        }
        let (yr, ur, vr) = code_inter_syntax(&mut self.enc, &mut self.cdfs, &self.ctx, bx, by, bl, skip, use_newmv, my - pmy, mx - pmx, cands, yq, uq, vq);
        reconstruct_luma(&mut self.recon_y, w, h, bx, by, yp, TxType::DctDct, yq, dc, ac, Ghost(cy));
        reconstruct_chroma_block(&mut self.recon_u, cw, chh, bx, by, up, uq, dc, ac, Ghost(cu));
        reconstruct_chroma_block(&mut self.recon_v, cw, chh, bx, by, vp, vq, dc, ac, Ghost(cv));
        let mi_cols = self.mi_cols;
        let mi_rows = self.mi_rows;
        store_inter_context(&mut self.ctx, &self.recon_y, &self.recon_u, &self.recon_v, w, h, bx, by, bl, mi_cols, mi_rows, yr, ur, vr, skip, use_newmv);
        let v = BlockMv { mv_x: mx, mv_y: my, ref_frame: 0 };
        fill_mvs(&mut self.block_mvs, mi_cols, mi_rows, bx, by, 2, v);
        proof {
            let m = self.block_mvs@;
            assert forall|i: int| 0 <= i < m.len() implies -192 <= (#[trigger] m[i]).mv_x <= 192 && -192 <= m[i].mv_y <= 192 by {
            }
        }
    }
}

/// The squared error of the first `n` samples of two blocks.
fn sq_err_n(a: &Vec<u8>, b: &Vec<u8>, n: usize) -> (r: u64)
    requires
        n <= 16384,
        a@.len() >= n,
        b@.len() >= n,
    ensures
        r == sq_err(a@, b@, n as int),
{
    let mut acc: u64 = 0;
    let mut i: usize = 0;
    while i < n
        invariant
            i <= n,
            n <= 16384,
            a@.len() >= n,
            b@.len() >= n,
            acc == sq_err(a@, b@, i as int),
            0 <= acc <= i * 65025,
        decreases n - i,
    {
        let d = a[i] as i64 - b[i] as i64;
        assert(d * d <= 65025) by (nonlinear_arith)
            requires
                -255 <= d <= 255,
        ;
        assert(d * d >= 0) by (nonlinear_arith);
        acc = acc + (d * d) as u64;
        i += 1;
    }
    acc
}

/// The mean squared error of the luma samples of the block of level `bl` at
/// `(bx, by)` against the reference at the same place (samples past the
/// picture's edge repeat its last row and column), rounded down.
pub open spec fn inter_skip_mse_spec(t: InterTileEncoder, bx: u32, by: u32, bl: usize) -> int {
    let bs = block_px(bl as int);
    let w = t.width as int;
    let h = t.height as int;
    sq_err(block_at(t.src_y@, w, 4 * bx as int, 4 * by as int, bs, w, h), block_at(t.ref_y@, w, 4 * bx as int, 4 * by as int, bs, w, h), bs * bs) / (bs * bs)
}

/// Whether the block of level `bl` at `(bx, by)` is coded whole as a skipped
/// block: its error against the reference is at most the AC step squared
/// over 64.
pub open spec fn inter_none_spec(t: InterTileEncoder, bx: u32, by: u32, bl: usize) -> bool {
    inter_skip_mse_spec(t, bx, by, bl) <= (t.ac_dq as int * t.ac_dq as int) / 64
}

impl InterTileEncoder {
    /// The mean squared error of the block's luma samples against the reference.
    pub fn inter_skip_mse(&self, bx: u32, by: u32, bl: usize) -> (r: u64)
        requires
            self.wf(),
            bx < self.mi_cols,
            by < self.mi_rows,
            bl <= 4,
        ensures
            r as int == inter_skip_mse_spec(*self, bx, by, bl),
    {
        proof {
            assert(bx < 0x4000 && by < 0x4000);
        }
        let bs: usize = if bl == 0 { 128 } else if bl == 1 { 64 } else if bl == 2 { 32 } else if bl == 3 { 16 } else { 8 };
        let a = block_of(&self.src_y, self.width, self.height, bx * 4, by * 4, bs);
        let b = block_of(&self.ref_y, self.width, self.height, bx * 4, by * 4, bs);
        let sse = sq_err_n(&a, &b, bs * bs);
        sse / (bs * bs) as u64
    }

    /// Whether the block is coded whole as a skipped block.
    pub fn should_use_inter_partition_none(&self, bx: u32, by: u32, bl: usize) -> (r: bool)
        requires
            self.wf(),
            bx < self.mi_cols,
            by < self.mi_rows,
            bl <= 4,
        ensures
            r == inter_none_spec(*self, bx, by, bl),
    {
        let ac = self.ac_dq as u64;
        proof {
            assert(ac * ac <= 0x10000 * 0x10000) by (nonlinear_arith)
                requires
                    ac <= 0x10000,
            ;
        }
        let threshold = (ac * ac) / 64;
        self.inter_skip_mse(bx, by, bl) <= threshold
    }
}

} // verus!
