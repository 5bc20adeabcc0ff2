use vstd::prelude::*;

use crate::dct::TxType;
use vstd::slice::slice_subrange;
use crate::scan::LO_CTX_OFFSETS_2D;
use crate::tile::{eob_bin_spec, eob_to_bin, level_tok, get_hi_mag, get_lo_ctx, txtype_to_intra2_symbol};
use crate::msac::{
    MsacEncoder, MsacModel, store_spec, equi_spec, equi_seq_spec, golomb_bits, update_cdf_spec,
    update_bool_cdf_spec, cdf_valid, lemma_valid_cdf_codes_every_symbol, lemma_update_cdf_keeps_valid,
    lemma_bool_cdf_keeps_valid,
};

verus! {

/// One step of coding a transform block: a bit or a symbol with an adaptive
/// CDF (by its slot in the context), a bit with probability one half, or an
/// Exp-Golomb number.
pub enum CoefOp {
    Bool(usize, bool),
    Symbol(usize, u32, u32),
    Equi(bool),
    Golomb(u32),
}

/// The coder state and the CDFs of the context.
pub type CoderState = (MsacModel, Seq<Seq<u16>>);

/// What one step does to the coder and to the CDFs (adapted when `upd`).
pub open spec fn op_step(st: CoderState, op: CoefOp, upd: bool) -> CoderState {
    let (m, cdfs) = st;
    match op {
        CoefOp::Bool(slot, val) => {
            let c = cdfs[slot as int];
            (
                store_spec(m, if val { c[0] } else { 32768u16 }, if val { 0u16 } else { c[0] }, if val { 1u16 } else { 2u16 }),
                if upd { cdfs.update(slot as int, update_bool_cdf_spec(c, val)) } else { cdfs },
            )
        },
        CoefOp::Symbol(slot, sym, n) => {
            let c = cdfs[slot as int];
            (
                store_spec(
                    m,
                    if sym > 0 { c[sym - 1] } else { 32768u16 },
                    if sym < n { c[sym as int] } else { 0u16 },
                    (n + 1 - sym) as u16,
                ),
                if upd { cdfs.update(slot as int, update_cdf_spec(c, sym, n)) } else { cdfs },
            )
        },
        CoefOp::Equi(val) => (equi_spec(m, val), cdfs),
        CoefOp::Golomb(v) => (equi_seq_spec(m, golomb_bits(v)), cdfs),
    }
}

/// The state after the steps `ops`, in order.
pub open spec fn run_ops(st: CoderState, ops: Seq<CoefOp>, upd: bool) -> CoderState
    decreases ops.len(),
{
    if ops.len() == 0 {
        st
    } else {
        op_step(run_ops(st, ops.drop_last(), upd), ops.last(), upd)
    }
}

/// Running two lists of steps is running their concatenation.
pub proof fn lemma_run_ops_append(st: CoderState, a: Seq<CoefOp>, b: Seq<CoefOp>, upd: bool)
    ensures
        run_ops(st, a + b, upd) == run_ops(run_ops(st, a, upd), b, upd),
    decreases b.len(),
{
    if b.len() == 0 {
        assert(a + b =~= a);
    } else {
        lemma_run_ops_append(st, a, b.drop_last(), upd);
        assert((a + b).drop_last() =~= a + b.drop_last());
        assert((a + b).last() == b.last());
    }
}

// Layout of the CDFs in the context, one family after another.

/// `txb_skip[t_dim][ctx]`: 5 x 13 binary CDFs.
pub const TXB_SKIP_BASE: usize = 0;
/// The binary CDF of the inter transform set.
pub const TXTP_INTER_SLOT: usize = 65;
/// `txtp_intra2[t_dim_min][y_mode]`: 2 x 13 CDFs over 5 symbols.
pub const TXTP_INTRA2_BASE: usize = 66;
/// `eob_bin_16[chroma]`: CDFs over 5 symbols.
pub const EOB_BIN_16_BASE: usize = 92;
/// `eob_bin_64[chroma]`: CDFs over 7 symbols.
pub const EOB_BIN_64_BASE: usize = 94;
/// `eob_hi_bit[t_dim][chroma][k]`: 5 x 2 x 11 binary CDFs.
pub const EOB_HI_BIT_BASE: usize = 96;
/// `eob_base_tok[t_dim][chroma][ctx]`: 5 x 2 x 4 CDFs over 3 symbols.
pub const EOB_BASE_TOK_BASE: usize = 206;
/// `base_tok[t_dim][chroma][ctx]`: 5 x 2 x 41 CDFs over 4 symbols.
pub const BASE_TOK_BASE: usize = 246;
/// `br_tok[t_dim][chroma][ctx]`: 4 x 2 x 21 CDFs over 4 symbols.
pub const BR_TOK_BASE: usize = 656;
/// `dc_sign[chroma][ctx]`: 2 x 3 binary CDFs.
pub const DC_SIGN_BASE: usize = 824;
/// `skip[ctx]`: 3 binary CDFs.
pub const SKIP_BASE: usize = 830;
/// `is_inter[ctx]`: 4 binary CDFs.
pub const IS_INTER_BASE: usize = 833;
/// `single_ref[ctx][k]`: 3 x 7 binary CDFs.
pub const SINGLE_REF_BASE: usize = 837;
/// `newmv[ctx]`: 6 binary CDFs.
pub const NEWMV_BASE: usize = 858;
/// `zeromv[ctx]`: 2 binary CDFs.
pub const ZEROMV_BASE: usize = 864;
/// `kf_y_mode[above][left]`: 5 x 5 CDFs over 13 symbols.
pub const KF_Y_MODE_BASE: usize = 866;
/// `angle_delta[mode - 1]`: 8 CDFs over 7 symbols.
pub const ANGLE_DELTA_BASE: usize = 891;
/// `uv_mode[cfl][y_mode]`: 13 CDFs over 13 symbols without CFL, then 13 over 14 with it.
pub const UV_MODE_BASE: usize = 899;
/// `drl[ctx]`: 3 binary CDFs.
pub const DRL_BASE: usize = 925;
/// The motion-vector joint CDF over 4 symbols.
pub const MV_JOINT_SLOT: usize = 928;
/// The motion-vector component CDFs, 16 per component (vertical first): sign,
/// class (11 symbols), class-0 bit, two class-0 fractions (4 symbols), ten
/// integer bits, and the fraction (4 symbols).
pub const MV_COMP_BASE: usize = 929;
/// `partition[bl][ctx]`: 5 x 4 CDFs, over 10 symbols for levels 0 to 3 and
/// over 4 for level 4.
pub const PARTITION_BASE: usize = 961;
/// Number of CDFs in a context.
pub const CDF_COUNT: usize = 981;

/// The largest symbol of the CDF in slot `s` (1 for a binary CDF).
pub open spec fn slot_symbols(s: int) -> u32 {
    if s < TXTP_INTRA2_BASE {
        1
    } else if s < EOB_BIN_16_BASE {
        4
    } else if s < EOB_BIN_64_BASE {
        4
    } else if s < EOB_HI_BIT_BASE {
        6
    } else if s < EOB_BASE_TOK_BASE {
        1
    } else if s < BASE_TOK_BASE {
        2
    } else if s < DC_SIGN_BASE {
        3
    } else if s < KF_Y_MODE_BASE {
        1
    } else if s < ANGLE_DELTA_BASE {
        12
    } else if s < UV_MODE_BASE {
        6
    } else if s < UV_MODE_BASE + 13 {
        12
    } else if s < DRL_BASE {
        13
    } else if s < MV_JOINT_SLOT {
        1
    } else if s == MV_JOINT_SLOT {
        3
    } else if s < PARTITION_BASE {
        mv_slot_symbols((s - MV_COMP_BASE) % 16)
    } else if s < PARTITION_BASE + 16 {
        9
    } else {
        3
    }
}

/// The largest symbol of the motion-vector component CDF at offset `o`.
pub open spec fn mv_slot_symbols(o: int) -> u32 {
    if o == 1 {
        10
    } else if o == 3 || o == 4 || o == 15 {
        3
    } else {
        1
    }
}

/// Every CDF of the context is well formed for its number of symbols.
pub open spec fn cdfs_valid(cdfs: Seq<Seq<u16>>) -> bool {
    &&& cdfs.len() == CDF_COUNT
    &&& forall|s: int| 0 <= s < CDF_COUNT ==> cdf_valid(#[trigger] cdfs[s], slot_symbols(s))
}

/// A copy of one CDF.
fn copy_cdf(c: &Vec<u16>) -> (r: Vec<u16>)
    ensures
        r@ == c@,
{
    let mut r: Vec<u16> = Vec::new();
    let mut i: usize = 0;
    while i < c.len()
        invariant
            i <= c@.len(),
            r@ == c@.take(i as int),
        decreases c@.len() - i,
    {
        r.push(c[i]);
        i += 1;
        assert(r@ =~= c@.take(i as int));
    }
    assert(c@.take(c@.len() as int) =~= c@);
    r
}

/// Codes a bit with the binary CDF in slot `slot`.
pub(crate) fn code_bool(enc: &mut MsacEncoder, cdfs: &mut Vec<Vec<u16>>, slot: usize, val: bool)
    requires
        old(enc).wf(),
        cdfs_valid(old(cdfs)@.map_values(|c: Vec<u16>| c@)),
        slot < CDF_COUNT,
        slot_symbols(slot as int) == 1,
    ensures
        final(enc).wf(),
        final(enc).updates_cdf() == old(enc).updates_cdf(),
        cdfs_valid(final(cdfs)@.map_values(|c: Vec<u16>| c@)),
        (final(enc).model(), final(cdfs)@.map_values(|c: Vec<u16>| c@)) == op_step(
            (old(enc).model(), old(cdfs)@.map_values(|c: Vec<u16>| c@)),
            CoefOp::Bool(slot, val),
            old(enc).updates_cdf(),
        ),
{
    let ghost before = cdfs@.map_values(|c: Vec<u16>| c@);
    let mut c = copy_cdf(&cdfs[slot]);
    assert(c@ == before[slot as int]);
    assert(cdf_valid(c@, 1));
    proof {
        let m = enc.model();
        lemma_bool_cdf_keeps_valid(m.0, m.1, m.2, c@, val);
    }
    enc.encode_bool(val, c.as_mut_slice());
    cdfs.set(slot, c);
    assert(cdfs@.map_values(|c: Vec<u16>| c@) =~= if enc.updates_cdf() {
        before.update(slot as int, update_bool_cdf_spec(before[slot as int], val))
    } else {
        before
    });
}

/// Codes symbol `sym` with the CDF in slot `slot`, whose largest symbol is `n`.
pub(crate) fn code_symbol(enc: &mut MsacEncoder, cdfs: &mut Vec<Vec<u16>>, slot: usize, sym: u32, n: u32)
    requires
        old(enc).wf(),
        cdfs_valid(old(cdfs)@.map_values(|c: Vec<u16>| c@)),
        slot < CDF_COUNT,
        slot_symbols(slot as int) == n,
        sym <= n,
    ensures
        final(enc).wf(),
        final(enc).updates_cdf() == old(enc).updates_cdf(),
        cdfs_valid(final(cdfs)@.map_values(|c: Vec<u16>| c@)),
        (final(enc).model(), final(cdfs)@.map_values(|c: Vec<u16>| c@)) == op_step(
            (old(enc).model(), old(cdfs)@.map_values(|c: Vec<u16>| c@)),
            CoefOp::Symbol(slot, sym, n),
            old(enc).updates_cdf(),
        ),
{
    let ghost before = cdfs@.map_values(|c: Vec<u16>| c@);
    let mut c = copy_cdf(&cdfs[slot]);
    assert(c@ == before[slot as int]);
    proof {
        let m = enc.model();
        lemma_valid_cdf_codes_every_symbol(m.0, m.1, m.2, c@, sym, n);
        lemma_update_cdf_keeps_valid(c@, sym, n);
    }
    enc.encode_symbol(sym, c.as_mut_slice(), n);
    cdfs.set(slot, c);
    assert(cdfs@.map_values(|c: Vec<u16>| c@) =~= if enc.updates_cdf() {
        before.update(slot as int, update_cdf_spec(before[slot as int], sym, n))
    } else {
        before
    });
}

/// Magnitude of a coefficient.
pub open spec fn mag_of(v: i32) -> int {
    if v < 0 { -(v as int) } else { v as int }
}

/// A magnitude capped at 3, the largest base token.
pub open spec fn cap3(v: int) -> int {
    if v < 3 { v } else { 3 }
}

/// The level token stored for a coefficient magnitude.
pub open spec fn level_tok_spec(m: int) -> u8 {
    if m == 0 { 0 } else if m == 1 { 0x41 } else if m == 2 { 0x82 } else if m < 15 { (m + 0xc0) as u8 } else { 0xcf }
}

/// The last scan position below `k` whose coefficient is not zero, or -1.
pub open spec fn last_nonzero(c: Seq<i32>, sc: Seq<u16>, k: int) -> int
    decreases k,
{
    if k <= 0 {
        -1
    } else if c[sc[k - 1] as int] != 0 {
        k - 1
    } else {
        last_nonzero(c, sc, k - 1)
    }
}

/// The sum of the magnitudes of the coefficients at scan positions below `k`.
pub open spec fn scan_mag_sum(c: Seq<i32>, sc: Seq<u16>, k: int) -> int
    decreases k,
{
    if k <= 0 { 0 } else { scan_mag_sum(c, sc, k - 1) + mag_of(c[sc[k - 1] as int]) }
}

/// Slot of `txb_skip[t][ctx]`.
pub open spec fn txb_skip_slot(t: int, ctx: int) -> int { t * 13 + ctx }
/// Slot of `txtp_intra2[t][mode]`.
pub open spec fn txtp_intra2_slot(t: int, mode: int) -> int { TXTP_INTRA2_BASE + t * 13 + mode }
/// Slot of the end-of-block class CDF.
pub open spec fn eob_bin_slot(small: bool, ch: int) -> int { if small { EOB_BIN_16_BASE + ch } else { EOB_BIN_64_BASE + ch } }
/// Slot of `eob_hi_bit[t][ch][k]`.
pub open spec fn eob_hi_bit_slot(t: int, ch: int, k: int) -> int { EOB_HI_BIT_BASE + (t * 2 + ch) * 11 + k }
/// Slot of `eob_base_tok[t][ch][ctx]`.
pub open spec fn eob_base_slot(t: int, ch: int, ctx: int) -> int { EOB_BASE_TOK_BASE + (t * 2 + ch) * 4 + ctx }
/// Slot of `base_tok[t][ch][ctx]`.
pub open spec fn base_tok_slot(t: int, ch: int, ctx: int) -> int { BASE_TOK_BASE + (t * 2 + ch) * 41 + ctx }
/// Slot of `br_tok[min(t, 3)][ch][ctx]`.
pub open spec fn br_slot(t: int, ch: int, ctx: int) -> int { BR_TOK_BASE + ((if t < 3 { t } else { 3 }) * 2 + ch) * 21 + ctx }
/// Slot of `dc_sign[ch][ctx]`.
pub open spec fn dc_sign_slot(ch: int, ctx: int) -> int { DC_SIGN_BASE + ch * 3 + ctx }

/// The range tokens of a magnitude of at least `base`: up to four symbols
/// of at most 3, stopping after the first one below 3.
pub open spec fn hi_tok_ops(slot: int, level: int, base: int, k: int) -> Seq<CoefOp>
    decreases 4 - k,
{
    if k >= 4 {
        Seq::empty()
    } else {
        let sym = cap3(level - base);
        seq![CoefOp::Symbol(slot as usize, sym as u32, 3)] + if sym < 3 {
            Seq::empty()
        } else {
            hi_tok_ops(slot, level, base + 3, k + 1)
        }
    }
}

/// The level map after the coefficients at scan positions `k..=eob` are
/// stored: their level tokens at their positions, zero elsewhere.
pub open spec fn levels_from(c: Seq<i32>, sc: Seq<u16>, eob: int, k: int, size: int) -> Seq<u8> {
    Seq::new(
        size as nat,
        |p: int| if exists|j: int| k <= j <= eob && sc[j] as int == p { level_tok_spec(mag_of(c[p])) } else { 0 },
    )
}

/// The context of the base token at position `rc` from the level map `lv` of row stride `w`.
pub open spec fn lo_ctx_spec(lv: Seq<u8>, rc: int, w: int) -> int {
    let x = rc % w;
    let y = rc / w;
    let hi = lv[rc + 1] + lv[rc + w] + lv[rc + w + 1];
    let full = hi + lv[rc + 2] + lv[rc + 2 * w];
    LO_CTX_OFFSETS_2D@[if y < 4 { y } else { 4 }]@[if x < 4 { x } else { 4 }] as int + (if full > 512 { 4 } else { (full + 64) / 128 })
}

/// The context of the range tokens at position `rc`, away from the top-left corner.
pub open spec fn hi_ctx_spec(lv: Seq<u8>, rc: int, w: int) -> int {
    let mag = ((lv[rc + 1] + lv[rc + w] + lv[rc + w + 1]) as u32 & 63u32) as int;
    (if rc % w > 1 || rc / w > 1 { 14int } else { 7int }) + (if mag > 12 { 6 } else { (mag + 1) / 2 })
}

/// The tokens of the coefficient at scan position `i`, inside the block.
pub open spec fn pos_ops(c: Seq<i32>, sc: Seq<u16>, eob: int, i: int, w: int, t: int, ch: int) -> Seq<CoefOp> {
    let rc = sc[i] as int;
    let level = mag_of(c[rc]);
    let lv = levels_from(c, sc, eob, i + 1, w * (w + 2));
    seq![CoefOp::Symbol(base_tok_slot(t, ch, lo_ctx_spec(lv, rc, w)) as usize, cap3(level) as u32, 3)] + if level >= 3 {
        hi_tok_ops(br_slot(t, ch, hi_ctx_spec(lv, rc, w)), level, 3, 0)
    } else {
        Seq::empty()
    }
}

/// The tokens of scan positions `eob - 1` down to `k`.
pub open spec fn body_ops(c: Seq<i32>, sc: Seq<u16>, eob: int, k: int, w: int, t: int, ch: int) -> Seq<CoefOp>
    decreases eob - k,
{
    if k >= eob {
        Seq::empty()
    } else {
        body_ops(c, sc, eob, k + 1, w, t, ch) + pos_ops(c, sc, eob, k, w, t, ch)
    }
}

/// The sign and remainder of one coefficient.
pub open spec fn sign_ops(v: i32) -> Seq<CoefOp> {
    (if v != 0 { seq![CoefOp::Equi(v < 0)] } else { Seq::empty() }) + if mag_of(v) >= 15 {
        seq![CoefOp::Golomb((mag_of(v) - 15) as u32)]
    } else {
        Seq::empty()
    }
}

/// Signs and remainders of scan positions `1..k`.
pub open spec fn ac_sign_ops(c: Seq<i32>, sc: Seq<u16>, k: int) -> Seq<CoefOp>
    decreases k,
{
    if k <= 1 {
        Seq::empty()
    } else {
        ac_sign_ops(c, sc, k - 1) + sign_ops(c[sc[k - 1] as int])
    }
}

/// The extra bits of the end-of-block position below its class's top bit:
/// the next bit with an adaptive CDF, the rest at probability one half.
pub open spec fn hi_bit_ops(eob: int, t: int, ch: int) -> Seq<CoefOp> {
    let bin = eob_bin_spec(eob);
    if bin >= 2 {
        seq![CoefOp::Bool(eob_hi_bit_slot(t, ch, bin - 2) as usize, ((eob as usize) >> ((bin - 2) as usize)) & 1 != 0)]
            + Seq::new(
            (bin - 2) as nat,
            |k: int| CoefOp::Equi(((eob as usize) >> ((bin - 3 - k) as usize)) & 1 != 0),
        )
    } else {
        Seq::empty()
    }
}

/// The skip flag, the transform type (luma only) and the end-of-block position.
pub open spec fn head_ops(eob: int, small: bool, is_chroma: bool, is_inter: bool, t: int, skip_ctx: int, y_mode: int, tx: TxType) -> Seq<CoefOp> {
    let ch: int = if is_chroma { 1 } else { 0 };
    let type_ops = if is_chroma {
        Seq::empty()
    } else if is_inter {
        seq![CoefOp::Bool(TXTP_INTER_SLOT, true)]
    } else {
        seq![CoefOp::Symbol(txtp_intra2_slot(if small { 0 } else { 1 }, y_mode) as usize, txtype_symbol(tx), 4)]
    };
    seq![CoefOp::Bool(txb_skip_slot(t, skip_ctx) as usize, false)] + type_ops + seq![
        CoefOp::Symbol(eob_bin_slot(small, ch) as usize, eob_bin_spec(eob) as u32, if small { 4 } else { 6 }),
    ] + hi_bit_ops(eob, t, ch)
}

/// The token of the coefficient at the end of the block.
pub open spec fn eob_tok_ops(c: Seq<i32>, sc: Seq<u16>, eob: int, small: bool, t: int, ch: int) -> Seq<CoefOp> {
    let w: int = if small { 4 } else { 8 };
    let rc = sc[eob] as int;
    let level = mag_of(c[rc]);
    let ctx = if eob == 0 {
        0
    } else {
        1 + (if eob > (if small { 2int } else { 8 }) { 1int } else { 0 }) + (if eob > (if small { 4int } else { 16 }) { 1int } else { 0 })
    };
    let hi_ctx = if eob == 0 { 0 } else if rc % w > 1 || rc / w > 1 { 14int } else { 7 };
    seq![CoefOp::Symbol(eob_base_slot(t, ch, ctx) as usize, (if cap3(level) >= 3 { 2 } else { cap3(level) - 1 }) as u32, 2)]
        + if level >= 3 { hi_tok_ops(br_slot(t, ch, hi_ctx), level, 3, 0) } else { Seq::empty() }
}

/// The token of the DC coefficient, coded last when the block has more than one position.
pub open spec fn dc_tok_ops(c: Seq<i32>, sc: Seq<u16>, eob: int, w: int, t: int, ch: int) -> Seq<CoefOp> {
    let lv = levels_from(c, sc, eob, 1, w * (w + 2));
    let mag = ((lv[1] + lv[w] + lv[w + 1]) as u32 & 63u32) as int;
    let level = mag_of(c[0]);
    if eob > 0 {
        seq![CoefOp::Symbol(base_tok_slot(t, ch, 0) as usize, cap3(level) as u32, 3)] + if level >= 3 {
            hi_tok_ops(br_slot(t, ch, if mag > 12 { 6 } else { (mag + 1) / 2 }), level, 3, 0)
        } else {
            Seq::empty()
        }
    } else {
        Seq::empty()
    }
}

/// The sign of the DC coefficient with an adaptive CDF, and its remainder.
pub open spec fn dc_sign_ops(c: Seq<i32>, ch: int, sign_ctx: int) -> Seq<CoefOp> {
    let level = mag_of(c[0]);
    (if c[0] != 0 { seq![CoefOp::Bool(dc_sign_slot(ch, sign_ctx) as usize, c[0] < 0)] } else { Seq::empty() })
        + if level >= 15 { seq![CoefOp::Golomb((level - 15) as u32)] } else { Seq::empty() }
}

/// Everything a transform block with at least one coefficient codes: the
/// skip flag, the transform type, the end of block, the tokens from the end
/// of block backwards, the DC token, then the signs and remainders.
pub open spec fn coef_ops(
    c: Seq<i32>,
    sc: Seq<u16>,
    is_chroma: bool,
    is_inter: bool,
    t: int,
    skip_ctx: int,
    sign_ctx: int,
    y_mode: int,
    tx: TxType,
) -> Seq<CoefOp> {
    let n = sc.len() as int;
    let small = n == 16;
    let w: int = if small { 4 } else { 8 };
    let ch: int = if is_chroma { 1 } else { 0 };
    let eob = last_nonzero(c, sc, n);
    head_ops(eob, small, is_chroma, is_inter, t, skip_ctx, y_mode, tx) + eob_tok_ops(c, sc, eob, small, t, ch)
        + body_ops(c, sc, eob, 1, w, t, ch) + dc_tok_ops(c, sc, eob, w, t, ch) + dc_sign_ops(c, ch, sign_ctx)
        + ac_sign_ops(c, sc, eob + 1)
}

/// The symbol of an intra transform type.
pub open spec fn txtype_symbol(tx: TxType) -> u32 {
    match tx {
        TxType::Idtx => 0,
        TxType::DctDct => 1,
        TxType::AdstAdst => 2,
        TxType::AdstDct => 3,
        TxType::DctAdst => 4,
    }
}

/// The coder state of an encoder and a context of CDFs.
pub open spec fn state_of(enc: MsacEncoder, cdfs: Seq<Vec<u16>>) -> CoderState {
    (enc.model(), cdfs.map_values(|c: Vec<u16>| c@))
}

/// One more step after a list of steps.
pub(crate) proof fn lemma_run_push(st: CoderState, done: Seq<CoefOp>, op: CoefOp, upd: bool)
    ensures
        run_ops(st, done.push(op), upd) == op_step(run_ops(st, done, upd), op, upd),
{
    assert(done.push(op).drop_last() =~= done);
}

/// Codes a bit with probability one half.
fn code_equi(enc: &mut MsacEncoder, cdfs: &Vec<Vec<u16>>, val: bool)
    requires
        old(enc).wf(),
    ensures
        final(enc).wf(),
        final(enc).updates_cdf() == old(enc).updates_cdf(),
        state_of(*final(enc), cdfs@) == op_step(state_of(*old(enc), cdfs@), CoefOp::Equi(val), old(enc).updates_cdf()),
{
    enc.encode_bool_equi(val);
}

/// Codes an Exp-Golomb number.
fn code_golomb(enc: &mut MsacEncoder, cdfs: &Vec<Vec<u16>>, val: u32)
    requires
        old(enc).wf(),
        val < u32::MAX,
    ensures
        final(enc).wf(),
        final(enc).updates_cdf() == old(enc).updates_cdf(),
        state_of(*final(enc), cdfs@) == op_step(state_of(*old(enc), cdfs@), CoefOp::Golomb(val), old(enc).updates_cdf()),
{
    enc.encode_golomb(val);
}

/// Codes the range tokens of `level` from `base` on, in the CDF at `slot`.
fn encode_hi_tok_from(enc: &mut MsacEncoder, cdfs: &mut Vec<Vec<u16>>, slot: usize, level: u32, base: u32, k: u32)
    requires
        old(enc).wf(),
        cdfs_valid(old(cdfs)@.map_values(|c: Vec<u16>| c@)),
        BR_TOK_BASE <= slot < DC_SIGN_BASE,
        k <= 4,
        base == 3 + 3 * k,
        level >= base,
    ensures
        final(enc).wf(),
        final(enc).updates_cdf() == old(enc).updates_cdf(),
        cdfs_valid(final(cdfs)@.map_values(|c: Vec<u16>| c@)),
        state_of(*final(enc), final(cdfs)@) == run_ops(
            state_of(*old(enc), old(cdfs)@),
            hi_tok_ops(slot as int, level as int, base as int, k as int),
            old(enc).updates_cdf(),
        ),
    decreases 4 - k,
{
    let ghost st0 = state_of(*enc, cdfs@);
    let ghost upd = enc.updates_cdf();
    if k >= 4 {
        return;
    }
    let sym: u32 = if level - base < 3 { level - base } else { 3 };
    let ghost op = CoefOp::Symbol(slot, sym, 3);
    code_symbol(enc, cdfs, slot, sym, 3);
    proof {
        lemma_run_push(st0, Seq::empty(), op, upd);
        assert(Seq::<CoefOp>::empty().push(op) =~= seq![op]);
    }
    if sym < 3 {
        assert(hi_tok_ops(slot as int, level as int, base as int, k as int) =~= seq![op]);
        return;
    }
    encode_hi_tok_from(enc, cdfs, slot, level, base + 3, k + 1);
    proof {
        let rest = hi_tok_ops(slot as int, level as int, base + 3, k + 1);
        assert(hi_tok_ops(slot as int, level as int, base as int, k as int) =~= seq![op] + rest);
        lemma_run_ops_append(st0, seq![op], rest, upd);
    }
}

/// The magnitude of a coefficient.
fn mag_u32(v: i32) -> (r: u32)
    ensures
        r as int == mag_of(v),
{
    if v < 0 {
        (0 - (v as i64)) as u32
    } else {
        v as u32
    }
}

/// A level map of `size` zeros.
fn zero_levels(size: usize) -> (r: Vec<u8>)
    ensures
        r@ == Seq::new(size as nat, |p: int| 0u8),
{
    let mut r: Vec<u8> = Vec::new();
    let mut i: usize = 0;
    while i < size
        invariant
            i <= size,
            r@ == Seq::new(i as nat, |p: int| 0u8),
        decreases size - i,
    {
        r.push(0);
        i += 1;
        assert(r@ =~= Seq::new(i as nat, |p: int| 0u8));
    }
    r
}

/// The scan table is a permutation of the block's positions.
pub open spec fn scan_ok(sc: Seq<u16>) -> bool {
    &&& sc.len() == 16 || sc.len() == 64
    &&& forall|i: int| 0 <= i < sc.len() ==> (#[trigger] sc[i] as int) < sc.len()
    &&& forall|i: int, j: int| 0 <= i < j < sc.len() ==> #[trigger] sc[i] != #[trigger] sc[j]
}

proof fn lemma_last_nonzero_range(c: Seq<i32>, sc: Seq<u16>, k: int)
    requires
        0 <= k,
    ensures
        -1 <= last_nonzero(c, sc, k) < k,
        last_nonzero(c, sc, k) >= 0 ==> c[sc[last_nonzero(c, sc, k)] as int] != 0,
        forall|j: int| last_nonzero(c, sc, k) < j < k ==> c[#[trigger] sc[j] as int] == 0,
    decreases k,
{
    if k > 0 {
        lemma_last_nonzero_range(c, sc, k - 1);
    }
}

proof fn lemma_scan_mag_sum_mono(c: Seq<i32>, sc: Seq<u16>, a: int, b: int)
    requires
        0 <= a <= b,
    ensures
        0 <= scan_mag_sum(c, sc, a) <= scan_mag_sum(c, sc, b),
    decreases b,
{
    if a < b {
        lemma_scan_mag_sum_mono(c, sc, a, b - 1);
    } else if a > 0 {
        lemma_scan_mag_sum_mono(c, sc, a - 1, a - 1);
    }
}

/// Codes the extra bits of the end-of-block position.
fn code_hi_bits(enc: &mut MsacEncoder, cdfs: &mut Vec<Vec<u16>>, eob: usize, t: usize, ch: usize)
    requires
        old(enc).wf(),
        cdfs_valid(old(cdfs)@.map_values(|c: Vec<u16>| c@)),
        eob < 64,
        t < 5,
        ch < 2,
    ensures
        final(enc).wf(),
        final(enc).updates_cdf() == old(enc).updates_cdf(),
        cdfs_valid(final(cdfs)@.map_values(|c: Vec<u16>| c@)),
        state_of(*final(enc), final(cdfs)@) == run_ops(
            state_of(*old(enc), old(cdfs)@),
            hi_bit_ops(eob as int, t as int, ch as int),
            old(enc).updates_cdf(),
        ),
{
    let ghost st0 = state_of(*enc, cdfs@);
    let ghost upd = enc.updates_cdf();
    let bin = eob_to_bin(eob);
    if bin < 2 {
        assert(hi_bit_ops(eob as int, t as int, ch as int) =~= Seq::<CoefOp>::empty());
        return;
    }
    let extra = bin - 2;
    let hi_bit = (eob >> extra) & 1;
    let hslot = EOB_HI_BIT_BASE + (t * 2 + ch) * 11 + extra;
    code_bool(enc, cdfs, hslot, hi_bit != 0);
    let ghost mid = seq![CoefOp::Bool(hslot, hi_bit != 0)];
    proof {
        lemma_run_push(st0, Seq::empty(), CoefOp::Bool(hslot, hi_bit != 0), upd);
        assert(Seq::<CoefOp>::empty().push(CoefOp::Bool(hslot, hi_bit != 0)) =~= mid);
    }
    let ghost mut done: Seq<CoefOp> = mid;
    let mut k: usize = 0;
    while k < extra
        invariant
            k <= extra,
            extra + 2 == bin,
            extra <= 6,
            enc.wf(),
            enc.updates_cdf() == upd,
            cdfs_valid(cdfs@.map_values(|c: Vec<u16>| c@)),
            done == mid + Seq::new(k as nat, |j: int| CoefOp::Equi(((eob as usize) >> ((bin - 3 - j) as usize)) & 1 != 0)),
            state_of(*enc, cdfs@) == run_ops(st0, done, upd),
        decreases extra - k,
    {
        let b = (eob >> (extra - 1 - k)) & 1 != 0;
        code_equi(enc, cdfs, b);
        proof {
            lemma_run_push(st0, done, CoefOp::Equi(b), upd);
            done = done.push(CoefOp::Equi(b));
            assert(done =~= mid + Seq::new((k + 1) as nat, |j: int| CoefOp::Equi(((eob as usize) >> ((bin - 3 - j) as usize)) & 1 != 0)));
        }
        k += 1;
    }
    assert(done =~= hi_bit_ops(eob as int, t as int, ch as int));
}

/// Codes the skip flag, the transform type and the end-of-block position.
#[verifier::rlimit(40)]
fn code_head(
    enc: &mut MsacEncoder,
    cdfs: &mut Vec<Vec<u16>>,
    eob: usize,
    small: bool,
    is_chroma: bool,
    is_inter: bool,
    t: usize,
    skip_ctx: usize,
    y_mode: u8,
    tx: TxType,
)
    requires
        old(enc).wf(),
        cdfs_valid(old(cdfs)@.map_values(|c: Vec<u16>| c@)),
        eob < (if small { 16usize } else { 64 }),
        t < 5,
        skip_ctx < 13,
        !is_chroma && !is_inter ==> y_mode < 13,
    ensures
        final(enc).wf(),
        final(enc).updates_cdf() == old(enc).updates_cdf(),
        cdfs_valid(final(cdfs)@.map_values(|c: Vec<u16>| c@)),
        state_of(*final(enc), final(cdfs)@) == run_ops(
            state_of(*old(enc), old(cdfs)@),
            head_ops(eob as int, small, is_chroma, is_inter, t as int, skip_ctx as int, y_mode as int, tx),
            old(enc).updates_cdf(),
        ),
{
    let ghost st0 = state_of(*enc, cdfs@);
    let ghost upd = enc.updates_cdf();
    let ch: usize = if is_chroma { 1 } else { 0 };
    let op0 = t * 13 + skip_ctx;
    code_bool(enc, cdfs, op0, false);
    let ghost mut done: Seq<CoefOp> = seq![CoefOp::Bool(op0, false)];
    proof {
        lemma_run_push(st0, Seq::empty(), CoefOp::Bool(op0, false), upd);
        assert(Seq::<CoefOp>::empty().push(CoefOp::Bool(op0, false)) =~= done);
    }
    if !is_chroma {
        if is_inter {
            code_bool(enc, cdfs, TXTP_INTER_SLOT, true);
            proof {
                lemma_run_push(st0, done, CoefOp::Bool(TXTP_INTER_SLOT, true), upd);
                done = done.push(CoefOp::Bool(TXTP_INTER_SLOT, true));
            }
        } else {
            let tmin: usize = if small { 0 } else { 1 };
            let sym = txtype_to_intra2_symbol(tx);
            assert(sym == txtype_symbol(tx));
            let slot = TXTP_INTRA2_BASE + tmin * 13 + y_mode as usize;
            code_symbol(enc, cdfs, slot, sym, 4);
            proof {
                lemma_run_push(st0, done, CoefOp::Symbol(slot, sym, 4), upd);
                done = done.push(CoefOp::Symbol(slot, sym, 4));
            }
        }
    }
    let bin = eob_to_bin(eob);
    let nsyms: u32 = if small { 4 } else { 6 };
    let bslot = if small { EOB_BIN_16_BASE + ch } else { EOB_BIN_64_BASE + ch };
    code_symbol(enc, cdfs, bslot, bin as u32, nsyms);
    proof {
        lemma_run_push(st0, done, CoefOp::Symbol(bslot, bin as u32, nsyms), upd);
        done = done.push(CoefOp::Symbol(bslot, bin as u32, nsyms));
    }
    code_hi_bits(enc, cdfs, eob, t, ch);
    proof {
        lemma_run_ops_append(st0, done, hi_bit_ops(eob as int, t as int, ch as int), upd);
        assert(done + hi_bit_ops(eob as int, t as int, ch as int) =~= head_ops(
            eob as int,
            small,
            is_chroma,
            is_inter,
            t as int,
            skip_ctx as int,
            y_mode as int,
            tx,
        ));
    }
}

/// The slot of `br_tok[min(t, 3)][ch][ctx]`.
fn br_slot_of(t: usize, ch: usize, ctx: usize) -> (r: usize)
    requires
        t < 5,
        ch < 2,
        ctx < 21,
    ensures
        r as int == br_slot(t as int, ch as int, ctx as int),
        BR_TOK_BASE <= r < DC_SIGN_BASE,
{
    let tt: usize = if t < 3 { t } else { 3 };
    BR_TOK_BASE + (tt * 2 + ch) * 21 + ctx
}

/// Codes the token of the coefficient at the end of the block.
fn code_eob_tok(
    enc: &mut MsacEncoder,
    cdfs: &mut Vec<Vec<u16>>,
    coeffs: &[i32],
    scan: &[u16],
    eob: usize,
    small: bool,
    t: usize,
    ch: usize,
)
    requires
        old(enc).wf(),
        cdfs_valid(old(cdfs)@.map_values(|c: Vec<u16>| c@)),
        scan_ok(scan@),
        small <==> scan@.len() == 16,
        coeffs@.len() >= scan@.len(),
        eob < scan@.len(),
        coeffs@[scan@[eob as int] as int] != 0,
        t < 5,
        ch < 2,
    ensures
        final(enc).wf(),
        final(enc).updates_cdf() == old(enc).updates_cdf(),
        cdfs_valid(final(cdfs)@.map_values(|c: Vec<u16>| c@)),
        state_of(*final(enc), final(cdfs)@) == run_ops(
            state_of(*old(enc), old(cdfs)@),
            eob_tok_ops(coeffs@, scan@, eob as int, small, t as int, ch as int),
            old(enc).updates_cdf(),
        ),
{
    let ghost st0 = state_of(*enc, cdfs@);
    let ghost upd = enc.updates_cdf();
    let w: usize = if small { 4 } else { 8 };
    let rc = scan[eob] as usize;
    let level = mag_u32(coeffs[rc]);
    let tok: u32 = if level < 3 { level } else { 3 };
    let base: u32 = if tok >= 3 { 2 } else { tok - 1 };
    let th1: usize = if small { 2 } else { 8 };
    let th2: usize = if small { 4 } else { 16 };
    let ctx: usize = if eob == 0 { 0 } else { 1 + (if eob > th1 { 1 } else { 0 }) + (if eob > th2 { 1 } else { 0 }) };
    let slot = EOB_BASE_TOK_BASE + (t * 2 + ch) * 4 + ctx;
    code_symbol(enc, cdfs, slot, base, 2);
    let ghost op = CoefOp::Symbol(slot, base, 2);
    proof {
        lemma_run_push(st0, Seq::empty(), op, upd);
        assert(Seq::<CoefOp>::empty().push(op) =~= seq![op]);
    }
    if level >= 3 {
        let hi_ctx: usize = if eob == 0 { 0 } else if rc % w > 1 || rc / w > 1 { 14 } else { 7 };
        let bslot = br_slot_of(t, ch, hi_ctx);
        encode_hi_tok_from(enc, cdfs, bslot, level, 3, 0);
        proof {
            lemma_run_ops_append(st0, seq![op], hi_tok_ops(bslot as int, level as int, 3, 0), upd);
            assert(eob_tok_ops(coeffs@, scan@, eob as int, small, t as int, ch as int) =~= seq![op] + hi_tok_ops(
                bslot as int,
                level as int,
                3,
                0,
            ));
        }
    } else {
        assert(eob_tok_ops(coeffs@, scan@, eob as int, small, t as int, ch as int) =~= seq![op]);
    }
}

/// Codes the sign and remainder of the DC coefficient.
fn code_dc_sign(enc: &mut MsacEncoder, cdfs: &mut Vec<Vec<u16>>, dc: i32, ch: usize, sign_ctx: usize)
    requires
        old(enc).wf(),
        cdfs_valid(old(cdfs)@.map_values(|c: Vec<u16>| c@)),
        ch < 2,
        sign_ctx < 3,
    ensures
        final(enc).wf(),
        final(enc).updates_cdf() == old(enc).updates_cdf(),
        cdfs_valid(final(cdfs)@.map_values(|c: Vec<u16>| c@)),
        state_of(*final(enc), final(cdfs)@) == run_ops(
            state_of(*old(enc), old(cdfs)@),
            dc_sign_ops(seq![dc], ch as int, sign_ctx as int),
            old(enc).updates_cdf(),
        ),
{
    let ghost st0 = state_of(*enc, cdfs@);
    let ghost upd = enc.updates_cdf();
    let ghost mut done: Seq<CoefOp> = Seq::empty();
    if dc != 0 {
        let slot = DC_SIGN_BASE + ch * 3 + sign_ctx;
        code_bool(enc, cdfs, slot, dc < 0);
        proof {
            lemma_run_push(st0, done, CoefOp::Bool(slot, dc < 0), upd);
            done = done.push(CoefOp::Bool(slot, dc < 0));
        }
    }
    let m = mag_u32(dc);
    if m >= 15 {
        code_golomb(enc, cdfs, m - 15);
        proof {
            lemma_run_push(st0, done, CoefOp::Golomb((m - 15) as u32), upd);
            done = done.push(CoefOp::Golomb((m - 15) as u32));
        }
    }
    assert(done =~= dc_sign_ops(seq![dc], ch as int, sign_ctx as int));
}

/// Codes the signs and remainders of scan positions `1..=eob`.
fn code_ac_signs(enc: &mut MsacEncoder, cdfs: &Vec<Vec<u16>>, coeffs: &[i32], scan: &[u16], eob: usize)
    requires
        old(enc).wf(),
        scan_ok(scan@),
        coeffs@.len() >= scan@.len(),
        eob < scan@.len(),
    ensures
        final(enc).wf(),
        final(enc).updates_cdf() == old(enc).updates_cdf(),
        state_of(*final(enc), cdfs@) == run_ops(
            state_of(*old(enc), cdfs@),
            ac_sign_ops(coeffs@, scan@, eob + 1),
            old(enc).updates_cdf(),
        ),
{
    let ghost st0 = state_of(*enc, cdfs@);
    let ghost upd = enc.updates_cdf();
    let mut j: usize = 1;
    while j <= eob
        invariant
            1 <= j <= eob + 1,
            eob < scan@.len(),
            scan_ok(scan@),
            coeffs@.len() >= scan@.len(),
            enc.wf(),
            enc.updates_cdf() == upd,
            state_of(*enc, cdfs@) == run_ops(st0, ac_sign_ops(coeffs@, scan@, j as int), upd),
        decreases eob + 1 - j,
    {
        let ghost before = ac_sign_ops(coeffs@, scan@, j as int);
        let rc = scan[j] as usize;
        let v = coeffs[rc];
        let ghost mut done = before;
        if v != 0 {
            code_equi(enc, cdfs, v < 0);
            proof {
                lemma_run_push(st0, done, CoefOp::Equi(v < 0), upd);
                done = done.push(CoefOp::Equi(v < 0));
            }
        }
        let m = mag_u32(v);
        if m >= 15 {
            code_golomb(enc, cdfs, m - 15);
            proof {
                lemma_run_push(st0, done, CoefOp::Golomb((m - 15) as u32), upd);
                done = done.push(CoefOp::Golomb((m - 15) as u32));
            }
        }
        assert(done =~= before + sign_ops(v));
        j += 1;
        assert(ac_sign_ops(coeffs@, scan@, j as int) == before + sign_ops(coeffs@[scan@[(j - 1) as int] as int]));
    }
}

/// The offsets of the base-token contexts are at most 21.
proof fn lemma_lo_offsets_bound(y: int, x: int)
    requires
        0 <= y < 5,
        0 <= x < 5,
    ensures
        LO_CTX_OFFSETS_2D@[y]@[x] <= 21,
{
    assert(LO_CTX_OFFSETS_2D@[0]@ =~= seq![0u8, 1, 6, 6, 21]);
    assert(LO_CTX_OFFSETS_2D@[1]@ =~= seq![1u8, 6, 6, 21, 21]);
    assert(LO_CTX_OFFSETS_2D@[2]@ =~= seq![6u8, 6, 21, 21, 21]);
    assert(LO_CTX_OFFSETS_2D@[3]@ =~= seq![6u8, 21, 21, 21, 21]);
    assert(LO_CTX_OFFSETS_2D@[4]@ =~= seq![21u8, 21, 21, 21, 21]);
}

/// Codes the tokens of scan positions `eob - 1` down to 1, storing each
/// coded level in the level map.
#[verifier::rlimit(100)]
#[verifier::spinoff_prover]
fn code_body(
    enc: &mut MsacEncoder,
    cdfs: &mut Vec<Vec<u16>>,
    levels: &mut Vec<u8>,
    coeffs: &[i32],
    scan: &[u16],
    eob: usize,
    small: bool,
    t: usize,
    ch: usize,
)
    requires
        old(enc).wf(),
        cdfs_valid(old(cdfs)@.map_values(|c: Vec<u16>| c@)),
        scan_ok(scan@),
        small <==> scan@.len() == 16,
        coeffs@.len() >= scan@.len(),
        eob < scan@.len(),
        t < 5,
        ch < 2,
        old(levels)@ == levels_from(coeffs@, scan@, eob as int, eob as int, if small { 24 } else { 80 }),
    ensures
        final(enc).wf(),
        final(enc).updates_cdf() == old(enc).updates_cdf(),
        cdfs_valid(final(cdfs)@.map_values(|c: Vec<u16>| c@)),
        eob > 0 ==> final(levels)@ == levels_from(coeffs@, scan@, eob as int, 1, if small { 24 } else { 80 }),
        state_of(*final(enc), final(cdfs)@) == run_ops(
            state_of(*old(enc), old(cdfs)@),
            body_ops(coeffs@, scan@, eob as int, 1, if small { 4 } else { 8 }, t as int, ch as int),
            old(enc).updates_cdf(),
        ),
{
    let ghost st0 = state_of(*enc, cdfs@);
    let ghost upd = enc.updates_cdf();
    let w: usize = if small { 4 } else { 8 };
    let size: usize = if small { 24 } else { 80 };
    let n = scan.len();
    let mut i = eob;
    while i > 1
        invariant
            i <= eob,
            eob < n,
            n == scan@.len(),
            w == (if small { 4usize } else { 8 }),
            size == w * (w + 2),
            small <==> n == 16,
            n == w * w,
            scan_ok(scan@),
            coeffs@.len() >= n,
            t < 5,
            ch < 2,
            enc.wf(),
            enc.updates_cdf() == upd,
            cdfs_valid(cdfs@.map_values(|c: Vec<u16>| c@)),
            eob > 0 ==> i >= 1,
            levels@ == levels_from(coeffs@, scan@, eob as int, i as int, size as int),
            state_of(*enc, cdfs@) == run_ops(st0, body_ops(coeffs@, scan@, eob as int, i as int, w as int, t as int, ch as int), upd),
        decreases i,
    {
        let pos = i - 1;
        let ghost before = body_ops(coeffs@, scan@, eob as int, i as int, w as int, t as int, ch as int);
        let ghost lv = levels@;
        let rc = scan[pos] as usize;
        assert(rc < n);
        let x = rc % w;
        let y = rc / w;
        let level = mag_u32(coeffs[rc]);
        assert(rc + 2 * w < size) by (nonlinear_arith)
            requires
                rc < w * w,
                size == w * (w + 2),
        ;
        let sub = slice_subrange(levels.as_slice(), rc, size);
        let (ctx, _hi) = get_lo_ctx(sub, w, x, y);
        proof {
            lemma_lo_offsets_bound(if y < 4 { y as int } else { 4 }, if x < 4 { x as int } else { 4 });
            assert(sub@[1] == lv[rc + 1] && sub@[w as int] == lv[rc + w] && sub@[w + 1] == lv[rc + w + 1]);
            assert(sub@[2] == lv[rc + 2] && sub@[2 * w] == lv[rc + 2 * w]);
            assert(ctx as int == lo_ctx_spec(lv, rc as int, w as int));
        }
        let tok: u32 = if level < 3 { level } else { 3 };
        let slot = BASE_TOK_BASE + (t * 2 + ch) * 41 + ctx;
        code_symbol(enc, cdfs, slot, tok, 3);
        let ghost op = CoefOp::Symbol(slot, tok, 3);
        proof {
            lemma_run_push(st0, before, op, upd);
        }
        let ghost mut done = before.push(op);
        if level >= 3 {
            let hm = get_hi_mag(sub, w);
            let mag = hm & 63;
            assert(mag <= 63) by (bit_vector)
                requires
                    mag == hm & 63,
            ;
            let hi_ctx: usize = (if x > 1 || y > 1 { 14 } else { 7 }) + (if mag > 12 { 6 } else { ((mag + 1) / 2) as usize });
            assert(hi_ctx as int == hi_ctx_spec(lv, rc as int, w as int));
            let bslot = br_slot_of(t, ch, hi_ctx);
            encode_hi_tok_from(enc, cdfs, bslot, level, 3, 0);
            proof {
                lemma_run_ops_append(st0, done, hi_tok_ops(bslot as int, level as int, 3, 0), upd);
                done = done + hi_tok_ops(bslot as int, level as int, 3, 0);
            }
        }
        proof {
            assert(done =~= before + pos_ops(coeffs@, scan@, eob as int, pos as int, w as int, t as int, ch as int));
        }
        let lt = level_tok(level);
        levels.set(rc, lt);
        proof {
            let target = levels_from(coeffs@, scan@, eob as int, pos as int, size as int);
            assert forall|p: int| 0 <= p < size implies levels@[p] == #[trigger] target[p] by {
                if p == rc {
                    assert(pos <= pos <= eob && scan@[pos as int] as int == p);
                } else {
                    if exists|j: int| pos <= j <= eob && scan@[j] as int == p {
                        let j = choose|j: int| pos <= j <= eob && scan@[j] as int == p;
                        assert(j != pos);
                        assert(pos + 1 <= j <= eob && scan@[j] as int == p);
                    }
                    if exists|j: int| pos + 1 <= j <= eob && scan@[j] as int == p {
                        let j = choose|j: int| pos + 1 <= j <= eob && scan@[j] as int == p;
                        assert(pos <= j <= eob && scan@[j] as int == p);
                    }
                }
            }
            assert(levels@ =~= target);
        }
        i = pos;
    }
    proof {
        if eob == 0 {
            assert(body_ops(coeffs@, scan@, 0, 0, w as int, t as int, ch as int) =~= Seq::<CoefOp>::empty());
        }
    }
}

/// Codes the token of the DC coefficient when the block has more than one position.
fn code_dc_tok(
    enc: &mut MsacEncoder,
    cdfs: &mut Vec<Vec<u16>>,
    levels: &Vec<u8>,
    coeffs: &[i32],
    scan: &[u16],
    eob: usize,
    small: bool,
    t: usize,
    ch: usize,
)
    requires
        old(enc).wf(),
        cdfs_valid(old(cdfs)@.map_values(|c: Vec<u16>| c@)),
        small <==> scan@.len() == 16,
        scan@.len() == 16 || scan@.len() == 64,
        coeffs@.len() >= scan@.len(),
        t < 5,
        ch < 2,
        eob > 0 ==> levels@ == levels_from(coeffs@, scan@, eob as int, 1, if small { 24 } else { 80 }),
    ensures
        final(enc).wf(),
        final(enc).updates_cdf() == old(enc).updates_cdf(),
        cdfs_valid(final(cdfs)@.map_values(|c: Vec<u16>| c@)),
        state_of(*final(enc), final(cdfs)@) == run_ops(
            state_of(*old(enc), old(cdfs)@),
            dc_tok_ops(coeffs@, scan@, eob as int, if small { 4 } else { 8 }, t as int, ch as int),
            old(enc).updates_cdf(),
        ),
{
    let ghost st0 = state_of(*enc, cdfs@);
    let ghost upd = enc.updates_cdf();
    let w: usize = if small { 4 } else { 8 };
    if eob == 0 {
        assert(dc_tok_ops(coeffs@, scan@, 0, w as int, t as int, ch as int) =~= Seq::<CoefOp>::empty());
        return;
    }
    let level = mag_u32(coeffs[0]);
    let tok: u32 = if level < 3 { level } else { 3 };
    let slot = BASE_TOK_BASE + (t * 2 + ch) * 41;
    code_symbol(enc, cdfs, slot, tok, 3);
    let ghost op = CoefOp::Symbol(slot, tok, 3);
    proof {
        lemma_run_push(st0, Seq::empty(), op, upd);
        assert(Seq::<CoefOp>::empty().push(op) =~= seq![op]);
    }
    if level >= 3 {
        let hm = get_hi_mag(levels.as_slice(), w);
        let mag = hm & 63;
        assert(mag <= 63) by (bit_vector)
            requires
                mag == hm & 63,
        ;
        let hi_ctx: usize = if mag > 12 { 6 } else { ((mag + 1) / 2) as usize };
        let bslot = br_slot_of(t, ch, hi_ctx);
        encode_hi_tok_from(enc, cdfs, bslot, level, 3, 0);
        proof {
            lemma_run_ops_append(st0, seq![op], hi_tok_ops(bslot as int, level as int, 3, 0), upd);
            assert(dc_tok_ops(coeffs@, scan@, eob as int, w as int, t as int, ch as int) =~= seq![op] + hi_tok_ops(
                bslot as int,
                level as int,
                3,
                0,
            ));
        }
    } else {
        assert(dc_tok_ops(coeffs@, scan@, eob as int, w as int, t as int, ch as int) =~= seq![op]);
    }
}

/// The last scan position whose coefficient is not zero.
fn find_eob(coeffs: &[i32], scan: &[u16]) -> (r: Option<usize>)
    requires
        scan_ok(scan@),
        coeffs@.len() >= scan@.len(),
    ensures
        match r {
            Some(e) => e as int == last_nonzero(coeffs@, scan@, scan@.len() as int) && e < scan@.len(),
            None => last_nonzero(coeffs@, scan@, scan@.len() as int) == -1,
        },
{
    let n = scan.len();
    let mut found = false;
    let mut eob: usize = 0;
    let mut i: usize = 0;
    while i < n
        invariant
            i <= n,
            n == scan@.len(),
            scan_ok(scan@),
            coeffs@.len() >= n,
            found ==> eob < i && eob as int == last_nonzero(coeffs@, scan@, i as int),
            !found ==> last_nonzero(coeffs@, scan@, i as int) == -1,
        decreases n - i,
    {
        let rc = scan[i] as usize;
        if coeffs[rc] != 0 {
            found = true;
            eob = i;
        }
        i += 1;
    }
    if found { Some(eob) } else { None }
}

/// The sum of the magnitudes at scan positions `0..=eob`.
fn scan_sum(coeffs: &[i32], scan: &[u16], eob: usize) -> (r: u32)
    requires
        scan_ok(scan@),
        coeffs@.len() >= scan@.len(),
        eob < scan@.len(),
        scan_mag_sum(coeffs@, scan@, scan@.len() as int) <= u32::MAX,
    ensures
        r as int == scan_mag_sum(coeffs@, scan@, eob + 1),
{
    let n = scan.len();
    let mut sum: u32 = 0;
    let mut k: usize = 0;
    while k <= eob
        invariant
            k <= eob + 1,
            eob < n,
            n == scan@.len(),
            scan_ok(scan@),
            coeffs@.len() >= n,
            sum as int == scan_mag_sum(coeffs@, scan@, k as int),
            scan_mag_sum(coeffs@, scan@, n as int) <= u32::MAX,
        decreases eob + 1 - k,
    {
        proof {
            lemma_scan_mag_sum_mono(coeffs@, scan@, k as int + 1, n as int);
        }
        let rc = scan[k] as usize;
        sum = sum + mag_u32(coeffs[rc]);
        k += 1;
    }
    sum
}

/// Codes one transform block's coefficients `coeffs` in the order of
/// `scan_table` (16 or 64 positions), adapting the CDFs of `cdfs`, and
/// returns the block's cumulative level (capped at 63), whether its DC
/// coefficient is negative, and whether it is zero.
///
/// A block without a coefficient codes only its skip flag. Otherwise it
/// codes what [`coef_ops`] lists: the skip flag, the transform type for
/// luma, the end-of-block position, the base and range tokens from the end
/// of block back to the DC, then the signs with the remainders above 14.
#[verifier::rlimit(60)]
pub fn encode_transform_block(
    enc: &mut MsacEncoder,
    cdfs: &mut Vec<Vec<u16>>,
    coeffs: &[i32],
    scan_table: &[u16],
    is_chroma: bool,
    is_inter: bool,
    t_dim_ctx: usize,
    txb_skip_ctx: usize,
    dc_sign_ctx: usize,
    y_mode: u8,
    tx_type: TxType,
) -> (r: (u8, bool, bool))
    requires
        old(enc).wf(),
        cdfs_valid(old(cdfs)@.map_values(|c: Vec<u16>| c@)),
        scan_ok(scan_table@),
        coeffs@.len() >= scan_table@.len(),
        scan_mag_sum(coeffs@, scan_table@, scan_table@.len() as int) <= u32::MAX,
        t_dim_ctx < 5,
        txb_skip_ctx < 13,
        dc_sign_ctx < 3,
        !is_chroma && !is_inter ==> y_mode < 13,
    ensures
        final(enc).wf(),
        final(enc).updates_cdf() == old(enc).updates_cdf(),
        cdfs_valid(final(cdfs)@.map_values(|c: Vec<u16>| c@)),
        state_of(*final(enc), final(cdfs)@) == run_ops(
            state_of(*old(enc), old(cdfs)@),
            txb_ops(
                coeffs@,
                scan_table@,
                is_chroma,
                is_inter,
                t_dim_ctx as int,
                txb_skip_ctx as int,
                dc_sign_ctx as int,
                y_mode as int,
                tx_type,
            ),
            old(enc).updates_cdf(),
        ),
        r == txb_result(coeffs@, scan_table@),
        ({
            let eob = last_nonzero(coeffs@, scan_table@, scan_table@.len() as int);
            let st = state_of(*old(enc), old(cdfs)@);
            &&& eob < 0 ==> state_of(*final(enc), final(cdfs)@) == run_ops(
                st,
                seq![CoefOp::Bool(txb_skip_slot(t_dim_ctx as int, txb_skip_ctx as int) as usize, true)],
                old(enc).updates_cdf(),
            ) && r == (0u8, false, true)
            &&& eob >= 0 ==> state_of(*final(enc), final(cdfs)@) == run_ops(
                st,
                coef_ops(
                    coeffs@,
                    scan_table@,
                    is_chroma,
                    is_inter,
                    t_dim_ctx as int,
                    txb_skip_ctx as int,
                    dc_sign_ctx as int,
                    y_mode as int,
                    tx_type,
                ),
                old(enc).updates_cdf(),
            ) && r.0 as int == (if scan_mag_sum(coeffs@, scan_table@, eob + 1) < 63 {
                scan_mag_sum(coeffs@, scan_table@, eob + 1)
            } else {
                63
            }) && r.1 == (coeffs@[0] < 0) && r.2 == (coeffs@[0] == 0)
        }),
{
    let ghost st0 = state_of(*enc, cdfs@);
    let ghost upd = enc.updates_cdf();
    let ghost c = coeffs@;
    let ghost sc = scan_table@;
    let n = scan_table.len();
    let small = n == 16;
    let w: usize = if small { 4 } else { 8 };
    let ch: usize = if is_chroma { 1 } else { 0 };
    let eob = match find_eob(coeffs, scan_table) {
        Some(e) => e,
        None => {
            let slot = t_dim_ctx * 13 + txb_skip_ctx;
            code_bool(enc, cdfs, slot, true);
            proof {
                lemma_run_push(st0, Seq::empty(), CoefOp::Bool(slot, true), upd);
                assert(Seq::<CoefOp>::empty().push(CoefOp::Bool(slot, true)) =~= seq![CoefOp::Bool(slot, true)]);
            }
            return (0, false, true);
        },
    };
    proof {
        lemma_last_nonzero_range(c, sc, n as int);
    }
    let ghost e = eob as int;
    let ghost head = head_ops(e, small, is_chroma, is_inter, t_dim_ctx as int, txb_skip_ctx as int, y_mode as int, tx_type);
    code_head(enc, cdfs, eob, small, is_chroma, is_inter, t_dim_ctx, txb_skip_ctx, y_mode, tx_type);
    let ghost eops = eob_tok_ops(c, sc, e, small, t_dim_ctx as int, ch as int);
    code_eob_tok(enc, cdfs, coeffs, scan_table, eob, small, t_dim_ctx, ch);
    let size: usize = if small { 24 } else { 80 };
    let mut levels = zero_levels(size);
    let eob_rc = scan_table[eob] as usize;
    let lt = level_tok(mag_u32(coeffs[eob_rc]));
    levels.set(eob_rc, lt);
    proof {
        let target = levels_from(c, sc, e, e, size as int);
        assert forall|p: int| 0 <= p < size implies levels@[p] == #[trigger] target[p] by {
            if p == eob_rc {
                assert(e <= e <= e && sc[e] as int == p);
            } else {
                if exists|j: int| e <= j <= e && sc[j] as int == p {
                    let j = choose|j: int| e <= j <= e && sc[j] as int == p;
                    assert(j == e);
                }
            }
        }
        assert(levels@ =~= target);
    }
    let ghost bops = body_ops(c, sc, e, 1, w as int, t_dim_ctx as int, ch as int);
    code_body(enc, cdfs, &mut levels, coeffs, scan_table, eob, small, t_dim_ctx, ch);
    let ghost dops = dc_tok_ops(c, sc, e, w as int, t_dim_ctx as int, ch as int);
    code_dc_tok(enc, cdfs, &levels, coeffs, scan_table, eob, small, t_dim_ctx, ch);
    let ghost sops = dc_sign_ops(seq![c[0]], ch as int, dc_sign_ctx as int);
    code_dc_sign(enc, cdfs, coeffs[0], ch, dc_sign_ctx);
    let ghost aops = ac_sign_ops(c, sc, e + 1);
    code_ac_signs(enc, cdfs, coeffs, scan_table, eob);
    proof {
        assert(sops == dc_sign_ops(c, ch as int, dc_sign_ctx as int));
        lemma_run_ops_append(st0, head, eops, upd);
        lemma_run_ops_append(st0, head + eops, bops, upd);
        lemma_run_ops_append(st0, head + eops + bops, dops, upd);
        lemma_run_ops_append(st0, head + eops + bops + dops, sops, upd);
        lemma_run_ops_append(st0, head + eops + bops + dops + sops, aops, upd);
        assert(head + eops + bops + dops + sops + aops == coef_ops(
            c,
            sc,
            is_chroma,
            is_inter,
            t_dim_ctx as int,
            txb_skip_ctx as int,
            dc_sign_ctx as int,
            y_mode as int,
            tx_type,
        ));
    }
    let sum = scan_sum(coeffs, scan_table, eob);
    let cul: u8 = if sum < 63 { sum as u8 } else { 63 };
    (cul, coeffs[0] < 0, coeffs[0] == 0)
}

/// What coding one transform block emits: its skip flag alone when every
/// coefficient is zero, else the steps of [`coef_ops`].
pub open spec fn txb_ops(
    c: Seq<i32>,
    sc: Seq<u16>,
    is_chroma: bool,
    is_inter: bool,
    t: int,
    skip_ctx: int,
    sign_ctx: int,
    y_mode: int,
    tx: TxType,
) -> Seq<CoefOp> {
    if last_nonzero(c, sc, sc.len() as int) < 0 {
        seq![CoefOp::Bool(txb_skip_slot(t, skip_ctx) as usize, true)]
    } else {
        coef_ops(c, sc, is_chroma, is_inter, t, skip_ctx, sign_ctx, y_mode, tx)
    }
}

/// What coding one transform block returns: the cumulative level capped at
/// 63, whether the DC coefficient is negative, and whether it is zero.
pub open spec fn txb_result(c: Seq<i32>, sc: Seq<u16>) -> (u8, bool, bool) {
    let eob = last_nonzero(c, sc, sc.len() as int);
    if eob < 0 {
        (0u8, false, true)
    } else {
        let s = scan_mag_sum(c, sc, eob + 1);
        ((if s < 63 { s } else { 63 }) as u8, c[0] < 0, c[0] == 0)
    }
}

/// A position table with an inverse is a permutation.
proof fn lemma_scan_from_inverse(sc: Seq<u16>, inv: Seq<u16>)
    requires
        inv.len() == sc.len(),
        forall|i: int| 0 <= i < sc.len() ==> (#[trigger] sc[i] as int) < sc.len(),
        forall|i: int| 0 <= i < sc.len() ==> inv[#[trigger] sc[i] as int] as int == i,
    ensures
        forall|i: int, j: int| 0 <= i < j < sc.len() ==> #[trigger] sc[i] != #[trigger] sc[j],
{
    assert forall|i: int, j: int| 0 <= i < j < sc.len() implies #[trigger] sc[i] != #[trigger] sc[j] by {
        if sc[i] == sc[j] {
            assert(inv[sc[i] as int] as int == i);
            assert(inv[sc[j] as int] as int == j);
        }
    }
}

/// The 4x4 zig-zag order is a permutation of the block's positions.
pub proof fn lemma_scan_4x4_ok()
    ensures
        scan_ok(crate::scan::DEFAULT_SCAN_4X4@),
{
    let sc = crate::scan::DEFAULT_SCAN_4X4@;
    assert(sc =~= seq![0u16, 4, 1, 2, 5, 8, 12, 9, 6, 3, 7, 10, 13, 14, 11, 15]);
    let inv = seq![0u16, 2, 3, 9, 1, 4, 8, 10, 5, 7, 11, 14, 6, 12, 13, 15];
    assert forall|i: int| 0 <= i < 16 implies (#[trigger] sc[i] as int) < 16 && inv[sc[i] as int] as int == i by {
        assert(0 <= i < 16);
    }
    lemma_scan_from_inverse(sc, inv);
}

/// The 8x8 zig-zag order is a permutation of the block's positions.
pub proof fn lemma_scan_8x8_ok()
    ensures
        scan_ok(crate::scan::DEFAULT_SCAN_8X8@),
{
    let sc = crate::scan::DEFAULT_SCAN_8X8@;
    assert(sc =~= seq![
        0u16, 8, 1, 2, 9, 16, 24, 17, 10, 3, 4, 11, 18, 25, 32, 40,
        33, 26, 19, 12, 5, 6, 13, 20, 27, 34, 41, 48, 56, 49, 42, 35,
        28, 21, 14, 7, 15, 22, 29, 36, 43, 50, 57, 58, 51, 44, 37, 30,
        23, 31, 38, 45, 52, 59, 60, 53, 46, 39, 47, 54, 61, 62, 55, 63
    ]);
    let inv = seq![
        0u16, 2, 3, 9, 10, 20, 21, 35, 1, 4, 8, 11, 19, 22, 34, 36,
        5, 7, 12, 18, 23, 33, 37, 48, 6, 13, 17, 24, 32, 38, 47, 49,
        14, 16, 25, 31, 39, 46, 50, 57, 15, 26, 30, 40, 45, 51, 56, 58,
        27, 29, 41, 44, 52, 55, 59, 62, 28, 42, 43, 53, 54, 60, 61, 63
    ];
    assert forall|i: int| 0 <= i < 64 implies (#[trigger] sc[i] as int) < 64 && inv[sc[i] as int] as int == i by {
        assert(0 <= i < 64);
    }
    lemma_scan_from_inverse(sc, inv);
}

/// The magnitude sum over `k` scan positions is at most `k` times a bound on every magnitude.
pub proof fn lemma_scan_mag_sum_bound(c: Seq<i32>, sc: Seq<u16>, k: int, b: int)
    requires
        0 <= k <= sc.len(),
        0 <= b,
        forall|i: int| 0 <= i < sc.len() ==> (#[trigger] sc[i] as int) < c.len(),
        forall|p: int| 0 <= p < c.len() ==> -b <= #[trigger] c[p] <= b,
    ensures
        scan_mag_sum(c, sc, k) <= k * b,
    decreases k,
{
    if k > 0 {
        lemma_scan_mag_sum_bound(c, sc, k - 1, b);
        assert((sc[k - 1] as int) < c.len());
        let v = c[sc[k - 1] as int];
        assert(-b <= v <= b);
        assert(mag_of(v) <= b);
        assert((k - 1) * b + b == k * b) by (nonlinear_arith);
    }
}

} // verus!
