use vstd::prelude::*;

use crate::coef::{
    CoefOp, CoderState, run_ops, cdfs_valid, state_of, code_bool, lemma_run_push, SKIP_BASE, IS_INTER_BASE,
    SINGLE_REF_BASE, NEWMV_BASE, ZEROMV_BASE,
};
use crate::motion::BlockMv;
use crate::msac::MsacEncoder;
use crate::tile::{
    TileContext, in_sb, is_inter_ctx_spec, newmv_ctx_spec, above_inter, left_inter, filled, copied, run_len, span4,
    half_span_spec, PARTITION_CTX_NONE, same_but_recon, same_but_coef, same_but_partition, same_but_skip,
    same_but_intra, same_but_newmv,
};
use crate::y4m::half_up;

verus! {

/// Encoder state of one inter-coded tile: the range coder and its CDFs, the
/// neighbour context, the source picture, the reference picture the blocks
/// predict from, the quantizer steps, the reconstruction built so far (8-bit
/// samples), and the motion vector of every 4x4 unit.
pub struct InterTileEncoder {
    pub enc: MsacEncoder,
    pub cdfs: Vec<Vec<u16>>,
    pub ctx: TileContext,
    pub mi_cols: u32,
    pub mi_rows: u32,
    pub width: u32,
    pub height: u32,
    pub src_y: Vec<u8>,
    pub src_u: Vec<u8>,
    pub src_v: Vec<u8>,
    pub ref_y: Vec<u8>,
    pub ref_u: Vec<u8>,
    pub ref_v: Vec<u8>,
    pub dc_dq: u32,
    pub ac_dq: u32,
    pub recon_y: Vec<u8>,
    pub recon_u: Vec<u8>,
    pub recon_v: Vec<u8>,
    pub block_mvs: Vec<BlockMv>,
}

/// The CDFs of a context as sequences.
pub open spec fn cdf_view(c: Seq<Vec<u16>>) -> Seq<Seq<u16>> {
    c.map_values(|v: Vec<u16>| v@)
}

/// Every skip flag of the context is 0 or 1.
pub open spec fn skip_flags_ok(c: TileContext) -> bool {
    &&& forall|j: int| 0 <= j < c.above_skip@.len() ==> #[trigger] c.above_skip@[j] <= 1
    &&& forall|j: int| 0 <= j < c.left_skip@.len() ==> #[trigger] c.left_skip@[j] <= 1
}

/// Every stored motion vector has components of at most 192 eighth pels.
pub open spec fn mvs_bounded(m: Seq<BlockMv>) -> bool {
    forall|i: int| 0 <= i < m.len() ==> -192 <= (#[trigger] m[i]).mv_x <= 192 && -192 <= m[i].mv_y <= 192
}

/// The 4x4 units across `n` pixels, rounded up to whole 8x8 blocks.
pub open spec fn mi_count(n: u32) -> int {
    2 * ((n as int + 7) / 8)
}

impl InterTileEncoder {
    /// The encoder's parts fit together: the coder and CDFs are well formed,
    /// the planes and motion field have the picture's sizes, and the context
    /// spans the tile.
    pub open spec fn wf(&self) -> bool {
        &&& self.enc.wf()
        &&& cdfs_valid(cdf_view(self.cdfs@))
        &&& 1 <= self.width <= 0xffff
        &&& 1 <= self.height <= 0xffff
        &&& self.mi_cols == mi_count(self.width)
        &&& self.mi_rows == mi_count(self.height)
        &&& 1 <= self.dc_dq <= 0x10000
        &&& 1 <= self.ac_dq <= 0x10000
        &&& self.src_y@.len() == self.width * self.height
        &&& self.src_u@.len() == half_up(self.width as int) * half_up(self.height as int)
        &&& self.src_v@.len() == half_up(self.width as int) * half_up(self.height as int)
        &&& self.ref_y@.len() == self.width * self.height
        &&& self.recon_y@.len() == self.width * self.height
        &&& self.ref_u@.len() == half_up(self.width as int) * half_up(self.height as int)
        &&& self.ref_v@.len() == half_up(self.width as int) * half_up(self.height as int)
        &&& self.recon_u@.len() == half_up(self.width as int) * half_up(self.height as int)
        &&& self.recon_v@.len() == half_up(self.width as int) * half_up(self.height as int)
        &&& self.block_mvs@.len() == self.mi_cols * self.mi_rows
        &&& mvs_bounded(self.block_mvs@)
        &&& self.ctx.above_recon_y@.len() == self.mi_cols * 4 + 32
        &&& self.ctx.above_partition@.len() == self.mi_cols / 2 + 16
        &&& self.ctx.above_skip@.len() == self.mi_cols + 32
        &&& self.ctx.above_recon_u@.len() == self.ctx.above_recon_v@.len()
        &&& skip_flags_ok(self.ctx)
    }
}

/// The syntax of a skipped inter block that copies the reference at a zero
/// motion vector: skip, inter, the first single reference (three bits of
/// the reference tree), NEWMV off, then GLOBALMV off.
pub open spec fn skip_block_ops(c: TileContext, bx: u32, by: u32) -> Seq<CoefOp> {
    let sctx = c.above_skip@[bx as int] as int + c.left_skip@[in_sb(by)] as int;
    let rctx = if above_inter(c, bx, by) || left_inter(c, bx, by) { 2int } else { 1int };
    seq![
        CoefOp::Bool((SKIP_BASE + sctx) as usize, true),
        CoefOp::Bool((IS_INTER_BASE + is_inter_ctx_spec(c, bx, by)) as usize, true),
        CoefOp::Bool((SINGLE_REF_BASE + rctx * 7) as usize, false),
        CoefOp::Bool((SINGLE_REF_BASE + rctx * 7 + 2) as usize, false),
        CoefOp::Bool((SINGLE_REF_BASE + rctx * 7 + 3) as usize, false),
        CoefOp::Bool((NEWMV_BASE + newmv_ctx_spec(c, bx, by)) as usize, true),
        CoefOp::Bool(ZEROMV_BASE, false),
    ]
}

/// Codes the syntax of a skipped inter block.
fn code_skip_syntax(enc: &mut MsacEncoder, cdfs: &mut Vec<Vec<u16>>, ctx: &TileContext, bx: u32, by: u32)
    requires
        old(enc).wf(),
        cdfs_valid(cdf_view(old(cdfs)@)),
        (bx as int) < ctx.above_skip@.len(),
        skip_flags_ok(*ctx),
    ensures
        final(enc).wf(),
        final(enc).updates_cdf() == old(enc).updates_cdf(),
        cdfs_valid(cdf_view(final(cdfs)@)),
        state_of(*final(enc), final(cdfs)@) == run_ops(
            state_of(*old(enc), old(cdfs)@),
            skip_block_ops(*ctx, bx, by),
            old(enc).updates_cdf(),
        ),
{
    let ghost st0 = state_of(*enc, cdfs@);
    let ghost upd = enc.updates_cdf();
    proof {
        crate::tile::lemma_low5(by);
    }
    let sctx = ctx.skip_ctx(bx, by);
    assert(ctx.above_skip@[bx as int] <= 1 && ctx.left_skip@[in_sb(by)] <= 1);
    let ictx = ctx.is_inter_ctx(bx, by);
    let rctx = ctx.ref_ctx(bx, by);
    let nctx = ctx.newmv_ctx(bx, by);
    let slots: [usize; 7] = [
        SKIP_BASE + sctx,
        IS_INTER_BASE + ictx,
        SINGLE_REF_BASE + rctx * 7,
        SINGLE_REF_BASE + rctx * 7 + 2,
        SINGLE_REF_BASE + rctx * 7 + 3,
        NEWMV_BASE + nctx,
        ZEROMV_BASE,
    ];
    let vals: [bool; 7] = [true, true, false, false, false, true, false];
    let ghost ops = skip_block_ops(*ctx, bx, by);
    let mut k: usize = 0;
    while k < 7
        invariant
            k <= 7,
            enc.wf(),
            enc.updates_cdf() == upd,
            cdfs_valid(cdf_view(cdfs@)),
            ops.len() == 7,
            forall|j: int| 0 <= j < 7 ==> ops[j] == CoefOp::Bool(#[trigger] slots@[j], vals@[j]),
            forall|j: int| 0 <= j < 7 ==> 824 <= #[trigger] slots@[j] < 866,
            state_of(*enc, cdfs@) == run_ops(st0, ops.take(k as int), upd),
        decreases 7 - k,
    {
        code_bool(enc, cdfs, slots[k], vals[k]);
        proof {
            lemma_run_push(st0, ops.take(k as int), CoefOp::Bool(slots@[k as int], vals@[k as int]), upd);
            assert(ops.take(k as int).push(ops[k as int]) =~= ops.take(k + 1));
        }
        k += 1;
    }
    assert(ops.take(7) =~= ops);
}

/// `dst` with the `ncols` x `nrows` rectangle at `(px, py)` taken from
/// `src`, as far as it lies inside the plane of row stride `stride`.
pub open spec fn copy_rect(dst: Seq<u8>, src: Seq<u8>, stride: int, px: int, py: int, ncols: int, nrows: int) -> Seq<u8> {
    Seq::new(
        dst.len(),
        |i: int| if px <= i % stride < px + ncols && py <= i / stride < py + nrows { src[i] } else { dst[i] },
    )
}

/// The last column of the `n` x `n` block at `(px, py)`, 128 outside the plane.
pub open spec fn edge_col(p: Seq<u8>, stride: int, rows: int, px: int, py: int, n: int) -> Seq<u8> {
    Seq::new(n as nat, |i: int| if px + n - 1 < stride && py + i < rows { p[(py + i) * stride + px + n - 1] } else { 128u8 })
}

/// The last row of the `n` x `n` block at `(px, py)`, 128 outside the plane.
pub open spec fn edge_row(p: Seq<u8>, stride: int, rows: int, px: int, py: int, n: int) -> Seq<u8> {
    Seq::new(n as nat, |i: int| if px + i < stride && py + n - 1 < rows { p[(py + n - 1) * stride + px + i] } else { 128u8 })
}

pub(crate) proof fn lemma_pos(x: int, y: int, stride: int)
    requires
        0 <= x < stride,
        0 <= y,
    ensures
        (y * stride + x) % stride == x,
        (y * stride + x) / stride == y,
{
    vstd::arithmetic::div_mod::lemma_fundamental_div_mod_converse(y * stride + x, stride, y, x);
}

/// Copies the `n` x `n` block at `(px, py)` from `src` into `dst`, as far as
/// it lies inside the `stride` x `rows` plane.
pub(crate) fn copy_block(dst: &mut Vec<u8>, src: &Vec<u8>, stride: u32, rows: u32, px: u32, py: u32, n: u32)
    requires
        1 <= stride <= 0xffff,
        rows <= 0xffff,
        old(dst)@.len() == stride * rows,
        src@.len() == stride * rows,
        px as int + n as int <= 0x4_0000,
        py as int + n as int <= 0x4_0000,
    ensures
        final(dst)@ == copy_rect(old(dst)@, src@, stride as int, px as int, py as int, n as int, n as int),
{
    let ghost orig = dst@;
    let ghost len = orig.len() as int;
    let mut r: u32 = 0;
    while r < n
        invariant
            r <= n,
            1 <= stride <= 0xffff,
            rows <= 0xffff,
            dst@.len() == len,
            len == stride * rows,
            src@.len() == len,
            px as int + n as int <= 0x4_0000,
            py as int + n as int <= 0x4_0000,
            dst@ == copy_rect(orig, src@, stride as int, px as int, py as int, n as int, r as int),
        decreases n - r,
    {
        let mut c: u32 = 0;
        while c < n
            invariant
                c <= n,
                r < n,
                1 <= stride <= 0xffff,
                rows <= 0xffff,
                dst@.len() == len,
                len == stride * rows,
                src@.len() == len,
                px as int + n as int <= 0x4_0000,
                py as int + n as int <= 0x4_0000,
                forall|i: int| 0 <= i < len ==> #[trigger] dst@[i] == (if (px <= i % (stride as int) < px + n && py <= i / (stride as int) < py + r) || (i / (stride as int) == py + r && px <= i % (stride as int) < px + c) { src@[i] } else { orig[i] }),
            decreases n - c,
        {
            let x = px + c;
            let y = py + r;
            if x < stride && y < rows {
                proof {
                    assert(y * stride + x < stride * rows && stride * rows <= 0xffff * 0xffff) by (nonlinear_arith)
                        requires
                            x < stride,
                            y < rows,
                            stride <= 0xffff,
                            rows <= 0xffff,
                    ;
                }
                let idx = (y * stride + x) as usize;
                proof {
                    lemma_pos(x as int, y as int, stride as int);
                }
                let v = src[idx];
                dst.set(idx, v);
                proof {
                    let sd = stride as int;
                    assert forall|i: int| #![trigger dst@[i]] 0 <= i < len && i != idx implies !(i / sd == py + r && i % sd == px + c) by {
                        if i / sd == py + r && i % sd == px + c {
                            vstd::arithmetic::div_mod::lemma_fundamental_div_mod(i, sd);
                            assert(i == sd * (y as int) + x);
                            assert(sd * (y as int) == (y as int) * sd) by (nonlinear_arith);
                        }
                    }
                }
            } else {
                proof {
                    let sd = stride as int;
                    assert forall|i: int| #![trigger dst@[i]] 0 <= i < len implies !(i / sd == py + r && i % sd == px + c) by {
                        if i / sd == py + r && i % sd == px + c {
                            vstd::arithmetic::div_mod::lemma_fundamental_div_mod(i, sd);
                            let q = i / sd;
                            assert(x as int == i % sd);
                            assert(x < stride);
                            assert(y as int == q);
                            assert(q >= rows);
                            assert(sd * q >= sd * (rows as int)) by (nonlinear_arith)
                                requires
                                    q >= rows,
                                    sd >= 1,
                            ;
                            assert(i >= sd * (rows as int));
                        }
                    }
                }
            }
            c += 1;
        }
        r += 1;
        assert(dst@ =~= copy_rect(orig, src@, stride as int, px as int, py as int, n as int, r as int));
    }
}

/// A plane of `n` samples of value `v`.
pub open spec fn flat_plane(n: nat, v: u8) -> Seq<u8> {
    Seq::new(n, |i: int| v)
}

/// Sets the `n` x `n` block at `(px, py)` to `v`, as far as it lies in the plane.
pub(crate) fn fill_block(dst: &mut Vec<u8>, stride: u32, rows: u32, px: u32, py: u32, n: u32, v: u8)
    requires
        1 <= stride <= 0xffff,
        rows <= 0xffff,
        old(dst)@.len() == stride * rows,
        px as int + n as int <= 0x4_0000,
        py as int + n as int <= 0x4_0000,
    ensures
        final(dst)@ == copy_rect(old(dst)@, flat_plane(old(dst)@.len(), v), stride as int, px as int, py as int, n as int, n as int),
{
    let ghost orig = dst@;
    let ghost len = orig.len() as int;
    let mut r: u32 = 0;
    while r < n
        invariant
            r <= n,
            1 <= stride <= 0xffff,
            rows <= 0xffff,
            dst@.len() == len,
            len == stride * rows,
            px as int + n as int <= 0x4_0000,
            py as int + n as int <= 0x4_0000,
            dst@ == copy_rect(orig, flat_plane(len as nat, v), stride as int, px as int, py as int, n as int, r as int),
        decreases n - r,
    {
        let mut c: u32 = 0;
        while c < n
            invariant
                c <= n,
                r < n,
                1 <= stride <= 0xffff,
                rows <= 0xffff,
                dst@.len() == len,
                len == stride * rows,
                    px as int + n as int <= 0x4_0000,
                py as int + n as int <= 0x4_0000,
                forall|i: int| 0 <= i < len ==> #[trigger] dst@[i] == (if (px <= i % (stride as int) < px + n && py <= i / (stride as int) < py + r) || (i / (stride as int) == py + r && px <= i % (stride as int) < px + c) { v } else { orig[i] }),
            decreases n - c,
        {
            let x = px + c;
            let y = py + r;
            if x < stride && y < rows {
                proof {
                    assert(y * stride + x < stride * rows && stride * rows <= 0xffff * 0xffff) by (nonlinear_arith)
                        requires
                            x < stride,
                            y < rows,
                            stride <= 0xffff,
                            rows <= 0xffff,
                    ;
                }
                let idx = (y * stride + x) as usize;
                proof {
                    lemma_pos(x as int, y as int, stride as int);
                }
                dst.set(idx, v);
                proof {
                    let sd = stride as int;
                    assert forall|i: int| #![trigger dst@[i]] 0 <= i < len && i != idx implies !(i / sd == py + r && i % sd == px + c) by {
                        if i / sd == py + r && i % sd == px + c {
                            vstd::arithmetic::div_mod::lemma_fundamental_div_mod(i, sd);
                            assert(i == sd * (y as int) + x);
                            assert(sd * (y as int) == (y as int) * sd) by (nonlinear_arith);
                        }
                    }
                }
            } else {
                proof {
                    let sd = stride as int;
                    assert forall|i: int| #![trigger dst@[i]] 0 <= i < len implies !(i / sd == py + r && i % sd == px + c) by {
                        if i / sd == py + r && i % sd == px + c {
                            vstd::arithmetic::div_mod::lemma_fundamental_div_mod(i, sd);
                            let q = i / sd;
                            assert(x as int == i % sd);
                            assert(x < stride);
                            assert(y as int == q);
                            assert(q >= rows);
                            assert(sd * q >= sd * (rows as int)) by (nonlinear_arith)
                                requires
                                    q >= rows,
                                    sd >= 1,
                            ;
                            assert(i >= sd * (rows as int));
                        }
                    }
                }
            }
            c += 1;
        }
        r += 1;
        assert(dst@ =~= copy_rect(orig, flat_plane(len as nat, v), stride as int, px as int, py as int, n as int, r as int));
    }
}

/// The last column and last row of the `n` x `n` block at `(px, py)`.
pub(crate) fn block_edges(p: &Vec<u8>, stride: u32, rows: u32, px: u32, py: u32, n: u32) -> (r: (Vec<u8>, Vec<u8>))
    requires
        1 <= stride <= 0xffff,
        rows <= 0xffff,
        p@.len() == stride * rows,
        1 <= n,
        px as int + n as int <= 0x4_0000,
        py as int + n as int <= 0x4_0000,
    ensures
        r.0@ == edge_row(p@, stride as int, rows as int, px as int, py as int, n as int),
        r.1@ == edge_col(p@, stride as int, rows as int, px as int, py as int, n as int),
{
    let mut bottom: Vec<u8> = Vec::new();
    let mut right: Vec<u8> = Vec::new();
    let mut i: u32 = 0;
    while i < n
        invariant
            i <= n,
            1 <= n,
            1 <= stride <= 0xffff,
            rows <= 0xffff,
            p@.len() == stride * rows,
            px as int + n as int <= 0x4_0000,
            py as int + n as int <= 0x4_0000,
            bottom@ == edge_row(p@, stride as int, rows as int, px as int, py as int, n as int).take(i as int),
            right@ == edge_col(p@, stride as int, rows as int, px as int, py as int, n as int).take(i as int),
        decreases n - i,
    {
        let bx = px + i;
        let by = py + n - 1;
        if bx < stride && by < rows {
            proof {
                assert(by * stride + bx < stride * rows && stride * rows <= 0xffff * 0xffff) by (nonlinear_arith)
                    requires
                        bx < stride,
                        by < rows,
                        stride <= 0xffff,
                        rows <= 0xffff,
                ;
            }
            bottom.push(p[(by * stride + bx) as usize]);
        } else {
            bottom.push(128);
        }
        let rx = px + n - 1;
        let ry = py + i;
        if rx < stride && ry < rows {
            proof {
                assert(ry * stride + rx < stride * rows && stride * rows <= 0xffff * 0xffff) by (nonlinear_arith)
                    requires
                        rx < stride,
                        ry < rows,
                        stride <= 0xffff,
                        rows <= 0xffff,
                ;
            }
            right.push(p[(ry * stride + rx) as usize]);
        } else {
            right.push(128);
        }
        i += 1;
        assert(bottom@ =~= edge_row(p@, stride as int, rows as int, px as int, py as int, n as int).take(i as int));
        assert(right@ =~= edge_col(p@, stride as int, rows as int, px as int, py as int, n as int).take(i as int));
    }
    assert(bottom@ =~= edge_row(p@, stride as int, rows as int, px as int, py as int, n as int));
    assert(right@ =~= edge_col(p@, stride as int, rows as int, px as int, py as int, n as int));
    (bottom, right)
}

/// The zero motion vector from the first reference that a skipped block stores.
pub open spec fn zero_mv() -> BlockMv {
    BlockMv { mv_x: 0, mv_y: 0, ref_frame: 0 }
}

/// The motion field with the `m` x `m` units at `(bx, by)` (as far as they
/// lie in the tile) set to `v`.
pub open spec fn mv_filled_with(mvs: Seq<BlockMv>, mi_cols: int, bx: int, by: int, m: int, v: BlockMv) -> Seq<BlockMv> {
    Seq::new(
        mvs.len(),
        |i: int| if bx <= i % mi_cols < bx + m && by <= i / mi_cols < by + m { v } else { mvs[i] },
    )
}

/// The motion field with the `m` x `m` units at `(bx, by)` (as far as they
/// lie in the tile) set to the zero vector.
pub open spec fn mv_filled(mvs: Seq<BlockMv>, mi_cols: int, bx: int, by: int, m: int) -> Seq<BlockMv> {
    mv_filled_with(mvs, mi_cols, bx, by, m, zero_mv())
}

/// Stores `v` in the `m` x `m` units at `(bx, by)`.
pub(crate) fn fill_mvs(mvs: &mut Vec<BlockMv>, mi_cols: u32, mi_rows: u32, bx: u32, by: u32, m: u32, v: BlockMv)
    requires
        1 <= mi_cols <= 0x4000,
        mi_rows <= 0x4000,
        old(mvs)@.len() == mi_cols * mi_rows,
        bx as int + m as int <= 0x8000,
        by as int + m as int <= 0x8000,
    ensures
        final(mvs)@ == mv_filled_with(old(mvs)@, mi_cols as int, bx as int, by as int, m as int, v),
{
    let ghost orig = mvs@;
    let ghost len = orig.len() as int;
    let ghost sd = mi_cols as int;
    let mut r: u32 = 0;
    while r < m
        invariant
            r <= m,
            1 <= mi_cols <= 0x4000,
            mi_rows <= 0x4000,
            sd == mi_cols as int,
            mvs@.len() == len,
            len == mi_cols * mi_rows,
            bx as int + m as int <= 0x8000,
            by as int + m as int <= 0x8000,
            forall|i: int| 0 <= i < len ==> #[trigger] mvs@[i] == (if bx <= i % sd < bx + m && by <= i / sd < by + r { v } else { orig[i] }),
        decreases m - r,
    {
        let mut c: u32 = 0;
        while c < m
            invariant
                c <= m,
                r < m,
                1 <= mi_cols <= 0x4000,
                mi_rows <= 0x4000,
                sd == mi_cols as int,
                mvs@.len() == len,
                len == mi_cols * mi_rows,
                bx as int + m as int <= 0x8000,
                by as int + m as int <= 0x8000,
                forall|i: int| 0 <= i < len ==> #[trigger] mvs@[i] == (if (bx <= i % sd < bx + m && by <= i / sd < by + r) || (i / sd == by + r && bx <= i % sd < bx + c) { v } else { orig[i] }),
            decreases m - c,
        {
            let x = bx + c;
            let y = by + r;
            if x < mi_cols && y < mi_rows {
                proof {
                    assert(y * mi_cols + x < mi_cols * mi_rows && mi_cols * mi_rows <= 0x4000 * 0x4000) by (nonlinear_arith)
                        requires
                            x < mi_cols,
                            y < mi_rows,
                            mi_cols <= 0x4000,
                            mi_rows <= 0x4000,
                    ;
                }
                let idx = (y * mi_cols + x) as usize;
                proof {
                    lemma_pos(x as int, y as int, sd);
                }
                mvs.set(idx, v);
                proof {
                    assert forall|i: int| #![trigger mvs@[i]] 0 <= i < len && i != idx implies !(i / sd == by + r && i % sd == bx + c) by {
                        if i / sd == by + r && i % sd == bx + c {
                            vstd::arithmetic::div_mod::lemma_fundamental_div_mod(i, sd);
                            assert(i == sd * (y as int) + x);
                            assert(sd * (y as int) == (y as int) * sd) by (nonlinear_arith);
                        }
                    }
                }
            } else {
                proof {
                    assert forall|i: int| #![trigger mvs@[i]] 0 <= i < len implies !(i / sd == by + r && i % sd == bx + c) by {
                        if i / sd == by + r && i % sd == bx + c {
                            vstd::arithmetic::div_mod::lemma_fundamental_div_mod(i, sd);
                            let q = i / sd;
                            assert(x as int == i % sd);
                            assert(x < mi_cols);
                            assert(q >= mi_rows);
                            assert(sd * q >= sd * (mi_rows as int)) by (nonlinear_arith)
                                requires
                                    q >= mi_rows,
                                    sd >= 1,
                            ;
                        }
                    }
                }
            }
            c += 1;
        }
        r += 1;
    }
    assert(mvs@ =~= mv_filled_with(orig, mi_cols as int, bx as int, by as int, m as int, v));
}

/// The side of a block of level `bl` in luma pixels: 128 down to 8.
pub open spec fn block_px(bl: int) -> int {
    if bl == 0 { 128 } else if bl == 1 { 64 } else if bl == 2 { 32 } else if bl == 3 { 16 } else { 8 }
}

/// What coding the block of level `bl` at `(bx, by)` as a skipped inter
/// block at the zero vector leaves: the syntax of [`skip_block_ops`], the
/// reference copied into the reconstruction over the block, the block's
/// edges and contexts stored for its neighbours (no coefficients, not intra,
/// no new motion vector), and the zero vector stored over its units.
pub open spec fn inter_skip_done(t: InterTileEncoder, u: InterTileEncoder, bx: u32, by: u32, bl: usize) -> bool {
    &&& state_of(u.enc, u.cdfs@) == run_ops(state_of(t.enc, t.cdfs@), skip_block_ops(t.ctx, bx, by), t.enc.updates_cdf())
    &&& {
            let w = t.width as int;
            let h = t.height as int;
            let cw = half_up(w);
            let chh = half_up(h);
            let bs = block_px(bl as int);
            let mc = t.mi_cols as int;
            let mr = t.mi_rows as int;
            let ry = copy_rect(t.recon_y@, t.ref_y@, w, 4 * bx, 4 * by, bs, bs);
            let ru = copy_rect(t.recon_u@, t.ref_u@, cw, 2 * bx, 2 * by, bs / 2, bs / 2);
            let rv = copy_rect(t.recon_v@, t.ref_v@, cw, 2 * bx, 2 * by, bs / 2, bs / 2);
            let c0 = t.ctx;
            let c1 = u.ctx;
            &&& u.recon_y@ == ry
            &&& u.recon_u@ == ru
            &&& u.recon_v@ == rv
            &&& c1.above_recon_y@ == copied(c0.above_recon_y@, 4 * bx as int, edge_row(ry, w, h, 4 * bx, 4 * by, bs), 4 * mc - 4 * bx)
            &&& c1.left_recon_y@ == copied(c0.left_recon_y@, 4 * (by as int % 16), edge_col(ry, w, h, 4 * bx, 4 * by, bs), 4 * mr - 4 * by)
            &&& c1.above_recon_u@ == copied(c0.above_recon_u@, 2 * bx as int, edge_row(ru, cw, chh, 2 * bx, 2 * by, bs / 2), 2 * mc - 2 * bx)
            &&& c1.above_recon_v@ == copied(c0.above_recon_v@, 2 * bx as int, edge_row(rv, cw, chh, 2 * bx, 2 * by, bs / 2), 2 * mc - 2 * bx)
            &&& c1.left_recon_u@ == copied(c0.left_recon_u@, 2 * (by as int % 16), edge_col(ru, cw, chh, 2 * bx, 2 * by, bs / 2), 2 * mr - 2 * by)
            &&& c1.left_recon_v@ == copied(c0.left_recon_v@, 2 * (by as int % 16), edge_col(rv, cw, chh, 2 * bx, 2 * by, bs / 2), 2 * mr - 2 * by)
            &&& c1.above_lcoef@ == filled(c0.above_lcoef@, bx as int, run_len(span4(bl as int), mc - bx), 0x40u8)
            &&& c1.left_lcoef@ == filled(c0.left_lcoef@, in_sb(by), run_len(span4(bl as int), mr - by), 0x40u8)
            &&& c1.above_ccoef_u@ == filled(c0.above_ccoef_u@, (bx / 2) as int, run_len(half_span_spec(bl as int), half_up(mc - bx)), 0x40u8)
            &&& c1.above_ccoef_v@ == filled(c0.above_ccoef_v@, (bx / 2) as int, run_len(half_span_spec(bl as int), half_up(mc - bx)), 0x40u8)
            &&& c1.left_ccoef_u@ == filled(c0.left_ccoef_u@, in_sb(by) / 2, run_len(half_span_spec(bl as int), half_up(mr - by)), 0x40u8)
            &&& c1.left_ccoef_v@ == filled(c0.left_ccoef_v@, in_sb(by) / 2, run_len(half_span_spec(bl as int), half_up(mr - by)), 0x40u8)
            &&& c1.above_partition@ == filled(c0.above_partition@, (bx / 2) as int, run_len(half_span_spec(bl as int), half_up(mc - bx)), PARTITION_CTX_NONE@[bl as int])
            &&& c1.left_partition@ == filled(c0.left_partition@, in_sb(by) / 2, run_len(half_span_spec(bl as int), half_up(mr - by)), PARTITION_CTX_NONE@[bl as int])
            &&& c1.above_skip@ == filled(c0.above_skip@, bx as int, run_len(span4(bl as int), mc - bx), 1u8)
            &&& c1.left_skip@ == filled(c0.left_skip@, in_sb(by), run_len(span4(bl as int), mr - by), 1u8)
            &&& c1.above_intra@ == filled(c0.above_intra@, bx as int, run_len(span4(bl as int), mc - bx), false)
            &&& c1.left_intra@ == filled(c0.left_intra@, in_sb(by), run_len(span4(bl as int), mr - by), false)
            &&& c1.above_newmv@ == filled(c0.above_newmv@, bx as int, run_len(span4(bl as int), mc - bx), false)
            &&& c1.left_newmv@ == filled(c0.left_newmv@, in_sb(by), run_len(span4(bl as int), mr - by), false)
            &&& c1.above_mode == c0.above_mode
            &&& c1.left_mode == c0.left_mode
            &&& u.block_mvs@ == mv_filled(t.block_mvs@, mc, bx as int, by as int, 2 * half_span_spec(bl as int))
    }
}

impl InterTileEncoder {
    /// Codes the block of level `bl` at 4x4 unit `(bx, by)` as skipped and
    /// predicted from the reference at a zero motion vector: the syntax of
    /// [`skip_block_ops`], the reference copied into the reconstruction over
    /// the block, the block's edges and contexts stored for its neighbours
    /// (no coefficients, not intra, no new motion vector), and the zero
    /// vector stored over the block's units.
    #[verifier::rlimit(80)]
    pub fn encode_inter_skip_block(&mut self, bx: u32, by: u32, bl: usize)
        requires
            old(self).wf(),
            bx < old(self).mi_cols,
            by < old(self).mi_rows,
            bl <= 4,
        ensures
            final(self).wf(),
            final(self).enc.updates_cdf() == old(self).enc.updates_cdf(),
            final(self).width == old(self).width,
            final(self).height == old(self).height,
            final(self).mi_cols == old(self).mi_cols,
            final(self).mi_rows == old(self).mi_rows,
            final(self).ref_y == old(self).ref_y,
            final(self).ref_u == old(self).ref_u,
            final(self).ref_v == old(self).ref_v,
            final(self).src_y == old(self).src_y,
            final(self).src_u == old(self).src_u,
            final(self).src_v == old(self).src_v,
            final(self).dc_dq == old(self).dc_dq,
            final(self).ac_dq == old(self).ac_dq,
            inter_skip_done(*old(self), *final(self), bx, by, bl),
    {
        let ghost old_ctx = self.ctx;
        code_skip_syntax(&mut self.enc, &mut self.cdfs, &self.ctx, bx, by);
        let bs: u32 = if bl == 0 { 128 } else if bl == 1 { 64 } else if bl == 2 { 32 } else if bl == 3 { 16 } else { 8 };
        let w = self.width;
        let h = self.height;
        let cw = w / 2 + w % 2;
        let chh = h / 2 + h % 2;
        proof {
            assert(bx < 0x4000 && by < 0x4000);
            assert(cw * chh == half_up(w as int) * half_up(h as int));
        }
        copy_block(&mut self.recon_y, &self.ref_y, w, h, bx * 4, by * 4, bs);
        copy_block(&mut self.recon_u, &self.ref_u, cw, chh, bx * 2, by * 2, bs / 2);
        copy_block(&mut self.recon_v, &self.ref_v, cw, chh, bx * 2, by * 2, bs / 2);
        let (y_bottom, y_right) = block_edges(&self.recon_y, w, h, bx * 4, by * 4, bs);
        let (u_bottom, u_right) = block_edges(&self.recon_u, cw, chh, bx * 2, by * 2, bs / 2);
        let (v_bottom, v_right) = block_edges(&self.recon_v, cw, chh, bx * 2, by * 2, bs / 2);
        let mi_cols = self.mi_cols;
        let mi_rows = self.mi_rows;
        self.ctx.update_recon(
            bx,
            by,
            mi_cols,
            mi_rows,
            y_bottom.as_slice(),
            y_right.as_slice(),
            u_bottom.as_slice(),
            u_right.as_slice(),
            v_bottom.as_slice(),
            v_right.as_slice(),
        );
        proof {
            assert(v_bottom@.subrange(0, u_bottom@.len() as int) =~= v_bottom@);
            assert(v_right@.subrange(0, u_right@.len() as int) =~= v_right@);
        }
        self.ctx.update_coef_ctx(bx, by, bl, mi_cols, mi_rows, 0x40, 0x40, 0x40);
        self.ctx.update_partition_ctx(bx, by, bl, mi_cols, mi_rows);
        self.ctx.update_skip_ctx(bx, by, bl, mi_cols, mi_rows, true);
        self.ctx.update_intra_ctx(bx, by, bl, mi_cols, mi_rows, false);
        self.ctx.update_newmv_flag(bx, by, bl, mi_cols, mi_rows, false);
        let m: u32 = if bl == 0 { 32 } else if bl == 1 { 16 } else if bl == 2 { 8 } else if bl == 3 { 4 } else { 2 };
        fill_mvs(&mut self.block_mvs, mi_cols, mi_rows, bx, by, m, BlockMv { mv_x: 0, mv_y: 0, ref_frame: 0 });
        proof {
            let c = self.ctx;
            assert(forall|j: int| 0 <= j < c.above_skip@.len() ==> #[trigger] c.above_skip@[j] <= 1);
            assert(forall|j: int| 0 <= j < c.left_skip@.len() ==> #[trigger] c.left_skip@[j] <= 1);
        }
    }
}

/// `n` samples of mid grey.
/// `n` samples of value `v`.
pub(crate) fn const_plane(n: usize, v: u8) -> (r: Vec<u8>)
    ensures
        r@ == flat_plane(n as nat, v),
{
    let mut r: Vec<u8> = Vec::new();
    let mut i: usize = 0;
    while i < n
        invariant
            i <= n,
            r@ == flat_plane(i as nat, v),
        decreases n - i,
    {
        r.push(v);
        i += 1;
        assert(r@ =~= flat_plane(i as nat, v));
    }
    r
}

pub(crate) fn grey_plane(n: usize) -> (r: Vec<u8>)
    ensures
        r@ == Seq::new(n as nat, |i: int| 128u8),
{
    let mut r: Vec<u8> = Vec::new();
    let mut i: usize = 0;
    while i < n
        invariant
            i <= n,
            r@ == Seq::new(i as nat, |j: int| 128u8),
        decreases n - i,
    {
        r.push(128);
        i += 1;
        assert(r@ =~= Seq::new(i as nat, |j: int| 128u8));
    }
    r
}

/// `n` motion vectors of "no reference".
fn unset_mvs(n: usize) -> (r: Vec<BlockMv>)
    ensures
        r@ == Seq::new(n as nat, |i: int| BlockMv { mv_x: 0, mv_y: 0, ref_frame: -1i8 }),
{
    let mut r: Vec<BlockMv> = Vec::new();
    let mut i: usize = 0;
    while i < n
        invariant
            i <= n,
            r@ == Seq::new(i as nat, |j: int| BlockMv { mv_x: 0, mv_y: 0, ref_frame: -1i8 }),
        decreases n - i,
    {
        r.push(BlockMv { mv_x: 0, mv_y: 0, ref_frame: -1 });
        i += 1;
        assert(r@ =~= Seq::new(i as nat, |j: int| BlockMv { mv_x: 0, mv_y: 0, ref_frame: -1i8 }));
    }
    r
}

impl InterTileEncoder {
    /// An encoder for the `width` x `height` source planes `src_y`, `src_u`,
    /// `src_v` predicted from the reference planes `ref_y`, `ref_u`, `ref_v`
    /// with quantizer steps `dc_dq` and `ac_dq`, coding with the CDFs `cdfs`
    /// and no CDF adaptation: a fresh coder and context, a mid-grey
    /// reconstruction, and no motion vectors yet.
    pub fn new(
        width: u32,
        height: u32,
        src_y: Vec<u8>,
        src_u: Vec<u8>,
        src_v: Vec<u8>,
        ref_y: Vec<u8>,
        ref_u: Vec<u8>,
        ref_v: Vec<u8>,
        dc_dq: u32,
        ac_dq: u32,
        cdfs: Vec<Vec<u16>>,
    ) -> (t: InterTileEncoder)
        requires
            1 <= width <= 0xffff,
            1 <= height <= 0xffff,
            src_y@.len() == width * height,
            src_u@.len() == half_up(width as int) * half_up(height as int),
            src_v@.len() == half_up(width as int) * half_up(height as int),
            ref_y@.len() == width * height,
            ref_u@.len() == half_up(width as int) * half_up(height as int),
            ref_v@.len() == half_up(width as int) * half_up(height as int),
            1 <= dc_dq <= 0x10000,
            1 <= ac_dq <= 0x10000,
            cdfs_valid(cdf_view(cdfs@)),
        ensures
            t.wf(),
            !t.enc.updates_cdf(),
            t.enc.model() == (0u32, 0x8000u16, -9i16, Seq::<u16>::empty()),
            t.cdfs@ == cdfs@,
            t.width == width,
            t.height == height,
            t.src_y@ == src_y@,
            t.src_u@ == src_u@,
            t.src_v@ == src_v@,
            t.ref_y@ == ref_y@,
            t.ref_u@ == ref_u@,
            t.ref_v@ == ref_v@,
            t.dc_dq == dc_dq,
            t.ac_dq == ac_dq,
            t.recon_y@ == Seq::new((width * height) as nat, |i: int| 128u8),
            t.recon_u@ == Seq::new((half_up(width as int) * half_up(height as int)) as nat, |i: int| 128u8),
            t.recon_v@ == Seq::new((half_up(width as int) * half_up(height as int)) as nat, |i: int| 128u8),
            t.block_mvs@ == Seq::new(
                (mi_count(width) * mi_count(height)) as nat,
                |i: int| BlockMv { mv_x: 0, mv_y: 0, ref_frame: -1i8 },
            ),
            crate::tile::fresh_context(t.ctx, t.mi_cols),
    {
        let mi_cols = 2 * ((width + 7) / 8);
        let mi_rows = 2 * ((height + 7) / 8);
        let cw = width / 2 + width % 2;
        let chh = height / 2 + height % 2;
        proof {
            assert(width * height <= 0xffff * 0xffff) by (nonlinear_arith)
                requires
                    width <= 0xffff,
                    height <= 0xffff,
            ;
            assert(cw * chh <= 0x8000 * 0x8000) by (nonlinear_arith)
                requires
                    cw <= 0x8000,
                    chh <= 0x8000,
            ;
            assert(mi_cols * mi_rows <= 0x4000 * 0x4000) by (nonlinear_arith)
                requires
                    mi_cols <= 0x4000,
                    mi_rows <= 0x4000,
            ;
        }
        let mut enc = MsacEncoder::new();
        enc.set_cdf_updates(false);
        let ctx = TileContext::new(mi_cols);
        InterTileEncoder {
            enc,
            cdfs,
            ctx,
            mi_cols,
            mi_rows,
            width,
            height,
            src_y,
            src_u,
            src_v,
            ref_y,
            ref_u,
            ref_v,
            dc_dq,
            ac_dq,
            recon_y: grey_plane((width * height) as usize),
            recon_u: grey_plane((cw * chh) as usize),
            recon_v: grey_plane((cw * chh) as usize),
            block_mvs: unset_mvs((mi_cols * mi_rows) as usize),
        }
    }
}

} // verus!
