use vstd::prelude::*;

use crate::coef::{CoefOp, op_step, state_of, code_symbol, slot_symbols, PARTITION_BASE, CDF_COUNT, cdfs_valid};
use crate::inter::{InterTileEncoder, inter_skip_done, cdf_view, mi_count};
use crate::motion::BlockMv;
use crate::msac::{resolve_carries, flush_words};
use crate::y4m::half_up;
use crate::inter_block::{inter_block_done, inter_analysis, inter_none_spec};
use crate::msac::{MsacEncoder, MsacModel, store_spec, bounds_ok, cdf_valid};
use crate::tile::{fresh_context, left_reset, bit, in_sb, top_partition_prob_spec, left_partition_prob_spec, gather_top_partition_prob, gather_left_partition_prob};

verus! {

/// The side of a block of level `bl` in 4x4 units, halved: the offset of
/// its lower and right halves.
pub open spec fn half_units(bl: int) -> int {
    if bl == 0 { 16 } else if bl == 1 { 8 } else if bl == 2 { 4 } else if bl == 3 { 2 } else { 1 }
}

/// The partition CDF of the block of level `bl` at `(bx, by)`: its level
/// and the split bits of its above and left neighbours at that level.
pub open spec fn part_slot(t: InterTileEncoder, bx: u32, by: u32, bl: int) -> int {
    PARTITION_BASE + bl * 4 + bit(t.ctx.above_partition@[(bx / 2) as int], 4 - bl) + 2 * bit(t.ctx.left_partition@[in_sb(by) / 2], 4 - bl)
}

/// Everything of `t` that coding never changes is as in `u`.
pub open spec fn frame_same(t: InterTileEncoder, u: InterTileEncoder) -> bool {
    &&& u.width == t.width
    &&& u.height == t.height
    &&& u.mi_cols == t.mi_cols
    &&& u.mi_rows == t.mi_rows
    &&& u.src_y == t.src_y
    &&& u.src_u == t.src_u
    &&& u.src_v == t.src_v
    &&& u.ref_y == t.ref_y
    &&& u.ref_u == t.ref_u
    &&& u.ref_v == t.ref_v
    &&& u.dc_dq == t.dc_dq
    &&& u.ac_dq == t.ac_dq
    &&& u.enc.updates_cdf() == t.enc.updates_cdf()
}

/// `u` is `t` after coding one symbol, and nothing else changed.
pub open spec fn part_symbol_done(t: InterTileEncoder, u: InterTileEncoder, slot: int, sym: u32, n: u32) -> bool {
    &&& state_of(u.enc, u.cdfs@) == op_step(state_of(t.enc, t.cdfs@), CoefOp::Symbol(slot as usize, sym, n), t.enc.updates_cdf())
    &&& frame_same(t, u)
    &&& u.ctx == t.ctx
    &&& u.recon_y == t.recon_y
    &&& u.recon_u == t.recon_u
    &&& u.recon_v == t.recon_v
    &&& u.block_mvs == t.block_mvs
}

/// `u` is `t` after coding a split bit with probability `prob`, and nothing
/// else changed.
pub open spec fn part_bit_done(t: InterTileEncoder, u: InterTileEncoder, prob: int) -> bool {
    &&& u.enc.model() == store_spec(t.enc.model(), prob as u16, 0, 1)
    &&& u.cdfs == t.cdfs
    &&& frame_same(t, u)
    &&& u.ctx == t.ctx
    &&& u.recon_y == t.recon_y
    &&& u.recon_u == t.recon_u
    &&& u.recon_v == t.recon_v
    &&& u.block_mvs == t.block_mvs
}

/// What coding the partition tree of level `bl` at `(bx, by)` leaves: where
/// both halves lie in the tile, a partition symbol and then either the whole
/// block (a skipped block when its error is small enough, from level 2 on;
/// a coded inter block at level 4) or the four quarters in turn; where only
/// the right or only the lower half is missing, a split bit and the two
/// halves that exist; else the block one level down.
#[verifier::opaque]
pub open spec fn inter_partition_done(t: InterTileEncoder, u: InterTileEncoder, bl: int, bx: u32, by: u32) -> bool
    decreases 5 - bl, 1int,
{
    if bl > 4 || bl < 1 {
        u == t
    } else {
        let hsz = half_units(bl);
        let hs = t.mi_cols > bx + hsz;
        let vs = t.mi_rows > by + hsz;
        if hs && vs {
            if bl < 4 {
                if bl >= 2 && inter_none_spec(t, bx, by, bl as usize) {
                    part_whole_branch(t, u, bl, bx, by)
                } else {
                    part_split4_branch(t, u, bl, bx, by)
                }
            } else {
                part_leaf_branch(t, u, bx, by)
            }
        } else if hs {
            part_split2_branch(t, u, bl, bx, by, true)
        } else if vs {
            part_split2_branch(t, u, bl, bx, by, false)
        } else {
            inter_partition_done(t, u, bl + 1, bx, by)
        }
    }
}

/// The partition symbol NONE, then the whole block coded as skipped.
pub open spec fn part_whole_branch(t: InterTileEncoder, u: InterTileEncoder, bl: int, bx: u32, by: u32) -> bool {
    exists|m: InterTileEncoder| #[trigger] part_symbol_done(t, m, part_slot(t, bx, by, bl), 0, 9) && inter_skip_done(m, u, bx, by, bl as usize) && frame_same(m, u)
}

/// The partition symbol NONE of an 8x8 block, then the block coded.
pub open spec fn part_leaf_branch(t: InterTileEncoder, u: InterTileEncoder, bx: u32, by: u32) -> bool {
    exists|m: InterTileEncoder| #[trigger] part_symbol_done(t, m, part_slot(t, bx, by, 4), 0, 3) && inter_block_done(m, u, bx, by, 4, inter_analysis(m, bx, by)) && frame_same(m, u)
}

/// Names the intermediate encoders of a split: always true.
pub open spec fn steps4(m0: InterTileEncoder, m1: InterTileEncoder, m2: InterTileEncoder, m3: InterTileEncoder) -> bool {
    true
}

/// Names the intermediate encoders of a split in two: always true.
pub open spec fn steps2(m0: InterTileEncoder, m1: InterTileEncoder) -> bool {
    true
}

/// The partition symbol SPLIT, then the four quarters in turn.
pub open spec fn part_split4_branch(t: InterTileEncoder, u: InterTileEncoder, bl: int, bx: u32, by: u32) -> bool
    decreases 5 - bl, 0int,
{
    let nbx = (bx + half_units(bl)) as u32;
    let nby = (by + half_units(bl)) as u32;
    if 1 <= bl <= 4 {
        exists|m0: InterTileEncoder, m1: InterTileEncoder, m2: InterTileEncoder, m3: InterTileEncoder|
            #[trigger] steps4(m0, m1, m2, m3)
            && part_symbol_done(t, m0, part_slot(t, bx, by, bl), 3, 9)
            && inter_partition_done(m0, m1, bl + 1, bx, by)
            && inter_partition_done(m1, m2, bl + 1, nbx, by)
            && inter_partition_done(m2, m3, bl + 1, bx, nby)
            && inter_partition_done(m3, u, bl + 1, nbx, nby)
    } else {
        false
    }
}

/// A split bit, then the left and right halves when `right`, else the upper
/// and lower ones.
pub open spec fn part_split2_branch(t: InterTileEncoder, u: InterTileEncoder, bl: int, bx: u32, by: u32, right: bool) -> bool
    decreases 5 - bl, 0int,
{
    let slot = part_slot(t, bx, by, bl);
    if 1 <= bl <= 4 {
        if right {
            exists|m0: InterTileEncoder, m1: InterTileEncoder|
                #[trigger] steps2(m0, m1)
                && part_bit_done(t, m0, top_partition_prob_spec(t.cdfs@[slot]@, bl))
                && inter_partition_done(m0, m1, bl + 1, bx, by)
                && inter_partition_done(m1, u, bl + 1, (bx + half_units(bl)) as u32, by)
        } else {
            exists|m0: InterTileEncoder, m1: InterTileEncoder|
                #[trigger] steps2(m0, m1)
                && part_bit_done(t, m0, left_partition_prob_spec(t.cdfs@[slot]@, bl))
                && inter_partition_done(m0, m1, bl + 1, bx, by)
                && inter_partition_done(m1, u, bl + 1, bx, (by + half_units(bl)) as u32)
        }
    } else {
        false
    }
}

/// A split probability gathered from a valid ten-symbol partition CDF lies
/// below 32768, so a coder in any valid state can code a split bit with it.
proof fn lemma_partition_prob_ok(pc: Seq<u16>, bl: int, rng: u16)
    requires
        cdf_valid(pc, 9),
        1 <= bl <= 3,
        0x8000 <= rng,
    ensures
        0 <= top_partition_prob_spec(pc, bl) < 32768,
        0 <= left_partition_prob_spec(pc, bl) < 32768,
        bounds_ok(rng, top_partition_prob_spec(pc, bl) as u16, 0, 1),
        bounds_ok(rng, left_partition_prob_spec(pc, bl) as u16, 0, 1),
{
    assert(pc[0] >= pc[1] && pc[1] >= pc[2] && pc[2] >= pc[4] && pc[4] >= pc[5] && pc[5] >= pc[6]);
    assert(pc[6] >= pc[7] && pc[7] >= pc[8] && pc[0] < 32768);
    let top = top_partition_prob_spec(pc, bl);
    let left = left_partition_prob_spec(pc, bl);
    assert(0 <= top < 32768);
    assert(0 <= left < 32768);
    lemma_bit_interval_ok(rng, top);
    lemma_bit_interval_ok(rng, left);
}

proof fn lemma_bit_interval_ok(rng: u16, p: int)
    requires
        0x8000 <= rng,
        0 <= p < 32768,
    ensures
        bounds_ok(rng, p as u16, 0, 1),
{
    let a = rng as int / 256;
    let b = p / 64;
    let f = p as u16;
    assert(f as int == p);
    assert(f as int / 64 == b);
    assert(a * 0 == 0);
    assert(a * b / 2 + 4 <= rng) by (nonlinear_arith)
        requires
            a == rng as int / 256,
            0 <= b <= 511,
            0x8000 <= rng <= 0xffff,
    ;
    assert(a * b / 2 + 4 >= 1) by (nonlinear_arith)
        requires
            a >= 0,
            b >= 0,
    ;
    let (l, r) = crate::msac::bounds_spec(rng, f, 0, 1);
    assert(r == a * b / 2 + 4);
    assert(l == rng - (a * b / 2 + 4));
}

/// Requirements shared by the partition coders.
pub open spec fn part_pre(t: InterTileEncoder, bl: int, bx: u32, by: u32) -> bool {
    &&& t.wf()
    &&& 1 <= bl <= 4
    &&& bx < t.mi_cols
    &&& by < t.mi_rows
    &&& bx % 2 == 0
    &&& by % 2 == 0
}

/// The four quarters coded in turn after the split symbol make the tree.
proof fn lemma_split4_done(t: InterTileEncoder, m0: InterTileEncoder, m1: InterTileEncoder, m2: InterTileEncoder, m3: InterTileEncoder, u: InterTileEncoder, bl: int, bx: u32, by: u32)
    requires
        1 <= bl <= 3,
        t.mi_cols > bx + half_units(bl),
        t.mi_rows > by + half_units(bl),
        !(bl >= 2 && inter_none_spec(t, bx, by, bl as usize)),
        part_symbol_done(t, m0, part_slot(t, bx, by, bl), 3, 9),
        inter_partition_done(m0, m1, bl + 1, bx, by),
        inter_partition_done(m1, m2, bl + 1, (bx + half_units(bl)) as u32, by),
        inter_partition_done(m2, m3, bl + 1, bx, (by + half_units(bl)) as u32),
        inter_partition_done(m3, u, bl + 1, (bx + half_units(bl)) as u32, (by + half_units(bl)) as u32),
    ensures
        inter_partition_done(t, u, bl, bx, by),
{
    assert(part_split4_branch(t, u, bl, bx, by)) by {
        reveal_with_fuel(part_split4_branch, 1);
        reveal_with_fuel(inter_partition_done, 1);
        assert(steps4(m0, m1, m2, m3));
    }
    reveal(inter_partition_done);
}

/// The two halves coded in turn after the split bit make the tree.
proof fn lemma_split2_done(t: InterTileEncoder, m0: InterTileEncoder, m1: InterTileEncoder, u: InterTileEncoder, bl: int, bx: u32, by: u32, right: bool)
    requires
        1 <= bl <= 3,
        right <==> t.mi_cols > bx + half_units(bl),
        right <==> !(t.mi_rows > by + half_units(bl)),
        right ==> part_bit_done(t, m0, top_partition_prob_spec(t.cdfs@[part_slot(t, bx, by, bl)]@, bl)),
        !right ==> part_bit_done(t, m0, left_partition_prob_spec(t.cdfs@[part_slot(t, bx, by, bl)]@, bl)),
        inter_partition_done(m0, m1, bl + 1, bx, by),
        right ==> inter_partition_done(m1, u, bl + 1, (bx + half_units(bl)) as u32, by),
        !right ==> inter_partition_done(m1, u, bl + 1, bx, (by + half_units(bl)) as u32),
    ensures
        inter_partition_done(t, u, bl, bx, by),
{
    assert(part_split2_branch(t, u, bl, bx, by, right)) by {
        reveal_with_fuel(part_split2_branch, 1);
        reveal_with_fuel(inter_partition_done, 1);
        assert(steps2(m0, m1));
    }
    reveal(inter_partition_done);
}

impl InterTileEncoder {
    /// Codes the whole block as skipped, after its partition symbol.
    #[verifier::spinoff_prover]
    fn part_whole_skip(&mut self, bl: usize, bx: u32, by: u32)
        requires
            part_pre(*old(self), bl as int, bx, by),
            2 <= bl <= 3,
            old(self).mi_cols > bx + half_units(bl as int),
            old(self).mi_rows > by + half_units(bl as int),
            inter_none_spec(*old(self), bx, by, bl),
        ensures
            final(self).wf(),
            frame_same(*old(self), *final(self)),
            inter_partition_done(*old(self), *final(self), bl as int, bx, by),
    {
        let ghost t0 = *self;
        proof {
            assert(bx < 0x4000 && by < 0x4000);
        }
        let pctx = self.ctx.partition_ctx(bx, by, bl);
        let slot = PARTITION_BASE + bl * 4 + pctx;
        code_symbol(&mut self.enc, &mut self.cdfs, slot, 0, 9);
        let ghost m = *self;
        self.encode_inter_skip_block(bx, by, bl);
        proof {
            assert(part_symbol_done(t0, m, part_slot(t0, bx, by, bl as int), 0, 9));
            assert(part_whole_branch(t0, *self, bl as int, bx, by));
        }
        assert(inter_partition_done(t0, *self, bl as int, bx, by)) by {
            reveal(inter_partition_done);
        }
    }

    /// Codes the coded 8x8 inter block, after its partition symbol.
    #[verifier::spinoff_prover]
    fn part_leaf(&mut self, bx: u32, by: u32)
        requires
            part_pre(*old(self), 4, bx, by),
            old(self).mi_cols > bx + 1,
            old(self).mi_rows > by + 1,
        ensures
            final(self).wf(),
            frame_same(*old(self), *final(self)),
            inter_partition_done(*old(self), *final(self), 4, bx, by),
    {
        let ghost t0 = *self;
        proof {
            assert(bx < 0x4000 && by < 0x4000);
        }
        let pctx = self.ctx.partition_ctx(bx, by, 4);
        let slot = PARTITION_BASE + 16 + pctx;
        code_symbol(&mut self.enc, &mut self.cdfs, slot, 0, 3);
        let ghost m = *self;
        self.encode_inter_block(bx, by, 4);
        proof {
            assert(part_symbol_done(t0, m, part_slot(t0, bx, by, 4), 0, 3));
            assert(part_leaf_branch(t0, *self, bx, by));
        }
        assert(inter_partition_done(t0, *self, 4, bx, by)) by {
            reveal(inter_partition_done);
        }
    }

    /// Codes the four quarters in turn, after the split symbol.
    #[verifier::spinoff_prover]
    fn part_split4(&mut self, bl: usize, bx: u32, by: u32)
        requires
            part_pre(*old(self), bl as int, bx, by),
            bl <= 3,
            old(self).mi_cols > bx + half_units(bl as int),
            old(self).mi_rows > by + half_units(bl as int),
            !(bl >= 2 && inter_none_spec(*old(self), bx, by, bl)),
        ensures
            final(self).wf(),
            frame_same(*old(self), *final(self)),
            inter_partition_done(*old(self), *final(self), bl as int, bx, by),
        decreases 5 - bl, 0int,
    {
        let ghost t0 = *self;
        proof {
            assert(bx < 0x4000 && by < 0x4000);
        }
        let hsz: u32 = if bl == 1 { 8 } else if bl == 2 { 4 } else { 2 };
        let pctx = self.ctx.partition_ctx(bx, by, bl);
        let slot = PARTITION_BASE + bl * 4 + pctx;
        code_symbol(&mut self.enc, &mut self.cdfs, slot, 3, 9);
        let ghost m0 = *self;
        self.encode_inter_partition(bl + 1, bx, by);
        let ghost m1 = *self;
        self.encode_inter_partition(bl + 1, bx + hsz, by);
        let ghost m2 = *self;
        self.encode_inter_partition(bl + 1, bx, by + hsz);
        let ghost m3 = *self;
        self.encode_inter_partition(bl + 1, bx + hsz, by + hsz);
        proof {
            assert(part_symbol_done(t0, m0, part_slot(t0, bx, by, bl as int), 3, 9));
            assert(inter_partition_done(m0, m1, bl + 1, bx, by));
            assert(inter_partition_done(m1, m2, bl + 1, (bx + hsz) as u32, by));
            assert(inter_partition_done(m2, m3, bl + 1, bx, (by + hsz) as u32));
            lemma_split4_done(t0, m0, m1, m2, m3, *self, bl as int, bx, by);
        }
    }

    /// Codes the two halves that exist, after a split bit: the left and
    /// right halves when `right`, else the upper and lower ones.
    #[verifier::spinoff_prover]
    #[verifier::rlimit(100)]
    fn part_split2(&mut self, bl: usize, bx: u32, by: u32, right: bool)
        requires
            part_pre(*old(self), bl as int, bx, by),
            bl <= 3,
            right <==> old(self).mi_cols > bx + half_units(bl as int),
            right <==> !(old(self).mi_rows > by + half_units(bl as int)),
        ensures
            final(self).wf(),
            frame_same(*old(self), *final(self)),
            inter_partition_done(*old(self), *final(self), bl as int, bx, by),
        decreases 5 - bl, 0int,
    {
        let ghost t0 = *self;
        proof {
            assert(bx < 0x4000 && by < 0x4000);
        }
        let hsz: u32 = if bl == 1 { 8 } else if bl == 2 { 4 } else { 2 };
        let pctx = self.ctx.partition_ctx(bx, by, bl);
        let slot = PARTITION_BASE + bl * 4 + pctx;
        proof {
            assert(pctx <= 3);
            assert(cdf_valid(cdf_view(self.cdfs@)[slot as int], slot_symbols(slot as int)));
            lemma_partition_prob_ok(self.cdfs@[slot as int]@, bl as int, self.enc.model().1);
        }
        let prob = if right {
            gather_top_partition_prob(self.cdfs[slot].as_slice(), bl)
        } else {
            gather_left_partition_prob(self.cdfs[slot].as_slice(), bl)
        };
        self.enc.encode_bool_prob(true, prob);
        let ghost m0 = *self;
        self.encode_inter_partition(bl + 1, bx, by);
        let ghost m1 = *self;
        if right {
            self.encode_inter_partition(bl + 1, bx + hsz, by);
        } else {
            self.encode_inter_partition(bl + 1, bx, by + hsz);
        }
        proof {
            assert(inter_partition_done(m0, m1, bl + 1, bx, by));
            if right {
                assert(part_bit_done(t0, m0, top_partition_prob_spec(t0.cdfs@[part_slot(t0, bx, by, bl as int)]@, bl as int)));
            } else {
                assert(part_bit_done(t0, m0, left_partition_prob_spec(t0.cdfs@[part_slot(t0, bx, by, bl as int)]@, bl as int)));
            }
            lemma_split2_done(t0, m0, m1, *self, bl as int, bx, by, right);
        }
    }

    /// Codes the partition tree of level `bl` at 4x4 unit `(bx, by)`: see
    /// [`inter_partition_done`].
    #[verifier::spinoff_prover]
    #[verifier::rlimit(100)]
    pub fn encode_inter_partition(&mut self, bl: usize, bx: u32, by: u32)
        requires
            old(self).wf(),
            1 <= bl <= 5,
            bx < old(self).mi_cols,
            by < old(self).mi_rows,
            bx % 2 == 0,
            by % 2 == 0,
        ensures
            final(self).wf(),
            frame_same(*old(self), *final(self)),
            inter_partition_done(*old(self), *final(self), bl as int, bx, by),
        decreases 5 - bl, 1int,
    {
        let ghost t0 = *self;
        if bl > 4 {
            proof {
                reveal(inter_partition_done);
            }
            return;
        }
        let hsz: u32 = if bl == 1 { 8 } else if bl == 2 { 4 } else if bl == 3 { 2 } else { 1 };
        proof {
            assert(bx < 0x4000 && by < 0x4000);
            assert(self.mi_cols % 2 == 0 && self.mi_rows % 2 == 0);
        }
        let hs = self.mi_cols > bx + hsz;
        let vs = self.mi_rows > by + hsz;
        if hs && vs {
            if bl < 4 {
                if bl >= 2 && self.should_use_inter_partition_none(bx, by, bl) {
                    self.part_whole_skip(bl, bx, by);
                } else {
                    self.part_split4(bl, bx, by);
                }
            } else {
                self.part_leaf(bx, by);
            }
        } else if hs {
            assert(bl < 4);
            self.part_split2(bl, bx, by, true);
        } else if vs {
            assert(bl < 4);
            self.part_split2(bl, bx, by, false);
        } else {
            self.encode_inter_partition(bl + 1, bx, by);
            assert(inter_partition_done(t0, *self, bl as int, bx, by)) by {
                reveal(inter_partition_done);
            }
        }
    }
}

/// Names an intermediate encoder: always true.
pub open spec fn step_at(m: InterTileEncoder) -> bool {
    true
}

/// `u` is `t` with the left context cleared for a new superblock row.
pub open spec fn row_reset_done(t: InterTileEncoder, u: InterTileEncoder) -> bool {
    &&& left_reset(t.ctx, u.ctx)
    &&& u.enc == t.enc
    &&& u.cdfs == t.cdfs
    &&& frame_same(t, u)
    &&& u.recon_y == t.recon_y
    &&& u.recon_u == t.recon_u
    &&& u.recon_v == t.recon_v
    &&& u.block_mvs == t.block_mvs
}

/// The first `n` 64x64 superblocks of superblock row `row` coded in turn,
/// each as a partition tree of level 1.
pub open spec fn sb_row_done(t: InterTileEncoder, u: InterTileEncoder, row: int, n: int) -> bool
    decreases n,
{
    if n <= 0 {
        u == t
    } else {
        exists|m: InterTileEncoder| #[trigger] step_at(m) && sb_row_done(t, m, row, n - 1) && inter_partition_done(m, u, 1, (16 * (n - 1)) as u32, (16 * row) as u32)
    }
}

/// The first `n` superblock rows of a tile `cols` superblocks wide coded in
/// turn, each after clearing the left context.
pub open spec fn tile_rows_done(t: InterTileEncoder, u: InterTileEncoder, n: int, cols: int) -> bool
    decreases n,
{
    if n <= 0 {
        u == t
    } else {
        exists|m: InterTileEncoder, r: InterTileEncoder| #[trigger] steps2(m, r) && tile_rows_done(t, m, n - 1, cols) && row_reset_done(m, r) && sb_row_done(r, u, n - 1, cols)
    }
}

proof fn lemma_sb_row_step(t: InterTileEncoder, m: InterTileEncoder, u: InterTileEncoder, row: int, n: int)
    requires
        n >= 0,
        sb_row_done(t, m, row, n),
        inter_partition_done(m, u, 1, (16 * n) as u32, (16 * row) as u32),
    ensures
        sb_row_done(t, u, row, n + 1),
{
    assert(step_at(m));
    reveal_with_fuel(sb_row_done, 2);
}

proof fn lemma_tile_rows_step(t: InterTileEncoder, m: InterTileEncoder, r: InterTileEncoder, u: InterTileEncoder, n: int, cols: int)
    requires
        n >= 0,
        tile_rows_done(t, m, n, cols),
        row_reset_done(m, r),
        sb_row_done(r, u, n, cols),
    ensures
        tile_rows_done(t, u, n + 1, cols),
{
    assert(steps2(m, r));
    reveal_with_fuel(tile_rows_done, 2);
}

/// The encoder a tile starts from: the given planes, steps and CDFs, a
/// fresh coder without CDF adaptation, a fresh context, a mid-grey
/// reconstruction and no motion vectors.
pub open spec fn inter_tile_start(
    t: InterTileEncoder,
    width: u32,
    height: u32,
    src: (Seq<u8>, Seq<u8>, Seq<u8>),
    rf: (Seq<u8>, Seq<u8>, Seq<u8>),
    dc_dq: u32,
    ac_dq: u32,
    cdfs: Seq<Vec<u16>>,
) -> bool {
    &&& t.wf()
    &&& !t.enc.updates_cdf()
    &&& t.enc.model() == (0u32, 0x8000u16, -9i16, Seq::<u16>::empty())
    &&& t.cdfs@ == cdfs
    &&& t.width == width
    &&& t.height == height
    &&& (t.src_y@, t.src_u@, t.src_v@) == src
    &&& (t.ref_y@, t.ref_u@, t.ref_v@) == rf
    &&& t.dc_dq == dc_dq
    &&& t.ac_dq == ac_dq
    &&& t.recon_y@ == Seq::new((width * height) as nat, |i: int| 128u8)
    &&& t.recon_u@ == Seq::new((half_up(width as int) * half_up(height as int)) as nat, |i: int| 128u8)
    &&& t.recon_v@ == Seq::new((half_up(width as int) * half_up(height as int)) as nat, |i: int| 128u8)
    &&& t.block_mvs@ == Seq::new((mi_count(width) * mi_count(height)) as nat, |i: int| BlockMv { mv_x: 0, mv_y: 0, ref_frame: -1i8 })
    &&& fresh_context(t.ctx, t.mi_cols)
}

/// Encodes a `width` x `height` picture as one inter-coded tile predicted
/// from the reference planes: the 64x64 superblocks row by row, each as a
/// partition tree (see [`inter_partition_done`]), the left context cleared
/// at the start of each row. Returns the tile's bytes and the
/// reconstructed planes.
pub fn encode_inter_tile_with_recon(
    width: u32,
    height: u32,
    src_y: Vec<u8>,
    src_u: Vec<u8>,
    src_v: Vec<u8>,
    ref_y: Vec<u8>,
    ref_u: Vec<u8>,
    ref_v: Vec<u8>,
    dc_dq: u32,
    ac_dq: u32,
    cdfs: Vec<Vec<u16>>,
) -> (r: (Vec<u8>, Vec<u8>, Vec<u8>, Vec<u8>))
    requires
        1 <= width <= 0xffff,
        1 <= height <= 0xffff,
        src_y@.len() == width * height,
        src_u@.len() == half_up(width as int) * half_up(height as int),
        src_v@.len() == half_up(width as int) * half_up(height as int),
        ref_y@.len() == width * height,
        ref_u@.len() == half_up(width as int) * half_up(height as int),
        ref_v@.len() == half_up(width as int) * half_up(height as int),
        1 <= dc_dq <= 0x10000,
        1 <= ac_dq <= 0x10000,
        cdfs_valid(cdf_view(cdfs@)),
    ensures
        exists|t: InterTileEncoder, u: InterTileEncoder|
            #[trigger] steps2(t, u)
            && inter_tile_start(t, width, height, (src_y@, src_u@, src_v@), (ref_y@, ref_u@, ref_v@), dc_dq, ac_dq, cdfs@)
            && tile_rows_done(t, u, (mi_count(height) + 15) / 16, (mi_count(width) + 15) / 16)
            && r.0@ == resolve_carries(u.enc.model().3 + flush_words(u.enc.model().0, u.enc.model().2))
            && r.1@ == u.recon_y@
            && r.2@ == u.recon_u@
            && r.3@ == u.recon_v@,
{
    let ghost s = (src_y@, src_u@, src_v@);
    let ghost f = (ref_y@, ref_u@, ref_v@);
    let ghost c = cdfs@;
    let mut t = InterTileEncoder::new(width, height, src_y, src_u, src_v, ref_y, ref_u, ref_v, dc_dq, ac_dq, cdfs);
    let ghost t0 = t;
    assert(inter_tile_start(t0, width, height, s, f, dc_dq, ac_dq, c));
    let sb_cols = (t.mi_cols + 15) / 16;
    let sb_rows = (t.mi_rows + 15) / 16;
    let mut row: u32 = 0;
    proof {
        reveal_with_fuel(tile_rows_done, 1);
    }
    while row < sb_rows
        invariant
            row <= sb_rows,
            sb_rows == (t0.mi_rows + 15) / 16,
            sb_cols == (t0.mi_cols + 15) / 16,
            t.wf(),
            frame_same(t0, t),
            t0.mi_cols <= 0x4000,
            t0.mi_rows <= 0x4000,
            tile_rows_done(t0, t, row as int, sb_cols as int),
        decreases sb_rows - row,
    {
        let ghost m = t;
        t.ctx.reset_left_for_sb_row();
        let ghost r0 = t;
        assert(row_reset_done(m, r0));
        let mut col: u32 = 0;
        proof {
            reveal_with_fuel(sb_row_done, 1);
        }
        while col < sb_cols
            invariant
                col <= sb_cols,
                row < sb_rows,
                sb_rows == (t0.mi_rows + 15) / 16,
                sb_cols == (t0.mi_cols + 15) / 16,
                t.wf(),
                frame_same(t0, t),
                t0.mi_cols <= 0x4000,
                t0.mi_rows <= 0x4000,
                sb_row_done(r0, t, row as int, col as int),
            decreases sb_cols - col,
        {
            let ghost before = t;
            t.encode_inter_partition(1, col * 16, row * 16);
            proof {
                lemma_sb_row_step(r0, before, t, row as int, col as int);
            }
            col += 1;
        }
        proof {
            lemma_tile_rows_step(t0, m, r0, t, row as int, sb_cols as int);
        }
        row += 1;
    }
    let ghost u = t;
    let InterTileEncoder { enc, recon_y, recon_u, recon_v, .. } = t;
    let bytes = enc.finalize();
    assert(steps2(t0, u));
    (bytes, recon_y, recon_u, recon_v)
}

} // verus!
