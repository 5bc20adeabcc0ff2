use vstd::prelude::*;
use vstd::arithmetic::power2::pow2;
use crate::bitwriter::{BitWriter, value_bits, bytes_to_bits, padded, byte_len};

verus! {

/// Most tile columns a frame may have.
pub const MAX_TILE_COLS: u32 = 64;

/// Most tile rows a frame may have.
pub const MAX_TILE_ROWS: u32 = 64;

/// Widest tile, in 64x64 superblocks.
pub const MAX_TILE_WIDTH_SB: u32 = 64;

/// Largest tile area, in 64x64 superblocks.
pub const MAX_TILE_AREA_SB: u32 = 2304;

/// `r` is the least exponent for which `blk * 2^r` reaches `target`.
pub open spec fn is_tile_log2(blk: int, target: int, r: int) -> bool {
    &&& 0 <= r
    &&& blk * pow2(r as nat) >= target
    &&& (r == 0 || blk * pow2((r - 1) as nat) < target)
}

/// The least `k` for which `blk_size << k` reaches `target`.
pub fn tile_log2(blk_size: u32, target: u32) -> (r: u32)
    requires
        1 <= blk_size,
        target <= 0x8000_0000,
    ensures
        is_tile_log2(blk_size as int, target as int, r as int),
        r < 32,
{
    let mut k: u32 = 0;
    proof {
        vstd::arithmetic::power2::lemma2_to64();
        vstd::bits::lemma_u32_shl_is_mul(blk_size, 0);
    }
    while (blk_size << k) < target
        invariant
            1 <= blk_size,
            target <= 0x8000_0000,
            k < 32,
            blk_size * pow2(k as nat) <= u32::MAX,
            k == 0 || blk_size * pow2((k - 1) as nat) < target,
            (blk_size << k) == blk_size * pow2(k as nat),
        decreases 32 - k,
    {
        proof {
            vstd::arithmetic::power2::lemma_pow2_unfold((k + 1) as nat);
            assert(blk_size * pow2((k + 1) as nat) == 2 * (blk_size * pow2(k as nat))) by (nonlinear_arith)
                requires
                    pow2((k + 1) as nat) == 2 * pow2(k as nat),
            ;
            assert(blk_size * pow2(k as nat) >= pow2(k as nat)) by (nonlinear_arith)
                requires
                    1 <= blk_size,
                    pow2(k as nat) >= 0,
            ;
            vstd::arithmetic::power2::lemma2_to64();
            if k > 31 {
                vstd::arithmetic::power2::lemma_pow2_strictly_increases(31, k as nat);
            }
            assert(blk_size * pow2(k as nat) < target);
            assert(k < 31);
            assert(blk_size * pow2((k + 1) as nat) <= u32::MAX);
        }
        k += 1;
        proof {
            vstd::bits::lemma_u32_shl_is_mul(blk_size, k);
        }
    }
    k
}

/// The least `r` for which `blk * 2^r` reaches `target`.
pub open spec fn tlog2(blk: int, target: int) -> int {
    choose|r: int| #[trigger] is_tile_log2(blk, target, r)
}

/// The smaller of two integers.
pub open spec fn min_int(a: int, b: int) -> int {
    if a < b { a } else { b }
}

/// The tile-info bits that a frame of `sbw * sbh` superblocks writes: one
/// tile, with an explicit "no more columns" and "no more rows" bit where
/// the frame would allow more.
pub open spec fn tile_info_bits(sbw: u32, sbh: u32) -> Seq<bool> {
    let min_log2_cols = tlog2(MAX_TILE_WIDTH_SB as int, sbw as int);
    let max_log2_cols = tlog2(1, min_int(sbw as int, MAX_TILE_COLS as int));
    let area_log2 = tlog2(MAX_TILE_AREA_SB as int, sbw * sbh);
    let min_log2_tiles = if area_log2 > min_log2_cols { area_log2 } else { min_log2_cols };
    let min_log2_rows = if min_log2_tiles > min_log2_cols { min_log2_tiles - min_log2_cols } else { 0 };
    let max_log2_rows = tlog2(1, min_int(sbh as int, MAX_TILE_ROWS as int));
    seq![true] + (if min_log2_cols < max_log2_cols { seq![false] } else { Seq::empty() }) + (if min_log2_rows
        < max_log2_rows { seq![false] } else { Seq::empty() })
}

proof fn lemma_tile_log2_unique(blk: int, target: int, a: int, b: int)
    requires
        1 <= blk,
        is_tile_log2(blk, target, a),
        is_tile_log2(blk, target, b),
    ensures
        a == b,
{
    if a < b {
        if a < b - 1 {
            vstd::arithmetic::power2::lemma_pow2_strictly_increases(a as nat, (b - 1) as nat);
        }
        assert(blk * pow2(a as nat) <= blk * pow2((b - 1) as nat)) by (nonlinear_arith)
            requires
                pow2(a as nat) <= pow2((b - 1) as nat),
                1 <= blk,
        ;
    } else if b < a {
        if b < a - 1 {
            vstd::arithmetic::power2::lemma_pow2_strictly_increases(b as nat, (a - 1) as nat);
        }
        assert(blk * pow2(b as nat) <= blk * pow2((a - 1) as nat)) by (nonlinear_arith)
            requires
                pow2(b as nat) <= pow2((a - 1) as nat),
                1 <= blk,
        ;
    }
}

proof fn lemma_tlog2(blk: int, target: int, r: int)
    requires
        1 <= blk,
        is_tile_log2(blk, target, r),
    ensures
        tlog2(blk, target) == r,
{
    let c = tlog2(blk, target);
    assert(is_tile_log2(blk, target, c));
    lemma_tile_log2_unique(blk, target, c, r);
}

/// Writes the tile info of a single-tile frame of `sbw * sbh` superblocks.
pub fn write_tile_info(w: &mut BitWriter, sbw: u32, sbh: u32)
    requires
        old(w).wf(),
        sbw <= 0x8000_0000,
        sbh <= 0x8000_0000,
        sbw as int * sbh as int <= 0x8000_0000,
    ensures
        final(w).wf(),
        final(w).bits() == old(w).bits() + tile_info_bits(sbw, sbh),
{
    let ghost start = w.bits();
    w.write_bit(true);

    let min_log2_cols = tile_log2(MAX_TILE_WIDTH_SB, sbw);
    let max_log2_cols = tile_log2(1, if sbw < MAX_TILE_COLS { sbw } else { MAX_TILE_COLS });
    let log2_cols = min_log2_cols;
    proof {
        lemma_tlog2(MAX_TILE_WIDTH_SB as int, sbw as int, min_log2_cols as int);
        lemma_tlog2(1, min_int(sbw as int, MAX_TILE_COLS as int), max_log2_cols as int);
    }
    let ghost after_cols = w.bits();
    if min_log2_cols < max_log2_cols {
        w.write_bit(false);
    }
    let ghost mid = w.bits();

    let area_log2 = tile_log2(MAX_TILE_AREA_SB, sbw * sbh);
    let min_log2_tiles = if area_log2 > min_log2_cols { area_log2 } else { min_log2_cols };
    let min_log2_rows = if min_log2_tiles > log2_cols { min_log2_tiles - log2_cols } else { 0 };
    let max_log2_rows = tile_log2(1, if sbh < MAX_TILE_ROWS { sbh } else { MAX_TILE_ROWS });
    proof {
        lemma_tlog2(MAX_TILE_AREA_SB as int, sbw * sbh, area_log2 as int);
        lemma_tlog2(1, min_int(sbh as int, MAX_TILE_ROWS as int), max_log2_rows as int);
    }
    if min_log2_rows < max_log2_rows {
        w.write_bit(false);
    }
    assert(w.bits() =~= start + tile_info_bits(sbw, sbh));
}

/// Writes the quantization parameters: the base index and no deltas, no quantizer matrices.
pub fn write_quant_params(w: &mut BitWriter, base_q_idx: u8)
    requires
        old(w).wf(),
    ensures
        final(w).wf(),
        final(w).bits() == old(w).bits() + value_bits(base_q_idx as u64, 8) + seq![false, false, false, false],
{
    let ghost start = w.bits();
    w.write_bits(base_q_idx as u64, 8);
    w.write_bit(false);
    w.write_bit(false);
    w.write_bit(false);
    w.write_bit(false);
    assert(w.bits() =~= start + value_bits(base_q_idx as u64, 8) + seq![false, false, false, false]);
}

/// The CDEF settings for a quantizer index: off below 64, otherwise damping
/// 5 and a primary strength of `q / 16` (within `1..=15`) for luma and chroma.
pub open spec fn cdef_strength_spec(q: u8) -> (u8, u8, u8) {
    if q < 64 {
        (0, 0, 0)
    } else {
        let pri = if q / 16 < 1 { 1 } else if q / 16 > 15 { 15 } else { q / 16 };
        (2, (pri * 4) as u8, (pri * 4) as u8)
    }
}

/// The CDEF settings for a quantizer index: damping minus 3, luma strength, chroma strength.
pub fn cdef_strength_for_qidx(base_q_idx: u8) -> (r: (u8, u8, u8))
    ensures
        r == cdef_strength_spec(base_q_idx),
{
    if base_q_idx < 64 {
        (0, 0, 0)
    } else {
        let q = base_q_idx as u32 / 16;
        let pri = (if q < 1 { 1 } else if q > 15 { 15 } else { q }) as u8;
        proof {
            vstd::arithmetic::power2::lemma2_to64();
            vstd::bits::lemma_u8_shl_is_mul(pri, 2);
        }
        let y_strength = pri << 2u8;
        let uv_strength = pri << 2u8;
        (2, y_strength, uv_strength)
    }
}

/// Writes the CDEF parameters for a quantizer index: damping, no extra
/// strength bits, and one strength pair for luma and chroma.
pub fn write_cdef_params(w: &mut BitWriter, base_q_idx: u8)
    requires
        old(w).wf(),
    ensures
        final(w).wf(),
        final(w).bits() == old(w).bits() + value_bits(cdef_strength_spec(base_q_idx).0 as u64, 2) + value_bits(0, 2) + value_bits(
            cdef_strength_spec(base_q_idx).1 as u64,
            6,
        ) + value_bits(cdef_strength_spec(base_q_idx).2 as u64, 6),
{
    let ghost start = w.bits();
    let (damping_minus_3, y_strength, uv_strength) = cdef_strength_for_qidx(base_q_idx);
    w.write_bits(damping_minus_3 as u64, 2);
    w.write_bits(0, 2);
    w.write_bits(y_strength as u64, 6);
    w.write_bits(uv_strength as u64, 6);
}

/// The loop filter level written into frame headers: always 0, the filter is off.
pub fn loop_filter_level_for_qidx(base_q_idx: u8) -> (r: u8)
    ensures
        r == 0,
{
    0
}

/// Writes the loop filter parameters: the levels (the last two only when
/// the first ones are set), no sharpness, and deltas enabled but not updated.
pub fn write_loopfilter_params(w: &mut BitWriter, base_q_idx: u8)
    requires
        old(w).wf(),
    ensures
        final(w).wf(),
        final(w).bits() == old(w).bits() + value_bits(0, 6) + value_bits(0, 6) + value_bits(0, 3) + seq![true, false],
{
    let ghost start = w.bits();
    let level = loop_filter_level_for_qidx(base_q_idx);
    w.write_bits(level as u64, 6);
    w.write_bits(level as u64, 6);
    if level > 0 {
        w.write_bits(level as u64, 6);
        w.write_bits(level as u64, 6);
    }
    w.write_bits(0, 3);
    w.write_bit(true);
    w.write_bit(false);
    assert(w.bits() =~= start + value_bits(0, 6) + value_bits(0, 6) + value_bits(0, 3) + seq![true, false]);
}

/// A frame header that shows the frame stored in `slot`: the flag, the
/// slot's low three bits, and the trailing bits.
pub fn encode_show_existing_frame(slot: u8) -> (out: Vec<u8>)
    ensures
        bytes_to_bits(out@) == padded(seq![true] + value_bits(slot as u64, 3) + seq![true]),
        out@.len() == 1,
{
    let mut w = BitWriter::new();
    w.write_bit(true);
    w.write_bits(slot as u64, 3);
    proof {
        assert(w.bits() =~= seq![true] + value_bits(slot as u64, 3));
        assert((seq![true] + value_bits(slot as u64, 3)).push(true) =~= seq![true] + value_bits(slot as u64, 3) + seq![true]);
    }
    w.trailing_bits()
}

} // verus!
