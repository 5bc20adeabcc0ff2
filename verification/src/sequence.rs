use vstd::prelude::*;

use crate::bitwriter::{
    BitWriter, value_bits, padded, bytes_to_bits, byte_bits, pad_len, zero_bits, lemma_bytes_to_bits_len,
    lemma_byte_in_bits, lemma_clear_byte,
};
use crate::fps::Fps;
use crate::video::{BitDepth, ColorDescription, ColorRange, VideoSignal};

verus! {

/// `seq_level_idx` of level 5.1, the lowest level this encoder signals.
pub const SEQ_LEVEL_IDX_5_1: u8 = 13;

/// `seq_level_idx` meaning "no level constraints".
pub const SEQ_LEVEL_IDX_MAX_PARAMETERS: u8 = 31;

/// The levels 5.1 to 6.3: index, picture size, horizontal and vertical size,
/// display rate and decode rate limits.
pub open spec fn level_row(i: int) -> (u8, u64, u32, u32, u64, u64) {
    if i == 0 {
        (13, 8_912_896, 8_192, 4_352, 534_773_760, 547_430_400)
    } else if i == 1 {
        (14, 8_912_896, 8_192, 4_352, 1_069_547_520, 1_094_860_800)
    } else if i == 2 {
        (15, 8_912_896, 8_192, 4_352, 1_069_547_520, 1_176_502_272)
    } else if i == 3 {
        (16, 35_651_584, 16_384, 8_704, 1_069_547_520, 1_176_502_272)
    } else if i == 4 {
        (17, 35_651_584, 16_384, 8_704, 2_139_095_040, 2_189_721_600)
    } else if i == 5 {
        (18, 35_651_584, 16_384, 8_704, 4_278_190_080, 4_379_443_200)
    } else {
        (19, 35_651_584, 16_384, 8_704, 4_278_190_080, 4_706_009_088)
    }
}

fn level_row_exec(i: usize) -> (r: (u8, u64, u32, u32, u64, u64))
    requires
        i < 7,
    ensures
        r == level_row(i as int),
{
    if i == 0 {
        (13, 8_912_896, 8_192, 4_352, 534_773_760, 547_430_400)
    } else if i == 1 {
        (14, 8_912_896, 8_192, 4_352, 1_069_547_520, 1_094_860_800)
    } else if i == 2 {
        (15, 8_912_896, 8_192, 4_352, 1_069_547_520, 1_176_502_272)
    } else if i == 3 {
        (16, 35_651_584, 16_384, 8_704, 1_069_547_520, 1_176_502_272)
    } else if i == 4 {
        (17, 35_651_584, 16_384, 8_704, 2_139_095_040, 2_189_721_600)
    } else if i == 5 {
        (18, 35_651_584, 16_384, 8_704, 4_278_190_080, 4_379_443_200)
    } else {
        (19, 35_651_584, 16_384, 8_704, 4_278_190_080, 4_706_009_088)
    }
}

/// A picture of `width` x `height` at `fps` meets the limits of level row `i`.
pub open spec fn level_fits(i: int, width: u32, height: u32, fps: Fps) -> bool {
    let row = level_row(i);
    let pic = width as int * height as int;
    &&& width <= row.2
    &&& height <= row.3
    &&& pic <= row.1
    &&& pic * fps.num <= row.4 * fps.den
    &&& pic * fps.num <= row.5 * fps.den
}

/// The first of levels 5.1 to 6.3 (from row `i` on) whose limits the stream meets,
/// or the maximum-parameters index when none does.
pub open spec fn level_from(i: int, width: u32, height: u32, fps: Fps) -> u8
    decreases 7 - i,
{
    if i >= 7 {
        SEQ_LEVEL_IDX_MAX_PARAMETERS
    } else if level_fits(i, width, height, fps) {
        if level_row(i).0 >= SEQ_LEVEL_IDX_5_1 { level_row(i).0 } else { SEQ_LEVEL_IDX_5_1 }
    } else {
        level_from(i + 1, width, height, fps)
    }
}

/// The lowest level from 5.1 up that admits the picture size and rate.
pub fn derive_sequence_level_idx(width: u32, height: u32, fps: Fps) -> (r: u8)
    ensures
        r == level_from(0, width, height, fps),
{
    proof {
        assert(width as u64 * height as u64 <= 0xffff_ffff * 0xffff_ffff) by (nonlinear_arith);
    }
    let pic_size = width as u64 * height as u64;
    proof {
        assert(pic_size as u128 * fps.num as u128 <= 0xffff_ffff_ffff_ffff * 0xffff_ffff)
            by (nonlinear_arith)
            requires
                pic_size <= 0xffff_ffff_ffff_ffff,
        ;
    }
    let display_rate_num = pic_size as u128 * fps.num as u128;
    let display_rate_den = fps.den as u128;
    let mut i: usize = 0;
    while i < 7
        invariant
            i <= 7,
            level_from(0, width, height, fps) == level_from(i as int, width, height, fps),
            pic_size == width as int * height as int,
            display_rate_num == pic_size * fps.num,
            display_rate_den == fps.den,
        decreases 7 - i,
    {
        let row = level_row_exec(i);
        let max_display_rate = row.4 as u128;
        let max_decode_rate = row.5 as u128;
        proof {
            assert(max_display_rate * display_rate_den <= 0xffff_ffff_ffff_ffff * 0xffff_ffff)
                by (nonlinear_arith)
                requires
                    max_display_rate <= 0xffff_ffff_ffff_ffff,
                    display_rate_den <= 0xffff_ffff,
            ;
            assert(max_decode_rate * display_rate_den <= 0xffff_ffff_ffff_ffff * 0xffff_ffff)
                by (nonlinear_arith)
                requires
                    max_decode_rate <= 0xffff_ffff_ffff_ffff,
                    display_rate_den <= 0xffff_ffff,
            ;
        }
        if width <= row.2 && height <= row.3 && pic_size <= row.1 && display_rate_num
            <= max_display_rate * display_rate_den && display_rate_num <= max_decode_rate
            * display_rate_den {
            return if row.0 >= SEQ_LEVEL_IDX_5_1 { row.0 } else { SEQ_LEVEL_IDX_5_1 };
        }
        i = i + 1;
    }
    SEQ_LEVEL_IDX_MAX_PARAMETERS
}

/// Number of bits needed to write `v`: 1 for zero, else the position of its
/// leading one plus one.
pub open spec fn bits_needed_spec(v: u32) -> u8 {
    if v == 0 {
        1
    } else {
        (32 - v.leading_zeros()) as u8
    }
}

/// The least bit count, at least 1, in which `v` can be written.
pub fn bits_needed(v: u32) -> (r: u8)
    ensures
        r == bits_needed_spec(v),
        1 <= r <= 32,
        (v as u64) < (1u64 << (r as u64)),
        r > 1 ==> (v as u64) >= (1u64 << ((r - 1) as u64)),
{
    proof {
        broadcast use vstd::std_specs::bits::axiom_u32_leading_zeros;

        let z = v.leading_zeros();
        if v != 0 {
            assert(z < 32);
            assert(z < 32 && (v >> ((31 - z) as u32)) & 1 != 0 && v >> ((32 - z) as u32) == 0 ==> (
            v as u64) < (1u64 << ((32 - z) as u64)) && (32 - z > 1 ==> (v as u64) >= (1u64 << ((
            31 - z) as u64)))) by (bit_vector);
        } else {
            assert((0u64) < (1u64 << 1u64)) by (bit_vector);
        }
    }
    if v == 0 {
        1
    } else {
        32 - v.leading_zeros() as u8
    }
}

/// A one-bit field.
pub open spec fn flag(b: bool) -> Seq<bool> {
    seq![b]
}

/// The bits of a sequence header OBU payload for a `width` x `height` stream
/// with profile 0, no timing info, one operating point at `seq_level_idx`,
/// 64x64 superblocks, CDEF enabled and every other optional tool off.
pub open spec fn sequence_header_bits(
    width: u32,
    height: u32,
    signal: VideoSignal,
    seq_level_idx: u8,
    still_picture: bool,
) -> Seq<bool> {
    operating_point_bits(seq_level_idx, still_picture) + frame_size_bits(width, height)
        + tool_flag_bits() + color_config_bits(signal) + flag(true)
}

/// Profile, still-picture flag, full header, no timing or delay info, one
/// operating point with idc 0 at `seq_level_idx` (main tier above level 3.3).
pub open spec fn operating_point_bits(seq_level_idx: u8, still_picture: bool) -> Seq<bool> {
    value_bits(0, 3) + flag(still_picture) + flag(false) + flag(false) + flag(false) + value_bits(
        0,
        5,
    ) + value_bits(0, 12) + value_bits(seq_level_idx as u64, 5) + if seq_level_idx > 7 {
        flag(false)
    } else {
        Seq::empty()
    }
}

/// Field widths, then maximum frame width and height minus one.
pub open spec fn frame_size_bits(width: u32, height: u32) -> Seq<bool> {
    let fw = (bits_needed_spec((width - 1) as u32) - 1) as u8;
    let fh = (bits_needed_spec((height - 1) as u32) - 1) as u8;
    value_bits(fw as u64, 4) + value_bits(fh as u64, 4) + value_bits(
        (width - 1) as u64,
        (fw + 1) as nat,
    ) + value_bits((height - 1) as u64, (fh + 1) as nat)
}

/// Frame-id, superblock size and coding tool flags: all off but CDEF.
pub open spec fn tool_flag_bits() -> Seq<bool> {
    seq![false, false, false, false, false, false, false, false, false, false, false, false, true, false]
}

/// The colour configuration: bit depth, colour description, range, chroma
/// position 0, no separate UV delta q, no film grain.
pub open spec fn color_config_bits(signal: VideoSignal) -> Seq<bool> {
    flag(signal.bit_depth == BitDepth::Ten) + flag(false) + flag(signal.color_description.is_some())
        + match signal.color_description {
        Some(d) => value_bits(d.color_primaries as u64, 8) + value_bits(
            d.transfer_characteristics as u64,
            8,
        ) + value_bits(d.matrix_coefficients as u64, 8),
        None => Seq::empty(),
    } + flag(signal.color_range == ColorRange::Full) + value_bits(0, 2) + flag(false) + flag(false)
}

/// Sequence header payload at level 5.1 or the level that 25 fps needs.
pub fn encode_sequence_header(width: u32, height: u32, signal: &VideoSignal) -> (out: Vec<u8>)
    requires
        width >= 1,
        height >= 1,
    ensures
        bytes_to_bits(out@) == padded(
            sequence_header_bits(
                width,
                height,
                *signal,
                level_from(0, width, height, crate::fps::default_fps()),
                false,
            ),
        ),
{
    let seq_level_idx = derive_sequence_level_idx(width, height, Fps::default());
    encode_sequence_header_with_level(width, height, signal, seq_level_idx)
}

/// Still-picture sequence header payload at the level that 25 fps needs.
pub fn encode_still_picture_sequence_header(width: u32, height: u32, signal: &VideoSignal) -> (out:
    Vec<u8>)
    requires
        width >= 1,
        height >= 1,
    ensures
        bytes_to_bits(out@) == padded(
            sequence_header_bits(
                width,
                height,
                *signal,
                level_from(0, width, height, crate::fps::default_fps()),
                true,
            ),
        ),
{
    let seq_level_idx = derive_sequence_level_idx(width, height, Fps::default());
    encode_still_picture_sequence_header_with_level(width, height, signal, seq_level_idx)
}

/// Sequence header payload at the given level.
pub fn encode_sequence_header_with_level(
    width: u32,
    height: u32,
    signal: &VideoSignal,
    seq_level_idx: u8,
) -> (out: Vec<u8>)
    requires
        width >= 1,
        height >= 1,
    ensures
        bytes_to_bits(out@) == padded(
            sequence_header_bits(width, height, *signal, seq_level_idx, false),
        ),
{
    encode_sequence_header_with_level_impl(width, height, signal, seq_level_idx, false)
}

/// Still-picture sequence header payload at the given level.
pub fn encode_still_picture_sequence_header_with_level(
    width: u32,
    height: u32,
    signal: &VideoSignal,
    seq_level_idx: u8,
) -> (out: Vec<u8>)
    requires
        width >= 1,
        height >= 1,
    ensures
        bytes_to_bits(out@) == padded(
            sequence_header_bits(width, height, *signal, seq_level_idx, true),
        ),
{
    encode_sequence_header_with_level_impl(width, height, signal, seq_level_idx, true)
}

fn write_color_config(w: &mut BitWriter, signal: &VideoSignal)
    requires
        old(w).wf(),
    ensures
        final(w).wf(),
        final(w).bits() == old(w).bits() + color_config_bits(*signal),
{
    let ghost start = w.bits();
    let high_bitdepth = match signal.bit_depth {
        BitDepth::Ten => true,
        BitDepth::Eight => false,
    };
    let full_range = match signal.color_range {
        ColorRange::Full => true,
        ColorRange::Limited => false,
    };
    w.write_bit(high_bitdepth);
    w.write_bit(false);
    w.write_bit(signal.color_description.is_some());
    let ghost mid = w.bits();
    match signal.color_description {
        Some(desc) => {
            w.write_bits(desc.color_primaries as u64, 8);
            w.write_bits(desc.transfer_characteristics as u64, 8);
            w.write_bits(desc.matrix_coefficients as u64, 8);
        },
        None => {},
    }
    let ghost mid2 = w.bits();
    w.write_bit(full_range);
    w.write_bits(0, 2);
    w.write_bit(false);
    w.write_bit(false);
    proof {
        assert(mid =~= start + flag(signal.bit_depth == BitDepth::Ten) + flag(false) + flag(
            signal.color_description.is_some(),
        ));
        match signal.color_description {
            Some(d) => {
                assert(mid2 =~= mid + (value_bits(d.color_primaries as u64, 8) + value_bits(
                    d.transfer_characteristics as u64,
                    8,
                ) + value_bits(d.matrix_coefficients as u64, 8)));
            },
            None => {
                assert(mid2 =~= mid + Seq::<bool>::empty());
            },
        }
        assert(w.bits() =~= start + color_config_bits(*signal));
    }
}

fn write_operating_point(w: &mut BitWriter, seq_level_idx: u8, still_picture_mode: bool)
    requires
        old(w).wf(),
    ensures
        final(w).wf(),
        final(w).bits() == old(w).bits() + operating_point_bits(seq_level_idx, still_picture_mode),
{
    let ghost start = w.bits();
    w.write_bits(0, 3);
    w.write_bit(still_picture_mode);
    w.write_bit(false);
    w.write_bit(false);
    w.write_bit(false);
    w.write_bits(0, 5);
    w.write_bits(0, 12);
    w.write_bits(seq_level_idx as u64, 5);
    let ghost part1 = w.bits();
    if seq_level_idx > 7 {
        w.write_bit(false);
    }
    proof {
        assert(part1 =~= start + (value_bits(0, 3) + flag(still_picture_mode) + flag(false) + flag(
            false,
        ) + flag(false) + value_bits(0, 5) + value_bits(0, 12) + value_bits(
            seq_level_idx as u64,
            5,
        )));
        if seq_level_idx > 7 {
            assert(w.bits() =~= part1 + flag(false));
        } else {
            assert(w.bits() =~= part1 + Seq::<bool>::empty());
        }
        assert(w.bits() =~= start + operating_point_bits(seq_level_idx, still_picture_mode));
    }
}

fn write_frame_size(w: &mut BitWriter, width: u32, height: u32)
    requires
        old(w).wf(),
        width >= 1,
        height >= 1,
    ensures
        final(w).wf(),
        final(w).bits() == old(w).bits() + frame_size_bits(width, height),
{
    let ghost start = w.bits();
    let fw: u8 = bits_needed(width - 1) - 1;
    let fh: u8 = bits_needed(height - 1) - 1;
    w.write_bits(fw as u64, 4);
    w.write_bits(fh as u64, 4);
    w.write_bits((width - 1) as u64, fw + 1);
    w.write_bits((height - 1) as u64, fh + 1);
    proof {
        assert(w.bits() =~= start + frame_size_bits(width, height));
    }
}

fn write_tool_flags(w: &mut BitWriter)
    requires
        old(w).wf(),
    ensures
        final(w).wf(),
        final(w).bits() == old(w).bits() + tool_flag_bits(),
{
    let ghost start = w.bits();
    w.write_bit(false);
    w.write_bit(false);
    w.write_bit(false);
    w.write_bit(false);
    w.write_bit(false);
    w.write_bit(false);
    w.write_bit(false);
    w.write_bit(false);
    w.write_bit(false);
    w.write_bit(false);
    w.write_bit(false);
    w.write_bit(false);
    w.write_bit(true);
    w.write_bit(false);
    proof {
        assert(w.bits() =~= start + tool_flag_bits());
    }
}

fn encode_sequence_header_with_level_impl(
    width: u32,
    height: u32,
    signal: &VideoSignal,
    seq_level_idx: u8,
    still_picture_mode: bool,
) -> (out: Vec<u8>)
    requires
        width >= 1,
        height >= 1,
    ensures
        bytes_to_bits(out@) == padded(
            sequence_header_bits(width, height, *signal, seq_level_idx, still_picture_mode),
        ),
{
    let mut w = BitWriter::new();
    write_operating_point(&mut w, seq_level_idx, still_picture_mode);
    write_frame_size(&mut w, width, height);
    write_tool_flags(&mut w);
    write_color_config(&mut w, signal);
    w.write_bit(true);
    proof {
        assert(w.bits() =~= sequence_header_bits(
            width,
            height,
            *signal,
            seq_level_idx,
            still_picture_mode,
        ));
    }
    w.finalize()
}

/// The bits of the fixed reduced still-picture sequence header: profile 0,
/// still picture, reduced header, level 0, a 64x64 picture and every optional
/// tool off.
pub open spec fn reduced_still_header_bits() -> Seq<bool> {
    value_bits(0, 3) + flag(true) + flag(true) + value_bits(0, 5) + value_bits(5, 4) + value_bits(
        5,
        4,
    ) + value_bits(63, 6) + value_bits(63, 6) + seq![false, false, false, false, false, false]
        + seq![false, false, false, false] + value_bits(0, 2) + seq![false, false] + flag(true)
        + value_bits(0, 3)
}

/// The fixed reduced still-picture sequence header payload for 64x64 frames.
pub fn encode_reduced_still_sequence_header() -> (out: Vec<u8>)
    ensures
        bytes_to_bits(out@) == padded(reduced_still_header_bits()),
{
    let mut w = BitWriter::new();
    w.write_bits(0, 3);
    w.write_bit(true);
    w.write_bit(true);
    w.write_bits(0, 5);
    w.write_bits(5, 4);
    w.write_bits(5, 4);
    w.write_bits(63, 6);
    w.write_bits(63, 6);
    let ghost p1 = w.bits();
    w.write_bit(false);
    w.write_bit(false);
    w.write_bit(false);
    w.write_bit(false);
    w.write_bit(false);
    w.write_bit(false);
    w.write_bit(false);
    w.write_bit(false);
    w.write_bit(false);
    w.write_bit(false);
    let ghost p2 = w.bits();
    w.write_bits(0, 2);
    w.write_bit(false);
    w.write_bit(false);
    w.write_bit(true);
    w.write_bits(0, 3);
    proof {
        assert(p1 =~= value_bits(0, 3) + flag(true) + flag(true) + value_bits(0, 5) + value_bits(
            5,
            4,
        ) + value_bits(5, 4) + value_bits(63, 6) + value_bits(63, 6));
        assert(p2 =~= p1 + seq![false, false, false, false, false, false] + seq![
            false,
            false,
            false,
            false,
        ]);
        assert(w.bits() =~= reduced_still_header_bits());
    }
    w.finalize()
}

/// A colour description adds exactly 24 bits to a sequence header, so its
/// payload grows by exactly three bytes.
#[verifier::spinoff_prover]
#[verifier::rlimit(40)]
pub proof fn lemma_color_description_adds_three_bytes(
    width: u32,
    height: u32,
    signal: VideoSignal,
    desc: ColorDescription,
    seq_level_idx: u8,
    still_picture: bool,
    without: Seq<u8>,
    with: Seq<u8>,
)
    requires
        signal.color_description is None,
        bytes_to_bits(without) == padded(sequence_header_bits(width, height, signal, seq_level_idx, still_picture)),
        bytes_to_bits(with) == padded(
            sequence_header_bits(
                width,
                height,
                VideoSignal { color_description: Some(desc), ..signal },
                seq_level_idx,
                still_picture,
            ),
        ),
    ensures
        with.len() == without.len() + 3,
{
    let sd = VideoSignal { color_description: Some(desc), ..signal };
    let a = sequence_header_bits(width, height, signal, seq_level_idx, still_picture);
    let b = sequence_header_bits(width, height, sd, seq_level_idx, still_picture);
    assert(color_config_bits(sd).len() == color_config_bits(signal).len() + 24);
    assert(b.len() == a.len() + 24);
    assert(pad_len(b.len()) == pad_len(a.len()));
    lemma_bytes_to_bits_len(without);
    lemma_bytes_to_bits_len(with);
}

/// The first three bytes of a sequence header (not a still picture) are
/// zero: profile 0, no reduced header, no timing or decoder-model info, one
/// operating point with idc 0. The next byte starts with the five bits of
/// `seq_level_idx`.
pub proof fn lemma_sequence_header_prefix(
    width: u32,
    height: u32,
    signal: VideoSignal,
    seq_level_idx: u8,
    out: Seq<u8>,
)
    requires
        seq_level_idx < 32,
        bytes_to_bits(out) == padded(sequence_header_bits(width, height, signal, seq_level_idx, false)),
    ensures
        out.len() >= 4,
        out[0] == 0,
        out[1] == 0,
        out[2] == 0,
        out[3] >> 3u8 == seq_level_idx,
{
    let bits = sequence_header_bits(width, height, signal, seq_level_idx, false);
    let op = operating_point_bits(seq_level_idx, false);
    let lv = value_bits(seq_level_idx as u64, 5);
    assert(op.len() >= 29);
    assert(tool_flag_bits().len() == 14);
    assert(bits.len() >= 43);
    let z = value_bits(0, 3) + flag(false) + flag(false) + flag(false) + flag(false) + value_bits(0, 5)
        + value_bits(0, 12);
    let tail = if seq_level_idx > 7 { flag(false) } else { Seq::empty() };
    assert(op =~= z + lv + tail);
    assert(z.len() == 24);
    assert forall|s: u64| #[trigger] ((0u64 >> s) & 1) == 0 by {
        assert(((0u64 >> s) & 1) == 0) by (bit_vector);
    }
    assert forall|j: int| 0 <= j < 24 implies !#[trigger] bits[j] by {
        assert(bits[j] == op[j]);
        assert(op[j] == z[j]);
        if j < 3 {
            assert(z[j] == value_bits(0, 3)[j]);
        } else if j < 7 {
        } else if j < 12 {
            assert(z[j] == value_bits(0, 5)[j - 7]);
        } else {
            assert(z[j] == value_bits(0, 12)[j - 12]);
        }
    }
    assert forall|j: int| 24 <= j < 29 implies #[trigger] bits[j] == lv[j - 24] by {
        assert(bits[j] == op[j]);
        assert(op[j] == (z + lv)[j]);
    }
    lemma_bytes_to_bits_len(out);
    assert(padded(bits).len() == bits.len() + pad_len(bits.len()));
    assert(out.len() >= 4);
    assert forall|k: int, i: int| 0 <= k < 4 && 0 <= i < 8 implies #[trigger] byte_bits(out[k])[i] == bits[8 * k + i] by {
        lemma_byte_in_bits(out, k);
        assert(byte_bits(out[k])[i] == bytes_to_bits(out)[8 * k + i]);
        assert(padded(bits)[8 * k + i] == bits[8 * k + i]);
    }
    assert forall|k: int| 0 <= k < 3 implies #[trigger] out[k] == 0 by {
        assert forall|i: int| 0 <= i < 8 implies !#[trigger] byte_bits(out[k])[i] by {
            assert(byte_bits(out[k])[i] == bits[8 * k + i]);
        }
        lemma_clear_byte(out[k]);
    }
    let b = out[3];
    let l = seq_level_idx;
    assert(byte_bits(b)[0] == lv[0] && byte_bits(b)[1] == lv[1] && byte_bits(b)[2] == lv[2]);
    assert(byte_bits(b)[3] == lv[3] && byte_bits(b)[4] == lv[4]);
    assert(b >> 3u8 == l) by (bit_vector)
        requires
            l < 32,
            ((b >> 7u8) & 1 == 1) == (((l as u64) >> 4u64) & 1 == 1),
            ((b >> 6u8) & 1 == 1) == (((l as u64) >> 3u64) & 1 == 1),
            ((b >> 5u8) & 1 == 1) == (((l as u64) >> 2u64) & 1 == 1),
            ((b >> 4u8) & 1 == 1) == (((l as u64) >> 1u64) & 1 == 1),
            ((b >> 3u8) & 1 == 1) == (((l as u64) >> 0u64) & 1 == 1),
    ;
}

/// The still-picture sequence header carries the plain header's bits with
/// only the still_picture flag, the fourth bit, set: same length, same
/// fields everywhere else.
pub proof fn lemma_still_picture_header_bits(width: u32, height: u32, signal: VideoSignal, seq_level_idx: u8)
    ensures
        !sequence_header_bits(width, height, signal, seq_level_idx, false)[3],
        sequence_header_bits(width, height, signal, seq_level_idx, true)
            == sequence_header_bits(width, height, signal, seq_level_idx, false).update(3, true),
{
    let a = operating_point_bits(seq_level_idx, true);
    let b = operating_point_bits(seq_level_idx, false);
    assert(value_bits(0, 3).len() == 3);
    assert(a =~= b.update(3, true));
    let rest = frame_size_bits(width, height) + tool_flag_bits() + color_config_bits(signal) + flag(true);
    assert(sequence_header_bits(width, height, signal, seq_level_idx, true) =~= a + rest);
    assert(sequence_header_bits(width, height, signal, seq_level_idx, false) =~= b + rest);
    assert((b + rest).update(3, true) =~= b.update(3, true) + rest);
}

} // verus!
