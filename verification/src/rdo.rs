use vstd::prelude::*;
use crate::dct::TxType;

verus! {

/// Lambda for rate-distortion decisions at a quantizer index: `q^2 / 256`, at least 1.
pub fn calculate_lambda(base_q_idx: u8) -> (r: u32)
    ensures
        r as int == (if (base_q_idx as int * base_q_idx as int) / 256 < 1 { 1 } else { (base_q_idx as int * base_q_idx as int) / 256 }),
{
    let q = base_q_idx as u32;
    assert(q * q <= 65025) by (nonlinear_arith)
        requires
            q <= 255,
    ;
    let q2 = q * q;
    let scaled = q2 >> 8u32;
    proof {
        vstd::bits::lemma_u32_shr_is_div(q2, 8);
        vstd::arithmetic::power2::lemma2_to64();
    }
    if scaled < 1 {
        1
    } else {
        scaled
    }
}

/// The rate-distortion cost `distortion + lambda * bits`.
pub fn calculate_rd_cost(distortion: u32, bits: u32, lambda: u32) -> (r: u64)
    ensures
        r as int == distortion as int + lambda as int * bits as int,
{
    assert(lambda as int * bits as int <= 0xffff_fffe_0000_0001) by (nonlinear_arith)
        requires
            lambda <= 0xffff_ffff,
            bits <= 0xffff_ffff,
    ;
    (distortion as u64) + (lambda as u64) * (bits as u64)
}

/// A rough bit cost of signalling an intra mode: DC is cheapest, then V and H.
pub fn estimate_intra_mode_bits(mode: u8) -> (r: u32)
    ensures
        r == (if mode == 0 { 8u32 } else if mode == 1 || mode == 2 { 12u32 } else { 20u32 }),
{
    match mode {
        0 => 8,
        1 => 12,
        2 => 12,
        _ => 20,
    }
}

/// A rough bit cost of signalling a transform type: DCT is cheapest, then identity.
pub fn estimate_tx_type_bits(tx_type: TxType) -> (r: u32)
    ensures
        r == (if tx_type == TxType::DctDct { 4u32 } else if tx_type == TxType::Idtx { 12u32 } else { 16u32 }),
{
    match tx_type {
        TxType::DctDct => 4,
        TxType::Idtx => 12,
        _ => 16,
    }
}

/// A rough bit cost of signalling a split or no split.
pub fn estimate_partition_bits(is_split: bool) -> (r: u32)
    ensures
        r == (if is_split { 12u32 } else { 4u32 }),
{
    if is_split {
        12
    } else {
        4
    }
}

} // verus!
