use vstd::prelude::*;
use crate::bitwriter::{BitWriter, value_bits, bytes_to_bits, padded};
use crate::bytes::append_bytes;
use crate::obu::{leb128_encode, leb128_spec};
use crate::video::{ContentLightLevel, MasteringDisplayMetadata};

verus! {

/// Metadata type of HDR content light level.
pub const OBU_META_HDR_CLL: u64 = 1;

/// Metadata type of HDR mastering display colour volume.
pub const OBU_META_HDR_MDCV: u64 = 2;

/// The bits of a content light level payload: MaxCLL then MaxFALL, 16 bits each.
pub open spec fn cll_bits(cll: ContentLightLevel) -> Seq<bool> {
    value_bits(cll.max_content_light_level as u64, 16) + value_bits(cll.max_frame_average_light_level as u64, 16)
}

/// The bits of a mastering display payload: the three primaries and the white
/// point as 16-bit pairs, then the maximum and minimum luminance in 32 bits.
pub open spec fn mdcv_bits(m: MasteringDisplayMetadata) -> Seq<bool> {
    value_bits(m.primaries[0][0] as u64, 16) + value_bits(m.primaries[0][1] as u64, 16)
        + value_bits(m.primaries[1][0] as u64, 16) + value_bits(m.primaries[1][1] as u64, 16)
        + value_bits(m.primaries[2][0] as u64, 16) + value_bits(m.primaries[2][1] as u64, 16)
        + value_bits(m.white_point[0] as u64, 16) + value_bits(m.white_point[1] as u64, 16)
        + value_bits(m.max_luminance as u64, 32) + value_bits(m.min_luminance as u64, 32)
}

/// The payload of a content light level metadata OBU: the metadata type as
/// LEB128, then the two levels and the trailing bits.
pub fn encode_hdr_cll(cll: &ContentLightLevel) -> (out: Vec<u8>)
    ensures
        out@.subrange(0, 1) == leb128_spec(OBU_META_HDR_CLL),
        bytes_to_bits(out@.subrange(1, out@.len() as int)) == padded(cll_bits(*cll).push(true)),
        out@.len() == 6,
{
    let mut payload = leb128_encode(OBU_META_HDR_CLL);
    let mut w = BitWriter::new();
    w.write_bits(cll.max_content_light_level as u64, 16);
    w.write_bits(cll.max_frame_average_light_level as u64, 16);
    let tail = w.trailing_bits();
    let ghost head = payload@;
    proof {
        reveal_with_fuel(leb128_spec, 2);
        assert(head.len() == 1);
    }
    append_bytes(&mut payload, tail.as_slice());
    proof {
        assert(payload@.subrange(0, 1) =~= head);
        assert(payload@.subrange(1, payload@.len() as int) =~= tail@);
    }
    payload
}

/// The payload of a mastering display metadata OBU: the metadata type as
/// LEB128, then the colour volume and the trailing bits.
pub fn encode_hdr_mdcv(mdcv: &MasteringDisplayMetadata) -> (out: Vec<u8>)
    ensures
        out@.subrange(0, 1) == leb128_spec(OBU_META_HDR_MDCV),
        bytes_to_bits(out@.subrange(1, out@.len() as int)) == padded(mdcv_bits(*mdcv).push(true)),
        out@.len() == 26,
{
    let mut payload = leb128_encode(OBU_META_HDR_MDCV);
    let mut w = BitWriter::new();
    let ghost start = w.bits();
    let mut i: usize = 0;
    while i < 3
        invariant
            0 <= i <= 3,
            w.wf(),
            w.bits() == (if i == 0 { Seq::<bool>::empty() } else if i == 1 {
                value_bits(mdcv.primaries[0][0] as u64, 16) + value_bits(mdcv.primaries[0][1] as u64, 16)
            } else if i == 2 {
                value_bits(mdcv.primaries[0][0] as u64, 16) + value_bits(mdcv.primaries[0][1] as u64, 16)
                    + value_bits(mdcv.primaries[1][0] as u64, 16) + value_bits(mdcv.primaries[1][1] as u64, 16)
            } else {
                value_bits(mdcv.primaries[0][0] as u64, 16) + value_bits(mdcv.primaries[0][1] as u64, 16)
                    + value_bits(mdcv.primaries[1][0] as u64, 16) + value_bits(mdcv.primaries[1][1] as u64, 16)
                    + value_bits(mdcv.primaries[2][0] as u64, 16) + value_bits(mdcv.primaries[2][1] as u64, 16)
            }),
        decreases 3 - i,
    {
        let p = mdcv.primaries[i];
        w.write_bits(p[0] as u64, 16);
        w.write_bits(p[1] as u64, 16);
        i += 1;
    }
    w.write_bits(mdcv.white_point[0] as u64, 16);
    w.write_bits(mdcv.white_point[1] as u64, 16);
    w.write_bits(mdcv.max_luminance as u64, 32);
    w.write_bits(mdcv.min_luminance as u64, 32);
    assert(w.bits() =~= mdcv_bits(*mdcv));
    let tail = w.trailing_bits();
    let ghost head = payload@;
    proof {
        reveal_with_fuel(leb128_spec, 2);
        assert(head.len() == 1);
    }
    append_bytes(&mut payload, tail.as_slice());
    proof {
        assert(payload@.subrange(0, 1) =~= head);
        assert(payload@.subrange(1, payload@.len() as int) =~= tail@);
    }
    payload
}

} // verus!
