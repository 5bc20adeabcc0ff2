use vstd::prelude::*;
use crate::bytes::{append_bytes, be16, be32, push_be16, push_be32};
use crate::mp4::{box_spec, box_wrap, build_av1c, build_colr, full_box, full_box_spec, strip_temporal_delimiters, strip_td_spec, av1c_spec, colr_spec, zeros, push_zeros};
use crate::video::{BitDepth, VideoSignal};

verus! {

/// The four-character code `ftyp`.
pub const FTYP: [u8; 4] = [0x66, 0x74, 0x79, 0x70];

/// The four-character code `avif`.
pub const AVIF: [u8; 4] = [0x61, 0x76, 0x69, 0x66];

/// The four-character code `mif1`.
pub const MIF1: [u8; 4] = [0x6d, 0x69, 0x66, 0x31];

/// The four-character code `hdlr`.
pub const HDLR: [u8; 4] = [0x68, 0x64, 0x6c, 0x72];

/// The four-character code `pict`.
pub const PICT: [u8; 4] = [0x70, 0x69, 0x63, 0x74];

/// The four-character code `pitm`.
pub const PITM: [u8; 4] = [0x70, 0x69, 0x74, 0x6d];

/// The four-character code `iloc`.
pub const ILOC: [u8; 4] = [0x69, 0x6c, 0x6f, 0x63];

/// The four-character code `iinf`.
pub const IINF: [u8; 4] = [0x69, 0x69, 0x6e, 0x66];

/// The four-character code `infe`.
pub const INFE: [u8; 4] = [0x69, 0x6e, 0x66, 0x65];

/// The four-character code `av01`.
pub const AV01: [u8; 4] = [0x61, 0x76, 0x30, 0x31];

/// The four-character code `iprp`.
pub const IPRP: [u8; 4] = [0x69, 0x70, 0x72, 0x70];

/// The four-character code `ipco`.
pub const IPCO: [u8; 4] = [0x69, 0x70, 0x63, 0x6f];

/// The four-character code `ipma`.
pub const IPMA: [u8; 4] = [0x69, 0x70, 0x6d, 0x61];

/// The four-character code `ispe`.
pub const ISPE: [u8; 4] = [0x69, 0x73, 0x70, 0x65];

/// The four-character code `pixi`.
pub const PIXI: [u8; 4] = [0x70, 0x69, 0x78, 0x69];

/// The four-character code `meta`.
pub const META: [u8; 4] = [0x6d, 0x65, 0x74, 0x61];

/// The four-character code `mdat`.
pub const MDAT: [u8; 4] = [0x6d, 0x64, 0x61, 0x74];

/// What the AVIF item properties need to know.
pub struct AvifConfig {
    pub width: u32,
    pub height: u32,
    pub config_obus: Vec<u8>,
    pub video_signal: VideoSignal,
}

/// The AVIF file type box: brand `avif`, compatible with `avif` and `mif1`.
pub open spec fn avif_ftyp_spec() -> Seq<u8> {
    box_spec(FTYP@, AVIF@ + be32(0) + AVIF@ + MIF1@)
}

/// Builds the AVIF file type box.
pub fn build_ftyp() -> (out: Vec<u8>)
    ensures
        out@ == avif_ftyp_spec(),
        out@.len() == 24,
{
    let mut p: Vec<u8> = Vec::new();
    append_bytes(&mut p, &AVIF);
    push_be32(&mut p, 0);
    append_bytes(&mut p, &AVIF);
    append_bytes(&mut p, &MIF1);
    assert(p@ =~= AVIF@ + be32(0) + AVIF@ + MIF1@);
    box_wrap(&FTYP, p.as_slice())
}

/// The handler box of a picture item, with an empty name.
pub open spec fn avif_hdlr_spec() -> Seq<u8> {
    full_box_spec(HDLR@, 0, 0, be32(0) + PICT@ + zeros(12) + seq![0u8])
}

/// Builds the handler box of a picture item.
pub fn build_hdlr() -> (out: Vec<u8>)
    ensures
        out@ == avif_hdlr_spec(),
{
    let mut p: Vec<u8> = Vec::new();
    push_be32(&mut p, 0);
    append_bytes(&mut p, &PICT);
    push_zeros(&mut p, 12);
    p.push(0);
    assert(p@ =~= be32(0) + PICT@ + zeros(12) + seq![0u8]);
    full_box(&HDLR, 0, 0, p.as_slice())
}

/// The primary item box: item 1.
pub open spec fn pitm_spec() -> Seq<u8> {
    full_box_spec(PITM@, 0, 0, be16(1))
}

/// Builds the primary item box.
pub fn build_pitm() -> (out: Vec<u8>)
    ensures
        out@ == pitm_spec(),
{
    let mut p: Vec<u8> = Vec::new();
    push_be16(&mut p, 1);
    full_box(&PITM, 0, 0, p.as_slice())
}

/// The item location box: 4-byte offsets and lengths, one item with one extent.
pub open spec fn iloc_spec(data_offset: u32, data_length: u32) -> Seq<u8> {
    full_box_spec(ILOC@, 0, 0, seq![0x44u8, 0x00] + be16(1) + be16(1) + be16(0) + be16(1) + be32(data_offset) + be32(data_length))
}

/// Builds the item location box.
pub fn build_iloc(data_offset: u32, data_length: u32) -> (out: Vec<u8>)
    ensures
        out@ == iloc_spec(data_offset, data_length),
        out@.len() == 30,
{
    let mut p: Vec<u8> = Vec::new();
    p.push(0x44);
    p.push(0x00);
    push_be16(&mut p, 1);
    push_be16(&mut p, 1);
    push_be16(&mut p, 0);
    push_be16(&mut p, 1);
    push_be32(&mut p, data_offset);
    push_be32(&mut p, data_length);
    assert(p@ =~= seq![0x44u8, 0x00] + be16(1) + be16(1) + be16(0) + be16(1) + be32(data_offset) + be32(data_length));
    full_box(&ILOC, 0, 0, p.as_slice())
}

/// The item information box: one `av01` item, id 1.
pub open spec fn iinf_spec() -> Seq<u8> {
    full_box_spec(IINF@, 0, 0, be16(1) + full_box_spec(INFE@, 2, 0, be16(1) + be16(0) + AV01@ + seq![0u8]))
}

/// Builds the item information box.
pub fn build_iinf() -> (out: Vec<u8>)
    ensures
        out@ == iinf_spec(),
{
    let mut infe_payload: Vec<u8> = Vec::new();
    push_be16(&mut infe_payload, 1);
    push_be16(&mut infe_payload, 0);
    append_bytes(&mut infe_payload, &AV01);
    infe_payload.push(0);
    assert(infe_payload@ =~= be16(1) + be16(0) + AV01@ + seq![0u8]);
    let infe = full_box(&INFE, 2, 0, infe_payload.as_slice());
    let mut p: Vec<u8> = Vec::new();
    push_be16(&mut p, 1);
    append_bytes(&mut p, infe.as_slice());
    full_box(&IINF, 0, 0, p.as_slice())
}

/// The image spatial extents property.
pub open spec fn ispe_spec(width: u32, height: u32) -> Seq<u8> {
    full_box_spec(ISPE@, 0, 0, be32(width) + be32(height))
}

/// Builds the image spatial extents property.
pub fn build_ispe(width: u32, height: u32) -> (out: Vec<u8>)
    ensures
        out@ == ispe_spec(width, height),
{
    let mut p: Vec<u8> = Vec::new();
    push_be32(&mut p, width);
    push_be32(&mut p, height);
    assert(p@ =~= be32(width) + be32(height));
    full_box(&ISPE, 0, 0, p.as_slice())
}

/// The pixel information property: three channels of the bit depth.
pub open spec fn pixi_spec(bit_depth: BitDepth) -> Seq<u8> {
    full_box_spec(PIXI@, 0, 0, seq![3u8, bit_depth.spec_bits(), bit_depth.spec_bits(), bit_depth.spec_bits()])
}

/// Builds the pixel information property.
pub fn build_pixi(bit_depth: BitDepth) -> (out: Vec<u8>)
    ensures
        out@ == pixi_spec(bit_depth),
{
    let bits = bit_depth.bits();
    let p = [3u8, bits, bits, bits];
    assert(p@ =~= seq![3u8, bit_depth.spec_bits(), bit_depth.spec_bits(), bit_depth.spec_bits()]);
    full_box(&PIXI, 0, 0, &p)
}

/// The item property association: item 1 with the four properties, each essential.
pub open spec fn ipma_spec() -> Seq<u8> {
    full_box_spec(IPMA@, 0, 0, be32(1) + be16(1) + seq![4u8, 0x81, 0x82, 0x83, 0x84])
}

/// Builds the item property association box.
pub fn build_ipma() -> (out: Vec<u8>)
    ensures
        out@ == ipma_spec(),
{
    let mut p: Vec<u8> = Vec::new();
    push_be32(&mut p, 1);
    push_be16(&mut p, 1);
    p.push(4);
    p.push(0x81);
    p.push(0x82);
    p.push(0x83);
    p.push(0x84);
    assert(p@ =~= be32(1) + be16(1) + seq![4u8, 0x81, 0x82, 0x83, 0x84]);
    full_box(&IPMA, 0, 0, p.as_slice())
}

/// The item properties: codec configuration, extents, colour and pixel
/// information, then their association with the item.
pub open spec fn iprp_spec(config: AvifConfig) -> Seq<u8> {
    box_spec(
        IPRP@,
        box_spec(
            IPCO@,
            av1c_spec(config.video_signal.bit_depth, config.config_obus@) + ispe_spec(config.width, config.height) + colr_spec(
                config.video_signal,
            ) + pixi_spec(config.video_signal.bit_depth),
        ) + ipma_spec(),
    )
}

/// Builds the item properties box.
pub fn build_iprp(config: &AvifConfig) -> (out: Vec<u8>)
    ensures
        out@ == iprp_spec(*config),
{
    let av1c = build_av1c(config.video_signal.bit_depth, config.config_obus.as_slice());
    let ispe = build_ispe(config.width, config.height);
    let colr = build_colr(&config.video_signal);
    let pixi = build_pixi(config.video_signal.bit_depth);
    let mut ipco_payload: Vec<u8> = Vec::new();
    append_bytes(&mut ipco_payload, av1c.as_slice());
    append_bytes(&mut ipco_payload, ispe.as_slice());
    append_bytes(&mut ipco_payload, colr.as_slice());
    append_bytes(&mut ipco_payload, pixi.as_slice());
    let ipco = box_wrap(&IPCO, ipco_payload.as_slice());
    let ipma = build_ipma();
    let mut p: Vec<u8> = Vec::new();
    append_bytes(&mut p, ipco.as_slice());
    append_bytes(&mut p, ipma.as_slice());
    box_wrap(&IPRP, p.as_slice())
}

/// The meta children that come before the item location.
pub open spec fn avif_children_spec(config: AvifConfig) -> Seq<u8> {
    avif_hdlr_spec() + pitm_spec() + iinf_spec() + iprp_spec(config)
}

/// A still AVIF file: file type, the meta box that describes item 1 and
/// locates its data, and the media data without a leading temporal delimiter.
pub open spec fn avif_spec(config: AvifConfig, obu_data: Seq<u8>) -> Seq<u8> {
    let data = strip_td_spec(obu_data);
    let children = avif_children_spec(config);
    let meta_size = 8 + 4 + children.len() + 30;
    let data_offset = 24 + meta_size + 8;
    avif_ftyp_spec() + box_spec(META@, seq![0u8] + be32(0).subrange(1, 4) + children + iloc_spec(data_offset as u32, data.len() as u32))
        + box_spec(MDAT@, data)
}

/// Appends a still AVIF file holding the coded image `obu_data`.
#[verifier::spinoff_prover]
#[verifier::rlimit(40)]
pub fn write_avif(w: &mut Vec<u8>, config: &AvifConfig, obu_data: &[u8]) -> (r: Result<(), std::io::Error>)
    requires
        config.config_obus@.len() <= 0x1000_0000,
    ensures
        r is Ok,
        final(w)@ == old(w)@ + avif_spec(*config, obu_data@),
{
    let data = strip_temporal_delimiters(obu_data);
    let ftyp = build_ftyp();
    let hdlr = build_hdlr();
    let pitm = build_pitm();
    let iinf = build_iinf();
    let iprp = build_iprp(config);
    let mut children: Vec<u8> = Vec::new();
    append_bytes(&mut children, hdlr.as_slice());
    append_bytes(&mut children, pitm.as_slice());
    append_bytes(&mut children, iinf.as_slice());
    append_bytes(&mut children, iprp.as_slice());
    assert(children@ == avif_children_spec(*config));
    proof {
        reveal_with_fuel(crate::bytes::be32, 1);
    }
    assert(children@.len() <= 0x2000_0000);
    let iloc_size: u32 = 30;
    let meta_content_size = 4 + children.len() as u32 + iloc_size;
    let meta_size = 8 + meta_content_size;
    let data_offset = ftyp.len() as u32 + meta_size + 8;
    let iloc = build_iloc(data_offset, data.len() as u32);
    let mut meta_payload: Vec<u8> = Vec::new();
    meta_payload.push(0);
    let mut zero_flags: Vec<u8> = Vec::new();
    push_be32(&mut zero_flags, 0);
    meta_payload.push(zero_flags[1]);
    meta_payload.push(zero_flags[2]);
    meta_payload.push(zero_flags[3]);
    append_bytes(&mut meta_payload, children.as_slice());
    append_bytes(&mut meta_payload, iloc.as_slice());
    assert(meta_payload@ =~= seq![0u8] + be32(0).subrange(1, 4) + children@ + iloc@);
    let meta = box_wrap(&META, meta_payload.as_slice());
    let mdat = box_wrap(&MDAT, data.as_slice());
    let ghost start = w@;
    append_bytes(w, ftyp.as_slice());
    append_bytes(w, meta.as_slice());
    append_bytes(w, mdat.as_slice());
    assert(avif_spec(*config, obu_data@) == ftyp@ + meta@ + mdat@);
    assert(w@ =~= start + (ftyp@ + meta@ + mdat@));
    Ok(())
}

} // verus!
