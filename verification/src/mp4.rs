use vstd::prelude::*;
use crate::bytes::{append_bytes, be16, be32, push_be16, push_be32};
use crate::video::{BitDepth, ColorRange, VideoSignal};

verus! {

/// The four-character code `ftyp`.
pub const FTYP: [u8; 4] = [0x66, 0x74, 0x79, 0x70];

/// The four-character code `mdat`.
pub const MDAT: [u8; 4] = [0x6d, 0x64, 0x61, 0x74];

/// The four-character code `moov`.
pub const MOOV: [u8; 4] = [0x6d, 0x6f, 0x6f, 0x76];

/// The four-character code `mvhd`.
pub const MVHD: [u8; 4] = [0x6d, 0x76, 0x68, 0x64];

/// The four-character code `trak`.
pub const TRAK: [u8; 4] = [0x74, 0x72, 0x61, 0x6b];

/// The four-character code `tkhd`.
pub const TKHD: [u8; 4] = [0x74, 0x6b, 0x68, 0x64];

/// The four-character code `edts`.
pub const EDTS: [u8; 4] = [0x65, 0x64, 0x74, 0x73];

/// The four-character code `elst`.
pub const ELST: [u8; 4] = [0x65, 0x6c, 0x73, 0x74];

/// The four-character code `mdia`.
pub const MDIA: [u8; 4] = [0x6d, 0x64, 0x69, 0x61];

/// The four-character code `mdhd`.
pub const MDHD: [u8; 4] = [0x6d, 0x64, 0x68, 0x64];

/// The four-character code `hdlr`.
pub const HDLR: [u8; 4] = [0x68, 0x64, 0x6c, 0x72];

/// The four-character code `minf`.
pub const MINF: [u8; 4] = [0x6d, 0x69, 0x6e, 0x66];

/// The four-character code `vmhd`.
pub const VMHD: [u8; 4] = [0x76, 0x6d, 0x68, 0x64];

/// The four-character code `dinf`.
pub const DINF: [u8; 4] = [0x64, 0x69, 0x6e, 0x66];

/// The four-character code `dref`.
pub const DREF: [u8; 4] = [0x64, 0x72, 0x65, 0x66];

/// The four-character code `url `.
pub const URL_: [u8; 4] = [0x75, 0x72, 0x6c, 0x20];

/// The four-character code `stbl`.
pub const STBL: [u8; 4] = [0x73, 0x74, 0x62, 0x6c];

/// The four-character code `stsd`.
pub const STSD: [u8; 4] = [0x73, 0x74, 0x73, 0x64];

/// The four-character code `av01`.
pub const AV01: [u8; 4] = [0x61, 0x76, 0x30, 0x31];

/// The four-character code `av1C`.
pub const AV1C_BOX: [u8; 4] = [0x61, 0x76, 0x31, 0x43];

/// The four-character code `colr`.
pub const COLR: [u8; 4] = [0x63, 0x6f, 0x6c, 0x72];

/// The four-character code `nclx`.
pub const NCLX: [u8; 4] = [0x6e, 0x63, 0x6c, 0x78];

/// The four-character code `pasp`.
pub const PASP: [u8; 4] = [0x70, 0x61, 0x73, 0x70];

/// The four-character code `stts`.
pub const STTS: [u8; 4] = [0x73, 0x74, 0x74, 0x73];

/// The four-character code `stsc`.
pub const STSC: [u8; 4] = [0x73, 0x74, 0x73, 0x63];

/// The four-character code `stsz`.
pub const STSZ: [u8; 4] = [0x73, 0x74, 0x73, 0x7a];

/// The four-character code `stco`.
pub const STCO: [u8; 4] = [0x73, 0x74, 0x63, 0x6f];

/// The four-character code `stss`.
pub const STSS: [u8; 4] = [0x73, 0x74, 0x73, 0x73];

/// The four-character code `isom`.
pub const ISOM: [u8; 4] = [0x69, 0x73, 0x6f, 0x6d];

/// The four-character code `iso2`.
pub const ISO2: [u8; 4] = [0x69, 0x73, 0x6f, 0x32];

/// The four-character code `mp41`.
pub const MP41: [u8; 4] = [0x6d, 0x70, 0x34, 0x31];

/// The four-character code `vide`.
pub const VIDE: [u8; 4] = [0x76, 0x69, 0x64, 0x65];

/// What the MP4 track header and sample description need to know.
pub struct Mp4Config {
    pub width: u32,
    pub height: u32,
    pub fps_num: u32,
    pub fps_den: u32,
    pub config_obus: Vec<u8>,
    pub video_signal: VideoSignal,
}

/// One coded frame and whether decoding can start at it.
pub struct Mp4Sample {
    pub data: Vec<u8>,
    pub is_sync: bool,
}

/// `n` zero bytes.
pub open spec fn zeros(n: int) -> Seq<u8> {
    Seq::new(n as nat, |i: int| 0u8)
}

/// Appends `n` zero bytes.
pub fn push_zeros(out: &mut Vec<u8>, n: usize)
    ensures
        final(out)@ == old(out)@ + zeros(n as int),
{
    let ghost start = out@;
    let mut i: usize = 0;
    while i < n
        invariant
            i <= n,
            out@ == start + zeros(i as int),
        decreases n - i,
    {
        out.push(0);
        i += 1;
        assert(out@ =~= start + zeros(i as int));
    }
}

/// A temporal delimiter OBU with an empty payload.
pub open spec fn is_temporal_delimiter_prefix(data: Seq<u8>) -> bool {
    data.len() >= 2 && data[0] == 0x12 && data[1] == 0x00
}

/// The data without a leading empty temporal delimiter OBU.
pub open spec fn strip_td_spec(data: Seq<u8>) -> Seq<u8> {
    if is_temporal_delimiter_prefix(data) { data.subrange(2, data.len() as int) } else { data }
}

/// Drops a leading empty temporal delimiter OBU (`12 00`), if there is one.
pub fn strip_temporal_delimiters(data: &[u8]) -> (out: Vec<u8>)
    ensures
        out@ == strip_td_spec(data@),
{
    let mut out: Vec<u8> = Vec::new();
    if data.len() >= 2 && data[0] == 0x12 && data[1] == 0x00 {
        let mut i: usize = 2;
        while i < data.len()
            invariant
                2 <= i <= data@.len(),
                out@ == data@.subrange(2, i as int),
            decreases data@.len() - i,
        {
            out.push(data[i]);
            i += 1;
            assert(out@ =~= data@.subrange(2, i as int));
        }
    } else {
        append_bytes(&mut out, data);
        assert(out@ =~= data@);
    }
    out
}

/// An ISO BMFF box: 32-bit size (truncated to 32 bits), type, payload.
pub open spec fn box_spec(box_type: Seq<u8>, payload: Seq<u8>) -> Seq<u8> {
    be32(((8 + payload.len()) % 0x1_0000_0000) as u32) + box_type + payload
}

/// A full box: a box whose payload starts with a version byte and 24 bits of flags.
pub open spec fn full_box_spec(box_type: Seq<u8>, version: u8, flags: u32, payload: Seq<u8>) -> Seq<u8> {
    box_spec(box_type, seq![version] + be32(flags).subrange(1, 4) + payload)
}

/// Wraps `payload` in a box of type `box_type`.
pub fn box_wrap(box_type: &[u8; 4], payload: &[u8]) -> (out: Vec<u8>)
    ensures
        out@ == box_spec(box_type@, payload@),
{
    let len32 = (payload.len() as u64) % 0x1_0000_0000;
    let size = ((len32 + 8) % 0x1_0000_0000) as u32;
    let mut out: Vec<u8> = Vec::new();
    push_be32(&mut out, size);
    append_bytes(&mut out, box_type);
    append_bytes(&mut out, payload);
    assert(out@ =~= box_spec(box_type@, payload@));
    out
}

/// Wraps `payload` in a full box of type `box_type`.
pub fn full_box(box_type: &[u8; 4], version: u8, flags: u32, payload: &[u8]) -> (out: Vec<u8>)
    ensures
        out@ == full_box_spec(box_type@, version, flags, payload@),
{
    let mut inner: Vec<u8> = Vec::new();
    inner.push(version);
    let mut fb: Vec<u8> = Vec::new();
    push_be32(&mut fb, flags);
    inner.push(fb[1]);
    inner.push(fb[2]);
    inner.push(fb[3]);
    append_bytes(&mut inner, payload);
    assert(inner@ =~= seq![version] + be32(flags).subrange(1, 4) + payload@);
    box_wrap(box_type, inner.as_slice())
}

/// The MP4 file type box: brand `isom` version 512, compatible with
/// `isom`, `av01`, `iso2` and `mp41`.
pub open spec fn mp4_ftyp_spec() -> Seq<u8> {
    box_spec(FTYP@, ISOM@ + be32(512) + ISOM@ + AV01@ + ISO2@ + MP41@)
}

/// Builds the MP4 file type box.
pub fn build_ftyp() -> (out: Vec<u8>)
    ensures
        out@ == mp4_ftyp_spec(),
        out@.len() == 32,
{
    let mut p: Vec<u8> = Vec::new();
    append_bytes(&mut p, &ISOM);
    push_be32(&mut p, 512);
    append_bytes(&mut p, &ISOM);
    append_bytes(&mut p, &AV01);
    append_bytes(&mut p, &ISO2);
    append_bytes(&mut p, &MP41);
    assert(p@ =~= ISOM@ + be32(512) + ISOM@ + AV01@ + ISO2@ + MP41@);
    box_wrap(&FTYP, p.as_slice())
}

/// Builds the media data box around `data`.
pub fn build_mdat(data: &[u8]) -> (out: Vec<u8>)
    ensures
        out@ == box_spec(MDAT@, data@),
{
    box_wrap(&MDAT, data)
}

/// The identity transformation matrix of movie and track headers.
pub open spec fn unity_matrix() -> Seq<u8> {
    be32(0x00010000) + be32(0) + be32(0) + be32(0) + be32(0x00010000) + be32(0) + be32(0) + be32(0) + be32(0x40000000)
}

/// Appends the identity transformation matrix.
fn push_unity_matrix(p: &mut Vec<u8>)
    ensures
        final(p)@ == old(p)@ + unity_matrix(),
{
    let ghost start = p@;
    push_be32(p, 0x00010000);
    push_be32(p, 0);
    push_be32(p, 0);
    push_be32(p, 0);
    push_be32(p, 0x00010000);
    push_be32(p, 0);
    push_be32(p, 0);
    push_be32(p, 0);
    push_be32(p, 0x40000000);
    assert(p@ =~= start + unity_matrix());
}

/// The movie header: millisecond timescale, the duration, unit rate and
/// volume, the identity matrix, and next track id 2.
pub open spec fn mvhd_spec(duration_ms: u32) -> Seq<u8> {
    full_box_spec(
        MVHD@,
        0,
        0,
        be32(0) + be32(0) + be32(1000) + be32(duration_ms) + be32(0x00010000) + be16(0x0100) + zeros(10) + unity_matrix()
            + zeros(24) + be32(2),
    )
}

/// Builds the movie header box.
pub fn build_mvhd(duration_ms: u32) -> (out: Vec<u8>)
    ensures
        out@ == mvhd_spec(duration_ms),
{
    let mut p: Vec<u8> = Vec::new();
    push_be32(&mut p, 0);
    push_be32(&mut p, 0);
    push_be32(&mut p, 1000);
    push_be32(&mut p, duration_ms);
    push_be32(&mut p, 0x00010000);
    push_be16(&mut p, 0x0100);
    push_zeros(&mut p, 10);
    push_unity_matrix(&mut p);
    push_zeros(&mut p, 24);
    push_be32(&mut p, 2);
    assert(p@ =~= be32(0) + be32(0) + be32(1000) + be32(duration_ms) + be32(0x00010000) + be16(0x0100) + zeros(10)
        + unity_matrix() + zeros(24) + be32(2));
    full_box(&MVHD, 0, 0, p.as_slice())
}

/// The track header: track 1, enabled and in the movie, the duration and
/// the display size in 16.16 fixed point.
pub open spec fn tkhd_spec(width: u32, height: u32, duration_ms: u32) -> Seq<u8> {
    full_box_spec(
        TKHD@,
        0,
        3,
        be32(0) + be32(0) + be32(1) + be32(0) + be32(duration_ms) + zeros(8) + be16(0) + be16(0) + be16(0) + be16(0)
            + unity_matrix() + be32(width << 16u32) + be32(height << 16u32),
    )
}

/// Builds the track header box.
pub fn build_tkhd(config: &Mp4Config, duration_ms: u32) -> (out: Vec<u8>)
    ensures
        out@ == tkhd_spec(config.width, config.height, duration_ms),
{
    let mut p: Vec<u8> = Vec::new();
    push_be32(&mut p, 0);
    push_be32(&mut p, 0);
    push_be32(&mut p, 1);
    push_be32(&mut p, 0);
    push_be32(&mut p, duration_ms);
    push_zeros(&mut p, 8);
    push_be16(&mut p, 0);
    push_be16(&mut p, 0);
    push_be16(&mut p, 0);
    push_be16(&mut p, 0);
    push_unity_matrix(&mut p);
    push_be32(&mut p, config.width << 16u32);
    push_be32(&mut p, config.height << 16u32);
    assert(p@ =~= be32(0) + be32(0) + be32(1) + be32(0) + be32(duration_ms) + zeros(8) + be16(0) + be16(0) + be16(0)
        + be16(0) + unity_matrix() + be32(config.width << 16u32) + be32(config.height << 16u32));
    full_box(&TKHD, 0, 3, p.as_slice())
}

/// The edit list: one entry covering the whole duration from media time 0 at unit rate.
pub open spec fn edts_spec(duration_ms: u32) -> Seq<u8> {
    box_spec(EDTS@, full_box_spec(ELST@, 0, 0, be32(1) + be32(duration_ms) + be32(0) + be32(0x00010000)))
}

/// Builds the edit box.
pub fn build_edts(duration_ms: u32) -> (out: Vec<u8>)
    ensures
        out@ == edts_spec(duration_ms),
{
    let mut p: Vec<u8> = Vec::new();
    push_be32(&mut p, 1);
    push_be32(&mut p, duration_ms);
    push_be32(&mut p, 0);
    push_be32(&mut p, 0x00010000);
    assert(p@ =~= be32(1) + be32(duration_ms) + be32(0) + be32(0x00010000));
    let elst = full_box(&ELST, 0, 0, p.as_slice());
    box_wrap(&EDTS, elst.as_slice())
}

/// The media header: the timescale, the duration, and language `und`.
pub open spec fn mdhd_spec(timescale: u32, duration: u32) -> Seq<u8> {
    full_box_spec(MDHD@, 0, 0, be32(0) + be32(0) + be32(timescale) + be32(duration) + be16(0x55C4) + be16(0))
}

/// Builds the media header box.
pub fn build_mdhd(timescale: u32, duration: u32) -> (out: Vec<u8>)
    ensures
        out@ == mdhd_spec(timescale, duration),
{
    let mut p: Vec<u8> = Vec::new();
    push_be32(&mut p, 0);
    push_be32(&mut p, 0);
    push_be32(&mut p, timescale);
    push_be32(&mut p, duration);
    push_be16(&mut p, 0x55C4);
    push_be16(&mut p, 0);
    assert(p@ =~= be32(0) + be32(0) + be32(timescale) + be32(duration) + be16(0x55C4) + be16(0));
    full_box(&MDHD, 0, 0, p.as_slice())
}

/// The name of the video handler, NUL-terminated.
pub const VIDEO_HANDLER_NAME: [u8; 13] = [0x56, 0x69, 0x64, 0x65, 0x6f, 0x48, 0x61, 0x6e, 0x64, 0x6c, 0x65, 0x72, 0x00];

/// The handler box of a video track.
pub open spec fn mp4_hdlr_spec() -> Seq<u8> {
    full_box_spec(HDLR@, 0, 0, be32(0) + VIDE@ + zeros(12) + VIDEO_HANDLER_NAME@)
}

/// Builds the handler box of a video track.
pub fn build_hdlr() -> (out: Vec<u8>)
    ensures
        out@ == mp4_hdlr_spec(),
{
    let mut p: Vec<u8> = Vec::new();
    push_be32(&mut p, 0);
    append_bytes(&mut p, &VIDE);
    push_zeros(&mut p, 12);
    append_bytes(&mut p, &VIDEO_HANDLER_NAME);
    assert(p@ =~= be32(0) + VIDE@ + zeros(12) + VIDEO_HANDLER_NAME@);
    full_box(&HDLR, 0, 0, p.as_slice())
}

/// The data information box: one self-contained data reference.
pub open spec fn dinf_spec() -> Seq<u8> {
    box_spec(DINF@, full_box_spec(DREF@, 0, 0, be32(1) + full_box_spec(URL_@, 0, 1, Seq::empty())))
}

/// Builds the data information box.
pub fn build_dinf() -> (out: Vec<u8>)
    ensures
        out@ == dinf_spec(),
{
    let empty: [u8; 0] = [];
    let url = full_box(&URL_, 0, 1, &empty);
    let mut dref_payload: Vec<u8> = Vec::new();
    push_be32(&mut dref_payload, 1);
    append_bytes(&mut dref_payload, url.as_slice());
    assert(empty@ =~= Seq::<u8>::empty());
    let dref = full_box(&DREF, 0, 0, dref_payload.as_slice());
    box_wrap(&DINF, dref.as_slice())
}

/// The AV1 codec configuration: marker and version, profile and level,
/// tier and bit depth, then the configuration OBUs.
pub open spec fn av1c_spec(bit_depth: BitDepth, config_obus: Seq<u8>) -> Seq<u8> {
    box_spec(AV1C_BOX@, seq![0x81u8, 0x0D, if bit_depth == BitDepth::Ten { 0x4Cu8 } else { 0x0Cu8 }, 0x00] + config_obus)
}

/// Builds the AV1 codec configuration box.
pub fn build_av1c(bit_depth: BitDepth, config_obus: &[u8]) -> (out: Vec<u8>)
    ensures
        out@ == av1c_spec(bit_depth, config_obus@),
{
    let high_bitdepth = bit_depth == BitDepth::Ten;
    let mut p: Vec<u8> = Vec::new();
    p.push(0x81);
    p.push(0x0D);
    p.push(if high_bitdepth { 0x4C } else { 0x0C });
    p.push(0x00);
    append_bytes(&mut p, config_obus);
    assert(p@ =~= seq![0x81u8, 0x0D, if bit_depth == BitDepth::Ten { 0x4Cu8 } else { 0x0Cu8 }, 0x00] + config_obus@);
    box_wrap(&AV1C_BOX, p.as_slice())
}

/// The colour box: `nclx` with the described primaries, transfer and matrix
/// (2, unspecified, each when not described) and the full-range flag.
pub open spec fn colr_spec(signal: VideoSignal) -> Seq<u8> {
    let codes = match signal.color_description {
        Some(cd) => be16(cd.color_primaries as u16) + be16(cd.transfer_characteristics as u16) + be16(cd.matrix_coefficients as u16),
        None => be16(2) + be16(2) + be16(2),
    };
    box_spec(COLR@, NCLX@ + codes + seq![if signal.color_range == ColorRange::Full { 0x80u8 } else { 0x00u8 }])
}

/// Builds the colour box.
pub fn build_colr(signal: &VideoSignal) -> (out: Vec<u8>)
    ensures
        out@ == colr_spec(*signal),
{
    let mut p: Vec<u8> = Vec::new();
    append_bytes(&mut p, &NCLX);
    match signal.color_description {
        Some(cd) => {
            push_be16(&mut p, cd.color_primaries as u16);
            push_be16(&mut p, cd.transfer_characteristics as u16);
            push_be16(&mut p, cd.matrix_coefficients as u16);
        },
        None => {
            push_be16(&mut p, 2);
            push_be16(&mut p, 2);
            push_be16(&mut p, 2);
        },
    }
    let full_range: u8 = match signal.color_range {
        ColorRange::Full => 0x80,
        ColorRange::Limited => 0x00,
    };
    p.push(full_range);
    proof {
        let codes = match signal.color_description {
            Some(cd) => be16(cd.color_primaries as u16) + be16(cd.transfer_characteristics as u16) + be16(cd.matrix_coefficients as u16),
            None => be16(2) + be16(2) + be16(2),
        };
        assert(p@ =~= NCLX@ + codes + seq![full_range]);
    }
    box_wrap(&COLR, p.as_slice())
}

/// The pixel aspect ratio box: square pixels.
pub open spec fn pasp_spec() -> Seq<u8> {
    box_spec(PASP@, be32(1) + be32(1))
}

/// Builds the pixel aspect ratio box.
pub fn build_pasp() -> (out: Vec<u8>)
    ensures
        out@ == pasp_spec(),
{
    let mut p: Vec<u8> = Vec::new();
    push_be32(&mut p, 1);
    push_be32(&mut p, 1);
    assert(p@ =~= be32(1) + be32(1));
    box_wrap(&PASP, p.as_slice())
}

/// The AV1 sample entry: the visual sample entry fields with the frame
/// size (each truncated to 16 bits), 72 dpi, one frame per sample, depth
/// 24, then the codec configuration, colour and aspect boxes.
#[verifier::opaque]
pub open spec fn av01_spec(config: Mp4Config) -> Seq<u8> {
    box_spec(
        AV01@,
        zeros(6) + be16(1) + zeros(16) + be16(config.width as u16) + be16(config.height as u16) + be32(0x00480000) + be32(
            0x00480000,
        ) + be32(0) + be16(1) + zeros(32) + be16(0x0018) + be16(0xFFFF) + av1c_spec(config.video_signal.bit_depth, config.config_obus@)
            + colr_spec(config.video_signal) + pasp_spec(),
    )
}

/// Builds the AV1 sample entry.
pub fn build_av01(config: &Mp4Config) -> (out: Vec<u8>)
    ensures
        out@ == av01_spec(*config),
{
    reveal(av01_spec);
    let mut p: Vec<u8> = Vec::new();
    push_zeros(&mut p, 6);
    push_be16(&mut p, 1);
    push_zeros(&mut p, 16);
    push_be16(&mut p, config.width as u16);
    push_be16(&mut p, config.height as u16);
    push_be32(&mut p, 0x00480000);
    push_be32(&mut p, 0x00480000);
    push_be32(&mut p, 0);
    push_be16(&mut p, 1);
    push_zeros(&mut p, 32);
    push_be16(&mut p, 0x0018);
    push_be16(&mut p, 0xFFFF);
    let av1c = build_av1c(config.video_signal.bit_depth, config.config_obus.as_slice());
    append_bytes(&mut p, av1c.as_slice());
    let colr = build_colr(&config.video_signal);
    append_bytes(&mut p, colr.as_slice());
    let pasp = build_pasp();
    append_bytes(&mut p, pasp.as_slice());
    assert(p@ =~= zeros(6) + be16(1) + zeros(16) + be16(config.width as u16) + be16(config.height as u16) + be32(0x00480000)
        + be32(0x00480000) + be32(0) + be16(1) + zeros(32) + be16(0x0018) + be16(0xFFFF) + av1c_spec(config.video_signal.bit_depth, config.config_obus@)
        + colr_spec(config.video_signal) + pasp_spec());
    box_wrap(&AV01, p.as_slice())
}

/// The sample description box: one AV1 sample entry.
#[verifier::opaque]
pub open spec fn stsd_spec(config: Mp4Config) -> Seq<u8> {
    full_box_spec(STSD@, 0, 0, be32(1) + av01_spec(config))
}

/// Builds the sample description box.
pub fn build_stsd(config: &Mp4Config) -> (out: Vec<u8>)
    ensures
        out@ == stsd_spec(*config),
{
    reveal(stsd_spec);
    let av01 = build_av01(config);
    let mut p: Vec<u8> = Vec::new();
    push_be32(&mut p, 1);
    append_bytes(&mut p, av01.as_slice());
    full_box(&STSD, 0, 0, p.as_slice())
}

/// The decoding time box: every sample lasts `sample_delta`.
pub open spec fn stts_spec(num_samples: u32, sample_delta: u32) -> Seq<u8> {
    full_box_spec(STTS@, 0, 0, be32(1) + be32(num_samples) + be32(sample_delta))
}

/// Builds the decoding time box.
pub fn build_stts(num_samples: u32, sample_delta: u32) -> (out: Vec<u8>)
    ensures
        out@ == stts_spec(num_samples, sample_delta),
{
    let mut p: Vec<u8> = Vec::new();
    push_be32(&mut p, 1);
    push_be32(&mut p, num_samples);
    push_be32(&mut p, sample_delta);
    assert(p@ =~= be32(1) + be32(num_samples) + be32(sample_delta));
    full_box(&STTS, 0, 0, p.as_slice())
}

/// The sample-to-chunk box: all samples in one chunk.
pub open spec fn stsc_spec(num_samples: u32) -> Seq<u8> {
    full_box_spec(STSC@, 0, 0, be32(1) + be32(1) + be32(num_samples) + be32(1))
}

/// Builds the sample-to-chunk box.
pub fn build_stsc(num_samples: u32) -> (out: Vec<u8>)
    ensures
        out@ == stsc_spec(num_samples),
{
    let mut p: Vec<u8> = Vec::new();
    push_be32(&mut p, 1);
    push_be32(&mut p, 1);
    push_be32(&mut p, num_samples);
    push_be32(&mut p, 1);
    assert(p@ =~= be32(1) + be32(1) + be32(num_samples) + be32(1));
    full_box(&STSC, 0, 0, p.as_slice())
}

/// The sizes of the first `n` samples, each as 32 big-endian bits (truncated).
pub open spec fn sample_sizes(samples: Seq<Mp4Sample>, n: int) -> Seq<u8>
    decreases n,
{
    if n <= 0 { Seq::empty() } else { sample_sizes(samples, n - 1) + be32(samples[n - 1].data@.len() as u32) }
}

/// The sample size box: no common size, then each sample's size.
pub open spec fn stsz_spec(samples: Seq<Mp4Sample>) -> Seq<u8> {
    full_box_spec(STSZ@, 0, 0, be32(0) + be32(samples.len() as u32) + sample_sizes(samples, samples.len() as int))
}

/// Builds the sample size box.
pub fn build_stsz(samples: &[Mp4Sample]) -> (out: Vec<u8>)
    ensures
        out@ == stsz_spec(samples@),
{
    let mut p: Vec<u8> = Vec::new();
    push_be32(&mut p, 0);
    push_be32(&mut p, samples.len() as u32);
    let mut i: usize = 0;
    while i < samples.len()
        invariant
            i <= samples@.len(),
            p@ == be32(0) + be32(samples@.len() as u32) + sample_sizes(samples@, i as int),
        decreases samples@.len() - i,
    {
        push_be32(&mut p, samples[i].data.len() as u32);
        i += 1;
    }
    full_box(&STSZ, 0, 0, p.as_slice())
}

/// The chunk offset box: the single chunk's offset.
pub open spec fn stco_spec(chunk_offset: u32) -> Seq<u8> {
    full_box_spec(STCO@, 0, 0, be32(1) + be32(chunk_offset))
}

/// Builds the chunk offset box.
pub fn build_stco(chunk_offset: u32) -> (out: Vec<u8>)
    ensures
        out@ == stco_spec(chunk_offset),
{
    let mut p: Vec<u8> = Vec::new();
    push_be32(&mut p, 1);
    push_be32(&mut p, chunk_offset);
    assert(p@ =~= be32(1) + be32(chunk_offset));
    full_box(&STCO, 0, 0, p.as_slice())
}

/// How many of the first `n` samples are sync samples.
pub open spec fn sync_count(samples: Seq<Mp4Sample>, n: int) -> int
    decreases n,
{
    if n <= 0 { 0 } else { sync_count(samples, n - 1) + (if samples[n - 1].is_sync { 1int } else { 0 }) }
}

/// The one-based numbers of the sync samples among the first `n`, each as
/// 32 big-endian bits.
pub open spec fn sync_numbers(samples: Seq<Mp4Sample>, n: int) -> Seq<u8>
    decreases n,
{
    if n <= 0 {
        Seq::empty()
    } else {
        sync_numbers(samples, n - 1) + (if samples[n - 1].is_sync { be32(n as u32) } else { Seq::empty() })
    }
}

/// The sync sample box: the count and the numbers of the sync samples.
pub open spec fn stss_spec(samples: Seq<Mp4Sample>) -> Seq<u8> {
    full_box_spec(STSS@, 0, 0, be32(sync_count(samples, samples.len() as int) as u32) + sync_numbers(samples, samples.len() as int))
}

proof fn lemma_sync_count_bound(samples: Seq<Mp4Sample>, n: int)
    requires
        0 <= n,
    ensures
        0 <= sync_count(samples, n) <= n,
    decreases n,
{
    if n > 0 {
        lemma_sync_count_bound(samples, n - 1);
    }
}


/// The 32-bit big-endian number stored at entry `k` of `d`.
pub open spec fn entry_at(d: Seq<u8>, k: int) -> int {
    d[4 * k] as int * 0x100_0000 + d[4 * k + 1] as int * 0x1_0000 + d[4 * k + 2] as int * 0x100 + d[4 * k + 3] as int
}

proof fn lemma_be32_entry(v: u32)
    ensures
        entry_at(be32(v), 0) == v,
{
    vstd::arithmetic::power2::lemma2_to64();
    vstd::bits::lemma_u32_shr_is_div(v, 24);
    vstd::bits::lemma_u32_shr_is_div(v, 16);
    vstd::bits::lemma_u32_shr_is_div(v, 8);
    vstd::bits::lemma_u32_low_bits_mask_is_mod(v >> 16u32, 8);
    vstd::bits::lemma_u32_low_bits_mask_is_mod(v >> 8u32, 8);
    vstd::bits::lemma_u32_low_bits_mask_is_mod(v, 8);
    assert(vstd::bits::low_bits_mask(8) == 255) by {
        vstd::arithmetic::power2::lemma2_to64();
    }
    let x = v as int;
    assert((v >> 24u32) as int == x / 0x100_0000);
    assert(((v >> 16u32) & 0xff) as int == (x / 0x1_0000) % 256);
    assert(((v >> 8u32) & 0xff) as int == (x / 0x100) % 256);
    assert((v & 0xff) as int == x % 256);
    assert((x / 0x100_0000) * 0x100_0000 + ((x / 0x1_0000) % 256) * 0x1_0000 + ((x / 0x100) % 256) * 0x100 + x % 256 == x);
}

proof fn lemma_sync_entries(samples: Seq<Mp4Sample>, n: int)
    requires
        0 <= n <= samples.len(),
        n < 0x1_0000_0000,
    ensures
        sync_numbers(samples, n).len() == 4 * sync_count(samples, n),
        forall|k: int| 0 <= k < sync_count(samples, n) ==> {
            let v = #[trigger] entry_at(sync_numbers(samples, n), k);
            &&& 1 <= v <= n
            &&& samples[v - 1].is_sync
        },
        forall|k1: int, k2: int| 0 <= k1 < k2 < sync_count(samples, n) ==> #[trigger] entry_at(sync_numbers(samples, n), k1) < #[trigger] entry_at(sync_numbers(samples, n), k2),
        forall|j: int| 0 <= j < n && #[trigger] samples[j].is_sync ==> 0 <= sync_count(samples, j) < sync_count(samples, n) && entry_at(sync_numbers(samples, n), sync_count(samples, j)) == j + 1,
    decreases n,
{
    if n > 0 {
        lemma_sync_entries(samples, n - 1);
        lemma_sync_count_bound(samples, n - 1);
        let a = sync_numbers(samples, n - 1);
        let c = sync_count(samples, n - 1);
        let d = sync_numbers(samples, n);
        if samples[n - 1].is_sync {
            let b = be32(n as u32);
            assert(d == a + b);
            lemma_be32_entry(n as u32);
            assert forall|k: int| 0 <= k < c implies #[trigger] entry_at(d, k) == entry_at(a, k) by {
                assert(d[4 * k] == a[4 * k] && d[4 * k + 1] == a[4 * k + 1] && d[4 * k + 2] == a[4 * k + 2] && d[4 * k + 3] == a[4 * k + 3]);
            }
            assert(entry_at(d, c) == entry_at(b, 0)) by {
                assert(d[4 * c] == b[0] && d[4 * c + 1] == b[1] && d[4 * c + 2] == b[2] && d[4 * c + 3] == b[3]);
            }
            assert forall|j: int| 0 <= j < n && #[trigger] samples[j].is_sync implies 0 <= sync_count(samples, j) < sync_count(samples, n)
                && entry_at(d, sync_count(samples, j)) == j + 1 by {
                if j < n - 1 {
                    assert(entry_at(d, sync_count(samples, j)) == entry_at(a, sync_count(samples, j)));
                }
            }
        } else {
            assert(d == a + Seq::<u8>::empty());
            assert(d =~= a);
        }
    }
}

/// The sync sample box lists exactly the sync samples: each number in it is
/// the one-based index of a sample marked sync, the numbers rise strictly,
/// and every sync sample is listed; the count gives the number of entries.
pub proof fn lemma_stss_lists_sync_samples(samples: Seq<Mp4Sample>)
    requires
        samples.len() < 0x1_0000_0000,
    ensures
        ({
            let n = samples.len() as int;
            let numbers = sync_numbers(samples, n);
            let count = sync_count(samples, n);
            &&& numbers.len() == 4 * count
            &&& forall|k: int| 0 <= k < count ==> {
                let v = #[trigger] entry_at(numbers, k);
                &&& 1 <= v <= n
                &&& samples[v - 1].is_sync
            }
            &&& forall|k1: int, k2: int| 0 <= k1 < k2 < count ==> #[trigger] entry_at(numbers, k1) < #[trigger] entry_at(numbers, k2)
            &&& forall|j: int| 0 <= j < n && #[trigger] samples[j].is_sync ==> exists|k: int| 0 <= k < count && #[trigger] entry_at(numbers, k) == j + 1
        }),
{
    let n = samples.len() as int;
    lemma_sync_entries(samples, n);
    assert forall|j: int| 0 <= j < n && #[trigger] samples[j].is_sync implies exists|k: int| 0 <= k < sync_count(samples, n) && #[trigger] entry_at(sync_numbers(samples, n), k) == j + 1 by {
        let k = sync_count(samples, j);
        assert(entry_at(sync_numbers(samples, n), k) == j + 1);
    }
}

/// Builds the sync sample box.
pub fn build_stss(samples: &[Mp4Sample]) -> (out: Vec<u8>)
    requires
        samples@.len() < u32::MAX,
    ensures
        out@ == stss_spec(samples@),
{
    let mut count: u32 = 0;
    let mut numbers: Vec<u8> = Vec::new();
    let mut i: usize = 0;
    while i < samples.len()
        invariant
            i <= samples@.len(),
            samples@.len() < u32::MAX,
            count as int == sync_count(samples@, i as int),
            numbers@ == sync_numbers(samples@, i as int),
        decreases samples@.len() - i,
    {
        proof {
            lemma_sync_count_bound(samples@, i as int);
        }
        if samples[i].is_sync {
            push_be32(&mut numbers, (i + 1) as u32);
            count = count + 1;
        }
        i += 1;
    }
    let mut p: Vec<u8> = Vec::new();
    push_be32(&mut p, count);
    append_bytes(&mut p, numbers.as_slice());
    full_box(&STSS, 0, 0, p.as_slice())
}

/// Some sample is not a sync sample.
pub open spec fn has_inter(samples: Seq<Mp4Sample>) -> bool {
    exists|i: int| 0 <= i < samples.len() && !samples[i].is_sync
}

/// The sample table: description, timing, chunking, sizes and the chunk
/// offset, plus the sync samples when some sample is not one.
#[verifier::opaque]
pub open spec fn stbl_spec(config: Mp4Config, samples: Seq<Mp4Sample>, data_offset: u32) -> Seq<u8> {
    box_spec(
        STBL@,
        stsd_spec(config) + stts_spec(samples.len() as u32, config.fps_den) + stsc_spec(samples.len() as u32) + stsz_spec(samples)
            + stco_spec(data_offset) + (if has_inter(samples) { stss_spec(samples) } else { Seq::empty() }),
    )
}

/// Builds the sample table box.
pub fn build_stbl(config: &Mp4Config, samples: &[Mp4Sample], data_offset: u32) -> (out: Vec<u8>)
    requires
        samples@.len() < u32::MAX,
    ensures
        out@ == stbl_spec(*config, samples@, data_offset),
{
    reveal(stbl_spec);
    let stsd = build_stsd(config);
    let stts = build_stts(samples.len() as u32, config.fps_den);
    let stsc = build_stsc(samples.len() as u32);
    let stsz = build_stsz(samples);
    let stco = build_stco(data_offset);
    let mut payload: Vec<u8> = Vec::new();
    append_bytes(&mut payload, stsd.as_slice());
    append_bytes(&mut payload, stts.as_slice());
    append_bytes(&mut payload, stsc.as_slice());
    append_bytes(&mut payload, stsz.as_slice());
    append_bytes(&mut payload, stco.as_slice());
    let mut any_inter = false;
    let mut i: usize = 0;
    while i < samples.len()
        invariant
            i <= samples@.len(),
            any_inter == exists|j: int| 0 <= j < i && !samples@[j].is_sync,
        decreases samples@.len() - i,
    {
        if !samples[i].is_sync {
            any_inter = true;
        }
        i += 1;
    }
    if any_inter {
        let stss = build_stss(samples);
        append_bytes(&mut payload, stss.as_slice());
    }
    box_wrap(&STBL, payload.as_slice())
}

/// The media information box: video media header, data information, sample table.
#[verifier::opaque]
pub open spec fn minf_spec(config: Mp4Config, samples: Seq<Mp4Sample>, data_offset: u32) -> Seq<u8> {
    box_spec(MINF@, full_box_spec(VMHD@, 0, 1, zeros(8)) + dinf_spec() + stbl_spec(config, samples, data_offset))
}

/// Builds the media information box.
pub fn build_minf(config: &Mp4Config, samples: &[Mp4Sample], data_offset: u32) -> (out: Vec<u8>)
    requires
        samples@.len() < u32::MAX,
    ensures
        out@ == minf_spec(*config, samples@, data_offset),
{
    reveal(minf_spec);
    let zero8 = [0u8; 8];
    assert(zero8@ =~= zeros(8));
    let vmhd = full_box(&VMHD, 0, 1, &zero8);
    let dinf = build_dinf();
    let stbl = build_stbl(config, samples, data_offset);
    let mut payload: Vec<u8> = Vec::new();
    append_bytes(&mut payload, vmhd.as_slice());
    append_bytes(&mut payload, dinf.as_slice());
    append_bytes(&mut payload, stbl.as_slice());
    box_wrap(&MINF, payload.as_slice())
}

/// The media box: media header, handler and media information.
#[verifier::opaque]
pub open spec fn mdia_spec(config: Mp4Config, samples: Seq<Mp4Sample>, data_offset: u32, media_duration: u32) -> Seq<u8> {
    box_spec(MDIA@, mdhd_spec(config.fps_num, media_duration) + mp4_hdlr_spec() + minf_spec(config, samples, data_offset))
}

/// Builds the media box.
pub fn build_mdia(config: &Mp4Config, samples: &[Mp4Sample], data_offset: u32, media_duration: u32) -> (out: Vec<u8>)
    requires
        samples@.len() < u32::MAX,
    ensures
        out@ == mdia_spec(*config, samples@, data_offset, media_duration),
{
    reveal(mdia_spec);
    let mdhd = build_mdhd(config.fps_num, media_duration);
    let hdlr = build_hdlr();
    let minf = build_minf(config, samples, data_offset);
    let mut payload: Vec<u8> = Vec::new();
    append_bytes(&mut payload, mdhd.as_slice());
    append_bytes(&mut payload, hdlr.as_slice());
    append_bytes(&mut payload, minf.as_slice());
    box_wrap(&MDIA, payload.as_slice())
}

/// The track box: header, edit list and media.
#[verifier::opaque]
pub open spec fn trak_spec(config: Mp4Config, samples: Seq<Mp4Sample>, data_offset: u32, media_duration: u32, duration_ms: u32) -> Seq<u8> {
    box_spec(
        TRAK@,
        tkhd_spec(config.width, config.height, duration_ms) + edts_spec(duration_ms) + mdia_spec(config, samples, data_offset, media_duration),
    )
}

/// Builds the track box.
pub fn build_trak(config: &Mp4Config, samples: &[Mp4Sample], data_offset: u32, media_duration: u32, duration_ms: u32) -> (out: Vec<u8>)
    requires
        samples@.len() < u32::MAX,
    ensures
        out@ == trak_spec(*config, samples@, data_offset, media_duration, duration_ms),
{
    reveal(trak_spec);
    let tkhd = build_tkhd(config, duration_ms);
    let edts = build_edts(duration_ms);
    let mdia = build_mdia(config, samples, data_offset, media_duration);
    let mut payload: Vec<u8> = Vec::new();
    append_bytes(&mut payload, tkhd.as_slice());
    append_bytes(&mut payload, edts.as_slice());
    append_bytes(&mut payload, mdia.as_slice());
    box_wrap(&TRAK, payload.as_slice())
}

/// The movie duration in the media timescale: one `fps_den` per sample.
pub open spec fn media_duration_spec(config: Mp4Config, n: int) -> int {
    n * config.fps_den
}

/// The movie duration in milliseconds, 0 without a frame rate.
pub open spec fn total_ms_spec(config: Mp4Config, n: int) -> int {
    if config.fps_num > 0 { (media_duration_spec(config, n) * 1000) / (config.fps_num as int) } else { 0 }
}

/// The movie box: movie header and the one track, durations truncated to 32 bits.
#[verifier::opaque]
pub open spec fn moov_spec(config: Mp4Config, samples: Seq<Mp4Sample>, data_offset: u32) -> Seq<u8> {
    let md = media_duration_spec(config, samples.len() as int) as u32;
    let ms = total_ms_spec(config, samples.len() as int) as u32;
    box_spec(MOOV@, mvhd_spec(ms) + trak_spec(config, samples, data_offset, md, ms))
}

/// Builds the movie box.
pub fn build_moov(config: &Mp4Config, samples: &[Mp4Sample], data_offset: u32) -> (out: Vec<u8>)
    requires
        samples@.len() < u32::MAX,
        samples@.len() * config.fps_den * 1000 <= u64::MAX,
    ensures
        out@ == moov_spec(*config, samples@, data_offset),
{
    reveal(moov_spec);
    let num_samples = samples.len() as u64;
    assert(num_samples * (config.fps_den as u64) <= u64::MAX) by (nonlinear_arith)
        requires
            num_samples * config.fps_den * 1000 <= u64::MAX,
    ;
    let media_duration = num_samples * config.fps_den as u64;
    let total_ms = if config.fps_num > 0 {
        (media_duration * 1000) / config.fps_num as u64
    } else {
        0
    };
    let mvhd = build_mvhd(total_ms as u32);
    let trak = build_trak(config, samples, data_offset, media_duration as u32, total_ms as u32);
    let mut payload: Vec<u8> = Vec::new();
    append_bytes(&mut payload, mvhd.as_slice());
    append_bytes(&mut payload, trak.as_slice());
    box_wrap(&MOOV, payload.as_slice())
}

/// The sample data of the first `n` samples, back to back.
pub open spec fn samples_data(samples: Seq<Mp4Sample>, n: int) -> Seq<u8>
    decreases n,
{
    if n <= 0 { Seq::empty() } else { samples_data(samples, n - 1) + samples[n - 1].data@ }
}

/// A whole MP4 file: file type, the media data with every sample, and the
/// movie box whose chunk offset points just past the media data header.
pub open spec fn mp4_spec(config: Mp4Config, samples: Seq<Mp4Sample>) -> Seq<u8> {
    mp4_ftyp_spec() + box_spec(MDAT@, samples_data(samples, samples.len() as int)) + moov_spec(config, samples, 40)
}

/// Appends a whole MP4 file for the samples.
pub fn write_mp4(w: &mut Vec<u8>, config: &Mp4Config, samples: &[Mp4Sample]) -> (r: Result<(), std::io::Error>)
    requires
        samples@.len() < u32::MAX,
        samples@.len() * config.fps_den * 1000 <= u64::MAX,
    ensures
        r is Ok,
        final(w)@ == old(w)@ + mp4_spec(*config, samples@),
{
    let ftyp = build_ftyp();
    let mut mdat_payload: Vec<u8> = Vec::new();
    let mut i: usize = 0;
    while i < samples.len()
        invariant
            i <= samples@.len(),
            mdat_payload@ == samples_data(samples@, i as int),
        decreases samples@.len() - i,
    {
        append_bytes(&mut mdat_payload, samples[i].data.as_slice());
        i += 1;
    }
    let mdat = build_mdat(mdat_payload.as_slice());
    let data_offset = ftyp.len() as u32 + 8;
    let moov = build_moov(config, samples, data_offset);
    let ghost start = w@;
    append_bytes(w, ftyp.as_slice());
    append_bytes(w, mdat.as_slice());
    append_bytes(w, moov.as_slice());
    assert(data_offset == 40);
    assert(mp4_spec(*config, samples@) == ftyp@ + mdat@ + moov@);
    assert(w@ =~= start + (ftyp@ + mdat@ + moov@));
    Ok(())
}

} // verus!
