use vstd::prelude::*;
use crate::bytes::{append_bytes, be16, be32, push_be16, push_be32};
use crate::mp4::{
    box_spec, box_wrap, full_box, full_box_spec, strip_temporal_delimiters, strip_td_spec,
    build_av1c, build_colr, av1c_spec, colr_spec,
};
use crate::avif::{
    build_ftyp, build_hdlr, build_pitm, build_ispe, build_pixi, avif_ftyp_spec, avif_hdlr_spec,
    pitm_spec, ispe_spec, pixi_spec, AVIF, MIF1, FTYP, ILOC, INFE, IINF, AV01, IPRP, IPCO, IPMA,
    META, MDAT,
};
use crate::video::{ContentLightLevel, MasteringDisplayMetadata, VideoSignal};
use crate::text::{str_chars, append_chars, string_from_chars, decimal_chars, decimal_text};

verus! {

/// A fraction with a signed numerator.
#[derive(Debug, Clone, Copy, PartialEq, Eq, Structural)]
pub struct SignedFraction {
    pub n: i32,
    pub d: u32,
}

/// A fraction with an unsigned numerator.
#[derive(Debug, Clone, Copy, PartialEq, Eq, Structural)]
pub struct UnsignedFraction {
    pub n: u32,
    pub d: u32,
}

/// The parameters of a tone-map (`tmap`) derived item, per colour channel
/// where they are arrays.
#[derive(Debug, Clone, Copy, PartialEq, Eq)]
pub struct ToneMapMetadata {
    pub base_hdr_headroom: UnsignedFraction,
    pub alternate_hdr_headroom: UnsignedFraction,
    pub gain_map_min: [SignedFraction; 3],
    pub gain_map_max: [SignedFraction; 3],
    pub gain_map_gamma: [UnsignedFraction; 3],
    pub base_offset: [SignedFraction; 3],
    pub alternate_offset: [SignedFraction; 3],
    pub use_base_color_space: bool,
}

/// The fraction `num / den` with the sign moved to the numerator, where it
/// is non-negative with a non-zero denominator.
pub open spec fn normalized_spec(num: i32, den: i32) -> Option<UnsignedFraction> {
    let n: int = if den < 0 {
        -num
    } else {
        num as int
    };
    let d: int = if den < 0 {
        -den
    } else {
        den as int
    };
    if d == 0 || n < 0 {
        None
    } else {
        Some(UnsignedFraction { n: n as u32, d: d as u32 })
    }
}

/// Normalises `num / den` to an unsigned fraction.
pub fn normalize_positive_unsigned(num: i32, den: i32) -> (r: Result<UnsignedFraction, String>)
    ensures
        match normalized_spec(num, den) {
            Some(f) => r == Ok::<UnsignedFraction, String>(f),
            None => r is Err,
        },
        den == 0 ==> (r matches Err(m) && m@ == "fraction denominator is zero"@),
        (den != 0 && normalized_spec(num, den) is None) ==> (r matches Err(m) && m@
            == "fraction numerator must be non-negative"@),
{
    let mut n = num as i64;
    let mut d = den as i64;
    if d < 0 {
        d = -d;
        n = -n;
    }
    if d == 0 {
        return Err(String::from_str("fraction denominator is zero"));
    }
    if n < 0 {
        return Err(String::from_str("fraction numerator must be non-negative"));
    }
    if n > u32::MAX as i64 || d > u32::MAX as i64 {
        return Err(String::from_str("fraction component exceeds u32 range"));
    }
    Ok(UnsignedFraction { n: n as u32, d: d as u32 })
}

/// The channel checks of a tone map: non-zero denominators, a non-zero gamma
/// numerator, and a maximum gain no smaller than the minimum.
pub open spec fn tmap_channel_ok(m: ToneMapMetadata, c: int) -> bool {
    &&& m.gain_map_min[c].d != 0
    &&& m.gain_map_max[c].d != 0
    &&& m.gain_map_gamma[c].d != 0
    &&& m.base_offset[c].d != 0
    &&& m.alternate_offset[c].d != 0
    &&& m.gain_map_gamma[c].n != 0
    &&& m.gain_map_max[c].n * m.gain_map_min[c].d >= m.gain_map_min[c].n * m.gain_map_max[c].d
}

/// A tone map that can be written.
pub open spec fn tmap_valid(m: ToneMapMetadata) -> bool {
    &&& m.base_hdr_headroom.d != 0
    &&& m.alternate_hdr_headroom.d != 0
    &&& forall|c: int| 0 <= c < 3 ==> #[trigger] tmap_channel_ok(m, c)
}

/// The message for a channel that fails a check.
fn tmap_channel_error(c: usize, problem: &str) -> (r: String)
    ensures
        r@ == "tmap channel "@ + decimal_text(c as nat) + " "@ + problem@,
{
    let mut cs = str_chars("tmap channel ");
    append_chars(&mut cs, decimal_chars(c as u64).as_slice());
    append_chars(&mut cs, str_chars(" ").as_slice());
    append_chars(&mut cs, str_chars(problem).as_slice());
    string_from_chars(cs.as_slice())
}

/// Checks a tone map before it is written.
fn validate_tmap_metadata(metadata: &ToneMapMetadata) -> (r: Result<(), String>)
    ensures
        r is Ok <==> tmap_valid(*metadata),
        (metadata.base_hdr_headroom.d == 0 || metadata.alternate_hdr_headroom.d == 0) ==> (r matches Err(
            m,
        ) && m@ == "tmap headroom denominators must be non-zero"@),
{
    if metadata.base_hdr_headroom.d == 0 || metadata.alternate_hdr_headroom.d == 0 {
        return Err(String::from_str("tmap headroom denominators must be non-zero"));
    }
    let mut c: usize = 0;
    while c < 3
        invariant
            c <= 3,
            metadata.base_hdr_headroom.d != 0,
            metadata.alternate_hdr_headroom.d != 0,
            forall|k: int| 0 <= k < c ==> #[trigger] tmap_channel_ok(*metadata, k),
        decreases 3 - c,
    {
        if metadata.gain_map_min[c].d == 0 || metadata.gain_map_max[c].d == 0
            || metadata.gain_map_gamma[c].d == 0 || metadata.base_offset[c].d == 0
            || metadata.alternate_offset[c].d == 0 {
            assert(!tmap_channel_ok(*metadata, c as int));
            return Err(tmap_channel_error(c, "contains a zero denominator"));
        }
        if metadata.gain_map_gamma[c].n == 0 {
            assert(!tmap_channel_ok(*metadata, c as int));
            return Err(tmap_channel_error(c, "gamma numerator must be non-zero"));
        }
        let a = metadata.gain_map_max[c].n as i64;
        let b = metadata.gain_map_min[c].d as i64;
        let e = metadata.gain_map_min[c].n as i64;
        let f = metadata.gain_map_max[c].d as i64;
        assert(-0x8000_0000_0000_0000 <= a * b <= 0x7fff_ffff_ffff_ffff && -0x8000_0000_0000_0000 <= e * f <= 0x7fff_ffff_ffff_ffff) by (nonlinear_arith)
            requires
                -0x8000_0000 <= a < 0x8000_0000,
                -0x8000_0000 <= e < 0x8000_0000,
                0 <= b < 0x1_0000_0000,
                0 <= f < 0x1_0000_0000,
        ;
        let left = a * b;
        let right = e * f;
        if left < right {
            assert(!tmap_channel_ok(*metadata, c as int));
            return Err(tmap_channel_error(c, "has gain_map_max < gain_map_min"));
        }
        assert(tmap_channel_ok(*metadata, c as int));
        c += 1;
    }
    Ok(())
}

/// The three channels of a tone map carry the same parameters.
pub open spec fn identical_channels(m: ToneMapMetadata) -> bool {
    &&& m.gain_map_min[0] == m.gain_map_min[1] && m.gain_map_min[0] == m.gain_map_min[2]
    &&& m.gain_map_max[0] == m.gain_map_max[1] && m.gain_map_max[0] == m.gain_map_max[2]
    &&& m.gain_map_gamma[0] == m.gain_map_gamma[1] && m.gain_map_gamma[0] == m.gain_map_gamma[2]
    &&& m.base_offset[0] == m.base_offset[1] && m.base_offset[0] == m.base_offset[2]
    &&& m.alternate_offset[0] == m.alternate_offset[1] && m.alternate_offset[0]
        == m.alternate_offset[2]
}

/// Whether the three channels carry the same parameters.
fn has_identical_channels(metadata: &ToneMapMetadata) -> (r: bool)
    ensures
        r == identical_channels(*metadata),
{
    metadata.gain_map_min[0] == metadata.gain_map_min[1] && metadata.gain_map_min[0]
        == metadata.gain_map_min[2] && metadata.gain_map_max[0] == metadata.gain_map_max[1]
        && metadata.gain_map_max[0] == metadata.gain_map_max[2] && metadata.gain_map_gamma[0]
        == metadata.gain_map_gamma[1] && metadata.gain_map_gamma[0] == metadata.gain_map_gamma[2]
        && metadata.base_offset[0] == metadata.base_offset[1] && metadata.base_offset[0]
        == metadata.base_offset[2] && metadata.alternate_offset[0] == metadata.alternate_offset[1]
        && metadata.alternate_offset[0] == metadata.alternate_offset[2]
}

/// The big-endian two's complement bytes of a signed value.
pub open spec fn be32_signed(v: i32) -> Seq<u8> {
    be32(v as u32)
}

/// The parameters of channel `c`, twenty bytes of fractions each.
pub open spec fn tmap_channel_bytes(m: ToneMapMetadata, c: int) -> Seq<u8> {
    be32_signed(m.gain_map_min[c].n) + be32(m.gain_map_min[c].d) + be32_signed(m.gain_map_max[c].n)
        + be32(m.gain_map_max[c].d) + be32(m.gain_map_gamma[c].n) + be32(m.gain_map_gamma[c].d)
        + be32_signed(m.base_offset[c].n) + be32(m.base_offset[c].d) + be32_signed(
        m.alternate_offset[c].n,
    ) + be32(m.alternate_offset[c].d)
}

/// The channels written: one where all three agree, else three.
pub open spec fn tmap_channels(m: ToneMapMetadata, count: int) -> Seq<u8>
    decreases count,
{
    if count <= 0 {
        seq![]
    } else {
        tmap_channels(m, count - 1) + tmap_channel_bytes(m, count - 1)
    }
}

/// The tone-map item payload: version 0, minimum and writer versions 0,
/// flags (multichannel in the top bit, base colour space in the next), the
/// two headrooms, and the channel parameters.
pub open spec fn tmap_payload_spec(m: ToneMapMetadata) -> Seq<u8> {
    let multi = !identical_channels(m);
    let flags: u8 = ((if multi {
        0x80u8
    } else {
        0u8
    }) + (if m.use_base_color_space {
        0x40u8
    } else {
        0u8
    })) as u8;
    seq![0u8] + be16(0) + be16(0) + seq![flags] + be32(m.base_hdr_headroom.n) + be32(
        m.base_hdr_headroom.d,
    ) + be32(m.alternate_hdr_headroom.n) + be32(m.alternate_hdr_headroom.d) + tmap_channels(
        m,
        if multi {
            3
        } else {
            1
        },
    )
}

/// Builds the tone-map item payload of a valid tone map.
pub fn build_tmap_payload(metadata: &ToneMapMetadata) -> (r: Result<Vec<u8>, String>)
    ensures
        r is Ok <==> tmap_valid(*metadata),
        r matches Ok(p) ==> p@ == tmap_payload_spec(*metadata),
{
    validate_tmap_metadata(metadata)?;
    let is_multichannel = !has_identical_channels(metadata);
    let channel_count: usize = if is_multichannel {
        3
    } else {
        1
    };
    let mut payload: Vec<u8> = Vec::new();
    payload.push(0);
    push_be16(&mut payload, 0);
    push_be16(&mut payload, 0);
    let flags: u8 = (if is_multichannel {
        0x80u8
    } else {
        0u8
    }) + (if metadata.use_base_color_space {
        0x40u8
    } else {
        0u8
    });
    payload.push(flags);
    push_be32(&mut payload, metadata.base_hdr_headroom.n);
    push_be32(&mut payload, metadata.base_hdr_headroom.d);
    push_be32(&mut payload, metadata.alternate_hdr_headroom.n);
    push_be32(&mut payload, metadata.alternate_hdr_headroom.d);
    let ghost head = payload@;
    let mut c: usize = 0;
    while c < channel_count
        invariant
            c <= channel_count <= 3,
            payload@ == head + tmap_channels(*metadata, c as int),
        decreases channel_count - c,
    {
        let ghost before = payload@;
        push_be32(&mut payload, metadata.gain_map_min[c].n as u32);
        push_be32(&mut payload, metadata.gain_map_min[c].d);
        push_be32(&mut payload, metadata.gain_map_max[c].n as u32);
        push_be32(&mut payload, metadata.gain_map_max[c].d);
        push_be32(&mut payload, metadata.gain_map_gamma[c].n);
        push_be32(&mut payload, metadata.gain_map_gamma[c].d);
        push_be32(&mut payload, metadata.base_offset[c].n as u32);
        push_be32(&mut payload, metadata.base_offset[c].d);
        push_be32(&mut payload, metadata.alternate_offset[c].n as u32);
        push_be32(&mut payload, metadata.alternate_offset[c].d);
        assert(payload@ =~= before + tmap_channel_bytes(*metadata, c as int));
        c += 1;
    }
    assert(payload@ =~= tmap_payload_spec(*metadata));
    Ok(payload)
}

/// Reads the rest of a LEB128 size from `pos`, with `size` read so far at
/// `shift` bits and `n` bytes taken: the position after it and the size.
/// More than nine bytes, or running out of data, gives nothing.
pub open spec fn leb_read(d: Seq<u8>, pos: int, size: u64, shift: int, n: int) -> Option<(int, u64)>
    decreases 9 - n,
{
    if pos < 0 || pos >= d.len() || shift > 63 || n > 8 || shift < 0 || n < 0 {
        None
    } else {
        let b = d[pos];
        let next = size | (((b & 0x7F) as u64) << (shift as u64));
        if b & 0x80 == 0 {
            Some((pos + 1, next))
        } else {
            leb_read(d, pos + 1, next, shift + 7, n + 1)
        }
    }
}

proof fn lemma_leb_read_advances(d: Seq<u8>, pos: int, size: u64, shift: int, n: int)
    ensures
        leb_read(d, pos, size, shift, n) matches Some((e, _)) ==> pos < e <= d.len(),
    decreases 9 - n,
{
    if !(pos < 0 || pos >= d.len() || shift > 63 || n > 8 || shift < 0 || n < 0) {
        let b = d[pos];
        let next = size | (((b & 0x7F) as u64) << (shift as u64));
        if b & 0x80 != 0 {
            lemma_leb_read_advances(d, pos + 1, next, shift + 7, n + 1);
        }
    }
}

/// The OBU at `start`: its type and its whole length, when its header has a
/// size field and the OBU lies within the data.
pub open spec fn obu_at(d: Seq<u8>, start: int) -> Option<(u8, int)> {
    if start < 0 || start >= d.len() {
        None
    } else {
        let header = d[start];
        let obu_type = (header >> 3) & 0x0F;
        let extension = (header >> 2) & 1 != 0;
        let has_size = (header >> 1) & 1 != 0;
        if extension && start + 1 >= d.len() {
            None
        } else if !has_size {
            None
        } else {
            let pos = if extension {
                start + 2
            } else {
                start + 1
            };
            match leb_read(d, pos, 0, 0, 0) {
                None => None,
                Some((end, size)) => if end + size > d.len() {
                    None
                } else {
                    Some((obu_type, end - start + size))
                },
            }
        }
    }
}

/// Reads the type and whole length of the OBU at `start`.
fn parse_obu_type_and_len(data: &[u8], start: usize) -> (r: Option<(u8, usize)>)
    ensures
        match obu_at(data@, start as int) {
            Some((t, l)) => r == Some((t, l as usize)) && l >= 2 && start + l <= data@.len(),
            None => r is None,
        },
{
    let len = data.len();
    if start >= len {
        return None;
    }
    let header = data[start];
    let obu_type = (header >> 3) & 0x0F;
    let extension_flag = ((header >> 2) & 1) != 0;
    let has_size_field = ((header >> 1) & 1) != 0;
    let mut pos = start + 1;
    if extension_flag {
        if pos >= len {
            return None;
        }
        pos += 1;
    }
    if !has_size_field {
        return None;
    }
    let ghost first = pos as int;
    let mut size: u64 = 0;
    let mut shift: u64 = 0;
    let mut leb_len: u64 = 0;
    loop
        invariant_except_break
            leb_read(data@, first, 0, 0, 0) == leb_read(data@, pos as int, size, shift as int, leb_len as int),
        invariant
            len == data@.len(),
            first <= pos,
            pos <= len,
            shift <= 63 + 7,
            leb_len <= 9,
            obu_at(data@, start as int) == (match leb_read(data@, first, 0, 0, 0) {
                None => None,
                Some((end, sz)) => if end + sz > data@.len() {
                    None
                } else {
                    Some((obu_type, end - start + sz))
                },
            }),
            first == start + 1 || first == start + 2,
        ensures
            leb_read(data@, first, 0, 0, 0) == Some((pos as int, size)),
        decreases 9 - leb_len,
    {
        if pos >= len || shift > 63 || leb_len > 8 {
            return None;
        }
        let byte = data[pos];
        let ghost before = leb_read(data@, pos as int, size, shift as int, leb_len as int);
        pos += 1;
        leb_len += 1;
        size = size | (((byte & 0x7F) as u64) << shift);
        if (byte & 0x80) == 0 {
            assert(before == Some((pos as int, size)));
            break;
        }
        assert(before == leb_read(data@, pos as int, size, shift + 7, leb_len as int));
        shift += 7;
    }
    proof {
        lemma_leb_read_advances(data@, first, 0, 0, 0);
    }
    let total: u64 = (pos - start) as u64;
    if size > (len - pos) as u64 {
        return None;
    }
    Some((obu_type, (total + size) as usize))
}

/// How far the leading sequence header, temporal delimiter and metadata
/// OBUs (types 1, 2 and 5) reach from `pos`.
pub open spec fn lead_offset(d: Seq<u8>, pos: int) -> int
    decreases d.len() - pos,
{
    if pos < 0 || pos >= d.len() {
        pos
    } else {
        match obu_at(d, pos) {
            None => pos,
            Some((t, l)) => if (t == 1 || t == 2 || t == 5) && l > 0 {
                lead_offset(d, pos + l)
            } else {
                pos
            },
        }
    }
}

/// The offset of the first OBU that is not a sequence header, temporal
/// delimiter or metadata.
fn strip_leading_seq_and_metadata_offset(data: &[u8]) -> (r: usize)
    ensures
        r as int == lead_offset(data@, 0),
        r <= data@.len(),
{
    let len = data.len();
    let mut pos: usize = 0;
    while pos < len
        invariant
            len == data@.len(),
            pos <= len,
            lead_offset(data@, pos as int) == lead_offset(data@, 0),
        ensures
            pos <= len,
            lead_offset(data@, pos as int) == pos,
            lead_offset(data@, pos as int) == lead_offset(data@, 0),
        decreases len - pos,
    {
        match parse_obu_type_and_len(data, pos) {
            None => {
                break;
            },
            Some((obu_type, obu_len)) => {
                if obu_type == 1 || obu_type == 2 || obu_type == 5 {
                    pos += obu_len;
                } else {
                    break;
                }
            },
        }
    }
    pos
}

/// The item data: the configuration OBUs, then the packet without temporal
/// delimiters and without its leading sequence header and metadata OBUs.
pub open spec fn item_data_spec(config_obus: Seq<u8>, packet: Seq<u8>) -> Seq<u8> {
    let p = strip_td_spec(packet);
    config_obus + p.skip(lead_offset(p, 0))
}

/// Builds the data of an image item.
pub fn build_item_obu_data(config_obus: &[u8], packet_obu_data: &[u8]) -> (out: Vec<u8>)
    ensures
        out@ == item_data_spec(config_obus@, packet_obu_data@),
{
    let packet_data = strip_temporal_delimiters(packet_obu_data);
    let frame_offset = strip_leading_seq_and_metadata_offset(packet_data.as_slice());
    let frame_data = &packet_data.as_slice()[frame_offset..packet_data.len()];
    assert(frame_data@ =~= packet_data@.skip(frame_offset as int));
    let mut out: Vec<u8> = Vec::new();
    append_bytes(&mut out, config_obus);
    append_bytes(&mut out, frame_data);
    assert(out@ =~= config_obus@ + frame_data@);
    out
}


/// The four-character code `clli`.
pub const CLLI: [u8; 4] = [0x63, 0x6c, 0x6c, 0x69];

/// The four-character code `mdcv`.
pub const MDCV: [u8; 4] = [0x6d, 0x64, 0x63, 0x76];

/// The four-character code `tmap`.
pub const TMAP: [u8; 4] = [0x74, 0x6d, 0x61, 0x70];

/// The four-character code `miaf`.
pub const MIAF: [u8; 4] = [0x6d, 0x69, 0x61, 0x66];

/// The four-character code `MA1A`.
pub const MA1A: [u8; 4] = [0x4d, 0x41, 0x31, 0x41];

/// The four-character code `iref`.
pub const IREF: [u8; 4] = [0x69, 0x72, 0x65, 0x66];

/// The four-character code `dimg`.
pub const DIMG: [u8; 4] = [0x64, 0x69, 0x6d, 0x67];

/// The four-character code `grpl`.
pub const GRPL: [u8; 4] = [0x67, 0x72, 0x70, 0x6c];

/// The four-character code `altr`.
pub const ALTR: [u8; 4] = [0x61, 0x6c, 0x74, 0x72];

/// The item name `Color`.
pub const COLOR_NAME: [u8; 5] = [0x43, 0x6f, 0x6c, 0x6f, 0x72];

/// The item name `TMap`.
pub const TMAP_NAME: [u8; 4] = [0x54, 0x4d, 0x61, 0x70];

/// The item name `GMap`.
pub const GMAP_NAME: [u8; 4] = [0x47, 0x4d, 0x61, 0x70];

/// What the properties of an image item need to know.
pub struct AvifConfig {
    pub width: u32,
    pub height: u32,
    pub config_obus: Vec<u8>,
    pub video_signal: VideoSignal,
    pub content_light: Option<ContentLightLevel>,
    pub mastering_display: Option<MasteringDisplayMetadata>,
}

/// Where an item's data lies in the file.
#[derive(Clone, Copy)]
pub struct IlocEntry {
    pub item_id: u16,
    pub offset: u32,
    pub length: u32,
}

/// The file type box of a file with a gain map: brand `avif`, compatible
/// with `avif`, `mif1`, `miaf`, `MA1A` and `tmap`.
pub open spec fn ftyp_tmap_spec() -> Seq<u8> {
    box_spec(FTYP@, AVIF@ + be32(0) + AVIF@ + MIF1@ + MIAF@ + MA1A@ + TMAP@)
}

/// Builds the file type box of a file with a gain map.
pub fn build_ftyp_tmap() -> (out: Vec<u8>)
    ensures
        out@ == ftyp_tmap_spec(),
        out@.len() == 36,
{
    let mut p: Vec<u8> = Vec::new();
    append_bytes(&mut p, &AVIF);
    push_be32(&mut p, 0);
    append_bytes(&mut p, &AVIF);
    append_bytes(&mut p, &MIF1);
    append_bytes(&mut p, &MIAF);
    append_bytes(&mut p, &MA1A);
    append_bytes(&mut p, &TMAP);
    assert(p@ =~= AVIF@ + be32(0) + AVIF@ + MIF1@ + MIAF@ + MA1A@ + TMAP@);
    box_wrap(&FTYP, p.as_slice())
}

/// The fourteen bytes of each item location: id, data reference 0, one
/// extent, offset and length.
pub open spec fn iloc_items(e: Seq<IlocEntry>) -> Seq<u8>
    decreases e.len(),
{
    if e.len() == 0 {
        seq![]
    } else {
        iloc_items(e.drop_last()) + be16(e.last().item_id) + be16(0) + be16(1) + be32(
            e.last().offset,
        ) + be32(e.last().length)
    }
}

/// The item location box: 4-byte offsets and lengths, no base offsets.
pub open spec fn iloc_entries_spec(e: Seq<IlocEntry>) -> Seq<u8> {
    full_box_spec(ILOC@, 0, 0, seq![0x44u8, 0x00] + be16(e.len() as u16) + iloc_items(e))
}

/// Builds the item location box.
pub fn build_iloc(entries: &[IlocEntry]) -> (out: Vec<u8>)
    ensures
        out@ == iloc_entries_spec(entries@),
        out@.len() == 16 + 14 * entries@.len(),
{
    let mut p: Vec<u8> = Vec::new();
    p.push(0x44);
    p.push(0x00);
    push_be16(&mut p, entries.len() as u16);
    let ghost head = p@;
    let mut i: usize = 0;
    while i < entries.len()
        invariant
            i <= entries@.len(),
            head.len() == 4,
            p@ == head + iloc_items(entries@.take(i as int)),
            iloc_items(entries@.take(i as int)).len() == 14 * i,
        decreases entries.len() - i,
    {
        let e = entries[i];
        push_be16(&mut p, e.item_id);
        push_be16(&mut p, 0);
        push_be16(&mut p, 1);
        push_be32(&mut p, e.offset);
        push_be32(&mut p, e.length);
        assert(entries@.take(i + 1).drop_last() =~= entries@.take(i as int));
        i += 1;
    }
    assert(entries@.take(entries@.len() as int) =~= entries@);
    assert(p@ =~= seq![0x44u8, 0x00] + be16(entries@.len() as u16) + iloc_items(entries@));
    full_box(&ILOC, 0, 0, p.as_slice())
}

/// An item information entry (version 2): id, protection 0, type, and a
/// zero-terminated name; flag 1 hides the item.
pub open spec fn infe_spec(item_id: u16, item_type: Seq<u8>, hidden: bool, name: Seq<u8>) -> Seq<u8> {
    full_box_spec(
        INFE@,
        2,
        if hidden {
            1
        } else {
            0
        },
        be16(item_id) + be16(0) + item_type + name + seq![0u8],
    )
}

/// Builds an item information entry.
pub fn build_infe(item_id: u16, item_type: &[u8; 4], hidden: bool, name: &[u8]) -> (out: Vec<u8>)
    ensures
        out@ == infe_spec(item_id, item_type@, hidden, name@),
{
    let mut payload: Vec<u8> = Vec::new();
    push_be16(&mut payload, item_id);
    push_be16(&mut payload, 0);
    append_bytes(&mut payload, item_type);
    append_bytes(&mut payload, name);
    payload.push(0);
    assert(payload@ =~= be16(item_id) + be16(0) + item_type@ + name@ + seq![0u8]);
    full_box(
        &INFE,
        2,
        if hidden {
            1
        } else {
            0
        },
        payload.as_slice(),
    )
}

/// The item information of a single picture: item 1, `av01`, `Color`.
pub open spec fn iinf_single_spec() -> Seq<u8> {
    full_box_spec(IINF@, 0, 0, be16(1) + infe_spec(1, AV01@, false, COLOR_NAME@))
}

/// Builds the item information of a single picture.
pub fn build_iinf_single() -> (out: Vec<u8>)
    ensures
        out@ == iinf_single_spec(),
{
    let infe = build_infe(1, &AV01, false, &COLOR_NAME);
    let mut p: Vec<u8> = Vec::new();
    push_be16(&mut p, 1);
    append_bytes(&mut p, infe.as_slice());
    full_box(&IINF, 0, 0, p.as_slice())
}

/// The item information of a picture with a gain map: the base picture
/// (item 1), the tone map (item 2) and the hidden gain map (item 3).
pub open spec fn iinf_tmap_spec() -> Seq<u8> {
    full_box_spec(
        IINF@,
        0,
        0,
        be16(3) + infe_spec(1, AV01@, false, COLOR_NAME@) + infe_spec(2, TMAP@, false, TMAP_NAME@)
            + infe_spec(3, AV01@, true, GMAP_NAME@),
    )
}

/// Builds the item information of a picture with a gain map.
pub fn build_iinf_tmap() -> (out: Vec<u8>)
    ensures
        out@ == iinf_tmap_spec(),
{
    let a = build_infe(1, &AV01, false, &COLOR_NAME);
    let b = build_infe(2, &TMAP, false, &TMAP_NAME);
    let c = build_infe(3, &AV01, true, &GMAP_NAME);
    let mut p: Vec<u8> = Vec::new();
    push_be16(&mut p, 3);
    append_bytes(&mut p, a.as_slice());
    append_bytes(&mut p, b.as_slice());
    append_bytes(&mut p, c.as_slice());
    assert(p@ =~= be16(3) + a@ + b@ + c@);
    full_box(&IINF, 0, 0, p.as_slice())
}

/// The item reference box: the tone map (item 2) is derived from the base
/// (item 1) and the gain map (item 3).
pub open spec fn iref_tmap_spec() -> Seq<u8> {
    full_box_spec(IREF@, 0, 0, box_spec(DIMG@, be16(2) + be16(2) + be16(1) + be16(3)))
}

/// Builds the item reference box.
pub fn build_iref_tmap() -> (out: Vec<u8>)
    ensures
        out@ == iref_tmap_spec(),
{
    let mut d: Vec<u8> = Vec::new();
    push_be16(&mut d, 2);
    push_be16(&mut d, 2);
    push_be16(&mut d, 1);
    push_be16(&mut d, 3);
    assert(d@ =~= be16(2) + be16(2) + be16(1) + be16(3));
    let dimg = box_wrap(&DIMG, d.as_slice());
    full_box(&IREF, 0, 0, dimg.as_slice())
}

/// The groups list: one alternative group (id 1) of the tone map and the base.
pub open spec fn grpl_spec() -> Seq<u8> {
    box_spec(GRPL@, full_box_spec(ALTR@, 0, 0, be32(1) + be32(2) + be32(2) + be32(1)))
}

/// Builds the groups list.
pub fn build_grpl_altr_tmap() -> (out: Vec<u8>)
    ensures
        out@ == grpl_spec(),
{
    let mut a: Vec<u8> = Vec::new();
    push_be32(&mut a, 1);
    push_be32(&mut a, 2);
    push_be32(&mut a, 2);
    push_be32(&mut a, 1);
    assert(a@ =~= be32(1) + be32(2) + be32(2) + be32(1));
    let altr = full_box(&ALTR, 0, 0, a.as_slice());
    box_wrap(&GRPL, altr.as_slice())
}

/// The content light level property.
pub open spec fn clli_spec(cll: ContentLightLevel) -> Seq<u8> {
    box_spec(CLLI@, be16(cll.max_content_light_level) + be16(cll.max_frame_average_light_level))
}

/// Builds the content light level property.
pub fn build_clli(cll: &ContentLightLevel) -> (out: Vec<u8>)
    ensures
        out@ == clli_spec(*cll),
{
    let mut p: Vec<u8> = Vec::new();
    push_be16(&mut p, cll.max_content_light_level);
    push_be16(&mut p, cll.max_frame_average_light_level);
    assert(p@ =~= be16(cll.max_content_light_level) + be16(cll.max_frame_average_light_level));
    box_wrap(&CLLI, p.as_slice())
}

/// The mastering display colour volume property: the three primaries and
/// the white point as x, y pairs, then the maximum and minimum luminance.
pub open spec fn mdcv_spec(m: MasteringDisplayMetadata) -> Seq<u8> {
    box_spec(
        MDCV@,
        be16(m.primaries[0][0]) + be16(m.primaries[0][1]) + be16(m.primaries[1][0]) + be16(
            m.primaries[1][1],
        ) + be16(m.primaries[2][0]) + be16(m.primaries[2][1]) + be16(m.white_point[0]) + be16(
            m.white_point[1],
        ) + be32(m.max_luminance) + be32(m.min_luminance),
    )
}

/// Builds the mastering display colour volume property.
pub fn build_mdcv(mdcv: &MasteringDisplayMetadata) -> (out: Vec<u8>)
    ensures
        out@ == mdcv_spec(*mdcv),
{
    let mut p: Vec<u8> = Vec::new();
    let mut i: usize = 0;
    while i < 3
        invariant
            i <= 3,
            p@ == mdcv_primaries(*mdcv, i as int),
        decreases 3 - i,
    {
        push_be16(&mut p, mdcv.primaries[i][0]);
        push_be16(&mut p, mdcv.primaries[i][1]);
        i += 1;
    }
    push_be16(&mut p, mdcv.white_point[0]);
    push_be16(&mut p, mdcv.white_point[1]);
    push_be32(&mut p, mdcv.max_luminance);
    push_be32(&mut p, mdcv.min_luminance);
    proof {
        reveal_with_fuel(mdcv_primaries, 4);
    }
    assert(p@ =~= be16(mdcv.primaries[0][0]) + be16(mdcv.primaries[0][1]) + be16(
        mdcv.primaries[1][0],
    ) + be16(mdcv.primaries[1][1]) + be16(mdcv.primaries[2][0]) + be16(mdcv.primaries[2][1])
        + be16(mdcv.white_point[0]) + be16(mdcv.white_point[1]) + be32(mdcv.max_luminance) + be32(
        mdcv.min_luminance,
    ));
    box_wrap(&MDCV, p.as_slice())
}

/// The bytes of the first `n` primaries.
pub open spec fn mdcv_primaries(m: MasteringDisplayMetadata, n: int) -> Seq<u8>
    decreases n,
{
    if n <= 0 {
        seq![]
    } else {
        mdcv_primaries(m, n - 1) + be16(m.primaries[n - 1][0]) + be16(m.primaries[n - 1][1])
    }
}

/// Appends a property to the property container and gives its index, the
/// next index moving up by one.
pub fn append_property(ipco_payload: &mut Vec<u8>, next_property_index: &mut u8, property: Vec<u8>) -> (r: u8)
    requires
        *old(next_property_index) < 255,
    ensures
        r == *old(next_property_index),
        *final(next_property_index) == *old(next_property_index) + 1,
        final(ipco_payload)@ == old(ipco_payload)@ + property@,
{
    let property_index = *next_property_index;
    append_bytes(ipco_payload, property.as_slice());
    *next_property_index = property_index + 1;
    property_index
}

/// The association bytes of one item: id, count, and each property index
/// with the essential bit set.
pub open spec fn ipma_entry_spec(id: u16, assoc: Seq<u8>) -> Seq<u8> {
    be16(id) + seq![assoc.len() as u8] + assoc.map_values(|p: u8| (p + 0x80) as u8)
}

/// The associations of a list of items.
pub open spec fn ipma_items(e: Seq<(u16, Seq<u8>)>) -> Seq<u8>
    decreases e.len(),
{
    if e.len() == 0 {
        seq![]
    } else {
        ipma_items(e.drop_last()) + ipma_entry_spec(e.last().0, e.last().1)
    }
}

/// The item property association box.
pub open spec fn ipma_entries_spec(e: Seq<(u16, Seq<u8>)>) -> Seq<u8> {
    full_box_spec(IPMA@, 0, 0, be32(e.len() as u32) + ipma_items(e))
}

/// The entries with their association lists as sequences.
pub open spec fn entries_view(e: Seq<(u16, Vec<u8>)>) -> Seq<(u16, Seq<u8>)> {
    e.map_values(|x: (u16, Vec<u8>)| (x.0, x.1@))
}

/// Builds the item property association box; property indices are below 128.
pub fn build_ipma(entries: &[(u16, Vec<u8>)]) -> (out: Vec<u8>)
    requires
        entries@.len() <= u32::MAX,
        forall|i: int, j: int|
            0 <= i < entries@.len() && 0 <= j < entries@[i].1@.len() ==> entries@[i].1@[j] < 0x80,
    ensures
        out@ == ipma_entries_spec(entries_view(entries@)),
{
    let mut p: Vec<u8> = Vec::new();
    push_be32(&mut p, entries.len() as u32);
    let ghost head = p@;
    let mut i: usize = 0;
    while i < entries.len()
        invariant
            i <= entries@.len(),
            forall|a: int, b: int|
                0 <= a < entries@.len() && 0 <= b < entries@[a].1@.len() ==> entries@[a].1@[b] < 0x80,
            p@ == head + ipma_items(entries_view(entries@).take(i as int)),
        decreases entries.len() - i,
    {
        let (item_id, ref associations) = entries[i];
        let ghost before = p@;
        push_be16(&mut p, item_id);
        p.push(associations.len() as u8);
        let ghost mid = p@;
        let mut j: usize = 0;
        while j < associations.len()
            invariant
                j <= associations@.len(),
                forall|b: int| 0 <= b < associations@.len() ==> associations@[b] < 0x80,
                p@ == mid + associations@.take(j as int).map_values(|q: u8| (q + 0x80) as u8),
            decreases associations.len() - j,
        {
            let q = associations[j];
            assert((0x80u8 | q) == (q + 0x80) as u8) by (bit_vector)
                requires
                    q < 0x80u8,
            ;
            p.push(0x80 | q);
            assert(associations@.take(j + 1).map_values(|q: u8| (q + 0x80) as u8) =~= associations@.take(
                j as int,
            ).map_values(|q: u8| (q + 0x80) as u8).push((q + 0x80) as u8));
            j += 1;
        }
        assert(associations@.take(associations@.len() as int) =~= associations@);
        let ghost ev = entries_view(entries@);
        assert(ev.take(i + 1).drop_last() =~= ev.take(i as int));
        assert(ev[i as int] == (item_id, associations@));
        assert(p@ =~= before + ipma_entry_spec(item_id, associations@));
        i += 1;
    }
    assert(entries_view(entries@).take(entries@.len() as int) =~= entries_view(entries@));
    full_box(&IPMA, 0, 0, p.as_slice())
}


/// The content light and mastering display properties a picture has.
pub open spec fn hdr_props(c: AvifConfig) -> Seq<u8> {
    (match c.content_light {
        Some(l) => clli_spec(l),
        None => seq![],
    }) + (match c.mastering_display {
        Some(m) => mdcv_spec(m),
        None => seq![],
    })
}

/// How many of those properties it has.
pub open spec fn hdr_count(c: AvifConfig) -> int {
    (if c.content_light is Some {
        1int
    } else {
        0int
    }) + (if c.mastering_display is Some {
        1int
    } else {
        0int
    })
}

/// `n` consecutive property indices from `first`.
pub open spec fn index_run(first: int, n: int) -> Seq<u8> {
    Seq::new(n as nat, |i: int| (first + i) as u8)
}

/// The properties of a base picture: codec configuration, extents, colour,
/// pixel information, and its HDR properties.
pub open spec fn base_props(c: AvifConfig) -> Seq<u8> {
    core_props(c) + hdr_props(c)
}

/// The item properties of a single picture, all associated with item 1.
#[verifier::opaque]
pub open spec fn iprp_single_spec(c: AvifConfig) -> Seq<u8> {
    box_spec(
        IPRP@,
        box_spec(IPCO@, base_props(c)) + ipma_entries_spec(
            seq![(1u16, index_run(1, 4 + hdr_count(c)))],
        ),
    )
}

/// The four properties every picture has.
pub open spec fn core_props(c: AvifConfig) -> Seq<u8> {
    av1c_spec(c.video_signal.bit_depth, c.config_obus@) + ispe_spec(c.width, c.height) + colr_spec(
        c.video_signal,
    ) + pixi_spec(c.video_signal.bit_depth)
}

/// Appends the four properties every picture has.
fn append_core_properties(ipco: &mut Vec<u8>, next: &mut u8, config: &AvifConfig, assoc: &mut Vec<u8>)
    requires
        *old(next) < 200,
    ensures
        final(ipco)@ == old(ipco)@ + core_props(*config),
        final(assoc)@ == old(assoc)@ + index_run(*old(next) as int, 4),
        *final(next) == *old(next) + 4,
{
    let ghost first = *next;
    let ghost start = ipco@;
    let ghost a0 = assoc@;
    let a = append_property(ipco, next, build_av1c(config.video_signal.bit_depth, config.config_obus.as_slice()));
    assoc.push(a);
    let a = append_property(ipco, next, build_ispe(config.width, config.height));
    assoc.push(a);
    let a = append_property(ipco, next, build_colr(&config.video_signal));
    assoc.push(a);
    let a = append_property(ipco, next, build_pixi(config.video_signal.bit_depth));
    assoc.push(a);
    assert(assoc@ =~= a0 + index_run(first as int, 4));
    assert(ipco@ =~= start + core_props(*config));
}

/// Appends the content light and mastering display properties a picture has.
fn append_hdr_properties(ipco: &mut Vec<u8>, next: &mut u8, config: &AvifConfig, assoc: &mut Vec<u8>)
    requires
        *old(next) < 200,
    ensures
        final(ipco)@ == old(ipco)@ + hdr_props(*config),
        final(assoc)@ == old(assoc)@ + index_run(*old(next) as int, hdr_count(*config)),
        *final(next) == *old(next) + hdr_count(*config),
{
    let ghost first = *next;
    let ghost start = ipco@;
    let ghost a0 = assoc@;
    match config.content_light {
        Some(cll) => {
            let a = append_property(ipco, next, build_clli(&cll));
            assoc.push(a);
        },
        None => {},
    }
    match config.mastering_display {
        Some(m) => {
            let a = append_property(ipco, next, build_mdcv(&m));
            assoc.push(a);
        },
        None => {},
    }
    assert(assoc@ =~= a0 + index_run(first as int, hdr_count(*config)));
    assert(ipco@ =~= start + hdr_props(*config));
}

/// Appends the base picture's properties and gives their indices.
fn append_base_properties(ipco: &mut Vec<u8>, next: &mut u8, config: &AvifConfig) -> (r: Vec<u8>)
    requires
        *old(next) == 1,
    ensures
        final(ipco)@ == old(ipco)@ + base_props(*config),
        r@ == index_run(1, 4 + hdr_count(*config)),
        *final(next) == 5 + hdr_count(*config),
{
    let ghost start = ipco@;
    let mut assoc: Vec<u8> = Vec::new();
    append_core_properties(ipco, next, config, &mut assoc);
    append_hdr_properties(ipco, next, config, &mut assoc);
    assert(assoc@ =~= index_run(1, 4 + hdr_count(*config)));
    assert(ipco@ =~= start + base_props(*config));
    assoc
}

/// Builds the item properties of a single picture.
pub fn build_iprp_single(config: &AvifConfig) -> (out: Vec<u8>)
    ensures
        out@ == iprp_single_spec(*config),
{
    let mut ipco_payload: Vec<u8> = Vec::new();
    let mut next_property_index: u8 = 1;
    let base_associations = append_base_properties(&mut ipco_payload, &mut next_property_index, config);
    assert(ipco_payload@ =~= base_props(*config));
    let ipco = box_wrap(&IPCO, ipco_payload.as_slice());
    let entries = vec![(1u16, base_associations)];
    assert(entries_view(entries@) =~= seq![(1u16, index_run(1, 4 + hdr_count(*config)))]);
    let ipma = build_ipma(entries.as_slice());
    let mut p: Vec<u8> = Vec::new();
    append_bytes(&mut p, ipco.as_slice());
    append_bytes(&mut p, ipma.as_slice());
    proof {
        reveal(iprp_single_spec);
    }
    box_wrap(&IPRP, p.as_slice())
}

/// The item properties of a picture with a gain map: the base picture's
/// properties (item 1), extents, colour and pixel information of the base
/// for the tone map (item 2), and the gain map's own (item 3).
#[verifier::opaque]
pub open spec fn iprp_tmap_spec(base: AvifConfig, gain: AvifConfig) -> Seq<u8> {
    let h = hdr_count(base);
    box_spec(
        IPRP@,
        box_spec(IPCO@, base_props(base) + tmap_props(base) + gain_props(gain)) + ipma_entries_spec(
            seq![
                (1u16, index_run(1, 4 + h)),
                (2u16, index_run(5 + h, 3)),
                (3u16, index_run(8 + h, 4)),
            ],
        ),
    )
}

/// The tone map's properties: the base picture's extents, colour and pixel
/// information.
pub open spec fn tmap_props(base: AvifConfig) -> Seq<u8> {
    ispe_spec(base.width, base.height) + colr_spec(base.video_signal) + pixi_spec(
        base.video_signal.bit_depth,
    )
}

/// The gain map's properties: codec configuration, extents, colour and
/// pixel information.
pub open spec fn gain_props(gain: AvifConfig) -> Seq<u8> {
    av1c_spec(gain.video_signal.bit_depth, gain.config_obus@) + ispe_spec(gain.width, gain.height)
        + colr_spec(gain.video_signal) + pixi_spec(gain.video_signal.bit_depth)
}

/// Appends the tone map's properties after the base picture's, which end
/// at index `first - 1`.
fn append_tmap_properties(ipco: &mut Vec<u8>, next: &mut u8, base: &AvifConfig) -> (r: Vec<u8>)
    requires
        *old(next) < 200,
    ensures
        final(ipco)@ == old(ipco)@ + tmap_props(*base),
        r@ == index_run(*old(next) as int, 3),
        *final(next) == *old(next) + 3,
{
    let ghost first = *next;
    let ghost start = ipco@;
    let mut assoc: Vec<u8> = Vec::new();
    let a = append_property(ipco, next, build_ispe(base.width, base.height));
    assoc.push(a);
    let a = append_property(ipco, next, build_colr(&base.video_signal));
    assoc.push(a);
    let a = append_property(ipco, next, build_pixi(base.video_signal.bit_depth));
    assoc.push(a);
    assert(assoc@ =~= index_run(first as int, 3));
    assert(ipco@ =~= start + tmap_props(*base));
    assoc
}

/// Appends the gain map's properties.
fn append_gain_properties(ipco: &mut Vec<u8>, next: &mut u8, gain: &AvifConfig) -> (r: Vec<u8>)
    requires
        *old(next) < 200,
    ensures
        final(ipco)@ == old(ipco)@ + gain_props(*gain),
        r@ == index_run(*old(next) as int, 4),
        *final(next) == *old(next) + 4,
{
    let ghost first = *next;
    let ghost start = ipco@;
    let mut assoc: Vec<u8> = Vec::new();
    let a = append_property(ipco, next, build_av1c(gain.video_signal.bit_depth, gain.config_obus.as_slice()));
    assoc.push(a);
    let a = append_property(ipco, next, build_ispe(gain.width, gain.height));
    assoc.push(a);
    let a = append_property(ipco, next, build_colr(&gain.video_signal));
    assoc.push(a);
    let a = append_property(ipco, next, build_pixi(gain.video_signal.bit_depth));
    assoc.push(a);
    assert(assoc@ =~= index_run(first as int, 4));
    assert(ipco@ =~= start + gain_props(*gain));
    assoc
}

/// Builds the item properties of a picture with a gain map.
pub fn build_iprp_tmap(base: &AvifConfig, gain: &AvifConfig) -> (out: Vec<u8>)
    ensures
        out@ == iprp_tmap_spec(*base, *gain),
{
    let ghost h = hdr_count(*base);
    let mut ipco_payload: Vec<u8> = Vec::new();
    let mut next_property_index: u8 = 1;
    let base_associations = append_base_properties(&mut ipco_payload, &mut next_property_index, base);
    let tmap_associations = append_tmap_properties(&mut ipco_payload, &mut next_property_index, base);
    let gain_associations = append_gain_properties(&mut ipco_payload, &mut next_property_index, gain);
    assert(ipco_payload@ =~= base_props(*base) + tmap_props(*base) + gain_props(*gain));
    let ipco = box_wrap(&IPCO, ipco_payload.as_slice());
    let entries = vec![(1u16, base_associations), (2u16, tmap_associations), (3u16, gain_associations)];
    let ghost ev = seq![
        (1u16, index_run(1, 4 + h)),
        (2u16, index_run(5 + h, 3)),
        (3u16, index_run(8 + h, 4)),
    ];
    assert(entries_view(entries@) =~= ev);
    assert forall|i: int, j: int|
        0 <= i < entries@.len() && 0 <= j < entries@[i].1@.len() implies entries@[i].1@[j] < 0x80 by {
        assert(entries@[i].1@ == ev[i].1);
    }
    let ipma = build_ipma(entries.as_slice());
    let mut p: Vec<u8> = Vec::new();
    append_bytes(&mut p, ipco.as_slice());
    append_bytes(&mut p, ipma.as_slice());
    proof {
        reveal(iprp_tmap_spec);
    }
    box_wrap(&IPRP, p.as_slice())
}

proof fn lemma_box_len(t: Seq<u8>, p: Seq<u8>)
    ensures
        box_spec(t, p).len() == 4 + t.len() + p.len(),
        full_box_spec(t, 0, 0, p).len() == 8 + t.len() + p.len(),
{
}

proof fn lemma_core_props_len(c: AvifConfig)
    ensures
        core_props(c).len() <= c.config_obus@.len() + 80,
        hdr_props(c).len() <= 60,
{
}

proof fn lemma_iprp_single_len(c: AvifConfig)
    ensures
        iprp_single_spec(c).len() <= c.config_obus@.len() + 1000,
{
    reveal(iprp_single_spec);
    lemma_core_props_len(c);
    let e = seq![(1u16, index_run(1, 4 + hdr_count(c)))];
    assert(ipma_items(e) == ipma_items(e.drop_last()) + ipma_entry_spec(1u16, index_run(1, 4 + hdr_count(c))));
    assert(e.drop_last().len() == 0);
}

proof fn lemma_iprp_tmap_len(b: AvifConfig, g: AvifConfig)
    ensures
        iprp_tmap_spec(b, g).len() <= b.config_obus@.len() + g.config_obus@.len() + 2000,
{
    reveal(iprp_tmap_spec);
    lemma_core_props_len(b);
    lemma_core_props_len(g);
    let h = hdr_count(b);
    let e = seq![
        (1u16, index_run(1, 4 + h)),
        (2u16, index_run(5 + h, 3)),
        (3u16, index_run(8 + h, 4)),
    ];
    reveal_with_fuel(ipma_items, 4);
    assert(e.drop_last().drop_last().drop_last().len() == 0);
}

/// The meta children of a single picture that come before the item location.
pub open spec fn single_children(c: AvifConfig) -> Seq<u8> {
    avif_hdlr_spec() + pitm_spec() + iinf_single_spec() + iprp_single_spec(c)
}

/// A meta box: version and flags 0, the children, the item location.
pub open spec fn meta_spec(children: Seq<u8>, iloc: Seq<u8>) -> Seq<u8> {
    box_spec(META@, seq![0u8] + be32(0).subrange(1, 4) + children + iloc)
}

/// A still AVIF file of one picture: file type, meta box, and the item data.
pub open spec fn avif_single_spec(c: AvifConfig, obu_data: Seq<u8>) -> Seq<u8> {
    let data = item_data_spec(c.config_obus@, obu_data);
    let children = single_children(c);
    let data_offset = 24 + (8 + 4 + children.len() + 30) + 8;
    avif_ftyp_spec() + meta_spec(
        children,
        iloc_entries_spec(
            seq![IlocEntry { item_id: 1, offset: data_offset as u32, length: data.len() as u32 }],
        ),
    ) + box_spec(MDAT@, data)
}

/// Builds a meta box.
fn build_meta(children: &[u8], iloc: &[u8]) -> (out: Vec<u8>)
    ensures
        out@ == meta_spec(children@, iloc@),
{
    let mut meta_payload: Vec<u8> = Vec::new();
    meta_payload.push(0);
    let mut zero_flags: Vec<u8> = Vec::new();
    push_be32(&mut zero_flags, 0);
    meta_payload.push(zero_flags[1]);
    meta_payload.push(zero_flags[2]);
    meta_payload.push(zero_flags[3]);
    append_bytes(&mut meta_payload, children);
    append_bytes(&mut meta_payload, iloc);
    assert(meta_payload@ =~= seq![0u8] + be32(0).subrange(1, 4) + children@ + iloc@);
    box_wrap(&META, meta_payload.as_slice())
}

/// Appends a still AVIF file of one picture, with its content light and
/// mastering display properties where the configuration has them.
pub fn write_avif(w: &mut Vec<u8>, config: &AvifConfig, obu_data: &[u8]) -> (r: Result<(), std::io::Error>)
    requires
        config.config_obus@.len() <= 0x1000_0000,
    ensures
        r is Ok,
        final(w)@ == old(w)@ + avif_single_spec(*config, obu_data@),
{
    let data = build_item_obu_data(config.config_obus.as_slice(), obu_data);
    let ftyp = build_ftyp();
    let hdlr = build_hdlr();
    let pitm = build_pitm();
    let iinf = build_iinf_single();
    let iprp = build_iprp_single(config);
    let mut children: Vec<u8> = Vec::new();
    append_bytes(&mut children, hdlr.as_slice());
    append_bytes(&mut children, pitm.as_slice());
    append_bytes(&mut children, iinf.as_slice());
    append_bytes(&mut children, iprp.as_slice());
    assert(children@ == single_children(*config));
    proof {
        lemma_iprp_single_len(*config);
    }
    assert(children@.len() <= 0x2000_0000);
    let iloc_size: u32 = 30;
    let meta_content_size = 4 + children.len() as u32 + iloc_size;
    let meta_size = 8 + meta_content_size;
    let data_offset = ftyp.len() as u32 + meta_size + 8;
    let entries = [IlocEntry { item_id: 1, offset: data_offset, length: data.len() as u32 }];
    let iloc = build_iloc(entries.as_slice());
    let meta = build_meta(children.as_slice(), iloc.as_slice());
    let mdat = box_wrap(&MDAT, data.as_slice());
    let ghost start = w@;
    append_bytes(w, ftyp.as_slice());
    append_bytes(w, meta.as_slice());
    append_bytes(w, mdat.as_slice());
    assert(entries@ =~= seq![IlocEntry { item_id: 1, offset: data_offset, length: data@.len() as u32 }]);
    assert(avif_single_spec(*config, obu_data@) == ftyp@ + meta@ + mdat@);
    assert(w@ =~= start + (ftyp@ + meta@ + mdat@));
    Ok(())
}

/// The meta children of a picture with a gain map.
pub open spec fn tmap_children(base: AvifConfig, gain: AvifConfig) -> Seq<u8> {
    avif_hdlr_spec() + pitm_spec() + iinf_tmap_spec() + iref_tmap_spec() + iprp_tmap_spec(base, gain)
        + grpl_spec()
}

/// Where the item data of a picture with a gain map begins.
pub open spec fn tmap_data_offset(base: AvifConfig, gain: AvifConfig) -> int {
    36 + (8 + 4 + tmap_children(base, gain).len() as int + 58) + 8
}

/// The item locations: the base data, then the tone map, then the gain map.
pub open spec fn tmap_iloc_entries(off: int, base_len: int, tmap_len: int, gain_len: int) -> Seq<IlocEntry> {
    let t = off + (base_len as u32);
    let g = t + (tmap_len as u32);
    seq![
        IlocEntry { item_id: 1, offset: off as u32, length: base_len as u32 },
        IlocEntry { item_id: 2, offset: t as u32, length: tmap_len as u32 },
        IlocEntry { item_id: 3, offset: g as u32, length: gain_len as u32 },
    ]
}

/// An AVIF file of a base picture, a tone map and a gain map: file type,
/// meta box, and the three items' data in that order.
pub open spec fn avif_tmap_spec(
    base: AvifConfig,
    base_obu_data: Seq<u8>,
    gain: AvifConfig,
    gain_obu_data: Seq<u8>,
    tmap_payload: Seq<u8>,
) -> Seq<u8> {
    let base_data = item_data_spec(base.config_obus@, base_obu_data);
    let gain_data = item_data_spec(gain.config_obus@, gain_obu_data);
    let off = tmap_data_offset(base, gain);
    ftyp_tmap_spec() + meta_spec(
        tmap_children(base, gain),
        iloc_entries_spec(
            tmap_iloc_entries(off, base_data.len() as int, tmap_payload.len() as int, gain_data.len() as int),
        ),
    ) + box_spec(MDAT@, base_data + tmap_payload + gain_data)
}

/// Appends an AVIF file of a base picture with a gain map that a tone-map
/// item derives from both. The offsets are 32-bit: those of the tone map and
/// the gain map must fit.
#[verifier::rlimit(60)]
pub fn write_avif_with_tmap_gain_map(
    w: &mut Vec<u8>,
    base_config: &AvifConfig,
    base_obu_data: &[u8],
    gain_map_config: &AvifConfig,
    gain_map_obu_data: &[u8],
    tmap_payload: &[u8],
) -> (r: Result<(), std::io::Error>)
    requires
        base_config.config_obus@.len() <= 0x1000_0000,
        gain_map_config.config_obus@.len() <= 0x1000_0000,
        tmap_data_offset(*base_config, *gain_map_config) + (item_data_spec(
            base_config.config_obus@,
            base_obu_data@,
        ).len() as u32) + (tmap_payload@.len() as u32) <= u32::MAX,
    ensures
        r is Ok,
        final(w)@ == old(w)@ + avif_tmap_spec(
            *base_config,
            base_obu_data@,
            *gain_map_config,
            gain_map_obu_data@,
            tmap_payload@,
        ),
{
    let base_data = build_item_obu_data(base_config.config_obus.as_slice(), base_obu_data);
    let gain_map_data = build_item_obu_data(gain_map_config.config_obus.as_slice(), gain_map_obu_data);
    let mut mdat_payload: Vec<u8> = Vec::new();
    append_bytes(&mut mdat_payload, base_data.as_slice());
    append_bytes(&mut mdat_payload, tmap_payload);
    append_bytes(&mut mdat_payload, gain_map_data.as_slice());
    let ftyp = build_ftyp_tmap();
    let hdlr = build_hdlr();
    let pitm = build_pitm();
    let iinf = build_iinf_tmap();
    let iref = build_iref_tmap();
    let iprp = build_iprp_tmap(base_config, gain_map_config);
    let grpl = build_grpl_altr_tmap();
    let mut children: Vec<u8> = Vec::new();
    append_bytes(&mut children, hdlr.as_slice());
    append_bytes(&mut children, pitm.as_slice());
    append_bytes(&mut children, iinf.as_slice());
    append_bytes(&mut children, iref.as_slice());
    append_bytes(&mut children, iprp.as_slice());
    append_bytes(&mut children, grpl.as_slice());
    assert(children@ == tmap_children(*base_config, *gain_map_config));
    proof {
        lemma_iprp_tmap_len(*base_config, *gain_map_config);
    }
    assert(children@.len() <= 0x3000_0000);
    let iloc_size: u32 = 58;
    let meta_content_size = 4 + children.len() as u32 + iloc_size;
    let meta_size = 8 + meta_content_size;
    let data_offset = ftyp.len() as u32 + meta_size + 8;
    let base_offset = data_offset;
    let tmap_offset = base_offset + base_data.len() as u32;
    let gain_offset = tmap_offset + tmap_payload.len() as u32;
    let entries = [
        IlocEntry { item_id: 1, offset: base_offset, length: base_data.len() as u32 },
        IlocEntry { item_id: 2, offset: tmap_offset, length: tmap_payload.len() as u32 },
        IlocEntry { item_id: 3, offset: gain_offset, length: gain_map_data.len() as u32 },
    ];
    let iloc = build_iloc(entries.as_slice());
    let meta = build_meta(children.as_slice(), iloc.as_slice());
    let mdat = box_wrap(&MDAT, mdat_payload.as_slice());
    let ghost start = w@;
    append_bytes(w, ftyp.as_slice());
    append_bytes(w, meta.as_slice());
    append_bytes(w, mdat.as_slice());
    assert(entries@ =~= tmap_iloc_entries(
        data_offset as int,
        base_data@.len() as int,
        tmap_payload@.len() as int,
        gain_map_data@.len() as int,
    ));
    assert(mdat_payload@ =~= base_data@ + tmap_payload@ + gain_map_data@);
    assert(avif_tmap_spec(
        *base_config,
        base_obu_data@,
        *gain_map_config,
        gain_map_obu_data@,
        tmap_payload@,
    ) == ftyp@ + meta@ + mdat@);
    assert(w@ =~= start + (ftyp@ + meta@ + mdat@));
    Ok(())
}

/// Whether the offsets of a file with a gain map fit in 32 bits, as
/// `write_avif_with_tmap_gain_map` needs.
pub fn tmap_layout_fits(
    base_config: &AvifConfig,
    base_obu_data: &[u8],
    gain_map_config: &AvifConfig,
    tmap_payload: &[u8],
) -> (r: bool)
    requires
        base_config.config_obus@.len() <= 0x1000_0000,
        gain_map_config.config_obus@.len() <= 0x1000_0000,
    ensures
        r == (tmap_data_offset(*base_config, *gain_map_config) + (item_data_spec(
            base_config.config_obus@,
            base_obu_data@,
        ).len() as u32) + (tmap_payload@.len() as u32) <= u32::MAX),
{
    let hdlr = build_hdlr();
    let pitm = build_pitm();
    let iinf = build_iinf_tmap();
    let iref = build_iref_tmap();
    let iprp = build_iprp_tmap(base_config, gain_map_config);
    let grpl = build_grpl_altr_tmap();
    proof {
        lemma_iprp_tmap_len(*base_config, *gain_map_config);
    }
    let children_len: u64 = hdlr.len() as u64 + pitm.len() as u64 + iinf.len() as u64 + iref.len() as u64
        + iprp.len() as u64 + grpl.len() as u64;
    assert(children_len == tmap_children(*base_config, *gain_map_config).len());
    let data_offset: u64 = 36 + 8 + 4 + children_len + 58 + 8;
    let base_data = build_item_obu_data(base_config.config_obus.as_slice(), base_obu_data);
    let base_len = base_data.len() as u32;
    let tmap_len = tmap_payload.len() as u32;
    data_offset + base_len as u64 + tmap_len as u64 <= u32::MAX as u64
}

} // verus!
