use vstd::prelude::*;
use crate::video::{BitDepth, ColorDescription, ColorRange};
use crate::y4m::FramePixels;
use crate::text::{str_chars, append_chars, string_from_chars, decimal_chars, decimal_text, hex4_chars, hex4_text};

verus! {

/// The auxiliary image type of Apple's HDR gain map.
pub const APPLE_HDR_GAINMAP_AUX_TYPE: &'static str = "urn:com:apple:photo:2020:aux:hdrgainmap";

/// The maker-note tag of the HDR headroom.
pub const HDR_HEADROOM_TAG: u16 = 0x0021;

/// The maker-note tag of the HDR gain.
pub const HDR_GAIN_TAG: u16 = 0x0030;

/// The TIFF tag that points to the Exif IFD.
pub const EXIF_IFD_POINTER_TAG: u16 = 0x8769;

/// The Exif tag of the maker note.
pub const MAKER_NOTE_TAG: u16 = 0x927c;

/// A fraction as Apple's maker note stores it.
#[derive(Debug, Clone, Copy, PartialEq, Eq, Structural)]
pub struct SignedRational {
    pub numerator: i32,
    pub denominator: i32,
}

/// The two HDR scalars of Apple's maker note.
#[derive(Debug, Clone, Copy, PartialEq, Eq, Structural)]
pub struct AppleHdrScalars {
    pub hdr_headroom: SignedRational,
    pub hdr_gain: SignedRational,
}

/// The colour description and range that a source image declares.
#[derive(Debug, Clone, Copy, PartialEq, Eq, Structural)]
pub struct SourceNclx {
    pub color_description: Option<ColorDescription>,
    pub color_range: ColorRange,
}

/// Byte order of a TIFF structure.
#[derive(Clone, Copy, PartialEq, Eq, Structural)]
pub enum Endian {
    Little,
    Big,
}

/// The 16-bit value at `off`, big-endian.
pub open spec fn be16_at(d: Seq<u8>, off: int) -> int {
    d[off] as int * 256 + d[off + 1] as int
}

/// The 32-bit value at `off`, big-endian.
pub open spec fn be32_at(d: Seq<u8>, off: int) -> int {
    be16_at(d, off) * 65536 + be16_at(d, off + 2)
}

/// The 16-bit value at `off` in the given byte order.
pub open spec fn u16_at(d: Seq<u8>, off: int, e: Endian) -> int {
    if e == Endian::Big {
        be16_at(d, off)
    } else {
        d[off + 1] as int * 256 + d[off] as int
    }
}

/// The 32-bit value at `off` in the given byte order.
pub open spec fn u32_at(d: Seq<u8>, off: int, e: Endian) -> int {
    if e == Endian::Big {
        be32_at(d, off)
    } else {
        u16_at(d, off + 2, e) * 65536 + u16_at(d, off, e)
    }
}

/// Reads a 16-bit value at `offset`, failing where it does not fit.
pub fn read_u16(data: &[u8], offset: usize, endian: Endian) -> (r: Result<u16, String>)
    ensures
        offset + 2 <= data@.len() ==> r == Ok::<u16, String>(u16_at(data@, offset as int, endian) as u16),
        offset + 2 > data@.len() ==> r is Err,
{
    if offset > data.len() || data.len() - offset < 2 {
        return Err(String::from_str("unexpected EOF while reading u16"));
    }
    let a = data[offset] as u16;
    let b = data[offset + 1] as u16;
    match endian {
        Endian::Little => Ok(b * 256 + a),
        Endian::Big => Ok(a * 256 + b),
    }
}

/// Reads a 32-bit value at `offset`, failing where it does not fit.
pub fn read_u32(data: &[u8], offset: usize, endian: Endian) -> (r: Result<u32, String>)
    ensures
        offset + 4 <= data@.len() ==> r == Ok::<u32, String>(u32_at(data@, offset as int, endian) as u32),
        offset + 4 > data@.len() ==> r is Err,
{
    if offset > data.len() || data.len() - offset < 4 {
        return Err(String::from_str("unexpected EOF while reading u32"));
    }
    let a = data[offset] as u32;
    let b = data[offset + 1] as u32;
    let c = data[offset + 2] as u32;
    let d = data[offset + 3] as u32;
    match endian {
        Endian::Little => Ok(((d * 256 + c) * 256 + b) * 256 + a),
        Endian::Big => Ok(((a * 256 + b) * 256 + c) * 256 + d),
    }
}

/// `d` starts with a TIFF header: `II*\0` or `MM\0*`, and is at least eight
/// bytes long.
pub open spec fn tiff_header_at(d: Seq<u8>, off: int) -> bool {
    &&& 0 <= off
    &&& d.len() - off >= 8
    &&& ((d[off] == 0x49 && d[off + 1] == 0x49 && d[off + 2] == 0x2a && d[off + 3] == 0x00) || (
    d[off] == 0x4d && d[off + 1] == 0x4d && d[off + 2] == 0x00 && d[off + 3] == 0x2a))
}

/// Whether a TIFF header starts at `off`.
fn has_tiff_header_at(data: &[u8], off: usize) -> (r: bool)
    ensures
        r == tiff_header_at(data@, off as int),
{
    if off > data.len() || data.len() - off < 8 {
        return false;
    }
    (data[off] == 0x49 && data[off + 1] == 0x49 && data[off + 2] == 0x2a && data[off + 3] == 0x00)
        || (data[off] == 0x4d && data[off + 1] == 0x4d && data[off + 2] == 0x00 && data[off + 3]
        == 0x2a)
}

/// Whether `data` starts with a TIFF header.
pub fn has_tiff_header(data: &[u8]) -> (r: bool)
    ensures
        r == tiff_header_at(data@, 0),
{
    has_tiff_header_at(data, 0)
}

/// Where the TIFF structure of an Exif item starts: at once, after the
/// big-endian offset that the item begins with (counted from the item's
/// start or from after the offset), or after four bytes.
pub open spec fn tiff_start(d: Seq<u8>) -> Option<int> {
    if tiff_header_at(d, 0) {
        Some(0)
    } else if d.len() >= 4 {
        let off = be32_at(d, 0);
        if off < d.len() && tiff_header_at(d, off) {
            Some(off)
        } else if 4 + off < d.len() && tiff_header_at(d, 4 + off) {
            Some(4 + off)
        } else if d.len() >= 8 && tiff_header_at(d, 4) {
            Some(4)
        } else {
            None
        }
    } else {
        None
    }
}

/// Finds the TIFF structure in an Exif item.
pub fn extract_tiff_payload(exif_raw: &[u8]) -> (r: Option<&[u8]>)
    ensures
        match tiff_start(exif_raw@) {
            Some(s) => r matches Some(t) && t@ == exif_raw@.skip(s),
            None => r is None,
        },
{
    let len = exif_raw.len();
    if has_tiff_header(exif_raw) {
        assert(exif_raw@.skip(0) =~= exif_raw@);
        return Some(exif_raw);
    }
    if len >= 4 {
        let offset = ((exif_raw[0] as u64 * 256 + exif_raw[1] as u64) * 256 + exif_raw[2] as u64)
            * 256 + exif_raw[3] as u64;
        assert(offset == be32_at(exif_raw@, 0));
        if offset < len as u64 && has_tiff_header_at(exif_raw, offset as usize) {
            let t = &exif_raw[offset as usize..len];
            assert(t@ =~= exif_raw@.skip(offset as int));
            return Some(t);
        }
        let shifted = 4 + offset;
        if shifted < len as u64 && has_tiff_header_at(exif_raw, shifted as usize) {
            let t = &exif_raw[shifted as usize..len];
            assert(t@ =~= exif_raw@.skip(shifted as int));
            return Some(t);
        }
        if len >= 8 && has_tiff_header_at(exif_raw, 4) {
            let t = &exif_raw[4..len];
            assert(t@ =~= exif_raw@.skip(4));
            return Some(t);
        }
    }
    None
}

/// The size of one value of a TIFF field type.
pub open spec fn tiff_type_size_spec(field_type: u16) -> Option<int> {
    if field_type == 1 || field_type == 2 || field_type == 6 || field_type == 7 {
        Some(1)
    } else if field_type == 3 || field_type == 8 {
        Some(2)
    } else if field_type == 4 || field_type == 9 || field_type == 11 {
        Some(4)
    } else if field_type == 5 || field_type == 10 || field_type == 12 {
        Some(8)
    } else {
        None
    }
}

/// The size of one value of a TIFF field type.
pub fn tiff_type_size(field_type: u16) -> (r: Option<usize>)
    ensures
        match tiff_type_size_spec(field_type) {
            Some(n) => r == Some(n as usize),
            None => r is None,
        },
{
    match field_type {
        1 | 2 | 6 | 7 => Some(1),
        3 | 8 => Some(2),
        4 | 9 | 11 => Some(4),
        5 | 10 | 12 => Some(8),
        _ => None,
    }
}

/// An entry of an image file directory.
#[derive(Clone, Copy)]
pub struct IfdEntry {
    pub tag: u16,
    pub field_type: u16,
    pub count: u32,
    pub value_or_offset: u32,
    pub entry_offset: usize,
}

/// The twelve-byte entry at `off`, read in the given byte order.
pub open spec fn ifd_entry_at(d: Seq<u8>, off: int, e: Endian) -> IfdEntry {
    IfdEntry {
        tag: u16_at(d, off, e) as u16,
        field_type: u16_at(d, off + 2, e) as u16,
        count: u32_at(d, off + 4, e) as u32,
        value_or_offset: u32_at(d, off + 8, e) as u32,
        entry_offset: off as usize,
    }
}

/// Reads the image file directory at `ifd_offset`: a 16-bit count, then that
/// many entries, all within the data.
pub fn parse_ifd_entries(tiff: &[u8], ifd_offset: usize, endian: Endian) -> (r: Result<Vec<IfdEntry>, String>)
    ensures
        match r {
            Ok(v) => {
                &&& ifd_offset + 2 <= tiff@.len()
                &&& v@.len() == u16_at(tiff@, ifd_offset as int, endian)
                &&& ifd_offset + 2 + 12 * v@.len() <= tiff@.len()
                &&& forall|k: int|
                    0 <= k < v@.len() ==> #[trigger] v@[k] == ifd_entry_at(
                        tiff@,
                        ifd_offset + 2 + 12 * k,
                        endian,
                    )
            },
            Err(_) => ifd_offset + 2 > tiff@.len() || ifd_offset + 2 + 12 * u16_at(
                tiff@,
                ifd_offset as int,
                endian,
            ) > tiff@.len(),
        },
{
    let count = read_u16(tiff, ifd_offset, endian)? as usize;
    let len = tiff.len();
    let mut entries: Vec<IfdEntry> = Vec::new();
    let mut entry_offset: usize = ifd_offset + 2;
    let mut k: usize = 0;
    while k < count
        invariant
            len == tiff@.len(),
            ifd_offset + 2 <= len,
            count == u16_at(tiff@, ifd_offset as int, endian),
            k <= count,
            entry_offset == ifd_offset + 2 + 12 * k,
            entry_offset <= len,
            entries@.len() == k,
            forall|j: int|
                0 <= j < k ==> #[trigger] entries@[j] == ifd_entry_at(tiff@, ifd_offset + 2 + 12 * j, endian),
        decreases count - k,
    {
        if len - entry_offset < 12 {
            return Err(String::from_str("unexpected EOF while reading IFD entry"));
        }
        let tag = read_u16(tiff, entry_offset, endian)?;
        let field_type = read_u16(tiff, entry_offset + 2, endian)?;
        let n = read_u32(tiff, entry_offset + 4, endian)?;
        let value_or_offset = read_u32(tiff, entry_offset + 8, endian)?;
        entries.push(IfdEntry { tag, field_type, count: n, value_or_offset, entry_offset });
        entry_offset = entry_offset + 12;
        k += 1;
    }
    Ok(entries)
}

/// The bytes of an entry's value: inline in the entry when they fit in four
/// bytes, else at the offset the entry gives.
pub open spec fn ifd_value_spec(d: Seq<u8>, entry: IfdEntry) -> Option<Seq<u8>> {
    match tiff_type_size_spec(entry.field_type) {
        None => None,
        Some(sz) => {
            let n = entry.count * sz;
            if n <= 4 {
                if entry.entry_offset + 12 <= d.len() {
                    Some(d.subrange(entry.entry_offset + 8, entry.entry_offset + 8 + n))
                } else {
                    None
                }
            } else if entry.value_or_offset + n <= d.len() {
                Some(d.subrange(entry.value_or_offset as int, entry.value_or_offset + n))
            } else {
                None
            }
        },
    }
}

/// Copies `len` bytes from `start`.
fn copy_range(data: &[u8], start: usize, len: usize) -> (r: Vec<u8>)
    requires
        start + len <= data@.len(),
    ensures
        r@ == data@.subrange(start as int, start + len),
{
    let mut out: Vec<u8> = Vec::new();
    let dlen = data.len();
    let mut i: usize = 0;
    while i < len
        invariant
            dlen == data@.len(),
            start + len <= dlen,
            i <= len,
            out@ == data@.subrange(start as int, start + i),
        decreases len - i,
    {
        out.push(data[start + i]);
        i += 1;
        assert(out@ =~= data@.subrange(start as int, start + i));
    }
    out
}

/// Reads the value bytes of an entry.
pub fn extract_ifd_value_bytes(tiff: &[u8], entry: IfdEntry) -> (r: Result<Vec<u8>, String>)
    ensures
        match ifd_value_spec(tiff@, entry) {
            Some(v) => r matches Ok(b) && b@ == v,
            None => r is Err,
        },
{
    let type_size = match tiff_type_size(entry.field_type) {
        Some(s) => s as u64,
        None => return Err(String::from_str("unsupported TIFF type in MakerNote extraction")),
    };
    assert(type_size <= 8);
    assert(entry.count as u64 * type_size <= 0x8_0000_0000) by (nonlinear_arith)
        requires
            type_size <= 8,
            entry.count <= u32::MAX,
    ;
    let byte_len = entry.count as u64 * type_size;
    let len = tiff.len();
    if byte_len <= 4 {
        if entry.entry_offset > len || len - entry.entry_offset < 12 {
            return Err(String::from_str("unexpected EOF in inline TIFF value"));
        }
        return Ok(copy_range(tiff, entry.entry_offset + 8, byte_len as usize));
    }
    let offset = entry.value_or_offset as u64;
    if offset > len as u64 || byte_len > len as u64 - offset {
        return Err(String::from_str("TIFF value points outside payload"));
    }
    Ok(copy_range(tiff, offset as usize, byte_len as usize))
}

/// The first entry with the given tag.
pub open spec fn find_tag(v: Seq<IfdEntry>, tag: u16) -> Option<IfdEntry>
    decreases v.len(),
{
    if v.len() == 0 {
        None
    } else if v[0].tag == tag {
        Some(v[0])
    } else {
        find_tag(v.drop_first(), tag)
    }
}

/// Finds the first entry with the given tag.
fn find_entry(v: &Vec<IfdEntry>, tag: u16) -> (r: Option<IfdEntry>)
    ensures
        r == find_tag(v@, tag),
{
    let mut i: usize = 0;
    assert(v@.skip(0) =~= v@);
    while i < v.len()
        invariant
            i <= v@.len(),
            find_tag(v@, tag) == find_tag(v@.skip(i as int), tag),
        decreases v.len() - i,
    {
        let ghost rest = v@.skip(i as int);
        assert(rest.drop_first() =~= v@.skip(i + 1));
        assert(rest[0] == v@[i as int]);
        if v[i].tag == tag {
            return Some(v[i]);
        }
        i += 1;
    }
    assert(v@.skip(i as int).len() == 0);
    None
}

/// The byte order that a TIFF structure declares.
pub open spec fn tiff_endian(d: Seq<u8>) -> Option<Endian> {
    if d.len() >= 2 && d[0] == 0x49 && d[1] == 0x49 {
        Some(Endian::Little)
    } else if d.len() >= 2 && d[0] == 0x4d && d[1] == 0x4d {
        Some(Endian::Big)
    } else {
        None
    }
}

/// The entries of the image file directory at `off`, where its count and
/// all its entries lie within the data.
pub open spec fn ifd_spec(d: Seq<u8>, off: int, e: Endian) -> Option<Seq<IfdEntry>> {
    if off + 2 > d.len() || off + 2 + 12 * u16_at(d, off, e) > d.len() {
        None
    } else {
        Some(Seq::new(u16_at(d, off, e) as nat, |k: int| ifd_entry_at(d, off + 2 + 12 * k, e)))
    }
}

/// The maker note of a TIFF structure: its byte order, the first IFD at the
/// offset in bytes 4 to 7, the Exif IFD that the first IFD's 0x8769 entry
/// points to, and the value bytes of that IFD's first 0x927c entry.
pub open spec fn maker_note_blob_spec(d: Seq<u8>) -> Option<Seq<u8>> {
    match tiff_endian(d) {
        None => None,
        Some(e) => if d.len() < 8 {
            None
        } else {
            match ifd_spec(d, u32_at(d, 4, e), e) {
                None => None,
                Some(ifd0) => match find_tag(ifd0, EXIF_IFD_POINTER_TAG) {
                    None => None,
                    Some(p) => match ifd_spec(d, p.value_or_offset as int, e) {
                        None => None,
                        Some(ifd1) => match find_tag(ifd1, MAKER_NOTE_TAG) {
                            None => None,
                            Some(m) => ifd_value_spec(d, m),
                        },
                    },
                },
            }
        },
    }
}

/// Reads the maker note of a TIFF structure: the first IFD's Exif pointer,
/// the Exif IFD's maker-note entry, and that entry's bytes.
pub fn extract_maker_note_blob(tiff: &[u8]) -> (r: Result<Vec<u8>, String>)
    ensures
        match maker_note_blob_spec(tiff@) {
            Some(b) => r matches Ok(v) && v@ == b,
            None => r is Err,
        },
{
    let len = tiff.len();
    let endian = if len >= 2 && tiff[0] == 0x49 && tiff[1] == 0x49 {
        Endian::Little
    } else if len >= 2 && tiff[0] == 0x4d && tiff[1] == 0x4d {
        Endian::Big
    } else {
        return Err(String::from_str("invalid TIFF byte order"));
    };
    let first_ifd_offset = read_u32(tiff, 4, endian)?;
    let ifd0 = parse_ifd_entries(tiff, first_ifd_offset as usize, endian)?;
    assert(ifd_spec(tiff@, first_ifd_offset as int, endian) == Some(ifd0@)) by {
        assert(ifd0@ =~= Seq::new(
            u16_at(tiff@, first_ifd_offset as int, endian) as nat,
            |k: int| ifd_entry_at(tiff@, first_ifd_offset + 2 + 12 * k, endian),
        ));
    }
    let exif_ifd_offset = match find_entry(&ifd0, EXIF_IFD_POINTER_TAG) {
        Some(e) => e.value_or_offset as usize,
        None => return Err(String::from_str("missing Exif IFD pointer tag (0x8769)")),
    };
    let exif_ifd = parse_ifd_entries(tiff, exif_ifd_offset, endian)?;
    assert(ifd_spec(tiff@, exif_ifd_offset as int, endian) == Some(exif_ifd@)) by {
        assert(exif_ifd@ =~= Seq::new(
            u16_at(tiff@, exif_ifd_offset as int, endian) as nat,
            |k: int| ifd_entry_at(tiff@, exif_ifd_offset + 2 + 12 * k, endian),
        ));
    }
    let maker_note_entry = match find_entry(&exif_ifd, MAKER_NOTE_TAG) {
        Some(e) => e,
        None => return Err(String::from_str("missing MakerNote tag (0x927c)")),
    };
    extract_ifd_value_bytes(tiff, maker_note_entry)
}

/// The magic that an Apple maker note begins with: `Apple iOS`.
pub const APPLE_IOS: [u8; 9] = [0x41, 0x70, 0x70, 0x6c, 0x65, 0x20, 0x69, 0x4f, 0x53];

/// A maker note's header: at least sixteen bytes, `Apple iOS`, and `MM` at
/// offset 12.
pub open spec fn apple_note_header_ok(d: Seq<u8>) -> bool {
    &&& d.len() >= 16
    &&& d.take(9) == APPLE_IOS@
    &&& d[12] == 0x4d && d[13] == 0x4d
}

/// What reading maker-note entries from `idx` on gives.
pub enum NoteScan {
    Found(Option<SignedRational>, Option<SignedRational>),
    Refused,
    /// A negative denominator whose sign cannot be moved: it, or the
    /// numerator, is `i32::MIN`.
    Unnegatable,
}

/// The fraction of a rational entry, with the sign moved to the numerator.
pub open spec fn entry_rational(num: i32, den: i32) -> SignedRational {
    if den < 0 {
        SignedRational { numerator: (-num) as i32, denominator: (-den) as i32 }
    } else {
        SignedRational { numerator: num, denominator: den }
    }
}

/// Reads the maker-note entries from `idx` to `count`: the headroom and
/// gain tags must be single rationals with a non-zero denominator within the
/// data; a later tag of either kind replaces an earlier one.
pub open spec fn note_scan(
    d: Seq<u8>,
    idx: int,
    count: int,
    hr: Option<SignedRational>,
    hg: Option<SignedRational>,
) -> NoteScan
    decreases count - idx,
{
    if idx >= count || idx < 0 {
        NoteScan::Found(hr, hg)
    } else {
        let off = 16 + 12 * idx;
        if off + 12 > d.len() {
            NoteScan::Refused
        } else {
            let tag = be16_at(d, off);
            let ft = be16_at(d, off + 2);
            let cnt = be32_at(d, off + 4);
            let vo = be32_at(d, off + 8);
            if tag != HDR_HEADROOM_TAG && tag != HDR_GAIN_TAG {
                note_scan(d, idx + 1, count, hr, hg)
            } else if ft != 10 || cnt != 1 || vo + 8 > d.len() {
                NoteScan::Refused
            } else {
                let num = be32_at(d, vo) as u32 as i32;
                let den = be32_at(d, vo + 4) as u32 as i32;
                if den == 0 {
                    NoteScan::Refused
                } else if den < 0 && (den == i32::MIN || num == i32::MIN) {
                    NoteScan::Unnegatable
                } else if tag == HDR_HEADROOM_TAG {
                    note_scan(d, idx + 1, count, Some(entry_rational(num, den)), hg)
                } else {
                    note_scan(d, idx + 1, count, hr, Some(entry_rational(num, den)))
                }
            }
        }
    }
}

/// What an Apple maker note gives.
pub open spec fn maker_note_spec(d: Seq<u8>) -> NoteScan {
    if !apple_note_header_ok(d) {
        NoteScan::Refused
    } else {
        note_scan(d, 0, be16_at(d, 14), None, None)
    }
}

/// The message for a maker-note tag that fails a check.
fn maker_note_tag_error(tag: u16, problem: &str) -> (r: String)
    ensures
        r@ == "Apple MakerNote tag 0x"@ + hex4_text(tag) + " "@ + problem@,
{
    let mut cs = str_chars("Apple MakerNote tag 0x");
    append_chars(&mut cs, hex4_chars(tag).as_slice());
    append_chars(&mut cs, str_chars(" ").as_slice());
    append_chars(&mut cs, str_chars(problem).as_slice());
    string_from_chars(cs.as_slice())
}

/// The message for a maker-note tag of the wrong type or count.
fn maker_note_shape_error(tag: u16, field_type: u16, count: u32) -> (r: String)
    ensures
        r@ == "Apple MakerNote tag 0x"@ + hex4_text(tag) + " has unexpected type/count ("@ + decimal_text(
            field_type as nat,
        ) + "/"@ + decimal_text(count as nat) + ")"@,
{
    let mut cs = str_chars("Apple MakerNote tag 0x");
    append_chars(&mut cs, hex4_chars(tag).as_slice());
    append_chars(&mut cs, str_chars(" has unexpected type/count (").as_slice());
    append_chars(&mut cs, decimal_chars(field_type as u64).as_slice());
    append_chars(&mut cs, str_chars("/").as_slice());
    append_chars(&mut cs, decimal_chars(count as u64).as_slice());
    append_chars(&mut cs, str_chars(")").as_slice());
    string_from_chars(cs.as_slice())
}

/// Reads an Apple maker note; nothing where a negative denominator's sign
/// cannot be moved.
fn scan_maker_note(maker_note: &[u8]) -> (r: Option<Result<AppleHdrScalars, String>>)
    ensures
        match maker_note_spec(maker_note@) {
            NoteScan::Found(Some(a), Some(b)) => r == Some(
                Ok::<AppleHdrScalars, String>(AppleHdrScalars { hdr_headroom: a, hdr_gain: b }),
            ),
            NoteScan::Found(None, _) => r matches Some(Err(m)) && m@
                == "missing Apple MakerNote tag 0x0021 (HDRHeadroom)"@,
            NoteScan::Found(Some(_), None) => r matches Some(Err(m)) && m@
                == "missing Apple MakerNote tag 0x0030 (HDRGain)"@,
            NoteScan::Refused => r matches Some(Err(_)),
            NoteScan::Unnegatable => r is None,
        },
{
    let len = maker_note.len();
    let magic: [u8; 9] = APPLE_IOS;
    let mut k: usize = 0;
    if len < 16 {
        return Some(Err(String::from_str("MakerNote is not in Apple iOS format")));
    }
    while k < 9
        invariant
            k <= 9,
            len == maker_note@.len(),
            len >= 16,
            magic@ == APPLE_IOS@,
            forall|j: int| 0 <= j < k ==> maker_note@[j] == magic@[j],
        decreases 9 - k,
    {
        if maker_note[k] != magic[k] {
            assert(maker_note@.take(9)[k as int] != APPLE_IOS@[k as int]);
            return Some(Err(String::from_str("MakerNote is not in Apple iOS format")));
        }
        k += 1;
    }
    assert(maker_note@.take(9) =~= APPLE_IOS@);
    if maker_note[12] != 0x4d || maker_note[13] != 0x4d {
        return Some(Err(String::from_str("Apple MakerNote missing expected MM marker")));
    }
    let entry_count = maker_note[14] as u64 * 256 + maker_note[15] as u64;
    let ghost d = maker_note@;
    let ghost target = note_scan(d, 0, entry_count as int, None, None);
    assert(maker_note_spec(d) == target);
    let mut hdr_headroom: Option<SignedRational> = None;
    let mut hdr_gain: Option<SignedRational> = None;
    let mut idx: u64 = 0;
    while idx < entry_count
        invariant
            len == d.len(),
            d == maker_note@,
            entry_count <= 0xffff,
            idx <= entry_count,
            maker_note_spec(d) == target,
            note_scan(d, idx as int, entry_count as int, hdr_headroom, hdr_gain) == target,
        decreases entry_count - idx,
    {
        let off = 16 + idx * 12;
        if off + 12 > len as u64 {
            return Some(Err(String::from_str("truncated Apple MakerNote entry table")));
        }
        let o = off as usize;
        let tag = maker_note[o] as u16 * 256 + maker_note[o + 1] as u16;
        let field_type = maker_note[o + 2] as u16 * 256 + maker_note[o + 3] as u16;
        let count = ((maker_note[o + 4] as u32 * 256 + maker_note[o + 5] as u32) * 256
            + maker_note[o + 6] as u32) * 256 + maker_note[o + 7] as u32;
        let value_offset = ((maker_note[o + 8] as u64 * 256 + maker_note[o + 9] as u64) * 256
            + maker_note[o + 10] as u64) * 256 + maker_note[o + 11] as u64;
        if tag != HDR_HEADROOM_TAG && tag != HDR_GAIN_TAG {
            idx += 1;
            continue;
        }
        if field_type != 10 || count != 1 {
            return Some(Err(maker_note_shape_error(tag, field_type, count)));
        }
        if value_offset + 8 > len as u64 {
            return Some(Err(maker_note_tag_error(tag, "points outside payload")));
        }
        let v = value_offset as usize;
        let num_bits = ((maker_note[v] as u32 * 256 + maker_note[v + 1] as u32) * 256
            + maker_note[v + 2] as u32) * 256 + maker_note[v + 3] as u32;
        let den_bits = ((maker_note[v + 4] as u32 * 256 + maker_note[v + 5] as u32) * 256
            + maker_note[v + 6] as u32) * 256 + maker_note[v + 7] as u32;
        let mut numerator = #[verifier::truncate] (num_bits as i32);
        let mut denominator = #[verifier::truncate] (den_bits as i32);
        if denominator == 0 {
            return Some(Err(maker_note_tag_error(tag, "has zero denominator")));
        }
        if denominator < 0 {
            if denominator == i32::MIN || numerator == i32::MIN {
                return None;
            }
            denominator = -denominator;
            numerator = -numerator;
        }
        let parsed = SignedRational { numerator, denominator };
        if tag == HDR_HEADROOM_TAG {
            hdr_headroom = Some(parsed);
        } else if tag == HDR_GAIN_TAG {
            hdr_gain = Some(parsed);
        }
        idx += 1;
    }
    let hdr_headroom = match hdr_headroom {
        Some(h) => h,
        None => return Some(Err(String::from_str("missing Apple MakerNote tag 0x0021 (HDRHeadroom)"))),
    };
    let hdr_gain = match hdr_gain {
        Some(g) => g,
        None => return Some(Err(String::from_str("missing Apple MakerNote tag 0x0030 (HDRGain)"))),
    };
    Some(Ok(AppleHdrScalars { hdr_headroom, hdr_gain }))
}

/// Reads the HDR headroom (tag 0x0021) and HDR gain (tag 0x0030) from an
/// Apple maker note.
pub fn parse_apple_maker_note_scalars(maker_note: &[u8]) -> (r: Result<AppleHdrScalars, String>)
    requires
        !(maker_note_spec(maker_note@) is Unnegatable),
    ensures
        match maker_note_spec(maker_note@) {
            NoteScan::Found(Some(a), Some(b)) => r == Ok::<AppleHdrScalars, String>(
                AppleHdrScalars { hdr_headroom: a, hdr_gain: b },
            ),
            NoteScan::Found(None, _) => r matches Err(m) && m@
                == "missing Apple MakerNote tag 0x0021 (HDRHeadroom)"@,
            NoteScan::Found(Some(_), None) => r matches Err(m) && m@
                == "missing Apple MakerNote tag 0x0030 (HDRGain)"@,
            _ => r is Err,
        },
{
    match scan_maker_note(maker_note) {
        Some(r) => r,
        None => Err(String::new()),
    }
}

/// Whether reading a maker note can go through: no headroom or gain entry
/// reached before a refusal has a negative denominator whose sign cannot be
/// moved.
pub fn apple_maker_note_is_readable(maker_note: &[u8]) -> (r: bool)
    ensures
        r == !(maker_note_spec(maker_note@) is Unnegatable),
{
    scan_maker_note(maker_note).is_some()
}

/// What decoding a HEIC file gives: the base picture, Apple's gain map and
/// HDR scalars where present (or why the scalars could not be read), whether
/// the gain map carries an XMP version, and the source's colour signalling.
pub struct HeicDecodeResult {
    pub base: FramePixels,
    pub gain_map: Option<FramePixels>,
    pub apple_hdr_scalars: Option<AppleHdrScalars>,
    pub apple_hdr_scalars_error: Option<String>,
    pub gain_map_has_xmp_version: bool,
    pub source_nclx: Option<SourceNclx>,
}

/// Bytes per sample of a decoded plane.
pub open spec fn plane_sample_bytes(bd: BitDepth) -> int {
    if bd == BitDepth::Eight {
        1
    } else {
        2
    }
}

/// The samples of a decoded `width` by `height` plane with rows of `stride`
/// bytes, row by row: one byte each at 8 bits, two little-endian bytes each
/// otherwise.
pub open spec fn extract_plane_spec(data: Seq<u8>, stride: int, width: int, height: int, bd: BitDepth) -> Seq<u16> {
    Seq::new(
        (width * height) as nat,
        |i: int|
            {
                let row = i / width;
                let col = i % width;
                if bd == BitDepth::Eight {
                    data[row * stride + col] as u16
                } else {
                    (data[row * stride + col * 2] as int + 256 * data[row * stride + col * 2 + 1] as int) as u16
                }
            },
    )
}

/// Copies a decoded plane into packed samples.
pub fn extract_plane(data: &[u8], stride: usize, width: usize, height: usize, bit_depth: BitDepth) -> (r: Vec<u16>)
    requires
        width * height <= usize::MAX,
        width > 0 && height > 0 ==> (height - 1) * stride + width * plane_sample_bytes(bit_depth) <= data@.len(),
    ensures
        r@ == extract_plane_spec(data@, stride as int, width as int, height as int, bit_depth),
{
    let dlen = data.len();
    let mut out: Vec<u16> = Vec::new();
    let ghost want = extract_plane_spec(data@, stride as int, width as int, height as int, bit_depth);
    let ghost b = plane_sample_bytes(bit_depth);
    let mut row: usize = 0;
    while row < height
        invariant
            dlen == data@.len(),
            want == extract_plane_spec(data@, stride as int, width as int, height as int, bit_depth),
            b == plane_sample_bytes(bit_depth),
            width * height <= usize::MAX,
            width > 0 && height > 0 ==> (height - 1) * stride + width * b <= dlen,
            row <= height,
            out@.len() == row * width,
            forall|i: int| 0 <= i < row * width ==> #[trigger] out@[i] == want[i],
        decreases height - row,
    {
        let mut col: usize = 0;
        assert(row * stride <= (height - 1) * stride) by (nonlinear_arith)
            requires
                row < height,
        ;
        while col < width
            invariant
                dlen == data@.len(),
                want == extract_plane_spec(data@, stride as int, width as int, height as int, bit_depth),
                b == plane_sample_bytes(bit_depth),
                width * height <= usize::MAX,
                width > 0 ==> (height - 1) * stride + width * b <= dlen,
                row < height,
                row * stride <= (height - 1) * stride,
                col <= width,
                out@.len() == row * width + col,
                forall|i: int| 0 <= i < row * width + col ==> #[trigger] out@[i] == want[i],
            decreases width - col,
        {
            let ghost k = (row * width + col) as int;
            assert(k < width * height && k / (width as int) == row && k % (width as int) == col) by (nonlinear_arith)
                requires
                    k == row * width + col,
                    col < width,
                    row < height,
            ;
            if bit_depth == BitDepth::Eight {
                out.push(data[row * stride + col] as u16);
            } else {
                assert(row * stride + col * 2 + 1 < dlen) by (nonlinear_arith)
                    requires
                        col < width,
                        row * stride <= (height - 1) * stride,
                        (height - 1) * stride + width * 2 <= dlen,
                ;
                let lo = data[row * stride + col * 2] as u16;
                let hi = data[row * stride + col * 2 + 1] as u16;
                out.push(lo + hi * 256);
            }
            col += 1;
        }
        assert((row + 1) * width == row * width + width) by (nonlinear_arith);
        row += 1;
    }
    assert(row * width == width * height) by (nonlinear_arith)
        requires
            row == height,
    ;
    assert(out@ =~= want);
    out
}


/// `needle` occurs in `haystack`.
pub open spec fn has_bytes(haystack: Seq<u8>, needle: Seq<u8>) -> bool {
    exists|i: int| 0 <= i && i + needle.len() <= haystack.len() && #[trigger] haystack.subrange(i, i + needle.len()) == needle
}

/// Whether `needle`, which is not empty, occurs in `haystack`.
pub fn contains_bytes(haystack: &[u8], needle: &[u8]) -> (r: bool)
    requires
        needle@.len() > 0,
    ensures
        r == has_bytes(haystack@, needle@),
{
    let n = needle.len();
    if n > haystack.len() {
        return false;
    }
    let last = haystack.len() - n;
    let mut i: usize = 0;
    while i <= last
        invariant
            n == needle@.len(),
            n >= 1,
            last + n == haystack.len(),
            i <= last + 1,
            forall|k: int| 0 <= k < i ==> #[trigger] haystack@.subrange(k, k + n) != needle@,
        decreases last + 1 - i,
    {
        let mut j: usize = 0;
        let mut same = true;
        while j < n
            invariant
                n == needle@.len(),
                i + n <= haystack.len(),
                j <= n,
                same == (forall|t: int| 0 <= t < j ==> haystack@[i + t] == needle@[t]),
            decreases n - j,
        {
            if haystack[i + j] != needle[j] {
                same = false;
            }
            j += 1;
        }
        if same {
            assert(haystack@.subrange(i as int, i + n) =~= needle@);
            return true;
        }
        assert(haystack@.subrange(i as int, i + n) != needle@) by {
            let t = choose|t: int| 0 <= t < n && haystack@[i + t] != needle@[t];
            assert(haystack@.subrange(i as int, i + n)[t] != needle@[t]);
        }
        i += 1;
    }
    false
}

/// The colour signalling of an `nclx` profile: full range where its flag
/// is set, and a colour description where all three code points are known.
pub fn source_nclx(full_range_flag: u8, primaries: Option<u8>, transfer: Option<u8>, matrix: Option<u8>) -> (r: SourceNclx)
    ensures
        r.color_range == (if full_range_flag != 0 { ColorRange::Full } else { ColorRange::Limited }),
        r.color_description == (match (primaries, transfer, matrix) {
            (Some(p), Some(t), Some(m)) => Some(
                ColorDescription { color_primaries: p, transfer_characteristics: t, matrix_coefficients: m },
            ),
            _ => None,
        }),
{
    let color_range = if full_range_flag != 0 {
        ColorRange::Full
    } else {
        ColorRange::Limited
    };
    let color_description = match (primaries, transfer, matrix) {
        (Some(color_primaries), Some(transfer_characteristics), Some(matrix_coefficients)) => Some(
            ColorDescription { color_primaries, transfer_characteristics, matrix_coefficients },
        ),
        _ => None,
    };
    SourceNclx { color_description, color_range }
}

} // verus!
