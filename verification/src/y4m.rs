use vstd::prelude::*;
use vstd::utf8::{valid_utf8, decode_utf8};
use crate::text::{
    has_prefix, has_infix, ws_tokens, parse_u32_spec, parse_u32_chars, starts_with_chars,
    contains_chars, split_whitespace_chars, utf8_chars, string_from_chars,
};
use crate::video::{BitDepth, ColorRange};

verus! {

/// A 4:2:0 picture: a luma plane of `width * height` samples and two chroma
/// planes of `ceil(width / 2) * ceil(height / 2)` samples, row by row.
#[derive(Debug, Clone)]
pub struct FramePixels {
    pub y: Vec<u16>,
    pub u: Vec<u16>,
    pub v: Vec<u16>,
    pub width: u32,
    pub height: u32,
    pub bit_depth: BitDepth,
    pub color_range: ColorRange,
}

/// Half of `n`, rounded up: the size of a chroma dimension.
pub open spec fn half_up(n: int) -> int {
    (n + 1) / 2
}

/// Half of `n`, rounded up.
pub fn div_ceil2(n: u32) -> (r: u32)
    ensures
        r as int == half_up(n as int),
{
    n / 2 + n % 2
}

impl FramePixels {
    /// The planes have the sizes that the dimensions call for.
    pub open spec fn planes_fit(&self) -> bool {
        &&& self.y@.len() == self.width as int * self.height as int
        &&& self.u@.len() == half_up(self.width as int) * half_up(self.height as int)
        &&& self.v@.len() == half_up(self.width as int) * half_up(self.height as int)
    }

    /// A picture of one colour, 8-bit and limited range.
    pub fn solid(width: u32, height: u32, y: u8, u: u8, v: u8) -> (r: FramePixels)
        requires
            width as int * height as int <= u32::MAX,
        ensures
            r.planes_fit(),
            r.width == width,
            r.height == height,
            r.bit_depth == BitDepth::Eight,
            r.color_range == ColorRange::Limited,
            forall|i: int| 0 <= i < r.y@.len() ==> r.y@[i] == y as u16,
            forall|i: int| 0 <= i < r.u@.len() ==> r.u@[i] == u as u16,
            forall|i: int| 0 <= i < r.v@.len() ==> r.v@[i] == v as u16,
    {
        Self::solid_with_bit_depth(
            width,
            height,
            y as u16,
            u as u16,
            v as u16,
            BitDepth::Eight,
            ColorRange::Limited,
        )
    }

    /// A picture of one colour, with the given bit depth and range.
    pub fn solid_with_bit_depth(
        width: u32,
        height: u32,
        y: u16,
        u: u16,
        v: u16,
        bit_depth: BitDepth,
        color_range: ColorRange,
    ) -> (r: FramePixels)
        requires
            width as int * height as int <= u32::MAX,
        ensures
            r.planes_fit(),
            r.width == width,
            r.height == height,
            r.bit_depth == bit_depth,
            r.color_range == color_range,
            forall|i: int| 0 <= i < r.y@.len() ==> r.y@[i] == y,
            forall|i: int| 0 <= i < r.u@.len() ==> r.u@[i] == u,
            forall|i: int| 0 <= i < r.v@.len() ==> r.v@[i] == v,
    {
        let y_size = (width * height) as usize;
        let uv_w = div_ceil2(width) as usize;
        let uv_h = div_ceil2(height) as usize;
        assert(uv_w * uv_h <= y_size) by (nonlinear_arith)
            requires
                uv_w <= width,
                uv_h <= height,
                y_size == width * height,
        ;
        let uv_size = uv_w * uv_h;
        FramePixels {
            y: vec![y; y_size],
            u: vec![u; uv_size],
            v: vec![v; uv_size],
            width,
            height,
            bit_depth,
            color_range,
        }
    }
}


/// Why a Y4M stream was refused.
#[derive(Debug, Clone, PartialEq, Eq)]
pub enum Y4mError {
    MissingHeader,
    InvalidHeaderUtf8,
    InvalidHeader(&'static str),
    UnsupportedColorspace(String),
    InvalidDimensions,
    NoFrameMarker,
    TruncatedFrameData,
}

/// A refusal with the text it carries taken as characters.
pub enum Y4mFault {
    MissingHeader,
    InvalidHeaderUtf8,
    InvalidHeader(Seq<char>),
    UnsupportedColorspace(Seq<char>),
    InvalidDimensions,
    NoFrameMarker,
    TruncatedFrameData,
}

impl Y4mError {
    /// This error as a fault.
    pub open spec fn fault(self) -> Y4mFault {
        match self {
            Y4mError::MissingHeader => Y4mFault::MissingHeader,
            Y4mError::InvalidHeaderUtf8 => Y4mFault::InvalidHeaderUtf8,
            Y4mError::InvalidHeader(m) => Y4mFault::InvalidHeader(m@),
            Y4mError::UnsupportedColorspace(c) => Y4mFault::UnsupportedColorspace(c@),
            Y4mError::InvalidDimensions => Y4mFault::InvalidDimensions,
            Y4mError::NoFrameMarker => Y4mFault::NoFrameMarker,
            Y4mError::TruncatedFrameData => Y4mFault::TruncatedFrameData,
        }
    }
}

/// A picture with its planes taken as sequences.
pub struct FrameModel {
    pub y: Seq<u16>,
    pub u: Seq<u16>,
    pub v: Seq<u16>,
    pub width: u32,
    pub height: u32,
    pub bit_depth: BitDepth,
    pub color_range: ColorRange,
}

impl FramePixels {
    /// This picture as a model.
    pub open spec fn model(&self) -> FrameModel {
        FrameModel {
            y: self.y@,
            u: self.u@,
            v: self.v@,
            width: self.width,
            height: self.height,
            bit_depth: self.bit_depth,
            color_range: self.color_range,
        }
    }
}

/// The first line feed at or after `i`, or -1.
pub open spec fn nl_from(d: Seq<u8>, i: int) -> int
    decreases d.len() - i,
{
    if i < 0 || i >= d.len() {
        -1
    } else if d[i] == 10 {
        i
    } else {
        nl_from(d, i + 1)
    }
}

pub proof fn lemma_nl_from(d: Seq<u8>, i: int)
    requires
        0 <= i,
    ensures
        nl_from(d, i) < 0 || (i <= nl_from(d, i) < d.len() && d[nl_from(d, i)] == 10),
    decreases d.len() - i,
{
    if i < d.len() && d[i] != 10 {
        lemma_nl_from(d, i + 1);
    }
}

/// `YUV4MPEG2`
pub open spec fn stream_magic() -> Seq<char> {
    seq!['Y', 'U', 'V', '4', 'M', 'P', 'E', 'G', '2']
}

/// `FRAME`
pub open spec fn frame_magic() -> Seq<char> {
    seq!['F', 'R', 'A', 'M', 'E']
}

/// `XCOLORRANGE=`
pub open spec fn range_key() -> Seq<char> {
    seq!['X', 'C', 'O', 'L', 'O', 'R', 'R', 'A', 'N', 'G', 'E', '=']
}

/// The tokens after the first.
pub open spec fn after_first(t: Seq<Seq<char>>) -> Seq<Seq<char>> {
    if t.len() > 0 {
        t.drop_first()
    } else {
        t
    }
}

/// What an `XCOLORRANGE=FULL` or `XCOLORRANGE=LIMITED` token says.
pub open spec fn range_token_spec(t: Seq<char>) -> Option<ColorRange> {
    if has_prefix(t, range_key()) {
        let v = t.skip(12);
        if v == seq!['F', 'U', 'L', 'L'] {
            Some(ColorRange::Full)
        } else if v == seq!['L', 'I', 'M', 'I', 'T', 'E', 'D'] {
            Some(ColorRange::Limited)
        } else {
            None
        }
    } else {
        None
    }
}

/// The bit depth that a `C` value names: 4:2:0 only, 10-bit where it holds
/// `p10` or `P10`.
pub open spec fn colorspace_spec(v: Seq<char>) -> Result<BitDepth, Y4mFault> {
    if !has_prefix(v, seq!['4', '2', '0']) {
        Err(Y4mFault::UnsupportedColorspace(v))
    } else if has_infix(v, seq!['p', '1', '0']) || has_infix(v, seq!['P', '1', '0']) {
        Ok(BitDepth::Ten)
    } else {
        Ok(BitDepth::Eight)
    }
}

/// The outcome of reading the header's parameters.
pub enum HeaderScan {
    Fields(u32, u32, BitDepth, ColorRange),
    Refused(Y4mFault),
    /// A parameter whose first character is not ASCII, which cannot be split.
    Unsplittable,
}

/// Reads header parameters left to right from the state `(w, h, bd, cr)`.
pub open spec fn scan_header(
    toks: Seq<Seq<char>>,
    w: u32,
    h: u32,
    bd: BitDepth,
    cr: ColorRange,
) -> HeaderScan
    decreases toks.len(),
{
    if toks.len() == 0 {
        HeaderScan::Fields(w, h, bd, cr)
    } else {
        let t = toks[0];
        let rest = toks.drop_first();
        if t.len() == 0 || t[0] as u32 >= 0x80 {
            HeaderScan::Unsplittable
        } else if t[0] == 'W' {
            match parse_u32_spec(t.drop_first()) {
                Some(n) => scan_header(rest, n, h, bd, cr),
                None => HeaderScan::Refused(Y4mFault::InvalidHeader("Invalid width"@)),
            }
        } else if t[0] == 'H' {
            match parse_u32_spec(t.drop_first()) {
                Some(n) => scan_header(rest, w, n, bd, cr),
                None => HeaderScan::Refused(Y4mFault::InvalidHeader("Invalid height"@)),
            }
        } else if t[0] == 'C' {
            match colorspace_spec(t.drop_first()) {
                Ok(b) => scan_header(rest, w, h, b, cr),
                Err(f) => HeaderScan::Refused(f),
            }
        } else {
            match range_token_spec(t) {
                Some(r) => scan_header(rest, w, h, bd, r),
                None => scan_header(rest, w, h, bd, cr),
            }
        }
    }
}

/// The header line of a stream: everything before the first line feed.
pub open spec fn header_spec(d: Seq<u8>) -> HeaderScan {
    let nl = nl_from(d, 0);
    if nl < 0 {
        HeaderScan::Refused(Y4mFault::MissingHeader)
    } else if !valid_utf8(d.take(nl)) {
        HeaderScan::Refused(Y4mFault::InvalidHeaderUtf8)
    } else if !has_prefix(decode_utf8(d.take(nl)), stream_magic()) {
        HeaderScan::Refused(Y4mFault::InvalidHeader("Not a YUV4MPEG2 file"@))
    } else {
        scan_header(
            after_first(ws_tokens(decode_utf8(d.take(nl)))),
            0,
            0,
            BitDepth::Eight,
            ColorRange::Limited,
        )
    }
}

/// The range that a frame line's parameters leave, from `cr`.
pub open spec fn frame_range_scan(toks: Seq<Seq<char>>, cr: ColorRange) -> ColorRange
    decreases toks.len(),
{
    if toks.len() == 0 {
        cr
    } else {
        frame_range_scan(
            toks.drop_first(),
            match range_token_spec(toks[0]) {
                Some(r) => r,
                None => cr,
            },
        )
    }
}

/// A non-empty frame line: `FRAME` and parameters, of which only the colour
/// range is read.
pub open spec fn frame_line_spec(line: Seq<u8>, dflt: ColorRange) -> Result<ColorRange, Y4mFault> {
    if !valid_utf8(line) {
        Err(Y4mFault::InvalidHeaderUtf8)
    } else if !has_prefix(decode_utf8(line), frame_magic()) {
        Err(Y4mFault::NoFrameMarker)
    } else {
        Ok(frame_range_scan(after_first(ws_tokens(decode_utf8(line))), dflt))
    }
}

/// Bytes per sample.
pub open spec fn sample_bytes(bd: BitDepth) -> int {
    if bd == BitDepth::Ten {
        2
    } else {
        1
    }
}

/// Bytes of sample data in one frame.
pub open spec fn frame_bytes(w: u32, h: u32, bd: BitDepth) -> int {
    (w * h + 2 * (half_up(w as int) * half_up(h as int))) * sample_bytes(bd)
}

/// `n` samples from `off`: one byte each at 8 bits, two little-endian bytes
/// each at 10 bits.
pub open spec fn plane_spec(d: Seq<u8>, off: int, n: int, bd: BitDepth) -> Seq<u16> {
    Seq::new(
        n as nat,
        |i: int|
            if bd == BitDepth::Ten {
                (d[off + 2 * i] as int + 256 * d[off + 2 * i + 1] as int) as u16
            } else {
                d[off + i] as u16
            },
    )
}

/// The picture whose samples start at `at`.
pub open spec fn frame_at(
    d: Seq<u8>,
    at: int,
    w: u32,
    h: u32,
    bd: BitDepth,
    cr: ColorRange,
) -> FrameModel {
    let ys = w * h;
    let uvs = half_up(w as int) * half_up(h as int);
    let b = sample_bytes(bd);
    FrameModel {
        y: plane_spec(d, at, ys, bd),
        u: plane_spec(d, at + ys * b, uvs, bd),
        v: plane_spec(d, at + (ys + uvs) * b, uvs, bd),
        width: w,
        height: h,
        bit_depth: bd,
        color_range: cr,
    }
}

/// The outcome of reading frames.
pub enum FramesScan {
    Frames(Seq<FrameModel>),
    Refused(Y4mFault),
}

/// Reads the frames from `pos` to the end: each a line (empty, or `FRAME`
/// with parameters), a line feed, and the samples.
pub open spec fn frames_from(
    d: Seq<u8>,
    pos: int,
    w: u32,
    h: u32,
    bd: BitDepth,
    cr: ColorRange,
) -> FramesScan
    decreases d.len() - pos,
{
    if pos < 0 || pos >= d.len() {
        FramesScan::Frames(seq![])
    } else {
        let nl = nl_from(d, pos);
        if nl < 0 {
            FramesScan::Refused(Y4mFault::TruncatedFrameData)
        } else {
            let line = d.subrange(pos, nl);
            let fr = if line.len() == 0 {
                Ok(cr)
            } else {
                frame_line_spec(line, cr)
            };
            match fr {
                Err(f) => FramesScan::Refused(f),
                Ok(c) => {
                    let start = nl + 1;
                    let size = frame_bytes(w, h, bd);
                    if start + size > d.len() {
                        FramesScan::Refused(Y4mFault::TruncatedFrameData)
                    } else {
                        proof {
                            lemma_nl_from(d, pos);
                        }
                        match frames_from(d, start + size, w, h, bd, cr) {
                            FramesScan::Frames(rest) => FramesScan::Frames(
                                seq![frame_at(d, start, w, h, bd, c)] + rest,
                            ),
                            FramesScan::Refused(f) => FramesScan::Refused(f),
                        }
                    }
                }
            }
        }
    }
}

/// The outcome of reading a whole stream.
pub enum Y4mParse {
    Frames(Seq<FrameModel>),
    Refused(Y4mFault),
    /// A header parameter that cannot be split, or `W * H` past `u32::MAX`.
    Unreadable,
}

/// What reading a Y4M stream gives: the header's checks and parameters, then
/// every frame to the end, of which there must be at least one.
pub open spec fn y4m_spec(d: Seq<u8>) -> Y4mParse {
    match header_spec(d) {
        HeaderScan::Unsplittable => Y4mParse::Unreadable,
        HeaderScan::Refused(f) => Y4mParse::Refused(f),
        HeaderScan::Fields(w, h, bd, cr) => {
            if w == 0 || h == 0 {
                Y4mParse::Refused(Y4mFault::InvalidDimensions)
            } else if w * h > u32::MAX {
                Y4mParse::Unreadable
            } else {
                match frames_from(d, nl_from(d, 0) + 1, w, h, bd, cr) {
                    FramesScan::Refused(f) => Y4mParse::Refused(f),
                    FramesScan::Frames(fs) => if fs.len() == 0 {
                        Y4mParse::Refused(Y4mFault::NoFrameMarker)
                    } else {
                        Y4mParse::Frames(fs)
                    },
                }
            }
        }
    }
}


/// The models of a list of pictures.
pub open spec fn models_of(v: Seq<FramePixels>) -> Seq<FrameModel> {
    Seq::new(v.len(), |k: int| v[k].model())
}

/// `pre` put before the frames of a scan; a refusal stays as it is.
pub open spec fn prepend(pre: Seq<FrameModel>, sc: FramesScan) -> FramesScan {
    match sc {
        FramesScan::Frames(r) => FramesScan::Frames(pre + r),
        FramesScan::Refused(f) => FramesScan::Refused(f),
    }
}

/// The first line feed at or after `start`.
fn find_newline(data: &[u8], start: usize) -> (r: Option<usize>)
    ensures
        match r {
            Some(i) => i as int == nl_from(data@, start as int),
            None => nl_from(data@, start as int) < 0,
        },
{
    let len = data.len();
    let mut i = start;
    while i < len
        invariant
            len == data@.len(),
            start <= i,
            nl_from(data@, start as int) == nl_from(data@, i as int),
        decreases len - i,
    {
        if data[i] == 10 {
            return Some(i);
        }
        i += 1;
    }
    None
}

/// Reads an `XCOLORRANGE=FULL` or `XCOLORRANGE=LIMITED` token.
fn parse_color_range_token(token: &[char]) -> (r: Option<ColorRange>)
    ensures
        r == range_token_spec(token@),
{
    let key: [char; 12] = ['X', 'C', 'O', 'L', 'O', 'R', 'R', 'A', 'N', 'G', 'E', '='];
    assert(key@ =~= range_key());
    if !starts_with_chars(token, key.as_slice()) {
        return None;
    }
    let v = &token[12..token.len()];
    assert(v@ =~= token@.skip(12));
    let full: [char; 4] = ['F', 'U', 'L', 'L'];
    let limited: [char; 7] = ['L', 'I', 'M', 'I', 'T', 'E', 'D'];
    if v.len() == 4 && starts_with_chars(v, full.as_slice()) {
        assert(v@ =~= v@.take(4));
        assert(v@ =~= seq!['F', 'U', 'L', 'L']);
        return Some(ColorRange::Full);
    }
    assert(v@ != seq!['F', 'U', 'L', 'L']) by {
        if v@ == seq!['F', 'U', 'L', 'L'] {
            assert(v@.take(4) =~= full@);
        }
    }
    if v.len() == 7 && starts_with_chars(v, limited.as_slice()) {
        assert(v@ =~= v@.take(7));
        assert(v@ =~= seq!['L', 'I', 'M', 'I', 'T', 'E', 'D']);
        return Some(ColorRange::Limited);
    }
    assert(v@ != seq!['L', 'I', 'M', 'I', 'T', 'E', 'D']) by {
        if v@ == seq!['L', 'I', 'M', 'I', 'T', 'E', 'D'] {
            assert(v@.take(7) =~= limited@);
        }
    }
    None
}

/// Reads the value of a `C` parameter.
fn parse_bit_depth_from_colorspace(colorspace: &[char]) -> (r: Result<BitDepth, Y4mError>)
    ensures
        match colorspace_spec(colorspace@) {
            Ok(b) => r == Ok::<BitDepth, Y4mError>(b),
            Err(f) => r is Err && r->Err_0.fault() == f,
        },
{
    let c420: [char; 3] = ['4', '2', '0'];
    let p10: [char; 3] = ['p', '1', '0'];
    let cap_p10: [char; 3] = ['P', '1', '0'];
    assert(c420@ =~= seq!['4', '2', '0']);
    assert(p10@ =~= seq!['p', '1', '0']);
    assert(cap_p10@ =~= seq!['P', '1', '0']);
    if !starts_with_chars(colorspace, c420.as_slice()) {
        return Err(Y4mError::UnsupportedColorspace(string_from_chars(colorspace)));
    }
    if contains_chars(colorspace, p10.as_slice()) || contains_chars(colorspace, cap_p10.as_slice()) {
        Ok(BitDepth::Ten)
    } else {
        Ok(BitDepth::Eight)
    }
}

proof fn lemma_deep_index(v: &Vec<Vec<char>>, i: int)
    requires
        0 <= i < v@.len(),
    ensures
        v.deep_view()[i] == v@[i]@,
{
    assert(v.deep_view()[i] =~= v@[i]@);
}

/// Reads a non-empty frame line: `FRAME`, then parameters, of which the
/// last colour range wins over `default_color_range`.
fn parse_frame_header_line(
    line: &[u8],
    default_color_range: ColorRange,
) -> (r: Result<ColorRange, Y4mError>)
    ensures
        match frame_line_spec(line@, default_color_range) {
            Ok(c) => r == Ok::<ColorRange, Y4mError>(c),
            Err(f) => r is Err && r->Err_0.fault() == f,
        },
{
    let chars = match utf8_chars(line) {
        Some(c) => c,
        None => return Err(Y4mError::InvalidHeaderUtf8),
    };
    let frame: [char; 5] = ['F', 'R', 'A', 'M', 'E'];
    assert(frame@ =~= frame_magic());
    if !starts_with_chars(chars.as_slice(), frame.as_slice()) {
        return Err(Y4mError::NoFrameMarker);
    }
    let toks = split_whitespace_chars(chars.as_slice());
    let ghost dv = toks.deep_view();
    let n = toks.len();
    let mut i: usize = if n > 0 {
        1
    } else {
        0
    };
    let mut cr = default_color_range;
    assert(dv.subrange(i as int, n as int) =~= after_first(dv));
    while i < n
        invariant
            n == toks@.len(),
            dv == toks.deep_view(),
            dv.len() == n,
            i <= n,
            frame_range_scan(dv.subrange(i as int, n as int), cr) == frame_range_scan(
                after_first(dv),
                default_color_range,
            ),
        decreases n - i,
    {
        proof {
            lemma_deep_index(&toks, i as int);
        }
        let ghost sub = dv.subrange(i as int, n as int);
        assert(sub[0] == dv[i as int]);
        assert(sub.drop_first() =~= dv.subrange(i + 1, n as int));
        if let Some(r) = parse_color_range_token(toks[i].as_slice()) {
            cr = r;
        }
        i += 1;
    }
    assert(dv.subrange(i as int, n as int) =~= Seq::<Seq<char>>::empty());
    Ok(cr)
}

/// Reads the header's parameters in order.
fn parse_header_fields(toks: &Vec<Vec<char>>) -> (r: Option<
    Result<(u32, u32, BitDepth, ColorRange), Y4mError>,
>)
    ensures
        match scan_header(
            after_first(toks.deep_view()),
            0,
            0,
            BitDepth::Eight,
            ColorRange::Limited,
        ) {
            HeaderScan::Fields(w, h, b, c) => r == Some(
                Ok::<(u32, u32, BitDepth, ColorRange), Y4mError>((w, h, b, c)),
            ),
            HeaderScan::Refused(f) => r matches Some(Err(e)) && e.fault() == f,
            HeaderScan::Unsplittable => r is None,
        },
{
    let ghost dv = toks.deep_view();
    let ghost target = scan_header(after_first(dv), 0, 0, BitDepth::Eight, ColorRange::Limited);
    let n = toks.len();
    let mut i: usize = if n > 0 {
        1
    } else {
        0
    };
    let mut width: u32 = 0;
    let mut height: u32 = 0;
    let mut bit_depth = BitDepth::Eight;
    let mut color_range = ColorRange::Limited;
    assert(dv.subrange(i as int, n as int) =~= after_first(dv));
    while i < n
        invariant
            n == toks@.len(),
            dv == toks.deep_view(),
            dv.len() == n,
            i <= n,
            target == scan_header(after_first(dv), 0, 0, BitDepth::Eight, ColorRange::Limited),
            scan_header(dv.subrange(i as int, n as int), width, height, bit_depth, color_range)
                == target,
        decreases n - i,
    {
        proof {
            lemma_deep_index(toks, i as int);
        }
        let ghost sub = dv.subrange(i as int, n as int);
        assert(sub[0] == dv[i as int]);
        assert(sub.drop_first() =~= dv.subrange(i + 1, n as int));
        let t = toks[i].as_slice();
        let tl = t.len();
        if tl == 0 {
            return None;
        }
        let key = t[0];
        if key as u32 >= 0x80 {
            return None;
        }
        let val = &t[1..tl];
        assert(val@ =~= t@.drop_first());
        if key == 'W' {
            match parse_u32_chars(val) {
                Some(v) => {
                    width = v;
                },
                None => {
                    return Some(Err(Y4mError::InvalidHeader("Invalid width")));
                },
            }
        } else if key == 'H' {
            match parse_u32_chars(val) {
                Some(v) => {
                    height = v;
                },
                None => {
                    return Some(Err(Y4mError::InvalidHeader("Invalid height")));
                },
            }
        } else if key == 'C' {
            match parse_bit_depth_from_colorspace(val) {
                Ok(b) => {
                    bit_depth = b;
                },
                Err(e) => {
                    return Some(Err(e));
                },
            }
        } else {
            if let Some(r) = parse_color_range_token(t) {
                color_range = r;
            }
        }
        i += 1;
    }
    assert(dv.subrange(i as int, n as int) =~= Seq::<Seq<char>>::empty());
    Some(Ok((width, height, bit_depth, color_range)))
}

/// `n` samples from `off`, one byte each or two little-endian bytes each.
fn read_plane(data: &[u8], off: usize, n: usize, bit_depth: BitDepth) -> (r: Vec<u16>)
    requires
        off + n * sample_bytes(bit_depth) <= data@.len(),
    ensures
        r@ == plane_spec(data@, off as int, n as int, bit_depth),
{
    let mut out: Vec<u16> = Vec::with_capacity(n);
    let dlen = data.len();
    let mut i: usize = 0;
    while i < n
        invariant
            i <= n,
            dlen == data@.len(),
            off + n * sample_bytes(bit_depth) <= data@.len(),
            out@.len() == i,
            forall|k: int| 0 <= k < i ==> out@[k] == #[trigger] plane_spec(data@, off as int, n as int, bit_depth)[k],
        decreases n - i,
    {
        if bit_depth == BitDepth::Ten {
            assert(off + 2 * i + 1 < dlen) by (nonlinear_arith)
                requires
                    i < n,
                    off + n * 2 <= dlen,
            ;
            let lo = data[off + 2 * i] as u16;
            let hi = data[off + 2 * i + 1] as u16;
            out.push(lo + hi * 256);
        } else {
            assert(off + i < dlen) by (nonlinear_arith)
                requires
                    i < n,
                    off + n * 1 <= dlen,
            ;
            out.push(data[off + i] as u16);
        }
        i += 1;
    }
    assert(out@ =~= plane_spec(data@, off as int, n as int, bit_depth));
    out
}


proof fn lemma_prepend_step(pre: Seq<FrameModel>, fm: FrameModel, sc: FramesScan)
    ensures
        prepend(pre, prepend(seq![fm], sc)) == prepend(pre.push(fm), sc),
{
    match sc {
        FramesScan::Frames(r) => {
            assert(pre + (seq![fm] + r) =~= pre.push(fm) + r);
        },
        FramesScan::Refused(_) => {},
    }
}

/// The sizes of one frame: luma samples, chroma samples per plane, and bytes.
fn frame_sizes(width: u32, height: u32, bit_depth: BitDepth) -> (r: (u64, u64, u64))
    requires
        width as int * height as int <= u32::MAX,
    ensures
        r.0 == width * height,
        r.1 == half_up(width as int) * half_up(height as int),
        r.2 == frame_bytes(width, height, bit_depth),
        r.1 <= r.0,
{
    let y_size = width as u64 * height as u64;
    let uv_w = div_ceil2(width) as u64;
    let uv_h = div_ceil2(height) as u64;
    assert(uv_w * uv_h <= y_size) by (nonlinear_arith)
        requires
            uv_w <= width || width == 0,
            uv_h <= height || height == 0,
            uv_w <= width + 1,
            uv_h <= height + 1,
            width == 0 ==> uv_w == 0,
            height == 0 ==> uv_h == 0,
            y_size == width * height,
    ;
    let uv_size = uv_w * uv_h;
    let bytes: u64 = if bit_depth == BitDepth::Ten {
        2
    } else {
        1
    };
    (y_size, uv_size, (y_size + 2 * uv_size) * bytes)
}

/// Whether reading `data` as a Y4M stream can go through: no header
/// parameter begins with a non-ASCII character before the header is
/// refused, and `W * H` fits in 32 bits.
pub fn y4m_is_readable(data: &[u8]) -> (r: bool)
    ensures
        r == !(y4m_spec(data@) is Unreadable),
{
    let ghost d = data@;
    let header_end = match find_newline(data, 0) {
        Some(i) => i,
        None => return true,
    };
    proof {
        lemma_nl_from(d, 0);
    }
    let header_bytes = &data[0..header_end];
    assert(header_bytes@ =~= d.take(header_end as int));
    let header = match utf8_chars(header_bytes) {
        Some(c) => c,
        None => return true,
    };
    let magic: [char; 9] = ['Y', 'U', 'V', '4', 'M', 'P', 'E', 'G', '2'];
    assert(magic@ =~= stream_magic());
    if !starts_with_chars(header.as_slice(), magic.as_slice()) {
        return true;
    }
    let toks = split_whitespace_chars(header.as_slice());
    match parse_header_fields(&toks) {
        None => false,
        Some(Err(_)) => true,
        Some(Ok((width, height, _, _))) => {
            assert((width as u64) * (height as u64) <= 0xffff_fffe_0000_0001) by (nonlinear_arith)
                requires
                    width <= u32::MAX,
                    height <= u32::MAX,
            ;
            width == 0 || height == 0 || (width as u64) * (height as u64) <= u32::MAX as u64
        },
    }
}

impl FramePixels {
    /// Reads every frame of a Y4M stream (4:2:0, 8 or 10 bits).
    ///
    /// The header line must begin with `YUV4MPEG2`; its `W`, `H`, `C` and
    /// `XCOLORRANGE=` parameters give the size, the bit depth and the default
    /// range. Then come frames to the end of the data, each a `FRAME` line
    /// (or an empty one) and its samples.
    #[verifier::spinoff_prover]
    #[verifier::rlimit(50)]
    pub fn try_all_from_y4m(data: &[u8]) -> (r: Result<Vec<FramePixels>, Y4mError>)
        requires
            !(y4m_spec(data@) is Unreadable),
        ensures
            match y4m_spec(data@) {
                Y4mParse::Frames(fs) => r is Ok && models_of(r->Ok_0@) == fs,
                Y4mParse::Refused(f) => r is Err && r->Err_0.fault() == f,
                Y4mParse::Unreadable => false,
            },
            r matches Ok(v) ==> forall|i: int| 0 <= i < v@.len() ==> #[trigger] v@[i].planes_fit(),
    {
        let ghost d = data@;
        let header_end = match find_newline(data, 0) {
            Some(i) => i,
            None => return Err(Y4mError::MissingHeader),
        };
        proof {
            lemma_nl_from(d, 0);
        }
        let header_bytes = &data[0..header_end];
        assert(header_bytes@ =~= d.take(header_end as int));
        let header = match utf8_chars(header_bytes) {
            Some(c) => c,
            None => return Err(Y4mError::InvalidHeaderUtf8),
        };
        let magic: [char; 9] = ['Y', 'U', 'V', '4', 'M', 'P', 'E', 'G', '2'];
        assert(magic@ =~= stream_magic());
        if !starts_with_chars(header.as_slice(), magic.as_slice()) {
            return Err(Y4mError::InvalidHeader("Not a YUV4MPEG2 file"));
        }
        let toks = split_whitespace_chars(header.as_slice());
        let (width, height, bit_depth, default_color_range) = match parse_header_fields(&toks) {
            Some(Ok(f)) => f,
            Some(Err(e)) => return Err(e),
            None => return Err(Y4mError::InvalidHeaderUtf8),
        };
        if width == 0 || height == 0 {
            return Err(Y4mError::InvalidDimensions);
        }
        let (y_size, uv_size, frame_size) = frame_sizes(width, height, bit_depth);
        let ghost w = width;
        let ghost h = height;
        let ghost target = frames_from(d, header_end + 1, w, h, bit_depth, default_color_range);
        let len = data.len();
        let mut frames: Vec<FramePixels> = Vec::new();
        let mut pos: usize = header_end + 1;
        assert(models_of(frames@) + seq![] =~= models_of(frames@));
        assert(prepend(models_of(frames@), target) == target) by {
            match target {
                FramesScan::Frames(r) => {
                    assert(models_of(frames@) + r =~= r);
                },
                FramesScan::Refused(_) => {},
            }
        }
        assert(y4m_spec(d) == match target {
            FramesScan::Refused(f) => Y4mParse::Refused(f),
            FramesScan::Frames(fs) => if fs.len() == 0 {
                Y4mParse::Refused(Y4mFault::NoFrameMarker)
            } else {
                Y4mParse::Frames(fs)
            },
        });
        while pos < len
            invariant
                len == d.len(),
                d == data@,
                y4m_spec(d) == match target {
                    FramesScan::Refused(f) => Y4mParse::Refused(f),
                    FramesScan::Frames(fs) => if fs.len() == 0 {
                        Y4mParse::Refused(Y4mFault::NoFrameMarker)
                    } else {
                        Y4mParse::Frames(fs)
                    },
                },
                w == width,
                h == height,
                w as int * h as int <= u32::MAX,
                y_size == w * h,
                uv_size == half_up(w as int) * half_up(h as int),
                frame_size == frame_bytes(w, h, bit_depth),
                uv_size <= y_size,
                target == prepend(
                    models_of(frames@),
                    frames_from(d, pos as int, w, h, bit_depth, default_color_range),
                ),
                forall|i: int| 0 <= i < frames@.len() ==> #[trigger] frames@[i].planes_fit(),
            decreases len - pos,
        {
            let line_end = match find_newline(data, pos) {
                Some(i) => i,
                None => return Err(Y4mError::TruncatedFrameData),
            };
            proof {
                lemma_nl_from(d, pos as int);
            }
            let line = &data[pos..line_end];
            assert(line@ =~= d.subrange(pos as int, line_end as int));
            let mut color_range = default_color_range;
            if line.len() > 0 {
                match parse_frame_header_line(line, default_color_range) {
                    Ok(c) => {
                        color_range = c;
                    },
                    Err(e) => {
                        return Err(e);
                    },
                }
            }
            let pixel_start = line_end + 1;
            if frame_size > (len - pixel_start) as u64 {
                return Err(Y4mError::TruncatedFrameData);
            }
            let ys = y_size as usize;
            let uvs = uv_size as usize;
            let fs = frame_size as usize;
            assert(pixel_start + fs <= len);
            assert(fs == (ys + 2 * uvs) * sample_bytes(bit_depth));
            assert(bit_depth == BitDepth::Ten ==> fs == 2 * ys + 4 * uvs);
            assert(bit_depth != BitDepth::Ten ==> fs == ys + 2 * uvs);
            let (y_off, u_off, v_off): (usize, usize, usize) = if bit_depth == BitDepth::Ten {
                (pixel_start, pixel_start + ys * 2, pixel_start + (ys + uvs) * 2)
            } else {
                (pixel_start, pixel_start + ys, pixel_start + ys + uvs)
            };
            assert(y_off + ys * sample_bytes(bit_depth) <= d.len());
            assert(u_off + uvs * sample_bytes(bit_depth) <= d.len());
            assert(v_off + uvs * sample_bytes(bit_depth) <= d.len());
            let y_plane = read_plane(data, y_off, ys, bit_depth);
            let u_plane = read_plane(data, u_off, uvs, bit_depth);
            let v_plane = read_plane(data, v_off, uvs, bit_depth);
            let frame = FramePixels {
                y: y_plane,
                u: u_plane,
                v: v_plane,
                width,
                height,
                bit_depth,
                color_range,
            };
            let ghost fm = frame_at(d, pixel_start as int, w, h, bit_depth, color_range);
            assert(frame.y@ == fm.y);
            assert(frame.u@ == fm.u);
            assert(frame.v@ == fm.v);
            assert(frame.model() == fm);
            let ghost before = frames@;
            proof {
                lemma_prepend_step(models_of(before), fm, frames_from(d, pixel_start + fs, w, h, bit_depth, default_color_range));
            }
            frames.push(frame);
            assert(models_of(frames@) =~= models_of(before).push(fm));
            pos = pixel_start + fs;
        }
        assert(frames_from(d, pos as int, w, h, bit_depth, default_color_range) == FramesScan::Frames(seq![]));
        assert(models_of(frames@) + seq![] =~= models_of(frames@));
        if frames.len() == 0 {
            return Err(Y4mError::NoFrameMarker);
        }
        Ok(frames)
    }

    /// Reads every frame of a Y4M stream that is known to be well formed.
    pub fn all_from_y4m(data: &[u8]) -> (r: Vec<FramePixels>)
        requires
            y4m_spec(data@) is Frames,
        ensures
            y4m_spec(data@) == Y4mParse::Frames(models_of(r@)),
    {
        match Self::try_all_from_y4m(data) {
            Ok(v) => v,
            Err(_) => Vec::new(),
        }
    }

    /// Reads the first frame of a Y4M stream.
    pub fn try_from_y4m(data: &[u8]) -> (r: Result<FramePixels, Y4mError>)
        requires
            !(y4m_spec(data@) is Unreadable),
        ensures
            match y4m_spec(data@) {
                Y4mParse::Frames(fs) => r is Ok && r->Ok_0.model() == fs[0],
                Y4mParse::Refused(f) => r is Err && r->Err_0.fault() == f,
                Y4mParse::Unreadable => false,
            },
    {
        let mut frames = Self::try_all_from_y4m(data)?;
        assert(frames@.len() > 0 ==> models_of(frames@)[0] == frames@[0].model());
        Ok(frames.swap_remove(0))
    }

    /// Reads the first frame of a Y4M stream that is known to be well formed.
    pub fn from_y4m(data: &[u8]) -> (r: FramePixels)
        requires
            y4m_spec(data@) is Frames,
        ensures
            y4m_spec(data@) matches Y4mParse::Frames(fs) && r.model() == fs[0],
    {
        let mut frames = Self::all_from_y4m(data);
        assert(models_of(frames@)[0] == frames@[0].model());
        frames.swap_remove(0)
    }
}


/// Whether the sample at column `px`, row `py` of a checkerboard with square
/// cells of side `cell` lies in a bright cell (the top-left cell is bright).
pub open spec fn grid_bright(px: int, py: int, cell: int) -> bool {
    (px / cell + py / cell) % 2 == 0
}

/// One plane of a checkerboard: `n` samples in rows of `row`, each sample
/// taken at `step` times its position, `b` in bright cells and `k` in dark ones.
fn checker_plane(n: u64, row: u64, step: u64, cell: u32, b: u16, k: u16) -> (r: Vec<u16>)
    requires
        cell > 0,
        row > 0,
        n <= u32::MAX,
        1 <= step <= 2,
    ensures
        r@.len() == n,
        forall|i: int|
            0 <= i < n ==> #[trigger] r@[i] == if grid_bright(
                step * (i % row as int),
                step * (i / row as int),
                cell as int,
            ) {
                b
            } else {
                k
            },
{
    let mut out: Vec<u16> = Vec::new();
    let mut i: u64 = 0;
    while i < n
        invariant
            i <= n,
            n <= u32::MAX,
            cell > 0,
            row > 0,
            1 <= step <= 2,
            out@.len() == i,
            forall|j: int|
                0 <= j < i ==> #[trigger] out@[j] == if grid_bright(
                    step * (j % row as int),
                    step * (j / row as int),
                    cell as int,
                ) {
                    b
                } else {
                    k
                },
        decreases n - i,
    {
        assert(i / row <= i && i % row <= i) by (nonlinear_arith)
            requires
                row > 0,
        ;
        let px = (i % row) * step;
        let py = (i / row) * step;
        let cell_x = px / cell as u64;
        let cell_y = py / cell as u64;
        if (cell_x + cell_y) % 2 == 0 {
            out.push(b);
        } else {
            out.push(k);
        }
        i += 1;
    }
    out
}

impl FramePixels {
    /// A checkerboard picture with square cells of side `cell_size`, the
    /// top-left cell bright; each chroma sample takes the colour of the luma
    /// sample at twice its position.
    pub fn grid(
        width: u32,
        height: u32,
        cell_size: u32,
        bright: [u16; 3],
        dark: [u16; 3],
        bit_depth: BitDepth,
        color_range: ColorRange,
    ) -> (r: FramePixels)
        requires
            cell_size > 0,
            width as int * height as int <= u32::MAX,
        ensures
            r.planes_fit(),
            r.width == width,
            r.height == height,
            r.bit_depth == bit_depth,
            r.color_range == color_range,
            forall|i: int|
                0 <= i < r.y@.len() ==> #[trigger] r.y@[i] == if grid_bright(
                    i % width as int,
                    i / width as int,
                    cell_size as int,
                ) {
                    bright[0]
                } else {
                    dark[0]
                },
            forall|i: int|
                0 <= i < r.u@.len() ==> #[trigger] r.u@[i] == if grid_bright(
                    2 * (i % half_up(width as int)),
                    2 * (i / half_up(width as int)),
                    cell_size as int,
                ) {
                    bright[1]
                } else {
                    dark[1]
                },
            forall|i: int|
                0 <= i < r.v@.len() ==> #[trigger] r.v@[i] == if grid_bright(
                    2 * (i % half_up(width as int)),
                    2 * (i / half_up(width as int)),
                    cell_size as int,
                ) {
                    bright[2]
                } else {
                    dark[2]
                },
    {
        let (y_size, uv_size, _) = frame_sizes(width, height, bit_depth);
        let uv_w = div_ceil2(width) as u64;
        if width == 0 || height == 0 {
            assert(y_size == 0 && uv_size == 0) by (nonlinear_arith)
                requires
                    width == 0 || height == 0,
                    y_size == width * height,
                    uv_size == half_up(width as int) * half_up(height as int),
            ;
            return FramePixels {
                y: Vec::new(),
                u: Vec::new(),
                v: Vec::new(),
                width,
                height,
                bit_depth,
                color_range,
            };
        }
        let y_plane = checker_plane(y_size, width as u64, 1, cell_size, bright[0], dark[0]);
        let u_plane = checker_plane(uv_size, uv_w, 2, cell_size, bright[1], dark[1]);
        let v_plane = checker_plane(uv_size, uv_w, 2, cell_size, bright[2], dark[2]);
        FramePixels {
            y: y_plane,
            u: u_plane,
            v: v_plane,
            width,
            height,
            bit_depth,
            color_range,
        }
    }
}

/// No line feed from `i` on exactly when `nl_from` finds none.
proof fn lemma_nl_from_none(d: Seq<u8>, i: int)
    requires
        0 <= i,
    ensures
        nl_from(d, i) < 0 <==> forall|j: int| i <= j < d.len() ==> d[j] != 10,
    decreases d.len() - i,
{
    if i < d.len() && d[i] != 10 {
        lemma_nl_from_none(d, i + 1);
    }
}

/// Reading header parameters never reports a missing header.
proof fn lemma_scan_header_has_header(toks: Seq<Seq<char>>, w: u32, h: u32, bd: BitDepth, cr: ColorRange)
    ensures
        scan_header(toks, w, h, bd, cr) != HeaderScan::Refused(Y4mFault::MissingHeader),
    decreases toks.len(),
{
    if toks.len() > 0 {
        let t = toks[0];
        let rest = toks.drop_first();
        match parse_u32_spec(t.drop_first()) {
            Some(n) => {
                lemma_scan_header_has_header(rest, n, h, bd, cr);
                lemma_scan_header_has_header(rest, w, n, bd, cr);
            },
            None => {},
        }
        match colorspace_spec(t.drop_first()) {
            Ok(b) => lemma_scan_header_has_header(rest, w, h, b, cr),
            Err(f) => {},
        }
        match range_token_spec(t) {
            Some(r) => lemma_scan_header_has_header(rest, w, h, bd, r),
            None => {},
        }
        lemma_scan_header_has_header(rest, w, h, bd, cr);
    }
}

/// Reading frames never reports a missing header.
proof fn lemma_frames_from_has_header(d: Seq<u8>, pos: int, w: u32, h: u32, bd: BitDepth, cr: ColorRange)
    ensures
        frames_from(d, pos, w, h, bd, cr) != FramesScan::Refused(Y4mFault::MissingHeader),
    decreases d.len() - pos,
{
    if 0 <= pos < d.len() {
        let nl = nl_from(d, pos);
        lemma_nl_from(d, pos);
        if nl >= 0 {
            let line = d.subrange(pos, nl);
            let fr = if line.len() == 0 { Ok(cr) } else { frame_line_spec(line, cr) };
            match fr {
                Ok(c) => {
                    let start = nl + 1;
                    let size = frame_bytes(w, h, bd);
                    if start + size <= d.len() {
                        assert(size >= 0) by (nonlinear_arith)
                            requires
                                size == frame_bytes(w, h, bd),
                                sample_bytes(bd) >= 1,
                                w * h >= 0,
                                half_up(w as int) >= 0,
                                half_up(h as int) >= 0,
                        ;
                        lemma_frames_from_has_header(d, start + size, w, h, bd, cr);
                    }
                },
                Err(f) => {},
            }
        }
    }
}

/// A stream is refused for a missing header exactly when it holds no line feed.
pub proof fn lemma_missing_header_iff_no_line_feed(d: Seq<u8>)
    ensures
        (y4m_spec(d) == Y4mParse::Refused(Y4mFault::MissingHeader)) <==> !d.contains(10u8),
{
    lemma_nl_from_none(d, 0);
    if nl_from(d, 0) >= 0 {
        let nl = nl_from(d, 0);
        lemma_nl_from(d, 0);
        assert(d.contains(10u8)) by {
            assert(d[nl] == 10);
        }
        if valid_utf8(d.take(nl)) && has_prefix(decode_utf8(d.take(nl)), stream_magic()) {
            let toks = after_first(ws_tokens(decode_utf8(d.take(nl))));
            lemma_scan_header_has_header(toks, 0, 0, BitDepth::Eight, ColorRange::Limited);
            match scan_header(toks, 0, 0, BitDepth::Eight, ColorRange::Limited) {
                HeaderScan::Fields(w, h, bd, cr) => {
                    lemma_frames_from_has_header(d, nl + 1, w, h, bd, cr);
                },
                _ => {},
            }
        }
    } else {
        assert(!d.contains(10u8)) by {
            if d.contains(10u8) {
                let j = choose|j: int| 0 <= j < d.len() && d[j] == 10u8;
                assert(d[j] != 10);
            }
        }
    }
}

} // verus!
