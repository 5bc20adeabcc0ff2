use vstd::prelude::*;
use crate::fps::{Fps, FpsError, gcd_u32, fps_error_text};
use crate::text::{str_chars, join_message, decimal_chars, decimal_text, append_chars, string_from_chars};
use crate::video::{
    BitDepth, ColorDescription, ColorRange, ContentLightLevel, MasteringDisplayMetadata, VideoSignal,
};

verus! {

/// The encoder settings as C callers fill them in: flags are 0 or 1, a
/// colour code point of -1 is left out, and zero disables what it sizes.
pub struct Wav1cConfig {
    pub base_q_idx: u8,
    pub keyint: usize,
    pub target_bitrate: u64,
    pub fps_num: u32,
    pub fps_den: u32,
    pub b_frames: i32,
    pub gop_size: usize,
    pub bit_depth: u8,
    pub color_range: i32,
    pub color_primaries: i32,
    pub transfer_characteristics: i32,
    pub matrix_coefficients: i32,
    pub has_cll: i32,
    pub max_cll: u16,
    pub max_fall: u16,
    pub has_mdcv: i32,
    pub red_x: u16,
    pub red_y: u16,
    pub green_x: u16,
    pub green_y: u16,
    pub blue_x: u16,
    pub blue_y: u16,
    pub white_x: u16,
    pub white_y: u16,
    pub max_luminance: u32,
    pub min_luminance: u32,
}

/// Rate-control statistics as C callers read them.
pub struct Wav1cRateControlStats {
    pub target_bitrate: u64,
    pub frames_encoded: u64,
    pub buffer_fullness_pct: u32,
    pub avg_qp: u8,
}

/// Rate-control statistics.
#[derive(Debug, Clone, Copy, PartialEq, Eq, Structural)]
pub struct RateControlStats {
    pub target_bitrate: u64,
    pub frames_encoded: u64,
    pub buffer_fullness_pct: u32,
    pub avg_qp: u8,
}

/// The settings of an encoder.
#[derive(Debug, Clone, Copy, PartialEq, Eq)]
pub struct EncoderConfig {
    pub base_q_idx: u8,
    pub keyint: usize,
    pub target_bitrate: Option<u64>,
    pub fps: Fps,
    pub b_frames: bool,
    pub gop_size: usize,
    pub video_signal: VideoSignal,
    pub content_light: Option<ContentLightLevel>,
    pub mastering_display: Option<MasteringDisplayMetadata>,
}

/// Why an encoder refused its settings or a frame.
#[derive(Debug, Clone, Copy, PartialEq, Eq)]
pub enum EncoderError {
    InvalidDimensions { width: u32, height: u32 },
    DimensionMismatch { expected_w: u32, expected_h: u32, got_w: u32, got_h: u32 },
    UnsupportedBitDepth { bit_depth: u8 },
    FrameBitDepthMismatch { expected: u8, got: u8 },
    SampleOutOfRange { bit_depth: u8, sample: u16 },
    InvalidHdrMetadata { reason: &'static str },
}

/// Reads a 0/1 flag.
pub fn parse_flag(name: &str, value: i32) -> (r: Result<bool, String>)
    ensures
        value == 0 ==> r == Ok::<bool, String>(false),
        value == 1 ==> r == Ok::<bool, String>(true),
        value != 0 && value != 1 ==> (r matches Err(m) && m@ == name@ + " must be 0 or 1"@),
{
    match value {
        0 => Ok(false),
        1 => Ok(true),
        _ => {
            let n = str_chars(name);
            proof {
                reveal_strlit("");
            }
            Err(join_message("", n.as_slice(), " must be 0 or 1"))
        },
    }
}

/// Reads a colour range code: 0 limited, 1 full.
pub fn parse_color_range(v: i32) -> (r: Result<ColorRange, String>)
    ensures
        v == 0 ==> r == Ok::<ColorRange, String>(ColorRange::Limited),
        v == 1 ==> r == Ok::<ColorRange, String>(ColorRange::Full),
        v != 0 && v != 1 ==> (r matches Err(m) && m@ == "color_range must be 0 (limited) or 1 (full)"@),
{
    match v {
        0 => Ok(ColorRange::Limited),
        1 => Ok(ColorRange::Full),
        _ => Err(String::from_str("color_range must be 0 (limited) or 1 (full)")),
    }
}

/// Reads a colour code point, which must fit in a byte.
pub fn parse_code_point(name: &str, value: i32) -> (r: Result<u8, String>)
    ensures
        0 <= value <= 255 ==> r == Ok::<u8, String>(value as u8),
        !(0 <= value <= 255) ==> (r matches Err(m) && m@ == name@ + " must be in 0..=255"@),
{
    if 0 <= value && value <= 255 {
        Ok(value as u8)
    } else {
        let n = str_chars(name);
        proof {
            reveal_strlit("");
        }
        Err(join_message("", n.as_slice(), " must be in 0..=255"))
    }
}

/// The colour description of a configuration: none when all three code
/// points are -1, all three when each is in 0..=255; anything else is
/// refused.
pub open spec fn color_description_spec(cfg: Wav1cConfig) -> Option<Option<ColorDescription>> {
    let a = cfg.color_primaries;
    let b = cfg.transfer_characteristics;
    let c = cfg.matrix_coefficients;
    if a < -1 || b < -1 || c < -1 {
        None
    } else if a == -1 && b == -1 && c == -1 {
        Some(None)
    } else if a >= 0 && b >= 0 && c >= 0 && a <= 255 && b <= 255 && c <= 255 {
        Some(
            Some(
                ColorDescription {
                    color_primaries: a as u8,
                    transfer_characteristics: b as u8,
                    matrix_coefficients: c as u8,
                },
            ),
        )
    } else {
        None
    }
}

/// Reads the colour description of a configuration.
pub fn parse_color_description(cfg: &Wav1cConfig) -> (r: Result<Option<ColorDescription>, String>)
    ensures
        match color_description_spec(*cfg) {
            Some(d) => r == Ok::<Option<ColorDescription>, String>(d),
            None => r is Err,
        },
{
    let a = cfg.color_primaries;
    let b = cfg.transfer_characteristics;
    let c = cfg.matrix_coefficients;
    if a < -1 || b < -1 || c < -1 {
        return Err(String::from_str(
            "color_primaries, transfer_characteristics, and matrix_coefficients must be -1 or in 0..=255",
        ));
    }
    let provided: usize = (if a >= 0 {
        1usize
    } else {
        0usize
    }) + (if b >= 0 {
        1usize
    } else {
        0usize
    }) + (if c >= 0 {
        1usize
    } else {
        0usize
    });
    if provided == 0 {
        return Ok(None);
    }
    if provided != 3 {
        return Err(String::from_str(
            "color_primaries, transfer_characteristics, and matrix_coefficients must be provided together",
        ));
    }
    let color_primaries = parse_code_point("color_primaries", a)?;
    let transfer_characteristics = parse_code_point("transfer_characteristics", b)?;
    let matrix_coefficients = parse_code_point("matrix_coefficients", c)?;
    Ok(Some(ColorDescription { color_primaries, transfer_characteristics, matrix_coefficients }))
}

/// The content light level of a configuration.
pub open spec fn content_light_spec(cfg: Wav1cConfig) -> Option<Option<ContentLightLevel>> {
    if cfg.has_cll == 1 {
        Some(
            Some(
                ContentLightLevel {
                    max_content_light_level: cfg.max_cll,
                    max_frame_average_light_level: cfg.max_fall,
                },
            ),
        )
    } else if cfg.has_cll == 0 && cfg.max_cll == 0 && cfg.max_fall == 0 {
        Some(None)
    } else {
        None
    }
}

/// Reads the content light level of a configuration.
pub fn parse_content_light(cfg: &Wav1cConfig) -> (r: Result<Option<ContentLightLevel>, String>)
    ensures
        match content_light_spec(*cfg) {
            Some(d) => r == Ok::<Option<ContentLightLevel>, String>(d),
            None => r is Err,
        },
{
    let has_cll = parse_flag("has_cll", cfg.has_cll)?;
    if !has_cll {
        if cfg.max_cll != 0 || cfg.max_fall != 0 {
            return Err(String::from_str("max_cll/max_fall require has_cll=1"));
        }
        return Ok(None);
    }
    Ok(Some(ContentLightLevel { max_content_light_level: cfg.max_cll, max_frame_average_light_level: cfg.max_fall }))
}

/// The configuration's MDCV fields are all zero.
pub open spec fn mdcv_fields_zero(cfg: Wav1cConfig) -> bool {
    cfg.red_x == 0 && cfg.red_y == 0 && cfg.green_x == 0 && cfg.green_y == 0 && cfg.blue_x == 0
        && cfg.blue_y == 0 && cfg.white_x == 0 && cfg.white_y == 0 && cfg.max_luminance == 0
        && cfg.min_luminance == 0
}

/// The mastering display metadata of a configuration.
pub open spec fn mastering_display_spec(cfg: Wav1cConfig) -> Option<Option<MasteringDisplayMetadata>> {
    if cfg.has_mdcv == 1 {
        Some(
            Some(
                MasteringDisplayMetadata {
                    primaries: [[cfg.red_x, cfg.red_y], [cfg.green_x, cfg.green_y], [cfg.blue_x, cfg.blue_y]],
                    white_point: [cfg.white_x, cfg.white_y],
                    max_luminance: cfg.max_luminance,
                    min_luminance: cfg.min_luminance,
                },
            ),
        )
    } else if cfg.has_mdcv == 0 && mdcv_fields_zero(cfg) {
        Some(None)
    } else {
        None
    }
}

/// Reads the mastering display metadata of a configuration.
pub fn parse_mastering_display(cfg: &Wav1cConfig) -> (r: Result<Option<MasteringDisplayMetadata>, String>)
    ensures
        match mastering_display_spec(*cfg) {
            Some(d) => r == Ok::<Option<MasteringDisplayMetadata>, String>(d),
            None => r is Err,
        },
{
    let has_mdcv = parse_flag("has_mdcv", cfg.has_mdcv)?;
    if !has_mdcv {
        if cfg.red_x != 0 || cfg.red_y != 0 || cfg.green_x != 0 || cfg.green_y != 0 || cfg.blue_x != 0
            || cfg.blue_y != 0 || cfg.white_x != 0 || cfg.white_y != 0 || cfg.max_luminance != 0
            || cfg.min_luminance != 0 {
            return Err(String::from_str("MDCV fields require has_mdcv=1"));
        }
        return Ok(None);
    }
    Ok(Some(MasteringDisplayMetadata {
        primaries: [[cfg.red_x, cfg.red_y], [cfg.green_x, cfg.green_y], [cfg.blue_x, cfg.blue_y]],
        white_point: [cfg.white_x, cfg.white_y],
        max_luminance: cfg.max_luminance,
        min_luminance: cfg.min_luminance,
    }))
}

/// The encoder settings that a C configuration gives, where every part of
/// it is well formed.
pub open spec fn encoder_config_spec(cfg: Wav1cConfig) -> Option<EncoderConfig> {
    let bd = if cfg.bit_depth == 8 {
        Some(BitDepth::Eight)
    } else if cfg.bit_depth == 10 {
        Some(BitDepth::Ten)
    } else {
        None
    };
    let cr = if cfg.color_range == 0 {
        Some(ColorRange::Limited)
    } else if cfg.color_range == 1 {
        Some(ColorRange::Full)
    } else {
        None
    };
    match (bd, cr, color_description_spec(cfg), content_light_spec(cfg), mastering_display_spec(cfg)) {
        (Some(b), Some(c), Some(d), Some(l), Some(m)) => if cfg.fps_num != 0 && cfg.fps_den != 0 {
            Some(
                EncoderConfig {
                    base_q_idx: cfg.base_q_idx,
                    keyint: cfg.keyint,
                    target_bitrate: if cfg.target_bitrate == 0 {
                        None
                    } else {
                        Some(cfg.target_bitrate)
                    },
                    fps: Fps {
                        num: cfg.fps_num / gcd_u32(cfg.fps_num, cfg.fps_den),
                        den: cfg.fps_den / gcd_u32(cfg.fps_num, cfg.fps_den),
                    },
                    b_frames: cfg.b_frames != 0,
                    gop_size: if cfg.gop_size > 0 {
                        cfg.gop_size
                    } else {
                        3
                    },
                    video_signal: VideoSignal { bit_depth: b, color_range: c, color_description: d },
                    content_light: l,
                    mastering_display: m,
                },
            )
        } else {
            None
        },
        _ => None,
    }
}

/// The message for an unsupported bit depth.
pub open spec fn bit_depth_text(bit_depth: u8) -> Seq<char> {
    "bit_depth must be 8 or 10 (got "@ + decimal_text(bit_depth as nat) + ")"@
}

/// The message for an unsupported bit depth.
fn bit_depth_message(bit_depth: u8) -> (r: String)
    ensures
        r@ == bit_depth_text(bit_depth),
{
    let d = decimal_chars(bit_depth as u64);
    join_message("bit_depth must be 8 or 10 (got ", d.as_slice(), ")")
}

/// Turns a C configuration into encoder settings; a zero target bitrate
/// means none, a zero GOP size means 3.
pub fn build_encoder_config(cfg: &Wav1cConfig) -> (r: Result<EncoderConfig, String>)
    ensures
        match encoder_config_spec(*cfg) {
            Some(c) => r == Ok::<EncoderConfig, String>(c),
            None => r is Err,
        },
        cfg.bit_depth != 8 && cfg.bit_depth != 10 ==> (r matches Err(m) && m@ == bit_depth_text(cfg.bit_depth)),
{
    let bit_depth = match BitDepth::from_u8(cfg.bit_depth) {
        Some(b) => b,
        None => return Err(bit_depth_message(cfg.bit_depth)),
    };
    let color_range = parse_color_range(cfg.color_range)?;
    let color_description = parse_color_description(cfg)?;
    let content_light = parse_content_light(cfg)?;
    let mastering_display = parse_mastering_display(cfg)?;
    let fps = match Fps::new(cfg.fps_num, cfg.fps_den) {
        Ok(f) => f,
        Err(e) => return Err(e.message()),
    };
    Ok(EncoderConfig {
        base_q_idx: cfg.base_q_idx,
        keyint: cfg.keyint,
        target_bitrate: if cfg.target_bitrate == 0 {
            None
        } else {
            Some(cfg.target_bitrate)
        },
        fps,
        b_frames: cfg.b_frames != 0,
        gop_size: if cfg.gop_size > 0 {
            cfg.gop_size
        } else {
            3
        },
        video_signal: VideoSignal { bit_depth, color_range, color_description },
        content_light,
        mastering_display,
    })
}

/// The message for a stride narrower than its plane.
pub open spec fn stride_text(label: Seq<char>, stride: usize, width: usize) -> Seq<char> {
    label + " stride ("@ + decimal_text(stride as nat) + ") must be >= plane width ("@ + decimal_text(width as nat)
        + ")"@
}

/// The message for a stride narrower than its plane.
fn stride_message(label: &str, stride: usize, width: usize) -> (r: String)
    ensures
        r@ == stride_text(label@, stride, width),
{
    let mut cs = str_chars(label);
    append_chars(&mut cs, str_chars(" stride (").as_slice());
    append_chars(&mut cs, decimal_chars(stride as u64).as_slice());
    append_chars(&mut cs, str_chars(") must be >= plane width (").as_slice());
    append_chars(&mut cs, decimal_chars(width as u64).as_slice());
    append_chars(&mut cs, str_chars(")").as_slice());
    string_from_chars(cs.as_slice())
}

/// Reads a plane stride: zero or negative means the plane's width.
pub fn parse_stride(stride: i32, default_width: usize, label: &str) -> (r: Result<usize, String>)
    ensures
        stride <= 0 ==> r == Ok::<usize, String>(default_width),
        stride > 0 && stride >= default_width ==> r == Ok::<usize, String>(stride as usize),
        stride > 0 && stride < default_width ==> (r matches Err(m) && m@ == stride_text(
            label@,
            stride as usize,
            default_width,
        )),
{
    if stride <= 0 {
        return Ok(default_width);
    }
    let s = stride as usize;
    if s < default_width {
        return Err(stride_message(label, s, default_width));
    }
    Ok(s)
}

/// The message for a plane whose size overflowed.
fn overflow_message(label: &str) -> (r: String)
    ensures
        r@ == label@ + " plane dimensions overflowed"@,
{
    proof {
        reveal_strlit("");
    }
    let cs = str_chars(label);
    let r = join_message("", cs.as_slice(), " plane dimensions overflowed");
    assert(""@ + label@ =~= label@);
    r
}

/// The message for an empty plane.
fn empty_plane_message(label: &str) -> (r: String)
    ensures
        r@ == label@ + " plane dimensions must be non-zero"@,
{
    proof {
        reveal_strlit("");
    }
    let cs = str_chars(label);
    let r = join_message("", cs.as_slice(), " plane dimensions must be non-zero");
    assert(""@ + label@ =~= label@);
    r
}

/// The samples a strided plane needs: every row but the last at full
/// stride, then one width.
pub fn required_plane_len(width: usize, height: usize, stride: usize, label: &str) -> (r: Result<usize, String>)
    ensures
        (width == 0 || height == 0) ==> (r matches Err(m) && m@ == label@ + " plane dimensions must be non-zero"@),
        (width != 0 && height != 0) ==> match r {
            Ok(n) => n == (height - 1) * stride + width,
            Err(m) => (height - 1) * stride + width > usize::MAX && m@ == label@ + " plane dimensions overflowed"@,
        },
{
    proof {
        reveal_strlit("");
    }
    if width == 0 || height == 0 {
        return Err(empty_plane_message(label));
    }
    let row_offsets = match (height - 1).checked_mul(stride) {
        Some(v) => v,
        None => {
            assert((height - 1) * stride + width > usize::MAX) by (nonlinear_arith)
                requires
                    (height - 1) * stride > usize::MAX,
            ;
            return Err(overflow_message(label));
        },
    };
    match row_offsets.checked_add(width) {
        Some(v) => Ok(v),
        None => Err(overflow_message(label)),
    }
}

/// The message for a plane buffer that is too short.
pub open spec fn short_plane_text(label: Seq<char>, len: usize, required: usize, width: usize, height: usize, stride: usize) -> Seq<char> {
    label + " plane length too small: got "@ + decimal_text(len as nat) + ", need at least "@ + decimal_text(
        required as nat,
    ) + " samples for width="@ + decimal_text(width as nat) + ", height="@ + decimal_text(height as nat)
        + ", stride="@ + decimal_text(stride as nat)
}

/// The message for a plane buffer that is too short.
fn short_plane_message(label: &str, len: usize, required: usize, width: usize, height: usize, stride: usize) -> (r: String)
    ensures
        r@ == short_plane_text(label@, len, required, width, height, stride),
{
    let mut cs = str_chars(label);
    append_chars(&mut cs, str_chars(" plane length too small: got ").as_slice());
    append_chars(&mut cs, decimal_chars(len as u64).as_slice());
    append_chars(&mut cs, str_chars(", need at least ").as_slice());
    append_chars(&mut cs, decimal_chars(required as u64).as_slice());
    append_chars(&mut cs, str_chars(" samples for width=").as_slice());
    append_chars(&mut cs, decimal_chars(width as u64).as_slice());
    append_chars(&mut cs, str_chars(", height=").as_slice());
    append_chars(&mut cs, decimal_chars(height as u64).as_slice());
    append_chars(&mut cs, str_chars(", stride=").as_slice());
    append_chars(&mut cs, decimal_chars(stride as u64).as_slice());
    string_from_chars(cs.as_slice())
}

/// Checks that a buffer of `len` samples holds a strided plane.
pub fn validate_plane_layout(width: usize, height: usize, stride: usize, len: usize, label: &str) -> (r: Result<(), String>)
    ensures
        r is Ok <==> width != 0 && height != 0 && (height - 1) * stride + width <= len,
        (width == 0 || height == 0) ==> (r matches Err(m) && m@ == label@ + " plane dimensions must be non-zero"@),
        width != 0 && height != 0 && (height - 1) * stride + width > usize::MAX ==> (r matches Err(m) && m@ == label@
            + " plane dimensions overflowed"@),
        width != 0 && height != 0 && len < (height - 1) * stride + width <= usize::MAX ==> (r matches Err(m) && m@
            == short_plane_text(label@, len, ((height - 1) * stride + width) as usize, width, height, stride)),
{
    let required = required_plane_len(width, height, stride, label)?;
    if len < required {
        return Err(short_plane_message(label, len, required, width, height, stride));
    }
    Ok(())
}

/// The samples of a packed plane.
pub fn packed_samples(width: usize, height: usize, label: &str) -> (r: Result<usize, String>)
    ensures
        width * height <= usize::MAX ==> r == Ok::<usize, String>((width * height) as usize),
        width * height > usize::MAX ==> (r matches Err(m) && m@ == label@ + " plane dimensions overflowed"@),
{
    match width.checked_mul(height) {
        Some(v) => Ok(v),
        None => Err(overflow_message(label)),
    }
}

/// The samples of row `r`, column `c` of a strided plane, widened, row by row.
pub open spec fn packed_plane(src: Seq<u8>, width: int, stride: int, n: int) -> Seq<u16> {
    Seq::new(n as nat, |i: int| src[(i / width) * stride + i % width] as u16)
}

/// Copies a strided 8-bit plane into a packed 16-bit one, after checking its
/// layout against the buffer.
pub fn pack_u8_plane(src: &[u8], width: usize, height: usize, stride: usize) -> (r: Result<Vec<u16>, String>)
    ensures
        r is Ok <==> width != 0 && height != 0 && (height - 1) * stride + width <= src@.len(),
        r matches Ok(v) ==> v@ == packed_plane(src@, width as int, stride as int, width * height),
{
    validate_plane_layout(width, height, stride, src.len(), "u8")?;
    let slen = src.len();
    let mut packed: Vec<u16> = Vec::new();
    let mut row: usize = 0;
    while row < height
        invariant
            width >= 1,
            height >= 1,
            slen == src@.len(),
            (height - 1) * stride + width <= slen,
            row <= height,
            packed@.len() == row * width,
            forall|i: int| 0 <= i < row * width ==> #[trigger] packed@[i] == packed_plane(src@, width as int, stride as int, width * height)[i],
        decreases height - row,
    {
        let mut col: usize = 0;
        assert(row * stride <= (height - 1) * stride) by (nonlinear_arith)
            requires
                row < height,
        ;
        while col < width
            invariant
                width >= 1,
                height >= 1,
                slen == src@.len(),
                (height - 1) * stride + width <= slen,
                row < height,
                row * stride <= (height - 1) * stride,
                col <= width,
                packed@.len() == row * width + col,
                forall|i: int| 0 <= i < row * width + col ==> #[trigger] packed@[i] == packed_plane(src@, width as int, stride as int, width * height)[i],
            decreases width - col,
        {
            let ghost k = (row * width + col) as int;
            assert(k < width * height && k / (width as int) == row && k % (width as int) == col) by (nonlinear_arith)
                requires
                    k == row * width + col,
                    col < width,
                    row < height,
            ;
            packed.push(src[row * stride + col] as u16);
            col += 1;
        }
        assert((row + 1) * width == row * width + width) by (nonlinear_arith);
        row += 1;
    }
    assert(row * width == width * height) by (nonlinear_arith)
        requires
            row == height,
    ;
    assert(packed@ =~= packed_plane(src@, width as int, stride as int, width * height));
    Ok(packed)
}

/// The samples of a strided plane, row by row.
pub open spec fn packed_plane16(src: Seq<u16>, width: int, stride: int, n: int) -> Seq<u16> {
    Seq::new(n as nat, |i: int| src[(i / width) * stride + i % width])
}

/// Copies a strided 16-bit plane into a packed one, after checking its
/// layout against the buffer.
pub fn pack_u16_plane(src: &[u16], width: usize, height: usize, stride: usize) -> (r: Result<Vec<u16>, String>)
    ensures
        r is Ok <==> width != 0 && height != 0 && (height - 1) * stride + width <= src@.len(),
        r matches Ok(v) ==> v@ == packed_plane16(src@, width as int, stride as int, width * height),
{
    validate_plane_layout(width, height, stride, src.len(), "u16")?;
    let slen = src.len();
    let mut packed: Vec<u16> = Vec::new();
    let mut row: usize = 0;
    while row < height
        invariant
            width >= 1,
            height >= 1,
            slen == src@.len(),
            (height - 1) * stride + width <= slen,
            row <= height,
            packed@.len() == row * width,
            forall|i: int| 0 <= i < row * width ==> #[trigger] packed@[i] == packed_plane16(src@, width as int, stride as int, width * height)[i],
        decreases height - row,
    {
        let mut col: usize = 0;
        assert(row * stride <= (height - 1) * stride) by (nonlinear_arith)
            requires
                row < height,
        ;
        while col < width
            invariant
                width >= 1,
                height >= 1,
                slen == src@.len(),
                (height - 1) * stride + width <= slen,
                row < height,
                row * stride <= (height - 1) * stride,
                col <= width,
                packed@.len() == row * width + col,
                forall|i: int| 0 <= i < row * width + col ==> #[trigger] packed@[i] == packed_plane16(src@, width as int, stride as int, width * height)[i],
            decreases width - col,
        {
            let ghost k = (row * width + col) as int;
            assert(k < width * height && k / (width as int) == row && k % (width as int) == col) by (nonlinear_arith)
                requires
                    k == row * width + col,
                    col < width,
                    row < height,
            ;
            packed.push(src[row * stride + col]);
            col += 1;
        }
        assert((row + 1) * width == row * width + width) by (nonlinear_arith);
        row += 1;
    }
    assert(row * width == width * height) by (nonlinear_arith)
        requires
            row == height,
    ;
    assert(packed@ =~= packed_plane16(src@, width as int, stride as int, width * height));
    Ok(packed)
}

} // verus!
