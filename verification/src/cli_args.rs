use vstd::prelude::*;
use crate::cli::{
    parse_fps_spec, parse_fps, parse_bitrate_spec, parse_bitrate, bitrate_fits,
    parse_color_range_spec, parse_color_range, parse_bit_depth_spec, parse_bit_depth,
    parse_mdcv_spec, parse_mdcv,
};
use crate::ffi_config::EncoderConfig;
use crate::fps::{Fps, default_fps};
use crate::text::{parse_decimal_spec, parse_decimal_chars, eq_chars, str_chars, string_from_chars, join_message};
use crate::video::{
    BitDepth, ColorDescription, ContentLightLevel, MasteringDisplayMetadata, VideoSignal,
    default_video_signal,
};
use crate::{DEFAULT_BASE_Q_IDX, DEFAULT_KEYINT};

verus! {

/// Where the frames to encode come from.
#[derive(Debug, Clone, PartialEq, Eq)]
pub enum InputMode {
    Y4m(String),
    Solid { width: u32, height: u32, y: u16, u: u16, v: u16 },
    Grid { width: u32, height: u32 },
    Heic(String),
}

/// What the command line asks for.
#[derive(Debug, Clone)]
pub struct CliArgs {
    pub input: InputMode,
    pub output_path: String,
    pub config: EncoderConfig,
    pub fps_explicit: bool,
    pub bit_depth_explicit: bool,
    pub color_range_explicit: bool,
    pub color_description_explicit: bool,
    pub hdr10_requested: bool,
}

/// Why a command line was refused: it fits no usage line, a value is
/// invalid (with the message to print after `Error: `), or a `--bitrate`
/// value overflows 64 bits once its suffix is applied.
#[derive(Debug, Clone, PartialEq, Eq)]
pub enum CliError {
    Usage,
    Invalid(String),
    BitrateOverflow,
}

/// An input, with its paths as characters.
pub enum InputView {
    Y4m(Seq<char>),
    Solid { width: u32, height: u32, y: u16, u: u16, v: u16 },
    Grid { width: u32, height: u32 },
    Heic(Seq<char>),
}

/// A command line's request, with its texts as characters.
pub struct CliView {
    pub input: InputView,
    pub output_path: Seq<char>,
    pub config: EncoderConfig,
    pub fps_explicit: bool,
    pub bit_depth_explicit: bool,
    pub color_range_explicit: bool,
    pub color_description_explicit: bool,
    pub hdr10_requested: bool,
}

/// Which way a command line fails.
pub enum CliFault {
    Usage,
    Invalid,
    BitrateOverflow,
}

impl InputMode {
    pub open spec fn view(&self) -> InputView {
        match *self {
            InputMode::Y4m(p) => InputView::Y4m(p@),
            InputMode::Solid { width, height, y, u, v } => InputView::Solid { width, height, y, u, v },
            InputMode::Grid { width, height } => InputView::Grid { width, height },
            InputMode::Heic(p) => InputView::Heic(p@),
        }
    }
}

impl CliArgs {
    pub open spec fn view(&self) -> CliView {
        CliView {
            input: self.input.view(),
            output_path: self.output_path@,
            config: self.config,
            fps_explicit: self.fps_explicit,
            bit_depth_explicit: self.bit_depth_explicit,
            color_range_explicit: self.color_range_explicit,
            color_description_explicit: self.color_description_explicit,
            hdr10_requested: self.hdr10_requested,
        }
    }
}

/// What the options read so far have set.
pub struct CliScan {
    pub positional: Seq<Seq<char>>,
    pub output: Option<Seq<char>>,
    pub config: EncoderConfig,
    pub fps_explicit: bool,
    pub bit_depth_explicit: bool,
    pub color_range_explicit: bool,
    pub hdr10: bool,
    pub cp: Option<u8>,
    pub tc: Option<u8>,
    pub mc: Option<u8>,
    pub max_cll: Option<u16>,
    pub max_fall: Option<u16>,
    pub mdcv: Option<MasteringDisplayMetadata>,
    pub pattern: Option<Seq<char>>,
}

/// Why reading the options stopped.
pub enum ScanStop {
    Invalid,
    BitrateOverflow,
}

/// The settings before any option: quantizer 128, keyframes every 25
/// frames, no target bitrate, 25 frames per second, no B-frames, groups of
/// three, the default signal and no HDR metadata.
pub open spec fn default_encoder_config() -> EncoderConfig {
    EncoderConfig {
        base_q_idx: 128,
        keyint: 25,
        target_bitrate: None,
        fps: default_fps(),
        b_frames: false,
        gop_size: 3,
        video_signal: default_video_signal(),
        content_light: None,
        mastering_display: None,
    }
}

/// Nothing read yet.
pub open spec fn initial_scan() -> CliScan {
    CliScan {
        positional: seq![],
        output: None,
        config: default_encoder_config(),
        fps_explicit: false,
        bit_depth_explicit: false,
        color_range_explicit: false,
        hdr10: false,
        cp: None,
        tc: None,
        mc: None,
        max_cll: None,
        max_fall: None,
        mdcv: None,
        pattern: None,
    }
}

/// The word at `j`, or the empty text past the end.
pub open spec fn value_at(args: Seq<Seq<char>>, j: int) -> Seq<char> {
    if 0 <= j < args.len() {
        args[j]
    } else {
        ""@
    }
}

/// The effect of the word `a`, whose successor is `v`: the new state and
/// whether `v` was taken as the option's value.
pub open spec fn scan_step(st: CliScan, a: Seq<char>, v: Seq<char>) -> Result<(CliScan, bool), ScanStop> {
    let c = st.config;
    if a == "-o"@ {
        Ok((CliScan { output: Some(v), ..st }, true))
    } else if a == "-q"@ {
        match parse_decimal_spec(v, 255) {
            Some(q) => Ok((CliScan { config: EncoderConfig { base_q_idx: q as u8, ..c }, ..st }, true)),
            None => Err(ScanStop::Invalid),
        }
    } else if a == "--keyint"@ {
        match parse_decimal_spec(v, usize::MAX as u64) {
            Some(k) => Ok((CliScan { config: EncoderConfig { keyint: k as usize, ..c }, ..st }, true)),
            None => Err(ScanStop::Invalid),
        }
    } else if a == "--bitrate"@ {
        match parse_bitrate_spec(v) {
            Some(b) => if b <= u64::MAX {
                Ok((CliScan { config: EncoderConfig { target_bitrate: Some(b as u64), ..c }, ..st }, true))
            } else {
                Err(ScanStop::BitrateOverflow)
            },
            None => Err(ScanStop::Invalid),
        }
    } else if a == "--fps"@ {
        match parse_fps_spec(v) {
            Some(f) => Ok((CliScan { config: EncoderConfig { fps: f, ..c }, fps_explicit: true, ..st }, true)),
            None => Err(ScanStop::Invalid),
        }
    } else if a == "--bit-depth"@ {
        match parse_bit_depth_spec(v) {
            Some(b) => Ok((
                CliScan {
                    config: EncoderConfig { video_signal: VideoSignal { bit_depth: b, ..c.video_signal }, ..c },
                    bit_depth_explicit: true,
                    ..st
                },
                true,
            )),
            None => Err(ScanStop::Invalid),
        }
    } else if a == "--hdr10"@ {
        Ok((CliScan { hdr10: true, ..st }, false))
    } else if a == "--color-range"@ {
        match parse_color_range_spec(v) {
            Some(r) => Ok((
                CliScan {
                    config: EncoderConfig { video_signal: VideoSignal { color_range: r, ..c.video_signal }, ..c },
                    color_range_explicit: true,
                    ..st
                },
                true,
            )),
            None => Err(ScanStop::Invalid),
        }
    } else if a == "--color-primaries"@ {
        match parse_decimal_spec(v, 255) {
            Some(x) => Ok((CliScan { cp: Some(x as u8), ..st }, true)),
            None => Err(ScanStop::Invalid),
        }
    } else if a == "--transfer"@ {
        match parse_decimal_spec(v, 255) {
            Some(x) => Ok((CliScan { tc: Some(x as u8), ..st }, true)),
            None => Err(ScanStop::Invalid),
        }
    } else if a == "--matrix"@ {
        match parse_decimal_spec(v, 255) {
            Some(x) => Ok((CliScan { mc: Some(x as u8), ..st }, true)),
            None => Err(ScanStop::Invalid),
        }
    } else if a == "--max-cll"@ {
        match parse_decimal_spec(v, 0xffff) {
            Some(x) => Ok((CliScan { max_cll: Some(x as u16), ..st }, true)),
            None => Err(ScanStop::Invalid),
        }
    } else if a == "--max-fall"@ {
        match parse_decimal_spec(v, 0xffff) {
            Some(x) => Ok((CliScan { max_fall: Some(x as u16), ..st }, true)),
            None => Err(ScanStop::Invalid),
        }
    } else if a == "--mdcv"@ {
        match parse_mdcv_spec(v) {
            Some(m) => Ok((CliScan { mdcv: Some(m), ..st }, true)),
            None => Err(ScanStop::Invalid),
        }
    } else if a == "--pattern"@ {
        Ok((CliScan { pattern: Some(v), ..st }, true))
    } else {
        Ok((CliScan { positional: st.positional.push(a), ..st }, false))
    }
}

/// Reads the words from `i` on, starting from `st`.
pub open spec fn scan_from(args: Seq<Seq<char>>, i: int, st: CliScan) -> Result<CliScan, ScanStop>
    decreases args.len() - i,
{
    if i < 0 || i >= args.len() {
        Ok(st)
    } else {
        match scan_step(st, args[i], value_at(args, i + 1)) {
            Ok((next, took)) => {
                let j = if took { i + 2 } else { i + 1 };
                if j >= args.len() {
                    Ok(next)
                } else {
                    scan_from(args, j, next)
                }
            },
            Err(e) => Err(e),
        }
    }
}

/// `s` ends with `p`.
pub open spec fn has_suffix(s: Seq<char>, p: Seq<char>) -> bool {
    p.len() <= s.len() && s.skip(s.len() - p.len()) == p
}

/// The input that the positional words name.
pub open spec fn input_spec(pos: Seq<Seq<char>>, pattern: Option<Seq<char>>) -> Result<InputView, CliFault> {
    if pos.len() == 1 && has_suffix(pos[0], ".y4m"@) {
        Ok(InputView::Y4m(pos[0]))
    } else if pos.len() == 1 && (has_suffix(pos[0], ".heic"@) || has_suffix(pos[0], ".heif"@)) {
        Ok(InputView::Heic(pos[0]))
    } else if pos.len() == 2 && pattern is Some {
        match (parse_decimal_spec(pos[0], 0xffff_ffff), parse_decimal_spec(pos[1], 0xffff_ffff)) {
            (Some(w), Some(h)) => if pattern == Some("grid"@) {
                Ok(InputView::Grid { width: w as u32, height: h as u32 })
            } else {
                Err(CliFault::Invalid)
            },
            _ => Err(CliFault::Invalid),
        }
    } else if pos.len() == 5 {
        match (
            parse_decimal_spec(pos[0], 0xffff_ffff),
            parse_decimal_spec(pos[1], 0xffff_ffff),
            parse_decimal_spec(pos[2], 0xffff),
            parse_decimal_spec(pos[3], 0xffff),
            parse_decimal_spec(pos[4], 0xffff),
        ) {
            (Some(w), Some(h), Some(y), Some(u), Some(v)) => Ok(
                InputView::Solid { width: w as u32, height: h as u32, y: y as u16, u: u as u16, v: v as u16 },
            ),
            _ => Err(CliFault::Invalid),
        }
    } else {
        Err(CliFault::Usage)
    }
}

/// The settings once `--hdr10` has been applied: HDR10 signalling with the
/// chosen range.
pub open spec fn with_hdr10(st: CliScan) -> EncoderConfig {
    if st.hdr10 {
        EncoderConfig {
            video_signal: VideoSignal {
                bit_depth: BitDepth::Ten,
                color_range: st.config.video_signal.color_range,
                color_description: Some(
                    ColorDescription { color_primaries: 9, transfer_characteristics: 16, matrix_coefficients: 9 },
                ),
            },
            ..st.config
        }
    } else {
        st.config
    }
}

/// What the options read give, once checked together: the three colour
/// code points come together or not at all, and so do MaxCLL and MaxFALL;
/// the output path must be given and not empty; then the positional words
/// must name an input.
pub open spec fn cli_finish(st: CliScan) -> Result<CliView, CliFault> {
    let c1 = with_hdr10(st);
    let colors_given = st.cp is Some && st.tc is Some && st.mc is Some;
    let colors_absent = st.cp is None && st.tc is None && st.mc is None;
    let light_given = st.max_cll is Some && st.max_fall is Some;
    let light_absent = st.max_cll is None && st.max_fall is None;
    if !colors_given && !colors_absent {
        Err(CliFault::Invalid)
    } else if !light_given && !light_absent {
        Err(CliFault::Invalid)
    } else if !(st.output matches Some(p) && p.len() > 0) {
        Err(CliFault::Usage)
    } else {
        let c2 = if colors_given {
            EncoderConfig {
                video_signal: VideoSignal {
                    color_description: Some(
                        ColorDescription {
                            color_primaries: st.cp.unwrap(),
                            transfer_characteristics: st.tc.unwrap(),
                            matrix_coefficients: st.mc.unwrap(),
                        },
                    ),
                    ..c1.video_signal
                },
                ..c1
            }
        } else {
            c1
        };
        let c3 = EncoderConfig {
            content_light: if light_given {
                Some(
                    ContentLightLevel {
                        max_content_light_level: st.max_cll.unwrap(),
                        max_frame_average_light_level: st.max_fall.unwrap(),
                    },
                )
            } else {
                c2.content_light
            },
            mastering_display: st.mdcv,
            ..c2
        };
        match input_spec(st.positional, st.pattern) {
            Ok(input) => Ok(
                CliView {
                    input,
                    output_path: st.output.unwrap(),
                    config: c3,
                    fps_explicit: st.fps_explicit,
                    bit_depth_explicit: st.bit_depth_explicit,
                    color_range_explicit: st.color_range_explicit,
                    color_description_explicit: colors_given,
                    hdr10_requested: st.hdr10,
                },
            ),
            Err(f) => Err(f),
        }
    }
}

/// What a command line (without the program's name) asks for.
pub open spec fn cli_spec(args: Seq<Seq<char>>) -> Result<CliView, CliFault> {
    match scan_from(args, 0, initial_scan()) {
        Ok(st) => cli_finish(st),
        Err(ScanStop::Invalid) => Err(CliFault::Invalid),
        Err(ScanStop::BitrateOverflow) => Err(CliFault::BitrateOverflow),
    }
}

/// The words of a command line as character sequences.
pub open spec fn words(args: Seq<String>) -> Seq<Seq<char>> {
    args.map_values(|s: String| s@)
}


/// The options read so far.
struct ScanState {
    positional: Vec<Vec<char>>,
    output: Option<Vec<char>>,
    config: EncoderConfig,
    fps_explicit: bool,
    bit_depth_explicit: bool,
    color_range_explicit: bool,
    hdr10: bool,
    cp: Option<u8>,
    tc: Option<u8>,
    mc: Option<u8>,
    max_cll: Option<u16>,
    max_fall: Option<u16>,
    mdcv: Option<MasteringDisplayMetadata>,
    pattern: Option<Vec<char>>,
}

/// The characters of an optional text.
pub open spec fn opt_chars(o: Option<Vec<char>>) -> Option<Seq<char>> {
    match o {
        Some(v) => Some(v@),
        None => None,
    }
}

impl ScanState {
    spec fn view(&self) -> CliScan {
        CliScan {
            positional: self.positional@.map_values(|p: Vec<char>| p@),
            output: opt_chars(self.output),
            config: self.config,
            fps_explicit: self.fps_explicit,
            bit_depth_explicit: self.bit_depth_explicit,
            color_range_explicit: self.color_range_explicit,
            hdr10: self.hdr10,
            cp: self.cp,
            tc: self.tc,
            mc: self.mc,
            max_cll: self.max_cll,
            max_fall: self.max_fall,
            mdcv: self.mdcv,
            pattern: opt_chars(self.pattern),
        }
    }
}

/// Whether the characters of `a` spell `lit`.
fn is_word(a: &[char], lit: &str) -> (r: bool)
    ensures
        r == (a@ == lit@),
{
    let l = str_chars(lit);
    eq_chars(a, l.as_slice())
}

/// Whether `s` ends with `p`.
fn ends_with_chars(s: &[char], p: &[char]) -> (r: bool)
    ensures
        r == has_suffix(s@, p@),
{
    if p.len() > s.len() {
        return false;
    }
    let off = s.len() - p.len();
    let tail = &s[off..s.len()];
    assert(tail@ =~= s@.skip(s@.len() - p@.len()));
    eq_chars(tail, p)
}

/// Applies the word `a`, whose successor is `vs`, to the options read so
/// far; says whether `vs` was taken as the option's value.
fn scan_one(st: &mut ScanState, a: Vec<char>, vs: &str) -> (r: Result<bool, CliError>)
    ensures
        match scan_step(old(st).view(), a@, vs@) {
            Ok((next, took)) => r == Ok::<bool, CliError>(took) && final(st).view() == next,
            Err(ScanStop::Invalid) => r matches Err(CliError::Invalid(_)),
            Err(ScanStop::BitrateOverflow) => r == Err::<bool, CliError>(CliError::BitrateOverflow),
        },
{
    let v = str_chars(vs);
    if is_word(a.as_slice(), "-o") {
        st.output = Some(v);
        return Ok(true);
    }
    if is_word(a.as_slice(), "-q") {
        match parse_decimal_chars(v.as_slice(), 255) {
            Some(q) => {
                st.config.base_q_idx = q as u8;
                return Ok(true);
            },
            None => return Err(CliError::Invalid(join_message("invalid -q value: ", v.as_slice(), ""))),
        }
    }
    if is_word(a.as_slice(), "--keyint") {
        match parse_decimal_chars(v.as_slice(), usize::MAX as u64) {
            Some(k) => {
                st.config.keyint = k as usize;
                return Ok(true);
            },
            None => return Err(CliError::Invalid(join_message("invalid --keyint value: ", v.as_slice(), ""))),
        }
    }
    if is_word(a.as_slice(), "--bitrate") {
        if !bitrate_fits(vs) {
            return Err(CliError::BitrateOverflow);
        }
        match parse_bitrate(vs) {
            Ok(b) => {
                st.config.target_bitrate = Some(b);
                return Ok(true);
            },
            Err(m) => return Err(CliError::Invalid(m)),
        }
    }
    if is_word(a.as_slice(), "--fps") {
        match parse_fps(vs) {
            Ok(f) => {
                st.config.fps = f;
                st.fps_explicit = true;
                return Ok(true);
            },
            Err(m) => return Err(CliError::Invalid(m)),
        }
    }
    if is_word(a.as_slice(), "--bit-depth") {
        match parse_bit_depth(vs) {
            Ok(b) => {
                st.config.video_signal.bit_depth = b;
                st.bit_depth_explicit = true;
                return Ok(true);
            },
            Err(m) => return Err(CliError::Invalid(m)),
        }
    }
    if is_word(a.as_slice(), "--hdr10") {
        st.hdr10 = true;
        return Ok(false);
    }
    if is_word(a.as_slice(), "--color-range") {
        match parse_color_range(vs) {
            Ok(c) => {
                st.config.video_signal.color_range = c;
                st.color_range_explicit = true;
                return Ok(true);
            },
            Err(m) => return Err(CliError::Invalid(m)),
        }
    }
    if is_word(a.as_slice(), "--color-primaries") {
        match parse_decimal_chars(v.as_slice(), 255) {
            Some(x) => {
                st.cp = Some(x as u8);
                return Ok(true);
            },
            None => return Err(
                CliError::Invalid(join_message("invalid --color-primaries value: ", v.as_slice(), "")),
            ),
        }
    }
    if is_word(a.as_slice(), "--transfer") {
        match parse_decimal_chars(v.as_slice(), 255) {
            Some(x) => {
                st.tc = Some(x as u8);
                return Ok(true);
            },
            None => return Err(CliError::Invalid(join_message("invalid --transfer value: ", v.as_slice(), ""))),
        }
    }
    if is_word(a.as_slice(), "--matrix") {
        match parse_decimal_chars(v.as_slice(), 255) {
            Some(x) => {
                st.mc = Some(x as u8);
                return Ok(true);
            },
            None => return Err(CliError::Invalid(join_message("invalid --matrix value: ", v.as_slice(), ""))),
        }
    }
    if is_word(a.as_slice(), "--max-cll") {
        match parse_decimal_chars(v.as_slice(), 0xffff) {
            Some(x) => {
                st.max_cll = Some(x as u16);
                return Ok(true);
            },
            None => return Err(CliError::Invalid(join_message("invalid --max-cll value: ", v.as_slice(), ""))),
        }
    }
    if is_word(a.as_slice(), "--max-fall") {
        match parse_decimal_chars(v.as_slice(), 0xffff) {
            Some(x) => {
                st.max_fall = Some(x as u16);
                return Ok(true);
            },
            None => return Err(CliError::Invalid(join_message("invalid --max-fall value: ", v.as_slice(), ""))),
        }
    }
    if is_word(a.as_slice(), "--mdcv") {
        match parse_mdcv(vs) {
            Ok(m) => {
                st.mdcv = Some(m);
                return Ok(true);
            },
            Err(m) => return Err(CliError::Invalid(m)),
        }
    }
    if is_word(a.as_slice(), "--pattern") {
        st.pattern = Some(v);
        return Ok(true);
    }
    let ghost before = st.positional@;
    let ghost av = a@;
    st.positional.push(a);
    proof {
        assert(st.positional@.map_values(|p: Vec<char>| p@) =~= before.map_values(|p: Vec<char>| p@).push(av));
    }
    Ok(false)
}

/// Reads an unsigned number of at most `max`, or gives the message `msg`.
fn positional_number(p: &Vec<char>, max: u64, msg: &str) -> (r: Result<u64, CliError>)
    ensures
        match parse_decimal_spec(p@, max) {
            Some(n) => r == Ok::<u64, CliError>(n),
            None => r matches Err(CliError::Invalid(_)),
        },
{
    match parse_decimal_chars(p.as_slice(), max) {
        Some(n) => Ok(n),
        None => Err(CliError::Invalid(String::from_str(msg))),
    }
}

/// Reads the input that the positional words name.
fn read_input(pos: &Vec<Vec<char>>, pattern: &Option<Vec<char>>) -> (r: Result<InputMode, CliError>)
    ensures
        match input_spec(pos@.map_values(|p: Vec<char>| p@), opt_chars(*pattern)) {
            Ok(i) => r matches Ok(m) && m.view() == i,
            Err(CliFault::Usage) => r == Err::<InputMode, CliError>(CliError::Usage),
            Err(_) => r matches Err(CliError::Invalid(_)),
        },
{
    let ghost pv = pos@.map_values(|p: Vec<char>| p@);
    let y4m = str_chars(".y4m");
    let heic = str_chars(".heic");
    let heif = str_chars(".heif");
    if pos.len() == 1 {
        assert(pv[0] == pos@[0]@);
        if ends_with_chars(pos[0].as_slice(), y4m.as_slice()) {
            return Ok(InputMode::Y4m(string_from_chars(pos[0].as_slice())));
        }
        if ends_with_chars(pos[0].as_slice(), heic.as_slice()) || ends_with_chars(pos[0].as_slice(), heif.as_slice()) {
            return Ok(InputMode::Heic(string_from_chars(pos[0].as_slice())));
        }
    }
    if pos.len() == 2 && pattern.is_some() {
        assert(pv[0] == pos@[0]@ && pv[1] == pos@[1]@);
        let width = positional_number(&pos[0], 0xffff_ffff, "width must be a positive integer")? as u32;
        let height = positional_number(&pos[1], 0xffff_ffff, "height must be a positive integer")? as u32;
        let p = match pattern {
            Some(p) => p,
            None => return Err(CliError::Usage),
        };
        if is_word(p.as_slice(), "grid") {
            return Ok(InputMode::Grid { width, height });
        }
        proof {
            if opt_chars(*pattern) == Some("grid"@) {
                assert(p@ == "grid"@);
            }
        }
        return Err(CliError::Invalid(join_message("unknown pattern: ", p.as_slice(), "\nAvailable patterns: grid")));
    }
    if pos.len() == 5 {
        assert(pv[0] == pos@[0]@ && pv[1] == pos@[1]@ && pv[2] == pos@[2]@);
        assert(pv[3] == pos@[3]@ && pv[4] == pos@[4]@);
        let width = positional_number(&pos[0], 0xffff_ffff, "width must be a positive integer")? as u32;
        let height = positional_number(&pos[1], 0xffff_ffff, "height must be a positive integer")? as u32;
        let y = positional_number(&pos[2], 0xffff, "Y must be an integer")? as u16;
        let u = positional_number(&pos[3], 0xffff, "U must be an integer")? as u16;
        let v = positional_number(&pos[4], 0xffff, "V must be an integer")? as u16;
        return Ok(InputMode::Solid { width, height, y, u, v });
    }
    Err(CliError::Usage)
}

/// Reads a command line, without the program's name: the options in any
/// order (each that takes a value takes the next word, or the empty text at
/// the end), then the positional words as a Y4M or HEIC path, a size with
/// `--pattern`, or a size and a Y/U/V colour.
pub fn parse_cli(args: &[String]) -> (r: Result<CliArgs, CliError>)
    ensures
        match cli_spec(words(args@)) {
            Ok(c) => r matches Ok(a) && a.view() == c,
            Err(CliFault::Usage) => r == Err::<CliArgs, CliError>(CliError::Usage),
            Err(CliFault::Invalid) => r matches Err(CliError::Invalid(_)),
            Err(CliFault::BitrateOverflow) => r == Err::<CliArgs, CliError>(CliError::BitrateOverflow),
        },
{
    let ghost av = words(args@);
    let mut st = ScanState {
        positional: Vec::new(),
        output: None,
        config: EncoderConfig {
            base_q_idx: DEFAULT_BASE_Q_IDX,
            keyint: DEFAULT_KEYINT,
            target_bitrate: None,
            fps: Fps::default(),
            b_frames: false,
            gop_size: 3,
            video_signal: VideoSignal::default(),
            content_light: None,
            mastering_display: None,
        },
        fps_explicit: false,
        bit_depth_explicit: false,
        color_range_explicit: false,
        hdr10: false,
        cp: None,
        tc: None,
        mc: None,
        max_cll: None,
        max_fall: None,
        mdcv: None,
        pattern: None,
    };
    assert(st.view().positional =~= seq![]);
    assert(st.view() == initial_scan());
    let n = args.len();
    let mut i: usize = 0;
    while i < n
        invariant
            n == args@.len(),
            av == words(args@),
            i <= n,
            scan_from(av, 0, initial_scan()) == scan_from(av, i as int, st.view()),
        decreases n - i,
    {
        let a = str_chars(args[i].as_str());
        let vs: &str = if i + 1 < n {
            args[i + 1].as_str()
        } else {
            ""
        };
        assert(a@ == av[i as int]);
        assert(vs@ == value_at(av, i + 1));
        let ghost before = st.view();
        let took = match scan_one(&mut st, a, vs) {
            Ok(t) => t,
            Err(e) => return Err(e),
        };
        if took {
            i = if n - i >= 2 {
                i + 2
            } else {
                n
            };
        } else {
            i = i + 1;
        }
    }
    let ghost fin = st.view();
    assert(scan_from(av, 0, initial_scan()) == Ok::<CliScan, ScanStop>(fin));
    let mut config = st.config;
    if st.hdr10 {
        config.video_signal = VideoSignal::hdr10(config.video_signal.color_range);
        if !st.bit_depth_explicit {
            config.video_signal.bit_depth = BitDepth::Ten;
        }
    }
    assert(config == with_hdr10(fin));
    let mut color_description_explicit = false;
    match (st.cp, st.tc, st.mc) {
        (Some(p), Some(t), Some(m)) => {
            config.video_signal.color_description = Some(
                ColorDescription { color_primaries: p, transfer_characteristics: t, matrix_coefficients: m },
            );
            color_description_explicit = true;
        },
        (None, None, None) => {},
        _ => {
            return Err(
                CliError::Invalid(
                    String::from_str("--color-primaries, --transfer, and --matrix must be provided together"),
                ),
            );
        },
    }
    match (st.max_cll, st.max_fall) {
        (Some(c), Some(f)) => {
            config.content_light = Some(
                ContentLightLevel { max_content_light_level: c, max_frame_average_light_level: f },
            );
        },
        (None, None) => {},
        _ => {
            return Err(CliError::Invalid(String::from_str("--max-cll and --max-fall must be provided together")));
        },
    }
    config.mastering_display = st.mdcv;
    let output_path = match &st.output {
        Some(p) => {
            if p.len() == 0 {
                return Err(CliError::Usage);
            }
            string_from_chars(p.as_slice())
        },
        None => return Err(CliError::Usage),
    };
    let input = read_input(&st.positional, &st.pattern)?;
    Ok(
        CliArgs {
            input,
            output_path,
            config,
            fps_explicit: st.fps_explicit,
            bit_depth_explicit: st.bit_depth_explicit,
            color_range_explicit: st.color_range_explicit,
            color_description_explicit,
            hdr10_requested: st.hdr10,
        },
    )
}


/// The position of the first `flag` among the words before the last, or -1.
pub open spec fn option_pos(args: Seq<Seq<char>>, flag: Seq<char>, from: int) -> int
    decreases args.len() - from,
{
    if from < 0 || from + 1 >= args.len() {
        -1
    } else if args[from] == flag {
        from
    } else {
        option_pos(args, flag, from + 1)
    }
}

/// The number after the first `flag` (the last word is not looked at as a
/// flag), read as an unsigned number no larger than `max`; nothing when the
/// flag is absent or its value is not such a number.
pub fn parse_option(args: &[String], flag: &str, max: u64) -> (r: Option<u64>)
    ensures
        ({
            let k = option_pos(words(args@), flag@, 0);
            if k < 0 {
                r is None
            } else {
                r == parse_decimal_spec(words(args@)[k + 1], max)
            }
        }),
{
    let ghost av = words(args@);
    let f = str_chars(flag);
    let n = args.len();
    let last = if n > 0 {
        n - 1
    } else {
        0
    };
    let mut i: usize = 0;
    while i < last
        invariant
            av == words(args@),
            n == args@.len(),
            last == (if n > 0 { n - 1 } else { 0 }),
            i <= last,
            f@ == flag@,
            option_pos(av, flag@, 0) == option_pos(av, flag@, i as int),
        decreases last - i,
    {
        let a = str_chars(args[i].as_str());
        if eq_chars(a.as_slice(), f.as_slice()) {
            let v = str_chars(args[i + 1].as_str());
            return parse_decimal_chars(v.as_slice(), max);
        }
        i += 1;
    }
    None
}

/// The words with each `-q` and `--keyint` taken out together with the word
/// after it, from `i` on.
pub open spec fn stripped_from(args: Seq<Seq<char>>, i: int) -> Seq<Seq<char>>
    decreases args.len() - i,
{
    if i < 0 || i >= args.len() {
        seq![]
    } else if args[i] == "-q"@ || args[i] == "--keyint"@ {
        if i + 2 >= args.len() {
            seq![]
        } else {
            stripped_from(args, i + 2)
        }
    } else {
        seq![args[i]] + stripped_from(args, i + 1)
    }
}

/// The words without the `-q` and `--keyint` options and their values.
pub fn strip_options(args: &[String]) -> (r: Vec<String>)
    ensures
        words(r@) == stripped_from(words(args@), 0),
{
    let ghost av = words(args@);
    let mut result: Vec<String> = Vec::new();
    let n = args.len();
    let mut i: usize = 0;
    while i < n
        invariant
            av == words(args@),
            n == args@.len(),
            i <= n,
            stripped_from(av, 0) == words(result@) + stripped_from(av, i as int),
        decreases n - i,
    {
        let a = str_chars(args[i].as_str());
        if is_word(a.as_slice(), "-q") || is_word(a.as_slice(), "--keyint") {
            i = if n - i >= 2 {
                i + 2
            } else {
                n
            };
        } else {
            let ghost before = words(result@);
            result.push(args[i].clone());
            assert(words(result@) =~= before + seq![av[i as int]]);
            assert(before + seq![av[i as int]] + stripped_from(av, i + 1) =~= before + (seq![av[i as int]]
                + stripped_from(av, i + 1)));
            i += 1;
        }
    }
    assert(stripped_from(av, i as int) =~= seq![]);
    assert(words(result@) + seq![] =~= words(result@));
    result
}

} // verus!
