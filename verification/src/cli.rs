use vstd::prelude::*;
use crate::fps::{Fps, FpsError, gcd_u32, fps_error_text};
use crate::text::{
    parse_u32_spec, parse_u32_chars, parse_decimal_spec, parse_decimal_chars, find_char, first_pos,
    lemma_first_pos, eq_chars, split_chars, split_on, str_chars, join_message, decimal_chars, decimal_text,
    append_chars, string_from_chars,
};
use crate::video::{BitDepth, ColorRange, MasteringDisplayMetadata};

verus! {

/// The container an output file is written in.
#[derive(Clone, Copy, Debug, PartialEq, Eq, Structural)]
pub enum OutputFormat {
    Ivf,
    Mp4,
    Avif,
}

/// The reduced fraction `num/den`.
pub open spec fn reduced(num: u32, den: u32) -> Fps {
    Fps { num: num / gcd_u32(num, den), den: den / gcd_u32(num, den) }
}

/// The rate that a `--fps` value gives: no `.`; `NUM/DEN` split at the
/// first `/`, or a bare integer; both parts non-zero.
pub open spec fn parse_fps_spec(s: Seq<char>) -> Option<Fps> {
    if first_pos(s, '.') >= 0 {
        None
    } else if first_pos(s, '/') >= 0 {
        let i = first_pos(s, '/');
        match (parse_u32_spec(s.take(i)), parse_u32_spec(s.skip(i + 1))) {
            (Some(n), Some(d)) => if n != 0 && d != 0 {
                Some(reduced(n, d))
            } else {
                None
            },
            _ => None,
        }
    } else {
        match parse_u32_spec(s) {
            Some(n) => if n != 0 {
                Some(Fps { num: n, den: 1 })
            } else {
                None
            },
            None => None,
        }
    }
}

/// Finds `c` in `s`, as the first position or nothing.
fn find_first(s: &[char], c: char) -> (r: Option<usize>)
    ensures
        match r {
            Some(i) => i as int == first_pos(s@, c),
            None => first_pos(s@, c) < 0,
        },
{
    proof {
        lemma_first_pos(s@, c);
    }
    let r = find_char(s, c);
    proof {
        if let Some(i) = r {
            if first_pos(s@, c) >= 0 && first_pos(s@, c) != i {
                if first_pos(s@, c) < i {
                    assert(s@[first_pos(s@, c)] == c);
                } else {
                    assert(s@[i as int] == c);
                }
            }
        }
    }
    r
}

/// The message for a frame-rate error.
fn fps_error_message(e: FpsError) -> (r: String)
    ensures
        r@ == "invalid --fps value: "@ + fps_error_text(e),
{
    let m = e.message();
    let mc = str_chars(m.as_str());
    proof {
        reveal_strlit("");
    }
    join_message("invalid --fps value: ", mc.as_slice(), "")
}

/// Reads a `--fps` value: `INT` or `NUM/DEN`.
pub fn parse_fps(s: &str) -> (r: Result<Fps, String>)
    ensures
        match parse_fps_spec(s@) {
            Some(f) => r == Ok::<Fps, String>(f),
            None => r is Err,
        },
{
    let cs = str_chars(s);
    let len = cs.len();
    proof {
        lemma_first_pos(s@, '/');
        reveal_strlit("");
    }
    if find_first(cs.as_slice(), '.').is_some() {
        return Err(
            join_message(
                "invalid --fps value: ",
                cs.as_slice(),
                " (use INT or NUM/DEN, e.g. 30 or 30000/1001)",
            ),
        );
    }
    match find_first(cs.as_slice(), '/') {
        Some(i) => {
            let num_s = &cs.as_slice()[0..i];
            let den_s = &cs.as_slice()[i + 1..len];
            assert(num_s@ =~= s@.take(i as int));
            assert(den_s@ =~= s@.skip(i + 1));
            let num = match parse_u32_chars(num_s) {
                Some(n) => n,
                None => return Err(join_message("invalid --fps numerator: ", num_s, "")),
            };
            let den = match parse_u32_chars(den_s) {
                Some(d) => d,
                None => return Err(join_message("invalid --fps denominator: ", den_s, "")),
            };
            match Fps::new(num, den) {
                Ok(f) => Ok(f),
                Err(e) => Err(fps_error_message(e)),
            }
        },
        None => {
            let fps = match parse_u32_chars(cs.as_slice()) {
                Some(n) => n,
                None => return Err(
                    join_message("invalid --fps value: ", cs.as_slice(), " (use INT or NUM/DEN)"),
                ),
            };
            match Fps::from_int(fps) {
                Ok(f) => Ok(f),
                Err(e) => Err(fps_error_message(e)),
            }
        },
    }
}

/// A bitrate's digits and multiplier: a `k`/`K` suffix is thousands, an
/// `m`/`M` suffix millions.
pub open spec fn bitrate_parts(s: Seq<char>) -> (Seq<char>, int) {
    if s.len() > 0 && (s.last() == 'k' || s.last() == 'K') {
        (s.drop_last(), 1_000)
    } else if s.len() > 0 && (s.last() == 'm' || s.last() == 'M') {
        (s.drop_last(), 1_000_000)
    } else {
        (s, 1)
    }
}

/// The bitrate that a `--bitrate` value gives.
pub open spec fn parse_bitrate_spec(s: Seq<char>) -> Option<int> {
    match parse_decimal_spec(bitrate_parts(s).0, u64::MAX) {
        Some(v) => Some(v * bitrate_parts(s).1),
        None => None,
    }
}

/// Reads a `--bitrate` value in bits per second, with an optional `k` or
/// `m` suffix.
pub fn parse_bitrate(s: &str) -> (r: Result<u64, String>)
    requires
        parse_bitrate_spec(s@) matches Some(v) ==> v <= u64::MAX,
    ensures
        match parse_bitrate_spec(s@) {
            Some(v) => r == Ok::<u64, String>(v as u64),
            None => r matches Err(m) && m@ == "invalid bitrate: "@ + s@,
        },
{
    proof {
        reveal_strlit("");
    }
    let cs = str_chars(s);
    let len = cs.len();
    let (num, mult): (&[char], u64) = if len > 0 && (cs[len - 1] == 'k' || cs[len - 1] == 'K') {
        (&cs.as_slice()[0..len - 1], 1_000)
    } else if len > 0 && (cs[len - 1] == 'm' || cs[len - 1] == 'M') {
        (&cs.as_slice()[0..len - 1], 1_000_000)
    } else {
        (cs.as_slice(), 1)
    };
    assert(num@ =~= bitrate_parts(s@).0);
    match parse_decimal_chars(num, u64::MAX) {
        Some(v) => Ok(v * mult),
        None => Err(join_message("invalid bitrate: ", cs.as_slice(), "")),
    }
}

/// Whether the bitrate that a `--bitrate` value gives fits in 64 bits; a
/// value that gives no bitrate passes.
pub fn bitrate_fits(s: &str) -> (r: bool)
    ensures
        r == (parse_bitrate_spec(s@) matches Some(v) ==> v <= u64::MAX),
{
    let cs = str_chars(s);
    let len = cs.len();
    let (num, mult): (&[char], u64) = if len > 0 && (cs[len - 1] == 'k' || cs[len - 1] == 'K') {
        (&cs.as_slice()[0..len - 1], 1_000)
    } else if len > 0 && (cs[len - 1] == 'm' || cs[len - 1] == 'M') {
        (&cs.as_slice()[0..len - 1], 1_000_000)
    } else {
        (cs.as_slice(), 1)
    };
    assert(num@ =~= bitrate_parts(s@).0);
    match parse_decimal_chars(num, u64::MAX) {
        Some(v) => {
            assert((v <= u64::MAX / mult) == (v * mult <= u64::MAX)) by (nonlinear_arith)
                requires
                    mult > 0,
            ;
            v <= u64::MAX / mult
        },
        None => true,
    }
}

/// The range that a `--color-range` value names.
pub open spec fn parse_color_range_spec(s: Seq<char>) -> Option<ColorRange> {
    if s == seq!['l', 'i', 'm', 'i', 't', 'e', 'd'] || s == seq!['t', 'v'] {
        Some(ColorRange::Limited)
    } else if s == seq!['f', 'u', 'l', 'l'] || s == seq!['p', 'c'] {
        Some(ColorRange::Full)
    } else {
        None
    }
}

/// Reads a `--color-range` value: `limited` or `tv`, `full` or `pc`.
pub fn parse_color_range(s: &str) -> (r: Result<ColorRange, String>)
    ensures
        match parse_color_range_spec(s@) {
            Some(c) => r == Ok::<ColorRange, String>(c),
            None => r matches Err(m) && m@ == "invalid color range: "@ + s@,
        },
{
    proof {
        reveal_strlit("");
    }
    let cs = str_chars(s);
    let limited: [char; 7] = ['l', 'i', 'm', 'i', 't', 'e', 'd'];
    let tv: [char; 2] = ['t', 'v'];
    let full: [char; 4] = ['f', 'u', 'l', 'l'];
    let pc: [char; 2] = ['p', 'c'];
    assert(limited@ =~= seq!['l', 'i', 'm', 'i', 't', 'e', 'd']);
    assert(tv@ =~= seq!['t', 'v']);
    assert(full@ =~= seq!['f', 'u', 'l', 'l']);
    assert(pc@ =~= seq!['p', 'c']);
    if eq_chars(cs.as_slice(), limited.as_slice()) || eq_chars(cs.as_slice(), tv.as_slice()) {
        Ok(ColorRange::Limited)
    } else if eq_chars(cs.as_slice(), full.as_slice()) || eq_chars(cs.as_slice(), pc.as_slice()) {
        Ok(ColorRange::Full)
    } else {
        Err(join_message("invalid color range: ", cs.as_slice(), ""))
    }
}

/// The bit depth that a `--bit-depth` value names: 8 or 10.
pub open spec fn parse_bit_depth_spec(s: Seq<char>) -> Option<BitDepth> {
    match parse_decimal_spec(s, 255) {
        Some(8) => Some(BitDepth::Eight),
        Some(10) => Some(BitDepth::Ten),
        _ => None,
    }
}

/// The message for a bit depth other than 8 and 10.
pub open spec fn unsupported_bit_depth_text(v: u8) -> Seq<char> {
    "unsupported bit depth: "@ + decimal_text(v as nat)
}

/// The message for a bit depth other than 8 and 10.
fn unsupported_bit_depth_message(v: u8) -> (r: String)
    ensures
        r@ == unsupported_bit_depth_text(v),
{
    proof {
        reveal_strlit("");
    }
    let d = decimal_chars(v as u64);
    let r = join_message("unsupported bit depth: ", d.as_slice(), "");
    assert("unsupported bit depth: "@ + d@ + ""@ =~= unsupported_bit_depth_text(v));
    r
}

/// Reads a `--bit-depth` value.
pub fn parse_bit_depth(s: &str) -> (r: Result<BitDepth, String>)
    ensures
        match parse_bit_depth_spec(s@) {
            Some(b) => r == Ok::<BitDepth, String>(b),
            None => r is Err,
        },
        parse_decimal_spec(s@, 255) is None ==> (r matches Err(m) && m@ == "invalid bit depth: "@ + s@),
        parse_decimal_spec(s@, 255) matches Some(v) ==> (v != 8 && v != 10 ==> (r matches Err(m) && m@
            == unsupported_bit_depth_text(v as u8))),
{
    proof {
        reveal_strlit("");
    }
    let cs = str_chars(s);
    let v = match parse_decimal_chars(cs.as_slice(), 255) {
        Some(v) => v as u8,
        None => return Err(join_message("invalid bit depth: ", cs.as_slice(), "")),
    };
    match BitDepth::from_u8(v) {
        Some(b) => Ok(b),
        None => Err(unsupported_bit_depth_message(v)),
    }
}

/// The metadata that a `--mdcv` value gives: ten comma-separated integers,
/// the six primary and two white-point coordinates (16 bits), then the
/// maximum and minimum luminance (32 bits).
pub open spec fn parse_mdcv_spec(s: Seq<char>) -> Option<MasteringDisplayMetadata> {
    let v = split_on(s, ',');
    if v.len() != 10 {
        None
    } else if (forall|i: int| 0 <= i < 8 ==> #[trigger] parse_decimal_spec(v[i], 0xffff) is Some)
        && parse_decimal_spec(v[8], 0xffff_ffff) is Some && parse_decimal_spec(v[9], 0xffff_ffff) is Some {
        let p = |i: int| parse_decimal_spec(v[i], 0xffff).unwrap() as u16;
        Some(
            MasteringDisplayMetadata {
                primaries: [[p(0), p(1)], [p(2), p(3)], [p(4), p(5)]],
                white_point: [p(6), p(7)],
                max_luminance: parse_decimal_spec(v[8], 0xffff_ffff).unwrap() as u32,
                min_luminance: parse_decimal_spec(v[9], 0xffff_ffff).unwrap() as u32,
            },
        )
    } else {
        None
    }
}

proof fn lemma_deep_index(v: &Vec<Vec<char>>, i: int)
    requires
        0 <= i < v@.len(),
    ensures
        v.deep_view()[i] == v@[i]@,
{
    assert(v.deep_view()[i] =~= v@[i]@);
}

/// Reads one 16-bit field of a `--mdcv` value.
fn mdcv_u16(v: &Vec<Vec<char>>, i: usize) -> (r: Result<u16, String>)
    requires
        i < v@.len(),
    ensures
        match parse_decimal_spec(v.deep_view()[i as int], 0xffff) {
            Some(n) => r == Ok::<u16, String>(n as u16),
            None => r is Err,
        },
{
    proof {
        lemma_deep_index(v, i as int);
    }
    match parse_decimal_chars(v[i].as_slice(), 0xffff) {
        Some(n) => Ok(n as u16),
        None => Err(join_message("invalid u16 value in --mdcv: ", v[i].as_slice(), "")),
    }
}

/// Reads one 32-bit field of a `--mdcv` value.
fn mdcv_u32(v: &Vec<Vec<char>>, i: usize) -> (r: Result<u32, String>)
    requires
        i < v@.len(),
    ensures
        match parse_decimal_spec(v.deep_view()[i as int], 0xffff_ffff) {
            Some(n) => r == Ok::<u32, String>(n as u32),
            None => r is Err,
        },
{
    proof {
        lemma_deep_index(v, i as int);
    }
    match parse_decimal_chars(v[i].as_slice(), 0xffff_ffff) {
        Some(n) => Ok(n as u32),
        None => Err(join_message("invalid u32 value in --mdcv: ", v[i].as_slice(), "")),
    }
}

/// Reads a `--mdcv` value.
pub fn parse_mdcv(s: &str) -> (r: Result<MasteringDisplayMetadata, String>)
    ensures
        match parse_mdcv_spec(s@) {
            Some(m) => r == Ok::<MasteringDisplayMetadata, String>(m),
            None => r is Err,
        },
{
    let cs = str_chars(s);
    let values = split_chars(cs.as_slice(), ',');
    let ghost v = split_on(s@, ',');
    if values.len() != 10 {
        return Err(String::from_str("invalid --mdcv value: expected 10 comma-separated integers"));
    }
    let p0 = mdcv_u16(&values, 0)?;
    let p1 = mdcv_u16(&values, 1)?;
    let p2 = mdcv_u16(&values, 2)?;
    let p3 = mdcv_u16(&values, 3)?;
    let p4 = mdcv_u16(&values, 4)?;
    let p5 = mdcv_u16(&values, 5)?;
    let w0 = mdcv_u16(&values, 6)?;
    let w1 = mdcv_u16(&values, 7)?;
    let max_luminance = mdcv_u32(&values, 8)?;
    let min_luminance = mdcv_u32(&values, 9)?;
    assert forall|i: int| 0 <= i < 8 implies #[trigger] parse_decimal_spec(v[i], 0xffff) is Some by {
        if i == 0 {} else if i == 1 {} else if i == 2 {} else if i == 3 {} else if i == 4 {} else if i == 5 {} else if i == 6 {} else {}
    }
    Ok(MasteringDisplayMetadata {
        primaries: [[p0, p1], [p2, p3], [p4, p5]],
        white_point: [w0, w1],
        max_luminance,
        min_luminance,
    })
}

/// The text of the refusal of `--hdr10` on 8-bit input.
pub open spec fn hdr10_on_8bit_text() -> Seq<char> {
    "--hdr10 requires 10-bit source frames. Hint: for 8-bit Apple HEIC gain-map input targeting AVIF, omit --hdr10 to use the auto tmap path; for HDR10, provide a true 10-bit source."@
}

/// The message for input whose bit depth is not the signal's.
pub open spec fn bit_depth_mismatch_text(input_bits: u8, signal_bits: u8) -> Seq<char> {
    "input bit depth "@ + decimal_text(input_bits as nat) + " does not match configured signal bit depth "@
        + decimal_text(signal_bits as nat) + ". Automatic bit-depth scaling was removed."@
}

/// The message for input whose bit depth is not the signal's.
fn bit_depth_mismatch_message(input_bits: u8, signal_bits: u8) -> (r: String)
    ensures
        r@ == bit_depth_mismatch_text(input_bits, signal_bits),
{
    let mut cs = str_chars("input bit depth ");
    append_chars(&mut cs, decimal_chars(input_bits as u64).as_slice());
    append_chars(&mut cs, str_chars(" does not match configured signal bit depth ").as_slice());
    append_chars(&mut cs, decimal_chars(signal_bits as u64).as_slice());
    append_chars(&mut cs, str_chars(". Automatic bit-depth scaling was removed.").as_slice());
    string_from_chars(cs.as_slice())
}

/// Checks that the input's bit depth suits the request: `--hdr10` needs
/// 10-bit input, and the input must have the signal's bit depth.
pub fn validate_bit_depth_constraints(
    hdr10_requested: bool,
    input_bit_depth: BitDepth,
    signal_bit_depth: BitDepth,
) -> (r: Result<(), String>)
    ensures
        r is Ok <==> !(hdr10_requested && input_bit_depth == BitDepth::Eight) && input_bit_depth
            == signal_bit_depth,
        (hdr10_requested && input_bit_depth == BitDepth::Eight) ==> (r matches Err(m) && m@
            == hdr10_on_8bit_text()),
        !(hdr10_requested && input_bit_depth == BitDepth::Eight) && input_bit_depth != signal_bit_depth ==> (r matches Err(
            m,
        ) && m@ == bit_depth_mismatch_text(input_bit_depth.spec_bits(), signal_bit_depth.spec_bits())),
{
    if hdr10_requested && input_bit_depth == BitDepth::Eight {
        return Err(String::from_str(
            "--hdr10 requires 10-bit source frames. Hint: for 8-bit Apple HEIC gain-map input targeting AVIF, omit --hdr10 to use the auto tmap path; for HDR10, provide a true 10-bit source.",
        ));
    }
    if input_bit_depth != signal_bit_depth {
        return Err(bit_depth_mismatch_message(input_bit_depth.bits(), signal_bit_depth.bits()));
    }
    Ok(())
}

/// Whether a HEIC input goes the automatic gain-map way: AVIF output, 8-bit
/// source, an Apple gain map present, and no `--hdr10`.
pub fn should_use_auto_heic_gain_map(
    is_heic_input: bool,
    output_format: OutputFormat,
    source_bit_depth: BitDepth,
    has_apple_gain_map_aux: bool,
    hdr10_requested: bool,
) -> (r: bool)
    ensures
        r == (is_heic_input && output_format == OutputFormat::Avif && source_bit_depth
            == BitDepth::Eight && has_apple_gain_map_aux && !hdr10_requested),
{
    is_heic_input && output_format == OutputFormat::Avif && source_bit_depth == BitDepth::Eight
        && has_apple_gain_map_aux && !hdr10_requested
}

/// The extension of the last component of a path, as `Path::extension`
/// reads it. The rules are those of the platform the crate is built for:
/// on Unix only `/` separates components, on Windows the backslash and drive
/// prefixes count as well; the name stands for the rules of one build.
pub uninterp spec fn path_extension_of(path: Seq<char>) -> Option<Seq<char>>;

/// `Path::extension` of `path`, as characters where it is valid text.
#[verifier::external_body]
fn path_extension(path: &str) -> (r: Option<Vec<char>>)
    ensures
        match path_extension_of(path@) {
            Some(e) => r matches Some(v) && v@ == e,
            None => r is None,
        },
{
    std::path::Path::new(path).extension().and_then(|e| e.to_str()).map(|e| e.chars().collect())
}

/// The code of a character with ASCII capitals made small.
pub open spec fn ascii_lower(c: char) -> u32 {
    if 'A' <= c <= 'Z' {
        ((c as u32) + 32) as u32
    } else {
        c as u32
    }
}

/// `s` equals the lower-case `t` once ASCII capitals are made small.
pub open spec fn eq_ascii_lower(s: Seq<char>, t: Seq<char>) -> bool {
    s.len() == t.len() && forall|i: int| 0 <= i < s.len() ==> ascii_lower(#[trigger] s[i]) == t[i] as u32
}

/// Whether `s`, with ASCII capitals made small, equals `t`.
fn eq_lower(s: &[char], t: &[char]) -> (r: bool)
    ensures
        r == eq_ascii_lower(s@, t@),
{
    if s.len() != t.len() {
        return false;
    }
    let mut i: usize = 0;
    while i < s.len()
        invariant
            i <= s@.len(),
            s@.len() == t@.len(),
            forall|j: int| 0 <= j < i ==> ascii_lower(#[trigger] s@[j]) == t@[j] as u32,
        decreases s.len() - i,
    {
        let c = s[i];
        let lc: u32 = if 'A' <= c && c <= 'Z' {
            c as u32 + 32
        } else {
            c as u32
        };
        if lc != t[i] as u32 {
            return false;
        }
        i += 1;
    }
    true
}

/// The container that an output path's extension asks for: MP4 for `mp4`
/// and `m4v`, AVIF for `avif`, in any case; IVF otherwise.
pub open spec fn detect_format_spec(path: Seq<char>) -> OutputFormat {
    match path_extension_of(path) {
        Some(e) => if eq_ascii_lower(e, seq!['m', 'p', '4']) || eq_ascii_lower(e, seq!['m', '4', 'v']) {
            OutputFormat::Mp4
        } else if eq_ascii_lower(e, seq!['a', 'v', 'i', 'f']) {
            OutputFormat::Avif
        } else {
            OutputFormat::Ivf
        },
        None => OutputFormat::Ivf,
    }
}

/// Picks the container from the output path.
pub fn detect_format(path: &str) -> (r: OutputFormat)
    ensures
        r == detect_format_spec(path@),
{
    let mp4: [char; 3] = ['m', 'p', '4'];
    let m4v: [char; 3] = ['m', '4', 'v'];
    let avif: [char; 4] = ['a', 'v', 'i', 'f'];
    assert(mp4@ =~= seq!['m', 'p', '4']);
    assert(m4v@ =~= seq!['m', '4', 'v']);
    assert(avif@ =~= seq!['a', 'v', 'i', 'f']);
    match path_extension(path) {
        Some(e) => {
            if eq_lower(e.as_slice(), mp4.as_slice()) || eq_lower(e.as_slice(), m4v.as_slice()) {
                OutputFormat::Mp4
            } else if eq_lower(e.as_slice(), avif.as_slice()) {
                OutputFormat::Avif
            } else {
                OutputFormat::Ivf
            }
        },
        None => OutputFormat::Ivf,
    }
}

/// The message for dimensions that a container cannot hold.
pub open spec fn oversized_output_text(label: Seq<char>, width: u32, height: u32) -> Seq<char> {
    label + " output does not support dimensions above 65535x65535 (got "@ + decimal_text(width as nat) + "x"@
        + decimal_text(height as nat) + "). Hint: choose AVIF output for large dimensions."@
}

/// The message for dimensions that a container cannot hold.
fn oversized_output_message(label: &str, width: u32, height: u32) -> (r: String)
    ensures
        r@ == oversized_output_text(label@, width, height),
{
    let mut cs = str_chars(label);
    append_chars(&mut cs, str_chars(" output does not support dimensions above 65535x65535 (got ").as_slice());
    append_chars(&mut cs, decimal_chars(width as u64).as_slice());
    append_chars(&mut cs, str_chars("x").as_slice());
    append_chars(&mut cs, decimal_chars(height as u64).as_slice());
    append_chars(&mut cs, str_chars("). Hint: choose AVIF output for large dimensions.").as_slice());
    string_from_chars(cs.as_slice())
}

/// Checks that the picture fits the container: IVF and MP4 store 16-bit
/// dimensions; AVIF takes any.
pub fn validate_output_dimensions(format: OutputFormat, width: u32, height: u32) -> (r: Result<(), String>)
    ensures
        r is Err <==> (format == OutputFormat::Ivf || format == OutputFormat::Mp4) && (width > 65535
            || height > 65535),
        r matches Err(m) ==> m@ == oversized_output_text(
            if format == OutputFormat::Ivf { "IVF"@ } else { "MP4"@ },
            width,
            height,
        ),
{
    let max: u32 = 65535;
    if (format == OutputFormat::Ivf || format == OutputFormat::Mp4) && (width > max || height > max) {
        let label = if format == OutputFormat::Ivf {
            "IVF"
        } else {
            "MP4"
        };
        return Err(oversized_output_message(label, width, height));
    }
    Ok(())
}

} // verus!
