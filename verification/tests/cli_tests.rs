use std::io;
use wav1c::cli::{
    detect_format, parse_bit_depth, parse_bitrate, parse_color_range, parse_fps, parse_mdcv,
    should_use_auto_heic_gain_map, validate_bit_depth_constraints, validate_output_dimensions,
    OutputFormat,
};
use wav1c::fps::Fps;
use wav1c::ivf_writer::write_ivf_header;
use wav1c::video::{BitDepth, ColorRange};

#[test]
fn rejects_width_above_u16_limit() {
    let mut out = Vec::new();
    let err = write_ivf_header(&mut out, 70_000, 1_000, 1).expect_err("expected rejection");
    assert_eq!(err.kind(), io::ErrorKind::InvalidInput);
}

#[test]
fn rejects_height_above_u16_limit() {
    let mut out = Vec::new();
    let err = write_ivf_header(&mut out, 1_000, 70_000, 1).expect_err("expected rejection");
    assert_eq!(err.kind(), io::ErrorKind::InvalidInput);
}

#[test]
fn checked_ivf_header_matches_plain_layout() {
    let mut out = Vec::new();
    write_ivf_header(&mut out, 640, 480, 7).unwrap();
    assert_eq!(out.len(), 32);
    assert_eq!(&out[12..14], &640u16.to_le_bytes());
    assert_eq!(&out[14..16], &480u16.to_le_bytes());
    assert_eq!(&out[24..28], &7u32.to_le_bytes());
}

#[test]
fn parse_fps_accepts_integer() {
    let fps = parse_fps("30").expect("expected integer fps to parse");
    assert_eq!(fps, Fps { num: 30, den: 1 });
}

#[test]
fn parse_fps_accepts_num_den() {
    let fps = parse_fps("30000/1001").expect("expected fraction fps to parse");
    assert_eq!(fps, Fps { num: 30_000, den: 1_001 });
}

#[test]
fn parse_fps_rejects_decimal() {
    let err = parse_fps("29.97").expect_err("expected decimal fps to fail");
    assert!(err.contains("use INT or NUM/DEN"));
}

#[test]
fn parse_fps_reduces_and_rejects_zero() {
    assert_eq!(parse_fps("60/2").unwrap(), Fps { num: 30, den: 1 });
    assert_eq!(parse_fps("0").unwrap_err(), "invalid --fps value: fps num must be > 0");
    assert_eq!(parse_fps("30/0").unwrap_err(), "invalid --fps value: fps den must be > 0");
    assert_eq!(parse_fps("a/1").unwrap_err(), "invalid --fps numerator: a");
    assert_eq!(parse_fps("1/b").unwrap_err(), "invalid --fps denominator: b");
    assert_eq!(parse_fps("x").unwrap_err(), "invalid --fps value: x (use INT or NUM/DEN)");
}

#[test]
fn hdr10_on_8bit_input_is_rejected() {
    let err = validate_bit_depth_constraints(true, BitDepth::Eight, BitDepth::Ten)
        .expect_err("expected rejection");
    assert!(err.contains("--hdr10 requires 10-bit source frames"));
}

#[test]
fn bit_depth_mismatch_is_rejected_without_scaling() {
    let err = validate_bit_depth_constraints(false, BitDepth::Eight, BitDepth::Ten)
        .expect_err("expected mismatch rejection");
    assert!(err.contains("Automatic bit-depth scaling was removed"));
}

#[test]
fn matching_bit_depths_are_accepted() {
    assert!(validate_bit_depth_constraints(true, BitDepth::Ten, BitDepth::Ten).is_ok());
    assert!(validate_bit_depth_constraints(false, BitDepth::Eight, BitDepth::Eight).is_ok());
}

#[test]
fn heic_avif_auto_gain_map_path_trigger_conditions() {
    assert!(should_use_auto_heic_gain_map(true, OutputFormat::Avif, BitDepth::Eight, true, false));
    assert!(!should_use_auto_heic_gain_map(true, OutputFormat::Avif, BitDepth::Eight, true, true));
    assert!(!should_use_auto_heic_gain_map(true, OutputFormat::Ivf, BitDepth::Eight, true, false));
    assert!(!should_use_auto_heic_gain_map(true, OutputFormat::Avif, BitDepth::Ten, true, false));
    assert!(!should_use_auto_heic_gain_map(false, OutputFormat::Avif, BitDepth::Eight, true, false));
    assert!(!should_use_auto_heic_gain_map(true, OutputFormat::Avif, BitDepth::Eight, false, false));
}

#[test]
fn oversized_ivf_output_is_rejected() {
    let err = validate_output_dimensions(OutputFormat::Ivf, 70_000, 1_000)
        .expect_err("expected IVF rejection");
    assert!(err.contains("IVF output does not support dimensions above 65535x65535"));
}

#[test]
fn oversized_mp4_output_is_rejected() {
    let err = validate_output_dimensions(OutputFormat::Mp4, 1_000, 70_000)
        .expect_err("expected MP4 rejection");
    assert!(err.contains("MP4 output does not support dimensions above 65535x65535"));
}

#[test]
fn oversized_avif_output_is_allowed() {
    validate_output_dimensions(OutputFormat::Avif, 70_000, 70_000).expect("expected AVIF ok");
}

#[test]
fn detect_format_by_extension() {
    assert_eq!(detect_format("out.mp4"), OutputFormat::Mp4);
    assert_eq!(detect_format("OUT.M4V"), OutputFormat::Mp4);
    assert_eq!(detect_format("a/b/pic.AvIf"), OutputFormat::Avif);
    assert_eq!(detect_format("clip.ivf"), OutputFormat::Ivf);
    assert_eq!(detect_format("noext"), OutputFormat::Ivf);
    assert_eq!(detect_format(".mp4"), OutputFormat::Ivf);
}

#[test]
fn parse_bitrate_suffixes() {
    assert_eq!(parse_bitrate("500"), Ok(500));
    assert_eq!(parse_bitrate("500k"), Ok(500_000));
    assert_eq!(parse_bitrate("2M"), Ok(2_000_000));
    assert_eq!(parse_bitrate("x"), Err("invalid bitrate: x".to_string()));
    assert_eq!(parse_bitrate("k"), Err("invalid bitrate: k".to_string()));
}

#[test]
fn parse_color_range_names() {
    assert_eq!(parse_color_range("tv"), Ok(ColorRange::Limited));
    assert_eq!(parse_color_range("limited"), Ok(ColorRange::Limited));
    assert_eq!(parse_color_range("pc"), Ok(ColorRange::Full));
    assert_eq!(parse_color_range("full"), Ok(ColorRange::Full));
    assert_eq!(parse_color_range("Full"), Err("invalid color range: Full".to_string()));
}

#[test]
fn parse_bit_depth_values() {
    assert_eq!(parse_bit_depth("8"), Ok(BitDepth::Eight));
    assert_eq!(parse_bit_depth("10"), Ok(BitDepth::Ten));
    assert_eq!(parse_bit_depth("12"), Err("unsupported bit depth: 12".to_string()));
    assert_eq!(parse_bit_depth("300"), Err("invalid bit depth: 300".to_string()));
}

#[test]
fn parse_mdcv_ten_fields() {
    let m = parse_mdcv("34000,16000,13250,34500,7500,3000,15635,16450,10000000,1").unwrap();
    assert_eq!(m.primaries, [[34000, 16000], [13250, 34500], [7500, 3000]]);
    assert_eq!(m.white_point, [15635, 16450]);
    assert_eq!(m.max_luminance, 10_000_000);
    assert_eq!(m.min_luminance, 1);
    assert!(parse_mdcv("1,2,3").is_err());
    assert!(parse_mdcv("70000,1,1,1,1,1,1,1,1,1").is_err());
}
