use wav1c::ffi_config::{
    build_encoder_config, pack_u16_plane, pack_u8_plane, packed_samples, parse_code_point, parse_color_range,
    parse_flag, parse_stride, required_plane_len, validate_plane_layout, Wav1cConfig,
};
use wav1c::fps::Fps;
use wav1c::video::{BitDepth, ColorRange, ContentLightLevel};

fn base_config() -> Wav1cConfig {
    Wav1cConfig {
        base_q_idx: 128,
        keyint: 25,
        target_bitrate: 0,
        fps_num: 25,
        fps_den: 1,
        b_frames: 0,
        gop_size: 0,
        bit_depth: 8,
        color_range: 0,
        color_primaries: -1,
        transfer_characteristics: -1,
        matrix_coefficients: -1,
        has_cll: 0,
        max_cll: 0,
        max_fall: 0,
        has_mdcv: 0,
        red_x: 0,
        red_y: 0,
        green_x: 0,
        green_y: 0,
        blue_x: 0,
        blue_y: 0,
        white_x: 0,
        white_y: 0,
        max_luminance: 0,
        min_luminance: 0,
    }
}

#[test]
fn parse_flag_accepts_zero_and_one() {
    assert_eq!(parse_flag("b_frames", 0), Ok(false));
    assert_eq!(parse_flag("b_frames", 1), Ok(true));
    assert_eq!(parse_flag("b_frames", 2), Err("b_frames must be 0 or 1".to_string()));
}

#[test]
fn ffi_color_range_codes() {
    assert_eq!(parse_color_range(0), Ok(ColorRange::Limited));
    assert_eq!(parse_color_range(1), Ok(ColorRange::Full));
    assert!(parse_color_range(2).is_err());
}

#[test]
fn code_points_fit_a_byte() {
    assert_eq!(parse_code_point("matrix", 255), Ok(255));
    assert_eq!(parse_code_point("matrix", 256), Err("matrix must be in 0..=255".to_string()));
}

#[test]
fn build_encoder_config_defaults() {
    let c = build_encoder_config(&base_config()).unwrap();
    assert_eq!(c.gop_size, 3);
    assert_eq!(c.target_bitrate, None);
    assert_eq!(c.fps, Fps { num: 25, den: 1 });
    assert_eq!(c.video_signal.bit_depth, BitDepth::Eight);
    assert_eq!(c.video_signal.color_description, None);
    assert_eq!(c.content_light, None);
}

#[test]
fn build_encoder_config_refusals() {
    let mut c = base_config();
    c.fps_den = 0;
    assert!(build_encoder_config(&c).is_err());
    let mut c = base_config();
    c.color_primaries = 1;
    assert!(build_encoder_config(&c).is_err());
    let mut c = base_config();
    c.color_range = 3;
    assert!(build_encoder_config(&c).is_err());
    let mut c = base_config();
    c.bit_depth = 12;
    assert!(build_encoder_config(&c).is_err());
}

#[test]
fn build_encoder_config_reads_light_levels() {
    let mut c = base_config();
    c.has_cll = 1;
    c.max_cll = 1000;
    c.max_fall = 300;
    c.gop_size = 5;
    c.target_bitrate = 400_000;
    let e = build_encoder_config(&c).unwrap();
    assert_eq!(
        e.content_light,
        Some(ContentLightLevel { max_content_light_level: 1000, max_frame_average_light_level: 300 })
    );
    assert_eq!(e.gop_size, 5);
    assert_eq!(e.target_bitrate, Some(400_000));
}

#[test]
fn strides_and_plane_lengths() {
    assert_eq!(parse_stride(0, 64, "y"), Ok(64));
    assert_eq!(parse_stride(80, 64, "y"), Ok(80));
    assert!(parse_stride(32, 64, "y").is_err());
    assert_eq!(required_plane_len(64, 2, 80, "y"), Ok(144));
    assert!(required_plane_len(0, 2, 80, "y").is_err());
    assert!(validate_plane_layout(64, 2, 80, 143, "y").is_err());
    assert!(validate_plane_layout(64, 2, 80, 144, "y").is_ok());
    assert_eq!(packed_samples(3, 4, "y"), Ok(12));
    assert!(packed_samples(usize::MAX, 2, "y").is_err());
}

#[test]
fn packing_drops_row_padding() {
    let src = [1u8, 2, 9, 3, 4, 9];
    assert_eq!(pack_u8_plane(&src, 2, 2, 3), Ok(vec![1, 2, 3, 4]));
    let src16 = [10u16, 20, 99, 30, 40];
    assert_eq!(pack_u16_plane(&src16, 2, 2, 3), Ok(vec![10, 20, 30, 40]));
    assert!(pack_u8_plane(&src[..4], 2, 2, 3).is_err());
}
