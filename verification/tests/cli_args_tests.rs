use wav1c::cli::bitrate_fits;
use wav1c::cli_args::{parse_cli, parse_option, strip_options, CliError, InputMode};
use wav1c::fps::Fps;
use wav1c::video::{BitDepth, ColorDescription, ColorRange, ContentLightLevel};

fn words(s: &[&str]) -> Vec<String> {
    s.iter().map(|w| w.to_string()).collect()
}

#[test]
fn parse_cli_reads_y4m_input_with_defaults() {
    let a = parse_cli(&words(&["in.y4m", "-o", "out.ivf"])).unwrap();
    assert_eq!(a.input, InputMode::Y4m("in.y4m".to_string()));
    assert_eq!(a.output_path, "out.ivf");
    assert_eq!(a.config.base_q_idx, 128);
    assert_eq!(a.config.keyint, 25);
    assert_eq!(a.config.target_bitrate, None);
    assert_eq!(a.config.fps, Fps { num: 25, den: 1 });
    assert_eq!(a.config.gop_size, 3);
    assert!(!a.config.b_frames);
    assert_eq!(a.config.video_signal.bit_depth, BitDepth::Eight);
    assert_eq!(a.config.video_signal.color_range, ColorRange::Limited);
    assert!(!a.fps_explicit && !a.bit_depth_explicit && !a.color_range_explicit && !a.hdr10_requested);
}

#[test]
fn parse_cli_reads_options() {
    let a = parse_cli(&words(&[
        "-q", "90", "--keyint", "10", "--bitrate", "2M", "--fps", "30000/1001", "--color-range", "full",
        "in.y4m", "-o", "out.mp4",
    ]))
    .unwrap();
    assert_eq!(a.config.base_q_idx, 90);
    assert_eq!(a.config.keyint, 10);
    assert_eq!(a.config.target_bitrate, Some(2_000_000));
    assert_eq!(a.config.fps, Fps { num: 30000, den: 1001 });
    assert_eq!(a.config.video_signal.color_range, ColorRange::Full);
    assert!(a.fps_explicit && a.color_range_explicit);
}

#[test]
fn parse_cli_solid_and_grid_inputs() {
    let a = parse_cli(&words(&["64", "48", "16", "128", "128", "-o", "x.ivf"])).unwrap();
    assert_eq!(a.input, InputMode::Solid { width: 64, height: 48, y: 16, u: 128, v: 128 });
    let g = parse_cli(&words(&["64", "48", "--pattern", "grid", "-o", "x.ivf"])).unwrap();
    assert_eq!(g.input, InputMode::Grid { width: 64, height: 48 });
    let h = parse_cli(&words(&["photo.heic", "-o", "x.avif"])).unwrap();
    assert_eq!(h.input, InputMode::Heic("photo.heic".to_string()));
}

#[test]
fn parse_cli_hdr10_sets_signal() {
    let a = parse_cli(&words(&["--hdr10", "in.y4m", "-o", "x.ivf"])).unwrap();
    assert!(a.hdr10_requested);
    assert_eq!(a.config.video_signal.bit_depth, BitDepth::Ten);
    assert_eq!(
        a.config.video_signal.color_description,
        Some(ColorDescription { color_primaries: 9, transfer_characteristics: 16, matrix_coefficients: 9 })
    );
}

#[test]
fn parse_cli_colour_and_light_come_together() {
    let a = parse_cli(&words(&[
        "--color-primaries", "1", "--transfer", "13", "--matrix", "6", "--max-cll", "1000", "--max-fall", "400",
        "in.y4m", "-o", "x.ivf",
    ]))
    .unwrap();
    assert!(a.color_description_explicit);
    assert_eq!(
        a.config.video_signal.color_description,
        Some(ColorDescription { color_primaries: 1, transfer_characteristics: 13, matrix_coefficients: 6 })
    );
    assert_eq!(
        a.config.content_light,
        Some(ContentLightLevel { max_content_light_level: 1000, max_frame_average_light_level: 400 })
    );
    assert!(matches!(
        parse_cli(&words(&["--color-primaries", "1", "in.y4m", "-o", "x.ivf"])),
        Err(CliError::Invalid(_))
    ));
    assert!(matches!(parse_cli(&words(&["--max-cll", "1", "in.y4m", "-o", "x.ivf"])), Err(CliError::Invalid(_))));
}

#[test]
fn parse_cli_errors() {
    assert_eq!(parse_cli(&words(&["in.y4m"])).err(), Some(CliError::Usage));
    assert_eq!(parse_cli(&words(&["in.y4m", "-o"])).err(), Some(CliError::Usage));
    assert_eq!(parse_cli(&words(&["a", "b", "-o", "x.ivf"])).err(), Some(CliError::Usage));
    assert_eq!(
        parse_cli(&words(&["-q", "300", "in.y4m", "-o", "x.ivf"])).err(),
        Some(CliError::Invalid("invalid -q value: 300".to_string()))
    );
    assert_eq!(
        parse_cli(&words(&["64", "48", "--pattern", "stripes", "-o", "x.ivf"])).err(),
        Some(CliError::Invalid("unknown pattern: stripes\nAvailable patterns: grid".to_string()))
    );
    assert_eq!(
        parse_cli(&words(&["--bitrate", "99999999999999999k", "in.y4m", "-o", "x.ivf"])).err(),
        Some(CliError::BitrateOverflow)
    );
    assert!(matches!(parse_cli(&words(&["--fps", "29.97", "in.y4m", "-o", "x.ivf"])), Err(CliError::Invalid(_))));
}

#[test]
fn bitrate_fits_checks_the_product() {
    assert!(bitrate_fits("500k"));
    assert!(bitrate_fits("garbage"));
    assert!(!bitrate_fits("18446744073709552k"));
    assert!(bitrate_fits("18446744073709551"));
}

#[test]
fn parse_option_reads_first_flag_value() {
    let args = words(&["wav1c", "-q", "42", "--keyint", "7", "in.y4m"]);
    assert_eq!(parse_option(&args, "-q", 255), Some(42));
    assert_eq!(parse_option(&args, "--keyint", u64::MAX), Some(7));
    assert_eq!(parse_option(&args, "-x", 255), None);
    assert_eq!(parse_option(&words(&["-q", "999"]), "-q", 255), None);
    assert_eq!(parse_option(&words(&["in", "-q"]), "-q", 255), None);
}

#[test]
fn strip_options_removes_flags_and_values() {
    let args = words(&["wav1c", "-q", "42", "in.y4m", "--keyint", "7", "-o", "out.ivf", "-q"]);
    assert_eq!(strip_options(&args), words(&["wav1c", "in.y4m", "-o", "out.ivf"]));
}
