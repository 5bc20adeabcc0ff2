use wav1c::apple_hdr::{apple_maker_note_is_readable, contains_bytes, extract_plane, source_nclx};
use wav1c::video::ColorDescription;
use wav1c::avif_hdr::{tmap_layout_fits, AvifConfig};
use wav1c::video::{BitDepth, ColorRange, VideoSignal};
use wav1c::y4m::y4m_is_readable;

#[test]
fn y4m_header_with_ordinary_size_is_readable() {
    let mut data = b"YUV4MPEG2 W4 H2 F25:1 C420jpeg\nFRAME\n".to_vec();
    data.extend_from_slice(&[0u8; 12]);
    assert!(y4m_is_readable(&data));
    assert!(y4m_is_readable(b"no newline at all"));
}

#[test]
fn y4m_header_with_oversized_area_is_not_readable() {
    let data = b"YUV4MPEG2 W70000 H70000 F25:1 C420jpeg\n".to_vec();
    assert!(!y4m_is_readable(&data));
}

#[test]
fn empty_maker_note_is_readable() {
    assert!(apple_maker_note_is_readable(&[]));
}

#[test]
fn extract_plane_reads_bytes_and_little_endian_words() {
    let data = [1u8, 2, 0, 3, 4, 0];
    assert_eq!(extract_plane(&data, 3, 2, 2, BitDepth::Eight), vec![1, 2, 3, 4]);
    let wide = [0x10u8, 0x02, 0x20, 0x01, 0xff, 0x30, 0x00, 0x40, 0x03];
    assert_eq!(extract_plane(&wide, 5, 2, 2, BitDepth::Ten), vec![0x0210, 0x0120, 0x0030, 0x0340]);
}

#[test]
fn small_gain_map_layout_fits() {
    let signal = VideoSignal { bit_depth: BitDepth::Eight, color_range: ColorRange::Full, color_description: None };
    let base = AvifConfig {
        width: 64,
        height: 64,
        config_obus: vec![0x0a, 0x01, 0x00],
        video_signal: signal,
        content_light: None,
        mastering_display: None,
    };
    let gain = AvifConfig {
        width: 32,
        height: 32,
        config_obus: vec![0x0a, 0x01, 0x00],
        video_signal: signal,
        content_light: None,
        mastering_display: None,
    };
    assert!(tmap_layout_fits(&base, &[0x32, 0x00], &gain, &[0u8; 62]));
}

#[test]
fn contains_bytes_finds_windows() {
    assert!(contains_bytes(b"xxHDRGainMapVersion=1", b"HDRGainMapVersion"));
    assert!(!contains_bytes(b"HDRGainMap", b"HDRGainMapVersion"));
    assert!(contains_bytes(b"abc", b"c"));
    assert!(!contains_bytes(b"", b"c"));
}

#[test]
fn source_nclx_needs_all_three_code_points() {
    let n = source_nclx(1, Some(9), Some(16), Some(9));
    assert_eq!(n.color_range, ColorRange::Full);
    assert_eq!(
        n.color_description,
        Some(ColorDescription { color_primaries: 9, transfer_characteristics: 16, matrix_coefficients: 9 })
    );
    let m = source_nclx(0, Some(9), None, Some(9));
    assert_eq!(m.color_range, ColorRange::Limited);
    assert_eq!(m.color_description, None);
}
