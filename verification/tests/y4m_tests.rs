use wav1c::video::{BitDepth, ColorRange};
use wav1c::y4m::{FramePixels, Y4mError};

fn create_test_y4m(width: u32, height: u32, y_val: u8, u_val: u8, v_val: u8) -> Vec<u8> {
    let header = format!("YUV4MPEG2 W{} H{} F30:1 Ip C420jpeg\n", width, height);
    let mut data = header.into_bytes();
    data.extend_from_slice(b"FRAME\n");
    let y_size = (width * height) as usize;
    let uv_w = width.div_ceil(2) as usize;
    let uv_h = height.div_ceil(2) as usize;
    let uv_size = uv_w * uv_h;
    data.extend(vec![y_val; y_size]);
    data.extend(vec![u_val; uv_size]);
    data.extend(vec![v_val; uv_size]);
    data
}

#[test]
fn y4m_parse_solid_y4m() {
    let y4m = create_test_y4m(64, 64, 128, 128, 128);
    let pixels = FramePixels::from_y4m(&y4m);
    assert_eq!(pixels.width, 64);
    assert_eq!(pixels.height, 64);
    assert_eq!(pixels.y.len(), 64 * 64);
    assert_eq!(pixels.u.len(), 32 * 32);
    assert_eq!(pixels.v.len(), 32 * 32);
    assert!(pixels.y.iter().all(|&p| p == 128));
}

#[test]
fn parse_y4m_no_colorspace() {
    let header = b"YUV4MPEG2 W16 H16 F25:1\n";
    let mut data = header.to_vec();
    data.extend_from_slice(b"FRAME\n");
    data.extend(vec![200u8; 16 * 16]);
    data.extend(vec![100u8; 8 * 8]);
    data.extend(vec![50u8; 8 * 8]);

    let pixels = FramePixels::from_y4m(&data);
    assert_eq!(pixels.width, 16);
    assert_eq!(pixels.height, 16);
    assert!(pixels.y.iter().all(|&p| p == 200));
    assert!(pixels.u.iter().all(|&p| p == 100));
    assert!(pixels.v.iter().all(|&p| p == 50));
}

#[test]
fn solid_constructor_matches_y4m() {
    let y4m = create_test_y4m(64, 64, 81, 91, 81);
    let from_y4m = FramePixels::from_y4m(&y4m);
    let from_solid = FramePixels::solid(64, 64, 81, 91, 81);

    assert_eq!(from_y4m.y, from_solid.y);
    assert_eq!(from_y4m.u, from_solid.u);
    assert_eq!(from_y4m.v, from_solid.v);
}

#[test]
fn solid_odd_dimensions() {
    let pixels = FramePixels::solid(17, 33, 128, 128, 128);
    assert_eq!(pixels.y.len(), 17 * 33);
    assert_eq!(pixels.u.len(), 9 * 17);
    assert_eq!(pixels.v.len(), 9 * 17);
}

#[test]
fn parse_10bit_y4m() {
    let mut data =
        b"YUV4MPEG2 W2 H2 F1:1 Ip C420p10 XYSCSS=420P10 XCOLORRANGE=FULL\nFRAME\n".to_vec();
    let samples = [
        1023u16, 900, 512, 0,   // Y
        512, // U
        600, // V
    ];
    for s in samples {
        data.extend_from_slice(&s.to_le_bytes());
    }
    let pixels = FramePixels::from_y4m(&data);
    assert_eq!(pixels.bit_depth, BitDepth::Ten);
    assert_eq!(pixels.color_range, ColorRange::Full);
    assert_eq!(pixels.y, vec![1023, 900, 512, 0]);
    assert_eq!(pixels.u, vec![512]);
    assert_eq!(pixels.v, vec![600]);
}

#[test]
fn parse_frame_header_with_params() {
    let header = b"YUV4MPEG2 W2 H2 F1:1 Ip C420p10\n";
    let mut data = header.to_vec();
    data.extend_from_slice(b"FRAME XCOLORRANGE=FULL\n");
    for s in [100u16, 200, 300, 400, 500, 600] {
        data.extend_from_slice(&s.to_le_bytes());
    }

    let frame = FramePixels::from_y4m(&data);
    assert_eq!(frame.color_range, ColorRange::Full);
}

#[test]
fn parse_errors_are_typed() {
    let err = FramePixels::try_all_from_y4m(b"bad data").unwrap_err();
    assert!(matches!(
        err,
        Y4mError::MissingHeader | Y4mError::InvalidHeader(_)
    ));
}


#[test]
fn y4m_missing_newline_is_missing_header() {
    let err = FramePixels::try_all_from_y4m(b"YUV4MPEG2 W2 H2").unwrap_err();
    assert_eq!(err, Y4mError::MissingHeader);
}

#[test]
fn y4m_wrong_magic_is_invalid_header() {
    let err = FramePixels::try_all_from_y4m(b"YUV4MPEG W2 H2\nFRAME\n").unwrap_err();
    assert_eq!(err, Y4mError::InvalidHeader("Not a YUV4MPEG2 file"));
}

#[test]
fn y4m_bad_header_utf8_is_reported() {
    let err = FramePixels::try_all_from_y4m(b"YUV4MPEG2 \xff\n").unwrap_err();
    assert_eq!(err, Y4mError::InvalidHeaderUtf8);
}

#[test]
fn y4m_zero_width_is_invalid_dimensions() {
    let err = FramePixels::try_all_from_y4m(b"YUV4MPEG2 W0 H2\nFRAME\n").unwrap_err();
    assert_eq!(err, Y4mError::InvalidDimensions);
}

#[test]
fn y4m_bad_width_is_invalid_header() {
    let err = FramePixels::try_all_from_y4m(b"YUV4MPEG2 W-2 H2\nFRAME\n").unwrap_err();
    assert_eq!(err, Y4mError::InvalidHeader("Invalid width"));
    let err = FramePixels::try_all_from_y4m(b"YUV4MPEG2 W2 H99999999999\nFRAME\n").unwrap_err();
    assert_eq!(err, Y4mError::InvalidHeader("Invalid height"));
}

#[test]
fn y4m_plus_sign_width_is_accepted() {
    let mut data = b"YUV4MPEG2 W+2 H2\nFRAME\n".to_vec();
    data.extend_from_slice(&[1, 2, 3, 4, 5, 6]);
    let frames = FramePixels::try_all_from_y4m(&data).unwrap();
    assert_eq!(frames[0].width, 2);
    assert_eq!(frames[0].y, vec![1, 2, 3, 4]);
    assert_eq!(frames[0].u, vec![5]);
    assert_eq!(frames[0].v, vec![6]);
}

#[test]
fn y4m_non_420_is_unsupported() {
    let err = FramePixels::try_all_from_y4m(b"YUV4MPEG2 W2 H2 C444\nFRAME\n").unwrap_err();
    assert_eq!(err, Y4mError::UnsupportedColorspace("444".to_string()));
}

#[test]
fn y4m_no_frames_is_no_frame_marker() {
    let err = FramePixels::try_all_from_y4m(b"YUV4MPEG2 W2 H2\n").unwrap_err();
    assert_eq!(err, Y4mError::NoFrameMarker);
}

#[test]
fn y4m_bad_frame_line_is_no_frame_marker() {
    let mut data = b"YUV4MPEG2 W2 H2\nFRAMX\n".to_vec();
    data.extend_from_slice(&[0; 6]);
    let err = FramePixels::try_all_from_y4m(&data).unwrap_err();
    assert_eq!(err, Y4mError::NoFrameMarker);
}

#[test]
fn y4m_short_frame_is_truncated() {
    let mut data = b"YUV4MPEG2 W2 H2\nFRAME\n".to_vec();
    data.extend_from_slice(&[0; 5]);
    let err = FramePixels::try_all_from_y4m(&data).unwrap_err();
    assert_eq!(err, Y4mError::TruncatedFrameData);
}

#[test]
fn y4m_reads_every_frame_with_its_range() {
    let mut data = b"YUV4MPEG2 W2 H2 XCOLORRANGE=FULL\n".to_vec();
    data.extend_from_slice(b"FRAME\n");
    data.extend_from_slice(&[1, 1, 1, 1, 2, 3]);
    data.extend_from_slice(b"FRAME XCOLORRANGE=LIMITED\n");
    data.extend_from_slice(&[4, 4, 4, 4, 5, 6]);
    data.extend_from_slice(b"\n");
    data.extend_from_slice(&[7, 7, 7, 7, 8, 9]);
    let frames = FramePixels::all_from_y4m(&data);
    assert_eq!(frames.len(), 3);
    assert_eq!(frames[0].color_range, ColorRange::Full);
    assert_eq!(frames[1].color_range, ColorRange::Limited);
    assert_eq!(frames[2].color_range, ColorRange::Full);
    assert_eq!(frames[1].y, vec![4, 4, 4, 4]);
    assert_eq!(frames[2].v, vec![9]);
    assert_eq!(frames[0].bit_depth, BitDepth::Eight);
}

#[test]
fn y4m_try_from_takes_first_frame() {
    let mut data = b"YUV4MPEG2 W2 H2\nFRAME\n".to_vec();
    data.extend_from_slice(&[1, 1, 1, 1, 2, 3]);
    data.extend_from_slice(b"FRAME\n");
    data.extend_from_slice(&[4, 4, 4, 4, 5, 6]);
    let f = FramePixels::try_from_y4m(&data).unwrap();
    assert_eq!(f.y, vec![1, 1, 1, 1]);
}

#[test]
fn grid_alternates_cells() {
    let f = FramePixels::grid(4, 2, 1, [200, 100, 50], [10, 20, 30], BitDepth::Eight, ColorRange::Limited);
    assert_eq!(f.y, vec![200, 10, 200, 10, 10, 200, 10, 200]);
    assert_eq!(f.u, vec![100, 100]);
    assert_eq!(f.v, vec![50, 50]);
    let g = FramePixels::grid(4, 4, 2, [1, 2, 3], [4, 5, 6], BitDepth::Ten, ColorRange::Full);
    assert_eq!(g.y[0..4], [1, 1, 4, 4]);
    assert_eq!(g.u, vec![2, 5, 5, 2]);
    assert_eq!(g.bit_depth, BitDepth::Ten);
}
