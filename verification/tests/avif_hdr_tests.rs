use wav1c::avif_hdr::{
    build_clli, build_item_obu_data, build_mdcv, build_tmap_payload, normalize_positive_unsigned,
    write_avif, write_avif_with_tmap_gain_map, AvifConfig, SignedFraction, ToneMapMetadata,
    UnsignedFraction,
};
use wav1c::video::{
    BitDepth, ColorDescription, ColorRange, ContentLightLevel, MasteringDisplayMetadata,
    VideoSignal,
};

fn sample_signal(bit_depth: BitDepth) -> VideoSignal {
    VideoSignal {
        bit_depth,
        color_range: ColorRange::Full,
        color_description: Some(ColorDescription {
            color_primaries: 9,
            transfer_characteristics: 16,
            matrix_coefficients: 9,
        }),
    }
}

fn contains(haystack: &[u8], needle: &[u8]) -> bool {
    haystack.windows(needle.len()).any(|w| w == needle)
}

#[test]
fn single_item_avif_includes_clli_and_mdcv_properties() {
    let cll = ContentLightLevel {
        max_content_light_level: 480,
        max_frame_average_light_level: 21,
    };
    let mdcv = MasteringDisplayMetadata {
        primaries: [[34000, 16000], [13250, 34500], [7500, 3000]],
        white_point: [15635, 16450],
        max_luminance: 10_000_000,
        min_luminance: 1,
    };
    let config = AvifConfig {
        width: 64,
        height: 64,
        config_obus: vec![0x0A, 0x01, 0x80],
        video_signal: sample_signal(BitDepth::Ten),
        content_light: Some(cll),
        mastering_display: Some(mdcv),
    };

    let mut out = Vec::new();
    write_avif(&mut out, &config, &[0x12, 0x00, 0x11, 0x22]).expect("write");

    assert!(contains(&out, &build_clli(&cll)));
    assert!(contains(&out, &build_mdcv(&mdcv)));
}

#[test]
fn single_item_avif_omits_hdr_item_properties_when_unset() {
    let config = AvifConfig {
        width: 64,
        height: 64,
        config_obus: vec![0x0A, 0x01, 0x80],
        video_signal: sample_signal(BitDepth::Ten),
        content_light: None,
        mastering_display: None,
    };

    let mut out = Vec::new();
    write_avif(&mut out, &config, &[0x12, 0x00, 0x11, 0x22]).expect("write");

    assert!(!contains(&out, b"clli"));
    assert!(!contains(&out, b"mdcv"));
}

#[test]
fn item_data_uses_config_obus_and_drops_packet_seq_prefix() {
    let config_obus = vec![0x0A, 0x01, 0x1C];
    let packet_data = vec![0x12, 0x00, 0x0A, 0x01, 0x00, 0x32, 0x01, 0xAA];

    let out = build_item_obu_data(&config_obus, &packet_data);

    assert!(out.starts_with(&config_obus));
    assert_eq!(&out[config_obus.len()..], &[0x32, 0x01, 0xAA]);
}

#[test]
fn item_data_keeps_packet_without_size_field() {
    let out = build_item_obu_data(&[1], &[0x08, 0x01, 0x02]);
    assert_eq!(out, vec![1, 0x08, 0x01, 0x02]);
    let out = build_item_obu_data(&[], &[0x2A, 0x05, 0x01]);
    assert_eq!(out, vec![0x2A, 0x05, 0x01]);
}

fn sample_tmap() -> ToneMapMetadata {
    ToneMapMetadata {
        base_hdr_headroom: UnsignedFraction { n: 0, d: 1 },
        alternate_hdr_headroom: UnsignedFraction { n: 1, d: 1 },
        gain_map_min: [SignedFraction { n: -1000, d: 1000 }; 3],
        gain_map_max: [SignedFraction { n: 2000, d: 1000 }; 3],
        gain_map_gamma: [UnsignedFraction { n: 1, d: 1 }; 3],
        base_offset: [SignedFraction { n: 1, d: 64 }; 3],
        alternate_offset: [SignedFraction { n: 1, d: 64 }; 3],
        use_base_color_space: true,
    }
}

#[test]
fn tmap_payload_size_identical_channels_is_62_bytes() {
    let metadata = sample_tmap();
    let payload = build_tmap_payload(&metadata).expect("payload");
    assert_eq!(payload.len(), 62);
    assert_eq!(payload[0], 0);
    assert_eq!(payload[5], 0x40);
}

#[test]
fn tmap_payload_size_multichannel_is_142_bytes() {
    let mut metadata = sample_tmap();
    metadata.gain_map_max[1].n = 2100;
    let payload = build_tmap_payload(&metadata).expect("payload");
    assert_eq!(payload.len(), 142);
    assert_eq!(payload[5], 0xC0);
}

#[test]
fn tmap_payload_rejects_bad_metadata() {
    let mut m = sample_tmap();
    m.alternate_hdr_headroom.d = 0;
    assert_eq!(
        build_tmap_payload(&m).unwrap_err(),
        "tmap headroom denominators must be non-zero"
    );
    let mut m = sample_tmap();
    m.gain_map_gamma[2].n = 0;
    assert!(build_tmap_payload(&m).unwrap_err().contains("channel 2"));
    let mut m = sample_tmap();
    m.gain_map_max[0].n = -2000;
    assert!(build_tmap_payload(&m).unwrap_err().contains("gain_map_max < gain_map_min"));
}

#[test]
fn tmap_payload_bytes_are_big_endian() {
    let payload = build_tmap_payload(&sample_tmap()).unwrap();
    assert_eq!(&payload[14..18], &1u32.to_be_bytes());
    assert_eq!(&payload[22..26], &(-1000i32).to_be_bytes());
}

#[test]
fn normalize_moves_sign_to_numerator() {
    assert_eq!(normalize_positive_unsigned(-3, -4), Ok(UnsignedFraction { n: 3, d: 4 }));
    assert_eq!(
        normalize_positive_unsigned(3, 0),
        Err("fraction denominator is zero".to_string())
    );
    assert_eq!(
        normalize_positive_unsigned(3, -4),
        Err("fraction numerator must be non-negative".to_string())
    );
}

#[test]
fn gain_map_avif_container_has_expected_graph() {
    let base_cfg = AvifConfig {
        width: 640,
        height: 480,
        config_obus: vec![0x01, 0x02, 0x03],
        video_signal: VideoSignal {
            bit_depth: BitDepth::Eight,
            color_range: ColorRange::Full,
            color_description: Some(ColorDescription {
                color_primaries: 1,
                transfer_characteristics: 13,
                matrix_coefficients: 6,
            }),
        },
        content_light: None,
        mastering_display: None,
    };
    let gain_cfg = AvifConfig {
        width: 320,
        height: 240,
        config_obus: vec![0x04, 0x05, 0x06],
        video_signal: VideoSignal {
            bit_depth: BitDepth::Eight,
            color_range: ColorRange::Full,
            color_description: Some(ColorDescription {
                color_primaries: 2,
                transfer_characteristics: 2,
                matrix_coefficients: 2,
            }),
        },
        content_light: None,
        mastering_display: None,
    };
    let tmap = vec![0u8; 62];
    let mut out = Vec::new();
    write_avif_with_tmap_gain_map(
        &mut out,
        &base_cfg,
        &[0x12, 0x00, 0x11, 0x22],
        &gain_cfg,
        &[0x12, 0x00, 0x33, 0x44],
        &tmap,
    )
    .expect("write");

    assert!(contains(&out[..64], b"tmap"));
    assert!(contains(&out, b"miaf"));
    assert!(contains(&out, b"MA1A"));
    assert!(contains(&out, b"\x00\x01\x00\x00av01"));
    assert!(contains(&out, b"\x00\x02\x00\x00tmap"));
    assert!(contains(&out, b"\x00\x03\x00\x00av01"));
    assert!(contains(&out, b"dimg\x00\x02\x00\x02\x00\x01\x00\x03"));
    assert!(contains(
        &out,
        b"altr\x00\x00\x00\x00\x00\x00\x00\x01\x00\x00\x00\x02\x00\x00\x00\x02\x00\x00\x00\x01"
    ));
}
