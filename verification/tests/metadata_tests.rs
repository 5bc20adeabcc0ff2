use wav1c::metadata::{encode_hdr_cll, encode_hdr_mdcv};
use wav1c::video::{ContentLightLevel, MasteringDisplayMetadata};

#[test]
fn cll_payload_shape() {
    let payload = encode_hdr_cll(&ContentLightLevel {
        max_content_light_level: 1000,
        max_frame_average_light_level: 400,
    });
    assert_eq!(payload[0], 1);
    assert_eq!(payload.len(), 1 + 4 + 1);
}

#[test]
fn mdcv_payload_shape() {
    let payload = encode_hdr_mdcv(&MasteringDisplayMetadata {
        primaries: [[34000, 16000], [13250, 34500], [7500, 3000]],
        white_point: [15635, 16450],
        max_luminance: 10000000,
        min_luminance: 1,
    });
    assert_eq!(payload[0], 2);
    assert_eq!(payload.len(), 1 + 24 + 1);
}

#[test]
fn cll_payload_bytes() {
    let payload = encode_hdr_cll(&ContentLightLevel {
        max_content_light_level: 1000,
        max_frame_average_light_level: 400,
    });
    assert_eq!(payload, vec![1, 0x03, 0xE8, 0x01, 0x90, 0x80]);
}

#[test]
fn mdcv_payload_bytes() {
    let payload = encode_hdr_mdcv(&MasteringDisplayMetadata {
        primaries: [[1, 2], [3, 4], [5, 6]],
        white_point: [7, 8],
        max_luminance: 0x0102_0304,
        min_luminance: 9,
    });
    let mut expected = vec![2u8];
    for v in [1u16, 2, 3, 4, 5, 6, 7, 8] {
        expected.extend_from_slice(&v.to_be_bytes());
    }
    expected.extend_from_slice(&0x0102_0304u32.to_be_bytes());
    expected.extend_from_slice(&9u32.to_be_bytes());
    expected.push(0x80);
    assert_eq!(payload, expected);
}
