use wav1c::obu::{leb128_encode, obu_wrap, ObuType};

#[test]
fn leb128_zero() {
    assert_eq!(leb128_encode(0), vec![0x00]);
}

#[test]
fn leb128_small() {
    assert_eq!(leb128_encode(6), vec![0x06]);
}

#[test]
fn leb128_127() {
    assert_eq!(leb128_encode(127), vec![0x7F]);
}

#[test]
fn leb128_128() {
    assert_eq!(leb128_encode(128), vec![0x80, 0x01]);
}

#[test]
fn leb128_300() {
    assert_eq!(leb128_encode(300), vec![0xAC, 0x02]);
}

#[test]
fn obu_temporal_delimiter() {
    let result = obu_wrap(ObuType::TemporalDelimiter, &[]);
    assert_eq!(result, vec![0x12, 0x00]);
}

#[test]
fn obu_sequence_header_6bytes() {
    let payload = vec![0x18, 0x15, 0x7f, 0xfc, 0x00, 0x08];
    let result = obu_wrap(ObuType::SequenceHeader, &payload);
    assert_eq!(result[0], 0x0A);
    assert_eq!(result[1], 0x06);
    assert_eq!(&result[2..], &payload[..]);
}

#[test]
fn obu_frame_16bytes() {
    let payload = vec![0u8; 16];
    let result = obu_wrap(ObuType::Frame, &payload);
    assert_eq!(result[0], 0x32);
    assert_eq!(result[1], 0x10);
    assert_eq!(result.len(), 2 + 16);
}

#[test]
fn leb128_u64_max_takes_ten_bytes() {
    let out = leb128_encode(u64::MAX);
    assert_eq!(out.len(), 10);
    assert_eq!(out[9], 0x01);
    assert!(out[..9].iter().all(|&b| b == 0xFF));
}

#[test]
fn leb128_decodes_back_to_value() {
    for v in [0u64, 1, 127, 128, 300, 16_383, 16_384, 1 << 35, u64::MAX] {
        let bytes = leb128_encode(v);
        let mut value: u64 = 0;
        for (i, b) in bytes.iter().enumerate() {
            value |= ((b & 0x7F) as u64) << (7 * i);
        }
        assert_eq!(value, v);
        assert_eq!(bytes.last().unwrap() & 0x80, 0);
    }
}

#[test]
fn obu_wrap_long_payload_uses_two_byte_size() {
    let payload = vec![7u8; 200];
    let result = obu_wrap(ObuType::Frame, &payload);
    assert_eq!(&result[..3], &[0x32, 0xC8, 0x01]);
    assert_eq!(result.len(), 3 + 200);
}
