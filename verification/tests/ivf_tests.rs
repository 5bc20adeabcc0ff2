use wav1c::ivf::{write_ivf_frame, write_ivf_header};

#[test]
fn ivf_header_64x64() {
    let mut buf = Vec::new();
    write_ivf_header(&mut buf, 64, 64, 1).unwrap();
    assert_eq!(buf.len(), 32);
    assert_eq!(&buf[0..4], b"DKIF");
    assert_eq!(&buf[4..6], &0u16.to_le_bytes());
    assert_eq!(&buf[6..8], &32u16.to_le_bytes());
    assert_eq!(&buf[8..12], b"AV01");
    assert_eq!(&buf[12..14], &64u16.to_le_bytes());
    assert_eq!(&buf[14..16], &64u16.to_le_bytes());
    assert_eq!(&buf[16..20], &25u32.to_le_bytes());
    assert_eq!(&buf[20..24], &1u32.to_le_bytes());
    assert_eq!(&buf[24..28], &1u32.to_le_bytes());
    assert_eq!(&buf[28..32], &0u32.to_le_bytes());
}

#[test]
fn ivf_frame_wrapper() {
    let mut buf = Vec::new();
    let data = vec![0xAA, 0xBB, 0xCC];
    write_ivf_frame(&mut buf, 0, &data).unwrap();
    assert_eq!(buf.len(), 12 + 3);
    assert_eq!(&buf[0..4], &3u32.to_le_bytes());
    assert_eq!(&buf[4..12], &0u64.to_le_bytes());
    assert_eq!(&buf[12..], &[0xAA, 0xBB, 0xCC]);
}

#[test]
fn ivf_frame_timestamp_is_little_endian() {
    let mut buf = vec![9u8];
    write_ivf_frame(&mut buf, 0x0102_0304_0506_0708, &[]).unwrap();
    assert_eq!(buf.len(), 1 + 12);
    assert_eq!(buf[0], 9);
    assert_eq!(&buf[5..13], &0x0102_0304_0506_0708u64.to_le_bytes());
}
