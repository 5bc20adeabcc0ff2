use wav1c::apple_hdr::{
    extract_maker_note_blob, extract_tiff_payload, parse_apple_maker_note_scalars,
    HDR_GAIN_TAG, HDR_HEADROOM_TAG,
};

fn sample_maker_note() -> Vec<u8> {
    let mut data = vec![0u8; 128];
    data[0..9].copy_from_slice(b"Apple iOS");
    data[12..14].copy_from_slice(b"MM");
    data[14..16].copy_from_slice(&2u16.to_be_bytes());

    let first = 16usize;
    data[first..first + 2].copy_from_slice(&HDR_HEADROOM_TAG.to_be_bytes());
    data[first + 2..first + 4].copy_from_slice(&10u16.to_be_bytes());
    data[first + 4..first + 8].copy_from_slice(&1u32.to_be_bytes());
    data[first + 8..first + 12].copy_from_slice(&64u32.to_be_bytes());

    let second = 28usize;
    data[second..second + 2].copy_from_slice(&HDR_GAIN_TAG.to_be_bytes());
    data[second + 2..second + 4].copy_from_slice(&10u16.to_be_bytes());
    data[second + 4..second + 8].copy_from_slice(&1u32.to_be_bytes());
    data[second + 8..second + 12].copy_from_slice(&72u32.to_be_bytes());

    data[64..68].copy_from_slice(&48400i32.to_be_bytes());
    data[68..72].copy_from_slice(&65123i32.to_be_bytes());
    data[72..76].copy_from_slice(&1804i32.to_be_bytes());
    data[76..80].copy_from_slice(&556975i32.to_be_bytes());

    data
}

#[test]
fn parse_apple_maker_note_extracts_expected_tags() {
    let note = sample_maker_note();
    let parsed = parse_apple_maker_note_scalars(&note).expect("parse should succeed");
    assert_eq!(parsed.hdr_headroom.numerator, 48400);
    assert_eq!(parsed.hdr_headroom.denominator, 65123);
    assert_eq!(parsed.hdr_gain.numerator, 1804);
    assert_eq!(parsed.hdr_gain.denominator, 556975);
}

#[test]
fn parse_apple_maker_note_fails_on_missing_tag() {
    let mut note = sample_maker_note();
    note[28..30].copy_from_slice(&0x0040u16.to_be_bytes());
    let err = parse_apple_maker_note_scalars(&note).unwrap_err();
    assert!(err.contains("0x0030"));
}

#[test]
fn parse_apple_maker_note_fails_on_zero_denominator() {
    let mut note = sample_maker_note();
    note[68..72].copy_from_slice(&0i32.to_be_bytes());
    let err = parse_apple_maker_note_scalars(&note).unwrap_err();
    assert!(err.contains("zero denominator"));
}

#[test]
fn maker_note_moves_negative_denominator_sign() {
    let mut note = sample_maker_note();
    note[64..68].copy_from_slice(&7i32.to_be_bytes());
    note[68..72].copy_from_slice(&(-2i32).to_be_bytes());
    let parsed = parse_apple_maker_note_scalars(&note).unwrap();
    assert_eq!(parsed.hdr_headroom.numerator, -7);
    assert_eq!(parsed.hdr_headroom.denominator, 2);
}

#[test]
fn maker_note_rejects_other_formats() {
    let mut note = sample_maker_note();
    note[0] = b'X';
    assert!(parse_apple_maker_note_scalars(&note).unwrap_err().contains("Apple iOS"));
    let mut note = sample_maker_note();
    note[12] = b'I';
    assert!(parse_apple_maker_note_scalars(&note).unwrap_err().contains("MM marker"));
    let mut note = sample_maker_note();
    note[18..20].copy_from_slice(&3u16.to_be_bytes());
    assert!(parse_apple_maker_note_scalars(&note).unwrap_err().contains("type/count"));
}

#[test]
fn tiff_payload_found_after_offset() {
    let mut raw = vec![0u8, 0, 0, 2, 9, 9];
    raw.extend_from_slice(b"MM\x00\x2a\x00\x00\x00\x08");
    let t = extract_tiff_payload(&raw).unwrap();
    assert_eq!(&t[0..4], b"MM\x00\x2a");
    assert!(extract_tiff_payload(b"nothing here").is_none());
}

#[test]
fn maker_note_blob_from_tiff() {
    // Little-endian TIFF: IFD0 at 8 with one entry pointing to the Exif IFD at 26,
    // which has one MakerNote entry of 6 undefined bytes at offset 44.
    let mut t = Vec::new();
    t.extend_from_slice(b"II\x2a\x00");
    t.extend_from_slice(&8u32.to_le_bytes());
    t.extend_from_slice(&1u16.to_le_bytes());
    t.extend_from_slice(&0x8769u16.to_le_bytes());
    t.extend_from_slice(&4u16.to_le_bytes());
    t.extend_from_slice(&1u32.to_le_bytes());
    t.extend_from_slice(&26u32.to_le_bytes());
    assert_eq!(t.len(), 22);
    t.extend_from_slice(&[0, 0, 0, 0]);
    t.extend_from_slice(&1u16.to_le_bytes());
    t.extend_from_slice(&0x927cu16.to_le_bytes());
    t.extend_from_slice(&7u16.to_le_bytes());
    t.extend_from_slice(&6u32.to_le_bytes());
    t.extend_from_slice(&44u32.to_le_bytes());
    assert_eq!(t.len(), 40);
    t.extend_from_slice(&[0, 0, 0, 0]);
    t.extend_from_slice(b"abcdef");
    let blob = extract_maker_note_blob(&t).unwrap();
    assert_eq!(blob, b"abcdef".to_vec());
    assert!(extract_maker_note_blob(b"XX\x2a\x00\x08\x00\x00\x00").is_err());
}
