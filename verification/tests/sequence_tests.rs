use wav1c::fps::Fps;
use wav1c::bitwriter::BitWriter;
use wav1c::sequence::{
    bits_needed, derive_sequence_level_idx, encode_sequence_header, encode_sequence_header_with_level,
    encode_still_picture_sequence_header, encode_still_picture_sequence_header_with_level,
    SEQ_LEVEL_IDX_5_1, SEQ_LEVEL_IDX_MAX_PARAMETERS,
};
use wav1c::video::{ColorRange, VideoSignal};

#[test]
fn bits_needed_zero() {
    assert_eq!(bits_needed(0), 1);
}

#[test]
fn bits_needed_one() {
    assert_eq!(bits_needed(1), 1);
}

#[test]
fn bits_needed_63() {
    assert_eq!(bits_needed(63), 6);
}

#[test]
fn bits_needed_99() {
    assert_eq!(bits_needed(99), 7);
}

#[test]
fn bits_needed_1919() {
    assert_eq!(bits_needed(1919), 11);
}

#[test]
fn sequence_header_64x64() {
    let bytes = encode_sequence_header(64, 64, &VideoSignal::default());

    let mut expected = BitWriter::new();
    expected.write_bits(0, 3);
    expected.write_bit(false);
    expected.write_bit(false);
    expected.write_bit(false);
    expected.write_bit(false);
    expected.write_bits(0, 5);
    expected.write_bits(0, 12);
    expected.write_bits(13, 5);
    expected.write_bit(false);
    expected.write_bits(5, 4);
    expected.write_bits(5, 4);
    expected.write_bits(63, 6);
    expected.write_bits(63, 6);
    expected.write_bit(false);
    expected.write_bit(false);
    expected.write_bit(false);
    expected.write_bit(false);
    expected.write_bit(false);
    expected.write_bit(false);
    expected.write_bit(false);
    expected.write_bit(false);
    expected.write_bit(false);
    expected.write_bits(0, 2);
    expected.write_bit(false);
    expected.write_bit(true);
    expected.write_bit(false);
    expected.write_bit(false);
    expected.write_bit(false);
    expected.write_bit(false);
    expected.write_bit(false);
    expected.write_bits(0, 2);
    expected.write_bit(false);
    expected.write_bit(false);

    expected.write_bit(true);

    assert_eq!(bytes, expected.finalize());
}

#[test]
fn sequence_header_100x100() {
    let bytes = encode_sequence_header(100, 100, &VideoSignal::default());
    assert!(bytes.len() >= 8 && bytes.len() <= 12);
}

#[test]
fn sequence_header_320x240() {
    let bytes = encode_sequence_header(320, 240, &VideoSignal::default());
    assert!(bytes.len() >= 8 && bytes.len() <= 12);
}

#[test]
fn sequence_header_1920x1080() {
    let bytes = encode_sequence_header(1920, 1080, &VideoSignal::default());
    assert!(bytes.len() >= 8 && bytes.len() <= 12);
}

#[test]
fn sequence_header_1x1() {
    let bytes = encode_sequence_header(1, 1, &VideoSignal::default());
    assert!(bytes.len() >= 8 && bytes.len() <= 12);
}

#[test]
fn sequence_different_dimensions_produce_different_output() {
    let small = encode_sequence_header(64, 64, &VideoSignal::default());
    let large = encode_sequence_header(1920, 1080, &VideoSignal::default());
    assert_ne!(small, large);
}

#[test]
fn width_bits_vary_with_dimension() {
    let bytes_64 = encode_sequence_header(64, 64, &VideoSignal::default());
    let bytes_1920 = encode_sequence_header(1920, 1080, &VideoSignal::default());
    assert!(bytes_1920.len() > bytes_64.len());
}

#[test]
fn hdr10_signal_changes_payload() {
    let sdr = encode_sequence_header(320, 240, &VideoSignal::default());
    let hdr = encode_sequence_header(320, 240, &VideoSignal::hdr10(ColorRange::Limited));
    assert_ne!(sdr, hdr);
    assert!(hdr.len() > sdr.len());
}

#[test]
fn still_picture_header_sets_still_flag_without_reduced_header() {
    let seq_level_idx = derive_sequence_level_idx(64, 64, Fps::default());
    let still = encode_still_picture_sequence_header_with_level(
        64,
        64,
        &VideoSignal::default(),
        seq_level_idx,
    );
    assert_eq!(still[0] & 0b0001_0000, 0b0001_0000);
    assert_eq!(still[0] & 0b0000_1000, 0);
}

#[test]
fn still_picture_header_differs_from_regular_header() {
    let regular = encode_sequence_header(64, 64, &VideoSignal::default());
    let still = encode_still_picture_sequence_header(64, 64, &VideoSignal::default());
    assert_ne!(regular, still);
}

#[test]
fn derive_level_small_frames_floor_to_5_1() {
    let level = derive_sequence_level_idx(320, 240, Fps::default());
    assert_eq!(level, SEQ_LEVEL_IDX_5_1);
}

#[test]
fn derive_level_large_frame_selects_higher_level() {
    let level = derive_sequence_level_idx(4284, 5712, Fps::default());
    assert!(level > SEQ_LEVEL_IDX_5_1);
}

#[test]
fn derive_level_out_of_table_falls_back_to_max_parameters() {
    let level = derive_sequence_level_idx(20_000, 20_000, Fps::from_int(30).unwrap());
    assert_eq!(level, SEQ_LEVEL_IDX_MAX_PARAMETERS);
}


#[test]
fn header_starts_with_three_zero_bytes_then_the_level() {
    for &lvl in &[0u8, 7, 8, 13, 31] {
        let r = encode_sequence_header_with_level(1920, 1080, &VideoSignal::default(), lvl);
        assert_eq!(&r[0..3], &[0u8, 0, 0]);
        assert_eq!(r[3] >> 3, lvl);
    }
}
