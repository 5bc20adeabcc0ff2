use wav1c::bitwriter::BitWriter;
use wav1c::frame::{
    cdef_strength_for_qidx, encode_show_existing_frame, loop_filter_level_for_qidx, tile_log2,
    write_cdef_params, write_loopfilter_params, write_quant_params, write_tile_info,
};
use wav1c::sequence::encode_reduced_still_sequence_header;

#[test]
fn cdef_strength_mapping() {
    assert_eq!(cdef_strength_for_qidx(0), (0, 0, 0));
    assert_ne!(cdef_strength_for_qidx(128), (0, 0, 0));
}

#[test]
fn loop_filter_level_mapping() {
    for q in 0..=255u8 {
        assert_eq!(loop_filter_level_for_qidx(q), 0);
    }
}

#[test]
fn frame_tile_log2_basic() {
    assert_eq!(tile_log2(64, 1), 0);
    assert_eq!(tile_log2(64, 64), 0);
    assert_eq!(tile_log2(64, 65), 1);
    assert_eq!(tile_log2(1, 1), 0);
    assert_eq!(tile_log2(1, 2), 1);
    assert_eq!(tile_log2(1, 64), 6);
}

#[test]
fn sequence_header_matches_reference() {
    let bytes = encode_reduced_still_sequence_header();
    assert_eq!(bytes, vec![0x18, 0x15, 0x7f, 0xfc, 0x00, 0x08]);
}

#[test]
fn sequence_header_is_6_bytes() {
    let bytes = encode_reduced_still_sequence_header();
    assert_eq!(bytes.len(), 6);
}

#[test]
fn show_existing_frame_names_its_slot() {
    let bytes = encode_show_existing_frame(5);
    let mut expected = BitWriter::new();
    expected.write_bit(true);
    expected.write_bits(5, 3);
    assert_eq!(bytes, expected.trailing_bits());
}

#[test]
fn quant_params_layout() {
    let mut w = BitWriter::new();
    write_quant_params(&mut w, 128);
    let mut expected = BitWriter::new();
    expected.write_bits(128, 8);
    expected.write_bit(false);
    expected.write_bit(false);
    expected.write_bit(false);
    expected.write_bit(false);
    assert_eq!(w.finalize(), expected.finalize());
}

#[test]
fn single_tile_info_for_small_frame() {
    let mut w = BitWriter::new();
    write_tile_info(&mut w, 1, 1);
    let mut expected = BitWriter::new();
    expected.write_bit(true);
    assert_eq!(w.finalize(), expected.finalize());
}

#[test]
fn loopfilter_and_cdef_params_are_written() {
    let mut w = BitWriter::new();
    write_loopfilter_params(&mut w, 128);
    let lf = w.finalize();
    assert!(!lf.is_empty());
    let mut c = BitWriter::new();
    write_cdef_params(&mut c, 0);
    let cd = c.finalize();
    assert!(!cd.is_empty());
}
