use wav1c::bitwriter::BitWriter;

#[test]
fn single_bit_true() {
    let mut w = BitWriter::new();
    w.write_bit(true);
    let bytes = w.finalize();
    assert_eq!(bytes, vec![0x80]);
}

#[test]
fn single_bit_false() {
    let mut w = BitWriter::new();
    w.write_bit(false);
    let bytes = w.finalize();
    assert_eq!(bytes, vec![0x00]);
}

#[test]
fn write_byte_value() {
    let mut w = BitWriter::new();
    w.write_bits(0xAB, 8);
    let bytes = w.finalize();
    assert_eq!(bytes, vec![0xAB]);
}

#[test]
fn write_3_bits() {
    let mut w = BitWriter::new();
    w.write_bits(0b101, 3);
    let bytes = w.finalize();
    assert_eq!(bytes, vec![0xA0]);
}

#[test]
fn write_across_byte_boundary() {
    let mut w = BitWriter::new();
    w.write_bits(0b11111, 5);
    w.write_bits(0b11111, 5);
    let bytes = w.finalize();
    assert_eq!(bytes, vec![0xFF, 0xC0]);
}

#[test]
fn byte_align_no_op_when_aligned() {
    let mut w = BitWriter::new();
    w.write_bits(0xFF, 8);
    w.byte_align();
    let bytes = w.finalize();
    assert_eq!(bytes, vec![0xFF]);
}

#[test]
fn byte_align_pads_with_zeros() {
    let mut w = BitWriter::new();
    w.write_bits(0b111, 3);
    w.byte_align();
    let bytes = w.finalize();
    assert_eq!(bytes, vec![0xE0]);
}

#[test]
fn empty_writer() {
    let w = BitWriter::new();
    let bytes = w.finalize();
    assert_eq!(bytes, Vec::<u8>::new());
}

#[test]
fn write_16_bits() {
    let mut w = BitWriter::new();
    w.write_bits(0xCAFE, 16);
    let bytes = w.finalize();
    assert_eq!(bytes, vec![0xCA, 0xFE]);
}

#[test]
fn trailing_bits_appends_one_then_pads() {
    let mut w = BitWriter::new();
    w.write_bits(0b10, 2);
    let bytes = w.trailing_bits();
    assert_eq!(bytes, vec![0xA0]);
}

#[test]
fn trailing_bits_on_aligned_writer_adds_a_byte() {
    let mut w = BitWriter::new();
    w.write_bits(0x12, 8);
    let bytes = w.trailing_bits();
    assert_eq!(bytes, vec![0x12, 0x80]);
}
