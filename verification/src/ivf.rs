use vstd::prelude::*;
use crate::bytes::{le16, le32, le64, push_le16, push_le32, push_le64, append_bytes};

verus! {

/// The I/O error type of the standard library.
#[verifier::external_type_specification]
#[verifier::external_body]
pub struct ExIoError(std::io::Error);

/// The 32-byte IVF file header: signature, version 0, header size 32,
/// fourcc `AV01`, dimensions, a 25/1 time base, the frame count and a
/// reserved word.
pub open spec fn ivf_header_spec(width: u16, height: u16, num_frames: u32) -> Seq<u8> {
    seq![0x44u8, 0x4b, 0x49, 0x46] + le16(0) + le16(32) + seq![0x41u8, 0x56, 0x30, 0x31] + le16(width) + le16(height)
        + le32(25) + le32(1) + le32(num_frames) + le32(0)
}

/// An IVF frame record: the payload size, the timestamp and the payload.
pub open spec fn ivf_frame_spec(timestamp: u64, frame_data: Seq<u8>) -> Seq<u8> {
    le32(frame_data.len() as u32) + le64(timestamp) + frame_data
}

/// Appends the IVF file header.
pub fn write_ivf_header(writer: &mut Vec<u8>, width: u16, height: u16, num_frames: u32) -> (r: Result<(), std::io::Error>)
    ensures
        r is Ok,
        final(writer)@ == old(writer)@ + ivf_header_spec(width, height, num_frames),
{
    let ghost start = writer@;
    writer.push(0x44);
    writer.push(0x4b);
    writer.push(0x49);
    writer.push(0x46);
    push_le16(writer, 0);
    push_le16(writer, 32);
    writer.push(0x41);
    writer.push(0x56);
    writer.push(0x30);
    writer.push(0x31);
    push_le16(writer, width);
    push_le16(writer, height);
    push_le32(writer, 25);
    push_le32(writer, 1);
    push_le32(writer, num_frames);
    push_le32(writer, 0);
    assert(writer@ =~= start + ivf_header_spec(width, height, num_frames));
    Ok(())
}

/// Appends one IVF frame record; the size field holds the payload length
/// truncated to 32 bits.
pub fn write_ivf_frame(writer: &mut Vec<u8>, timestamp: u64, frame_data: &[u8]) -> (r: Result<(), std::io::Error>)
    ensures
        r is Ok,
        final(writer)@ == old(writer)@ + ivf_frame_spec(timestamp, frame_data@),
{
    let ghost start = writer@;
    push_le32(writer, frame_data.len() as u32);
    push_le64(writer, timestamp);
    append_bytes(writer, frame_data);
    assert(writer@ =~= start + ivf_frame_spec(timestamp, frame_data@));
    Ok(())
}

} // verus!
