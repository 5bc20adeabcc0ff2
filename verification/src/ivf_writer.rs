use vstd::prelude::*;
use crate::ivf::{ivf_header_spec, ivf_frame_spec};
use crate::text::{str_chars, append_chars, string_from_chars, decimal_chars, decimal_text};

verus! {

/// `std::io::Error::new` with kind `InvalidInput` and the message `msg`.
/// Nothing is stated of the error value: its kind and message are not
/// visible to the contracts here.
#[verifier::external_body]
fn invalid_input_error(msg: String) -> std::io::Error {
    std::io::Error::new(std::io::ErrorKind::InvalidInput, msg)
}

/// The message for a frame dimension that the 16-bit IVF fields cannot hold.
pub open spec fn dimension_text(dimension: Seq<char>, value: u32) -> Seq<char> {
    "IVF "@ + dimension + " "@ + decimal_text(value as nat) + " exceeds 16-bit container limit (max 65535)"@
}

/// The message for a frame dimension that the 16-bit IVF fields cannot hold.
fn dimension_message(dimension: &str, value: u32) -> (r: String)
    ensures
        r@ == dimension_text(dimension@, value),
{
    let mut cs = str_chars("IVF ");
    append_chars(&mut cs, str_chars(dimension).as_slice());
    append_chars(&mut cs, str_chars(" ").as_slice());
    append_chars(&mut cs, decimal_chars(value as u64).as_slice());
    append_chars(&mut cs, str_chars(" exceeds 16-bit container limit (max 65535)").as_slice());
    string_from_chars(cs.as_slice())
}

/// Appends the IVF file header, refusing dimensions above the 16-bit fields'
/// limit; nothing is written then.
pub fn write_ivf_header(writer: &mut Vec<u8>, width: u32, height: u32, num_frames: u32) -> (r: Result<(), std::io::Error>)
    ensures
        r is Ok <==> width <= u16::MAX && height <= u16::MAX,
        r is Ok ==> final(writer)@ == old(writer)@ + ivf_header_spec(width as u16, height as u16, num_frames),
        r is Err ==> final(writer)@ == old(writer)@,
{
    if width > 0xffff {
        return Err(invalid_input_error(dimension_message("width", width)));
    }
    if height > 0xffff {
        return Err(invalid_input_error(dimension_message("height", height)));
    }
    crate::ivf::write_ivf_header(writer, width as u16, height as u16, num_frames)
}

/// Appends one IVF frame record.
pub fn write_ivf_frame(writer: &mut Vec<u8>, timestamp: u64, frame_data: &[u8]) -> (r: Result<(), std::io::Error>)
    ensures
        r is Ok,
        final(writer)@ == old(writer)@ + ivf_frame_spec(timestamp, frame_data@),
{
    crate::ivf::write_ivf_frame(writer, timestamp, frame_data)
}

} // verus!
