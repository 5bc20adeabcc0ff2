use vstd::prelude::*;

verus! {

/// Whether a coded frame is a keyframe or predicted from earlier frames.
#[derive(Debug, Clone, PartialEq, Eq, Structural)]
pub enum FrameType {
    Key,
    Inter,
}

/// One coded temporal unit and what it holds.
#[derive(Debug)]
pub struct Packet {
    pub data: Vec<u8>,
    pub frame_type: FrameType,
    pub frame_number: u64,
}

} // verus!
