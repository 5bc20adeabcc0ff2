use vstd::prelude::*;

pub mod apple_hdr;
pub mod avif;
pub mod avif_hdr;
pub mod bitwriter;
pub mod cdef;
pub mod cli;
pub mod cli_args;
pub mod coef;
pub mod ffi_config;
pub mod fps;
pub mod frame;
pub mod gop;
pub mod inter;
pub mod inter_block;
pub mod inter_tile;
pub mod intra;
pub mod bytes;
pub mod dct;
pub mod directional;
pub mod deblock;
pub mod ivf;
pub mod ivf_writer;
pub mod metadata;
pub mod motion;
pub mod mp4;
pub mod msac;
pub mod obu;
pub mod packet;
pub mod rd_search;
pub mod rdo;
pub mod satd;
pub mod scan;
pub mod sequence;
pub mod shifts;
pub mod text;
pub mod tile;
pub mod video;
pub mod y4m;

verus! {

/// Quantizer index used when the caller does not choose one.
pub const DEFAULT_BASE_Q_IDX: u8 = 128;

/// Keyframe interval used when the caller does not choose one.
pub const DEFAULT_KEYINT: usize = 25;

} // verus!
