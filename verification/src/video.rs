use vstd::prelude::*;

verus! {

/// Sample bit depth of a video signal.
#[derive(Debug, Clone, Copy, PartialEq, Eq, Structural)]
pub enum BitDepth {
    Eight,
    Ten,
}

impl BitDepth {
    /// Bits per sample.
    pub open spec fn spec_bits(self) -> u8 {
        match self {
            BitDepth::Eight => 8,
            BitDepth::Ten => 10,
        }
    }

    /// Maps 8 and 10 to a bit depth; any other value is unsupported.
    pub fn from_u8(value: u8) -> (r: Option<BitDepth>)
        ensures
            value == 8 ==> r == Some(BitDepth::Eight),
            value == 10 ==> r == Some(BitDepth::Ten),
            value != 8 && value != 10 ==> r.is_none(),
    {
        match value {
            8 => Some(BitDepth::Eight),
            10 => Some(BitDepth::Ten),
            _ => None,
        }
    }

    /// Bits per sample: 8 or 10.
    pub fn bits(self) -> (r: u8)
        ensures
            r == self.spec_bits(),
    {
        match self {
            BitDepth::Eight => 8,
            BitDepth::Ten => 10,
        }
    }

    /// Largest sample value: `2^bits - 1`.
    pub fn max_value(self) -> (r: u16)
        ensures
            r == self.spec_max_value(),
    {
        match self {
            BitDepth::Eight => 255,
            BitDepth::Ten => 1023,
        }
    }

    /// Largest sample value: `2^bits - 1`.
    pub open spec fn spec_max_value(self) -> u16 {
        match self {
            BitDepth::Eight => 255,
            BitDepth::Ten => 1023,
        }
    }

    /// Mid-grey sample value: `2^(bits - 1)`.
    pub fn mid_value(self) -> (r: u16)
        ensures
            r == self.spec_mid_value(),
    {
        match self {
            BitDepth::Eight => 128,
            BitDepth::Ten => 512,
        }
    }

    /// Mid-grey sample value: `2^(bits - 1)`.
    pub open spec fn spec_mid_value(self) -> u16 {
        match self {
            BitDepth::Eight => 128,
            BitDepth::Ten => 512,
        }
    }
}

/// The maximum and mid values are the powers of two that the bit count names.
pub proof fn lemma_bit_depth_values(b: BitDepth)
    ensures
        b.spec_max_value() as int == pow2_int(b.spec_bits() as nat) - 1,
        b.spec_mid_value() as int == pow2_int((b.spec_bits() - 1) as nat),
{
    reveal_with_fuel(pow2_int, 11);
}

/// `2^n`.
pub open spec fn pow2_int(n: nat) -> int
    decreases n,
{
    if n == 0 { 1 } else { 2 * pow2_int((n - 1) as nat) }
}

/// Studio-swing (limited) or full-swing sample range.
#[derive(Debug, Clone, Copy, PartialEq, Eq, Structural)]
pub enum ColorRange {
    Limited,
    Full,
}

/// Colour primaries, transfer characteristics and matrix coefficients.
#[derive(Debug, Clone, Copy, PartialEq, Eq, Structural)]
pub struct ColorDescription {
    pub color_primaries: u8,
    pub transfer_characteristics: u8,
    pub matrix_coefficients: u8,
}

/// Content light level metadata (MaxCLL, MaxFALL).
#[derive(Debug, Clone, Copy, PartialEq, Eq, Structural)]
pub struct ContentLightLevel {
    pub max_content_light_level: u16,
    pub max_frame_average_light_level: u16,
}

/// Mastering display colour volume metadata.
#[derive(Debug, Clone, Copy, PartialEq, Eq)]
pub struct MasteringDisplayMetadata {
    pub primaries: [[u16; 2]; 3],
    pub white_point: [u16; 2],
    pub max_luminance: u32,
    pub min_luminance: u32,
}

/// How samples are to be interpreted.
#[derive(Debug, Clone, Copy, PartialEq, Eq, Structural)]
pub struct VideoSignal {
    pub bit_depth: BitDepth,
    pub color_range: ColorRange,
    pub color_description: Option<ColorDescription>,
}

/// The default signal: 8-bit, limited range, no colour description.
pub open spec fn default_video_signal() -> VideoSignal {
    VideoSignal {
        bit_depth: BitDepth::Eight,
        color_range: ColorRange::Limited,
        color_description: None,
    }
}

impl Default for VideoSignal {
    fn default() -> (r: Self)
        ensures
            r == default_video_signal(),
    {
        VideoSignal {
            bit_depth: BitDepth::Eight,
            color_range: ColorRange::Limited,
            color_description: None,
        }
    }
}

impl VideoSignal {
    /// HDR10 signalling: 10-bit, BT.2020 primaries (9), PQ transfer (16),
    /// BT.2020 non-constant-luminance matrix (9), with the given range.
    pub fn hdr10(color_range: ColorRange) -> (r: VideoSignal)
        ensures
            r == (VideoSignal {
                bit_depth: BitDepth::Ten,
                color_range,
                color_description: Some(
                    ColorDescription {
                        color_primaries: 9,
                        transfer_characteristics: 16,
                        matrix_coefficients: 9,
                    },
                ),
            }),
    {
        VideoSignal {
            bit_depth: BitDepth::Ten,
            color_range,
            color_description: Some(
                ColorDescription {
                    color_primaries: 9,
                    transfer_characteristics: 16,
                    matrix_coefficients: 9,
                },
            ),
        }
    }
}

} // verus!
