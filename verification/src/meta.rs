//! Image metadata, and the fixed parts of the file format.

use crate::error::Error;
use vstd::prelude::*;

verus! {

/// The eight bytes that close every stream.
pub const QOI_BYTES_END: [u8; 8] = [0, 0, 0, 0, 0, 0, 0, 1];

/// The four bytes that open every stream: `qoif` in ASCII.
pub const QOI_BYTES_MAGIC: [u8; 4] = [0x71, 0x6f, 0x69, 0x66];

/// The longest run that one run chunk can hold.
pub const QOI_MAX_RUN: u8 = 62;

/// The length of the image header in bytes.
pub const QOI_HEADER_LEN: usize = 14;

/// The four bytes of `value`, most significant first.
pub open spec fn be_bytes(value: u32) -> Seq<u8> {
    seq![
        (value / 0x100_0000) as u8,
        (value / 0x1_0000 % 0x100) as u8,
        (value / 0x100 % 0x100) as u8,
        (value % 0x100) as u8,
    ]
}

/// The number whose four bytes, most significant first, are `b0` to `b3`.
pub open spec fn be_value(b0: u8, b1: u8, b2: u8, b3: u8) -> int {
    b0 * 0x100_0000 + b1 * 0x1_0000 + b2 * 0x100 + b3
}

/// Reading back the four bytes of a number gives the number.
pub proof fn lemma_be_round_trip(value: u32)
    ensures
        be_value(be_bytes(value)[0], be_bytes(value)[1], be_bytes(value)[2], be_bytes(value)[3])
            == value,
{
}

/// How an image's colors, or pixels, are organized.
#[derive(Clone, Copy, Debug, PartialEq, Eq, Structural)]
pub enum Colorspace {
    /// sRGB with linear alpha, header byte 0. Decoded pixels are written
    /// with four channels.
    Srgb,
    /// All channels linear, header byte 1. Decoded pixels are written with
    /// three channels.
    Linear,
}

impl Colorspace {
    /// The byte that stands for this colorspace in an image header.
    pub open spec fn byte_spec(self) -> u8 {
        match self {
            Colorspace::Srgb => 0,
            Colorspace::Linear => 1,
        }
    }

    /// The colorspace that a header byte stands for: 0 for sRGB, 1 for
    /// linear, and no other.
    pub open spec fn from_byte_spec(byte: u8) -> Result<Colorspace, Error> {
        if byte == 1 {
            Ok(Colorspace::Linear)
        } else if byte == 0 {
            Ok(Colorspace::Srgb)
        } else {
            Err(Error::InvalidColorspace(byte))
        }
    }

    /// The number of bytes that the decoder writes for each pixel.
    pub open spec fn stride(self) -> nat {
        match self {
            Colorspace::Srgb => 4,
            Colorspace::Linear => 3,
        }
    }

    /// The number of channels that decoded pixels of this colorspace are
    /// written with: four for sRGB, three for linear.
    pub fn channels(self) -> (channels: u8)
        ensures
            channels == self.stride(),
    {
        match self {
            Colorspace::Srgb => 4,
            Colorspace::Linear => 3,
        }
    }

    /// The byte that stands for this colorspace in an image header.
    pub fn as_byte(self) -> (byte: u8)
        ensures
            byte == self.byte_spec(),
    {
        match self {
            Colorspace::Srgb => 0,
            Colorspace::Linear => 1,
        }
    }
}

/// Converts any `u8` into a `Colorspace`. `1` maps to `Colorspace::Linear`,
/// and `0` maps to `Colorspace::Srgb`. All other `u8` values are invalid.
impl TryFrom<u8> for Colorspace {
    type Error = Error;

    fn try_from(byte: u8) -> (r: Result<Self, Error>)
        ensures
            r == Colorspace::from_byte_spec(byte),
    {
        if byte == 1 {
            Ok(Colorspace::Linear)
        } else if byte == 0 {
            Ok(Colorspace::Srgb)
        } else {
            Err(Error::InvalidColorspace(byte))
        }
    }
}

impl vstd::std_specs::convert::TryFromSpecImpl<u8> for Colorspace {
    open spec fn obeys_try_from_spec() -> bool {
        true
    }

    open spec fn try_from_spec(byte: u8) -> Result<Self, <Self as TryFrom<u8>>::Error> {
        Colorspace::from_byte_spec(byte)
    }
}

/// Metadata describing an image.
#[derive(Clone, Copy, Debug, PartialEq, Eq, Structural)]
pub struct ImageMeta {
    /// The number of color channels the image's pixels contain. For example,
    /// RGBA pixels have four channels, and RGB have three. Color channels are
    /// assumed to not be pre-multiplied with the alpha channel
    /// ("un-premultiplied alpha").
    pub channels: u8,
    /// The image's colorspace, see [Colorspace].
    pub colorspace: Colorspace,
    /// The image's height.
    pub height: u32,
    /// The image's width.
    pub width: u32,
}

impl ImageMeta {
    /// The total number of pixels that make up the image.
    pub open spec fn pixel_count(self) -> nat {
        (self.width * self.height) as nat
    }

    /// The 14 bytes of the image header: the magic bytes, the width and the
    /// height, each as four bytes with the most significant first, the
    /// channel count, and the colorspace byte.
    pub open spec fn header(self) -> Seq<u8> {
        QOI_BYTES_MAGIC@ + be_bytes(self.width) + be_bytes(self.height) + seq![
            self.channels,
            self.colorspace.byte_spec(),
        ]
    }

    /// Returns the total number of pixels that make up the image. The
    /// product of two 32-bit numbers always fits 64 bits.
    pub fn num_pixels(&self) -> (n: u64)
        ensures
            n == self.pixel_count(),
    {
        let width: u64 = self.width as u64;
        let height: u64 = self.height as u64;
        assert(width * height <= 0xffff_ffff * 0xffff_ffff) by (nonlinear_arith)
            requires
                0 <= width <= 0xffff_ffff,
                0 <= height <= 0xffff_ffff,
        ;
        width * height
    }
}

} // verus!
