//! The ways in which decoding or encoding an image can fail.

use vstd::prelude::*;

verus! {

/// An enumeration of all error values this crate may produce.
#[derive(Clone, Copy, Debug, PartialEq, Eq, Structural)]
pub enum Error {
    /// The colorspace byte of an image header is neither 0 (sRGB) nor 1
    /// (linear). Holds the byte that was found.
    InvalidColorspace(u8),
    /// The image header ends inside its width or its height.
    InvalidDimensions,
    /// The image header does not start with the four magic bytes, or ends
    /// before them.
    InvalidHeader,
    /// An index chunk names a cache slot above 63. The index field is six
    /// bits wide, so no stream can hold such a chunk: the decoder never
    /// returns this value.
    InvalidIndex(u8),
    /// The source ended before decoding or encoding was completed.
    UnexpectedEof,
    /// The leading byte of a chunk has none of the known tags. Every byte
    /// value starts one of the six chunks, so the decoder never returns this
    /// value.
    UnknownTag(u8),
}

impl Error {
    /// The number that stands for this error where no richer value can be
    /// passed, as with a caller in another language.
    pub open spec fn code_spec(self) -> u8 {
        match self {
            Error::InvalidColorspace(_) => 1,
            Error::InvalidDimensions => 2,
            Error::InvalidHeader => 3,
            Error::InvalidIndex(_) => 4,
            Error::UnexpectedEof => 6,
            Error::UnknownTag(_) => 7,
        }
    }

    /// The number that stands for this error where no richer value can be
    /// passed. The numbers run from 1 to 7; 5 is kept free for a failure of
    /// the transport that carries the bytes, which no function of this
    /// crate can meet.
    pub fn code(&self) -> (code: u8)
        ensures
            code == self.code_spec(),
            1 <= code <= 7,
            code != 5,
    {
        match self {
            Error::InvalidColorspace(_) => 1,
            Error::InvalidDimensions => 2,
            Error::InvalidHeader => 3,
            Error::InvalidIndex(_) => 4,
            Error::UnexpectedEof => 6,
            Error::UnknownTag(_) => 7,
        }
    }
}

} // verus!
