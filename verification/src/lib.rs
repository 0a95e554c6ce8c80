//! An encoder and decoder for the [QOI image format](https://qoiformat.org),
//! the "Quite OK Image" format: a lossless codec for packed RGB and RGBA
//! pixel data.
//!
//! The two entry points are [`encode_image`] and [`decode_image`]. Both work
//! on bytes held in memory: the source is a slice, the destination a `Vec`
//! that the output is appended to.
//!
//! Every function carries a contract that Verus checks, stated over a small
//! mathematical model of the format: a pixel is four bytes, the codec state
//! is a 64-entry cache with the previous pixel and a run counter, and a
//! stream is a sequence of bytes. The module `round_trip` proves from these
//! contracts that the codec is lossless.
//!
//! To keep this crate simple, it does not support decoding other image
//! formats. To encode an image, it will first need to be decoded using another
//! method. From there, the decoded pixel data can then be encoded.
//!
//! # Example
//!
//! ```rust
//! use qoi::{decode_image, encode_image, Colorspace, ImageMeta};
//!
//! // A 1x1 representation of an image's pixel data made up of an opaque
//! // black pixel.
//! let pixels = vec![0, 0, 0, 255];
//!
//! // Metadata describing the image to be encoded.
//! let meta = ImageMeta { width: 1, height: 1, channels: 4, colorspace: Colorspace::Srgb };
//!
//! // Buffer to write the encoded image to.
//! let mut encoded = Vec::new();
//! encode_image(&pixels, &mut encoded, &meta).expect("the source holds every pixel");
//!
//! // Buffer to write the decoded pixel data to.
//! let mut decoded = Vec::new();
//! assert_eq!(decode_image(&encoded, &mut decoded), Ok(meta));
//! assert_eq!(decoded, pixels);
//! ```

pub mod decode;
pub mod encode;
pub mod error;
pub mod meta;
pub mod op;
pub mod pixel;
pub mod round_trip;
pub mod source;
pub mod state;

pub use crate::decode::decode_image;
pub use crate::encode::encode_image;
pub use crate::error::Error;
pub use crate::meta::{Colorspace, ImageMeta};
pub use crate::op::Op;
pub use crate::pixel::{Pixel, PixelDiff};
pub use crate::source::ByteSource;
pub use crate::state::State;
