//! The six chunks of the format, and their layout in bytes.
//!
//! | Chunk   | Leading byte | Further bytes   |
//! |---------|--------------|-----------------|
//! | `Index` | `00iiiiii`   | none            |
//! | `Color` | `01rrggbb`   | none            |
//! | `Luma`  | `10gggggg`   | one: `rrrrbbbb` |
//! | `Rgb`   | `11111110`   | three: r, g, b  |
//! | `Rgba`  | `11111111`   | four: r, g, b, a|
//! | `Run`   | `11nnnnnn`   | none            |

use crate::error::Error;
use crate::source::ByteSource;
use vstd::prelude::*;

verus! {

/// An enumeration of each possible QOI encoding "chunk", or Op.
#[derive(Clone, Copy, Debug, PartialEq, Eq, Structural)]
pub enum Op {
    /// `QOI_OP_DIFF`, contains the red, green, and blue color difference from
    /// the previous pixel with a bias of +2.
    Color(u8, u8, u8),
    /// `QOI_OP_INDEX`, index into the state's pixel cache.
    Index(u8),
    /// `QOI_OP_LUMA`, contains the red, green, and blue luma difference from
    /// the previous pixel. The green difference has a bias of +32, the
    /// red-green, and blue-green difference has a bias of +8.
    Luma(u8, u8, u8),
    /// `QOI_OP_RGB`, contains the red, green, and blue values of a pixel.
    Rgb(u8, u8, u8),
    /// `QOI_OP_RGBA`, contains the red, green, blue, and alpha values of a
    /// pixel.
    Rgba(u8, u8, u8, u8),
    /// `QOI_OP_RUN`, a run of the previous pixel. To `into_bytes` the field
    /// is the length of the run, from 1 to 62, and one less is stored.
    /// `try_from_bytes` hands back the stored field as it is, from 0 to 61:
    /// the number of pixels that follow the first pixel of the run.
    Run(u8),
}

impl Op {
    /// Whether every field fits the bits that the layout gives it, so that
    /// the bytes written for this chunk can be read back. Of a run this asks
    /// for a length from 1 to 62.
    pub open spec fn fits(self) -> bool {
        match self {
            Op::Color(r, g, b) => r <= 3 && g <= 3 && b <= 3,
            Op::Index(index) => index <= 63,
            Op::Luma(g, rg, bg) => g <= 63 && rg <= 15 && bg <= 15,
            Op::Rgb(_, _, _) => true,
            Op::Rgba(_, _, _, _) => true,
            Op::Run(count) => 1 <= count <= 62,
        }
    }

    /// The bytes that stand for this chunk in a stream.
    pub open spec fn wire(self) -> Seq<u8> {
        match self {
            Op::Color(r, g, b) => seq![0x40u8 | (r << 4) | (g << 2) | b],
            Op::Index(index) => seq![index],
            Op::Luma(g, rg, bg) => seq![0x80u8 | g, (rg << 4) | bg],
            Op::Rgb(r, g, b) => seq![0xfeu8, r, g, b],
            Op::Rgba(r, g, b, a) => seq![0xffu8, r, g, b, a],
            Op::Run(count) => seq![0xc0u8 | ((count - 1) as u8)],
        }
    }

    /// The chunk at the head of `bytes`, with the number of bytes that it
    /// takes up; or nothing, where `bytes` ends before the chunk does. The
    /// two literal tags are told apart first: they lie in the range of the
    /// run tag.
    pub open spec fn parse(bytes: Seq<u8>) -> Option<(Op, nat)> {
        if bytes.len() == 0 {
            None
        } else {
            let byte = bytes[0];
            if byte == 0xfe {
                if bytes.len() >= 4 {
                    Some((Op::Rgb(bytes[1], bytes[2], bytes[3]), 4nat))
                } else {
                    None
                }
            } else if byte == 0xff {
                if bytes.len() >= 5 {
                    Some((Op::Rgba(bytes[1], bytes[2], bytes[3], bytes[4]), 5nat))
                } else {
                    None
                }
            } else if byte & 0xc0 == 0x40 {
                Some((Op::Color((byte >> 4) & 0x03, (byte >> 2) & 0x03, byte & 0x03), 1nat))
            } else if byte & 0xc0 == 0x00 {
                Some((Op::Index(byte), 1nat))
            } else if byte & 0xc0 == 0x80 {
                if bytes.len() >= 2 {
                    Some((Op::Luma(byte & 0x3f, (bytes[1] >> 4) & 0x0f, bytes[1] & 0x0f), 2nat))
                } else {
                    None
                }
            } else {
                Some((Op::Run(byte & 0x3f), 1nat))
            }
        }
    }

    /// This chunk as `try_from_bytes` hands it back from the bytes that
    /// `into_bytes` wrote for it: a run comes back as the stored field, one
    /// less than its length; every other chunk comes back as it is.
    pub open spec fn read_back(self) -> Op {
        match self {
            Op::Run(count) => Op::Run((count - 1) as u8),
            _ => self,
        }
    }

    /// The layout is unambiguous: the bytes of a chunk whose fields fit,
    /// whatever follows them, are read back as that chunk and no other, and
    /// reading stops where the chunk ends.
    pub proof fn lemma_parse_wire(self, rest: Seq<u8>)
        requires
            self.fits(),
        ensures
            Op::parse(self.wire() + rest) == Some((self.read_back(), self.wire().len())),
            (self.wire() + rest).skip(self.wire().len() as int) == rest,
    {
        let bytes = self.wire() + rest;
        assert(bytes.skip(self.wire().len() as int) =~= rest);
        match self {
            Op::Color(r, g, b) => {
                let byte = 0x40u8 | (r << 4) | (g << 2) | b;
                assert(bytes[0] == byte);
                assert(byte != 0xfe && byte != 0xff && byte & 0xc0 == 0x40 && (byte >> 4) & 0x03
                    == r && (byte >> 2) & 0x03 == g && byte & 0x03 == b) by (bit_vector)
                    requires
                        byte == 0x40u8 | (r << 4) | (g << 2) | b,
                        r <= 3,
                        g <= 3,
                        b <= 3,
                ;
            },
            Op::Index(index) => {
                assert(bytes[0] == index);
                assert(index != 0xfe && index != 0xff && index & 0xc0 == 0x00) by (bit_vector)
                    requires
                        index <= 63,
                ;
            },
            Op::Luma(g, rg, bg) => {
                let byte = 0x80u8 | g;
                let next = (rg << 4) | bg;
                assert(bytes[0] == byte && bytes[1] == next);
                assert(byte != 0xfe && byte != 0xff && byte & 0xc0 == 0x80 && byte & 0x3f == g)
                    by (bit_vector)
                    requires
                        byte == 0x80u8 | g,
                        g <= 63,
                ;
                assert((next >> 4) & 0x0f == rg && next & 0x0f == bg) by (bit_vector)
                    requires
                        next == (rg << 4) | bg,
                        rg <= 15,
                        bg <= 15,
                ;
            },
            Op::Rgb(r, g, b) => {
                assert(bytes[0] == 0xfe && bytes[1] == r && bytes[2] == g && bytes[3] == b);
            },
            Op::Rgba(r, g, b, a) => {
                assert(bytes[0] == 0xff && bytes[1] == r && bytes[2] == g && bytes[3] == b
                    && bytes[4] == a);
            },
            Op::Run(count) => {
                let field = (count - 1) as u8;
                let byte = 0xc0u8 | field;
                assert(bytes[0] == byte);
                assert(byte != 0xfe && byte != 0xff && byte & 0xc0 == 0xc0 && byte & 0x3f == field)
                    by (bit_vector)
                    requires
                        byte == 0xc0u8 | field,
                        field <= 61,
                ;
            },
        }
    }

    /// Every byte starts a chunk: reading fails only for want of bytes, and
    /// never for more than four. The fields that are read fit their bits:
    /// an index is at most 63, and the stored field of a run at most 61.
    pub proof fn lemma_parse_total(bytes: Seq<u8>)
        ensures
            bytes.len() >= 5 ==> Op::parse(bytes) is Some,
            Op::parse(bytes) matches Some((op, len)) ==> 1 <= len <= bytes.len() && len <= 5,
            Op::parse(bytes) matches Some((Op::Index(index), _)) ==> index <= 63,
            Op::parse(bytes) matches Some((Op::Color(r, g, b), _)) ==> r <= 3 && g <= 3 && b <= 3,
            Op::parse(bytes) matches Some((Op::Luma(g, rg, bg), _)) ==> g <= 63 && rg <= 15 && bg
                <= 15,
            Op::parse(bytes) matches Some((Op::Run(rest), _)) ==> rest <= 61,
    {
        if bytes.len() > 0 {
            let byte = bytes[0];
            assert(byte & 0xc0 == 0x00 ==> byte <= 63) by (bit_vector);
            assert((byte >> 4) & 0x03 <= 3 && (byte >> 2) & 0x03 <= 3 && byte & 0x03 <= 3)
                by (bit_vector);
            assert(byte & 0x3f <= 63) by (bit_vector);
            assert(byte != 0xfe && byte != 0xff ==> byte & 0x3f <= 61 || byte & 0xc0 != 0xc0)
                by (bit_vector);
            assert(byte & 0xc0 == 0x00 || byte & 0xc0 == 0x40 || byte & 0xc0 == 0x80 || byte & 0xc0
                == 0xc0) by (bit_vector);
            if bytes.len() > 1 {
                let next = bytes[1];
                assert((next >> 4) & 0x0f <= 15 && next & 0x0f <= 15) by (bit_vector);
            }
        }
    }

    /// Encodes the `Op` and appends its bytes to `dest`. This cannot fail.
    pub fn into_bytes(self, dest: &mut Vec<u8>) -> (r: Result<(), Error>)
        requires
            self matches Op::Run(count) ==> count >= 1,
        ensures
            r is Ok,
            final(dest)@ == old(dest)@ + self.wire(),
    {
        match self {
            Op::Color(diff_r, diff_g, diff_b) => {
                dest.push(0x40u8 | (diff_r << 4) | (diff_g << 2) | diff_b);
            },
            Op::Index(index) => {
                dest.push(index);
            },
            Op::Luma(luma_g, luma_rg, luma_bg) => {
                dest.push(0x80u8 | luma_g);
                dest.push((luma_rg << 4) | luma_bg);
            },
            Op::Rgb(r, g, b) => {
                dest.push(0xfe);
                dest.push(r);
                dest.push(g);
                dest.push(b);
            },
            Op::Rgba(r, g, b, a) => {
                dest.push(0xff);
                dest.push(r);
                dest.push(g);
                dest.push(b);
                dest.push(a);
            },
            Op::Run(run_count) => {
                dest.push(0xc0u8 | (run_count - 1));
            },
        }
        assert(dest@ =~= old(dest)@ + self.wire());
        Ok(())
    }

    /// Attempts to decode an `Op` from the given bytes. The bytes of the
    /// chunk are taken off the source. Where the source ends before the
    /// chunk does, all of it has been read and `UnexpectedEof` is returned:
    /// no other failure is possible.
    pub fn try_from_bytes(bytes: &mut ByteSource) -> (r: Result<Self, Error>)
        ensures
            match Op::parse(old(bytes)@) {
                Some((op, len)) => r == Ok::<Op, Error>(op) && final(bytes)@ == old(bytes)@.skip(
                    len as int,
                ),
                None => r == Err::<Op, Error>(Error::UnexpectedEof) && final(bytes)@.len() == 0,
            },
    {
        let byte: u8 = bytes.next_byte()?;

        if byte == 0xfe {
            let r: u8 = bytes.next_byte()?;
            let g: u8 = bytes.next_byte()?;
            let b: u8 = bytes.next_byte()?;
            assert(bytes@ =~= old(bytes)@.skip(4));
            return Ok(Op::Rgb(r, g, b));
        }
        if byte == 0xff {
            let r: u8 = bytes.next_byte()?;
            let g: u8 = bytes.next_byte()?;
            let b: u8 = bytes.next_byte()?;
            let a: u8 = bytes.next_byte()?;
            assert(bytes@ =~= old(bytes)@.skip(5));
            return Ok(Op::Rgba(r, g, b, a));
        }
        let tag: u8 = byte & 0xc0;

        if tag == 0x40 {
            Ok(Op::Color((byte >> 4) & 0x03, (byte >> 2) & 0x03, byte & 0x03))
        } else if tag == 0x00 {
            Ok(Op::Index(byte))
        } else if tag == 0x80 {
            let next_byte: u8 = bytes.next_byte()?;
            assert(bytes@ =~= old(bytes)@.skip(2));
            Ok(Op::Luma(byte & 0x3f, (next_byte >> 4) & 0x0f, next_byte & 0x0f))
        } else {
            Ok(Op::Run(byte & 0x3f))
        }
    }
}

} // verus!
