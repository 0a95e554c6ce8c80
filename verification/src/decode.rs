//! The decoder: from a stream to raw pixel bytes.

use crate::error::Error;
use crate::meta::{be_value, Colorspace, ImageMeta, QOI_BYTES_MAGIC, QOI_HEADER_LEN};
use crate::op::Op;
use crate::pixel::{Pixel, PixelDiff};
use crate::source::ByteSource;
use crate::state::{CodecState, State};
use vstd::prelude::*;

verus! {

/// Whether `bytes` starts with the four magic bytes.
pub open spec fn has_magic(bytes: Seq<u8>) -> bool {
    &&& bytes.len() >= 4
    &&& bytes[0] == QOI_BYTES_MAGIC[0]
    &&& bytes[1] == QOI_BYTES_MAGIC[1]
    &&& bytes[2] == QOI_BYTES_MAGIC[2]
    &&& bytes[3] == QOI_BYTES_MAGIC[3]
}

/// The metadata that the header at the start of `bytes` holds, or the
/// reason why there is no header there. The fields are taken in order, and
/// the first one that is missing or wrong decides:
/// - the magic bytes, missing or other than `qoif`: `InvalidHeader`;
/// - the width and the height, cut short: `InvalidDimensions`;
/// - the channel count and the colorspace, missing: `UnexpectedEof`;
/// - a colorspace byte other than 0 and 1: `InvalidColorspace`.
///
/// The channel count is handed on as it is found.
pub open spec fn parse_header(bytes: Seq<u8>) -> Result<ImageMeta, Error> {
    if !has_magic(bytes) {
        Err(Error::InvalidHeader)
    } else if bytes.len() < 12 {
        Err(Error::InvalidDimensions)
    } else if bytes.len() < 14 {
        Err(Error::UnexpectedEof)
    } else {
        match Colorspace::from_byte_spec(bytes[13]) {
            Err(e) => Err(e),
            Ok(colorspace) => Ok(
                ImageMeta {
                    width: be_value(bytes[4], bytes[5], bytes[6], bytes[7]) as u32,
                    height: be_value(bytes[8], bytes[9], bytes[10], bytes[11]) as u32,
                    channels: bytes[12],
                    colorspace,
                },
            ),
        }
    }
}

/// The number whose four bytes, most significant first, stand in `bytes`
/// from place `at` on.
fn read_u32_be(bytes: &[u8], at: usize) -> (value: u32)
    requires
        at + 4 <= bytes@.len(),
    ensures
        value == be_value(
            bytes@[at as int],
            bytes@[at + 1],
            bytes@[at + 2],
            bytes@[at + 3],
        ),
{
    let b0: u32 = bytes[at] as u32;
    let b1: u32 = bytes[at + 1] as u32;
    let b2: u32 = bytes[at + 2] as u32;
    let b3: u32 = bytes[at + 3] as u32;
    b0 * 0x100_0000 + b1 * 0x1_0000 + b2 * 0x100 + b3
}

/// Attempts to decode the image's header, returning the image's `ImageMeta`
/// data upon success, with the source past the 14 bytes of the header. Upon
/// failure nothing has been read.
pub fn decode_header(source: &mut ByteSource) -> (r: Result<ImageMeta, Error>)
    ensures
        r == parse_header(old(source)@),
        r is Ok ==> final(source)@ == old(source)@.skip(14),
        r is Err ==> final(source)@ == old(source)@,
{
    let bytes: &[u8] = source.as_slice();

    if bytes.len() < 4 || bytes[0] != QOI_BYTES_MAGIC[0] || bytes[1] != QOI_BYTES_MAGIC[1]
        || bytes[2] != QOI_BYTES_MAGIC[2] || bytes[3] != QOI_BYTES_MAGIC[3] {
        return Err(Error::InvalidHeader);
    }
    if bytes.len() < 12 {
        return Err(Error::InvalidDimensions);
    }
    if bytes.len() < QOI_HEADER_LEN {
        return Err(Error::UnexpectedEof);
    }
    let colorspace = match Colorspace::try_from(bytes[13]) {
        Ok(colorspace) => colorspace,
        Err(e) => {
            return Err(e);
        },
    };
    let meta = ImageMeta {
        width: read_u32_be(bytes, 4),
        height: read_u32_be(bytes, 8),
        channels: bytes[12],
        colorspace,
    };
    source.advance(QOI_HEADER_LEN);
    Ok(meta)
}

/// The pixel that a chunk stands for in state `s`: a diff is taken from the
/// previous pixel, an index names a cache slot, three literal channels take
/// their alpha from the previous pixel, and a run repeats the previous
/// pixel.
pub open spec fn resolve(s: CodecState, op: Op) -> Pixel {
    match op {
        Op::Color(r, g, b) => Pixel::from_diff_spec(PixelDiff::Color(r, g, b), s.prev),
        Op::Index(index) => s.cache[index as int],
        Op::Luma(g, rg, bg) => Pixel::from_diff_spec(PixelDiff::Luma(g, rg, bg), s.prev),
        Op::Rgb(r, g, b) => Pixel { r, g, b, a: s.prev.a },
        Op::Rgba(r, g, b, a) => Pixel { r, g, b, a },
        Op::Run(_) => s.prev,
    }
}

/// What the decoder does for one pixel: the state it goes to, but for the
/// cache and the previous pixel, which it leaves alone; the pixel; and the
/// bytes that are left. Nothing, where `bytes` ends before the next chunk
/// does.
///
/// While a run is open no byte is read: the previous pixel comes again.
/// Else one chunk is read. A run chunk yields its first pixel at once and
/// leaves the rest of the run open.
pub open spec fn next_pixel(s: CodecState, bytes: Seq<u8>) -> Option<(CodecState, Pixel, Seq<u8>)> {
    if s.run > 0 {
        Some((CodecState { run: (s.run - 1) as nat, ..s }, s.prev, bytes))
    } else {
        match Op::parse(bytes) {
            None => None,
            Some((op, len)) => Some(
                (
                    match op {
                        Op::Run(rest) => CodecState { run: rest as nat, ..s },
                        _ => s,
                    },
                    resolve(s, op),
                    bytes.skip(len as int),
                ),
            ),
        }
    }
}

/// Attempts to decode a single "next" pixel from the provided `state` and
/// encoded `bytes`, by the rules of `next_pixel`. The cache and the previous
/// pixel of `state` are left for the caller to set. Where the source ends
/// before the next chunk does, all of it has been read and `UnexpectedEof`
/// is returned: no other failure is possible.
pub fn decode_pixel(state: &mut State, bytes: &mut ByteSource) -> (r: Result<Pixel, Error>)
    ensures
        match next_pixel(old(state)@, old(bytes)@) {
            Some((s, pixel, rest)) => r == Ok::<Pixel, Error>(pixel) && final(state)@ == s
                && final(bytes)@ == rest,
            None => r == Err::<Pixel, Error>(Error::UnexpectedEof) && final(state)@ == old(state)@
                && final(bytes)@.len() == 0,
        },
{
    if state.run_count > 0 {
        state.run_count -= 1;
        return Ok(state.prev_pixel);
    }
    let pixel = match Op::try_from_bytes(bytes)? {
        Op::Color(diff_r, diff_g, diff_b) => {
            Pixel::from_diff(PixelDiff::Color(diff_r, diff_g, diff_b), &state.prev_pixel)
        },
        Op::Index(index) => {
            assert(index & 0xc0 == 0 ==> index < 64) by (bit_vector);
            state.cache[index as usize]
        },
        Op::Luma(luma_g, luma_rg, luma_bg) => {
            Pixel::from_diff(PixelDiff::Luma(luma_g, luma_rg, luma_bg), &state.prev_pixel)
        },
        Op::Rgb(r, g, b) => Pixel { r, g, b, a: state.prev_pixel.a },
        Op::Rgba(r, g, b, a) => Pixel { r, g, b, a },
        Op::Run(count) => {
            state.run_count = count;
            state.prev_pixel
        },
    };

    Ok(pixel)
}

/// What the decoder does to its cache and its previous pixel after a pixel:
/// a pixel that differs from the previous one takes over its cache slot
/// and becomes the previous pixel.
pub open spec fn settle(s: CodecState, pixel: Pixel) -> CodecState {
    if pixel != s.prev {
        CodecState { prev: pixel, ..s.insert(pixel) }
    } else {
        s
    }
}

/// How far the decoder has come.
pub struct Decoding {
    /// The state after the last pixel.
    pub state: CodecState,
    /// The bytes that have not been read.
    pub rest: Seq<u8>,
    /// The pixels so far.
    pub pixels: Seq<Pixel>,
    /// Whether every pixel that was asked for has been decoded. Once the
    /// stream has ended too early, this is false and nothing changes any
    /// more.
    pub complete: bool,
}

/// Where the decoder stands when it has been asked for `count` pixels of
/// `bytes`, having started in `s`.
pub open spec fn decode_pixels(s: CodecState, bytes: Seq<u8>, count: nat) -> Decoding
    decreases count,
{
    if count == 0 {
        Decoding { state: s, rest: bytes, pixels: Seq::empty(), complete: true }
    } else {
        let d = decode_pixels(s, bytes, (count - 1) as nat);
        if !d.complete {
            d
        } else {
            match next_pixel(d.state, d.rest) {
                None => Decoding { complete: false, ..d },
                Some((t, pixel, rest)) => Decoding {
                    state: settle(t, pixel),
                    rest,
                    pixels: d.pixels.push(pixel),
                    complete: true,
                },
            }
        }
    }
}

/// The bytes that the decoder writes for one pixel: three channels for a
/// linear image, four for an sRGB image.
pub open spec fn pixel_bytes(pixel: Pixel, colorspace: Colorspace) -> Seq<u8> {
    match colorspace {
        Colorspace::Linear => seq![pixel.r, pixel.g, pixel.b],
        Colorspace::Srgb => seq![pixel.r, pixel.g, pixel.b, pixel.a],
    }
}

/// The bytes that the decoder writes for `pixels`, pixel after pixel.
pub open spec fn pack(pixels: Seq<Pixel>, colorspace: Colorspace) -> Seq<u8>
    decreases pixels.len(),
{
    if pixels.len() == 0 {
        Seq::empty()
    } else {
        pack(pixels.drop_last(), colorspace) + pixel_bytes(pixels.last(), colorspace)
    }
}

/// The outcome of decoding the stream `bytes`: the metadata or the error,
/// and the pixel bytes that have been written by then. Chunks are read
/// until the header's width times height pixels are there; what follows
/// them in the stream is not looked at.
pub open spec fn decoded(bytes: Seq<u8>) -> (Result<ImageMeta, Error>, Seq<u8>) {
    match parse_header(bytes) {
        Err(e) => (Err(e), Seq::empty()),
        Ok(meta) => {
            let d = decode_pixels(CodecState::initial(), bytes.skip(14), meta.pixel_count());
            (
                if d.complete {
                    Ok(meta)
                } else {
                    Err(Error::UnexpectedEof)
                },
                pack(d.pixels, meta.colorspace),
            )
        },
    }
}

/// Once the stream has ended too early, asking for more pixels changes
/// nothing.
pub proof fn lemma_failure_lasts(s: CodecState, bytes: Seq<u8>, failed: nat, count: nat)
    requires
        failed <= count,
        !decode_pixels(s, bytes, failed).complete,
    ensures
        decode_pixels(s, bytes, count) == decode_pixels(s, bytes, failed),
    decreases count,
{
    if failed < count {
        lemma_failure_lasts(s, bytes, failed, (count - 1) as nat);
    }
}

/// Decodes a QOI encoded image. The decoded pixel data is appended to
/// `dest`, and upon success, the image's `ImageMeta` data is returned.
///
/// The pixels are written in rows, from the top, each row from the left:
/// three bytes to the pixel for a linear image, four for an sRGB image.
/// Upon failure `dest` holds the pixels that were decoded before the
/// stream ended.
pub fn decode_image(source: &[u8], dest: &mut Vec<u8>) -> (r: Result<ImageMeta, Error>)
    ensures
        r == decoded(source@).0,
        final(dest)@ == old(dest)@ + decoded(source@).1,
{
    let mut bytes = ByteSource::new(source);
    let meta = match decode_header(&mut bytes) {
        Ok(meta) => meta,
        Err(e) => {
            assert(dest@ =~= old(dest)@ + decoded(source@).1);
            return Err(e);
        },
    };
    let mut state = State::new();
    let count: u64 = meta.num_pixels();
    let mut done: u64 = 0;
    let ghost body = source@.skip(14);

    assert(dest@ =~= old(dest)@ + pack(Seq::<Pixel>::empty(), meta.colorspace));

    while done < count
        invariant
            parse_header(source@) == Ok::<ImageMeta, Error>(meta),
            body == source@.skip(14),
            count == meta.pixel_count(),
            done <= count,
            decode_pixels(CodecState::initial(), body, done as nat) == (Decoding {
                state: state@,
                rest: bytes@,
                pixels: decode_pixels(CodecState::initial(), body, done as nat).pixels,
                complete: true,
            }),
            dest@ == old(dest)@ + pack(
                decode_pixels(CodecState::initial(), body, done as nat).pixels,
                meta.colorspace,
            ),
        decreases count - done,
    {
        let ghost before = decode_pixels(CodecState::initial(), body, done as nat);
        let ghost after = decode_pixels(CodecState::initial(), body, (done + 1) as nat);

        let pixel = match decode_pixel(&mut state, &mut bytes) {
            Ok(pixel) => pixel,
            Err(e) => {
                proof {
                    assert(!after.complete);
                    assert(after.pixels == before.pixels);
                    lemma_failure_lasts(
                        CodecState::initial(),
                        body,
                        (done + 1) as nat,
                        count as nat,
                    );
                }
                return Err(e);
            },
        };
        if pixel != state.prev_pixel {
            state.cache_insert(pixel);
            state.prev_pixel = pixel;
        }
        match meta.colorspace {
            Colorspace::Linear => {
                dest.push(pixel.r);
                dest.push(pixel.g);
                dest.push(pixel.b);
            },
            Colorspace::Srgb => {
                dest.push(pixel.r);
                dest.push(pixel.g);
                dest.push(pixel.b);
                dest.push(pixel.a);
            },
        }
        proof {
            assert(after.pixels.drop_last() =~= before.pixels);
            assert(after.pixels.last() == pixel);
            assert(dest@ =~= old(dest)@ + pack(after.pixels, meta.colorspace));
        }
        done += 1;
    }
    Ok(meta)
}

/// The cache is deterministic: right after a pixel was inserted, the index
/// chunk that names the pixel's slot stands for that pixel.
pub proof fn lemma_index_after_insert(s: CodecState, pixel: Pixel)
    requires
        s.cache.len() == 64,
    ensures
        0 <= pixel.slot() < 64,
        resolve(s.insert(pixel), Op::Index(pixel.slot() as u8)) == pixel,
{
}

/// The decoder yields one pixel for each that it was asked for, until the
/// stream ends.
pub proof fn lemma_decoded_count(s: CodecState, bytes: Seq<u8>, count: nat)
    ensures
        decode_pixels(s, bytes, count).pixels.len() <= count,
        decode_pixels(s, bytes, count).complete ==> decode_pixels(s, bytes, count).pixels.len()
            == count,
        !decode_pixels(s, bytes, count).complete ==> decode_pixels(s, bytes, count).pixels.len()
            < count,
    decreases count,
{
    if count > 0 {
        lemma_decoded_count(s, bytes, (count - 1) as nat);
    }
}

/// Each pixel is written with as many bytes as its colorspace has channels.
pub proof fn lemma_pack_length(pixels: Seq<Pixel>, colorspace: Colorspace)
    ensures
        pack(pixels, colorspace).len() == pixels.len() * colorspace.stride(),
    decreases pixels.len(),
{
    if pixels.len() > 0 {
        let stride = colorspace.stride();
        let fewer = pixels.drop_last();
        lemma_pack_length(fewer, colorspace);
        assert(pixel_bytes(pixels.last(), colorspace).len() == stride);
        assert(pixels.len() * stride == fewer.len() * stride + stride) by (nonlinear_arith)
            requires
                pixels.len() == fewer.len() + 1,
        ;
    }
}

/// A successful decode writes exactly width times height pixels: three
/// bytes each for a linear image, four for an sRGB image. A failed decode
/// writes fewer pixels, each of them in full.
pub proof fn lemma_decoded_length(bytes: Seq<u8>)
    ensures
        decoded(bytes).0 matches Ok(meta) ==> decoded(bytes).1.len() == meta.pixel_count()
            * meta.colorspace.stride(),
        parse_header(bytes) matches Ok(meta) ==> (decoded(bytes).0 is Err ==> decoded(
            bytes,
        ).1.len() < meta.pixel_count() * meta.colorspace.stride() && decoded(bytes).1.len()
            % meta.colorspace.stride() == 0),
{
    if let Ok(meta) = parse_header(bytes) {
        let d = decode_pixels(CodecState::initial(), bytes.skip(14), meta.pixel_count());
        lemma_decoded_count(CodecState::initial(), bytes.skip(14), meta.pixel_count());
        lemma_pack_length(d.pixels, meta.colorspace);
    }
}

} // verus!
