//! The encoder: from raw pixel bytes to a stream.

use crate::error::Error;
use crate::meta::{be_bytes, ImageMeta, QOI_BYTES_END, QOI_BYTES_MAGIC, QOI_MAX_RUN};
use crate::op::Op;
use crate::pixel::{repeat, Pixel, PixelDiff};
use crate::state::{CodecState, State};
use vstd::prelude::*;

verus! {

/// Appends all of `bytes` to `dest`.
pub(crate) fn push_all(dest: &mut Vec<u8>, bytes: &[u8])
    ensures
        final(dest)@ == old(dest)@ + bytes@,
{
    let mut i: usize = 0;
    while i < bytes.len()
        invariant
            i <= bytes.len(),
            dest@ == old(dest)@ + bytes@.take(i as int),
        decreases bytes.len() - i,
    {
        dest.push(bytes[i]);
        i += 1;
        assert(dest@ =~= old(dest)@ + bytes@.take(i as int));
    }
    assert(bytes@.take(i as int) =~= bytes@);
}

/// Appends the four bytes of `value` to `dest`, most significant first.
fn push_u32_be(dest: &mut Vec<u8>, value: u32)
    ensures
        final(dest)@ == old(dest)@ + be_bytes(value),
{
    dest.push((value / 0x100_0000) as u8);
    dest.push((value / 0x1_0000 % 0x100) as u8);
    dest.push((value / 0x100 % 0x100) as u8);
    dest.push((value % 0x100) as u8);
    assert(dest@ =~= old(dest)@ + be_bytes(value));
}

/// Encodes the image's header and appends the encoded bytes to `dest`. This
/// cannot fail.
pub fn encode_header(meta: &ImageMeta, dest: &mut Vec<u8>) -> (r: Result<(), Error>)
    ensures
        r is Ok,
        final(dest)@ == old(dest)@ + meta.header(),
{
    push_all(dest, &QOI_BYTES_MAGIC);
    push_u32_be(dest, meta.width);
    push_u32_be(dest, meta.height);
    dest.push(meta.channels);
    dest.push(meta.colorspace.as_byte());
    assert(dest@ =~= old(dest)@ + meta.header());
    Ok(())
}

/// The chunk for a pixel that differs from the previous one and is not in
/// the cache: a colour diff, else a luma diff, else the three colour
/// channels where alpha is unchanged, else all four.
pub open spec fn chunk_for(pixel: Pixel, prev: Pixel) -> Op {
    match pixel.diff_spec(prev) {
        Some(PixelDiff::Color(r, g, b)) => Op::Color(r, g, b),
        Some(PixelDiff::Luma(g, rg, bg)) => Op::Luma(g, rg, bg),
        None => if pixel.a == prev.a {
            Op::Rgb(pixel.r, pixel.g, pixel.b)
        } else {
            Op::Rgba(pixel.r, pixel.g, pixel.b, pixel.a)
        },
    }
}

/// The bytes of the run that is still open in `s`: one run chunk, or
/// nothing where no run is open.
pub open spec fn flush(s: CodecState) -> Seq<u8> {
    if s.run > 0 {
        Op::Run(s.run as u8).wire()
    } else {
        Seq::empty()
    }
}

/// The chunk for a pixel that differs from the previous one: an index
/// chunk where the pixel is in its cache slot, else what `chunk_for` names.
pub open spec fn chunk_in(s: CodecState, pixel: Pixel) -> Op {
    if s.holds(pixel) {
        Op::Index(pixel.slot() as u8)
    } else {
        chunk_for(pixel, s.prev)
    }
}

/// What the encoder does with one pixel: the state it goes to, but for the
/// previous pixel, which it leaves alone, and the bytes it writes.
///
/// A pixel equal to the previous one lengthens the run, and a run that
/// reaches 62 is written at once. Any other pixel closes the open run, is
/// written as the chunk that `chunk_in` names, and is in its cache slot
/// from then on.
pub open spec fn emit(s: CodecState, pixel: Pixel) -> (CodecState, Seq<u8>) {
    if pixel == s.prev {
        if s.run + 1 == 62 {
            (CodecState { run: 0, ..s }, Op::Run(62).wire())
        } else {
            (CodecState { run: s.run + 1, ..s }, Seq::empty())
        }
    } else {
        (CodecState { run: 0, ..s }.insert(pixel), flush(s) + chunk_in(s, pixel).wire())
    }
}

/// Encodes the provided pixel by the rules of `emit` and appends the bytes
/// to `dest`. The previous pixel of `state` is left for the caller to set.
/// This cannot fail.
pub fn encode_pixel(state: &mut State, pixel: Pixel, dest: &mut Vec<u8>) -> (r: Result<(), Error>)
    requires
        old(state)@.run < 62,
    ensures
        r is Ok,
        final(state)@ == emit(old(state)@, pixel).0,
        final(dest)@ == old(dest)@ + emit(old(state)@, pixel).1,
        final(state)@.run < 62,
{
    if pixel == state.prev_pixel {
        state.run_count += 1;

        if state.run_count == QOI_MAX_RUN {
            Op::Run(QOI_MAX_RUN).into_bytes(dest)?;
            state.run_count = 0;
        }
        assert(dest@ =~= old(dest)@ + emit(old(state)@, pixel).1);
        return Ok(());
    }
    if state.run_count > 0 {
        Op::Run(state.run_count).into_bytes(dest)?;
        state.run_count = 0;
    }
    assert(dest@ =~= old(dest)@ + flush(old(state)@));

    if let Some(index) = state.cache_match_or_replace(pixel) {
        Op::Index(index as u8).into_bytes(dest)?;
        assert(state@.cache =~= old(state)@.insert(pixel).cache);
        assert(dest@ =~= old(dest)@ + emit(old(state)@, pixel).1);
        return Ok(());
    }
    if let Some(diff) = pixel.diff(&state.prev_pixel) {
        match diff {
            PixelDiff::Color(diff_r, diff_g, diff_b) => {
                Op::Color(diff_r, diff_g, diff_b).into_bytes(dest)?;
            },
            PixelDiff::Luma(luma_g, luma_rg, luma_bg) => {
                Op::Luma(luma_g, luma_rg, luma_bg).into_bytes(dest)?;
            },
        }
        assert(dest@ =~= old(dest)@ + emit(old(state)@, pixel).1);
        return Ok(());
    }
    if pixel.a == state.prev_pixel.a {
        Op::Rgb(pixel.r, pixel.g, pixel.b).into_bytes(dest)?;
        assert(dest@ =~= old(dest)@ + emit(old(state)@, pixel).1);
        return Ok(());
    }
    Op::Rgba(pixel.r, pixel.g, pixel.b, pixel.a).into_bytes(dest)?;
    assert(dest@ =~= old(dest)@ + emit(old(state)@, pixel).1);
    Ok(())
}

/// The pixel that the encoder reads at place `index` of a source with
/// `channels` bytes to the pixel: red, green and blue are its first three
/// bytes, alpha the fourth. A source of three channels has no alpha: every
/// pixel of it is opaque.
pub open spec fn pixel_at(source: Seq<u8>, channels: nat, index: int) -> Pixel {
    Pixel {
        r: source[index * channels],
        g: source[index * channels + 1],
        b: source[index * channels + 2],
        a: if channels >= 4 {
            source[index * channels + 3]
        } else {
            255
        },
    }
}

/// The first `count` pixels of a source with `channels` bytes to the pixel.
pub open spec fn unpack(source: Seq<u8>, channels: nat, count: nat) -> Seq<Pixel> {
    Seq::new(count, |i: int| pixel_at(source, channels, i))
}

/// One full step of the encoder: `emit`, after which the pixel becomes the
/// previous pixel.
pub open spec fn encode_step(s: CodecState, pixel: Pixel) -> (CodecState, Seq<u8>) {
    let (t, out) = emit(s, pixel);
    (CodecState { prev: pixel, ..t }, out)
}

/// The state that the encoder is in after `pixels`, having started in `s`,
/// and the bytes that it has written by then.
pub open spec fn encode_pixels(s: CodecState, pixels: Seq<Pixel>) -> (CodecState, Seq<u8>)
    decreases pixels.len(),
{
    if pixels.len() == 0 {
        (s, Seq::empty())
    } else {
        let (t, out) = encode_pixels(s, pixels.drop_last());
        let (u, chunk) = encode_step(t, pixels.last());
        (u, out + chunk)
    }
}

/// The chunks of an image with these pixels: what the encoder writes for
/// them from the initial state, and then the run that is still open.
pub open spec fn body_bytes(pixels: Seq<Pixel>) -> Seq<u8> {
    let (s, out) = encode_pixels(CodecState::initial(), pixels);
    out + flush(s)
}

/// The whole stream of an image: header, chunks, and the eight closing
/// bytes.
pub open spec fn image_bytes(meta: ImageMeta, pixels: Seq<Pixel>) -> Seq<u8> {
    meta.header() + body_bytes(pixels) + QOI_BYTES_END@
}

/// The outcome of encoding an image from `source`, which holds
/// `meta.channels` bytes to the pixel: success and the whole stream, where
/// the source holds every pixel; else `UnexpectedEof`, and the header with
/// the chunks written for the pixels that the source holds in full.
pub open spec fn encoded(meta: ImageMeta, source: Seq<u8>) -> (Result<(), Error>, Seq<u8>) {
    let channels = meta.channels as nat;
    if source.len() >= meta.pixel_count() * channels {
        (Ok(()), image_bytes(meta, unpack(source, channels, meta.pixel_count())))
    } else {
        (
            Err(Error::UnexpectedEof),
            meta.header() + encode_pixels(
                CodecState::initial(),
                unpack(source, channels, source.len() / channels),
            ).1,
        )
    }
}

/// Encodes an image's raw pixel data and `ImageMeta` data into a QOI encoded
/// image, which is appended to `dest`.
///
/// The source holds the pixels in rows, from the top, each row from the
/// left, `meta.channels` bytes to the pixel. Bytes of a pixel after the
/// fourth, and bytes of the source after the last pixel, are passed over.
///
/// Where the source ends before the last pixel, `UnexpectedEof` is
/// returned; `dest` then holds the header and the chunks written for the
/// pixels that the source holds in full.
///
/// A pixel has at least three channels: an image with fewer can be encoded
/// only where it has no pixels.
pub fn encode_image(source: &[u8], dest: &mut Vec<u8>, meta: &ImageMeta) -> (r: Result<(), Error>)
    requires
        meta.channels >= 3 || meta.pixel_count() == 0,
    ensures
        r == encoded(*meta, source@).0,
        final(dest)@ == old(dest)@ + encoded(*meta, source@).1,
{
    encode_header(meta, dest)?;

    let mut state = State::new();
    let stride: usize = meta.channels as usize;
    let count: u64 = meta.num_pixels();
    let mut done: u64 = 0;
    let mut pos: usize = 0;

    assert(unpack(source@, stride as nat, 0) =~= Seq::<Pixel>::empty());
    assert(dest@ =~= old(dest)@ + meta.header() + Seq::<u8>::empty());

    while done < count
        invariant
            stride == meta.channels,
            count > 0 ==> stride >= 3,
            count == meta.pixel_count(),
            done <= count,
            pos == done * stride,
            pos <= source@.len(),
            state@.run < 62,
            stride < 4 ==> state.prev_pixel.a == 255,
            state@ == encode_pixels(
                CodecState::initial(),
                unpack(source@, stride as nat, done as nat),
            ).0,
            dest@ == old(dest)@ + meta.header() + encode_pixels(
                CodecState::initial(),
                unpack(source@, stride as nat, done as nat),
            ).1,
        decreases count - done,
    {
        if source.len() - pos < stride {
            proof {
                vstd::arithmetic::div_mod::lemma_fundamental_div_mod_converse(
                    source@.len() as int,
                    stride as int,
                    done as int,
                    source@.len() - pos,
                );
                assert(source@.len() < count * stride) by (nonlinear_arith)
                    requires
                        source@.len() < done * stride + stride,
                        done < count,
                        stride >= 0,
                ;
            }
            return Err(Error::UnexpectedEof);
        }
        let pixel = Pixel {
            r: source[pos],
            g: source[pos + 1],
            b: source[pos + 2],
            a: if stride >= 4 {
                source[pos + 3]
            } else {
                state.prev_pixel.a
            },
        };
        let ghost before = unpack(source@, stride as nat, done as nat);
        let ghost after = unpack(source@, stride as nat, (done + 1) as nat);
        proof {
            assert(after.drop_last() =~= before);
            assert(after.last() == pixel);
        }
        encode_pixel(&mut state, pixel, dest)?;
        state.prev_pixel = pixel;

        proof {
            assert(state@ == encode_step(encode_pixels(CodecState::initial(), before).0, pixel).0);
            assert(dest@ =~= old(dest)@ + meta.header() + encode_pixels(
                CodecState::initial(),
                after,
            ).1);
            assert((done + 1) * stride == pos + stride) by (nonlinear_arith)
                requires
                    pos == done * stride,
            ;
        }
        pos += stride;
        done += 1;
    }
    let ghost pixels = unpack(source@, stride as nat, count as nat);
    let ghost chunks = dest@;

    if state.run_count > 0 {
        Op::Run(state.run_count).into_bytes(dest)?;
    }
    assert(dest@ =~= chunks + flush(state@));
    push_all(dest, &QOI_BYTES_END);
    assert(dest@ =~= old(dest)@ + image_bytes(*meta, pixels));
    Ok(())
}

/// The order in which the encoder tries the chunks for a pixel that
/// differs from the previous one: the cache first, then a colour diff,
/// then a luma diff, then the literal channels, without alpha where alpha
/// is unchanged. The first that applies is taken, also where a later one
/// would apply as well.
pub proof fn lemma_chunk_priority(s: CodecState, pixel: Pixel)
    ensures
        s.holds(pixel) ==> chunk_in(s, pixel) is Index,
        !s.holds(pixel) && pixel.near(s.prev) ==> chunk_in(s, pixel) is Color,
        !s.holds(pixel) && !pixel.near(s.prev) && pixel.luma_near(s.prev) ==> chunk_in(s, pixel)
            is Luma,
        !s.holds(pixel) && !pixel.near(s.prev) && !pixel.luma_near(s.prev) && pixel.a == s.prev.a
            ==> chunk_in(s, pixel) == Op::Rgb(pixel.r, pixel.g, pixel.b),
        !s.holds(pixel) && pixel.a != s.prev.a ==> chunk_in(s, pixel) == Op::Rgba(
            pixel.r,
            pixel.g,
            pixel.b,
            pixel.a,
        ),
{
}

/// While the previous pixel comes again and the run is short of 62, the
/// encoder writes nothing and counts.
pub proof fn lemma_run_grows(s: CodecState, count: nat)
    requires
        s.run + count < 62,
    ensures
        encode_pixels(s, repeat(s.prev, count)) == (
            CodecState { run: s.run + count, ..s },
            Seq::<u8>::empty(),
        ),
    decreases count,
{
    if count > 0 {
        let fewer = (count - 1) as nat;
        lemma_run_grows(s, fewer);
        assert(repeat(s.prev, count).drop_last() =~= repeat(s.prev, fewer));
    }
}

/// A run ends at 62. From a state with no open run, 62 times the previous
/// pixel are written as exactly one run chunk of 62, and no run is left
/// open; with a 63rd the same chunk is written and a run of one is left
/// open, to be written as a second chunk when the run breaks or the image
/// ends.
pub proof fn lemma_run_ceiling(s: CodecState)
    requires
        s.run == 0,
    ensures
        encode_pixels(s, repeat(s.prev, 62)) == (s, Op::Run(62).wire()),
        encode_pixels(s, repeat(s.prev, 63)) == (CodecState { run: 1, ..s }, Op::Run(62).wire()),
        flush(encode_pixels(s, repeat(s.prev, 63)).0) == Op::Run(1).wire(),
{
    let full = Op::Run(62).wire();
    let none = Seq::<u8>::empty();
    lemma_run_grows(s, 61);
    assert(repeat(s.prev, 62).drop_last() =~= repeat(s.prev, 61));
    assert(repeat(s.prev, 62).last() == s.prev);
    assert(encode_step(CodecState { run: 61, ..s }, s.prev) == (s, full));
    assert(none + full =~= full);
    assert(encode_pixels(s, repeat(s.prev, 62)) == (s, full));
    assert(repeat(s.prev, 63).drop_last() =~= repeat(s.prev, 62));
    assert(repeat(s.prev, 63).last() == s.prev);
    assert(encode_step(s, s.prev) == (CodecState { run: 1, ..s }, none));
    assert(full + none =~= full);
}

/// No pixel costs the encoder more than five bytes, the run that it holds
/// back counted as the one byte that it will take.
pub proof fn lemma_chunks_size(s: CodecState, pixels: Seq<Pixel>)
    ensures
        encode_pixels(s, pixels).1.len() + flush(encode_pixels(s, pixels).0).len() <= flush(
            s,
        ).len() + 5 * pixels.len(),
    decreases pixels.len(),
{
    if pixels.len() > 0 {
        let (t, out) = encode_pixels(s, pixels.drop_last());
        lemma_chunks_size(s, pixels.drop_last());
        assert(chunk_in(t, pixels.last()).wire().len() <= 5);
        assert(flush(t).len() <= 1);
    }
}

/// A stream is never longer than its 22 bytes of header and closing bytes
/// and five bytes for each pixel.
pub proof fn lemma_stream_size(meta: ImageMeta, pixels: Seq<Pixel>)
    ensures
        22 <= image_bytes(meta, pixels).len() <= 22 + 5 * pixels.len(),
{
    lemma_chunks_size(CodecState::initial(), pixels);
}

} // verus!
