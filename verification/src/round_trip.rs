//! The codec is lossless: what the encoder writes, the decoder reads back.
//!
//! The encoder holds back a run until it breaks, so the decoder is behind
//! the encoder by the length of the open run. The central lemma follows the
//! encoder pixel by pixel and keeps the decoder that far behind it.

use crate::decode::{
    decode_pixels, decoded, has_magic, next_pixel, pack, parse_header, pixel_bytes, resolve,
    Decoding,
};
use crate::encode::{
    body_bytes, chunk_for, chunk_in, encode_pixels, encode_step, encoded, flush, image_bytes,
    pixel_at, unpack,
};
use crate::error::Error;
use crate::meta::{be_bytes, lemma_be_round_trip, Colorspace, ImageMeta, QOI_BYTES_END};
use crate::op::Op;
use crate::pixel::{repeat, Pixel};
use crate::state::CodecState;
use vstd::prelude::*;

verus! {

/// While a run is open the decoder repeats the previous pixel and reads
/// nothing.
proof fn lemma_decode_open_run(s: CodecState, bytes: Seq<u8>, count: nat, more: nat)
    requires
        decode_pixels(s, bytes, count).complete,
        decode_pixels(s, bytes, count).state.run >= more,
    ensures
        ({
            let d = decode_pixels(s, bytes, count);
            decode_pixels(s, bytes, count + more) == (Decoding {
                state: CodecState { run: (d.state.run - more) as nat, ..d.state },
                rest: d.rest,
                pixels: d.pixels + repeat(d.state.prev, more),
                complete: true,
            })
        }),
    decreases more,
{
    let d = decode_pixels(s, bytes, count);
    if more == 0 {
        assert(d.pixels + repeat(d.state.prev, 0) =~= d.pixels);
    } else {
        lemma_decode_open_run(s, bytes, count, (more - 1) as nat);
        let e = decode_pixels(s, bytes, (count + more - 1) as nat);
        assert(e.pixels.push(d.state.prev) =~= d.pixels + repeat(d.state.prev, more));
    }
}

/// The decoder reads a run chunk as that many times the previous pixel.
/// Where no run is open in the encoder, nothing was written and nothing is
/// read.
proof fn lemma_decode_flushed_run(
    s: CodecState,
    bytes: Seq<u8>,
    count: nat,
    run: nat,
    tail: Seq<u8>,
)
    requires
        run <= 62,
        decode_pixels(s, bytes, count).complete,
        decode_pixels(s, bytes, count).state.run == 0,
        decode_pixels(s, bytes, count).rest == flush(
            CodecState { run, ..decode_pixels(s, bytes, count).state },
        ) + tail,
    ensures
        ({
            let d = decode_pixels(s, bytes, count);
            decode_pixels(s, bytes, count + run) == (Decoding {
                state: d.state,
                rest: tail,
                pixels: d.pixels + repeat(d.state.prev, run),
                complete: true,
            })
        }),
{
    let d = decode_pixels(s, bytes, count);
    if run == 0 {
        assert(d.rest =~= tail);
        assert(d.pixels + repeat(d.state.prev, 0) =~= d.pixels);
    } else {
        let op = Op::Run(run as u8);
        op.lemma_parse_wire(tail);
        let e = decode_pixels(s, bytes, count + 1);
        assert(e.state == CodecState { run: (run - 1) as nat, ..d.state });
        assert(e.rest == tail);
        lemma_decode_open_run(s, bytes, count + 1, (run - 1) as nat);
        assert(d.pixels.push(d.state.prev) + repeat(d.state.prev, (run - 1) as nat) =~= d.pixels
            + repeat(d.state.prev, run));
    }
}

/// The chunk that the encoder chooses for a pixel is read back as that
/// pixel.
proof fn lemma_resolve_chunk(s: CodecState, pixel: Pixel)
    ensures
        chunk_for(pixel, s.prev).fits(),
        !(chunk_for(pixel, s.prev) is Run),
        resolve(s, chunk_for(pixel, s.prev)) == pixel,
{
    if pixel.diff_spec(s.prev) is Some {
        pixel.lemma_diff_inverts(s.prev);
    }
}

/// The encoder never lets a run reach 62, and leaves the cache at its 64
/// slots.
proof fn lemma_encoder_keeps_shape(s: CodecState, pixels: Seq<Pixel>)
    requires
        s.cache.len() == 64,
        s.run < 62,
    ensures
        encode_pixels(s, pixels).0.cache.len() == 64,
        encode_pixels(s, pixels).0.run < 62,
    decreases pixels.len(),
{
    if pixels.len() > 0 {
        lemma_encoder_keeps_shape(s, pixels.drop_last());
    }
}

/// The decoder reads the chunk that the encoder writes for a pixel, once
/// any open run is closed, as that pixel, and goes to the encoder's state.
proof fn lemma_decode_chunk(
    s: CodecState,
    bytes: Seq<u8>,
    count: nat,
    pixel: Pixel,
    tail: Seq<u8>,
)
    requires
        decode_pixels(s, bytes, count).complete,
        decode_pixels(s, bytes, count).state.run == 0,
        decode_pixels(s, bytes, count).state.cache.len() == 64,
        decode_pixels(s, bytes, count).state.prev != pixel,
        decode_pixels(s, bytes, count).rest == chunk_in(
            decode_pixels(s, bytes, count).state,
            pixel,
        ).wire() + tail,
    ensures
        ({
            let d = decode_pixels(s, bytes, count);
            decode_pixels(s, bytes, count + 1) == (Decoding {
                state: CodecState { prev: pixel, ..d.state.insert(pixel) },
                rest: tail,
                pixels: d.pixels.push(pixel),
                complete: true,
            })
        }),
{
    let d = decode_pixels(s, bytes, count);
    let op = chunk_in(d.state, pixel);
    lemma_resolve_chunk(d.state, pixel);
    op.lemma_parse_wire(tail);
    assert(op.read_back() == op);
    assert(resolve(d.state, op) == pixel);
    assert(next_pixel(d.state, d.rest) == Some((d.state, pixel, tail)));
}

/// One step of `lemma_decoder_follows`: the encoder, holding back a run in
/// state `t`, takes one more pixel; the decoder, which stands behind it by
/// that run, catches up as far as the encoder has written.
proof fn lemma_follow_step(
    s: CodecState,
    bytes: Seq<u8>,
    count: nat,
    t: CodecState,
    pixel: Pixel,
    tail: Seq<u8>,
)
    requires
        t.cache.len() == 64,
        t.run < 62,
        decode_pixels(s, bytes, count).complete,
        decode_pixels(s, bytes, count).state == (CodecState { run: 0, ..t }),
        decode_pixels(s, bytes, count).rest == encode_step(t, pixel).1 + tail,
    ensures
        ({
            let d = decode_pixels(s, bytes, count);
            let u = encode_step(t, pixel).0;
            let caught_up = (t.run + 1 - u.run) as nat;
            let e = decode_pixels(s, bytes, count + caught_up);
            &&& u.run <= t.run + 1
            &&& u.run < 62
            &&& u.cache.len() == 64
            &&& u.run > 0 ==> u.run == t.run + 1 && u.prev == t.prev && pixel == t.prev
            &&& e.complete
            &&& e.state == CodecState { run: 0, ..u }
            &&& e.rest == tail
            &&& e.pixels == d.pixels + repeat(t.prev, t.run).push(pixel).take(caught_up as int)
        }),
{
    let d = decode_pixels(s, bytes, count);
    let (u, chunk) = encode_step(t, pixel);
    let caught_up = (t.run + 1 - u.run) as nat;
    let held = repeat(t.prev, t.run).push(pixel);
    if pixel == t.prev {
        if t.run + 1 == 62 {
            lemma_decode_flushed_run(s, bytes, count, 62, tail);
            assert(held.take(62) =~= repeat(t.prev, 62));
        } else {
            assert(chunk + tail =~= tail);
            assert(d.pixels + held.take(0) =~= d.pixels);
        }
    } else {
        let mid = chunk_in(t, pixel).wire();
        assert(chunk + tail =~= flush(t) + (mid + tail));
        lemma_decode_flushed_run(s, bytes, count, t.run, mid + tail);
        lemma_decode_chunk(s, bytes, count + t.run, pixel, tail);
        assert(held.take(caught_up as int) =~= held);
        assert((d.pixels + repeat(t.prev, t.run)).push(pixel) =~= d.pixels + held);
    }
}

/// The decoder follows the encoder at the distance of the open run: when
/// the encoder has taken `pixels` and holds back a run of `r`, the bytes
/// written so far, whatever follows them, give the decoder all but the
/// last `r` pixels, which all equal the previous pixel. The decoder is then
/// in the encoder's state and has read exactly the bytes written.
pub proof fn lemma_decoder_follows(s: CodecState, pixels: Seq<Pixel>, tail: Seq<u8>)
    requires
        s.cache.len() == 64,
        s.run == 0,
    ensures
        ({
            let (t, out) = encode_pixels(s, pixels);
            let behind = (pixels.len() - t.run) as nat;
            let d = decode_pixels(s, out + tail, behind);
            &&& t.run <= pixels.len()
            &&& d.complete
            &&& d.state == CodecState { run: 0, ..t }
            &&& d.rest == tail
            &&& d.pixels == pixels.take(behind as int)
            &&& forall|j: int| behind <= j < pixels.len() ==> pixels[j] == t.prev
        }),
    decreases pixels.len(),
{
    let (t, out) = encode_pixels(s, pixels);
    let behind = (pixels.len() - t.run) as nat;
    if pixels.len() == 0 {
        assert(out + tail =~= tail);
        assert(pixels.take(0) =~= Seq::<Pixel>::empty());
    } else {
        let before = pixels.drop_last();
        let pixel = pixels.last();
        let (t0, out0) = encode_pixels(s, before);
        let chunk = encode_step(t0, pixel).1;
        let behind0 = (before.len() - t0.run) as nat;
        let bytes = out + tail;

        lemma_encoder_keeps_shape(s, before);
        lemma_decoder_follows(s, before, chunk + tail);
        assert(out0 + (chunk + tail) =~= bytes);
        lemma_follow_step(s, bytes, behind0, t0, pixel, tail);

        let held = repeat(t0.prev, t0.run).push(pixel);
        let caught_up = (t0.run + 1 - t.run) as nat;
        assert(behind == behind0 + caught_up);
        assert(before.take(behind0 as int) + held.take(caught_up as int) =~= pixels.take(
            behind as int,
        ));
        assert forall|j: int| behind <= j < pixels.len() implies pixels[j] == t.prev by {
            if j < before.len() {
                assert(pixels[j] == before[j]);
            }
        }
    }
}

/// The chunks of an image are read back as its pixels, whatever follows
/// the chunks in the stream.
pub proof fn lemma_body_round_trip(pixels: Seq<Pixel>, tail: Seq<u8>)
    ensures
        decode_pixels(CodecState::initial(), body_bytes(pixels) + tail, pixels.len()).complete,
        decode_pixels(CodecState::initial(), body_bytes(pixels) + tail, pixels.len()).pixels
            == pixels,
        decode_pixels(CodecState::initial(), body_bytes(pixels) + tail, pixels.len()).rest == tail,
{
    let s = CodecState::initial();
    let (t, out) = encode_pixels(s, pixels);
    let behind = (pixels.len() - t.run) as nat;
    let bytes = body_bytes(pixels) + tail;
    lemma_encoder_keeps_shape(s, pixels);
    lemma_decoder_follows(s, pixels, flush(t) + tail);
    assert(out + (flush(t) + tail) =~= bytes);
    lemma_decode_flushed_run(s, bytes, behind, t.run, tail);
    assert(pixels.take(behind as int) + repeat(t.prev, t.run) =~= pixels);
}

/// A header, whatever follows it, is read back as the metadata that it
/// was written from, and takes up 14 bytes.
pub proof fn lemma_header_round_trip(meta: ImageMeta, rest: Seq<u8>)
    ensures
        meta.header().len() == 14,
        parse_header(meta.header() + rest) == Ok::<ImageMeta, Error>(meta),
        (meta.header() + rest).skip(14) == rest,
{
    let bytes = meta.header() + rest;
    lemma_be_round_trip(meta.width);
    lemma_be_round_trip(meta.height);
    assert(has_magic(bytes));
    assert(bytes[4] == be_bytes(meta.width)[0] && bytes[5] == be_bytes(meta.width)[1] && bytes[6]
        == be_bytes(meta.width)[2] && bytes[7] == be_bytes(meta.width)[3]);
    assert(bytes[8] == be_bytes(meta.height)[0] && bytes[9] == be_bytes(meta.height)[1]
        && bytes[10] == be_bytes(meta.height)[2] && bytes[11] == be_bytes(meta.height)[3]);
    assert(bytes[12] == meta.channels);
    assert(bytes[13] == meta.colorspace.byte_spec());
    assert(bytes.skip(14) =~= rest);
}

/// Where the source has as many channels as the decoder writes, the bytes
/// that the decoder writes for the pixels of a source are the bytes of the
/// source. For three channels this rests on every pixel of the source
/// being opaque, and on the decoder leaving alpha out.
pub proof fn lemma_pack_unpack(source: Seq<u8>, colorspace: Colorspace, count: nat)
    requires
        count * colorspace.stride() <= source.len(),
    ensures
        pack(unpack(source, colorspace.stride(), count), colorspace) == source.take(
            (count * colorspace.stride()) as int,
        ),
    decreases count,
{
    let stride = colorspace.stride();
    let pixels = unpack(source, stride, count);
    if count == 0 {
        assert(source.take(0) =~= Seq::<u8>::empty());
    } else {
        let fewer = (count - 1) as nat;
        assert(count * stride == fewer * stride + stride) by (nonlinear_arith)
            requires
                fewer == count - 1,
        ;
        lemma_pack_unpack(source, colorspace, fewer);
        assert(pixels.drop_last() =~= unpack(source, stride, fewer));
        assert(pixels.last() == pixel_at(source, stride, fewer as int));
        assert(source.take((fewer * stride) as int) + pixel_bytes(pixels.last(), colorspace)
            =~= source.take((count * stride) as int));
    }
}

/// The codec is lossless. Take an image whose channel count is the one
/// that the decoder writes for its colorspace, three for linear and four
/// for sRGB, and a source that holds its width times height pixels. Then
/// encoding succeeds, and decoding the stream that was written succeeds,
/// returns the metadata unchanged, and writes the bytes of those pixels:
/// all of the source, where the source holds nothing after them.
pub proof fn lemma_round_trip(meta: ImageMeta, source: Seq<u8>)
    requires
        meta.channels == meta.colorspace.stride(),
        source.len() >= meta.pixel_count() * meta.channels,
    ensures
        encoded(meta, source).0 is Ok,
        decoded(encoded(meta, source).1) == (
            Ok::<ImageMeta, Error>(meta),
            source.take(meta.pixel_count() * meta.channels),
        ),
        source.len() == meta.pixel_count() * meta.channels ==> decoded(encoded(meta, source).1)
            == (Ok::<ImageMeta, Error>(meta), source),
{
    let pixels = unpack(source, meta.channels as nat, meta.pixel_count());
    let stream = image_bytes(meta, pixels);
    let body = body_bytes(pixels) + QOI_BYTES_END@;
    assert(stream =~= meta.header() + body);
    lemma_header_round_trip(meta, body);
    lemma_body_round_trip(pixels, QOI_BYTES_END@);
    lemma_pack_unpack(source, meta.colorspace, meta.pixel_count());
    assert(source.take(source.len() as int) =~= source);
}

/// An image without pixels, whatever its channel count, its colorspace and
/// its source, is encoded as its header and the closing bytes, 22 bytes in
/// all with no chunk between them, and is decoded from them to its metadata
/// and no pixel bytes.
pub proof fn lemma_empty_image(meta: ImageMeta, source: Seq<u8>)
    requires
        meta.pixel_count() == 0,
    ensures
        encoded(meta, source) == (Ok::<(), Error>(()), meta.header() + QOI_BYTES_END@),
        encoded(meta, source).1.len() == 22,
        decoded(encoded(meta, source).1) == (Ok::<ImageMeta, Error>(meta), Seq::<u8>::empty()),
{
    let body = body_bytes(Seq::empty()) + QOI_BYTES_END@;
    assert(unpack(source, meta.channels as nat, 0) =~= Seq::<Pixel>::empty());
    assert(body_bytes(Seq::empty()) =~= Seq::<u8>::empty());
    assert(image_bytes(meta, Seq::empty()) =~= meta.header() + QOI_BYTES_END@);
    assert(image_bytes(meta, Seq::empty()) =~= meta.header() + body);
    lemma_header_round_trip(meta, body);
}

} // verus!
