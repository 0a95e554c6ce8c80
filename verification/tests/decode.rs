use qoi::decode::{decode_header, decode_pixel};
use qoi::meta::QOI_BYTES_MAGIC;
use qoi::{decode_image, ByteSource, Colorspace, Error, ImageMeta, Op, Pixel, PixelDiff, State};

#[test]
fn test_decoding_image_header() {
    let mut header = Vec::new();

    header.extend_from_slice(&QOI_BYTES_MAGIC);
    header.extend_from_slice(&0u32.to_be_bytes());
    header.extend_from_slice(&0u32.to_be_bytes());
    header.extend_from_slice(&[4, 0]);

    assert_eq!(
        decode_header(&mut ByteSource::new(header.as_slice())),
        Ok(ImageMeta { width: 0, height: 0, channels: 4, colorspace: Colorspace::Srgb })
    );
}

#[test]
fn test_decoding_invalid_image_header() {
    let mut header = Vec::new();

    header.extend_from_slice(&[b'q', b'q', b'q', b'q']);
    header.extend_from_slice(&0usize.to_be_bytes());
    header.extend_from_slice(&0usize.to_be_bytes());
    header.extend_from_slice(&[5, 2]);

    assert!(decode_header(&mut ByteSource::new(header.as_slice())).is_err());
}

#[test]
fn test_decoding_rgb_op() {
    let mut state = State::new();
    let mut source = Vec::new();

    Op::Rgb(101, 102, 103).into_bytes(&mut source).expect("Failed to write op");

    assert_eq!(
        decode_pixel(&mut state, &mut ByteSource::new(source.as_slice())),
        Ok(Pixel { r: 101, g: 102, b: 103, a: 255 })
    );
}

#[test]
fn test_decoding_rgba_op() {
    let mut state = State::new();
    let mut source = Vec::new();

    Op::Rgba(101, 102, 103, 104).into_bytes(&mut source).expect("Failed to write op");

    assert_eq!(
        decode_pixel(&mut state, &mut ByteSource::new(source.as_slice())),
        Ok(Pixel { r: 101, g: 102, b: 103, a: 104 })
    );
}

#[test]
fn test_decoding_run_op() {
    let mut state = State::new();
    let pixel = Pixel { r: 101, g: 102, b: 103, a: 104 };
    let mut source = Vec::new();

    Op::Run(1).into_bytes(&mut source).expect("Failed to write op");

    state.prev_pixel = pixel;

    assert_eq!(decode_pixel(&mut state, &mut ByteSource::new(source.as_slice())), Ok(pixel));

    assert_eq!(state.run_count, 0);
}

#[test]
fn test_decoding_index_op() {
    let mut state = State::new();
    let pixel = Pixel { r: 101, g: 102, b: 103, a: 104 };
    let mut source = Vec::new();

    Op::Index((pixel.qoi_hash() % 64) as u8).into_bytes(&mut source).expect("Failed to write op");

    state.cache_insert(pixel);

    assert_eq!(decode_pixel(&mut state, &mut ByteSource::new(source.as_slice())), Ok(pixel));
}

#[test]
fn test_decoding_color_op() {
    let mut state = State::new();
    let pixel_a = Pixel { r: 100, g: 100, b: 100, a: 255 };
    let pixel_b = Pixel { r: 101, g: 101, b: 101, a: 255 };
    let mut source = Vec::new();

    state.prev_pixel = pixel_a;

    match pixel_b.diff(&pixel_a) {
        Some(PixelDiff::Color(diff_r, diff_g, diff_b)) => {
            Op::Color(diff_r, diff_g, diff_b).into_bytes(&mut source).expect("Failed to write op");
        }
        _ => {
            panic!("Expected color diff");
        }
    };

    assert_eq!(decode_pixel(&mut state, &mut ByteSource::new(source.as_slice())), Ok(pixel_b));
}

#[test]
fn test_decoding_luma_op() {
    let mut state = State::new();
    let pixel_a = Pixel { r: 100, g: 100, b: 100, a: 255 };
    let pixel_b = Pixel { r: 100, g: 108, b: 100, a: 255 };
    let mut source = Vec::new();

    state.prev_pixel = pixel_a;

    match pixel_b.diff(&pixel_a) {
        Some(PixelDiff::Luma(diff_g, diff_rg, diff_bg)) => {
            Op::Luma(diff_g, diff_rg, diff_bg).into_bytes(&mut source).expect("Failed to write op");
        }
        _ => {
            panic!("Expected luma diff");
        }
    };

    assert_eq!(decode_pixel(&mut state, &mut ByteSource::new(source.as_slice())), Ok(pixel_b));
}

// A stream for an image without pixels: three channels, linear.
fn blank_rgb() -> Vec<u8> {
    let mut bytes = Vec::new();
    bytes.extend_from_slice(b"qoif");
    bytes.extend_from_slice(&[0, 0, 0, 0, 0, 0, 0, 0, 3, 1]);
    bytes.extend_from_slice(&[0, 0, 0, 0, 0, 0, 0, 1]);
    bytes
}

// A stream that announces 2 x 2 pixels of three channels and ends inside
// its second chunk.
fn incomplete_rgb() -> Vec<u8> {
    let mut bytes = Vec::new();
    bytes.extend_from_slice(b"qoif");
    bytes.extend_from_slice(&[0, 0, 0, 2, 0, 0, 0, 2, 3, 1]);
    bytes.extend_from_slice(&[0xfe, 10, 20, 30, 0xfe, 40]);
    bytes
}

#[test]
fn test_decoding_blank_image() {
    let source = blank_rgb();
    let mut dest = Vec::new();
    let meta = decode_image(source.as_slice(), &mut dest).expect("Failed to decode image");

    assert_eq!(dest.len(), 0);

    assert_eq!(
        meta,
        ImageMeta { width: 0, height: 0, channels: 3, colorspace: Colorspace::Linear }
    );
}

#[test]
fn test_decoding_incomplete_image() {
    let source = incomplete_rgb();
    let mut dest = Vec::new();
    let result = decode_image(source.as_slice(), &mut dest);

    assert!(result.is_err());
}

#[test]
fn decoding_incomplete_image_keeps_the_pixels_before_the_end() {
    let source = incomplete_rgb();
    let mut dest = vec![7u8];

    assert_eq!(decode_image(source.as_slice(), &mut dest), Err(Error::UnexpectedEof));
    assert_eq!(dest, vec![7, 10, 20, 30]);
}

#[test]
fn decoding_ignores_what_follows_the_last_pixel() {
    let mut source = Vec::new();
    source.extend_from_slice(b"qoif");
    source.extend_from_slice(&[0, 0, 0, 1, 0, 0, 0, 1, 4, 0]);
    source.extend_from_slice(&[0xff, 1, 2, 3, 4]);
    let mut dest = Vec::new();

    assert_eq!(
        decode_image(source.as_slice(), &mut dest),
        Ok(ImageMeta { width: 1, height: 1, channels: 4, colorspace: Colorspace::Srgb })
    );
    assert_eq!(dest, vec![1, 2, 3, 4]);
}

#[test]
fn decoding_writes_stride_of_the_colorspace() {
    // Channel count 4 with a linear colorspace: three bytes to the pixel.
    let mut source = Vec::new();
    source.extend_from_slice(b"qoif");
    source.extend_from_slice(&[0, 0, 0, 2, 0, 0, 0, 1, 4, 1]);
    source.extend_from_slice(&[0xff, 1, 2, 3, 4, 0xc0]);
    let mut dest = Vec::new();

    assert_eq!(
        decode_image(source.as_slice(), &mut dest),
        Ok(ImageMeta { width: 2, height: 1, channels: 4, colorspace: Colorspace::Linear })
    );
    assert_eq!(dest, vec![1, 2, 3, 1, 2, 3]);
}

#[test]
fn header_with_wrong_magic_is_invalid_header() {
    let mut header = Vec::new();
    header.extend_from_slice(b"qqqq");
    header.extend_from_slice(&[0, 0, 0, 1, 0, 0, 0, 1, 4, 0]);
    assert_eq!(header.len(), 14);

    let mut source = ByteSource::new(header.as_slice());
    assert_eq!(decode_header(&mut source), Err(Error::InvalidHeader));
    // Nothing was read.
    assert_eq!(source.as_slice(), header.as_slice());
}

#[test]
fn header_cut_inside_the_magic_is_invalid_header() {
    assert_eq!(decode_header(&mut ByteSource::new(b"qoi")), Err(Error::InvalidHeader));
    assert_eq!(decode_header(&mut ByteSource::new(b"")), Err(Error::InvalidHeader));
}

#[test]
fn header_cut_to_ten_bytes_is_invalid_dimensions() {
    let header = [b'q', b'o', b'i', b'f', 0, 0, 0, 1, 0, 0];
    assert_eq!(decode_header(&mut ByteSource::new(&header)), Err(Error::InvalidDimensions));

    let header = [b'q', b'o', b'i', b'f'];
    assert_eq!(decode_header(&mut ByteSource::new(&header)), Err(Error::InvalidDimensions));

    let header = [b'q', b'o', b'i', b'f', 0, 0, 0, 1, 0, 0, 0];
    assert_eq!(decode_header(&mut ByteSource::new(&header)), Err(Error::InvalidDimensions));
}

#[test]
fn header_cut_after_the_dimensions_is_unexpected_eof() {
    let header = [b'q', b'o', b'i', b'f', 0, 0, 0, 1, 0, 0, 0, 1];
    assert_eq!(decode_header(&mut ByteSource::new(&header)), Err(Error::UnexpectedEof));

    let header = [b'q', b'o', b'i', b'f', 0, 0, 0, 1, 0, 0, 0, 1, 4];
    assert_eq!(decode_header(&mut ByteSource::new(&header)), Err(Error::UnexpectedEof));
}

#[test]
fn header_with_unknown_colorspace_is_invalid_colorspace() {
    let header = [b'q', b'o', b'i', b'f', 0, 0, 0, 1, 0, 0, 0, 1, 4, 2];
    assert_eq!(decode_header(&mut ByteSource::new(&header)), Err(Error::InvalidColorspace(2)));
    assert_eq!(Colorspace::try_from(255), Err(Error::InvalidColorspace(255)));
    assert_eq!(Colorspace::try_from(0), Ok(Colorspace::Srgb));
    assert_eq!(Colorspace::try_from(1), Ok(Colorspace::Linear));
}

#[test]
fn header_fields_are_big_endian() {
    let header = [b'q', b'o', b'i', b'f', 0x01, 0x02, 0x03, 0x04, 0xff, 0xfe, 0xfd, 0xfc, 3, 1, 9];
    let mut source = ByteSource::new(&header);
    assert_eq!(
        decode_header(&mut source),
        Ok(ImageMeta {
            width: 0x0102_0304,
            height: 0xfffe_fdfc,
            channels: 3,
            colorspace: Colorspace::Linear
        })
    );
    // The source stands behind the 14 bytes of the header.
    assert_eq!(source.as_slice(), &[9]);
}

#[test]
fn decoding_a_run_repeats_the_previous_pixel_without_reading() {
    let mut state = State::new();
    let pixel = Pixel { r: 1, g: 2, b: 3, a: 4 };
    let mut bytes = Vec::new();
    Op::Run(3).into_bytes(&mut bytes).expect("Failed to write op");
    Op::Rgba(9, 9, 9, 9).into_bytes(&mut bytes).expect("Failed to write op");
    let mut source = ByteSource::new(bytes.as_slice());

    state.prev_pixel = pixel;

    assert_eq!(decode_pixel(&mut state, &mut source), Ok(pixel));
    assert_eq!(state.run_count, 2);
    assert_eq!(source.as_slice().len(), 5);
    assert_eq!(decode_pixel(&mut state, &mut source), Ok(pixel));
    assert_eq!(decode_pixel(&mut state, &mut source), Ok(pixel));
    assert_eq!(state.run_count, 0);
    assert_eq!(source.as_slice().len(), 5);
    assert_eq!(decode_pixel(&mut state, &mut source), Ok(Pixel { r: 9, g: 9, b: 9, a: 9 }));
    assert_eq!(decode_pixel(&mut state, &mut source), Err(Error::UnexpectedEof));
}

#[test]
fn decoding_a_pixel_leaves_cache_and_previous_pixel_alone() {
    let mut state = State::new();
    let bytes = [0xff, 1, 2, 3, 4];

    assert_eq!(
        decode_pixel(&mut state, &mut ByteSource::new(&bytes)),
        Ok(Pixel { r: 1, g: 2, b: 3, a: 4 })
    );
    assert_eq!(state.prev_pixel, Pixel::default());
    assert!(state.cache.iter().all(|p| *p == Pixel { r: 0, g: 0, b: 0, a: 0 }));
}

#[test]
fn decoding_an_index_reads_the_slot_as_it_is() {
    // The slot is handed out even where it holds the previous pixel.
    let mut state = State::new();
    let bytes = [53];
    state.cache_insert(Pixel::default());

    assert_eq!(Pixel::default().qoi_hash() % 64, 53);
    assert_eq!(decode_pixel(&mut state, &mut ByteSource::new(&bytes)), Ok(Pixel::default()));

    // An untouched slot holds transparent black.
    let bytes = [7];
    assert_eq!(
        decode_pixel(&mut state, &mut ByteSource::new(&bytes)),
        Ok(Pixel { r: 0, g: 0, b: 0, a: 0 })
    );
}
