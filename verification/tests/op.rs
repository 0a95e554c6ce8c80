use qoi::{ByteSource, Error, Op};

fn written(op: Op) -> Vec<u8> {
    let mut dest = Vec::new();
    op.into_bytes(&mut dest).expect("Failed to write op");
    dest
}

fn read(bytes: &[u8]) -> (Result<Op, Error>, usize) {
    let mut source = ByteSource::new(bytes);
    let op = Op::try_from_bytes(&mut source);
    (op, bytes.len() - source.as_slice().len())
}

#[test]
fn each_chunk_has_its_layout() {
    assert_eq!(written(Op::Index(0)), vec![0b0000_0000]);
    assert_eq!(written(Op::Index(63)), vec![0b0011_1111]);
    assert_eq!(written(Op::Color(1, 2, 3)), vec![0b0101_1011]);
    assert_eq!(written(Op::Color(0, 0, 0)), vec![0b0100_0000]);
    assert_eq!(written(Op::Luma(63, 15, 0)), vec![0b1011_1111, 0b1111_0000]);
    assert_eq!(written(Op::Luma(1, 2, 3)), vec![0b1000_0001, 0b0010_0011]);
    assert_eq!(written(Op::Rgb(1, 2, 3)), vec![0b1111_1110, 1, 2, 3]);
    assert_eq!(written(Op::Rgba(1, 2, 3, 4)), vec![0b1111_1111, 1, 2, 3, 4]);
    assert_eq!(written(Op::Run(1)), vec![0b1100_0000]);
    assert_eq!(written(Op::Run(62)), vec![0b1111_1101]);
}

#[test]
fn into_bytes_appends() {
    let mut dest = vec![1, 2];
    Op::Rgb(7, 8, 9).into_bytes(&mut dest).expect("Failed to write op");
    Op::Run(2).into_bytes(&mut dest).expect("Failed to write op");
    assert_eq!(dest, vec![1, 2, 0xfe, 7, 8, 9, 0xc1]);
}

#[test]
fn each_chunk_is_read_back() {
    assert_eq!(read(&[0b0011_1111, 9]), (Ok(Op::Index(63)), 1));
    assert_eq!(read(&[0b0101_1011, 9]), (Ok(Op::Color(1, 2, 3)), 1));
    assert_eq!(read(&[0b1011_1111, 0b1111_0000, 9]), (Ok(Op::Luma(63, 15, 0)), 2));
    assert_eq!(read(&[0xfe, 1, 2, 3, 9]), (Ok(Op::Rgb(1, 2, 3)), 4));
    assert_eq!(read(&[0xff, 1, 2, 3, 4, 9]), (Ok(Op::Rgba(1, 2, 3, 4)), 5));
}

#[test]
fn a_run_is_read_back_as_its_stored_field() {
    // Written with its length, read as one less: the pixels after the first.
    assert_eq!(read(&written(Op::Run(1))), (Ok(Op::Run(0)), 1));
    assert_eq!(read(&written(Op::Run(62))), (Ok(Op::Run(61)), 1));
    for count in 1..=62u8 {
        assert_eq!(read(&written(Op::Run(count))), (Ok(Op::Run(count - 1)), 1));
    }
}

#[test]
fn chunks_whose_fields_fit_are_read_back_as_written() {
    for index in 0..=63u8 {
        assert_eq!(read(&written(Op::Index(index))), (Ok(Op::Index(index)), 1));
    }
    for r in 0..=3u8 {
        for g in 0..=3u8 {
            for b in 0..=3u8 {
                assert_eq!(read(&written(Op::Color(r, g, b))), (Ok(Op::Color(r, g, b)), 1));
            }
        }
    }
    for g in 0..=63u8 {
        for rg in 0..=15u8 {
            for bg in 0..=15u8 {
                assert_eq!(read(&written(Op::Luma(g, rg, bg))), (Ok(Op::Luma(g, rg, bg)), 2));
            }
        }
    }
    for v in [0u8, 1, 0x40, 0x80, 0xc0, 0xfe, 0xff] {
        assert_eq!(read(&written(Op::Rgb(v, v, v))), (Ok(Op::Rgb(v, v, v)), 4));
        assert_eq!(read(&written(Op::Rgba(v, v, v, v))), (Ok(Op::Rgba(v, v, v, v)), 5));
    }
}

#[test]
fn literal_tags_are_told_apart_before_the_run_tag() {
    // 0xfe and 0xff carry the two bits of a run.
    assert_eq!(read(&[0xfe, 0, 0, 0]), (Ok(Op::Rgb(0, 0, 0)), 4));
    assert_eq!(read(&[0xff, 0, 0, 0, 0]), (Ok(Op::Rgba(0, 0, 0, 0)), 5));
    assert_eq!(read(&[0xfd]), (Ok(Op::Run(61)), 1));
}

#[test]
fn every_leading_byte_starts_a_chunk() {
    for byte in 0..=255u8 {
        let bytes = [byte, 0, 0, 0, 0];
        let (op, len) = read(&bytes);
        let expected = match byte {
            0xfe => (Op::Rgb(0, 0, 0), 4),
            0xff => (Op::Rgba(0, 0, 0, 0), 5),
            0x00..=0x3f => (Op::Index(byte), 1),
            0x40..=0x7f => (Op::Color((byte >> 4) & 3, (byte >> 2) & 3, byte & 3), 1),
            0x80..=0xbf => (Op::Luma(byte & 0x3f, 0, 0), 2),
            _ => (Op::Run(byte & 0x3f), 1),
        };
        assert_eq!((op, len), (Ok(expected.0), expected.1));
    }
}

#[test]
fn a_chunk_cut_short_is_unexpected_eof() {
    assert_eq!(read(&[]), (Err(Error::UnexpectedEof), 0));
    assert_eq!(read(&[0x80]), (Err(Error::UnexpectedEof), 1));
    assert_eq!(read(&[0xfe]), (Err(Error::UnexpectedEof), 1));
    assert_eq!(read(&[0xfe, 1, 2]), (Err(Error::UnexpectedEof), 3));
    assert_eq!(read(&[0xff, 1, 2, 3]), (Err(Error::UnexpectedEof), 4));
}

#[test]
fn byte_source_reads_forward() {
    let bytes = [1u8, 2, 3, 4];
    let mut source = ByteSource::new(&bytes);

    assert_eq!(source.next_byte(), Ok(1));
    assert_eq!(source.as_slice(), &[2, 3, 4]);
    source.advance(2);
    assert_eq!(source.next_byte(), Ok(4));
    assert_eq!(source.next_byte(), Err(Error::UnexpectedEof));
    assert_eq!(source.as_slice().len(), 0);
    source.advance(0);
    assert_eq!(source.next_byte(), Err(Error::UnexpectedEof));
}
