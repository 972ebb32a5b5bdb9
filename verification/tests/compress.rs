//! Compression of record sets.

use volant_kafka::compress::{compress, decompress, stream_outcome, CompressionCodec};

#[test]
fn gzip_roundtrip() {
    let src = b"hello gzip kafka records payload";
    let c = compress(CompressionCodec::Gzip, src).unwrap();
    assert_ne!(c, src);
    let d = decompress(CompressionCodec::Gzip, &c).unwrap();
    assert_eq!(d, src);
}

#[test]
fn snappy_xerial_roundtrip() {
    let src = b"snappy xerial framed kafka payload 0123456789";
    let c = compress(CompressionCodec::Snappy, src).unwrap();
    assert!(c.starts_with(&[0x82, b'S', b'N', b'A', b'P', b'P', b'Y', 0]));
    let d = decompress(CompressionCodec::Snappy, &c).unwrap();
    assert_eq!(d, src);
}

#[test]
fn lz4_roundtrip() {
    let src = b"lz4 frame kafka payload ".repeat(20);
    let c = compress(CompressionCodec::Lz4, &src).unwrap();
    assert_ne!(c, src);
    let d = decompress(CompressionCodec::Lz4, &c).unwrap();
    assert_eq!(d, src);
}

#[test]
fn zstd_roundtrip() {
    let src = b"zstd kafka payload ".repeat(30);
    let c = compress(CompressionCodec::Zstd, &src).unwrap();
    assert_ne!(c, src);
    let d = decompress(CompressionCodec::Zstd, &c).unwrap();
    assert_eq!(d, src);
}

#[test]
fn uncompressed_is_the_data_itself() {
    let src = b"plain";
    assert_eq!(compress(CompressionCodec::Uncompressed, src).unwrap(), src);
    assert_eq!(decompress(CompressionCodec::Uncompressed, src).unwrap(), src);
}

#[test]
fn codecs_are_the_low_bits_of_the_attributes() {
    assert_eq!(CompressionCodec::from_attributes(0).unwrap(), CompressionCodec::Uncompressed);
    assert_eq!(CompressionCodec::from_attributes(0x11).unwrap(), CompressionCodec::Gzip);
    assert_eq!(CompressionCodec::from_attributes(2).unwrap(), CompressionCodec::Snappy);
    assert_eq!(CompressionCodec::from_attributes(3).unwrap(), CompressionCodec::Lz4);
    assert_eq!(CompressionCodec::from_attributes(4).unwrap(), CompressionCodec::Zstd);
    for bad in [5i16, 6, 7] {
        assert!(CompressionCodec::from_attributes(bad).is_err());
    }
    assert_eq!(CompressionCodec::Zstd.as_u8(), 4);
}

#[test]
fn snappy_without_framing_is_read_too() {
    let src = b"raw snappy block, no framing";
    let raw = snap::raw::Encoder::new().compress_vec(src).unwrap();
    assert_eq!(decompress(CompressionCodec::Snappy, &raw).unwrap(), src);
}

#[test]
fn damaged_data_is_an_error() {
    for codec in [CompressionCodec::Gzip, CompressionCodec::Snappy, CompressionCodec::Zstd] {
        assert!(decompress(codec, b"\xff\xff\xff\xff not compressed").is_err(), "{codec:?}");
    }
}

#[test]
fn lz4_blocks_without_a_frame() {
    let src = b"a block with its size in front ".repeat(8);
    let sized = lz4_flex::block::compress_prepend_size(&src);
    assert_eq!(decompress(CompressionCodec::Lz4, &sized).unwrap(), src);
    let bare = [0x50u8, 1, 2, 0, 4, 5];
    assert_eq!(decompress(CompressionCodec::Lz4, &bare).unwrap(), [1, 2, 0, 4, 5]);
    let e = decompress(CompressionCodec::Lz4, &[255, 255, 255, 0, 255, 255, 255, 255]).unwrap_err();
    assert_eq!(e.message(), "lz4 decompress failed");
}

#[test]
fn snappy_raw_blocks_and_broken_streams() {
    let src = b"raw snappy block ".repeat(4);
    let raw = snap::raw::Encoder::new().compress_vec(&src).unwrap();
    assert_eq!(decompress(CompressionCodec::Snappy, &raw).unwrap(), src);
    let magic = [0x82, b'S', b'N', b'A', b'P', b'P', b'Y', 0];
    let e = decompress(CompressionCodec::Snappy, &magic).unwrap_err();
    assert_eq!(e.message(), "truncated xerial snappy header");
    let mut short = magic.to_vec();
    short.extend_from_slice(&[0, 0, 0, 1, 0, 0, 0, 1, 0, 0, 0, 9, 1]);
    let e = decompress(CompressionCodec::Snappy, &short).unwrap_err();
    assert_eq!(e.message(), "truncated xerial snappy block");
}

#[test]
fn encoder_errors_say_where_they_come_from() {
    assert_eq!(stream_outcome("w: ", "e: ", Ok(Ok(vec![1, 2]))).unwrap(), vec![1, 2]);
    let ended = stream_outcome("w: ", "e: ", Ok(Err("full".to_string()))).unwrap_err();
    assert_eq!(ended.message(), "e: full");
    let written = stream_outcome("w: ", "e: ", Err("full".to_string())).unwrap_err();
    assert_eq!(written.message(), "w: full");
}

/// A block of nothing but literals, behind its size.
fn literals(data: &[u8]) -> Vec<u8> {
    let mut out = (data.len() as u32).to_le_bytes().to_vec();
    out.push(0xF0);
    let mut left = data.len() - 15;
    while left >= 255 {
        out.push(255);
        left -= 255;
    }
    out.push(left as u8);
    out.extend_from_slice(data);
    out
}

#[test]
fn long_runs_in_lz4_literals_are_data() {
    let data = vec![255u8; 16_900_000];
    assert!(decompress(CompressionCodec::Lz4, &literals(&data)).unwrap() == data);
}

#[test]
fn lz4_lengths_beyond_32_bits_are_refused() {
    let mut data = vec![16, 0, 0, 0, 0xF0];
    data.resize(5 + 16_843_010, 255);
    data.push(0);
    let e = decompress(CompressionCodec::Lz4, &data).unwrap_err();
    assert_eq!(e.message(), "lz4 decompress failed");
}

#[test]
fn lz4_takes_every_payload() {
    for data in [vec![], vec![7u8; 1], vec![0u8; 300_000], (0..=255u8).collect::<Vec<u8>>()] {
        let c = compress(CompressionCodec::Lz4, &data).unwrap();
        assert_eq!(decompress(CompressionCodec::Lz4, &c).unwrap(), data);
    }
}
