use std::io::Write as _;

use gzstream::decoder::Decoder;
use gzstream::encoder::Encoder;
use gzstream::format::{Codec, CompressionLevel};
use gzstream::presets::{DeflateDecoder, DeflateEncoder, ZlibDecoder};
use gzstream::sink::VecSink;

fn gen_large_data() -> Vec<u8> {
    let mut v: Vec<u8> = Vec::new();
    let mut i: u32 = 0;
    while v.len() < 16 * 1024 * 20 {
        let line = format!("line {} of generated text for the streaming adapter tests\n", i);
        v.extend_from_slice(line.as_bytes());
        i += 1;
    }
    v
}

fn compress(data: &[u8], level: CompressionLevel, codec: Codec) -> Vec<u8> {
    let mut enc = Encoder::new(VecSink::new(), level, codec);
    for chunk in data.chunks(8192) {
        assert_eq!(enc.write(chunk).unwrap(), chunk.len());
    }
    enc.finish().unwrap().into_vec()
}

fn decompress(data: &[u8], codec: Codec) -> Result<Vec<u8>, gzstream::format::StreamError> {
    let mut dec = Decoder::new(VecSink::new(), codec);
    for chunk in data.chunks(8192) {
        dec.write(chunk)?;
    }
    dec.flush()?;
    Ok(dec.get_ref().as_slice().to_vec())
}

fn same_same(a: &[u8], b: &[u8]) -> bool {
    a == b
}

fn test_encoder_basic(data: &[u8]) {
    let mut encoder = Encoder::new(VecSink::new(), CompressionLevel::Three, Codec::Gzip);
    let mut nbytes: u64 = 0;
    for chunk in data.chunks(8192) {
        nbytes += encoder.write(chunk).unwrap() as u64;
    }

    // Footer isn't written until .flush is called
    let before_flush_bytes_out = encoder.total_out();
    encoder.flush().unwrap();
    let after_flush_bytes_out = encoder.total_out();
    assert!(before_flush_bytes_out < after_flush_bytes_out);

    // nbytes read equals data length; compressed is between 0 and data length
    let compressed = encoder.get_ref().as_slice().to_vec();
    assert_eq!(nbytes, data.len() as u64);
    assert!(compressed.len() > 0);
    assert!(compressed.len() < data.len());

    // total out after flush should equal compressed length
    assert_eq!(after_flush_bytes_out, compressed.len());

    // and can be decompressed
    let decompressed = decompress(&compressed, Codec::Gzip).unwrap();
    assert!(same_same(&decompressed, data));
}

#[test]
fn test_encoder_basic_small() {
    test_encoder_basic(&gen_large_data())
}

#[test]
fn test_encoder_basic_large() {
    test_encoder_basic(&gen_large_data())
}

#[test]
fn test_encoder_multi_stream() {
    let first = b"foo";
    let second = b"bar";

    let mut encoder = Encoder::new(VecSink::new(), CompressionLevel::Three, Codec::Gzip);

    assert_eq!(encoder.write(first).unwrap(), first.len());
    encoder.flush().unwrap();
    assert_eq!(encoder.total_in(), first.len());

    assert_eq!(encoder.write(second).unwrap(), second.len());
    encoder.flush().unwrap();
    assert_eq!(encoder.total_in(), first.len() + second.len());

    let compressed = encoder.get_ref().as_slice().to_vec();
    let decompressed = decompress(&compressed, Codec::Gzip).unwrap();
    assert_eq!(&decompressed, b"foobar");
}

fn test_decoder_basic(data: &[u8]) {
    let compressed = compress(data, CompressionLevel::Three, Codec::Gzip);

    let mut decoder = Decoder::new(VecSink::new(), Codec::Gzip);
    let mut nbytes: u64 = 0;
    for chunk in compressed.chunks(8192) {
        nbytes += decoder.write(chunk).unwrap() as u64;
    }
    assert_eq!(nbytes, compressed.len() as u64);
    assert!(same_same(decoder.get_ref().as_slice(), data));
}

#[test]
fn test_decoder_basic_small() {
    test_decoder_basic(b"foobar")
}

#[test]
fn test_decoder_basic_large() {
    test_decoder_basic(&gen_large_data())
}

#[test]
fn test_decoder_multi_stream() {
    let first = b"foo";
    let second = b"bar";

    let mut compressed = compress(first, CompressionLevel::Three, Codec::Gzip);
    compressed.extend(compress(second, CompressionLevel::Three, Codec::Gzip));

    let mut decoder = Decoder::new(VecSink::new(), Codec::Gzip);
    let mut nbytes: u64 = 0;
    for chunk in compressed.chunks(8192) {
        nbytes += decoder.write(chunk).unwrap() as u64;
    }
    assert_eq!(nbytes, compressed.len() as u64);
    assert_eq!(decoder.get_ref().as_slice(), b"foobar");
}

fn flate2_gzip_compat_encoder_out(data: &[u8]) {
    // our encoder
    let compressed = compress(data, CompressionLevel::Three, Codec::Gzip);

    // their decoder
    let mut decoder = flate2::write::GzDecoder::new(Vec::new());
    decoder.write_all(&compressed).unwrap();
    let decompressed = decoder.finish().unwrap();

    assert!(same_same(data, &decompressed));
}

#[test]
fn flate2_gzip_compat_encoder_out_small() {
    flate2_gzip_compat_encoder_out(b"foobar")
}

#[test]
fn flate2_gzip_compat_encoder_out_large() {
    flate2_gzip_compat_encoder_out(&gen_large_data())
}

fn flate2_gzip_compat_decoder_out(data: &[u8]) {
    // their encoder
    let mut encoder = flate2::write::GzEncoder::new(Vec::new(), flate2::Compression::fast());
    encoder.write_all(data).unwrap();
    let compressed = encoder.finish().unwrap();

    // our decoder
    let decompressed = decompress(&compressed, Codec::Gzip).unwrap();

    assert!(same_same(data, &decompressed));
}

#[test]
fn flate2_gzip_compat_decoder_out_small() {
    flate2_gzip_compat_decoder_out(b"foobar");
}

#[test]
fn flate2_gzip_compat_decoder_out_large() {
    flate2_gzip_compat_decoder_out(&gen_large_data());
}

fn flate2_deflate_compat_encoder_out(data: &[u8]) {
    // our encoder
    let mut encoder = DeflateEncoder::new(VecSink::new(), CompressionLevel::Three);
    for chunk in data.chunks(8192) {
        assert_eq!(encoder.write(chunk).unwrap(), chunk.len());
    }
    encoder.flush().unwrap();
    let compressed = encoder.inner.get_ref().as_slice().to_vec();

    // their decoder
    let mut decoder = flate2::write::DeflateDecoder::new(Vec::new());
    decoder.write_all(&compressed).unwrap();
    let decompressed = decoder.finish().unwrap();

    assert!(same_same(data, &decompressed));
}

#[test]
fn flate2_deflate_compat_encoder_out_small() {
    flate2_deflate_compat_encoder_out(b"foobar");
}

#[test]
fn flate2_deflate_compat_encoder_out_large() {
    flate2_deflate_compat_encoder_out(&gen_large_data());
}

fn flate2_deflate_compat_decoder_out(data: &[u8]) {
    // their encoder
    let mut encoder = flate2::write::DeflateEncoder::new(Vec::new(), flate2::Compression::fast());
    encoder.write_all(data).unwrap();
    let compressed = encoder.finish().unwrap();

    // our decoder
    let mut decoder = DeflateDecoder::new(VecSink::new());
    for chunk in compressed.chunks(8192) {
        assert_eq!(decoder.write(chunk).unwrap(), chunk.len());
    }
    decoder.flush().unwrap();
    let decompressed = decoder.inner.get_ref().as_slice().to_vec();

    assert_eq!(data.len(), decompressed.len());
    assert!(same_same(data, &decompressed));
}

#[test]
fn flate2_deflate_compat_decoder_out_small() {
    flate2_deflate_compat_decoder_out(b"foobar");
}

#[test]
fn flate2_deflate_compat_decoder_out_large() {
    flate2_deflate_compat_decoder_out(&gen_large_data());
}

fn flate2_zlib_compat_decoder_out(data: &[u8]) {
    // their encoder
    let mut encoder = flate2::write::ZlibEncoder::new(Vec::new(), flate2::Compression::fast());
    encoder.write_all(data).unwrap();
    let compressed = encoder.finish().unwrap();

    // our decoder
    let mut decoder = ZlibDecoder::new(VecSink::new());
    for chunk in compressed.chunks(8192) {
        assert_eq!(decoder.write(chunk).unwrap(), chunk.len());
    }
    decoder.flush().unwrap();
    let decompressed = decoder.inner.get_ref().as_slice().to_vec();

    assert_eq!(data.len(), decompressed.len());
    assert!(same_same(data, &decompressed));
}

#[test]
fn flate2_zlib_compat_decoder_out_small() {
    flate2_zlib_compat_decoder_out(b"foobar");
}

#[test]
fn flate2_zlib_compat_decoder_out_large() {
    flate2_zlib_compat_decoder_out(&gen_large_data());
}
