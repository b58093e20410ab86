use std::io::Write as _;

use gzstream::adler::Adler;
use gzstream::decoder::Decoder;
use gzstream::encoder::Encoder;
use gzstream::format::{check_zlib_header, Codec, CompressionLevel, StreamError, BUF_SIZE};
use gzstream::presets::{GzipDecoder, GzipEncoder, ZlibEncoder};
use gzstream::sink::VecSink;

fn sample_data(len: usize) -> Vec<u8> {
    let mut v: Vec<u8> = Vec::new();
    let mut i: u32 = 0;
    while v.len() < len {
        let line = format!("sample text {} with some repetition, repetition\n", i);
        v.extend_from_slice(line.as_bytes());
        i += 1;
    }
    v.truncate(len);
    v
}

fn compress(data: &[u8], level: CompressionLevel, codec: Codec) -> Vec<u8> {
    let mut enc = Encoder::new(VecSink::new(), level, codec);
    for chunk in data.chunks(8192) {
        assert_eq!(enc.write(chunk).unwrap(), chunk.len());
    }
    enc.finish().unwrap().into_vec()
}

fn decompress(data: &[u8], codec: Codec) -> Result<Vec<u8>, StreamError> {
    let mut dec = Decoder::new(VecSink::new(), codec);
    for chunk in data.chunks(8192) {
        dec.write(chunk)?;
    }
    dec.flush()?;
    Ok(dec.get_ref().as_slice().to_vec())
}

#[test]
fn round_trip_all_codecs_and_sizes() {
    let codecs = [Codec::Deflate, Codec::Zlib, Codec::Gzip];
    let levels = [CompressionLevel::Zero, CompressionLevel::One, CompressionLevel::Three];
    let sizes = [0usize, 1, 6, 100, BUF_SIZE - 1, BUF_SIZE, 2 * BUF_SIZE + 3];
    for &codec in codecs.iter() {
        for &level in levels.iter() {
            for &len in sizes.iter() {
                let data = sample_data(len);
                let compressed = compress(&data, level, codec);
                let decompressed = decompress(&compressed, codec).unwrap();
                assert_eq!(decompressed, data, "codec {:?} len {}", codec, len);
            }
        }
    }
}

#[test]
fn flush_idempotence_empty_streams() {
    for &codec in [Codec::Deflate, Codec::Zlib, Codec::Gzip].iter() {
        let mut enc = Encoder::new(VecSink::new(), CompressionLevel::Three, codec);
        // flushing with no pending input still emits a valid terminated stream
        enc.flush().unwrap();
        let one = enc.get_ref().as_slice().to_vec();
        assert!(one.len() > 0);
        assert_eq!(decompress(&one, codec).unwrap(), b"");
        // a second consecutive flush emits a second, independently valid empty stream
        enc.flush().unwrap();
        let two = enc.get_ref().as_slice().to_vec();
        assert!(two.len() > one.len());
        let second = &two[one.len()..];
        assert_eq!(decompress(second, codec).unwrap(), b"");
        // the concatenation decodes to nothing as well
        assert_eq!(decompress(&two, codec).unwrap(), b"");
    }
}

#[test]
fn multi_stream_concatenation_counters() {
    let mut enc = Encoder::new(VecSink::new(), CompressionLevel::Three, Codec::Gzip);
    assert_eq!(enc.write(b"foo").unwrap(), 3);
    enc.flush().unwrap();
    assert_eq!(enc.write(b"bar").unwrap(), 3);
    enc.flush().unwrap();
    assert_eq!(enc.total_in(), 6);
    let compressed = enc.get_ref().as_slice().to_vec();
    assert_eq!(decompress(&compressed, Codec::Gzip).unwrap(), b"foobar");
}

#[test]
fn counter_monotonic_across_flush() {
    for &codec in [Codec::Deflate, Codec::Zlib, Codec::Gzip].iter() {
        let mut enc = Encoder::new(VecSink::new(), CompressionLevel::Three, codec);
        enc.write(b"some nonempty input").unwrap();
        let before = enc.total_out();
        enc.flush().unwrap();
        let after = enc.total_out();
        assert!(after > before, "codec {:?}", codec);
    }
}

#[test]
fn checksum_enforcement_zlib_trailer() {
    let data = sample_data(300);
    let compressed = compress(&data, CompressionLevel::Three, Codec::Zlib);
    let n = compressed.len();
    // corrupting any trailer byte fails with the checksum-mismatch kind
    for i in (n - 4)..n {
        let mut bad = compressed.clone();
        bad[i] ^= 0xff;
        let r = decompress(&bad, Codec::Zlib);
        assert_eq!(r, Err(StreamError::ChecksumMismatch), "byte {}", i);
    }
    // the untouched blob still decodes
    assert_eq!(decompress(&compressed, Codec::Zlib).unwrap(), data);
}

#[test]
fn checksum_enforcement_gzip_trailer() {
    let data = sample_data(300);
    let compressed = compress(&data, CompressionLevel::Three, Codec::Gzip);
    let n = compressed.len();
    for i in (n - 8)..n {
        let mut bad = compressed.clone();
        bad[i] ^= 0xff;
        let r = decompress(&bad, Codec::Gzip);
        assert_eq!(r, Err(StreamError::ChecksumMismatch), "byte {}", i);
    }
}

#[test]
fn chunking_equivalence() {
    let data = sample_data(3 * BUF_SIZE + 17);
    for &codec in [Codec::Deflate, Codec::Zlib, Codec::Gzip].iter() {
        let compressed = compress(&data, CompressionLevel::Three, codec);
        // one call
        let mut one = Decoder::new(VecSink::new(), codec);
        one.write(&compressed).unwrap();
        let out_one = one.get_ref().as_slice().to_vec();
        // many calls of varying sizes
        for &chunk in [1usize, 7, 1024, 8192].iter() {
            let mut many = Decoder::new(VecSink::new(), codec);
            for part in compressed.chunks(chunk) {
                assert_eq!(many.write(part).unwrap(), part.len());
            }
            assert_eq!(many.get_ref().as_slice(), &out_one, "codec {:?} chunk {}", codec, chunk);
        }
        assert_eq!(out_one, data);
    }
}

#[test]
fn full_acceptance_all_sizes() {
    for &codec in [Codec::Deflate, Codec::Zlib, Codec::Gzip].iter() {
        let mut enc = Encoder::new(VecSink::new(), CompressionLevel::One, codec);
        for &len in [0usize, 1, BUF_SIZE - 1, BUF_SIZE, BUF_SIZE + 1, 3 * BUF_SIZE].iter() {
            let data = sample_data(len);
            assert_eq!(enc.write(&data).unwrap(), len);
        }
        enc.flush().unwrap();
    }
}

#[test]
fn malformed_zlib_header_rejected() {
    // bad check bits: 0x78 0x02 is not divisible by 31
    let r = decompress(&[0x78, 0x02, 0x03, 0x00], Codec::Zlib);
    assert_eq!(r, Err(StreamError::MalformedHeader));
    assert!(check_zlib_header(0x78, 0x01));
    assert!(check_zlib_header(0x78, 0x9c));
    assert!(check_zlib_header(0x78, 0xda));
    assert!(!check_zlib_header(0x78, 0x02));
    // a preset dictionary is not supported
    assert!(!check_zlib_header(0x78, 0x20));
}

#[test]
fn malformed_gzip_header_rejected() {
    let r = decompress(&[0x1f, 0x8c, 0x08, 0x00], Codec::Gzip);
    assert_eq!(r, Err(StreamError::MalformedHeader));
    // reserved flag bits are refused
    let r2 = decompress(&[0x1f, 0x8b, 0x08, 0xe0, 0, 0, 0, 0, 0, 0xff], Codec::Gzip);
    assert_eq!(r2, Err(StreamError::MalformedHeader));
}

#[test]
fn corrupt_body_reports_engine_error() {
    let mut blob: Vec<u8> = vec![0x1f, 0x8b, 0x08, 0x00, 0, 0, 0, 0, 0, 0xff];
    blob.extend_from_slice(&[0xff; 64]);
    let r = decompress(&blob, Codec::Gzip);
    assert_eq!(r, Err(StreamError::Engine));
}

#[test]
fn gzip_header_with_optional_fields() {
    // a gzip member whose header carries a file name still decodes
    let data = sample_data(500);
    let mut encoder = flate2::GzBuilder::new().filename("name.txt").comment("made for testing")
        .write(Vec::new(), flate2::Compression::default());
    encoder.write_all(&data).unwrap();
    let compressed = encoder.finish().unwrap();
    // one byte at a time, so the header spans many calls
    let mut dec = GzipDecoder::new(VecSink::new());
    for part in compressed.chunks(1) {
        assert_eq!(dec.write(part).unwrap(), 1);
    }
    assert_eq!(dec.inner.get_ref().as_slice(), &data);
}

#[test]
fn presets_round_trip() {
    let data = sample_data(2000);
    let mut enc = GzipEncoder::new(VecSink::new(), CompressionLevel::Three);
    enc.write(&data).unwrap();
    enc.flush().unwrap();
    let compressed = enc.inner.get_ref().as_slice().to_vec();
    let mut dec = GzipDecoder::new(VecSink::new());
    dec.write(&compressed).unwrap();
    assert_eq!(dec.inner.get_ref().as_slice(), &data);

    let mut zenc = ZlibEncoder::new(VecSink::new(), CompressionLevel::One);
    zenc.write(&data).unwrap();
    zenc.flush().unwrap();
    let zcompressed = zenc.inner.get_ref().as_slice().to_vec();
    assert_eq!(decompress(&zcompressed, Codec::Zlib).unwrap(), data);
}

#[test]
fn adler_known_value() {
    let mut a = Adler::new();
    a.update(b"Wikipedia");
    assert_eq!(a.sum(), 0x11E60398);
    // chunked feeding folds to the same checksum
    let mut b = Adler::new();
    b.update(b"Wiki");
    b.update(b"pedia");
    assert_eq!(b.sum(), 0x11E60398);
    // empty input has checksum one
    assert_eq!(Adler::new().sum(), 1);
}

#[test]
fn zlib_members_concatenated() {
    // two zlib streams written back to back decode back to back
    let mut enc = Encoder::new(VecSink::new(), CompressionLevel::Three, Codec::Zlib);
    enc.write(b"foo").unwrap();
    enc.flush().unwrap();
    enc.write(b"bar").unwrap();
    enc.flush().unwrap();
    let compressed = enc.get_ref().as_slice().to_vec();
    assert_eq!(decompress(&compressed, Codec::Zlib).unwrap(), b"foobar");
}

#[test]
fn deflate_members_concatenated() {
    // two raw deflate streams written back to back decode back to back
    let mut blob = compress(b"foo", CompressionLevel::Three, Codec::Deflate);
    blob.extend(compress(b"bar", CompressionLevel::Three, Codec::Deflate));
    let mut dec = Decoder::new(VecSink::new(), Codec::Deflate);
    assert_eq!(dec.write(&blob).unwrap(), blob.len());
    assert_eq!(dec.get_ref().as_slice(), b"foobar");
}

#[test]
fn gzip_members_concatenated_one_call() {
    // the full concatenated output of two flushed streams, decoded in one call
    let mut enc = Encoder::new(VecSink::new(), CompressionLevel::Three, Codec::Gzip);
    enc.write(b"foo").unwrap();
    enc.flush().unwrap();
    enc.write(b"bar").unwrap();
    enc.flush().unwrap();
    let blob = enc.get_ref().as_slice().to_vec();
    let mut dec = Decoder::new(VecSink::new(), Codec::Gzip);
    assert_eq!(dec.write(&blob).unwrap(), blob.len());
    assert_eq!(dec.get_ref().as_slice(), b"foobar");
}
