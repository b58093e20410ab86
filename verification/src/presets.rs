use vstd::prelude::*;

use crate::decoder::Decoder;
use crate::encoder::Encoder;
use crate::format::{Codec, CompressionLevel, StreamError};
use crate::sink::Sink;

verus! {

/// Raw deflate compression: an [`Encoder`] with the format fixed.
pub struct DeflateEncoder<W: Sink> {
    pub inner: Encoder<W>,
}

/// Raw deflate decompression: a [`Decoder`] with the format fixed.
pub struct DeflateDecoder<W: Sink> {
    pub inner: Decoder<W>,
}

/// Zlib compression: an [`Encoder`] with the format fixed.
pub struct ZlibEncoder<W: Sink> {
    pub inner: Encoder<W>,
}

/// Zlib decompression: a [`Decoder`] with the format fixed.
pub struct ZlibDecoder<W: Sink> {
    pub inner: Decoder<W>,
}

/// Gzip compression: an [`Encoder`] with the format fixed.
pub struct GzipEncoder<W: Sink> {
    pub inner: Encoder<W>,
}

/// Gzip decompression: a [`Decoder`] with the format fixed.
pub struct GzipDecoder<W: Sink> {
    pub inner: Decoder<W>,
}

impl<W: Sink> DeflateEncoder<W> {
    pub fn new(writer: W, level: CompressionLevel) -> (r: DeflateEncoder<W>)
        ensures
            r.inner.wf(),
            r.inner.at_member_start(),
            r.inner.codec == Codec::Deflate,
            r.inner.level == level,
            r.inner.total_in_spec() == 0,
            r.inner.total_out_spec() == 0,
            r.inner.inner == writer,
            r.inner.base@ == writer.contents(),
    {
        DeflateEncoder { inner: Encoder::new(writer, level, Codec::Deflate) }
    }

    pub fn write(&mut self, buf: &[u8]) -> (r: Result<usize, StreamError>)
        requires
            old(self).inner.wf(),
            old(self).inner.total_in_spec() + buf@.len() <= usize::MAX,
        ensures
            r is Ok ==> r == Ok::<usize, StreamError>(buf@.len() as usize) && final(self).inner.wf() && final(self).inner.codec == old(self).inner.codec && final(self).inner.member_input() == old(self).inner.member_input() + buf@,
            buf@.len() == 0 ==> r == Ok::<usize, StreamError>(0),
    {
        self.inner.write(buf)
    }

    pub fn flush(&mut self) -> (r: Result<(), StreamError>)
        requires
            old(self).inner.wf(),
        ensures
            r is Ok ==> final(self).inner.wf() && final(self).inner.at_member_start() && final(self).inner.codec == old(self).inner.codec && final(self).inner.total_in_spec() == old(self).inner.total_in_spec(),
    {
        self.inner.flush()
    }
}

impl<W: Sink> DeflateDecoder<W> {
    pub fn new(writer: W) -> (r: DeflateDecoder<W>)
        ensures
            r.inner.wf(),
            r.inner.at_boundary(),
            r.inner.codec == Codec::Deflate,
            r.inner.inner == writer,
            r.inner.base@ == writer.contents(),
            r.inner.done@ == Seq::<u8>::empty(),
    {
        DeflateDecoder { inner: Decoder::new(writer, Codec::Deflate) }
    }

    pub fn write(&mut self, buf: &[u8]) -> (r: Result<usize, StreamError>)
        requires
            old(self).inner.wf(),
        ensures
            r is Ok ==> r == Ok::<usize, StreamError>(buf@.len() as usize) && final(self).inner.wf() && final(self).inner.codec == old(self).inner.codec,
            buf@.len() == 0 ==> r == Ok::<usize, StreamError>(0),
    {
        self.inner.write(buf)
    }

    pub fn flush(&mut self) -> (r: Result<(), StreamError>)
        requires
            old(self).inner.wf(),
        ensures
            r is Ok ==> final(self).inner.wf() && final(self).inner.emitted() == old(self).inner.emitted(),
    {
        self.inner.flush()
    }
}

impl<W: Sink> ZlibEncoder<W> {
    pub fn new(writer: W, level: CompressionLevel) -> (r: ZlibEncoder<W>)
        ensures
            r.inner.wf(),
            r.inner.at_member_start(),
            r.inner.codec == Codec::Zlib,
            r.inner.level == level,
            r.inner.total_in_spec() == 0,
            r.inner.total_out_spec() == 0,
            r.inner.inner == writer,
            r.inner.base@ == writer.contents(),
    {
        ZlibEncoder { inner: Encoder::new(writer, level, Codec::Zlib) }
    }

    pub fn write(&mut self, buf: &[u8]) -> (r: Result<usize, StreamError>)
        requires
            old(self).inner.wf(),
            old(self).inner.total_in_spec() + buf@.len() <= usize::MAX,
        ensures
            r is Ok ==> r == Ok::<usize, StreamError>(buf@.len() as usize) && final(self).inner.wf() && final(self).inner.codec == old(self).inner.codec && final(self).inner.member_input() == old(self).inner.member_input() + buf@,
            buf@.len() == 0 ==> r == Ok::<usize, StreamError>(0),
    {
        self.inner.write(buf)
    }

    pub fn flush(&mut self) -> (r: Result<(), StreamError>)
        requires
            old(self).inner.wf(),
        ensures
            r is Ok ==> final(self).inner.wf() && final(self).inner.at_member_start() && final(self).inner.codec == old(self).inner.codec && final(self).inner.total_in_spec() == old(self).inner.total_in_spec(),
    {
        self.inner.flush()
    }
}

impl<W: Sink> ZlibDecoder<W> {
    pub fn new(writer: W) -> (r: ZlibDecoder<W>)
        ensures
            r.inner.wf(),
            r.inner.at_boundary(),
            r.inner.codec == Codec::Zlib,
            r.inner.inner == writer,
            r.inner.base@ == writer.contents(),
            r.inner.done@ == Seq::<u8>::empty(),
    {
        ZlibDecoder { inner: Decoder::new(writer, Codec::Zlib) }
    }

    pub fn write(&mut self, buf: &[u8]) -> (r: Result<usize, StreamError>)
        requires
            old(self).inner.wf(),
        ensures
            r is Ok ==> r == Ok::<usize, StreamError>(buf@.len() as usize) && final(self).inner.wf() && final(self).inner.codec == old(self).inner.codec,
            buf@.len() == 0 ==> r == Ok::<usize, StreamError>(0),
    {
        self.inner.write(buf)
    }

    pub fn flush(&mut self) -> (r: Result<(), StreamError>)
        requires
            old(self).inner.wf(),
        ensures
            r is Ok ==> final(self).inner.wf() && final(self).inner.emitted() == old(self).inner.emitted(),
    {
        self.inner.flush()
    }
}

impl<W: Sink> GzipEncoder<W> {
    pub fn new(writer: W, level: CompressionLevel) -> (r: GzipEncoder<W>)
        ensures
            r.inner.wf(),
            r.inner.at_member_start(),
            r.inner.codec == Codec::Gzip,
            r.inner.level == level,
            r.inner.total_in_spec() == 0,
            r.inner.total_out_spec() == 0,
            r.inner.inner == writer,
            r.inner.base@ == writer.contents(),
    {
        GzipEncoder { inner: Encoder::new(writer, level, Codec::Gzip) }
    }

    pub fn write(&mut self, buf: &[u8]) -> (r: Result<usize, StreamError>)
        requires
            old(self).inner.wf(),
            old(self).inner.total_in_spec() + buf@.len() <= usize::MAX,
        ensures
            r is Ok ==> r == Ok::<usize, StreamError>(buf@.len() as usize) && final(self).inner.wf() && final(self).inner.codec == old(self).inner.codec && final(self).inner.member_input() == old(self).inner.member_input() + buf@,
            buf@.len() == 0 ==> r == Ok::<usize, StreamError>(0),
    {
        self.inner.write(buf)
    }

    pub fn flush(&mut self) -> (r: Result<(), StreamError>)
        requires
            old(self).inner.wf(),
        ensures
            r is Ok ==> final(self).inner.wf() && final(self).inner.at_member_start() && final(self).inner.codec == old(self).inner.codec && final(self).inner.total_in_spec() == old(self).inner.total_in_spec(),
    {
        self.inner.flush()
    }
}

impl<W: Sink> GzipDecoder<W> {
    pub fn new(writer: W) -> (r: GzipDecoder<W>)
        ensures
            r.inner.wf(),
            r.inner.at_boundary(),
            r.inner.codec == Codec::Gzip,
            r.inner.inner == writer,
            r.inner.base@ == writer.contents(),
            r.inner.done@ == Seq::<u8>::empty(),
    {
        GzipDecoder { inner: Decoder::new(writer, Codec::Gzip) }
    }

    pub fn write(&mut self, buf: &[u8]) -> (r: Result<usize, StreamError>)
        requires
            old(self).inner.wf(),
        ensures
            r is Ok ==> r == Ok::<usize, StreamError>(buf@.len() as usize) && final(self).inner.wf() && final(self).inner.codec == old(self).inner.codec,
            buf@.len() == 0 ==> r == Ok::<usize, StreamError>(0),
    {
        self.inner.write(buf)
    }

    pub fn flush(&mut self) -> (r: Result<(), StreamError>)
        requires
            old(self).inner.wf(),
        ensures
            r is Ok ==> final(self).inner.wf() && final(self).inner.emitted() == old(self).inner.emitted(),
    {
        self.inner.flush()
    }
}

} // verus!
