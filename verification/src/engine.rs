use vstd::prelude::*;

use crate::format::{CompressionLevel, StreamError, BUF_SIZE};

verus! {

#[verifier::external_type_specification]
#[verifier::external_body]
pub struct ExCompress(flate2::Compress);

#[verifier::external_type_specification]
#[verifier::external_body]
pub struct ExDecompress(flate2::Decompress);

#[verifier::external_type_specification]
#[verifier::external_body]
pub struct ExCrc(flate2::Crc);

/// What the engine's inflate side has emitted once it has consumed exactly
/// the raw-deflate bytes `s`, given unlimited output space: the decoded
/// bytes, and the position just past the stream's final block if the stream
/// ended within `s`.
pub uninterp spec fn inflate_sim(s: Seq<u8>) -> (Seq<u8>, Option<int>);

/// The CRC-32 digest of `s`.
pub uninterp spec fn crc32_of(s: Seq<u8>) -> u32;

/// The stateful raw-deflate compressor, together with the bytes fed into it
/// and the bytes taken out of it since the last structural reset.
pub struct DeflateEngine {
    pub raw: flate2::Compress,
    pub fed: Ghost<Seq<u8>>,
    pub out: Ghost<Seq<u8>>,
}

/// Relies on flate2::Compress::new: a fresh raw-deflate stream (no zlib
/// wrapping) that has consumed and produced nothing.
#[verifier::external_body]
fn raw_compress_new(level: CompressionLevel) -> (r: flate2::Compress) {
    let lvl: u32 = match level {
        CompressionLevel::Zero => 0,
        CompressionLevel::One => 1,
        CompressionLevel::Three => 3,
    };
    flate2::Compress::new(flate2::Compression::new(lvl), false)
}

/// Relies on flate2::Decompress::new: a fresh raw-deflate decoder (no zlib
/// wrapping) that has consumed and produced nothing.
#[verifier::external_body]
fn raw_decompress_new() -> (r: flate2::Decompress) {
    flate2::Decompress::new(false)
}

/// Relies on flate2::Crc::new: a fresh CRC-32 accumulator.
#[verifier::external_body]
fn raw_crc_new() -> (r: flate2::Crc) {
    flate2::Crc::new()
}

impl DeflateEngine {
    pub(crate) fn new(level: CompressionLevel) -> (r: DeflateEngine)
        ensures
            r.fed@ == Seq::<u8>::empty(),
            r.out@ == Seq::<u8>::empty(),
    {
        DeflateEngine { raw: raw_compress_new(level), fed: Ghost(Seq::empty()), out: Ghost(Seq::empty()) }
    }

    /// Relies on flate2::Compress::compress: one cycle of the engine over an
    /// input window and one fresh output window; the total_in/total_out
    /// deltas report the consumed and produced counts, and StreamEnd is
    /// reported exactly when a finish cycle has written out the complete
    /// terminated stream, which inflates back to everything fed since the
    /// last reset and has no terminated proper prefix.
    #[verifier::external_body]
    pub(crate) fn step(&mut self, input: &[u8], finish: bool) -> (r: Result<
        (Vec<u8>, usize, bool),
        StreamError,
    >)
        ensures
            match r {
                Ok((prod, used, ended)) => {
                    &&& used <= input@.len()
                    &&& final(self).fed@ == old(self).fed@ + input@.subrange(0, used as int)
                    &&& final(self).out@ == old(self).out@ + prod@
                    &&& prod@.len() <= BUF_SIZE
                    &&& (!finish ==> !ended)
                    &&& (ended ==> inflate_sim(final(self).out@) == (
                        final(self).fed@,
                        Some(final(self).out@.len() as int),
                    ))
                    &&& (ended ==> final(self).out@.len() > 0)
                    &&& (ended ==> forall|i: int|
                        0 <= i < final(self).out@.len() ==> #[trigger] inflate_sim(
                            final(self).out@.subrange(0, i),
                        ).1 is None)
                },
                Err(e) => e == StreamError::Engine,
            },
    {
        let before_in = self.raw.total_in();
        let before_out = self.raw.total_out();
        let mut buf = vec![0u8; BUF_SIZE];
        let mode = if finish { flate2::FlushCompress::Finish } else { flate2::FlushCompress::None };
        let status = match self.raw.compress(input, &mut buf, mode) {
            Ok(s) => s,
            Err(_) => return Err(StreamError::Engine),
        };
        let used = (self.raw.total_in() - before_in) as usize;
        let made = (self.raw.total_out() - before_out) as usize;
        buf.truncate(made);
        Ok((buf, used, matches!(status, flate2::Status::StreamEnd)))
    }

    /// Relies on flate2::Compress::reset: a structural reset without
    /// reallocation, after which the engine starts a fresh stream.
    #[verifier::external_body]
    pub(crate) fn reset(&mut self)
        ensures
            final(self).fed@ == Seq::<u8>::empty(),
            final(self).out@ == Seq::<u8>::empty(),
    {
        self.raw.reset();
    }
}

/// The stateful raw-deflate decompressor, together with the bytes fed into
/// it and the bytes taken out of it since the last structural reset.
pub struct InflateEngine {
    pub raw: flate2::Decompress,
    pub fed: Ghost<Seq<u8>>,
    pub out: Ghost<Seq<u8>>,
}

impl InflateEngine {
    pub(crate) fn new() -> (r: InflateEngine)
        ensures
            r.fed@ == Seq::<u8>::empty(),
            r.out@ == Seq::<u8>::empty(),
    {
        InflateEngine { raw: raw_decompress_new(), fed: Ghost(Seq::empty()), out: Ghost(Seq::empty()) }
    }

    /// Relies on flate2::Decompress::decompress: one cycle of the engine over
    /// an input window and one fresh output window. Inflate is a
    /// deterministic function of the consumed byte prefix: what has come out
    /// is a prefix of `inflate_sim` of what has gone in, all of it once the
    /// output window is not filled; nothing comes out before anything has
    /// gone in; given input before the stream's end it always consumes or
    /// produces; the engine never consumes past the end of the stream, so no
    /// stream end lies strictly inside the consumed bytes, and it reports
    /// StreamEnd exactly when the end has been consumed and everything
    /// decoded has been written out.
    #[verifier::external_body]
    pub(crate) fn step(&mut self, input: &[u8]) -> (r: Result<
        (Vec<u8>, usize, bool),
        StreamError,
    >)
        ensures
            match r {
                Ok((prod, used, ended)) => {
                    &&& used <= input@.len()
                    &&& final(self).fed@ == old(self).fed@ + input@.subrange(0, used as int)
                    &&& final(self).out@ == old(self).out@ + prod@
                    &&& prod@.len() <= BUF_SIZE
                    &&& final(self).out@.len() <= inflate_sim(final(self).fed@).0.len()
                    &&& final(self).out@ == inflate_sim(final(self).fed@).0.subrange(
                        0,
                        final(self).out@.len() as int,
                    )
                    &&& (prod@.len() < BUF_SIZE ==> final(self).out@ == inflate_sim(
                        final(self).fed@,
                    ).0)
                    &&& (inflate_sim(final(self).fed@).1 is Some ==> inflate_sim(
                        final(self).fed@,
                    ).1 == Some(final(self).fed@.len() as int))
                    &&& (forall|e: int|
                        0 <= e < final(self).fed@.len() ==> #[trigger] inflate_sim(
                            final(self).fed@.subrange(0, e),
                        ).1 is None)
                    &&& (final(self).fed@.len() == 0 ==> final(self).out@.len() == 0)
                    &&& ((input@.len() > 0 && inflate_sim(old(self).fed@).1 is None) ==> used > 0
                        || prod@.len() > 0)
                    &&& (ended ==> inflate_sim(final(self).fed@).1 == Some(
                        final(self).fed@.len() as int,
                    ) && final(self).out@ == inflate_sim(final(self).fed@).0
                        && final(self).fed@.len() > 0)
                    &&& ((inflate_sim(final(self).fed@).1 is Some && prod@.len() < BUF_SIZE)
                        ==> ended)
                },
                Err(e) => e == StreamError::Engine,
            },
    {
        let before_in = self.raw.total_in();
        let before_out = self.raw.total_out();
        let mut buf = vec![0u8; BUF_SIZE];
        let status = match self.raw.decompress(input, &mut buf, flate2::FlushDecompress::None) {
            Ok(s) => s,
            Err(_) => return Err(StreamError::Engine),
        };
        let used = (self.raw.total_in() - before_in) as usize;
        let made = (self.raw.total_out() - before_out) as usize;
        buf.truncate(made);
        Ok((buf, used, matches!(status, flate2::Status::StreamEnd)))
    }

    /// Relies on flate2::Decompress::reset: a structural reset without
    /// reallocation, after which the engine decodes a fresh stream.
    #[verifier::external_body]
    pub(crate) fn reset(&mut self)
        ensures
            final(self).fed@ == Seq::<u8>::empty(),
            final(self).out@ == Seq::<u8>::empty(),
    {
        self.raw.reset(false);
    }
}

/// A running CRC-32 accumulator over the bytes fed to it.
pub struct Crc32 {
    pub raw: flate2::Crc,
    pub fed: Ghost<Seq<u8>>,
}

impl Crc32 {
    pub(crate) fn new() -> (r: Crc32)
        ensures
            r.fed@ == Seq::<u8>::empty(),
    {
        Crc32 { raw: raw_crc_new(), fed: Ghost(Seq::empty()) }
    }

    /// Relies on flate2::Crc::update: folds `data` into the accumulator.
    #[verifier::external_body]
    pub(crate) fn update(&mut self, data: &[u8])
        ensures
            final(self).fed@ == old(self).fed@ + data@,
    {
        self.raw.update(data);
    }

    /// Relies on flate2::Crc::sum: the CRC-32 digest depends on the fed bytes
    /// alone.
    #[verifier::external_body]
    pub(crate) fn sum(&self) -> (r: u32)
        ensures
            r == crc32_of(self.fed@),
    {
        self.raw.sum()
    }

    /// Relies on flate2::Crc::reset: starts a fresh digest.
    #[verifier::external_body]
    pub(crate) fn reset(&mut self)
        ensures
            final(self).fed@ == Seq::<u8>::empty(),
    {
        self.raw.reset();
    }
}

} // verus!
