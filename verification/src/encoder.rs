use vstd::prelude::*;
use vstd::slice::slice_subrange;

use crate::adler::Adler;
use crate::engine::{Crc32, DeflateEngine};
use crate::format::{push_be32, push_le32, Codec, CompressionLevel, StreamError};
use crate::member::{deflate_stream_for, header_of, member_wraps, trailer_for};
use crate::sink::Sink;

verus! {

/// Writes the container header for format `c`.
fn push_header(v: &mut Vec<u8>, c: Codec)
    ensures
        final(v)@ == old(v)@ + header_of(c),
{
    match c {
        Codec::Deflate => {
            assert(v@ =~= old(v)@ + header_of(c));
        },
        Codec::Zlib => {
            v.push(0x78);
            v.push(0x01);
            assert(v@ =~= old(v)@ + header_of(c));
        },
        Codec::Gzip => {
            v.push(0x1f);
            v.push(0x8b);
            v.push(0x08);
            v.push(0x00);
            v.push(0x00);
            v.push(0x00);
            v.push(0x00);
            v.push(0x00);
            v.push(0x00);
            v.push(0xff);
            assert(v@ =~= old(v)@ + header_of(c));
        },
    }
}

/// Streaming compressor: accepts arbitrary chunks, drives the block engine
/// until each chunk is fully consumed, and hands the staged compressed bytes
/// to the downstream sink. An explicit [`Encoder::flush`] terminates the
/// current stream, writes the container trailer, folds the counters, and
/// structurally resets the engine so that a following write starts an
/// independently framed stream concatenated after the first.
pub struct Encoder<W: Sink> {
    pub inner: W,
    pub eng: DeflateEngine,
    pub adler: Adler,
    pub crc: Crc32,
    pub hdr_sent: bool,
    pub mem_in: usize,
    pub mem_out: usize,
    pub acc_in: usize,
    pub acc_out: usize,
    pub codec: Codec,
    pub level: CompressionLevel,
    pub base: Ghost<Seq<u8>>,
}

impl<W: Sink> Encoder<W> {
    /// Header bytes already handed to the sink for the current stream.
    pub open spec fn hdr_part(&self) -> Seq<u8> {
        if self.hdr_sent {
            header_of(self.codec)
        } else {
            Seq::empty()
        }
    }

    /// Input bytes of the stream currently being built.
    pub open spec fn member_input(&self) -> Seq<u8> {
        self.eng.fed@
    }

    /// Total bytes accepted, across all flush-delimited streams.
    pub open spec fn total_in_spec(&self) -> int {
        self.acc_in + self.mem_in
    }

    /// Total bytes handed to the sink, across all flush-delimited streams.
    pub open spec fn total_out_spec(&self) -> int {
        self.acc_out + self.mem_out
    }

    /// The adapter sits at a stream boundary: nothing of a new stream has
    /// been consumed or emitted.
    pub open spec fn at_member_start(&self) -> bool {
        !self.hdr_sent && self.eng.fed@.len() == 0
    }

    /// Internal consistency: checksums follow the engine's input, counters
    /// follow the engine's cursors, and the sink holds exactly the base plus
    /// the current stream's emitted bytes.
    pub open spec fn wf(&self) -> bool {
        &&& self.adler.wf()
        &&& self.adler.fed@ == self.eng.fed@
        &&& self.crc.fed@ == self.eng.fed@
        &&& self.mem_in == self.eng.fed@.len()
        &&& self.inner.contents() == self.base@ + self.hdr_part() + self.eng.out@
        &&& self.mem_out == self.hdr_part().len() + self.eng.out@.len()
        &&& (!self.hdr_sent ==> self.eng.fed@.len() == 0 && self.eng.out@.len() == 0)
        &&& self.acc_in + self.mem_in <= usize::MAX
        &&& self.acc_out + self.mem_out <= usize::MAX
    }

    /// Creates an adapter writing streams of format `codec` at the given
    /// level into `writer`.
    pub fn new(writer: W, level: CompressionLevel, codec: Codec) -> (r: Encoder<W>)
        ensures
            r.wf(),
            r.at_member_start(),
            r.codec == codec,
            r.level == level,
            r.total_in_spec() == 0,
            r.total_out_spec() == 0,
            r.inner == writer,
            r.base@ == writer.contents(),
    {
        let ghost c = writer.contents();
        Encoder {
            inner: writer,
            eng: DeflateEngine::new(level),
            adler: Adler::new(),
            crc: Crc32::new(),
            hdr_sent: false,
            mem_in: 0,
            mem_out: 0,
            acc_in: 0,
            acc_out: 0,
            codec,
            level,
            base: Ghost(c),
        }
    }

    /// Reference to the downstream sink.
    pub fn get_ref(&self) -> (r: &W)
        ensures
            r == &self.inner,
    {
        &self.inner
    }

    /// Mutable reference to the downstream sink; modifying it mid-stream
    /// invalidates the adapter's bookkeeping.
    pub fn get_ref_mut(&mut self) -> (r: &mut W)
        ensures
            *r == old(self).inner,
            final(self).inner == *final(r),
            final(self).eng == old(self).eng,
            final(self).adler == old(self).adler,
            final(self).crc == old(self).crc,
            final(self).hdr_sent == old(self).hdr_sent,
            final(self).mem_in == old(self).mem_in,
            final(self).mem_out == old(self).mem_out,
            final(self).acc_in == old(self).acc_in,
            final(self).acc_out == old(self).acc_out,
            final(self).codec == old(self).codec,
            final(self).level == old(self).level,
            final(self).base == old(self).base,
    {
        &mut self.inner
    }

    /// Total bytes accepted, inclusive of all streams if `flush` has been
    /// called before.
    pub fn total_in(&self) -> (r: usize)
        requires
            self.wf(),
        ensures
            r == self.total_in_spec(),
    {
        self.acc_in + self.mem_in
    }

    /// Total bytes handed to the sink, inclusive of all streams if `flush`
    /// has been called before.
    pub fn total_out(&self) -> (r: usize)
        requires
            self.wf(),
        ensures
            r == self.total_out_spec(),
    {
        self.acc_out + self.mem_out
    }

    /// Accepts the whole chunk: the engine is cycled until every byte of
    /// `buf` is consumed, and the bytes produced are handed to the sink in
    /// one bounded write appended after the sink's earlier bytes. Reports
    /// accepting exactly `buf.len()` bytes; an empty chunk succeeds without
    /// touching anything.
    pub fn write(&mut self, buf: &[u8]) -> (r: Result<usize, StreamError>)
        requires
            old(self).wf(),
            old(self).total_in_spec() + buf@.len() <= usize::MAX,
        ensures
            match r {
                Ok(n) => {
                    &&& n == buf@.len()
                    &&& final(self).wf()
                    &&& final(self).codec == old(self).codec
                    &&& final(self).level == old(self).level
                    &&& final(self).base@ == old(self).base@
                    &&& final(self).member_input() == old(self).member_input() + buf@
                    &&& final(self).acc_in == old(self).acc_in
                    &&& final(self).acc_out == old(self).acc_out
                    &&& final(self).total_in_spec() == old(self).total_in_spec() + buf@.len()
                    &&& final(self).total_out_spec() >= old(self).total_out_spec()
                    &&& final(self).eng.out@.len() >= old(self).eng.out@.len()
                    &&& old(self).eng.out@ == final(self).eng.out@.subrange(
                        0,
                        old(self).eng.out@.len() as int,
                    )
                    &&& final(self).hdr_sent == (old(self).hdr_sent || buf@.len() > 0)
                    &&& final(self).inner.contents() == old(self).inner.contents() + (
                    if old(self).hdr_sent || buf@.len() == 0 {
                        Seq::<u8>::empty()
                    } else {
                        header_of(old(self).codec)
                    }) + final(self).eng.out@.skip(old(self).eng.out@.len() as int)
                },
                Err(e) => true,
            },
            buf@.len() == 0 ==> r == Ok::<usize, StreamError>(0) && *final(self) == *old(self),
    {
        if buf.len() == 0 {
            proof {
                assert(self.eng.out@.skip(old(self).eng.out@.len() as int)
                    =~= Seq::<u8>::empty());
                assert(old(self).eng.out@ =~= self.eng.out@.subrange(
                    0,
                    old(self).eng.out@.len() as int,
                ));
                assert(old(self).inner.contents() + Seq::<u8>::empty() + Seq::<u8>::empty()
                    =~= old(self).inner.contents());
                assert(old(self).member_input() + buf@ =~= old(self).member_input());
            }
            return Ok(0);
        }
        let ghost prev = *self;
        let mut staged: Vec<u8> = Vec::new();
        let ghost hdelta: Seq<u8> = if !prev.hdr_sent {
            header_of(prev.codec)
        } else {
            Seq::empty()
        };
        if !self.hdr_sent {
            push_header(&mut staged, self.codec);
            self.hdr_sent = true;
        }
        let mut pos: usize = 0;
        let mut iter: usize = 0;
        let cap: usize = buf.len() / 4096 + 64;
        proof {
            assert(prev.eng.out@ =~= self.eng.out@.subrange(0, prev.eng.out@.len() as int));
            assert(self.eng.fed@ =~= prev.eng.fed@ + buf@.subrange(0, 0));
            assert(staged@ =~= hdelta + self.eng.out@.subrange(
                prev.eng.out@.len() as int,
                self.eng.out@.len() as int,
            ));
        }
        while pos < buf.len()
            invariant
                self.inner == prev.inner,
                self.adler == prev.adler,
                self.crc == prev.crc,
                self.base == prev.base,
                self.codec == prev.codec,
                self.level == prev.level,
                self.acc_in == prev.acc_in,
                self.acc_out == prev.acc_out,
                self.mem_in == prev.mem_in,
                self.mem_out == prev.mem_out,
                self.hdr_sent,
                pos <= buf@.len(),
                self.eng.fed@ == prev.eng.fed@ + buf@.subrange(0, pos as int),
                prev.eng.out@.len() <= self.eng.out@.len(),
                prev.eng.out@ == self.eng.out@.subrange(0, prev.eng.out@.len() as int),
                staged@ == hdelta + self.eng.out@.subrange(
                    prev.eng.out@.len() as int,
                    self.eng.out@.len() as int,
                ),
                iter <= cap,
            decreases cap - iter,
        {
            if iter >= cap {
                return Err(StreamError::Engine);
            }
            iter = iter + 1;
            let ghost out_before = self.eng.out@;
            let ghost fed_before = self.eng.fed@;
            let window = slice_subrange(buf, pos, buf.len());
            match self.eng.step(window, false) {
                Ok((mut prod, used, _ended)) => {
                    proof {
                        assert(window@.subrange(0, used as int) =~= buf@.subrange(
                            pos as int,
                            pos + used,
                        ));
                        assert(buf@.subrange(0, pos as int) + buf@.subrange(pos as int, pos + used)
                            =~= buf@.subrange(0, pos + used));
                        assert(self.eng.fed@ =~= prev.eng.fed@ + buf@.subrange(0, pos + used));
                    }
                    staged.append(&mut prod);
                    pos = pos + used;
                    proof {
                        assert(prev.eng.out@ =~= self.eng.out@.subrange(
                            0,
                            prev.eng.out@.len() as int,
                        ));
                        assert(staged@ =~= hdelta + self.eng.out@.subrange(
                            prev.eng.out@.len() as int,
                            self.eng.out@.len() as int,
                        ));
                    }
                },
                Err(e) => {
                    return Err(e);
                },
            }
        }
        proof {
            assert(buf@.subrange(0, buf@.len() as int) =~= buf@);
        }
        match self.inner.write_all(staged.as_slice()) {
            Ok(_) => {},
            Err(e) => {
                return Err(e);
            },
        }
        self.adler.update(buf);
        self.crc.update(buf);
        self.mem_in = self.mem_in + buf.len();
        let new_mem_out = match self.mem_out.checked_add(staged.len()) {
            Some(x) => x,
            None => {
                return Err(StreamError::Engine);
            },
        };
        if usize::MAX - new_mem_out < self.acc_out {
            return Err(StreamError::Engine);
        }
        self.mem_out = new_mem_out;
        proof {
            assert(self.inner.contents() =~= self.base@ + self.hdr_part() + self.eng.out@);
            assert(staged@ =~= hdelta + self.eng.out@.skip(prev.eng.out@.len() as int));
            assert(self.inner.contents() =~= prev.inner.contents() + hdelta + self.eng.out@.skip(
                prev.eng.out@.len() as int,
            ));
        }
        Ok(buf.len())
    }

    /// Terminates the current stream: marks end of stream, cycles the engine
    /// until it reports the finished boundary, writes the container trailer,
    /// hands everything to the sink, flushes the sink, folds this stream's
    /// counters into the persisted totals, and structurally resets the
    /// engine so the next write starts a fresh concatenated stream.
    pub fn flush(&mut self) -> (r: Result<(), StreamError>)
        requires
            old(self).wf(),
        ensures
            match r {
                Ok(u) => {
                    &&& final(self).wf()
                    &&& final(self).at_member_start()
                    &&& final(self).codec == old(self).codec
                    &&& final(self).level == old(self).level
                    &&& final(self).total_in_spec() == old(self).total_in_spec()
                    &&& final(self).acc_in == old(self).total_in_spec()
                    &&& exists|m: Seq<u8>|
                        #![auto]
                        {
                            &&& member_wraps(old(self).codec, m, old(self).member_input())
                            &&& final(self).inner.contents() == old(self).base@ + m
                            &&& final(self).base@ == old(self).base@ + m
                            &&& final(self).total_out_spec() == old(self).acc_out + m.len()
                            &&& m.len() >= old(self).mem_out + trailer_for(
                                old(self).codec,
                                old(self).member_input(),
                            ).len()
                        }
                    &&& (old(self).codec != Codec::Deflate ==> final(self).total_out_spec() > old(
                        self,
                    ).total_out_spec())
                },
                Err(e) => true,
            },
    {
        let ghost prev = *self;
        let mut staged: Vec<u8> = Vec::new();
        let ghost hdelta: Seq<u8> = if !prev.hdr_sent {
            header_of(prev.codec)
        } else {
            Seq::empty()
        };
        if !self.hdr_sent {
            push_header(&mut staged, self.codec);
            self.hdr_sent = true;
        }
        let empty_in: Vec<u8> = Vec::new();
        let mut iter: usize = 0;
        let cap: usize = self.mem_in / 4096 + 64;
        let mut ended: bool = false;
        proof {
            assert(prev.eng.out@ =~= self.eng.out@.subrange(0, prev.eng.out@.len() as int));
            assert(staged@ =~= hdelta + self.eng.out@.subrange(
                prev.eng.out@.len() as int,
                self.eng.out@.len() as int,
            ));
        }
        while !ended
            invariant
                self.inner == prev.inner,
                self.adler == prev.adler,
                self.crc == prev.crc,
                self.base == prev.base,
                self.codec == prev.codec,
                self.level == prev.level,
                self.acc_in == prev.acc_in,
                self.acc_out == prev.acc_out,
                self.mem_in == prev.mem_in,
                self.mem_out == prev.mem_out,
                self.hdr_sent,
                empty_in@.len() == 0,
                self.eng.fed@ == prev.eng.fed@,
                prev.eng.out@.len() <= self.eng.out@.len(),
                prev.eng.out@ == self.eng.out@.subrange(0, prev.eng.out@.len() as int),
                staged@ == hdelta + self.eng.out@.subrange(
                    prev.eng.out@.len() as int,
                    self.eng.out@.len() as int,
                ),
                iter <= cap,
                ended ==> deflate_stream_for(self.eng.out@, self.eng.fed@),
            decreases cap - iter,
        {
            if iter >= cap {
                return Err(StreamError::Engine);
            }
            iter = iter + 1;
            match self.eng.step(empty_in.as_slice(), true) {
                Ok((mut prod, used, e)) => {
                    proof {
                        assert(empty_in@.subrange(0, used as int) =~= Seq::<u8>::empty());
                        assert(self.eng.fed@ =~= prev.eng.fed@);
                    }
                    staged.append(&mut prod);
                    ended = e;
                    proof {
                        assert(prev.eng.out@ =~= self.eng.out@.subrange(
                            0,
                            prev.eng.out@.len() as int,
                        ));
                        assert(staged@ =~= hdelta + self.eng.out@.subrange(
                            prev.eng.out@.len() as int,
                            self.eng.out@.len() as int,
                        ));
                    }
                },
                Err(e) => {
                    return Err(e);
                },
            }
        }
        let ghost body = self.eng.out@;
        let ghost s = prev.eng.fed@;
        match self.codec {
            Codec::Deflate => {},
            Codec::Zlib => {
                let a = self.adler.sum();
                push_be32(&mut staged, a);
            },
            Codec::Gzip => {
                let ck = self.crc.sum();
                push_le32(&mut staged, ck);
                let iz: u64 = (self.mem_in as u64) % 0x1_0000_0000;
                push_le32(&mut staged, iz as u32);
            },
        }
        proof {
            assert(staged@ =~= hdelta + body.subrange(prev.eng.out@.len() as int, body.len() as int)
                + trailer_for(prev.codec, s));
        }
        match self.inner.write_all(staged.as_slice()) {
            Ok(_) => {},
            Err(e) => {
                return Err(e);
            },
        }
        match self.inner.flush() {
            Ok(_) => {},
            Err(e) => {
                return Err(e);
            },
        }
        self.acc_in = self.acc_in + self.mem_in;
        let mlen = match self.mem_out.checked_add(staged.len()) {
            Some(x) => x,
            None => {
                return Err(StreamError::Engine);
            },
        };
        let new_acc_out = match self.acc_out.checked_add(mlen) {
            Some(x) => x,
            None => {
                return Err(StreamError::Engine);
            },
        };
        self.acc_out = new_acc_out;
        self.mem_in = 0;
        self.mem_out = 0;
        self.hdr_sent = false;
        self.eng.reset();
        self.adler.reset();
        self.crc.reset();
        let ghost m = header_of(prev.codec) + body + trailer_for(prev.codec, s);
        let ghost newbase = prev.base@ + m;
        self.base = Ghost(newbase);
        proof {
            assert(member_wraps(prev.codec, m, s)) by {
                assert(deflate_stream_for(body, s));
            }
            assert(prev.base@ + prev.hdr_part() + prev.eng.out@ + (hdelta + body.subrange(
                prev.eng.out@.len() as int,
                body.len() as int,
            ) + trailer_for(prev.codec, s)) =~= prev.base@ + m);
            assert(self.inner.contents() =~= self.base@ + self.hdr_part() + self.eng.out@);
        }
        Ok(())
    }

    /// Flushes and returns the downstream sink.
    pub fn finish(self) -> (r: Result<W, StreamError>)
        requires
            self.wf(),
        ensures
            match r {
                Ok(w) => exists|m: Seq<u8>|
                    #![auto]
                    {
                        &&& member_wraps(self.codec, m, self.member_input())
                        &&& w.contents() == self.base@ + m
                    },
                Err(e) => true,
            },
    {
        let mut this = self;
        match this.flush() {
            Ok(_) => {},
            Err(e) => {
                return Err(e);
            },
        }
        Ok(this.inner)
    }
}

} // verus!
