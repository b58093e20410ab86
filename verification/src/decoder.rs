use vstd::prelude::*;
use vstd::slice::{slice_index_get, slice_subrange};

use crate::adler::{adler32_of, Adler};
use crate::engine::{inflate_sim, Crc32, InflateEngine};
use crate::format::{
    check_zlib_header, gzip_header, lemma_fixed_headers_ok, read_be32, read_le32, scan_gzip_header,
    word_be, zlib_header_ok, Codec, HdrScan, StreamError, BUF_SIZE,
};
use crate::format::gzip_hdr_bad;
use crate::member::{
    deflate_stream_for, header_of, lemma_member_implies_members, lemma_members_empty,
    lemma_members_excludes_mismatch, lemma_members_head_at, lemma_members_unique,
    lemma_mismatch_head, member_wraps, members_wrap, trailer_for, zlib_trailer_mismatch,
};
use crate::sink::Sink;

verus! {

/// Where the decompressor stands within the current member.
#[derive(Clone, Copy, Debug, PartialEq, Eq, Structural)]
pub enum Phase {
    /// Collecting and validating the container header.
    Header,
    /// Driving the block engine through the compressed body.
    Body,
    /// Collecting and verifying the trailer bytes.
    Trailer,
}

/// Trailer length of format `c` in bytes.
pub open spec fn trailer_len_of(c: Codec) -> int {
    match c {
        Codec::Deflate => 0,
        Codec::Zlib => 4,
        Codec::Gzip => 8,
    }
}

/// Length of the fixed container header the compressor writes: nothing for
/// raw deflate, two bytes for zlib, ten bytes for gzip.
pub open spec fn header_len_of(c: Codec) -> int {
    match c {
        Codec::Deflate => 0,
        Codec::Zlib => 2,
        Codec::Gzip => 10,
    }
}

/// The buffered header prefix is still an acceptable beginning of a member
/// header of format `c`.
pub open spec fn hdr_partial_ok(c: Codec, h: Seq<u8>) -> bool {
    match c {
        Codec::Deflate => h.len() == 0,
        Codec::Zlib => h.len() < 2,
        Codec::Gzip => !crate::format::gzip_hdr_bad(h) && crate::format::gzip_hdr_len(h) is None,
    }
}

/// Streaming decompressor: accepts arbitrary chunks of compressed bytes,
/// parses container headers at member boundaries, drives the block engine to
/// the member's hand-off boundary, verifies the trailer checksums itself,
/// and hands the decoded bytes of each call to the downstream sink in one
/// bounded write. A finished member structurally resets the engine so that
/// concatenated members decode back to back.
pub struct Decoder<W: Sink> {
    pub inner: W,
    pub eng: InflateEngine,
    pub adler: Adler,
    pub crc: Crc32,
    pub phase: Phase,
    pub hbuf: Vec<u8>,
    pub tbuf: Vec<u8>,
    pub mem_out: u64,
    pub codec: Codec,
    pub base: Ghost<Seq<u8>>,
    pub done: Ghost<Seq<u8>>,
}

impl<W: Sink> Decoder<W> {
    /// Decoded bytes of members completed so far plus the current member.
    pub open spec fn emitted(&self) -> Seq<u8> {
        self.done@ + self.eng.out@
    }

    /// Internal consistency: the running checksums follow the member's
    /// decoded bytes, and the sink holds exactly the base plus everything
    /// decoded so far.
    pub open spec fn wf(&self) -> bool {
        &&& self.adler.wf()
        &&& self.adler.fed@ == self.eng.out@
        &&& self.crc.fed@ == self.eng.out@
        &&& self.mem_out as int == self.eng.out@.len()
        &&& self.inner.contents() == self.base@ + self.done@ + self.eng.out@
        &&& (self.phase == Phase::Header ==> self.eng.fed@.len() == 0 && self.eng.out@.len() == 0
            && self.tbuf@.len() == 0 && self.codec != Codec::Deflate && hdr_partial_ok(
            self.codec,
            self.hbuf@,
        ))
        &&& (self.phase == Phase::Body ==> self.tbuf@.len() == 0 && self.hbuf@.len() == 0)
        &&& (self.phase == Phase::Trailer ==> self.hbuf@.len() == 0 && self.codec != Codec::Deflate
            && self.tbuf@.len() < trailer_len_of(self.codec))
    }

    /// The decoder sits at a member boundary, ready for a fresh header.
    pub open spec fn at_boundary(&self) -> bool {
        &&& self.eng.fed@.len() == 0
        &&& self.eng.out@.len() == 0
        &&& self.tbuf@.len() == 0
        &&& self.hbuf@.len() == 0
        &&& (if self.codec == Codec::Deflate {
            self.phase == Phase::Body
        } else {
            self.phase == Phase::Header
        })
    }

    /// Creates an adapter decoding streams of format `codec` into `writer`.
    pub fn new(writer: W, codec: Codec) -> (r: Decoder<W>)
        ensures
            r.wf(),
            r.at_boundary(),
            r.codec == codec,
            r.inner == writer,
            r.base@ == writer.contents(),
            r.done@ == Seq::<u8>::empty(),
    {
        let ghost c = writer.contents();
        let phase = match codec {
            Codec::Deflate => Phase::Body,
            Codec::Zlib => Phase::Header,
            Codec::Gzip => Phase::Header,
        };
        Decoder {
            inner: writer,
            eng: InflateEngine::new(),
            adler: Adler::new(),
            crc: Crc32::new(),
            phase,
            hbuf: Vec::new(),
            tbuf: Vec::new(),
            mem_out: 0,
            codec,
            base: Ghost(c),
            done: Ghost(Seq::empty()),
        }
    }

    /// Reference to the downstream sink.
    pub fn get_ref(&self) -> (r: &W)
        ensures
            r == &self.inner,
    {
        &self.inner
    }

    /// Mutable reference to the downstream sink; modifying it mid-stream
    /// invalidates the adapter's bookkeeping.
    pub fn get_ref_mut(&mut self) -> (r: &mut W)
        ensures
            *r == old(self).inner,
            final(self).inner == *final(r),
            final(self).eng == old(self).eng,
            final(self).adler == old(self).adler,
            final(self).crc == old(self).crc,
            final(self).phase == old(self).phase,
            final(self).hbuf == old(self).hbuf,
            final(self).tbuf == old(self).tbuf,
            final(self).mem_out == old(self).mem_out,
            final(self).codec == old(self).codec,
            final(self).base == old(self).base,
            final(self).done == old(self).done,
    {
        &mut self.inner
    }

    /// Accepts the whole chunk of compressed bytes, decoding across member
    /// boundaries as needed; the bytes decoded during this call reach the
    /// sink in one bounded write at the end of the call. A header mismatch,
    /// a trailer mismatch, or an engine failure is a hard error reported
    /// before anything of this call is handed to the sink.
    ///
    /// Fed a concatenation of complete members from a member boundary, the
    /// call decodes them back to exactly the bytes they wrap; fed a zlib
    /// member whose trailer disagrees with its payload, it fails with the
    /// checksum-mismatch kind and never silently succeeds; fed bytes that can
    /// never begin a valid member header, it reports them malformed.
    #[verifier::rlimit(100)]
    pub fn write(&mut self, buf: &[u8]) -> (r: Result<usize, StreamError>)
        requires
            old(self).wf(),
        ensures
            match r {
                Ok(n) => {
                    &&& n == buf@.len()
                    &&& final(self).wf()
                    &&& final(self).codec == old(self).codec
                    &&& final(self).base@ == old(self).base@
                    &&& final(self).emitted() == old(self).emitted() + final(self).emitted().skip(
                        old(self).emitted().len() as int,
                    )
                    &&& final(self).inner.contents() == old(self).inner.contents()
                        + final(self).emitted().skip(old(self).emitted().len() as int)
                },
                Err(e) => true,
            },
            forall|s: Seq<u8>|
                (old(self).at_boundary() && #[trigger] members_wrap(old(self).codec, buf@, s)
                    && r is Ok) ==> final(self).at_boundary() && final(self).done@ == old(
                    self,
                ).done@ + s && final(self).inner.contents() == old(self).inner.contents() + s,
            forall|s: Seq<u8>|
                (old(self).at_boundary() && #[trigger] member_wraps(old(self).codec, buf@, s)
                    && r is Ok) ==> final(self).at_boundary() && final(self).done@ == old(
                    self,
                ).done@ + s && final(self).inner.contents() == old(self).inner.contents() + s,
            (old(self).at_boundary() && old(self).codec == Codec::Zlib && zlib_trailer_mismatch(
                buf@,
            )) ==> (r == Err::<usize, StreamError>(StreamError::ChecksumMismatch) || r == Err::<
                usize,
                StreamError,
            >(StreamError::Engine)),
            (old(self).at_boundary() && old(self).codec == Codec::Zlib && buf@.len() >= 2
                && !zlib_header_ok(buf@[0], buf@[1])) ==> r == Err::<usize, StreamError>(
                StreamError::MalformedHeader,
            ),
            (old(self).at_boundary() && old(self).codec == Codec::Gzip && gzip_hdr_bad(buf@))
                ==> r == Err::<usize, StreamError>(StreamError::MalformedHeader),
            buf@.len() == 0 ==> r == Ok::<usize, StreamError>(0) && *final(self) == *old(self),
    {
        let ghost prev = *self;
        let ghost c = prev.codec;
        if buf.len() == 0 {
            proof {
                assert(old(self).emitted() + final(self).emitted().skip(
                    old(self).emitted().len() as int,
                ) =~= final(self).emitted());
                assert(old(self).inner.contents() + final(self).emitted().skip(
                    old(self).emitted().len() as int,
                ) =~= final(self).inner.contents());
                assert forall|s: Seq<u8>|
                    old(self).at_boundary() && #[trigger] members_wrap(c, buf@, s) implies s
                    == Seq::<u8>::empty() by {
                    lemma_members_empty(c, buf@, s);
                }
                assert forall|s: Seq<u8>|
                    old(self).at_boundary() && #[trigger] member_wraps(c, buf@, s) implies false by {
                    let b = choose|b: Seq<u8>|
                        #![auto]
                        deflate_stream_for(b, s) && buf@ == header_of(c) + b + trailer_for(c, s);
                    assert(buf@.len() >= b.len());
                }
                if prev.at_boundary() && c == Codec::Zlib && zlib_trailer_mismatch(buf@) {
                    let b = choose|b: Seq<u8>|
                        #![auto]
                        {
                            &&& deflate_stream_for(b, inflate_sim(b).0)
                            &&& buf@.len() == 2 + b.len() + 4
                        };
                    assert(false);
                }
                assert(old(self).done@ + Seq::<u8>::empty() =~= old(self).done@);
                assert(old(self).inner.contents() + Seq::<u8>::empty() =~= old(
                    self,
                ).inner.contents());
            }
            return Ok(0);
        }
        let ghost hlen = header_len_of(c);
        let ghost tlen = trailer_len_of(c);
        let ghost rt_on = prev.at_boundary() && exists|s: Seq<u8>|
            #[trigger] members_wrap(c, buf@, s);
        let ghost p5_on = prev.at_boundary() && c == Codec::Zlib && zlib_trailer_mismatch(buf@);
        let ghost active = rt_on || p5_on;
        let ghost bad_on = prev.at_boundary() && ((c == Codec::Zlib && buf@.len() >= 2
            && !zlib_header_ok(buf@[0], buf@[1])) || (c == Codec::Gzip && gzip_hdr_bad(buf@)));
        let ghost badi: int = if c == Codec::Zlib {
            1
        } else if buf@.len() >= 1 && buf@[0] != 0x1f {
            0
        } else if buf@.len() >= 2 && buf@[1] != 0x8b {
            1
        } else if buf@.len() >= 3 && buf@[2] != 0x08 {
            2
        } else {
            3
        };
        let ghost stot: Seq<u8> = if rt_on {
            choose|s: Seq<u8>| #[trigger] members_wrap(c, buf@, s)
        } else {
            Seq::empty()
        };
        let ghost mut mstart: int = 0;
        let ghost mut acc: Seq<u8> = Seq::empty();
        let ghost mut rem: Seq<u8> = stot;
        let ghost mut cur_b: Seq<u8> = Seq::empty();
        let ghost mut cur_s: Seq<u8> = Seq::empty();
        let ghost mut rem2: Seq<u8> = Seq::empty();
        let ghost mut infl: bool = true;
        proof {
            assert(hlen == header_of(c).len() && (c == Codec::Deflate ==> tlen == 0) && (c
                == Codec::Zlib ==> tlen == 4) && (c == Codec::Gzip ==> tlen == 8));
            if rt_on {
                assert(members_wrap(c, buf@, stot));
                assert(buf@.skip(0) =~= buf@);
                let (b, s1, s2) = lemma_members_head_at(c, buf@, 0, stot);
                cur_b = b;
                cur_s = s1;
                rem2 = s2;
                assert(trailer_for(c, s1).len() == tlen);
                assert(stot =~= acc + cur_s + rem2);
                if c == Codec::Gzip {
                    assert(buf@.subrange(0, 10) == header_of(c));
                    assert(!gzip_hdr_bad(buf@)) by {
                        assert(buf@[0] == gzip_header()[0]);
                        assert(buf@.len() >= 2 ==> buf@[1] == gzip_header()[1]);
                        assert(buf@.len() >= 3 ==> buf@[2] == gzip_header()[2]);
                        assert(buf@.len() >= 4 ==> buf@[3] == gzip_header()[3]);
                        lemma_fixed_headers_ok();
                    }
                }
                if c == Codec::Zlib {
                    assert(buf@[0] == 0x78 && buf@[1] == 0x01);
                    lemma_fixed_headers_ok();
                    assert(zlib_header_ok(buf@[0], buf@[1]));
                }
                assert(!bad_on);
                if p5_on {
                    lemma_members_excludes_mismatch(buf@, stot);
                    assert(false);
                }
            } else if p5_on {
                let (b0, s0) = lemma_mismatch_head(buf@);
                cur_b = b0;
                cur_s = s0;
                assert(buf@.len() == hlen + cur_b.len() + tlen);
                assert(!bad_on);
            }
            if bad_on {
                if c == Codec::Gzip {
                    assert(badi < buf@.len());
                }
            }
            if active {
                assert(prev.hbuf@ =~= buf@.subrange(0, 0));
                assert(prev.eng.fed@ =~= buf@.subrange(hlen, hlen));
            }
        }
        let mut staged: Vec<u8> = Vec::new();
        let mut pos: usize = 0;
        let mut iter: usize = 0;
        loop
            invariant
                old(self).wf(),
                prev == *old(self),
                buf@.len() > 0,
                self.inner == prev.inner,
                self.base == prev.base,
                self.codec == prev.codec,
                pos <= buf@.len(),
                self.adler.wf(),
                self.adler.fed@ == self.eng.out@,
                self.crc.fed@ == self.eng.out@,
                self.mem_out as int == self.eng.out@.len(),
                self.done@ + self.eng.out@ == prev.done@ + prev.eng.out@ + staged@,
                prev.done@.len() + prev.eng.out@.len() <= self.done@.len() + self.eng.out@.len(),
                (self.phase == Phase::Header ==> self.eng.fed@.len() == 0 && self.eng.out@.len()
                    == 0 && self.tbuf@.len() == 0 && self.codec != Codec::Deflate
                    && hdr_partial_ok(self.codec, self.hbuf@)),
                (self.phase == Phase::Body ==> self.tbuf@.len() == 0 && self.hbuf@.len() == 0),
                (self.phase == Phase::Trailer ==> self.hbuf@.len() == 0 && self.codec
                    != Codec::Deflate && self.tbuf@.len() < trailer_len_of(self.codec)),
                c == prev.codec,
                hlen == header_len_of(c),
                tlen == trailer_len_of(c),
                hlen == header_of(c).len(),
                rt_on == (prev.at_boundary() && exists|s: Seq<u8>|
                    #[trigger] members_wrap(c, buf@, s)),
                p5_on == (prev.at_boundary() && c == Codec::Zlib && zlib_trailer_mismatch(buf@)),
                active == (rt_on || p5_on),
                rt_on ==> members_wrap(c, buf@, stot),
                rt_on ==> !p5_on,
                bad_on == (prev.at_boundary() && ((c == Codec::Zlib && buf@.len() >= 2
                    && !zlib_header_ok(buf@[0], buf@[1])) || (c == Codec::Gzip && gzip_hdr_bad(
                    buf@,
                )))),
                badi == (if c == Codec::Zlib {
                    1int
                } else if buf@.len() >= 1 && buf@[0] != 0x1f {
                    0int
                } else if buf@.len() >= 2 && buf@[1] != 0x8b {
                    1int
                } else if buf@.len() >= 3 && buf@[2] != 0x08 {
                    2int
                } else {
                    3int
                }),
                bad_on ==> !active,
                bad_on ==> badi < buf@.len(),
                bad_on ==> (self.phase == Phase::Header && self.hbuf@ == buf@.subrange(
                    0,
                    pos as int,
                ) && pos <= badi && iter == pos),
                active ==> prev.at_boundary(),
                active ==> (c == Codec::Zlib ==> zlib_header_ok(buf@[0], buf@[1])),
                active ==> (p5_on ==> infl && mstart == 0 && acc == Seq::<u8>::empty()),
                (active && infl) ==> {
                    &&& 0 <= mstart
                    &&& mstart + hlen + cur_b.len() + tlen <= buf@.len()
                    &&& deflate_stream_for(cur_b, cur_s)
                    &&& buf@.subrange(mstart + hlen, mstart + hlen + cur_b.len()) == cur_b
                    &&& self.done@ == prev.done@ + acc
                    &&& (rt_on ==> buf@.subrange(mstart, mstart + hlen) == header_of(c)
                        && buf@.subrange(
                        mstart + hlen + cur_b.len(),
                        mstart + hlen + cur_b.len() + tlen,
                    ) == trailer_for(c, cur_s) && members_wrap(
                        c,
                        buf@.skip(mstart + hlen + cur_b.len() + tlen),
                        rem2,
                    ) && stot == acc + cur_s + rem2)
                    &&& (p5_on ==> mstart + hlen + cur_b.len() + tlen == buf@.len() && word_be(
                        buf@[buf@.len() - 4],
                        buf@[buf@.len() - 3],
                        buf@[buf@.len() - 2],
                        buf@[buf@.len() - 1],
                    ) != adler32_of(cur_s))
                },
                active ==> {
                    ||| (infl && self.phase == Phase::Header && mstart <= pos <= mstart + hlen
                        && self.hbuf@ == buf@.subrange(mstart, pos as int))
                    ||| (infl && self.phase == Phase::Body && mstart + hlen <= pos <= mstart + hlen
                        + cur_b.len() && self.eng.fed@ == buf@.subrange(mstart + hlen, pos as int))
                    ||| (infl && self.phase == Phase::Trailer && mstart + hlen + cur_b.len() <= pos
                        < mstart + hlen + cur_b.len() + tlen && self.tbuf@ == buf@.subrange(
                        mstart + hlen + cur_b.len(),
                        pos as int,
                    ) && self.eng.fed@ == cur_b && self.eng.out@ == cur_s)
                    ||| (!infl && rt_on && pos == buf@.len() && self.done@ == prev.done@ + stot
                        && self.eng.fed@.len() == 0 && self.eng.out@.len() == 0 && self.tbuf@.len()
                        == 0 && self.hbuf@.len() == 0 && (if c == Codec::Deflate {
                        self.phase == Phase::Body
                    } else {
                        self.phase == Phase::Header
                    }))
                },
            ensures
                self.inner == prev.inner,
                self.base == prev.base,
                self.codec == prev.codec,
                self.adler.wf(),
                self.adler.fed@ == self.eng.out@,
                self.crc.fed@ == self.eng.out@,
                self.mem_out as int == self.eng.out@.len(),
                self.done@ + self.eng.out@ == prev.done@ + prev.eng.out@ + staged@,
                prev.done@.len() + prev.eng.out@.len() <= self.done@.len() + self.eng.out@.len(),
                (self.phase == Phase::Header ==> self.eng.fed@.len() == 0 && self.eng.out@.len()
                    == 0 && self.tbuf@.len() == 0 && self.codec != Codec::Deflate
                    && hdr_partial_ok(self.codec, self.hbuf@)),
                (self.phase == Phase::Body ==> self.tbuf@.len() == 0 && self.hbuf@.len() == 0),
                (self.phase == Phase::Trailer ==> self.hbuf@.len() == 0 && self.codec
                    != Codec::Deflate && self.tbuf@.len() < trailer_len_of(self.codec)),
                active ==> (self.done@ == prev.done@ + stot && self.eng.fed@.len() == 0
                    && self.eng.out@.len() == 0 && self.tbuf@.len() == 0 && self.hbuf@.len() == 0
                    && (if c == Codec::Deflate {
                    self.phase == Phase::Body
                } else {
                    self.phase == Phase::Header
                })),
                c == prev.codec,
                rt_on == (prev.at_boundary() && exists|s: Seq<u8>|
                    #[trigger] members_wrap(c, buf@, s)),
                p5_on == (prev.at_boundary() && c == Codec::Zlib && zlib_trailer_mismatch(buf@)),
                active == (rt_on || p5_on),
                rt_on ==> members_wrap(c, buf@, stot),
                p5_on ==> false,
                bad_on ==> false,
                bad_on == (prev.at_boundary() && ((c == Codec::Zlib && buf@.len() >= 2
                    && !zlib_header_ok(buf@[0], buf@[1])) || (c == Codec::Gzip && gzip_hdr_bad(
                    buf@,
                )))),
                active ==> prev.at_boundary(),
            decreases usize::MAX - iter,
        {
            if iter >= usize::MAX {
                proof {
                    if bad_on {
                        assert(false);
                    }
                }
                return Err(StreamError::Engine);
            }
            iter = iter + 1;
            let cur_phase = self.phase;
            match cur_phase {
                Phase::Header => {
                    if pos >= buf.len() {
                        proof {
                            if bad_on {
                                assert(false);
                            }
                            if active {
                                if infl {
                                    assert(pos <= mstart + hlen);
                                    assert(mstart + hlen < mstart + hlen + cur_b.len() + tlen);
                                    assert(false);
                                }
                            }
                        }
                        break;
                    }
                    let ghost hbuf_before = self.hbuf@;
                    let b: u8 = *slice_index_get(buf, pos);
                    pos = pos + 1;
                    self.hbuf.push(b);
                    proof {
                        if bad_on {
                            assert(self.hbuf@ =~= buf@.subrange(0, pos as int));
                        }
                        if active {
                            assert(infl);
                            assert(hbuf_before == buf@.subrange(mstart, pos - 1));
                            assert(self.hbuf@ =~= buf@.subrange(mstart, pos as int));
                            if c == Codec::Gzip {
                                assert(hbuf_before.len() < 10) by {
                                    if hbuf_before.len() >= 10 {
                                        assert(hbuf_before =~= header_of(c));
                                        assert(hbuf_before =~= gzip_header());
                                        lemma_fixed_headers_ok();
                                    }
                                }
                                assert(pos <= mstart + 10);
                                assert(self.hbuf@ =~= gzip_header().subrange(0, pos - mstart));
                            }
                            if c == Codec::Zlib {
                                assert(hbuf_before.len() < 2);
                                assert(pos <= mstart + 2);
                            }
                        }
                    }
                    match self.codec {
                        Codec::Deflate => {
                            return Err(StreamError::Engine);
                        },
                        Codec::Zlib => {
                            if self.hbuf.len() == 2 {
                                let ok = check_zlib_header(self.hbuf[0], self.hbuf[1]);
                                if !ok {
                                    proof {
                                        if active {
                                            assert(self.hbuf@[0] == buf@[mstart]);
                                            assert(self.hbuf@[1] == buf@[mstart + 1]);
                                            if rt_on {
                                                assert(buf@[mstart] == header_of(c)[0]);
                                                assert(buf@[mstart + 1] == header_of(c)[1]);
                                                lemma_fixed_headers_ok();
                                            }
                                            assert(false);
                                        }
                                    }
                                    return Err(StreamError::MalformedHeader);
                                }
                                proof {
                                    if bad_on {
                                        assert(self.hbuf@[0] == buf@[0]);
                                        assert(self.hbuf@[1] == buf@[1]);
                                        assert(false);
                                    }
                                }
                                self.hbuf = Vec::new();
                                self.phase = Phase::Body;
                                proof {
                                    if active {
                                        assert(pos == mstart + hlen);
                                        assert(self.eng.fed@ =~= buf@.subrange(
                                            mstart + hlen,
                                            pos as int,
                                        ));
                                    }
                                }
                            } else {
                                proof {
                                    if bad_on {
                                        assert(pos <= 1);
                                    }
                                }
                            }
                        },
                        Codec::Gzip => {
                            proof {
                                if active {
                                    lemma_fixed_headers_ok();
                                    if pos - mstart < 10 {
                                        assert(crate::format::gzip_hdr_len(self.hbuf@) is None);
                                        assert(!gzip_hdr_bad(self.hbuf@)) by {
                                            assert(forall|j: int|
                                                0 <= j < pos - mstart ==> self.hbuf@[j]
                                                    == gzip_header()[j]);
                                        }
                                    } else {
                                        assert(self.hbuf@ =~= gzip_header());
                                    }
                                }
                                if bad_on {
                                    if pos <= badi {
                                        assert(!gzip_hdr_bad(self.hbuf@)) by {
                                            assert(forall|j: int|
                                                0 <= j < pos ==> self.hbuf@[j] == buf@[j]);
                                        }
                                        assert(crate::format::gzip_hdr_len(self.hbuf@) is None);
                                    } else {
                                        assert(pos == badi + 1);
                                        assert(gzip_hdr_bad(self.hbuf@)) by {
                                            assert(self.hbuf@[badi] == buf@[badi]);
                                        }
                                    }
                                }
                            }
                            match scan_gzip_header(&self.hbuf) {
                                HdrScan::Bad => {
                                    proof {
                                        if active {
                                            assert(false);
                                        }
                                    }
                                    return Err(StreamError::MalformedHeader);
                                },
                                HdrScan::Done(_n) => {
                                    proof {
                                        if bad_on {
                                            assert(false);
                                        }
                                    }
                                    self.hbuf = Vec::new();
                                    self.phase = Phase::Body;
                                    proof {
                                        if active {
                                            assert(pos == mstart + 10);
                                            assert(self.eng.fed@ =~= buf@.subrange(
                                                mstart + hlen,
                                                pos as int,
                                            ));
                                        }
                                    }
                                },
                                HdrScan::Incomplete => {
                                    proof {
                                        if active {
                                            assert(pos < mstart + 10);
                                        }
                                        if bad_on {
                                            assert(pos <= badi);
                                        }
                                    }
                                },
                            }
                        },
                    }
                },
                Phase::Body => {
                    let ghost out_before = self.eng.out@;
                    let ghost fed_before = self.eng.fed@;
                    let ghost staged_before = staged@;
                    let ghost pos_before = pos as int;
                    let window = slice_subrange(buf, pos, buf.len());
                    match self.eng.step(window) {
                        Ok((mut prod, used, ended)) => {
                            let ghost prodseq = prod@;
                            let produced = prod.len();
                            self.adler.update(prod.as_slice());
                            self.crc.update(prod.as_slice());
                            let new_mem_out = match self.mem_out.checked_add(produced as u64) {
                                Some(x) => x,
                                None => {
                                    return Err(StreamError::Engine);
                                },
                            };
                            self.mem_out = new_mem_out;
                            staged.append(&mut prod);
                            pos = pos + used;
                            proof {
                                assert(self.eng.out@ == out_before + prodseq);
                                assert(staged@ == staged_before + prodseq);
                                assert(self.done@ + (out_before + prodseq) =~= (self.done@
                                    + out_before) + prodseq);
                                assert((prev.done@ + prev.eng.out@) + (staged_before + prodseq)
                                    =~= ((prev.done@ + prev.eng.out@) + staged_before) + prodseq);
                                assert(self.done@ + self.eng.out@ =~= prev.done@ + prev.eng.out@
                                    + staged@);
                                if active {
                                    if infl {
                                        assert(fed_before == buf@.subrange(
                                            mstart + hlen,
                                            pos_before,
                                        ));
                                        assert(window@ == buf@.subrange(
                                            pos_before,
                                            buf@.len() as int,
                                        ));
                                        assert(window@.subrange(0, used as int) =~= buf@.subrange(
                                            pos_before,
                                            pos as int,
                                        ));
                                        assert(self.eng.fed@ =~= buf@.subrange(
                                            mstart + hlen,
                                            pos as int,
                                        ));
                                        if pos > mstart + hlen + cur_b.len() {
                                            assert(self.eng.fed@.subrange(0, cur_b.len() as int)
                                                =~= cur_b);
                                            assert(inflate_sim(cur_b).1 is Some);
                                            assert(inflate_sim(
                                                self.eng.fed@.subrange(0, cur_b.len() as int),
                                            ).1 is None);
                                            assert(false);
                                        }
                                        if ended {
                                            assert(inflate_sim(self.eng.fed@).1 == Some(
                                                self.eng.fed@.len() as int,
                                            ));
                                            if self.eng.fed@.len() < cur_b.len() {
                                                assert(cur_b.subrange(
                                                    0,
                                                    self.eng.fed@.len() as int,
                                                ) =~= self.eng.fed@);
                                                assert(inflate_sim(
                                                    cur_b.subrange(0, self.eng.fed@.len() as int),
                                                ).1 is None);
                                                assert(false);
                                            }
                                            assert(self.eng.fed@ =~= cur_b);
                                            assert(pos == mstart + hlen + cur_b.len());
                                            assert(self.eng.out@ == inflate_sim(cur_b).0);
                                            assert(self.eng.out@ == cur_s);
                                        }
                                    } else {
                                        assert(pos_before == buf@.len() && fed_before.len() == 0
                                            && out_before.len() == 0);
                                        assert(window@.len() == 0);
                                        assert(used == 0);
                                        assert(self.eng.fed@ =~= fed_before);
                                        assert(prodseq.len() == 0);
                                        assert(!ended);
                                        assert(self.eng.out@ =~= out_before);
                                    }
                                }
                            }
                            if ended {
                                match self.codec {
                                    Codec::Deflate => {
                                        let ghost nd = self.done@ + self.eng.out@;
                                        self.done = Ghost(nd);
                                        self.eng.reset();
                                        self.adler.reset();
                                        self.crc.reset();
                                        self.mem_out = 0;
                                        proof {
                                            if active {
                                                assert(rt_on);
                                                assert(pos == mstart + hlen + cur_b.len() + tlen);
                                                acc = acc + cur_s;
                                                mstart = pos as int;
                                                rem = rem2;
                                                assert(self.done@ =~= prev.done@ + acc);
                                                assert(members_wrap(
                                                    c,
                                                    buf@.skip(mstart),
                                                    rem,
                                                ));
                                                if pos < buf@.len() {
                                                    let (b2, s1, s2) = lemma_members_head_at(
                                                        c,
                                                        buf@,
                                                        mstart,
                                                        rem,
                                                    );
                                                    cur_b = b2;
                                                    cur_s = s1;
                                                    rem2 = s2;
                                                    assert(trailer_for(c, cur_s).len() == tlen);
                                                    assert(stot =~= acc + cur_s + rem2);
                                                    assert(self.eng.fed@ =~= buf@.subrange(
                                                        mstart + hlen,
                                                        pos as int,
                                                    ));
                                                } else {
                                                    infl = false;
                                                    assert(buf@.skip(mstart)
                                                        =~= Seq::<u8>::empty());
                                                    lemma_members_empty(c, buf@.skip(mstart), rem);
                                                    assert(stot =~= acc + rem);
                                                    assert(stot =~= acc);
                                                    assert(self.done@ =~= prev.done@ + stot);
                                                }
                                            }
                                        }
                                    },
                                    Codec::Zlib => {
                                        self.phase = Phase::Trailer;
                                        proof {
                                            if active {
                                                assert(self.tbuf@ =~= buf@.subrange(
                                                    mstart + hlen + cur_b.len(),
                                                    pos as int,
                                                ));
                                                assert(pos < mstart + hlen + cur_b.len() + tlen);
                                            }
                                        }
                                    },
                                    Codec::Gzip => {
                                        self.phase = Phase::Trailer;
                                        proof {
                                            if active {
                                                assert(self.tbuf@ =~= buf@.subrange(
                                                    mstart + hlen + cur_b.len(),
                                                    pos as int,
                                                ));
                                                assert(pos < mstart + hlen + cur_b.len() + tlen);
                                            }
                                        }
                                    },
                                }
                            } else {
                                if used == 0 && produced == 0 {
                                    proof {
                                        if window@.len() > 0 {
                                            if inflate_sim(fed_before).1 is None {
                                                assert(false);
                                            } else {
                                                assert(self.eng.fed@ =~= fed_before);
                                                assert(inflate_sim(self.eng.fed@).1 is Some);
                                                assert(false);
                                            }
                                        }
                                        assert(pos >= buf@.len());
                                        if active {
                                            if infl {
                                                assert(pos == buf@.len());
                                                assert(pos <= mstart + hlen + cur_b.len());
                                                assert(tlen == 0);
                                                assert(pos == mstart + hlen + cur_b.len());
                                                assert(self.eng.fed@ =~= cur_b);
                                                assert(inflate_sim(self.eng.fed@).1 is Some);
                                                assert(false);
                                            }
                                        }
                                    }
                                    break;
                                } else {
                                    if pos >= buf.len() && produced < BUF_SIZE {
                                        proof {
                                            if active {
                                                if infl {
                                                    assert(pos == buf@.len());
                                                    assert(tlen == 0);
                                                    assert(self.eng.fed@ =~= cur_b);
                                                    assert(inflate_sim(self.eng.fed@).1 is Some);
                                                    assert(false);
                                                } else {
                                                    assert(false);
                                                }
                                            }
                                        }
                                        break;
                                    }
                                }
                            }
                        },
                        Err(e) => {
                            return Err(e);
                        },
                    }
                },
                Phase::Trailer => {
                    if pos >= buf.len() {
                        proof {
                            if active {
                                assert(false);
                            }
                        }
                        break;
                    }
                    let b: u8 = *slice_index_get(buf, pos);
                    pos = pos + 1;
                    self.tbuf.push(b);
                    proof {
                        if active {
                            assert(self.tbuf@ =~= buf@.subrange(
                                mstart + hlen + cur_b.len(),
                                pos as int,
                            ));
                        }
                    }
                    let tl: usize = match self.codec {
                        Codec::Deflate => 0,
                        Codec::Zlib => 4,
                        Codec::Gzip => 8,
                    };
                    if self.tbuf.len() == tl {
                        proof {
                            if active {
                                assert(pos == mstart + hlen + cur_b.len() + tlen);
                            }
                        }
                        match self.codec {
                            Codec::Deflate => {
                                return Err(StreamError::Engine);
                            },
                            Codec::Zlib => {
                                let expect = read_be32(
                                    self.tbuf[0],
                                    self.tbuf[1],
                                    self.tbuf[2],
                                    self.tbuf[3],
                                );
                                let got = self.adler.sum();
                                if expect != got {
                                    return Err(StreamError::ChecksumMismatch);
                                }
                                proof {
                                    if p5_on {
                                        assert(self.tbuf@[0] == buf@[buf@.len() - 4]);
                                        assert(self.tbuf@[1] == buf@[buf@.len() - 3]);
                                        assert(self.tbuf@[2] == buf@[buf@.len() - 2]);
                                        assert(self.tbuf@[3] == buf@[buf@.len() - 1]);
                                        assert(got == adler32_of(cur_s));
                                        assert(false);
                                    }
                                }
                            },
                            Codec::Gzip => {
                                let expect = read_le32(
                                    self.tbuf[0],
                                    self.tbuf[1],
                                    self.tbuf[2],
                                    self.tbuf[3],
                                );
                                let got = self.crc.sum();
                                if expect != got {
                                    return Err(StreamError::ChecksumMismatch);
                                }
                                let izexp = read_le32(
                                    self.tbuf[4],
                                    self.tbuf[5],
                                    self.tbuf[6],
                                    self.tbuf[7],
                                );
                                if izexp as u64 != self.mem_out % 0x1_0000_0000 {
                                    return Err(StreamError::ChecksumMismatch);
                                }
                            },
                        }
                        let ghost nd = self.done@ + self.eng.out@;
                        self.done = Ghost(nd);
                        self.eng.reset();
                        self.adler.reset();
                        self.crc.reset();
                        self.mem_out = 0;
                        self.tbuf = Vec::new();
                        self.phase = match self.codec {
                            Codec::Deflate => Phase::Body,
                            Codec::Zlib => Phase::Header,
                            Codec::Gzip => Phase::Header,
                        };
                        proof {
                            if active {
                                assert(rt_on);
                                acc = acc + cur_s;
                                mstart = pos as int;
                                rem = rem2;
                                assert(self.done@ =~= prev.done@ + acc);
                                assert(members_wrap(c, buf@.skip(mstart), rem));
                                if pos < buf@.len() {
                                    let (b2, s1, s2) = lemma_members_head_at(c, buf@, mstart, rem);
                                    cur_b = b2;
                                    cur_s = s1;
                                    rem2 = s2;
                                    assert(trailer_for(c, cur_s).len() == tlen);
                                    assert(stot =~= acc + cur_s + rem2);
                                    assert(self.hbuf@ =~= buf@.subrange(mstart, pos as int));
                                } else {
                                    infl = false;
                                    assert(buf@.skip(mstart) =~= Seq::<u8>::empty());
                                    lemma_members_empty(c, buf@.skip(mstart), rem);
                                    assert(stot =~= acc + rem);
                                    assert(stot =~= acc);
                                    assert(self.done@ =~= prev.done@ + stot);
                                }
                            }
                        }
                    }
                },
            }
        }
        let ghost staged_final = staged@;
        proof {
            if active {
                assert(prev.eng.out@.len() == 0);
                assert(self.done@ + self.eng.out@ =~= self.done@);
                assert(prev.done@ + prev.eng.out@ =~= prev.done@);
                assert(prev.done@ + prev.eng.out@ + staged_final =~= prev.done@ + staged_final);
                assert(prev.done@ + staged_final == self.done@);
                assert(prev.done@ + staged_final =~= prev.done@ + stot);
                assert(staged_final.len() == stot.len());
                assert forall|i: int| 0 <= i < staged_final.len() implies staged_final[i]
                    == stot[i] by {
                    assert((prev.done@ + staged_final)[prev.done@.len() + i] == staged_final[i]);
                    assert((prev.done@ + stot)[prev.done@.len() + i] == stot[i]);
                }
                assert(staged_final =~= stot);
            }
        }
        match self.inner.write_all(staged.as_slice()) {
            Ok(_) => {},
            Err(e) => {
                return Err(e);
            },
        }
        proof {
            assert(prev.inner.contents() == prev.base@ + prev.done@ + prev.eng.out@);
            assert(self.inner.contents() == prev.inner.contents() + staged_final);
            assert(prev.done@ + prev.eng.out@ + staged_final =~= self.done@ + self.eng.out@);
            assert((prev.base@ + prev.done@ + prev.eng.out@) + staged_final =~= prev.base@ + (
            prev.done@ + prev.eng.out@ + staged_final));
            assert(prev.base@ + (self.done@ + self.eng.out@) =~= self.base@ + self.done@
                + self.eng.out@);
            assert(self.inner.contents() == self.base@ + self.done@ + self.eng.out@);
            assert(staged_final =~= (self.done@ + self.eng.out@).skip(
                (prev.done@ + prev.eng.out@).len() as int,
            ));
            assert(prev.inner.contents() + staged_final =~= self.inner.contents());
            assert forall|s: Seq<u8>|
                prev.at_boundary() && #[trigger] members_wrap(c, buf@, s) implies self.at_boundary()
                && self.done@ == prev.done@ + s && self.inner.contents() == prev.inner.contents()
                + s by {
                assert(rt_on);
                lemma_members_unique(c, buf@, s, stot);
                assert(self.done@ == prev.done@ + stot);
            }
            assert forall|s: Seq<u8>|
                prev.at_boundary() && #[trigger] member_wraps(c, buf@, s) implies self.at_boundary()
                && self.done@ == prev.done@ + s && self.inner.contents() == prev.inner.contents()
                + s by {
                lemma_member_implies_members(c, buf@, s);
                assert(members_wrap(c, buf@, s));
                assert(rt_on);
                lemma_members_unique(c, buf@, s, stot);
            }
        }
        Ok(buf.len())
    }

    /// Drains any remaining staged output (there is none between calls) and
    /// flushes the downstream sink.
    pub fn flush(&mut self) -> (r: Result<(), StreamError>)
        requires
            old(self).wf(),
        ensures
            match r {
                Ok(u) => {
                    &&& final(self).wf()
                    &&& final(self).codec == old(self).codec
                    &&& final(self).base@ == old(self).base@
                    &&& final(self).emitted() == old(self).emitted()
                    &&& final(self).inner.contents() == old(self).inner.contents()
                },
                Err(e) => true,
            },
    {
        match self.inner.flush() {
            Ok(_) => Ok(()),
            Err(e) => Err(e),
        }
    }
}

} // verus!
