use vstd::prelude::*;

use crate::adler::adler32_of;
use crate::engine::{crc32_of, inflate_sim};
use crate::format::{
    be_bytes, gzip_header, le_bytes, lemma_word_be_roundtrip, lemma_word_le_roundtrip, word_be,
    word_le, zlib_header, zlib_header_ok, Codec,
};

verus! {

/// Header bytes the compressor writes for a member of format `c`.
pub open spec fn header_of(c: Codec) -> Seq<u8> {
    match c {
        Codec::Deflate => Seq::empty(),
        Codec::Zlib => zlib_header(),
        Codec::Gzip => gzip_header(),
    }
}

/// Trailer bytes of a member of format `c` whose decoded contents are `s`:
/// nothing for raw deflate, the big-endian adler-32 for zlib, the
/// little-endian CRC-32 and input length modulo 2^32 for gzip.
pub open spec fn trailer_for(c: Codec, s: Seq<u8>) -> Seq<u8> {
    match c {
        Codec::Deflate => Seq::empty(),
        Codec::Zlib => be_bytes(adler32_of(s)),
        Codec::Gzip => le_bytes(crc32_of(s)) + le_bytes((s.len() % 0x1_0000_0000) as u32),
    }
}

/// `body` is a complete terminated raw-deflate stream decoding to `s`: it
/// inflates back to `s`, ends exactly at its last byte, and no proper prefix
/// of it is itself terminated.
pub open spec fn deflate_stream_for(body: Seq<u8>, s: Seq<u8>) -> bool {
    &&& inflate_sim(body) == (s, Some(body.len() as int))
    &&& body.len() > 0
    &&& forall|i: int| 0 <= i < body.len() ==> #[trigger] inflate_sim(body.subrange(0, i)).1 is None
}

/// `m` is one complete member of format `c` carrying the input bytes `s`:
/// the format's header, a terminated deflate stream decoding to `s`, and the
/// format's trailer over `s`.
pub open spec fn member_wraps(c: Codec, m: Seq<u8>, s: Seq<u8>) -> bool {
    exists|body: Seq<u8>|
        #![auto]
        {
            &&& deflate_stream_for(body, s)
            &&& m == header_of(c) + body + trailer_for(c, s)
        }
}

/// The trailer bytes `trb` agree with a member's decoded contents `s` under
/// the rules of format `c`: nothing for raw deflate, the big-endian adler-32
/// of `s` for zlib, the little-endian CRC-32 of `s` and the length of `s`
/// modulo 2^32 for gzip.
pub open spec fn trailer_passes(c: Codec, trb: Seq<u8>, s: Seq<u8>) -> bool {
    match c {
        Codec::Deflate => true,
        Codec::Zlib => trb.len() == 4 && word_be(trb[0], trb[1], trb[2], trb[3]) == adler32_of(s),
        Codec::Gzip => trb.len() == 8 && word_le(trb[0], trb[1], trb[2], trb[3]) == crc32_of(s)
            && word_le(trb[4], trb[5], trb[6], trb[7]) == (s.len() % 0x1_0000_0000) as u32,
    }
}

/// The trailer the compressor writes for `s` agrees with `s`.
pub proof fn lemma_trailer_for_passes(c: Codec, s: Seq<u8>)
    ensures
        trailer_passes(c, trailer_for(c, s), s),
{
    match c {
        Codec::Deflate => {},
        Codec::Zlib => {
            lemma_word_be_roundtrip(adler32_of(s));
        },
        Codec::Gzip => {
            lemma_word_le_roundtrip(crc32_of(s));
            lemma_word_le_roundtrip((s.len() % 0x1_0000_0000) as u32);
            let t = trailer_for(c, s);
            assert(t[0] == le_bytes(crc32_of(s))[0]);
            assert(t[1] == le_bytes(crc32_of(s))[1]);
            assert(t[2] == le_bytes(crc32_of(s))[2]);
            assert(t[3] == le_bytes(crc32_of(s))[3]);
            assert(t[4] == le_bytes((s.len() % 0x1_0000_0000) as u32)[0]);
            assert(t[5] == le_bytes((s.len() % 0x1_0000_0000) as u32)[1]);
            assert(t[6] == le_bytes((s.len() % 0x1_0000_0000) as u32)[2]);
            assert(t[7] == le_bytes((s.len() % 0x1_0000_0000) as u32)[3]);
        },
    }
}

/// A zlib member whose compressed payload is intact but whose four-byte
/// big-endian trailer does not hold the adler-32 of the decoded payload.
pub open spec fn zlib_trailer_mismatch(m: Seq<u8>) -> bool {
    exists|body: Seq<u8>|
        #![auto]
        {
            &&& deflate_stream_for(body, inflate_sim(body).0)
            &&& m.len() == 2 + body.len() + 4
            &&& zlib_header_ok(m[0], m[1])
            &&& m.subrange(2, m.len() - 4) == body
            &&& word_be(m[m.len() - 4], m[m.len() - 3], m[m.len() - 2], m[m.len() - 1])
                != adler32_of(inflate_sim(body).0)
        }
}


/// `m` is a concatenation of exactly `n` complete members of format `c`
/// whose decoded contents concatenate to `s`.
pub open spec fn members_wrap_n(c: Codec, m: Seq<u8>, s: Seq<u8>, n: nat) -> bool
    decreases n,
{
    if n == 0 {
        m.len() == 0 && s.len() == 0
    } else {
        exists|k: int, s1: Seq<u8>, s2: Seq<u8>|
            #![auto]
            {
                &&& 1 <= k <= m.len()
                &&& member_wraps(c, m.subrange(0, k), s1)
                &&& members_wrap_n(c, m.skip(k), s2, (n - 1) as nat)
                &&& s == s1 + s2
            }
    }
}

/// `m` is a concatenation of zero or more complete members of format `c`
/// whose decoded contents concatenate to `s`.
pub open spec fn members_wrap(c: Codec, m: Seq<u8>, s: Seq<u8>) -> bool {
    exists|n: nat| members_wrap_n(c, m, s, n)
}

/// One complete member is a one-member concatenation.
pub proof fn lemma_member_implies_members(c: Codec, m: Seq<u8>, s: Seq<u8>)
    requires
        member_wraps(c, m, s),
    ensures
        members_wrap(c, m, s),
{
    let b = choose|b: Seq<u8>|
        #![auto]
        deflate_stream_for(b, s) && m == header_of(c) + b + trailer_for(c, s);
    assert(m.len() >= 1);
    assert(m.subrange(0, m.len() as int) =~= m);
    assert(m.skip(m.len() as int) =~= Seq::<u8>::empty());
    assert(members_wrap_n(c, m.skip(m.len() as int), Seq::empty(), 0));
    assert(s + Seq::<u8>::empty() =~= s);
    assert(members_wrap_n(c, m, s, 1)) by {
        assert({
            &&& 1 <= m.len() as int <= m.len()
            &&& member_wraps(c, m.subrange(0, m.len() as int), s)
            &&& members_wrap_n(c, m.skip(m.len() as int), Seq::empty(), 0)
            &&& s == s + Seq::<u8>::empty()
        });
    }
}

/// Two complete members at the start of one byte sequence occupy the same
/// bytes: the deflate body's end is forced by prefix-freeness, and the
/// header and trailer lengths are fixed by the format.
proof fn lemma_first_member_len(c: Codec, m: Seq<u8>, k1: int, s1: Seq<u8>, k2: int, s2: Seq<u8>)
    requires
        1 <= k1 <= k2 <= m.len(),
        member_wraps(c, m.subrange(0, k1), s1),
        member_wraps(c, m.subrange(0, k2), s2),
    ensures
        k1 == k2,
{
    let b1 = choose|b: Seq<u8>|
        #![auto]
        deflate_stream_for(b, s1) && m.subrange(0, k1) == header_of(c) + b + trailer_for(c, s1);
    let b2 = choose|b: Seq<u8>|
        #![auto]
        deflate_stream_for(b, s2) && m.subrange(0, k2) == header_of(c) + b + trailer_for(c, s2);
    assert(deflate_stream_for(b1, s1) && m.subrange(0, k1) == header_of(c) + b1 + trailer_for(
        c,
        s1,
    ));
    assert(deflate_stream_for(b2, s2) && m.subrange(0, k2) == header_of(c) + b2 + trailer_for(
        c,
        s2,
    ));
    let h = header_of(c).len() as int;
    let t = trailer_for(c, s1).len() as int;
    assert(trailer_for(c, s2).len() == t) by {
        match c {
            Codec::Deflate => {},
            Codec::Zlib => {},
            Codec::Gzip => {},
        }
    }
    assert(m.subrange(0, k1).len() == k1);
    assert(m.subrange(0, k2).len() == k2);
    assert((header_of(c) + b1 + trailer_for(c, s1)).len() == h + b1.len() + t);
    assert((header_of(c) + b2 + trailer_for(c, s2)).len() == h + b2.len() + trailer_for(
        c,
        s2,
    ).len());
    assert(k1 == h + b1.len() + t);
    assert(k2 == h + b2.len() + t);
    assert(b1 =~= m.subrange(0, k1).subrange(h, k1 - t));
    assert(m.subrange(0, k1).subrange(h, k1 - t) =~= m.subrange(h, k1 - t));
    assert(b2 =~= m.subrange(0, k2).subrange(h, k2 - t));
    assert(m.subrange(0, k2).subrange(h, k2 - t) =~= m.subrange(h, k2 - t));
    assert(b1 == m.subrange(h, k1 - t));
    assert(b2 == m.subrange(h, k2 - t));
    if k1 < k2 {
        assert(b1.len() < b2.len());
        assert(b2.subrange(0, b1.len() as int) =~= b1);
        assert(inflate_sim(b2.subrange(0, b1.len() as int)).1 is None);
        assert(inflate_sim(b1).1 is Some);
        assert(false);
    }
}

proof fn lemma_members_n_unique(
    c: Codec,
    m: Seq<u8>,
    s1: Seq<u8>,
    n1: nat,
    s2: Seq<u8>,
    n2: nat,
)
    requires
        members_wrap_n(c, m, s1, n1),
        members_wrap_n(c, m, s2, n2),
    ensures
        s1 == s2,
    decreases n1,
{
    if m.len() == 0 {
        assert(n1 == 0 && n2 == 0) by {
            if n1 != 0 {
                let (k, a, r) = choose|k: int, a: Seq<u8>, r: Seq<u8>|
                    #![auto]
                    1 <= k <= m.len() && member_wraps(c, m.subrange(0, k), a) && members_wrap_n(
                        c,
                        m.skip(k),
                        r,
                        (n1 - 1) as nat,
                    ) && s1 == a + r;
                assert(false);
            }
            if n2 != 0 {
                let (k, a, r) = choose|k: int, a: Seq<u8>, r: Seq<u8>|
                    #![auto]
                    1 <= k <= m.len() && member_wraps(c, m.subrange(0, k), a) && members_wrap_n(
                        c,
                        m.skip(k),
                        r,
                        (n2 - 1) as nat,
                    ) && s2 == a + r;
                assert(false);
            }
        }
        assert(s1 =~= s2);
    } else {
        assert(n1 != 0 && n2 != 0);
        let (k1, a1, r1) = choose|k: int, a: Seq<u8>, r: Seq<u8>|
            #![auto]
            1 <= k <= m.len() && member_wraps(c, m.subrange(0, k), a) && members_wrap_n(
                c,
                m.skip(k),
                r,
                (n1 - 1) as nat,
            ) && s1 == a + r;
        let (k2, a2, r2) = choose|k: int, a: Seq<u8>, r: Seq<u8>|
            #![auto]
            1 <= k <= m.len() && member_wraps(c, m.subrange(0, k), a) && members_wrap_n(
                c,
                m.skip(k),
                r,
                (n2 - 1) as nat,
            ) && s2 == a + r;
        if k1 <= k2 {
            lemma_first_member_len(c, m, k1, a1, k2, a2);
        } else {
            lemma_first_member_len(c, m, k2, a2, k1, a1);
        }
        assert(k1 == k2);
        assert(m.subrange(0, k1) == m.subrange(0, k2));
        lemma_member_unique(c, m.subrange(0, k1), a1, a2);
        lemma_members_n_unique(c, m.skip(k1), r1, (n1 - 1) as nat, r2, (n2 - 1) as nat);
    }
}

/// A concatenation of complete members determines its decoded contents.
pub proof fn lemma_members_unique(c: Codec, m: Seq<u8>, s1: Seq<u8>, s2: Seq<u8>)
    requires
        members_wrap(c, m, s1),
        members_wrap(c, m, s2),
    ensures
        s1 == s2,
{
    let n1 = choose|n: nat| members_wrap_n(c, m, s1, n);
    let n2 = choose|n: nat| members_wrap_n(c, m, s2, n);
    lemma_members_n_unique(c, m, s1, n1, s2, n2);
}


/// An empty concatenation of members holds nothing.
pub proof fn lemma_members_empty(c: Codec, m: Seq<u8>, s: Seq<u8>)
    requires
        members_wrap(c, m, s),
        m.len() == 0,
    ensures
        s == Seq::<u8>::empty(),
{
    let n = choose|n: nat| members_wrap_n(c, m, s, n);
    if n != 0 {
        let (k, a, r) = choose|k: int, a: Seq<u8>, r: Seq<u8>|
            #![auto]
            1 <= k <= m.len() && member_wraps(c, m.subrange(0, k), a) && members_wrap_n(
                c,
                m.skip(k),
                r,
                (n - 1) as nat,
            ) && s == a + r;
        assert(false);
    }
    assert(s =~= Seq::<u8>::empty());
}

/// Splits a nonempty concatenation of members into its first member's
/// deflate body and contents, and the remaining members' contents.
pub proof fn lemma_members_head(c: Codec, t: Seq<u8>, s: Seq<u8>) -> (r: (Seq<u8>, Seq<u8>, Seq<u8>))
    requires
        members_wrap(c, t, s),
        t.len() > 0,
    ensures
        ({
            let (b, s1, s2) = r;
            let k = header_of(c).len() + b.len() + trailer_for(c, s1).len();
            &&& deflate_stream_for(b, s1)
            &&& k <= t.len()
            &&& t.subrange(0, k as int) == header_of(c) + b + trailer_for(c, s1)
            &&& members_wrap(c, t.skip(k as int), s2)
            &&& s == s1 + s2
        }),
{
    let n = choose|n: nat| members_wrap_n(c, t, s, n);
    assert(members_wrap_n(c, t, s, n));
    assert(n != 0);
    let (k, s1, s2) = choose|k: int, s1: Seq<u8>, s2: Seq<u8>|
        #![auto]
        1 <= k <= t.len() && member_wraps(c, t.subrange(0, k), s1) && members_wrap_n(
            c,
            t.skip(k),
            s2,
            (n - 1) as nat,
        ) && s == s1 + s2;
    assert(member_wraps(c, t.subrange(0, k), s1));
    let b = choose|b: Seq<u8>|
        #![auto]
        deflate_stream_for(b, s1) && t.subrange(0, k) == header_of(c) + b + trailer_for(c, s1);
    assert(t.subrange(0, k).len() == k);
    assert((header_of(c) + b + trailer_for(c, s1)).len() == header_of(c).len() + b.len()
        + trailer_for(c, s1).len());
    assert(k == header_of(c).len() + b.len() + trailer_for(c, s1).len());
    assert(members_wrap(c, t.skip(k), s2));
    (b, s1, s2)
}


/// Splits the members found at offset `p` of `buf`: the first member's
/// body and contents with their exact byte positions, and the rest.
pub proof fn lemma_members_head_at(c: Codec, buf: Seq<u8>, p: int, s: Seq<u8>) -> (r: (
    Seq<u8>,
    Seq<u8>,
    Seq<u8>,
))
    requires
        0 <= p < buf.len(),
        members_wrap(c, buf.skip(p), s),
    ensures
        ({
            let (b, s1, s2) = r;
            let h = header_of(c).len() as int;
            let t = trailer_for(c, s1).len() as int;
            &&& deflate_stream_for(b, s1)
            &&& p + h + b.len() + t <= buf.len()
            &&& buf.subrange(p, p + h) == header_of(c)
            &&& buf.subrange(p + h, p + h + b.len()) == b
            &&& buf.subrange(p + h + b.len(), p + h + b.len() + t) == trailer_for(c, s1)
            &&& members_wrap(c, buf.skip(p + h + b.len() + t), s2)
            &&& s == s1 + s2
        }),
{
    let tail = buf.skip(p);
    let (b, s1, s2) = lemma_members_head(c, tail, s);
    let h = header_of(c).len() as int;
    let t = trailer_for(c, s1).len() as int;
    let k = h + b.len() + t;
    assert(tail.subrange(0, k) == header_of(c) + b + trailer_for(c, s1));
    assert(buf.subrange(p, p + h) =~= tail.subrange(0, k).subrange(0, h));
    assert(tail.subrange(0, k).subrange(0, h) =~= header_of(c));
    assert(buf.subrange(p + h, p + h + b.len()) =~= tail.subrange(0, k).subrange(h, h + b.len()));
    assert(tail.subrange(0, k).subrange(h, h + b.len()) =~= b);
    assert(buf.subrange(p + h + b.len(), p + k) =~= tail.subrange(0, k).subrange(h + b.len(), k));
    assert(tail.subrange(0, k).subrange(h + b.len(), k) =~= trailer_for(c, s1));
    assert(buf.skip(p + k) =~= tail.skip(k));
    (b, s1, s2)
}

/// Splits a trailer-mismatched zlib member into its body and decoded
/// contents, with their exact byte positions.
pub proof fn lemma_mismatch_head(m: Seq<u8>) -> (r: (Seq<u8>, Seq<u8>))
    requires
        zlib_trailer_mismatch(m),
    ensures
        ({
            let (b, s1) = r;
            &&& deflate_stream_for(b, s1)
            &&& s1 == inflate_sim(b).0
            &&& m.len() == 2 + b.len() + 4
            &&& zlib_header_ok(m[0], m[1])
            &&& m.subrange(2, m.len() - 4) == b
            &&& word_be(m[m.len() - 4], m[m.len() - 3], m[m.len() - 2], m[m.len() - 1])
                != adler32_of(s1)
        }),
{
    let b = choose|b: Seq<u8>|
        #![auto]
        {
            &&& deflate_stream_for(b, inflate_sim(b).0)
            &&& m.len() == 2 + b.len() + 4
            &&& zlib_header_ok(m[0], m[1])
            &&& m.subrange(2, m.len() - 4) == b
            &&& word_be(m[m.len() - 4], m[m.len() - 3], m[m.len() - 2], m[m.len() - 1])
                != adler32_of(inflate_sim(b).0)
        };
    (b, inflate_sim(b).0)
}

/// A concatenation of well-formed zlib members is never a single member
/// whose trailer disagrees with its payload.
pub proof fn lemma_members_excludes_mismatch(m: Seq<u8>, s: Seq<u8>)
    requires
        members_wrap(Codec::Zlib, m, s),
    ensures
        !zlib_trailer_mismatch(m),
{
    if !zlib_trailer_mismatch(m) {
        return ;
    }
    let c = Codec::Zlib;
    let (b2, s2) = lemma_mismatch_head(m);
    assert(m.len() > 0);
    let (b1, s1, srest) = lemma_members_head(c, m, s);
    let k = header_of(c).len() + b1.len() + trailer_for(c, s1).len();
    assert(trailer_for(c, s1).len() == 4);
    assert(b1 =~= m.subrange(0, k as int).subrange(2, k - 4));
    assert(m.subrange(0, k as int).subrange(2, k - 4) =~= m.subrange(2, k - 4));
    if b1.len() < b2.len() {
        assert(b2.subrange(0, b1.len() as int) =~= b1);
        assert(inflate_sim(b2.subrange(0, b1.len() as int)).1 is None);
        assert(inflate_sim(b1).1 is Some);
        assert(false);
    }
    if b2.len() < b1.len() {
        assert(b1.subrange(0, b2.len() as int) =~= b2);
        assert(inflate_sim(b1.subrange(0, b2.len() as int)).1 is None);
        assert(inflate_sim(b2).1 is Some);
        assert(false);
    }
    assert(b1 =~= b2);
    assert(s1 == inflate_sim(b1).0);
    assert(s1 == s2);
    assert(k == m.len());
    let t = trailer_for(c, s1);
    assert(m.subrange(0, k as int) =~= m);
    assert(m.subrange(m.len() - 4, m.len() as int) =~= t);
    crate::format::lemma_word_be_roundtrip(adler32_of(s1));
    assert(m[m.len() - 4] == t[0]);
    assert(m[m.len() - 3] == t[1]);
    assert(m[m.len() - 2] == t[2]);
    assert(m[m.len() - 1] == t[3]);
    assert(word_be(m[m.len() - 4], m[m.len() - 3], m[m.len() - 2], m[m.len() - 1]) == adler32_of(
        s1,
    ));
}


/// Prepending one complete member to a concatenation of members yields a
/// concatenation whose contents are prepended alike: successive flushed
/// streams decode back to back.
pub proof fn lemma_members_concat(c: Codec, m1: Seq<u8>, s1: Seq<u8>, m2: Seq<u8>, s2: Seq<u8>)
    requires
        member_wraps(c, m1, s1),
        members_wrap(c, m2, s2),
    ensures
        members_wrap(c, m1 + m2, s1 + s2),
{
    let n = choose|n: nat| members_wrap_n(c, m2, s2, n);
    assert(members_wrap_n(c, m2, s2, n));
    let m = m1 + m2;
    let b = choose|b: Seq<u8>|
        #![auto]
        deflate_stream_for(b, s1) && m1 == header_of(c) + b + trailer_for(c, s1);
    assert(m1.len() >= 1);
    assert(m.subrange(0, m1.len() as int) =~= m1);
    assert(m.skip(m1.len() as int) =~= m2);
    assert(members_wrap_n(c, m, s1 + s2, n + 1)) by {
        assert({
            &&& 1 <= m1.len() as int <= m.len()
            &&& member_wraps(c, m.subrange(0, m1.len() as int), s1)
            &&& members_wrap_n(c, m.skip(m1.len() as int), s2, ((n + 1) - 1) as nat)
            &&& s1 + s2 == s1 + s2
        });
    }
}

/// The empty sequence is a concatenation of no members.
pub proof fn lemma_members_none(c: Codec)
    ensures
        members_wrap(c, Seq::<u8>::empty(), Seq::<u8>::empty()),
{
    assert(members_wrap_n(c, Seq::<u8>::empty(), Seq::<u8>::empty(), 0));
}

/// A member's bytes determine its contents: two decoded results of one
/// member sequence agree. The body split is forced because a terminated
/// deflate stream has no terminated proper prefix.
pub proof fn lemma_member_unique(c: Codec, m: Seq<u8>, s1: Seq<u8>, s2: Seq<u8>)
    requires
        member_wraps(c, m, s1),
        member_wraps(c, m, s2),
    ensures
        s1 == s2,
{
    let b1 = choose|body: Seq<u8>|
        #![auto]
        deflate_stream_for(body, s1) && m == header_of(c) + body + trailer_for(c, s1);
    let b2 = choose|body: Seq<u8>|
        #![auto]
        deflate_stream_for(body, s2) && m == header_of(c) + body + trailer_for(c, s2);
    let h = header_of(c).len() as int;
    let t1 = trailer_for(c, s1).len() as int;
    let t2 = trailer_for(c, s2).len() as int;
    assert(t1 == t2);
    assert(b1.len() == m.len() - h - t1);
    assert(b2.len() == m.len() - h - t2);
    assert(b1 =~= (header_of(c) + b1 + trailer_for(c, s1)).subrange(h, h + b1.len() as int));
    assert(b2 =~= (header_of(c) + b2 + trailer_for(c, s2)).subrange(h, h + b2.len() as int));
    assert(b1 == b2);
    assert(s1 == inflate_sim(b1).0);
    assert(s2 == inflate_sim(b2).0);
}

} // verus!
