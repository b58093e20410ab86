use vstd::prelude::*;

use crate::adler::adler32_of;
use crate::engine::inflate_sim;
use crate::format::{
    lemma_fixed_headers_ok, lemma_word_be_injective, lemma_word_be_roundtrip, word_be,
    zlib_header_ok, Codec,
};
use crate::member::{deflate_stream_for, header_of, member_wraps, trailer_for, zlib_trailer_mismatch};

verus! {

/// Checksum enforcement: corrupting any single byte of the additive-checksum
/// trailer of a well-formed zlib member yields a member whose trailer
/// disagrees with the adler-32 of its decoded contents, so decoding it can
/// never silently succeed.
pub proof fn lemma_zlib_trailer_corruption(m: Seq<u8>, s: Seq<u8>, m2: Seq<u8>, i: int)
    requires
        member_wraps(Codec::Zlib, m, s),
        m2.len() == m.len(),
        m.len() - 4 <= i < m.len(),
        m2[i] != m[i],
        forall|j: int| 0 <= j < m.len() && j != i ==> m2[j] == m[j],
    ensures
        zlib_trailer_mismatch(m2),
{
    let body = choose|body: Seq<u8>|
        #![auto]
        deflate_stream_for(body, s) && m == header_of(Codec::Zlib) + body + trailer_for(
            Codec::Zlib,
            s,
        );
    let n = m.len() as int;
    assert(n == 2 + body.len() + 4);
    assert(n >= 7);
    assert(m.subrange(0, 2) =~= header_of(Codec::Zlib));
    assert(m[0] == 0x78 && m[1] == 0x01);
    lemma_fixed_headers_ok();
    assert(m.subrange(2, n - 4) =~= body);
    assert(m.subrange(n - 4, n) =~= trailer_for(Codec::Zlib, s));
    lemma_word_be_roundtrip(adler32_of(s));
    assert(word_be(m[n - 4], m[n - 3], m[n - 2], m[n - 1]) == adler32_of(s));
    assert(m2[0] == m[0] && m2[1] == m[1]);
    assert(m2.subrange(2, n - 4) =~= m.subrange(2, n - 4));
    if word_be(m2[n - 4], m2[n - 3], m2[n - 2], m2[n - 1]) == word_be(
        m[n - 4],
        m[n - 3],
        m[n - 2],
        m[n - 1],
    ) {
        lemma_word_be_injective(
            m2[n - 4],
            m2[n - 3],
            m2[n - 2],
            m2[n - 1],
            m[n - 4],
            m[n - 3],
            m[n - 2],
            m[n - 1],
        );
        assert(false);
    }
    assert(inflate_sim(body).0 == s);
    assert(zlib_trailer_mismatch(m2)) by {
        assert(deflate_stream_for(body, inflate_sim(body).0));
        assert(m2.subrange(2, m2.len() - 4) == body);
        assert(word_be(m2[m2.len() - 4], m2[m2.len() - 3], m2[m2.len() - 2], m2[m2.len() - 1])
            != adler32_of(inflate_sim(body).0));
    }
}

/// Flush idempotence, at the level of the emitted frames: a stream flushed
/// with no pending input is a complete, independently decodable member
/// holding the empty byte sequence, and a second consecutive flush emits a
/// second such member; each decodes to nothing.
pub proof fn lemma_empty_member_decodes_empty(c: Codec, m: Seq<u8>, s: Seq<u8>)
    requires
        member_wraps(c, m, Seq::<u8>::empty()),
        member_wraps(c, m, s),
    ensures
        s == Seq::<u8>::empty(),
{
    crate::member::lemma_member_unique(c, m, Seq::empty(), s);
}

} // verus!
