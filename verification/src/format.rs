use vstd::prelude::*;

verus! {

/// Size of one staging window handed to the block engine per cycle.
pub const BUF_SIZE: usize = 16 * 1024;

/// Container format fixed at construction time.
///
/// `Deflate` is the raw compressed bitstream with no framing; `Zlib` wraps it
/// in a fixed two-byte header and a four-byte big-endian adler-32 trailer
/// verified by the adapter itself; `Gzip` wraps it in a gzip member header and
/// an eight-byte trailer holding a CRC-32 and the input length modulo 2^32.
#[derive(Clone, Copy, Debug, PartialEq, Eq, Structural)]
pub enum Codec {
    Deflate,
    Zlib,
    Gzip,
}

/// Compression effort handed to the block engine.
#[derive(Clone, Copy, Debug, PartialEq, Eq, Structural)]
pub enum CompressionLevel {
    Zero,
    One,
    Three,
}

/// Error taxonomy of the streaming adapters.
#[derive(Clone, Copy, Debug, PartialEq, Eq, Structural)]
pub enum StreamError {
    /// The downstream sink rejected a write or a flush.
    Upstream,
    /// Container header bytes do not match the expected format.
    MalformedHeader,
    /// A trailer checksum or length field disagrees with the decoded data.
    ChecksumMismatch,
    /// The block engine reported corrupt input or stopped making progress.
    Engine,
}

/// The big-endian 32-bit value held by four bytes.
pub open spec fn word_be(b0: u8, b1: u8, b2: u8, b3: u8) -> u32 {
    ((b0 as u32) << 24) | ((b1 as u32) << 16) | ((b2 as u32) << 8) | (b3 as u32)
}

/// The little-endian 32-bit value held by four bytes.
pub open spec fn word_le(b0: u8, b1: u8, b2: u8, b3: u8) -> u32 {
    ((b3 as u32) << 24) | ((b2 as u32) << 16) | ((b1 as u32) << 8) | (b0 as u32)
}

/// The four big-endian bytes of `n`.
pub open spec fn be_bytes(n: u32) -> Seq<u8> {
    seq![(n >> 24) as u8, (n >> 16) as u8, (n >> 8) as u8, n as u8]
}

/// The four little-endian bytes of `n`.
pub open spec fn le_bytes(n: u32) -> Seq<u8> {
    seq![n as u8, (n >> 8) as u8, (n >> 16) as u8, (n >> 24) as u8]
}

/// Reading the four big-endian bytes of `n` gives `n` back.
pub proof fn lemma_word_be_roundtrip(n: u32)
    ensures
        word_be(be_bytes(n)[0], be_bytes(n)[1], be_bytes(n)[2], be_bytes(n)[3]) == n,
{
    assert((((n >> 24) as u8) as u32) << 24 | (((n >> 16) as u8) as u32) << 16 | (((n >> 8) as u8)
        as u32) << 8 | ((n as u8) as u32) == n) by (bit_vector);
}

/// Reading the four little-endian bytes of `n` gives `n` back.
pub proof fn lemma_word_le_roundtrip(n: u32)
    ensures
        word_le(le_bytes(n)[0], le_bytes(n)[1], le_bytes(n)[2], le_bytes(n)[3]) == n,
{
    assert((((n >> 24) as u8) as u32) << 24 | (((n >> 16) as u8) as u32) << 16 | (((n >> 8) as u8)
        as u32) << 8 | ((n as u8) as u32) == n) by (bit_vector);
}

/// Appends the four big-endian bytes of `n`.
pub fn push_be32(v: &mut Vec<u8>, n: u32)
    ensures
        final(v)@ == old(v)@ + be_bytes(n),
{
    let b0: u8 = (n >> 24) as u8;
    let b1: u8 = (n >> 16) as u8;
    let b2: u8 = (n >> 8) as u8;
    let b3: u8 = n as u8;
    v.push(b0);
    v.push(b1);
    v.push(b2);
    v.push(b3);
    assert(final(v)@ =~= old(v)@ + be_bytes(n));
}

/// Appends the four little-endian bytes of `n`.
pub fn push_le32(v: &mut Vec<u8>, n: u32)
    ensures
        final(v)@ == old(v)@ + le_bytes(n),
{
    let b0: u8 = n as u8;
    let b1: u8 = (n >> 8) as u8;
    let b2: u8 = (n >> 16) as u8;
    let b3: u8 = (n >> 24) as u8;
    v.push(b0);
    v.push(b1);
    v.push(b2);
    v.push(b3);
    assert(final(v)@ =~= old(v)@ + le_bytes(n));
}

/// Reads the big-endian 32-bit value held by four bytes.
pub fn read_be32(b0: u8, b1: u8, b2: u8, b3: u8) -> (r: u32)
    ensures
        r == word_be(b0, b1, b2, b3),
{
    ((b0 as u32) << 24) | ((b1 as u32) << 16) | ((b2 as u32) << 8) | (b3 as u32)
}

/// Reads the little-endian 32-bit value held by four bytes.
pub fn read_le32(b0: u8, b1: u8, b2: u8, b3: u8) -> (r: u32)
    ensures
        r == word_le(b0, b1, b2, b3),
{
    ((b3 as u32) << 24) | ((b2 as u32) << 16) | ((b1 as u32) << 8) | (b0 as u32)
}

/// Two four-byte groups agree exactly when their big-endian values agree.
pub proof fn lemma_word_be_injective(a0: u8, a1: u8, a2: u8, a3: u8, b0: u8, b1: u8, b2: u8, b3: u8)
    requires
        word_be(a0, a1, a2, a3) == word_be(b0, b1, b2, b3),
    ensures
        a0 == b0 && a1 == b1 && a2 == b2 && a3 == b3,
{
    assert(((a0 as u32) << 24) | ((a1 as u32) << 16) | ((a2 as u32) << 8) | (a3 as u32)
        == ((b0 as u32) << 24) | ((b1 as u32) << 16) | ((b2 as u32) << 8) | (b3 as u32)
        ==> a0 == b0 && a1 == b1 && a2 == b2 && a3 == b3) by (bit_vector);
}

/// A valid zlib stream header: compression method 8, no preset dictionary,
/// and the byte pair divisible by 31.
pub open spec fn zlib_header_ok(b0: u8, b1: u8) -> bool {
    &&& b0 & 0x0f == 8
    &&& (b0 as int * 256 + b1 as int) % 31 == 0
    &&& b1 & 0x20 == 0
}

/// Checks the two zlib header bytes.
pub fn check_zlib_header(b0: u8, b1: u8) -> (r: bool)
    ensures
        r == zlib_header_ok(b0, b1),
{
    let word: u32 = (b0 as u32) * 256 + (b1 as u32);
    (b0 & 0x0f) == 8 && word % 31 == 0 && (b1 & 0x20) == 0
}

/// The zlib header written by the compressor: method 8, 32 KiB window,
/// check bits making the pair divisible by 31.
pub open spec fn zlib_header() -> Seq<u8> {
    seq![0x78u8, 0x01u8]
}

/// The fixed gzip member header written by the compressor: magic, method 8,
/// no flags, zero mtime, unknown extra flags and operating system.
pub open spec fn gzip_header() -> Seq<u8> {
    seq![0x1fu8, 0x8bu8, 0x08u8, 0x00u8, 0x00u8, 0x00u8, 0x00u8, 0x00u8, 0x00u8, 0xffu8]
}

pub proof fn lemma_fixed_headers_ok()
    ensures
        zlib_header_ok(zlib_header()[0], zlib_header()[1]),
        !gzip_hdr_bad(gzip_header()),
        gzip_hdr_len(gzip_header()) == Some(10int),
{
    assert(0x78u8 & 0x0f == 8) by (bit_vector);
    assert(0x01u8 & 0x20 == 0) by (bit_vector);
    assert((0x78 * 256 + 0x01) % 31 == 0);
    assert(0x00u8 & 0xe0 == 0) by (bit_vector);
    assert(0x00u8 & 0x04 == 0) by (bit_vector);
    assert(0x00u8 & 0x08 == 0) by (bit_vector);
    assert(0x00u8 & 0x10 == 0) by (bit_vector);
    assert(0x00u8 & 0x02 == 0) by (bit_vector);
}

/// Length of the zero-terminated field at the start of `s`, terminator
/// included, if the terminator has arrived.
pub open spec fn zterm_len(s: Seq<u8>) -> Option<int>
    decreases s.len(),
{
    if s.len() == 0 {
        None
    } else if s[0] == 0 {
        Some(1int)
    } else {
        match zterm_len(s.subrange(1, s.len() as int)) {
            Some(n) => Some(1 + n),
            None => None,
        }
    }
}

/// The gzip header bytes seen so far can never begin a valid member header.
pub open spec fn gzip_hdr_bad(s: Seq<u8>) -> bool {
    ||| s.len() >= 1 && s[0] != 0x1f
    ||| s.len() >= 2 && s[1] != 0x8b
    ||| s.len() >= 3 && s[2] != 0x08
    ||| s.len() >= 4 && s[3] & 0xe0 != 0
}

/// End of the optional extra field, starting the scan at offset `i`.
pub open spec fn gz_after_extra(flg: u8, s: Seq<u8>, i: int) -> Option<int> {
    if flg & 0x04 == 0 {
        Some(i)
    } else if s.len() >= i + 2 {
        let n = s[i] as int + 256 * (s[i + 1] as int);
        if s.len() >= i + 2 + n {
            Some(i + 2 + n)
        } else {
            None
        }
    } else {
        None
    }
}

/// End of an optional zero-terminated field starting at offset `i`.
pub open spec fn gz_after_zfield(present: bool, s: Seq<u8>, i: int) -> Option<int> {
    if !present {
        Some(i)
    } else {
        match zterm_len(s.subrange(i, s.len() as int)) {
            Some(n) => Some(i + n),
            None => None,
        }
    }
}

/// End of the optional header checksum field starting at offset `i`.
pub open spec fn gz_after_hcrc(flg: u8, s: Seq<u8>, i: int) -> Option<int> {
    if flg & 0x02 == 0 {
        Some(i)
    } else if s.len() >= i + 2 {
        Some(i + 2)
    } else {
        None
    }
}

/// Total length of the gzip member header at the start of `s`, once all of
/// its fields have arrived.
pub open spec fn gzip_hdr_len(s: Seq<u8>) -> Option<int> {
    if s.len() < 10 {
        None
    } else {
        let flg = s[3];
        match gz_after_extra(flg, s, 10) {
            None => None,
            Some(i1) => match gz_after_zfield(flg & 0x08 != 0, s, i1) {
                None => None,
                Some(i2) => match gz_after_zfield(flg & 0x10 != 0, s, i2) {
                    None => None,
                    Some(i3) => gz_after_hcrc(flg, s, i3),
                },
            },
        }
    }
}

/// Result of scanning a buffered prefix for a complete container header.
pub enum HdrScan {
    /// More bytes are needed before the header can be complete.
    Incomplete,
    /// The bytes can never begin a valid header.
    Bad,
    /// A complete header occupies this many bytes.
    Done(usize),
}

proof fn lemma_zterm_found(t: Seq<u8>, k: int)
    requires
        0 <= k < t.len(),
        t[k] == 0,
        forall|j: int| 0 <= j < k ==> t[j] != 0,
    ensures
        zterm_len(t) == Some(k + 1),
    decreases k,
{
    if k == 0 {
    } else {
        let t1 = t.subrange(1, t.len() as int);
        lemma_zterm_found(t1, k - 1);
    }
}

proof fn lemma_zterm_missing(t: Seq<u8>)
    requires
        forall|j: int| 0 <= j < t.len() ==> t[j] != 0,
    ensures
        zterm_len(t) is None,
    decreases t.len(),
{
    if t.len() > 0 {
        lemma_zterm_missing(t.subrange(1, t.len() as int));
    }
}

/// Finds the first zero byte at or after `start`, if any.
fn find_zero(s: &Vec<u8>, start: usize) -> (r: Option<usize>)
    requires
        start <= s@.len(),
    ensures
        match r {
            Some(k) => {
                &&& start <= k < s@.len()
                &&& s@[k as int] == 0
                &&& forall|j: int| start <= j < k ==> s@[j] != 0
                &&& zterm_len(s@.subrange(start as int, s@.len() as int)) == Some(
                    k - start + 1,
                )
            },
            None => zterm_len(s@.subrange(start as int, s@.len() as int)) is None,
        },
{
    let mut k: usize = start;
    while k < s.len()
        invariant
            start <= k <= s@.len(),
            forall|j: int| start <= j < k ==> s@[j] != 0,
        decreases s@.len() - k,
    {
        if s[k] == 0 {
            proof {
                let t = s@.subrange(start as int, s@.len() as int);
                lemma_zterm_found(t, k - start);
            }
            return Some(k);
        }
        k = k + 1;
    }
    proof {
        lemma_zterm_missing(s@.subrange(start as int, s@.len() as int));
    }
    None
}

/// Scans a buffered prefix of the input for a complete gzip member header.
pub fn scan_gzip_header(s: &Vec<u8>) -> (r: HdrScan)
    ensures
        (r is Bad) == gzip_hdr_bad(s@),
        !gzip_hdr_bad(s@) ==> match r {
            HdrScan::Done(n) => gzip_hdr_len(s@) == Some(n as int),
            HdrScan::Incomplete => gzip_hdr_len(s@) is None,
            HdrScan::Bad => false,
        },
{
    if s.len() >= 1 && s[0] != 0x1f {
        return HdrScan::Bad;
    }
    if s.len() >= 2 && s[1] != 0x8b {
        return HdrScan::Bad;
    }
    if s.len() >= 3 && s[2] != 0x08 {
        return HdrScan::Bad;
    }
    if s.len() >= 4 && s[3] & 0xe0 != 0 {
        return HdrScan::Bad;
    }
    if s.len() < 10 {
        return HdrScan::Incomplete;
    }
    let flg: u8 = s[3];
    let mut i: usize = 10;
    if flg & 0x04 != 0 {
        if s.len() < i + 2 {
            return HdrScan::Incomplete;
        }
        let n: usize = s[i] as usize + 256 * (s[i + 1] as usize);
        if s.len() < i + 2 + n {
            return HdrScan::Incomplete;
        }
        i = i + 2 + n;
    }
    assert(gz_after_extra(flg, s@, 10) == Some(i as int));
    if flg & 0x08 != 0 {
        match find_zero(s, i) {
            Some(k) => {
                i = k + 1;
            },
            None => {
                return HdrScan::Incomplete;
            },
        }
    }
    assert(gz_after_zfield(flg & 0x08 != 0, s@, gz_after_extra(flg, s@, 10).unwrap())
        == Some(i as int));
    if flg & 0x10 != 0 {
        match find_zero(s, i) {
            Some(k) => {
                i = k + 1;
            },
            None => {
                return HdrScan::Incomplete;
            },
        }
    }
    assert(i <= s@.len());
    if flg & 0x02 != 0 {
        if s.len() - i < 2 {
            return HdrScan::Incomplete;
        }
        i = i + 2;
    }
    HdrScan::Done(i)
}

} // verus!
