use vstd::prelude::*;

verus! {

/// Modulus of the adler-32 checksum.
pub const ADLER_MOD: u32 = 65521;

/// Low word of the adler-32 checksum of `s`: one plus the byte sum, modulo 65521.
pub open spec fn adler_a(s: Seq<u8>) -> int
    decreases s.len(),
{
    if s.len() == 0 {
        1
    } else {
        (adler_a(s.drop_last()) + s.last() as int) % 65521
    }
}

/// High word of the adler-32 checksum of `s`: the running sum of low words, modulo 65521.
pub open spec fn adler_b(s: Seq<u8>) -> int
    decreases s.len(),
{
    if s.len() == 0 {
        0
    } else {
        (adler_b(s.drop_last()) + adler_a(s)) % 65521
    }
}

/// The adler-32 checksum of `s`, high word above low word.
pub open spec fn adler32_of(s: Seq<u8>) -> u32 {
    (adler_b(s) * 0x10000 + adler_a(s)) as u32
}

pub proof fn lemma_adler_range(s: Seq<u8>)
    ensures
        0 < adler_a(s) < 65521 || (s.len() > 0 && 0 <= adler_a(s) < 65521),
        0 <= adler_a(s) < 65521,
        0 <= adler_b(s) < 65521,
    decreases s.len(),
{
    if s.len() > 0 {
        lemma_adler_range(s.drop_last());
    }
}

/// Running adler-32 accumulator over the bytes fed to it.
pub struct Adler {
    pub a: u32,
    pub b: u32,
    pub fed: Ghost<Seq<u8>>,
}

impl Adler {
    pub open spec fn wf(&self) -> bool {
        &&& self.a as int == adler_a(self.fed@)
        &&& self.b as int == adler_b(self.fed@)
    }

    pub fn new() -> (r: Adler)
        ensures
            r.wf(),
            r.fed@ == Seq::<u8>::empty(),
    {
        Adler { a: 1, b: 0, fed: Ghost(Seq::empty()) }
    }

    pub fn reset(&mut self)
        ensures
            final(self).wf(),
            final(self).fed@ == Seq::<u8>::empty(),
    {
        self.a = 1;
        self.b = 0;
        self.fed = Ghost(Seq::empty());
    }

    /// Folds `data` into the running checksum.
    pub fn update(&mut self, data: &[u8])
        requires
            old(self).wf(),
        ensures
            final(self).wf(),
            final(self).fed@ == old(self).fed@ + data@,
    {
        proof {
            lemma_adler_range(self.fed@);
        }
        let mut i: usize = 0;
        while i < data.len()
            invariant
                i <= data@.len(),
                self.fed@ == old(self).fed@,
                self.a as int == adler_a(self.fed@ + data@.subrange(0, i as int)),
                self.b as int == adler_b(self.fed@ + data@.subrange(0, i as int)),
                self.a < 65521,
                self.b < 65521,
            decreases data@.len() - i,
        {
            let ghost pre = self.fed@ + data@.subrange(0, i as int);
            let x: u8 = data[i];
            self.a = (self.a + x as u32) % ADLER_MOD;
            self.b = (self.b + self.a) % ADLER_MOD;
            i = i + 1;
            proof {
                let cur = self.fed@ + data@.subrange(0, i as int);
                assert(cur.drop_last() =~= pre);
                assert(cur.last() == data@[i - 1]);
            }
        }
        proof {
            assert(self.fed@ + data@.subrange(0, data@.len() as int) =~= self.fed@ + data@);
        }
        let ghost all = self.fed@ + data@;
        self.fed = Ghost(all);
    }

    /// The adler-32 checksum of everything fed so far.
    pub fn sum(&self) -> (r: u32)
        requires
            self.wf(),
        ensures
            r == adler32_of(self.fed@),
    {
        proof {
            lemma_adler_range(self.fed@);
        }
        self.b * 0x10000 + self.a
    }
}

} // verus!
