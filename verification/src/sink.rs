use vstd::prelude::*;

use crate::format::StreamError;

verus! {

/// A downstream consumer of produced bytes: accept a byte range fully or
/// fail, and flush internal buffering.
pub trait Sink: Sized {
    /// The bytes the sink has accepted so far.
    spec fn contents(&self) -> Seq<u8>;

    /// Accepts all of `data`, or fails; nothing is promised about the sink's
    /// contents after a failure.
    fn write_all(&mut self, data: &[u8]) -> (r: Result<(), StreamError>)
        ensures
            r is Ok ==> final(self).contents() == old(self).contents() + data@,
    ;

    /// Flushes internal buffering without changing the accepted bytes.
    fn flush(&mut self) -> (r: Result<(), StreamError>)
        ensures
            r is Ok ==> final(self).contents() == old(self).contents(),
    ;
}

/// An in-memory sink collecting everything into a byte vector.
pub struct VecSink {
    pub data: Vec<u8>,
}

impl VecSink {
    pub fn new() -> (r: VecSink)
        ensures
            r.contents() == Seq::<u8>::empty(),
    {
        VecSink { data: Vec::new() }
    }

    /// The collected bytes, consuming the sink.
    pub fn into_vec(self) -> (r: Vec<u8>)
        ensures
            r@ == self.contents(),
    {
        self.data
    }

    /// The collected bytes.
    pub fn as_slice(&self) -> (r: &[u8])
        ensures
            r@ == self.contents(),
    {
        self.data.as_slice()
    }
}

impl Sink for VecSink {
    open spec fn contents(&self) -> Seq<u8> {
        self.data@
    }

    fn write_all(&mut self, data: &[u8]) -> (r: Result<(), StreamError>) {
        let mut i: usize = 0;
        while i < data.len()
            invariant
                i <= data@.len(),
                self.data@ == old(self).data@ + data@.subrange(0, i as int),
            decreases data@.len() - i,
        {
            let x: u8 = data[i];
            self.data.push(x);
            i = i + 1;
            proof {
                assert(old(self).data@ + data@.subrange(0, i as int) =~= (old(self).data@
                    + data@.subrange(0, i - 1)).push(data@[i - 1]));
            }
        }
        proof {
            assert(old(self).data@ + data@.subrange(0, data@.len() as int) =~= old(self).data@
                + data@);
        }
        Ok(())
    }

    fn flush(&mut self) -> (r: Result<(), StreamError>) {
        Ok(())
    }
}

} // verus!
