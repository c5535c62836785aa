//! What the consumers of a run bring back.
use vstd::prelude::*;

verus! {

/// The bytes and the results of the consumers that have returned so far.
pub struct Gathered<R> {
    pub bytes_consumed: usize,
    pub ret: Vec<(u64, R)>,
}

impl<R> Gathered<R> {
    pub fn new() -> (r: Gathered<R>)
        ensures
            r.bytes_consumed == 0,
            r.ret@ == Seq::<(u64, R)>::empty(),
    {
        Gathered { bytes_consumed: 0, ret: Vec::new() }
    }

    /// Adds what one consumer returned.
    pub fn join(&mut self, bytes: usize, chunks: Vec<(u64, R)>)
        requires
            old(self).bytes_consumed + bytes <= usize::MAX,
        ensures
            final(self).bytes_consumed == old(self).bytes_consumed + bytes,
            final(self).ret@ == old(self).ret@ + chunks@,
    {
        let mut chunks = chunks;
        self.bytes_consumed = self.bytes_consumed + bytes;
        self.ret.append(&mut chunks);
    }
}

} // verus!
