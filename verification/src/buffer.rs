//! The reassembly buffer: an append-only byte accumulator consumed in FIFO
//! order through a cursor, with a single checkpoint. `mark` records the
//! cursor and `reset` rewinds to it, so a partial read of an incomplete unit
//! can be undone once it turns out that more bytes are needed.
use vstd::prelude::*;

use crate::wire::copy_range;

verus! {

pub struct ReassemblyBuffer {
    data: Vec<u8>,
    cursor: usize,
    marker: usize,
}

impl ReassemblyBuffer {
    /// The checkpoint never lies past the cursor, nor the cursor past the end.
    pub closed spec fn wf(&self) -> bool {
        self.marker <= self.cursor <= self.data@.len()
    }

    /// The bytes not yet consumed.
    pub closed spec fn rest(&self) -> Seq<u8> {
        self.data@.skip(self.cursor as int)
    }

    /// The bytes not yet consumed as of the last checkpoint.
    pub closed spec fn saved(&self) -> Seq<u8> {
        self.data@.skip(self.marker as int)
    }

    pub fn new() -> (r: Self)
        ensures
            r.wf(),
            r.rest() == Seq::<u8>::empty(),
            r.saved() == Seq::<u8>::empty(),
    {
        let r = ReassemblyBuffer { data: Vec::new(), cursor: 0, marker: 0 };
        proof {
            assert(r.rest() =~= Seq::<u8>::empty());
            assert(r.saved() =~= Seq::<u8>::empty());
        }
        r
    }

    /// Appends raw incoming bytes behind whatever is already buffered.
    pub fn feed(&mut self, bytes: &Vec<u8>)
        requires
            old(self).wf(),
        ensures
            final(self).wf(),
            final(self).rest() == old(self).rest() + bytes@,
            final(self).saved() == old(self).saved() + bytes@,
    {
        crate::wire::append_bytes(&mut self.data, bytes);
        proof {
            assert(self.rest() =~= old(self).rest() + bytes@);
            assert(self.saved() =~= old(self).saved() + bytes@);
        }
    }

    /// Sets the checkpoint to the current cursor.
    pub fn mark(&mut self)
        requires
            old(self).wf(),
        ensures
            final(self).wf(),
            final(self).rest() == old(self).rest(),
            final(self).saved() == old(self).rest(),
    {
        self.marker = self.cursor;
    }

    /// Rewinds the cursor to the checkpoint.
    pub fn reset(&mut self)
        requires
            old(self).wf(),
        ensures
            final(self).wf(),
            final(self).rest() == old(self).saved(),
            final(self).saved() == old(self).saved(),
    {
        self.cursor = self.marker;
    }

    /// Consumes the next `n` bytes, or nothing when fewer are buffered.
    pub fn take(&mut self, n: usize) -> (r: Option<Vec<u8>>)
        requires
            old(self).wf(),
        ensures
            final(self).wf(),
            match r {
                Some(v) => {
                    &&& old(self).rest().len() >= n
                    &&& v@ == old(self).rest().take(n as int)
                    &&& final(self).rest() == old(self).rest().skip(n as int)
                    &&& final(self).saved() == old(self).saved()
                },
                None => {
                    &&& old(self).rest().len() < n
                    &&& *final(self) == *old(self)
                },
            },
    {
        if self.data.len() - self.cursor >= n {
            let v = copy_range(&self.data, self.cursor, n);
            self.cursor = self.cursor + n;
            proof {
                assert(v@ =~= old(self).rest().take(n as int));
                assert(self.rest() =~= old(self).rest().skip(n as int));
            }
            Some(v)
        } else {
            None
        }
    }
}

} // verus!
