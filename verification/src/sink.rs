//! The capability a session is handed instead of a socket: a sink that takes
//! each chunk of outbound bytes (or each delivered plaintext). A sink
//! remembers, as specification state, the sequence of chunks it has been
//! handed, so a session's contract can say exactly what went out.
use vstd::prelude::*;

use crate::wire::copy_range;

verus! {

/// One-method interface for byte hand-off. Implementors state what `accept`
/// appends to the sequence of chunks received so far.
pub trait Sink {
    /// The chunks handed over so far, oldest first.
    spec fn received(&self) -> Seq<Seq<u8>>;

    /// Hands one chunk over.
    fn accept(&mut self, data: &Vec<u8>)
        ensures
            final(self).received() == old(self).received().push(data@),
    ;
}

/// A sink that simply keeps every chunk: the in-memory transport used by
/// tests and by callers that want the bytes back.
pub struct VecSink {
    pub items: Vec<Vec<u8>>,
}

impl VecSink {
    pub fn new() -> (r: VecSink)
        ensures
            r.received() == Seq::<Seq<u8>>::empty(),
            r.items@.len() == 0,
    {
        let r = VecSink { items: Vec::new() };
        proof {
            assert(r.received() =~= Seq::<Seq<u8>>::empty());
        }
        r
    }
}

impl Sink for VecSink {
    closed spec fn received(&self) -> Seq<Seq<u8>> {
        self.items.deep_view()
    }

    fn accept(&mut self, data: &Vec<u8>) {
        let copy = copy_range(data, 0, data.len());
        proof {
            assert(copy@ =~= data@);
        }
        self.items.push(copy);
        proof {
            let pre = old(self).items.deep_view();
            assert(self.items@.len() == old(self).items@.len() + 1);
            assert forall|i: int| 0 <= i < self.items@.len() implies self.items.deep_view()[i]
                == pre.push(data@)[i] by {
                if i < old(self).items@.len() {
                    assert(self.items@[i] == old(self).items@[i]);
                } else {
                    assert(self.items@[i] == copy);
                }
            }
            assert(self.items.deep_view() =~= pre.push(data@));
        }
    }
}

} // verus!
