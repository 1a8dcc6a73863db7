//! The packet framer: extracts complete length-prefixed units from the
//! reassembly buffer. A unit is either the peer's 32-byte public key (the
//! sole handshake message) or a packet `length(u16 LE) || ciphertext(length)
//! || tag(16)`. An incomplete unit leaves the buffer exactly as it was, so a
//! caller may feed one byte at a time.
use vstd::prelude::*;

use crate::buffer::ReassemblyBuffer;
use crate::wire::{u16_from_le, u16_from_le_spec};

verus! {

/// The length prefix at the front of `rest`, read little-endian.
pub open spec fn packet_len(rest: Seq<u8>) -> nat
    recommends
        rest.len() >= 2,
{
    u16_from_le_spec(rest[0], rest[1])
}

/// Whether `rest` starts with a complete packet.
pub open spec fn packet_ready(rest: Seq<u8>) -> bool {
    rest.len() >= 2 && rest.len() >= 2 + packet_len(rest) + 16
}

/// The ciphertext of the packet at the front of `rest`.
pub open spec fn packet_ct(rest: Seq<u8>) -> Seq<u8>
    recommends
        packet_ready(rest),
{
    rest.subrange(2, 2 + packet_len(rest) as int)
}

/// The tag of the packet at the front of `rest`.
pub open spec fn packet_tag(rest: Seq<u8>) -> Seq<u8>
    recommends
        packet_ready(rest),
{
    rest.subrange(2 + packet_len(rest) as int, 2 + packet_len(rest) as int + 16)
}

/// What follows the packet at the front of `rest`.
pub open spec fn packet_rest(rest: Seq<u8>) -> Seq<u8>
    recommends
        packet_ready(rest),
{
    rest.skip(2 + packet_len(rest) as int + 16)
}

pub struct PacketFramer {
    buf: ReassemblyBuffer,
}

impl PacketFramer {
    pub closed spec fn wf(&self) -> bool {
        self.buf.wf()
    }

    /// The bytes buffered and not yet consumed.
    pub closed spec fn rest(&self) -> Seq<u8> {
        self.buf.rest()
    }

    /// The bytes buffered as of the last complete extraction.
    pub closed spec fn saved(&self) -> Seq<u8> {
        self.buf.saved()
    }

    pub fn new() -> (r: Self)
        ensures
            r.wf(),
            r.rest() == Seq::<u8>::empty(),
            r.saved() == Seq::<u8>::empty(),
    {
        PacketFramer { buf: ReassemblyBuffer::new() }
    }

    /// Appends raw incoming bytes.
    pub fn feed(&mut self, bytes: &Vec<u8>)
        requires
            old(self).wf(),
        ensures
            final(self).wf(),
            final(self).rest() == old(self).rest() + bytes@,
            final(self).saved() == old(self).saved() + bytes@,
    {
        self.buf.feed(bytes);
    }

    /// Rewinds to the last checkpoint, un-consuming the unit taken since.
    pub fn reset(&mut self)
        requires
            old(self).wf(),
        ensures
            final(self).wf(),
            final(self).rest() == old(self).saved(),
            final(self).saved() == old(self).saved(),
    {
        self.buf.reset();
    }

    /// Takes the peer's 32-byte public key off the buffer, or nothing (and
    /// changes nothing) when fewer than 32 bytes are in.
    pub fn try_take_handshake_message(&mut self) -> (r: Option<Vec<u8>>)
        requires
            old(self).wf(),
        ensures
            final(self).wf(),
            match r {
                Some(pk) => {
                    &&& old(self).rest().len() >= 32
                    &&& pk@ == old(self).rest().take(32)
                    &&& final(self).rest() == old(self).rest().skip(32)
                    &&& final(self).saved() == old(self).rest()
                },
                None => {
                    &&& old(self).rest().len() < 32
                    &&& final(self).rest() == old(self).rest()
                    &&& final(self).saved() == old(self).rest()
                },
            },
    {
        self.buf.mark();
        self.buf.take(32)
    }

    /// Takes a complete packet off the buffer as `(ciphertext, tag)`, or
    /// nothing (and changes nothing) when the buffered bytes fall short of
    /// the length the prefix announces.
    pub fn try_take_packet(&mut self) -> (r: Option<(Vec<u8>, Vec<u8>)>)
        requires
            old(self).wf(),
        ensures
            final(self).wf(),
            match r {
                Some(p) => {
                    &&& packet_ready(old(self).rest())
                    &&& p.0@ == packet_ct(old(self).rest())
                    &&& p.1@ == packet_tag(old(self).rest())
                    &&& final(self).rest() == packet_rest(old(self).rest())
                    &&& final(self).saved() == old(self).rest()
                },
                None => {
                    &&& !packet_ready(old(self).rest())
                    &&& final(self).rest() == old(self).rest()
                    &&& final(self).saved() == old(self).rest()
                },
            },
    {
        self.buf.mark();
        let hdr = match self.buf.take(2) {
            Some(h) => h,
            None => {
                return None;
            },
        };
        let n = u16_from_le(hdr[0], hdr[1]);
        proof {
            assert(old(self).rest()[0] == old(self).rest().take(2)[0]);
            assert(old(self).rest()[1] == old(self).rest().take(2)[1]);
            assert(n == packet_len(old(self).rest()));
        }
        let ct = match self.buf.take(n as usize) {
            Some(c) => c,
            None => {
                self.buf.reset();
                return None;
            },
        };
        let tag = match self.buf.take(16) {
            Some(t) => t,
            None => {
                self.buf.reset();
                return None;
            },
        };
        proof {
            let r0 = old(self).rest();
            let k = packet_len(r0) as int;
            assert(ct@ =~= packet_ct(r0));
            assert(tag@ =~= packet_tag(r0));
            assert(self.rest() =~= packet_rest(r0));
        }
        Some((ct, tag))
    }
}

} // verus!
