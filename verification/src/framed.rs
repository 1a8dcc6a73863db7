//! The fixed-length line transport that rides on top of the decrypted byte
//! stream: a parser that cuts the stream into 100-byte frames and a
//! serializer that writes frames back out. Transport plumbing (sockets,
//! event loops) stays with the caller; these two work on plain byte buffers.
use vstd::prelude::*;

use crate::wire::{append_bytes, copy_range};

verus! {

/// One unit of the line protocol: a message, or the end of the stream.
#[derive(Debug, PartialEq, Eq)]
pub enum Frame {
    Message(Vec<u8>),
    Done,
}

/// Cuts 100-byte frames off the front of a buffer.
pub struct Parser;

/// The fixed frame size of the line protocol.
pub const FRAME_SIZE: usize = 100;

impl Parser {
    /// Takes one complete frame off the front of `buf`, or nothing (leaving
    /// `buf` unchanged) when fewer than 100 bytes are in.
    pub fn parse(&mut self, buf: &mut Vec<u8>) -> (r: Option<Frame>)
        ensures
            match r {
                Some(f) => {
                    &&& old(buf)@.len() >= FRAME_SIZE
                    &&& f matches Frame::Message(m) && m@ == old(buf)@.take(FRAME_SIZE as int)
                    &&& final(buf)@ == old(buf)@.skip(FRAME_SIZE as int)
                },
                None => {
                    &&& old(buf)@.len() < FRAME_SIZE
                    &&& final(buf)@ == old(buf)@
                },
            },
    {
        if buf.len() >= FRAME_SIZE {
            let msg = copy_range(buf, 0, FRAME_SIZE);
            let rest = copy_range(buf, FRAME_SIZE, buf.len() - FRAME_SIZE);
            proof {
                assert(msg@ =~= buf@.take(FRAME_SIZE as int));
                assert(rest@ =~= buf@.skip(FRAME_SIZE as int));
            }
            *buf = rest;
            Some(Frame::Message(msg))
        } else {
            None
        }
    }
}

/// Writes frames onto an outbound buffer.
pub struct Serializer;

impl Serializer {
    /// Appends a message frame's bytes to `buf`; the end-of-stream frame
    /// writes nothing.
    pub fn serialize(&mut self, frame: Frame, buf: &mut Vec<u8>)
        ensures
            final(buf)@ == old(buf)@ + (match frame {
                Frame::Message(m) => m@,
                Frame::Done => Seq::<u8>::empty(),
            }),
    {
        match frame {
            Frame::Message(m) => append_bytes(buf, &m),
            Frame::Done => {
                proof {
                    assert(buf@ =~= old(buf)@ + Seq::<u8>::empty());
                }
            },
        }
    }
}

} // verus!
