//! The bytes read from a stream but not yet decoded, and the decision that the
//! framing loop takes on them.

use crate::cursor::Cursor;
use crate::frame::{Error, Frame, FrameView};
use crate::wire::{check_spec, parse_spec};
use vstd::prelude::*;

verus! {

/// Why a stream yields no further frame.
#[derive(Debug, Clone, Copy, PartialEq, Eq, Structural)]
pub enum ReadError {
    /// The buffered bytes can never begin a frame.
    Malformed,
    /// The stream ended in the middle of a frame.
    ResetByPeer,
}

/// What the buffered bytes amount to.
pub ghost enum Front {
    /// One whole frame, with the number of bytes that it takes.
    Ready(FrameView, int),
    /// Not yet a whole frame.
    Pending,
    /// Never a frame.
    Malformed,
}

/// What stands at the front of `s`: the validating pass decides whether a
/// whole frame is there, the building pass what it is.
pub open spec fn front(s: Seq<u8>) -> Front {
    match check_spec(s, 0) {
        Err(Error::Incomplete) => Front::Pending,
        Err(Error::Invalid) => Front::Malformed,
        Ok(_) => match parse_spec(s, 0) {
            Ok((v, e)) => Front::Ready(v, e),
            Err(_) => Front::Malformed,
        },
    }
}

/// The bytes that were read and not yet decoded.
pub struct ReadBuffer {
    pub bytes: Vec<u8>,
}

impl View for ReadBuffer {
    type V = Seq<u8>;

    open spec fn view(&self) -> Seq<u8> {
        self.bytes@
    }
}

impl ReadBuffer {
    /// An empty buffer.
    pub fn new() -> (r: ReadBuffer)
        ensures
            r@ == Seq::<u8>::empty(),
    {
        ReadBuffer { bytes: Vec::with_capacity(4096) }
    }

    /// Appends what one read brought.
    pub fn extend(&mut self, chunk: &[u8])
        ensures
            final(self)@ == old(self)@ + chunk@,
    {
        self.bytes.extend_from_slice(chunk);
    }

    /// Takes one frame off the front where a whole one is buffered, and
    /// removes exactly its bytes. An unfinished frame leaves the buffer as it
    /// is and yields nothing; so do bytes that can never be a frame, with an error.
    pub fn parse_frame(&mut self) -> (r: Result<Option<Frame>, ReadError>)
        ensures
            match front(old(self)@) {
                Front::Ready(v, e) => r is Ok && r->Ok_0 is Some && r->Ok_0->Some_0@ == v && 0 < e
                    <= old(self)@.len() && final(self)@ == old(self)@.subrange(
                    e,
                    old(self)@.len() as int,
                ),
                Front::Pending => r is Ok && r->Ok_0 is None && final(self)@ == old(self)@,
                Front::Malformed => r is Err && r->Err_0 == ReadError::Malformed && final(self)@
                    == old(self)@,
            },
    {
        let mut probe = Cursor::new(self.bytes.as_slice());
        match Frame::check(&mut probe) {
            Ok(_) => {},
            Err(Error::Incomplete) => {
                return Ok(None);
            },
            Err(Error::Invalid) => {
                return Err(ReadError::Malformed);
            },
        }
        let mut src = Cursor::new(self.bytes.as_slice());
        let parsed = Frame::parse(&mut src);
        let end: usize = src.position();
        match parsed {
            Ok(frame) => {
                let rest = self.bytes.split_off(end);
                self.bytes = rest;
                Ok(Some(frame))
            },
            Err(_) => Err(ReadError::Malformed),
        }
    }

    /// What the end of the stream means: a clean close where nothing is
    /// buffered, a reset in the middle of a frame otherwise.
    pub fn end_of_stream(&self) -> (r: Result<Option<Frame>, ReadError>)
        ensures
            self@.len() == 0 ==> r is Ok && r->Ok_0 is None,
            self@.len() > 0 ==> r is Err && r->Err_0 == ReadError::ResetByPeer,
    {
        if self.bytes.len() == 0 {
            Ok(None)
        } else {
            Err(ReadError::ResetByPeer)
        }
    }
}

} // verus!
