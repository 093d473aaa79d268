//! A forward-only cursor over the elements of a request frame, with typed extraction.

use crate::codec::string_from_utf8;
use crate::frame::{bytes_as_slice, bytes_contents, frame_value, lemma_array_value, views, Frame, FrameView};
use bytes::Bytes;
use vstd::prelude::*;
use vstd::slice::slice_to_vec;
use vstd::string::StringExecFns;
use vstd::utf8::*;

verus! {

/// The elements of one request that have not been taken yet.
pub struct Parse {
    /// The elements still to come, the next one last.
    pub parts: Vec<Box<Frame>>,
}

/// Why an argument could not be taken.
#[derive(Debug, PartialEq)]
pub enum ParseError {
    /// Every element has been taken already.
    EndOfStream,
    /// The verb names no command.
    UnknownCommand(String),
    /// The request, or the element at hand, has the wrong shape.
    Invalid,
}

/// The mathematical value of a refusal.
pub ghost enum Refusal {
    EndOfStream,
    UnknownCommand(Seq<char>),
    Invalid,
}

impl View for ParseError {
    type V = Refusal;

    open spec fn view(&self) -> Refusal {
        match self {
            ParseError::EndOfStream => Refusal::EndOfStream,
            ParseError::UnknownCommand(verb) => Refusal::UnknownCommand(verb@),
            ParseError::Invalid => Refusal::Invalid,
        }
    }
}

/// The text by which a refusal is reported.
pub open spec fn message_of(e: Refusal) -> Seq<char> {
    match e {
        Refusal::EndOfStream => "ERROR: end of stream"@,
        Refusal::Invalid => "ERROR: invalid"@,
        Refusal::UnknownCommand(verb) => "ERROR: unknown command "@ + verb,
    }
}

impl ParseError {
    /// The text by which the refusal is reported to the peer.
    pub fn message(&self) -> (r: String)
        ensures
            r@ == message_of(self@),
    {
        match self {
            ParseError::EndOfStream => "ERROR: end of stream".to_owned(),
            ParseError::Invalid => "ERROR: invalid".to_owned(),
            ParseError::UnknownCommand(verb) => "ERROR: unknown command ".to_owned().concat(verb.as_str()),
        }
    }
}

/// The text that an element stands for: simple text as it is, a payload
/// decoded as UTF-8.
pub open spec fn text_of(v: FrameView) -> Option<Seq<char>> {
    match v {
        FrameView::Simple(t) => Some(t),
        FrameView::Bulk(b) => if valid_utf8(b) {
            Some(decode_utf8(b))
        } else {
            None
        },
        _ => None,
    }
}

/// The bytes that an element stands for: a payload as it is, simple text
/// encoded as UTF-8.
pub open spec fn payload_of(v: FrameView) -> Option<Seq<u8>> {
    match v {
        FrameView::Simple(t) => Some(encode_utf8(t)),
        FrameView::Bulk(b) => Some(b),
        _ => None,
    }
}

/// The number that an element stands for.
pub open spec fn number_of(v: FrameView) -> Option<u64> {
    match v {
        FrameView::Integer(n) => Some(n),
        _ => None,
    }
}

/// What is left once the first element, if there is one, has been taken.
pub open spec fn without_first(items: Seq<FrameView>) -> Seq<FrameView> {
    if items.len() > 0 {
        items.drop_first()
    } else {
        items
    }
}

impl Parse {
    /// The values of the elements still to come, in the order of the request.
    pub open spec fn remaining(&self) -> Seq<FrameView> {
        Seq::new(
            self.parts@.len(),
            |i: int| frame_value(*self.parts@[self.parts@.len() - 1 - i]),
        )
    }

    /// A cursor before the first element of an array frame; any other frame is invalid.
    pub fn new(frame: Frame) -> (r: Result<Parse, ParseError>)
        ensures
            match frame@ {
                FrameView::Array(items) => r is Ok && r->Ok_0.remaining() == items,
                _ => r is Err && r->Err_0 == ParseError::Invalid,
            },
    {
        let mut array = match frame {
            Frame::Array(array) => array,
            _ => {
                return Err(ParseError::Invalid);
            },
        };
        let ghost orig = array@;
        proof {
            lemma_array_value(array);
        }
        let mut parts: Vec<Box<Frame>> = Vec::new();
        while array.len() > 0
            invariant
                array@.len() + parts@.len() == orig.len(),
                array@ == orig.take(array@.len() as int),
                forall|j: int| 0 <= j < parts@.len() ==> parts@[j] == orig[orig.len() - 1 - j],
            decreases array@.len(),
        {
            match array.pop() {
                Some(item) => {
                    parts.push(item);
                },
                None => {},
            }
        }
        let r = Parse { parts };
        assert(r.remaining() =~= views(orig));
        Ok(r)
    }

    /// Takes the next element.
    pub fn next(&mut self) -> (r: Result<Frame, ParseError>)
        ensures
            match r {
                Ok(f) => old(self).remaining().len() > 0 && f@ == old(self).remaining()[0] && final(self).remaining() == old(self).remaining().drop_first(),
                Err(e) => e == ParseError::EndOfStream && old(self).remaining().len() == 0 && final(self).remaining() == old(self).remaining(),
            },
    {
        match self.parts.pop() {
            Some(item) => {
                assert(self.remaining() =~= old(self).remaining().drop_first());
                Ok(*item)
            },
            None => Err(ParseError::EndOfStream),
        }
    }

    /// Takes the next element as text.
    pub fn next_string(&mut self) -> (r: Result<String, ParseError>)
        ensures
            final(self).remaining() == without_first(old(self).remaining()),
            old(self).remaining().len() == 0 ==> r is Err && r->Err_0 == ParseError::EndOfStream,
            old(self).remaining().len() > 0 ==> match text_of(old(self).remaining()[0]) {
                Some(t) => r is Ok && r->Ok_0@ == t,
                None => r is Err && r->Err_0 == ParseError::Invalid,
            },
    {
        let next = self.next();
        match next {
            Ok(Frame::Simple(s)) => Ok(s),
            Ok(Frame::Bulk(bytes)) => {
                match string_from_utf8(slice_to_vec(bytes_as_slice(&bytes))) {
                    Some(s) => Ok(s),
                    None => Err(ParseError::Invalid),
                }
            },
            Ok(_) => Err(ParseError::Invalid),
            Err(e) => Err(e),
        }
    }

    /// Takes the next element as bytes.
    pub fn next_bytes(&mut self) -> (r: Result<Bytes, ParseError>)
        ensures
            final(self).remaining() == without_first(old(self).remaining()),
            old(self).remaining().len() == 0 ==> r is Err && r->Err_0 == ParseError::EndOfStream,
            old(self).remaining().len() > 0 ==> match payload_of(old(self).remaining()[0]) {
                Some(b) => r is Ok && bytes_contents(r->Ok_0) == b,
                None => r is Err && r->Err_0 == ParseError::Invalid,
            },
    {
        let next = self.next();
        match next {
            Ok(Frame::Simple(s)) => Ok(Bytes::copy_from_slice(s.as_str().as_bytes())),
            Ok(Frame::Bulk(bytes)) => Ok(bytes),
            Ok(_) => Err(ParseError::Invalid),
            Err(e) => Err(e),
        }
    }

    /// Takes the next element as a number.
    pub fn next_int(&mut self) -> (r: Result<u64, ParseError>)
        ensures
            final(self).remaining() == without_first(old(self).remaining()),
            old(self).remaining().len() == 0 ==> r is Err && r->Err_0 == ParseError::EndOfStream,
            old(self).remaining().len() > 0 ==> match number_of(old(self).remaining()[0]) {
                Some(n) => r is Ok && r->Ok_0 == n,
                None => r is Err && r->Err_0 == ParseError::Invalid,
            },
    {
        let next = self.next();
        match next {
            Ok(Frame::Integer(n)) => Ok(n),
            Ok(_) => Err(ParseError::Invalid),
            Err(e) => Err(e),
        }
    }

    /// Succeeds where no element is left; a trailing element is invalid.
    /// Nothing is taken.
    pub fn finish(&mut self) -> (r: Result<(), ParseError>)
        ensures
            final(self).remaining() == old(self).remaining(),
            old(self).remaining().len() == 0 ==> r is Ok,
            old(self).remaining().len() > 0 ==> r is Err && r->Err_0 == ParseError::Invalid,
    {
        if self.parts.len() == 0 {
            Ok(())
        } else {
            Err(ParseError::Invalid)
        }
    }
}

} // verus!
