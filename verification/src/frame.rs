//! The wire-format value type, its grammar as a function on bytes, and the
//! two-pass decoder (validate, then materialise) with the matching encoder.

use bytes::Bytes;
use vstd::prelude::*;
use vstd::utf8::*;

verus! {

/// The payload type of the `bytes` crate, carried through as an opaque value.
#[verifier::external_type_specification]
#[verifier::external_body]
pub struct ExBytes(Bytes);

/// The bytes that a `Bytes` value holds, in order.
pub uninterp spec fn bytes_contents(b: Bytes) -> Seq<u8>;

/// `Bytes::copy_from_slice`: a fresh `Bytes` holding exactly the bytes of `data`.
pub assume_specification[ Bytes::copy_from_slice ](data: &[u8]) -> (r: Bytes)
    ensures
        bytes_contents(r) == data@,
;

/// `Bytes::clone`: the clone holds the same bytes.
pub assume_specification[ <Bytes as Clone>::clone ](b: &Bytes) -> (r: Bytes)
    ensures
        bytes_contents(r) == bytes_contents(*b),
;

/// The `Deref` of `Bytes` to a byte slice: the slice holds the value's bytes.
#[verifier::external_body]
pub(crate) fn bytes_as_slice(b: &Bytes) -> (r: &[u8])
    ensures
        r@ == bytes_contents(*b),
{
    &b[..]
}

/// One value of the wire protocol.
#[derive(Debug, PartialEq)]
pub enum Frame {
    Simple(String),
    Error(String),
    Integer(u64),
    Bulk(Bytes),
    Null,
    Array(Vec<Box<Frame>>),
}

/// Why a buffer does not yield a frame.
#[derive(Debug, Clone, Copy, PartialEq, Eq, Structural)]
pub enum Error {
    /// The buffer ends before the frame does.
    Incomplete,
    /// The bytes present can never begin a frame.
    Invalid,
}

/// The mathematical value of a frame.
pub ghost enum FrameView {
    Simple(Seq<char>),
    Error(Seq<char>),
    Integer(u64),
    Bulk(Seq<u8>),
    Null,
    Array(Seq<FrameView>),
}

/// The value of a frame: text by its characters, a payload by its bytes, an
/// array by the values of its elements in order.
pub open spec fn frame_value(f: Frame) -> FrameView
    decreases f,
{
    match f {
        Frame::Simple(s) => FrameView::Simple(s@),
        Frame::Error(s) => FrameView::Error(s@),
        Frame::Integer(n) => FrameView::Integer(n),
        Frame::Bulk(b) => FrameView::Bulk(bytes_contents(b)),
        Frame::Null => FrameView::Null,
        Frame::Array(v) => FrameView::Array(
            Seq::new(
                v@.len(),
                |i: int|
                    if 0 <= i < v@.len() {
                        frame_value(*v@[i])
                    } else {
                        FrameView::Null
                    },
            ),
        ),
    }
}

impl View for Frame {
    type V = FrameView;

    open spec fn view(&self) -> FrameView {
        frame_value(*self)
    }
}

/// The values of the elements of a vector of frames, in order.
pub open spec fn views(v: Seq<Box<Frame>>) -> Seq<FrameView> {
    Seq::new(v.len(), |i: int| frame_value(*v[i]))
}

/// The value of an array frame is the array of its elements' values.
pub proof fn lemma_array_value(v: Vec<Box<Frame>>)
    ensures
        frame_value(Frame::Array(v)) == FrameView::Array(views(v@)),
{
    assert(frame_value(Frame::Array(v))->Array_0 =~= views(v@));
}

impl Frame {
    /// An array frame without elements.
    pub fn array() -> (r: Frame)
        ensures
            r@ == FrameView::Array(Seq::empty()),
    {
        let v: Vec<Box<Frame>> = Vec::new();
        proof {
            lemma_array_value(v);
            assert(views(v@) =~= Seq::empty());
        }
        Frame::Array(v)
    }

    /// Appends a bulk element holding `bytes` to an array frame.
    pub fn push_bulk(&mut self, bytes: Bytes)
        requires
            *old(self) is Array,
        ensures
            final(self)@ == FrameView::Array(
                old(self)@->Array_0.push(FrameView::Bulk(bytes_contents(bytes))),
            ),
    {
        match self {
            Frame::Array(vec) => {
                let ghost before = vec@;
                proof {
                    lemma_array_value(*vec);
                }
                let item = Box::new(Frame::Bulk(bytes));
                assert(frame_value(*item) == FrameView::Bulk(bytes_contents(bytes)));
                vec.push(item);
                proof {
                    lemma_array_value(*vec);
                    assert(views(vec@) =~= views(before).push(frame_value(*item)));
                }
            },
            _ => {},
        }
    }
}

} // verus!
