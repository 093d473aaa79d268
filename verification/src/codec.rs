//! The decoder in two passes, and the encoder.

use crate::cursor::{get_decimal, get_line, get_u8, peek_u8, skip, Cursor};
use crate::frame::{bytes_as_slice, lemma_array_value, views, Error, Frame, FrameView};
use crate::wire::{
    check_elems, check_spec, crlf, decimal_at, decimal_digits, encoding, encoding_all, lemma_line_end, parse_elems,
    parse_spec,
};
use bytes::Bytes;
use vstd::prelude::*;
use vstd::slice::{slice_subrange, slice_to_vec};
use vstd::utf8::*;

verus! {

/// `String::from_utf8`: the text that the bytes encode, where they are valid
/// UTF-8, and nothing where they are not.
#[verifier::external_body]
pub(crate) fn string_from_utf8(bytes: Vec<u8>) -> (r: Option<String>)
    ensures
        r is Some <==> valid_utf8(bytes@),
        r matches Some(s) ==> s@ == decode_utf8(bytes@),
{
    String::from_utf8(bytes).ok()
}

impl Frame {
    /// Decides whether one whole frame starts at the cursor, without building
    /// it. On success the cursor stands after the frame; otherwise it is back
    /// where it stood, so that the next attempt starts from the same place.
    pub fn check(src: &mut Cursor) -> (r: Result<(), Error>)
        requires
            old(src).wf(),
        ensures
            final(src).wf(),
            final(src).data@ == old(src).data@,
            match check_spec(old(src).data@, old(src).pos as int) {
                Ok(e) => r is Ok && final(src).pos == e && e > old(src).pos,
                Err(x) => r == Err::<(), Error>(x) && final(src).pos == old(src).pos,
            },
    {
        let start: usize = src.pos;
        let r = Frame::scan(src);
        match r {
            Ok(_) => {},
            Err(_) => {
                src.pos = start;
            },
        }
        r
    }

    /// The validating pass, which leaves the cursor where it stopped.
    fn scan(src: &mut Cursor) -> (r: Result<(), Error>)
        requires
            old(src).wf(),
        ensures
            final(src).wf(),
            final(src).data@ == old(src).data@,
            match check_spec(old(src).data@, old(src).pos as int) {
                Ok(e) => r is Ok && final(src).pos == e && e > old(src).pos,
                Err(x) => r == Err::<(), Error>(x),
            },
        decreases old(src).data@.len() - old(src).pos,
    {
        let ghost s = src.data@;
        let ghost start = src.pos as int;
        let tag = match get_u8(src) {
            Ok(b) => b,
            Err(e) => {
                return Err(e);
            },
        };
        proof {
            lemma_line_end(s, start + 1);
        }
        if tag == 43 || tag == 45 {
            match get_line(src) {
                Ok(_) => Ok(()),
                Err(e) => Err(e),
            }
        } else if tag == 58 {
            match get_decimal(src) {
                Ok(_) => Ok(()),
                Err(e) => Err(e),
            }
        } else if tag == 36 {
            let next = match peek_u8(src) {
                Ok(b) => b,
                Err(e) => {
                    return Err(e);
                },
            };
            if next == 45 {
                skip(src, 4)
            } else {
                let n: u64 = match get_decimal(src) {
                    Ok(n) => n,
                    Err(e) => {
                        return Err(e);
                    },
                };
                let rem: usize = src.remaining();
                if (rem as u64) < n || (rem as u64) - n < 2 {
                    return Err(Error::Incomplete);
                }
                skip(src, (n + 2) as usize)
            }
        } else if tag == 42 {
            let n: u64 = match get_decimal(src) {
                Ok(n) => n,
                Err(e) => {
                    return Err(e);
                },
            };
            let ghost first = src.pos as int;
            let mut i: u64 = 0;
            while i < n
                invariant
                    src.wf(),
                    src.data@ == s,
                    s == old(src).data@,
                    start == old(src).pos,
                    i <= n,
                    start < first <= src.pos,
                    0 <= start < s.len(),
                    s[start] == 42,
                    decimal_at(s, start + 1) == Ok::<(u64, int), Error>((n, first)),
                    check_elems(s, first, n as nat) == check_elems(s, src.pos as int, (n - i) as nat),
                decreases n - i,
            {
                match Frame::scan(src) {
                    Ok(_) => {},
                    Err(e) => {
                        return Err(e);
                    },
                }
                i = i + 1;
            }
            Ok(())
        } else {
            Err(Error::Invalid)
        }
    }

    /// Builds the frame that starts at the cursor. On success the cursor
    /// stands after the frame; otherwise it is back where it stood.
    pub fn parse(src: &mut Cursor) -> (r: Result<Frame, Error>)
        requires
            old(src).wf(),
        ensures
            final(src).wf(),
            final(src).data@ == old(src).data@,
            match parse_spec(old(src).data@, old(src).pos as int) {
                Ok((v, e)) => r is Ok && r->Ok_0@ == v && final(src).pos == e && e > old(src).pos,
                Err(x) => r is Err && r->Err_0 == x && final(src).pos == old(src).pos,
            },
    {
        let start: usize = src.pos;
        let r = Frame::build(src);
        match r {
            Ok(_) => {},
            Err(_) => {
                src.pos = start;
            },
        }
        r
    }

    /// The building pass, which leaves the cursor where it stopped.
    #[verifier::rlimit(80)]
    #[verifier::spinoff_prover]
    fn build(src: &mut Cursor) -> (r: Result<Frame, Error>)
        requires
            old(src).wf(),
        ensures
            final(src).wf(),
            final(src).data@ == old(src).data@,
            match parse_spec(old(src).data@, old(src).pos as int) {
                Ok((v, e)) => r is Ok && r->Ok_0@ == v && final(src).pos == e && e > old(src).pos,
                Err(x) => r is Err && r->Err_0 == x,
            },
        decreases old(src).data@.len() - old(src).pos,
    {
        let ghost s = src.data@;
        let ghost start = src.pos as int;
        let tag = match get_u8(src) {
            Ok(b) => b,
            Err(e) => {
                return Err(e);
            },
        };
        proof {
            lemma_line_end(s, start + 1);
        }
        if tag == 43 || tag == 45 {
            let line = match get_line(src) {
                Ok(line) => line,
                Err(e) => {
                    return Err(e);
                },
            };
            match string_from_utf8(slice_to_vec(line)) {
                Some(text) => if tag == 43 {
                    Ok(Frame::Simple(text))
                } else {
                    Ok(Frame::Error(text))
                },
                None => Err(Error::Invalid),
            }
        } else if tag == 58 {
            match get_decimal(src) {
                Ok(v) => Ok(Frame::Integer(v)),
                Err(e) => Err(e),
            }
        } else if tag == 36 {
            let next = match peek_u8(src) {
                Ok(b) => b,
                Err(e) => {
                    return Err(e);
                },
            };
            if next == 45 {
                let p: usize = src.pos;
                let end: usize = src.data.len();
                if end - p < 4 {
                    return Err(Error::Incomplete);
                }
                if src.data[p + 1] == 49 && src.data[p + 2] == 13 && src.data[p + 3] == 10 {
                    src.pos = p + 4;
                    Ok(Frame::Null)
                } else {
                    Err(Error::Invalid)
                }
            } else {
                let n: u64 = match get_decimal(src) {
                    Ok(n) => n,
                    Err(e) => {
                        return Err(e);
                    },
                };
                let p: usize = src.pos;
                let rem: usize = src.data.len() - p;
                if (rem as u64) < n || (rem as u64) - n < 2 {
                    return Err(Error::Incomplete);
                }
                let len: usize = n as usize;
                let data = Bytes::copy_from_slice(slice_subrange(src.data, p, p + len));
                src.pos = p + len + 2;
                Ok(Frame::Bulk(data))
            }
        } else if tag == 42 {
            let n: u64 = match get_decimal(src) {
                Ok(n) => n,
                Err(e) => {
                    return Err(e);
                },
            };
            let ghost first = src.pos as int;
            let mut out: Vec<Box<Frame>> = Vec::new();
            let mut i: u64 = 0;
            while i < n
                invariant
                    src.wf(),
                    src.data@ == s,
                    s == old(src).data@,
                    start == old(src).pos,
                    i <= n,
                    start < first <= src.pos,
                    0 <= start < s.len(),
                    s[start] == 42,
                    decimal_at(s, start + 1) == Ok::<(u64, int), Error>((n, first)),
                    parse_elems(s, first, n as nat) == prepend(
                        views(out@),
                        parse_elems(s, src.pos as int, (n - i) as nat),
                    ),
                decreases n - i,
            {
                let ghost before = views(out@);
                let ghost here = src.pos as int;
                match Frame::build(src) {
                    Ok(f) => {
                        out.push(Box::new(f));
                        proof {
                            let rest = parse_elems(s, src.pos as int, (n - i - 1) as nat);
                            assert(views(out@) =~= before.push(f@));
                            if let Ok((items, e)) = rest {
                                assert(before + (seq![f@] + items) =~= before.push(f@) + items);
                            }
                        }
                    },
                    Err(e) => {
                        return Err(e);
                    },
                }
                i = i + 1;
            }
            proof {
                lemma_array_value(out);
                assert(views(out@) + Seq::<FrameView>::empty() =~= views(out@));
            }
            Ok(Frame::Array(out))
        } else {
            Err(Error::Invalid)
        }
    }
}

/// Appends the decimal digits of `n` to `out`.
pub fn push_decimal(out: &mut Vec<u8>, n: u64)
    ensures
        final(out)@ == old(out)@ + decimal_digits(n as nat),
    decreases n,
{
    if n >= 10 {
        push_decimal(out, n / 10);
    }
    out.push(48 + (n % 10) as u8);
    assert(out@ =~= old(out)@ + decimal_digits(n as nat));
}

impl Frame {
    /// Appends the wire form of the frame to `out`.
    pub fn encode_into(&self, out: &mut Vec<u8>)
        ensures
            final(out)@ == old(out)@ + encoding(self@),
        decreases self,
    {
        match self {
            Frame::Simple(text) => {
                out.push(43);
                out.extend_from_slice(text.as_str().as_bytes());
                out.push(13);
                out.push(10);
                assert(out@ =~= old(out)@ + encoding(self@));
            },
            Frame::Error(text) => {
                out.push(45);
                out.extend_from_slice(text.as_str().as_bytes());
                out.push(13);
                out.push(10);
                assert(out@ =~= old(out)@ + encoding(self@));
            },
            Frame::Integer(n) => {
                out.push(58);
                push_decimal(out, *n);
                out.push(13);
                out.push(10);
                assert(out@ =~= old(out)@ + encoding(self@));
            },
            Frame::Bulk(bytes) => {
                let payload = bytes_as_slice(bytes);
                out.push(36);
                push_decimal(out, payload.len() as u64);
                out.push(13);
                out.push(10);
                out.extend_from_slice(payload);
                out.push(13);
                out.push(10);
                assert(out@ =~= old(out)@ + encoding(self@));
            },
            Frame::Null => {
                out.push(36);
                out.push(45);
                out.push(49);
                out.push(13);
                out.push(10);
                assert(out@ =~= old(out)@ + encoding(self@));
            },
            Frame::Array(items) => {
                out.push(42);
                push_decimal(out, items.len() as u64);
                out.push(13);
                out.push(10);
                let ghost head = out@;
                let mut i: usize = 0;
                while i < items.len()
                    invariant
                        i <= items@.len(),
                        *self == Frame::Array(*items),
                        out@ == head + encoding_all(views(items@).take(i as int)),
                    decreases items@.len() - i,
                {
                    let item: &Frame = &items[i];
                    proof {
                        vstd::std_specs::vec::axiom_vec_index_decreases(*items, i as int);
                        assert(decreases_to!(*self => self->Array_0));
                    }
                    item.encode_into(out);
                    proof {
                        let all = views(items@);
                        assert(all.take(i + 1).drop_last() =~= all.take(i as int));
                        assert(all.take(i + 1).last() == item@);
                        assert(out@ =~= head + encoding_all(all.take(i + 1)));
                    }
                    i = i + 1;
                }
                proof {
                    lemma_array_value(*items);
                    assert(views(items@).take(items@.len() as int) =~= views(items@));
                    assert(head =~= old(out)@ + seq![42u8] + decimal_digits(items@.len()) + crlf());
                    assert(out@ =~= old(out)@ + encoding(self@));
                }
            },
        }
    }

    /// The wire form of the frame.
    pub fn encode(&self) -> (r: Vec<u8>)
        ensures
            r@ == encoding(self@),
    {
        let mut out: Vec<u8> = Vec::new();
        self.encode_into(&mut out);
        assert(out@ =~= encoding(self@));
        out
    }
}

/// The result of decoding some elements, behind the elements already decoded.
pub open spec fn prepend(done: Seq<FrameView>, rest: Result<(Seq<FrameView>, int), Error>) -> Result<
    (Seq<FrameView>, int),
    Error,
> {
    match rest {
        Ok((items, e)) => Ok((done + items, e)),
        Err(x) => Err(x),
    }
}

} // verus!
