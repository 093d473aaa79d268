//! A read position over a borrowed buffer, and the token readers of the decoder.

use crate::frame::Error;
use crate::wire::{all_digits, crlf_at, decimal_at, decimal_value, is_digit, lemma_line_end, line_end};
use vstd::prelude::*;
use vstd::slice::slice_subrange;

verus! {

/// A borrowed buffer with a read position in it.
pub struct Cursor<'a> {
    pub data: &'a [u8],
    pub pos: usize,
}

impl<'a> Cursor<'a> {
    /// The position lies inside the buffer or at its end.
    pub open spec fn wf(&self) -> bool {
        self.pos <= self.data@.len()
    }

    /// A cursor at the start of `data`.
    pub fn new(data: &'a [u8]) -> (r: Cursor<'a>)
        ensures
            r.wf(),
            r.data@ == data@,
            r.pos == 0,
    {
        Cursor { data, pos: 0 }
    }

    /// The read position.
    pub fn position(&self) -> (r: usize)
        ensures
            r == self.pos,
    {
        self.pos
    }

    /// How many bytes lie between the position and the end.
    pub fn remaining(&self) -> (r: usize)
        requires
            self.wf(),
        ensures
            r == self.data@.len() - self.pos,
    {
        self.data.len() - self.pos
    }
}

/// `atoi::atoi` at `u64`, on a line of digits: the number that the digits
/// denote, or nothing where it does not fit in 64 bits.
#[verifier::external_body]
fn atoi_u64(line: &[u8]) -> (r: Option<u64>)
    ensures
        line@.len() > 0 && all_digits(line@) ==> (match r {
            Some(v) => v == decimal_value(line@),
            None => decimal_value(line@) > u64::MAX,
        }),
{
    atoi::atoi::<u64>(line)
}

/// The byte at the position, which stays where it is.
pub fn peek_u8(src: &mut Cursor) -> (r: Result<u8, Error>)
    requires
        old(src).wf(),
    ensures
        *final(src) == *old(src),
        r == if old(src).pos < old(src).data@.len() {
            Ok::<u8, Error>(old(src).data@[old(src).pos as int])
        } else {
            Err::<u8, Error>(Error::Incomplete)
        },
{
    if src.pos >= src.data.len() {
        return Err(Error::Incomplete);
    }
    Ok(src.data[src.pos])
}

/// The byte at the position, which moves past it.
pub fn get_u8(src: &mut Cursor) -> (r: Result<u8, Error>)
    requires
        old(src).wf(),
    ensures
        final(src).wf(),
        final(src).data@ == old(src).data@,
        match r {
            Ok(b) => old(src).pos < old(src).data@.len() && b == old(src).data@[old(src).pos as int]
                && final(src).pos == old(src).pos + 1,
            Err(e) => e == Error::Incomplete && old(src).pos == old(src).data@.len() && final(src).pos == old(src).pos,
        },
{
    if src.pos >= src.data.len() {
        return Err(Error::Incomplete);
    }
    let b = src.data[src.pos];
    src.pos = src.pos + 1;
    Ok(b)
}

/// Moves the position `cnt` bytes on, where that many are left.
pub fn skip(src: &mut Cursor, cnt: usize) -> (r: Result<(), Error>)
    requires
        old(src).wf(),
    ensures
        final(src).wf(),
        final(src).data@ == old(src).data@,
        match r {
            Ok(_) => old(src).data@.len() - old(src).pos >= cnt && final(src).pos == old(src).pos
                + cnt,
            Err(e) => e == Error::Incomplete && old(src).data@.len() - old(src).pos < cnt && final(src).pos == old(src).pos,
        },
{
    if src.data.len() - src.pos < cnt {
        return Err(Error::Incomplete);
    }
    src.pos = src.pos + cnt;
    Ok(())
}

/// The bytes from the position up to the next line terminator; the position
/// moves past the terminator. Without a terminator nothing moves.
pub fn get_line<'a>(src: &mut Cursor<'a>) -> (r: Result<&'a [u8], Error>)
    requires
        old(src).wf(),
    ensures
        final(src).wf(),
        final(src).data@ == old(src).data@,
        match line_end(old(src).data@, old(src).pos as int) {
            Some(e) => r is Ok && r->Ok_0@ == old(src).data@.subrange(old(src).pos as int, e)
                && final(src).pos == e + 2,
            None => r is Err && r->Err_0 == Error::Incomplete && final(src).pos == old(src).pos,
        },
{
    let start: usize = src.pos;
    let end: usize = src.data.len();
    let mut i: usize = start;
    while i < end
        invariant
            start <= i <= end,
            end == src.data@.len(),
            src.pos == start,
            start == old(src).pos,
            src.data@ == old(src).data@,
            line_end(src.data@, start as int) == line_end(src.data@, i as int),
        decreases end - i,
    {
        if src.data[i] == 13 && i + 1 < end && src.data[i + 1] == 10 {
            let data: &'a [u8] = src.data;
            assert(crlf_at(data@, i as int));
            assert(line_end(data@, i as int) == Some(i as int));
            src.pos = i + 2;
            return Ok(slice_subrange(data, start, i));
        }
        i = i + 1;
    }
    Err(Error::Incomplete)
}

/// Whether every byte of `line` is an ASCII decimal digit.
pub fn digits_only(line: &[u8]) -> (r: bool)
    ensures
        r == all_digits(line@),
{
    let mut i: usize = 0;
    while i < line.len()
        invariant
            i <= line@.len(),
            forall|j: int| 0 <= j < i ==> is_digit(#[trigger] line@[j]),
        decreases line@.len() - i,
    {
        if line[i] < 48 || line[i] > 57 {
            assert(!is_digit(line@[i as int]));
            return false;
        }
        i = i + 1;
    }
    true
}

/// The unsigned decimal line at the position; the position moves past its
/// terminator wherever a line is found, also where the line is no number.
pub fn get_decimal(src: &mut Cursor) -> (r: Result<u64, Error>)
    requires
        old(src).wf(),
    ensures
        final(src).wf(),
        final(src).data@ == old(src).data@,
        match decimal_at(old(src).data@, old(src).pos as int) {
            Ok((v, p)) => r == Ok::<u64, Error>(v) && final(src).pos == p && p > old(src).pos,
            Err(e) => r == Err::<u64, Error>(e),
        },
        final(src).pos == match line_end(old(src).data@, old(src).pos as int) {
            Some(e) => e + 2,
            None => old(src).pos as int,
        },
{
    proof {
        lemma_line_end(src.data@, src.pos as int);
    }
    let line = match get_line(src) {
        Ok(line) => line,
        Err(e) => {
            return Err(e);
        },
    };
    if line.len() == 0 {
        return Err(Error::Invalid);
    }
    if !digits_only(line) {
        return Err(Error::Invalid);
    }
    match atoi_u64(line) {
        Some(v) => Ok(v),
        None => Err(Error::Invalid),
    }
}

} // verus!
