//! The frame grammar as mathematics: where a line ends, what a decimal line
//! denotes, what a buffer decodes to, and what a value encodes to.

use crate::frame::{Error, FrameView};
use vstd::prelude::*;
use vstd::utf8::*;

verus! {

/// An ASCII decimal digit.
pub open spec fn is_digit(b: u8) -> bool {
    48 <= b <= 57
}

/// Every byte is an ASCII decimal digit.
pub open spec fn all_digits(s: Seq<u8>) -> bool {
    forall|i: int| 0 <= i < s.len() ==> is_digit(#[trigger] s[i])
}

/// The number that a sequence of decimal digits denotes, most significant first.
pub open spec fn decimal_value(s: Seq<u8>) -> nat
    decreases s.len(),
{
    if s.len() == 0 {
        0
    } else {
        decimal_value(s.drop_last()) * 10 + (s.last() - 48) as nat
    }
}

/// A carriage return followed by a line feed stands at `i`.
pub open spec fn crlf_at(s: Seq<u8>, i: int) -> bool {
    0 <= i && i + 1 < s.len() && s[i] == 13 && s[i + 1] == 10
}

/// The index of the first line terminator at or after `pos`, if there is one.
pub open spec fn line_end(s: Seq<u8>, pos: int) -> Option<int>
    decreases s.len() - pos,
{
    if pos < 0 || pos + 1 >= s.len() {
        None
    } else if crlf_at(s, pos) {
        Some(pos)
    } else {
        line_end(s, pos + 1)
    }
}

/// The unsigned decimal line that starts at `pos`: its value and the position
/// after its terminator. A line that is empty, holds a byte that is no digit,
/// or denotes more than 64 bits hold is invalid.
pub open spec fn decimal_at(s: Seq<u8>, pos: int) -> Result<(u64, int), Error> {
    match line_end(s, pos) {
        None => Err(Error::Incomplete),
        Some(e) => {
            let line = s.subrange(pos, e);
            if line.len() > 0 && all_digits(line) && decimal_value(line) <= u64::MAX {
                Ok((decimal_value(line) as u64, e + 2))
            } else {
                Err(Error::Invalid)
            }
        },
    }
}

/// Whether one whole frame starts at `pos`, and where it ends. Text is not
/// decoded and the null marker is skipped without a look at its bytes.
pub open spec fn check_spec(s: Seq<u8>, pos: int) -> Result<int, Error>
    decreases s.len() - pos, 0nat,
{
    if pos < 0 || pos >= s.len() {
        Err(Error::Incomplete)
    } else if s[pos] == 43 || s[pos] == 45 {
        match line_end(s, pos + 1) {
            Some(e) => Ok(e + 2),
            None => Err(Error::Incomplete),
        }
    } else if s[pos] == 58 {
        match decimal_at(s, pos + 1) {
            Ok((_, p)) => Ok(p),
            Err(x) => Err(x),
        }
    } else if s[pos] == 36 {
        if pos + 1 >= s.len() {
            Err(Error::Incomplete)
        } else if s[pos + 1] == 45 {
            if s.len() - (pos + 1) < 4 {
                Err(Error::Incomplete)
            } else {
                Ok(pos + 5)
            }
        } else {
            match decimal_at(s, pos + 1) {
                Ok((n, p)) => if s.len() - p < n + 2 {
                    Err(Error::Incomplete)
                } else {
                    Ok(p + n + 2)
                },
                Err(x) => Err(x),
            }
        }
    } else if s[pos] == 42 {
        match decimal_at(s, pos + 1) {
            Ok((n, p)) => if pos < p <= s.len() {
                check_elems(s, p, n as nat)
            } else {
                Err(Error::Invalid)
            },
            Err(x) => Err(x),
        }
    } else {
        Err(Error::Invalid)
    }
}

/// Whether `n` whole frames follow one another from `pos`, and where the last ends.
pub open spec fn check_elems(s: Seq<u8>, pos: int, n: nat) -> Result<int, Error>
    decreases s.len() - pos, n,
{
    if n == 0 {
        Ok(pos)
    } else {
        match check_spec(s, pos) {
            Ok(p) => if pos < p <= s.len() {
                check_elems(s, p, (n - 1) as nat)
            } else {
                Err(Error::Invalid)
            },
            Err(x) => Err(x),
        }
    }
}

/// The bytes of the null marker after its tag.
pub open spec fn null_marker_at(s: Seq<u8>, p: int) -> bool {
    s[p] == 45 && s[p + 1] == 49 && s[p + 2] == 13 && s[p + 3] == 10
}

/// The frame that starts at `pos`, with the position after it.
pub open spec fn parse_spec(s: Seq<u8>, pos: int) -> Result<(FrameView, int), Error>
    decreases s.len() - pos, 0nat,
{
    if pos < 0 || pos >= s.len() {
        Err(Error::Incomplete)
    } else if s[pos] == 43 || s[pos] == 45 {
        match line_end(s, pos + 1) {
            Some(e) => {
                let line = s.subrange(pos + 1, e);
                if !valid_utf8(line) {
                    Err(Error::Invalid)
                } else if s[pos] == 43 {
                    Ok((FrameView::Simple(decode_utf8(line)), e + 2))
                } else {
                    Ok((FrameView::Error(decode_utf8(line)), e + 2))
                }
            },
            None => Err(Error::Incomplete),
        }
    } else if s[pos] == 58 {
        match decimal_at(s, pos + 1) {
            Ok((v, p)) => Ok((FrameView::Integer(v), p)),
            Err(x) => Err(x),
        }
    } else if s[pos] == 36 {
        if pos + 1 >= s.len() {
            Err(Error::Incomplete)
        } else if s[pos + 1] == 45 {
            if s.len() - (pos + 1) < 4 {
                Err(Error::Incomplete)
            } else if null_marker_at(s, pos + 1) {
                Ok((FrameView::Null, pos + 5))
            } else {
                Err(Error::Invalid)
            }
        } else {
            match decimal_at(s, pos + 1) {
                Ok((n, p)) => if s.len() - p < n + 2 {
                    Err(Error::Incomplete)
                } else {
                    Ok((FrameView::Bulk(s.subrange(p, p + n)), p + n + 2))
                },
                Err(x) => Err(x),
            }
        }
    } else if s[pos] == 42 {
        match decimal_at(s, pos + 1) {
            Ok((n, p)) => if pos < p <= s.len() {
                match parse_elems(s, p, n as nat) {
                    Ok((items, e)) => Ok((FrameView::Array(items), e)),
                    Err(x) => Err(x),
                }
            } else {
                Err(Error::Invalid)
            },
            Err(x) => Err(x),
        }
    } else {
        Err(Error::Invalid)
    }
}

/// The `n` frames that follow one another from `pos`, with the position after the last.
pub open spec fn parse_elems(s: Seq<u8>, pos: int, n: nat) -> Result<(Seq<FrameView>, int), Error>
    decreases s.len() - pos, n,
{
    if n == 0 {
        Ok((Seq::empty(), pos))
    } else {
        match parse_spec(s, pos) {
            Ok((first, p)) => if pos < p <= s.len() {
                match parse_elems(s, p, (n - 1) as nat) {
                    Ok((rest, e)) => Ok((seq![first] + rest, e)),
                    Err(x) => Err(x),
                }
            } else {
                Err(Error::Invalid)
            },
            Err(x) => Err(x),
        }
    }
}

/// The decimal digits of `n`, most significant first, without leading zeros.
pub open spec fn decimal_digits(n: nat) -> Seq<u8>
    decreases n,
{
    if n < 10 {
        seq![(48 + n) as u8]
    } else {
        decimal_digits(n / 10).push((48 + n % 10) as u8)
    }
}

/// The line terminator.
pub open spec fn crlf() -> Seq<u8> {
    seq![13u8, 10u8]
}

/// The wire form of a value.
pub open spec fn encoding(v: FrameView) -> Seq<u8>
    decreases v,
{
    match v {
        FrameView::Simple(t) => seq![43u8] + encode_utf8(t) + crlf(),
        FrameView::Error(t) => seq![45u8] + encode_utf8(t) + crlf(),
        FrameView::Integer(n) => seq![58u8] + decimal_digits(n as nat) + crlf(),
        FrameView::Bulk(b) => seq![36u8] + decimal_digits(b.len()) + crlf() + b + crlf(),
        FrameView::Null => seq![36u8, 45u8, 49u8, 13u8, 10u8],
        FrameView::Array(items) => seq![42u8] + decimal_digits(items.len()) + crlf()
            + encoding_all(items),
    }
}

/// The wire forms of some values, one after the other.
pub open spec fn encoding_all(items: Seq<FrameView>) -> Seq<u8>
    decreases items,
{
    if items.len() == 0 {
        Seq::empty()
    } else {
        encoding_all(items.drop_last()) + encoding(items.last())
    }
}

/// A line found from `pos` ends at or after `pos`, with its terminator inside
/// the buffer, and no terminator stands before it.
pub proof fn lemma_line_end(s: Seq<u8>, pos: int)
    requires
        0 <= pos,
    ensures
        match line_end(s, pos) {
            Some(e) => pos <= e && e + 2 <= s.len() && crlf_at(s, e) && forall|j: int|
                pos <= j < e ==> !crlf_at(s, j),
            None => forall|j: int| pos <= j ==> !crlf_at(s, j),
        },
    decreases s.len() - pos,
{
    if pos < 0 || pos + 1 >= s.len() {
    } else if crlf_at(s, pos) {
    } else {
        lemma_line_end(s, pos + 1);
    }
}

} // verus!
