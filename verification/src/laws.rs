//! What holds of the grammar as a whole: decoding undoes encoding, and a
//! frame that arrives in pieces is pending until its last byte is there.

use crate::conn::{front, Front};
use crate::frame::{Error, FrameView};
use crate::wire::{
    all_digits, check_elems, check_spec, crlf, crlf_at, decimal_at, decimal_digits, decimal_value,
    encoding, encoding_all, is_digit, lemma_line_end, line_end, parse_elems,
    parse_spec,
};
use vstd::prelude::*;
use vstd::utf8::*;

verus! {

/// No line terminator stands anywhere in `t`.
pub open spec fn no_crlf(t: Seq<u8>) -> bool {
    forall|i: int| !crlf_at(t, i)
}

/// The values that the wire can carry: text without a line terminator in its
/// bytes, and lengths that a decimal line of 64 bits can state.
pub open spec fn encodable(v: FrameView) -> bool
    decreases v,
{
    match v {
        FrameView::Simple(t) => no_crlf(encode_utf8(t)),
        FrameView::Error(t) => no_crlf(encode_utf8(t)),
        FrameView::Integer(_) => true,
        FrameView::Bulk(b) => b.len() <= u64::MAX,
        FrameView::Null => true,
        FrameView::Array(items) => items.len() <= u64::MAX && forall|i: int|
            0 <= i < items.len() ==> encodable(#[trigger] items[i]),
    }
}

/// `s` is the beginning of `t`.
pub open spec fn is_prefix(s: Seq<u8>, t: Seq<u8>) -> bool {
    s.len() <= t.len() && forall|i: int| 0 <= i < s.len() ==> s[i] == t[i]
}

/// `part` stands in `s` at `pos`.
pub open spec fn stands_at(s: Seq<u8>, pos: int, part: Seq<u8>) -> bool {
    0 <= pos && pos + part.len() <= s.len() && forall|i: int|
        0 <= i < part.len() ==> s[pos + i] == part[i]
}

/// The digits of a number are digits, at least one, and denote the number.
pub proof fn lemma_decimal_digits(n: nat)
    ensures
        decimal_digits(n).len() > 0,
        all_digits(decimal_digits(n)),
        decimal_value(decimal_digits(n)) == n,
    decreases n,
{
    if n < 10 {
        let d = decimal_digits(n);
        assert(d.drop_last() =~= Seq::<u8>::empty());
        assert(decimal_value(d.drop_last()) == 0);
    } else {
        lemma_decimal_digits(n / 10);
        let d = decimal_digits(n);
        assert(d.drop_last() =~= decimal_digits(n / 10));
        assert(d.last() == (48 + n % 10) as u8);
    }
}

/// A line without a terminator inside it, followed by a terminator, ends
/// where the terminator begins.
pub proof fn lemma_line_found(s: Seq<u8>, pos: int, line: Seq<u8>)
    requires
        stands_at(s, pos, line + crlf()),
        no_crlf(line),
    ensures
        line_end(s, pos) == Some(pos + line.len()),
        s.subrange(pos, pos + line.len()) == line,
    decreases line.len(),
{
    let whole = line + crlf();
    assert(s.subrange(pos, pos + line.len()) =~= line) by {
        assert forall|i: int| 0 <= i < line.len() implies s[pos + i] == line[i] by {
            assert(whole[i] == line[i]);
        }
    }
    assert(s[pos + line.len()] == whole[line.len() as int]);
    assert(s[pos + line.len() + 1] == whole[line.len() as int + 1]);
    if line.len() == 0 {
        assert(crlf_at(s, pos));
    } else {
        assert(s[pos] == whole[0]);
        assert(s[pos + 1] == whole[1]);
        if crlf_at(s, pos) {
            if line.len() >= 2 {
                assert(crlf_at(line, 0));
            } else {
                assert(whole[1] == 13);
            }
            assert(false);
        }
        let tail = line.drop_first();
        assert forall|i: int| !crlf_at(tail, i) by {
            if crlf_at(tail, i) {
                assert(crlf_at(line, i + 1));
            }
        }
        assert forall|i: int| 0 <= i < (tail + crlf()).len() implies s[pos + 1 + i] == (tail
            + crlf())[i] by {
            assert(s[pos + (i + 1)] == whole[i + 1]);
        }
        lemma_line_found(s, pos + 1, tail);
    }
}

/// A run of digits holds no line terminator.
pub proof fn lemma_digits_no_crlf(d: Seq<u8>)
    requires
        all_digits(d),
    ensures
        no_crlf(d),
{
    assert forall|i: int| !crlf_at(d, i) by {
        if crlf_at(d, i) {
            assert(is_digit(d[i]));
        }
    }
}

/// The decimal line of a number of 64 bits reads back as that number.
pub proof fn lemma_decimal_found(s: Seq<u8>, pos: int, n: nat)
    requires
        n <= u64::MAX,
        stands_at(s, pos, decimal_digits(n) + crlf()),
    ensures
        decimal_at(s, pos) == Ok::<(u64, int), Error>(
            (n as u64, pos + decimal_digits(n).len() + 2),
        ),
{
    lemma_decimal_digits(n);
    lemma_digits_no_crlf(decimal_digits(n));
    lemma_line_found(s, pos, decimal_digits(n));
}

/// A part of what stands at `pos` stands at its own offset.
pub proof fn lemma_stands_part(s: Seq<u8>, pos: int, a: Seq<u8>, b: Seq<u8>, c: Seq<u8>)
    requires
        stands_at(s, pos, a + b + c),
    ensures
        stands_at(s, pos, a),
        stands_at(s, pos + a.len(), b),
        stands_at(s, pos + a.len() + b.len(), c),
        stands_at(s, pos + a.len(), b + c),
{
    let whole = a + b + c;
    assert forall|i: int| 0 <= i < a.len() implies s[pos + i] == a[i] by {
        assert(whole[i] == a[i]);
    }
    assert forall|i: int| 0 <= i < b.len() implies s[pos + a.len() + i] == b[i] by {
        assert(whole[a.len() + i] == b[i]);
    }
    assert forall|i: int| 0 <= i < c.len() implies s[pos + a.len() + b.len() + i] == c[i] by {
        assert(whole[a.len() + b.len() + i] == c[i]);
    }
    assert forall|i: int| 0 <= i < (b + c).len() implies s[pos + a.len() + i] == (b + c)[i] by {
        assert(whole[a.len() + i] == (b + c)[i]);
    }
}

/// The wire form of some values is that of the first, then that of the others.
pub proof fn lemma_encoding_all_first(items: Seq<FrameView>)
    requires
        items.len() > 0,
    ensures
        encoding_all(items) == encoding(items[0]) + encoding_all(items.drop_first()),
    decreases items.len(),
{
    if items.len() == 1 {
        assert(items.drop_last() =~= Seq::<FrameView>::empty());
        assert(items.drop_first() =~= Seq::<FrameView>::empty());
        assert(encoding_all(items) =~= encoding(items[0]) + encoding_all(items.drop_first()));
    } else {
        lemma_encoding_all_first(items.drop_last());
        assert(items.drop_last().drop_first() =~= items.drop_first().drop_last());
        assert(items.drop_first().last() == items.last());
        assert(items.drop_last()[0] == items[0]);
        assert(encoding_all(items) =~= encoding(items[0]) + encoding_all(items.drop_first()));
    }
}

/// Decoding undoes encoding: where the wire form of an encodable value
/// stands at `pos`, both passes of the decoder find a whole frame there, the
/// building pass gives that value back, and both stop where the wire form ends.
pub proof fn lemma_round_trip_at(s: Seq<u8>, pos: int, v: FrameView)
    requires
        encodable(v),
        stands_at(s, pos, encoding(v)),
    ensures
        parse_spec(s, pos) == Ok::<(FrameView, int), Error>((v, pos + encoding(v).len())),
        check_spec(s, pos) == Ok::<int, Error>(pos + encoding(v).len()),
    decreases v, 0nat,
{
    broadcast use {encode_utf8_decode_utf8, encode_utf8_valid_utf8};

    let enc = encoding(v);
    assert(s[pos + 0] == enc[0]);
    match v {
        FrameView::Simple(t) => {
            lemma_stands_part(s, pos, seq![43u8], encode_utf8(t), crlf());
            lemma_line_found(s, pos + 1, encode_utf8(t));
        },
        FrameView::Error(t) => {
            lemma_stands_part(s, pos, seq![45u8], encode_utf8(t), crlf());
            lemma_line_found(s, pos + 1, encode_utf8(t));
        },
        FrameView::Integer(n) => {
            lemma_stands_part(s, pos, seq![58u8], decimal_digits(n as nat), crlf());
            lemma_decimal_found(s, pos + 1, n as nat);
        },
        FrameView::Bulk(b) => {
            let d = decimal_digits(b.len());
            lemma_decimal_digits(b.len());
            assert(enc =~= (seq![36u8] + (d + crlf()) + (b + crlf())));
            lemma_stands_part(s, pos, seq![36u8], d + crlf(), b + crlf());
            lemma_decimal_found(s, pos + 1, b.len());
            assert(s[pos + 1] == d[0]) by {
                assert(enc[1] == d[0]);
                assert(s[pos + 1] == enc[1]);
            }
            assert(is_digit(d[0]));
            let p = pos + 1 + d.len() + 2;
            assert(s.subrange(p, p + b.len()) =~= b) by {
                assert forall|i: int| 0 <= i < b.len() implies s[p + i] == b[i] by {
                    assert((b + crlf())[i] == b[i]);
                }
            }
        },
        FrameView::Null => {
            assert(s[pos + 1] == enc[1]);
            assert(s[pos + 2] == enc[2]);
            assert(s[pos + 3] == enc[3]);
            assert(s[pos + 4] == enc[4]);
        },
        FrameView::Array(items) => {
            let d = decimal_digits(items.len());
            lemma_decimal_digits(items.len());
            assert(enc =~= (seq![42u8] + (d + crlf()) + encoding_all(items)));
            lemma_stands_part(s, pos, seq![42u8], d + crlf(), encoding_all(items));
            lemma_decimal_found(s, pos + 1, items.len());
            lemma_round_trip_all(s, pos + 1 + d.len() + 2, items);
        },
    }
}

/// Decoding undoes encoding for a run of values, one after the other.
pub proof fn lemma_round_trip_all(s: Seq<u8>, pos: int, items: Seq<FrameView>)
    requires
        forall|i: int| 0 <= i < items.len() ==> encodable(#[trigger] items[i]),
        stands_at(s, pos, encoding_all(items)),
    ensures
        parse_elems(s, pos, items.len()) == Ok::<(Seq<FrameView>, int), Error>(
            (items, pos + encoding_all(items).len()),
        ),
        check_elems(s, pos, items.len()) == Ok::<int, Error>(pos + encoding_all(items).len()),
    decreases items, 1nat,
{
    if items.len() == 0 {
        assert(items =~= Seq::<FrameView>::empty());
    } else {
        let first = items[0];
        let rest = items.drop_first();
        lemma_encoding_all_first(items);
        lemma_stands_part(s, pos, encoding(first), encoding_all(rest), Seq::<u8>::empty());
        assert(encoding(first) + encoding_all(rest) + Seq::<u8>::empty() =~= encoding_all(items));
        lemma_round_trip_at(s, pos, first);
        assert(encoding(first).len() > 0) by {
            lemma_encoding_nonempty(first);
        }
        assert forall|i: int| 0 <= i < rest.len() implies encodable(#[trigger] rest[i]) by {
            assert(rest[i] == items[i + 1]);
        }
        lemma_round_trip_all(s, pos + encoding(first).len(), rest);
        assert(seq![first] + rest =~= items);
    }
}

/// Every wire form begins with its tag.
pub proof fn lemma_encoding_nonempty(v: FrameView)
    ensures
        encoding(v).len() > 0,
{
}

/// Decoding undoes encoding: the wire form of an encodable value, whatever
/// follows it in the buffer, decodes to that value and to nothing more.
pub proof fn lemma_round_trip(v: FrameView, rest: Seq<u8>)
    requires
        encodable(v),
    ensures
        front(encoding(v) + rest) == Front::Ready(v, encoding(v).len() as int),
{
    lemma_round_trip_at(encoding(v) + rest, 0, v);
}

/// A line that ends in a buffer ends at the same place in every longer buffer.
pub proof fn lemma_line_end_extend(s: Seq<u8>, t: Seq<u8>, pos: int)
    requires
        is_prefix(s, t),
        0 <= pos,
        line_end(s, pos) is Some,
    ensures
        line_end(t, pos) == line_end(s, pos),
    decreases s.len() - pos,
{
    if pos + 1 >= s.len() {
    } else if crlf_at(s, pos) {
        assert(crlf_at(t, pos));
    } else {
        assert(!crlf_at(t, pos));
        lemma_line_end_extend(s, t, pos + 1);
    }
}

/// A decimal line that is read or refused in a buffer is read or refused
/// alike in every longer buffer.
pub proof fn lemma_decimal_extend(s: Seq<u8>, t: Seq<u8>, pos: int)
    requires
        is_prefix(s, t),
        0 <= pos,
        decimal_at(s, pos) != Err::<(u64, int), Error>(Error::Incomplete),
    ensures
        decimal_at(t, pos) == decimal_at(s, pos),
        decimal_at(s, pos) matches Ok((_, p)) ==> pos < p <= s.len(),
{
    lemma_line_end(s, pos);
    lemma_line_end_extend(s, t, pos);
    let e = line_end(s, pos)->Some_0;
    assert(s.subrange(pos, e) =~= t.subrange(pos, e));
}

/// More bytes never change a decision: where the validating pass finds a whole
/// frame or refuses the bytes, it does the same, with the same end, on every
/// longer buffer; and a frame that it finds ends inside the buffer.
pub proof fn lemma_check_extend(s: Seq<u8>, t: Seq<u8>, pos: int)
    requires
        is_prefix(s, t),
        check_spec(s, pos) != Err::<int, Error>(Error::Incomplete),
    ensures
        check_spec(t, pos) == check_spec(s, pos),
        check_spec(s, pos) matches Ok(e) ==> pos < e <= s.len(),
    decreases s.len() - pos, 0nat,
{
    assert(0 <= pos < s.len());
    assert(s[pos] == t[pos]);
    if s[pos] == 43 || s[pos] == 45 {
        lemma_line_end(s, pos + 1);
        lemma_line_end_extend(s, t, pos + 1);
    } else if s[pos] == 58 {
        lemma_decimal_extend(s, t, pos + 1);
    } else if s[pos] == 36 {
        assert(s[pos + 1] == t[pos + 1]);
        if s[pos + 1] == 45 {
        } else {
            lemma_decimal_extend(s, t, pos + 1);
        }
    } else if s[pos] == 42 {
        lemma_decimal_extend(s, t, pos + 1);
        match decimal_at(s, pos + 1) {
            Ok((n, p)) => {
                lemma_check_elems_extend(s, t, p, n as nat);
            },
            Err(_) => {},
        }
    } else {
    }
}

/// More bytes never change the decision on a run of frames either.
pub proof fn lemma_check_elems_extend(s: Seq<u8>, t: Seq<u8>, pos: int, n: nat)
    requires
        is_prefix(s, t),
        0 <= pos <= s.len(),
        check_elems(s, pos, n) != Err::<int, Error>(Error::Incomplete),
    ensures
        check_elems(t, pos, n) == check_elems(s, pos, n),
        check_elems(s, pos, n) matches Ok(e) ==> pos <= e <= s.len(),
    decreases s.len() - pos, n,
{
    if n > 0 {
        lemma_check_extend(s, t, pos);
        match check_spec(s, pos) {
            Ok(p) => {
                lemma_check_elems_extend(s, t, p, (n - 1) as nat);
            },
            Err(_) => {},
        }
    }
}

/// How the two passes agree at a position.
pub open spec fn passes_agree(check: Result<int, Error>, parse: Result<(FrameView, int), Error>) -> bool {
    match parse {
        Ok((_, e)) => check == Ok::<int, Error>(e),
        Err(Error::Incomplete) => check == Err::<int, Error>(Error::Incomplete),
        Err(Error::Invalid) => true,
    }
}

/// How the two passes agree on a run of frames.
pub open spec fn runs_agree(check: Result<int, Error>, parse: Result<(Seq<FrameView>, int), Error>) -> bool {
    match parse {
        Ok((_, e)) => check == Ok::<int, Error>(e),
        Err(Error::Incomplete) => check == Err::<int, Error>(Error::Incomplete),
        Err(Error::Invalid) => true,
    }
}

/// The two passes agree: a frame that the building pass gives ends where the
/// validating pass says, and the building pass lacks bytes only where the
/// validating pass does. So after a successful validation the building pass
/// either gives the frame, ending at the same place, or refuses the bytes.
pub proof fn lemma_passes_agree(s: Seq<u8>, pos: int)
    ensures
        passes_agree(check_spec(s, pos), parse_spec(s, pos)),
    decreases s.len() - pos, 0nat,
{
    if pos < 0 || pos >= s.len() {
    } else if s[pos] == 42 {
        match decimal_at(s, pos + 1) {
            Ok((n, p)) => {
                if pos < p <= s.len() {
                    lemma_runs_agree(s, p, n as nat);
                }
            },
            Err(_) => {},
        }
    } else {
    }
}

/// The two passes agree on a run of frames.
pub proof fn lemma_runs_agree(s: Seq<u8>, pos: int, n: nat)
    ensures
        runs_agree(check_elems(s, pos, n), parse_elems(s, pos, n)),
    decreases s.len() - pos, n,
{
    if n > 0 {
        lemma_passes_agree(s, pos);
        match parse_spec(s, pos) {
            Ok((_, p)) => {
                if pos < p <= s.len() {
                    lemma_runs_agree(s, p, (n - 1) as nat);
                }
            },
            Err(_) => {},
        }
    }
}

/// Delivery in pieces: as long as a byte of an encodable value's wire form is
/// missing, the buffer is pending, so nothing is taken from it and no error is
/// raised; with the last byte it holds exactly that value. However the wire
/// form is cut into reads, the frame that comes out is the one that was sent.
pub proof fn lemma_incremental_delivery(v: FrameView, cut: int)
    requires
        encodable(v),
        0 <= cut < encoding(v).len(),
    ensures
        front(encoding(v).take(cut)) == Front::Pending,
        front(encoding(v).take(cut) + encoding(v).skip(cut)) == Front::Ready(
            v,
            encoding(v).len() as int,
        ),
{
    let whole = encoding(v);
    let part = whole.take(cut);
    assert(part + whole.skip(cut) =~= whole);
    lemma_round_trip_at(whole, 0, v);
    if check_spec(part, 0) != Err::<int, Error>(Error::Incomplete) {
        lemma_check_extend(part, whole, 0);
    }
}

/// A buffer that begins with a byte that is no tag is refused by both passes.
pub proof fn lemma_unknown_tag(s: Seq<u8>)
    requires
        s.len() > 0,
        s[0] != 43 && s[0] != 45 && s[0] != 58 && s[0] != 36 && s[0] != 42,
    ensures
        check_spec(s, 0) == Err::<int, Error>(Error::Invalid),
        parse_spec(s, 0) == Err::<(FrameView, int), Error>(Error::Invalid),
        front(s) == Front::Malformed,
{
}

/// A payload whose stated length reaches past the end of the buffer is
/// unfinished, not refused.
pub proof fn lemma_short_payload(s: Seq<u8>, n: u64, p: int)
    requires
        s.len() >= 2,
        s[0] == 36,
        s[1] != 45,
        decimal_at(s, 1) == Ok::<(u64, int), Error>((n, p)),
        s.len() - p < n + 2,
    ensures
        check_spec(s, 0) == Err::<int, Error>(Error::Incomplete),
        parse_spec(s, 0) == Err::<(FrameView, int), Error>(Error::Incomplete),
        front(s) == Front::Pending,
{
}

} // verus!
