use bytes::Bytes;
use respkv::codec::push_decimal;
use respkv::cursor::{digits_only, get_decimal, get_line, get_u8, peek_u8, skip, Cursor};
use respkv::frame::{Error, Frame};

fn parse_all(data: &[u8]) -> (Result<Frame, Error>, usize) {
    let mut src = Cursor::new(data);
    let r = Frame::parse(&mut src);
    (r, src.position())
}

fn check_all(data: &[u8]) -> (Result<(), Error>, usize) {
    let mut src = Cursor::new(data);
    let r = Frame::check(&mut src);
    (r, src.position())
}

#[test]
fn parse_simple_and_error() {
    assert_eq!(parse_all(b"+OK\r\n"), (Ok(Frame::Simple("OK".to_string())), 5));
    assert_eq!(parse_all(b"-ERR no\r\nrest"), (Ok(Frame::Error("ERR no".to_string())), 9));
    assert_eq!(parse_all(b"+\r\n"), (Ok(Frame::Simple(String::new())), 3));
}

#[test]
fn parse_integer() {
    assert_eq!(parse_all(b":0\r\n"), (Ok(Frame::Integer(0)), 4));
    assert_eq!(parse_all(b":0042\r\n"), (Ok(Frame::Integer(42)), 7));
    assert_eq!(
        parse_all(b":18446744073709551615\r\n").0,
        Ok(Frame::Integer(u64::MAX))
    );
}

#[test]
fn parse_integer_rejects_what_is_no_number() {
    assert_eq!(parse_all(b":18446744073709551616\r\n").0, Err(Error::Invalid));
    assert_eq!(parse_all(b":\r\n").0, Err(Error::Invalid));
    assert_eq!(parse_all(b":12a\r\n").0, Err(Error::Invalid));
    assert_eq!(parse_all(b":+12\r\n").0, Err(Error::Invalid));
    assert_eq!(parse_all(b":-1\r\n").0, Err(Error::Invalid));
    assert_eq!(parse_all(b": 1\r\n").0, Err(Error::Invalid));
    assert_eq!(check_all(b":12a\r\n").0, Err(Error::Invalid));
}

#[test]
fn parse_bulk_and_null() {
    assert_eq!(
        parse_all(b"$3\r\nbar\r\n"),
        (Ok(Frame::Bulk(Bytes::from_static(b"bar"))), 9)
    );
    assert_eq!(parse_all(b"$0\r\n\r\n"), (Ok(Frame::Bulk(Bytes::new())), 6));
    assert_eq!(parse_all(b"$-1\r\n"), (Ok(Frame::Null), 5));
    assert_eq!(
        parse_all(b"$4\r\na\r\nb\r\n").0,
        Ok(Frame::Bulk(Bytes::from_static(b"a\r\nb")))
    );
}

#[test]
fn null_marker_is_read_by_the_building_pass_only() {
    assert_eq!(check_all(b"$-2\r\n"), (Ok(()), 5));
    assert_eq!(parse_all(b"$-2\r\n").0, Err(Error::Invalid));
    assert_eq!(check_all(b"$-1\r"), (Err(Error::Incomplete), 0));
    assert_eq!(parse_all(b"$-1\r").0, Err(Error::Incomplete));
}

#[test]
fn parse_array_nested() {
    let (r, end) = parse_all(b"*3\r\n:1\r\n*2\r\n+a\r\n$1\r\nb\r\n$-1\r\n");
    let inner = Frame::Array(vec![
        Box::new(Frame::Simple("a".to_string())),
        Box::new(Frame::Bulk(Bytes::from_static(b"b"))),
    ]);
    let expected = Frame::Array(vec![
        Box::new(Frame::Integer(1)),
        Box::new(inner),
        Box::new(Frame::Null),
    ]);
    assert_eq!(r, Ok(expected));
    assert_eq!(end, 28);
    assert_eq!(parse_all(b"*0\r\n"), (Ok(Frame::Array(vec![])), 4));
}

#[test]
fn unknown_tag_is_invalid() {
    assert_eq!(check_all(b"?what\r\n").0, Err(Error::Invalid));
    assert_eq!(parse_all(b"?what\r\n").0, Err(Error::Invalid));
    assert_eq!(check_all(b"*1\r\n!\r\n"), (Err(Error::Invalid), 0));
    assert_eq!(parse_all(b"*2\r\n:1\r\n:x\r\n"), (Err(Error::Invalid), 0));
}

#[test]
fn short_buffers_are_incomplete() {
    assert_eq!(check_all(b"").0, Err(Error::Incomplete));
    assert_eq!(check_all(b"+OK").0, Err(Error::Incomplete));
    assert_eq!(check_all(b"+OK\r").0, Err(Error::Incomplete));
    assert_eq!(check_all(b"$").0, Err(Error::Incomplete));
    assert_eq!(check_all(b"$10\r\nabc").0, Err(Error::Incomplete));
    assert_eq!(parse_all(b"$10\r\nabc").0, Err(Error::Incomplete));
    assert_eq!(check_all(b"$3\r\nbar\r").0, Err(Error::Incomplete));
    assert_eq!(check_all(b"*2\r\n:1\r\n").0, Err(Error::Incomplete));
    assert_eq!(check_all(b"$18446744073709551615\r\nabc").0, Err(Error::Incomplete));
}

#[test]
fn text_that_is_not_utf8_passes_the_check_and_fails_the_parse() {
    assert_eq!(check_all(b"+\xff\r\n"), (Ok(()), 4));
    assert_eq!(parse_all(b"+\xff\r\n").0, Err(Error::Invalid));
}

#[test]
fn check_stops_where_parse_stops() {
    let data: &[u8] = b"*2\r\n$3\r\nGET\r\n$3\r\nfoo\r\n+next\r\n";
    assert_eq!(check_all(data), (Ok(()), 22));
    assert_eq!(parse_all(data).1, 22);
}

#[test]
fn token_readers() {
    let data: &[u8] = b"ab\r\n12\r\nxyz";
    let mut src = Cursor::new(data);
    assert_eq!(peek_u8(&mut src), Ok(b'a'));
    assert_eq!(src.position(), 0);
    assert_eq!(get_u8(&mut src), Ok(b'a'));
    assert_eq!(src.remaining(), 10);
    assert_eq!(get_line(&mut src), Ok(&b"b"[..]));
    assert_eq!(src.position(), 4);
    assert_eq!(get_decimal(&mut src), Ok(12));
    assert_eq!(src.position(), 8);
    let mut probe = Cursor::new(b"1x\r\nrest");
    assert_eq!(get_decimal(&mut probe), Err(Error::Invalid));
    assert_eq!(probe.position(), 4);
    assert_eq!(skip(&mut src, 4), Err(Error::Incomplete));
    assert_eq!(src.position(), 8);
    assert_eq!(get_line(&mut src), Err(Error::Incomplete));
    assert_eq!(skip(&mut src, 3), Ok(()));
    assert_eq!(peek_u8(&mut src), Err(Error::Incomplete));
    assert_eq!(get_u8(&mut src), Err(Error::Incomplete));
}

#[test]
fn line_with_a_lone_carriage_return_at_the_end() {
    let data: &[u8] = b"abc\r";
    let mut src = Cursor::new(data);
    assert_eq!(get_line(&mut src), Err(Error::Incomplete));
    let data: &[u8] = b"a\rb\r\n";
    let mut src = Cursor::new(data);
    assert_eq!(get_line(&mut src), Ok(&b"a\rb"[..]));
}

#[test]
fn digits() {
    assert!(digits_only(b"0123456789"));
    assert!(digits_only(b""));
    assert!(!digits_only(b"12 "));
    assert!(!digits_only(b"/"));
    assert!(!digits_only(b":"));
    let mut out = vec![b'x'];
    push_decimal(&mut out, 0);
    push_decimal(&mut out, 1028);
    push_decimal(&mut out, u64::MAX);
    assert_eq!(out, b"x0102818446744073709551615".to_vec());
}

#[test]
fn encode_each_variant() {
    assert_eq!(Frame::Simple("OK".to_string()).encode(), b"+OK\r\n".to_vec());
    assert_eq!(Frame::Error("bad".to_string()).encode(), b"-bad\r\n".to_vec());
    assert_eq!(Frame::Integer(1234).encode(), b":1234\r\n".to_vec());
    assert_eq!(Frame::Bulk(Bytes::from_static(b"bar")).encode(), b"$3\r\nbar\r\n".to_vec());
    assert_eq!(Frame::Bulk(Bytes::new()).encode(), b"$0\r\n\r\n".to_vec());
    assert_eq!(Frame::Null.encode(), b"$-1\r\n".to_vec());
    let mut request = Frame::array();
    request.push_bulk(Bytes::from_static(b"GET"));
    request.push_bulk(Bytes::from_static(b"foo"));
    assert_eq!(request.encode(), b"*2\r\n$3\r\nGET\r\n$3\r\nfoo\r\n".to_vec());
    assert_eq!(Frame::array().encode(), b"*0\r\n".to_vec());
}

#[test]
fn encode_then_parse_gives_the_frame_back() {
    let mut request = Frame::array();
    request.push_bulk(Bytes::from_static(b"SET"));
    request.push_bulk(Bytes::from_static(b"\r\n\x00\xff"));
    let frames = vec![
        Frame::Simple("h\u{e9}llo".to_string()),
        Frame::Error("a\rb\nc".to_string()),
        Frame::Integer(u64::MAX),
        Frame::Bulk(Bytes::from_static(b"")),
        Frame::Null,
        Frame::Array(vec![
            Box::new(Frame::Integer(7)),
            Box::new(request),
            Box::new(Frame::Array(vec![])),
            Box::new(Frame::Null),
        ]),
    ];
    for frame in frames {
        let mut wire = frame.encode();
        let len = wire.len();
        wire.extend_from_slice(b"+tail\r\n");
        assert_eq!(check_all(&wire), (Ok(()), len));
        assert_eq!(parse_all(&wire), (Ok(frame), len));
    }
}

#[test]
fn array_builder() {
    let mut frame = Frame::array();
    assert_eq!(frame, Frame::Array(vec![]));
    frame.push_bulk(Bytes::from_static(b"a"));
    frame.push_bulk(Bytes::from_static(b"b"));
    assert_eq!(
        frame,
        Frame::Array(vec![
            Box::new(Frame::Bulk(Bytes::from_static(b"a"))),
            Box::new(Frame::Bulk(Bytes::from_static(b"b"))),
        ])
    );
}
