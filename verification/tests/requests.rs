use bytes::Bytes;
use respkv::conn::{ReadBuffer, ReadError};
use respkv::frame::Frame;
use respkv::kv::{delivered, find, same_text, Shared};
use respkv::parse::{Parse, ParseError};
use respkv::shutdown::Shutdown;

fn request(parts: &[&[u8]]) -> Frame {
    let mut frame = Frame::array();
    for part in parts {
        frame.push_bulk(Bytes::copy_from_slice(part));
    }
    frame
}

#[test]
fn parse_arity_three_elements() {
    let mut parse = Parse::new(request(&[b"SET", b"foo", b"bar"])).ok().unwrap();
    assert_eq!(parse.next_string(), Ok("SET".to_string()));
    assert_eq!(parse.next_string(), Ok("foo".to_string()));
    assert_eq!(parse.next_bytes(), Ok(Bytes::from_static(b"bar")));
    assert_eq!(parse.finish(), Ok(()));
    assert_eq!(parse.finish(), Ok(()));
}

#[test]
fn parse_arity_trailing_element() {
    let mut parse = Parse::new(request(&[b"SET", b"foo", b"bar"])).ok().unwrap();
    assert_eq!(parse.next_string(), Ok("SET".to_string()));
    assert_eq!(parse.next_bytes(), Ok(Bytes::from_static(b"foo")));
    assert_eq!(parse.finish(), Err(ParseError::Invalid));
}

#[test]
fn parse_needs_an_array() {
    assert!(matches!(Parse::new(Frame::Null), Err(ParseError::Invalid)));
    assert!(matches!(Parse::new(Frame::Integer(1)), Err(ParseError::Invalid)));
    assert!(matches!(
        Parse::new(Frame::Simple("GET".to_string())),
        Err(ParseError::Invalid)
    ));
    assert!(Parse::new(Frame::array()).is_ok());
}

#[test]
fn parse_elements_in_order_with_coercion() {
    let frame = Frame::Array(vec![
        Box::new(Frame::Simple("verb".to_string())),
        Box::new(Frame::Simple("text".to_string())),
        Box::new(Frame::Integer(9)),
        Box::new(Frame::Bulk(Bytes::from_static(b"\xff"))),
        Box::new(Frame::Null),
        Box::new(Frame::Integer(3)),
        Box::new(Frame::Error("e".to_string())),
    ]);
    let mut parse = Parse::new(frame).ok().unwrap();
    assert_eq!(parse.next_string(), Ok("verb".to_string()));
    assert_eq!(parse.next_bytes(), Ok(Bytes::from_static(b"text")));
    assert_eq!(parse.next_int(), Ok(9));
    assert_eq!(parse.next_string(), Err(ParseError::Invalid));
    assert_eq!(parse.next_bytes(), Err(ParseError::Invalid));
    assert_eq!(parse.next_string(), Err(ParseError::Invalid));
    assert_eq!(parse.next(), Ok(Frame::Error("e".to_string())));
    assert_eq!(parse.next(), Err(ParseError::EndOfStream));
    assert_eq!(parse.next_string(), Err(ParseError::EndOfStream));
    assert_eq!(parse.next_bytes(), Err(ParseError::EndOfStream));
    assert_eq!(parse.next_int(), Err(ParseError::EndOfStream));
    assert_eq!(parse.finish(), Ok(()));
}

#[test]
fn next_int_rejects_text() {
    let mut parse = Parse::new(request(&[b"12"])).ok().unwrap();
    assert_eq!(parse.next_int(), Err(ParseError::Invalid));
}

#[test]
fn buffer_yields_frames_one_by_one() {
    let mut buffer = ReadBuffer::new();
    assert_eq!(buffer.parse_frame(), Ok(None));
    assert_eq!(buffer.end_of_stream(), Ok(None));
    buffer.extend(b"+one\r\n:2\r\n$1");
    assert_eq!(buffer.parse_frame(), Ok(Some(Frame::Simple("one".to_string()))));
    assert_eq!(buffer.bytes, b":2\r\n$1".to_vec());
    assert_eq!(buffer.parse_frame(), Ok(Some(Frame::Integer(2))));
    assert_eq!(buffer.parse_frame(), Ok(None));
    assert_eq!(buffer.bytes, b"$1".to_vec());
    assert_eq!(buffer.end_of_stream(), Err(ReadError::ResetByPeer));
}

#[test]
fn buffer_takes_a_frame_in_any_split() {
    let whole = request(&[b"SET", b"foo", b"b\r\nr"]).encode();
    for cut in 1..whole.len() {
        let mut buffer = ReadBuffer::new();
        buffer.extend(&whole[..cut]);
        assert_eq!(buffer.parse_frame(), Ok(None));
        assert_eq!(buffer.bytes, whole[..cut].to_vec());
        buffer.extend(&whole[cut..]);
        assert_eq!(
            buffer.parse_frame(),
            Ok(Some(request(&[b"SET", b"foo", b"b\r\nr"])))
        );
        assert!(buffer.bytes.is_empty());
    }
}

#[test]
fn buffer_takes_a_frame_byte_by_byte() {
    let whole = b"*2\r\n$3\r\nGET\r\n$3\r\nfoo\r\n";
    let mut buffer = ReadBuffer::new();
    for (i, byte) in whole.iter().enumerate() {
        buffer.extend(&[*byte]);
        let got = buffer.parse_frame();
        if i + 1 < whole.len() {
            assert_eq!(got, Ok(None));
        } else {
            assert_eq!(got, Ok(Some(request(&[b"GET", b"foo"]))));
        }
    }
}

#[test]
fn buffer_rejects_what_is_no_frame() {
    let mut buffer = ReadBuffer::new();
    buffer.extend(b"hello\r\n");
    assert_eq!(buffer.parse_frame(), Err(ReadError::Malformed));
    assert_eq!(buffer.bytes, b"hello\r\n".to_vec());
    let mut buffer = ReadBuffer::new();
    buffer.extend(b"+\xff\r\n");
    assert_eq!(buffer.parse_frame(), Err(ReadError::Malformed));
    let mut buffer = ReadBuffer::new();
    buffer.extend(b"$-7\r\n");
    assert_eq!(buffer.parse_frame(), Err(ReadError::Malformed));
}

#[test]
fn bulk_longer_than_the_buffer_is_pending() {
    let mut buffer = ReadBuffer::new();
    buffer.extend(b"$100\r\nabc");
    assert_eq!(buffer.parse_frame(), Ok(None));
}

#[test]
fn store_last_write_wins() {
    let mut store = Shared::new();
    assert_eq!(store.get("k"), None);
    store.set("k".to_string(), Bytes::from_static(b"v1"), None);
    store.set("other".to_string(), Bytes::from_static(b"x"), Some(10));
    store.set("k".to_string(), Bytes::from_static(b"v2"), None);
    assert_eq!(store.get("k"), Some(Bytes::from_static(b"v2")));
    assert_eq!(store.get("other"), Some(Bytes::from_static(b"x")));
    assert_eq!(store.get("K"), None);
}

#[test]
fn publish_reaches_every_subscriber() {
    let mut store = Shared::new();
    assert_eq!(store.publish("c", Bytes::from_static(b"m")), 0);
    let mut first = store.subscribe("c".to_string());
    let mut second = store.subscribe("c".to_string());
    assert_eq!(store.publish("c", Bytes::from_static(b"m")), 2);
    assert_eq!(first.try_recv().ok(), Some(Bytes::from_static(b"m")));
    assert_eq!(second.try_recv().ok(), Some(Bytes::from_static(b"m")));
    assert_eq!(store.publish("d", Bytes::from_static(b"m")), 0);
    drop(first);
    drop(second);
    assert_eq!(store.publish("c", Bytes::from_static(b"m")), 0);
}

#[test]
fn channels_keep_their_senders() {
    let mut store = Shared::new();
    let mut first = store.subscribe("c".to_string());
    store.set("c".to_string(), Bytes::from_static(b"v"), None);
    let mut other = store.subscribe("d".to_string());
    let mut second = store.subscribe("c".to_string());
    store.set("k".to_string(), Bytes::from_static(b"w"), None);
    assert_eq!(store.publish("c", Bytes::from_static(b"m")), 2);
    assert_eq!(first.try_recv().ok(), Some(Bytes::from_static(b"m")));
    assert_eq!(second.try_recv().ok(), Some(Bytes::from_static(b"m")));
    assert!(other.try_recv().is_err());
    assert_eq!(store.publish("d", Bytes::from_static(b"n")), 1);
    assert_eq!(other.try_recv().ok(), Some(Bytes::from_static(b"n")));
    assert!(first.try_recv().is_err());
    assert_eq!(store.get("c"), Some(Bytes::from_static(b"v")));
}

#[test]
fn publish_keeps_the_order() {
    let mut store = Shared::new();
    let mut rx = store.subscribe("c".to_string());
    assert_eq!(store.publish("c", Bytes::from_static(b"1")), 1);
    assert_eq!(store.publish("c", Bytes::from_static(b"2")), 1);
    assert_eq!(rx.try_recv().ok(), Some(Bytes::from_static(b"1")));
    assert_eq!(rx.try_recv().ok(), Some(Bytes::from_static(b"2")));
}

#[test]
fn store_helpers() {
    assert!(same_text("abc", "abc"));
    assert!(!same_text("abc", "abd"));
    assert!(!same_text("abc", "ab"));
    assert!(same_text("", ""));
    let entries = vec![("a".to_string(), 1u8), ("b".to_string(), 2u8)];
    assert_eq!(find(&entries, "b"), Some(1));
    assert_eq!(find(&entries, "c"), None);
    assert_eq!(delivered(Some(3)), 3);
    assert_eq!(delivered(None), 0);
}

#[test]
fn shutdown_flag_is_sticky() {
    let (_tx, rx) = tokio::sync::broadcast::channel::<()>(1);
    let mut shutdown = Shutdown::new(rx);
    assert!(!shutdown.is_shutdown());
    assert!(shutdown.must_wait());
    shutdown.observed();
    assert!(shutdown.is_shutdown());
    assert!(!shutdown.must_wait());
    assert!(!shutdown.must_wait());
    shutdown.observed();
    assert!(shutdown.is_shutdown());
}
