use bytes::Bytes;
use respkv::frame::Frame;
use respkv::kv::Shared;
use respkv::server::{
    handle, serve, HandlerAction, HandlerEvent, HandlerState, ServerAction, ServerEvent,
    ServerState,
};

fn get(key: &'static [u8]) -> Frame {
    let mut frame = Frame::array();
    frame.push_bulk(Bytes::from_static(b"GET"));
    frame.push_bulk(Bytes::from_static(key));
    frame
}

#[test]
fn accept_loop_steps() {
    assert_eq!(
        serve(ServerState::Listening, ServerEvent::Accepted),
        (ServerState::Listening, ServerAction::Spawn)
    );
    assert_eq!(
        serve(ServerState::Listening, ServerEvent::AcceptFailed),
        (ServerState::Terminating, ServerAction::Stop)
    );
    assert_eq!(
        serve(ServerState::Listening, ServerEvent::Interrupted),
        (ServerState::Terminating, ServerAction::Stop)
    );
    for event in [ServerEvent::Accepted, ServerEvent::AcceptFailed, ServerEvent::Interrupted] {
        assert_eq!(
            serve(ServerState::Terminating, event),
            (ServerState::Terminating, ServerAction::Stop)
        );
    }
}

#[test]
fn handler_answers_while_running() {
    let mut store = Shared::new();
    store.set("k".to_string(), Bytes::from_static(b"v"), None);
    assert_eq!(
        handle(HandlerState::Running, HandlerEvent::Request(get(b"k")), &mut store),
        (HandlerState::Running, HandlerAction::Reply(Frame::Bulk(Bytes::from_static(b"v"))))
    );
}

#[test]
fn handler_stays_open_on_a_missing_argument_or_an_unknown_verb() {
    let mut store = Shared::new();
    let mut short = Frame::array();
    short.push_bulk(Bytes::from_static(b"GET"));
    assert_eq!(
        handle(HandlerState::Running, HandlerEvent::Request(short), &mut store),
        (
            HandlerState::Running,
            HandlerAction::Reply(Frame::Error("ERROR: end of stream".to_string()))
        )
    );
    let mut unknown = Frame::array();
    unknown.push_bulk(Bytes::from_static(b"FLUSH"));
    assert_eq!(
        handle(HandlerState::Running, HandlerEvent::Request(unknown), &mut store),
        (
            HandlerState::Running,
            HandlerAction::Reply(Frame::Error("ERROR: unknown command FLUSH".to_string()))
        )
    );
}

#[test]
fn handler_closes_on_a_request_of_the_wrong_shape() {
    let mut store = Shared::new();
    assert_eq!(
        handle(HandlerState::Running, HandlerEvent::Request(Frame::Null), &mut store),
        (
            HandlerState::Closed,
            HandlerAction::Reject(Frame::Error("ERROR: invalid".to_string()))
        )
    );
    let mut long = Frame::array();
    long.push_bulk(Bytes::from_static(b"SET"));
    long.push_bulk(Bytes::from_static(b"k"));
    long.push_bulk(Bytes::from_static(b"v"));
    long.push_bulk(Bytes::from_static(b"x"));
    assert_eq!(
        handle(HandlerState::Running, HandlerEvent::Request(long), &mut store),
        (
            HandlerState::Closed,
            HandlerAction::Reject(Frame::Error("ERROR: invalid".to_string()))
        )
    );
    assert_eq!(store.get("k"), None);
    let wrong = Frame::Array(vec![Box::new(Frame::Integer(1))]);
    assert_eq!(
        handle(HandlerState::Running, HandlerEvent::Request(wrong), &mut store),
        (
            HandlerState::Closed,
            HandlerAction::Reject(Frame::Error("ERROR: invalid".to_string()))
        )
    );
}

#[test]
fn handler_ends() {
    let mut store = Shared::new();
    assert_eq!(
        handle(HandlerState::Running, HandlerEvent::PeerClosed, &mut store),
        (HandlerState::Closed, HandlerAction::Finish)
    );
    assert_eq!(
        handle(HandlerState::Running, HandlerEvent::Failed, &mut store),
        (HandlerState::Closed, HandlerAction::Abort)
    );
    assert_eq!(
        handle(HandlerState::Running, HandlerEvent::Shutdown, &mut store),
        (HandlerState::Draining, HandlerAction::Finish)
    );
}

#[test]
fn draining_and_closed_handlers_read_no_request() {
    let mut store = Shared::new();
    let mut set = Frame::array();
    set.push_bulk(Bytes::from_static(b"SET"));
    set.push_bulk(Bytes::from_static(b"k"));
    set.push_bulk(Bytes::from_static(b"v"));
    assert_eq!(
        handle(HandlerState::Draining, HandlerEvent::Request(set), &mut store),
        (HandlerState::Closed, HandlerAction::Finish)
    );
    assert_eq!(store.get("k"), None);
    assert_eq!(
        handle(HandlerState::Closed, HandlerEvent::Failed, &mut store),
        (HandlerState::Closed, HandlerAction::Finish)
    );
    assert_eq!(
        handle(HandlerState::Closed, HandlerEvent::Request(get(b"k")), &mut store),
        (HandlerState::Closed, HandlerAction::Finish)
    );
}
