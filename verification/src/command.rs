//! The commands that a request can ask for, and what each does to the store.

use crate::frame::{bytes_contents, Frame, FrameView};
use crate::kv::{same_text, Shared};
use crate::parse::{payload_of, text_of, Parse, ParseError, Refusal};
use bytes::Bytes;
use vstd::prelude::*;
use vstd::utf8::*;

verus! {

/// One request, with its arguments.
#[derive(Debug, PartialEq)]
pub enum Command {
    /// Reads the value under a key.
    Get(String),
    /// Puts a value under a key.
    Put(String, Bytes),
    /// Sends a message to the receivers of a channel.
    Publish(String, Bytes),
}

/// The mathematical value of a command.
pub ghost enum CommandView {
    Get(Seq<char>),
    Put(Seq<char>, Seq<u8>),
    Publish(Seq<char>, Seq<u8>),
}

impl View for Command {
    type V = CommandView;

    open spec fn view(&self) -> CommandView {
        match self {
            Command::Get(key) => CommandView::Get(key@),
            Command::Put(key, value) => CommandView::Put(key@, bytes_contents(*value)),
            Command::Publish(channel, value) => CommandView::Publish(
                channel@,
                bytes_contents(*value),
            ),
        }
    }
}

/// The element at `i` as text: missing where the request is shorter, invalid
/// where the element stands for no text.
pub open spec fn text_at(items: Seq<FrameView>, i: int) -> Result<Seq<char>, Refusal> {
    if i >= items.len() {
        Err(Refusal::EndOfStream)
    } else {
        match text_of(items[i]) {
            Some(t) => Ok(t),
            None => Err(Refusal::Invalid),
        }
    }
}

/// The element at `i` as bytes.
pub open spec fn payload_at(items: Seq<FrameView>, i: int) -> Result<Seq<u8>, Refusal> {
    if i >= items.len() {
        Err(Refusal::EndOfStream)
    } else {
        match payload_of(items[i]) {
            Some(b) => Ok(b),
            None => Err(Refusal::Invalid),
        }
    }
}

/// A key and a value, from the elements after the verb; a further element is invalid.
pub open spec fn key_and_value(items: Seq<FrameView>) -> Result<(Seq<char>, Seq<u8>), Refusal> {
    match text_at(items, 1) {
        Err(e) => Err(e),
        Ok(key) => match payload_at(items, 2) {
            Err(e) => Err(e),
            Ok(value) => if items.len() > 3 {
                Err(Refusal::Invalid)
            } else {
                Ok((key, value))
            },
        },
    }
}

/// The command that the elements of a request spell: the verb in capitals
/// first, then exactly the arguments that the verb takes.
pub open spec fn command_of(items: Seq<FrameView>) -> Result<CommandView, Refusal> {
    match text_at(items, 0) {
        Err(e) => Err(e),
        Ok(verb) => if verb == "GET"@ {
            match text_at(items, 1) {
                Err(e) => Err(e),
                Ok(key) => if items.len() > 2 {
                    Err(Refusal::Invalid)
                } else {
                    Ok(CommandView::Get(key))
                },
            }
        } else if verb == "SET"@ {
            match key_and_value(items) {
                Err(e) => Err(e),
                Ok((key, value)) => Ok(CommandView::Put(key, value)),
            }
        } else if verb == "PUBLISH"@ {
            match key_and_value(items) {
                Err(e) => Err(e),
                Ok((channel, value)) => Ok(CommandView::Publish(channel, value)),
            }
        } else {
            Err(Refusal::UnknownCommand(verb))
        },
    }
}

/// The command that a request frame spells; a frame that is no array is invalid.
pub open spec fn command_of_frame(request: FrameView) -> Result<CommandView, Refusal> {
    match request {
        FrameView::Array(items) => command_of(items),
        _ => Err(Refusal::Invalid),
    }
}

/// What a command does: the store after it and the reply that it gives.
pub open spec fn applied(c: CommandView, before: Shared, after: Shared, reply: FrameView) -> bool {
    &&& after.channels() == before.channels()
    &&& before.senders_kept_in(after)
    &&& match c {
        CommandView::Get(key) => after@ == before@ && reply == (if before@.contains_key(key) {
            FrameView::Bulk(before@[key])
        } else {
            FrameView::Null
        }),
        CommandView::Put(key, value) => after@ == before@.insert(key, value) && reply
            == FrameView::Simple("OK"@),
        CommandView::Publish(channel, _) => after@ == before@ && reply is Integer && (
        !before.channels().contains(channel) ==> reply == FrameView::Integer(0)),
    }
}

/// The request frame that spells a command: the verb and the arguments, each
/// as a payload.
pub open spec fn request_of(c: CommandView) -> FrameView {
    match c {
        CommandView::Get(key) => FrameView::Array(
            seq![FrameView::Bulk(encode_utf8("GET"@)), FrameView::Bulk(encode_utf8(key))],
        ),
        CommandView::Put(key, value) => FrameView::Array(
            seq![
                FrameView::Bulk(encode_utf8("SET"@)),
                FrameView::Bulk(encode_utf8(key)),
                FrameView::Bulk(value),
            ],
        ),
        CommandView::Publish(channel, value) => FrameView::Array(
            seq![
                FrameView::Bulk(encode_utf8("PUBLISH"@)),
                FrameView::Bulk(encode_utf8(channel)),
                FrameView::Bulk(value),
            ],
        ),
    }
}

/// A command reads back from the request frame that spells it.
pub proof fn lemma_request_round_trip(c: CommandView)
    ensures
        command_of_frame(request_of(c)) == Ok::<CommandView, Refusal>(c),
{
    broadcast use {encode_utf8_decode_utf8, encode_utf8_valid_utf8};

    reveal_strlit("GET");
    reveal_strlit("SET");
    reveal_strlit("PUBLISH");
    let items = request_of(c)->Array_0;
    assert("GET"@[0] != "SET"@[0]);
    assert("GET"@[0] != "PUBLISH"@[0]);
    assert("SET"@[0] != "PUBLISH"@[0]);
    match c {
        CommandView::Get(key) => {
            assert(text_at(items, 0) == Ok::<Seq<char>, Refusal>("GET"@));
            assert(text_at(items, 1) == Ok::<Seq<char>, Refusal>(key));
        },
        CommandView::Put(key, value) => {
            assert(text_at(items, 0) == Ok::<Seq<char>, Refusal>("SET"@));
            assert(text_at(items, 1) == Ok::<Seq<char>, Refusal>(key));
            assert(payload_at(items, 2) == Ok::<Seq<u8>, Refusal>(value));
        },
        CommandView::Publish(channel, value) => {
            assert(text_at(items, 0) == Ok::<Seq<char>, Refusal>("PUBLISH"@));
            assert(text_at(items, 1) == Ok::<Seq<char>, Refusal>(channel));
            assert(payload_at(items, 2) == Ok::<Seq<u8>, Refusal>(value));
        },
    }
}

/// A key and a value from the elements after the verb.
fn two_arguments(parse: &mut Parse, Ghost(items): Ghost<Seq<FrameView>>) -> (r: Result<
    (String, Bytes),
    ParseError,
>)
    requires
        items.len() > 0,
        old(parse).remaining() == items.drop_first(),
    ensures
        match key_and_value(items) {
            Ok((key, value)) => r is Ok && r->Ok_0.0@ == key && bytes_contents(r->Ok_0.1) == value,
            Err(e) => r is Err && r->Err_0@ == e,
        },
{
    let key = match parse.next_string() {
        Ok(key) => key,
        Err(e) => {
            return Err(e);
        },
    };
    assert(parse.remaining() =~= items.skip(2));
    let value = match parse.next_bytes() {
        Ok(value) => value,
        Err(e) => {
            return Err(e);
        },
    };
    assert(parse.remaining() =~= items.skip(3));
    match parse.finish() {
        Ok(_) => Ok((key, value)),
        Err(e) => Err(e),
    }
}

impl Command {
    /// Reads a command off a request frame.
    pub fn from_frame(frame: Frame) -> (r: Result<Command, ParseError>)
        ensures
            match command_of_frame(frame@) {
                Ok(c) => r is Ok && r->Ok_0@ == c,
                Err(e) => r is Err && r->Err_0@ == e,
            },
    {
        let mut parse = match Parse::new(frame) {
            Ok(parse) => parse,
            Err(e) => {
                return Err(e);
            },
        };
        let ghost items = parse.remaining();
        let verb = match parse.next_string() {
            Ok(verb) => verb,
            Err(e) => {
                return Err(e);
            },
        };
        if same_text(verb.as_str(), "GET") {
            let key = match parse.next_string() {
                Ok(key) => key,
                Err(e) => {
                    return Err(e);
                },
            };
            assert(parse.remaining() =~= items.skip(2));
            match parse.finish() {
                Ok(_) => Ok(Command::Get(key)),
                Err(e) => Err(e),
            }
        } else if same_text(verb.as_str(), "SET") {
            match two_arguments(&mut parse, Ghost(items)) {
                Ok((key, value)) => Ok(Command::Put(key, value)),
                Err(e) => Err(e),
            }
        } else if same_text(verb.as_str(), "PUBLISH") {
            match two_arguments(&mut parse, Ghost(items)) {
                Ok((channel, value)) => Ok(Command::Publish(channel, value)),
                Err(e) => Err(e),
            }
        } else {
            Err(ParseError::UnknownCommand(verb))
        }
    }

    /// The request frame that spells the command.
    pub fn into_frame(self) -> (r: Frame)
        ensures
            r@ == request_of(self@),
    {
        let mut frame = Frame::array();
        match self {
            Command::Get(key) => {
                frame.push_bulk(Bytes::copy_from_slice("GET".as_bytes()));
                frame.push_bulk(Bytes::copy_from_slice(key.as_str().as_bytes()));
            },
            Command::Put(key, value) => {
                frame.push_bulk(Bytes::copy_from_slice("SET".as_bytes()));
                frame.push_bulk(Bytes::copy_from_slice(key.as_str().as_bytes()));
                frame.push_bulk(value);
            },
            Command::Publish(channel, value) => {
                frame.push_bulk(Bytes::copy_from_slice("PUBLISH".as_bytes()));
                frame.push_bulk(Bytes::copy_from_slice(channel.as_str().as_bytes()));
                frame.push_bulk(value);
            },
        }
        assert(frame@->Array_0 =~= request_of(self@)->Array_0);
        frame
    }

    /// Carries the command out on the store and gives the reply.
    pub fn apply(self, store: &mut Shared) -> (reply: Frame)
        requires
            old(store).wf(),
        ensures
            final(store).wf(),
            applied(self@, *old(store), *final(store), reply@),
    {
        match self {
            Command::Get(key) => match store.get(key.as_str()) {
                Some(value) => Frame::Bulk(value),
                None => Frame::Null,
            },
            Command::Put(key, value) => {
                store.set(key, value, None);
                Frame::Simple("OK".to_owned())
            },
            Command::Publish(channel, value) => {
                let n: usize = store.publish(channel.as_str(), value);
                Frame::Integer(n as u64)
            },
        }
    }
}

} // verus!
