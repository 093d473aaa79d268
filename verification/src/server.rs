//! The decisions of the accept loop and of the loop that serves one
//! connection, as steps from a state and an event to the next state and an action.

use crate::command::{applied, command_of_frame, Command};
use crate::frame::{Frame, FrameView};
use crate::kv::Shared;
use crate::parse::{message_of, ParseError, Refusal};
use vstd::prelude::*;

verus! {

/// Where the accept loop stands.
#[derive(Debug, Clone, Copy, PartialEq, Eq, Structural)]
pub enum ServerState {
    /// Waiting for connections.
    Listening,
    /// No connection is accepted any more.
    Terminating,
}

/// What happened to the accept loop.
#[derive(Debug, Clone, Copy, PartialEq, Eq, Structural)]
pub enum ServerEvent {
    /// A peer connected.
    Accepted,
    /// Accepting failed for good.
    AcceptFailed,
    /// The shutdown signal arrived.
    Interrupted,
}

/// What the accept loop does next.
#[derive(Debug, Clone, Copy, PartialEq, Eq, Structural)]
pub enum ServerAction {
    /// Hand the new connection to a handler of its own and go on accepting.
    Spawn,
    /// Notify the handlers and stop.
    Stop,
}

/// The next state and action of the accept loop.
pub open spec fn serve_spec(state: ServerState, event: ServerEvent) -> (ServerState, ServerAction) {
    if state == ServerState::Listening && event == ServerEvent::Accepted {
        (ServerState::Listening, ServerAction::Spawn)
    } else {
        (ServerState::Terminating, ServerAction::Stop)
    }
}

/// One step of the accept loop: while listening, every accepted connection
/// is spawned; a failure or the signal ends the listening, for good.
pub fn serve(state: ServerState, event: ServerEvent) -> (r: (ServerState, ServerAction))
    ensures
        r == serve_spec(state, event),
{
    match (state, event) {
        (ServerState::Listening, ServerEvent::Accepted) => (
            ServerState::Listening,
            ServerAction::Spawn,
        ),
        _ => (ServerState::Terminating, ServerAction::Stop),
    }
}

/// Where the loop that serves one connection stands.
#[derive(Debug, Clone, Copy, PartialEq, Eq, Structural)]
pub enum HandlerState {
    /// Reading requests and answering them.
    Running,
    /// Shutdown was seen: no further request is read.
    Draining,
    /// The connection is done.
    Closed,
}

/// What the wait for the next request ended with.
#[derive(Debug, PartialEq)]
pub enum HandlerEvent {
    /// A request arrived.
    Request(Frame),
    /// The peer closed the connection between two frames.
    PeerClosed,
    /// Reading or writing failed, or the bytes were no frame.
    Failed,
    /// The shutdown signal came first.
    Shutdown,
}

/// What the handler does next.
#[derive(Debug, PartialEq)]
pub enum HandlerAction {
    /// Write the reply, then wait for the next request.
    Reply(Frame),
    /// Write the error reply, then end the loop and report the failure to
    /// the caller.
    Reject(Frame),
    /// End the loop without an error.
    Finish,
    /// End the loop and report the failure to the caller.
    Abort,
}

/// One step of a handler. A running handler answers a request against the
/// store and stays running, also where the request lacks an argument or names
/// no command: the reply then says so. A request of the wrong shape is
/// answered with an error reply and closes the connection, and so does a
/// clean close or a failure; shutdown makes the handler drain. A draining
/// handler closes, and a closed one stays closed; neither touches the store.
pub fn handle(state: HandlerState, event: HandlerEvent, store: &mut Shared) -> (r: (
    HandlerState,
    HandlerAction,
))
    requires
        old(store).wf(),
    ensures
        final(store).wf(),
        match (state, event) {
            (HandlerState::Running, HandlerEvent::Request(request)) => match command_of_frame(
                request@,
            ) {
                Ok(c) => r.0 == HandlerState::Running && r.1 is Reply && applied(
                    c,
                    *old(store),
                    *final(store),
                    r.1->Reply_0@,
                ),
                Err(Refusal::Invalid) => r.0 == HandlerState::Closed && r.1 is Reject
                    && r.1->Reject_0@ == FrameView::Error(message_of(Refusal::Invalid))
                    && *final(store) == *old(store),
                Err(e) => r.0 == HandlerState::Running && r.1 is Reply && r.1->Reply_0@
                    == FrameView::Error(message_of(e)) && *final(store) == *old(store),
            },
            (HandlerState::Running, HandlerEvent::PeerClosed) => r.0 == HandlerState::Closed && r.1
                is Finish && *final(store) == *old(store),
            (HandlerState::Running, HandlerEvent::Failed) => r.0 == HandlerState::Closed && r.1
                is Abort && *final(store) == *old(store),
            (HandlerState::Running, HandlerEvent::Shutdown) => r.0 == HandlerState::Draining && r.1
                is Finish && *final(store) == *old(store),
            _ => r.0 == HandlerState::Closed && r.1 is Finish && *final(store) == *old(store),
        },
{
    match state {
        HandlerState::Running => match event {
            HandlerEvent::Request(request) => match Command::from_frame(request) {
                Ok(command) => {
                    let reply = command.apply(store);
                    (HandlerState::Running, HandlerAction::Reply(reply))
                },
                Err(ParseError::Invalid) => (
                    HandlerState::Closed,
                    HandlerAction::Reject(Frame::Error(ParseError::Invalid.message())),
                ),
                Err(e) => (HandlerState::Running, HandlerAction::Reply(Frame::Error(e.message()))),
            },
            HandlerEvent::PeerClosed => (HandlerState::Closed, HandlerAction::Finish),
            HandlerEvent::Failed => (HandlerState::Closed, HandlerAction::Abort),
            HandlerEvent::Shutdown => (HandlerState::Draining, HandlerAction::Finish),
        },
        _ => (HandlerState::Closed, HandlerAction::Finish),
    }
}

/// Once the accept loop is terminating it stays so, whatever happens.
pub proof fn lemma_terminating_is_final(event: ServerEvent)
    ensures
        serve_spec(ServerState::Terminating, event) == (
            ServerState::Terminating,
            ServerAction::Stop,
        ),
{
}

} // verus!
