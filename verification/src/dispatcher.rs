//! The dispatcher: the loop that answers control messages and admits
//! requests, and what one isolated execution does with an admitted request.
//!
//! The loop itself is a state machine. Whoever drives it performs the action
//! of each step (sending a reply, spawning an isolated execution) and hands
//! back what came of it as the next event.

use crate::behaviours::behaviour::Behaviour;
use crate::behaviours::behaviour_router::{answers, BehaviourRouter};
use crate::http::http_message::{serialized, HttpMessage};
use crate::http::http_request::{parse_request, HttpRequest};
use crate::http::http_response::{HttpResponse, ResponseView};
use crate::ipc::{IpcMessage, IpcMessageView};
use crate::text::{char_len, eq_ignore_ascii_case, same_ignoring_ascii_case};
use vstd::prelude::*;
use vstd::string::*;

verus! {

/// Where the dispatcher loop stands.
#[derive(PartialEq, Eq, Structural, Clone, Copy, Debug)]
pub enum DispatcherState {
    Running,
    Terminated,
}

/// What happened since the last step.
#[derive(Debug)]
pub enum DispatcherEvent {
    /// A control message arrived.
    Received(IpcMessage),
    /// The control channel failed, reading or writing.
    ChannelFailed,
    /// The isolated execution that was asked for is under way.
    Spawned,
    /// The isolated execution that was asked for could not be started.
    SpawnFailed,
}

/// An event as mathematical values.
pub enum DispatcherEventView {
    Received(IpcMessageView),
    ChannelFailed,
    Spawned,
    SpawnFailed,
}

impl View for DispatcherEvent {
    type V = DispatcherEventView;

    open spec fn view(&self) -> DispatcherEventView {
        match self {
            DispatcherEvent::Received(m) => DispatcherEventView::Received(m@),
            DispatcherEvent::ChannelFailed => DispatcherEventView::ChannelFailed,
            DispatcherEvent::Spawned => DispatcherEventView::Spawned,
            DispatcherEvent::SpawnFailed => DispatcherEventView::SpawnFailed,
        }
    }
}

/// What the driver of the loop is to do next.
#[derive(Debug)]
pub enum DispatcherAction {
    /// Send this message to the listener, then read the next one.
    Reply(IpcMessage),
    /// Start an isolated execution for the request with this id, and say
    /// whether it started.
    Spawn { request_path: String },
    /// Read the next control message.
    Continue,
    /// Leave the loop.
    Exit,
}

/// An action as mathematical values.
pub enum DispatcherActionView {
    Reply(IpcMessageView),
    Spawn { request_path: Seq<char> },
    Continue,
    Exit,
}

impl View for DispatcherAction {
    type V = DispatcherActionView;

    open spec fn view(&self) -> DispatcherActionView {
        match self {
            DispatcherAction::Reply(m) => DispatcherActionView::Reply(m@),
            DispatcherAction::Spawn { request_path } => DispatcherActionView::Spawn {
                request_path: request_path@,
            },
            DispatcherAction::Continue => DispatcherActionView::Continue,
            DispatcherAction::Exit => DispatcherActionView::Exit,
        }
    }
}

/// One step of the loop. While running: `Poll` and `Okay` are answered with
/// `Okay`; a request asks for an isolated execution, and is answered with
/// `Okay` once that is under way, without waiting for it to finish; `Close`
/// ends the loop without an answer. If the isolated execution cannot be
/// started the listener is told `Close` and the loop ends. A failure of the
/// control channel ends the loop. Once terminated, nothing is done any more.
pub open spec fn dispatcher_step(state: DispatcherState, event: DispatcherEventView) -> (
    DispatcherState,
    DispatcherActionView,
) {
    match state {
        DispatcherState::Terminated => (DispatcherState::Terminated, DispatcherActionView::Exit),
        DispatcherState::Running => match event {
            DispatcherEventView::Received(IpcMessageView::Poll) => (
                DispatcherState::Running,
                DispatcherActionView::Reply(IpcMessageView::Okay),
            ),
            DispatcherEventView::Received(IpcMessageView::Okay) => (
                DispatcherState::Running,
                DispatcherActionView::Reply(IpcMessageView::Okay),
            ),
            DispatcherEventView::Received(IpcMessageView::Request { request_path }) => (
                DispatcherState::Running,
                DispatcherActionView::Spawn { request_path },
            ),
            DispatcherEventView::Received(IpcMessageView::Close) => (
                DispatcherState::Terminated,
                DispatcherActionView::Exit,
            ),
            DispatcherEventView::ChannelFailed => (
                DispatcherState::Terminated,
                DispatcherActionView::Exit,
            ),
            DispatcherEventView::Spawned => (
                DispatcherState::Running,
                DispatcherActionView::Reply(IpcMessageView::Okay),
            ),
            DispatcherEventView::SpawnFailed => (
                DispatcherState::Terminated,
                DispatcherActionView::Reply(IpcMessageView::Close),
            ),
        },
    }
}

/// The state after `events`, one step each, from `state`.
pub open spec fn dispatcher_run(
    state: DispatcherState,
    events: Seq<DispatcherEventView>,
) -> DispatcherState
    decreases events.len(),
{
    if events.len() == 0 {
        state
    } else {
        dispatcher_step(dispatcher_run(state, events.drop_last()), events.last()).0
    }
}

/// A terminated dispatcher stays terminated, whatever happens.
pub proof fn lemma_terminated_is_final(events: Seq<DispatcherEventView>)
    ensures
        dispatcher_run(DispatcherState::Terminated, events) == DispatcherState::Terminated,
    decreases events.len(),
{
    if events.len() > 0 {
        lemma_terminated_is_final(events.drop_last());
    }
}

/// The directory and first part of the name of every data channel.
pub open spec fn channel_prefix() -> Seq<char> {
    "/tmp/jwx_client_"@
}

/// The path of the channel that carries the request with the given id from
/// the listener to the dispatcher.
pub open spec fn out_channel(id: Seq<char>) -> Seq<char> {
    channel_prefix() + id + ".out"@
}

/// The path of the channel that carries the response to the request with
/// the given id from the dispatcher to the listener.
pub open spec fn in_channel(id: Seq<char>) -> Seq<char> {
    channel_prefix() + id + ".in"@
}

/// Whether a script path names a handler of the one kind there is: a file
/// whose name ends in `.lua`, whatever the case of the letters.
pub open spec fn is_lua_script(path: Seq<char>) -> bool {
    path.len() >= 4 && same_ignoring_ascii_case(
        path.subrange(path.len() - 4, path.len() as int),
        ".lua"@,
    )
}

/// One step of the dispatcher loop: the state after the event, and what to
/// do next.
pub fn step(state: DispatcherState, event: DispatcherEvent) -> (r: (
    DispatcherState,
    DispatcherAction,
))
    ensures
        (r.0, r.1@) == dispatcher_step(state, event@),
{
    match state {
        DispatcherState::Terminated => (DispatcherState::Terminated, DispatcherAction::Exit),
        DispatcherState::Running => match event {
            DispatcherEvent::Received(IpcMessage::Poll) => (
                DispatcherState::Running,
                DispatcherAction::Reply(IpcMessage::Okay),
            ),
            DispatcherEvent::Received(IpcMessage::Okay) => (
                DispatcherState::Running,
                DispatcherAction::Reply(IpcMessage::Okay),
            ),
            DispatcherEvent::Received(IpcMessage::Request { request_path }) => (
                DispatcherState::Running,
                DispatcherAction::Spawn { request_path },
            ),
            DispatcherEvent::Received(IpcMessage::Close) => (
                DispatcherState::Terminated,
                DispatcherAction::Exit,
            ),
            DispatcherEvent::ChannelFailed => (DispatcherState::Terminated, DispatcherAction::Exit),
            DispatcherEvent::Spawned => (
                DispatcherState::Running,
                DispatcherAction::Reply(IpcMessage::Okay),
            ),
            DispatcherEvent::SpawnFailed => (
                DispatcherState::Terminated,
                DispatcherAction::Reply(IpcMessage::Close),
            ),
        },
    }
}

/// The path of the channel that carries a request to the dispatcher.
pub fn out_channel_path(id: &str) -> (path: String)
    ensures
        path@ == out_channel(id@),
{
    let mut path = String::new();
    path.append("/tmp/jwx_client_");
    path.append(id);
    path.append(".out");
    assert(path@ =~= out_channel(id@));
    path
}

/// The path of the channel that carries a response to the listener.
pub fn in_channel_path(id: &str) -> (path: String)
    ensures
        path@ == in_channel(id@),
{
    let mut path = String::new();
    path.append("/tmp/jwx_client_");
    path.append(id);
    path.append(".in");
    assert(path@ =~= in_channel(id@));
    path
}

/// Whether a script path names a handler of the one kind there is.
pub fn is_lua_endpoint(path: &str) -> (r: bool)
    ensures
        r == is_lua_script(path@),
{
    let n = char_len(path);
    if n < 4 {
        return false;
    }
    eq_ignore_ascii_case(path.substring_char(n - 4, n), ".lua")
}

/// What one isolated execution does with the bytes of an admitted request:
/// it reads the request, lets the router answer it, and writes the answer
/// out. Bytes that hold no request get no answer.
pub fn serve<B: Behaviour>(router: &BehaviourRouter<B>, payload: &[u8]) -> (r: Option<Vec<u8>>)
    ensures
        r is Some <==> parse_request(payload@) is Some,
        r matches Some(bytes) ==> exists|response: ResponseView|
            #![trigger serialized::<HttpResponse>(response)]
            answers(router.routes(), parse_request(payload@)->0, response) && bytes@
                == serialized::<HttpResponse>(response),
{
    let request = match HttpRequest::parse(payload) {
        Some(request) => request,
        None => {
            return None;
        },
    };
    let response = router.run(&request);
    let bytes = response.serialize();
    assert(bytes@ == serialized::<HttpResponse>(response@));
    Some(bytes)
}

} // verus!
