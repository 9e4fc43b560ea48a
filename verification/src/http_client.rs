//! The connection handler of the listener: what it decides while it serves
//! one connection.
//!
//! Reading the socket, probing the content root and moving bytes over the
//! channels is left to the caller. Each decision here takes what the caller
//! found and says what to do next.

use crate::dispatcher::{in_channel, in_channel_path, out_channel, out_channel_path};
use crate::http::http_message::{serialized, HttpMessage, HttpVersion};
use crate::http::http_request::{parse_request, HttpRequest, RequestView};
use crate::http::http_response::{new_response, HttpResponse, ResponseView};
use crate::ipc::{frame, framed, IpcMessage, IpcMessageView};
use crate::string_map::{assoc_insert, Pair, StringMap};
use crate::text::{
    append_decimal, char_len, decimal, eq_ignore_ascii_case, is_digit, same_ignoring_ascii_case,
};
use crate::text_laws::{lemma_decimal_digits, lemma_decimal_injective};
use vstd::prelude::*;
use vstd::string::*;
use vstd::utf8::encode_utf8;

verus! {

/// The media type for a file name extension, whatever the case of its
/// letters; `application/octet-stream` for any other and for none.
pub open spec fn media_type(extension: Option<Seq<char>>) -> Seq<char> {
    match extension {
        Some(e) => if same_ignoring_ascii_case(e, "html"@) {
            "text/html"@
        } else if same_ignoring_ascii_case(e, "js"@) {
            "text/javascript"@
        } else if same_ignoring_ascii_case(e, "css"@) {
            "text/css"@
        } else if same_ignoring_ascii_case(e, "png"@) {
            "image/png"@
        } else if same_ignoring_ascii_case(e, "jpg"@) {
            "image/jpeg"@
        } else if same_ignoring_ascii_case(e, "jpeg"@) {
            "image/jpeg"@
        } else if same_ignoring_ascii_case(e, "gif"@) {
            "image/gif"@
        } else if same_ignoring_ascii_case(e, "ico"@) {
            "image/x-icon"@
        } else {
            "application/octet-stream"@
        },
        None => "application/octet-stream"@,
    }
}

/// The media type for a file name extension.
pub fn content_type(extension: Option<&str>) -> (r: &'static str)
    ensures
        r@ == media_type(
            match extension {
                Some(e) => Some(e@),
                None => None,
            },
        ),
{
    match extension {
        Some(e) => if eq_ignore_ascii_case(e, "html") {
            "text/html"
        } else if eq_ignore_ascii_case(e, "js") {
            "text/javascript"
        } else if eq_ignore_ascii_case(e, "css") {
            "text/css"
        } else if eq_ignore_ascii_case(e, "png") {
            "image/png"
        } else if eq_ignore_ascii_case(e, "jpg") {
            "image/jpeg"
        } else if eq_ignore_ascii_case(e, "jpeg") {
            "image/jpeg"
        } else if eq_ignore_ascii_case(e, "gif") {
            "image/gif"
        } else if eq_ignore_ascii_case(e, "ico") {
            "image/x-icon"
        } else {
            "application/octet-stream"
        },
        None => "application/octet-stream",
    }
}

/// `headers` after the first `n` of `defaults` are written into them.
pub open spec fn merged_upto(headers: Seq<Pair>, defaults: Seq<Pair>, n: nat) -> Seq<Pair>
    decreases n,
{
    if n == 0 || n > defaults.len() {
        headers
    } else {
        assoc_insert(
            merged_upto(headers, defaults, (n - 1) as nat),
            defaults[n - 1].0,
            defaults[n - 1].1,
        )
    }
}

/// `headers` with every default header written into them. A default takes
/// the place of a header of the same name.
pub open spec fn merged(headers: Seq<Pair>, defaults: Seq<Pair>) -> Seq<Pair> {
    merged_upto(headers, defaults, defaults.len())
}

/// The response that the connection handler builds itself: the headers
/// carry the defaults, and `Content-Length` is set.
pub open spec fn made_response(
    defaults: Seq<Pair>,
    code: u16,
    headers: Seq<Pair>,
    content: Seq<u8>,
    version: HttpVersion,
) -> ResponseView {
    new_response(code, merged(headers, defaults), content, version)
}

/// A response that carries the default headers.
pub fn mk_response(
    default_headers: &StringMap,
    code: u16,
    headers: StringMap,
    content: Vec<u8>,
    version: HttpVersion,
) -> (r: HttpResponse)
    ensures
        r@ == made_response(default_headers.entries(), code, headers.entries(), content@, version),
{
    let mut headers = headers;
    let ghost given = headers.entries();
    let n = default_headers.len();
    let mut i: usize = 0;
    while i < n
        invariant
            i <= n,
            n == default_headers.entries().len(),
            headers.entries() == merged_upto(given, default_headers.entries(), i as nat),
        decreases n - i,
    {
        headers.insert(default_headers.key_at(i).clone(), default_headers.value_at(i).clone());
        i = i + 1;
    }
    HttpResponse::new(code, headers, content, version)
}

/// The generic 500 that is written when neither a file nor a handler
/// answered.
pub open spec fn fallback_view(defaults: Seq<Pair>, version: HttpVersion) -> ResponseView {
    made_response(
        defaults,
        500,
        seq![("Content-Type"@, "text/plain"@)],
        encode_utf8("500: Internal server error"@),
        version,
    )
}

/// The generic 500 that is written when neither a file nor a handler
/// answered.
pub fn fallback_response(default_headers: &StringMap, version: HttpVersion) -> (r: HttpResponse)
    ensures
        r@ == fallback_view(default_headers.entries(), version),
{
    let mut headers = StringMap::new();
    headers.insert("Content-Type".to_owned(), "text/plain".to_owned());
    assert(headers.entries() =~= seq![("Content-Type"@, "text/plain"@)]);
    mk_response(
        default_headers,
        500,
        headers,
        "500: Internal server error".as_bytes_vec(),
        version,
    )
}

/// The 200 that carries a file.
pub open spec fn file_view(
    defaults: Seq<Pair>,
    extension: Option<Seq<char>>,
    data: Seq<u8>,
    version: HttpVersion,
) -> ResponseView {
    made_response(defaults, 200, seq![("Content-Type"@, media_type(extension))], data, version)
}

/// The 200 that carries a file: its bytes as content, and the media type
/// that goes with the extension of its name.
pub fn file_response(
    default_headers: &StringMap,
    extension: Option<&str>,
    data: Vec<u8>,
    version: HttpVersion,
) -> (r: HttpResponse)
    ensures
        r@ == file_view(
            default_headers.entries(),
            match extension {
                Some(e) => Some(e@),
                None => None,
            },
            data@,
            version,
        ),
{
    let mut headers = StringMap::new();
    let media = content_type(extension);
    headers.insert("Content-Type".to_owned(), media.to_owned());
    assert(headers.entries() =~= seq![("Content-Type"@, media@)]);
    mk_response(default_headers, 200, headers, data, version)
}

/// The 301 that sends a client from a directory to the same path with a
/// `/` at its end.
pub open spec fn redirect_view(
    defaults: Seq<Pair>,
    uri: Seq<char>,
    version: HttpVersion,
) -> ResponseView {
    made_response(
        defaults,
        301,
        seq![("Location"@, uri + seq!['/']), ("Content-Type"@, "text/plain"@)],
        encode_utf8("301: Moved Permanently"@),
        version,
    )
}

/// The 301 that sends a client from a directory to the same path with a
/// `/` at its end.
pub fn redirect_response(default_headers: &StringMap, uri: &str, version: HttpVersion) -> (r:
    HttpResponse)
    ensures
        r@ == redirect_view(default_headers.entries(), uri@, version),
{
    let mut location = uri.to_owned();
    location.append("/");
    proof {
        reveal_strlit("/");
        reveal_strlit("Location");
        reveal_strlit("Content-Type");
        assert(location@ =~= uri@ + seq!['/']);
        assert("Location"@ != "Content-Type"@) by {
            assert("Location"@.len() != "Content-Type"@.len());
        }
    }
    let mut headers = StringMap::new();
    headers.insert("Location".to_owned(), location);
    let ghost first = headers.entries();
    assert(first =~= seq![("Location"@, uri@ + seq!['/'])]);
    proof {
        crate::string_map::lemma_assoc_index_from_none(first, "Content-Type"@, 0);
    }
    headers.insert("Content-Type".to_owned(), "text/plain".to_owned());
    assert(headers.entries() =~= seq![
        ("Location"@, uri@ + seq!['/']),
        ("Content-Type"@, "text/plain"@),
    ]);
    mk_response(default_headers, 301, headers, "301: Moved Permanently".as_bytes_vec(), version)
}

/// A request path as a path below the content root: without its first
/// character if that is a `/`.
pub open spec fn below_root(uri: Seq<char>) -> Seq<char> {
    if uri.len() > 0 && uri[0] == '/' {
        uri.drop_first()
    } else {
        uri
    }
}

/// A request path as a path below the content root.
pub fn relative_path(uri: &str) -> (r: &str)
    ensures
        r@ == below_root(uri@),
{
    let n = char_len(uri);
    if n > 0 && uri.get_char(0) == '/' {
        assert(uri@.drop_first() =~= uri@.subrange(1, n as int));
        uri.substring_char(1, n)
    } else {
        uri
    }
}

/// What the caller found where a request path points below the content root.
#[derive(PartialEq, Eq, Structural, Clone, Copy, Debug)]
pub struct PathProbe {
    /// The path stays below the content root.
    pub inside_root: bool,
    /// Something exists at the path.
    pub exists: bool,
    /// It is a directory.
    pub is_dir: bool,
    /// The path ends in `/`.
    pub ends_with_slash: bool,
    /// The directory holds a file `index.html`.
    pub has_index: bool,
}

/// How a request is served from the content root.
#[derive(PartialEq, Eq, Structural, Clone, Copy, Debug)]
pub enum StaticAction {
    /// Not from the content root.
    Decline,
    /// With a redirect to the path with a `/` at its end.
    Redirect,
    /// With the file `index.html` of the directory.
    ServeIndex,
    /// With the file at the path.
    ServeFile,
}

/// How a request is served from the content root. A path that leaves the
/// root or points at nothing is declined. A directory whose path does not
/// end in `/` is answered with a redirect; one whose path does is served by
/// its `index.html`, and declined where it has none. Anything else is served
/// as a file.
pub open spec fn static_choice(probe: PathProbe) -> StaticAction {
    if !probe.inside_root || !probe.exists {
        StaticAction::Decline
    } else if probe.is_dir {
        if !probe.ends_with_slash {
            StaticAction::Redirect
        } else if probe.has_index {
            StaticAction::ServeIndex
        } else {
            StaticAction::Decline
        }
    } else {
        StaticAction::ServeFile
    }
}

/// How a request is served from the content root.
pub fn static_action(probe: PathProbe) -> (r: StaticAction)
    ensures
        r == static_choice(probe),
{
    if !probe.inside_root || !probe.exists {
        StaticAction::Decline
    } else if probe.is_dir {
        if !probe.ends_with_slash {
            StaticAction::Redirect
        } else if probe.has_index {
            StaticAction::ServeIndex
        } else {
            StaticAction::Decline
        }
    } else {
        StaticAction::ServeFile
    }
}

/// The id of a dynamic request: the listener's process id and the number of
/// the request, both in decimal, with `_` between them.
pub open spec fn request_id(process: u32, counter: usize) -> Seq<char> {
    decimal(process as nat) + seq!['_'] + decimal(counter as nat)
}

/// Ids are alike only for the same process and the same number: no two
/// requests of one listener share an id, and no two listeners share one.
pub proof fn lemma_request_ids_differ(
    first_process: u32,
    first_count: usize,
    second_process: u32,
    second_count: usize,
)
    requires
        request_id(first_process, first_count) == request_id(second_process, second_count),
    ensures
        first_process == second_process,
        first_count == second_count,
{
    let first_head = decimal(first_process as nat);
    let first_tail = decimal(first_count as nat);
    let second_head = decimal(second_process as nat);
    let second_tail = decimal(second_count as nat);
    let s = request_id(first_process, first_count);
    lemma_decimal_digits(first_process as nat);
    lemma_decimal_digits(second_process as nat);
    assert(!is_digit('_'));
    let first_len = first_head.len() as int;
    let second_len = second_head.len() as int;
    assert(s[first_len] == '_');
    assert(request_id(second_process, second_count)[second_len] == '_');
    assert(first_len == second_len) by {
        if first_len < second_len {
            assert(request_id(second_process, second_count)[first_len] == second_head[first_len]);
        }
        if second_len < first_len {
            assert(s[second_len] == first_head[second_len]);
        }
    }
    assert(first_head =~= s.subrange(0, first_len));
    assert(second_head =~= request_id(second_process, second_count).subrange(0, second_len));
    assert(first_tail =~= s.subrange(first_len + 1, s.len() as int));
    assert(second_tail =~= request_id(second_process, second_count).subrange(
        second_len + 1,
        s.len() as int,
    ));
    lemma_decimal_injective(first_process as nat, second_process as nat);
    lemma_decimal_injective(first_count as nat, second_count as nat);
}

/// The id of a dynamic request.
pub fn request_name(process: u32, counter: usize) -> (name: String)
    ensures
        name@ == request_id(process, counter),
{
    let mut name = String::new();
    append_decimal(&mut name, process as u64);
    name.append("_");
    append_decimal(&mut name, counter as u64);
    proof {
        reveal_strlit("_");
        assert(name@ =~= request_id(process, counter));
    }
    name
}

/// How far the hand-over of one dynamic request has come.
#[derive(PartialEq, Eq, Structural, Clone, Copy, Debug)]
pub enum DynamicPhase {
    /// Nothing has been done yet.
    Idle,
    /// The channel to the dispatcher is being created.
    CreatingOut,
    /// The channel from the dispatcher is being created.
    CreatingIn,
    /// The request has been announced on the control channel.
    AwaitingReply,
    /// The request is being written to the dispatcher.
    SendingRequest,
    /// The response is being read from the dispatcher.
    AwaitingResponse,
    /// The response is being written to the client.
    Forwarding,
    /// The client has its response.
    Succeeded,
    /// The request was not answered this way.
    Failed,
}

/// What came of the last action.
#[derive(Debug)]
pub enum DynamicEvent {
    /// The hand-over is to begin.
    Start,
    /// The action was carried out.
    Done,
    /// The action could not be carried out.
    Failed,
    /// The dispatcher replied on the control channel.
    Reply(IpcMessage),
    /// The channel from the dispatcher was read to its end.
    Response(Vec<u8>),
}

/// An event as mathematical values.
pub enum DynamicEventView {
    Start,
    Done,
    Failed,
    Reply(IpcMessageView),
    Response(Seq<u8>),
}

impl View for DynamicEvent {
    type V = DynamicEventView;

    open spec fn view(&self) -> DynamicEventView {
        match self {
            DynamicEvent::Start => DynamicEventView::Start,
            DynamicEvent::Done => DynamicEventView::Done,
            DynamicEvent::Failed => DynamicEventView::Failed,
            DynamicEvent::Reply(m) => DynamicEventView::Reply(m@),
            DynamicEvent::Response(bytes) => DynamicEventView::Response(bytes@),
        }
    }
}

/// What the caller is to do next.
#[derive(Debug)]
pub enum DynamicAction {
    /// Create the channel with this path.
    CreateChannel { path: String },
    /// Take the control channel, send this message, wait for the reply and
    /// give the channel up again.
    Announce(IpcMessage),
    /// Open the channel with this path and write these bytes to it.
    WriteRequest { path: String, bytes: Vec<u8> },
    /// Open the channel with this path and read it to its end.
    ReadResponse { path: String },
    /// Write these bytes to the client.
    WriteToClient(Vec<u8>),
    /// Delete both channels; the request is answered.
    RemoveChannels { out_path: String, in_path: String },
    /// Nothing more: the request was not answered this way.
    GiveUp,
}

/// An action as mathematical values.
pub enum DynamicActionView {
    CreateChannel { path: Seq<char> },
    Announce(IpcMessageView),
    WriteRequest { path: Seq<char>, bytes: Seq<u8> },
    ReadResponse { path: Seq<char> },
    WriteToClient(Seq<u8>),
    RemoveChannels { out_path: Seq<char>, in_path: Seq<char> },
    GiveUp,
}

impl View for DynamicAction {
    type V = DynamicActionView;

    open spec fn view(&self) -> DynamicActionView {
        match self {
            DynamicAction::CreateChannel { path } => DynamicActionView::CreateChannel {
                path: path@,
            },
            DynamicAction::Announce(m) => DynamicActionView::Announce(m@),
            DynamicAction::WriteRequest { path, bytes } => DynamicActionView::WriteRequest {
                path: path@,
                bytes: bytes@,
            },
            DynamicAction::ReadResponse { path } => DynamicActionView::ReadResponse { path: path@ },
            DynamicAction::WriteToClient(bytes) => DynamicActionView::WriteToClient(bytes@),
            DynamicAction::RemoveChannels { out_path, in_path } => {
                DynamicActionView::RemoveChannels { out_path: out_path@, in_path: in_path@ }
            },
            DynamicAction::GiveUp => DynamicActionView::GiveUp,
        }
    }
}

/// One step of the hand-over of the request `request` under the id `id`.
/// Both channels are created, then the request is announced. On the reply
/// `Okay` the framed request is written to the dispatcher and the response
/// is read; a response that is not empty is written to the client as it is,
/// and both channels are deleted. Any other reply, an empty response, a
/// failed action and an event that does not belong where the hand-over
/// stands end it without an answer.
pub open spec fn dynamic_step(
    phase: DynamicPhase,
    id: Seq<char>,
    request: RequestView,
    event: DynamicEventView,
) -> (DynamicPhase, DynamicActionView) {
    match (phase, event) {
        (DynamicPhase::Idle, DynamicEventView::Start) => (
            DynamicPhase::CreatingOut,
            DynamicActionView::CreateChannel { path: out_channel(id) },
        ),
        (DynamicPhase::CreatingOut, DynamicEventView::Done) => (
            DynamicPhase::CreatingIn,
            DynamicActionView::CreateChannel { path: in_channel(id) },
        ),
        (DynamicPhase::CreatingIn, DynamicEventView::Done) => (
            DynamicPhase::AwaitingReply,
            DynamicActionView::Announce(IpcMessageView::Request { request_path: id }),
        ),
        (DynamicPhase::AwaitingReply, DynamicEventView::Reply(IpcMessageView::Okay)) => (
            DynamicPhase::SendingRequest,
            DynamicActionView::WriteRequest {
                path: out_channel(id),
                bytes: framed(serialized::<HttpRequest>(request)),
            },
        ),
        (DynamicPhase::SendingRequest, DynamicEventView::Done) => (
            DynamicPhase::AwaitingResponse,
            DynamicActionView::ReadResponse { path: in_channel(id) },
        ),
        (DynamicPhase::AwaitingResponse, DynamicEventView::Response(bytes)) => if bytes.len()
            > 0 {
            (DynamicPhase::Forwarding, DynamicActionView::WriteToClient(bytes))
        } else {
            (DynamicPhase::Failed, DynamicActionView::GiveUp)
        },
        (DynamicPhase::Forwarding, DynamicEventView::Done) => (
            DynamicPhase::Succeeded,
            DynamicActionView::RemoveChannels {
                out_path: out_channel(id),
                in_path: in_channel(id),
            },
        ),
        _ => (DynamicPhase::Failed, DynamicActionView::GiveUp),
    }
}

/// The hand-over of one dynamic request to the dispatcher.
#[derive(Debug)]
pub struct DynamicDispatch {
    phase: DynamicPhase,
    id: String,
}

impl DynamicDispatch {
    /// How far the hand-over has come.
    pub closed spec fn spec_phase(self) -> DynamicPhase {
        self.phase
    }

    /// The id of the request.
    pub closed spec fn spec_id(self) -> Seq<char> {
        self.id@
    }

    /// A hand-over that has not begun, for the request with the given id.
    pub fn new(id: String) -> (r: DynamicDispatch)
        ensures
            r.spec_phase() == DynamicPhase::Idle,
            r.spec_id() == id@,
    {
        DynamicDispatch { phase: DynamicPhase::Idle, id }
    }

    /// How far the hand-over has come.
    pub fn phase(&self) -> (phase: DynamicPhase)
        ensures
            phase == self.spec_phase(),
    {
        self.phase
    }

    /// Whether the client has its response.
    pub fn succeeded(&self) -> (r: bool)
        ensures
            r == (self.spec_phase() == DynamicPhase::Succeeded),
    {
        self.phase == DynamicPhase::Succeeded
    }

    /// One step of the hand-over: takes what came of the last action and
    /// says what to do next.
    pub fn step(&mut self, request: &HttpRequest, event: DynamicEvent) -> (action: DynamicAction)
        ensures
            final(self).spec_id() == old(self).spec_id(),
            (final(self).spec_phase(), action@) == dynamic_step(
                old(self).spec_phase(),
                old(self).spec_id(),
                request@,
                event@,
            ),
    {
        let (phase, action) = match (self.phase, event) {
            (DynamicPhase::Idle, DynamicEvent::Start) => (
                DynamicPhase::CreatingOut,
                DynamicAction::CreateChannel { path: out_channel_path(self.id.as_str()) },
            ),
            (DynamicPhase::CreatingOut, DynamicEvent::Done) => (
                DynamicPhase::CreatingIn,
                DynamicAction::CreateChannel { path: in_channel_path(self.id.as_str()) },
            ),
            (DynamicPhase::CreatingIn, DynamicEvent::Done) => (
                DynamicPhase::AwaitingReply,
                DynamicAction::Announce(IpcMessage::Request { request_path: self.id.clone() }),
            ),
            (DynamicPhase::AwaitingReply, DynamicEvent::Reply(IpcMessage::Okay)) => {
                let data = request.serialize();
                (
                    DynamicPhase::SendingRequest,
                    DynamicAction::WriteRequest {
                        path: out_channel_path(self.id.as_str()),
                        bytes: frame(data.as_slice()),
                    },
                )
            },
            (DynamicPhase::SendingRequest, DynamicEvent::Done) => (
                DynamicPhase::AwaitingResponse,
                DynamicAction::ReadResponse { path: in_channel_path(self.id.as_str()) },
            ),
            (DynamicPhase::AwaitingResponse, DynamicEvent::Response(bytes)) => {
                if bytes.len() > 0 {
                    (DynamicPhase::Forwarding, DynamicAction::WriteToClient(bytes))
                } else {
                    (DynamicPhase::Failed, DynamicAction::GiveUp)
                }
            },
            (DynamicPhase::Forwarding, DynamicEvent::Done) => (
                DynamicPhase::Succeeded,
                DynamicAction::RemoveChannels {
                    out_path: out_channel_path(self.id.as_str()),
                    in_path: in_channel_path(self.id.as_str()),
                },
            ),
            _ => (DynamicPhase::Failed, DynamicAction::GiveUp),
        };
        self.phase = phase;
        action
    }
}

/// What a read of the socket came back with.
#[derive(Debug)]
pub enum ReadOutcome {
    /// These bytes; none at all means that the stream has ended.
    Data(Vec<u8>),
    /// Nothing for now.
    WouldBlock,
    /// An error.
    Failed,
}

/// A read as mathematical values.
pub enum ReadOutcomeView {
    Data(Seq<u8>),
    WouldBlock,
    Failed,
}

impl View for ReadOutcome {
    type V = ReadOutcomeView;

    open spec fn view(&self) -> ReadOutcomeView {
        match self {
            ReadOutcome::Data(bytes) => ReadOutcomeView::Data(bytes@),
            ReadOutcome::WouldBlock => ReadOutcomeView::WouldBlock,
            ReadOutcome::Failed => ReadOutcomeView::Failed,
        }
    }
}

/// What to do with the connection next.
#[derive(Debug)]
pub enum ConnectionAction {
    /// Read again.
    Read,
    /// Answer this request, then read again.
    Handle(HttpRequest),
    /// Close the connection.
    Close,
}

/// An action as mathematical values.
pub enum ConnectionActionView {
    Read,
    Handle(RequestView),
    Close,
}

impl View for ConnectionAction {
    type V = ConnectionActionView;

    open spec fn view(&self) -> ConnectionActionView {
        match self {
            ConnectionAction::Read => ConnectionActionView::Read,
            ConnectionAction::Handle(request) => ConnectionActionView::Handle(request@),
            ConnectionAction::Close => ConnectionActionView::Close,
        }
    }
}

/// The bytes held back after a read, and what to do next. Bytes that arrive
/// are added to what is held. Once nothing more is at hand, what is held is
/// read as one request and let go of, whether it read as one or not. The end
/// of the stream and an error close the connection.
pub open spec fn connection_step(held: Seq<u8>, outcome: ReadOutcomeView) -> (
    Seq<u8>,
    ConnectionActionView,
) {
    match outcome {
        ReadOutcomeView::Data(bytes) => if bytes.len() > 0 {
            (held + bytes, ConnectionActionView::Read)
        } else {
            (held, ConnectionActionView::Close)
        },
        ReadOutcomeView::WouldBlock => if held.len() > 0 {
            match parse_request(held) {
                Some(request) => (Seq::empty(), ConnectionActionView::Handle(request)),
                None => (Seq::empty(), ConnectionActionView::Read),
            }
        } else {
            (held, ConnectionActionView::Read)
        },
        ReadOutcomeView::Failed => (held, ConnectionActionView::Close),
    }
}

/// The bytes of one connection that have been read and not yet understood.
#[derive(Debug)]
pub struct Connection {
    buffer: Vec<u8>,
}

impl Connection {
    /// The bytes that are held.
    pub closed spec fn held(self) -> Seq<u8> {
        self.buffer@
    }

    /// A connection on which nothing has been read.
    pub fn new() -> (r: Connection)
        ensures
            r.held() == Seq::<u8>::empty(),
    {
        Connection { buffer: Vec::new() }
    }

    /// Takes what a read came back with and says what to do next.
    pub fn on_read(&mut self, outcome: ReadOutcome) -> (action: ConnectionAction)
        ensures
            (final(self).held(), action@) == connection_step(old(self).held(), outcome@),
    {
        match outcome {
            ReadOutcome::Data(bytes) => {
                if bytes.len() > 0 {
                    self.buffer.extend_from_slice(bytes.as_slice());
                    assert(self.buffer@ =~= old(self).buffer@ + bytes@);
                    ConnectionAction::Read
                } else {
                    ConnectionAction::Close
                }
            },
            ReadOutcome::WouldBlock => {
                if self.buffer.len() > 0 {
                    let parsed = HttpRequest::parse(self.buffer.as_slice());
                    self.buffer.clear();
                    match parsed {
                        Some(request) => ConnectionAction::Handle(request),
                        None => ConnectionAction::Read,
                    }
                } else {
                    ConnectionAction::Read
                }
            },
            ReadOutcome::Failed => ConnectionAction::Close,
        }
    }
}

/// The ways in which a request is answered, in the order in which they are
/// tried, and how the attempt ended.
#[derive(PartialEq, Eq, Structural, Clone, Copy, Debug)]
pub enum Stage {
    /// From the content root.
    Static,
    /// By the dispatcher.
    Dynamic,
    /// With the generic 500.
    Fallback,
    /// The request is answered.
    Answered,
    /// Nothing could be written any more.
    Broken,
}

/// The stage after an attempt. What succeeds answers the request; a request
/// that the content root does not answer goes to the dispatcher, and one
/// that the dispatcher does not answer gets the generic 500. Where even that
/// cannot be written the connection is broken.
pub open spec fn stage_after(stage: Stage, succeeded: bool) -> Stage {
    match stage {
        Stage::Static => if succeeded {
            Stage::Answered
        } else {
            Stage::Dynamic
        },
        Stage::Dynamic => if succeeded {
            Stage::Answered
        } else {
            Stage::Fallback
        },
        Stage::Fallback => if succeeded {
            Stage::Answered
        } else {
            Stage::Broken
        },
        Stage::Answered => Stage::Answered,
        Stage::Broken => Stage::Broken,
    }
}

/// The stage after an attempt.
pub fn next_stage(stage: Stage, succeeded: bool) -> (r: Stage)
    ensures
        r == stage_after(stage, succeeded),
{
    match stage {
        Stage::Static => if succeeded {
            Stage::Answered
        } else {
            Stage::Dynamic
        },
        Stage::Dynamic => if succeeded {
            Stage::Answered
        } else {
            Stage::Fallback
        },
        Stage::Fallback => if succeeded {
            Stage::Answered
        } else {
            Stage::Broken
        },
        Stage::Answered => Stage::Answered,
        Stage::Broken => Stage::Broken,
    }
}

} // verus!
