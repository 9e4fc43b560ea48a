use jwx_rs::config::lua_config::ConfigMgr;
use jwx_rs::dispatcher::{
    in_channel_path, is_lua_endpoint, out_channel_path, serve, step, DispatcherAction,
    DispatcherEvent, DispatcherState,
};
use jwx_rs::behaviours::behaviour::{Behaviour, BehaviourError};
use jwx_rs::behaviours::behaviour_router::BehaviourRouter;
use jwx_rs::http::http_message::{HttpMessage, HttpVersion};
use jwx_rs::http::http_request::HttpRequest;
use jwx_rs::http::http_response::HttpResponse;
use jwx_rs::http_client::{
    content_type, fallback_response, file_response, mk_response, next_stage, redirect_response,
    relative_path, request_name, static_action, Connection, ConnectionAction, DynamicAction,
    DynamicDispatch, DynamicEvent, DynamicPhase, PathProbe, ReadOutcome, Stage, StaticAction,
};
use jwx_rs::ipc::{frame, IpcMessage};
use jwx_rs::string_map::StringMap;

struct EchoId;

impl Behaviour for EchoId {
    fn run(&self, _request: &HttpRequest, params: StringMap) -> Result<HttpResponse, BehaviourError> {
        let id = params.get("id").cloned().unwrap_or_default();
        Ok(HttpResponse::new(
            200,
            StringMap::new(),
            format!("\"{}\"", id).into_bytes(),
            HttpVersion::Http1_1,
        ))
    }
}

fn defaults() -> StringMap {
    let mut headers = StringMap::new();
    headers.insert("Server".to_string(), "jwx-rs/0.1.0".to_string());
    headers.insert("Connection".to_string(), "Keep-Alive".to_string());
    headers
}

#[test]
pub fn dispatcher_answers_and_ends() {
    let (state, action) = step(DispatcherState::Running, DispatcherEvent::Received(IpcMessage::Poll));
    assert_eq!(state, DispatcherState::Running);
    assert!(matches!(action, DispatcherAction::Reply(IpcMessage::Okay)));
    let (state, action) = step(state, DispatcherEvent::Received(IpcMessage::Okay));
    assert_eq!(state, DispatcherState::Running);
    assert!(matches!(action, DispatcherAction::Reply(IpcMessage::Okay)));
    let (state, action) = step(
        state,
        DispatcherEvent::Received(IpcMessage::Request { request_path: "9_3".to_string() }),
    );
    assert_eq!(state, DispatcherState::Running);
    match action {
        DispatcherAction::Spawn { request_path } => assert_eq!(request_path, "9_3"),
        other => panic!("{:?}", other),
    }
    let (state, action) = step(state, DispatcherEvent::Spawned);
    assert_eq!(state, DispatcherState::Running);
    assert!(matches!(action, DispatcherAction::Reply(IpcMessage::Okay)));
    let (state, action) = step(state, DispatcherEvent::Received(IpcMessage::Close));
    assert_eq!(state, DispatcherState::Terminated);
    assert!(matches!(action, DispatcherAction::Exit));
    let (state, action) = step(state, DispatcherEvent::Received(IpcMessage::Poll));
    assert_eq!(state, DispatcherState::Terminated);
    assert!(matches!(action, DispatcherAction::Exit));
}

#[test]
pub fn dispatcher_closes_when_it_cannot_spawn() {
    let (state, action) = step(DispatcherState::Running, DispatcherEvent::SpawnFailed);
    assert_eq!(state, DispatcherState::Terminated);
    assert!(matches!(action, DispatcherAction::Reply(IpcMessage::Close)));
    let (state, action) = step(DispatcherState::Running, DispatcherEvent::ChannelFailed);
    assert_eq!(state, DispatcherState::Terminated);
    assert!(matches!(action, DispatcherAction::Exit));
}

#[test]
pub fn channel_paths_and_script_kinds() {
    assert_eq!(out_channel_path("12_0"), "/tmp/jwx_client_12_0.out");
    assert_eq!(in_channel_path("12_0"), "/tmp/jwx_client_12_0.in");
    assert_eq!(request_name(12, 0), "12_0");
    assert_eq!(request_name(4294967295, 1234567890), "4294967295_1234567890");
    assert!(is_lua_endpoint("scripts/a.lua"));
    assert!(is_lua_endpoint("A.LUA"));
    assert!(is_lua_endpoint(".lua"));
    assert!(!is_lua_endpoint("a.luac"));
    assert!(!is_lua_endpoint("lua"));
}

#[test]
pub fn isolated_execution_answers_a_request() {
    let router = BehaviourRouter::new(vec![("/api/users/{id}".to_string(), EchoId)]);
    let bytes = serve(&router, b"GET /api/users/42 HTTP/1.1\r\n\r\n").unwrap();
    let text = String::from_utf8(bytes).unwrap();
    assert_eq!(text, "HTTP/1.1 200 OK\r\nContent-Length: 4\r\n\r\n\"42\"");
    assert!(serve(&router, b"nonsense").is_none());
    let missing = serve(&router, b"GET /nope HTTP/1.0\r\n\r\n").unwrap();
    assert_eq!(
        String::from_utf8(missing).unwrap(),
        "HTTP/1.0 404 Not Found\r\nContent-Length: 14\r\n\r\n404: Not Found"
    );
}

#[test]
pub fn media_types() {
    assert_eq!(content_type(Some("html")), "text/html");
    assert_eq!(content_type(Some("HTML")), "text/html");
    assert_eq!(content_type(Some("js")), "text/javascript");
    assert_eq!(content_type(Some("css")), "text/css");
    assert_eq!(content_type(Some("png")), "image/png");
    assert_eq!(content_type(Some("jpg")), "image/jpeg");
    assert_eq!(content_type(Some("Jpeg")), "image/jpeg");
    assert_eq!(content_type(Some("gif")), "image/gif");
    assert_eq!(content_type(Some("ico")), "image/x-icon");
    assert_eq!(content_type(Some("txt")), "application/octet-stream");
    assert_eq!(content_type(None), "application/octet-stream");
}

#[test]
pub fn built_responses_carry_the_defaults() {
    let mut headers = StringMap::new();
    headers.insert("Server".to_string(), "mine".to_string());
    headers.insert("X".to_string(), "y".to_string());
    let resp = mk_response(&defaults(), 200, headers, b"ok".to_vec(), HttpVersion::Http1_1);
    assert_eq!(
        String::from_utf8(resp.serialize()).unwrap(),
        "HTTP/1.1 200 OK\r\nServer: jwx-rs/0.1.0\r\nX: y\r\nConnection: Keep-Alive\r\nContent-Length: 2\r\n\r\nok"
    );
    let resp = fallback_response(&defaults(), HttpVersion::Http1_0);
    assert_eq!(resp.code(), 500);
    assert_eq!(resp.get_content(), b"500: Internal server error");
    assert_eq!(resp.get_headers().get("Content-Type").unwrap(), "text/plain");
    assert_eq!(resp.get_headers().get("Connection").unwrap(), "Keep-Alive");
    let resp = file_response(&defaults(), Some("html"), b"<p>".to_vec(), HttpVersion::Http1_1);
    assert_eq!(resp.code(), 200);
    assert_eq!(resp.get_headers().get("Content-Type").unwrap(), "text/html");
    assert_eq!(resp.get_content(), b"<p>");
    let resp = redirect_response(&defaults(), "/docs", HttpVersion::Http1_1);
    assert_eq!(resp.code(), 301);
    assert_eq!(resp.get_headers().get("Location").unwrap(), "/docs/");
    assert_eq!(resp.get_content(), b"301: Moved Permanently");
}

#[test]
pub fn static_choices() {
    let file = PathProbe {
        inside_root: true,
        exists: true,
        is_dir: false,
        ends_with_slash: false,
        has_index: false,
    };
    assert_eq!(static_action(file), StaticAction::ServeFile);
    assert_eq!(static_action(PathProbe { exists: false, ..file }), StaticAction::Decline);
    assert_eq!(static_action(PathProbe { inside_root: false, ..file }), StaticAction::Decline);
    let dir = PathProbe { is_dir: true, ..file };
    assert_eq!(static_action(dir), StaticAction::Redirect);
    let dir = PathProbe { ends_with_slash: true, ..dir };
    assert_eq!(static_action(dir), StaticAction::Decline);
    assert_eq!(static_action(PathProbe { has_index: true, ..dir }), StaticAction::ServeIndex);
    assert_eq!(relative_path("/a/b"), "a/b");
    assert_eq!(relative_path("a/b"), "a/b");
    assert_eq!(relative_path(""), "");
}

#[test]
pub fn dynamic_request_is_handed_over() {
    let req = HttpRequest::parse(b"GET /api HTTP/1.1\r\nHost: x\r\n\r\n").unwrap();
    let mut d = DynamicDispatch::new("5_0".to_string());
    assert_eq!(d.phase(), DynamicPhase::Idle);
    match d.step(&req, DynamicEvent::Start) {
        DynamicAction::CreateChannel { path } => assert_eq!(path, "/tmp/jwx_client_5_0.out"),
        other => panic!("{:?}", other),
    }
    match d.step(&req, DynamicEvent::Done) {
        DynamicAction::CreateChannel { path } => assert_eq!(path, "/tmp/jwx_client_5_0.in"),
        other => panic!("{:?}", other),
    }
    match d.step(&req, DynamicEvent::Done) {
        DynamicAction::Announce(IpcMessage::Request { request_path }) => {
            assert_eq!(request_path, "5_0")
        }
        other => panic!("{:?}", other),
    }
    match d.step(&req, DynamicEvent::Reply(IpcMessage::Okay)) {
        DynamicAction::WriteRequest { path, bytes } => {
            assert_eq!(path, "/tmp/jwx_client_5_0.out");
            assert_eq!(bytes, frame(&req.serialize()));
        }
        other => panic!("{:?}", other),
    }
    match d.step(&req, DynamicEvent::Done) {
        DynamicAction::ReadResponse { path } => assert_eq!(path, "/tmp/jwx_client_5_0.in"),
        other => panic!("{:?}", other),
    }
    match d.step(&req, DynamicEvent::Response(b"HTTP/1.1 200 OK\r\n\r\n".to_vec())) {
        DynamicAction::WriteToClient(bytes) => assert_eq!(bytes, b"HTTP/1.1 200 OK\r\n\r\n".to_vec()),
        other => panic!("{:?}", other),
    }
    assert!(!d.succeeded());
    assert!(matches!(d.step(&req, DynamicEvent::Done), DynamicAction::RemoveChannels { .. }));
    assert!(d.succeeded());
}

#[test]
pub fn dynamic_request_fails_without_an_answer() {
    let req = HttpRequest::parse(b"GET /api HTTP/1.1\r\n\r\n").unwrap();
    let mut d = DynamicDispatch::new("5_1".to_string());
    d.step(&req, DynamicEvent::Start);
    d.step(&req, DynamicEvent::Done);
    d.step(&req, DynamicEvent::Done);
    assert!(matches!(d.step(&req, DynamicEvent::Reply(IpcMessage::Close)), DynamicAction::GiveUp));
    assert_eq!(d.phase(), DynamicPhase::Failed);
    assert!(matches!(d.step(&req, DynamicEvent::Start), DynamicAction::GiveUp));

    let mut d = DynamicDispatch::new("5_2".to_string());
    d.step(&req, DynamicEvent::Start);
    assert!(matches!(d.step(&req, DynamicEvent::Failed), DynamicAction::GiveUp));

    let mut d = DynamicDispatch::new("5_3".to_string());
    d.step(&req, DynamicEvent::Start);
    d.step(&req, DynamicEvent::Done);
    d.step(&req, DynamicEvent::Done);
    d.step(&req, DynamicEvent::Reply(IpcMessage::Okay));
    d.step(&req, DynamicEvent::Done);
    assert!(matches!(d.step(&req, DynamicEvent::Response(Vec::new())), DynamicAction::GiveUp));
    assert!(!d.succeeded());
}

#[test]
pub fn connection_collects_bytes_until_nothing_is_at_hand() {
    let mut c = Connection::new();
    assert!(matches!(c.on_read(ReadOutcome::WouldBlock), ConnectionAction::Read));
    assert!(matches!(c.on_read(ReadOutcome::Data(b"GET / HT".to_vec())), ConnectionAction::Read));
    assert!(matches!(
        c.on_read(ReadOutcome::Data(b"TP/1.1\r\n\r\n".to_vec())),
        ConnectionAction::Read
    ));
    match c.on_read(ReadOutcome::WouldBlock) {
        ConnectionAction::Handle(req) => assert_eq!(req.url.uri, "/"),
        other => panic!("{:?}", other),
    }
    assert!(matches!(c.on_read(ReadOutcome::Data(b"junk".to_vec())), ConnectionAction::Read));
    assert!(matches!(c.on_read(ReadOutcome::WouldBlock), ConnectionAction::Read));
    assert!(matches!(c.on_read(ReadOutcome::WouldBlock), ConnectionAction::Read));
    assert!(matches!(c.on_read(ReadOutcome::Data(Vec::new())), ConnectionAction::Close));
    assert!(matches!(c.on_read(ReadOutcome::Failed), ConnectionAction::Close));
}

#[test]
pub fn stages_follow_each_other() {
    assert_eq!(next_stage(Stage::Static, true), Stage::Answered);
    assert_eq!(next_stage(Stage::Static, false), Stage::Dynamic);
    assert_eq!(next_stage(Stage::Dynamic, true), Stage::Answered);
    assert_eq!(next_stage(Stage::Dynamic, false), Stage::Fallback);
    assert_eq!(next_stage(Stage::Fallback, true), Stage::Answered);
    assert_eq!(next_stage(Stage::Fallback, false), Stage::Broken);
    assert_eq!(next_stage(Stage::Answered, false), Stage::Answered);
    assert_eq!(next_stage(Stage::Broken, true), Stage::Broken);
}

#[test]
pub fn configuration_keeps_endpoints_and_folders() {
    let mut mgr = ConfigMgr::new("./config");
    assert_eq!(mgr.config_directory(), "./config");
    mgr.add_library_folder("./lib/?.lua");
    mgr.add_library_folder("./more/?.lua");
    mgr.set_endpoint("/a", "a.lua");
    mgr.set_endpoint("/b", "b.lua");
    mgr.set_endpoint("/a", "c.lua");
    mgr.remove_endpoint("/b");
    mgr.remove_endpoint("/zzz");
    assert_eq!(mgr.get_endpoints().len(), 1);
    assert_eq!(mgr.get_endpoints().get("/a").unwrap(), "c.lua");
    assert_eq!(mgr.get_library_folders().len(), 2);
    assert_eq!(mgr.library_path("./?.lua"), "./lib/?.lua;./more/?.lua;./?.lua");
    assert_eq!(ConfigMgr::new("x").library_path("p"), "p");
    mgr.replace(StringMap::new(), vec!["z".to_string()]);
    assert_eq!(mgr.get_endpoints().len(), 0);
    assert_eq!(mgr.library_path(""), "z;");
}

#[test]
pub fn request_ids_differ() {
    let mut seen = std::collections::HashSet::new();
    for process in [0u32, 1, 11, 111] {
        for count in [0usize, 1, 11, 111] {
            assert!(seen.insert(request_name(process, count)));
        }
    }
}
