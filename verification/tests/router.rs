use jwx_rs::behaviours::behaviour::{Behaviour, BehaviourError};
use jwx_rs::behaviours::behaviour_router::{
    bind_parameters, not_found, respond, BehaviourRouter, Route, RoutePartType,
};
use jwx_rs::http::http_message::{HttpMessage, HttpVersion};
use jwx_rs::http::http_request::HttpRequest;
use jwx_rs::http::http_response::HttpResponse;
use jwx_rs::string_map::StringMap;

struct Echo {
    label: String,
    param: String,
}

impl Behaviour for Echo {
    fn run(&self, _request: &HttpRequest, params: StringMap) -> Result<HttpResponse, BehaviourError> {
        if self.label == "fail" {
            return Err(BehaviourError { message: "boom".to_string() });
        }
        let mut body = self.label.clone();
        if let Some(v) = params.get(&self.param) {
            body.push(':');
            body.push_str(v);
        }
        Ok(HttpResponse::new(200, StringMap::new(), body.into_bytes(), HttpVersion::Http1_1))
    }
}

fn echo(label: &str, param: &str) -> Echo {
    Echo { label: label.to_string(), param: param.to_string() }
}

fn request(path: &str) -> HttpRequest {
    let text = format!("GET {} HTTP/1.1\r\n\r\n", path);
    HttpRequest::parse(text.as_bytes()).unwrap()
}

#[test]
pub fn route_parse_kinds() {
    let route = Route::parse("/files/{name}/{}/raw");
    let parts = route.parts();
    assert_eq!(parts.len(), 4);
    assert_eq!(parts[0].name(), "files");
    assert_eq!(parts[0].part_type(), RoutePartType::PLAIN);
    assert_eq!(parts[1].name(), "name");
    assert_eq!(parts[1].part_type(), RoutePartType::PARAMETER);
    assert_eq!(parts[2].name(), "");
    assert_eq!(parts[2].part_type(), RoutePartType::IGNORE);
    assert_eq!(parts[3].name(), "raw");
    assert_eq!(parts[3].part_type(), RoutePartType::PLAIN);
    assert_eq!(route.to_string(), "/files/{name}/{}/raw");
}

#[test]
pub fn route_parse_edges() {
    assert_eq!(Route::parse("").len(), 0);
    assert_eq!(Route::parse("/").len(), 0);
    assert_eq!(Route::parse("a/b").len(), 2);
    assert_eq!(Route::parse("/a/").len(), 1);
    let odd = Route::parse("/a//b");
    assert_eq!(odd.len(), 3);
    assert_eq!(odd.parts()[1].name(), "");
    assert_eq!(odd.parts()[1].part_type(), RoutePartType::PLAIN);
    let brace = Route::parse("/{");
    assert_eq!(brace.parts()[0].part_type(), RoutePartType::PLAIN);
    let wide = Route::parse("/{\u{e9}}");
    assert_eq!(wide.parts()[0].part_type(), RoutePartType::PARAMETER);
    assert_eq!(wide.parts()[0].name(), "\u{e9}");
}

#[test]
pub fn uri_parts_are_the_non_empty_segments() {
    assert_eq!(BehaviourRouter::<Echo>::get_uri_parts("/"), Vec::<String>::new());
    assert_eq!(BehaviourRouter::<Echo>::get_uri_parts(""), Vec::<String>::new());
    assert_eq!(
        BehaviourRouter::<Echo>::get_uri_parts("/a/b"),
        vec!["a".to_string(), "b".to_string()]
    );
    assert_eq!(
        BehaviourRouter::<Echo>::get_uri_parts("//a///b/"),
        vec!["a".to_string(), "b".to_string()]
    );
}

#[test]
pub fn plain_route_is_preferred_over_parameter() {
    let router = BehaviourRouter::new(vec![
        ("/a/{x}".to_string(), echo("param", "x")),
        ("/a/b".to_string(), echo("plain", "x")),
    ]);
    let (route, handler) = router.get("/a/b").unwrap();
    assert_eq!(route.to_string(), "/a/b");
    assert_eq!(handler.label, "plain");
    let (route, handler) = router.get("/a/c").unwrap();
    assert_eq!(route.to_string(), "/a/{x}");
    assert_eq!(handler.label, "param");

    let router = BehaviourRouter::new(vec![
        ("/a/b".to_string(), echo("plain", "x")),
        ("/a/{x}".to_string(), echo("param", "x")),
    ]);
    let (route, _) = router.get("/a/b").unwrap();
    assert_eq!(route.to_string(), "/a/b");
}

#[test]
pub fn longest_route_wins() {
    let router = BehaviourRouter::new(vec![
        ("/".to_string(), echo("root", "")),
        ("/a".to_string(), echo("a", "")),
        ("/a/{x}/c".to_string(), echo("deep", "x")),
    ]);
    assert_eq!(router.get("/").unwrap().1.label, "root");
    assert_eq!(router.get("/zzz").unwrap().1.label, "root");
    assert_eq!(router.get("/a").unwrap().1.label, "a");
    assert_eq!(router.get("/a/b").unwrap().1.label, "a");
    assert_eq!(router.get("/a/b/c").unwrap().1.label, "deep");
    assert_eq!(router.get("/a/b/c/d").unwrap().1.label, "deep");
}

#[test]
pub fn later_route_with_same_labels_stands() {
    let router = BehaviourRouter::new(vec![
        ("/a/{x}".to_string(), echo("first", "x")),
        ("/a/{y}".to_string(), echo("second", "y")),
    ]);
    let (route, handler) = router.get("/a/1").unwrap();
    assert_eq!(route.to_string(), "/a/{y}");
    assert_eq!(handler.label, "second");
}

#[test]
pub fn parameters_are_bound_by_position() {
    let route = Route::parse("/files/{name}");
    let parts = vec!["files".to_string(), "report.pdf".to_string()];
    let params = bind_parameters(&route, &parts);
    assert_eq!(params.len(), 1);
    assert_eq!(params.get("name").unwrap(), "report.pdf");

    let route = Route::parse("/{a}/{}/{b}/{c}");
    let parts = vec!["1".to_string(), "2".to_string(), "3".to_string()];
    let params = bind_parameters(&route, &parts);
    assert_eq!(params.len(), 2);
    assert_eq!(params.get("a").unwrap(), "1");
    assert_eq!(params.get("b").unwrap(), "3");

    let route = Route::parse("/{a}");
    let parts = vec!["1".to_string(), "2".to_string()];
    assert_eq!(bind_parameters(&route, &parts).len(), 1);
}

#[test]
pub fn unregistered_path_is_not_found() {
    let router = BehaviourRouter::new(vec![("/a".to_string(), echo("a", ""))]);
    assert!(router.get("/nope").is_none());
    let resp = router.run(&request("/nope"));
    assert_eq!(resp.code(), 404);
    assert_eq!(resp.get_content(), b"404: Not Found");
    assert_eq!(resp.get_headers().get("Content-Length").unwrap(), "14");
    assert_eq!(resp.version(), HttpVersion::Http1_1);
    assert_eq!(not_found(HttpVersion::Http1_0).version(), HttpVersion::Http1_0);
}

#[test]
pub fn handler_gets_the_bound_parameter() {
    let router = BehaviourRouter::new(vec![("/api/users/{id}".to_string(), echo("user", "id"))]);
    let resp = router.run(&request("/api/users/42"));
    assert_eq!(resp.code(), 200);
    assert_eq!(resp.get_content(), b"user:42");
}

#[test]
pub fn handler_failure_becomes_500() {
    let router = BehaviourRouter::new(vec![("/x".to_string(), echo("fail", ""))]);
    let resp = router.run(&request("/x"));
    assert_eq!(resp.code(), 500);
    assert_eq!(resp.get_content(), b"500: Internal server error: boom");
    assert_eq!(resp.get_headers().get("Content-Length").unwrap(), "32");
    let direct = respond(
        Err(BehaviourError { message: "boom".to_string() }),
        HttpVersion::Http1_1,
    );
    assert_eq!(direct.serialize(), resp.serialize());
}

#[test]
pub fn plain_routes_resolve_like_a_lookup() {
    let router = BehaviourRouter::new(vec![
        ("/a".to_string(), echo("a", "")),
        ("/a/b".to_string(), echo("ab", "")),
        ("/c/d/e".to_string(), echo("cde", "")),
    ]);
    assert_eq!(router.get("/a").unwrap().1.label, "a");
    assert_eq!(router.get("/a/b").unwrap().1.label, "ab");
    assert_eq!(router.get("/c/d/e").unwrap().1.label, "cde");
    assert!(router.get("/c").is_none());
    assert!(router.get("/c/d").is_none());
    assert!(router.get("/x/y").is_none());
    assert!(router.get("/").is_none());
    // A path that is not filed itself resolves to the longest filed beginning.
    assert_eq!(router.get("/a/z").unwrap().1.label, "a");
    assert_eq!(router.get("/a/b/z").unwrap().1.label, "ab");
}

#[test]
pub fn literal_is_preferred_at_any_depth() {
    let router = BehaviourRouter::new(vec![
        ("/v/{x}/items/{y}".to_string(), echo("any", "y")),
        ("/v/{x}/items/all".to_string(), echo("literal", "x")),
        ("/{a}/{b}/{c}/{d}".to_string(), echo("wide", "a")),
    ]);
    assert_eq!(router.get("/v/1/items/all").unwrap().1.label, "literal");
    assert_eq!(router.get("/v/1/items/2").unwrap().1.label, "any");
    assert_eq!(router.get("/w/1/items/2").unwrap().1.label, "wide");
}
