use jwx_rs::http::http_message::{HttpMessage, HttpMethod, HttpVersion};
use jwx_rs::http::http_request::HttpRequest;
use jwx_rs::http::http_response::{code_to_http_status, HttpResponse};
use jwx_rs::string_map::StringMap;

#[test]
pub fn test_http_request() {
    let data = b"GET / HTTP/1.1\r\nHost: example.org\r\n\r\n";

    let req = HttpRequest::parse(data);
    assert!(req.is_some());

    let req = req.unwrap();
    assert_eq!(req.method, HttpMethod::Get);
    assert_eq!(req.url.uri, "/");
    assert_eq!(req.headers.len(), 1);
    assert_eq!(req.headers.get("Host").unwrap(), "example.org");
}

#[test]
pub fn request_body_is_kept_without_content_length() {
    let data = b"POST /submit HTTP/1.1\r\nHost: x\r\n\r\nhello\r\nworld";
    let req = HttpRequest::parse(data).unwrap();
    assert_eq!(req.method, HttpMethod::Post);
    assert_eq!(req.version, HttpVersion::Http1_1);
    assert!(req.headers.get("Content-Length").is_none());
    assert_eq!(req.content, b"hello\r\nworld".to_vec());
}

#[test]
pub fn request_round_trip() {
    let data = b"put /a/b?x=1&y=2 HTTP/1.0\r\nHost: example.org\r\nAccept: */*\r\n\r\nbody";
    let req = HttpRequest::parse(data).unwrap();
    let bytes = req.serialize();
    assert_eq!(
        bytes,
        b"PUT /a/b?x=1&y=2 HTTP/1.0\r\nHost: example.org\r\nAccept: */*\r\n\r\nbody".to_vec()
    );
    let again = HttpRequest::parse(&bytes).unwrap();
    assert_eq!(again.method, HttpMethod::Put);
    assert_eq!(again.version, HttpVersion::Http1_0);
    assert_eq!(again.url.uri, "/a/b");
    assert_eq!(again.url.queries.get("x").unwrap(), "1");
    assert_eq!(again.url.queries.get("y").unwrap(), "2");
    assert_eq!(again.headers.len(), 2);
    assert_eq!(again.headers.get("Host").unwrap(), "example.org");
    assert_eq!(again.headers.get("Accept").unwrap(), "*/*");
    assert_eq!(again.content, b"body".to_vec());
}

#[test]
pub fn request_rejects_bad_input() {
    assert!(HttpRequest::parse(b"").is_none());
    assert!(HttpRequest::parse(b"FETCH / HTTP/1.1\r\n\r\n").is_none());
    assert!(HttpRequest::parse(b"GET / HTTP/2.0\r\n\r\n").is_none());
    assert!(HttpRequest::parse(b"GET / http/1.1\r\n\r\n").is_none());
    assert!(HttpRequest::parse(b"GET /\r\n\r\n").is_none());
    assert!(HttpRequest::parse(b"GET /\xff HTTP/1.1\r\n\r\n").is_none());
    assert!(HttpRequest::parse(b"GET / HTTP/1.1\r\nA: \xc3\x28\r\n\r\n").is_none());
}

#[test]
pub fn malformed_header_lines_are_dropped() {
    let data = b"GET / HTTP/1.1\r\nno separator\r\nEmpty: \r\nA:  b \r\nA: c\r\n\r\n";
    let req = HttpRequest::parse(data).unwrap();
    assert_eq!(req.headers.len(), 1);
    assert_eq!(req.headers.get("A").unwrap(), "c");
}

#[test]
pub fn response_new_sets_content_length() {
    let mut headers = StringMap::new();
    headers.insert("Content-Length".to_string(), "999".to_string());
    headers.insert("Content-Type".to_string(), "text/plain".to_string());
    let resp = HttpResponse::new(404, headers, b"gone".to_vec(), HttpVersion::Http1_1);
    assert_eq!(resp.code(), 404);
    assert_eq!(resp.get_headers().get("Content-Length").unwrap(), "4");
    assert_eq!(
        resp.serialize(),
        b"HTTP/1.1 404 Not Found\r\nContent-Length: 4\r\nContent-Type: text/plain\r\n\r\ngone"
            .to_vec()
    );
}

#[test]
pub fn response_parse_keeps_code_and_version() {
    let resp = HttpResponse::parse(b"HTTP/1.0 +200 OK\r\nX: y\r\n\r\nabc").unwrap();
    assert_eq!(resp.code(), 200);
    assert_eq!(resp.version(), HttpVersion::Http1_0);
    assert_eq!(resp.get_content(), b"abc");
    assert_eq!(resp.get_headers().get("Content-Length").unwrap(), "3");
    assert!(HttpResponse::parse(b"HTTP/1.1 200\r\n\r\n").is_none());
    assert!(HttpResponse::parse(b"HTTP/1.1 65536 Big\r\n\r\n").is_none());
    assert!(HttpResponse::parse(b"HTTP/1.1 2x0 OK\r\n\r\n").is_none());
}

#[test]
pub fn unknown_status_is_written_as_unknown() {
    let resp = HttpResponse::new(799, StringMap::new(), Vec::new(), HttpVersion::Http1_1);
    assert_eq!(resp.get_first_line(), "HTTP/1.1 799 Unknown\r\n");
    assert_eq!(code_to_http_status(799), None);
    assert_eq!(code_to_http_status(200), Some("OK"));
    assert_eq!(code_to_http_status(418), Some("I'm a teapot"));
    assert_eq!(code_to_http_status(511), Some("Network Authentication Required"));
}

#[test]
pub fn method_and_version_tokens() {
    assert_eq!(HttpMethod::from_str("get"), Some(HttpMethod::Get));
    assert_eq!(HttpMethod::from_str("PaTcH"), Some(HttpMethod::Patch));
    assert_eq!(HttpMethod::from_str("OPTIONS"), Some(HttpMethod::Options));
    assert_eq!(HttpMethod::from_str("GETS"), None);
    assert_eq!(HttpMethod::Delete.to_str(), "DELETE");
    assert_eq!(HttpVersion::from_str("HTTP/1.0"), Some(HttpVersion::Http1_0));
    assert_eq!(HttpVersion::from_str("http/1.0"), None);
    assert_eq!(HttpVersion::Http1_1.to_str(), "HTTP/1.1");
}

#[test]
pub fn what_is_written_reads_back() {
    let inputs: [&[u8]; 4] = [
        b"GET / HTTP/1.1\r\n\r\n",
        b"delete /a\tb?k=v&k=w&x=%20 HTTP/1.0\r\nA: 1\r\nB: two words\r\nA: 3\r\n\r\n\x00\xffraw",
        b"POST /?=v HTTP/1.1\r\n: odd\r\nName:: x\r\n",
        b"OPTIONS * HTTP/1.1",
    ];
    for data in inputs {
        let first = HttpRequest::parse(data).unwrap();
        let written = first.serialize();
        let second = HttpRequest::parse(&written).unwrap();
        assert_eq!(second.method, first.method);
        assert_eq!(second.version, first.version);
        assert_eq!(second.url.uri, first.url.uri);
        assert_eq!(second.url.queries.len(), first.url.queries.len());
        for i in 0..first.url.queries.len() {
            assert_eq!(second.url.queries.key_at(i), first.url.queries.key_at(i));
            assert_eq!(second.url.queries.value_at(i), first.url.queries.value_at(i));
        }
        assert_eq!(second.headers.len(), first.headers.len());
        for i in 0..first.headers.len() {
            assert_eq!(second.headers.key_at(i), first.headers.key_at(i));
            assert_eq!(second.headers.value_at(i), first.headers.value_at(i));
        }
        assert_eq!(second.content, first.content);
        assert_eq!(second.serialize(), written);
    }
}

#[test]
pub fn what_does_not_read_back() {
    // A path that is empty, with no parameter.
    let first = HttpRequest::parse(b"GET ? HTTP/1.1\r\n\r\n").unwrap();
    assert_eq!(first.url.uri, "");
    assert_eq!(first.serialize(), b"GET  HTTP/1.1\r\n\r\n".to_vec());
    assert!(HttpRequest::parse(&first.serialize()).is_none());
    // A path that ends in whitespace, with no parameter.
    let first = HttpRequest::parse(b"GET /a\t? HTTP/1.1\r\n\r\n").unwrap();
    assert_eq!(first.url.uri, "/a\t");
    assert_eq!(HttpRequest::parse(&first.serialize()).unwrap().url.uri, "/a");
    // A header whose value is empty.
    let first = HttpRequest::parse(b"GET / HTTP/1.1\r\nA:  \r\n\r\n").unwrap();
    assert_eq!(first.headers.get("A").unwrap(), "");
    assert_eq!(HttpRequest::parse(&first.serialize()).unwrap().headers.len(), 0);
}

#[test]
pub fn built_response_reads_back() {
    let mut headers = StringMap::new();
    headers.insert("Content-Type".to_string(), "text/plain".to_string());
    for content in [&b""[..], &b"some\r\n\r\nbody"[..]] {
        let mut given = StringMap::new();
        for i in 0..headers.len() {
            given.insert(headers.key_at(i).clone(), headers.value_at(i).clone());
        }
        let first = HttpResponse::new(418, given, content.to_vec(), HttpVersion::Http1_0);
        let second = HttpResponse::parse(&first.serialize()).unwrap();
        assert_eq!(second.code(), 418);
        assert_eq!(second.version(), HttpVersion::Http1_0);
        assert_eq!(second.get_content(), content);
        assert_eq!(second.get_headers().len(), 2);
        assert_eq!(second.get_headers().get("Content-Type").unwrap(), "text/plain");
        assert_eq!(
            second.get_headers().get("Content-Length").unwrap(),
            &content.len().to_string()
        );
        assert_eq!(second.serialize(), first.serialize());
    }
}

#[test]
pub fn content_is_what_follows_the_first_empty_line() {
    let req = HttpRequest::parse(b"GET / HTTP/1.1\r\nContent-Length: 2\r\n\r\nmore\r\n\r\nthan two")
        .unwrap();
    assert_eq!(req.content, b"more\r\n\r\nthan two".to_vec());
    let req = HttpRequest::parse(b"GET / HTTP/1.1\r\nA: b\r\nno empty line").unwrap();
    assert_eq!(req.content, Vec::<u8>::new());
    assert_eq!(req.headers.len(), 1);
    let req = HttpRequest::parse(b"GET / HTTP/1.1\r\n\r\n").unwrap();
    assert_eq!(req.content, Vec::<u8>::new());
}
