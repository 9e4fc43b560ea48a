//! Requests: a method, a target, a version, headers and a body.

use crate::http::http_message::{
    crlf, header_line_applied, headers_loaded, line_end, line_next, loaded, method_from,
    method_text, version_from, version_text, HttpMessage, HttpMessageModel, HttpMethod,
    HttpVersion,
};
use crate::string_map::{assoc_insert, Pair, StringMap};
use crate::text::{char_len, find, find_char, lemma_find_from, trim, trimmed};
use crate::url::{parse_url, url_string, UrlView, URL};
use vstd::prelude::*;
use vstd::string::*;

verus! {

/// A request as mathematical values.
pub struct RequestView {
    pub method: HttpMethod,
    pub headers: Seq<Pair>,
    pub content: Seq<u8>,
    pub version: HttpVersion,
    pub url: UrlView,
}

/// A request.
#[derive(Debug)]
pub struct HttpRequest {
    pub method: HttpMethod,
    pub headers: StringMap,
    pub content: Vec<u8>,
    pub version: HttpVersion,
    pub url: URL,
}

impl View for HttpRequest {
    type V = RequestView;

    open spec fn view(&self) -> RequestView {
        RequestView {
            method: self.method,
            headers: self.headers.entries(),
            content: self.content@,
            version: self.version,
            url: self.url@,
        }
    }
}

/// The request that reading starts from: nothing in it yet.
pub open spec fn blank_request() -> RequestView {
    RequestView {
        method: HttpMethod::Get,
        headers: Seq::empty(),
        content: Seq::empty(),
        version: HttpVersion::Http1_0,
        url: UrlView { uri: Seq::empty(), queries: Seq::empty() },
    }
}

/// The request that `data` holds, or `None` where it holds none.
pub open spec fn parse_request(data: Seq<u8>) -> Option<RequestView> {
    loaded::<HttpRequest>(blank_request(), data)
}

/// What a request line `METHOD target VERSION` says. The method is all that
/// stands before the first space; of the rest, trimmed, the target is all
/// that stands before the first space and the version what follows.
pub open spec fn request_line_parsed(v: RequestView, line: Seq<char>) -> Option<RequestView> {
    match find(line, seq![' ']) {
        Some(i) => if 0 <= i <= line.len() {
            let rest = trimmed(line.subrange(i, line.len() as int));
            match (method_from(trimmed(line.subrange(0, i))), find(rest, seq![' '])) {
                (Some(method), Some(j)) => if 0 <= j <= rest.len() {
                    match version_from(trimmed(rest.subrange(j, rest.len() as int))) {
                        Some(version) => Some(
                            RequestView {
                                method,
                                version,
                                url: parse_url(trimmed(rest.subrange(0, j))),
                                ..v
                            },
                        ),
                        None => None,
                    }
                } else {
                    None
                },
                _ => None,
            }
        } else {
            None
        },
        None => None,
    }
}

/// What follows the first empty line at or after `from`, where `from` is
/// the start of a line; nothing where no line is empty.
pub open spec fn after_empty_line(data: Seq<u8>, from: int) -> Seq<u8>
    decreases data.len() - from,
{
    if from < 0 || from >= data.len() {
        Seq::empty()
    } else if line_end(data, from) == from {
        data.subrange(line_next(data, from), data.len() as int)
    } else {
        proof {
            lemma_find_from(data, crlf(), from);
        }
        after_empty_line(data, line_next(data, from))
    }
}

/// Reading headers adds to the content what follows the first empty line,
/// whatever the headers say.
pub proof fn lemma_content_after_headers(v: RequestView, data: Seq<u8>, from: int)
    requires
        0 <= from <= data.len(),
        headers_loaded::<HttpRequest>(v, data, from) is Some,
    ensures
        headers_loaded::<HttpRequest>(v, data, from)->0.content == v.content + after_empty_line(
            data,
            from,
        ),
    decreases data.len() - from,
{
    if from < data.len() {
        lemma_find_from(data, crlf(), from);
        let end = line_end(data, from);
        let next = line_next(data, from);
        if end == from {
            if next >= data.len() {
                assert(v.content + after_empty_line(data, from) =~= v.content);
            }
        } else {
            let line = vstd::utf8::decode_utf8(data.subrange(from, end));
            let after = header_line_applied::<HttpRequest>(v, line);
            assert(after.content == v.content);
            lemma_content_after_headers(after, data, next);
        }
    } else {
        assert(v.content + after_empty_line(data, from) =~= v.content);
    }
}

/// The content of a request that was read is what follows the first empty
/// line behind the request line, byte for byte. No header has a say in it.
pub proof fn lemma_content_is_verbatim(data: Seq<u8>)
    requires
        parse_request(data) is Some,
    ensures
        parse_request(data)->0.content == after_empty_line(data, line_next(data, 0)),
{
    lemma_find_from(data, crlf(), 0);
    let end = line_end(data, 0);
    let line = vstd::utf8::decode_utf8(data.subrange(0, end));
    let first = request_line_parsed(blank_request(), line)->0;
    lemma_content_after_headers(first, data, line_next(data, 0));
    assert(Seq::<u8>::empty() + after_empty_line(data, line_next(data, 0)) =~= after_empty_line(
        data,
        line_next(data, 0),
    ));
}

impl HttpMessageModel for HttpRequest {
    open spec fn first_line_parsed(v: RequestView, line: Seq<char>) -> Option<RequestView> {
        request_line_parsed(v, line)
    }

    open spec fn header_registered(
        v: RequestView,
        name: Seq<char>,
        value: Seq<char>,
    ) -> RequestView {
        RequestView { headers: assoc_insert(v.headers, name, value), ..v }
    }

    open spec fn content_registered(v: RequestView, data: Seq<u8>) -> RequestView {
        RequestView { content: v.content + data, ..v }
    }

    open spec fn first_line_of(v: RequestView) -> Seq<char> {
        method_text(v.method) + seq![' '] + url_string(v.url) + seq![' '] + version_text(v.version)
            + seq!['\r', '\n']
    }

    open spec fn headers_of(v: RequestView) -> Seq<Pair> {
        v.headers
    }

    open spec fn content_of(v: RequestView) -> Seq<u8> {
        v.content
    }
}

impl HttpMessage for HttpRequest {
    fn parse_first_line(&mut self, line: &str) -> (ok: bool) {
        let i = match find_char(line, ' ') {
            Some(i) => i,
            None => {
                return false;
            },
        };
        proof {
            lemma_find_from(line@, seq![' '], 0);
        }
        let n = char_len(line);
        let method = match HttpMethod::from_str(trim(line.substring_char(0, i))) {
            Some(method) => method,
            None => {
                return false;
            },
        };
        let rest = trim(line.substring_char(i, n));
        let j = match find_char(rest, ' ') {
            Some(j) => j,
            None => {
                return false;
            },
        };
        proof {
            lemma_find_from(rest@, seq![' '], 0);
        }
        let k = char_len(rest);
        let version = match HttpVersion::from_str(trim(rest.substring_char(j, k))) {
            Some(version) => version,
            None => {
                return false;
            },
        };
        let url = match URL::parse(trim(rest.substring_char(0, j))) {
            Some(url) => url,
            None => {
                return false;
            },
        };
        self.method = method;
        self.version = version;
        self.url = url;
        true
    }

    fn get_first_line(&self) -> (line: String) {
        let mut line = String::new();
        line.append(self.method.to_str());
        line.append(" ");
        line.append(self.url.to_string().as_str());
        line.append(" ");
        line.append(self.version.to_str());
        line.append("\r\n");
        proof {
            reveal_strlit(" ");
            reveal_strlit("\r\n");
            assert(line@ =~= Self::first_line_of(self@));
        }
        line
    }

    fn get_headers(&self) -> (headers: &StringMap) {
        &self.headers
    }

    fn get_content(&self) -> (content: &[u8]) {
        self.content.as_slice()
    }

    fn register_header(&mut self, name: &str, value: &str) {
        self.headers.insert(name.to_owned(), value.to_owned());
    }

    fn register_content(&mut self, data: &[u8]) {
        self.content.extend_from_slice(data);
        assert(self.content@ =~= old(self).content@ + data@);
    }
}

impl HttpRequest {
    /// Reads a request from `data`.
    pub fn parse(data: &[u8]) -> (r: Option<HttpRequest>)
        ensures
            r is Some <==> parse_request(data@) is Some,
            r matches Some(request) ==> Some(request@) == parse_request(data@),
    {
        let mut this = HttpRequest {
            method: HttpMethod::Get,
            headers: StringMap::new(),
            content: Vec::new(),
            version: HttpVersion::Http1_0,
            url: URL { uri: String::new(), queries: StringMap::new() },
        };
        assert(this@ == blank_request());
        if this.load(data) {
            return Some(this);
        }
        None
    }
}

} // verus!
