//! Responses: a status code, a version, headers and a body.

use crate::http::http_message::{
    loaded, version_from, version_text, HttpMessage, HttpMessageModel, HttpVersion,
};
use crate::string_map::{assoc_insert, Pair, StringMap};
use crate::text::{
    append_decimal, char_len, decimal, find, find_char, lemma_find_from, parse_u16, str_to_u16,
    to_decimal, trim, trimmed,
};
use vstd::prelude::*;
use vstd::slice::slice_to_vec;
use vstd::string::*;

verus! {

/// The reason phrase of a status code, for the codes that have one.
pub open spec fn status_text(code: u16) -> Option<Seq<char>> {
    match code {
        100 => Some("Continue"@),
        101 => Some("Switching Protocols"@),
        102 => Some("Processing"@),
        103 => Some("Early Hints"@),
        200 => Some("OK"@),
        201 => Some("Created"@),
        202 => Some("Accepted"@),
        203 => Some("Non-Authoritative Information"@),
        204 => Some("No Content"@),
        205 => Some("Reset Content"@),
        206 => Some("Partial Content"@),
        207 => Some("Multi-Status"@),
        208 => Some("Already Reported"@),
        226 => Some("IM Used"@),
        300 => Some("Multiple Choices"@),
        301 => Some("Moved Permanently"@),
        302 => Some("Found"@),
        303 => Some("See Other"@),
        304 => Some("Not Modified"@),
        305 => Some("Use Proxy"@),
        307 => Some("Temporary Redirect"@),
        308 => Some("Permanent Redirect"@),
        400 => Some("Bad Request"@),
        401 => Some("Unauthorized"@),
        402 => Some("Payment Required"@),
        403 => Some("Forbidden"@),
        404 => Some("Not Found"@),
        405 => Some("Method Not Allowed"@),
        406 => Some("Not Acceptable"@),
        407 => Some("Proxy Authentication Required"@),
        408 => Some("Request Timeout"@),
        409 => Some("Conflict"@),
        410 => Some("Gone"@),
        411 => Some("Length Required"@),
        412 => Some("Precondition Required"@),
        413 => Some("Payload Too Large"@),
        414 => Some("URI Too Long"@),
        415 => Some("Unsupported Media Type"@),
        416 => Some("Range Not Satisfiable"@),
        417 => Some("Expectation Failed"@),
        418 => Some("I'm a teapot"@),
        421 => Some("Misdirected Request"@),
        422 => Some("Unprocessable Entity"@),
        423 => Some("Locked"@),
        424 => Some("Failed Dependency"@),
        425 => Some("Too Many Requests"@),
        426 => Some("Upgrade Required"@),
        428 => Some("Precondition Required"@),
        429 => Some("Too Many Requests"@),
        431 => Some("Request Header Fields Too Large"@),
        451 => Some("Unavailable For Legal Reasons"@),
        500 => Some("Internal Server Error"@),
        501 => Some("Not Implemented"@),
        502 => Some("Bad Gateway"@),
        503 => Some("Service Unavailable"@),
        504 => Some("Gateway Timeout"@),
        505 => Some("HTTP Version Not Supported"@),
        506 => Some("Variant Also Negotiates"@),
        507 => Some("Insufficient Storage"@),
        508 => Some("Loop Detected"@),
        510 => Some("Not Extended"@),
        511 => Some("Network Authentication Required"@),
        _ => None,
    }
}

/// The reason phrase of a status code, or `None` for a code without one.
pub fn code_to_http_status(code: u16) -> (r: Option<&'static str>)
    ensures
        r is Some <==> status_text(code) is Some,
        r matches Some(text) ==> Some(text@) == status_text(code),
{
    Some(match code {
        100 => "Continue",
        101 => "Switching Protocols",
        102 => "Processing",
        103 => "Early Hints",
        200 => "OK",
        201 => "Created",
        202 => "Accepted",
        203 => "Non-Authoritative Information",
        204 => "No Content",
        205 => "Reset Content",
        206 => "Partial Content",
        207 => "Multi-Status",
        208 => "Already Reported",
        226 => "IM Used",
        300 => "Multiple Choices",
        301 => "Moved Permanently",
        302 => "Found",
        303 => "See Other",
        304 => "Not Modified",
        305 => "Use Proxy",
        307 => "Temporary Redirect",
        308 => "Permanent Redirect",
        400 => "Bad Request",
        401 => "Unauthorized",
        402 => "Payment Required",
        403 => "Forbidden",
        404 => "Not Found",
        405 => "Method Not Allowed",
        406 => "Not Acceptable",
        407 => "Proxy Authentication Required",
        408 => "Request Timeout",
        409 => "Conflict",
        410 => "Gone",
        411 => "Length Required",
        412 => "Precondition Required",
        413 => "Payload Too Large",
        414 => "URI Too Long",
        415 => "Unsupported Media Type",
        416 => "Range Not Satisfiable",
        417 => "Expectation Failed",
        418 => "I'm a teapot",
        421 => "Misdirected Request",
        422 => "Unprocessable Entity",
        423 => "Locked",
        424 => "Failed Dependency",
        425 => "Too Many Requests",
        426 => "Upgrade Required",
        428 => "Precondition Required",
        429 => "Too Many Requests",
        431 => "Request Header Fields Too Large",
        451 => "Unavailable For Legal Reasons",
        500 => "Internal Server Error",
        501 => "Not Implemented",
        502 => "Bad Gateway",
        503 => "Service Unavailable",
        504 => "Gateway Timeout",
        505 => "HTTP Version Not Supported",
        506 => "Variant Also Negotiates",
        507 => "Insufficient Storage",
        508 => "Loop Detected",
        510 => "Not Extended",
        511 => "Network Authentication Required",
        _ => {
            return None;
        },
    })
}

/// The reason phrase that is written for a code: its own, or `Unknown`.
pub open spec fn reason_text(code: u16) -> Seq<char> {
    match status_text(code) {
        Some(text) => text,
        None => "Unknown"@,
    }
}

/// A response as mathematical values.
pub struct ResponseView {
    pub code: u16,
    pub headers: Seq<Pair>,
    pub content: Seq<u8>,
    pub version: HttpVersion,
}

/// A response.
#[derive(Debug)]
pub struct HttpResponse {
    code: u16,
    headers: StringMap,
    content: Vec<u8>,
    version: HttpVersion,
}

impl View for HttpResponse {
    type V = ResponseView;

    closed spec fn view(&self) -> ResponseView {
        ResponseView {
            code: self.code,
            headers: self.headers.entries(),
            content: self.content@,
            version: self.version,
        }
    }
}

/// The response that reading starts from.
pub open spec fn blank_response() -> ResponseView {
    ResponseView {
        code: 500,
        headers: Seq::empty(),
        content: Seq::empty(),
        version: HttpVersion::Http1_1,
    }
}

/// The response that `data` holds, or `None` where it holds none.
pub open spec fn parse_response(data: Seq<u8>) -> Option<ResponseView> {
    loaded::<HttpResponse>(blank_response(), data)
}

/// The response with the given parts, whose `Content-Length` header says how
/// long the content is, whatever `headers` said.
pub open spec fn new_response(
    code: u16,
    headers: Seq<Pair>,
    content: Seq<u8>,
    version: HttpVersion,
) -> ResponseView {
    ResponseView {
        code,
        headers: assoc_insert(headers, "Content-Length"@, decimal(content.len())),
        content,
        version,
    }
}

/// What a status line `VERSION code reason` says. The version is all that
/// stands before the first space; of the rest, trimmed, the code is all that
/// stands before the first space. The reason is not kept, but there must be
/// one.
pub open spec fn status_line_parsed(v: ResponseView, line: Seq<char>) -> Option<ResponseView> {
    match find(line, seq![' ']) {
        Some(i) => if 0 <= i <= line.len() {
            let rest = trimmed(line.subrange(i, line.len() as int));
            match (version_from(line.subrange(0, i)), find(rest, seq![' '])) {
                (Some(version), Some(j)) => if 0 <= j <= rest.len() {
                    match parse_u16(rest.subrange(0, j)) {
                        Some(code) => Some(ResponseView { code, version, ..v }),
                        None => None,
                    }
                } else {
                    None
                },
                _ => None,
            }
        } else {
            None
        },
        None => None,
    }
}

impl HttpMessageModel for HttpResponse {
    open spec fn first_line_parsed(v: ResponseView, line: Seq<char>) -> Option<ResponseView> {
        status_line_parsed(v, line)
    }

    open spec fn header_registered(
        v: ResponseView,
        name: Seq<char>,
        value: Seq<char>,
    ) -> ResponseView {
        ResponseView { headers: assoc_insert(v.headers, name, value), ..v }
    }

    open spec fn content_registered(v: ResponseView, data: Seq<u8>) -> ResponseView {
        ResponseView {
            content: data,
            headers: assoc_insert(v.headers, "Content-Length"@, decimal(data.len())),
            ..v
        }
    }

    open spec fn first_line_of(v: ResponseView) -> Seq<char> {
        version_text(v.version) + seq![' '] + decimal(v.code as nat) + seq![' '] + reason_text(
            v.code,
        ) + seq!['\r', '\n']
    }

    open spec fn headers_of(v: ResponseView) -> Seq<Pair> {
        v.headers
    }

    open spec fn content_of(v: ResponseView) -> Seq<u8> {
        v.content
    }
}

impl HttpMessage for HttpResponse {
    fn parse_first_line(&mut self, line: &str) -> (ok: bool) {
        let i = match find_char(line, ' ') {
            Some(i) => i,
            None => {
                return false;
            },
        };
        proof {
            lemma_find_from(line@, seq![' '], 0);
        }
        let n = char_len(line);
        let version = match HttpVersion::from_str(line.substring_char(0, i)) {
            Some(version) => version,
            None => {
                return false;
            },
        };
        let rest = trim(line.substring_char(i, n));
        let j = match find_char(rest, ' ') {
            Some(j) => j,
            None => {
                return false;
            },
        };
        proof {
            lemma_find_from(rest@, seq![' '], 0);
        }
        let code = match str_to_u16(rest.substring_char(0, j)) {
            Some(code) => code,
            None => {
                return false;
            },
        };
        self.version = version;
        self.code = code;
        true
    }

    fn get_first_line(&self) -> (line: String) {
        let mut line = String::new();
        line.append(self.version.to_str());
        line.append(" ");
        append_decimal(&mut line, self.code as u64);
        line.append(" ");
        line.append(
            match code_to_http_status(self.code) {
                Some(text) => text,
                None => "Unknown",
            },
        );
        line.append("\r\n");
        proof {
            reveal_strlit(" ");
            reveal_strlit("\r\n");
            assert(line@ =~= Self::first_line_of(self@));
        }
        line
    }

    fn get_headers(&self) -> (headers: &StringMap) {
        &self.headers
    }

    fn get_content(&self) -> (content: &[u8]) {
        self.content.as_slice()
    }

    fn register_header(&mut self, name: &str, value: &str) {
        self.headers.insert(name.to_owned(), value.to_owned());
    }

    fn register_content(&mut self, data: &[u8]) {
        self.content = slice_to_vec(data);
        self.headers.insert("Content-Length".to_owned(), to_decimal(self.content.len() as u64));
    }
}

impl HttpResponse {
    /// Reads a response from `data`.
    pub fn parse(from: &[u8]) -> (r: Option<HttpResponse>)
        ensures
            r is Some <==> parse_response(from@) is Some,
            r matches Some(response) ==> Some(response@) == parse_response(from@),
    {
        let mut this = HttpResponse {
            code: 500,
            headers: StringMap::new(),
            content: Vec::new(),
            version: HttpVersion::Http1_1,
        };
        assert(this@ == blank_response());
        if this.load(from) {
            return Some(this);
        }
        None
    }

    /// A response with the given parts. Its `Content-Length` header is set
    /// to the length of `content`, whatever `headers` held.
    pub fn new(code: u16, headers: StringMap, content: Vec<u8>, version: HttpVersion) -> (r:
        HttpResponse)
        ensures
            r@ == new_response(code, headers.entries(), content@, version),
    {
        let mut resp = HttpResponse { code, headers, version, content };
        resp.headers.insert("Content-Length".to_owned(), to_decimal(resp.content.len() as u64));
        resp
    }

    /// The status code.
    pub fn code(&self) -> (code: u16)
        ensures
            code == self@.code,
    {
        self.code
    }

    /// The protocol version.
    pub fn version(&self) -> (version: HttpVersion)
        ensures
            version == self@.version,
    {
        self.version
    }
}

} // verus!
