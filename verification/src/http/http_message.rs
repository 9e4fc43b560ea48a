//! What requests and responses share: a first line, headers and a body, and
//! the byte format that carries them.

use crate::string_map::{Pair, StringMap};
use crate::text::{
    char_len, decode, find, find_from, find_str, lemma_find_from, occurs_at,
    same_ignoring_ascii_case, eq_ignore_ascii_case, str_eq, trim, trimmed,
};
use vstd::prelude::*;
use vstd::slice::slice_subrange;
use vstd::string::*;
use vstd::utf8::{decode_utf8, encode_utf8, valid_utf8};

verus! {

/// The protocol versions that are understood.
#[allow(non_camel_case_types)]
#[derive(PartialEq, Eq, Structural, Clone, Copy, Debug)]
pub enum HttpVersion {
    Http1_0,
    Http1_1,
}

/// The version that a token names. Case counts.
pub open spec fn version_from(s: Seq<char>) -> Option<HttpVersion> {
    if s == "HTTP/1.0"@ {
        Some(HttpVersion::Http1_0)
    } else if s == "HTTP/1.1"@ {
        Some(HttpVersion::Http1_1)
    } else {
        None
    }
}

/// The token that names a version.
pub open spec fn version_text(v: HttpVersion) -> Seq<char> {
    match v {
        HttpVersion::Http1_0 => "HTTP/1.0"@,
        HttpVersion::Http1_1 => "HTTP/1.1"@,
    }
}

impl HttpVersion {
    /// Reads a version token.
    pub fn from_str(string: &str) -> (r: Option<HttpVersion>)
        ensures
            r == version_from(string@),
    {
        if str_eq(string, "HTTP/1.0") {
            Some(HttpVersion::Http1_0)
        } else if str_eq(string, "HTTP/1.1") {
            Some(HttpVersion::Http1_1)
        } else {
            None
        }
    }

    /// The token of this version.
    pub fn to_str(&self) -> (r: &'static str)
        ensures
            r@ == version_text(*self),
    {
        match *self {
            HttpVersion::Http1_0 => "HTTP/1.0",
            HttpVersion::Http1_1 => "HTTP/1.1",
        }
    }
}

/// The request methods that are understood.
#[derive(PartialEq, Eq, Structural, Clone, Copy, Debug)]
pub enum HttpMethod {
    Get,
    Post,
    Head,
    Options,
    Put,
    Patch,
    Delete,
}

/// The method that a token names, whatever the case of its letters.
pub open spec fn method_from(s: Seq<char>) -> Option<HttpMethod> {
    if same_ignoring_ascii_case(s, "GET"@) {
        Some(HttpMethod::Get)
    } else if same_ignoring_ascii_case(s, "POST"@) {
        Some(HttpMethod::Post)
    } else if same_ignoring_ascii_case(s, "HEAD"@) {
        Some(HttpMethod::Head)
    } else if same_ignoring_ascii_case(s, "OPTIONS"@) {
        Some(HttpMethod::Options)
    } else if same_ignoring_ascii_case(s, "PUT"@) {
        Some(HttpMethod::Put)
    } else if same_ignoring_ascii_case(s, "PATCH"@) {
        Some(HttpMethod::Patch)
    } else if same_ignoring_ascii_case(s, "DELETE"@) {
        Some(HttpMethod::Delete)
    } else {
        None
    }
}

/// The token that names a method, in capitals.
pub open spec fn method_text(m: HttpMethod) -> Seq<char> {
    match m {
        HttpMethod::Get => "GET"@,
        HttpMethod::Post => "POST"@,
        HttpMethod::Head => "HEAD"@,
        HttpMethod::Options => "OPTIONS"@,
        HttpMethod::Put => "PUT"@,
        HttpMethod::Patch => "PATCH"@,
        HttpMethod::Delete => "DELETE"@,
    }
}

impl HttpMethod {
    /// Reads a method token, whatever the case of its letters.
    pub fn from_str(string: &str) -> (r: Option<HttpMethod>)
        ensures
            r == method_from(string@),
    {
        if eq_ignore_ascii_case(string, "GET") {
            Some(HttpMethod::Get)
        } else if eq_ignore_ascii_case(string, "POST") {
            Some(HttpMethod::Post)
        } else if eq_ignore_ascii_case(string, "HEAD") {
            Some(HttpMethod::Head)
        } else if eq_ignore_ascii_case(string, "OPTIONS") {
            Some(HttpMethod::Options)
        } else if eq_ignore_ascii_case(string, "PUT") {
            Some(HttpMethod::Put)
        } else if eq_ignore_ascii_case(string, "PATCH") {
            Some(HttpMethod::Patch)
        } else if eq_ignore_ascii_case(string, "DELETE") {
            Some(HttpMethod::Delete)
        } else {
            None
        }
    }

    /// The token of this method, in capitals.
    pub fn to_str(&self) -> (r: &'static str)
        ensures
            r@ == method_text(*self),
    {
        match self {
            HttpMethod::Get => "GET",
            HttpMethod::Post => "POST",
            HttpMethod::Head => "HEAD",
            HttpMethod::Options => "OPTIONS",
            HttpMethod::Put => "PUT",
            HttpMethod::Patch => "PATCH",
            HttpMethod::Delete => "DELETE",
        }
    }
}

/// The two bytes that end a line.
pub open spec fn crlf() -> Seq<u8> {
    seq![13u8, 10u8]
}

/// Where the line that starts at `from` ends: at the next line end, or at
/// the end of the data where none follows.
pub open spec fn line_end(data: Seq<u8>, from: int) -> int {
    match find_from(data, crlf(), from) {
        Some(i) => i,
        None => data.len() as int,
    }
}

/// Where the line after the one that starts at `from` begins.
pub open spec fn line_next(data: Seq<u8>, from: int) -> int {
    match find_from(data, crlf(), from) {
        Some(i) => i + 2,
        None => data.len() as int,
    }
}

/// The message after one header line. A line `name: value` registers the
/// trimmed name with the trimmed value; the name is all that stands before
/// the first `": "`. A line without that separator, or with nothing after
/// it, changes nothing.
pub open spec fn header_line_applied<M: HttpMessageModel>(v: M::V, line: Seq<char>) -> M::V {
    match find(line, ": "@) {
        Some(i) => if 0 <= i && i + 2 < line.len() {
            M::header_registered(
                v,
                trimmed(line.subrange(0, i)),
                trimmed(line.subrange(i + 1, line.len() as int)),
            )
        } else {
            v
        },
        None => v,
    }
}

/// The message after the lines from `from` on: header lines up to the first
/// empty line, and as content all that follows that line, where anything
/// does. `None` where a line is not UTF-8.
pub open spec fn headers_loaded<M: HttpMessageModel>(
    v: M::V,
    data: Seq<u8>,
    from: int,
) -> Option<M::V>
    decreases data.len() - from,
{
    if from < 0 || from >= data.len() {
        Some(v)
    } else {
        let end = line_end(data, from);
        let next = line_next(data, from);
        if end == from {
            if next < data.len() {
                Some(M::content_registered(v, data.subrange(next, data.len() as int)))
            } else {
                Some(v)
            }
        } else if !valid_utf8(data.subrange(from, end)) {
            None
        } else {
            proof {
                lemma_find_from(data, crlf(), from);
            }
            headers_loaded::<M>(
                header_line_applied::<M>(v, decode_utf8(data.subrange(from, end))),
                data,
                next,
            )
        }
    }
}

/// The message that `data` holds, read into `v`: the first line, which the
/// kind of message must accept, then headers and content. `None` for empty
/// data, for a first line that is refused and for a line that is not UTF-8.
pub open spec fn loaded<M: HttpMessageModel>(v: M::V, data: Seq<u8>) -> Option<M::V> {
    if data.len() == 0 {
        None
    } else {
        let end = line_end(data, 0);
        if !valid_utf8(data.subrange(0, end)) {
            None
        } else {
            match M::first_line_parsed(v, decode_utf8(data.subrange(0, end))) {
                Some(first) => headers_loaded::<M>(first, data, line_next(data, 0)),
                None => None,
            }
        }
    }
}

/// The header lines, each `name: value` with a line end, in order.
pub open spec fn header_lines(entries: Seq<Pair>) -> Seq<u8>
    decreases entries.len(),
{
    if entries.len() == 0 {
        Seq::empty()
    } else {
        header_lines(entries.drop_last()) + encode_utf8(entries.last().0) + encode_utf8(": "@)
            + encode_utf8(entries.last().1) + crlf()
    }
}

/// The message as bytes: first line, header lines, an empty line, content.
pub open spec fn serialized<M: HttpMessageModel>(v: M::V) -> Seq<u8> {
    encode_utf8(M::first_line_of(v)) + header_lines(M::headers_of(v)) + crlf() + M::content_of(v)
}

/// Where the line that starts at `from` ends, and where the next begins.
pub fn line_bounds(data: &[u8], from: usize) -> (r: (usize, usize))
    ensures
        r.0 == line_end(data@, from as int),
        r.1 == line_next(data@, from as int),
        r.0 <= r.1 <= data@.len(),
        from <= data@.len() ==> from <= r.0,
        r.0 < data@.len() ==> r.1 == r.0 + 2,
{
    let n = data.len();
    if from > n {
        return (n, n);
    }
    let mut i: usize = from;
    while i < n
        invariant
            from <= i <= n,
            n == data@.len(),
            find_from(data@, crlf(), from as int) == find_from(data@, crlf(), i as int),
        decreases n - i,
    {
        if n - i >= 2 && data[i] == 13 && data[i + 1] == 10 {
            assert(occurs_at(data@, crlf(), i as int));
            return (i, i + 2);
        }
        proof {
            if occurs_at(data@, crlf(), i as int) {
                assert(data@[i + 0] == crlf()[0]);
                assert(data@[i + 1] == crlf()[1]);
            }
        }
        i = i + 1;
    }
    (n, n)
}

/// What a kind of message means: how its first line reads, and what
/// registering a header or content does to it.
pub trait HttpMessageModel: View + Sized {
    /// The message after its first line, or `None` where the line is refused.
    spec fn first_line_parsed(v: Self::V, line: Seq<char>) -> Option<Self::V>;

    /// The message after a header is registered.
    spec fn header_registered(v: Self::V, name: Seq<char>, value: Seq<char>) -> Self::V;

    /// The message after content is registered.
    spec fn content_registered(v: Self::V, data: Seq<u8>) -> Self::V;

    /// The first line of the message, line end included.
    spec fn first_line_of(v: Self::V) -> Seq<char>;

    /// The headers of the message, in the order in which they are written.
    spec fn headers_of(v: Self::V) -> Seq<Pair>;

    /// The content of the message.
    spec fn content_of(v: Self::V) -> Seq<u8>;
}

/// The capability that requests and responses share. A kind of message
/// reads its own first line and registers headers and content; reading and
/// writing whole messages is the same for every kind.
pub trait HttpMessage: HttpMessageModel {
    /// Reads the first line. On `false` the message is left in no
    /// particular state.
    fn parse_first_line(&mut self, line: &str) -> (ok: bool)
        ensures
            ok == (Self::first_line_parsed(old(self)@, line@) is Some),
            ok ==> final(self)@ == Self::first_line_parsed(old(self)@, line@)->0,
    ;

    /// The first line, line end included.
    fn get_first_line(&self) -> (line: String)
        ensures
            line@ == Self::first_line_of(self@),
    ;

    /// The headers.
    fn get_headers(&self) -> (headers: &StringMap)
        ensures
            headers.entries() == Self::headers_of(self@),
    ;

    /// The content.
    fn get_content(&self) -> (content: &[u8])
        ensures
            content@ == Self::content_of(self@),
    ;

    /// Registers a header. The last value written for a name wins.
    fn register_header(&mut self, name: &str, value: &str)
        ensures
            final(self)@ == Self::header_registered(old(self)@, name@, value@),
    ;

    /// Registers content.
    fn register_content(&mut self, data: &[u8])
        ensures
            final(self)@ == Self::content_registered(old(self)@, data@),
    ;

    /// Reads a whole message from `data`. On `false` the message is left in
    /// no particular state.
    fn load(&mut self, data: &[u8]) -> (ok: bool)
        ensures
            ok == (loaded::<Self>(old(self)@, data@) is Some),
            ok ==> final(self)@ == loaded::<Self>(old(self)@, data@)->0,
    {
        if data.len() == 0 {
            return false;
        }
        let (end, next) = line_bounds(data, 0);
        let line = match decode(slice_subrange(data, 0, end)) {
            Some(line) => line,
            None => {
                return false;
            },
        };
        if !self.parse_first_line(line) {
            return false;
        }
        let mut pos: usize = next;
        while pos < data.len()
            invariant
                pos <= data@.len(),
                headers_loaded::<Self>(self@, data@, pos as int) == loaded::<Self>(
                    old(self)@,
                    data@,
                ),
            decreases data@.len() - pos,
        {
            let (end, next) = line_bounds(data, pos);
            if end == pos {
                if next < data.len() {
                    self.register_content(slice_subrange(data, next, data.len()));
                }
                return true;
            }
            let line = match decode(slice_subrange(data, pos, end)) {
                Some(line) => line,
                None => {
                    return false;
                },
            };
            self.parse_header(line);
            pos = next;
        }
        true
    }

    /// Reads one header line.
    fn parse_header(&mut self, line: &str)
        ensures
            final(self)@ == header_line_applied::<Self>(old(self)@, line@),
    {
        let i = match find_str(line, ": ") {
            Some(i) => i,
            None => {
                return ;
            },
        };
        proof {
            lemma_find_from(line@, ": "@, 0);
            reveal_strlit(": ");
        }
        let n = char_len(line);
        if i + 2 >= n {
            return ;
        }
        let name = trim(line.substring_char(0, i));
        let value = trim(line.substring_char(i + 1, n));
        self.register_header(name, value);
    }

    /// The message as bytes: the first line, each header as `name: value`
    /// with a line end, an empty line, and the content.
    fn serialize(&self) -> (out: Vec<u8>)
        ensures
            out@ == serialized::<Self>(self@),
    {
        let mut res: Vec<u8> = Vec::new();
        let first_line = self.get_first_line();
        res.extend_from_slice(first_line.as_str().as_bytes());
        let headers = self.get_headers();
        let n = headers.len();
        let ghost head = res@;
        let mut i: usize = 0;
        proof {
            assert(head =~= encode_utf8(Self::first_line_of(self@)));
            assert(headers.entries().take(0) =~= Seq::<Pair>::empty());
        }
        while i < n
            invariant
                i <= n,
                n == headers.entries().len(),
                res@ == head + header_lines(headers.entries().take(i as int)),
            decreases n - i,
        {
            proof {
                let done = headers.entries().take(i as int + 1);
                assert(done.drop_last() =~= headers.entries().take(i as int));
                assert(done.last() == headers.entries()[i as int]);
            }
            let ghost before = res@;
            res.extend_from_slice(headers.key_at(i).as_str().as_bytes());
            res.extend_from_slice(": ".as_bytes());
            res.extend_from_slice(headers.value_at(i).as_str().as_bytes());
            res.push(13);
            res.push(10);
            proof {
                let e = headers.entries()[i as int];
                assert(res@ =~= before + encode_utf8(e.0) + encode_utf8(": "@) + encode_utf8(e.1)
                    + crlf());
                assert(res@ =~= head + (header_lines(headers.entries().take(i as int))
                    + encode_utf8(e.0) + encode_utf8(": "@) + encode_utf8(e.1) + crlf()));
            }
            i = i + 1;
        }
        assert(headers.entries().take(n as int) =~= headers.entries());
        let ghost lines = res@;
        res.push(13);
        res.push(10);
        res.extend_from_slice(self.get_content());
        assert(res@ =~= lines + crlf() + Self::content_of(self@));
        res
    }
}

} // verus!
