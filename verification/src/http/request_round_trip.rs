//! Reading back what was written: a request that was read from bytes, once
//! written out, reads as the same request again.

use crate::http::http_message::{
    crlf, header_line_applied, header_lines, headers_loaded, line_end, line_next, method_from,
    method_text, serialized, version_text, HttpMessageModel, HttpMethod,
};
use crate::http::http_request::{
    blank_request, parse_request, request_line_parsed, HttpRequest, RequestView,
};
use crate::http::round_trip::{
    insert_all, lemma_first_line, lemma_header_block, lemma_headers_loaded_tail,
    lemma_insert_all_distinct, lemma_line_is_one_line, lemma_separator, lemma_version_text,
    one_line, plain_header, plain_headers, registered_all, valued,
};
use crate::string_map::{
    assoc_distinct, assoc_insert, lemma_assoc_index_from, lemma_assoc_insert, Pair,
};
use crate::text::{find, free_of, is_whitespace, same_ignoring_ascii_case, trimmed};
use crate::text_laws::{
    free_of_pair, is_trimmed, lemma_encode_concat, lemma_encode_keeps_line_ends,
    lemma_find_pair, lemma_find_single, lemma_find_single_at, lemma_pair_free_join,
    lemma_pair_free_part, lemma_trimmed_after_space, lemma_trimmed_bounds,
    lemma_trimmed_inherits, lemma_trimmed_of_trimmed,
};
use crate::url::{url_string, UrlView};
use crate::url_laws::{
    lemma_parsed_url, lemma_written_url_reads_back, parts_free_of, parts_free_of_pair,
    written_parameters, written_url,
};
use vstd::prelude::*;
use vstd::utf8::{decode_utf8, encode_utf8};

verus! {

/// A method token reads as its method, and holds neither a space nor a line
/// end.
pub proof fn lemma_method_text(m: HttpMethod)
    ensures
        method_from(method_text(m)) == Some(m),
        free_of(method_text(m), ' '),
        is_trimmed(method_text(m)),
        one_line(method_text(m)),
        method_text(m).len() > 0,
{
    reveal_strlit("GET");
    reveal_strlit("POST");
    reveal_strlit("HEAD");
    reveal_strlit("OPTIONS");
    reveal_strlit("PUT");
    reveal_strlit("PATCH");
    reveal_strlit("DELETE");
    let t = method_text(m);
    assert(same_ignoring_ascii_case(t, t));
    assert(!same_ignoring_ascii_case("PUT"@, "GET"@)) by {
        assert("PUT"@[0] == 'P' && "GET"@[0] == 'G');
    }
    assert(!same_ignoring_ascii_case("HEAD"@, "POST"@)) by {
        assert("HEAD"@[0] == 'H' && "POST"@[0] == 'P');
    }
}

/// A URL that is written on a request line as it reads: it reads as it is
/// written, it is not empty, and it holds neither a space nor a line end.
pub open spec fn plain_url(u: UrlView) -> bool {
    &&& written_url(u)
    &&& u.uri.len() > 0 || u.queries.len() > 0
    &&& parts_free_of(u, ' ')
    &&& parts_free_of_pair(u, '\r', '\n')
}

/// The request line of a request, without its line end.
pub open spec fn request_line(m: RequestView) -> Seq<char> {
    method_text(m.method) + seq![' '] + url_string(m.url) + seq![' '] + version_text(m.version)
}

/// The request line of a request whose URL is written as it reads, read
/// back: it gives the method, the URL and the version of the request.
pub proof fn lemma_request_line(v: RequestView, m: RequestView)
    requires
        plain_url(m.url),
    ensures
        request_line_parsed(v, request_line(m)) == Some(
            RequestView { method: m.method, version: m.version, url: m.url, ..v },
        ),
        one_line(request_line(m)),
        request_line(m).len() > 0,
{
    let mt = method_text(m.method);
    let ut = url_string(m.url);
    let vt = version_text(m.version);
    let line = request_line(m);
    lemma_method_text(m.method);
    lemma_version_text(m.version);
    lemma_written_url_reads_back(m.url, ' ', '\r', '\n');
    let i = mt.len() as int;
    // The first space stands behind the method.
    assert(line[i] == ' ');
    assert forall|j: int| 0 <= j < i implies line[j] != ' ' by {
        assert(line[j] == mt[j]);
    }
    lemma_find_single_at(line, ' ', i);
    assert(line.subrange(0, i) =~= mt);
    lemma_trimmed_of_trimmed(mt);
    // What follows the method, trimmed, is the URL, a space and the version.
    let tail = line.subrange(i, line.len() as int);
    let rest = ut + seq![' '] + vt;
    assert(tail =~= seq![' '] + rest);
    assert(is_trimmed(rest)) by {
        assert(rest[0] == ut[0]);
        assert(rest.last() == vt.last());
    }
    lemma_trimmed_after_space(rest);
    let j = ut.len() as int;
    assert(rest[j] == ' ');
    assert forall|k: int| 0 <= k < j implies rest[k] != ' ' by {
        assert(rest[k] == ut[k]);
    }
    lemma_find_single_at(rest, ' ', j);
    assert(rest.subrange(0, j) =~= ut);
    lemma_trimmed_of_trimmed(ut);
    assert(rest.subrange(j, rest.len() as int) =~= seq![' '] + vt);
    lemma_trimmed_after_space(vt);
    // The whole line holds no line end.
    lemma_pair_free_join(mt, ' ', ut, '\r', '\n');
    lemma_pair_free_join(mt + seq![' '] + ut, ' ', vt, '\r', '\n');
}

/// Registering headers in a request binds them one by one.
pub proof fn lemma_request_registered_all(v: RequestView, entries: Seq<Pair>)
    ensures
        registered_all::<HttpRequest>(v, entries) == (RequestView {
            headers: insert_all(v.headers, entries),
            ..v
        }),
    decreases entries.len(),
{
    if entries.len() > 0 {
        lemma_request_registered_all(
            HttpRequest::header_registered(v, entries[0].0, entries[0].1),
            entries.drop_first(),
        );
    }
}

/// A request that is written as it reads.
pub open spec fn plain_request(m: RequestView) -> bool {
    &&& plain_url(m.url)
    &&& plain_headers(m.headers)
    &&& valued(m.headers)
    &&& assoc_distinct(m.headers)
}

/// A request that is written as it reads, written out, reads as itself.
pub proof fn lemma_plain_request_reads_back(m: RequestView)
    requires
        plain_request(m),
    ensures
        parse_request(serialized::<HttpRequest>(m)) == Some(m),
{
    lemma_separator();
    let line_text = request_line(m);
    lemma_request_line(blank_request(), m);
    let first = encode_utf8(line_text);
    assert(HttpRequest::first_line_of(m) =~= line_text + seq!['\r', '\n']);
    lemma_encode_concat(line_text, seq!['\r', '\n']);
    lemma_encode_keeps_line_ends(line_text);
    vstd::utf8::encode_utf8_valid_utf8(line_text);
    vstd::utf8::encode_utf8_decode_utf8(line_text);
    let block = header_lines(m.headers) + crlf() + m.content;
    let data = serialized::<HttpRequest>(m);
    assert(data =~= first + crlf() + block);
    lemma_first_line(first, block);
    let started = RequestView {
        method: m.method,
        version: m.version,
        url: m.url,
        ..blank_request()
    };
    lemma_headers_loaded_tail::<HttpRequest>(started, data, first.len() as int + 2);
    lemma_header_block::<HttpRequest>(started, m.headers, m.content);
    lemma_request_registered_all(started, m.headers);
    assert(Seq::<Pair>::empty() + m.headers =~= m.headers);
    lemma_insert_all_distinct(Seq::empty(), m.headers);
    assert(Seq::<u8>::empty() + m.content =~= m.content);
    if m.content.len() == 0 {
        assert(m.content =~= Seq::<u8>::empty());
    }
}

/// Whether a URL is written on a request line as it reads, but for this:
/// it may have an empty path, or a path that ends in whitespace, and no
/// parameters.
pub open spec fn nearly_plain_url(u: UrlView) -> bool {
    &&& free_of(u.uri, '?')
    &&& u.uri.len() > 0 ==> !is_whitespace(u.uri[0])
    &&& written_parameters(u.queries)
    &&& parts_free_of(u, ' ')
    &&& parts_free_of_pair(u, '\r', '\n')
}

/// What a request line on one line says: the headers and the content stay,
/// and the URL is nearly written as it reads.
pub proof fn lemma_parsed_request_line(v: RequestView, line: Seq<char>)
    requires
        request_line_parsed(v, line) is Some,
        one_line(line),
    ensures
        request_line_parsed(v, line)->0.headers == v.headers,
        request_line_parsed(v, line)->0.content == v.content,
        nearly_plain_url(request_line_parsed(v, line)->0.url),
{
    lemma_find_single(line, ' ');
    let i = find(line, seq![' '])->0;
    let tail = line.subrange(i, line.len() as int);
    lemma_pair_free_part(line, '\r', '\n', i, line.len() as int);
    let rest = trimmed(tail);
    lemma_trimmed_bounds(tail);
    lemma_trimmed_inherits(tail, ' ', '\r', '\n');
    lemma_find_single(rest, ' ');
    let j = find(rest, seq![' '])->0;
    let part = rest.subrange(0, j);
    lemma_pair_free_part(rest, '\r', '\n', 0, j);
    assert(is_whitespace(' '));
    assert(j > 0);
    assert(part[0] == rest[0]);
    let w = lemma_trimmed_bounds(part);
    assert(w.0 == 0) by {
        if w.0 > 0 {
            assert(is_whitespace(part[0]));
        }
    }
    assert(w.1 > 0) by {
        if w.1 == 0 {
            assert(is_whitespace(part[0]));
        }
    }
    let t = trimmed(part);
    lemma_trimmed_inherits(part, ' ', '\r', '\n');
    lemma_parsed_url(t, ' ', '\r', '\n');
}

/// One header line on one line keeps headers that are written as they read
/// so, and keeps the rest of the request.
pub proof fn lemma_applied_header(v: RequestView, line: Seq<char>)
    requires
        one_line(line),
        plain_headers(v.headers),
        assoc_distinct(v.headers),
    ensures
        plain_headers(header_line_applied::<HttpRequest>(v, line).headers),
        assoc_distinct(header_line_applied::<HttpRequest>(v, line).headers),
        header_line_applied::<HttpRequest>(v, line).url == v.url,
        header_line_applied::<HttpRequest>(v, line).method == v.method,
        header_line_applied::<HttpRequest>(v, line).version == v.version,
        header_line_applied::<HttpRequest>(v, line).content == v.content,
{
    lemma_separator();
    lemma_find_pair(line, ':', ' ', 0);
    match find(line, ": "@) {
        Some(i) => {
            if i + 2 < line.len() {
                let left = line.subrange(0, i);
                let right = line.subrange(i + 1, line.len() as int);
                lemma_pair_free_part(line, '\r', '\n', 0, i);
                lemma_pair_free_part(line, '\r', '\n', i + 1, line.len() as int);
                assert(free_of_pair(left, ':', ' ')) by {
                    assert forall|k: int| 0 <= k && k + 1 < left.len() implies !(
                    #[trigger] left[k] == ':' && left[k + 1] == ' ') by {
                        assert(left[k] == line[k] && left[k + 1] == line[k + 1]);
                    }
                }
                lemma_trimmed_bounds(left);
                lemma_trimmed_bounds(right);
                lemma_trimmed_inherits(left, ' ', '\r', '\n');
                lemma_trimmed_inherits(left, ' ', ':', ' ');
                lemma_trimmed_inherits(right, ' ', '\r', '\n');
                let name = trimmed(left);
                let value = trimmed(right);
                lemma_assoc_insert(v.headers, name, value);
                lemma_assoc_index_from(v.headers, name, 0);
                let after = assoc_insert(v.headers, name, value);
                assert forall|k: int| 0 <= k < after.len() implies plain_header(
                    #[trigger] after[k],
                ) by {
                    if after[k] != (name, value) {
                        assert(after[k] == v.headers[k]);
                    }
                }
            }
        },
        None => {},
    }
}

/// Reading headers keeps headers that are written as they read so, and
/// keeps method, URL and version.
pub proof fn lemma_loaded_headers(v: RequestView, data: Seq<u8>, from: int)
    requires
        0 <= from <= data.len(),
        headers_loaded::<HttpRequest>(v, data, from) is Some,
        plain_headers(v.headers),
        assoc_distinct(v.headers),
    ensures
        plain_headers(headers_loaded::<HttpRequest>(v, data, from)->0.headers),
        assoc_distinct(headers_loaded::<HttpRequest>(v, data, from)->0.headers),
        headers_loaded::<HttpRequest>(v, data, from)->0.url == v.url,
        headers_loaded::<HttpRequest>(v, data, from)->0.method == v.method,
        headers_loaded::<HttpRequest>(v, data, from)->0.version == v.version,
    decreases data.len() - from,
{
    if from < data.len() {
        lemma_line_is_one_line(data, from);
        let end = line_end(data, from);
        let next = line_next(data, from);
        if end == from {
        } else {
            let line = decode_utf8(data.subrange(from, end));
            lemma_applied_header(v, line);
            lemma_loaded_headers(header_line_applied::<HttpRequest>(v, line), data, next);
        }
    }
}

/// A request that was read from bytes, once written out, reads as the same
/// request again: method, URL, version, headers and content. Two kinds of
/// request are left out, since what is written for them reads otherwise: one
/// with a header whose value is empty, and one without query parameters
/// whose path is empty or ends in whitespace.
pub proof fn lemma_request_round_trip(data: Seq<u8>)
    requires
        parse_request(data) is Some,
        valued(parse_request(data)->0.headers),
        parse_request(data)->0.url.queries.len() > 0 || (parse_request(data)->0.url.uri.len() > 0
            && !is_whitespace(parse_request(data)->0.url.uri.last())),
    ensures
        parse_request(serialized::<HttpRequest>(parse_request(data)->0)) == parse_request(data),
{
    let m = parse_request(data)->0;
    lemma_line_is_one_line(data, 0);
    let end = line_end(data, 0);
    let line = decode_utf8(data.subrange(0, end));
    lemma_parsed_request_line(blank_request(), line);
    let first = request_line_parsed(blank_request(), line)->0;
    assert(first.headers =~= Seq::<Pair>::empty());
    lemma_loaded_headers(first, data, line_next(data, 0));
    assert(plain_request(m));
    lemma_plain_request_reads_back(m);
}

} // verus!
