//! Reading back what was written: a response that was built, once written
//! out, reads as the same response again.

use crate::http::http_message::{
    crlf, header_lines, serialized, version_text, HttpMessageModel, HttpVersion,
};
use crate::http::http_response::{
    blank_response, new_response, parse_response, reason_text, status_line_parsed, HttpResponse,
    ResponseView,
};
use crate::http::round_trip::{
    insert_all, lemma_first_line, lemma_header_block, lemma_headers_loaded_tail,
    lemma_insert_all_distinct, lemma_separator, lemma_version_text, one_line, plain_header,
    plain_headers, registered_all, valued,
};
use crate::string_map::{
    assoc_distinct, assoc_get, assoc_insert, lemma_assoc_index_from, lemma_assoc_insert, Pair,
};
use crate::text::{decimal, free_of, is_digit, is_whitespace};
use crate::text_laws::{
    is_trimmed, lemma_decimal_digits, lemma_encode_concat, lemma_encode_keeps_line_ends,
    lemma_find_single_at, lemma_pair_free_join, lemma_parse_u16_decimal,
    lemma_trimmed_after_space,
};
use vstd::prelude::*;
use vstd::utf8::encode_utf8;

verus! {

/// A reason phrase is not empty, does not end in whitespace and holds no
/// carriage return.
pub proof fn lemma_reason_text(code: u16)
    ensures
        reason_text(code).len() > 0,
        !is_whitespace(reason_text(code).last()),
        free_of(reason_text(code), '\r'),
{
    reveal_strlit("Continue");
    reveal_strlit("Switching Protocols");
    reveal_strlit("Processing");
    reveal_strlit("Early Hints");
    reveal_strlit("OK");
    reveal_strlit("Created");
    reveal_strlit("Accepted");
    reveal_strlit("Non-Authoritative Information");
    reveal_strlit("No Content");
    reveal_strlit("Reset Content");
    reveal_strlit("Partial Content");
    reveal_strlit("Multi-Status");
    reveal_strlit("Already Reported");
    reveal_strlit("IM Used");
    reveal_strlit("Multiple Choices");
    reveal_strlit("Moved Permanently");
    reveal_strlit("Found");
    reveal_strlit("See Other");
    reveal_strlit("Not Modified");
    reveal_strlit("Use Proxy");
    reveal_strlit("Temporary Redirect");
    reveal_strlit("Permanent Redirect");
    reveal_strlit("Bad Request");
    reveal_strlit("Unauthorized");
    reveal_strlit("Payment Required");
    reveal_strlit("Forbidden");
    reveal_strlit("Not Found");
    reveal_strlit("Method Not Allowed");
    reveal_strlit("Not Acceptable");
    reveal_strlit("Proxy Authentication Required");
    reveal_strlit("Request Timeout");
    reveal_strlit("Conflict");
    reveal_strlit("Gone");
    reveal_strlit("Length Required");
    reveal_strlit("Precondition Required");
    reveal_strlit("Payload Too Large");
    reveal_strlit("URI Too Long");
    reveal_strlit("Unsupported Media Type");
    reveal_strlit("Range Not Satisfiable");
    reveal_strlit("Expectation Failed");
    reveal_strlit("I'm a teapot");
    reveal_strlit("Misdirected Request");
    reveal_strlit("Unprocessable Entity");
    reveal_strlit("Locked");
    reveal_strlit("Failed Dependency");
    reveal_strlit("Too Many Requests");
    reveal_strlit("Upgrade Required");
    reveal_strlit("Request Header Fields Too Large");
    reveal_strlit("Unavailable For Legal Reasons");
    reveal_strlit("Internal Server Error");
    reveal_strlit("Not Implemented");
    reveal_strlit("Bad Gateway");
    reveal_strlit("Service Unavailable");
    reveal_strlit("Gateway Timeout");
    reveal_strlit("HTTP Version Not Supported");
    reveal_strlit("Variant Also Negotiates");
    reveal_strlit("Insufficient Storage");
    reveal_strlit("Loop Detected");
    reveal_strlit("Not Extended");
    reveal_strlit("Network Authentication Required");
    reveal_strlit("Unknown");
}

/// A number in decimal is trimmed, on one line and without a space.
pub proof fn lemma_decimal_plain(n: nat)
    ensures
        decimal(n).len() > 0,
        is_trimmed(decimal(n)),
        free_of(decimal(n), ' '),
        one_line(decimal(n)),
{
    lemma_decimal_digits(n);
    let s = decimal(n);
    assert(is_digit(s[0]) && is_digit(s.last()));
    assert forall|i: int| 0 <= i < s.len() implies s[i] != ' ' && s[i] != '\r' by {
        assert(is_digit(s[i]));
    }
}

/// The status line of a response, without its line end.
pub open spec fn status_line(r: ResponseView) -> Seq<char> {
    version_text(r.version) + seq![' '] + decimal(r.code as nat) + seq![' '] + reason_text(r.code)
}

/// The status line of a response, read back: it gives the version and the
/// code of the response.
pub proof fn lemma_status_line(v: ResponseView, r: ResponseView)
    ensures
        status_line_parsed(v, status_line(r)) == Some(
            ResponseView { code: r.code, version: r.version, ..v },
        ),
        one_line(status_line(r)),
        status_line(r).len() > 0,
{
    let vt = version_text(r.version);
    let dt = decimal(r.code as nat);
    let rt = reason_text(r.code);
    let line = status_line(r);
    lemma_version_text(r.version);
    lemma_decimal_plain(r.code as nat);
    lemma_reason_text(r.code);
    lemma_parse_u16_decimal(r.code);
    let i = vt.len() as int;
    assert(line[i] == ' ');
    assert forall|j: int| 0 <= j < i implies line[j] != ' ' by {
        assert(line[j] == vt[j]);
    }
    lemma_find_single_at(line, ' ', i);
    assert(line.subrange(0, i) =~= vt);
    let rest = dt + seq![' '] + rt;
    assert(line.subrange(i, line.len() as int) =~= seq![' '] + rest);
    assert(is_trimmed(rest)) by {
        assert(rest[0] == dt[0]);
        assert(rest.last() == rt.last());
    }
    lemma_trimmed_after_space(rest);
    let j = dt.len() as int;
    assert(rest[j] == ' ');
    assert forall|k: int| 0 <= k < j implies rest[k] != ' ' by {
        assert(rest[k] == dt[k]);
    }
    lemma_find_single_at(rest, ' ', j);
    assert(rest.subrange(0, j) =~= dt);
    assert(one_line(rt));
    lemma_pair_free_join(vt, ' ', dt, '\r', '\n');
    lemma_pair_free_join(vt + seq![' '] + dt, ' ', rt, '\r', '\n');
}

/// Registering headers in a response binds them one by one.
pub proof fn lemma_response_registered_all(v: ResponseView, entries: Seq<Pair>)
    ensures
        registered_all::<HttpResponse>(v, entries) == (ResponseView {
            headers: insert_all(v.headers, entries),
            ..v
        }),
    decreases entries.len(),
{
    if entries.len() > 0 {
        lemma_response_registered_all(
            HttpResponse::header_registered(v, entries[0].0, entries[0].1),
            entries.drop_first(),
        );
    }
}

/// The header that says how long the content is, is written as it reads.
pub proof fn lemma_content_length_header(n: nat)
    ensures
        plain_header(("Content-Length"@, decimal(n))),
        decimal(n).len() > 0,
{
    reveal_strlit("Content-Length");
    lemma_decimal_plain(n);
    let name = "Content-Length"@;
    assert(!is_whitespace(name[0]) && !is_whitespace(name.last()));
}

/// A response that was built from headers that are written as they read,
/// once written out, reads as the same response again: code, version,
/// headers and content.
pub proof fn lemma_new_response_reads_back(
    code: u16,
    headers: Seq<Pair>,
    content: Seq<u8>,
    version: HttpVersion,
)
    requires
        plain_headers(headers),
        valued(headers),
        assoc_distinct(headers),
    ensures
        parse_response(serialized::<HttpResponse>(new_response(code, headers, content, version)))
            == Some(new_response(code, headers, content, version)),
{
    let r = new_response(code, headers, content, version);
    let length = decimal(content.len());
    lemma_content_length_header(content.len());
    lemma_assoc_insert(headers, "Content-Length"@, length);
    lemma_assoc_index_from(headers, "Content-Length"@, 0);
    assert(plain_headers(r.headers) && valued(r.headers)) by {
        assert forall|k: int| 0 <= k < r.headers.len() implies plain_header(
            #[trigger] r.headers[k],
        ) && r.headers[k].1.len() > 0 by {
            if r.headers[k] != ("Content-Length"@, length) {
                assert(r.headers[k] == headers[k]);
            }
        }
    }
    lemma_separator();
    let line_text = status_line(r);
    lemma_status_line(blank_response(), r);
    let first = encode_utf8(line_text);
    assert(HttpResponse::first_line_of(r) =~= line_text + seq!['\r', '\n']);
    lemma_encode_concat(line_text, seq!['\r', '\n']);
    lemma_encode_keeps_line_ends(line_text);
    vstd::utf8::encode_utf8_valid_utf8(line_text);
    vstd::utf8::encode_utf8_decode_utf8(line_text);
    let block = header_lines(r.headers) + crlf() + r.content;
    let data = serialized::<HttpResponse>(r);
    assert(data =~= first + crlf() + block);
    lemma_first_line(first, block);
    let started = ResponseView { code: r.code, version: r.version, ..blank_response() };
    lemma_headers_loaded_tail::<HttpResponse>(started, data, first.len() as int + 2);
    lemma_header_block::<HttpResponse>(started, r.headers, r.content);
    lemma_response_registered_all(started, r.headers);
    assert(Seq::<Pair>::empty() + r.headers =~= r.headers);
    lemma_insert_all_distinct(Seq::empty(), r.headers);
    // Registering the content writes the length that the headers hold already.
    lemma_assoc_insert(r.headers, "Content-Length"@, length);
    lemma_assoc_index_from(r.headers, "Content-Length"@, 0);
    assert(assoc_get(r.headers, "Content-Length"@) == Some(length));
    assert(assoc_insert(r.headers, "Content-Length"@, length) =~= r.headers);
    if content.len() == 0 {
        assert(r.content =~= Seq::<u8>::empty());
    }
}

} // verus!
