//! Reading back what was written, for every kind of message: how lines
//! are found again in what was written, and how header lines read back.

use crate::http::http_message::{
    crlf, header_line_applied, header_lines, headers_loaded, line_end, line_next, version_from,
    version_text, HttpMessageModel, HttpVersion,
};
use crate::string_map::{assoc_distinct, assoc_insert, lemma_assoc_index_from_none, Pair};
use crate::text::{free_of, lemma_find_from};
use crate::text_laws::{
    free_of_pair, is_trimmed, lemma_encode_concat, lemma_encode_keeps_line_ends,
    lemma_find_in_tail, lemma_find_pair, lemma_find_pair_at, lemma_trimmed_after_space,
    lemma_trimmed_of_trimmed,
};
use vstd::prelude::*;
use vstd::utf8::{decode_utf8, encode_utf8, valid_utf8};

verus! {

/// Whether no line feed directly follows a carriage return in `s`.
pub open spec fn one_line(s: Seq<char>) -> bool {
    free_of_pair(s, '\r', '\n')
}

/// A version token reads as its version, and holds neither a space nor a
/// line end.
pub proof fn lemma_version_text(v: HttpVersion)
    ensures
        version_from(version_text(v)) == Some(v),
        free_of(version_text(v), ' '),
        is_trimmed(version_text(v)),
        one_line(version_text(v)),
        version_text(v).len() > 0,
{
    reveal_strlit("HTTP/1.0");
    reveal_strlit("HTTP/1.1");
    assert("HTTP/1.0"@ != "HTTP/1.1"@) by {
        assert("HTTP/1.0"@[7] == '0' && "HTTP/1.1"@[7] == '1');
    }
}

/// A header that is written as it reads: name and value are trimmed and on
/// one line, and the name does not hold the separator.
pub open spec fn plain_header(p: Pair) -> bool {
    &&& is_trimmed(p.0)
    &&& is_trimmed(p.1)
    &&& free_of_pair(p.0, ':', ' ')
    &&& one_line(p.0)
    &&& one_line(p.1)
}

/// Headers that are written as they read.
pub open spec fn plain_headers(entries: Seq<Pair>) -> bool {
    forall|i: int| 0 <= i < entries.len() ==> plain_header(#[trigger] entries[i])
}

/// Whether every header has a value that is not empty.
pub open spec fn valued(entries: Seq<Pair>) -> bool {
    forall|i: int| 0 <= i < entries.len() ==> (#[trigger] entries[i]).1.len() > 0
}

/// A header line, without its line end.
pub open spec fn header_string(p: Pair) -> Seq<char> {
    p.0 + seq![':', ' '] + p.1
}

/// The separator of a header line.
pub proof fn lemma_separator()
    ensures
        ": "@ == seq![':', ' '],
        "\r\n"@ == seq!['\r', '\n'],
        encode_utf8(": "@) == seq![58u8, 32u8],
        encode_utf8(seq!['\r', '\n']) == crlf(),
{
    reveal_strlit(": ");
    reveal_strlit("\r\n");
    assert(": "@ =~= seq![':', ' ']);
    assert("\r\n"@ =~= seq!['\r', '\n']);
    let a = seq![':', ' '];
    assert(vstd::utf8::is_ascii_chars(a));
    vstd::utf8::is_ascii_chars_encode_utf8(a);
    assert(encode_utf8(a) =~= seq![58u8, 32u8]);
    let b = seq!['\r', '\n'];
    assert(vstd::utf8::is_ascii_chars(b));
    vstd::utf8::is_ascii_chars_encode_utf8(b);
    assert(encode_utf8(b) =~= crlf());
}

/// The line of a header that is written as it reads and has a value, read
/// back: it registers the header.
pub proof fn lemma_header_line<M: HttpMessageModel>(v: M::V, p: Pair)
    requires
        plain_header(p),
        p.1.len() > 0,
    ensures
        header_line_applied::<M>(v, header_string(p)) == M::header_registered(v, p.0, p.1),
        one_line(header_string(p)),
        header_string(p).len() > 0,
{
    lemma_separator();
    let line = header_string(p);
    let n = p.0.len() as int;
    assert(line[n] == ':' && line[n + 1] == ' ');
    assert forall|j: int| 0 <= j < n implies !(#[trigger] line[j] == ':' && line[j + 1]
        == ' ') by {
        if j + 1 < n {
            assert(line[j] == p.0[j] && line[j + 1] == p.0[j + 1]);
        }
    }
    lemma_find_pair_at(line, ':', ' ', 0, n);
    assert(line.subrange(0, n) =~= p.0);
    lemma_trimmed_of_trimmed(p.0);
    assert(line.subrange(n + 1, line.len() as int) =~= seq![' '] + p.1);
    lemma_trimmed_after_space(p.1);
    assert forall|i: int| 0 <= i && i + 1 < line.len() implies !(#[trigger] line[i] == '\r'
        && line[i + 1] == '\n') by {
        if i + 1 < n {
            assert(line[i] == p.0[i] && line[i + 1] == p.0[i + 1]);
        } else if i >= n + 2 {
            assert(line[i] == p.1[i - n - 2] && line[i + 1] == p.1[i - n - 2 + 1]);
        }
    }
}

/// In bytes that begin with a line without line end, a line end and more,
/// the first line ends where the line end stands.
pub proof fn lemma_first_line(line: Seq<u8>, rest: Seq<u8>)
    requires
        free_of_pair(line, 13u8, 10u8),
    ensures
        line_end(line + crlf() + rest, 0) == line.len(),
        line_next(line + crlf() + rest, 0) == line.len() + 2,
        (line + crlf() + rest).subrange(0, line.len() as int) == line,
        (line + crlf() + rest).subrange(line.len() as int + 2, (line + crlf() + rest).len() as int)
            == rest,
{
    let data = line + crlf() + rest;
    let n = line.len() as int;
    assert(data[n] == 13u8 && data[n + 1] == 10u8);
    assert forall|j: int| 0 <= j < n implies !(#[trigger] data[j] == 13u8 && data[j + 1]
        == 10u8) by {
        if j + 1 < n {
            assert(data[j] == line[j] && data[j + 1] == line[j + 1]);
        }
    }
    lemma_find_pair_at(data, 13u8, 10u8, 0, n);
    assert(crlf() =~= seq![13u8, 10u8]);
    assert(data.subrange(0, n) =~= line);
    assert(data.subrange(n + 2, data.len() as int) =~= rest);
}

/// Reading headers from a position on is reading them from the start of
/// what stands there.
pub proof fn lemma_headers_loaded_tail<M: HttpMessageModel>(v: M::V, data: Seq<u8>, from: int)
    requires
        0 <= from <= data.len(),
    ensures
        headers_loaded::<M>(v, data, from) == headers_loaded::<M>(
            v,
            data.subrange(from, data.len() as int),
            0,
        ),
    decreases data.len() - from,
{
    let n = data.len() as int;
    let tail = data.subrange(from, n);
    if from < n {
        lemma_find_in_tail(data, crlf(), from, from);
        lemma_find_from(data, crlf(), from);
        lemma_find_from(tail, crlf(), 0);
        let end = line_end(data, from);
        let next = line_next(data, from);
        let tail_end = line_end(tail, 0);
        let tail_next = line_next(tail, 0);
        assert(tail_end == end - from);
        assert(tail_next == next - from);
        assert(tail.subrange(0, tail_end) =~= data.subrange(from, end));
        assert(tail.subrange(tail_next, tail.len() as int) =~= data.subrange(next, n));
        if end == from {
        } else if !valid_utf8(data.subrange(from, end)) {
        } else {
            let after = header_line_applied::<M>(v, decode_utf8(data.subrange(from, end)));
            lemma_headers_loaded_tail::<M>(after, data, next);
            lemma_headers_loaded_tail::<M>(after, tail, tail_next);
        }
    }
}

/// The bytes of a header line, line end included.
pub open spec fn header_bytes(p: Pair) -> Seq<u8> {
    encode_utf8(p.0) + encode_utf8(": "@) + encode_utf8(p.1) + crlf()
}

/// The header lines begin with the line of the first header.
pub proof fn lemma_header_lines_front(entries: Seq<Pair>)
    requires
        entries.len() > 0,
    ensures
        header_lines(entries) == header_bytes(entries[0]) + header_lines(entries.drop_first()),
    decreases entries.len(),
{
    if entries.len() == 1 {
        assert(entries.drop_last() =~= Seq::<Pair>::empty());
        assert(entries.drop_first() =~= Seq::<Pair>::empty());
        assert(header_lines(entries) =~= header_bytes(entries[0]) + header_lines(
            entries.drop_first(),
        ));
    } else {
        lemma_header_lines_front(entries.drop_last());
        assert(entries.drop_last().drop_first() =~= entries.drop_first().drop_last());
        assert(entries.drop_first().last() == entries.last());
        assert(entries.drop_last()[0] == entries[0]);
        assert(header_lines(entries) =~= header_bytes(entries[0]) + header_lines(
            entries.drop_first(),
        ));
    }
}

/// The headers after each of `entries` is registered in turn.
pub open spec fn insert_all(acc: Seq<Pair>, entries: Seq<Pair>) -> Seq<Pair>
    decreases entries.len(),
{
    if entries.len() == 0 {
        acc
    } else {
        insert_all(assoc_insert(acc, entries[0].0, entries[0].1), entries.drop_first())
    }
}

/// Registering headers whose names all differ adds them in their order.
pub proof fn lemma_insert_all_distinct(acc: Seq<Pair>, entries: Seq<Pair>)
    requires
        assoc_distinct(acc + entries),
    ensures
        insert_all(acc, entries) == acc + entries,
    decreases entries.len(),
{
    if entries.len() == 0 {
        assert(acc + entries =~= acc);
    } else {
        let first = entries[0];
        let all = acc + entries;
        assert forall|j: int| 0 <= j < acc.len() implies acc[j].0 != first.0 by {
            assert(all[j] == acc[j]);
            assert(all[acc.len() as int] == first);
        }
        lemma_assoc_index_from_none(acc, first.0, 0);
        let next = acc.push(first);
        assert(assoc_insert(acc, first.0, first.1) == next);
        assert(next + entries.drop_first() =~= all);
        lemma_insert_all_distinct(next, entries.drop_first());
    }
}

/// The message after each of `entries` is registered in turn.
pub open spec fn registered_all<M: HttpMessageModel>(v: M::V, entries: Seq<Pair>) -> M::V
    decreases entries.len(),
{
    if entries.len() == 0 {
        v
    } else {
        registered_all::<M>(
            M::header_registered(v, entries[0].0, entries[0].1),
            entries.drop_first(),
        )
    }
}

/// The lines of headers that are written as they read, an empty line and
/// content, read back: every header is registered in turn, and the content
/// is registered if there is any.
pub proof fn lemma_header_block<M: HttpMessageModel>(v: M::V, entries: Seq<Pair>, content: Seq<u8>)
    requires
        plain_headers(entries),
        valued(entries),
    ensures
        headers_loaded::<M>(v, header_lines(entries) + crlf() + content, 0) == Some(
            if content.len() > 0 {
                M::content_registered(registered_all::<M>(v, entries), content)
            } else {
                registered_all::<M>(v, entries)
            },
        ),
    decreases entries.len(),
{
    let data = header_lines(entries) + crlf() + content;
    if entries.len() == 0 {
        assert(data =~= Seq::<u8>::empty() + crlf() + content);
        lemma_first_line(Seq::<u8>::empty(), content);
    } else {
        let p = entries[0];
        let rest = entries.drop_first();
        assert(plain_header(p) && p.1.len() > 0);
        assert(plain_headers(rest) && valued(rest)) by {
            assert forall|i: int| 0 <= i < rest.len() implies plain_header(#[trigger] rest[i])
                && rest[i].1.len() > 0 by {
                assert(rest[i] == entries[i + 1]);
            }
        }
        lemma_separator();
        lemma_header_lines_front(entries);
        let text = header_string(p);
        lemma_header_line::<M>(v, p);
        lemma_encode_concat(p.0, seq![':', ' ']);
        lemma_encode_concat(p.0 + seq![':', ' '], p.1);
        let line = encode_utf8(text);
        assert(line == encode_utf8(p.0) + encode_utf8(": "@) + encode_utf8(p.1));
        lemma_encode_keeps_line_ends(text);
        vstd::utf8::encode_utf8_valid_utf8(text);
        vstd::utf8::encode_utf8_decode_utf8(text);
        let more = header_lines(rest) + crlf() + content;
        assert(data =~= line + crlf() + more);
        lemma_first_line(line, more);
        let after = M::header_registered(v, p.0, p.1);
        lemma_headers_loaded_tail::<M>(after, data, line.len() as int + 2);
        lemma_header_block::<M>(after, rest, content);
    }
}

/// A line of the data holds no line end, and neither does its text.
pub proof fn lemma_line_is_one_line(data: Seq<u8>, from: int)
    requires
        0 <= from <= data.len(),
    ensures
        from <= line_end(data, from) <= data.len(),
        from <= line_next(data, from) <= data.len(),
        line_end(data, from) < data.len() ==> line_next(data, from) == line_end(data, from) + 2,
        free_of_pair(data.subrange(from, line_end(data, from)), 13u8, 10u8),
        valid_utf8(data.subrange(from, line_end(data, from))) ==> one_line(
            decode_utf8(data.subrange(from, line_end(data, from))),
        ),
{
    assert(crlf() =~= seq![13u8, 10u8]);
    lemma_find_pair(data, 13u8, 10u8, from);
    let end = line_end(data, from);
    let line = data.subrange(from, end);
    assert forall|i: int| 0 <= i && i + 1 < line.len() implies !(#[trigger] line[i] == 13u8
        && line[i + 1] == 10u8) by {
        assert(line[i] == data[from + i] && line[i + 1] == data[from + i + 1]);
    }
    if valid_utf8(line) {
        vstd::utf8::decode_utf8_encode_utf8(line);
        lemma_encode_keeps_line_ends(decode_utf8(line));
    }
}


} // verus!
