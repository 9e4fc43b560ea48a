//! Reading back a URL that was written out.

use crate::string_map::{
    assoc_distinct, assoc_insert, lemma_assoc_index_from_none, lemma_assoc_insert,
    lemma_assoc_insert_entry, Pair,
};
use crate::text::{find, free_of, is_whitespace, split, trimmed};
use crate::text_laws::{
    free_of_pair, is_trimmed, lemma_find_single, lemma_find_single_at, lemma_find_single_none,
    lemma_pair_free_join, lemma_pair_free_part, lemma_split_join, lemma_split_one,
    lemma_split_piece, lemma_trimmed_bounds, lemma_trimmed_inherits, lemma_trimmed_of_trimmed,
};
use crate::url::{parse_url, query_entries, query_string, url_string, UrlView};
use vstd::prelude::*;

verus! {

/// A name or value of a query parameter as reading gives it: trimmed, and
/// without the `&` that would end it.
pub open spec fn written_piece(s: Seq<char>) -> bool {
    is_trimmed(s) && free_of(s, '&')
}

/// A query parameter as reading gives it.
pub open spec fn written_parameter(p: Pair) -> bool {
    written_piece(p.0) && free_of(p.0, '=') && written_piece(p.1)
}

/// Query parameters as reading gives them: no name twice.
pub open spec fn written_parameters(entries: Seq<Pair>) -> bool {
    &&& assoc_distinct(entries)
    &&& forall|i: int| 0 <= i < entries.len() ==> written_parameter(#[trigger] entries[i])
}

/// A URL that reads as it is written: the path holds no `?` and begins with
/// no whitespace, and ends with none where no parameter follows it.
pub open spec fn written_url(u: UrlView) -> bool {
    &&& free_of(u.uri, '?')
    &&& u.uri.len() > 0 ==> !is_whitespace(u.uri[0])
    &&& u.queries.len() == 0 ==> is_trimmed(u.uri)
    &&& written_parameters(u.queries)
}

/// Whether `c` stands nowhere in the path, the names and the values.
pub open spec fn parts_free_of(u: UrlView, c: char) -> bool {
    &&& free_of(u.uri, c)
    &&& forall|i: int|
        0 <= i < u.queries.len() ==> free_of((#[trigger] u.queries[i]).0, c) && free_of(
            u.queries[i].1,
            c,
        )
}

/// Whether `a` is nowhere directly followed by `b` in the path, the names
/// and the values.
pub open spec fn parts_free_of_pair(u: UrlView, a: char, b: char) -> bool {
    &&& free_of_pair(u.uri, a, b)
    &&& forall|i: int|
        0 <= i < u.queries.len() ==> free_of_pair((#[trigger] u.queries[i]).0, a, b)
            && free_of_pair(u.queries[i].1, a, b)
}

/// Whether `c` is none of the characters that a written URL is put together
/// with.
pub open spec fn no_separator(c: char) -> bool {
    c != '?' && c != '=' && c != '&'
}

/// A parameter written out.
pub open spec fn parameter_string(p: Pair) -> Seq<char> {
    p.0 + seq!['='] + p.1
}

/// The parameters written out, one piece each.
pub open spec fn parameter_strings(entries: Seq<Pair>) -> Seq<Seq<char>> {
    entries.map_values(|p: Pair| parameter_string(p))
}

/// All but the last of written parameters are written parameters.
pub proof fn lemma_written_parameters_front(entries: Seq<Pair>)
    requires
        written_parameters(entries),
        entries.len() > 0,
    ensures
        written_parameters(entries.drop_last()),
        written_parameter(entries.last()),
        forall|j: int| 0 <= j < entries.len() - 1 ==> (#[trigger] entries.drop_last()[j]).0
            != entries.last().0,
{
    let before = entries.drop_last();
    assert forall|i: int| 0 <= i < before.len() implies written_parameter(
        #[trigger] before[i],
    ) by {
        assert(before[i] == entries[i]);
    }
    assert forall|i: int, j: int| 0 <= i < j < before.len() implies before[i].0
        != before[j].0 by {
        assert(before[i] == entries[i] && before[j] == entries[j]);
    }
    assert forall|j: int| 0 <= j < entries.len() - 1 implies (#[trigger] before[j]).0
        != entries.last().0 by {
        assert(before[j] == entries[j]);
    }
}

/// A written parameter holds no `&`, is trimmed and not empty, and its
/// first `=` stands behind the name. It is free of what name and value are
/// free of.
pub proof fn lemma_parameter_string(p: Pair, c: char, a: char, b: char)
    requires
        written_parameter(p),
    ensures
        free_of(parameter_string(p), '&'),
        is_trimmed(parameter_string(p)),
        parameter_string(p).len() > 0,
        find(parameter_string(p), seq!['=']) == Some(p.0.len() as int),
        free_of(p.0, c) && free_of(p.1, c) && c != '=' ==> free_of(parameter_string(p), c),
        free_of_pair(p.0, a, b) && free_of_pair(p.1, a, b) && a != '=' && b != '='
            ==> free_of_pair(parameter_string(p), a, b),
{
    let s = parameter_string(p);
    if free_of_pair(p.0, a, b) && free_of_pair(p.1, a, b) && a != '=' && b != '=' {
        lemma_pair_free_join(p.0, '=', p.1, a, b);
    }
    assert(!is_whitespace('='));
    let n = p.0.len() as int;
    assert(s[n] == '=');
    assert forall|j: int| 0 <= j < n implies s[j] != '=' by {
        assert(s[j] == p.0[j]);
    }
    lemma_find_single_at(s, '=', n);
    assert forall|j: int| 0 <= j < s.len() implies s[j] != '&' && (free_of(p.0, c) && free_of(
        p.1,
        c,
    ) && c != '=' ==> s[j] != c) by {
        if j < n {
            assert(s[j] == p.0[j]);
        } else if j > n {
            assert(s[j] == p.1[j - n - 1]);
        }
    }
    if p.0.len() > 0 {
        assert(s[0] == p.0[0]);
    }
    if p.1.len() > 0 {
        assert(s.last() == p.1.last());
    }
}

/// The written parameters, cut at `&`, are the parameters one by one. What
/// is written is free of what names and values are free of.
pub proof fn lemma_query_string(entries: Seq<Pair>, c: char, a: char, b: char)
    requires
        written_parameters(entries),
        entries.len() > 0,
    ensures
        split(query_string(entries), '&') == parameter_strings(entries),
        query_string(entries).len() > 0,
        !is_whitespace(query_string(entries).last()),
        (forall|i: int|
            0 <= i < entries.len() ==> free_of((#[trigger] entries[i]).0, c) && free_of(
                entries[i].1,
                c,
            )) && c != '=' && c != '&' ==> free_of(query_string(entries), c),
        (forall|i: int|
            0 <= i < entries.len() ==> free_of_pair((#[trigger] entries[i]).0, a, b)
                && free_of_pair(entries[i].1, a, b)) && no_separator(a) && no_separator(b)
            ==> free_of_pair(query_string(entries), a, b),
    decreases entries.len(),
{
    let last = entries.last();
    let written = parameter_string(last);
    lemma_written_parameters_front(entries);
    lemma_parameter_string(last, c, a, b);
    lemma_split_one(written, '&');
    let all = query_string(entries);
    let every_free = (forall|i: int|
        0 <= i < entries.len() ==> free_of((#[trigger] entries[i]).0, c) && free_of(
            entries[i].1,
            c,
        )) && c != '=' && c != '&';
    let every_pair_free = (forall|i: int|
        0 <= i < entries.len() ==> free_of_pair((#[trigger] entries[i]).0, a, b) && free_of_pair(
            entries[i].1,
            a,
            b,
        )) && no_separator(a) && no_separator(b);
    if every_free {
        assert(free_of(last.0, c) && free_of(last.1, c));
    }
    if every_pair_free {
        assert(free_of_pair(last.0, a, b) && free_of_pair(last.1, a, b));
    }
    if entries.len() == 1 {
        assert(parameter_strings(entries) =~= seq![written]);
    } else {
        let before = entries.drop_last();
        assert forall|i: int| 0 <= i < before.len() implies #[trigger] before[i]
            == entries[i] by {}
        lemma_query_string(before, c, a, b);
        let q = query_string(before);
        lemma_split_join(q, '&', written);
        assert(all == q + seq!['&'] + written);
        assert(parameter_strings(entries) =~= parameter_strings(before) + seq![written]);
        if every_pair_free {
            lemma_pair_free_join(q, '&', written, a, b);
        }
        if every_free {
            assert forall|j: int| 0 <= j < all.len() implies all[j] != c by {
                if j < q.len() {
                    assert(all[j] == q[j]);
                } else if j > q.len() {
                    assert(all[j] == written[j - q.len() - 1]);
                }
            }
        }
        assert(all.last() == written.last());
    }
}

/// The parameters that their written pieces bind are the parameters.
pub proof fn lemma_query_entries_of_strings(entries: Seq<Pair>)
    requires
        written_parameters(entries),
    ensures
        query_entries(parameter_strings(entries)) == entries,
    decreases entries.len(),
{
    let pieces = parameter_strings(entries);
    if entries.len() == 0 {
        assert(query_entries(pieces) =~= entries);
    } else {
        let before = entries.drop_last();
        let last = entries.last();
        lemma_written_parameters_front(entries);
        lemma_query_entries_of_strings(before);
        assert(pieces.drop_last() =~= parameter_strings(before));
        let piece = pieces.last();
        assert(piece == parameter_string(last));
        lemma_parameter_string(last, ' ', ' ', ' ');
        let e = last.0.len() as int;
        assert(piece.subrange(0, e) =~= last.0);
        assert(piece.subrange(e + 1, piece.len() as int) =~= last.1);
        lemma_trimmed_of_trimmed(last.0);
        lemma_trimmed_of_trimmed(last.1);
        lemma_assoc_index_from_none(before, last.0, 0);
        assert(assoc_insert(before, last.0, last.1) =~= entries);
    }
}

/// A URL that reads as it is written, written out: the text is trimmed and
/// reads as the URL. It is free of what the parts of the URL are free of.
pub proof fn lemma_written_url_reads_back(u: UrlView, c: char, a: char, b: char)
    requires
        written_url(u),
    ensures
        parse_url(url_string(u)) == u,
        is_trimmed(url_string(u)),
        url_string(u).len() > 0 <==> u.uri.len() > 0 || u.queries.len() > 0,
        parts_free_of(u, c) && no_separator(c) ==> free_of(url_string(u), c),
        parts_free_of_pair(u, a, b) && no_separator(a) && no_separator(b) ==> free_of_pair(
            url_string(u),
            a,
            b,
        ),
{
    let s = url_string(u);
    if u.queries.len() == 0 {
        lemma_trimmed_of_trimmed(s);
        lemma_find_single_none(s, '?');
        assert(u.queries =~= Seq::<Pair>::empty());
    } else {
        let q = query_string(u.queries);
        lemma_query_string(u.queries, c, a, b);
        lemma_query_entries_of_strings(u.queries);
        if parts_free_of_pair(u, a, b) && no_separator(a) && no_separator(b) {
            lemma_pair_free_join(u.uri, '?', q, a, b);
        }
        let n = u.uri.len() as int;
        assert(s[n] == '?');
        if parts_free_of(u, c) && no_separator(c) {
            assert forall|j: int| 0 <= j < s.len() implies s[j] != c by {
                if j < n {
                    assert(s[j] == u.uri[j]);
                } else if j > n {
                    assert(s[j] == q[j - n - 1]);
                }
            }
        }
        assert(!is_whitespace('?'));
        assert(s.last() == q.last());
        if n > 0 {
            assert(s[0] == u.uri[0]);
        }
        lemma_trimmed_of_trimmed(s);
        assert forall|j: int| 0 <= j < n implies s[j] != '?' by {
            assert(s[j] == u.uri[j]);
        }
        lemma_find_single_at(s, '?', n);
        assert(s.subrange(0, n) =~= u.uri);
        assert(s.subrange(n + 1, s.len() as int) =~= q);
    }
}

/// The parameters that pieces without `&` bind are as reading gives them,
/// and free of what the pieces are free of.
pub proof fn lemma_query_entries_written(pieces: Seq<Seq<char>>, c: char, a: char, b: char)
    requires
        forall|i: int| 0 <= i < pieces.len() ==> free_of(#[trigger] pieces[i], '&'),
    ensures
        written_parameters(query_entries(pieces)),
        (forall|i: int| 0 <= i < pieces.len() ==> free_of(#[trigger] pieces[i], c)) ==> forall|
            i: int,
        |
            0 <= i < query_entries(pieces).len() ==> free_of(
                (#[trigger] query_entries(pieces)[i]).0,
                c,
            ) && free_of(query_entries(pieces)[i].1, c),
        (forall|i: int| 0 <= i < pieces.len() ==> free_of_pair(#[trigger] pieces[i], a, b))
            ==> forall|i: int|
            0 <= i < query_entries(pieces).len() ==> free_of_pair(
                (#[trigger] query_entries(pieces)[i]).0,
                a,
                b,
            ) && free_of_pair(query_entries(pieces)[i].1, a, b),
    decreases pieces.len(),
{
    if pieces.len() > 0 {
        let before = pieces.drop_last();
        assert forall|i: int| 0 <= i < before.len() implies #[trigger] before[i]
            == pieces[i] by {}
        lemma_query_entries_written(before, c, a, b);
        let piece = pieces.last();
        assert(free_of(piece, '&'));
        let old_entries = query_entries(before);
        let all_free = forall|i: int| 0 <= i < pieces.len() ==> free_of(#[trigger] pieces[i], c);
        let all_pair_free = forall|i: int|
            0 <= i < pieces.len() ==> free_of_pair(#[trigger] pieces[i], a, b);
        lemma_find_single(piece, '=');
        match find(piece, seq!['=']) {
            Some(e) => {
                let left = piece.subrange(0, e);
                let right = piece.subrange(e + 1, piece.len() as int);
                lemma_trimmed_bounds(left);
                lemma_trimmed_bounds(right);
                lemma_trimmed_inherits(left, '&', a, b);
                lemma_trimmed_inherits(left, '=', a, b);
                lemma_trimmed_inherits(left, c, a, b);
                lemma_trimmed_inherits(right, '&', a, b);
                lemma_trimmed_inherits(right, c, a, b);
                let name = trimmed(left);
                let value = trimmed(right);
                assert(written_parameter((name, value)));
                lemma_assoc_insert(old_entries, name, value);
                let after = assoc_insert(old_entries, name, value);
                assert forall|i: int| 0 <= i < after.len() implies written_parameter(
                    #[trigger] after[i],
                ) by {
                    lemma_assoc_insert_entry(old_entries, name, value, i);
                }
                if all_free {
                    assert(free_of(piece, c));
                    assert forall|i: int| 0 <= i < after.len() implies free_of(
                        (#[trigger] after[i]).0,
                        c,
                    ) && free_of(after[i].1, c) by {
                        lemma_assoc_insert_entry(old_entries, name, value, i);
                    }
                }
                if all_pair_free {
                    assert(free_of_pair(piece, a, b));
                    lemma_pair_free_part(piece, a, b, 0, e);
                    lemma_pair_free_part(piece, a, b, e + 1, piece.len() as int);
                    lemma_trimmed_inherits(left, c, a, b);
                    lemma_trimmed_inherits(right, c, a, b);
                    assert forall|i: int| 0 <= i < after.len() implies free_of_pair(
                        (#[trigger] after[i]).0,
                        a,
                        b,
                    ) && free_of_pair(after[i].1, a, b) by {
                        lemma_assoc_insert_entry(old_entries, name, value, i);
                    }
                }
            },
            None => {},
        }
    }
}

/// The URL that a text denotes: its path holds no `?` and begins with no
/// whitespace, its parameters are as reading gives them, and its parts are
/// free of what the text is free of. Where the text holds no `?`, the path
/// is trimmed.
pub proof fn lemma_parsed_url(s: Seq<char>, c: char, a: char, b: char)
    ensures
        free_of(parse_url(s).uri, '?'),
        parse_url(s).uri.len() > 0 ==> !is_whitespace(parse_url(s).uri[0]),
        written_parameters(parse_url(s).queries),
        find(trimmed(s), seq!['?']) is None ==> parse_url(s).uri == trimmed(s) && parse_url(
            s,
        ).queries.len() == 0,
        free_of(s, c) ==> parts_free_of(parse_url(s), c),
        free_of_pair(s, a, b) ==> parts_free_of_pair(parse_url(s), a, b),
{
    let t = trimmed(s);
    lemma_trimmed_bounds(s);
    lemma_trimmed_inherits(s, c, a, b);
    lemma_find_single(t, '?');
    match find(t, seq!['?']) {
        Some(q) => {
            let uri = t.subrange(0, q);
            let query = t.subrange(q + 1, t.len() as int);
            if free_of_pair(t, a, b) {
                lemma_pair_free_part(t, a, b, 0, q);
                lemma_pair_free_part(t, a, b, q + 1, t.len() as int);
            }
            if q > 0 {
                assert(uri[0] == t[0]);
            }
            let pieces = split(query, '&');
            assert forall|i: int| 0 <= i < pieces.len() implies free_of(#[trigger] pieces[i], '&')
                && (free_of(t, c) ==> free_of(pieces[i], c)) && (free_of_pair(t, a, b)
                ==> free_of_pair(pieces[i], a, b)) by {
                let w = lemma_split_piece(query, '&', i);
                if free_of_pair(t, a, b) {
                    lemma_pair_free_part(query, a, b, w.0, w.1);
                }
            }
            lemma_query_entries_written(pieces, c, a, b);
        },
        None => {
            assert(written_parameters(Seq::<Pair>::empty()));
        },
    }
}

/// A URL that was read from a text, once written out, reads as the same
/// URL again. One kind of URL is left out, since what is written for it
/// reads otherwise: one without query parameters whose path ends in
/// whitespace.
pub proof fn lemma_url_reads_back(s: Seq<char>)
    requires
        parse_url(s).queries.len() > 0 || is_trimmed(parse_url(s).uri),
    ensures
        parse_url(url_string(parse_url(s))) == parse_url(s),
{
    lemma_parsed_url(s, ' ', ' ', ' ');
    lemma_written_url_reads_back(parse_url(s), ' ', ' ', ' ');
}

} // verus!
