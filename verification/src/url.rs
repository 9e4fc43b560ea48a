//! A request target: a path and its query parameters.

use crate::string_map::{assoc_insert, Pair, StringMap};
use crate::text::{
    char_len, find, find_char, free_of, lemma_find_from, occurs_at, split, split_str, texts,
    trim, trimmed,
};
use vstd::prelude::*;
use vstd::string::*;

verus! {

/// A URL as mathematical text: the path, and the query parameters in the
/// order in which their names first occurred.
pub struct UrlView {
    pub uri: Seq<char>,
    pub queries: Seq<Pair>,
}

/// The parameters that the `&`-separated pieces of a query string bind. A
/// piece `name=value` binds the trimmed name to the trimmed value (the value
/// is all that follows the first `=`); a piece without `=` binds nothing.
/// Where a name occurs twice the later value stands.
pub open spec fn query_entries(pieces: Seq<Seq<char>>) -> Seq<Pair>
    decreases pieces.len(),
{
    if pieces.len() == 0 {
        Seq::empty()
    } else {
        let before = query_entries(pieces.drop_last());
        let piece = pieces.last();
        match find(piece, seq!['=']) {
            Some(e) => if 0 <= e < piece.len() {
                assoc_insert(
                    before,
                    trimmed(piece.subrange(0, e)),
                    trimmed(piece.subrange(e + 1, piece.len() as int)),
                )
            } else {
                before
            },
            None => before,
        }
    }
}

/// What a text denotes as a URL. The text is trimmed; the path is all that
/// stands before the first `?`, the query string all that follows it.
pub open spec fn parse_url(s: Seq<char>) -> UrlView {
    let t = trimmed(s);
    match find(t, seq!['?']) {
        Some(q) => if 0 <= q < t.len() {
            UrlView {
                uri: t.subrange(0, q),
                queries: query_entries(split(t.subrange(q + 1, t.len() as int), '&')),
            }
        } else {
            UrlView { uri: t, queries: Seq::empty() }
        },
        None => UrlView { uri: t, queries: Seq::empty() },
    }
}

/// The parameters written as `name=value`, joined by `&`.
pub open spec fn query_string(entries: Seq<Pair>) -> Seq<char>
    decreases entries.len(),
{
    if entries.len() == 0 {
        Seq::empty()
    } else {
        let last = entries.last();
        let written = last.0 + seq!['='] + last.1;
        if entries.len() == 1 {
            written
        } else {
            query_string(entries.drop_last()) + seq!['&'] + written
        }
    }
}

/// The URL written out: the path, then `?` and the parameters if there are
/// any.
pub open spec fn url_string(u: UrlView) -> Seq<char> {
    if u.queries.len() == 0 {
        u.uri
    } else {
        u.uri + seq!['?'] + query_string(u.queries)
    }
}

/// The path of a parsed URL holds no `?`.
pub proof fn lemma_path_has_no_query_separator(s: Seq<char>)
    ensures
        free_of(parse_url(s).uri, '?'),
{
    let t = trimmed(s);
    lemma_find_from(t, seq!['?'], 0);
    let uri = parse_url(s).uri;
    assert forall|i: int| 0 <= i < uri.len() implies uri[i] != '?' by {
        if uri[i] == '?' {
            assert(t[i] == '?');
            assert(occurs_at(t, seq!['?'], i)) by {
                assert forall|k: int| 0 <= k < 1 implies t[i + k] == seq!['?'][k] by {}
            }
        }
    }
}

/// A path and its query parameters.
#[derive(Debug)]
pub struct URL {
    pub uri: String,
    pub queries: StringMap,
}

impl View for URL {
    type V = UrlView;

    open spec fn view(&self) -> UrlView {
        UrlView { uri: self.uri@, queries: self.queries.entries() }
    }
}

impl URL {
    /// Parses a path with an optional query string. Every text is a URL, so
    /// the result is always `Some`.
    pub fn parse(string: &str) -> (r: Option<URL>)
        ensures
            r is Some,
            r->0@ == parse_url(string@),
            free_of(r->0@.uri, '?'),
    {
        proof {
            lemma_path_has_no_query_separator(string@);
        }
        let t = trim(string);
        let n = char_len(t);
        let q = match find_char(t, '?') {
            Some(q) => q,
            None => {
                return Some(URL { uri: t.to_owned(), queries: StringMap::new() });
            },
        };
        proof {
            lemma_find_from(t@, seq!['?'], 0);
        }
        let uri = t.substring_char(0, q).to_owned();
        let pieces = split_str(t.substring_char(q + 1, n), '&');
        let mut queries = StringMap::new();
        let mut i: usize = 0;
        assert(texts(pieces@).take(0) =~= Seq::<Seq<char>>::empty());
        while i < pieces.len()
            invariant
                i <= pieces.len(),
                queries.entries() == query_entries(texts(pieces@).take(i as int)),
            decreases pieces.len() - i,
        {
            let piece = pieces[i].as_str();
            let m = char_len(piece);
            proof {
                let done = texts(pieces@).take(i as int + 1);
                assert(done.drop_last() =~= texts(pieces@).take(i as int));
                assert(done.last() == piece@);
                lemma_find_from(piece@, seq!['='], 0);
            }
            match find_char(piece, '=') {
                Some(e) => {
                    let name = trim(piece.substring_char(0, e)).to_owned();
                    let value = trim(piece.substring_char(e + 1, m)).to_owned();
                    queries.insert(name, value);
                },
                None => {},
            }
            i = i + 1;
        }
        assert(texts(pieces@).take(pieces@.len() as int) =~= texts(pieces@));
        Some(URL { uri, queries })
    }

    /// The URL written out: the path, then `?` and the parameters as
    /// `name=value` joined by `&`, if there are any.
    pub fn to_string(&self) -> (out: String)
        ensures
            out@ == url_string(self@),
    {
        let mut out = self.uri.clone();
        let n = self.queries.len();
        if n == 0 {
            return out;
        }
        out.append("?");
        let ghost head = out@;
        let mut i: usize = 0;
        proof {
            reveal_strlit("?");
            assert(head =~= self.uri@ + seq!['?']);
            assert(self.queries.entries().take(0) =~= Seq::<Pair>::empty());
        }
        while i < n
            invariant
                i <= n,
                n == self.queries.entries().len(),
                head == self.uri@ + seq!['?'],
                out@ == head + query_string(self.queries.entries().take(i as int)),
            decreases n - i,
        {
            proof {
                reveal_strlit("&");
                reveal_strlit("=");
                let done = self.queries.entries().take(i as int + 1);
                assert(done.drop_last() =~= self.queries.entries().take(i as int));
                assert(done.last() == self.queries.entries()[i as int]);
            }
            if i > 0 {
                out.append("&");
            }
            out.append(self.queries.key_at(i).as_str());
            out.append("=");
            out.append(self.queries.value_at(i).as_str());
            proof {
                let e = self.queries.entries()[i as int];
                let prev = query_string(self.queries.entries().take(i as int));
                if i > 0 {
                    assert(out@ =~= head + (prev + seq!['&'] + (e.0 + seq!['='] + e.1)));
                } else {
                    assert(out@ =~= head + (e.0 + seq!['='] + e.1));
                }
            }
            i = i + 1;
        }
        assert(self.queries.entries().take(n as int) =~= self.queries.entries());
        out
    }
}

} // verus!
