//! What holds of trimming, searching, cutting and encoding text.

use crate::text::{
    decimal, digit_char, digits_value, find, find_from, free_of, is_digit, is_digits,
    is_whitespace, lemma_find_from, lemma_find_from_is, lemma_find_from_none, occurs_at,
    parse_u16, split, trim_hi, trim_lo, trimmed,
};
use vstd::prelude::*;
use vstd::utf8::{
    encode_scalar, encode_utf8, has_width_1_encoding, has_width_2_encoding, has_width_3_encoding,
};

verus! {

/// Whether whitespace stands neither first nor last in `s`.
pub open spec fn is_trimmed(s: Seq<char>) -> bool {
    s.len() == 0 || (!is_whitespace(s[0]) && !is_whitespace(s.last()))
}

/// Whether `a` is nowhere in `s` directly followed by `b`.
pub open spec fn free_of_pair<T>(s: Seq<T>, a: T, b: T) -> bool {
    forall|i: int| 0 <= i && i + 1 < s.len() ==> !(#[trigger] s[i] == a && s[i + 1] == b)
}

/// `trim_lo` stops at the first position that holds no whitespace.
pub proof fn lemma_trim_lo(s: Seq<char>, lo: int, hi: int)
    requires
        0 <= lo <= hi <= s.len(),
    ensures
        lo <= trim_lo(s, lo, hi) <= hi,
        forall|j: int| lo <= j < trim_lo(s, lo, hi) ==> is_whitespace(#[trigger] s[j]),
        trim_lo(s, lo, hi) < hi ==> !is_whitespace(s[trim_lo(s, lo, hi)]),
    decreases hi - lo,
{
    if lo < hi && is_whitespace(s[lo]) {
        lemma_trim_lo(s, lo + 1, hi);
    }
}

/// `trim_hi` stops behind the last position that holds no whitespace.
pub proof fn lemma_trim_hi(s: Seq<char>, lo: int, hi: int)
    requires
        0 <= lo <= hi <= s.len(),
    ensures
        lo <= trim_hi(s, lo, hi) <= hi,
        forall|j: int| trim_hi(s, lo, hi) <= j < hi ==> is_whitespace(#[trigger] s[j]),
        lo < trim_hi(s, lo, hi) ==> !is_whitespace(s[trim_hi(s, lo, hi) - 1]),
    decreases hi - lo,
{
    if lo < hi && is_whitespace(s[hi - 1]) {
        lemma_trim_hi(s, lo, hi - 1);
    }
}

/// The window that trimming keeps: before it and behind it stands nothing
/// but whitespace, and where it is not empty it begins and ends with
/// something else.
pub proof fn lemma_trimmed_bounds(s: Seq<char>) -> (w: (int, int))
    ensures
        0 <= w.0 <= w.1 <= s.len(),
        trimmed(s) == s.subrange(w.0, w.1),
        forall|j: int| 0 <= j < w.0 ==> is_whitespace(#[trigger] s[j]),
        forall|j: int| w.1 <= j < s.len() ==> is_whitespace(#[trigger] s[j]),
        w.0 < w.1 ==> !is_whitespace(s[w.0]) && !is_whitespace(s[w.1 - 1]),
        is_trimmed(trimmed(s)),
{
    let n = s.len() as int;
    let lo = trim_lo(s, 0, n);
    lemma_trim_lo(s, 0, n);
    let hi = trim_hi(s, lo, n);
    lemma_trim_hi(s, lo, n);
    (lo, hi)
}

/// A window with nothing but whitespace around it, which is empty or begins
/// and ends with something else, is what trimming keeps.
pub proof fn lemma_trimmed_window(s: Seq<char>, lo: int, hi: int)
    requires
        0 <= lo <= hi <= s.len(),
        forall|j: int| 0 <= j < lo ==> is_whitespace(#[trigger] s[j]),
        forall|j: int| hi <= j < s.len() ==> is_whitespace(#[trigger] s[j]),
        lo < hi ==> !is_whitespace(s[lo]) && !is_whitespace(s[hi - 1]),
    ensures
        trimmed(s) == s.subrange(lo, hi),
{
    let w = lemma_trimmed_bounds(s);
    if lo < hi {
        assert(w.0 == lo) by {
            if w.0 > lo {
                assert(is_whitespace(s[lo]));
            }
            if w.0 < lo {
                assert(is_whitespace(s[w.0]));
                if w.0 == w.1 {
                    assert(is_whitespace(s[lo]));
                }
            }
        }
        assert(w.1 == hi) by {
            if w.1 < hi {
                assert(is_whitespace(s[hi - 1]));
            }
            if w.1 > hi {
                assert(is_whitespace(s[w.1 - 1]));
            }
        }
    } else {
        if w.0 < w.1 {
            assert(is_whitespace(s[w.0]));
        }
        assert(s.subrange(w.0, w.1) =~= s.subrange(lo, hi));
    }
}

/// Trimming leaves a trimmed text as it is.
pub proof fn lemma_trimmed_of_trimmed(s: Seq<char>)
    requires
        is_trimmed(s),
    ensures
        trimmed(s) == s,
{
    lemma_trimmed_window(s, 0, s.len() as int);
    assert(s.subrange(0, s.len() as int) =~= s);
}

/// Trimming drops a space in front of a trimmed text.
pub proof fn lemma_trimmed_after_space(s: Seq<char>)
    requires
        is_trimmed(s),
    ensures
        trimmed(seq![' '] + s) == s,
{
    let t = seq![' '] + s;
    assert(is_whitespace(' '));
    if s.len() > 0 {
        assert(t[1] == s[0]);
        assert(t[t.len() - 1] == s.last());
    }
    assert forall|j: int| 0 <= j < 1 implies is_whitespace(#[trigger] t[j]) by {}
    lemma_trimmed_window(t, 1, t.len() as int);
    assert(t.subrange(1, t.len() as int) =~= s);
}

/// A single element occurs where it stands.
pub proof fn lemma_occurs_single<T>(s: Seq<T>, c: T, i: int)
    ensures
        occurs_at(s, seq![c], i) <==> 0 <= i < s.len() && s[i] == c,
{
    if 0 <= i < s.len() && s[i] == c {
        assert forall|k: int| 0 <= k < 1 implies s[i + k] == seq![c][k] by {}
    }
    if occurs_at(s, seq![c], i) {
        assert(s[i + 0] == seq![c][0]);
    }
}

/// A pair occurs where its two elements stand side by side.
pub proof fn lemma_occurs_pair<T>(s: Seq<T>, a: T, b: T, i: int)
    ensures
        occurs_at(s, seq![a, b], i) <==> 0 <= i && i + 1 < s.len() && s[i] == a && s[i + 1] == b,
{
    if 0 <= i && i + 1 < s.len() && s[i] == a && s[i + 1] == b {
        assert forall|k: int| 0 <= k < 2 implies s[i + k] == seq![a, b][k] by {}
    }
    if occurs_at(s, seq![a, b], i) {
        assert(s[i + 0] == seq![a, b][0]);
        assert(s[i + 1] == seq![a, b][1]);
    }
}

/// What searching for one element returns: its first position, before which
/// it does not stand, or `None` where it stands nowhere.
pub proof fn lemma_find_single(s: Seq<char>, c: char)
    ensures
        match find(s, seq![c]) {
            Some(i) => 0 <= i < s.len() && s[i] == c && free_of(s.subrange(0, i), c),
            None => free_of(s, c),
        },
{
    lemma_find_from(s, seq![c], 0);
    match find(s, seq![c]) {
        Some(i) => {
            lemma_occurs_single(s, c, i);
            assert forall|j: int| 0 <= j < i implies s.subrange(0, i)[j] != c by {
                lemma_occurs_single(s, c, j);
            }
        },
        None => {
            assert forall|j: int| 0 <= j < s.len() implies s[j] != c by {
                lemma_occurs_single(s, c, j);
            }
        },
    }
}

/// An element is found at its first position.
pub proof fn lemma_find_single_at(s: Seq<char>, c: char, i: int)
    requires
        0 <= i < s.len(),
        s[i] == c,
        forall|j: int| 0 <= j < i ==> s[j] != c,
    ensures
        find(s, seq![c]) == Some(i),
{
    lemma_occurs_single(s, c, i);
    assert forall|j: int| 0 <= j < i implies !occurs_at(s, seq![c], j) by {
        lemma_occurs_single(s, c, j);
    }
    lemma_find_from_is(s, seq![c], 0, i);
}

/// An element that stands nowhere is not found.
pub proof fn lemma_find_single_none(s: Seq<char>, c: char)
    requires
        free_of(s, c),
    ensures
        find(s, seq![c]) is None,
{
    assert forall|j: int| 0 <= j implies !occurs_at(s, seq![c], j) by {
        lemma_occurs_single(s, c, j);
    }
    lemma_find_from_none(s, seq![c], 0);
}

/// What searching for a pair returns: its first position, before which it
/// does not begin, or `None` where it stands nowhere.
pub proof fn lemma_find_pair<T>(s: Seq<T>, a: T, b: T, from: int)
    requires
        0 <= from,
    ensures
        match find_from(s, seq![a, b], from) {
            Some(i) => {
                &&& from <= i
                &&& i + 1 < s.len()
                &&& s[i] == a
                &&& s[i + 1] == b
                &&& forall|j: int| from <= j < i ==> !(#[trigger] s[j] == a && s[j + 1] == b)
            },
            None => forall|j: int|
                from <= j && j + 1 < s.len() ==> !(#[trigger] s[j] == a && s[j + 1] == b),
        },
{
    lemma_find_from(s, seq![a, b], from);
    match find_from(s, seq![a, b], from) {
        Some(i) => {
            lemma_occurs_pair(s, a, b, i);
            assert forall|j: int| from <= j < i implies !(#[trigger] s[j] == a && s[j + 1]
                == b) by {
                lemma_occurs_pair(s, a, b, j);
            }
        },
        None => {
            assert forall|j: int| from <= j && j + 1 < s.len() implies !(#[trigger] s[j] == a
                && s[j + 1] == b) by {
                lemma_occurs_pair(s, a, b, j);
            }
        },
    }
}

/// A pair is found where it first begins.
pub proof fn lemma_find_pair_at<T>(s: Seq<T>, a: T, b: T, from: int, i: int)
    requires
        0 <= from <= i,
        i + 1 < s.len(),
        s[i] == a,
        s[i + 1] == b,
        forall|j: int| from <= j < i ==> !(#[trigger] s[j] == a && s[j + 1] == b),
    ensures
        find_from(s, seq![a, b], from) == Some(i),
{
    lemma_occurs_pair(s, a, b, i);
    assert forall|j: int| from <= j < i implies !occurs_at(s, seq![a, b], j) by {
        lemma_occurs_pair(s, a, b, j);
    }
    lemma_find_from_is(s, seq![a, b], from, i);
}

/// Searching a tail of `s` is searching `s` from where the tail begins.
pub proof fn lemma_find_in_tail<T>(s: Seq<T>, pat: Seq<T>, from: int, at: int)
    requires
        0 <= from <= at,
        from <= s.len(),
    ensures
        find_from(s.subrange(from, s.len() as int), pat, at - from) == match find_from(
            s,
            pat,
            at,
        ) {
            Some(i) => Some(i - from),
            None => None,
        },
    decreases s.len() - at,
{
    let tail = s.subrange(from, s.len() as int);
    if at + pat.len() > s.len() {
    } else {
        assert(occurs_at(tail, pat, at - from) == occurs_at(s, pat, at)) by {
            if occurs_at(s, pat, at) {
                assert forall|k: int| 0 <= k < pat.len() implies tail[at - from + k]
                    == pat[k] by {
                    assert(s[at + k] == pat[k]);
                }
            }
            if occurs_at(tail, pat, at - from) {
                assert forall|k: int| 0 <= k < pat.len() implies s[at + k] == pat[k] by {
                    assert(tail[at - from + k] == pat[k]);
                }
            }
        }
        if !occurs_at(s, pat, at) {
            lemma_find_in_tail(s, pat, from, at + 1);
        }
    }
}

/// Two texts without the pair, joined by an element that belongs to no
/// such pair, make a text without the pair.
pub proof fn lemma_pair_free_join<T>(left: Seq<T>, c: T, right: Seq<T>, a: T, b: T)
    requires
        free_of_pair(left, a, b),
        free_of_pair(right, a, b),
        c != a,
        c != b,
    ensures
        free_of_pair(left + seq![c] + right, a, b),
{
    let s = left + seq![c] + right;
    assert forall|i: int| 0 <= i && i + 1 < s.len() implies !(#[trigger] s[i] == a && s[i + 1]
        == b) by {
        if i + 1 < left.len() {
            assert(s[i] == left[i] && s[i + 1] == left[i + 1]);
        } else if i + 1 == left.len() {
            assert(s[i + 1] == c);
        } else if i == left.len() {
            assert(s[i] == c);
        } else {
            let k = i - left.len() - 1;
            assert(s[i] == right[k] && s[i + 1] == right[k + 1]);
        }
    }
}

/// A part of a text without the pair is without the pair.
pub proof fn lemma_pair_free_part<T>(s: Seq<T>, a: T, b: T, lo: int, hi: int)
    requires
        free_of_pair(s, a, b),
        0 <= lo <= hi <= s.len(),
    ensures
        free_of_pair(s.subrange(lo, hi), a, b),
{
    let part = s.subrange(lo, hi);
    assert forall|i: int| 0 <= i && i + 1 < part.len() implies !(#[trigger] part[i] == a
        && part[i + 1] == b) by {
        assert(part[i] == s[lo + i] && part[i + 1] == s[lo + i + 1]);
    }
}

/// A part of a text without an element is without the element.
pub proof fn lemma_free_part(s: Seq<char>, c: char, lo: int, hi: int)
    requires
        free_of(s, c),
        0 <= lo <= hi <= s.len(),
    ensures
        free_of(s.subrange(lo, hi), c),
{
}

/// What a text is free of, its trimmed form is free of.
pub proof fn lemma_trimmed_inherits(s: Seq<char>, c: char, a: char, b: char)
    ensures
        free_of(s, c) ==> free_of(trimmed(s), c),
        free_of_pair(s, a, b) ==> free_of_pair(trimmed(s), a, b),
{
    let w = lemma_trimmed_bounds(s);
    if free_of(s, c) {
        lemma_free_part(s, c, w.0, w.1);
    }
    if free_of_pair(s, a, b) {
        lemma_pair_free_part(s, a, b, w.0, w.1);
    }
}

/// Cutting a text without separator gives the text as its one piece.
pub proof fn lemma_split_one(s: Seq<char>, sep: char)
    requires
        free_of(s, sep),
    ensures
        split(s, sep) == seq![s],
{
    lemma_find_single_none(s, sep);
}

/// Cutting two texts joined by a separator gives the pieces of the first,
/// then the pieces of the second.
pub proof fn lemma_split_join(left: Seq<char>, sep: char, right: Seq<char>)
    ensures
        split(left + seq![sep] + right, sep) == split(left, sep) + split(right, sep),
    decreases left.len(),
{
    let s = left + seq![sep] + right;
    lemma_find_single(left, sep);
    match find(left, seq![sep]) {
        Some(i) => {
            assert forall|j: int| 0 <= j < i implies s[j] != sep by {
                assert(left.subrange(0, i)[j] == left[j]);
            }
            assert(s[i] == left[i]);
            lemma_find_single_at(s, sep, i);
            let tail = left.subrange(i + 1, left.len() as int);
            lemma_split_join(tail, sep, right);
            assert(s.subrange(i + 1, s.len() as int) =~= tail + seq![sep] + right);
            assert(s.subrange(0, i) =~= left.subrange(0, i));
            assert(split(s, sep) =~= split(left, sep) + split(right, sep));
        },
        None => {
            let n = left.len() as int;
            assert(s[n] == sep);
            assert forall|j: int| 0 <= j < n implies s[j] != sep by {
                assert(s[j] == left[j]);
            }
            lemma_find_single_at(s, sep, n);
            assert(s.subrange(0, n) =~= left);
            assert(s.subrange(n + 1, s.len() as int) =~= right);
            assert(split(s, sep) =~= split(left, sep) + split(right, sep));
        },
    }
}

/// Every piece of a cut text is a part of the text, and holds no separator.
pub proof fn lemma_split_piece(s: Seq<char>, sep: char, i: int) -> (w: (int, int))
    requires
        0 <= i < split(s, sep).len(),
    ensures
        0 <= w.0 <= w.1 <= s.len(),
        split(s, sep)[i] == s.subrange(w.0, w.1),
        free_of(split(s, sep)[i], sep),
    decreases s.len(),
{
    lemma_find_single(s, sep);
    match find(s, seq![sep]) {
        Some(p) => {
            if i == 0 {
                (0, p)
            } else {
                let tail = s.subrange(p + 1, s.len() as int);
                let w = lemma_split_piece(tail, sep, i - 1);
                assert(tail.subrange(w.0, w.1) =~= s.subrange(p + 1 + w.0, p + 1 + w.1));
                (p + 1 + w.0, p + 1 + w.1)
            }
        },
        None => {
            assert(s.subrange(0, s.len() as int) =~= s);
            (0, s.len() as int)
        },
    }
}

/// Encoding two texts one after the other is encoding them as one.
pub proof fn lemma_encode_concat(a: Seq<char>, b: Seq<char>)
    ensures
        encode_utf8(a + b) == encode_utf8(a) + encode_utf8(b),
    decreases a.len(),
{
    if a.len() == 0 {
        assert(a + b =~= b);
        assert(encode_utf8(a) + encode_utf8(b) =~= encode_utf8(b));
    } else {
        lemma_encode_concat(a.drop_first(), b);
        assert((a + b).drop_first() =~= a.drop_first() + b);
        assert((a + b)[0] == a[0]);
        assert(encode_utf8(a + b) =~= encode_utf8(a) + encode_utf8(b));
    }
}

/// The bytes of one character: the character itself where it is ASCII, and
/// otherwise two to four bytes that are all 128 or more.
pub proof fn lemma_scalar_bytes(c: char)
    ensures
        (c as u32) < 0x80 ==> encode_scalar(c as u32) == seq![c as u8],
        (c as u32) < 0x80 ==> (c as u8) as int == (c as u32) as int,
        (c as u32) >= 0x80 ==> encode_scalar(c as u32).len() >= 2 && forall|i: int|
            0 <= i < encode_scalar(c as u32).len() ==> #[trigger] encode_scalar(c as u32)[i]
                >= 0x80,
        encode_scalar(c as u32).len() >= 1,
{
    let v = c as u32;
    vstd::utf8::char_is_scalar(c);
    if has_width_1_encoding(v) {
        assert((v & 0x7F) as u8 == v as u8) by (bit_vector)
            requires
                v <= 0x7f,
        ;
        assert(encode_scalar(v) =~= seq![c as u8]);
    } else {
        assert(forall|x: u8| #![auto] (0x80u8 | x) >= 0x80) by (bit_vector);
        assert(forall|x: u8| #![auto] (0xC0u8 | x) >= 0x80) by (bit_vector);
        assert(forall|x: u8| #![auto] (0xE0u8 | x) >= 0x80) by (bit_vector);
        assert(forall|x: u8| #![auto] (0xF0u8 | x) >= 0x80) by (bit_vector);
        let e = encode_scalar(v);
        assert forall|i: int| 0 <= i < e.len() implies #[trigger] e[i] >= 0x80 by {
            if has_width_2_encoding(v) {
            } else if has_width_3_encoding(v) {
            } else {
            }
        }
    }
}

/// The encoding of a text in which no line feed directly follows a
/// carriage return holds no such pair of bytes, and the other way round.
pub proof fn lemma_encode_keeps_line_ends(s: Seq<char>)
    ensures
        free_of_pair(s, '\r', '\n') <==> free_of_pair(encode_utf8(s), 13u8, 10u8),
        s.len() > 0 ==> encode_utf8(s).len() > 0,
        s.len() > 0 ==> (encode_utf8(s)[0] == 13u8 <==> s[0] == '\r'),
        s.len() > 0 ==> (encode_utf8(s)[0] == 10u8 <==> s[0] == '\n'),
    decreases s.len(),
{
    if s.len() == 0 {
    } else {
        let rest = s.drop_first();
        let e0 = encode_scalar(s[0] as u32);
        let r = encode_utf8(rest);
        let bytes = encode_utf8(s);
        assert(bytes == e0 + r);
        lemma_scalar_bytes(s[0]);
        lemma_encode_keeps_line_ends(rest);
        assert(bytes[0] == e0[0]);
        assert('\r' as u32 == 13 && '\n' as u32 == 10);
        vstd::utf8::char_u32_cast('\r', 13u32);
        vstd::utf8::char_u32_cast('\n', 10u32);
        if s[0] as u32 == 13 {
            vstd::utf8::char_u32_cast(s[0], 13u32);
        }
        if s[0] as u32 == 10 {
            vstd::utf8::char_u32_cast(s[0], 10u32);
        }
        if free_of_pair(s, '\r', '\n') {
            assert(free_of_pair(rest, '\r', '\n')) by {
                assert forall|i: int| 0 <= i && i + 1 < rest.len() implies !(#[trigger] rest[i]
                    == '\r' && rest[i + 1] == '\n') by {
                    assert(rest[i] == s[i + 1] && rest[i + 1] == s[i + 2]);
                }
            }
            assert forall|i: int| 0 <= i && i + 1 < bytes.len() implies !(#[trigger] bytes[i]
                == 13u8 && bytes[i + 1] == 10u8) by {
                if i + 1 < e0.len() {
                    assert(bytes[i] == e0[i] && bytes[i + 1] == e0[i + 1]);
                } else if i + 1 == e0.len() {
                    assert(bytes[i] == e0[i]);
                    assert(bytes[i + 1] == r[0]);
                    if bytes[i] == 13u8 && bytes[i + 1] == 10u8 {
                        assert(s[0] == '\r');
                        assert(rest[0] == '\n');
                        assert(s[1] == rest[0]);
                        assert(s[0] == '\r' && s[0int + 1] == '\n');
                    }
                } else {
                    let k = i - e0.len();
                    assert(bytes[i] == r[k] && bytes[i + 1] == r[k + 1]);
                }
            }
        }
        if free_of_pair(bytes, 13u8, 10u8) {
            assert(free_of_pair(r, 13u8, 10u8)) by {
                assert forall|i: int| 0 <= i && i + 1 < r.len() implies !(#[trigger] r[i] == 13u8
                    && r[i + 1] == 10u8) by {
                    let k = i + e0.len();
                    assert(bytes[k] == r[i] && bytes[k + 1] == r[i + 1]);
                }
            }
            assert forall|i: int| 0 <= i && i + 1 < s.len() implies !(#[trigger] s[i] == '\r'
                && s[i + 1] == '\n') by {
                if i == 0 {
                    if s[0] == '\r' && s[1] == '\n' {
                        assert(rest[0] == s[1]);
                        assert(e0.len() == 1);
                        assert(bytes[0] == 13u8);
                        assert(bytes[1] == r[0]);
                        assert(bytes[0] == 13u8 && bytes[0int + 1] == 10u8);
                    }
                } else {
                    assert(rest[i - 1] == s[i] && rest[i - 1 + 1] == s[i + 1]);
                }
            }
        }
    }
}

/// A number written in decimal is digits, and they denote the number.
pub proof fn lemma_decimal_digits(n: nat)
    ensures
        is_digits(decimal(n)),
        digits_value(decimal(n)) == n,
    decreases n,
{
    let s = decimal(n);
    let d = if n < 10 {
        n
    } else {
        n % 10
    };
    let c = digit_char(d);
    assert(c as u32 == 0x30 + d && is_digit(c)) by {
        assert('0' as u32 == 0x30 && '9' as u32 == 0x39);
    }
    if n < 10 {
        assert(s.drop_last() =~= Seq::<char>::empty());
        assert(s.last() == c);
        assert(digits_value(s.drop_last()) == 0);
    } else {
        lemma_decimal_digits(n / 10);
        assert(s.drop_last() =~= decimal(n / 10));
        assert(s.last() == c);
        assert forall|i: int| 0 <= i < s.len() implies is_digit(s[i]) by {
            if i < s.len() - 1 {
                assert(s[i] == decimal(n / 10)[i]);
            }
        }
    }
}

/// Two numbers that are written alike in decimal are the same number.
pub proof fn lemma_decimal_injective(a: nat, b: nat)
    requires
        decimal(a) == decimal(b),
    ensures
        a == b,
{
    lemma_decimal_digits(a);
    lemma_decimal_digits(b);
}

/// A status code written in decimal reads as the code.
pub proof fn lemma_parse_u16_decimal(code: u16)
    ensures
        parse_u16(decimal(code as nat)) == Some(code),
{
    lemma_decimal_digits(code as nat);
    let s = decimal(code as nat);
    assert(is_digit(s[0]));
    assert(s[0] != '+');
}

} // verus!
