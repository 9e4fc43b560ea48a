//! What holds of route resolution, whatever routes are filed.

use crate::behaviours::behaviour_router::{
    candidates, most_specific, parse_route, registered, resolve, route_keys, EdgeKey, Entry,
    RouteTable,
};
use vstd::prelude::*;

verus! {

/// Whether a label lets a path segment pass.
pub open spec fn key_matches(key: EdgeKey, segment: Seq<char>) -> bool {
    key == EdgeKey::Any || key == EdgeKey::Literal(segment)
}

/// Whether labels match a path: there are no more labels than segments, and
/// each label lets the segment at its position pass.
pub open spec fn matches(keys: Seq<EdgeKey>, segments: Seq<Seq<char>>) -> bool {
    &&& keys.len() <= segments.len()
    &&& forall|i: int| 0 <= i < keys.len() ==> key_matches(#[trigger] keys[i], segments[i])
}

/// Whether something is filed under `keys` that matches the path.
pub open spec fn is_candidate<B>(
    table: RouteTable<B>,
    segments: Seq<Seq<char>>,
    keys: Seq<EdgeKey>,
) -> bool {
    table.dom().contains(keys) && matches(keys, segments)
}

/// Every entry is filed under the labels of its own route.
pub open spec fn filed_by_route<B>(table: RouteTable<B>) -> bool {
    forall|keys: Seq<EdgeKey>| #[trigger]
        table.dom().contains(keys) ==> route_keys(table[keys].0) == keys
}

/// Every filed route consists of literal segments only.
pub open spec fn all_plain<B>(table: RouteTable<B>) -> bool {
    forall|keys: Seq<EdgeKey>, i: int|
        table.dom().contains(keys) && 0 <= i < keys.len() ==> (#[trigger] keys[i]) is Literal
}

/// The labels that stand for a path taken literally.
pub open spec fn literal_keys(segments: Seq<Seq<char>>) -> Seq<EdgeKey> {
    segments.map_values(|segment: Seq<char>| EdgeKey::Literal(segment))
}

/// A table that was built by filing routes holds every entry under the
/// labels of its own route.
pub proof fn lemma_registered_filed_by_route<B>(list: Seq<(String, B)>)
    ensures
        filed_by_route(registered(list)),
    decreases list.len(),
{
    if list.len() > 0 {
        lemma_registered_filed_by_route(list.drop_last());
        let route = parse_route(list.last().0@);
        let before = registered(list.drop_last());
        let after = registered(list);
        assert forall|keys: Seq<EdgeKey>| #[trigger] after.dom().contains(keys) implies route_keys(
            after[keys].0,
        ) == keys by {
            if keys != route_keys(route) {
                assert(before.dom().contains(keys));
            }
        }
    }
}

/// The search meets whatever is filed under labels that match the path.
pub proof fn lemma_candidates_complete<B>(
    table: RouteTable<B>,
    segments: Seq<Seq<char>>,
    prefix: Seq<EdgeKey>,
    keys: Seq<EdgeKey>,
)
    requires
        is_candidate(table, segments, keys),
        prefix.is_prefix_of(keys),
    ensures
        candidates(table, segments, prefix).contains(table[keys]),
    decreases keys.len() - prefix.len(),
{
    let here = if table.dom().contains(prefix) {
        seq![table[prefix]]
    } else {
        Seq::empty()
    };
    if prefix.len() == keys.len() {
        assert(prefix =~= keys);
        assert(here[0] == table[keys]);
        let all = candidates(table, segments, prefix);
        assert(all[0] == table[keys]);
    } else {
        let n = prefix.len() as int;
        let literal = prefix.push(EdgeKey::Literal(segments[n]));
        let any = prefix.push(EdgeKey::Any);
        let first = candidates(table, segments, literal);
        let second = candidates(table, segments, any);
        assert(key_matches(keys[n], segments[n]));
        if keys[n] == EdgeKey::Any {
            assert(any =~= keys.subrange(0, n + 1));
            lemma_candidates_complete(table, segments, any, keys);
            let i = choose|i: int| 0 <= i < second.len() && second[i] == table[keys];
            assert((here + first + second)[here.len() + first.len() + i] == table[keys]);
        } else {
            assert(literal =~= keys.subrange(0, n + 1));
            lemma_candidates_complete(table, segments, literal, keys);
            let i = choose|i: int| 0 <= i < first.len() && first[i] == table[keys];
            assert((here + first + second)[here.len() + i] == table[keys]);
        }
    }
}

/// Whatever the search meets is filed under labels that match the path.
pub proof fn lemma_candidates_sound<B>(
    table: RouteTable<B>,
    segments: Seq<Seq<char>>,
    prefix: Seq<EdgeKey>,
    i: int,
) -> (keys: Seq<EdgeKey>)
    requires
        matches(prefix, segments),
        0 <= i < candidates(table, segments, prefix).len(),
    ensures
        is_candidate(table, segments, keys),
        prefix.is_prefix_of(keys),
        candidates(table, segments, prefix)[i] == table[keys],
    decreases segments.len() - prefix.len(),
{
    let here = if table.dom().contains(prefix) {
        seq![table[prefix]]
    } else {
        Seq::<Entry<B>>::empty()
    };
    if i < here.len() {
        assert(prefix =~= prefix.subrange(0, prefix.len() as int));
        prefix
    } else {
        let n = prefix.len() as int;
        let literal = prefix.push(EdgeKey::Literal(segments[n]));
        let any = prefix.push(EdgeKey::Any);
        let first = candidates(table, segments, literal);
        let second = candidates(table, segments, any);
        if i < here.len() + first.len() {
            assert(matches(literal, segments)) by {
                assert forall|j: int| 0 <= j < literal.len() implies key_matches(
                    #[trigger] literal[j],
                    segments[j],
                ) by {
                    if j < n {
                        assert(literal[j] == prefix[j]);
                    }
                }
            }
            let keys = lemma_candidates_sound(table, segments, literal, i - here.len());
            assert(prefix =~= keys.subrange(0, n)) by {
                assert(literal =~= keys.subrange(0, n + 1));
                assert forall|j: int| 0 <= j < n implies prefix[j] == keys[j] by {
                    assert(literal[j] == keys.subrange(0, n + 1)[j]);
                }
            }
            keys
        } else {
            assert(matches(any, segments)) by {
                assert forall|j: int| 0 <= j < any.len() implies key_matches(
                    #[trigger] any[j],
                    segments[j],
                ) by {
                    if j < n {
                        assert(any[j] == prefix[j]);
                    }
                }
            }
            let keys = lemma_candidates_sound(
                table,
                segments,
                any,
                i - here.len() - first.len(),
            );
            assert(prefix =~= keys.subrange(0, n)) by {
                assert(any =~= keys.subrange(0, n + 1));
                assert forall|j: int| 0 <= j < n implies prefix[j] == keys[j] by {
                    assert(any[j] == keys.subrange(0, n + 1)[j]);
                }
            }
            keys
        }
    }
}

/// Of the entries that were found, the chosen one is one of them, and none
/// has a longer route.
pub proof fn lemma_most_specific<B>(found: Seq<Entry<B>>) -> (at: int)
    requires
        found.len() > 0,
    ensures
        0 <= at < found.len(),
        most_specific(found) == Some(found[at]),
        forall|i: int| 0 <= i < found.len() ==> (#[trigger] found[i]).0.len() <= found[at].0.len(),
        forall|i: int| 0 <= i < at ==> (#[trigger] found[i]).0.len() < found[at].0.len(),
    decreases found.len(),
{
    if found.len() == 1 {
        assert(found.drop_last().len() == 0);
        0
    } else {
        let rest = found.drop_last();
        let at = lemma_most_specific(rest);
        assert(forall|i: int| 0 <= i < rest.len() ==> rest[i] == found[i]);
        if rest[at].0.len() < found.last().0.len() {
            found.len() - 1
        } else {
            at
        }
    }
}

/// A path resolves to a route exactly when some filed route matches it. The
/// route that it resolves to matches it, and no filed route that matches
/// it has more segments.
pub proof fn lemma_resolves_to_the_longest<B>(table: RouteTable<B>, segments: Seq<Seq<char>>)
    ensures
        resolve(table, segments) is Some <==> exists|keys: Seq<EdgeKey>|
            is_candidate(table, segments, keys),
        resolve(table, segments) is Some ==> exists|keys: Seq<EdgeKey>|
            is_candidate(table, segments, keys) && table[keys] == resolve(table, segments)->0,
        forall|keys: Seq<EdgeKey>| #[trigger]
            is_candidate(table, segments, keys) ==> resolve(table, segments) is Some
                && table[keys].0.len() <= resolve(table, segments).unwrap().0.len(),
{
    let found = candidates(table, segments, Seq::<EdgeKey>::empty());
    assert(matches(Seq::<EdgeKey>::empty(), segments));
    if found.len() > 0 {
        let at = lemma_most_specific(found);
        let keys = lemma_candidates_sound(table, segments, Seq::empty(), at);
        assert(is_candidate(table, segments, keys));
    }
    assert forall|keys: Seq<EdgeKey>| #[trigger]
        is_candidate(table, segments, keys) implies resolve(table, segments) is Some
        && table[keys].0.len() <= resolve(table, segments).unwrap().0.len() by {
        assert(Seq::<EdgeKey>::empty().is_prefix_of(keys));
        lemma_candidates_complete(table, segments, Seq::empty(), keys);
        let i = choose|i: int| 0 <= i < found.len() && found[i] == table[keys];
        let at = lemma_most_specific(found);
        assert(found[i].0.len() <= found[at].0.len());
    }
}

/// Where every filed route is literal, resolving a path is looking it up as
/// it stands: a path that is filed resolves to its own entry, and a path of
/// which no beginning is filed resolves to nothing.
pub proof fn lemma_plain_routes_are_exact<B>(table: RouteTable<B>, segments: Seq<Seq<char>>)
    requires
        all_plain(table),
        filed_by_route(table),
        table.dom().contains(literal_keys(segments)) || forall|n: int|
            0 <= n <= segments.len() ==> !table.dom().contains(
                #[trigger] literal_keys(segments.take(n)),
            ),
    ensures
        resolve(table, segments) == if table.dom().contains(literal_keys(segments)) {
            Some(table[literal_keys(segments)])
        } else {
            None
        },
{
    let exact = literal_keys(segments);
    let found = candidates(table, segments, Seq::<EdgeKey>::empty());
    assert(matches(Seq::<EdgeKey>::empty(), segments));
    // Whatever matches the path is a beginning of the path itself.
    assert forall|keys: Seq<EdgeKey>| #[trigger]
        is_candidate(table, segments, keys) implies keys == literal_keys(
        segments.take(keys.len() as int),
    ) by {
        let shorter = literal_keys(segments.take(keys.len() as int));
        assert forall|i: int| 0 <= i < keys.len() implies keys[i] == shorter[i] by {
            assert(keys[i] is Literal);
            assert(key_matches(keys[i], segments[i]));
        }
        assert(keys =~= shorter);
    }
    if table.dom().contains(exact) {
        assert(matches(exact, segments));
        assert(is_candidate(table, segments, exact));
        lemma_resolves_to_the_longest(table, segments);
        let at = lemma_most_specific(found);
        let keys = lemma_candidates_sound(table, segments, Seq::empty(), at);
        assert(is_candidate(table, segments, keys));
        assert(route_keys(table[keys].0).len() == keys.len());
        assert(route_keys(table[exact].0).len() == exact.len());
        assert(keys.len() == segments.len());
        assert(segments.take(segments.len() as int) =~= segments);
        assert(keys == exact);
    } else {
        if found.len() > 0 {
            let keys = lemma_candidates_sound(table, segments, Seq::empty(), 0);
            assert(is_candidate(table, segments, keys));
            assert(!table.dom().contains(literal_keys(segments.take(keys.len() as int))));
        }
    }
}

/// In a table that holds every entry under the labels of its own route,
/// what is filed under different labels differs.
pub proof fn lemma_entries_differ<B>(table: RouteTable<B>, a: Seq<EdgeKey>, b: Seq<EdgeKey>)
    requires
        filed_by_route(table),
        table.dom().contains(a),
        table.dom().contains(b),
        table[a] == table[b],
    ensures
        a == b,
{
}

/// In the search from `prefix`, what is filed under labels that take the
/// literal edge where other labels of the same beginning take the
/// any-segment edge is met first.
pub proof fn lemma_literal_is_met_first<B>(
    table: RouteTable<B>,
    segments: Seq<Seq<char>>,
    prefix: Seq<EdgeKey>,
    literal: Seq<EdgeKey>,
    any: Seq<EdgeKey>,
    at: int,
    j: int,
)
    requires
        filed_by_route(table),
        is_candidate(table, segments, literal),
        is_candidate(table, segments, any),
        matches(prefix, segments),
        prefix.len() <= at < literal.len(),
        at < any.len(),
        prefix.is_prefix_of(literal),
        prefix.is_prefix_of(any),
        literal.subrange(0, at) == any.subrange(0, at),
        literal[at] is Literal,
        any[at] == EdgeKey::Any,
        0 <= j < candidates(table, segments, prefix).len(),
        candidates(table, segments, prefix)[j] == table[any],
    ensures
        exists|i: int| 0 <= i < j && candidates(table, segments, prefix)[i] == table[literal],
    decreases at - prefix.len(),
{
    let n = prefix.len() as int;
    let here = if table.dom().contains(prefix) {
        seq![table[prefix]]
    } else {
        Seq::<Entry<B>>::empty()
    };
    let left = prefix.push(EdgeKey::Literal(segments[n]));
    let right = prefix.push(EdgeKey::Any);
    let first = candidates(table, segments, left);
    let second = candidates(table, segments, right);
    let all = candidates(table, segments, prefix);
    assert(all == here + first + second);
    assert(matches(left, segments) && matches(right, segments)) by {
        assert forall|k: int| 0 <= k < left.len() implies key_matches(
            #[trigger] left[k],
            segments[k],
        ) by {
            if k < n {
                assert(left[k] == prefix[k]);
            }
        }
        assert forall|k: int| 0 <= k < right.len() implies key_matches(
            #[trigger] right[k],
            segments[k],
        ) by {
            if k < n {
                assert(right[k] == prefix[k]);
            }
        }
    }
    // The entry at `j` is filed under `any`, so it does not stand for
    // `prefix` itself.
    if j < here.len() {
        lemma_entries_differ(table, prefix, any);
        assert(false);
    }
    if n == at {
        // The literal edge is taken first, and `any` does not lie behind it.
        assert(key_matches(literal[at], segments[at]));
        assert(left =~= literal.subrange(0, at + 1)) by {
            assert forall|k: int| 0 <= k < n implies left[k] == literal[k] by {
                assert(prefix[k] == literal.subrange(0, n)[k]);
            }
        }
        lemma_candidates_complete(table, segments, left, literal);
        let i = choose|i: int| 0 <= i < first.len() && first[i] == table[literal];
        assert(all[here.len() + i] == table[literal]);
        if j < here.len() + first.len() {
            let keys = lemma_candidates_sound(table, segments, left, j - here.len());
            lemma_entries_differ(table, keys, any);
            assert(keys.subrange(0, n + 1)[n] == left[n]);
            assert(false);
        }
    } else {
        // Both lie behind the same edge; what lies behind the other is
        // filed under other labels.
        let shared = literal[n];
        assert(shared == any[n]) by {
            assert(literal.subrange(0, at)[n] == literal[n]);
            assert(any.subrange(0, at)[n] == any[n]);
        }
        assert(key_matches(shared, segments[n]));
        let next = prefix.push(shared);
        assert(next =~= literal.subrange(0, n + 1)) by {
            assert forall|k: int| 0 <= k < n implies next[k] == literal[k] by {
                assert(prefix[k] == literal.subrange(0, n)[k]);
            }
        }
        assert(next =~= any.subrange(0, n + 1)) by {
            assert forall|k: int| 0 <= k < n implies next[k] == any[k] by {
                assert(prefix[k] == any.subrange(0, n)[k]);
            }
        }
        if shared == EdgeKey::Any {
            assert(next == right);
            if j < here.len() + first.len() {
                let keys = lemma_candidates_sound(table, segments, left, j - here.len());
                lemma_entries_differ(table, keys, any);
                assert(keys.subrange(0, n + 1)[n] == left[n]);
                assert(false);
            }
            let offset = here.len() + first.len();
            lemma_literal_is_met_first(table, segments, right, literal, any, at, j - offset);
            let i = choose|i: int|
                0 <= i < j - offset && candidates(table, segments, right)[i] == table[literal];
            assert(all[offset + i] == table[literal]);
        } else {
            assert(next == left);
            if j >= here.len() + first.len() {
                let keys = lemma_candidates_sound(
                    table,
                    segments,
                    right,
                    j - here.len() - first.len(),
                );
                lemma_entries_differ(table, keys, any);
                assert(keys.subrange(0, n + 1)[n] == right[n]);
                assert(false);
            }
            let offset = here.len() as int;
            lemma_literal_is_met_first(table, segments, left, literal, any, at, j - offset);
            let i = choose|i: int|
                0 <= i < j - offset && candidates(table, segments, left)[i] == table[literal];
            assert(all[offset + i] == table[literal]);
        }
    }
}

/// Of two filed routes of the same length that match a path and begin
/// alike, the one that goes on with a literal segment where the other goes
/// on with a parameter is preferred: the path does not resolve to the other.
pub proof fn lemma_literal_is_preferred<B>(
    table: RouteTable<B>,
    segments: Seq<Seq<char>>,
    literal: Seq<EdgeKey>,
    any: Seq<EdgeKey>,
    at: int,
)
    requires
        filed_by_route(table),
        is_candidate(table, segments, literal),
        is_candidate(table, segments, any),
        literal.len() == any.len(),
        0 <= at < literal.len(),
        literal.subrange(0, at) == any.subrange(0, at),
        literal[at] is Literal,
        any[at] == EdgeKey::Any,
    ensures
        resolve(table, segments) != Some(table[any]),
{
    let found = candidates(table, segments, Seq::<EdgeKey>::empty());
    if resolve(table, segments) == Some(table[any]) {
        let j = lemma_most_specific(found);
        assert(matches(Seq::<EdgeKey>::empty(), segments));
        assert(Seq::<EdgeKey>::empty().is_prefix_of(literal));
        assert(Seq::<EdgeKey>::empty().is_prefix_of(any));
        lemma_literal_is_met_first(table, segments, Seq::empty(), literal, any, at, j);
        let i = choose|i: int| 0 <= i < j && found[i] == table[literal];
        assert(route_keys(table[literal].0).len() == literal.len());
        assert(route_keys(table[any].0).len() == any.len());
        assert(found[i].0.len() < found[j].0.len());
    }
}

} // verus!
