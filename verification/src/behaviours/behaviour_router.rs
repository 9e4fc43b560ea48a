//! Routes, and the tree that resolves a request path to a handler.

use crate::behaviours::behaviour::{outcome_of, Behaviour, BehaviourError, Outcome};
use crate::http::http_message::HttpVersion;
use crate::http::http_request::{HttpRequest, RequestView};
use crate::http::http_response::{new_response, HttpResponse, ResponseView};
use crate::string_map::{assoc_insert, Pair, StringMap};
use crate::text::{
    char_len, index_of_from, lemma_index_of_from, lemma_index_of_push, non_empty, split,
    split_str, str_eq, texts, to_chars,
};
use vstd::prelude::*;
use vstd::string::*;
use vstd::utf8::encode_utf8;

verus! {

/// The kinds of route segment.
#[allow(non_camel_case_types)]
#[derive(PartialEq, Eq, Structural, Clone, Copy, Debug)]
pub enum RoutePartType {
    /// Matches the path segment that equals its name.
    PLAIN,
    /// Matches any path segment and binds it to its name.
    PARAMETER,
    /// Matches any path segment and binds nothing.
    IGNORE,
}

/// One segment of a route, as mathematical values.
pub struct RoutePartView {
    pub name: Seq<char>,
    pub part_type: RoutePartType,
}

/// One segment of a route.
#[derive(Debug)]
pub struct RoutePart {
    name: String,
    part_type: RoutePartType,
}

impl View for RoutePart {
    type V = RoutePartView;

    closed spec fn view(&self) -> RoutePartView {
        RoutePartView { name: self.name@, part_type: self.part_type }
    }
}

impl RoutePart {
    /// The name of the segment: the literal text, or the parameter's name.
    pub fn name(&self) -> (name: &String)
        ensures
            name@ == self@.name,
    {
        &self.name
    }

    /// The kind of the segment.
    pub fn part_type(&self) -> (part_type: RoutePartType)
        ensures
            part_type == self@.part_type,
    {
        self.part_type
    }
}

/// A route: its segments in order.
#[derive(Debug)]
pub struct Route {
    parts: Vec<RoutePart>,
}

impl View for Route {
    type V = Seq<RoutePartView>;

    closed spec fn view(&self) -> Seq<RoutePartView> {
        self.parts@.map_values(|p: RoutePart| p@)
    }
}

/// The sections of a route text: one leading `/` is dropped, the rest is cut
/// at every `/`, and an empty last section is dropped.
pub open spec fn route_sections(s: Seq<char>) -> Seq<Seq<char>> {
    let body = if s.len() > 0 && s[0] == '/' {
        s.drop_first()
    } else {
        s
    };
    let pieces = split(body, '/');
    if pieces.len() > 0 && pieces.last().len() == 0 {
        pieces.drop_last()
    } else {
        pieces
    }
}

/// The segment that a section denotes: `{}` ignores, `{name}` is a
/// parameter, anything else is literal text.
pub open spec fn route_part(section: Seq<char>) -> RoutePartView {
    if section.len() >= 2 && section.first() == '{' && section.last() == '}' {
        RoutePartView {
            name: section.subrange(1, section.len() - 1),
            part_type: if section.len() > 2 {
                RoutePartType::PARAMETER
            } else {
                RoutePartType::IGNORE
            },
        }
    } else {
        RoutePartView { name: section, part_type: RoutePartType::PLAIN }
    }
}

/// The route that a text denotes.
pub open spec fn parse_route(s: Seq<char>) -> Seq<RoutePartView> {
    route_sections(s).map_values(|section: Seq<char>| route_part(section))
}

/// A segment written out.
pub open spec fn part_string(part: RoutePartView) -> Seq<char> {
    match part.part_type {
        RoutePartType::PLAIN => seq!['/'] + part.name,
        RoutePartType::PARAMETER => seq!['/', '{'] + part.name + seq!['}'],
        RoutePartType::IGNORE => seq!['/', '{', '}'],
    }
}

/// A route written out: each segment behind a `/`.
pub open spec fn route_string(route: Seq<RoutePartView>) -> Seq<char>
    decreases route.len(),
{
    if route.len() == 0 {
        Seq::empty()
    } else {
        route_string(route.drop_last()) + part_string(route.last())
    }
}

/// The segments of a request path: the non-empty pieces between its `/`.
pub open spec fn path_segments(uri: Seq<char>) -> Seq<Seq<char>> {
    non_empty(split(uri, '/'))
}

/// Cutting a text gives at least one piece.
pub proof fn lemma_split_nonempty(s: Seq<char>, sep: char)
    ensures
        split(s, sep).len() >= 1,
{
}

impl Route {
    /// Parses a route text.
    pub fn parse(route: &str) -> (r: Route)
        ensures
            r@ == parse_route(route@),
    {
        let total = char_len(route);
        let body = if total > 0 && route.get_char(0) == '/' {
            route.substring_char(1, total)
        } else {
            route
        };
        assert(route@.drop_first() =~= route@.subrange(1, total as int));
        let mut sections = split_str(body, '/');
        proof {
            lemma_split_nonempty(body@, '/');
            assert(texts(sections@).len() == sections@.len());
        }
        let count = sections.len();
        if count > 0 && char_len(sections[count - 1].as_str()) == 0 {
            let ghost before = sections@;
            assert(texts(before).last() == before[count - 1]@);
            sections.pop();
            assert(texts(sections@) =~= texts(before).drop_last());
        } else {
            assert(texts(sections@).last() == sections@[count - 1]@);
        }
        assert(texts(sections@) == route_sections(route@));
        let mut parts: Vec<RoutePart> = Vec::new();
        let mut i: usize = 0;
        while i < sections.len()
            invariant
                i <= sections.len(),
                parts@.len() == i,
                forall|j: int| 0 <= j < i ==> (#[trigger] parts@[j])@ == route_part(sections@[j]@),
            decreases sections.len() - i,
        {
            let section = sections[i].as_str();
            let chars = to_chars(section);
            let n = chars.len();
            let part = if n >= 2 && chars[0] == '{' && chars[n - 1] == '}' {
                RoutePart {
                    name: section.substring_char(1, n - 1).to_owned(),
                    part_type: if n > 2 {
                        RoutePartType::PARAMETER
                    } else {
                        RoutePartType::IGNORE
                    },
                }
            } else {
                RoutePart { name: section.to_owned(), part_type: RoutePartType::PLAIN }
            };
            parts.push(part);
            i = i + 1;
        }
        let r = Route { parts };
        assert(r@ =~= parse_route(route@));
        r
    }

    /// The segments of the route.
    pub fn parts(&self) -> (parts: &Vec<RoutePart>)
        ensures
            parts@.map_values(|p: RoutePart| p@) == self@,
    {
        &self.parts
    }

    /// Number of segments.
    pub fn len(&self) -> (n: usize)
        ensures
            n == self@.len(),
    {
        self.parts.len()
    }

    /// The route written out: each segment behind a `/`, a parameter as
    /// `{name}`, an ignored segment as `{}`.
    pub fn to_string(&self) -> (out: String)
        ensures
            out@ == route_string(self@),
    {
        let mut out = String::new();
        let mut i: usize = 0;
        assert(self@.take(0) =~= Seq::<RoutePartView>::empty());
        while i < self.parts.len()
            invariant
                i <= self.parts.len(),
                out@ == route_string(self@.take(i as int)),
            decreases self.parts.len() - i,
        {
            proof {
                reveal_strlit("/");
                reveal_strlit("{");
                reveal_strlit("}");
                reveal_strlit("{}");
                let done = self@.take(i as int + 1);
                assert(done.drop_last() =~= self@.take(i as int));
                assert(done.last() == self.parts@[i as int]@);
            }
            let ghost before = out@;
            let part = &self.parts[i];
            out.append("/");
            match part.part_type {
                RoutePartType::PLAIN => {
                    out.append(part.name.as_str());
                },
                RoutePartType::PARAMETER => {
                    out.append("{");
                    out.append(part.name.as_str());
                    out.append("}");
                },
                RoutePartType::IGNORE => {
                    out.append("{}");
                },
            }
            assert(out@ =~= before + part_string(part@));
            i = i + 1;
        }
        assert(self@.take(self.parts@.len() as int) =~= self@);
        out
    }
}

/// The label of an edge of the route tree: the literal text of a segment, or
/// the one label that stands for any segment.
pub enum EdgeKey {
    Literal(Seq<char>),
    Any,
}

/// The label under which a route segment is filed.
pub open spec fn edge_key(part: RoutePartView) -> EdgeKey {
    if part.part_type == RoutePartType::PLAIN {
        EdgeKey::Literal(part.name)
    } else {
        EdgeKey::Any
    }
}

/// The labels along a route.
pub open spec fn route_keys(route: Seq<RoutePartView>) -> Seq<EdgeKey> {
    route.map_values(|part: RoutePartView| edge_key(part))
}

/// What is filed for a route: the route and its handler.
pub type Entry<B> = (Seq<RoutePartView>, B);

/// What a router holds: for every filed sequence of labels, the route that
/// was filed last under it, and its handler.
pub type RouteTable<B> = Map<Seq<EdgeKey>, Entry<B>>;

/// The table after the routes of `list` are filed in order.
pub open spec fn registered<B>(list: Seq<(String, B)>) -> RouteTable<B>
    decreases list.len(),
{
    if list.len() == 0 {
        Map::empty()
    } else {
        let route = parse_route(list.last().0@);
        registered(list.drop_last()).insert(route_keys(route), (route, list.last().1))
    }
}

/// The entries whose labels begin with `prefix` and match the segments, in
/// the order of the search: what is filed under `prefix` itself, then, where
/// a segment is left, what lies behind the literal edge for that segment,
/// then what lies behind the any-segment edge.
pub open spec fn candidates<B>(
    table: RouteTable<B>,
    segments: Seq<Seq<char>>,
    prefix: Seq<EdgeKey>,
) -> Seq<Entry<B>>
    decreases segments.len() - prefix.len(),
{
    let here = if table.dom().contains(prefix) {
        seq![table[prefix]]
    } else {
        Seq::empty()
    };
    if prefix.len() < segments.len() {
        here + candidates(
            table,
            segments,
            prefix.push(EdgeKey::Literal(segments[prefix.len() as int])),
        ) + candidates(table, segments, prefix.push(EdgeKey::Any))
    } else {
        here
    }
}

/// The entry with the longest route; of several, the first.
pub open spec fn most_specific<B>(found: Seq<Entry<B>>) -> Option<Entry<B>>
    decreases found.len(),
{
    if found.len() == 0 {
        None
    } else {
        match most_specific(found.drop_last()) {
            Some(best) => if best.0.len() < found.last().0.len() {
                Some(found.last())
            } else {
                Some(best)
            },
            None => Some(found.last()),
        }
    }
}

/// The entry that a request path resolves to.
pub open spec fn resolve<B>(table: RouteTable<B>, segments: Seq<Seq<char>>) -> Option<Entry<B>> {
    most_specific(candidates(table, segments, Seq::empty()))
}

/// The parameters that the first `n` positions bind: where the route has a
/// parameter and the path a segment, the parameter's name is bound to the
/// segment.
pub open spec fn bound_upto(
    route: Seq<RoutePartView>,
    segments: Seq<Seq<char>>,
    n: nat,
) -> Seq<Pair>
    decreases n,
{
    if n == 0 {
        Seq::empty()
    } else {
        let before = bound_upto(route, segments, (n - 1) as nat);
        let i = n - 1;
        if i < route.len() && i < segments.len() && route[i].part_type
            == RoutePartType::PARAMETER {
            assoc_insert(before, route[i].name, segments[i])
        } else {
            before
        }
    }
}

/// The parameters that a route binds on a path, position by position.
/// Segments beyond the route bind nothing, and so do route segments beyond
/// the path.
pub open spec fn bound_parameters(route: Seq<RoutePartView>, segments: Seq<Seq<char>>) -> Seq<
    Pair,
> {
    bound_upto(route, segments, segments.len())
}

/// The response for a path that resolves to nothing.
pub open spec fn not_found_response(version: HttpVersion) -> ResponseView {
    new_response(404, Seq::empty(), encode_utf8("404: Not Found"@), version)
}

/// The response for what a handler came back with: its own response as it
/// is, or a 500 that names the failure.
pub open spec fn response_for(outcome: Outcome, version: HttpVersion) -> ResponseView {
    match outcome {
        Ok(response) => response,
        Err(message) => new_response(
            500,
            Seq::empty(),
            encode_utf8("500: Internal server error: "@ + message),
            version,
        ),
    }
}

/// Whether `response` is what the router makes of something that `handler`
/// may come back with for the request and the parameters.
pub open spec fn handled_by<B: Behaviour>(
    handler: B,
    request: RequestView,
    params: Seq<Pair>,
    response: ResponseView,
) -> bool {
    exists|outcome: Outcome|
        #![trigger handler.may_return(request, params, outcome)]
        handler.may_return(request, params, outcome) && response == response_for(
            outcome,
            request.version,
        )
}

/// Whether `response` answers `request` on the given table: what the router
/// makes of the handler that the path resolves to, run with the parameters
/// that the route binds, or the 404 where the path resolves to nothing.
pub open spec fn answers<B: Behaviour>(
    table: RouteTable<B>,
    request: RequestView,
    response: ResponseView,
) -> bool {
    match resolve(table, path_segments(request.url.uri)) {
        Some((route, handler)) => handled_by(
            handler,
            request,
            bound_parameters(route, path_segments(request.url.uri)),
            response,
        ),
        None => response == not_found_response(request.version),
    }
}

/// A node of the route tree.
struct RouteTreeLeaf<B> {
    leaves: Vec<(String, RouteTreeLeaf<B>)>,
    any: Option<Box<RouteTreeLeaf<B>>>,
    behaviour: Option<B>,
    route: Route,
}

impl<B> RouteTreeLeaf<B> {
    /// The texts on the literal edges, in order.
    spec fn names(leaves: Seq<(String, RouteTreeLeaf<B>)>) -> Seq<Seq<char>> {
        leaves.map_values(|l: (String, RouteTreeLeaf<B>)| l.0@)
    }

    /// The node behind the edge with the given label.
    spec fn child(self, key: EdgeKey) -> Option<RouteTreeLeaf<B>> {
        match key {
            EdgeKey::Literal(name) => match index_of_from(Self::names(self.leaves@), name, 0) {
                Some(i) => Some(self.leaves@[i].1),
                None => None,
            },
            EdgeKey::Any => match self.any {
                Some(node) => Some(*node),
                None => None,
            },
        }
    }

    /// The node at the end of the path with the given labels.
    spec fn descend(self, keys: Seq<EdgeKey>) -> Option<RouteTreeLeaf<B>>
        decreases keys.len(),
    {
        if keys.len() == 0 {
            Some(self)
        } else {
            match self.child(keys[0]) {
                Some(node) => node.descend(keys.drop_first()),
                None => None,
            }
        }
    }

    /// What this node itself holds.
    spec fn own(self) -> Option<Entry<B>> {
        match self.behaviour {
            Some(b) => Some((self.route@, b)),
            None => None,
        }
    }

    /// What is filed under the given labels.
    spec fn entry_at(self, keys: Seq<EdgeKey>) -> Option<Entry<B>> {
        match self.descend(keys) {
            Some(node) => node.own(),
            None => None,
        }
    }

    /// All that is filed below this node.
    spec fn table(self) -> RouteTable<B> {
        Map::new(|keys: Seq<EdgeKey>| self.entry_at(keys) is Some, |keys: Seq<EdgeKey>|
            self.entry_at(keys)->0)
    }

    /// What the search collects from this node on, at the given depth.
    spec fn found(self, segments: Seq<Seq<char>>, depth: int) -> Seq<Entry<B>>
        decreases segments.len() - depth,
    {
        let here = match self.own() {
            Some(e) => seq![e],
            None => Seq::empty(),
        };
        if 0 <= depth < segments.len() {
            here + (match self.child(EdgeKey::Literal(segments[depth])) {
                Some(node) => node.found(segments, depth + 1),
                None => Seq::empty(),
            }) + (match self.child(EdgeKey::Any) {
                Some(node) => node.found(segments, depth + 1),
                None => Seq::empty(),
            })
        } else {
            here
        }
    }

    /// Below a node without handler and without edges nothing is filed.
    proof fn lemma_bare(self)
        requires
            self.leaves@.len() == 0,
            self.any is None,
            self.behaviour is None,
        ensures
            self.table() == Map::<Seq<EdgeKey>, Entry<B>>::empty(),
            forall|keys: Seq<EdgeKey>| self.entry_at(keys) is None,
    {
        assert forall|keys: Seq<EdgeKey>| self.entry_at(keys) is None by {
            if keys.len() > 0 {
                assert(self.child(keys[0]) is None);
            }
        }
        assert(self.table() =~= Map::<Seq<EdgeKey>, Entry<B>>::empty());
    }

    /// Going down one more edge is taking that edge at the end of the path.
    proof fn lemma_descend_push(self, keys: Seq<EdgeKey>, key: EdgeKey)
        ensures
            self.descend(keys.push(key)) == match self.descend(keys) {
                Some(node) => node.child(key),
                None => None,
            },
        decreases keys.len(),
    {
        let longer = keys.push(key);
        if keys.len() == 0 {
            assert(longer.drop_first() =~= Seq::<EdgeKey>::empty());
            match self.child(key) {
                Some(node) => {
                    assert(node.descend(longer.drop_first()) == Some(node));
                },
                None => {},
            }
        } else {
            assert(longer[0] == keys[0]);
            assert(longer.drop_first() =~= keys.drop_first().push(key));
            match self.child(keys[0]) {
                Some(node) => {
                    node.lemma_descend_push(keys.drop_first(), key);
                },
                None => {},
            }
        }
    }

    /// Where no node lies at `prefix`, the search from there finds nothing.
    proof fn lemma_nothing_below(self, segments: Seq<Seq<char>>, prefix: Seq<EdgeKey>)
        requires
            self.descend(prefix) is None,
        ensures
            candidates(self.table(), segments, prefix) == Seq::<Entry<B>>::empty(),
        decreases segments.len() - prefix.len(),
    {
        if prefix.len() < segments.len() {
            let lit = EdgeKey::Literal(segments[prefix.len() as int]);
            self.lemma_descend_push(prefix, lit);
            self.lemma_descend_push(prefix, EdgeKey::Any);
            self.lemma_nothing_below(segments, prefix.push(lit));
            self.lemma_nothing_below(segments, prefix.push(EdgeKey::Any));
        }
    }

    /// The search from the node at `prefix` finds what the table holds for
    /// the labels that begin with `prefix` and match the segments.
    proof fn lemma_found(
        self,
        node: RouteTreeLeaf<B>,
        segments: Seq<Seq<char>>,
        prefix: Seq<EdgeKey>,
    )
        requires
            self.descend(prefix) == Some(node),
        ensures
            node.found(segments, prefix.len() as int) == candidates(self.table(), segments, prefix),
        decreases segments.len() - prefix.len(),
    {
        assert(self.entry_at(prefix) == node.own());
        if prefix.len() < segments.len() {
            let lit = EdgeKey::Literal(segments[prefix.len() as int]);
            self.lemma_descend_push(prefix, lit);
            self.lemma_descend_push(prefix, EdgeKey::Any);
            match node.child(lit) {
                Some(next) => {
                    self.lemma_found(next, segments, prefix.push(lit));
                },
                None => {
                    self.lemma_nothing_below(segments, prefix.push(lit));
                },
            }
            match node.child(EdgeKey::Any) {
                Some(next) => {
                    self.lemma_found(next, segments, prefix.push(EdgeKey::Any));
                },
                None => {
                    self.lemma_nothing_below(segments, prefix.push(EdgeKey::Any));
                },
            }
        }
    }

    /// A node without handler and without edges.
    fn bare() -> (node: RouteTreeLeaf<B>)
        ensures
            node.leaves@.len() == 0,
            node.any is None,
            node.behaviour is None,
            node.table() == Map::<Seq<EdgeKey>, Entry<B>>::empty(),
    {
        let node = RouteTreeLeaf {
            leaves: Vec::new(),
            any: None,
            behaviour: None,
            route: Route { parts: Vec::new() },
        };
        proof {
            node.lemma_bare();
        }
        node
    }

    /// Position of the literal edge with the given text.
    fn leaf_index(&self, name: &str) -> (r: Option<usize>)
        ensures
            r is Some <==> index_of_from(Self::names(self.leaves@), name@, 0) is Some,
            r matches Some(i) ==> index_of_from(Self::names(self.leaves@), name@, 0) == Some(
                i as int,
            ) && i < self.leaves@.len(),
    {
        let mut i: usize = 0;
        while i < self.leaves.len()
            invariant
                i <= self.leaves.len(),
                index_of_from(Self::names(self.leaves@), name@, 0) == index_of_from(
                    Self::names(self.leaves@),
                    name@,
                    i as int,
                ),
            decreases self.leaves.len() - i,
        {
            if str_eq(self.leaves[i].0.as_str(), name) {
                return Some(i);
            }
            i = i + 1;
        }
        None
    }

    /// Filing an entry under the labels `seq![key] + rest` changes the table
    /// of a node as it changes the table of the child behind `key`.
    proof fn lemma_insert_step(
        self,
        after: RouteTreeLeaf<B>,
        key: EdgeKey,
        rest: Seq<EdgeKey>,
        e: Entry<B>,
        child: RouteTreeLeaf<B>,
    )
        requires
            after.own() == self.own(),
            after.child(key) == Some(child),
            child.table() == (match self.child(key) {
                Some(c) => c.table(),
                None => Map::<Seq<EdgeKey>, Entry<B>>::empty(),
            }).insert(rest, e),
            forall|k: EdgeKey| k != key ==> #[trigger] after.child(k) == self.child(k),
        ensures
            after.table() == self.table().insert(seq![key] + rest, e),
    {
        let target = seq![key] + rest;
        let before = match self.child(key) {
            Some(c) => c.table(),
            None => Map::<Seq<EdgeKey>, Entry<B>>::empty(),
        };
        assert forall|q: Seq<EdgeKey>| #[trigger] after.entry_at(q) == (if q == target {
            Some(e)
        } else {
            self.entry_at(q)
        }) by {
            if q.len() == 0 {
            } else if q[0] == key {
                let x = q.drop_first();
                assert(after.entry_at(q) == child.entry_at(x));
                assert(child.table().dom().contains(x) == (child.entry_at(x) is Some));
                if x == rest {
                    assert(q =~= target);
                    assert(child.table()[x] == e);
                } else {
                    assert(q != target) by {
                        if q == target {
                            assert(target.drop_first() =~= rest);
                        }
                    }
                    assert(child.table().dom().contains(x) == before.dom().contains(x));
                    match self.child(key) {
                        Some(c) => {
                            assert(before.dom().contains(x) == (c.entry_at(x) is Some));
                            assert(self.entry_at(q) == c.entry_at(x));
                            if c.entry_at(x) is Some {
                                assert(child.table()[x] == before[x]);
                            }
                        },
                        None => {},
                    }
                }
            } else {
                assert(after.child(q[0]) == self.child(q[0]));
                assert(q != target) by {
                    if q == target {
                        assert(target[0] == key);
                    }
                }
            }
        }
        let m1 = after.table();
        let m2 = self.table().insert(target, e);
        assert forall|q: Seq<EdgeKey>| m1.dom().contains(q) == m2.dom().contains(q) by {
            let _ = after.entry_at(q);
        }
        assert forall|q: Seq<EdgeKey>| #[trigger] m1.dom().contains(q) implies m1[q] == m2[q] by {
            let _ = after.entry_at(q);
        }
        assert(m1 =~= m2);
    }

    /// Files `behaviour` with `route` under the labels of the route from
    /// `level` on, below this node.
    fn insert(&mut self, route: Route, level: usize, behaviour: B)
        requires
            level <= route@.len(),
        ensures
            final(self).table() == old(self).table().insert(
                route_keys(route@).skip(level as int),
                (route@, behaviour),
            ),
        decreases route@.len() - level,
    {
        let ghost keys = route_keys(route@);
        let ghost e = (route@, behaviour);
        if level >= route.parts.len() {
            self.behaviour = Some(behaviour);
            self.route = route;
            proof {
                let target = keys.skip(level as int);
                assert(target =~= Seq::<EdgeKey>::empty());
                assert forall|q: Seq<EdgeKey>| #[trigger] self.entry_at(q) == (if q == target {
                    Some(e)
                } else {
                    old(self).entry_at(q)
                }) by {
                    if q.len() == 0 {
                        assert(q =~= target);
                    } else {
                        assert(self.child(q[0]) == old(self).child(q[0]));
                    }
                }
                let m1 = self.table();
                let m2 = old(self).table().insert(target, e);
                assert forall|q: Seq<EdgeKey>| m1.dom().contains(q) == m2.dom().contains(q) by {
                    let _ = self.entry_at(q);
                }
                assert forall|q: Seq<EdgeKey>| #[trigger]
                    m1.dom().contains(q) implies m1[q] == m2[q] by {
                    let _ = self.entry_at(q);
                }
                assert(m1 =~= m2);
            }
        } else {
            let ghost key = edge_key(route@[level as int]);
            let ghost rest = keys.skip(level as int + 1);
            assert(keys.skip(level as int) =~= seq![key] + rest);
            assert(route.parts@[level as int]@ == route@[level as int]);
            let plain = match route.parts[level].part_type {
                RoutePartType::PLAIN => true,
                _ => false,
            };
            if plain {
                let name = route.parts[level].name.clone();
                let ghost names = Self::names(self.leaves@);
                let position = self.leaf_index(name.as_str());
                let index = match position {
                    Some(i) => i,
                    None => {
                        self.leaves.push((name, RouteTreeLeaf::bare()));
                        proof {
                            lemma_index_of_push(names, name@, name@);
                            assert(Self::names(self.leaves@) =~= names.push(name@));
                        }
                        self.leaves.len() - 1
                    },
                };
                let ghost mid = *self;
                proof {
                    assert(key == EdgeKey::Literal(name@));
                    lemma_index_of_from(names, name@, 0);
                    assert forall|k: EdgeKey| k != key implies #[trigger] mid.child(k) == old(
                        self,
                    ).child(k) by {
                        match k {
                            EdgeKey::Literal(other) => {
                                lemma_index_of_from(names, other, 0);
                                if position is None {
                                    lemma_index_of_push(names, name@, other);
                                }
                            },
                            EdgeKey::Any => {},
                        }
                    }
                    assert(index_of_from(Self::names(mid.leaves@), name@, 0) == Some(
                        index as int,
                    ));
                    assert(mid.child(key) == Some(mid.leaves@[index as int].1));
                    if position is None {
                        assert(old(self).child(key) is None);
                    }
                }
                self.leaves[index].1.insert(route, level + 1, behaviour);
                proof {
                    assert(self.leaves@.len() == mid.leaves@.len());
                    assert(forall|j: int|
                        0 <= j < mid.leaves@.len() ==> (#[trigger] self.leaves@[j]).0
                            == mid.leaves@[j].0);
                    assert(forall|j: int|
                        0 <= j < mid.leaves@.len() && j != index ==> (#[trigger] self.leaves@[j]).1
                            == mid.leaves@[j].1);
                    assert(Self::names(self.leaves@) =~= Self::names(mid.leaves@));
                    let child = self.leaves@[index as int].1;
                    assert(self.child(key) == Some(child));
                    assert forall|k: EdgeKey| k != key implies #[trigger] self.child(k) == old(
                        self,
                    ).child(k) by {
                        assert(mid.child(k) == old(self).child(k));
                        match k {
                            EdgeKey::Literal(other) => {
                                lemma_index_of_from(Self::names(mid.leaves@), other, 0);
                            },
                            EdgeKey::Any => {
                                assert(self.any == mid.any);
                            },
                        }
                    }
                    old(self).lemma_insert_step(*self, key, rest, e, child);
                }
            } else {
                if self.any.is_none() {
                    self.any = Some(Box::new(RouteTreeLeaf::bare()));
                }
                let ghost mid = *self;
                match &mut self.any {
                    Some(node) => {
                        node.insert(route, level + 1, behaviour);
                    },
                    None => {},
                }
                proof {
                    let child = *self.any->0;
                    assert forall|k: EdgeKey| k != key implies #[trigger] self.child(k) == old(
                        self,
                    ).child(k) by {}
                    old(self).lemma_insert_step(*self, key, rest, e, child);
                }
            }
        }
    }
}

/// The response for a path that resolves to nothing: 404, in plain text.
pub fn not_found(ver: HttpVersion) -> (r: HttpResponse)
    ensures
        r@ == not_found_response(ver),
{
    let content = "404: Not Found".as_bytes_vec();
    HttpResponse::new(404, StringMap::new(), content, ver)
}

/// The response for what a handler came back with: its own response as it
/// is, or a 500 in plain text that names the failure.
pub fn respond(result: Result<HttpResponse, BehaviourError>, ver: HttpVersion) -> (r: HttpResponse)
    ensures
        r@ == response_for(outcome_of(result), ver),
{
    match result {
        Ok(response) => response,
        Err(e) => {
            let mut content = String::new();
            content.append("500: Internal server error: ");
            content.append(e.message.as_str());
            assert(content@ =~= "500: Internal server error: "@ + e.message@);
            HttpResponse::new(500, StringMap::new(), content.as_str().as_bytes_vec(), ver)
        },
    }
}

/// The parameters that `route` binds on the path segments `parts`.
pub fn bind_parameters(route: &Route, parts: &Vec<String>) -> (params: StringMap)
    ensures
        params.entries() == bound_parameters(route@, texts(parts@)),
{
    let mut params = StringMap::new();
    let mut i: usize = 0;
    while i < parts.len()
        invariant
            i <= parts.len(),
            params.entries() == bound_upto(route@, texts(parts@), i as nat),
        decreases parts.len() - i,
    {
        if i < route.parts.len() {
            let p = &route.parts[i];
            assert(p@ == route@[i as int]);
            match p.part_type {
                RoutePartType::PARAMETER => {
                    params.insert(p.name.clone(), parts[i].clone());
                },
                _ => {},
            }
        }
        i = i + 1;
    }
    params
}

/// Resolves request paths to handlers. Routes are filed in a tree with one
/// edge per segment; it is built once and read from then on.
pub struct BehaviourRouter<B> {
    tree: RouteTreeLeaf<B>,
}

/// What the search came back with, as entries.
pub open spec fn listed<B>(found: Seq<(&Route, &B)>) -> Seq<Entry<B>> {
    found.map_values(|p: (&Route, &B)| (p.0@, *p.1))
}

impl<B: Behaviour> BehaviourRouter<B> {
    /// What the router holds.
    pub closed spec fn routes(self) -> RouteTable<B> {
        self.tree.table()
    }

    /// A router for the given routes, each with its handler. Where two
    /// routes have the same labels, the later one stands.
    pub fn new(behaviours: Vec<(String, B)>) -> (router: BehaviourRouter<B>)
        ensures
            router.routes() == registered(behaviours@),
    {
        let mut tree = RouteTreeLeaf::bare();
        let ghost all = behaviours@;
        assert(all.take(0) =~= Seq::<(String, B)>::empty());
        for item in it: behaviours.into_iter()
            invariant
                it.seq() == all,
                tree.table() == registered(all.take(it.index() as int)),
        {
            let (k, behaviour) = item;
            let route = Route::parse(k.as_str());
            proof {
                let done = all.take(it.index() as int + 1);
                assert(done.drop_last() =~= all.take(it.index() as int));
                assert(done.last() == (k, behaviour));
                assert(route_keys(route@).skip(0) =~= route_keys(route@));
            }
            tree.insert(route, 0, behaviour);
        }
        assert(all.take(all.len() as int) =~= all);
        BehaviourRouter { tree }
    }

    fn parse_request_level<'a>(
        &'a self,
        current: &'a RouteTreeLeaf<B>,
        sections: &Vec<String>,
        current_section: usize,
    ) -> (res: Vec<(&'a Route, &'a B)>)
        ensures
            listed(res@) == current.found(texts(sections@), current_section as int),
        decreases sections@.len() - current_section,
    {
        let mut res: Vec<(&Route, &B)> = Vec::new();
        if let Some(b) = &current.behaviour {
            res.push((&current.route, b));
        }
        assert(listed(res@) =~= (match current.own() {
            Some(e) => seq![e],
            None => Seq::empty(),
        }));
        if current_section < sections.len() {
            let section = sections[current_section].as_str();
            assert(section@ == texts(sections@)[current_section as int]);
            let ghost here = listed(res@);
            if let Some(i) = current.leaf_index(section) {
                let mut val = self.parse_request_level(
                    &current.leaves[i].1,
                    sections,
                    current_section + 1,
                );
                let ghost more = listed(val@);
                res.append(&mut val);
                assert(listed(res@) =~= here + more);
            }
            let ghost literal = listed(res@);
            if let Some(next) = &current.any {
                let mut val = self.parse_request_level(next, sections, current_section + 1);
                let ghost more = listed(val@);
                res.append(&mut val);
                assert(listed(res@) =~= literal + more);
            }
        }
        res
    }

    /// The segments of a request path: the non-empty pieces between its `/`.
    pub fn get_uri_parts(uri: &str) -> (parts: Vec<String>)
        ensures
            texts(parts@) == path_segments(uri@),
    {
        let pieces = split_str(uri, '/');
        let mut parts: Vec<String> = Vec::new();
        let mut i: usize = 0;
        assert(texts(pieces@).take(0) =~= Seq::<Seq<char>>::empty());
        assert(texts(parts@) =~= Seq::<Seq<char>>::empty());
        while i < pieces.len()
            invariant
                i <= pieces.len(),
                texts(parts@) == non_empty(texts(pieces@).take(i as int)),
            decreases pieces.len() - i,
        {
            proof {
                let done = texts(pieces@).take(i as int + 1);
                assert(done.drop_last() =~= texts(pieces@).take(i as int));
                assert(done.last() == pieces@[i as int]@);
            }
            if char_len(pieces[i].as_str()) > 0 {
                let ghost before = parts@;
                let piece = pieces[i].clone();
                parts.push(piece);
                assert(texts(parts@) =~= texts(before).push(piece@));
            }
            i = i + 1;
        }
        assert(texts(pieces@).take(pieces@.len() as int) =~= texts(pieces@));
        parts
    }

    /// Handles a request: the handler of the route that its path resolves to
    /// is run with the parameters that the route binds, and what it comes
    /// back with is the response; a failure becomes a 500. A path that
    /// resolves to nothing gets a 404.
    pub fn run(&self, req: &HttpRequest) -> (resp: HttpResponse)
        ensures
            answers(self.routes(), req@, resp@),
    {
        let uri = req.url.uri.as_str();
        let parts = Self::get_uri_parts(uri);
        let result = self.get(uri);
        let (route, behaviour) = match result {
            Some((r, b)) => (r, b),
            None => {
                return not_found(req.version);
            },
        };
        let parameters = bind_parameters(route, &parts);
        let ghost parameters_view = parameters.entries();
        let outcome = behaviour.run(req, parameters);
        let ghost o = outcome_of(outcome);
        let resp = respond(outcome, req.version);
        proof {
            let segments = path_segments(req@.url.uri);
            assert(uri@ == req@.url.uri);
            assert(resolve(self.routes(), segments) == Some((route@, *behaviour)));
            assert(parameters_view == bound_parameters(route@, segments));
            assert(behaviour.may_return(req@, bound_parameters(route@, segments), o));
            assert(resp@ == response_for(o, req@.version));
            assert(handled_by(*behaviour, req@, bound_parameters(route@, segments), resp@));
        }
        resp
    }

    /// The route that a request path resolves to, and its handler: of the
    /// routes that match the path, the one with the most segments; of
    /// several, the one that the search meets first.
    pub fn get(&self, uri: &str) -> (r: Option<(&Route, &B)>)
        ensures
            r is Some <==> resolve(self.routes(), path_segments(uri@)) is Some,
            r matches Some((route, handler)) ==> Some((route@, *handler)) == resolve(
                self.routes(),
                path_segments(uri@),
            ),
    {
        let parts = Self::get_uri_parts(uri);
        let result = self.parse_request_level(&self.tree, &parts, 0);
        proof {
            self.tree.lemma_found(self.tree, texts(parts@), Seq::empty());
        }
        let mut selected: Option<(&Route, &B)> = None;
        let mut i: usize = 0;
        assert(listed(result@).take(0) =~= Seq::<Entry<B>>::empty());
        while i < result.len()
            invariant
                i <= result.len(),
                selected is Some <==> most_specific(listed(result@).take(i as int)) is Some,
                selected matches Some((route, handler)) ==> Some((route@, *handler))
                    == most_specific(listed(result@).take(i as int)),
            decreases result.len() - i,
        {
            proof {
                let done = listed(result@).take(i as int + 1);
                assert(done.drop_last() =~= listed(result@).take(i as int));
                assert(done.last() == (result@[i as int].0@, *result@[i as int].1));
            }
            let (r, b) = result[i];
            match selected {
                Some((current, _)) => {
                    if current.parts.len() < r.parts.len() {
                        selected = Some((r, b));
                    }
                },
                None => {
                    selected = Some((r, b));
                },
            }
            i = i + 1;
        }
        assert(listed(result@).take(result@.len() as int) =~= listed(result@));
        selected
    }
}

} // verus!
