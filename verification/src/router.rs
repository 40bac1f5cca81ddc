//! Routing of requests by method and path.

use matchit::Router;
use vstd::prelude::*;
use vstd::string::*;

use crate::manifest::RouteEntry;
use crate::pairs::{has_name, lemma_position, lemma_position_unique, lookup, position, text_pairs};
use crate::pattern::{
    count_of, has_few_parameters, is_literal, is_parameter_name, leaves_cut, lemma_literal,
    lemma_offered_literal, lemma_parameters, lemma_segments, offer, offered, parameters, segments,
};
use crate::text::same_text;

verus! {

/// The route tree of `matchit`. It is opaque here: what was put into a tree is named by
/// [`routes_in`].
#[verifier::external_type_specification]
#[verifier::external_body]
#[verifier::reject_recursive_types(T)]
pub struct ExRouter<T>(Router<T>);

/// The routes that were put into a tree, in order, each with its value. A route that the tree
/// refused is listed too: a refusal may leave its mark on the tree.
pub uninterp spec fn routes_in(router: Router<usize>) -> Seq<(Seq<char>, usize)>;

/// What a tree into which those routes were put, in that order, finds for a path: the value of
/// a route and the parameters in the path.
pub uninterp spec fn route_at(routes: Seq<(Seq<char>, usize)>, path: Seq<char>) -> Option<
    (usize, Seq<(Seq<char>, Seq<char>)>),
>;

/// Calls `Router::new`, which makes an empty tree.
#[verifier::external_body]
fn new_tree() -> (r: Router<usize>)
    ensures
        routes_in(r).len() == 0,
{
    Router::new()
}

/// Calls `Router::insert`, and passes over its refusal of a route that is malformed or in
/// conflict with one that the tree has. The tree names the parameters of a route by letters and
/// panics where it runs out of them, and it counts routes in 32 bits. A route with a catch-all
/// that does not end it is refused halfway. Where it has characters outside of ASCII between a
/// parameter and the catch-all, what it leaves below the parameter may be cut inside one, and
/// reporting a conflict with that parameter panics.
#[verifier::external_body]
fn add_route(router: &mut Router<usize>, pattern: &str, value: usize)
    requires
        parameters(pattern@) <= 25,
        !leaves_cut(pattern@),
        routes_in(*old(router)).len() < u32::MAX,
    ensures
        routes_in(*final(router)) == routes_in(*old(router)).push((pattern@, value)),
{
    let _ = router.insert(pattern, value);
}

/// Calls `Router::at`. The result depends on the routes that were put into the tree and on the
/// path alone and is named [`route_at`]. The value found is that of one of these routes. A path
/// without braces that is itself one of the routes finds that route, the first such, and no
/// parameters: static segments come before parameters. This is not said of a tree that has the
/// empty route, which may stand in the place of another.
#[verifier::external_body]
fn find_route(router: &Router<usize>, path: &str) -> (r: Option<(usize, Vec<(String, String)>)>)
    ensures
        (match r {
            Some(found) => route_at(routes_in(*router), path@) == Some(
                (found.0, text_pairs(found.1@)),
            ),
            None => route_at(routes_in(*router), path@) is None,
        }),
        r matches Some(found) ==> exists|i: int|
            0 <= i < routes_in(*router).len() && (#[trigger] routes_in(*router)[i]).1 == found.0,
        (match r {
            Some(found) => is_literal(path@) && has_name(routes_in(*router), path@) && !has_name(
                routes_in(*router),
                Seq::empty(),
            ) ==> Some(found.0) == lookup(routes_in(*router), path@) && found.1@.len() == 0,
            None => !(is_literal(path@) && has_name(routes_in(*router), path@) && !has_name(
                routes_in(*router),
                Seq::empty(),
            )),
        }),
{
    let found = router.at(path).ok()?;
    let params = found.params.iter().map(|(k, v)| (k.to_string(), v.to_string())).collect();
    Some((*found.value, params))
}

/// What a route says of the requests that it matches.
pub struct RouteMetadata {
    pub handler_id: u32,
    pub dto_class: Option<String>,
    pub max_body_size: Option<usize>,
}

/// A route that a request matched, and the parameters in the request's path.
pub struct RouteMatch {
    pub value: RouteMetadata,
    pub params: Vec<(String, String)>,
}

/// What an entry of the manifest says of the requests that its route matches.
pub open spec fn metadata(entry: RouteEntry) -> RouteMetadata {
    RouteMetadata {
        handler_id: entry.handler_id,
        dto_class: entry.dto_class,
        max_body_size: entry.max_body_size,
    }
}

/// The entry at that place is the first of the manifest with that method and that pattern.
pub open spec fn is_first_with(
    manifest: Seq<RouteEntry>,
    method: Seq<char>,
    pattern: Seq<char>,
    at: int,
) -> bool {
    &&& 0 <= at < manifest.len()
    &&& manifest[at].method@ == method && manifest[at].pattern@ == pattern
    &&& forall|i: int|
        0 <= i < at ==> (#[trigger] manifest[i]).method@ != method || manifest[i].pattern@
            != pattern
}

/// Some route of the manifest is for that method.
pub open spec fn has_method(manifest: Seq<RouteEntry>, method: Seq<char>) -> bool {
    exists|i: int| 0 <= i < manifest.len() && (#[trigger] manifest[i]).method@ == method
}

/// The routes of the manifest for that method as its tree is given them, in order, each with its
/// place in the manifest.
pub open spec fn method_routes(manifest: Seq<RouteEntry>, method: Seq<char>) -> Seq<
    (Seq<char>, usize),
>
    decreases manifest.len(),
{
    if manifest.len() == 0 {
        Seq::empty()
    } else {
        let before = method_routes(manifest.drop_last(), method);
        if manifest.last().method@ == method {
            before.push((offered(manifest.last().pattern@), (manifest.len() - 1) as usize))
        } else {
            before
        }
    }
}

/// The path has no braces, the entry at that place is the first of the manifest with that method
/// and the path as its pattern, and no route for the method has the empty pattern.
pub open spec fn is_literal_route(
    manifest: Seq<RouteEntry>,
    method: Seq<char>,
    path: Seq<char>,
    at: int,
) -> bool {
    &&& is_literal(path)
    &&& is_first_with(manifest, method, path, at)
    &&& !has_name(method_routes(manifest, method), Seq::empty())
}

/// The place in the manifest of the route that a request matches, and the parameters in its path.
pub open spec fn method_match(
    manifest: Seq<RouteEntry>,
    method: Seq<char>,
    path: Seq<char>,
) -> Option<(usize, Seq<(Seq<char>, Seq<char>)>)> {
    if has_method(manifest, method) {
        route_at(method_routes(manifest, method), path)
    } else {
        None
    }
}

/// A request with that path, but another method, matches a route.
pub open spec fn other_method_matches(
    manifest: Seq<RouteEntry>,
    method: Seq<char>,
    path: Seq<char>,
) -> bool {
    exists|other: Seq<char>|
        other != method && (#[trigger] method_match(manifest, other, path)) is Some
}

/// What comes of routing a request: what its route says of it and the parameters in its path,
/// or else the error, which is 2 where the path matches under another method and 1 where it
/// does not match at all.
pub open spec fn routed(manifest: Seq<RouteEntry>, method: Seq<char>, path: Seq<char>) -> Result<
    (RouteMetadata, Seq<(Seq<char>, Seq<char>)>),
    i32,
> {
    match method_match(manifest, method, path) {
        Some(at) => Ok((metadata(manifest[at.0 as int]), at.1)),
        None => Err(
            if other_method_matches(manifest, method, path) {
                2
            } else {
                1
            },
        ),
    }
}

/// A route is found in the tree of the routes for the method of a request, and no route is found
/// for a method that no entry of the manifest has.
pub proof fn lemma_method_match(manifest: Seq<RouteEntry>, method: Seq<char>, path: Seq<char>)
    ensures
        (exists|i: int| 0 <= i < manifest.len() && (#[trigger] manifest[i]).method@ == method)
            ==> method_match(manifest, method, path) == route_at(
            method_routes(manifest, method),
            path,
        ),
        (forall|i: int| 0 <= i < manifest.len() ==> (#[trigger] manifest[i]).method@ != method)
            ==> method_match(manifest, method, path) is None,
{
}

/// The tree of a method is given each entry of the manifest for that method, once, in the order of
/// the manifest, and no other.
pub proof fn lemma_method_entries(manifest: Seq<RouteEntry>, method: Seq<char>)
    requires
        manifest.len() <= usize::MAX,
    ensures
        ({
            let routes = method_routes(manifest, method);
            &&& forall|k: int|
                0 <= k < routes.len() ==> (#[trigger] routes[k]).1 < manifest.len()
                    && manifest[routes[k].1 as int].method@ == method && routes[k].0 == offered(
                    manifest[routes[k].1 as int].pattern@,
                )
            &&& forall|k: int, l: int|
                0 <= k < l < routes.len() ==> (#[trigger] routes[k]).1 < (#[trigger] routes[l]).1
            &&& forall|i: int|
                0 <= i < manifest.len() && (#[trigger] manifest[i]).method@ == method
                    ==> routes.contains((offered(manifest[i].pattern@), i as usize))
        }),
    decreases manifest.len(),
{
    if manifest.len() > 0 {
        let init = manifest.drop_last();
        lemma_method_entries(init, method);
        let before = method_routes(init, method);
        let routes = method_routes(manifest, method);
        assert forall|k: int| 0 <= k < routes.len() implies (#[trigger] routes[k]).1
            < manifest.len() && manifest[routes[k].1 as int].method@ == method && routes[k].0
            == offered(manifest[routes[k].1 as int].pattern@) by {
            if k < before.len() {
                assert(routes[k] == before[k]);
                assert(init[before[k].1 as int] == manifest[before[k].1 as int]);
            }
        }
        assert forall|k: int, l: int| 0 <= k < l < routes.len() implies (#[trigger] routes[k]).1 < (
        #[trigger] routes[l]).1 by {
            assert(routes[k] == before[k]);
            if l < before.len() {
                assert(routes[l] == before[l]);
            }
        }
        assert forall|i: int|
            0 <= i < manifest.len() && (#[trigger] manifest[i]).method@ == method implies
            routes.contains((offered(manifest[i].pattern@), i as usize)) by {
            let entry = (offered(manifest[i].pattern@), i as usize);
            if i < init.len() {
                assert(init[i] == manifest[i]);
                assert(before.contains(entry));
                let k = choose|k: int| 0 <= k < before.len() && before[k] == entry;
                assert(routes[k] == entry);
            } else {
                assert(routes[routes.len() - 1] == entry);
            }
        }
    }
}

/// A request is routed where its path matches a route for its method. It then gets what the entry
/// of that route says, and the parameters as they were found. It gets the error 2 where the path
/// matches under another method only, and 1 where it matches under no method.
pub proof fn lemma_routed(manifest: Seq<RouteEntry>, method: Seq<char>, path: Seq<char>)
    ensures
        method_match(manifest, method, path) matches Some(at) ==> (routed(manifest, method, path)
            matches Ok(route) && route.0.handler_id == manifest[at.0 as int].handler_id
            && route.0.dto_class == manifest[at.0 as int].dto_class && route.0.max_body_size
            == manifest[at.0 as int].max_body_size && route.1 == at.1),
        method_match(manifest, method, path) is None ==> (routed(manifest, method, path)
            matches Err(code) && (code == 2 <==> exists|other: Seq<char>|
            other != method && #[trigger] method_match(manifest, other, path) is Some) && (code == 1
            || code == 2)),
        routed(manifest, method, path) is Ok <==> method_match(manifest, method, path) is Some,
        routed(manifest, method, path) == Err::<
            (RouteMetadata, Seq<(Seq<char>, Seq<char>)>),
            i32,
        >(1) <==> forall|any: Seq<char>| #[trigger] method_match(manifest, any, path) is None,
        routed(manifest, method, path) matches Err(code) ==> code == 1 || code == 2,
{
}

/// What came of routing a request.
pub open spec fn match_view(r: Result<RouteMatch, i32>) -> Result<
    (RouteMetadata, Seq<(Seq<char>, Seq<char>)>),
    i32,
> {
    match r {
        Ok(found) => Ok((found.value, text_pairs(found.params@))),
        Err(code) => Err(code),
    }
}

/// The trees can take the routes of the manifest.
pub open spec fn routable(manifest: Seq<RouteEntry>) -> bool {
    &&& manifest.len() <= u32::MAX
    &&& forall|i: int|
        0 <= i < manifest.len() ==> parameters((#[trigger] manifest[i]).pattern@) <= 25
}

/// The trees can take any manifest of less than 2^32 routes of which each has at most 25 opening
/// braces.
pub proof fn lemma_routable(manifest: Seq<RouteEntry>)
    requires
        manifest.len() < 0x1_0000_0000,
        forall|i: int|
            0 <= i < manifest.len() ==> count_of((#[trigger] manifest[i]).pattern@, '{') <= 25,
    ensures
        routable(manifest),
{
    assert forall|i: int| 0 <= i < manifest.len() implies parameters(
        (#[trigger] manifest[i]).pattern@,
    ) <= 25 by {
        lemma_parameters(manifest[i].pattern@);
    }
}

/// The trees cannot take a manifest in which a route consists of more than 25 segments that are
/// parameters.
pub proof fn lemma_not_routable(manifest: Seq<RouteEntry>, i: int, names: Seq<Seq<char>>)
    requires
        0 <= i < manifest.len(),
        names.len() > 25,
        forall|j: int| 0 <= j < names.len() ==> is_parameter_name(#[trigger] names[j]),
        manifest[i].pattern@ == segments(names),
    ensures
        !routable(manifest),
{
    lemma_segments(names);
}

/// Whether the trees can take the routes of the manifest.
pub fn is_routable(manifest: &Vec<RouteEntry>) -> (r: bool)
    ensures
        r == routable(manifest@),
{
    if manifest.len() as u64 > u32::MAX as u64 {
        return false;
    }
    for i in 0..manifest.len()
        invariant
            forall|j: int| 0 <= j < i ==> parameters((#[trigger] manifest@[j]).pattern@) <= 25,
    {
        if !has_few_parameters(manifest[i].pattern.as_str()) {
            return false;
        }
    }
    true
}

proof fn lemma_method_routes(manifest: Seq<RouteEntry>, method: Seq<char>)
    requires
        manifest.len() <= usize::MAX,
    ensures
        method_routes(manifest, method).len() <= manifest.len(),
        forall|i: int|
            0 <= i < method_routes(manifest, method).len() ==> (#[trigger] method_routes(
                manifest,
                method,
            )[i]).1 < manifest.len() && manifest[method_routes(
                manifest,
                method,
            )[i].1 as int].method@ == method,
        !has_method(manifest, method) ==> method_routes(manifest, method).len() == 0,
    decreases manifest.len(),
{
    if manifest.len() > 0 {
        lemma_method_routes(manifest.drop_last(), method);
        let before = method_routes(manifest.drop_last(), method);
        let all = method_routes(manifest, method);
        assert forall|i: int| 0 <= i < all.len() implies (#[trigger] all[i]).1 < manifest.len()
            && manifest[all[i].1 as int].method@ == method by {
            if i < before.len() {
                assert(all[i] == before[i]);
                assert(manifest.drop_last()[before[i].1 as int] == manifest[before[i].1 as int]);
            }
        }
        if !has_method(manifest, method) {
            assert(manifest[manifest.len() - 1].method@ != method);
            assert forall|i: int| 0 <= i < manifest.drop_last().len() implies (
            #[trigger] manifest.drop_last()[i]).method@ != method by {
                assert(manifest[i].method@ != method);
            }
        }
    }
}

proof fn lemma_first_route(
    manifest: Seq<RouteEntry>,
    method: Seq<char>,
    pattern: Seq<char>,
    at: int,
)
    requires
        manifest.len() <= usize::MAX,
        is_first_with(manifest, method, pattern, at),
        is_literal(pattern),
    ensures
        has_name(method_routes(manifest, method), pattern),
        lookup(method_routes(manifest, method), pattern) == Some(at as usize),
    decreases manifest.len(),
{
    let before = method_routes(manifest.drop_last(), method);
    lemma_literal(pattern);
    if at < manifest.len() - 1 {
        lemma_first_route(manifest.drop_last(), method, pattern, at);
        lemma_position(before, pattern);
        lemma_position_unique(
            method_routes(manifest, method),
            pattern,
            position(before, pattern),
        );
    } else {
        lemma_no_route(manifest.drop_last(), method, pattern);
        lemma_position_unique(
            method_routes(manifest, method),
            pattern,
            before.len() as int,
        );
    }
}

proof fn lemma_no_route(manifest: Seq<RouteEntry>, method: Seq<char>, pattern: Seq<char>)
    requires
        is_literal(pattern),
        forall|i: int|
            0 <= i < manifest.len() ==> (#[trigger] manifest[i]).method@ != method
                || manifest[i].pattern@ != pattern,
    ensures
        forall|i: int|
            0 <= i < method_routes(manifest, method).len() ==> (#[trigger] method_routes(
                manifest,
                method,
            )[i]).0 != pattern,
    decreases manifest.len(),
{
    if manifest.len() > 0 {
        assert(manifest[manifest.len() - 1] == manifest.last());
        assert forall|i: int| 0 <= i < manifest.drop_last().len() implies (
        #[trigger] manifest.drop_last()[i]).method@ != method || manifest.drop_last()[i].pattern@
            != pattern by {
            assert(manifest[i] == manifest.drop_last()[i]);
        }
        lemma_no_route(manifest.drop_last(), method, pattern);
        lemma_offered_literal(manifest.last().pattern@, pattern);
        let before = method_routes(manifest.drop_last(), method);
        let all = method_routes(manifest, method);
        assert forall|i: int| 0 <= i < all.len() implies (#[trigger] all[i]).0 != pattern by {
            if i < before.len() {
                assert(all[i] == before[i]);
            }
        }
    }
}

struct MethodTable {
    method: String,
    router: Router<usize>,
}

/// The routes of an application.
pub struct QuillRouter {
    tables: Vec<MethodTable>,
    routes: Vec<RouteEntry>,
}

spec fn tables_ok(tables: Seq<MethodTable>, manifest: Seq<RouteEntry>) -> bool {
    &&& forall|t: int|
        0 <= t < tables.len() ==> has_method(manifest, (#[trigger] tables[t]).method@)
            && routes_in(tables[t].router) == method_routes(manifest, tables[t].method@)
    &&& forall|i: int|
        0 <= i < manifest.len() ==> table_of(tables, (#[trigger] manifest[i]).method@)
    &&& forall|s: int, t: int|
        0 <= s < t < tables.len() ==> (#[trigger] tables[s]).method@ != (
        #[trigger] tables[t]).method@
}

spec fn table_of(tables: Seq<MethodTable>, method: Seq<char>) -> bool {
    exists|t: int| 0 <= t < tables.len() && (#[trigger] tables[t]).method@ == method
}

fn find_table(tables: &Vec<MethodTable>, method: &str) -> (r: Option<usize>)
    ensures
        (match r {
            Some(t) => t < tables@.len() && tables@[t as int].method@ == method@,
            None => !table_of(tables@, method@),
        }),
{
    for t in 0..tables.len()
        invariant
            forall|s: int| 0 <= s < t ==> (#[trigger] tables@[s]).method@ != method@,
    {
        if same_text(tables[t].method.as_str(), method) {
            return Some(t);
        }
    }
    None
}

fn metadata_of(entry: &RouteEntry) -> (r: RouteMetadata)
    ensures
        r == metadata(*entry),
{
    RouteMetadata {
        handler_id: entry.handler_id,
        dto_class: match &entry.dto_class {
            Some(dto) => Some(dto.clone()),
            None => None,
        },
        max_body_size: entry.max_body_size,
    }
}

impl QuillRouter {
    /// The manifest that the router was made from.
    pub closed spec fn manifest(self) -> Seq<RouteEntry> {
        self.routes@
    }

    /// There is one tree for each method of the manifest, into which its routes were put.
    pub closed spec fn wf(self) -> bool {
        &&& routable(self.routes@)
        &&& tables_ok(self.tables@, self.routes@)
    }

    /// The router of a manifest.
    pub fn new(manifest: Vec<RouteEntry>) -> (r: QuillRouter)
        requires
            routable(manifest@),
        ensures
            r.wf(),
            r.manifest() == manifest@,
    {
        let mut tables: Vec<MethodTable> = Vec::new();
        for i in 0..manifest.len()
            invariant
                routable(manifest@),
                tables_ok(tables@, manifest@.take(i as int)),
        {
            let entry = &manifest[i];
            let ghost before = manifest@.take(i as int);
            let ghost after = manifest@.take(i + 1);
            let ghost start = tables@;
            proof {
                assert(after.drop_last() =~= before);
            }
            let t = match find_table(&tables, entry.method.as_str()) {
                Some(t) => t,
                None => {
                    tables.push(MethodTable { method: entry.method.clone(), router: new_tree() });
                    tables.len() - 1
                },
            };
            let ghost mid = tables@;
            let ghost method = entry.method@;
            proof {
                lemma_method_routes(before, method);
                if has_method(before, method) {
                    let k = choose|k: int|
                        0 <= k < before.len() && (#[trigger] before[k]).method@ == method;
                    assert(table_of(start, before[k].method@));
                }
                assert(mid[t as int].method@ == method);
                assert(forall|s: int|
                    0 <= s < start.len() ==> mid[s] == #[trigger] start[s]);
                assert(routes_in(mid[t as int].router) =~= method_routes(before, method));
            }
            let pattern = offer(entry.pattern.as_str());
            add_route(&mut tables[t].router, pattern.as_str(), i);
            proof {
                assert(after[i as int].method@ == method);
                assert forall|s: int| 0 <= s < tables@.len() implies has_method(
                    after,
                    (#[trigger] tables@[s]).method@,
                ) && routes_in(tables@[s].router) == method_routes(after, tables@[s].method@) by {
                    if s != t {
                        assert(mid[s] == tables@[s]);
                        assert(start[s] == tables@[s]);
                        let k = choose|k: int|
                            0 <= k < before.len() && (#[trigger] before[k]).method@
                                == tables@[s].method@;
                        assert(after[k].method@ == tables@[s].method@);
                    }
                }
                assert forall|k: int| 0 <= k < after.len() implies table_of(
                    tables@,
                    (#[trigger] after[k]).method@,
                ) by {
                    if k < i {
                        assert(table_of(start, before[k].method@));
                        let s = choose|s: int|
                            0 <= s < start.len() && (#[trigger] start[s]).method@
                                == before[k].method@;
                        assert(tables@[s].method@ == after[k].method@);
                    } else {
                        assert(tables@[t as int].method@ == after[k].method@);
                    }
                }
            }
        }
        assert(manifest@.take(manifest@.len() as int) =~= manifest@);
        QuillRouter { tables, routes: manifest }
    }

    /// What comes of the search for a route: the route at the place that was found, with the
    /// parameters, or else the error, which is 2 where a route for another method was found.
    pub fn resolve(
        &self,
        found: Option<(usize, Vec<(String, String)>)>,
        elsewhere: bool,
    ) -> (r: Result<RouteMatch, i32>)
        requires
            found matches Some(at) ==> at.0 < self.manifest().len(),
        ensures
            r == (match found {
                Some(at) => Ok(
                    (RouteMatch { value: metadata(self.manifest()[at.0 as int]), params: at.1 }),
                ),
                None => Err(
                    if elsewhere {
                        2i32
                    } else {
                        1i32
                    },
                ),
            }),
    {
        match found {
            Some((at, params)) => Ok(RouteMatch { value: metadata_of(&self.routes[at]), params }),
            None => Err(
                if elsewhere {
                    2
                } else {
                    1
                },
            ),
        }
    }

    /// The route that a request matches. The error is 2 where the path matches under another
    /// method, and 1 where it does not match at all. A path without braces that is itself the
    /// pattern of a route for the method matches the first such route, where no route for the
    /// method has the empty pattern.
    pub fn match_route(&self, method: &str, path: &str) -> (r: Result<RouteMatch, i32>)
        requires
            self.wf(),
        ensures
            match_view(r) == routed(self.manifest(), method@, path@),
            method_match(self.manifest(), method@, path@) matches Some(at) ==> {
                &&& at.0 < self.manifest().len()
                &&& self.manifest()[at.0 as int].method@ == method@
                &&& r matches Ok(found)
                &&& found.value.handler_id == self.manifest()[at.0 as int].handler_id
                &&& found.value.dto_class == self.manifest()[at.0 as int].dto_class
                &&& found.value.max_body_size == self.manifest()[at.0 as int].max_body_size
                &&& text_pairs(found.params@) == at.1
                &&& found.params@.len() == at.1.len()
                &&& forall|i: int|
                    0 <= i < at.1.len() ==> (#[trigger] found.params@[i]).0@ == at.1[i].0
                        && found.params@[i].1@ == at.1[i].1
            },
            method_match(self.manifest(), method@, path@) is None ==> (r matches Err(code) && (if exists|
                other: Seq<char>,
            |
                other != method@ && #[trigger] method_match(self.manifest(), other, path@)
                    is Some {
                code == 2
            } else {
                code == 1
            })),
            forall|at: int| #[trigger]
                is_literal_route(self.manifest(), method@, path@, at) ==> (r matches Ok(found) && found.value == metadata(self.manifest()[at])
                    && found.params@.len() == 0),
    {
        proof {
            assert forall|at: int|
                #[trigger] is_literal_route(self.routes@, method@, path@, at) implies table_of(
                self.tables@,
                method@,
            ) && has_name(method_routes(self.routes@, method@), path@) && lookup(
                method_routes(self.routes@, method@),
                path@,
            ) == Some(at as usize) by {
                assert(table_of(self.tables@, self.routes@[at].method@));
                lemma_first_route(self.routes@, method@, path@, at);
            }
        }
        if let Some(t) = find_table(&self.tables, method) {
            proof {
                assert(self.tables@[t as int].method@ == method@);
                lemma_method_routes(self.routes@, method@);
            }
            let found = find_route(&self.tables[t].router, path);
            if found.is_some() {
                return self.resolve(found, false);
            }
        }
        for t in 0..self.tables.len()
            invariant
                self.wf(),
                forall|s: int|
                    0 <= s < t && (#[trigger] self.tables@[s]).method@ != method@ ==> method_match(
                        self.routes@,
                        self.tables@[s].method@,
                        path@,
                    ) is None,
                method_match(self.routes@, method@, path@) is None,
                forall|at: int| !#[trigger] is_literal_route(self.routes@, method@, path@, at),
        {
            let table = &self.tables[t];
            if !same_text(table.method.as_str(), method) {
                if find_route(&table.router, path).is_some() {
                    assert(method_match(self.routes@, self.tables@[t as int].method@, path@)
                        is Some);
                    return self.resolve(None, true);
                }
            }
        }
        assert forall|other: Seq<char>| other != method@ implies (#[trigger] method_match(
            self.routes@,
            other,
            path@,
        )) is None by {
            if has_method(self.routes@, other) {
                let k = choose|k: int|
                    0 <= k < self.routes@.len() && (#[trigger] self.routes@[k]).method@ == other;
                assert(table_of(self.tables@, self.routes@[k].method@));
            }
        }
        self.resolve(None, false)
    }
}

} // verus!
