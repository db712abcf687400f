//! The router: its participants, finalization and per-request decisions.
use vstd::prelude::*;
use crate::builder::{RouterBuilder, normalize_registration_path, registration_path};
use crate::error::{Error, ErrorKind};
use crate::dispatch::{
    MatchedIndices,
    Plan,
    depth_allows,
    partition_matches,
    select_range,
    should_run_middleware,
    target_path,
    percent_decoded,
    with_trailing_slash,
};
use crate::matcher::{CompiledSet, compile_set, regex_set_compiles, set_matches};
use crate::method::{Method, all_possible_http_methods, same_methods, universal_methods};
use crate::params::RouteParams;
use crate::pattern::{
    law_literal_path_matches_only_itself,
    literal_path,
    captures_fit,
    exact_regex_text,
    fill,
    lemma_views_push,
    matches_path,
    param_names,
    views,
};
use crate::route::{PostMiddleware, PreMiddleware, Route, ScopedDataMap, params_map, path_compiles};

verus! {

/// The error handler and whether it takes the request info.
pub struct ErrHandler<H> {
    pub handler: H,
    pub with_info: bool,
}

/// A middleware, before or after the route.
pub enum Middleware<H> {
    Pre(PreMiddleware<H>),
    Post(PostMiddleware<H>),
}

/// `r` is a pre-middleware at `path` with `handler` and depth 1, or a pattern error.
pub open spec fn pre_made<H>(r: Result<Middleware<H>, Error>, path: Seq<char>, handler: H) -> bool {
    &&& (r is Ok <==> path_compiles(path))
    &&& match r {
        Ok(Middleware::Pre(p)) => p.wf() && p.matcher.path@ == path && p.handler == Some(handler)
            && p.scope_depth == 1,
        Ok(Middleware::Post(_)) => false,
        Err(e) => e.kind == ErrorKind::BadRoutePattern,
    }
}

/// `r` is a post-middleware at `path` with `handler` and depth 1, or a pattern error.
pub open spec fn post_made<H>(
    r: Result<Middleware<H>, Error>,
    path: Seq<char>,
    handler: H,
    with_info: bool,
) -> bool {
    &&& (r is Ok <==> path_compiles(path))
    &&& match r {
        Ok(Middleware::Post(p)) => p.wf() && p.matcher.path@ == path && p.handler == Some(handler)
            && p.with_info == with_info && p.scope_depth == 1,
        Ok(Middleware::Pre(_)) => false,
        Err(e) => e.kind == ErrorKind::BadRoutePattern,
    }
}

fn catch_all_path() -> (r: String)
    ensures
        r@ == "/*"@,
        registration_path(r@) == r@,
{
    let r = String::from_str("/*");
    proof {
        reveal_strlit("/*");
    }
    r
}

impl<H> Middleware<H> {
    /// A pre-middleware at a path; the path gets a trailing `/` unless it ends in `/` or `*`.
    pub fn pre_with_path(path: String, handler: H) -> (r: Result<Middleware<H>, Error>)
        ensures
            pre_made(r, registration_path(path@), handler),
    {
        match PreMiddleware::new(normalize_registration_path(path), handler, 1) {
            Ok(m) => Ok(Middleware::Pre(m)),
            Err(e) => Err(e),
        }
    }

    /// A post-middleware at a path that takes the response alone.
    pub fn post_with_path(path: String, handler: H) -> (r: Result<Middleware<H>, Error>)
        ensures
            post_made(r, registration_path(path@), handler, false),
    {
        match PostMiddleware::new(normalize_registration_path(path), handler, false, 1) {
            Ok(m) => Ok(Middleware::Post(m)),
            Err(e) => Err(e),
        }
    }

    /// A post-middleware at a path that also takes the request info.
    pub fn post_with_info_with_path(path: String, handler: H) -> (r: Result<Middleware<H>, Error>)
        ensures
            post_made(r, registration_path(path@), handler, true),
    {
        match PostMiddleware::new(normalize_registration_path(path), handler, true, 1) {
            Ok(m) => Ok(Middleware::Post(m)),
            Err(e) => Err(e),
        }
    }

    /// A pre-middleware for every path, `/*`.
    pub fn pre(handler: H) -> (r: Result<Middleware<H>, Error>)
        ensures
            pre_made(r, "/*"@, handler),
    {
        Middleware::pre_with_path(catch_all_path(), handler)
    }

    /// A post-middleware for every path, `/*`, that takes the response alone.
    pub fn post(handler: H) -> (r: Result<Middleware<H>, Error>)
        ensures
            post_made(r, "/*"@, handler, false),
    {
        Middleware::post_with_path(catch_all_path(), handler)
    }

    /// A post-middleware for every path, `/*`, that also takes the request info.
    pub fn post_with_info(handler: H) -> (r: Result<Middleware<H>, Error>)
        ensures
            post_made(r, "/*"@, handler, true),
    {
        Middleware::post_with_info_with_path(catch_all_path(), handler)
    }
}

/// A router: participants in registration order, the error handler, and,
/// once finalized, the combined pattern set and the request-info bit.
pub struct Router<H, D> {
    pub pre_middlewares: Vec<PreMiddleware<H>>,
    pub routes: Vec<Route<H>>,
    pub post_middlewares: Vec<PostMiddleware<H>>,
    pub scoped_data_maps: Vec<ScopedDataMap<D>>,
    pub err_handler: Option<ErrHandler<H>>,
    pub regex_set: Option<CompiledSet>,
    pub should_gen_req_info: Option<bool>,
}

/// Every pre-middleware is well formed.
pub open spec fn pres_wf<H>(s: Seq<PreMiddleware<H>>) -> bool {
    forall|i: int| 0 <= i < s.len() ==> #[trigger] s[i].wf()
}

/// Every route is well formed.
pub open spec fn routes_wf<H>(s: Seq<Route<H>>) -> bool {
    forall|i: int| 0 <= i < s.len() ==> #[trigger] s[i].wf()
}

/// Every post-middleware is well formed.
pub open spec fn posts_wf<H>(s: Seq<PostMiddleware<H>>) -> bool {
    forall|i: int| 0 <= i < s.len() ==> #[trigger] s[i].wf()
}

/// Every scoped data map is well formed.
pub open spec fn maps_wf<D>(s: Seq<ScopedDataMap<D>>) -> bool {
    forall|i: int| 0 <= i < s.len() ==> #[trigger] s[i].wf()
}

/// Some route has this path and exactly these methods.
pub open spec fn has_route<H>(routes: Seq<Route<H>>, path: Seq<char>, methods: Seq<Method>) -> bool {
    exists|i: int|
        0 <= i < routes.len() && (#[trigger] routes[i]).matcher.path@ == path && routes[i].methods@
            == methods
}

/// The first of the listed routes that answers `m` (and, with `genuine`, is
/// not at the catch-all path `/*`).
pub open spec fn first_route<H>(routes: Seq<Route<H>>, idxs: Seq<usize>, m: Method, genuine: bool) -> Option<
    usize,
>
    decreases idxs.len(),
{
    if idxs.len() == 0 {
        None
    } else {
        let r = routes[idxs[0] as int];
        if r.methods@.contains(m) && (!genuine || r.matcher.path@ != "/*"@) {
            Some(idxs[0])
        } else {
            first_route(routes, idxs.drop_first(), m, genuine)
        }
    }
}

/// The depth of the chosen genuine route, if any.
pub open spec fn chosen_depth<H>(routes: Seq<Route<H>>, idxs: Seq<usize>, m: Method) -> Option<u32> {
    match first_route(routes, idxs, m, true) {
        Some(i) => Some(routes[i as int].scope_depth),
        None => None,
    }
}

/// The listed pre-middlewares that depth gating lets run, in order.
pub open spec fn gated_pres<H>(ms: Seq<PreMiddleware<H>>, idxs: Seq<usize>, chosen: Option<u32>) -> Seq<usize>
    decreases idxs.len(),
{
    if idxs.len() == 0 {
        Seq::empty()
    } else {
        let rest = gated_pres(ms, idxs.drop_last(), chosen);
        if depth_allows(ms[idxs.last() as int].scope_depth, chosen) {
            rest.push(idxs.last())
        } else {
            rest
        }
    }
}

/// The listed post-middlewares that depth gating lets run, in order.
pub open spec fn gated_posts<H>(ms: Seq<PostMiddleware<H>>, idxs: Seq<usize>, chosen: Option<u32>) -> Seq<usize>
    decreases idxs.len(),
{
    if idxs.len() == 0 {
        Seq::empty()
    } else {
        let rest = gated_posts(ms, idxs.drop_last(), chosen);
        if depth_allows(ms[idxs.last() as int].scope_depth, chosen) {
            rest.push(idxs.last())
        } else {
            rest
        }
    }
}

/// `idxs` lists, in ascending order, exactly the positions `j` where `matched[j]` holds.
pub open spec fn hits_exactly(idxs: Seq<usize>, matched: Seq<bool>) -> bool {
    &&& forall|a: int, b: int| 0 <= a < b < idxs.len() ==> idxs[a] < idxs[b]
    &&& forall|k: int| 0 <= k < idxs.len() ==> idxs[k] < matched.len()
    &&& forall|j: int| 0 <= j < matched.len() ==> (idxs.contains(j as usize) <==> #[trigger] matched[j])
}

/// Which pre-middlewares match a target path.
pub open spec fn pre_hits<H>(ms: Seq<PreMiddleware<H>>, target: Seq<char>) -> Seq<bool> {
    Seq::new(ms.len(), |j: int| matches_path(ms[j].matcher.tokens@, target))
}

/// Which routes match a target path.
pub open spec fn route_hits<H>(ms: Seq<Route<H>>, target: Seq<char>) -> Seq<bool> {
    Seq::new(ms.len(), |j: int| matches_path(ms[j].matcher.tokens@, target))
}

/// Which post-middlewares match a target path.
pub open spec fn post_hits<H>(ms: Seq<PostMiddleware<H>>, target: Seq<char>) -> Seq<bool> {
    Seq::new(ms.len(), |j: int| matches_path(ms[j].matcher.tokens@, target))
}

/// Which scoped data maps match a target path.
pub open spec fn map_hits<D>(ms: Seq<ScopedDataMap<D>>, target: Seq<char>) -> Seq<bool> {
    Seq::new(ms.len(), |j: int| matches_path(ms[j].matcher.tokens@, target))
}

/// The hits of the combined set split contiguously by class: for ascending
/// hits and the class range `[lo, hi)`, the class list is ascending, holds only
/// local positions, and holds `u - lo` exactly when the hits hold `u`.
pub proof fn law_partition_contiguous(hits: Seq<usize>, lo: int, hi: int)
    requires
        0 <= lo <= hi,
        forall|a: int, b: int| 0 <= a < b < hits.len() ==> hits[a] < hits[b],
    ensures
        forall|a: int, b: int|
            0 <= a < b < select_range(hits, lo, hi).len() ==> select_range(hits, lo, hi)[a]
                < select_range(hits, lo, hi)[b],
        forall|k: int|
            0 <= k < select_range(hits, lo, hi).len() ==> select_range(hits, lo, hi)[k] < hi - lo,
        forall|u: usize|
            lo <= u < hi ==> (#[trigger] hits.contains(u) <==> select_range(hits, lo, hi).contains(
                (u - lo) as usize,
            )),
{
    lemma_select_range(hits, lo, hi);
    let s = select_range(hits, lo, hi);
    assert forall|u: usize| lo <= u < hi implies (#[trigger] hits.contains(u) <==> s.contains(
        (u - lo) as usize,
    )) by {
        if s.contains((u - lo) as usize) {
            let k = choose|k: int| 0 <= k < s.len() && s[k] == (u - lo) as usize;
            assert(hits.contains((s[k] + lo) as usize));
        }
    }
}

/// Depth gating keeps out exactly the deeper middlewares: every pre-middleware
/// that runs is no deeper than the chosen route, and every matched one that is
/// no deeper runs.
pub proof fn law_depth_gating_pre<H>(ms: Seq<PreMiddleware<H>>, idxs: Seq<usize>, chosen: Option<u32>)
    requires
        forall|k: int| 0 <= k < idxs.len() ==> idxs[k] < ms.len(),
    ensures
        forall|k: int|
            0 <= k < gated_pres(ms, idxs, chosen).len() ==> depth_allows(
                ms[gated_pres(ms, idxs, chosen)[k] as int].scope_depth,
                chosen,
            ) && idxs.contains(#[trigger] gated_pres(ms, idxs, chosen)[k]),
        forall|k: int|
            0 <= k < idxs.len() && depth_allows(ms[idxs[k] as int].scope_depth, chosen) ==> gated_pres(
                ms,
                idxs,
                chosen,
            ).contains(#[trigger] idxs[k]),
    decreases idxs.len(),
{
    if idxs.len() > 0 {
        let p = idxs.drop_last();
        law_depth_gating_pre(ms, p, chosen);
        let g = gated_pres(ms, idxs, chosen);
        let gp = gated_pres(ms, p, chosen);
        assert forall|k: int| 0 <= k < g.len() implies depth_allows(ms[g[k] as int].scope_depth, chosen)
            && idxs.contains(#[trigger] g[k]) by {
            if k < gp.len() {
                assert(g[k] == gp[k]);
                let w = choose|w: int| 0 <= w < p.len() && p[w] == gp[k];
                assert(idxs[w] == p[w]);
            } else {
                assert(g[k] == idxs.last());
                assert(idxs[idxs.len() - 1] == idxs.last());
            }
        }
        assert forall|k: int| 0 <= k < idxs.len() && depth_allows(ms[idxs[k] as int].scope_depth, chosen)
            implies g.contains(#[trigger] idxs[k]) by {
            if k < idxs.len() - 1 {
                assert(p[k] == idxs[k]);
                let w = choose|w: int| 0 <= w < gp.len() && gp[w] == p[k];
                if depth_allows(ms[idxs.last() as int].scope_depth, chosen) {
                    assert(g[w] == gp[w]);
                }
            } else {
                assert(g[g.len() - 1] == idxs.last());
            }
        }
    }
}

/// The same for post-middlewares.
pub proof fn law_depth_gating_post<H>(ms: Seq<PostMiddleware<H>>, idxs: Seq<usize>, chosen: Option<u32>)
    requires
        forall|k: int| 0 <= k < idxs.len() ==> idxs[k] < ms.len(),
    ensures
        forall|k: int|
            0 <= k < gated_posts(ms, idxs, chosen).len() ==> depth_allows(
                ms[gated_posts(ms, idxs, chosen)[k] as int].scope_depth,
                chosen,
            ) && idxs.contains(#[trigger] gated_posts(ms, idxs, chosen)[k]),
        forall|k: int|
            0 <= k < idxs.len() && depth_allows(ms[idxs[k] as int].scope_depth, chosen) ==> gated_posts(
                ms,
                idxs,
                chosen,
            ).contains(#[trigger] idxs[k]),
    decreases idxs.len(),
{
    if idxs.len() > 0 {
        let p = idxs.drop_last();
        law_depth_gating_post(ms, p, chosen);
        let g = gated_posts(ms, idxs, chosen);
        let gp = gated_posts(ms, p, chosen);
        assert forall|k: int| 0 <= k < g.len() implies depth_allows(ms[g[k] as int].scope_depth, chosen)
            && idxs.contains(#[trigger] g[k]) by {
            if k < gp.len() {
                assert(g[k] == gp[k]);
                let w = choose|w: int| 0 <= w < p.len() && p[w] == gp[k];
                assert(idxs[w] == p[w]);
            } else {
                assert(g[k] == idxs.last());
                assert(idxs[idxs.len() - 1] == idxs.last());
            }
        }
        assert forall|k: int| 0 <= k < idxs.len() && depth_allows(ms[idxs[k] as int].scope_depth, chosen)
            implies g.contains(#[trigger] idxs[k]) by {
            if k < idxs.len() - 1 {
                assert(p[k] == idxs[k]);
                let w = choose|w: int| 0 <= w < gp.len() && gp[w] == p[k];
                if depth_allows(ms[idxs.last() as int].scope_depth, chosen) {
                    assert(g[w] == gp[w]);
                }
            } else {
                assert(g[g.len() - 1] == idxs.last());
            }
        }
    }
}

/// Among participants registered at literal paths (no parameter, no glob),
/// matching a target path selects exactly those whose path is the target.
pub proof fn law_literal_paths_match_only_themselves<H, D>(
    r: &Router<H, D>,
    m: &MatchedIndices,
    target: Seq<char>,
)
    requires
        r.wf(),
        r.matched_for(m, target),
    ensures
        forall|j: int|
            0 <= j < r.pre_middlewares@.len() && literal_path(
                #[trigger] r.pre_middlewares@[j].matcher.path@,
            ) ==> (m.pre@.contains(j as usize) <==> r.pre_middlewares@[j].matcher.path@ == target),
        forall|j: int|
            0 <= j < r.routes@.len() && literal_path(#[trigger] r.routes@[j].matcher.path@) ==> (
            m.routes@.contains(j as usize) <==> r.routes@[j].matcher.path@ == target),
        forall|j: int|
            0 <= j < r.post_middlewares@.len() && literal_path(
                #[trigger] r.post_middlewares@[j].matcher.path@,
            ) ==> (m.post@.contains(j as usize) <==> r.post_middlewares@[j].matcher.path@ == target),
{
    assert forall|j: int|
        0 <= j < r.pre_middlewares@.len() && literal_path(
            #[trigger] r.pre_middlewares@[j].matcher.path@,
        ) implies (m.pre@.contains(j as usize) <==> r.pre_middlewares@[j].matcher.path@ == target) by {
        assert(r.pre_middlewares@[j].wf());
        assert(pre_hits(r.pre_middlewares@, target)[j] == matches_path(r.pre_middlewares@[j].matcher.tokens@, target));
        law_literal_path_matches_only_itself(r.pre_middlewares@[j].matcher.path@, target);
    }
    assert forall|j: int|
        0 <= j < r.routes@.len() && literal_path(#[trigger] r.routes@[j].matcher.path@) implies (
        m.routes@.contains(j as usize) <==> r.routes@[j].matcher.path@ == target) by {
        assert(r.routes@[j].wf());
        assert(route_hits(r.routes@, target)[j] == matches_path(r.routes@[j].matcher.tokens@, target));
        law_literal_path_matches_only_itself(r.routes@[j].matcher.path@, target);
    }
    assert forall|j: int|
        0 <= j < r.post_middlewares@.len() && literal_path(
            #[trigger] r.post_middlewares@[j].matcher.path@,
        ) implies (m.post@.contains(j as usize) <==> r.post_middlewares@[j].matcher.path@ == target) by {
        assert(r.post_middlewares@[j].wf());
        assert(post_hits(r.post_middlewares@, target)[j] == matches_path(r.post_middlewares@[j].matcher.tokens@, target));
        law_literal_path_matches_only_itself(r.post_middlewares@[j].matcher.path@, target);
    }
}

/// The result of matching one request path.
pub struct Dispatch {
    /// The normalized target path.
    pub target_path: String,
    /// The participants whose patterns match it.
    pub matched: MatchedIndices,
    /// What the pipeline runs.
    pub plan: Plan,
}

proof fn lemma_select_range(hits: Seq<usize>, lo: int, hi: int)
    requires
        0 <= lo <= hi,
        forall|a: int, b: int| 0 <= a < b < hits.len() ==> hits[a] < hits[b],
    ensures
        forall|a: int, b: int|
            0 <= a < b < select_range(hits, lo, hi).len() ==> select_range(hits, lo, hi)[a]
                < select_range(hits, lo, hi)[b],
        forall|k: int|
            0 <= k < select_range(hits, lo, hi).len() ==> select_range(hits, lo, hi)[k] < hi - lo
                && hits.contains((select_range(hits, lo, hi)[k] + lo) as usize),
        forall|u: usize|
            lo <= u < hi && #[trigger] hits.contains(u) ==> select_range(hits, lo, hi).contains(
                (u - lo) as usize,
            ),
        hits.len() > 0 ==> forall|k: int|
            0 <= k < select_range(hits, lo, hi).len() ==> select_range(hits, lo, hi)[k] + lo
                <= hits.last(),
    decreases hits.len(),
{
    if hits.len() > 0 {
        let p = hits.drop_last();
        lemma_select_range(p, lo, hi);
        let s = select_range(hits, lo, hi);
        let sp = select_range(p, lo, hi);
        assert forall|k: int| 0 <= k < sp.len() implies sp[k] < hi - lo && hits.contains(
            (sp[k] + lo) as usize,
        ) && sp[k] + lo <= hits.last() by {
            let w = choose|w: int| 0 <= w < p.len() && p[w] == (sp[k] + lo) as usize;
            assert(hits[w] == p[w]);
            assert(hits[w] < hits[hits.len() - 1] || w == hits.len() - 1);
        }
        if lo <= hits.last() < hi {
            assert(s == sp.push((hits.last() - lo) as usize));
            assert(hits[hits.len() - 1] == hits.last());
        }
        assert forall|u: usize| lo <= u < hi && #[trigger] hits.contains(u) implies s.contains(
            (u - lo) as usize,
        ) by {
            let w = choose|w: int| 0 <= w < hits.len() && hits[w] == u;
            if w < hits.len() - 1 {
                assert(p[w] == hits[w]);
                assert(p.contains(u));
                let v = choose|v: int| 0 <= v < sp.len() && sp[v] == (u - lo) as usize;
                if lo <= hits.last() < hi {
                    assert(s[v] == sp[v]);
                }
            } else {
                assert(s[s.len() - 1] == (u - lo) as usize);
            }
        }
        assert forall|k: int| 0 <= k < s.len() implies s[k] < hi - lo && hits.contains(
            (s[k] + lo) as usize,
        ) && s[k] + lo <= hits.last() by {
            if k < sp.len() {
                assert(s[k] == sp[k]);
            } else {
                assert(hits[hits.len() - 1] == hits.last());
            }
        }
        assert forall|a: int, b: int| 0 <= a < b < s.len() implies s[a] < s[b] by {
            if b < sp.len() {
                assert(s[a] == sp[a] && s[b] == sp[b]);
            } else {
                assert(s[a] == sp[a]);
                if p.len() > 0 {
                    assert(p.last() < hits.last());
                }
            }
        }
    }
}

impl<H, D> Router<H, D> {
    /// Every participant is well formed, and a compiled set holds the exact
    /// patterns of the pre-middlewares, routes, post-middlewares and data maps,
    /// in that order.
    pub open spec fn wf(&self) -> bool {
        &&& pres_wf(self.pre_middlewares@)
        &&& routes_wf(self.routes@)
        &&& posts_wf(self.post_middlewares@)
        &&& maps_wf(self.scoped_data_maps@)
        &&& self.regex_set matches Some(s) ==> s@ == self.all_patterns()
    }

    /// The exact patterns of all participants, in the order pre, routes, post, data.
    pub open spec fn all_patterns(&self) -> Seq<Seq<char>> {
        self.pre_middlewares@.map_values(|m: PreMiddleware<H>| m.matcher.regex@)
            + self.routes@.map_values(|m: Route<H>| m.matcher.regex@)
            + self.post_middlewares@.map_values(|m: PostMiddleware<H>| m.matcher.regex@)
            + self.scoped_data_maps@.map_values(|m: ScopedDataMap<D>| m.matcher.regex@)
    }

    /// Adds the default OPTIONS route, `/*` for `OPTIONS` only, unless there is one.
    pub fn init_global_options_route(&mut self, handler: H) -> (r: Result<(), Error>)
        requires
            old(self).wf(),
        ensures
            final(self).wf(),
            final(self).pre_middlewares@ == old(self).pre_middlewares@,
            final(self).post_middlewares@ == old(self).post_middlewares@,
            final(self).scoped_data_maps@ == old(self).scoped_data_maps@,
            final(self).err_handler == old(self).err_handler,
            r matches Err(e) ==> e.kind == ErrorKind::BadRoutePattern,
            has_route(old(self).routes@, "/*"@, seq![Method::Options]) ==> *final(self) == *old(self) && r is Ok,
            !has_route(old(self).routes@, "/*"@, seq![Method::Options]) ==> (r is Ok <==> path_compiles("/*"@)),
            !has_route(old(self).routes@, "/*"@, seq![Method::Options]) ==> match r {
                Ok(()) => {
                    &&& final(self).routes@.drop_last() == old(self).routes@
                    &&& final(self).routes@.len() == old(self).routes@.len() + 1
                    &&& final(self).routes@.last().matcher.path@ == "/*"@
                    &&& final(self).routes@.last().methods@ == seq![Method::Options]
                    &&& final(self).routes@.last().handler == Some(handler)
                    &&& final(self).routes@.last().scope_depth == 1
                    &&& final(self).regex_set is None
                },
                Err(e) => e.kind == ErrorKind::BadRoutePattern,
            },
    {
        let methods = vec![Method::Options];
        proof {
            assert(methods@ =~= seq![Method::Options]);
        }
        self.add_default_route(methods, handler)
    }

    /// Adds the default catch-all route, `/*` for the universal method set,
    /// unless there is one.
    pub fn init_default_404_route(&mut self, handler: H) -> (r: Result<(), Error>)
        requires
            old(self).wf(),
        ensures
            final(self).wf(),
            final(self).pre_middlewares@ == old(self).pre_middlewares@,
            final(self).post_middlewares@ == old(self).post_middlewares@,
            final(self).scoped_data_maps@ == old(self).scoped_data_maps@,
            final(self).err_handler == old(self).err_handler,
            r matches Err(e) ==> e.kind == ErrorKind::BadRoutePattern,
            has_route(old(self).routes@, "/*"@, universal_methods()) ==> *final(self) == *old(self) && r is Ok,
            !has_route(old(self).routes@, "/*"@, universal_methods()) ==> (r is Ok <==> path_compiles("/*"@)),
            !has_route(old(self).routes@, "/*"@, universal_methods()) ==> match r {
                Ok(()) => {
                    &&& final(self).routes@.drop_last() == old(self).routes@
                    &&& final(self).routes@.len() == old(self).routes@.len() + 1
                    &&& final(self).routes@.last().matcher.path@ == "/*"@
                    &&& final(self).routes@.last().methods@ == universal_methods()
                    &&& final(self).routes@.last().handler == Some(handler)
                    &&& final(self).routes@.last().scope_depth == 1
                    &&& final(self).regex_set is None
                },
                Err(e) => e.kind == ErrorKind::BadRoutePattern,
            },
    {
        self.add_default_route(all_possible_http_methods(), handler)
    }

    fn add_default_route(&mut self, methods: Vec<Method>, handler: H) -> (r: Result<(), Error>)
        requires
            old(self).wf(),
            methods@.len() > 0,
        ensures
            final(self).wf(),
            final(self).pre_middlewares@ == old(self).pre_middlewares@,
            final(self).post_middlewares@ == old(self).post_middlewares@,
            final(self).scoped_data_maps@ == old(self).scoped_data_maps@,
            final(self).err_handler == old(self).err_handler,
            r matches Err(e) ==> e.kind == ErrorKind::BadRoutePattern,
            has_route(old(self).routes@, "/*"@, methods@) ==> *final(self) == *old(self) && r is Ok,
            !has_route(old(self).routes@, "/*"@, methods@) ==> (r is Ok <==> path_compiles("/*"@)),
            !has_route(old(self).routes@, "/*"@, methods@) ==> match r {
                Ok(()) => {
                    &&& final(self).routes@.drop_last() == old(self).routes@
                    &&& final(self).routes@.len() == old(self).routes@.len() + 1
                    &&& final(self).routes@.last().matcher.path@ == "/*"@
                    &&& final(self).routes@.last().methods@ == methods@
                    &&& final(self).routes@.last().handler == Some(handler)
                    &&& final(self).routes@.last().scope_depth == 1
                    &&& final(self).regex_set is None
                },
                Err(e) => e.kind == ErrorKind::BadRoutePattern,
            },
    {
        let root = String::from_str("/*");
        let mut i: usize = 0;
        while i < self.routes.len()
            invariant
                i <= self.routes@.len(),
                root@ == "/*"@,
                self.wf(),
                *self == *old(self),
                forall|j: int|
                    0 <= j < i ==> !((#[trigger] self.routes@[j]).matcher.path@ == "/*"@
                        && self.routes@[j].methods@ == methods@),
            decreases self.routes@.len() - i,
        {
            if self.routes[i].matcher.path == root && same_methods(&self.routes[i].methods, &methods) {
                return Ok(());
            }
            i = i + 1;
        }
        match Route::new(root, methods, handler, 1) {
            Ok(route) => {
                let ghost old_routes = self.routes@;
                let mut routes: Vec<Route<H>> = Vec::new();
                std::mem::swap(&mut routes, &mut self.routes);
                routes.push(route);
                self.routes = routes;
                self.regex_set = None;
                proof {
                    assert(self.routes@.drop_last() =~= old_routes);
                    assert forall|j: int| 0 <= j < self.routes@.len() implies (#[trigger] self.routes@[j]).wf() by {
                        if j < old_routes.len() {
                            assert(self.routes@[j] == old_routes[j]);
                        }
                    }
                }
                Ok(())
            },
            Err(e) => Err(e),
        }
    }

    /// Installs the given error handler, which takes the error alone, unless one is installed.
    pub fn init_err_handler(&mut self, handler: H)
        requires
            old(self).wf(),
        ensures
            final(self).wf(),
            old(self).err_handler is Some ==> *final(self) == *old(self),
            old(self).err_handler is None ==> *final(self) == (Router {
                err_handler: Some(ErrHandler { handler, with_info: false }),
                ..*old(self)
            }),
    {
        if self.err_handler.is_none() {
            self.err_handler = Some(ErrHandler { handler, with_info: false });
        }
    }

    /// Compiles the combined pattern set: the patterns of the pre-middlewares,
    /// routes, post-middlewares and data maps, in that order.
    pub fn init_regex_set(&mut self) -> (r: Result<(), Error>)
        requires
            old(self).wf(),
        ensures
            final(self).wf(),
            final(self).pre_middlewares@ == old(self).pre_middlewares@,
            final(self).routes@ == old(self).routes@,
            final(self).post_middlewares@ == old(self).post_middlewares@,
            final(self).scoped_data_maps@ == old(self).scoped_data_maps@,
            final(self).err_handler == old(self).err_handler,
            final(self).should_gen_req_info == old(self).should_gen_req_info,
            r is Ok ==> final(self).regex_set is Some,
            r is Ok <==> regex_set_compiles(old(self).all_patterns()),
            r matches Err(e) ==> e.kind == ErrorKind::BadRoutePattern,
    {
        let mut srcs: Vec<String> = Vec::new();
        let ghost pats = self.all_patterns();
        let ghost a = self.pre_middlewares@.map_values(|m: PreMiddleware<H>| m.matcher.regex@);
        let ghost b = self.routes@.map_values(|m: Route<H>| m.matcher.regex@);
        let ghost c = self.post_middlewares@.map_values(|m: PostMiddleware<H>| m.matcher.regex@);
        let ghost d = self.scoped_data_maps@.map_values(|m: ScopedDataMap<D>| m.matcher.regex@);
        let mut i: usize = 0;
        while i < self.pre_middlewares.len()
            invariant
                i <= self.pre_middlewares@.len(),
                a == self.pre_middlewares@.map_values(|m: PreMiddleware<H>| m.matcher.regex@),
                b == self.routes@.map_values(|m: Route<H>| m.matcher.regex@),
                c == self.post_middlewares@.map_values(|m: PostMiddleware<H>| m.matcher.regex@),
                d == self.scoped_data_maps@.map_values(|m: ScopedDataMap<D>| m.matcher.regex@),
                *self == *old(self),
                views(srcs@) == a.subrange(0, i as int),
            decreases self.pre_middlewares@.len() - i,
        {
            let ghost before = srcs@;
            let s = String::from_str(self.pre_middlewares[i].matcher.regex.as_str());
            srcs.push(s);
            proof {
                lemma_views_push(before, s);
                assert(a[i as int] == s@);
                assert(views(srcs@) =~= a.subrange(0, i + 1));
            }
            i = i + 1;
        }
        i = 0;
        while i < self.routes.len()
            invariant
                i <= self.routes@.len(),
                a.len() == self.pre_middlewares@.len(),
                a == self.pre_middlewares@.map_values(|m: PreMiddleware<H>| m.matcher.regex@),
                b == self.routes@.map_values(|m: Route<H>| m.matcher.regex@),
                c == self.post_middlewares@.map_values(|m: PostMiddleware<H>| m.matcher.regex@),
                d == self.scoped_data_maps@.map_values(|m: ScopedDataMap<D>| m.matcher.regex@),
                *self == *old(self),
                views(srcs@) == a + b.subrange(0, i as int),
            decreases self.routes@.len() - i,
        {
            let ghost before = srcs@;
            let s = String::from_str(self.routes[i].matcher.regex.as_str());
            srcs.push(s);
            proof {
                lemma_views_push(before, s);
                assert(b[i as int] == s@);
                assert(views(srcs@) =~= a + b.subrange(0, i + 1));
            }
            i = i + 1;
        }
        i = 0;
        while i < self.post_middlewares.len()
            invariant
                i <= self.post_middlewares@.len(),
                a == self.pre_middlewares@.map_values(|m: PreMiddleware<H>| m.matcher.regex@),
                b == self.routes@.map_values(|m: Route<H>| m.matcher.regex@),
                c == self.post_middlewares@.map_values(|m: PostMiddleware<H>| m.matcher.regex@),
                d == self.scoped_data_maps@.map_values(|m: ScopedDataMap<D>| m.matcher.regex@),
                *self == *old(self),
                views(srcs@) == a + b + c.subrange(0, i as int),
            decreases self.post_middlewares@.len() - i,
        {
            let ghost before = srcs@;
            let s = String::from_str(self.post_middlewares[i].matcher.regex.as_str());
            srcs.push(s);
            proof {
                lemma_views_push(before, s);
                assert(c[i as int] == s@);
                assert(views(srcs@) =~= a + b + c.subrange(0, i + 1));
            }
            i = i + 1;
        }
        i = 0;
        while i < self.scoped_data_maps.len()
            invariant
                i <= self.scoped_data_maps@.len(),
                a == self.pre_middlewares@.map_values(|m: PreMiddleware<H>| m.matcher.regex@),
                b == self.routes@.map_values(|m: Route<H>| m.matcher.regex@),
                c == self.post_middlewares@.map_values(|m: PostMiddleware<H>| m.matcher.regex@),
                d == self.scoped_data_maps@.map_values(|m: ScopedDataMap<D>| m.matcher.regex@),
                *self == *old(self),
                views(srcs@) == a + b + c + d.subrange(0, i as int),
            decreases self.scoped_data_maps@.len() - i,
        {
            let ghost before = srcs@;
            let s = String::from_str(self.scoped_data_maps[i].matcher.regex.as_str());
            srcs.push(s);
            proof {
                lemma_views_push(before, s);
                assert(d[i as int] == s@);
                assert(views(srcs@) =~= a + b + c + d.subrange(0, i + 1));
            }
            i = i + 1;
        }
        proof {
            assert(a.subrange(0, a.len() as int) =~= a);
            assert(d.subrange(0, d.len() as int) =~= d);
        }
        match compile_set(&srcs) {
            Ok(set) => {
                self.regex_set = Some(set);
                Ok(())
            },
            Err(msg) => Err(Error::with_kind(ErrorKind::BadRoutePattern, msg)),
        }
    }

    /// Sets the request-info bit: whether the error handler or some
    /// post-middleware takes the request info.
    pub fn init_req_info_gen(&mut self)
        requires
            old(self).wf(),
        ensures
            final(self).wf(),
            *final(self) == (Router {
                should_gen_req_info: Some(
                    (old(self).err_handler matches Some(h) && h.with_info) || exists|i: int|
                        0 <= i < old(self).post_middlewares@.len() && (#[trigger] old(
                            self,
                        ).post_middlewares@[i]).handler is Some && old(self).post_middlewares@[i].with_info,
                ),
                ..*old(self)
            }),
    {
        let mut needs = match &self.err_handler {
            Some(h) => h.with_info,
            None => false,
        };
        let mut i: usize = 0;
        while i < self.post_middlewares.len() && !needs
            invariant
                i <= self.post_middlewares@.len(),
                needs == ((self.err_handler matches Some(h) && h.with_info) || exists|j: int|
                    0 <= j < i && (#[trigger] self.post_middlewares@[j]).handler is Some
                        && self.post_middlewares@[j].with_info),
            decreases self.post_middlewares@.len() - i,
        {
            if self.post_middlewares[i].should_require_req_meta() {
                needs = true;
            }
            i = i + 1;
        }
        self.should_gen_req_info = Some(needs);
    }

    /// The four index lists match the router's lists.
    pub open spec fn matched_for(&self, m: &MatchedIndices, target: Seq<char>) -> bool {
        &&& hits_exactly(m.pre@, pre_hits(self.pre_middlewares@, target))
        &&& hits_exactly(m.routes@, route_hits(self.routes@, target))
        &&& hits_exactly(m.post@, post_hits(self.post_middlewares@, target))
        &&& hits_exactly(m.data@, map_hits(self.scoped_data_maps@, target))
    }

    /// The plan for the matched participants and the request method.
    pub open spec fn plan_for(&self, m: &MatchedIndices, method: Method, p: &Plan) -> bool {
        let chosen = chosen_depth(self.routes@, m.routes@, method);
        &&& p.route == first_route(self.routes@, m.routes@, method, false)
        &&& p.pre@ == gated_pres(self.pre_middlewares@, m.pre@, chosen)
        &&& p.post@ == gated_posts(self.post_middlewares@, m.post@, chosen)
        &&& p.has_err_handler == self.err_handler is Some
    }

    /// Runs the combined pattern set once on the target path and splits its
    /// hits by class: each list holds, in ascending order, exactly the indices
    /// of the participants of its class whose pattern matches.
    pub fn match_regex_set(&self, target_path: &str) -> (r: MatchedIndices)
        requires
            self.wf(),
            self.regex_set is Some,
        ensures
            self.matched_for(&r, target_path@),
    {
        let set = match &self.regex_set {
            Some(s) => s,
            None => {
                proof {
                    assert(false);
                }
                return MatchedIndices { pre: Vec::new(), routes: Vec::new(), post: Vec::new(), data: Vec::new() };
            },
        };
        let total = set.len();
        let hits = set_matches(set, target_path);
        let a = self.pre_middlewares.len();
        let b = self.routes.len();
        let c = self.post_middlewares.len();
        let d = self.scoped_data_maps.len();
        proof {
            assert(set@.len() == a + b + c + d);
        }
        let r = partition_matches(&hits, a, b, c, d);
        proof {
            let t = target_path@;
            let pats = self.all_patterns();
            lemma_select_range(hits@, 0, a as int);
            lemma_select_range(hits@, a as int, a + b);
            lemma_select_range(hits@, a + b, a + b + c);
            lemma_select_range(hits@, a + b + c, a + b + c + d);
            assert forall|j: int| 0 <= j < a implies (r.pre@.contains(j as usize) <==> #[trigger] pre_hits(self.pre_middlewares@, t)[j]) by {
                let m = self.pre_middlewares@[j];
                assert(m.wf());
                assert(pats[j] == m.matcher.regex@);
                assert(set@[j] == exact_regex_text(m.matcher.tokens@));
                if hits@.contains(j as usize) {
                    assert(r.pre@.contains(j as usize));
                }
                if r.pre@.contains(j as usize) {
                    let k = choose|k: int| 0 <= k < r.pre@.len() && r.pre@[k] == j as usize;
                    assert(hits@.contains((r.pre@[k] + 0) as usize));
                }
            }
            assert forall|j: int| 0 <= j < b implies (r.routes@.contains(j as usize) <==> #[trigger] route_hits(self.routes@, t)[j]) by {
                let m = self.routes@[j];
                assert(m.wf());
                assert(pats[a + j] == m.matcher.regex@);
                assert(set@[a + j] == exact_regex_text(m.matcher.tokens@));
                if hits@.contains((a + j) as usize) {
                    assert(r.routes@.contains(((a + j) as usize - a) as usize));
                }
                if r.routes@.contains(j as usize) {
                    let k = choose|k: int| 0 <= k < r.routes@.len() && r.routes@[k] == j as usize;
                    assert(hits@.contains((r.routes@[k] + a) as usize));
                }
            }
            assert forall|j: int| 0 <= j < c implies (r.post@.contains(j as usize) <==> #[trigger] post_hits(self.post_middlewares@, t)[j]) by {
                let m = self.post_middlewares@[j];
                assert(m.wf());
                assert(pats[a + b + j] == m.matcher.regex@);
                assert(set@[a + b + j] == exact_regex_text(m.matcher.tokens@));
                if hits@.contains((a + b + j) as usize) {
                    assert(r.post@.contains(((a + b + j) as usize - (a + b)) as usize));
                }
                if r.post@.contains(j as usize) {
                    let k = choose|k: int| 0 <= k < r.post@.len() && r.post@[k] == j as usize;
                    assert(hits@.contains((r.post@[k] + (a + b)) as usize));
                }
            }
            assert forall|j: int| 0 <= j < d implies (r.data@.contains(j as usize) <==> #[trigger] map_hits(self.scoped_data_maps@, t)[j]) by {
                let m = self.scoped_data_maps@[j];
                assert(m.wf());
                assert(pats[a + b + c + j] == m.matcher.regex@);
                assert(set@[a + b + c + j] == exact_regex_text(m.matcher.tokens@));
                if hits@.contains((a + b + c + j) as usize) {
                    assert(r.data@.contains(((a + b + c + j) as usize - (a + b + c)) as usize));
                }
                if r.data@.contains(j as usize) {
                    let k = choose|k: int| 0 <= k < r.data@.len() && r.data@[k] == j as usize;
                    assert(hits@.contains((r.data@[k] + (a + b + c)) as usize));
                }
            }
        }
        r
    }

    /// Every index of `m` names a participant of its class.
    pub open spec fn indices_in_bounds(&self, m: &MatchedIndices) -> bool {
        &&& forall|k: int| 0 <= k < m.pre@.len() ==> m.pre@[k] < self.pre_middlewares@.len()
        &&& forall|k: int| 0 <= k < m.routes@.len() ==> m.routes@[k] < self.routes@.len()
        &&& forall|k: int| 0 <= k < m.post@.len() ==> m.post@[k] < self.post_middlewares@.len()
        &&& forall|k: int| 0 <= k < m.data@.len() ==> m.data@[k] < self.scoped_data_maps@.len()
    }

    fn first_route_exec(&self, idxs: &Vec<usize>, method: Method, genuine: bool) -> (r: Option<usize>)
        requires
            forall|k: int| 0 <= k < idxs@.len() ==> idxs@[k] < self.routes@.len(),
        ensures
            r == first_route(self.routes@, idxs@, method, genuine),
            r matches Some(i) ==> i < self.routes@.len(),
    {
        let root = String::from_str("/*");
        let n = idxs.len();
        let mut i: usize = 0;
        proof {
            assert(idxs@.subrange(0, n as int) =~= idxs@);
        }
        while i < n
            invariant
                i <= n,
                n == idxs@.len(),
                root@ == "/*"@,
                forall|k: int| 0 <= k < idxs@.len() ==> idxs@[k] < self.routes@.len(),
                first_route(self.routes@, idxs@, method, genuine) == first_route(
                    self.routes@,
                    idxs@.subrange(i as int, n as int),
                    method,
                    genuine,
                ),
            decreases n - i,
        {
            let ghost rest = idxs@.subrange(i as int, n as int);
            proof {
                assert(rest[0] == idxs@[i as int]);
                assert(rest.drop_first() =~= idxs@.subrange(i + 1, n as int));
            }
            let route = &self.routes[idxs[i]];
            if route.is_match_method(method) && (!genuine || route.matcher.path != root) {
                return Some(idxs[i]);
            }
            i = i + 1;
        }
        proof {
            assert(idxs@.subrange(n as int, n as int) =~= Seq::<usize>::empty());
        }
        None
    }

    /// The depth of the first matched route that answers the method and is
    /// not the catch-all `/*`.
    pub fn chosen_route_depth(&self, matched_routes: &Vec<usize>, method: Method) -> (r: Option<u32>)
        requires
            forall|k: int| 0 <= k < matched_routes@.len() ==> matched_routes@[k] < self.routes@.len(),
        ensures
            r == chosen_depth(self.routes@, matched_routes@, method),
    {
        match self.first_route_exec(matched_routes, method, true) {
            Some(i) => Some(self.routes[i].scope_depth),
            None => None,
        }
    }

    /// The plan for one request: the matched pre- and post-middlewares that
    /// depth gating lets run, and the first matched route that answers the method.
    pub fn plan(&self, matched: &MatchedIndices, method: Method) -> (r: Plan)
        requires
            self.indices_in_bounds(matched),
        ensures
            self.plan_for(matched, method, &r),
    {
        let chosen = self.chosen_route_depth(&matched.routes, method);
        let route = self.first_route_exec(&matched.routes, method, false);
        let mut pre: Vec<usize> = Vec::new();
        let mut i: usize = 0;
        while i < matched.pre.len()
            invariant
                i <= matched.pre@.len(),
                self.indices_in_bounds(matched),
                pre@ == gated_pres(self.pre_middlewares@, matched.pre@.subrange(0, i as int), chosen),
            decreases matched.pre@.len() - i,
        {
            let idx = matched.pre[i];
            proof {
                assert(matched.pre@.subrange(0, i + 1).drop_last() =~= matched.pre@.subrange(0, i as int));
                assert(matched.pre@.subrange(0, i + 1).last() == idx);
            }
            if should_run_middleware(self.pre_middlewares[idx].scope_depth, chosen) {
                pre.push(idx);
            }
            i = i + 1;
        }
        let mut post: Vec<usize> = Vec::new();
        let mut j: usize = 0;
        while j < matched.post.len()
            invariant
                j <= matched.post@.len(),
                self.indices_in_bounds(matched),
                post@ == gated_posts(self.post_middlewares@, matched.post@.subrange(0, j as int), chosen),
            decreases matched.post@.len() - j,
        {
            let idx = matched.post[j];
            proof {
                assert(matched.post@.subrange(0, j + 1).drop_last() =~= matched.post@.subrange(0, j as int));
                assert(matched.post@.subrange(0, j + 1).last() == idx);
            }
            if should_run_middleware(self.post_middlewares[idx].scope_depth, chosen) {
                post.push(idx);
            }
            j = j + 1;
        }
        proof {
            assert(matched.pre@.subrange(0, i as int) =~= matched.pre@);
            assert(matched.post@.subrange(0, j as int) =~= matched.post@);
        }
        Plan { pre, route, post, has_err_handler: self.err_handler.is_some() }
    }

    /// Matches one request: normalizes its path, runs the combined set on it
    /// and plans the pipeline for the method.
    pub fn dispatch(&self, raw_path: &str, method: Method) -> (r: Result<Dispatch, Error>)
        requires
            self.wf(),
            self.regex_set is Some,
        ensures
            r is Ok <==> percent_decoded(raw_path@) is Some,
            r matches Ok(d) ==> {
                &&& d.target_path@ == with_trailing_slash(percent_decoded(raw_path@)->Some_0)
                &&& self.matched_for(&d.matched, d.target_path@)
                &&& self.plan_for(&d.matched, method, &d.plan)
            },
            r matches Err(e) ==> e.kind == ErrorKind::BadRequestPath,
    {
        match target_path(raw_path) {
            Ok(target) => {
                let matched = self.match_regex_set(target.as_str());
                let plan = self.plan(&matched, method);
                Ok(Dispatch { target_path: target, matched, plan })
            },
            Err(e) => Err(e),
        }
    }

    /// The route parameters that a route extracts from a target path.
    pub fn route_params(&self, route_idx: usize, target_path: &str) -> (r: RouteParams)
        requires
            self.wf(),
            route_idx < self.routes@.len(),
        ensures
            ({
                let m = self.routes@[route_idx as int].matcher;
                &&& !matches_path(m.tokens@, target_path@) ==> r@ == Map::<Seq<char>, Seq<char>>::empty()
                &&& matches_path(m.tokens@, target_path@) ==> exists|caps: Seq<Seq<char>>|
                    captures_fit(m.tokens@, caps) && #[trigger] fill(m.tokens@, caps) == target_path@
                        && r@ == params_map(param_names(m.tokens@), caps, param_names(m.tokens@).len() as int)
            }),
    {
        proof {
            assert(self.routes@[route_idx as int].wf());
        }
        self.routes[route_idx].matcher.route_params_for(target_path)
    }

    /// Finalizes a root router: the default OPTIONS and catch-all routes and
    /// the default error handler where none is registered, then the combined
    /// pattern set and the request-info bit.
    pub fn finalize(&mut self, options_handler: H, not_found_handler: H, err_handler: H) -> (r: Result<(), Error>)
        requires
            old(self).wf(),
        ensures
            final(self).wf(),
            r is Ok ==> {
                &&& final(self).regex_set is Some
                &&& final(self).should_gen_req_info is Some
                &&& final(self).err_handler is Some
                &&& has_route(final(self).routes@, "/*"@, seq![Method::Options])
                &&& has_route(final(self).routes@, "/*"@, universal_methods())
                &&& final(self).routes@.subrange(0, old(self).routes@.len() as int) == old(self).routes@
                &&& final(self).pre_middlewares@ == old(self).pre_middlewares@
                &&& final(self).post_middlewares@ == old(self).post_middlewares@
                &&& final(self).scoped_data_maps@ == old(self).scoped_data_maps@
            },
            r matches Err(e) ==> e.kind == ErrorKind::BadRoutePattern,
            !path_compiles("/*"@) && (!has_route(old(self).routes@, "/*"@, seq![Method::Options])
                || !has_route(old(self).routes@, "/*"@, universal_methods())) ==> r is Err,
            (path_compiles("/*"@) || (has_route(old(self).routes@, "/*"@, seq![Method::Options])
                && has_route(old(self).routes@, "/*"@, universal_methods()))) ==> (r is Ok
                <==> regex_set_compiles(final(self).all_patterns())),
    {
        let ghost r0 = self.routes@;
        match self.init_global_options_route(options_handler) {
            Ok(()) => {},
            Err(e) => {
                return Err(e);
            },
        }
        let ghost r1 = self.routes@;
        proof {
            if !has_route(r0, "/*"@, seq![Method::Options]) {
                assert(r1[r1.len() - 1] == r1.last());
                assert(has_route(r1, "/*"@, seq![Method::Options]));
                assert(r1.subrange(0, r0.len() as int) =~= r0);
            } else {
                assert(r1.subrange(0, r0.len() as int) =~= r0);
            }
        }
        match self.init_default_404_route(not_found_handler) {
            Ok(()) => {},
            Err(e) => {
                return Err(e);
            },
        }
        let ghost r2 = self.routes@;
        proof {
            if !has_route(r1, "/*"@, universal_methods()) {
                assert(r2[r2.len() - 1] == r2.last());
                assert(has_route(r2, "/*"@, universal_methods()));
                let i = choose|i: int| 0 <= i < r1.len() && (#[trigger] r1[i]).matcher.path@ == "/*"@ && r1[i].methods@ == seq![Method::Options];
                assert(r2[i] == r1[i]);
                assert(r2.subrange(0, r0.len() as int) =~= r0);
            } else {
                assert(r2.subrange(0, r0.len() as int) =~= r0);
            }
        }
        self.init_err_handler(err_handler);
        match self.init_regex_set() {
            Ok(()) => {},
            Err(e) => {
                return Err(e);
            },
        }
        self.init_req_info_gen();
        Ok(())
    }

    /// A builder for a router.
    pub fn builder() -> (r: RouterBuilder<H, D>)
        ensures
            r.wf(),
            r.inner matches Ok(b) && b.is_empty(),
    {
        RouterBuilder::new()
    }
}

} // verus!
