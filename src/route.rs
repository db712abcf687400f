//! Participants: routes, pre- and post-middlewares and scoped data maps,
//! each with its path pattern compiled.
use vstd::prelude::*;
use crate::error::{Error, ErrorKind};
use crate::matcher::{CompiledRegex, captures, compile, group_texts, regex_compiles};
use crate::method::{Method, contains_method};
use crate::params::RouteParams;
use crate::pattern::{
    PathToken,
    captures_fit,
    exact_regex_text,
    fill,
    generate_common_regex_str,
    lemma_fit_len,
    lemma_group_count,
    matches_path,
    param_names,
    path_tokens,
    prefix_regex_text,
    views,
};

verus! {

broadcast use vstd::string::group_string_axioms;

/// The map from the first `n` names to the first `n` values; a later name wins.
pub open spec fn params_map(names: Seq<Seq<char>>, vals: Seq<Seq<char>>, n: int) -> Map<
    Seq<char>,
    Seq<char>,
>
    decreases n,
{
    if n <= 0 {
        Map::empty()
    } else {
        params_map(names, vals, n - 1).insert(names[n - 1], vals[n - 1])
    }
}

proof fn lemma_params_map(names: Seq<Seq<char>>, vals: Seq<Seq<char>>, n: int)
    requires
        0 <= n <= names.len(),
        n <= vals.len(),
        names.no_duplicates(),
    ensures
        params_map(names, vals, n).dom() =~= names.subrange(0, n).to_set(),
        forall|i: int| 0 <= i < n ==> #[trigger] params_map(names, vals, n)[names[i]] == vals[i],
        params_map(names, vals, n).len() == n,
    decreases n,
{
    if n > 0 {
        lemma_params_map(names, vals, n - 1);
        let m = params_map(names, vals, n - 1);
        assert(!m.dom().contains(names[n - 1])) by {
            if m.dom().contains(names[n - 1]) {
                assert(names.subrange(0, n - 1).contains(names[n - 1]));
                let k = choose|k: int| 0 <= k < n - 1 && #[trigger] names.subrange(0, n - 1)[k] == names[n - 1];
                assert(names[k] == names[n - 1]);
            }
        }
        assert(names.subrange(0, n).to_set() =~= names.subrange(0, n - 1).to_set().insert(names[n - 1])) by {
            assert(names.subrange(0, n) =~= names.subrange(0, n - 1).push(names[n - 1]));
            assert forall|x: Seq<char>| names.subrange(0, n).to_set().contains(x) <==> names.subrange(0, n - 1).to_set().insert(names[n - 1]).contains(x) by {
                if names.subrange(0, n).contains(x) {
                    let k = choose|k: int| 0 <= k < n && #[trigger] names.subrange(0, n)[k] == x;
                    if k < n - 1 {
                        assert(names.subrange(0, n - 1)[k] == x);
                    }
                }
                if names.subrange(0, n - 1).contains(x) {
                    let k = choose|k: int| 0 <= k < n - 1 && #[trigger] names.subrange(0, n - 1)[k] == x;
                    assert(names.subrange(0, n)[k] == x);
                }
                assert(names.subrange(0, n)[n - 1] == names[n - 1]);
            }
        }
        assert forall|i: int| 0 <= i < n implies #[trigger] params_map(names, vals, n)[names[i]] == vals[i] by {
            if i < n - 1 {
                assert(names[i] != names[n - 1]);
            }
        }
    } else {
        assert(names.subrange(0, 0) =~= Seq::<Seq<char>>::empty());
    }
}

/// Extracting the parameters of a path from a text in its language: with
/// distinct names, the map has one entry per name, each name maps to the value
/// its group took, and a parameter's value is a non-empty segment without `/`.
pub proof fn law_extracted_params(path: Seq<char>, url: Seq<char>, caps: Seq<Seq<char>>)
    requires
        param_names(path_tokens(path)).no_duplicates(),
        captures_fit(path_tokens(path), caps),
        fill(path_tokens(path), caps) == url,
    ensures
        ({
            let names = param_names(path_tokens(path));
            let m = params_map(names, caps, names.len() as int);
            &&& m.len() == names.len()
            &&& caps.len() == names.len()
            &&& forall|i: int| 0 <= i < names.len() ==> #[trigger] m[names[i]] == caps[i]
        }),
{
    let ts = path_tokens(path);
    let names = param_names(ts);
    lemma_fit_len(ts, caps);
    lemma_group_count(ts);
    lemma_params_map(names, caps, names.len() as int);
}

/// Round trip: putting back, for each parameter of the path, the value that
/// the extracted map holds for its name rebuilds the text it was extracted from.
pub proof fn law_params_rebuild_url(path: Seq<char>, url: Seq<char>, caps: Seq<Seq<char>>)
    requires
        param_names(path_tokens(path)).no_duplicates(),
        captures_fit(path_tokens(path), caps),
        fill(path_tokens(path), caps) == url,
    ensures
        ({
            let names = param_names(path_tokens(path));
            let m = params_map(names, caps, names.len() as int);
            fill(path_tokens(path), Seq::new(names.len(), |i: int| m[names[i]])) == url
        }),
{
    let ts = path_tokens(path);
    let names = param_names(ts);
    let m = params_map(names, caps, names.len() as int);
    law_extracted_params(path, url, caps);
    assert(Seq::new(names.len(), |i: int| m[names[i]]) =~= caps);
}

/// The exact-match regex of a path compiles.
pub open spec fn path_compiles(path: Seq<char>) -> bool {
    regex_compiles(exact_regex_text(path_tokens(path)))
}

/// Compiles a path pattern into its exact-match regex, `(?s)^...$`, with its
/// parameter names.
pub fn generate_exact_match_regex(path: &str) -> (r: Result<(CompiledRegex, Vec<String>), Error>)
    ensures
        r is Ok <==> path_compiles(path@),
        r matches Ok((re, names)) ==> re@ == exact_regex_text(path_tokens(path@)) && views(names@)
            == param_names(path_tokens(path@)),
        r matches Err(e) ==> e.kind == ErrorKind::BadRoutePattern,
{
    let (common, names) = match generate_common_regex_str(path) {
        Ok(v) => v,
        Err(e) => {
            return Err(Error::with_kind(ErrorKind::BadRoutePattern, e.msg));
        },
    };
    let mut re_text = String::from_str("(?s)^");
    re_text.append(common.as_str());
    re_text.append("$");
    proof {
        assert(re_text@ =~= exact_regex_text(path_tokens(path@)));
    }
    match compile(re_text.as_str()) {
        Ok(re) => {
            proof {
                assert(re@ =~= exact_regex_text(path_tokens(path@)));
            }
            Ok((re, names))
        },
        Err(msg) => Err(Error::with_kind(ErrorKind::BadRoutePattern, msg)),
    }
}

/// Compiles a path pattern into its prefix-match regex, `(?s)^...`, with its
/// parameter names.
pub fn generate_prefix_match_regex(path: &str) -> (r: Result<(CompiledRegex, Vec<String>), Error>)
    ensures
        r is Ok <==> regex_compiles(prefix_regex_text(path_tokens(path@))),
        r matches Ok((re, names)) ==> re@ == prefix_regex_text(path_tokens(path@)) && views(names@)
            == param_names(path_tokens(path@)),
        r matches Err(e) ==> e.kind == ErrorKind::BadRoutePattern,
{
    let (common, names) = match generate_common_regex_str(path) {
        Ok(v) => v,
        Err(e) => {
            return Err(Error::with_kind(ErrorKind::BadRoutePattern, e.msg));
        },
    };
    let mut re_text = String::from_str("(?s)^");
    re_text.append(common.as_str());
    proof {
        assert(re_text@ =~= prefix_regex_text(path_tokens(path@)));
    }
    match compile(re_text.as_str()) {
        Ok(re) => {
            proof {
                assert(re@ =~= prefix_regex_text(path_tokens(path@)));
            }
            Ok((re, names))
        },
        Err(msg) => Err(Error::with_kind(ErrorKind::BadRoutePattern, msg)),
    }
}

/// A path pattern with its exact-match regex and its parameter names.
pub struct PathMatcher {
    pub path: String,
    pub regex: CompiledRegex,
    pub param_names: Vec<String>,
    pub tokens: Ghost<Seq<PathToken>>,
}

impl PathMatcher {
    /// The regex and the names are those of the path's tokens.
    pub open spec fn wf(&self) -> bool {
        &&& self.tokens@ == path_tokens(self.path@)
        &&& self.regex@ == exact_regex_text(self.tokens@)
        &&& views(self.param_names@) == param_names(self.tokens@)
    }

    /// The regex text of the path.
    pub open spec fn regex_text(&self) -> Seq<char> {
        exact_regex_text(path_tokens(self.path@))
    }

    /// Compiles a path into its exact-match regex, `(?s)^...$`.
    pub fn new(path: String) -> (r: Result<PathMatcher, Error>)
        ensures
            r is Ok <==> path_compiles(path@),
            r matches Ok(m) ==> m.wf() && m.path@ == path@,
            r matches Err(e) ==> e.kind == ErrorKind::BadRoutePattern,
    {
        match generate_exact_match_regex(path.as_str()) {
            Ok((re, names)) => {
                let ghost ts = path_tokens(path@);
                Ok(PathMatcher { path, regex: re, param_names: names, tokens: Ghost(ts) })
            },
            Err(e) => Err(e),
        }
    }

    /// The route parameters of a target path: each parameter name with the text
    /// that its group captured. Empty when the path does not match.
    pub fn route_params_for(&self, target_path: &str) -> (r: RouteParams)
        requires
            self.wf(),
        ensures
            !matches_path(self.tokens@, target_path@) ==> r@ == Map::<
                Seq<char>,
                Seq<char>,
            >::empty(),
            matches_path(self.tokens@, target_path@) ==> exists|caps: Seq<Seq<char>>|
                captures_fit(self.tokens@, caps) && #[trigger] fill(self.tokens@, caps)
                    == target_path@ && r@ == params_map(
                    param_names(self.tokens@),
                    caps,
                    param_names(self.tokens@).len() as int,
                ),
    {
        let n = self.param_names.len();
        let mut params = RouteParams::with_capacity(n);
        let ghost ts = self.tokens@;
        let ghost names = param_names(ts);
        if n == 0 {
            proof {
                if matches_path(ts, target_path@) {
                    let caps = choose|caps: Seq<Seq<char>>|
                        captures_fit(ts, caps) && #[trigger] fill(ts, caps) == target_path@;
                    assert(params@ =~= params_map(names, caps, 0));
                }
            }
            return params;
        }
        match captures(&self.regex, target_path) {
            Some(groups) => {
                let ghost caps = group_texts(groups@);
                proof {
                    lemma_group_count(ts);
                    assert(groups@.len() == n + 1);
                }
                let mut j: usize = 0;
                while j < n
                    invariant
                        j <= n,
                        n == self.param_names@.len(),
                        groups@.len() == n + 1,
                        forall|k: int| 0 <= k < groups@.len() ==> groups@[k] is Some,
                        caps == group_texts(groups@),
                        views(self.param_names@) == names,
                        params@ == params_map(names, caps, j as int),
                    decreases n - j,
                {
                    match &groups[j + 1] {
                        Some(v) => {
                            proof {
                                assert(names[j as int] == self.param_names@[j as int]@);
                                assert(caps[j as int] == v@);
                            }
                            params.set(self.param_names[j].as_str(), v.as_str());
                        },
                        None => {},
                    }
                    j = j + 1;
                }
                params
            },
            None => params,
        }
    }
}

/// A route: a path, the methods it answers, its handler and its scope depth.
pub struct Route<H> {
    pub matcher: PathMatcher,
    pub handler: Option<H>,
    pub methods: Vec<Method>,
    pub scope_depth: u32,
}

impl<H> Route<H> {
    pub open spec fn wf(&self) -> bool {
        self.matcher.wf() && self.scope_depth >= 1 && self.methods@.len() > 0
    }

    /// Creates a route; its method list must not be empty.
    pub fn new(path: String, methods: Vec<Method>, handler: H, scope_depth: u32) -> (r: Result<
        Route<H>,
        Error,
    >)
        requires
            scope_depth >= 1,
        ensures
            r matches Ok(route) ==> route.wf() && route.matcher.path@ == path@ && route.methods@
                == methods@ && route.handler == Some(handler) && route.scope_depth
                == scope_depth,
            r matches Err(e) ==> e.kind == ErrorKind::BadRoutePattern,
            r is Ok <==> methods@.len() > 0 && path_compiles(path@),
    {
        if methods.len() == 0 {
            return Err(
                Error::with_kind(
                    ErrorKind::BadRoutePattern,
                    String::from_str("a route needs at least one method"),
                ),
            );
        }
        match PathMatcher::new(path) {
            Ok(matcher) => Ok(Route { matcher, handler: Some(handler), methods, scope_depth }),
            Err(e) => Err(e),
        }
    }

    /// Whether the route answers a method.
    pub fn is_match_method(&self, method: Method) -> (r: bool)
        ensures
            r == self.methods@.contains(method),
    {
        contains_method(&self.methods, method)
    }
}

/// A middleware that runs before the route and may transform the request.
pub struct PreMiddleware<H> {
    pub matcher: PathMatcher,
    pub handler: Option<H>,
    pub scope_depth: u32,
}

impl<H> PreMiddleware<H> {
    pub open spec fn wf(&self) -> bool {
        self.matcher.wf() && self.scope_depth >= 1
    }

    /// Creates a pre-middleware at a path.
    pub fn new(path: String, handler: H, scope_depth: u32) -> (r: Result<PreMiddleware<H>, Error>)
        requires
            scope_depth >= 1,
        ensures
            r is Ok <==> path_compiles(path@),
            r matches Ok(m) ==> m.wf() && m.matcher.path@ == path@ && m.handler == Some(handler)
                && m.scope_depth == scope_depth,
            r matches Err(e) ==> e.kind == ErrorKind::BadRoutePattern,
    {
        match PathMatcher::new(path) {
            Ok(matcher) => Ok(PreMiddleware { matcher, handler: Some(handler), scope_depth }),
            Err(e) => Err(e),
        }
    }
}

/// A middleware that runs after the route and may transform the response;
/// `with_info` tells whether its handler also takes the request info.
pub struct PostMiddleware<H> {
    pub matcher: PathMatcher,
    pub handler: Option<H>,
    pub with_info: bool,
    pub scope_depth: u32,
}

impl<H> PostMiddleware<H> {
    pub open spec fn wf(&self) -> bool {
        self.matcher.wf() && self.scope_depth >= 1
    }

    /// Creates a post-middleware at a path.
    pub fn new(path: String, handler: H, with_info: bool, scope_depth: u32) -> (r: Result<
        PostMiddleware<H>,
        Error,
    >)
        requires
            scope_depth >= 1,
        ensures
            r is Ok <==> path_compiles(path@),
            r matches Ok(m) ==> m.wf() && m.matcher.path@ == path@ && m.handler == Some(handler)
                && m.with_info == with_info && m.scope_depth == scope_depth,
            r matches Err(e) ==> e.kind == ErrorKind::BadRoutePattern,
    {
        match PathMatcher::new(path) {
            Ok(matcher) => Ok(
                PostMiddleware { matcher, handler: Some(handler), with_info, scope_depth },
            ),
            Err(e) => Err(e),
        }
    }

    /// Whether the handler needs the request info.
    pub fn should_require_req_meta(&self) -> (r: bool)
        ensures
            r == (self.handler is Some && self.with_info),
    {
        self.handler.is_some() && self.with_info
    }
}

/// A typed data map shared with every request whose path matches.
pub struct ScopedDataMap<D> {
    pub matcher: PathMatcher,
    pub data_map: Option<D>,
}

impl<D> ScopedDataMap<D> {
    pub open spec fn wf(&self) -> bool {
        self.matcher.wf()
    }

    /// Creates a scoped data map at a path.
    pub fn new(path: String, data_map: D) -> (r: Result<ScopedDataMap<D>, Error>)
        ensures
            r is Ok <==> path_compiles(path@),
            r matches Ok(m) ==> m.wf() && m.matcher.path@ == path@ && m.data_map == Some(data_map),
            r matches Err(e) ==> e.kind == ErrorKind::BadRoutePattern,
    {
        match PathMatcher::new(path) {
            Ok(matcher) => Ok(ScopedDataMap { matcher, data_map: Some(data_map) }),
            Err(e) => Err(e),
        }
    }
}

} // verus!
