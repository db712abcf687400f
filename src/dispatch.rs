//! The per-request decisions of the dispatch engine: path normalization,
//! splitting the hits of the combined pattern set into the four participant
//! classes, depth gating, and the order in which the pipeline runs.
use vstd::prelude::*;
use crate::error::{Error, ErrorKind};

verus! {

broadcast use vstd::string::group_string_axioms;

/// What percent-decoding a text gives: `None` when the decoded bytes are not UTF-8.
pub uninterp spec fn percent_decoded(s: Seq<char>) -> Option<Seq<char>>;

/// Relies on percent_encoding::percent_decode_str followed by PercentDecode::decode_utf8:
/// the decoded text, or `None` when the decoded bytes are not UTF-8. Decoding
/// goes byte by byte and only `%` with two hex digits is decoded, so a `/`
/// appended to the input is appended to the output; an appended ASCII byte
/// leaves UTF-8 validity as it was.
#[verifier::external_body]
fn decode_percent(s: &str) -> (r: Option<String>)
    ensures
        r is Some <==> percent_decoded(s@) is Some,
        r matches Some(v) ==> percent_decoded(s@) == Some(v@),
        r matches Some(v) ==> percent_decoded(s@.push('/')) == Some(v@.push('/')),
        r is None ==> percent_decoded(s@.push('/')) is None,
{
    percent_encoding::percent_decode_str(s).decode_utf8().ok().map(|c| c.to_string())
}

/// Percent-decodes a request path.
pub fn percent_decode_request_path(val: &str) -> (r: Result<String, Error>)
    ensures
        r is Ok <==> percent_decoded(val@) is Some,
        r matches Ok(v) ==> percent_decoded(val@.push('/')) == Some(v@.push('/')),
        r is Err ==> percent_decoded(val@.push('/')) is None,
        r matches Ok(v) ==> percent_decoded(val@) == Some(v@),
        r matches Err(e) ==> e.kind == ErrorKind::BadRequestPath,
{
    match decode_percent(val) {
        Some(v) => Ok(v),
        None => Err(
            Error::with_kind(
                ErrorKind::BadRequestPath,
                String::from_str("the request path is not valid UTF-8 once percent-decoded"),
            ),
        ),
    }
}

/// A path with a `/` appended unless it already ends in one.
pub open spec fn with_trailing_slash(p: Seq<char>) -> Seq<char> {
    if p.len() > 0 && p.last() == '/' {
        p
    } else {
        p.push('/')
    }
}

/// A decoded path without a trailing `/`, and the same path with one, give
/// the same target path, so every lookup on it is the same.
pub proof fn law_trailing_slash_insensitive(p: Seq<char>)
    requires
        p.len() == 0 || p.last() != '/',
    ensures
        with_trailing_slash(p) == with_trailing_slash(p.push('/')),
{
    assert(p.push('/').last() == '/');
}

/// Appends `/` to a decoded path that is empty or does not end in `/`.
pub fn ensure_trailing_slash(path: String) -> (r: String)
    ensures
        r@ == with_trailing_slash(path@),
{
    let n = path.as_str().unicode_len();
    if n > 0 && path.as_str().get_char(n - 1) == '/' {
        path
    } else {
        let mut p = path;
        p.append("/");
        proof {
            reveal_strlit("/");
        }
        p
    }
}

/// The target path that matching uses: the request path percent-decoded,
/// with a trailing `/`. A path whose decoding does not end in `/` gives the
/// same target as that path with a `/` appended, and both fail together.
pub fn target_path(raw: &str) -> (r: Result<String, Error>)
    ensures
        (r is Ok) == (percent_decoded(raw@.push('/')) is Some),
        r matches Ok(v) ==> {
            let d = percent_decoded(raw@)->Some_0;
            (d.len() == 0 || d.last() != '/') ==> with_trailing_slash(
                percent_decoded(raw@.push('/'))->Some_0,
            ) == v@
        },
        r is Ok <==> percent_decoded(raw@) is Some,
        r matches Ok(v) ==> v@ == with_trailing_slash(percent_decoded(raw@)->Some_0),
        r matches Err(e) ==> e.kind == ErrorKind::BadRequestPath,
{
    match percent_decode_request_path(raw) {
        Ok(v) => {
            proof {
                assert(v@.push('/').last() == '/');
            }
            Ok(ensure_trailing_slash(v))
        },
        Err(e) => Err(e),
    }
}

/// The hits in `[lo, hi)`, in their order, shifted down by `lo`.
pub open spec fn select_range(hits: Seq<usize>, lo: int, hi: int) -> Seq<usize>
    decreases hits.len(),
{
    if hits.len() == 0 {
        Seq::empty()
    } else {
        let rest = select_range(hits.drop_last(), lo, hi);
        if lo <= hits.last() < hi {
            rest.push((hits.last() - lo) as usize)
        } else {
            rest
        }
    }
}

/// The hits of the combined pattern set, split by participant class.
pub struct MatchedIndices {
    pub pre: Vec<usize>,
    pub routes: Vec<usize>,
    pub post: Vec<usize>,
    pub data: Vec<usize>,
}

/// Splits the hit indices of the combined set, whose patterns are those of the
/// pre-middlewares, routes, post-middlewares and data maps in that order, into
/// four index lists local to each class. Each list keeps the order of `hits`.
pub fn partition_matches(
    hits: &Vec<usize>,
    pre_len: usize,
    routes_len: usize,
    post_len: usize,
    data_len: usize,
) -> (r: MatchedIndices)
    requires
        pre_len + routes_len + post_len + data_len <= usize::MAX,
    ensures
        r.pre@ == select_range(hits@, 0, pre_len as int),
        r.routes@ == select_range(hits@, pre_len as int, pre_len + routes_len),
        r.post@ == select_range(hits@, pre_len + routes_len, pre_len + routes_len + post_len),
        r.data@ == select_range(
            hits@,
            pre_len + routes_len + post_len,
            pre_len + routes_len + post_len + data_len,
        ),
{
    let a = pre_len;
    let b = pre_len + routes_len;
    let c = b + post_len;
    let d = c + data_len;
    let mut pre: Vec<usize> = Vec::new();
    let mut routes: Vec<usize> = Vec::new();
    let mut post: Vec<usize> = Vec::new();
    let mut data: Vec<usize> = Vec::new();
    let mut i: usize = 0;
    while i < hits.len()
        invariant
            i <= hits@.len(),
            a == pre_len,
            b == pre_len + routes_len,
            c == b + post_len,
            d == c + data_len,
            pre@ == select_range(hits@.subrange(0, i as int), 0, a as int),
            routes@ == select_range(hits@.subrange(0, i as int), a as int, b as int),
            post@ == select_range(hits@.subrange(0, i as int), b as int, c as int),
            data@ == select_range(hits@.subrange(0, i as int), c as int, d as int),
        decreases hits@.len() - i,
    {
        let idx = hits[i];
        proof {
            assert(hits@.subrange(0, i + 1).drop_last() =~= hits@.subrange(0, i as int));
            assert(hits@.subrange(0, i + 1).last() == idx);
        }
        if idx < a {
            pre.push(idx);
        } else if idx < b {
            routes.push(idx - a);
        } else if idx < c {
            post.push(idx - b);
        } else if idx < d {
            data.push(idx - c);
        }
        i = i + 1;
    }
    proof {
        assert(hits@.subrange(0, i as int) =~= hits@);
    }
    MatchedIndices { pre, routes, post, data }
}

/// Whether a middleware of depth `depth` runs when the chosen route has depth `chosen`.
pub open spec fn depth_allows(depth: u32, chosen: Option<u32>) -> bool {
    match chosen {
        None => true,
        Some(c) => depth <= c,
    }
}

/// Depth gating: with no genuine route chosen every matched middleware runs;
/// otherwise only those no deeper than the chosen route.
pub fn should_run_middleware(depth: u32, chosen: Option<u32>) -> (r: bool)
    ensures
        r == depth_allows(depth, chosen),
{
    match chosen {
        None => true,
        Some(c) => depth <= c,
    }
}

/// What the pipeline will run for one request: the gated pre-middlewares,
/// the chosen route and the gated post-middlewares, as indices of the router's lists.
pub struct Plan {
    pub pre: Vec<usize>,
    pub route: Option<usize>,
    pub post: Vec<usize>,
    pub has_err_handler: bool,
}

/// Where the pipeline stands.
#[derive(Clone, Copy, Debug, PartialEq, Eq, Structural)]
pub enum Stage {
    /// Running the pre-middleware at this position of the plan.
    Pre(usize),
    /// Running the chosen route.
    Route,
    /// Running the post-middleware at this position of the plan.
    Post(usize),
    /// Running the error handler; afterwards the post phase resumes at this position.
    Recover(usize),
    /// The response is ready.
    Finished,
    /// The request failed with this kind of error.
    Aborted(ErrorKind),
}

/// What the pipeline asks its runner to do next.
#[derive(Clone, Copy, Debug, PartialEq, Eq, Structural)]
pub enum Action {
    /// Run the pre-middleware with this index on the current request.
    RunPre(usize),
    /// Run the route with this index on the current request.
    RunRoute(usize),
    /// Run the post-middleware with this index on the current response.
    RunPost(usize),
    /// Turn the last failure into a response with the error handler.
    HandleError,
    /// Send the current response.
    Respond,
    /// Give up on the request with this kind of error.
    Abort(ErrorKind),
}

/// The outcome of the last action that the runner performed.
#[derive(Clone, Copy, Debug, PartialEq, Eq, Structural)]
pub enum Outcome {
    Succeeded,
    Failed,
}

/// The step that enters the post phase at position `k`.
pub open spec fn post_step(plan_post: Seq<usize>, k: int) -> (Stage, Action) {
    if 0 <= k < plan_post.len() {
        (Stage::Post(k as usize), Action::RunPost(plan_post[k]))
    } else {
        (Stage::Finished, Action::Respond)
    }
}

/// The step that enters the route phase.
pub open spec fn route_step(route: Option<usize>) -> (Stage, Action) {
    match route {
        Some(r) => (Stage::Route, Action::RunRoute(r)),
        None => (Stage::Aborted(ErrorKind::NoRouteMatched), Action::Abort(ErrorKind::NoRouteMatched)),
    }
}

/// The step after a failure whose recovery resumes the post phase at `k`.
pub open spec fn failure_step(has_err_handler: bool, k: int) -> (Stage, Action) {
    if has_err_handler {
        (Stage::Recover(k as usize), Action::HandleError)
    } else {
        (Stage::Aborted(ErrorKind::HandlerError), Action::Abort(ErrorKind::HandlerError))
    }
}

fn post_step_exec(plan: &Plan, k: usize) -> (r: (Stage, Action))
    ensures
        r == post_step(plan.post@, k as int),
{
    if k < plan.post.len() {
        (Stage::Post(k), Action::RunPost(plan.post[k]))
    } else {
        (Stage::Finished, Action::Respond)
    }
}

fn route_step_exec(plan: &Plan) -> (r: (Stage, Action))
    ensures
        r == route_step(plan.route),
{
    match plan.route {
        Some(r) => (Stage::Route, Action::RunRoute(r)),
        None => (Stage::Aborted(ErrorKind::NoRouteMatched), Action::Abort(ErrorKind::NoRouteMatched)),
    }
}

fn failure_step_exec(plan: &Plan, k: usize) -> (r: (Stage, Action))
    ensures
        r == failure_step(plan.has_err_handler, k as int),
{
    if plan.has_err_handler {
        (Stage::Recover(k), Action::HandleError)
    } else {
        (Stage::Aborted(ErrorKind::HandlerError), Action::Abort(ErrorKind::HandlerError))
    }
}

impl Plan {
    /// The first step of the pipeline: the first pre-middleware, else the route.
    pub fn start(&self) -> (r: (Stage, Action))
        ensures
            self.pre@.len() > 0 ==> r == (Stage::Pre(0), Action::RunPre(self.pre@[0])),
            self.pre@.len() == 0 ==> r == route_step(self.route),
    {
        if self.pre.len() > 0 {
            (Stage::Pre(0), Action::RunPre(self.pre[0]))
        } else {
            route_step_exec(self)
        }
    }

    /// The next step, given where the pipeline stands and how the last action went.
    /// The stage is one that `start` or `advance` returned for this plan.
    ///
    /// A failed pre-middleware skips the route; a failure anywhere goes to the
    /// error handler when there is one, after which the post phase goes on with
    /// the next post-middleware, and aborts the request when there is none.
    pub fn advance(&self, stage: Stage, outcome: Outcome) -> (r: (Stage, Action))
        ensures
            stage matches Stage::Pre(i) ==> (outcome == Outcome::Succeeded ==> r == (if i + 1
                < self.pre@.len() {
                (Stage::Pre((i + 1) as usize), Action::RunPre(self.pre@[i + 1]))
            } else {
                route_step(self.route)
            })) && (outcome == Outcome::Failed ==> r == failure_step(self.has_err_handler, 0)),
            stage == Stage::Route ==> (outcome == Outcome::Succeeded ==> r == post_step(
                self.post@,
                0,
            )) && (outcome == Outcome::Failed ==> r == failure_step(self.has_err_handler, 0)),
            stage matches Stage::Post(k) ==> k < self.post@.len() ==> (outcome == Outcome::Succeeded ==> r == post_step(
                self.post@,
                k + 1,
            )) && (outcome == Outcome::Failed ==> r == failure_step(
                self.has_err_handler,
                k + 1,
            )),
            stage matches Stage::Recover(k) ==> r == post_step(self.post@, k as int),
            stage == Stage::Finished ==> r == (Stage::Finished, Action::Respond),
            stage matches Stage::Aborted(e) ==> r == (stage, Action::Abort(e)),
    {
        match stage {
            Stage::Pre(i) => {
                match outcome {
                    Outcome::Succeeded => {
                        if i < self.pre.len() && i + 1 < self.pre.len() {
                            (Stage::Pre(i + 1), Action::RunPre(self.pre[i + 1]))
                        } else {
                            route_step_exec(self)
                        }
                    },
                    Outcome::Failed => failure_step_exec(self, 0),
                }
            },
            Stage::Route => {
                match outcome {
                    Outcome::Succeeded => post_step_exec(self, 0),
                    Outcome::Failed => failure_step_exec(self, 0),
                }
            },
            Stage::Post(k) => {
                if k >= self.post.len() {
                    (Stage::Finished, Action::Respond)
                } else {
                    match outcome {
                        Outcome::Succeeded => post_step_exec(self, k + 1),
                        Outcome::Failed => failure_step_exec(self, k + 1),
                    }
                }
            },
            Stage::Recover(k) => post_step_exec(self, k),
            Stage::Finished => (Stage::Finished, Action::Respond),
            Stage::Aborted(e) => (stage, Action::Abort(e)),
        }
    }
}

} // verus!
