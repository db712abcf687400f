use routerify::dispatch::{partition_matches, should_run_middleware};
use routerify::{Action, Dispatch, ErrorKind, Method, Middleware, Outcome, Plan, Router, RouterBuilder, Stage};

type Builder = RouterBuilder<&'static str, u32>;
type R = Router<&'static str, u32>;

fn builder() -> Builder {
    Router::builder()
}

fn root(b: Builder) -> R {
    let mut r = b.build().unwrap();
    r.finalize("options", "not_found", "error").unwrap();
    r
}

fn go(r: &R, path: &str, m: Method) -> Dispatch {
    r.dispatch(path, m).unwrap()
}

fn route_label(r: &R, d: &Dispatch) -> &'static str {
    r.routes[d.plan.route.unwrap()].handler.unwrap()
}

fn pre_labels(r: &R, d: &Dispatch) -> Vec<&'static str> {
    d.plan.pre.iter().map(|i| r.pre_middlewares[*i].handler.unwrap()).collect()
}

fn post_labels(r: &R, d: &Dispatch) -> Vec<&'static str> {
    d.plan.post.iter().map(|i| r.post_middlewares[*i].handler.unwrap()).collect()
}

fn data_values(r: &R, d: &Dispatch) -> Vec<u32> {
    d.matched.data.iter().map(|i| r.scoped_data_maps[*i].data_map.unwrap()).collect()
}

/// Runs the pipeline of a plan with the given outcomes and returns the actions.
fn run(plan: &Plan, outcomes: &[Outcome]) -> Vec<Action> {
    let (mut stage, mut action) = plan.start();
    let mut actions = vec![action];
    let mut it = outcomes.iter();
    while !matches!(action, Action::Respond | Action::Abort(_)) {
        let o = *it.next().unwrap_or(&Outcome::Succeeded);
        let (s, a) = plan.advance(stage, o);
        stage = s;
        action = a;
        actions.push(action);
    }
    actions
}

#[test]
fn hello_world_routes() {
    let r = root(builder().get("/".to_string(), "hello"));
    let d = go(&r, "/", Method::Get);
    assert_eq!(route_label(&r, &d), "hello");
    let d = go(&r, "/missing", Method::Get);
    assert_eq!(route_label(&r, &d), "not_found");
    let d = go(&r, "/anything/at/all", Method::Options);
    assert_eq!(route_label(&r, &d), "options");
    let d = go(&r, "/", Method::Options);
    assert_eq!(route_label(&r, &d), "options");
    assert_eq!(r.err_handler.as_ref().unwrap().handler, "error");
    assert_eq!(r.should_gen_req_info, Some(false));
}

#[test]
fn path_params_are_extracted() {
    let r = root(builder().get("/api/:first/plus/:second".to_string(), "sum"));
    let d = go(&r, "/api/40/plus/2", Method::Get);
    assert_eq!(d.target_path, "/api/40/plus/2/");
    assert_eq!(route_label(&r, &d), "sum");
    let p = r.route_params(d.plan.route.unwrap(), &d.target_path);
    assert_eq!(p.len(), 2);
    assert_eq!(p.get("first"), Some(&"40".to_string()));
    assert_eq!(p.get("second"), Some(&"2".to_string()));
    let d = go(&r, "/api/40", Method::Get);
    assert_eq!(route_label(&r, &d), "not_found");
}

#[test]
fn file_name_parameter_keeps_its_extension() {
    let r = root(builder().get("/api/:fileName".to_string(), "file"));
    let d = go(&r, "/api/data.json", Method::Get);
    assert_eq!(route_label(&r, &d), "file");
    let p = r.route_params(d.plan.route.unwrap(), &d.target_path);
    assert_eq!(p.get("fileName"), Some(&"data.json".to_string()));
}

#[test]
fn glob_parameters_and_double_glob() {
    let r = root(builder().get("/files/*".to_string(), "files").get("/two/**".to_string(), "two"));
    let d = go(&r, "/files/a/b/c", Method::Get);
    assert_eq!(route_label(&r, &d), "files");
    let p = r.route_params(d.plan.route.unwrap(), &d.target_path);
    assert_eq!(p.get("*"), Some(&"a/b/c/".to_string()));
    let d = go(&r, "/two/xy", Method::Get);
    assert_eq!(route_label(&r, &d), "two");
    let p = r.route_params(d.plan.route.unwrap(), &d.target_path);
    assert_eq!(p.len(), 1);
    assert!(p.has("*"));
}

#[test]
fn scoped_data_does_not_leak() {
    let s1: R = builder().with_root_data_map(1).get("/".to_string(), "list1").build().unwrap();
    let s2: R = builder().with_root_data_map(2).get("/".to_string(), "list2").build().unwrap();
    let v1: R = builder()
        .scope("/service1".to_string(), s1)
        .scope("/service2".to_string(), s2)
        .build()
        .unwrap();
    let r = root(builder().scope("/v1".to_string(), v1));
    let d = go(&r, "/v1/service1", Method::Get);
    assert_eq!(route_label(&r, &d), "list1");
    assert_eq!(data_values(&r, &d), vec![1]);
    let d = go(&r, "/v1/service2", Method::Get);
    assert_eq!(route_label(&r, &d), "list2");
    assert_eq!(data_values(&r, &d), vec![2]);
    assert_eq!(r.routes[0].scope_depth, 3);
    assert_eq!(r.routes[0].matcher.path, "/v1/service1/");
    assert_eq!(r.scoped_data_maps[0].matcher.path, "/v1/service1/*");
}

#[test]
fn data_at_the_same_prefix_shares_one_map() {
    let mut b = builder().with_root_data_map(7);
    let first = b.take_root_data_map();
    assert_eq!(first, Some(7));
    assert_eq!(b.take_root_data_map(), None);
    let b = b.with_root_data_map(8);
    let r = root(b.get("/".to_string(), "x"));
    assert_eq!(r.scoped_data_maps.len(), 1);
    let d = go(&r, "/deep/path", Method::Get);
    assert_eq!(data_values(&r, &d), vec![8]);
}

#[test]
fn context_across_phases_reaches_the_error_handler() {
    let pre = Middleware::pre("before").unwrap();
    let post = Middleware::post_with_info("after").unwrap();
    let r = root(
        builder()
            .middleware(pre)
            .middleware(post)
            .err_handler_with_info("with_info")
            .get("/".to_string(), "index"),
    );
    assert_eq!(r.should_gen_req_info, Some(true));
    let d = go(&r, "/", Method::Get);
    assert_eq!(pre_labels(&r, &d), vec!["before"]);
    assert_eq!(post_labels(&r, &d), vec!["after"]);
    let actions = run(&d.plan, &[Outcome::Succeeded, Outcome::Failed, Outcome::Succeeded, Outcome::Succeeded]);
    assert_eq!(
        actions,
        vec![Action::RunPre(0), Action::RunRoute(0), Action::HandleError, Action::RunPost(0), Action::Respond]
    );
}

#[test]
fn scoped_middleware_skipped_for_parent_route() {
    let api: R = builder()
        .middleware(Middleware::pre("api_pre").unwrap())
        .middleware(Middleware::post("api_post").unwrap())
        .get("/api/todo".to_string(), "todo")
        .build()
        .unwrap();
    let r = root(
        builder()
            .get("/".to_string(), "home")
            .scope("/api".to_string(), api)
            .get("/api/login".to_string(), "login"),
    );
    let d = go(&r, "/api/login", Method::Get);
    assert_eq!(route_label(&r, &d), "login");
    assert!(d.plan.pre.is_empty());
    assert!(d.plan.post.is_empty());
    assert_eq!(d.matched.pre, vec![0]);
    let d = go(&r, "/api/nomatch", Method::Get);
    assert_eq!(route_label(&r, &d), "not_found");
    assert_eq!(pre_labels(&r, &d), vec!["api_pre"]);
    assert_eq!(post_labels(&r, &d), vec!["api_post"]);
    let d = go(&r, "/api/api/todo", Method::Get);
    assert_eq!(route_label(&r, &d), "todo");
    assert_eq!(pre_labels(&r, &d), vec!["api_pre"]);
}

#[test]
fn zero_middlewares_one_route() {
    let r = root(builder().get("/only".to_string(), "only"));
    let d = go(&r, "/only", Method::Get);
    assert!(d.plan.pre.is_empty() && d.plan.post.is_empty());
    let actions = run(&d.plan, &[Outcome::Succeeded]);
    assert_eq!(actions, vec![Action::RunRoute(0), Action::Respond]);
}

#[test]
fn custom_error_goes_to_the_error_handler() {
    let r = root(builder().get("/".to_string(), "fails").err_handler("custom"));
    let d = go(&r, "/", Method::Get);
    assert!(d.plan.has_err_handler);
    assert_eq!(r.err_handler.as_ref().unwrap().handler, "custom");
    let actions = run(&d.plan, &[Outcome::Failed, Outcome::Succeeded]);
    assert_eq!(actions, vec![Action::RunRoute(0), Action::HandleError, Action::Respond]);
    let actions = run(&d.plan, &[Outcome::Succeeded]);
    assert_eq!(actions, vec![Action::RunRoute(0), Action::Respond]);
}

#[test]
fn three_thousand_routes_fire_only_their_own_participants() {
    let mut b = builder();
    for i in 0..3000 {
        let p = format!("/route{}", i);
        b = b
            .middleware(Middleware::pre_with_path(p.clone(), "pre").unwrap())
            .middleware(Middleware::post_with_path(p.clone(), "post").unwrap())
            .get(p, "route");
    }
    let r = root(b);
    let d = go(&r, "/route1234", Method::Get);
    assert_eq!(d.plan.pre, vec![1234]);
    assert_eq!(d.plan.route, Some(1234));
    assert_eq!(d.plan.post, vec![1234]);
    assert_eq!(d.matched.routes, vec![1234, 3000, 3001]);
}

#[test]
fn pre_middleware_failure_skips_the_route() {
    let plan = Plan { pre: vec![0, 1], route: Some(3), post: vec![2], has_err_handler: true };
    let actions = run(&plan, &[Outcome::Failed, Outcome::Succeeded, Outcome::Succeeded]);
    assert_eq!(actions, vec![Action::RunPre(0), Action::HandleError, Action::RunPost(2), Action::Respond]);
}

#[test]
fn failure_without_error_handler_aborts() {
    let plan = Plan { pre: vec![], route: Some(0), post: vec![5], has_err_handler: false };
    let actions = run(&plan, &[Outcome::Failed]);
    assert_eq!(actions, vec![Action::RunRoute(0), Action::Abort(ErrorKind::HandlerError)]);
    assert_eq!(plan.advance(Stage::Aborted(ErrorKind::HandlerError), Outcome::Succeeded).1, Action::Abort(ErrorKind::HandlerError));
}

#[test]
fn post_middleware_failure_continues_after_recovery() {
    let plan = Plan { pre: vec![], route: Some(0), post: vec![0, 1, 2], has_err_handler: true };
    let actions = run(&plan, &[Outcome::Succeeded, Outcome::Succeeded, Outcome::Failed, Outcome::Succeeded, Outcome::Succeeded]);
    assert_eq!(
        actions,
        vec![Action::RunRoute(0), Action::RunPost(0), Action::RunPost(1), Action::HandleError, Action::RunPost(2), Action::Respond]
    );
}

#[test]
fn no_route_is_reported() {
    let mut r: R = builder().get("/a".to_string(), "a").build().unwrap();
    r.init_regex_set().unwrap();
    let d = go(&r, "/b", Method::Get);
    assert_eq!(d.plan.route, None);
    let actions = run(&d.plan, &[]);
    assert_eq!(actions, vec![Action::Abort(ErrorKind::NoRouteMatched)]);
}

#[test]
fn bad_request_path_is_reported() {
    let r = root(builder().get("/".to_string(), "x"));
    let e = r.dispatch("/%FF", Method::Get).err().unwrap();
    assert_eq!(e.kind, ErrorKind::BadRequestPath);
}

#[test]
fn route_without_methods_is_a_bad_pattern() {
    let b = builder().add("/x".to_string(), vec![], "x");
    let e = b.build().err().unwrap();
    assert_eq!(e.kind, ErrorKind::BadRoutePattern);
}

#[test]
fn mounting_a_drained_router_fails() {
    let mut sub: R = builder().get("/x".to_string(), "x").build().unwrap();
    sub.routes[0].handler = None;
    let e = builder().scope("/api/".to_string(), sub).build().err().unwrap();
    assert_eq!(e.kind, ErrorKind::ReusedSubRouter);
}

#[test]
fn registration_appends_a_slash() {
    let r: R = builder()
        .get("/a".to_string(), "a")
        .get("/b/".to_string(), "b")
        .get("/c/*".to_string(), "c")
        .build()
        .unwrap();
    assert_eq!(r.routes[0].matcher.path, "/a/");
    assert_eq!(r.routes[1].matcher.path, "/b/");
    assert_eq!(r.routes[2].matcher.path, "/c/*");
    assert_eq!(r.routes[0].matcher.regex.as_str(), "(?s)^/a/$");
    assert_eq!(r.routes[2].matcher.regex.as_str(), "(?s)^/c/(.*)$");
}

#[test]
fn default_routes_are_not_duplicated() {
    let r = root(builder().options("/*".to_string(), "my_options").any("my_any"));
    assert_eq!(r.routes.len(), 2);
    let d = go(&r, "/x", Method::Options);
    assert_eq!(route_label(&r, &d), "my_options");
    let d = go(&r, "/x", Method::Delete);
    assert_eq!(route_label(&r, &d), "my_any");
}

#[test]
fn route_methods_select_the_route() {
    let r = root(
        builder()
            .post("/x".to_string(), "post")
            .put("/x".to_string(), "put")
            .patch("/x".to_string(), "patch")
            .delete("/x".to_string(), "delete")
            .head("/x".to_string(), "head")
            .trace("/x".to_string(), "trace")
            .connect("/x".to_string(), "connect")
            .get_or_head("/y".to_string(), "get_or_head")
            .any_method("/z".to_string(), "any_method"),
    );
    assert_eq!(route_label(&r, &go(&r, "/x", Method::Put)), "put");
    assert_eq!(route_label(&r, &go(&r, "/x", Method::Trace)), "trace");
    assert_eq!(route_label(&r, &go(&r, "/x", Method::Get)), "not_found");
    assert_eq!(route_label(&r, &go(&r, "/y", Method::Head)), "get_or_head");
    assert_eq!(route_label(&r, &go(&r, "/z", Method::Patch)), "any_method");
    assert_eq!(go(&r, "/z", Method::Other).plan.route, None);
}

#[test]
fn partition_splits_hits_by_class() {
    let hits = vec![0, 2, 3, 5, 6, 9];
    let m = partition_matches(&hits, 3, 2, 2, 3);
    assert_eq!(m.pre, vec![0, 2]);
    assert_eq!(m.routes, vec![0]);
    assert_eq!(m.post, vec![0, 1]);
    assert_eq!(m.data, vec![2]);
}

#[test]
fn depth_gating_rule() {
    assert!(should_run_middleware(5, None));
    assert!(should_run_middleware(1, Some(1)));
    assert!(should_run_middleware(1, Some(2)));
    assert!(!should_run_middleware(2, Some(1)));
}

#[test]
fn exact_regex_matches_own_path_only() {
    let r = root(builder().get("/users/:id/".to_string(), "user"));
    let d = go(&r, "/users/:id/", Method::Get);
    assert_eq!(route_label(&r, &d), "user");
    let d = go(&r, "/users/:id/extra", Method::Get);
    assert_eq!(route_label(&r, &d), "not_found");
}
