use routerify::{PathParams, RouteParams};

#[test]
fn route_params_set_get_has_len() {
    let mut p = RouteParams::new();
    assert_eq!(p.len(), 0);
    assert!(!p.has("id"));
    p.set("id", "40");
    p.set("name", "alice");
    assert_eq!(p.len(), 2);
    assert_eq!(p.get("id"), Some(&"40".to_string()));
    assert!(p.has("name"));
    assert_eq!(p.get("missing"), None);
}

#[test]
fn route_params_set_overwrites() {
    let mut p = RouteParams::with_capacity(4);
    p.set("*", "a");
    p.set("*", "b");
    assert_eq!(p.len(), 1);
    assert_eq!(p.get("*"), Some(&"b".to_string()));
}

#[test]
fn route_params_extend_prefers_other() {
    let mut a = RouteParams::new();
    a.set("x", "1");
    a.set("y", "2");
    let mut b = RouteParams::new();
    b.set("y", "3");
    b.set("z", "4");
    a.extend(b);
    assert_eq!(a.len(), 3);
    assert_eq!(a.get("x"), Some(&"1".to_string()));
    assert_eq!(a.get("y"), Some(&"3".to_string()));
    assert_eq!(a.get("z"), Some(&"4".to_string()));
}

#[test]
fn route_params_names_and_entries() {
    let mut p = RouteParams::new();
    p.set("first", "40");
    p.set("second", "2");
    let mut names = p.params_names();
    names.sort();
    assert_eq!(names, vec!["first".to_string(), "second".to_string()]);
    let mut entries = p.iter();
    entries.sort();
    assert_eq!(
        entries,
        vec![("first".to_string(), "40".to_string()), ("second".to_string(), "2".to_string())]
    );
    let q = p.clone();
    assert_eq!(q.get("first"), Some(&"40".to_string()));
}

#[test]
fn path_params_behave_like_route_params() {
    let mut p = PathParams::new();
    p.set("a", "1");
    let mut q = PathParams::with_capacity(1);
    q.set("a", "2");
    q.set("b", "3");
    p.extend(q);
    assert_eq!(p.len(), 2);
    assert_eq!(p.get(&"a".to_string()), Some(&"2".to_string()));
    assert!(p.has(&"b".to_string()));
    assert!(!p.has(&"c".to_string()));
    assert_eq!(p.params_names().len(), 2);
    assert_eq!(p.iter().len(), 2);
    assert_eq!(p.clone().len(), 2);
}
