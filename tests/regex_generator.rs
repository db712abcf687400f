use routerify::pattern::generate_common_regex_str;
use routerify::route::{generate_exact_match_regex, generate_prefix_match_regex};

fn names(v: &[&str]) -> Vec<String> {
    v.iter().map(|s| s.to_string()).collect()
}

#[test]
fn test_generate_common_regex_str_normal() {
    let path = "/";
    let r = generate_common_regex_str(path).unwrap();
    assert_eq!(r, (r"/".to_owned(), Vec::<String>::new()));

    let path = "/api/v1/services/get_ip";
    let r = generate_common_regex_str(path).unwrap();
    assert_eq!(r, (r"/api/v1/services/get_ip".to_owned(), Vec::<String>::new()))
}

#[test]
fn test_generate_common_regex_str_special_character() {
    let path = "/users/user-data/view";
    let r = generate_common_regex_str(path).unwrap();
    assert_eq!(r, (r"/users/user\-data/view".to_owned(), Vec::<String>::new()))
}

#[test]
fn test_generate_common_regex_str_params() {
    let path = "/users/:username/data";
    let r = generate_common_regex_str(path).unwrap();
    assert_eq!(r, (r"/users/([^/]+)/data".to_owned(), vec!["username".to_owned()]));

    let path = "/users/:username/data/:attr/view";
    let r = generate_common_regex_str(path).unwrap();
    assert_eq!(
        r,
        (
            r"/users/([^/]+)/data/([^/]+)/view".to_owned(),
            vec!["username".to_owned(), "attr".to_owned()]
        )
    );

    let path = "/users/:username";
    let r = generate_common_regex_str(path).unwrap();
    assert_eq!(r, (r"/users/([^/]+)".to_owned(), vec!["username".to_owned()]));

    let path = ":username";
    let r = generate_common_regex_str(path).unwrap();
    assert_eq!(r, (r"([^/]+)".to_owned(), vec!["username".to_owned()]));
}

// A glob compiles to `(.*)`, which also matches an empty rest.
#[test]
fn test_generate_common_regex_str_star_globe() {
    let path = "*";
    let r = generate_common_regex_str(path).unwrap();
    assert_eq!(r, (r"(.*)".to_owned(), vec!["*".to_owned()]));

    let path = "/users/*";
    let r = generate_common_regex_str(path).unwrap();
    assert_eq!(r, (r"/users/(.*)".to_owned(), vec!["*".to_owned()]));

    let path = "/users/*/data";
    let r = generate_common_regex_str(path).unwrap();
    assert_eq!(r, (r"/users/(.*)/data".to_owned(), vec!["*".to_owned()]));

    let path = "/users/*/data/*";
    let r = generate_common_regex_str(path).unwrap();
    assert_eq!(
        r,
        (
            r"/users/(.*)/data/(.*)".to_owned(),
            vec!["*".to_owned(), "*".to_owned()]
        )
    );

    let path = "/users/**";
    let r = generate_common_regex_str(path).unwrap();
    assert_eq!(r, (r"/users/(.*)(.*)".to_owned(), vec!["*".to_owned(), "*".to_owned()]));
}

#[test]
fn escapes_every_meta_character() {
    let r = generate_common_regex_str("/a.b+c?(d)|[e]{f}^$#&~\\").unwrap();
    assert_eq!(r.0, r"/a\.b\+c\?\(d\)\|\[e\]\{f\}\^\$\#\&\~\\");
    assert!(r.1.is_empty());
}

#[test]
fn lone_colon_and_colon_before_slash_are_literal() {
    let r = generate_common_regex_str("/a:/b:").unwrap();
    assert_eq!(r, ("/a:/b:".to_owned(), names(&[])));
}

#[test]
fn parameter_name_runs_to_the_next_slash() {
    let r = generate_common_regex_str("/api/:id.json/x:y*z").unwrap();
    assert_eq!(r, (r"/api/([^/]+)/x([^/]+)".to_owned(), names(&["id.json", "y*z"])));
}

#[test]
fn empty_pattern_gives_empty_regex() {
    let r = generate_common_regex_str("").unwrap();
    assert_eq!(r, (String::new(), names(&[])));
}

#[test]
fn exact_and_prefix_regexes_are_anchored() {
    let (re, names) = generate_exact_match_regex("/users/:id/*").unwrap();
    assert_eq!(re.as_str(), r"(?s)^/users/([^/]+)/(.*)$");
    assert_eq!(names, vec!["id".to_string(), "*".to_string()]);
    let (re, names) = generate_prefix_match_regex("/users/:id").unwrap();
    assert_eq!(re.as_str(), r"(?s)^/users/([^/]+)");
    assert_eq!(names, vec!["id".to_string()]);
}
