use routerify::dispatch::{ensure_trailing_slash, percent_decode_request_path, target_path};
use routerify::ErrorKind;

#[test]
fn test_percent_decode_request_path() {
    let val = "/Alice%20John/do something";
    assert_eq!(
        percent_decode_request_path(val).unwrap(),
        "/Alice John/do something".to_owned()
    );

    let val = "Alice%20John";
    assert_eq!(percent_decode_request_path(val).unwrap(), "Alice John".to_owned());

    let val = "Go<>crazy";
    assert_eq!(percent_decode_request_path(val).unwrap(), "Go<>crazy".to_owned());

    let val = "go%crazy";
    assert_eq!(percent_decode_request_path(val).unwrap(), "go%crazy".to_owned());
}

#[test]
fn invalid_utf8_after_decoding_is_a_bad_request_path() {
    let e = percent_decode_request_path("/a%FF").unwrap_err();
    assert_eq!(e.kind, ErrorKind::BadRequestPath);
    let e = target_path("/%C3%28").unwrap_err();
    assert_eq!(e.kind, ErrorKind::BadRequestPath);
}

#[test]
fn trailing_slash_is_added_once() {
    assert_eq!(ensure_trailing_slash(String::new()), "/");
    assert_eq!(ensure_trailing_slash("/a".to_string()), "/a/");
    assert_eq!(ensure_trailing_slash("/a/".to_string()), "/a/");
}

#[test]
fn target_path_is_the_same_with_or_without_trailing_slash() {
    assert_eq!(target_path("/api/users").unwrap(), target_path("/api/users/").unwrap());
    assert_eq!(target_path("/api/users").unwrap(), "/api/users/");
    assert_eq!(target_path("/a%2Fb").unwrap(), "/a/b/");
    assert_eq!(target_path("").unwrap(), "/");
}

#[test]
fn decoded_trailing_slash_is_not_doubled_only_when_absent() {
    assert_eq!(target_path("/a%2F").unwrap(), "/a/");
    assert_eq!(target_path("/a%2F/").unwrap(), "/a//");
    assert_eq!(target_path("/a%4").unwrap(), target_path("/a%4/").unwrap());
}
