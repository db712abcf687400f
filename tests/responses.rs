use routerify::responses::{default_404_response, default_error_response, default_options_response};

#[test]
fn default_options_is_204_and_empty() {
    let r = default_options_response();
    assert_eq!(r.status, 204);
    assert_eq!(r.content_type, None);
    assert_eq!(r.body, "");
}

#[test]
fn default_404_is_plain_not_found() {
    let r = default_404_response();
    assert_eq!(r.status, 404);
    assert_eq!(r.content_type.as_deref(), Some("text/plain"));
    assert_eq!(r.body, "Not Found");
}

#[test]
fn default_error_names_the_error() {
    let r = default_error_response("bogus error");
    assert_eq!(r.status, 500);
    assert_eq!(r.content_type.as_deref(), Some("text/plain"));
    assert_eq!(r.body, "Internal Server Error: bogus error");
}
