//! The responses of the default participants that a root router adds.
use vstd::prelude::*;

verus! {

broadcast use vstd::string::group_string_axioms;

/// The canonical reason phrase of a status code, if it has one.
pub uninterp spec fn reason_phrase(code: u16) -> Option<Seq<char>>;

/// Relies on http::StatusCode::from_u16 and StatusCode::canonical_reason: the
/// reason phrase of the code, from http's table of standard codes.
#[verifier::external_body]
fn canonical_reason(code: u16) -> (r: Option<String>)
    ensures
        r is Some <==> reason_phrase(code) is Some,
        r matches Some(s) ==> reason_phrase(code) == Some(s@),
        r is None ==> code != 204 && code != 404 && code != 500,
        r matches Some(s) ==> (code == 204 ==> s@ == "No Content"@) && (code == 404 ==> s@
            == "Not Found"@) && (code == 500 ==> s@ == "Internal Server Error"@),
{
    http::StatusCode::from_u16(code).ok().and_then(|s| s.canonical_reason()).map(|s| s.to_string())
}

/// A response as plain values: status, content type and body.
pub struct DefaultResponse {
    pub status: u16,
    pub content_type: Option<String>,
    pub body: String,
}

/// The default OPTIONS response: 204 with an empty body.
pub fn default_options_response() -> (r: DefaultResponse)
    ensures
        r.status == 204,
        r.content_type is None,
        r.body@ == Seq::<char>::empty(),
{
    DefaultResponse { status: 204, content_type: None, body: String::new() }
}

fn text_plain() -> (r: String)
    ensures
        r@ == "text/plain"@,
{
    String::from_str("text/plain")
}

/// The default catch-all response: 404, `text/plain`, the reason phrase "Not Found".
pub fn default_404_response() -> (r: DefaultResponse)
    ensures
        r.status == 404,
        r.content_type matches Some(t) && t@ == "text/plain"@,
        r.body@ == "Not Found"@,
{
    let body = match canonical_reason(404) {
        Some(s) => s,
        None => String::new(),
    };
    DefaultResponse { status: 404, content_type: Some(text_plain()), body }
}

/// The default error response: 500, `text/plain`, "Internal Server Error: "
/// followed by the error's text.
pub fn default_error_response(err_text: &str) -> (r: DefaultResponse)
    ensures
        r.status == 500,
        r.content_type matches Some(t) && t@ == "text/plain"@,
        r.body@ == "Internal Server Error"@ + ": "@ + err_text@,
{
    let mut body = match canonical_reason(500) {
        Some(s) => s,
        None => String::new(),
    };
    body.append(": ");
    body.append(err_text);
    DefaultResponse { status: 500, content_type: Some(text_plain()), body }
}

} // verus!
