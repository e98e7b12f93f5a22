//! The border with the `http` crate, as `isahc` hands it on: building requests.

use vstd::prelude::*;
use vstd::string::*;

verus! {

/// A request as the HTTP client takes it.
#[verifier::external_type_specification]
#[verifier::external_body]
#[verifier::reject_recursive_types(T)]
pub struct ExRequest<T>(isahc::http::Request<T>);

/// The error of the `http` crate's request builder.
#[verifier::external_type_specification]
#[verifier::external_body]
pub struct ExHttpError(isahc::http::Error);

/// The POST request that the `http` crate builds from an address, headers and a body, or
/// its error where it takes the address or a header for invalid.
pub uninterp spec fn posted(
    uri: Seq<char>,
    headers: Seq<(Seq<char>, Seq<char>)>,
    body: Seq<char>,
) -> Result<isahc::http::Request<String>, isahc::http::Error>;

/// `http::Request::post`, then `header` for each of four headers, then `body`: the
/// outcome depends on the address, the headers in their order, and the body.
#[verifier::external_body]
pub(crate) fn post(
    uri: &str,
    a: (&str, &str),
    b: (&str, &str),
    c: (&str, &str),
    d: (&str, &str),
    body: String,
) -> (outcome: Result<isahc::http::Request<String>, isahc::http::Error>)
    ensures
        outcome == posted(
            uri@,
            seq![(a.0@, a.1@), (b.0@, b.1@), (c.0@, c.1@), (d.0@, d.1@)],
            body@,
        ),
{
    isahc::http::Request::post(uri)
        .header(a.0, a.1)
        .header(b.0, b.1)
        .header(c.0, c.1)
        .header(d.0, d.1)
        .body(body)
}

/// The text that the `Display` impl of `http::Error` gives.
pub uninterp spec fn http_error_message(error: isahc::http::Error) -> Seq<char>;

/// `to_string` on an `http::Error`, which goes through its `Display` impl: the text
/// depends on the error alone.
#[verifier::external_body]
pub(crate) fn http_error_text(error: &isahc::http::Error) -> (shown: String)
    ensures
        shown@ == http_error_message(*error),
{
    error.to_string()
}

} // verus!
