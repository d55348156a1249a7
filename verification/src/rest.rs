use vstd::prelude::*;
use vstd::string::*;

use crate::error::EndpointError;
use crate::header::{header_text, header_value_str};
use crate::text::{concat3, str_eq};

verus! {

/// The header that carries the tenant of a REST request.
pub const X_TENANT_ID: &'static str = "x-tenant-id";

/// The route label of requests that match no route.
pub const UNMATCHED_ROUTE: &'static str = "unmatched";

/// The method names that the REST metrics keep as labels.
pub open spec fn is_known_method(m: Seq<char>) -> bool {
    ||| m == "GET"@
    ||| m == "POST"@
    ||| m == "PUT"@
    ||| m == "PATCH"@
    ||| m == "DELETE"@
    ||| m == "HEAD"@
    ||| m == "OPTIONS"@
    ||| m == "CONNECT"@
    ||| m == "TRACE"@
}

/// The metric label of an HTTP method: the method itself when it is one of
/// the standard ones, `OTHER` otherwise, so that label cardinality stays
/// bounded.
pub fn method_label(method: &str) -> (r: &'static str)
    ensures
        is_known_method(method@) ==> r@ == method@,
        !is_known_method(method@) ==> r@ == "OTHER"@,
{
    if str_eq(method, "GET") {
        "GET"
    } else if str_eq(method, "POST") {
        "POST"
    } else if str_eq(method, "PUT") {
        "PUT"
    } else if str_eq(method, "PATCH") {
        "PATCH"
    } else if str_eq(method, "DELETE") {
        "DELETE"
    } else if str_eq(method, "HEAD") {
        "HEAD"
    } else if str_eq(method, "OPTIONS") {
        "OPTIONS"
    } else if str_eq(method, "CONNECT") {
        "CONNECT"
    } else if str_eq(method, "TRACE") {
        "TRACE"
    } else {
        "OTHER"
    }
}

/// The route label of a request: its matched route pattern, or
/// `unmatched`, never the raw path.
pub fn route_label(pattern: Option<String>) -> (r: String)
    ensures
        match pattern {
            Some(p) => r@ == p@,
            None => r@ == UNMATCHED_ROUTE@,
        },
{
    match pattern {
        Some(p) => p,
        None => String::from_str(UNMATCHED_ROUTE),
    }
}

/// The route that a request span names: the matched pattern, or the raw
/// path when no route matched.
pub fn span_route(pattern: Option<String>, path: &str) -> (r: String)
    ensures
        match pattern {
            Some(p) => r@ == p@,
            None => r@ == path@,
        },
{
    match pattern {
        Some(p) => p,
        None => String::from_str(path),
    }
}

/// The name of a request span: method and route separated by a space.
pub fn span_name(method: &str, route: &str) -> (r: String)
    ensures
        r@ == method@ + " "@ + route@,
{
    concat3(method, " ", route)
}

/// The status that a request span records, and whether it is marked as
/// failed.
#[derive(Debug, Clone, Copy, PartialEq, Eq, Structural)]
pub struct SpanStatus {
    pub status_code: u16,
    pub error: bool,
}

/// Decides what a request span records: a response's status, failed when it
/// is a server error (5xx); an error's status, always failed.
pub fn request_span_status(handled: bool, status: u16) -> (r: SpanStatus)
    ensures
        r.status_code == status,
        r.error == (!handled || (500 <= status <= 599)),
{
    SpanStatus { status_code: status, error: !handled || (500 <= status && status <= 599) }
}

/// The tenant of a request: the text of its tenant header, which must be
/// present, visible ASCII and not empty.
pub fn validate_tenant_header(value: Option<&[u8]>) -> (r: Result<String, EndpointError>)
    ensures
        match value {
            None => r matches Err(EndpointError::HeaderNotFound(h)) && h@ == X_TENANT_ID@,
            Some(b) => match header_text(b@) {
                Some(t) => if t.len() > 0 {
                    r matches Ok(v) && v@ == t
                } else {
                    r matches Err(EndpointError::InvalidHeaderValue(h)) && h@ == X_TENANT_ID@
                },
                None => r matches Err(EndpointError::InvalidHeaderValue(h)) && h@ == X_TENANT_ID@,
            },
        },
{
    match value {
        None => Err(EndpointError::HeaderNotFound(String::from_str(X_TENANT_ID))),
        Some(b) => match header_value_str(b) {
            Some(v) => {
                if v.as_str().unicode_len() > 0 {
                    Ok(v)
                } else {
                    Err(EndpointError::InvalidHeaderValue(String::from_str(X_TENANT_ID)))
                }
            },
            None => Err(EndpointError::InvalidHeaderValue(String::from_str(X_TENANT_ID))),
        },
    }
}

} // verus!
