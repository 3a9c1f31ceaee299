//! The HTTP side of the bridge: the request options and response models,
//! and the normalization of the request method.
//!
//! The exchange itself is the transport collaborator's; what is verified
//! here is the data the bridge decides on: which method a request string
//! names, and the plain-value shapes handed across the boundary. Header
//! lists are ordered name/value pairs — order matters and duplicate names
//! are legal and preserved, never collapsed into a single-valued map.

use vstd::prelude::*;

use crate::errors::BridgeError;

verus! {

/// A request as the consumer hands it over, with every field a plain value;
/// the emulation profile is carried by name and resolved by the transport
/// layer.
#[derive(Debug)]
pub struct RequestOptions {
    /// The URL to request.
    pub url: String,
    /// The emulation profile name.
    pub browser: String,
    /// Ordered header pairs; duplicates preserved.
    pub headers: Vec<(String, String)>,
    /// The request method as given; normalized by `parse_method`.
    pub method: String,
    /// The request body, if any.
    pub body: Option<String>,
    /// The proxy specification, if any.
    pub proxy: Option<String>,
    /// The request timeout in milliseconds.
    pub timeout: u64,
    /// The session this request runs under, if it names one.
    pub session_id: Option<String>,
    /// When set, a fresh unregistered client is built and discarded after
    /// this one request.
    pub ephemeral: bool,
    /// When set, the transport sends none of its profile's default headers.
    pub disable_default_headers: bool,
}

/// What a completed exchange produced, with every field a plain value.
#[derive(Debug)]
pub struct Response {
    /// The response status code.
    pub status: u16,
    /// The response headers in arrival order.
    pub headers: Vec<(String, String)>,
    /// The response body as text.
    pub body: String,
    /// The cookies the response set, parsed from its set-cookie header.
    pub cookies: Vec<(String, String)>,
    /// The final URL after redirects.
    pub url: String,
}

/// The options of a socket connect, with every field a plain value. The
/// consumer's callbacks stay in its own execution context and are not part
/// of the verified state.
#[derive(Debug)]
pub struct WebSocketOptions {
    /// The URL to upgrade against.
    pub url: String,
    /// The emulation profile name.
    pub browser: String,
    /// Ordered header pairs; duplicates preserved.
    pub headers: Vec<(String, String)>,
    /// The proxy specification, if any.
    pub proxy: Option<String>,
}

/// The request methods the bridge supports.
#[derive(Clone, Copy, PartialEq, Eq, Structural, Debug)]
pub enum Method {
    /// A GET request.
    Get,
    /// A POST request.
    Post,
    /// A PUT request.
    Put,
    /// A DELETE request.
    Delete,
    /// A PATCH request.
    Patch,
    /// A HEAD request.
    Head,
}

/// Two characters are equal up to ASCII case.
pub open spec fn char_eq_nocase(a: char, b: char) -> bool {
    ||| a == b
    ||| (97 <= a as u32 <= 122 && a as u32 == b as u32 + 32)
    ||| (97 <= b as u32 <= 122 && b as u32 == a as u32 + 32)
}

/// Two strings are equal up to ASCII case.
pub open spec fn eq_nocase(a: Seq<char>, b: Seq<char>) -> bool {
    a.len() == b.len() && forall|i: int| 0 <= i < a.len() ==> char_eq_nocase(a[i], #[trigger] b[i])
}

/// Which method a request string names: the empty string defaults to GET,
/// a supported name matches regardless of case, anything else is refused.
pub open spec fn method_of(s: Seq<char>) -> Option<Method> {
    if s.len() == 0 {
        Some(Method::Get)
    } else if eq_nocase(s, "GET"@) {
        Some(Method::Get)
    } else if eq_nocase(s, "POST"@) {
        Some(Method::Post)
    } else if eq_nocase(s, "PUT"@) {
        Some(Method::Put)
    } else if eq_nocase(s, "DELETE"@) {
        Some(Method::Delete)
    } else if eq_nocase(s, "PATCH"@) {
        Some(Method::Patch)
    } else if eq_nocase(s, "HEAD"@) {
        Some(Method::Head)
    } else {
        None
    }
}

impl Method {
    /// The canonical upper-case name, for the transport layer.
    pub fn name(&self) -> (r: &'static str)
        ensures
            match self {
                Method::Get => r@ == "GET"@,
                Method::Post => r@ == "POST"@,
                Method::Put => r@ == "PUT"@,
                Method::Delete => r@ == "DELETE"@,
                Method::Patch => r@ == "PATCH"@,
                Method::Head => r@ == "HEAD"@,
            },
    {
        match self {
            Method::Get => "GET",
            Method::Post => "POST",
            Method::Put => "PUT",
            Method::Delete => "DELETE",
            Method::Patch => "PATCH",
            Method::Head => "HEAD",
        }
    }
}

/// Compares two strings up to ASCII case, character by character.
fn eq_nocase_str(a: &str, b: &str) -> (r: bool)
    ensures
        r == eq_nocase(a@, b@),
{
    let an = a.unicode_len();
    let bn = b.unicode_len();
    if an != bn {
        return false;
    }
    let mut i: usize = 0;
    while i < an
        invariant
            an == a@.len(),
            bn == b@.len(),
            an == bn,
            0 <= i <= an,
            forall|j: int| 0 <= j < i ==> char_eq_nocase(a@[j], #[trigger] b@[j]),
        decreases an - i,
    {
        let ca = a.get_char(i);
        let cb = b.get_char(i);
        let ua = ca as u32;
        let ub = cb as u32;
        let same = if ua == ub {
            true
        } else if 97 <= ua && ua <= 122 && ua == ub + 32 {
            true
        } else if 97 <= ub && ub <= 122 && ub == ua + 32 {
            true
        } else {
            false
        };
        if !same {
            return false;
        }
        i = i + 1;
    }
    true
}

/// Normalizes a request method: the empty string means GET, a supported
/// name matches in any case, and anything else is a configuration error
/// naming the offending method.
pub fn parse_method(method: &str) -> (r: Result<Method, BridgeError>)
    ensures
        match method_of(method@) {
            Some(m) => r == Result::<Method, BridgeError>::Ok(m),
            None => match r {
                Err(BridgeError::Configuration(msg)) => msg@ == "Unsupported HTTP method: "@
                    + method@,
                _ => false,
            },
        },
{
    if method.unicode_len() == 0 {
        Ok(Method::Get)
    } else if eq_nocase_str(method, "GET") {
        Ok(Method::Get)
    } else if eq_nocase_str(method, "POST") {
        Ok(Method::Post)
    } else if eq_nocase_str(method, "PUT") {
        Ok(Method::Put)
    } else if eq_nocase_str(method, "DELETE") {
        Ok(Method::Delete)
    } else if eq_nocase_str(method, "PATCH") {
        Ok(Method::Patch)
    } else if eq_nocase_str(method, "HEAD") {
        Ok(Method::Head)
    } else {
        Err(BridgeError::Configuration(String::from_str("Unsupported HTTP method: ").concat(method)))
    }
}

} // verus!
