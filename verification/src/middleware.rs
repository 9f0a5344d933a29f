use vstd::prelude::*;

use crate::ids::{all_digits, digits_val, parse_u64_digits};

verus! {

/// Marker that a route demands a verified token; wrapping a service in
/// it yields [`JWTAuthMiddleware`].
pub struct JWTAuth;

/// A service behind token verification: requests without a decodable
/// token are answered with an authentication demand instead of reaching
/// the inner service.
pub struct JWTAuthMiddleware<S> {
    pub service: S,
}

/// Marker that a route bounds the size of request bodies, with the
/// bound in bytes.
pub struct ContentLengthLimit {
    pub limit: u64,
}

impl Default for ContentLengthLimit {
    /// The default bound: five binary megabytes.
    fn default() -> (r: ContentLengthLimit)
        ensures
            r.limit == 5242880u64,
    {
        ContentLengthLimit { limit: 5242880 }
    }
}

/// A service behind a body-size bound: requests that declare a larger
/// body are refused before reaching the inner service.
pub struct ContentLengthLimitMiddleware<S> {
    pub service: S,
    pub limit: u64,
}

impl<S> ContentLengthLimitMiddleware<S> {
    /// Decides from the declared content length — the bytes of the
    /// header's value — whether the body exceeds the bound. An
    /// undeclared or unreadable length gives `Err`, and such requests
    /// pass unhindered.
    pub fn is_big(&self, content_length: &[u8]) -> (r: Result<bool, ()>)
        ensures
            match r {
                Ok(b) => {
                    &&& content_length@.len() > 0
                    &&& all_digits(content_length@)
                    &&& digits_val(content_length@) <= u64::MAX
                    &&& b == (digits_val(content_length@) > self.limit)
                },
                Err(_) => content_length@.len() == 0 || !all_digits(content_length@) || digits_val(
                    content_length@,
                ) > u64::MAX,
            },
    {
        match parse_u64_digits(content_length) {
            Some(v) => Ok(v > self.limit),
            None => Err(()),
        }
    }
}

/// Marker that responses carry permissive cross-origin headers.
pub struct HttpCors;

/// A service whose responses get the cross-origin headers added.
pub struct HttpCorsMiddleware<S> {
    pub service: S,
}

} // verus!
