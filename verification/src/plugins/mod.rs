//! The logic of the bundled example plugins, and what they share: local
//! replies built from a request.

pub mod noop;
pub mod http_mw;
pub mod url_filter;
pub mod sticky;

use vstd::prelude::*;
use crate::abi::{Bytes, Headers, HttpRequest, HttpResponse, HttpStatus, ID, PluginError};
use crate::text::{chars_eq_str, chars_of};
use vstd::string::StringSliceAdditionalSpecFns;

verus! {

/// The bytes of the text `s` as `str::as_bytes` gives them.
pub fn bytes_of(s: &str) -> (v: Vec<u8>)
    ensures
        v@ == s.spec_bytes(),
{
    vstd::slice::slice_to_vec(s.as_bytes())
}

/// The error carries the message `text`.
pub open spec fn error_says(e: PluginError, text: Seq<char>) -> bool {
    e.message matches Some(m) && m@ == text
}

/// A plugin error with the message `message`.
pub fn plugin_error(message: String) -> (e: PluginError)
    ensures
        e.message == Some(message),
{
    PluginError { message: Some(message) }
}

/// The request is `GET /local-reply`.
pub open spec fn is_local_reply_request(req: HttpRequest) -> bool {
    req.method@ == "GET"@ && req.path@ == "/local-reply"@
}

/// `resp` answers `req` on its stream and HTTP version with `status`, no
/// headers and the body `body`.
pub open spec fn reply_to(req: HttpRequest, status: u16, body: Seq<u8>, resp: HttpResponse) -> bool {
    &&& resp.stream_id == req.stream_id
    &&& resp.version == req.version
    &&& resp.status == HttpStatus(status)
    &&& resp.headers.0@ == Seq::<crate::abi::KVPair>::empty()
    &&& resp.body.0@ == body
}

/// Whether `req` is `GET /local-reply`.
pub fn asks_local_reply(req: &HttpRequest) -> (b: bool)
    ensures
        b == is_local_reply_request(*req),
{
    chars_eq_str(&chars_of(req.method.as_str()), "GET") && chars_eq_str(
        &chars_of(req.path.as_str()),
        "/local-reply",
    )
}

/// A response to `req` with `status`, no headers and the text `body`.
pub fn reply_for(req: &HttpRequest, status: u16, body: &str) -> (resp: HttpResponse)
    ensures
        reply_to(*req, status, body.spec_bytes(), resp),
{
    HttpResponse {
        stream_id: ID(req.stream_id.0),
        version: req.version,
        status: HttpStatus(status),
        headers: Headers::new(),
        body: Bytes(bytes_of(body)),
    }
}

} // verus!
