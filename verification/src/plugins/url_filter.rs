//! The URL filter example plugin: it rebuilds the target of each request
//! from its authority and path, and answers `400` itself when the authority
//! is not a plausible host or the target is not a WHATWG URL. Domain names
//! go through IDNA and URLs through the `ada-url` parser.

use vstd::prelude::*;
use crate::abi::{HookAction, HookOutcome, HttpContext, HttpRequest, HttpResponse, PluginError};
use crate::plugins::{reply_for, reply_to};
use crate::text::{
    all_digits, chars_all_digits, chars_of, char_is_whitespace, is_ws, last_index_of, push_chars,
    push_str, rfind_char, string_of, sub_chars,
};
use vstd::string::StringSliceAdditionalSpecFns;

verus! {

/// The body of the rejection.
pub const BAD_REQUEST_BODY: &'static str = "bad request: invalid URL";

/// The outcome `Continue`.
pub fn continue_hook() -> (o: HookOutcome)
    ensures
        o.action == HookAction::Continue,
{
    HookOutcome { action: HookAction::Continue }
}

/// `c` is a control character (`char::is_control`: general category Cc).
pub open spec fn is_control(c: char) -> bool {
    c <= '\u{1f}' || ('\u{7f}' <= c && c <= '\u{9f}')
}

fn char_is_control(c: char) -> (b: bool)
    ensures
        b == is_control(c),
{
    c <= '\u{1f}' || ('\u{7f}' <= c && c <= '\u{9f}')
}

/// The host part of an authority: what precedes its last `:` when only
/// ASCII digits follow it, else the whole authority.
pub open spec fn authority_host(a: Seq<char>) -> Seq<char> {
    match last_index_of(a, ':') {
        Some(i) => if all_digits(a.subrange(i + 1, a.len() as int)) {
            a.subrange(0, i)
        } else {
            a
        },
        None => a,
    }
}

/// A host text is non-empty and holds no whitespace or control character.
pub open spec fn host_text_ok(h: Seq<char>) -> bool {
    h.len() > 0 && forall|i: int| 0 <= i < h.len() ==> !is_ws(#[trigger] h[i]) && !is_control(h[i])
}

/// What can be decided of an authority before IDNA.
pub enum HostCheckModel {
    Accept,
    Reject,
    Host(Seq<char>),
}

/// The authority is accepted as it is (a bracketed IPv6 literal), rejected
/// (empty, or its host text is empty or holds whitespace or a control
/// character), or its host must pass IDNA.
pub open spec fn authority_precheck(a: Seq<char>) -> HostCheckModel {
    if a.len() == 0 {
        HostCheckModel::Reject
    } else if a[0] == '[' {
        HostCheckModel::Accept
    } else if host_text_ok(authority_host(a)) {
        HostCheckModel::Host(authority_host(a))
    } else {
        HostCheckModel::Reject
    }
}

/// What the IDNA conversion of `ada-url` (`Idna::ascii`) returns for the
/// domain `input`.
pub uninterp spec fn idna_ascii(input: Seq<char>) -> Seq<char>;

/// What the WHATWG URL parser of `ada-url` (`Url::can_parse` without a
/// base) answers for `input`.
pub uninterp spec fn url_can_parse(input: Seq<char>) -> bool;

/// The authority is valid: accepted outright, or its host has a non-empty
/// IDNA ASCII form.
pub open spec fn authority_ok(a: Seq<char>) -> bool {
    match authority_precheck(a) {
        HostCheckModel::Accept => true,
        HostCheckModel::Reject => false,
        HostCheckModel::Host(h) => idna_ascii(h).len() > 0,
    }
}

/// The URL `http://{authority}{path}`, with `localhost` for an empty
/// authority.
pub open spec fn target_url(req: HttpRequest) -> Seq<char> {
    "http://"@ + (if req.authority@.len() == 0 {
        "localhost"@
    } else {
        req.authority@
    }) + req.path@
}

/// The request's authority is valid and its target parses as a URL.
pub open spec fn target_ok(req: HttpRequest) -> bool {
    authority_ok(req.authority@) && url_can_parse(target_url(req))
}

/// `ada_url::Idna::ascii`: the UTS #46 ToASCII form of `input`; the crate
/// documents the empty string for an invalid input. The contract only ties
/// the result to the input by name.
#[verifier::external_body]
fn idna_to_ascii(input: &str) -> (r: String)
    ensures
        r@ == idna_ascii(input@),
{
    ada_url::Idna::ascii(input)
}

/// `ada_url::Url::can_parse(input, None)`: whether `input` parses as an
/// absolute WHATWG URL. The contract only ties the answer to the input by
/// name.
#[verifier::external_body]
fn can_parse_url(input: &str) -> (b: bool)
    ensures
        b == url_can_parse(input@),
{
    ada_url::Url::can_parse(input, None)
}

/// Which authorities are valid: an empty one never, a bracketed literal
/// always; any other is valid exactly when its host text (the authority
/// without a numeric port) is non-empty, free of whitespace and control
/// characters, and has a non-empty IDNA ASCII form, which need not equal
/// the host (a non-ASCII or upper-case host is valid when IDNA maps it).
pub proof fn lemma_authority_validity(a: Seq<char>)
    ensures
        a.len() == 0 ==> !authority_ok(a),
        a.len() > 0 && a[0] == '[' ==> authority_ok(a),
        a.len() > 0 && a[0] != '[' ==> (authority_ok(a) <==> (host_text_ok(authority_host(a))
            && idna_ascii(authority_host(a)).len() > 0)),
{
}

/// What is decided of an authority before IDNA.
pub enum HostCheck {
    /// Valid without further checks.
    Accept,
    /// Invalid.
    Reject,
    /// Valid exactly when this host has an IDNA ASCII form.
    Host(String),
}

impl HostCheck {
    pub open spec fn model(&self) -> HostCheckModel {
        match self {
            HostCheck::Accept => HostCheckModel::Accept,
            HostCheck::Reject => HostCheckModel::Reject,
            HostCheck::Host(h) => HostCheckModel::Host(h@),
        }
    }
}

/// The checks of an authority that come before IDNA.
pub fn precheck_authority(authority: &str) -> (r: HostCheck)
    ensures
        r.model() == authority_precheck(authority@),
{
    let a = chars_of(authority);
    if a.len() == 0 {
        return HostCheck::Reject;
    }
    if a[0] == '[' {
        return HostCheck::Accept;
    }
    let host = match rfind_char(&a, ':') {
        Some(i) => {
            let port = sub_chars(&a, i + 1, a.len());
            if chars_all_digits(&port) {
                sub_chars(&a, 0, i)
            } else {
                sub_chars(&a, 0, a.len())
            }
        },
        None => sub_chars(&a, 0, a.len()),
    };
    assert(a@.subrange(0, a@.len() as int) =~= a@);
    assert(host@ == authority_host(authority@));
    if host.len() == 0 {
        return HostCheck::Reject;
    }
    let mut i: usize = 0;
    while i < host.len()
        invariant
            i <= host.len(),
            host@ == authority_host(authority@),
            authority@.len() > 0 && authority@[0] != '[',
            forall|j: int| 0 <= j < i ==> !is_ws(#[trigger] host@[j]) && !is_control(host@[j]),
        decreases host.len() - i,
    {
        if char_is_whitespace(host[i]) || char_is_control(host[i]) {
            assert(!host_text_ok(host@));
            return HostCheck::Reject;
        }
        i = i + 1;
    }
    HostCheck::Host(string_of(&host))
}

/// Whether the authority of a request is valid: a bracketed literal, or a
/// host without whitespace or control characters that has an IDNA ASCII
/// form.
pub fn authority_is_valid(authority: &str) -> (b: bool)
    ensures
        b == authority_ok(authority@),
{
    match precheck_authority(authority) {
        HostCheck::Accept => true,
        HostCheck::Reject => false,
        HostCheck::Host(h) => {
            let ascii = idna_to_ascii(h.as_str());
            chars_of(ascii.as_str()).len() > 0
        },
    }
}

/// The URL that the request targets.
pub fn request_target_url(ctx: &HttpContext) -> (url: String)
    requires
        ctx.request is Some,
    ensures
        url@ == target_url(ctx.request->0),
{
    let req = ctx.request.as_ref().unwrap();
    let mut out: Vec<char> = Vec::new();
    push_str(&mut out, "http://");
    let authority = chars_of(req.authority.as_str());
    if authority.len() == 0 {
        push_str(&mut out, "localhost");
    } else {
        push_chars(&mut out, &authority);
    }
    push_chars(&mut out, &chars_of(req.path.as_str()));
    string_of(&out)
}

/// Whether the request has a valid authority and a target that parses as a
/// URL; the URL parser is not asked when the authority is invalid.
pub fn request_target_is_valid(ctx: &HttpContext) -> (b: bool)
    requires
        ctx.request is Some,
    ensures
        b == target_ok(ctx.request->0),
{
    let req = ctx.request.as_ref().unwrap();
    if !authority_is_valid(req.authority.as_str()) {
        return false;
    }
    let url = request_target_url(ctx);
    can_parse_url(url.as_str())
}

/// The `400` reply with the text `bad request: invalid URL`.
pub fn reject_with_bad_request(ctx: &HttpContext) -> (resp: HttpResponse)
    requires
        ctx.request is Some,
    ensures
        reply_to(ctx.request->0, 400, BAD_REQUEST_BODY.spec_bytes(), resp),
{
    reply_for(ctx.request.as_ref().unwrap(), 400, BAD_REQUEST_BODY)
}

/// The request-headers hook: a request with an invalid target gets the
/// `400` reply (replacing any response) and `Replace`; a valid one passes
/// unchanged with `Continue`. The request must be present.
pub fn http_on_request_headers(ctx: &mut HttpContext) -> (r: Result<HookOutcome, PluginError>)
    requires
        old(ctx).request is Some,
    ensures
        if target_ok(old(ctx).request->0) {
            &&& r == Ok::<HookOutcome, PluginError>(HookOutcome { action: HookAction::Continue })
            &&& *final(ctx) == *old(ctx)
        } else {
            &&& r == Ok::<HookOutcome, PluginError>(HookOutcome { action: HookAction::Replace })
            &&& final(ctx).request == old(ctx).request
            &&& final(ctx).transport == old(ctx).transport
            &&& final(ctx).response matches Some(resp) && reply_to(
                old(ctx).request->0,
                400,
                BAD_REQUEST_BODY.spec_bytes(),
                resp,
            )
        },
{
    if !request_target_is_valid(ctx) {
        let resp = reject_with_bad_request(ctx);
        ctx.response = Some(resp);
        return Ok(HookOutcome { action: HookAction::Replace });
    }
    Ok(continue_hook())
}

} // verus!
