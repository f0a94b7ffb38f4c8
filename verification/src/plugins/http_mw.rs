//! The HTTP middleware example plugin: it alternates requests between two
//! upstreams by a process-wide request counter and answers
//! `GET /local-reply` itself.

use vstd::prelude::*;
use crate::abi::{
    HookAction, HookOutcome, HttpContext, PluginError, RouteAction, RouteDecision, SocketAddress,
    TransportContext,
};
use crate::plugins::{asks_local_reply, error_says, is_local_reply_request, plugin_error, reply_for, reply_to};
use crate::text::{decimal, push_decimal, push_str, string_of};
use vstd::string::StringSliceAdditionalSpecFns;

verus! {

/// The body of the local reply.
pub const MW_REPLY_BODY: &'static str = "hello from example-http-mw";

/// The port of every upstream this plugin selects.
pub const MW_UPSTREAM_PORT: u16 = 80;

/// Counts the routed requests; the count wraps around after `u64::MAX`.
pub struct RequestCounter {
    pub next: u64,
}

impl RequestCounter {
    /// A counter at zero.
    pub fn new() -> (c: RequestCounter)
        ensures
            c.next == 0,
    {
        RequestCounter { next: 0 }
    }

    /// Takes the current count and advances the counter by one, wrapping.
    pub fn take(&mut self) -> (n: u64)
        ensures
            n == old(self).next,
            final(self).next == (if old(self).next == u64::MAX { 0 } else { (old(self).next + 1) as u64 }),
    {
        let n = self.next;
        self.next = if n == u64::MAX { 0 } else { n + 1 };
        n
    }
}

/// The upstream host for request number `n`: even requests go to
/// `httpbin.dev`, odd ones to `httpbin.org`.
pub open spec fn mw_upstream_host(n: u64) -> Seq<char> {
    if n % 2 == 0 {
        "httpbin.dev"@
    } else {
        "httpbin.org"@
    }
}

/// The request path for request number `n`; it carries `n` as a query.
pub open spec fn mw_upstream_path(n: u64) -> Seq<char> {
    if n % 2 == 0 {
        "/dump/request?n="@ + decimal(n as nat)
    } else {
        "/anything?n="@ + decimal(n as nat)
    }
}

/// `d` replaces the upstream with the one for request number `n`.
pub open spec fn mw_route(n: u64, d: RouteDecision) -> bool {
    &&& d.action == RouteAction::ReplaceUpstream
    &&& d.upstream_to_set matches Some(a) && a.host@ == mw_upstream_host(n) && a.port == MW_UPSTREAM_PORT
    &&& d.http_path matches Some(p) && p@ == mw_upstream_path(n)
}

/// The route decision for request number `n`.
pub fn route_for_request(n: u64) -> (d: RouteDecision)
    ensures
        mw_route(n, d),
{
    let mut host: Vec<char> = Vec::new();
    let mut path: Vec<char> = Vec::new();
    if n % 2 == 0 {
        push_str(&mut host, "httpbin.dev");
        push_str(&mut path, "/dump/request?n=");
    } else {
        push_str(&mut host, "httpbin.org");
        push_str(&mut path, "/anything?n=");
    }
    push_decimal(n, &mut path);
    RouteDecision {
        action: RouteAction::ReplaceUpstream,
        upstream_to_set: Some(SocketAddress { host: string_of(&host), port: MW_UPSTREAM_PORT }),
        http_path: Some(string_of(&path)),
    }
}

/// The route hook. Without a request it fails with `no request provided to
/// callback` and leaves the counter alone. Otherwise it takes a number from
/// the counter, answers `Replace`, and stores the route for that number in
/// the context's transport metadata; a context without transport metadata
/// has nowhere to store it and is left unchanged.
pub fn http_on_route(ctx: &mut HttpContext, counter: &mut RequestCounter) -> (r: Result<HookOutcome, PluginError>)
    ensures
        old(ctx).request is None ==> {
            &&& r matches Err(e) && error_says(e, "no request provided to callback"@)
            &&& *final(ctx) == *old(ctx)
            &&& *final(counter) == *old(counter)
        },
        old(ctx).request is Some ==> {
            &&& r == Ok::<HookOutcome, PluginError>(HookOutcome { action: HookAction::Replace })
            &&& final(counter).next == (if old(counter).next == u64::MAX { 0 } else { (old(counter).next + 1) as u64 })
            &&& final(ctx).request == old(ctx).request
            &&& final(ctx).response == old(ctx).response
            &&& match old(ctx).transport {
                None => final(ctx).transport is None,
                Some(t) => final(ctx).transport matches Some(t2) && t2 == (TransportContext { route: t2.route, ..t })
                    && mw_route(old(counter).next, t2.route),
            }
        },
{
    if ctx.request.is_none() {
        return Err(plugin_error(string_of(&crate::text::chars_of("no request provided to callback"))));
    }
    let n = counter.take();
    let decision = route_for_request(n);
    let ghost d = decision;
    let _stored = ctx.set_route(decision);
    assert(mw_route(n, d));
    Ok(HookOutcome { action: HookAction::Replace })
}

/// The request-headers hook. With a request `GET /local-reply` it sets a
/// `200` reply with the text `hello from example-http-mw` (replacing any
/// response) and answers `Replace`; otherwise it changes nothing and
/// answers `Continue`.
pub fn http_on_request_headers(ctx: &mut HttpContext) -> (r: Result<HookOutcome, PluginError>)
    ensures
        match old(ctx).request {
            Some(req) => if is_local_reply_request(req) {
                &&& r == Ok::<HookOutcome, PluginError>(HookOutcome { action: HookAction::Replace })
                &&& final(ctx).request == old(ctx).request
                &&& final(ctx).transport == old(ctx).transport
                &&& final(ctx).response matches Some(resp) && reply_to(req, 200, MW_REPLY_BODY.spec_bytes(), resp)
            } else {
                &&& r == Ok::<HookOutcome, PluginError>(HookOutcome { action: HookAction::Continue })
                &&& *final(ctx) == *old(ctx)
            },
            None => {
                &&& r == Ok::<HookOutcome, PluginError>(HookOutcome { action: HookAction::Continue })
                &&& *final(ctx) == *old(ctx)
            },
        },
{
    let local = match &ctx.request {
        Some(req) => if asks_local_reply(req) {
            Some(reply_for(req, 200, MW_REPLY_BODY))
        } else {
            None
        },
        None => None,
    };
    match local {
        Some(resp) => {
            ctx.response = Some(resp);
            Ok(HookOutcome { action: HookAction::Replace })
        },
        None => Ok(HookOutcome { action: HookAction::Continue }),
    }
}

} // verus!
