//! The no-op example plugin: it only observes traffic, except that it
//! answers `GET /local-reply` itself.

use vstd::prelude::*;
use crate::abi::{HookAction, HookOutcome, HttpContext, PluginError};
use crate::plugins::{asks_local_reply, is_local_reply_request, reply_for, reply_to};
use vstd::string::StringSliceAdditionalSpecFns;

verus! {

/// The body of the local reply.
pub const NOOP_REPLY_BODY: &'static str = "hello from example-noop";

/// The HTTP hook of the no-op plugin, for every HTTP phase. When the request
/// is `GET /local-reply` and no response is set yet, it sets a `200` reply
/// with the text `hello from example-noop` and answers `Replace`; otherwise
/// it changes nothing and answers `Continue`. The request must be present
/// (the hook reads it unconditionally).
pub fn example_on_http_event(ctx: &mut HttpContext) -> (r: Result<HookOutcome, PluginError>)
    requires
        old(ctx).request is Some,
    ensures
        ({
            let req = old(ctx).request->0;
            if is_local_reply_request(req) && old(ctx).response is None {
                &&& r == Ok::<HookOutcome, PluginError>(HookOutcome { action: HookAction::Replace })
                &&& final(ctx).request == old(ctx).request
                &&& final(ctx).transport == old(ctx).transport
                &&& final(ctx).response matches Some(resp) && reply_to(
                    req,
                    200,
                    NOOP_REPLY_BODY.spec_bytes(),
                    resp,
                )
            } else {
                &&& r == Ok::<HookOutcome, PluginError>(HookOutcome { action: HookAction::Continue })
                &&& *final(ctx) == *old(ctx)
            }
        }),
{
    let local = match &ctx.request {
        Some(req) => {
            if asks_local_reply(req) && ctx.response.is_none() {
                Some(reply_for(req, 200, NOOP_REPLY_BODY))
            } else {
                None
            }
        },
        None => None,
    };
    match local {
        Some(resp) => {
            ctx.response = Some(resp);
            Ok(HookOutcome { action: HookAction::Replace })
        },
        None => Ok(HookOutcome { action: HookAction::Continue }),
    }
}

} // verus!
