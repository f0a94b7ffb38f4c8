//! Hook dispatch: the order in which plugin modules run, which callbacks a
//! host phase invokes, and the decisions that the host takes from the
//! outcomes of routing and request-header callbacks.

use vstd::prelude::*;
use crate::abi::{
    Bytes, Headers, KVPair, HookAction, HookOutcome, HttpContext, PluginError, RouteDecision, SocketAddress,
    route_of, TransportContext,
};

verus! {

/// `a` runs before `b`: lower priority first, ties in load order.
pub open spec fn runs_before(prio: Seq<Option<u8>>, a: int, b: int) -> bool {
    prio[a]->0 < prio[b]->0 || (prio[a]->0 == prio[b]->0 && a < b)
}

/// `order` lists exactly the indices `i` with `prio[i]` present, each once,
/// lowest priority first and, among equal priorities, in index order.
pub open spec fn is_dispatch_order(prio: Seq<Option<u8>>, order: Seq<usize>) -> bool {
    &&& forall|k: int| 0 <= k < order.len() ==> {
        &&& 0 <= #[trigger] order[k] < prio.len()
        &&& prio[order[k] as int] is Some
    }
    &&& forall|i: int| 0 <= i < prio.len() && prio[i] is Some ==> #[trigger] order.contains(
        i as usize,
    )
    &&& forall|k: int, l: int|
        0 <= k < l < order.len() ==> runs_before(prio, #[trigger] order[k] as int, #[trigger] order[l] as int)
}

/// The indices of the present entries of `prio`, stably sorted by priority
/// (the `sort_by_key` of the modules that the loaded plugins export).
pub fn dispatch_order(prio: &Vec<Option<u8>>) -> (order: Vec<usize>)
    ensures
        is_dispatch_order(prio@, order@),
{
    let n = prio.len();
    let mut order: Vec<usize> = Vec::new();
    let mut p: u16 = 0;
    while p < 256
        invariant
            n == prio.len(),
            p <= 256,
            forall|k: int| 0 <= k < order@.len() ==> {
                &&& 0 <= #[trigger] order@[k] < n
                &&& prio@[order@[k] as int] is Some
                &&& prio@[order@[k] as int]->0 < p
            },
            forall|i: int|
                0 <= i < n && prio@[i] is Some && prio@[i]->0 < p ==> #[trigger] order@.contains(
                    i as usize,
                ),
            forall|k: int, l: int|
                0 <= k < l < order@.len() ==> runs_before(prio@, #[trigger] order@[k] as int, #[trigger] order@[l] as int),
        decreases 256 - p,
    {
        let mut i: usize = 0;
        let ghost before = order@;
        while i < n
            invariant
                n == prio.len(),
                p < 256,
                i <= n,
                before.len() <= order@.len(),
                forall|k: int| 0 <= k < before.len() ==> order@[k] == before[k],
                forall|k: int| 0 <= k < before.len() ==> {
                    &&& 0 <= #[trigger] before[k] < n
                    &&& prio@[before[k] as int] is Some
                    &&& prio@[before[k] as int]->0 < p
                },
                forall|k: int|
                    before.len() <= k < order@.len() ==> {
                        &&& 0 <= #[trigger] order@[k] < i
                        &&& prio@[order@[k] as int] == Some(p as u8)
                    },
                forall|j: int|
                    0 <= j < n && prio@[j] is Some && prio@[j]->0 < p ==> #[trigger] before.contains(
                        j as usize,
                    ),
                forall|j: int|
                    0 <= j < i && prio@[j] == Some(p as u8) ==> #[trigger] order@.contains(
                        j as usize,
                    ),
                forall|k: int, l: int|
                    0 <= k < l < order@.len() ==> runs_before(prio@, #[trigger] order@[k] as int, #[trigger] order@[l] as int),
            decreases n - i,
        {
            if let Some(q) = prio[i] {
                if q as u16 == p {
                    let ghost prev = order@;
                    order.push(i);
                    assert forall|j: int|
                        0 <= j < n && prio@[j] is Some && prio@[j]->0 < p implies #[trigger] before.contains(
                        j as usize,
                    ) by {}
                    assert forall|j: int|
                        0 <= j <= i && prio@[j] == Some(p as u8) implies #[trigger] order@.contains(
                        j as usize,
                    ) by {
                        if j < i {
                            assert(prev.contains(j as usize));
                            let w = choose|w: int| 0 <= w < prev.len() && prev[w] == j as usize;
                            assert(order@[w] == j as usize);
                        } else {
                            assert(order@[prev.len() as int] == j as usize);
                        }
                    }
                    assert forall|k: int, l: int|
                        0 <= k < l < order@.len() implies runs_before(prio@, #[trigger] order@[k] as int, #[trigger] order@[l] as int) by {
                        if l == prev.len() {
                            if k < before.len() {
                                assert(order@[k] == before[k]);
                            } else {
                                assert(order@[k] == prev[k]);
                            }
                        } else {
                            assert(order@[k] == prev[k]);
                            assert(order@[l] == prev[l]);
                        }
                    }
                }
            }
            i = i + 1;
        }
        assert forall|k: int| 0 <= k < order@.len() implies {
            &&& 0 <= #[trigger] order@[k] < n
            &&& prio@[order@[k] as int] is Some
            &&& prio@[order@[k] as int]->0 < p + 1
        } by {
            if k < before.len() {
                assert(order@[k] == before[k]);
            }
        }
        assert forall|j: int|
            0 <= j < n && prio@[j] is Some && prio@[j]->0 < p + 1 implies #[trigger] order@.contains(
            j as usize,
        ) by {
            if prio@[j]->0 < p {
                assert(before.contains(j as usize));
                let w = choose|w: int| 0 <= w < before.len() && before[w] == j as usize;
                assert(order@[w] == j as usize);
            }
        }
        p = p + 1;
    }
    order
}

} // verus!

verus! {

/// Which callbacks an HTTP module provides, and its priority.
#[derive(Clone, Copy, Debug, PartialEq, Eq, Structural)]
pub struct HttpModuleHooks {
    pub priority: u8,
    pub on_route: bool,
    pub on_request_headers: bool,
    pub on_request_body: bool,
    pub on_response_headers: bool,
    pub on_response_body: bool,
    pub on_trailers: bool,
    pub on_local_reply: bool,
}

/// Which callbacks a TCP module provides, and its priority.
#[derive(Clone, Copy, Debug, PartialEq, Eq, Structural)]
pub struct TcpModuleHooks {
    pub priority: u8,
    pub on_route: bool,
    pub on_connect: bool,
    pub on_data: bool,
    pub on_half_close: bool,
    pub on_close: bool,
}

/// Which callbacks a UDP module provides, and its priority.
#[derive(Clone, Copy, Debug, PartialEq, Eq, Structural)]
pub struct UdpModuleHooks {
    pub priority: u8,
    pub on_route: bool,
    pub on_datagram: bool,
    pub on_session_start: bool,
    pub on_session_end: bool,
}

/// An HTTP module callback.
#[derive(Clone, Copy, Debug, PartialEq, Eq, Structural)]
pub enum HttpHook {
    Route,
    RequestHeaders,
    RequestBody,
    ResponseHeaders,
    ResponseBody,
    Trailers,
    LocalReply,
}

/// A TCP module callback.
#[derive(Clone, Copy, Debug, PartialEq, Eq, Structural)]
pub enum TcpHook {
    Route,
    Connect,
    Data,
    HalfClose,
    Close,
}

/// A UDP module callback.
#[derive(Clone, Copy, Debug, PartialEq, Eq, Structural)]
pub enum UdpHook {
    Route,
    Datagram,
    SessionStart,
    SessionEnd,
}

/// An HTTP phase whose callbacks run for every module, results ignored.
#[derive(Clone, Copy, Debug, PartialEq, Eq, Structural)]
pub enum HttpPhase {
    RequestBody,
    ResponseHeaders,
    ResponseBody { end_of_stream: bool },
}

/// A TCP phase.
#[derive(Clone, Copy, Debug, PartialEq, Eq, Structural)]
pub enum TcpPhase {
    ConnectionInit,
    DataReceived,
    ConnectionClose,
}

/// A UDP phase.
#[derive(Clone, Copy, Debug, PartialEq, Eq, Structural)]
pub enum UdpPhase {
    SessionStart,
    DatagramReceived,
    SessionClose,
}

/// The callbacks of module `i` that an HTTP phase invokes, in order.
pub open spec fn http_module_calls(m: HttpModuleHooks, i: int, phase: HttpPhase) -> Seq<(usize, HttpHook)> {
    match phase {
        HttpPhase::RequestBody => if m.on_request_body {
            seq![(i as usize, HttpHook::RequestBody)]
        } else {
            seq![]
        },
        HttpPhase::ResponseHeaders => if m.on_response_headers {
            seq![(i as usize, HttpHook::ResponseHeaders)]
        } else {
            seq![]
        },
        HttpPhase::ResponseBody { end_of_stream } => (if m.on_response_body {
            seq![(i as usize, HttpHook::ResponseBody)]
        } else {
            seq![]
        }) + (if end_of_stream && m.on_trailers {
            seq![(i as usize, HttpHook::Trailers)]
        } else {
            seq![]
        }),
    }
}

/// The callbacks that an HTTP phase invokes: module by module in dispatch
/// order.
pub open spec fn http_phase_plan(ms: Seq<HttpModuleHooks>, phase: HttpPhase) -> Seq<(usize, HttpHook)>
    decreases ms.len(),
{
    if ms.len() == 0 {
        seq![]
    } else {
        http_phase_plan(ms.drop_last(), phase) + http_module_calls(ms.last(), ms.len() - 1, phase)
    }
}

/// The callbacks of module `i` that a TCP phase invokes, in order.
pub open spec fn tcp_module_calls(m: TcpModuleHooks, i: int, phase: TcpPhase) -> Seq<(usize, TcpHook)> {
    match phase {
        TcpPhase::ConnectionInit => (if m.on_route {
            seq![(i as usize, TcpHook::Route)]
        } else {
            seq![]
        }) + (if m.on_connect {
            seq![(i as usize, TcpHook::Connect)]
        } else {
            seq![]
        }),
        TcpPhase::DataReceived => if m.on_data {
            seq![(i as usize, TcpHook::Data)]
        } else {
            seq![]
        },
        TcpPhase::ConnectionClose => if m.on_close {
            seq![(i as usize, TcpHook::Close)]
        } else {
            seq![]
        },
    }
}

/// The callbacks that a TCP phase invokes: module by module in dispatch
/// order.
pub open spec fn tcp_phase_plan(ms: Seq<TcpModuleHooks>, phase: TcpPhase) -> Seq<(usize, TcpHook)>
    decreases ms.len(),
{
    if ms.len() == 0 {
        seq![]
    } else {
        tcp_phase_plan(ms.drop_last(), phase) + tcp_module_calls(ms.last(), ms.len() - 1, phase)
    }
}

/// The callback of module `i` that a UDP phase invokes, if any.
pub open spec fn udp_module_calls(m: UdpModuleHooks, i: int, phase: UdpPhase) -> Seq<(usize, UdpHook)> {
    match phase {
        UdpPhase::SessionStart => if m.on_session_start {
            seq![(i as usize, UdpHook::SessionStart)]
        } else {
            seq![]
        },
        UdpPhase::DatagramReceived => if m.on_datagram {
            seq![(i as usize, UdpHook::Datagram)]
        } else {
            seq![]
        },
        UdpPhase::SessionClose => if m.on_session_end {
            seq![(i as usize, UdpHook::SessionEnd)]
        } else {
            seq![]
        },
    }
}

/// The callbacks that a UDP phase invokes: module by module in dispatch
/// order.
pub open spec fn udp_phase_plan(ms: Seq<UdpModuleHooks>, phase: UdpPhase) -> Seq<(usize, UdpHook)>
    decreases ms.len(),
{
    if ms.len() == 0 {
        seq![]
    } else {
        udp_phase_plan(ms.drop_last(), phase) + udp_module_calls(ms.last(), ms.len() - 1, phase)
    }
}

/// The callbacks, in order, that an HTTP phase whose results are ignored
/// invokes on the modules `ms` (already in dispatch order).
pub fn http_phase_calls(ms: &Vec<HttpModuleHooks>, phase: HttpPhase) -> (calls: Vec<(usize, HttpHook)>)
    ensures
        calls@ == http_phase_plan(ms@, phase),
{
    let mut calls: Vec<(usize, HttpHook)> = Vec::new();
    let mut i: usize = 0;
    while i < ms.len()
        invariant
            i <= ms.len(),
            calls@ == http_phase_plan(ms@.take(i as int), phase),
        decreases ms.len() - i,
    {
        let m = ms[i];
        let ghost before = calls@;
        match phase {
            HttpPhase::RequestBody => {
                if m.on_request_body {
                    calls.push((i, HttpHook::RequestBody));
                }
            },
            HttpPhase::ResponseHeaders => {
                if m.on_response_headers {
                    calls.push((i, HttpHook::ResponseHeaders));
                }
            },
            HttpPhase::ResponseBody { end_of_stream } => {
                if m.on_response_body {
                    calls.push((i, HttpHook::ResponseBody));
                }
                if end_of_stream && m.on_trailers {
                    calls.push((i, HttpHook::Trailers));
                }
            },
        }
        assert(ms@.take(i + 1).drop_last() =~= ms@.take(i as int));
        assert(calls@ =~= before + http_module_calls(m, i as int, phase));
        i = i + 1;
    }
    assert(ms@.take(i as int) =~= ms@);
    calls
}

/// The callbacks, in order, that a TCP phase invokes on the modules `ms`
/// (already in dispatch order); their results are ignored.
pub fn tcp_phase_calls(ms: &Vec<TcpModuleHooks>, phase: TcpPhase) -> (calls: Vec<(usize, TcpHook)>)
    ensures
        calls@ == tcp_phase_plan(ms@, phase),
{
    let mut calls: Vec<(usize, TcpHook)> = Vec::new();
    let mut i: usize = 0;
    while i < ms.len()
        invariant
            i <= ms.len(),
            calls@ == tcp_phase_plan(ms@.take(i as int), phase),
        decreases ms.len() - i,
    {
        let m = ms[i];
        let ghost before = calls@;
        match phase {
            TcpPhase::ConnectionInit => {
                if m.on_route {
                    calls.push((i, TcpHook::Route));
                }
                if m.on_connect {
                    calls.push((i, TcpHook::Connect));
                }
            },
            TcpPhase::DataReceived => {
                if m.on_data {
                    calls.push((i, TcpHook::Data));
                }
            },
            TcpPhase::ConnectionClose => {
                if m.on_close {
                    calls.push((i, TcpHook::Close));
                }
            },
        }
        assert(ms@.take(i + 1).drop_last() =~= ms@.take(i as int));
        assert(calls@ =~= before + tcp_module_calls(m, i as int, phase));
        i = i + 1;
    }
    assert(ms@.take(i as int) =~= ms@);
    calls
}

/// The callbacks, in order, that a UDP phase invokes on the modules `ms`
/// (already in dispatch order); their results are ignored.
pub fn udp_phase_calls(ms: &Vec<UdpModuleHooks>, phase: UdpPhase) -> (calls: Vec<(usize, UdpHook)>)
    ensures
        calls@ == udp_phase_plan(ms@, phase),
{
    let mut calls: Vec<(usize, UdpHook)> = Vec::new();
    let mut i: usize = 0;
    while i < ms.len()
        invariant
            i <= ms.len(),
            calls@ == udp_phase_plan(ms@.take(i as int), phase),
        decreases ms.len() - i,
    {
        let m = ms[i];
        let ghost before = calls@;
        match phase {
            UdpPhase::SessionStart => {
                if m.on_session_start {
                    calls.push((i, UdpHook::SessionStart));
                }
            },
            UdpPhase::DatagramReceived => {
                if m.on_datagram {
                    calls.push((i, UdpHook::Datagram));
                }
            },
            UdpPhase::SessionClose => {
                if m.on_session_end {
                    calls.push((i, UdpHook::SessionEnd));
                }
            },
        }
        assert(ms@.take(i + 1).drop_last() =~= ms@.take(i as int));
        assert(calls@ =~= before + udp_module_calls(m, i as int, phase));
        i = i + 1;
    }
    assert(ms@.take(i as int) =~= ms@);
    calls
}

} // verus!

verus! {

/// Whether a port is the HTTPS port.
pub fn is_port_https(port: u16) -> (b: bool)
    ensures
        b == (port == 443),
{
    port == 443
}

/// The action of a hook result; a failed hook counts as `Continue`.
pub open spec fn outcome_action(outcome: Result<HookOutcome, PluginError>) -> HookAction {
    match outcome {
        Ok(o) => o.action,
        Err(_) => HookAction::Continue,
    }
}

fn outcome_action_exec(outcome: &Result<HookOutcome, PluginError>) -> (a: HookAction)
    ensures
        a == outcome_action(*outcome),
{
    match outcome {
        Ok(o) => o.action,
        Err(_) => HookAction::Continue,
    }
}

/// The upstream peer that a route decision selects.
#[derive(Clone, Debug)]
pub struct UpstreamChoice {
    pub host: String,
    pub port: u16,
    /// Whether to speak TLS to the upstream: exactly when the port is 443.
    pub tls: bool,
    /// Server name for TLS: the upstream host.
    pub sni: String,
    /// The request path the route asks for.
    pub http_path: String,
}

/// What the host does next while choosing the upstream of an HTTP request.
#[derive(Clone, Debug)]
pub enum UpstreamStep {
    /// Call the route callback of module `i` (in dispatch order).
    CallRoute(usize),
    /// Forward the request to this peer.
    Select(UpstreamChoice),
    /// A plugin dropped the request: answer 503.
    Reject,
    /// No plugin selected an upstream: answer 500.
    NoUpstream,
    /// A route callback failed, so the plugin chain failed: answer the
    /// failure reply.
    ChainFailed,
}

/// The status of the host's default local reply, for a failed plugin chain
/// that left no response.
pub const FALLBACK_REPLY_STATUS: u16 = 500;

/// The local reply to a failed plugin chain: the status, headers and body
/// of the response that a plugin put into the context, else the default
/// reply (status 500, no headers, empty body).
pub open spec fn failure_reply(ctx: HttpContext) -> (u16, Seq<KVPair>, Seq<u8>) {
    match ctx.response {
        Some(r) => (r.status.0, r.headers.0@, r.body.0@),
        None => (FALLBACK_REPLY_STATUS, Seq::empty(), Seq::empty()),
    }
}

/// The local reply to a failed plugin chain.
pub fn chain_failure_reply(ctx: &HttpContext) -> (r: (u16, Headers, Vec<u8>))
    ensures
        (r.0, r.1.0@, r.2@) == failure_reply(*ctx),
{
    match &ctx.response {
        Some(resp) => (resp.status.0, resp.headers.duplicate(), resp.body.duplicate().0),
        None => (FALLBACK_REPLY_STATUS, Headers::new(), Vec::new()),
    }
}

/// The first module at or after `from` that provides a route callback, or
/// `ms.len()`.
pub open spec fn next_route_module(ms: Seq<HttpModuleHooks>, from: int) -> int
    decreases ms.len() - from,
{
    if from < 0 || from >= ms.len() {
        ms.len() as int
    } else if ms[from].on_route {
        from
    } else {
        next_route_module(ms, from + 1)
    }
}

/// Go on with the route callbacks at or after `from`.
pub open spec fn route_advance(ms: Seq<HttpModuleHooks>, from: int) -> UpstreamStep {
    let n = next_route_module(ms, from);
    if n < ms.len() {
        UpstreamStep::CallRoute(n as usize)
    } else {
        UpstreamStep::NoUpstream
    }
}

/// The step after module `i`'s route callback returned `outcome`, leaving
/// the context `ctx`: a failed callback fails the plugin chain; a context
/// without a route decision, a `Continue`, or a `Replace` without an
/// upstream go on with the next module; a `Replace` with an upstream
/// selects it; a `Drop` rejects the request.
pub open spec fn route_transition(
    ms: Seq<HttpModuleHooks>,
    i: int,
    outcome: Result<HookOutcome, PluginError>,
    ctx: HttpContext,
) -> UpstreamStep {
    if outcome is Err {
        UpstreamStep::ChainFailed
    } else {
        match route_of(ctx) {
            None => route_advance(ms, i + 1),
            Some(r) => match outcome_action(outcome) {
                HookAction::Continue => route_advance(ms, i + 1),
                HookAction::Replace => match r.upstream_to_set {
                    None => route_advance(ms, i + 1),
                    Some(u) => UpstreamStep::Select(
                        UpstreamChoice {
                            host: u.host,
                            port: u.port,
                            tls: u.port == 443,
                            sni: u.host,
                            http_path: r.http_path->0,
                        },
                    ),
                },
                HookAction::Drop => UpstreamStep::Reject,
            },
        }
    }
}

fn next_route_module_exec(ms: &Vec<HttpModuleHooks>, from: usize) -> (n: usize)
    requires
        from <= ms.len(),
    ensures
        n == next_route_module(ms@, from as int),
        from <= n <= ms.len(),
    decreases ms.len() - from,
{
    if from >= ms.len() {
        ms.len()
    } else if ms[from].on_route {
        from
    } else {
        next_route_module_exec(ms, from + 1)
    }
}

fn route_advance_exec(ms: &Vec<HttpModuleHooks>, from: usize) -> (s: UpstreamStep)
    requires
        from <= ms.len(),
    ensures
        s == route_advance(ms@, from as int),
{
    let n = next_route_module_exec(ms, from);
    if n < ms.len() {
        UpstreamStep::CallRoute(n)
    } else {
        UpstreamStep::NoUpstream
    }
}

/// A `Replace` whose route decision names an upstream also names the
/// request path (the host rewrites the request target to it).
pub open spec fn replacement_has_path(outcome: Result<HookOutcome, PluginError>, ctx: HttpContext) -> bool {
    match route_of(ctx) {
        Some(r) => outcome_action(outcome) == HookAction::Replace && r.upstream_to_set is Some
            ==> r.http_path is Some,
        None => true,
    }
}

/// Whether a route callback's result meets [`replacement_has_path`].
pub fn replacement_path_ok(outcome: &Result<HookOutcome, PluginError>, ctx: &HttpContext) -> (b: bool)
    ensures
        b == replacement_has_path(*outcome, *ctx),
{
    match &ctx.transport {
        Some(t) => !(outcome_action_exec(outcome) == HookAction::Replace && t.route.upstream_to_set.is_some())
            || t.route.http_path.is_some(),
        None => true,
    }
}

/// The first step of choosing the upstream of an HTTP request.
pub fn upstream_first_step(ms: &Vec<HttpModuleHooks>) -> (s: UpstreamStep)
    ensures
        s == route_advance(ms@, 0),
{
    route_advance_exec(ms, 0)
}

/// The step after module `i`'s route callback returned `outcome` and left
/// the context `ctx`.
pub fn upstream_after_route(
    ms: &Vec<HttpModuleHooks>,
    i: usize,
    outcome: &Result<HookOutcome, PluginError>,
    ctx: &HttpContext,
) -> (s: UpstreamStep)
    requires
        i < ms.len(),
        replacement_has_path(*outcome, *ctx),
    ensures
        s == route_transition(ms@, i as int, *outcome, *ctx),
{
    if outcome.is_err() {
        return UpstreamStep::ChainFailed;
    }
    match ctx.route() {
        None => route_advance_exec(ms, i + 1),
        Some(r) => match outcome_action_exec(outcome) {
            HookAction::Continue => route_advance_exec(ms, i + 1),
            HookAction::Replace => match r.upstream_to_set {
                None => route_advance_exec(ms, i + 1),
                Some(u) => {
                    let tls = is_port_https(u.port);
                    let sni = u.host.clone();
                    UpstreamStep::Select(
                        UpstreamChoice { host: u.host, port: u.port, tls, sni, http_path: r.http_path.unwrap() },
                    )
                },
            },
            HookAction::Drop => UpstreamStep::Reject,
        },
    }
}

/// What the host does next while running the request-header callbacks.
#[derive(Clone, Debug)]
pub enum HeaderStep {
    /// Call the request-header callback of module `i`.
    CallRequestHeaders(usize),
    /// Call the local-reply callback of module `i`.
    CallLocalReply(usize),
    /// Answer the downstream with this status, headers and body; no further
    /// module runs.
    Respond { status: u16, headers: Headers, body: Vec<u8> },
    /// All callbacks ran without a local reply: go on with the request.
    Proceed,
}

/// The abstract content of a [`HeaderStep`].
pub enum HeaderStepModel {
    CallRequestHeaders(int),
    CallLocalReply(int),
    Respond { status: u16, headers: Seq<KVPair>, body: Seq<u8> },
    Proceed,
}

impl HeaderStep {
    pub open spec fn model(&self) -> HeaderStepModel {
        match self {
            HeaderStep::CallRequestHeaders(i) => HeaderStepModel::CallRequestHeaders(*i as int),
            HeaderStep::CallLocalReply(i) => HeaderStepModel::CallLocalReply(*i as int),
            HeaderStep::Respond { status, headers, body } => HeaderStepModel::Respond {
                status: *status,
                headers: headers.0@,
                body: body@,
            },
            HeaderStep::Proceed => HeaderStepModel::Proceed,
        }
    }
}

/// The first module at or after `from` that provides a request-header
/// callback, or `ms.len()`.
pub open spec fn next_header_module(ms: Seq<HttpModuleHooks>, from: int) -> int
    decreases ms.len() - from,
{
    if from < 0 || from >= ms.len() {
        ms.len() as int
    } else if ms[from].on_request_headers {
        from
    } else {
        next_header_module(ms, from + 1)
    }
}

/// Go on with the request-header callbacks at or after `from`.
pub open spec fn header_advance(ms: Seq<HttpModuleHooks>, from: int) -> HeaderStepModel {
    let n = next_header_module(ms, from);
    if n < ms.len() {
        HeaderStepModel::CallRequestHeaders(n)
    } else {
        HeaderStepModel::Proceed
    }
}

/// Answer with the response that the context holds, if any; else go on
/// after module `i`.
pub open spec fn respond_or_advance(ms: Seq<HttpModuleHooks>, i: int, ctx: HttpContext) -> HeaderStepModel {
    match ctx.response {
        Some(r) => HeaderStepModel::Respond { status: r.status.0, headers: r.headers.0@, body: r.body.0@ },
        None => header_advance(ms, i + 1),
    }
}

/// The answer of the failure reply.
pub open spec fn respond_failure(ctx: HttpContext) -> HeaderStepModel {
    HeaderStepModel::Respond {
        status: failure_reply(ctx).0,
        headers: failure_reply(ctx).1,
        body: failure_reply(ctx).2,
    }
}

/// The step after module `i`'s request-header callback returned `outcome`
/// and left `ctx`: a failed callback fails the chain, which is answered
/// with the failure reply; when the context holds a response or the outcome
/// is `Replace`, the module's local-reply callback runs (if it has one) and
/// a response in the context is answered; otherwise the next module runs.
pub open spec fn header_transition(
    ms: Seq<HttpModuleHooks>,
    i: int,
    outcome: Result<HookOutcome, PluginError>,
    ctx: HttpContext,
) -> HeaderStepModel {
    if outcome is Err {
        respond_failure(ctx)
    } else if ctx.response is Some || outcome_action(outcome) == HookAction::Replace {
        if ms[i].on_local_reply {
            HeaderStepModel::CallLocalReply(i)
        } else {
            respond_or_advance(ms, i, ctx)
        }
    } else {
        header_advance(ms, i + 1)
    }
}

fn next_header_module_exec(ms: &Vec<HttpModuleHooks>, from: usize) -> (n: usize)
    requires
        from <= ms.len(),
    ensures
        n == next_header_module(ms@, from as int),
        from <= n <= ms.len(),
    decreases ms.len() - from,
{
    if from >= ms.len() {
        ms.len()
    } else if ms[from].on_request_headers {
        from
    } else {
        next_header_module_exec(ms, from + 1)
    }
}

fn header_advance_exec(ms: &Vec<HttpModuleHooks>, from: usize) -> (s: HeaderStep)
    requires
        from <= ms.len(),
    ensures
        s.model() == header_advance(ms@, from as int),
{
    let n = next_header_module_exec(ms, from);
    if n < ms.len() {
        HeaderStep::CallRequestHeaders(n)
    } else {
        HeaderStep::Proceed
    }
}

fn respond_or_advance_exec(ms: &Vec<HttpModuleHooks>, i: usize, ctx: &HttpContext) -> (s: HeaderStep)
    requires
        i < ms.len(),
    ensures
        s.model() == respond_or_advance(ms@, i as int, *ctx),
{
    match &ctx.response {
        Some(r) => HeaderStep::Respond {
            status: r.status.0,
            headers: r.headers.duplicate(),
            body: r.body.duplicate().0,
        },
        None => header_advance_exec(ms, i + 1),
    }
}

/// The first step of the request-header callbacks.
pub fn headers_first_step(ms: &Vec<HttpModuleHooks>) -> (s: HeaderStep)
    ensures
        s.model() == header_advance(ms@, 0),
{
    header_advance_exec(ms, 0)
}

/// The step after module `i`'s request-header callback returned `outcome`
/// and left `ctx`.
pub fn headers_after_request_headers(
    ms: &Vec<HttpModuleHooks>,
    i: usize,
    outcome: &Result<HookOutcome, PluginError>,
    ctx: &HttpContext,
) -> (s: HeaderStep)
    requires
        i < ms.len(),
    ensures
        s.model() == header_transition(ms@, i as int, *outcome, *ctx),
{
    if outcome.is_err() {
        let (status, headers, body) = chain_failure_reply(ctx);
        return HeaderStep::Respond { status, headers, body };
    }
    if ctx.response.is_some() || outcome_action_exec(outcome) == HookAction::Replace {
        if ms[i].on_local_reply {
            HeaderStep::CallLocalReply(i)
        } else {
            respond_or_advance_exec(ms, i, ctx)
        }
    } else {
        header_advance_exec(ms, i + 1)
    }
}

/// The step after module `i`'s local-reply callback returned `outcome` and
/// left `ctx`: a failed callback fails the chain, which is answered with the
/// failure reply; otherwise a response in the context is answered, or the
/// next module runs.
pub open spec fn local_reply_transition(
    ms: Seq<HttpModuleHooks>,
    i: int,
    outcome: Result<HookOutcome, PluginError>,
    ctx: HttpContext,
) -> HeaderStepModel {
    if outcome is Err {
        respond_failure(ctx)
    } else {
        respond_or_advance(ms, i, ctx)
    }
}

/// The step after module `i`'s local-reply callback returned `outcome` and
/// left `ctx`.
pub fn headers_after_local_reply(
    ms: &Vec<HttpModuleHooks>,
    i: usize,
    outcome: &Result<HookOutcome, PluginError>,
    ctx: &HttpContext,
) -> (s: HeaderStep)
    requires
        i < ms.len(),
    ensures
        s.model() == local_reply_transition(ms@, i as int, *outcome, *ctx),
{
    if outcome.is_err() {
        let (status, headers, body) = chain_failure_reply(ctx);
        return HeaderStep::Respond { status, headers, body };
    }
    respond_or_advance_exec(ms, i, ctx)
}

/// A failing request-phase callback fails the plugin chain: a route
/// callback's failure stops upstream selection, and a request-header or
/// local-reply callback's failure is answered with the failure reply, the
/// plugin's response when the context holds one.
pub proof fn lemma_failed_request_hook_fails_chain(
    ms: Seq<HttpModuleHooks>,
    i: int,
    e: PluginError,
    ctx: HttpContext,
)
    ensures
        route_transition(ms, i, Err(e), ctx) is ChainFailed,
        header_transition(ms, i, Err(e), ctx) == (HeaderStepModel::Respond {
            status: failure_reply(ctx).0,
            headers: failure_reply(ctx).1,
            body: failure_reply(ctx).2,
        }),
        local_reply_transition(ms, i, Err(e), ctx) == header_transition(ms, i, Err(e), ctx),
        ctx.response matches Some(r) ==> failure_reply(ctx) == (r.status.0, r.headers.0@, r.body.0@),
{
}

/// A request-header callback that succeeds and either answers `Replace` or
/// leaves a response in the context hands over to its own module's
/// local-reply callback, when the module has one; a module without one has
/// the response in the context answered, status, headers and body.
pub proof fn lemma_local_reply_callback_follows(
    ms: Seq<HttpModuleHooks>,
    i: int,
    h: HookOutcome,
    ctx: HttpContext,
)
    requires
        0 <= i < ms.len(),
        ctx.response is Some || h.action == HookAction::Replace,
    ensures
        ms[i].on_local_reply ==> header_transition(ms, i, Ok(h), ctx)
            == HeaderStepModel::CallLocalReply(i),
        !ms[i].on_local_reply ==> (ctx.response matches Some(r) ==> header_transition(
            ms,
            i,
            Ok(h),
            ctx,
        ) == (HeaderStepModel::Respond {
            status: r.status.0,
            headers: r.headers.0@,
            body: r.body.0@,
        })),
{
}

/// A route callback that answers `Replace` with a route decision naming an
/// upstream and a path selects exactly that peer: its host and port, TLS
/// exactly when the port is 443, the host as server name, and the path.
pub proof fn lemma_replaced_route_selects_upstream(
    ms: Seq<HttpModuleHooks>,
    i: int,
    h: HookOutcome,
    ctx: HttpContext,
    t: TransportContext,
    u: SocketAddress,
    path: String,
)
    requires
        h.action == HookAction::Replace,
        ctx.transport == Some(t),
        t.route.upstream_to_set == Some(u),
        t.route.http_path == Some(path),
    ensures
        route_transition(ms, i, Ok(h), ctx) matches UpstreamStep::Select(c) && c.host == u.host
            && c.port == u.port && (c.tls <==> u.port == 443) && c.sni == u.host && c.http_path
            == path,
{
}

/// Going on with the request-header callbacks from module `from` calls the
/// first module at or after it that has one, or proceeds when none has.
pub proof fn lemma_header_advance_finds_next(ms: Seq<HttpModuleHooks>, from: int)
    requires
        0 <= from,
    ensures
        header_advance(ms, from) is CallRequestHeaders || header_advance(ms, from) is Proceed,
        header_advance(ms, from) matches HeaderStepModel::CallRequestHeaders(n) ==> from <= n
            < ms.len() && ms[n].on_request_headers && forall|m: int|
            from <= m < n ==> !(#[trigger] ms[m]).on_request_headers,
        header_advance(ms, from) is Proceed ==> forall|m: int|
            from <= m < ms.len() ==> !(#[trigger] ms[m]).on_request_headers,
    decreases ms.len() - from,
{
    if from < ms.len() && !ms[from].on_request_headers {
        lemma_header_advance_finds_next(ms, from + 1);
    }
}

/// Going on with the route callbacks from module `from` calls the first
/// module at or after it that has one; when none has, no upstream was
/// selected.
pub proof fn lemma_route_advance_finds_next(ms: Seq<HttpModuleHooks>, from: int)
    requires
        0 <= from,
        ms.len() <= usize::MAX,
    ensures
        route_advance(ms, from) is CallRoute || route_advance(ms, from) is NoUpstream,
        route_advance(ms, from) matches UpstreamStep::CallRoute(n) ==> from <= n < ms.len()
            && ms[n as int].on_route && forall|m: int|
            from <= m < n ==> !(#[trigger] ms[m]).on_route,
        route_advance(ms, from) is NoUpstream ==> forall|m: int|
            from <= m < ms.len() ==> !(#[trigger] ms[m]).on_route,
    decreases ms.len() - from,
{
    if from < ms.len() && !ms[from].on_route {
        lemma_route_advance_finds_next(ms, from + 1);
    }
}

/// The other outcomes of a request-header callback: a success that neither
/// answers `Replace` nor leaves a response goes on with the next module;
/// after a successful local-reply callback, a response in the context is
/// answered, else the next module runs.
pub proof fn lemma_header_callbacks_go_on(
    ms: Seq<HttpModuleHooks>,
    i: int,
    h: HookOutcome,
    ctx: HttpContext,
)
    requires
        0 <= i < ms.len(),
    ensures
        ctx.response is None && h.action != HookAction::Replace ==> header_transition(
            ms,
            i,
            Ok(h),
            ctx,
        ) == header_advance(ms, i + 1),
        ctx.response matches Some(r) ==> local_reply_transition(ms, i, Ok(h), ctx)
            == (HeaderStepModel::Respond {
            status: r.status.0,
            headers: r.headers.0@,
            body: r.body.0@,
        }),
        ctx.response is None ==> local_reply_transition(ms, i, Ok(h), ctx) == header_advance(
            ms,
            i + 1,
        ),
{
}

/// The other outcomes of a route callback: without a route decision, with
/// `Continue`, or with `Replace` but no upstream, the next module's route
/// callback runs; `Drop` rejects the request.
pub proof fn lemma_route_callbacks_go_on(
    ms: Seq<HttpModuleHooks>,
    i: int,
    h: HookOutcome,
    ctx: HttpContext,
)
    ensures
        ctx.transport is None ==> route_transition(ms, i, Ok(h), ctx) == route_advance(ms, i + 1),
        ctx.transport matches Some(t) ==> {
            &&& h.action == HookAction::Continue ==> route_transition(ms, i, Ok(h), ctx)
                == route_advance(ms, i + 1)
            &&& h.action == HookAction::Replace && t.route.upstream_to_set is None
                ==> route_transition(ms, i, Ok(h), ctx) == route_advance(ms, i + 1)
            &&& h.action == HookAction::Drop ==> route_transition(ms, i, Ok(h), ctx)
                == UpstreamStep::Reject
        },
{
}

/// Whether an HTTP module provides the callback `h`.
pub open spec fn http_provides(m: HttpModuleHooks, h: HttpHook) -> bool {
    match h {
        HttpHook::Route => m.on_route,
        HttpHook::RequestHeaders => m.on_request_headers,
        HttpHook::RequestBody => m.on_request_body,
        HttpHook::ResponseHeaders => m.on_response_headers,
        HttpHook::ResponseBody => m.on_response_body,
        HttpHook::Trailers => m.on_trailers,
        HttpHook::LocalReply => m.on_local_reply,
    }
}

/// Whether the callback `h` belongs to the HTTP phase `phase`; trailers
/// only at the end of the response body.
pub open spec fn http_phase_has(phase: HttpPhase, h: HttpHook) -> bool {
    match phase {
        HttpPhase::RequestBody => h == HttpHook::RequestBody,
        HttpPhase::ResponseHeaders => h == HttpHook::ResponseHeaders,
        HttpPhase::ResponseBody { end_of_stream } => h == HttpHook::ResponseBody || (end_of_stream
            && h == HttpHook::Trailers),
    }
}

/// The order of an HTTP module's callbacks within a phase.
pub open spec fn http_hook_rank(h: HttpHook) -> int {
    match h {
        HttpHook::Route => 0,
        HttpHook::RequestHeaders => 1,
        HttpHook::RequestBody => 2,
        HttpHook::ResponseHeaders => 3,
        HttpHook::ResponseBody => 4,
        HttpHook::Trailers => 5,
        HttpHook::LocalReply => 6,
    }
}

/// An HTTP phase calls exactly the callbacks of that phase that the modules
/// provide: every planned call names a callback its module has, every such
/// callback is planned, and the calls go module by module in order, each
/// module's callbacks in their fixed order, none twice.
pub proof fn lemma_http_phase_plan_is_exact(ms: Seq<HttpModuleHooks>, phase: HttpPhase)
    requires
        ms.len() <= usize::MAX,
    ensures
        forall|k: int|
            0 <= k < http_phase_plan(ms, phase).len() ==> {
                let c = #[trigger] http_phase_plan(ms, phase)[k];
                &&& (c.0 as int) < ms.len()
                &&& http_provides(ms[c.0 as int], c.1)
                &&& http_phase_has(phase, c.1)
            },
        forall|i: int, h: HttpHook|
            0 <= i < ms.len() && http_provides(ms[i], h) && http_phase_has(phase, h) ==> exists|
                k: int,
            |
                0 <= k < http_phase_plan(ms, phase).len() && #[trigger] http_phase_plan(ms, phase)[k]
                    == (i as usize, h),
        forall|k1: int, k2: int|
            0 <= k1 < k2 < http_phase_plan(ms, phase).len() ==> {
                let c1 = #[trigger] http_phase_plan(ms, phase)[k1];
                let c2 = #[trigger] http_phase_plan(ms, phase)[k2];
                c1.0 < c2.0 || (c1.0 == c2.0 && http_hook_rank(c1.1) < http_hook_rank(c2.1))
            },
    decreases ms.len(),
{
    if ms.len() > 0 {
        let pre = ms.drop_last();
        let n = ms.len() - 1;
        lemma_http_phase_plan_is_exact(pre, phase);
        let a = http_phase_plan(pre, phase);
        let b = http_module_calls(ms.last(), n, phase);
        let plan = http_phase_plan(ms, phase);
        assert(plan == a + b);
        assert forall|k: int| 0 <= k < plan.len() implies {
            let c = #[trigger] plan[k];
            &&& (c.0 as int) < ms.len()
            &&& http_provides(ms[c.0 as int], c.1)
            &&& http_phase_has(phase, c.1)
        } by {
            if k < a.len() {
                assert(plan[k] == a[k]);
                assert(ms[a[k].0 as int] == pre[a[k].0 as int]);
            } else {
                assert(plan[k] == b[k - a.len()]);
            }
        }
        assert forall|i: int, h: HttpHook|
            0 <= i < ms.len() && http_provides(ms[i], h) && http_phase_has(phase, h) implies exists|
                k: int,
            | 0 <= k < plan.len() && #[trigger] plan[k] == (i as usize, h) by {
            if i < n {
                assert(pre[i] == ms[i]);
                let k = choose|k: int| 0 <= k < a.len() && #[trigger] a[k] == (i as usize, h);
                assert(plan[k] == a[k]);
            } else {
                if h == HttpHook::Trailers && b.len() == 2 {
                    assert(plan[a.len() as int + 1] == b[1]);
                } else {
                    assert(plan[a.len() as int] == b[0]);
                }
            }
        }
        assert forall|k1: int, k2: int| 0 <= k1 < k2 < plan.len() implies {
            let c1 = #[trigger] plan[k1];
            let c2 = #[trigger] plan[k2];
            c1.0 < c2.0 || (c1.0 == c2.0 && http_hook_rank(c1.1) < http_hook_rank(c2.1))
        } by {
            if k2 < a.len() {
                assert(plan[k1] == a[k1] && plan[k2] == a[k2]);
            } else if k1 < a.len() {
                assert(plan[k1] == a[k1]);
                assert(plan[k2] == b[k2 - a.len()]);
            } else {
                assert(plan[k1] == b[k1 - a.len()]);
                assert(plan[k2] == b[k2 - a.len()]);
            }
        }
    }
}

/// Whether a TCP module provides the callback `h`.
pub open spec fn tcp_provides(m: TcpModuleHooks, h: TcpHook) -> bool {
    match h {
        TcpHook::Route => m.on_route,
        TcpHook::Connect => m.on_connect,
        TcpHook::Data => m.on_data,
        TcpHook::HalfClose => m.on_half_close,
        TcpHook::Close => m.on_close,
    }
}

/// Whether the callback `h` belongs to the TCP phase `phase`.
pub open spec fn tcp_phase_has(phase: TcpPhase, h: TcpHook) -> bool {
    match phase {
        TcpPhase::ConnectionInit => h == TcpHook::Route || h == TcpHook::Connect,
        TcpPhase::DataReceived => h == TcpHook::Data,
        TcpPhase::ConnectionClose => h == TcpHook::Close,
    }
}

/// The order of a TCP module's callbacks within a phase.
pub open spec fn tcp_hook_rank(h: TcpHook) -> int {
    match h {
        TcpHook::Route => 0,
        TcpHook::Connect => 1,
        TcpHook::Data => 2,
        TcpHook::HalfClose => 3,
        TcpHook::Close => 4,
    }
}

/// A TCP phase calls exactly the callbacks of that phase that the modules
/// provide, module by module in order, each module's callbacks in their
/// fixed order (route before connect), none twice.
pub proof fn lemma_tcp_phase_plan_is_exact(ms: Seq<TcpModuleHooks>, phase: TcpPhase)
    requires
        ms.len() <= usize::MAX,
    ensures
        forall|k: int|
            0 <= k < tcp_phase_plan(ms, phase).len() ==> {
                let c = #[trigger] tcp_phase_plan(ms, phase)[k];
                &&& (c.0 as int) < ms.len()
                &&& tcp_provides(ms[c.0 as int], c.1)
                &&& tcp_phase_has(phase, c.1)
            },
        forall|i: int, h: TcpHook|
            0 <= i < ms.len() && tcp_provides(ms[i], h) && tcp_phase_has(phase, h) ==> exists|
                k: int,
            |
                0 <= k < tcp_phase_plan(ms, phase).len() && #[trigger] tcp_phase_plan(ms, phase)[k]
                    == (i as usize, h),
        forall|k1: int, k2: int|
            0 <= k1 < k2 < tcp_phase_plan(ms, phase).len() ==> {
                let c1 = #[trigger] tcp_phase_plan(ms, phase)[k1];
                let c2 = #[trigger] tcp_phase_plan(ms, phase)[k2];
                c1.0 < c2.0 || (c1.0 == c2.0 && tcp_hook_rank(c1.1) < tcp_hook_rank(c2.1))
            },
    decreases ms.len(),
{
    if ms.len() > 0 {
        let pre = ms.drop_last();
        let n = ms.len() - 1;
        lemma_tcp_phase_plan_is_exact(pre, phase);
        let a = tcp_phase_plan(pre, phase);
        let b = tcp_module_calls(ms.last(), n, phase);
        let plan = tcp_phase_plan(ms, phase);
        assert(plan == a + b);
        assert forall|k: int| 0 <= k < plan.len() implies {
            let c = #[trigger] plan[k];
            &&& (c.0 as int) < ms.len()
            &&& tcp_provides(ms[c.0 as int], c.1)
            &&& tcp_phase_has(phase, c.1)
        } by {
            if k < a.len() {
                assert(plan[k] == a[k]);
                assert(ms[a[k].0 as int] == pre[a[k].0 as int]);
            } else {
                assert(plan[k] == b[k - a.len()]);
            }
        }
        assert forall|i: int, h: TcpHook|
            0 <= i < ms.len() && tcp_provides(ms[i], h) && tcp_phase_has(phase, h) implies exists|
                k: int,
            | 0 <= k < plan.len() && #[trigger] plan[k] == (i as usize, h) by {
            if i < n {
                assert(pre[i] == ms[i]);
                let k = choose|k: int| 0 <= k < a.len() && #[trigger] a[k] == (i as usize, h);
                assert(plan[k] == a[k]);
            } else {
                if h == TcpHook::Connect && b.len() == 2 {
                    assert(plan[a.len() as int + 1] == b[1]);
                } else {
                    assert(plan[a.len() as int] == b[0]);
                }
            }
        }
        assert forall|k1: int, k2: int| 0 <= k1 < k2 < plan.len() implies {
            let c1 = #[trigger] plan[k1];
            let c2 = #[trigger] plan[k2];
            c1.0 < c2.0 || (c1.0 == c2.0 && tcp_hook_rank(c1.1) < tcp_hook_rank(c2.1))
        } by {
            if k2 < a.len() {
                assert(plan[k1] == a[k1] && plan[k2] == a[k2]);
            } else if k1 < a.len() {
                assert(plan[k1] == a[k1]);
                assert(plan[k2] == b[k2 - a.len()]);
            } else {
                assert(plan[k1] == b[k1 - a.len()]);
                assert(plan[k2] == b[k2 - a.len()]);
            }
        }
    }
}

/// Whether a UDP module provides the callback `h`.
pub open spec fn udp_provides(m: UdpModuleHooks, h: UdpHook) -> bool {
    match h {
        UdpHook::Route => m.on_route,
        UdpHook::Datagram => m.on_datagram,
        UdpHook::SessionStart => m.on_session_start,
        UdpHook::SessionEnd => m.on_session_end,
    }
}

/// The callback that belongs to the UDP phase `phase`.
pub open spec fn udp_phase_hook(phase: UdpPhase) -> UdpHook {
    match phase {
        UdpPhase::SessionStart => UdpHook::SessionStart,
        UdpPhase::DatagramReceived => UdpHook::Datagram,
        UdpPhase::SessionClose => UdpHook::SessionEnd,
    }
}

/// A UDP phase calls its callback on exactly the modules that provide it,
/// in module order, each once.
pub proof fn lemma_udp_phase_plan_is_exact(ms: Seq<UdpModuleHooks>, phase: UdpPhase)
    requires
        ms.len() <= usize::MAX,
    ensures
        forall|k: int|
            0 <= k < udp_phase_plan(ms, phase).len() ==> {
                let c = #[trigger] udp_phase_plan(ms, phase)[k];
                &&& (c.0 as int) < ms.len()
                &&& c.1 == udp_phase_hook(phase)
                &&& udp_provides(ms[c.0 as int], c.1)
            },
        forall|i: int|
            0 <= i < ms.len() && udp_provides(#[trigger] ms[i], udp_phase_hook(phase)) ==> exists|
                k: int,
            |
                0 <= k < udp_phase_plan(ms, phase).len() && #[trigger] udp_phase_plan(ms, phase)[k]
                    == (i as usize, udp_phase_hook(phase)),
        forall|k1: int, k2: int|
            0 <= k1 < k2 < udp_phase_plan(ms, phase).len() ==> (#[trigger] udp_phase_plan(
                ms,
                phase,
            )[k1]).0 < (#[trigger] udp_phase_plan(ms, phase)[k2]).0,
    decreases ms.len(),
{
    if ms.len() > 0 {
        let pre = ms.drop_last();
        let n = ms.len() - 1;
        lemma_udp_phase_plan_is_exact(pre, phase);
        let a = udp_phase_plan(pre, phase);
        let b = udp_module_calls(ms.last(), n, phase);
        let plan = udp_phase_plan(ms, phase);
        assert(plan == a + b);
        assert forall|k: int| 0 <= k < plan.len() implies {
            let c = #[trigger] plan[k];
            &&& (c.0 as int) < ms.len()
            &&& c.1 == udp_phase_hook(phase)
            &&& udp_provides(ms[c.0 as int], c.1)
        } by {
            if k < a.len() {
                assert(plan[k] == a[k]);
                assert(ms[a[k].0 as int] == pre[a[k].0 as int]);
            } else {
                assert(plan[k] == b[k - a.len()]);
            }
        }
        assert forall|i: int|
            0 <= i < ms.len() && udp_provides(#[trigger] ms[i], udp_phase_hook(phase)) implies exists|
                k: int,
            | 0 <= k < plan.len() && #[trigger] plan[k] == (i as usize, udp_phase_hook(phase)) by {
            if i < n {
                assert(pre[i] == ms[i]);
                let k = choose|k: int|
                    0 <= k < a.len() && #[trigger] a[k] == (i as usize, udp_phase_hook(phase));
                assert(plan[k] == a[k]);
            } else {
                assert(plan[a.len() as int] == b[0]);
            }
        }
        assert forall|k1: int, k2: int| 0 <= k1 < k2 < plan.len() implies (#[trigger] plan[k1]).0 < (
        #[trigger] plan[k2]).0 by {
            if k2 < a.len() {
                assert(plan[k1] == a[k1] && plan[k2] == a[k2]);
            } else if k1 < a.len() {
                assert(plan[k1] == a[k1]);
                assert(plan[k2] == b[k2 - a.len()]);
            } else {
                assert(plan[k1] == b[k1 - a.len()]);
                assert(plan[k2] == b[k2 - a.len()]);
            }
        }
    }
}

/// The step after a callback returned `outcome` and left `ctx`, from step
/// `s`: a call moves on by that callback's transition; an answer or
/// `Proceed` ends the request-header chain and stays.
pub open spec fn header_next(
    ms: Seq<HttpModuleHooks>,
    s: HeaderStepModel,
    outcome: Result<HookOutcome, PluginError>,
    ctx: HttpContext,
) -> HeaderStepModel {
    match s {
        HeaderStepModel::CallRequestHeaders(i) => header_transition(ms, i, outcome, ctx),
        HeaderStepModel::CallLocalReply(i) => local_reply_transition(ms, i, outcome, ctx),
        _ => s,
    }
}

/// Where the request-header chain stands after the callbacks it called
/// returned `results` in turn, each with the context it left.
pub open spec fn header_run(
    ms: Seq<HttpModuleHooks>,
    results: Seq<(Result<HookOutcome, PluginError>, HttpContext)>,
) -> HeaderStepModel
    decreases results.len(),
{
    if results.len() == 0 {
        header_advance(ms, 0)
    } else {
        header_next(ms, header_run(ms, results.drop_last()), results.last().0, results.last().1)
    }
}

/// The step calls a callback.
pub open spec fn header_calls(s: HeaderStepModel) -> bool {
    s is CallRequestHeaders || s is CallLocalReply
}

/// A failing request-header or local-reply callback ends the chain: from
/// the failure on, the chain answers the failure reply and calls no
/// further callback, whatever results would follow.
pub proof fn lemma_failed_header_callback_ends_run(
    ms: Seq<HttpModuleHooks>,
    results: Seq<(Result<HookOutcome, PluginError>, HttpContext)>,
    k: int,
    m: int,
)
    requires
        0 <= k < m <= results.len(),
        header_calls(header_run(ms, results.take(k))),
        results[k].0 is Err,
    ensures
        header_run(ms, results.take(m)) == respond_failure(results[k].1),
        !header_calls(header_run(ms, results.take(m))),
    decreases m - k,
{
    if m > k + 1 {
        lemma_failed_header_callback_ends_run(ms, results, k, m - 1);
    }
    assert(results.take(m).drop_last() =~= results.take(m - 1));
}

/// The step after a route callback returned `outcome` and left `ctx`, from
/// step `s`: a call moves on by the route transition; any other step ends
/// upstream selection and stays.
pub open spec fn upstream_next(
    ms: Seq<HttpModuleHooks>,
    s: UpstreamStep,
    outcome: Result<HookOutcome, PluginError>,
    ctx: HttpContext,
) -> UpstreamStep {
    match s {
        UpstreamStep::CallRoute(i) => route_transition(ms, i as int, outcome, ctx),
        _ => s,
    }
}

/// Where upstream selection stands after the route callbacks it called
/// returned `results` in turn, each with the context it left.
pub open spec fn upstream_run(
    ms: Seq<HttpModuleHooks>,
    results: Seq<(Result<HookOutcome, PluginError>, HttpContext)>,
) -> UpstreamStep
    decreases results.len(),
{
    if results.len() == 0 {
        route_advance(ms, 0)
    } else {
        upstream_next(ms, upstream_run(ms, results.drop_last()), results.last().0, results.last().1)
    }
}

/// A failing route callback ends upstream selection: from the failure on,
/// the plugin chain has failed and no further route callback is called.
pub proof fn lemma_failed_route_callback_ends_run(
    ms: Seq<HttpModuleHooks>,
    results: Seq<(Result<HookOutcome, PluginError>, HttpContext)>,
    k: int,
    m: int,
)
    requires
        0 <= k < m <= results.len(),
        upstream_run(ms, results.take(k)) is CallRoute,
        results[k].0 is Err,
    ensures
        upstream_run(ms, results.take(m)) is ChainFailed,
    decreases m - k,
{
    if m > k + 1 {
        lemma_failed_route_callback_ends_run(ms, results, k, m - 1);
    }
    assert(results.take(m).drop_last() =~= results.take(m - 1));
}

} // verus!

verus! {

/// The request target that a route decision's path asks for: the path
/// followed directly by the query of the current request target, if any.
pub open spec fn rewritten_target(ctx: HttpContext, query: Option<Seq<char>>) -> Option<Seq<char>> {
    match route_of(ctx) {
        Some(r) => match r.http_path {
            Some(p) => Some(
                p@ + match query {
                    Some(q) => q,
                    None => Seq::empty(),
                },
            ),
            None => None,
        },
        None => None,
    }
}

/// The new request target when the context's route decision carries a path
/// (`None` leaves the request target as it is).
pub fn request_target_rewrite(ctx: &HttpContext, query: Option<&str>) -> (r: Option<String>)
    ensures
        match rewritten_target(*ctx, match query {
            Some(q) => Some(q@),
            None => None,
        }) {
            Some(t) => r matches Some(s) && s@ == t,
            None => r is None,
        },
{
    match ctx.route() {
        Some(route) => match route.http_path {
            Some(p) => {
                let mut out = crate::text::chars_of(p.as_str());
                if let Some(q) = query {
                    crate::text::push_str(&mut out, q);
                }
                proof {
                    if query is None {
                        assert(out@ =~= p@ + Seq::<char>::empty());
                    }
                }
                Some(crate::text::string_of(&out))
            },
            None => None,
        },
        None => None,
    }
}

/// The route decision of `ctx` carries a path only together with an
/// upstream (the host header is taken from that upstream).
pub open spec fn path_has_upstream(ctx: HttpContext) -> bool {
    match route_of(ctx) {
        Some(r) => r.http_path is Some ==> r.upstream_to_set is Some,
        None => true,
    }
}

/// The `Host` header to set on the upstream request: the upstream host of a
/// route decision that carries a path.
pub fn upstream_host_header(ctx: &HttpContext) -> (r: Option<String>)
    requires
        path_has_upstream(*ctx),
    ensures
        match route_of(*ctx) {
            Some(route) => if route.http_path is Some {
                r == Some(route.upstream_to_set->0.host)
            } else {
                r is None
            },
            None => r is None,
        },
{
    match ctx.route() {
        Some(route) => {
            if route.http_path.is_some() {
                match route.upstream_to_set {
                    Some(u) => Some(u.host),
                    None => None,
                }
            } else {
                None
            }
        },
        None => None,
    }
}

/// Puts a body chunk into the request of `ctx`, when both exist: the
/// request body becomes the chunk, so that a body hook sees the chunk it is
/// invoked for rather than the body buffered so far.
pub fn populate_req_body_into_ctx(body: &Option<Vec<u8>>, ctx: &mut HttpContext)
    ensures
        final(ctx).response == old(ctx).response,
        final(ctx).transport == old(ctx).transport,
        match (old(ctx).request, body) {
            (Some(req), Some(c)) => final(ctx).request matches Some(nreq) && nreq.body.0@ == c@
                && nreq == (crate::abi::HttpRequest { body: nreq.body, ..req }),
            _ => final(ctx).request == old(ctx).request,
        },
{
    if let Some(c) = body {
        if let Some(req) = &mut ctx.request {
            req.body = Bytes(vstd::slice::slice_to_vec(c.as_slice()));
        }
    }
}

/// Puts a body chunk into the response of `ctx`, when both exist: the
/// response body becomes the chunk, so that a body hook sees the chunk it
/// is invoked for rather than the body buffered so far.
pub fn populate_resp_body_into_ctx(body: &Option<Vec<u8>>, ctx: &mut HttpContext)
    ensures
        final(ctx).request == old(ctx).request,
        final(ctx).transport == old(ctx).transport,
        match (old(ctx).response, body) {
            (Some(resp), Some(c)) => final(ctx).response matches Some(nresp) && nresp.body.0@ == c@
                && nresp == (crate::abi::HttpResponse { body: nresp.body, ..resp }),
            _ => final(ctx).response == old(ctx).response,
        },
{
    if let Some(c) = body {
        if let Some(resp) = &mut ctx.response {
            resp.body = Bytes(vstd::slice::slice_to_vec(c.as_slice()));
        }
    }
}

} // verus!

verus! {

/// Where running the callbacks of a phase stands.
#[derive(Clone, Copy, Debug, PartialEq, Eq, Structural)]
pub enum PhaseProgress {
    /// Run the callback at this position of the phase's call list.
    Call(usize),
    /// Every callback ran and succeeded.
    Finished,
    /// A callback failed: the plugin chain failed, and no later callback of
    /// the phase runs.
    ChainFailed,
}

/// The first step of a phase whose call list has `total` entries.
pub fn phase_start(total: usize) -> (p: PhaseProgress)
    ensures
        total == 0 ==> p == PhaseProgress::Finished,
        total > 0 ==> p == PhaseProgress::Call(0),
{
    if total == 0 {
        PhaseProgress::Finished
    } else {
        PhaseProgress::Call(0)
    }
}

/// The step after the callback at position `done` of a call list of
/// `total` entries succeeded (`ok`) or failed.
pub fn phase_after_call(done: usize, total: usize, ok: bool) -> (p: PhaseProgress)
    requires
        done < total,
    ensures
        !ok ==> p == PhaseProgress::ChainFailed,
        ok && done + 1 < total ==> p == PhaseProgress::Call((done + 1) as usize),
        ok && done + 1 == total ==> p == PhaseProgress::Finished,
{
    if !ok {
        PhaseProgress::ChainFailed
    } else if done + 1 < total {
        PhaseProgress::Call(done + 1)
    } else {
        PhaseProgress::Finished
    }
}

} // verus!
