//! The data exchanged between the host and plugins: identifiers, buffers,
//! versions, manifests, init contexts, transport metadata, HTTP messages,
//! route decisions and hook outcomes.

use vstd::prelude::*;
use crate::text::{
    all_digits, chars_of, decimal, is_digit, lemma_decimal_spells, lemma_first_match_skip,
    lemma_parse_u8_decimal, match_at, parse_u8, parse_u8_chars, push_decimal, split, split_chars,
    split_from, string_of,
};

verus! {

/// Stable unique identifier.
#[derive(Clone, Copy, Debug, PartialEq, Eq, Structural)]
pub struct ID(pub u64);

/// Draws a random `u64` (`rand::random`).
#[verifier::external_body]
fn random_u64() -> u64 {
    rand::random::<u64>()
}

impl ID {
    /// A fresh random identifier. Any value may come back.
    pub fn new() -> (id: ID) {
        ID(random_u64())
    }
}

/// Generic byte buffer.
#[derive(Clone, Debug, Default)]
pub struct Bytes(pub Vec<u8>);

impl Bytes {
    /// An empty buffer.
    pub fn new() -> (b: Bytes)
        ensures
            b.0@ == Seq::<u8>::empty(),
    {
        Bytes(Vec::new())
    }

    /// A buffer holding a copy of `data`.
    pub fn from_slice(data: &[u8]) -> (b: Bytes)
        ensures
            b.0@ == data@,
    {
        Bytes(vstd::slice::slice_to_vec(data))
    }

    /// A copy of this buffer.
    pub fn duplicate(&self) -> (b: Bytes)
        ensures
            b.0@ == self.0@,
    {
        Bytes(vstd::slice::slice_to_vec(self.0.as_slice()))
    }
}

/// HTTP status code.
#[derive(Clone, Copy, Debug, PartialEq, Eq, Structural)]
pub struct HttpStatus(pub u16);

/// Semantic version of a plugin or of the host ABI.
#[derive(Clone, Copy, Debug, PartialEq, Eq, Structural)]
pub struct SemVer {
    /// Major version for incompatible ABI changes.
    pub major: u8,
    /// Minor version for backward-compatible ABI additions.
    pub minor: u8,
    /// Patch version for fixes without ABI surface changes.
    pub patch: u8,
}

/// The dot-separated components of a version string.
pub open spec fn version_parts(s: Seq<char>) -> Seq<Seq<char>> {
    split(s, seq!['.'])
}

/// `s` holds at least three dot-separated components and the first three
/// each parse as a `u8`; further components are never read.
pub open spec fn is_version_string(s: Seq<char>) -> bool {
    let p = version_parts(s);
    &&& p.len() >= 3
    &&& parse_u8(p[0]) is Some
    &&& parse_u8(p[1]) is Some
    &&& parse_u8(p[2]) is Some
}

impl SemVer {
    /// Parses `major.minor.patch`. Inputs that do not hold three leading
    /// `u8` components are outside the domain (the reading panics on them).
    pub fn from_string(input: String) -> (v: SemVer)
        requires
            is_version_string(input@),
        ensures
            v.major == parse_u8(version_parts(input@)[0])->0,
            v.minor == parse_u8(version_parts(input@)[1])->0,
            v.patch == parse_u8(version_parts(input@)[2])->0,
    {
        let chars = chars_of(input.as_str());
        let mut dot: Vec<char> = Vec::new();
        dot.push('.');
        assert(dot@ =~= seq!['.']);
        let parts = split_chars(&chars, &dot);
        assert(parts@[0]@ == version_parts(input@)[0]);
        assert(parts@[1]@ == version_parts(input@)[1]);
        assert(parts@[2]@ == version_parts(input@)[2]);
        let major = parse_u8_chars(&parts[0]);
        let minor = parse_u8_chars(&parts[1]);
        let patch = parse_u8_chars(&parts[2]);
        SemVer { major: major.unwrap(), minor: minor.unwrap(), patch: patch.unwrap() }
    }
}

/// `major.minor.patch`, each component in decimal.
pub open spec fn version_text(v: SemVer) -> Seq<char> {
    decimal(v.major as nat) + seq!['.'] + decimal(v.minor as nat) + seq!['.'] + decimal(
        v.patch as nat,
    )
}

proof fn lemma_split_dot_piece(s: Seq<char>, start: int, k: int)
    requires
        0 <= start <= k < s.len(),
        s[k] == '.',
        forall|j: int| start <= j < k ==> s[j] != '.',
    ensures
        split_from(s, seq!['.'], start) == seq![s.subrange(start, k)] + split_from(
            s,
            seq!['.'],
            k + 1,
        ),
{
    let sep = seq!['.'];
    assert forall|j: int| start <= j < k implies !match_at(s, sep, j) by {
        if match_at(s, sep, j) {
            assert(s.subrange(j, j + 1)[0] == s[j]);
        }
    }
    lemma_first_match_skip(s, sep, start, k);
    assert(s.subrange(k, k + 1) =~= sep);
}

proof fn lemma_split_dot_last(s: Seq<char>, start: int)
    requires
        0 <= start <= s.len(),
        forall|j: int| start <= j < s.len() ==> s[j] != '.',
    ensures
        split_from(s, seq!['.'], start) == seq![s.subrange(start, s.len() as int)],
{
    let sep = seq!['.'];
    if start < s.len() {
        assert forall|j: int| start <= j < s.len() implies !match_at(s, sep, j) by {
            if match_at(s, sep, j) {
                assert(s.subrange(j, j + 1)[0] == s[j]);
            }
        }
        lemma_first_match_skip(s, sep, start, s.len() as int);
    }
}

proof fn lemma_digits_hold_no_dot(d: Seq<char>)
    requires
        all_digits(d),
    ensures
        forall|j: int| 0 <= j < d.len() ==> d[j] != '.',
{
    assert forall|j: int| 0 <= j < d.len() implies d[j] != '.' by {
        assert(is_digit(d[j]));
    }
}

/// A version written as `major.minor.patch` reads back as the same version.
pub proof fn lemma_version_text_round_trip(v: SemVer)
    ensures
        is_version_string(version_text(v)),
        parse_u8(version_parts(version_text(v))[0]) == Some(v.major),
        parse_u8(version_parts(version_text(v))[1]) == Some(v.minor),
        parse_u8(version_parts(version_text(v))[2]) == Some(v.patch),
{
    let a = decimal(v.major as nat);
    let b = decimal(v.minor as nat);
    let c = decimal(v.patch as nat);
    let s = version_text(v);
    lemma_decimal_spells(v.major as nat);
    lemma_decimal_spells(v.minor as nat);
    lemma_decimal_spells(v.patch as nat);
    lemma_digits_hold_no_dot(a);
    lemma_digits_hold_no_dot(b);
    lemma_digits_hold_no_dot(c);
    lemma_parse_u8_decimal(v.major);
    lemma_parse_u8_decimal(v.minor);
    lemma_parse_u8_decimal(v.patch);
    let i = a.len() as int;
    let k = i + 1 + b.len();
    assert forall|j: int| 0 <= j < i implies s[j] != '.' by {
        assert(s[j] == a[j]);
    }
    assert(s[i] == '.');
    assert forall|j: int| i + 1 <= j < k implies s[j] != '.' by {
        assert(s[j] == b[j - i - 1]);
    }
    assert(s[k] == '.');
    assert forall|j: int| k + 1 <= j < s.len() implies s[j] != '.' by {
        assert(s[j] == c[j - k - 1]);
    }
    lemma_split_dot_piece(s, 0, i);
    lemma_split_dot_piece(s, i + 1, k);
    lemma_split_dot_last(s, k + 1);
    assert(s.subrange(0, i) =~= a);
    assert(s.subrange(i + 1, k) =~= b);
    assert(s.subrange(k + 1, s.len() as int) =~= c);
    let p = version_parts(s);
    assert(p =~= seq![a, b, c]);
}

/// Name/value pair.
#[derive(Clone, Debug)]
pub struct KVPair {
    pub name: String,
    pub value: String,
}

impl KVPair {
    /// A copy of this pair.
    pub fn duplicate(&self) -> (p: KVPair)
        ensures
            p == *self,
    {
        KVPair { name: self.name.clone(), value: self.value.clone() }
    }
}

/// HTTP header list, in wire order.
#[derive(Clone, Debug, Default)]
pub struct Headers(pub Vec<KVPair>);

impl Headers {
    /// A copy of this header list.
    pub fn duplicate(&self) -> (h: Headers)
        ensures
            h.0@ == self.0@,
    {
        let mut out: Vec<KVPair> = Vec::new();
        let mut i: usize = 0;
        while i < self.0.len()
            invariant
                i <= self.0.len(),
                out@ == self.0@.take(i as int),
            decreases self.0.len() - i,
        {
            out.push(self.0[i].duplicate());
            i = i + 1;
            assert(out@ =~= self.0@.take(i as int));
        }
        assert(self.0@.take(i as int) =~= self.0@);
        Headers(out)
    }

    /// An empty header list.
    pub fn new() -> (h: Headers)
        ensures
            h.0@ == Seq::<KVPair>::empty(),
    {
        Headers(Vec::new())
    }
}

/// Environment snapshot (simple key/value list).
#[derive(Clone, Debug)]
pub struct EnvSnapshot {
    pub entries: Vec<KVPair>,
}

/// Plugin manifest describing capabilities and metadata.
#[derive(Clone, Debug)]
pub struct PluginManifest {
    /// Stable plugin name.
    pub name: String,
    /// Plugin version.
    pub version: SemVer,
}

/// Plugin init context provided at startup.
#[derive(Clone, Debug)]
pub struct PluginInitContext {
    /// Absolute plugin library path.
    pub library_path: String,
    /// Optional resolved plugin directory.
    pub plugin_dir: Option<String>,
    /// Runtime version info.
    pub host_version: SemVer,
    /// Startup environment snapshot.
    pub env: EnvSnapshot,
}

/// Plugin error object.
#[derive(Clone, Debug)]
pub struct PluginError {
    pub message: Option<String>,
}

/// Socket endpoint.
#[derive(Clone, Debug)]
pub struct SocketAddress {
    pub host: String,
    pub port: u16,
}

/// `host:port`, the port in decimal.
pub open spec fn host_port_text(host: Seq<char>, port: u16) -> Seq<char> {
    host + seq![':'] + decimal(port as nat)
}

impl SocketAddress {
    /// A copy of this endpoint.
    pub fn duplicate(&self) -> (a: SocketAddress)
        ensures
            a == *self,
    {
        SocketAddress { host: self.host.clone(), port: self.port }
    }

    /// The endpoint written as `host:port`.
    pub fn to_host_port_string(&self) -> (s: String)
        ensures
            s@ == host_port_text(self.host@, self.port),
    {
        let mut out = chars_of(self.host.as_str());
        out.push(':');
        push_decimal(self.port as u64, &mut out);
        string_of(&out)
    }
}

/// A copy of an optional string.
pub fn duplicate_opt_string(s: &Option<String>) -> (r: Option<String>)
    ensures
        r == *s,
{
    match s {
        Some(v) => Some(v.clone()),
        None => None,
    }
}

/// A copy of an optional endpoint.
pub fn duplicate_opt_address(a: &Option<SocketAddress>) -> (r: Option<SocketAddress>)
    ensures
        r == *a,
{
    match a {
        Some(v) => Some(v.duplicate()),
        None => None,
    }
}

/// Transport protocol.
#[derive(Clone, Copy, Debug, PartialEq, Eq, Structural)]
pub enum TransportProtocol {
    Tcp,
    Udp,
}

/// Transport connection metadata: a logical transport connection.
#[derive(Clone, Debug)]
pub struct ConnectionInfo {
    /// Runtime-generated ID.
    pub id: ID,
    /// Local bound address.
    pub local_addr: SocketAddress,
    /// Peer/client address.
    pub peer_addr: Option<SocketAddress>,
    /// Transport protocol.
    pub protocol: TransportProtocol,
}

/// Direction of a chunk of a flow.
#[derive(Clone, Copy, Debug, PartialEq, Eq, Structural)]
pub enum FlowDirection {
    Inbound,
    Outbound,
}

/// Transport metadata and the current route decision of a flow.
#[derive(Clone, Debug)]
pub struct TransportContext {
    pub connection: ConnectionInfo,
    pub direction: Option<FlowDirection>,
    pub route: RouteDecision,
}

/// HTTP protocol version.
#[derive(Clone, Copy, Debug, PartialEq, Eq, Structural)]
pub enum HttpVersion {
    Http10,
    Http11,
    Http2,
    Http3,
}

/// HTTP request.
#[derive(Clone, Debug)]
pub struct HttpRequest {
    pub stream_id: ID,
    pub version: HttpVersion,
    pub is_tls: bool,
    pub method: String,
    pub authority: String,
    pub path: String,
    pub headers: Headers,
    pub body: Bytes,
}

/// HTTP response.
#[derive(Clone, Debug)]
pub struct HttpResponse {
    pub stream_id: ID,
    pub version: HttpVersion,
    pub status: HttpStatus,
    pub headers: Headers,
    pub body: Bytes,
}

/// Routing action.
#[derive(Clone, Copy, Debug, PartialEq, Eq, Structural)]
pub enum RouteAction {
    /// Keep existing upstream.
    Keep,
    /// Replace upstream target.
    ReplaceUpstream,
    /// Reject request/connection.
    Reject,
    /// Return synthetic response.
    SyntheticResponse,
}

/// Routing metadata passed from the host runtime into plugin route hooks.
#[derive(Clone, Debug)]
pub struct RouteDecision {
    /// Selected action.
    pub action: RouteAction,
    /// Optional replacement upstream.
    pub upstream_to_set: Option<SocketAddress>,
    /// HTTP path, ignored in TCP and UDP contexts.
    pub http_path: Option<String>,
}

/// The default route decision: keep the upstream, nothing replaced.
pub open spec fn default_route(r: RouteDecision) -> bool {
    &&& r.action == RouteAction::Keep
    &&& r.upstream_to_set is None
    &&& r.http_path is None
}

impl RouteDecision {
    /// The default decision: `Keep`, no upstream, no path.
    pub fn keep() -> (r: RouteDecision)
        ensures
            default_route(r),
    {
        RouteDecision { action: RouteAction::Keep, upstream_to_set: None, http_path: None }
    }

    /// A copy of this decision.
    pub fn duplicate(&self) -> (r: RouteDecision)
        ensures
            r == *self,
    {
        RouteDecision {
            action: self.action,
            upstream_to_set: duplicate_opt_address(&self.upstream_to_set),
            http_path: duplicate_opt_string(&self.http_path),
        }
    }
}

/// HTTP request/response view passed to HTTP plugin callbacks.
#[derive(Clone, Debug)]
pub struct HttpContext {
    pub request: Option<HttpRequest>,
    pub response: Option<HttpResponse>,
    pub transport: Option<TransportContext>,
}

/// The route decision that a context carries, if it has transport metadata.
pub open spec fn route_of(ctx: HttpContext) -> Option<RouteDecision> {
    match ctx.transport {
        Some(t) => Some(t.route),
        None => None,
    }
}

/// What storing `route` in `c0` gives: it succeeds exactly when the context
/// has transport metadata, and then only the route decision changes;
/// otherwise nothing changes.
pub open spec fn route_set(c0: HttpContext, c1: HttpContext, route: RouteDecision, ok: bool) -> bool {
    &&& ok == c0.transport is Some
    &&& c1.request == c0.request
    &&& c1.response == c0.response
    &&& !ok ==> c1 == c0
    &&& ok ==> c1.transport == Some(TransportContext { route: route, ..c0.transport->0 })
}

/// Reading the route after storing one gives the stored decision; without
/// transport metadata the store changes nothing and there is no route to
/// read. Storing twice keeps the second decision.
pub proof fn lemma_route_after_set_route(
    c0: HttpContext,
    c1: HttpContext,
    c2: HttpContext,
    d1: RouteDecision,
    d2: RouteDecision,
    ok1: bool,
    ok2: bool,
)
    requires
        route_set(c0, c1, d1, ok1),
        route_set(c1, c2, d2, ok2),
    ensures
        ok1 ==> route_of(c1) == Some(d1),
        !ok1 ==> c1 == c0 && route_of(c1) is None,
        ok2 == ok1,
        ok2 ==> route_of(c2) == Some(d2) && c2 == (HttpContext {
            transport: Some(TransportContext { route: d2, ..c0.transport->0 }),
            ..c0
        }),
{
}

impl HttpContext {
    /// A context with no request, response or transport.
    pub fn empty() -> (ctx: HttpContext)
        ensures
            ctx.request is None,
            ctx.response is None,
            ctx.transport is None,
    {
        HttpContext { request: None, response: None, transport: None }
    }

    /// The current route decision, if the context has transport metadata.
    pub fn route(&self) -> (r: Option<RouteDecision>)
        ensures
            r == route_of(*self),
    {
        match &self.transport {
            Some(t) => Some(t.route.duplicate()),
            None => None,
        }
    }

    /// Stores `route` as the route decision. Returns false, and changes
    /// nothing, when the context has no transport metadata.
    pub fn set_route(&mut self, route: RouteDecision) -> (ok: bool)
        ensures
            route_set(*old(self), *final(self), route, ok),
    {
        match &mut self.transport {
            Some(t) => {
                t.route = route;
                true
            },
            None => false,
        }
    }
}

/// TCP hook context.
#[derive(Clone, Debug)]
pub struct TCPContext {
    pub chunk: Option<Bytes>,
    pub meta: TransportContext,
}

/// UDP hook context.
#[derive(Clone, Debug)]
pub struct UDPContext {
    pub datagram: Option<Bytes>,
    pub meta: TransportContext,
}

/// Generic hook action.
#[derive(Clone, Copy, Debug, PartialEq, Eq, Structural)]
pub enum HookAction {
    /// Continue normal runtime execution.
    Continue,
    /// Replace current object/message.
    Replace,
    /// Drop/terminate flow.
    Drop,
}

/// Generic hook result.
#[derive(Clone, Copy, Debug, PartialEq, Eq, Structural)]
pub struct HookOutcome {
    pub action: HookAction,
}

impl HookOutcome {
    /// The outcome `Continue`, which a failed hook also counts as.
    pub fn proceed() -> (o: HookOutcome)
        ensures
            o.action == HookAction::Continue,
    {
        HookOutcome { action: HookAction::Continue }
    }
}

/// Opaque handle to a plugin-owned module instance.
pub struct PluginInstanceOpaque {
    _private: [u8; 0],
}

} // verus!

verus! {

impl Headers {
    /// Headers from name/value pairs in wire order; a value that is not
    /// visible ASCII (`None`) becomes empty.
    pub fn from_pairs(pairs: Vec<(String, Option<String>)>) -> (h: Headers)
        ensures
            h.0@.len() == pairs@.len(),
            forall|i: int|
                0 <= i < pairs@.len() ==> (#[trigger] h.0@[i]).name == pairs@[i].0 && match pairs@[i].1 {
                    Some(v) => h.0@[i].value == v,
                    None => h.0@[i].value@ == Seq::<char>::empty(),
                },
    {
        let mut out: Vec<KVPair> = Vec::new();
        let mut i: usize = 0;
        while i < pairs.len()
            invariant
                i <= pairs.len(),
                out@.len() == i,
                forall|k: int|
                    0 <= k < i ==> (#[trigger] out@[k]).name == pairs@[k].0 && match pairs@[k].1 {
                        Some(v) => out@[k].value == v,
                        None => out@[k].value@ == Seq::<char>::empty(),
                    },
            decreases pairs.len() - i,
        {
            let (name, value) = &pairs[i];
            let value = match value {
                Some(v) => v.clone(),
                None => String::new(),
            };
            out.push(KVPair { name: name.clone(), value });
            i = i + 1;
        }
        Headers(out)
    }
}

impl HttpRequest {
    /// A request from the parts of a request head: the authority is empty
    /// when absent, the request is TLS exactly when the scheme is `https`,
    /// the body is empty, and the stream gets a fresh identifier.
    pub fn from_parts(
        method: String,
        authority: Option<String>,
        path: String,
        version: HttpVersion,
        headers: Headers,
        scheme: Option<&str>,
    ) -> (r: HttpRequest)
        ensures
            r.method == method,
            r.authority@ == match authority {
                Some(a) => a@,
                None => Seq::<char>::empty(),
            },
            r.path == path,
            r.version == version,
            r.headers == headers,
            r.is_tls == match scheme {
                Some(s) => s@ == "https"@,
                None => false,
            },
            r.body.0@ == Seq::<u8>::empty(),
    {
        let is_tls = match scheme {
            Some(s) => crate::text::chars_eq_str(&chars_of(s), "https"),
            None => false,
        };
        let authority = match authority {
            Some(a) => a,
            None => String::new(),
        };
        HttpRequest {
            stream_id: ID::new(),
            version,
            is_tls,
            method,
            authority,
            path,
            headers,
            body: Bytes::new(),
        }
    }
}

impl HttpContext {
    /// The context of a new HTTP request: the request, no response, and the
    /// transport of an inbound TCP connection with a fresh identifier, the
    /// local address (empty host and port 0 when unknown), the peer address
    /// and the default route decision.
    pub fn from_session_parts(
        request: HttpRequest,
        server_addr: Option<SocketAddress>,
        client_addr: Option<SocketAddress>,
    ) -> (ctx: HttpContext)
        ensures
            ctx.request == Some(request),
            ctx.response is None,
            ctx.transport matches Some(t) && {
                &&& match server_addr {
                    Some(a) => t.connection.local_addr == a,
                    None => t.connection.local_addr.host@ == Seq::<char>::empty()
                        && t.connection.local_addr.port == 0,
                }
                &&& t.connection.peer_addr == client_addr
                &&& t.connection.protocol == TransportProtocol::Tcp
                &&& t.direction == Some(FlowDirection::Inbound)
                &&& default_route(t.route)
            },
    {
        let local_addr = match server_addr {
            Some(a) => a,
            None => SocketAddress { host: String::new(), port: 0 },
        };
        HttpContext {
            request: Some(request),
            response: None,
            transport: Some(
                TransportContext {
                    connection: ConnectionInfo {
                        id: ID::new(),
                        local_addr,
                        peer_addr: client_addr,
                        protocol: TransportProtocol::Tcp,
                    },
                    direction: Some(FlowDirection::Inbound),
                    route: RouteDecision::keep(),
                },
            ),
        }
    }
}

/// The transport context of a new flow: fresh identifier, no peer, no
/// direction, default route.
pub open spec fn fresh_flow(meta: TransportContext, local_addr: SocketAddress, protocol: TransportProtocol) -> bool {
    &&& meta.connection.local_addr == local_addr
    &&& meta.connection.peer_addr is None
    &&& meta.connection.protocol == protocol
    &&& meta.direction is None
    &&& default_route(meta.route)
}

fn new_flow(local_addr: SocketAddress, protocol: TransportProtocol) -> (meta: TransportContext)
    ensures
        fresh_flow(meta, local_addr, protocol),
{
    TransportContext {
        connection: ConnectionInfo { id: ID::new(), local_addr, peer_addr: None, protocol },
        direction: None,
        route: RouteDecision::keep(),
    }
}

impl TCPContext {
    /// The context of a new TCP connection accepted on `local_addr`.
    pub fn for_connection(local_addr: SocketAddress) -> (ctx: TCPContext)
        ensures
            ctx.chunk is None,
            fresh_flow(ctx.meta, local_addr, TransportProtocol::Tcp),
    {
        TCPContext { chunk: None, meta: new_flow(local_addr, TransportProtocol::Tcp) }
    }

    /// Records a chunk read in `direction`.
    pub fn set_chunk(&mut self, data: Vec<u8>, direction: FlowDirection)
        ensures
            final(self).chunk matches Some(b) && b.0@ == data@,
            final(self).meta == (TransportContext { direction: Some(direction), ..old(self).meta }),
    {
        self.chunk = Some(Bytes(data));
        self.meta.direction = Some(direction);
    }
}

impl UDPContext {
    /// The context of a new UDP session on `local_addr`.
    pub fn for_session(local_addr: SocketAddress) -> (ctx: UDPContext)
        ensures
            ctx.datagram is None,
            fresh_flow(ctx.meta, local_addr, TransportProtocol::Udp),
    {
        UDPContext { datagram: None, meta: new_flow(local_addr, TransportProtocol::Udp) }
    }

    /// Records a datagram received from `peer`.
    pub fn record_datagram(&mut self, peer: SocketAddress, data: Vec<u8>)
        ensures
            final(self).datagram matches Some(b) && b.0@ == data@,
            final(self).meta == (TransportContext {
                connection: ConnectionInfo { peer_addr: Some(peer), ..old(self).meta.connection },
                ..old(self).meta
            }),
    {
        self.datagram = Some(Bytes(data));
        self.meta.connection.peer_addr = Some(peer);
    }
}

} // verus!
