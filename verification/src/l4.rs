//! The decisions of the TCP and UDP proxy services. The services read and
//! write sockets and await the hooks; at each step they hand what happened
//! to these functions and do what comes back.

use vstd::prelude::*;
use crate::abi::{ConnectionInfo, FlowDirection, SocketAddress, TCPContext, TransportContext, UDPContext};

verus! {

/// Why a flow could not be proxied.
#[derive(Clone, Copy, Debug, PartialEq, Eq, Structural)]
pub enum FlowError {
    /// No route decision named an upstream.
    NoUpstream,
    /// A data hook failed.
    HookFailed,
}

impl FlowError {
    pub open spec fn text(&self) -> Seq<char> {
        match self {
            FlowError::NoUpstream => "plugin did not select an upstream"@,
            FlowError::HookFailed => "plugin hook failed"@,
        }
    }

    /// The error's message.
    pub fn message(&self) -> (s: String)
        ensures
            s@ == self.text(),
    {
        match self {
            FlowError::NoUpstream => crate::text::string_of(
                &crate::text::chars_of("plugin did not select an upstream"),
            ),
            FlowError::HookFailed => crate::text::string_of(&crate::text::chars_of("plugin hook failed")),
        }
    }
}

/// The upstream that the flow's route decision selected.
pub fn flow_upstream(meta: &TransportContext) -> (r: Result<SocketAddress, FlowError>)
    ensures
        match meta.route.upstream_to_set {
            Some(a) => r == Ok::<SocketAddress, FlowError>(a),
            None => r == Err::<SocketAddress, FlowError>(FlowError::NoUpstream),
        },
{
    match &meta.route.upstream_to_set {
        Some(a) => Ok(a.duplicate()),
        None => Err(FlowError::NoUpstream),
    }
}

/// What a read from one side of a TCP flow gave. End of stream and a read
/// error both end the relay in that direction.
pub enum ReadOutcome {
    Data(Vec<u8>),
    Ended,
}

/// What a TCP relay does next.
#[derive(Debug)]
pub enum TcpAction {
    /// Run the data hooks on the context.
    RunDataHook,
    /// Write these bytes to the other side, then read again.
    Write(Vec<u8>),
    /// Read again without writing.
    ReadNext,
    /// Stop relaying in this direction and run the close hooks.
    Close,
    /// Stop relaying and fail the connection.
    Fail(FlowError),
}

/// After a read in `direction`: data becomes the context's chunk, with the
/// direction, and the data hooks run; an ended read closes.
pub fn on_tcp_read(ctx: &mut TCPContext, read: ReadOutcome, direction: FlowDirection) -> (a: TcpAction)
    ensures
        match read {
            ReadOutcome::Data(d) => {
                &&& a is RunDataHook
                &&& final(ctx).chunk matches Some(b) && b.0@ == d@
                &&& final(ctx).meta == (TransportContext { direction: Some(direction), ..old(ctx).meta })
            },
            ReadOutcome::Ended => a is Close && *final(ctx) == *old(ctx),
        },
{
    match read {
        ReadOutcome::Data(d) => {
            ctx.set_chunk(d, direction);
            TcpAction::RunDataHook
        },
        ReadOutcome::Ended => TcpAction::Close,
    }
}

/// After the data hooks on a chunk from the client: a failed hook fails the
/// connection; otherwise the chunk as the hooks left it goes upstream, and
/// a context without a chunk writes nothing.
pub fn after_inbound_hook(ctx: &TCPContext, hook_ok: bool) -> (a: TcpAction)
    ensures
        !hook_ok ==> a == TcpAction::Fail(FlowError::HookFailed),
        hook_ok ==> match ctx.chunk {
            Some(b) => a matches TcpAction::Write(w) && w@ == b.0@,
            None => a is ReadNext,
        },
{
    if !hook_ok {
        return TcpAction::Fail(FlowError::HookFailed);
    }
    match &ctx.chunk {
        Some(b) => TcpAction::Write(b.duplicate().0),
        None => TcpAction::ReadNext,
    }
}

/// After the data hooks on a chunk from the upstream: a failed hook closes
/// the relay; otherwise the chunk as the hooks left it goes to the client,
/// and a context without a chunk writes nothing.
pub fn after_outbound_hook(ctx: &TCPContext, hook_ok: bool) -> (a: TcpAction)
    ensures
        !hook_ok ==> a is Close,
        hook_ok ==> match ctx.chunk {
            Some(b) => a matches TcpAction::Write(w) && w@ == b.0@,
            None => a is ReadNext,
        },
{
    if !hook_ok {
        return TcpAction::Close;
    }
    match &ctx.chunk {
        Some(b) => TcpAction::Write(b.duplicate().0),
        None => TcpAction::ReadNext,
    }
}

/// After the connection-init hooks: a failed hook fails the connection;
/// otherwise the upstream is the one that the route decision of the
/// context the hooks left names, and the connection fails without one.
pub fn after_connection_init(ctx: &TCPContext, hook_ok: bool) -> (r: Result<SocketAddress, FlowError>)
    ensures
        !hook_ok ==> r == Err::<SocketAddress, FlowError>(FlowError::HookFailed),
        hook_ok ==> match ctx.meta.route.upstream_to_set {
            Some(a) => r == Ok::<SocketAddress, FlowError>(a),
            None => r == Err::<SocketAddress, FlowError>(FlowError::NoUpstream),
        },
{
    if !hook_ok {
        return Err(FlowError::HookFailed);
    }
    flow_upstream(&ctx.meta)
}

/// After a write to the other side: go on reading, or close on failure.
pub fn after_tcp_write(ok: bool) -> (a: TcpAction)
    ensures
        ok ==> a is ReadNext,
        !ok ==> a is Close,
{
    if ok {
        TcpAction::ReadNext
    } else {
        TcpAction::Close
    }
}

/// What a UDP session does next.
#[derive(Debug)]
pub enum UdpAction {
    /// Run the datagram hooks on the context.
    RunDatagramHook,
    /// Send these bytes to this upstream, then receive again.
    Send(Vec<u8>, SocketAddress),
    /// Send nothing for this datagram and receive again.
    ReceiveNext,
    /// Stop and run the session-end hooks.
    Close,
    /// Stop and fail the session.
    Fail(FlowError),
}

/// After receiving `data` from `peer`: an empty datagram ends the session;
/// otherwise the peer and datagram go into the context, the rest of it
/// stays, and the datagram hooks run.
pub fn on_udp_datagram(ctx: &mut UDPContext, peer: SocketAddress, data: Vec<u8>) -> (a: UdpAction)
    ensures
        data@.len() == 0 ==> a is Close && *final(ctx) == *old(ctx),
        data@.len() > 0 ==> {
            &&& a is RunDatagramHook
            &&& final(ctx).datagram matches Some(b) && b.0@ == data@
            &&& final(ctx).meta == (TransportContext {
                connection: ConnectionInfo { peer_addr: Some(peer), ..old(ctx).meta.connection },
                ..old(ctx).meta
            })
        },
{
    if data.len() == 0 {
        return UdpAction::Close;
    }
    ctx.record_datagram(peer, data);
    UdpAction::RunDatagramHook
}

/// After the datagram hooks, on the context they left: a failed hook fails
/// the session; otherwise the datagram as the hooks left it goes to the
/// upstream that the context's route decision names, nothing is sent when
/// the hooks removed the datagram, and the session fails without an
/// upstream.
pub fn after_datagram_hook(ctx: &UDPContext, hook_ok: bool) -> (a: UdpAction)
    ensures
        !hook_ok ==> a == UdpAction::Fail(FlowError::HookFailed),
        hook_ok ==> match ctx.meta.route.upstream_to_set {
            Some(u) => match ctx.datagram {
                Some(d) => a matches UdpAction::Send(bytes, to) && bytes@ == d.0@ && to == u,
                None => a is ReceiveNext,
            },
            None => a == UdpAction::Fail(FlowError::NoUpstream),
        },
{
    if !hook_ok {
        return UdpAction::Fail(FlowError::HookFailed);
    }
    match flow_upstream(&ctx.meta) {
        Ok(u) => match &ctx.datagram {
            Some(d) => UdpAction::Send(d.duplicate().0, u),
            None => UdpAction::ReceiveNext,
        },
        Err(e) => UdpAction::Fail(e),
    }
}

} // verus!
