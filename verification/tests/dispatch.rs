use vakil::abi::{
    Bytes, ConnectionInfo, FlowDirection, Headers, HookAction, HookOutcome, HttpContext,
    HttpRequest, HttpResponse, HttpStatus, HttpVersion, PluginError, RouteAction, RouteDecision,
    SocketAddress, TCPContext, TransportContext, TransportProtocol, UDPContext, ID,
};
use vakil::dispatch::{
    dispatch_order, headers_after_local_reply, headers_after_request_headers, headers_first_step,
    http_phase_calls, is_port_https, populate_req_body_into_ctx, populate_resp_body_into_ctx,
    phase_after_call, phase_start, request_target_rewrite, tcp_phase_calls, udp_phase_calls, upstream_after_route,
    upstream_first_step, upstream_host_header, HeaderStep, HttpHook, HttpModuleHooks, HttpPhase,
    TcpHook, TcpModuleHooks, TcpPhase, UdpHook, UdpModuleHooks, UdpPhase, UpstreamStep, PhaseProgress,
};
use vakil::l4::{
    after_connection_init, after_datagram_hook, after_inbound_hook, after_outbound_hook,
    after_tcp_write, flow_upstream, on_tcp_read, on_udp_datagram, FlowError, ReadOutcome,
    TcpAction, UdpAction,
};

fn http_module(priority: u8, all: bool) -> HttpModuleHooks {
    HttpModuleHooks {
        priority,
        on_route: all,
        on_request_headers: all,
        on_request_body: all,
        on_response_headers: all,
        on_response_body: all,
        on_trailers: all,
        on_local_reply: all,
    }
}

fn address(host: &str, port: u16) -> SocketAddress {
    SocketAddress { host: host.to_string(), port }
}

fn transport(route: RouteDecision) -> TransportContext {
    TransportContext {
        connection: ConnectionInfo {
            id: ID(3),
            local_addr: address("127.0.0.1", 8080),
            peer_addr: None,
            protocol: TransportProtocol::Tcp,
        },
        direction: None,
        route,
    }
}

fn keep() -> RouteDecision {
    RouteDecision { action: RouteAction::Keep, upstream_to_set: None, http_path: None }
}

fn request() -> HttpRequest {
    HttpRequest {
        stream_id: ID(1),
        version: HttpVersion::Http11,
        is_tls: false,
        method: "GET".to_string(),
        authority: "example.test".to_string(),
        path: "/".to_string(),
        headers: Headers(Vec::new()),
        body: Bytes(Vec::new()),
    }
}

fn response(status: u16, body: &[u8]) -> HttpResponse {
    HttpResponse {
        stream_id: ID(1),
        version: HttpVersion::Http11,
        status: HttpStatus(status),
        headers: Headers(Vec::new()),
        body: Bytes(body.to_vec()),
    }
}

fn ok(action: HookAction) -> Result<HookOutcome, PluginError> {
    Ok(HookOutcome { action })
}

#[test]
fn dispatch_order_is_stable_by_priority() {
    let order = dispatch_order(&vec![Some(2), None, Some(0), Some(2), Some(1), Some(0)]);
    assert_eq!(order, vec![2, 5, 4, 0, 3]);
    assert!(dispatch_order(&vec![]).is_empty());
    assert_eq!(dispatch_order(&vec![Some(255), Some(0)]), vec![1, 0]);
}

#[test]
fn phase_calls_follow_module_order() {
    let ms = vec![http_module(0, true), http_module(1, false), http_module(2, true)];
    assert_eq!(
        http_phase_calls(&ms, HttpPhase::ResponseBody { end_of_stream: true }),
        vec![
            (0, HttpHook::ResponseBody),
            (0, HttpHook::Trailers),
            (2, HttpHook::ResponseBody),
            (2, HttpHook::Trailers)
        ]
    );
    assert_eq!(
        http_phase_calls(&ms, HttpPhase::ResponseBody { end_of_stream: false }),
        vec![(0, HttpHook::ResponseBody), (2, HttpHook::ResponseBody)]
    );
    assert_eq!(http_phase_calls(&ms, HttpPhase::RequestBody), vec![(0, HttpHook::RequestBody), (2, HttpHook::RequestBody)]);

    let tcp = vec![
        TcpModuleHooks { priority: 0, on_route: true, on_connect: true, on_data: false, on_half_close: true, on_close: false },
        TcpModuleHooks { priority: 0, on_route: false, on_connect: true, on_data: true, on_half_close: false, on_close: true },
    ];
    assert_eq!(
        tcp_phase_calls(&tcp, TcpPhase::ConnectionInit),
        vec![(0, TcpHook::Route), (0, TcpHook::Connect), (1, TcpHook::Connect)]
    );
    assert_eq!(tcp_phase_calls(&tcp, TcpPhase::DataReceived), vec![(1, TcpHook::Data)]);
    assert_eq!(tcp_phase_calls(&tcp, TcpPhase::ConnectionClose), vec![(1, TcpHook::Close)]);

    let udp = vec![
        UdpModuleHooks { priority: 0, on_route: true, on_datagram: true, on_session_start: false, on_session_end: true },
    ];
    assert!(udp_phase_calls(&udp, UdpPhase::SessionStart).is_empty());
    assert_eq!(udp_phase_calls(&udp, UdpPhase::DatagramReceived), vec![(0, UdpHook::Datagram)]);
    assert_eq!(udp_phase_calls(&udp, UdpPhase::SessionClose), vec![(0, UdpHook::SessionEnd)]);
}

#[test]
fn https_port_is_443_only() {
    assert!(is_port_https(443));
    assert!(!is_port_https(80));
    assert!(!is_port_https(8443));
}

#[test]
fn upstream_selection_steps() {
    let ms = vec![http_module(0, false), http_module(1, true), http_module(2, true)];
    assert!(matches!(upstream_first_step(&ms), UpstreamStep::CallRoute(1)));

    let none = HttpContext { request: Some(request()), response: None, transport: Some(transport(keep())) };
    assert!(matches!(upstream_after_route(&ms, 1, &ok(HookAction::Continue), &none), UpstreamStep::CallRoute(2)));
    assert!(matches!(upstream_after_route(&ms, 2, &ok(HookAction::Replace), &none), UpstreamStep::NoUpstream));
    assert!(matches!(upstream_after_route(&ms, 1, &ok(HookAction::Drop), &none), UpstreamStep::Reject));
    assert!(matches!(upstream_after_route(&ms, 1, &Err(PluginError { message: None }), &none), UpstreamStep::ChainFailed));

    let chosen = HttpContext {
        request: Some(request()),
        response: None,
        transport: Some(transport(RouteDecision {
            action: RouteAction::ReplaceUpstream,
            upstream_to_set: Some(address("httpbin.org", 443)),
            http_path: Some("/anything".to_string()),
        })),
    };
    match upstream_after_route(&ms, 1, &ok(HookAction::Replace), &chosen) {
        UpstreamStep::Select(c) => {
            assert_eq!(c.host, "httpbin.org");
            assert_eq!(c.port, 443);
            assert!(c.tls);
            assert_eq!(c.sni, "httpbin.org");
            assert_eq!(c.http_path, "/anything");
        }
        other => panic!("unexpected {:?}", other),
    }
    // Without transport metadata there is no route decision to follow.
    let bare = HttpContext { request: Some(request()), response: None, transport: None };
    assert!(matches!(upstream_after_route(&ms, 2, &ok(HookAction::Drop), &bare), UpstreamStep::NoUpstream));
    assert!(matches!(upstream_first_step(&vec![http_module(0, false)]), UpstreamStep::NoUpstream));
}

#[test]
fn request_header_steps() {
    let mut reply_less = http_module(1, true);
    reply_less.on_local_reply = false;
    let ms = vec![http_module(0, true), reply_less];
    assert!(matches!(headers_first_step(&ms), HeaderStep::CallRequestHeaders(0)));

    let plain = HttpContext { request: Some(request()), response: None, transport: None };
    assert!(matches!(headers_after_request_headers(&ms, 0, &ok(HookAction::Continue), &plain), HeaderStep::CallRequestHeaders(1)));
    assert!(matches!(headers_after_request_headers(&ms, 1, &ok(HookAction::Continue), &plain), HeaderStep::Proceed));
    assert!(matches!(headers_after_request_headers(&ms, 0, &ok(HookAction::Replace), &plain), HeaderStep::CallLocalReply(0)));

    let answered = HttpContext { request: Some(request()), response: Some(response(418, b"tea")), transport: None };
    match headers_after_request_headers(&ms, 1, &ok(HookAction::Continue), &answered) {
        HeaderStep::Respond { status, headers, body } => {
            assert_eq!(status, 418);
            assert!(headers.0.is_empty());
            assert_eq!(body, b"tea".to_vec());
        }
        other => panic!("unexpected {:?}", other),
    }
    match headers_after_local_reply(&ms, 0, &ok(HookAction::Continue), &answered) {
        HeaderStep::Respond { status, .. } => assert_eq!(status, 418),
        other => panic!("unexpected {:?}", other),
    }
    assert!(matches!(headers_after_local_reply(&ms, 0, &ok(HookAction::Continue), &plain), HeaderStep::CallRequestHeaders(1)));
    assert!(matches!(headers_after_request_headers(&ms, 1, &ok(HookAction::Replace), &plain), HeaderStep::Proceed));
}

#[test]
fn failed_request_hooks_fail_the_chain() {
    let ms = vec![http_module(0, true), http_module(1, true)];
    let failed = Err(PluginError { message: Some("boom".to_string()) });
    let plain = HttpContext { request: Some(request()), response: None, transport: None };
    match headers_after_request_headers(&ms, 0, &failed, &plain) {
        HeaderStep::Respond { status, headers, body } => {
            assert_eq!(status, 500);
            assert!(headers.0.is_empty());
            assert!(body.is_empty());
        }
        other => panic!("unexpected {:?}", other),
    }
    let answered = HttpContext { request: Some(request()), response: Some(response(403, b"no")), transport: None };
    match headers_after_local_reply(&ms, 0, &failed, &answered) {
        HeaderStep::Respond { status, body, .. } => {
            assert_eq!(status, 403);
            assert_eq!(body, b"no".to_vec());
        }
        other => panic!("unexpected {:?}", other),
    }
    let (status, headers, body) = vakil::dispatch::chain_failure_reply(&plain);
    assert_eq!((status, headers.0.len(), body), (500, 0, Vec::new()));
    let (status, headers, body) = vakil::dispatch::chain_failure_reply(&answered);
    assert_eq!((status, headers.0.len(), body), (403, 0, b"no".to_vec()));
}

#[test]
fn path_rewrite_and_host_header() {
    let routed = HttpContext {
        request: Some(request()),
        response: None,
        transport: Some(transport(RouteDecision {
            action: RouteAction::ReplaceUpstream,
            upstream_to_set: Some(address("httpbin.dev", 80)),
            http_path: Some("/dump/request?n=1".to_string()),
        })),
    };
    assert_eq!(request_target_rewrite(&routed, Some("a=b")).as_deref(), Some("/dump/request?n=1a=b"));
    assert_eq!(request_target_rewrite(&routed, None).as_deref(), Some("/dump/request?n=1"));
    assert_eq!(upstream_host_header(&routed).as_deref(), Some("httpbin.dev"));

    let kept = HttpContext { request: Some(request()), response: None, transport: Some(transport(keep())) };
    assert_eq!(request_target_rewrite(&kept, Some("a=b")), None);
    assert_eq!(upstream_host_header(&kept), None);
}

#[test]
fn body_hooks_see_the_current_chunk() {
    let mut ctx = HttpContext { request: Some(request()), response: Some(response(200, b"")), transport: None };
    populate_req_body_into_ctx(&Some(b"first".to_vec()), &mut ctx);
    assert_eq!(ctx.request.as_ref().unwrap().body.0, b"first".to_vec());
    populate_req_body_into_ctx(&Some(b"second".to_vec()), &mut ctx);
    assert_eq!(ctx.request.as_ref().unwrap().body.0, b"second".to_vec());
    populate_req_body_into_ctx(&None, &mut ctx);
    assert_eq!(ctx.request.as_ref().unwrap().body.0, b"second".to_vec());

    populate_resp_body_into_ctx(&Some(b"chunk".to_vec()), &mut ctx);
    assert_eq!(ctx.response.as_ref().unwrap().body.0, b"chunk".to_vec());
    assert_eq!(ctx.request.as_ref().unwrap().body.0, b"second".to_vec());

    let mut bare = HttpContext { request: None, response: None, transport: None };
    populate_resp_body_into_ctx(&Some(b"x".to_vec()), &mut bare);
    assert!(bare.response.is_none());
}

#[test]
fn tcp_relay_decisions() {
    let mut ctx = TCPContext::for_connection(address("127.0.0.1", 12346));
    assert!(ctx.chunk.is_none() && ctx.meta.route.upstream_to_set.is_none());
    assert!(matches!(on_tcp_read(&mut ctx, ReadOutcome::Data(b"ping".to_vec()), FlowDirection::Inbound), TcpAction::RunDataHook));
    assert_eq!(ctx.chunk.as_ref().unwrap().0, b"ping".to_vec());
    assert_eq!(ctx.meta.direction, Some(FlowDirection::Inbound));
    match after_inbound_hook(&ctx, true) {
        TcpAction::Write(w) => assert_eq!(w, b"ping".to_vec()),
        other => panic!("unexpected {:?}", other),
    }
    assert!(matches!(after_inbound_hook(&ctx, false), TcpAction::Fail(FlowError::HookFailed)));
    ctx.chunk = None;
    assert!(matches!(after_inbound_hook(&ctx, true), TcpAction::ReadNext));
    assert!(matches!(on_tcp_read(&mut ctx, ReadOutcome::Ended, FlowDirection::Outbound), TcpAction::Close));
    ctx.set_chunk(b"pong".to_vec(), FlowDirection::Outbound);
    // An outbound hook that rewrote the chunk has its bytes written.
    ctx.chunk = Some(Bytes(b"PONG!".to_vec()));
    match after_outbound_hook(&ctx, true) {
        TcpAction::Write(w) => assert_eq!(w, b"PONG!".to_vec()),
        other => panic!("unexpected {:?}", other),
    }
    assert!(matches!(after_outbound_hook(&ctx, false), TcpAction::Close));
    ctx.chunk = None;
    assert!(matches!(after_outbound_hook(&ctx, true), TcpAction::ReadNext));
    assert!(matches!(after_tcp_write(true), TcpAction::ReadNext));
    assert!(matches!(after_tcp_write(false), TcpAction::Close));
    assert_eq!(flow_upstream(&ctx.meta).unwrap_err().message(), "plugin did not select an upstream");
}

#[test]
fn udp_session_decisions() {
    let mut ctx = UDPContext::for_session(address("127.0.0.1", 12347));
    assert!(matches!(on_udp_datagram(&mut ctx, address("127.0.0.1", 5000), Vec::new()), UdpAction::Close));
    assert!(ctx.datagram.is_none());
    assert!(matches!(on_udp_datagram(&mut ctx, address("127.0.0.1", 5000), b"ping".to_vec()), UdpAction::RunDatagramHook));
    assert_eq!(ctx.datagram.as_ref().unwrap().0, b"ping".to_vec());
    assert_eq!(ctx.meta.connection.peer_addr.as_ref().unwrap().port, 5000);

    assert_eq!(ctx.meta.connection.protocol, TransportProtocol::Udp);
    assert_eq!(ctx.meta.connection.local_addr.port, 12347);

    assert!(matches!(after_datagram_hook(&ctx, true), UdpAction::Fail(FlowError::NoUpstream)));
    assert!(matches!(after_datagram_hook(&ctx, false), UdpAction::Fail(FlowError::HookFailed)));
    // The hooks reroute the datagram and rewrite it.
    ctx.meta.route = RouteDecision {
        action: RouteAction::ReplaceUpstream,
        upstream_to_set: Some(address("10.0.0.1", 53)),
        http_path: None,
    };
    ctx.datagram = Some(Bytes(b"PING".to_vec()));
    match after_datagram_hook(&ctx, true) {
        UdpAction::Send(d, to) => {
            assert_eq!(d, b"PING".to_vec());
            assert_eq!((to.host.as_str(), to.port), ("10.0.0.1", 53));
        }
        other => panic!("unexpected {:?}", other),
    }
    // The hooks dropped the datagram: nothing is sent.
    ctx.datagram = None;
    assert!(matches!(after_datagram_hook(&ctx, true), UdpAction::ReceiveNext));
    assert_eq!(FlowError::HookFailed.message(), "plugin hook failed");
}

#[test]
fn local_reply_carries_plugin_headers() {
    let ms = vec![http_module(0, true)];
    let mut resp = response(200, b"hi");
    resp.headers = Headers(vec![vakil::abi::KVPair { name: "x-a".to_string(), value: "1".to_string() }]);
    let answered = HttpContext { request: Some(request()), response: Some(resp), transport: None };
    match headers_after_local_reply(&ms, 0, &ok(HookAction::Continue), &answered) {
        HeaderStep::Respond { status, headers, body } => {
            assert_eq!(status, 200);
            assert_eq!(headers.0.len(), 1);
            assert_eq!((headers.0[0].name.as_str(), headers.0[0].value.as_str()), ("x-a", "1"));
            assert_eq!(body, b"hi".to_vec());
        }
        other => panic!("unexpected {:?}", other),
    }
    let (status, headers, body) = vakil::dispatch::chain_failure_reply(&answered);
    assert_eq!((status, headers.0[0].name.as_str(), body), (200, "x-a", b"hi".to_vec()));
}

#[test]
fn connection_init_takes_the_route_the_hooks_left() {
    let mut ctx = TCPContext::for_connection(address("127.0.0.1", 12346));
    assert!(matches!(after_connection_init(&ctx, true), Err(FlowError::NoUpstream)));
    ctx.meta.route = RouteDecision {
        action: RouteAction::ReplaceUpstream,
        upstream_to_set: Some(address("10.0.0.2", 9000)),
        http_path: None,
    };
    let up = after_connection_init(&ctx, true).expect("upstream");
    assert_eq!((up.host.as_str(), up.port), ("10.0.0.2", 9000));
    assert!(matches!(after_connection_init(&ctx, false), Err(FlowError::HookFailed)));
}

#[test]
fn phase_progress_stops_at_the_first_failure() {
    assert_eq!(phase_start(0), PhaseProgress::Finished);
    assert_eq!(phase_start(3), PhaseProgress::Call(0));
    assert_eq!(phase_after_call(0, 3, true), PhaseProgress::Call(1));
    assert_eq!(phase_after_call(2, 3, true), PhaseProgress::Finished);
    assert_eq!(phase_after_call(1, 3, false), PhaseProgress::ChainFailed);
    assert_eq!(phase_after_call(2, 3, false), PhaseProgress::ChainFailed);
}
