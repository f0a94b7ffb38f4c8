use vakil::abi::SemVer;

#[test]
fn semver_parses_three_components() {
    let v = SemVer::from_string("1.20.255".to_string());
    assert_eq!((v.major, v.minor, v.patch), (1, 20, 255));
}

use vakil::abi::{
    Bytes, ConnectionInfo, FlowDirection, Headers, HttpContext, HttpRequest, HttpVersion,
    RouteAction, RouteDecision, SocketAddress, TransportContext, TransportProtocol, ID,
};

fn route(host: &str) -> RouteDecision {
    RouteDecision {
        action: RouteAction::ReplaceUpstream,
        upstream_to_set: Some(SocketAddress { host: host.to_string(), port: 80 }),
        http_path: None,
    }
}

#[test]
fn route_reads_back_what_was_set() {
    let req = HttpRequest::from_parts(
        "GET".to_string(),
        Some("example.test".to_string()),
        "/".to_string(),
        HttpVersion::Http11,
        Headers::new(),
        Some("https"),
    );
    assert!(req.is_tls);
    assert_eq!(req.authority, "example.test");
    let mut ctx = HttpContext::from_session_parts(req, None, Some(SocketAddress { host: "10.0.0.2".to_string(), port: 4000 }));
    let t = ctx.transport.as_ref().unwrap();
    assert_eq!(t.direction, Some(FlowDirection::Inbound));
    assert_eq!(t.connection.local_addr.port, 0);
    assert_eq!(ctx.route().unwrap().action, RouteAction::Keep);

    assert!(ctx.set_route(route("a")));
    assert_eq!(ctx.route().unwrap().upstream_to_set.unwrap().host, "a");
    assert!(ctx.set_route(route("b")));
    assert_eq!(ctx.route().unwrap().upstream_to_set.unwrap().host, "b");

    let mut bare = HttpContext::empty();
    assert!(!bare.set_route(route("a")));
    assert!(bare.route().is_none() && bare.transport.is_none());
}

#[test]
fn socket_address_text_and_semver() {
    let a = SocketAddress { host: "127.0.0.1".to_string(), port: 8080 };
    assert_eq!(a.to_host_port_string(), "127.0.0.1:8080");
    let v = SemVer::from_string("0.1.0.extra".to_string());
    assert_eq!((v.major, v.minor, v.patch), (0, 1, 0));
    let v = SemVer::from_string("+1.02.3".to_string());
    assert_eq!((v.major, v.minor, v.patch), (1, 2, 3));
}

#[test]
fn bytes_and_headers() {
    assert!(Bytes::new().0.is_empty());
    assert_eq!(Bytes::from_slice(b"abc").duplicate().0, b"abc".to_vec());
    let h = Headers::from_pairs(vec![("a".to_string(), Some("1".to_string())), ("b".to_string(), None)]);
    assert_eq!(h.0.len(), 2);
    assert_eq!(h.0[0].value, "1");
    assert_eq!(h.0[1].value, "");
    let t = TransportContext {
        connection: ConnectionInfo {
            id: ID(1),
            local_addr: SocketAddress { host: "h".to_string(), port: 1 },
            peer_addr: None,
            protocol: TransportProtocol::Udp,
        },
        direction: None,
        route: RouteDecision::keep(),
    };
    assert_eq!(t.route.duplicate().action, RouteAction::Keep);
    let _ = ID::new();
}

#[test]
fn semver_written_out_reads_back() {
    for v in [SemVer { major: 0, minor: 1, patch: 0 }, SemVer { major: 255, minor: 10, patch: 7 }] {
        let text = format!("{}.{}.{}", v.major, v.minor, v.patch);
        assert_eq!(SemVer::from_string(text), v);
    }
}
