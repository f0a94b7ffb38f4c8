use vakil::abi::{
    Bytes, ConnectionInfo, EnvSnapshot, Headers, HookAction, HookOutcome, HttpContext,
    HttpRequest, HttpResponse, HttpStatus, HttpVersion, KVPair, PluginError, PluginInitContext,
    RouteAction, RouteDecision, SemVer, SocketAddress, TransportContext, TransportProtocol, ID,
};
use vakil::plugins::http_mw::{self, RequestCounter};
use vakil::plugins::noop::example_on_http_event;
use vakil::plugins::sticky::{
    backend_to_socket_address, choose_backend, default_ttl_secs, env_value, keep_route,
    normalize, normalize_backends, plugin_error_message, reject_route, resolve_config_path,
    route_to, ClientIp, FileConfig, InitStep, ListenerConfig, LoadedConfig, SharedInitState,
    SharedState, StickyEntry, CONFIG_ENV,
};
use vakil::plugins::url_filter::{self, HostCheck};

fn request(method: &str, authority: &str, path: &str) -> HttpRequest {
    HttpRequest {
        stream_id: ID(1),
        version: HttpVersion::Http11,
        is_tls: false,
        method: method.to_string(),
        authority: authority.to_string(),
        path: path.to_string(),
        headers: Headers(Vec::new()),
        body: Bytes(Vec::new()),
    }
}

fn context_without_transport(req: HttpRequest) -> HttpContext {
    HttpContext { request: Some(req), response: None, transport: None }
}

fn transport() -> TransportContext {
    TransportContext {
        connection: ConnectionInfo {
            id: ID(7),
            local_addr: SocketAddress { host: "127.0.0.1".to_string(), port: 8080 },
            peer_addr: Some(SocketAddress { host: "127.0.0.1".to_string(), port: 54321 }),
            protocol: TransportProtocol::Tcp,
        },
        direction: None,
        route: RouteDecision { action: RouteAction::Keep, upstream_to_set: None, http_path: None },
    }
}

fn context_with_transport(req: HttpRequest) -> HttpContext {
    HttpContext { request: Some(req), response: None, transport: Some(transport()) }
}

// ----- example-noop -----

#[test]
fn http_request_can_short_circuit_with_local_reply() {
    let mut http_ctx = context_without_transport(request("GET", "example.com", "/local-reply"));

    let outcome = example_on_http_event(&mut http_ctx).unwrap_or_else(|_| panic!("hook error"));

    assert_eq!(outcome.action as u8, HookAction::Replace as u8);
    let response = http_ctx.response.as_ref().expect("response");
    assert_eq!(response.status.0, 200);
    assert_eq!(response.body.0.as_slice(), b"hello from example-noop");
}

#[test]
fn http_callbacks_are_callable_with_real_and_null_contexts() {
    let mut http_ctx = context_without_transport(request("GET", "example.com", "/health"));

    let outcome = example_on_http_event(&mut http_ctx).unwrap_or_else(|_| panic!("hook error"));
    assert_eq!(outcome.action as u8, HookAction::Continue as u8);
    assert!(http_ctx.response.is_none());
}

#[test]
fn abi_decision_types_are_still_noop_shaped() {
    let decision = RouteDecision { upstream_to_set: None, action: RouteAction::Keep, http_path: None };
    assert_eq!(decision.action as u8, RouteAction::Keep as u8);
    let hook = HookOutcome { action: HookAction::Continue };
    assert_eq!(hook.action as u8, HookAction::Continue as u8);
}

#[test]
fn noop_local_reply_keeps_existing_response() {
    let mut ctx = context_without_transport(request("GET", "example.com", "/local-reply"));
    ctx.response = Some(HttpResponse {
        stream_id: ID(1),
        version: HttpVersion::Http11,
        status: HttpStatus(204),
        headers: Headers(Vec::new()),
        body: Bytes(Vec::new()),
    });
    let outcome = example_on_http_event(&mut ctx).expect("hook");
    assert_eq!(outcome.action, HookAction::Continue);
    assert_eq!(ctx.response.as_ref().expect("response").status.0, 204);

    let mut post = context_without_transport(request("POST", "example.com", "/local-reply"));
    assert_eq!(example_on_http_event(&mut post).expect("hook").action, HookAction::Continue);
    assert!(post.response.is_none());
}

#[test]
fn noop_local_reply_answers_on_the_request_stream() {
    let mut req = request("GET", "example.com", "/local-reply");
    req.stream_id = ID(42);
    req.version = HttpVersion::Http2;
    let mut ctx = context_without_transport(req);
    example_on_http_event(&mut ctx).expect("hook");
    let response = ctx.response.expect("response");
    assert_eq!(response.stream_id, ID(42));
    assert_eq!(response.version, HttpVersion::Http2);
    assert!(response.headers.0.is_empty());
}

// ----- example-http-mw -----

#[test]
fn local_reply_is_set_for_local_reply_path() {
    let mut ctx = context_without_transport(request("GET", "example.test", "/local-reply"));

    let outcome = http_mw::http_on_request_headers(&mut ctx).unwrap_or_else(|_| panic!("hook failed"));

    assert_eq!(outcome.action as u8, HookAction::Replace as u8);
    assert!(ctx.response.is_some());
    assert_eq!(ctx.response.unwrap().body.0.as_slice(), b"hello from example-http-mw");
}

#[test]
fn mw_other_requests_continue_unchanged() {
    let mut ctx = context_without_transport(request("GET", "example.test", "/live"));
    assert_eq!(http_mw::http_on_request_headers(&mut ctx).expect("hook").action, HookAction::Continue);
    assert!(ctx.response.is_none());
    let mut empty = HttpContext { request: None, response: None, transport: None };
    assert_eq!(http_mw::http_on_request_headers(&mut empty).expect("hook").action, HookAction::Continue);
}

#[test]
fn init_loads_backend_from_env_and_routes_upstream() {
    let mut counter = RequestCounter::new();
    let mut route_context = context_without_transport(request("GET", "example.test", ""));

    let decision = http_mw::http_on_route(&mut route_context, &mut counter)
        .unwrap_or_else(|_| panic!("route failed"));

    assert_eq!(decision.action as u8, RouteAction::ReplaceUpstream as u8);
}

#[test]
fn mw_route_rotates_upstreams_by_counter() {
    let mut counter = RequestCounter::new();
    let expected = [
        ("httpbin.dev", "/dump/request?n=0"),
        ("httpbin.org", "/anything?n=1"),
        ("httpbin.dev", "/dump/request?n=2"),
        ("httpbin.org", "/anything?n=3"),
    ];
    for (host, path) in expected {
        let mut ctx = context_with_transport(request("GET", "example.test", "/"));
        let outcome = http_mw::http_on_route(&mut ctx, &mut counter).expect("route");
        assert_eq!(outcome.action, HookAction::Replace);
        let route = ctx.route().expect("route decision");
        assert_eq!(route.action, RouteAction::ReplaceUpstream);
        let upstream = route.upstream_to_set.expect("upstream");
        assert_eq!(upstream.host, host);
        assert_eq!(upstream.port, 80);
        assert_eq!(route.http_path.as_deref(), Some(path));
        let t = ctx.transport.expect("transport");
        assert_eq!(t.connection.id, ID(7));
    }
    assert_eq!(counter.next, 4);
}

#[test]
fn mw_route_errors() {
    let mut counter = RequestCounter { next: u64::MAX };
    let mut no_request = HttpContext { request: None, response: None, transport: Some(transport()) };
    let err = http_mw::http_on_route(&mut no_request, &mut counter).expect_err("no request");
    assert_eq!(err.message.as_deref(), Some("no request provided to callback"));
    assert_eq!(counter.next, u64::MAX);
    assert_eq!(no_request.route().expect("route").action, RouteAction::Keep);
}

#[test]
fn mw_route_without_transport_still_replaces() {
    let mut counter = RequestCounter { next: u64::MAX };
    let mut no_transport = context_without_transport(request("GET", "example.test", "/"));
    let outcome = http_mw::http_on_route(&mut no_transport, &mut counter).expect("route");
    assert_eq!(outcome.action, HookAction::Replace);
    assert_eq!(counter.next, 0);
    assert!(no_transport.transport.is_none());
    assert!(no_transport.route().is_none());
}

#[test]
fn mw_route_for_request_number() {
    let d = http_mw::route_for_request(12345);
    assert_eq!(d.action, RouteAction::ReplaceUpstream);
    assert_eq!(d.upstream_to_set.expect("upstream").host, "httpbin.org");
    assert_eq!(d.http_path.as_deref(), Some("/anything?n=12345"));
    let d = http_mw::route_for_request(12344);
    assert_eq!(d.upstream_to_set.expect("upstream").host, "httpbin.dev");
    assert_eq!(d.http_path.as_deref(), Some("/dump/request?n=12344"));
    let d = http_mw::route_for_request(u64::MAX);
    assert_eq!(d.upstream_to_set.expect("upstream").host, "httpbin.org");
    assert_eq!(d.http_path.as_deref(), Some("/anything?n=18446744073709551615"));
}

// ----- example-http-url-filter -----

#[test]
fn valid_request_target_continues() {
    let mut ctx = HttpContext {
        request: Some(HttpRequest { stream_id: ID(69), ..request("GET", "example.test", "/search") }),
        response: None,
        transport: None,
    };

    let outcome = url_filter::http_on_request_headers(&mut ctx).unwrap_or_else(|_| panic!("hook failed"));

    assert_eq!(outcome.action as u8, HookAction::Continue as u8);
    assert!(ctx.response.is_none());
}

#[test]
fn invalid_request_target_rejects_with_400() {
    let mut ctx = HttpContext {
        request: Some(HttpRequest { stream_id: ID(69), ..request("GET", "exa[ ]mple.test", "/bad") }),
        response: None,
        transport: None,
    };

    let outcome = url_filter::http_on_request_headers(&mut ctx).unwrap_or_else(|_| panic!("hook failed"));

    assert_eq!(outcome.action as u8, HookAction::Replace as u8);
    let response = ctx.response.unwrap_or_else(|| panic!("missing response"));
    assert_eq!(response.status.0, 400);
    assert_eq!(response.body.0.as_slice(), b"bad request: invalid URL");
    assert_eq!(response.stream_id, ID(69));
}

#[test]
fn invalid_host_is_rejected_before_url_validation() {
    assert!(!url_filter::authority_is_valid("exa mple.test"));
    assert!(url_filter::authority_is_valid("example.test"));
}

#[test]
fn authority_prechecks() {
    assert!(matches!(url_filter::precheck_authority(""), HostCheck::Reject));
    assert!(matches!(url_filter::precheck_authority("[::1]:8080"), HostCheck::Accept));
    assert!(matches!(url_filter::precheck_authority("example.test:8080"), HostCheck::Host(h) if h == "example.test"));
    assert!(matches!(url_filter::precheck_authority("example.test:"), HostCheck::Host(h) if h == "example.test"));
    assert!(matches!(url_filter::precheck_authority("example.test:http"), HostCheck::Host(h) if h == "example.test:http"));
    assert!(matches!(url_filter::precheck_authority(":8080"), HostCheck::Reject));
    assert!(matches!(url_filter::precheck_authority("a\u{7}b"), HostCheck::Reject));
    assert!(matches!(url_filter::precheck_authority("a\u{85}b"), HostCheck::Reject));
    assert!(url_filter::authority_is_valid("[not really an address"));
    assert!(!url_filter::authority_is_valid(""));
    assert!(url_filter::authority_is_valid("example.test:8080"));
}

#[test]
fn request_target_url_falls_back_to_localhost() {
    let ctx = context_without_transport(request("GET", "", "/x?y=1"));
    assert_eq!(url_filter::request_target_url(&ctx), "http://localhost/x?y=1");
    let ctx = context_without_transport(request("GET", "example.test:8080", "/"));
    assert_eq!(url_filter::request_target_url(&ctx), "http://example.test:8080/");
    assert!(url_filter::request_target_is_valid(&ctx));
    let empty = context_without_transport(request("GET", "", "/"));
    assert!(!url_filter::request_target_is_valid(&empty));
    assert_eq!(url_filter::continue_hook().action, HookAction::Continue);
}

// ----- example-l4-sticky -----

fn strings(values: &[&str]) -> Vec<String> {
    values.iter().map(|v| v.to_string()).collect()
}

fn sample_config() -> LoadedConfig {
    match LoadedConfig::try_from(FileConfig {
        ttl_secs: default_ttl_secs(),
        fallback_backends: strings(&["127.0.0.1:9001", "127.0.0.1:9002"]),
        listeners: vec![ListenerConfig {
            name: "listener-a".to_string(),
            backends: strings(&["127.0.0.1:9101", "127.0.0.1:9102"]),
        }],
    }) {
        Ok(c) => c,
        Err(e) => panic!("config parse error: {}", plugin_error_message(&e)),
    }
}

#[test]
fn parses_config_and_selects_shared_backend_for_tcp_and_udp() {
    let config = sample_config();

    let ip = ClientIp::V4([192, 0, 2, 10]);
    let tcp_backend = choose_backend("listener-a", ip, config.pool_for_listener("listener-a"));
    let udp_backend = choose_backend("listener-a", ip, config.pool_for_listener("listener-a"));

    assert_eq!(tcp_backend, udp_backend);
    assert!(config.pool_for_listener("listener-a").contains(&tcp_backend));
}

#[test]
fn validate_backend_list_normalization() {
    let backends = match normalize_backends(&strings(&[" 127.0.0.1:9001 "]), "test backends") {
        Ok(b) => b,
        Err(e) => panic!("normalize failed: {}", plugin_error_message(&e)),
    };
    assert_eq!(backends, vec!["127.0.0.1:9001".to_string()]);
}

#[test]
fn config_rejects_empty_backend_pool() {
    match LoadedConfig::try_from(FileConfig {
        ttl_secs: default_ttl_secs(),
        fallback_backends: vec![],
        listeners: vec![],
    }) {
        Ok(_) => panic!("expected error for empty config"),
        Err(e) => assert!(plugin_error_message(&e).contains("must define at least one listener pool")),
    }
}

#[test]
fn route_context_uses_client_ip_not_port() {
    // The peers 192.0.2.10:10000 and 192.0.2.10:20000 share one IP; only the
    // IP reaches the placement.
    let ip1 = ClientIp::V4([192, 0, 2, 10]);
    let ip2 = ClientIp::V4([192, 0, 2, 10]);
    let config = match LoadedConfig::try_from(FileConfig {
        ttl_secs: default_ttl_secs(),
        fallback_backends: strings(&["127.0.0.1:9001", "127.0.0.1:9002"]),
        listeners: vec![],
    }) {
        Ok(c) => c,
        Err(e) => panic!("config parse error: {}", plugin_error_message(&e)),
    };

    let pool = config.pool_for_listener("missing-listener");
    let backend1 = choose_backend("listener-a", ip1, pool);
    let backend2 = choose_backend("listener-a", ip2, pool);

    assert_eq!(backend1, backend2);
}

fn init_context(config_path: Option<&str>, plugin_dir: Option<&str>) -> PluginInitContext {
    let mut entries = Vec::new();
    if let Some(path) = config_path {
        entries.push(KVPair { name: CONFIG_ENV.to_string(), value: path.to_string() });
    }
    PluginInitContext {
        library_path: "/tmp/libexample-l4-sticky.so".to_string(),
        plugin_dir: plugin_dir.map(|d| d.to_string()),
        host_version: SemVer { major: 1, minor: 0, patch: 0 },
        env: EnvSnapshot { entries },
    }
}

#[test]
fn resolve_config_path_prefers_env_then_plugin_dir_then_default() {
    let env_config = "/tmp/sticky-test/env.toml";
    let plugin_dir = "/tmp/sticky-test/plugin";

    let env_ctx = init_context(Some(env_config), Some(plugin_dir));
    assert_eq!(resolve_config_path(&env_ctx), env_config);

    let plugin_ctx = init_context(None, Some(plugin_dir));
    assert_eq!(
        resolve_config_path(&plugin_ctx),
        std::path::Path::new(plugin_dir).join("sticky-l4.toml").to_string_lossy()
    );

    let default_ctx = init_context(None, None);
    assert_eq!(resolve_config_path(&default_ctx), "sticky-l4.toml");
}

#[test]
fn resolve_config_path_joins_plugin_dir() {
    let with_slash = init_context(None, Some("/opt/plugins/"));
    assert_eq!(resolve_config_path(&with_slash), "/opt/plugins/sticky-l4.toml");

    let relative = init_context(None, Some("plugins"));
    assert_eq!(resolve_config_path(&relative), "plugins/sticky-l4.toml");

    let empty_dir = init_context(None, Some(""));
    assert_eq!(resolve_config_path(&empty_dir), "sticky-l4.toml");
}

#[test]
fn ensure_state_caches_init_failures() {
    let mut slot = SharedInitState::new();
    assert!(matches!(slot.init_step(), InitStep::Load));
    let load_error = PluginError {
        message: Some(
            "failed to read sticky config /tmp/sticky-test/missing.toml: No such file or directory (os error 2)"
                .to_string(),
        ),
    };

    let first = slot.record_load(Err(load_error)).expect_err("expected missing config error");
    let second = match slot.init_step() {
        InitStep::Failed(e) => e,
        _ => panic!("expected cached missing config error"),
    };

    assert!(plugin_error_message(&first).contains("failed to read sticky config"));
    assert_eq!(plugin_error_message(&first), plugin_error_message(&second));
}

#[test]
fn init_without_message_keeps_default_text() {
    let mut slot = SharedInitState::new();
    let first = slot.record_load(Err(PluginError { message: None })).expect_err("error");
    assert_eq!(plugin_error_message(&first), "unknown plugin error");
    match slot.init_step() {
        InitStep::Failed(e) => assert_eq!(plugin_error_message(&e), "failed to load sticky config"),
        _ => panic!("expected cached failure"),
    }
}

#[test]
fn init_success_is_ready() {
    let mut slot = SharedInitState::new();
    slot.record_load(Ok(sample_config())).expect("loaded");
    assert!(matches!(slot.init_step(), InitStep::Ready));
    let state = slot.state.as_ref().expect("state");
    assert!(state.assignments.is_empty());
    assert_eq!(state.config.ttl_secs, 900);
}

#[test]
fn selection_is_sticky_and_shared() {
    let mut state = SharedState::new(sample_config());
    let ip = ClientIp::V4([192, 0, 2, 10]);
    let first = state.select_backend("listener-a", ip, 1_000).expect("select");
    assert!(first == "127.0.0.1:9101" || first == "127.0.0.1:9102");
    assert_eq!(state.assignments.len(), 1);
    assert_eq!(state.assignments[0].expires_at, 1_000 + 900 * 1_000_000_000);

    let cached = state.select_backend("listener-a", ip, 2_000).expect("cached select");
    assert_eq!(first, cached);
    assert_eq!(state.assignments.len(), 1);
    assert_eq!(state.assignments[0].expires_at, 1_000 + 900 * 1_000_000_000);

    let fallback = state.select_backend("other", ClientIp::V6([0u8; 16]), 3_000).expect("fallback");
    assert!(fallback == "127.0.0.1:9001" || fallback == "127.0.0.1:9002");
    assert_eq!(state.assignments.len(), 2);
}

#[test]
fn expired_assignments_are_dropped_and_renewed() {
    let mut state = SharedState::new(sample_config());
    let ip = ClientIp::V4([10, 0, 0, 1]);
    let placed = choose_backend("listener-a", ip, state.config.pool_for_listener("listener-a"));
    let other = if placed == "127.0.0.1:9101" { "127.0.0.1:9102" } else { "127.0.0.1:9101" };
    state.assignments.push(StickyEntry {
        listener: "listener-a".to_string(),
        client_ip: ip,
        backend: other.to_string(),
        expires_at: 5_000,
    });
    state.assignments.push(StickyEntry {
        listener: "gone".to_string(),
        client_ip: ip,
        backend: "127.0.0.1:1".to_string(),
        expires_at: 10,
    });

    // A live assignment whose backend is still in the pool wins over placement.
    assert_eq!(state.select_backend("listener-a", ip, 100).expect("live"), other);
    assert_eq!(state.assignments.len(), 1);

    // Once it expires, the placed backend is assigned anew.
    assert_eq!(state.select_backend("listener-a", ip, 5_000).expect("expired"), placed);
    assert_eq!(state.assignments.len(), 1);
    assert_eq!(state.assignments[0].backend, placed);
    assert_eq!(state.assignments[0].expires_at, 5_000 + 900 * 1_000_000_000);
}

#[test]
fn assignment_outside_the_pool_is_replaced() {
    let mut state = SharedState::new(sample_config());
    let ip = ClientIp::V4([10, 0, 0, 2]);
    state.assignments.push(StickyEntry {
        listener: "listener-a".to_string(),
        client_ip: ip,
        backend: "127.0.0.1:1".to_string(),
        expires_at: u128::MAX,
    });
    let placed = choose_backend("listener-a", ip, state.config.pool_for_listener("listener-a"));
    assert_eq!(state.select_backend("listener-a", ip, 0).expect("select"), placed);
    assert_eq!(state.assignments.len(), 1);
    assert_eq!(state.assignments[0].backend, placed);
}

#[test]
fn placement_is_the_xxh3_digest_of_listener_and_ip() {
    let pool = strings(&["a:1", "b:2", "c:3"]);
    let ip = ClientIp::V6([0x20, 0x01, 0x0d, 0xb8, 0, 0, 0, 0, 0, 0, 0, 0, 0, 0, 0, 1]);
    let mut key = b"listener-a".to_vec();
    key.extend_from_slice(&[0x20, 0x01, 0x0d, 0xb8, 0, 0, 0, 0, 0, 0, 0, 0, 0, 0, 0, 1]);
    let digest = xxhash_rust::xxh3::xxh3_64(&key);
    let mut streaming = xxhash_rust::xxh3::Xxh3::new();
    streaming.update(b"listener-a");
    streaming.update(&[0x20, 0x01, 0x0d, 0xb8, 0, 0, 0, 0, 0, 0, 0, 0, 0, 0, 0, 1]);
    assert_eq!(streaming.digest(), digest);
    let expected = &pool[(digest as usize) % pool.len()];
    assert_eq!(&choose_backend("listener-a", ip, &pool), expected);
    assert_eq!(&vakil::plugins::sticky::backend_for_digest(digest, &pool), expected);
    assert_eq!(vakil::plugins::sticky::backend_for_digest(4, &pool), "b:2");
}

#[test]
fn missing_pool_is_an_error() {
    let config = LoadedConfig::try_from(FileConfig {
        ttl_secs: 1,
        fallback_backends: vec![],
        listeners: vec![ListenerConfig { name: " a ".to_string(), backends: vec![] }],
    })
    .expect("a listener without backends is accepted");
    assert_eq!(config.listener_backends[0].name, "a");
    let mut state = SharedState::new(config);
    let err = state.select_backend("a", ClientIp::V4([1, 2, 3, 4]), 0).expect_err("empty pool");
    assert_eq!(plugin_error_message(&err), "no backends configured for listener a");
    assert!(state.assignments.is_empty());
}

#[test]
fn config_errors_name_the_problem() {
    let err = |fc: FileConfig| plugin_error_message(&LoadedConfig::try_from(fc).expect_err("refused"));
    assert_eq!(
        err(FileConfig { ttl_secs: 0, fallback_backends: strings(&["x:1"]), listeners: vec![] }),
        "ttl_secs must be greater than zero"
    );
    assert_eq!(
        err(FileConfig {
            ttl_secs: 5,
            fallback_backends: vec![],
            listeners: vec![ListenerConfig { name: "  ".to_string(), backends: strings(&["x:1"]) }],
        }),
        "listener name cannot be empty"
    );
    assert_eq!(
        err(FileConfig {
            ttl_secs: 5,
            fallback_backends: vec![],
            listeners: vec![
                ListenerConfig { name: "a".to_string(), backends: strings(&["x:1"]) },
                ListenerConfig { name: " a".to_string(), backends: strings(&["y:1"]) },
            ],
        }),
        "duplicate listener a"
    );
    assert_eq!(
        err(FileConfig {
            ttl_secs: 5,
            fallback_backends: vec![],
            listeners: vec![ListenerConfig { name: "a".to_string(), backends: strings(&["x:1", " "]) }],
        }),
        "listener a cannot be empty"
    );
    assert_eq!(
        err(FileConfig { ttl_secs: 5, fallback_backends: strings(&["x:1", ""]), listeners: vec![] }),
        "fallback_backends cannot be empty"
    );
    assert_eq!(normalize(" v ", "f").expect("trimmed"), "v");
    assert_eq!(plugin_error_message(&normalize("\t", "f").expect_err("blank")), "f cannot be empty");
}

#[test]
fn backend_addresses_split_at_last_colon() {
    let a = backend_to_socket_address("127.0.0.1:9001").expect("address");
    assert_eq!((a.host.as_str(), a.port), ("127.0.0.1", 9001));
    let a = backend_to_socket_address("[::1]:80").expect("address");
    assert_eq!((a.host.as_str(), a.port), ("[::1]", 80));
    let e = backend_to_socket_address("nohost").expect_err("no colon");
    assert_eq!(plugin_error_message(&e), "invalid backend address nohost");
    let e = backend_to_socket_address("h:99999").expect_err("port too large");
    assert_eq!(plugin_error_message(&e), "invalid backend port h:99999");
    let e = backend_to_socket_address("h:").expect_err("empty port");
    assert_eq!(plugin_error_message(&e), "invalid backend port h:");
}

#[test]
fn route_decisions() {
    let r = route_to("127.0.0.1:9101".to_string());
    assert_eq!(r.action, RouteAction::ReplaceUpstream);
    let u = r.upstream_to_set.expect("upstream");
    assert_eq!((u.host.as_str(), u.port), ("127.0.0.1", 9101));
    let r = route_to("bad".to_string());
    assert_eq!(r.action, RouteAction::Keep);
    assert!(r.upstream_to_set.is_none());
    assert_eq!(keep_route().action, RouteAction::Keep);
    let r = reject_route(503, "sticky backend unavailable");
    assert_eq!(r.action, RouteAction::Reject);
    assert!(r.upstream_to_set.is_none() && r.http_path.is_none());
    assert_eq!(vakil::plugins::sticky::continue_hook().action, HookAction::Continue);
}

#[test]
fn env_value_takes_first_match() {
    let ctx = PluginInitContext {
        library_path: "/x.so".to_string(),
        plugin_dir: None,
        host_version: SemVer { major: 0, minor: 1, patch: 0 },
        env: EnvSnapshot {
            entries: vec![
                KVPair { name: "A".to_string(), value: "1".to_string() },
                KVPair { name: "B".to_string(), value: "2".to_string() },
                KVPair { name: "A".to_string(), value: "3".to_string() },
            ],
        },
    };
    assert_eq!(env_value(&ctx, "A").as_deref(), Some("1"));
    assert_eq!(env_value(&ctx, "B").as_deref(), Some("2"));
    assert_eq!(env_value(&ctx, "C"), None);
    assert_eq!(default_ttl_secs(), 900);
}
