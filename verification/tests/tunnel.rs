use prism::autolisten::{self, DesiredSvc};
use prism::client::{Client, ClientOptions, QuicClientOptions};
use prism::manager::{Manager, ServiceSnapshot};
use prism::sandbox::{ChainMiddleware, MiddlewareCtx, MiddlewareError, WasmMiddleware};
use prism::telemetry::{self, SessionInfo, SessionRegistry};
use prism::transport;
use prism::wire::RegisteredService;

fn svc(name: &str, proto: &str, route_only: bool, remote: &str) -> RegisteredService {
    RegisteredService {
        name: name.to_string(),
        proto: proto.to_string(),
        local_addr: "127.0.0.1:25565".to_string(),
        route_only,
        remote_addr: remote.to_string(),
        masquerade_host: String::new(),
    }
}

#[test]
fn manager_first_writer_keeps_ownership() {
    let mut mgr = Manager::new();
    mgr.register_client("c-1".to_string(), "r1".to_string(), vec![svc("svc", "tcp", false, "")], 10)
        .expect("register");
    mgr.register_client("c-2".to_string(), "r2".to_string(), vec![svc("svc", "tcp", false, "")], 20)
        .expect("register");
    assert!(mgr.has_service("svc"));
    let (c, k) = mgr.service_owner(None, "svc").expect("owner");
    assert_eq!(mgr.clients[c].id, "c-1");
    assert_eq!(mgr.clients[c].services[k].name, "svc");
}

#[test]
fn manager_promotes_oldest_survivor_on_unregister() {
    let mut mgr = Manager::new();
    mgr.register_client("c-1".to_string(), "r1".to_string(), vec![svc("svc", "tcp", false, "")], 10)
        .expect("register");
    mgr.register_client("c-3".to_string(), "r3".to_string(), vec![svc("svc", "tcp", false, "")], 30)
        .expect("register");
    mgr.register_client("c-2".to_string(), "r2".to_string(), vec![svc("svc", "tcp", false, "")], 20)
        .expect("register");
    mgr.unregister_client("c-1");
    assert!(mgr.has_service("svc"));
    let (c, _k) = mgr.service_owner(None, "svc").expect("owner");
    // the oldest surviving provider takes over
    assert_eq!(mgr.clients[c].id, "c-2");
    mgr.unregister_client("c-2");
    mgr.unregister_client("c-3");
    assert!(!mgr.has_service("svc"));
    assert!(mgr.service_owner(None, "svc").is_err());
}

#[test]
fn manager_replaces_client_with_same_id() {
    let mut mgr = Manager::new();
    mgr.register_client("c-1".to_string(), "r1".to_string(), vec![svc("a", "tcp", false, "")], 10)
        .expect("register");
    mgr.register_client("c-1".to_string(), "r1".to_string(), vec![svc("b", "tcp", false, "")], 20)
        .expect("register");
    assert_eq!(mgr.clients.len(), 1);
    assert!(!mgr.has_service("a"));
    assert!(mgr.has_service("b"));
}

#[test]
fn manager_rejects_empty_client_id() {
    let mut mgr = Manager::new();
    assert!(mgr
        .register_client("   ".to_string(), String::new(), Vec::new(), 1)
        .is_err());
}

#[test]
fn manager_pinned_dial_uses_that_client() {
    let mut mgr = Manager::new();
    mgr.register_client("c-1".to_string(), "r1".to_string(), vec![svc("svc", "tcp", false, "")], 10)
        .expect("register");
    mgr.register_client("c-2".to_string(), "r2".to_string(), vec![svc("svc", "tcp", false, "")], 20)
        .expect("register");
    let (c, _k) = mgr.service_owner(Some("c-2"), "svc").expect("owner");
    assert_eq!(mgr.clients[c].id, "c-2");
    assert!(mgr.service_owner(Some("c-9"), "svc").is_err());
}

#[test]
fn client_ids_are_sequential() {
    let mut mgr = Manager::new();
    assert_eq!(mgr.next_client_id("c").as_str(), "c-1");
    assert_eq!(mgr.next_client_id("c").as_str(), "c-2");
    assert_eq!(mgr.next_client_id("  ").as_str(), "c-3");
    assert_eq!(mgr.next_client_id("node").as_str(), "node-4");
}

fn snapshot_of(mgr: &Manager) -> Vec<ServiceSnapshot> {
    let mut out = Vec::new();
    for c in mgr.clients.iter() {
        for s in c.services.iter() {
            out.push(ServiceSnapshot {
                service: s.clone(),
                client_id: c.id.clone(),
                remote: c.remote.clone(),
                primary: true,
            });
        }
    }
    out
}

#[test]
fn reconcile_skips_route_only_even_with_remote_addr() {
    let mut mgr = Manager::new();
    mgr.register_client(
        "c-1".to_string(),
        String::new(),
        vec![svc("svc", "tcp", true, "127.0.0.1:0")],
        1,
    )
    .expect("register");
    let desired = autolisten::desired_services(&snapshot_of(&mgr));
    assert_eq!(desired.len(), 0);
    let (running, stopped, started) = autolisten::reconcile_listeners(Vec::new(), &desired);
    assert_eq!(running.len(), 0);
    assert_eq!(stopped.len(), 0);
    assert_eq!(started.len(), 0);
}

#[test]
fn reconcile_starts_remote_listener() {
    let mut mgr = Manager::new();
    mgr.register_client(
        "c-1".to_string(),
        String::new(),
        vec![svc("svc", "tcp", false, "127.0.0.1:0")],
        1,
    )
    .expect("register");
    let desired = autolisten::desired_services(&snapshot_of(&mgr));
    assert_eq!(desired.len(), 1);
    assert_eq!(desired[0].client_id, "c-1");
    assert_eq!(desired[0].name, "svc");
    assert_eq!(desired[0].proto, "tcp");
    assert_eq!(desired[0].addr, "127.0.0.1:0");

    let (running, stopped, started) = autolisten::reconcile_listeners(Vec::new(), &desired);
    assert_eq!(running.len(), 1);
    assert_eq!(stopped.len(), 0);
    assert_eq!(started.len(), 1);

    // a second pass with no manager change is a no-op
    let (running2, stopped2, started2) = autolisten::reconcile_listeners(running, &desired);
    assert_eq!(running2.len(), 1);
    assert_eq!(stopped2.len(), 0);
    assert_eq!(started2.len(), 0);
}

#[test]
fn reconcile_stops_changed_descriptor() {
    let old = DesiredSvc {
        client_id: "c-1".to_string(),
        name: "svc".to_string(),
        proto: "tcp".to_string(),
        addr: "127.0.0.1:1000".to_string(),
    };
    let new = DesiredSvc {
        client_id: "c-1".to_string(),
        name: "svc".to_string(),
        proto: "tcp".to_string(),
        addr: "127.0.0.1:2000".to_string(),
    };
    let (running, stopped, started) = autolisten::reconcile_listeners(vec![old], &vec![new]);
    assert_eq!(stopped.len(), 1);
    assert_eq!(started.len(), 1);
    assert_eq!(running.len(), 1);
    assert_eq!(running[0].addr, "127.0.0.1:2000");
}

#[test]
fn client_new_filters_services_without_local_addr() {
    let mut no_local = svc("a", "tcp", false, "");
    no_local.local_addr = "  ".to_string();
    let opts = ClientOptions {
        server_addr: "srv:7000".to_string(),
        transport: "tcp".to_string(),
        auth_token: String::new(),
        services: vec![no_local, svc("b", "UDP", false, "")],
        dial_timeout_ms: 0,
        quic: QuicClientOptions { server_name: String::new(), insecure_skip_verify: false },
    };
    let c = Client::new(opts);
    assert_eq!(c.opts.dial_timeout_ms, 5000);
    assert_eq!(c.opts.services.len(), 1);
    assert_eq!(c.opts.services[0].name, "b");
    assert_eq!(c.opts.services[0].proto, "udp");
    assert!(c.find_local_service("b").is_some());
    assert!(c.find_local_service("a").is_none());
}

#[test]
fn backoff_doubles_and_caps() {
    assert_eq!(prism::client::next_backoff_ms(1000), 2000);
    assert_eq!(prism::client::next_backoff_ms(4000), 8000);
    assert_eq!(prism::client::next_backoff_ms(6000), 10000);
    assert_eq!(prism::client::next_backoff_ms(10000), 10000);
}

#[test]
fn transport_names() {
    assert_eq!(transport::parse_transport(" TCP ").expect("ok").as_str(), "tcp");
    assert_eq!(transport::parse_transport("").expect("ok").as_str(), "tcp");
    assert_eq!(transport::parse_transport("quic").expect("ok").as_str(), "quic");
    assert!(transport::parse_transport("webtransport").is_err());
    let alpn = transport::default_alpn(&Vec::new());
    assert_eq!(alpn.len(), 1);
    assert_eq!(alpn[0], b"prism-tunnel".to_vec());
    let own = transport::default_alpn(&vec![b"x".to_vec()]);
    assert_eq!(own, vec![b"x".to_vec()]);
}

#[test]
fn session_registry_replaces_by_id() {
    let mut reg = SessionRegistry::new();
    reg.add(SessionInfo {
        id: "s1".to_string(),
        client: "c".to_string(),
        host: "h".to_string(),
        upstream: "u".to_string(),
        started_at_unix_ms: 1,
    });
    reg.add(SessionInfo {
        id: "s1".to_string(),
        client: "c2".to_string(),
        host: "h".to_string(),
        upstream: "u".to_string(),
        started_at_unix_ms: 2,
    });
    assert_eq!(reg.snapshot().len(), 1);
    assert_eq!(reg.snapshot()[0].client, "c2");
    reg.remove("s1");
    assert_eq!(reg.snapshot().len(), 0);
}

#[test]
fn session_ids_are_sequential() {
    let mut seq: u64 = 1;
    assert_eq!(telemetry::new_session_id(&mut seq).as_str(), "s1");
    assert_eq!(telemetry::new_session_id(&mut seq).as_str(), "s2");
}

#[test]
fn reload_signal_counts() {
    let mut r = telemetry::ReloadSignal::new();
    assert_eq!(r.seq, 0);
    r.next();
    r.next();
    assert_eq!(r.seq, 2);
}

// A middleware that, in the parse phase, emits the host `x` and the
// rewrite `abc`, through the v1 output record.
const TEST_WAT: &str = r#"(module
    (memory (export "memory") 2)

  (func $pack (param $ptr i32) (param $len i32) (result i64)
    (i64.or
      (i64.extend_i32_u (local.get $ptr))
      (i64.shl (i64.extend_i32_u (local.get $len)) (i64.const 32))
    )
  )

    (func (export "prism_mw_run") (param $n i32) (param $ctx i32) (result i64)
    (local $phase i32)
    (local.set $phase (i32.load (i32.add (local.get $ctx) (i32.const 4))))

    (if (i32.eq (local.get $phase) (i32.const 0))
      (then
        (i32.store (i32.const 100) (i32.const 0x78)) ;; 'x'
        (i32.store8 (i32.const 200) (i32.const 0x61))
        (i32.store8 (i32.const 201) (i32.const 0x62))
        (i32.store8 (i32.const 202) (i32.const 0x63))

        (i32.store (i32.const 65536) (i32.const 100))
        (i32.store (i32.const 65540) (i32.const 1))
        (i32.store (i32.const 65544) (i32.const 200))
        (i32.store (i32.const 65548) (i32.const 3))
        (return (call $pack (i32.const 65536) (i32.const 16)))
      )
    )

    ;; rewrite phase: no-op
    (i64.const 1)
  )
)"#;

const NEED_MORE_WAT: &str = r#"(module
    (memory (export "memory") 1)
    (func (export "prism_mw_run") (param $n i32) (param $ctx i32) (result i64)
        (i64.const 0)
    )
)"#;

#[test]
fn wasm_middleware_returns_host_and_rewrite() {
    let m = WasmMiddleware::from_wat("t", &TEST_WAT.as_bytes().to_vec()).expect("load");
    let out = m.apply(&b"zzz".to_vec(), &MiddlewareCtx::parse()).expect("apply");
    assert_eq!(out.host.as_deref(), Some("x"));
    assert_eq!(out.rewrite.as_deref(), Some(b"abc".as_slice()));
}

#[test]
fn chain_first_host_wins_and_need_more_propagates() {
    let needy = WasmMiddleware::from_wat("needy", &NEED_MORE_WAT.as_bytes().to_vec()).expect("load");
    let emitter = WasmMiddleware::from_wat("emitter", &TEST_WAT.as_bytes().to_vec()).expect("load");
    let chain = ChainMiddleware::new(vec![needy, emitter]);
    let (host, rewritten) = chain.parse(&b"zzz".to_vec()).expect("parse");
    assert_eq!(host.as_str(), "x");
    assert_eq!(rewritten.as_deref(), Some(b"abc".as_slice()));

    let needy2 = WasmMiddleware::from_wat("needy", &NEED_MORE_WAT.as_bytes().to_vec()).expect("load");
    let chain2 = ChainMiddleware::new(vec![needy2]);
    match chain2.parse(&b"zzz".to_vec()) {
        Err(MiddlewareError::NeedMoreData) => {}
        _ => panic!("expected need-more-data"),
    }

    let empty = ChainMiddleware::new(Vec::new());
    match empty.parse(&b"zzz".to_vec()) {
        Err(MiddlewareError::NoMatch) => {}
        _ => panic!("expected no-match"),
    }
}

#[test]
fn chain_rewrite_applies_all_modules() {
    let rewriter = WasmMiddleware::from_wat("rw", &TEST_WAT.as_bytes().to_vec()).expect("load");
    let chain = ChainMiddleware::new(vec![rewriter]);
    // the test module does not rewrite in the rewrite phase
    assert!(chain.rewrite(&b"zzz".to_vec(), "up:1").is_none());
}

#[test]
fn compiling_invalid_wat_fails() {
    assert!(WasmMiddleware::from_wat("bad", &b"(not wat".to_vec()).is_err());
    assert!(WasmMiddleware::from_wat("  ", &TEST_WAT.as_bytes().to_vec()).is_err());
    // raw wasm binaries are refused: middleware sources stay text
    assert!(WasmMiddleware::from_wat("bin", &b"\0asm\x01\x00\x00\x00".to_vec()).is_err());
}

#[test]
fn resolve_prelude_through_wasm_chain() {
    let emitter = WasmMiddleware::from_wat("emitter", &TEST_WAT.as_bytes().to_vec()).expect("load");
    let chain = ChainMiddleware::new(vec![emitter]);
    let cfg = prism::config::RouteConfig {
        host: vec!["x".to_string()],
        upstreams: vec!["backend:1".to_string()],
        middlewares: Vec::new(),
        strategy: "sequential".to_string(),
        cache_ping_ttl_ms: None,
    };
    let mut router = prism::router::Router::new(vec![(cfg, chain)]);
    let res = router
        .resolve_prelude(&b"zzz".to_vec())
        .expect("no need-more")
        .expect("resolution");
    assert_eq!(res.host.as_str(), "x");
    assert_eq!(res.upstreams[0].as_str(), "backend:1");
    assert_eq!(res.prelude_override.as_deref(), Some(b"abc".as_slice()));
}

#[test]
fn metrics_counters_track_activity() {
    let mut m = prism::telemetry::MetricsCollector::new();
    m.inc_active();
    m.inc_active();
    m.dec_active();
    m.add_bytes(10, 20);
    m.add_route_hit(" Play.Example.Com ");
    m.add_route_hit("play.example.com");
    m.add_route_hit("  ");
    let snap = m.snapshot();
    assert_eq!(snap.active_connections, 1);
    assert_eq!(snap.total_connections_handled, 2);
    assert_eq!(snap.bytes_ingress, 10);
    assert_eq!(snap.bytes_egress, 20);
    assert_eq!(snap.route_hits.len(), 1);
    assert_eq!(snap.route_hits[0].0, "play.example.com");
    assert_eq!(snap.route_hits[0].1, 2);
}

#[test]
fn middleware_names_normalize_and_validate() {
    assert_eq!(
        prism::sandbox::normalize_builtin_name(" Minecraft-Handshake ").as_str(),
        "minecraft_handshake"
    );
    assert!(prism::sandbox::valid_middleware_name("tls_sni"));
    assert!(!prism::sandbox::valid_middleware_name("a/b"));
    assert!(!prism::sandbox::valid_middleware_name("a.wat"));
    assert!(!prism::sandbox::valid_middleware_name(""));
}

#[test]
fn middleware_provider_caches_by_name() {
    let mut p = prism::sandbox::FsWasmMiddlewareProvider::new("/etc/pr/mws".to_string());
    assert_eq!(p.wat_path_for(" TLS-SNI ").as_str(), "/etc/pr/mws/tls_sni.wat");
    assert!(p.cached("noop").is_none());
    let idx = p.load("noop", &NEED_MORE_WAT.as_bytes().to_vec()).expect("load");
    assert_eq!(p.cached("noop"), Some(idx));
    // one compiled module per name: a second load reuses the cached entry,
    // even with bytes that would not compile
    let again = p.load(" NOOP ", &b"(not wat".to_vec()).expect("load");
    assert_eq!(again, idx);
    assert_eq!(p.cache.len(), 1);
    assert!(p.load("bad/name", &NEED_MORE_WAT.as_bytes().to_vec()).is_err());
}

#[test]
fn datagram_conn_wraps_and_unwraps() {
    let carrier: Vec<u8> = vec![1, 2, 3];
    let conn = prism::wire::DatagramConn::new(carrier.clone());
    assert_eq!(conn.into_inner(), carrier);
}

#[test]
fn middleware_without_entry_point_is_fatal() {
    let wat = "(module (memory (export \"memory\") 1))";
    let m = WasmMiddleware::from_wat("noentry", &wat.as_bytes().to_vec()).expect("load");
    match m.apply(&b"zzz".to_vec(), &MiddlewareCtx::parse()) {
        Err(MiddlewareError::Fatal(_)) => {}
        _ => panic!("expected a fatal middleware error"),
    }
}
