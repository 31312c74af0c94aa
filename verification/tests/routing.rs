use prism::config::{self, FileConfig, FileRoute, RouteConfig};
use prism::dataplane::{self, AddrPair, DialPlan};
use prism::paths;
use prism::router::{self, Router, Strategy};
use prism::sandbox::ChainMiddleware;

fn route(hosts: &[&str], upstreams: &[&str], strategy: &str) -> RouteConfig {
    RouteConfig {
        host: hosts.iter().map(|s| s.to_string()).collect(),
        upstreams: upstreams.iter().map(|s| s.to_string()).collect(),
        middlewares: Vec::new(),
        strategy: strategy.to_string(),
        cache_ping_ttl_ms: None,
    }
}

fn empty_chain() -> ChainMiddleware {
    ChainMiddleware::new(Vec::new())
}

#[test]
fn middleware_dir_defaults_to_config_dir_middlewares() {
    let rp = paths::resolve_middleware_dir("C:/tmp/prism_cfg", None).expect("resolve");
    assert_eq!(rp.as_str(), "C:/tmp/prism_cfg/middlewares");
}

#[test]
fn middleware_dir_relative_is_under_config_dir() {
    let rp = paths::resolve_middleware_dir("C:/tmp/prism_cfg", Some("./p")).expect("resolve");
    assert_eq!(rp.as_str(), "C:/tmp/prism_cfg/p");
}

#[test]
fn wildcard_substitution() {
    let cfg = route(&["*.labs.example.com"], &["$1.backend:25565"], "sequential");
    let mut r = Router::new(vec![(cfg, empty_chain())]);
    let res = r.resolve("play.labs.example.com").expect("match");
    assert_eq!(res.upstreams[0].as_str(), "play.backend:25565");
    assert_eq!(res.captures.len(), 1);
    assert_eq!(res.captures[0].as_str(), "play");
    assert_eq!(res.matched_host.as_str(), "*.labs.example.com");
}

#[test]
fn exact_host_takes_first_matching_route() {
    let a = route(&["a.example.com"], &["one:1"], "sequential");
    let b = route(&["*.example.com"], &["two:2"], "sequential");
    let mut r = Router::new(vec![(a, empty_chain()), (b, empty_chain())]);
    let res = r.resolve("a.example.com").expect("match");
    assert_eq!(res.upstreams[0].as_str(), "one:1");
    assert_eq!(res.route_index, 0);
    let res2 = r.resolve("b.example.com").expect("match");
    assert_eq!(res2.upstreams[0].as_str(), "two:2");
    assert_eq!(res2.route_index, 1);
    assert!(r.resolve("nothing.else").is_none());
}

#[test]
fn question_mark_captures_one_character() {
    let cfg = route(&["node-?.example.com"], &["$1.pool:7000"], "sequential");
    let mut r = Router::new(vec![(cfg, empty_chain())]);
    let res = r.resolve("node-7.example.com").expect("match");
    assert_eq!(res.upstreams[0].as_str(), "7.pool:7000");
    assert!(r.resolve("node-77.example.com").is_none());
}

#[test]
fn round_robin_rotates_candidates() {
    let cfg = route(
        &["play.example.com"],
        &["a:25565", "b:25565", "c:25565"],
        "round-robin",
    );
    let mut r = Router::new(vec![(cfg, empty_chain())]);
    let mut firsts = Vec::new();
    for _ in 0..4 {
        let res = r.resolve("play.example.com").expect("match");
        firsts.push(res.upstreams[0].clone());
        assert_eq!(res.upstreams.len(), 3);
    }
    assert_eq!(firsts, vec!["a:25565", "b:25565", "c:25565", "a:25565"]);
}

#[test]
fn router_update_swaps_table_whole() {
    let t1 = route(&["one.example.com"], &["a:1"], "sequential");
    let mut r = Router::new(vec![(t1, empty_chain())]);
    assert!(r.resolve("one.example.com").is_some());
    let t2 = route(&["two.example.com"], &["b:2"], "sequential");
    r.update(vec![(t2, empty_chain())]);
    assert!(r.resolve("one.example.com").is_none());
    assert!(r.resolve("two.example.com").is_some());
}

#[test]
fn strategy_names_normalize() {
    assert_eq!(router::parse_strategy("  Round_Robin "), Strategy::RoundRobin);
    assert_eq!(router::parse_strategy("roundrobin"), Strategy::RoundRobin);
    assert_eq!(router::parse_strategy("random"), Strategy::Random);
    assert_eq!(router::parse_strategy(""), Strategy::Sequential);
    assert_eq!(router::parse_strategy("whatever"), Strategy::Sequential);
}

#[test]
fn substitution_replaces_highest_index_first() {
    let groups: Vec<String> = (1..=10).map(|i| format!("g{}", i)).collect();
    let out = router::substitute_params("$10-$1", &groups);
    assert_eq!(out.as_str(), "g10-g1");
}

#[test]
fn plan_dial_tunnel_and_direct() {
    match dataplane::plan_dial("tunnel: svc ", Some(25565)).expect("plan") {
        DialPlan::Tunnel(s) => assert_eq!(s.as_str(), "svc"),
        DialPlan::Direct(_) => panic!("expected tunnel plan"),
    }
    match dataplane::plan_dial("example.com", Some(25565)).expect("plan") {
        DialPlan::Direct(a) => assert_eq!(a.as_str(), "example.com:25565"),
        DialPlan::Tunnel(_) => panic!("expected direct plan"),
    }
    match dataplane::plan_dial("[::1]:22", Some(25565)).expect("plan") {
        DialPlan::Direct(a) => assert_eq!(a.as_str(), "[::1]:22"),
        DialPlan::Tunnel(_) => panic!("expected direct plan"),
    }
    assert!(dataplane::plan_dial("   ", Some(1)).is_err());
    assert!(dataplane::plan_dial("tunnel:   ", Some(1)).is_err());
}

#[test]
fn upstream_port_heuristic() {
    assert!(dataplane::upstream_needs_port("example.com"));
    assert!(!dataplane::upstream_needs_port("example.com:25565"));
    assert!(dataplane::upstream_needs_port("[::1]"));
    assert!(!dataplane::upstream_needs_port("[::1]:22"));
    assert!(!dataplane::upstream_needs_port("   "));
}

#[test]
fn masquerade_label_substitutes_captures() {
    let captures = vec!["us".to_string()];
    let label = dataplane::rewrite_label(true, "$1.edge.internal", &captures, "tunnel:svc");
    assert_eq!(label.as_str(), "us.edge.internal");
    let plain = dataplane::rewrite_label(false, "$1.edge.internal", &captures, "a:25565");
    assert_eq!(plain.as_str(), "a:25565");
    let no_mask = dataplane::rewrite_label(true, "  ", &captures, "tunnel:svc");
    assert_eq!(no_mask.as_str(), "tunnel:svc");
}

#[test]
fn proxy_protocol_v2_ipv4_bytes() {
    let pair = AddrPair::V4 {
        src: (192, 168, 0, 1),
        src_port: 4000,
        dst: (10, 0, 0, 2),
        dst_port: 25565,
    };
    let out = dataplane::proxy_protocol_v2_bytes(&pair);
    let mut expect = vec![13, 10, 13, 10, 0, 13, 10, 81, 85, 73, 84, 10, 0x21, 0x11];
    expect.extend_from_slice(&12u16.to_be_bytes());
    expect.extend_from_slice(&[192, 168, 0, 1, 10, 0, 0, 2]);
    expect.extend_from_slice(&4000u16.to_be_bytes());
    expect.extend_from_slice(&25565u16.to_be_bytes());
    assert_eq!(out, expect);
}

#[test]
fn proxy_protocol_v2_unspec_when_families_mix() {
    let out = dataplane::proxy_protocol_v2_bytes(&AddrPair::Unspec);
    let mut expect = vec![13, 10, 13, 10, 0, 13, 10, 81, 85, 73, 84, 10, 0x21, 0x00];
    expect.extend_from_slice(&0u16.to_be_bytes());
    assert_eq!(out, expect);
}

#[test]
fn status_cache_hits_until_expiry() {
    let mut cache = dataplane::StatusCache::new();
    cache.set("a:25565", 763, b"frame".to_vec(), 5000, 1000);
    let hit = cache.get("a:25565", 763, 2000).expect("hit");
    assert_eq!(hit, b"frame".to_vec());
    assert!(cache.get("a:25565", 764, 2000).is_none());
    assert!(cache.get("a:25565", 763, 6000).is_none());
    // expired entries are removed lazily
    assert!(cache.get("a:25565", 763, 2000).is_none());
}

#[test]
fn status_cache_ignores_zero_ttl_and_empty_frames() {
    let mut cache = dataplane::StatusCache::new();
    cache.set("a:25565", 763, b"frame".to_vec(), 0, 1000);
    assert!(cache.get("a:25565", 763, 1001).is_none());
    cache.set("a:25565", 763, Vec::new(), 5000, 1000);
    assert!(cache.get("a:25565", 763, 1001).is_none());
}

#[test]
fn status_cache_key_normalization() {
    let key = dataplane::normalize_status_cache_upstream(
        "backend",
        25565,
        "play.example.com",
        "play.example.com",
        19132,
    );
    assert_eq!(key.as_str(), "backend:19132");
    let key2 = dataplane::normalize_status_cache_upstream(
        "backend",
        25565,
        "play.example.com",
        "other.example.com",
        19132,
    );
    assert_eq!(key2.as_str(), "backend:25565");
    let key3 = dataplane::normalize_status_cache_upstream(
        "tunnel:svc",
        25565,
        "play.example.com",
        "play.example.com",
        19132,
    );
    assert_eq!(key3.as_str(), "tunnel:svc");
    assert_eq!(
        dataplane::normalize_status_cache_upstream("  ", 1, "h", "h", 2).as_str(),
        ""
    );
}

fn empty_file_config() -> FileConfig {
    FileConfig {
        listeners: Vec::new(),
        admin_addr: String::new(),
        routes: Vec::new(),
        max_header_bytes: 0,
        reload: None,
        proxy_protocol_v2: false,
        buffer_size: 0,
        upstream_dial_timeout_ms: 0,
        timeouts: None,
        tunnel: None,
    }
}

fn empty_file_route() -> FileRoute {
    FileRoute {
        host: Vec::new(),
        hosts: Vec::new(),
        upstream: Vec::new(),
        upstreams: Vec::new(),
        backend: Vec::new(),
        backends: Vec::new(),
        middlewares: Vec::new(),
        strategy: None,
        cache_ping_ttl: None,
        cache_ping_ttl_ms: None,
    }
}

#[test]
fn config_defaults_apply() {
    let cfg = config::Config::from_file_config(&empty_file_config()).expect("config");
    assert_eq!(cfg.max_header_bytes, 65536);
    assert_eq!(cfg.buffer_size, 32768);
    assert_eq!(cfg.upstream_dial_timeout_ms, 5000);
    assert_eq!(cfg.timeouts.handshake_timeout_ms, 3000);
    assert_eq!(cfg.timeouts.idle_timeout_ms, 0);
    assert!(cfg.reload.enabled);
    assert_eq!(cfg.reload.poll_interval_ms, 1000);
    assert!(cfg.tunnel.auto_listen_services);
}

#[test]
fn config_rejects_route_without_hosts_or_upstreams() {
    let mut fc = empty_file_config();
    let mut r = empty_file_route();
    r.upstreams = vec!["a:1".to_string()];
    fc.routes = vec![r];
    assert!(config::Config::from_file_config(&fc).is_err());

    let mut fc2 = empty_file_config();
    let mut r2 = empty_file_route();
    r2.host = vec!["play.example.com".to_string()];
    fc2.routes = vec![r2];
    assert!(config::Config::from_file_config(&fc2).is_err());
}

#[test]
fn config_route_normalizes_hosts_and_keeps_upstreams() {
    let mut fc = empty_file_config();
    let mut r = empty_file_route();
    r.host = vec![" Play.Example.Com ".to_string(), "  ".to_string()];
    r.backend = vec![" a:1 ".to_string()];
    fc.routes = vec![r];
    let cfg = config::Config::from_file_config(&fc).expect("config");
    assert_eq!(cfg.routes.len(), 1);
    assert_eq!(cfg.routes[0].host, vec!["play.example.com"]);
    assert_eq!(cfg.routes[0].upstreams, vec!["a:1"]);
    // the built-in prelude parsers back a route with no explicit chain
    assert_eq!(cfg.routes[0].middlewares, vec!["minecraft_handshake", "tls_sni"]);
}

#[test]
fn cache_ttl_parsing() {
    assert_eq!(config::parse_cache_ttl(Some("-1"), None).expect("ok"), None);
    assert_eq!(config::parse_cache_ttl(Some("5s"), None).expect("ok"), Some(5000));
    assert_eq!(config::parse_cache_ttl(Some("  "), None).expect("ok"), Some(10000));
    assert_eq!(config::parse_cache_ttl(None, Some(-3)).expect("ok"), None);
    assert_eq!(config::parse_cache_ttl(None, Some(1500)).expect("ok"), Some(1500));
    assert_eq!(config::parse_cache_ttl(None, None).expect("ok"), Some(10000));
    assert!(config::parse_cache_ttl(Some("not a duration"), None).is_err());
}

#[test]
fn effective_header_cap_defaults() {
    assert_eq!(dataplane::effective_max_header(0), 65536);
    assert_eq!(dataplane::effective_max_header(1234), 1234);
}

#[test]
fn random_strategy_returns_a_rotation() {
    let cfg = route(&["play.example.com"], &["a:1", "b:2", "c:3"], "random");
    let mut r = Router::new(vec![(cfg, empty_chain())]);
    for _ in 0..8 {
        let res = r.resolve("play.example.com").expect("match");
        let got: Vec<&str> = res.upstreams.iter().map(|s| s.as_str()).collect();
        assert!(
            got == ["a:1", "b:2", "c:3"]
                || got == ["b:2", "c:3", "a:1"]
                || got == ["c:3", "a:1", "b:2"],
            "not a rotation: {:?}",
            got
        );
    }
}

#[test]
fn dot_segments_clean_without_touching_names() {
    assert_eq!(paths::clean_dots("a./b").as_str(), "a./b");
    assert_eq!(paths::clean_dots("././p").as_str(), "p");
    assert_eq!(paths::clean_dots("/x/./y").as_str(), "/x/y");
    assert_eq!(paths::clean_dots("/x/.").as_str(), "/x/");
}

#[test]
fn escaped_wildcards_match_literally() {
    let cfg = route(&["a\\*b"], &["x:1"], "sequential");
    let mut r = Router::new(vec![(cfg, empty_chain())]);
    let res = r.resolve("a*b").expect("match the literal star");
    assert_eq!(res.upstreams[0].as_str(), "x:1");
    assert!(res.captures.is_empty());
    assert!(r.resolve("ab").is_none());
    assert!(r.resolve("acb").is_none());
}

#[test]
fn sub_millisecond_ttl_stays_positive() {
    assert_eq!(config::parse_cache_ttl(Some("100us"), None).expect("ok"), Some(1));
    assert_eq!(config::parse_cache_ttl(Some("0s"), None).expect("ok"), Some(0));
}

#[test]
fn udp_sessions_state_machine() {
    let mut t = dataplane::UdpSessions::new();
    let a = b"1.2.3.4:1000".to_vec();
    let b = b"1.2.3.4:2000".to_vec();
    assert!(matches!(t.on_datagram(&a, 10, false), dataplane::UdpAction::Create));
    assert!(matches!(t.on_datagram(&a, 20, false), dataplane::UdpAction::Deliver));
    assert!(matches!(t.on_datagram(&a, 30, true), dataplane::UdpAction::Recreate));
    assert!(matches!(t.on_datagram(&b, 40, false), dataplane::UdpAction::Create));
    assert!(t.contains_peer(&a));
    // peer a was last seen at 30; an idle bound of 50 evicts it at 90
    t.evict_idle(90, 50);
    assert!(!t.contains_peer(&a));
    assert!(t.contains_peer(&b));
    t.evict_idle(200, 50);
    assert!(!t.contains_peer(&b));
}
