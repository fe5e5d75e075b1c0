use raddex::config::answers::Answers;
use raddex::config::ast::{
    GlobalConfig, L4Upstream, Layer4Listener, LbPolicy, ListenAddress, SniRoute, TcpProxyConfig,
};
use raddex::config::compiled::CompiledConfig;
use raddex::config::snapshot::ConfigStore;
use raddex::layer4::listeners;
use raddex::layer4::tcp::{
    access_record, decide_sni, dns_refresh_interval, end_reason, has_hostname_upstreams,
    inspected_prefix, normalize_socket_addr, pump, relay_outcome, resolve_upstream,
    resolve_upstreams, same_addresses, select_sni_route, source_for, unrouted, watch, AppRuntime,
    ConnectionPlan, EndReason, L4Selector, PumpEvent, PumpStep, Refresh, RelayCounter, RelayEvent,
    ResolveFault, SniDecision, SniReason, Watch,
};
use raddex::layer4::tls::InspectOutcome;
use raddex::net::{IpAddr, SocketAddr};
use raddex::time::Duration;

fn local(port: u16) -> SocketAddr {
    SocketAddr::v4(127, 0, 0, 1, port)
}

fn listen() -> ListenAddress {
    ListenAddress::Socket(local(3306))
}

fn upstream(host: &str, port: u16) -> L4Upstream {
    L4Upstream {
        host: host.to_string(),
        port,
    }
}

fn tcp_config(upstreams: &[&str]) -> TcpProxyConfig {
    TcpProxyConfig {
        listen: listen(),
        tls: None,
        transparent: false,
        upstreams: upstreams
            .iter()
            .map(|u| {
                let (host, port) = u.rsplit_once(':').expect("host:port");
                upstream(host, port.parse().unwrap())
            })
            .collect(),
        lb_policy: LbPolicy::RoundRobin,
        connect_timeout: Duration::from_secs(5),
        idle_timeout: Duration::from_secs(60),
        max_connections: 10,
        health_check: None,
        sni_routes: vec![],
        sni_fallback: None,
    }
}

fn compiled(listeners: Vec<Layer4Listener>) -> CompiledConfig {
    CompiledConfig {
        global: GlobalConfig::default(),
        sites: vec![],
        layer4: listeners,
    }
}

fn built(tcp: &TcpProxyConfig) -> AppRuntime {
    match AppRuntime::build(tcp, &Vec::new()) {
        Ok(rt) => rt,
        Err(f) => panic!("{f:?}"),
    }
}

#[test]
fn resolve_upstream_accepts_ip_literals() {
    let addrs = resolve_upstream(&Vec::new(), &upstream("127.0.0.1", 9000)).unwrap();
    assert_eq!(addrs, vec![local(9000)]);
    let addrs = resolve_upstream(&Vec::new(), &upstream("::1", 9000)).unwrap();
    assert_eq!(addrs, vec![SocketAddr::new(IpAddr::V6(1), 9000)]);
}

#[test]
fn resolve_upstream_resolves_localhost() {
    let mut answers = Answers::none();
    answers.add_host("localhost", 9000, Ok(vec![local(9000)]));
    let addrs =
        resolve_upstream(&answers.hosts, &upstream("localhost", 9000)).expect("localhost resolves");
    assert!(!addrs.is_empty());
}

#[test]
fn has_hostname_upstreams_detects_hostnames_only() {
    let ip_only = tcp_config(&["127.0.0.1:1"]);
    assert!(!has_hostname_upstreams(&ip_only), "IP literals are static");
    let mixed = tcp_config(&["127.0.0.1:1", "db.internal:1"]);
    assert!(has_hostname_upstreams(&mixed));
}

#[test]
fn routes_and_fallbacks_can_be_named_by_host() {
    let mut tcp = tcp_config(&[]);
    tcp.sni_fallback = Some(upstream("db.internal", 1));
    assert!(has_hostname_upstreams(&tcp));
    let mut tcp = tcp_config(&[]);
    tcp.sni_routes.push(SniRoute {
        name: "a.test".into(),
        upstream: upstream("db.internal", 1),
    });
    assert!(has_hostname_upstreams(&tcp));
}

#[test]
fn resolve_upstreams_resolves_a_tcp_config() {
    let tcp = tcp_config(&["127.0.0.1:9000", "::1:9001"]);
    let resolved = resolve_upstreams(&Vec::new(), &tcp).unwrap();
    assert_eq!(
        resolved,
        vec![local(9000), SocketAddr::new(IpAddr::V6(1), 9001)]
    );
}

#[test]
fn upstreams_that_do_not_resolve_are_reported() {
    let tcp = tcp_config(&["db.internal:5432"]);
    assert_eq!(
        resolve_upstreams(&Vec::new(), &tcp),
        Err(ResolveFault::NeedsHost {
            host: "db.internal".into(),
            port: 5432
        })
    );
    let mut answers = Answers::none();
    answers.add_host("db.internal", 5432, Err("lookup failed: nope".to_string()));
    assert_eq!(
        resolve_upstreams(&answers.hosts, &tcp),
        Err(ResolveFault::Message(
            "tcp listener 127.0.0.1:3306: upstream db.internal:5432: failed to resolve db.internal:5432: lookup failed: nope"
                .into()
        ))
    );
    let mut answers = Answers::none();
    answers.add_host("db.internal", 5432, Ok(vec![]));
    assert_eq!(
        resolve_upstreams(&answers.hosts, &tcp),
        Err(ResolveFault::Message(
            "tcp listener 127.0.0.1:3306: upstream db.internal:5432 resolved to no addresses".into()
        ))
    );
}

#[test]
fn build_distinguishes_resolved_sets() {
    // Two runtimes over different upstream sets select differently: the DNS
    // refresher swaps the runtime when the resolved set changes.
    let mut a = built(&tcp_config(&["127.0.0.1:1", "127.0.0.1:2"]));
    let mut b = built(&tcp_config(&["127.0.0.1:3", "127.0.0.1:4"]));
    assert_ne!(a.resolved, b.resolved, "different upstreams differ");
    let L4Selector::Balancer(ba) = &mut a.selector else {
        panic!("to mode")
    };
    let L4Selector::Balancer(bb) = &mut b.selector else {
        panic!("to mode")
    };
    for _ in 0..4 {
        let sa = ba.select(b"").expect("a select");
        let sb = bb.select(b"").expect("b select");
        assert!(a.resolved.contains(&sa));
        assert!(b.resolved.contains(&sb));
    }
}

#[test]
fn sni_routing_builds_route_map() {
    // An SNI-mode config resolves each route to its own upstream and keeps
    // the fallback; no balancer is built.
    let mut tcp = tcp_config(&[]);
    tcp.sni_routes.push(SniRoute {
        name: "api.example.com".into(),
        upstream: upstream("127.0.0.1", 9001),
    });
    tcp.sni_fallback = Some(upstream("127.0.0.1", 9009));
    let runtime = built(&tcp);
    let L4Selector::Sni { routes, fallback } = &runtime.selector else {
        panic!("sni mode expected");
    };
    assert_eq!(
        select_sni_route(routes, "api.example.com"),
        Some(local(9001))
    );
    assert_eq!(*fallback, Some(local(9009)));
    assert!(runtime.resolved.contains(&local(9001)));
}

#[test]
fn dns_refresh_failure_keeps_last_known_good() {
    // A transient DNS refresh failure must keep the working backend set and
    // report the failure, never discard the set.
    let good = tcp_config(&["127.0.0.1:1"]);
    let mut runtime = built(&good);

    // The live snapshot's upstream now fails to resolve.
    let bad = tcp_config(&["nonexistent.invalid:1"]);
    let store = ConfigStore::new(compiled(vec![Layer4Listener::Tcp(bad)]));
    let mut answers = Answers::none();
    answers.add_host("nonexistent.invalid", 1, Err("lookup failed".to_string()));

    let before = runtime.resolved.clone();
    let refresh = runtime.follow_dns(&store, listen(), &answers.hosts);
    assert_eq!(
        runtime.resolved, before,
        "last-known-good addresses must be kept on a refresh failure"
    );
    assert!(
        matches!(refresh, Refresh::Failed(ResolveFault::Message(_))),
        "the refresh failure must be counted"
    );
}

#[test]
fn dns_refresh_ignores_the_order_of_addresses() {
    let tcp = tcp_config(&["db.internal:1"]);
    let mut first = Answers::none();
    first.add_host("db.internal", 1, Ok(vec![local(1), local(2)]));
    let mut rt = match AppRuntime::build(&tcp, &first.hosts) {
        Ok(rt) => rt,
        Err(_) => panic!("resolves"),
    };
    let ls = vec![Layer4Listener::Tcp(tcp)];
    let mut swapped = Answers::none();
    swapped.add_host("db.internal", 1, Ok(vec![local(2), local(1)]));
    assert_eq!(rt.refresh_dns(&ls, listen(), &swapped.hosts), Refresh::Kept);
    assert_eq!(rt.resolved, vec![local(1), local(2)]);
    let mut other = Answers::none();
    other.add_host("db.internal", 1, Ok(vec![local(2), local(2)]));
    assert_eq!(rt.refresh_dns(&ls, listen(), &other.hosts), Refresh::Rebuilt);
    assert_eq!(rt.resolved, vec![local(2), local(2)]);
    assert!(same_addresses(&vec![local(1), local(2)], &vec![local(2), local(1)]));
    assert!(!same_addresses(&vec![local(1), local(1)], &vec![local(1)]));
}

#[test]
fn reload_rebuilds_only_when_selection_changes() {
    let mut rt = built(&tcp_config(&["127.0.0.1:1"]));
    let same = ConfigStore::new(compiled(vec![Layer4Listener::Tcp(tcp_config(&["127.0.0.1:1"]))]));
    assert_eq!(rt.follow(&same, listen(), &Vec::new()), Refresh::Kept);
    let changed = ConfigStore::new(compiled(vec![Layer4Listener::Tcp(tcp_config(&["127.0.0.1:2"]))]));
    assert_eq!(rt.follow(&changed, listen(), &Vec::new()), Refresh::Rebuilt);
    assert_eq!(rt.resolved, vec![local(2)]);
    // A listener that is gone from the configuration goes on serving.
    let gone = ConfigStore::new(compiled(vec![]));
    assert_eq!(rt.follow(&gone, listen(), &Vec::new()), Refresh::Kept);
    assert_eq!(rt.resolved, vec![local(2)]);
    let unresolved = vec![Layer4Listener::Tcp(tcp_config(&["db.internal:2"]))];
    assert!(matches!(
        rt.reload(&unresolved, listen(), &Vec::new()),
        Refresh::Failed(ResolveFault::NeedsHost { .. })
    ));
    assert_eq!(rt.resolved, vec![local(2)]);
}

#[test]
fn listeners_come_in_config_order() {
    let c = compiled(vec![
        Layer4Listener::Tcp(tcp_config(&["127.0.0.1:1"])),
        Layer4Listener::Tcp(tcp_config(&["127.0.0.1:2"])),
    ]);
    assert_eq!(listeners(&c).len(), 2);
    assert!(matches!(&listeners(&c)[1], Layer4Listener::Tcp(t) if t.upstreams[0].port == 2));
}

#[test]
fn connections_are_planned() {
    let mut rt = built(&tcp_config(&["127.0.0.1:1", "127.0.0.1:2"]));
    let client = Some(local(40000));
    assert_eq!(rt.plan_connection(false, client, None), ConnectionPlan::Reject);
    let relay = |port| ConnectionPlan::Relay {
        upstream: local(port),
        source: None,
    };
    assert_eq!(rt.plan_connection(true, client, None), relay(1));
    assert_eq!(rt.plan_connection(true, client, None), relay(2));
    assert_eq!(rt.plan_connection(true, client, None), relay(1));
    if let L4Selector::Balancer(b) = &mut rt.selector {
        b.backends[0].healthy = false;
        b.backends[1].healthy = false;
    }
    assert_eq!(rt.plan_connection(true, client, None), ConnectionPlan::NoUpstream);
}

#[test]
fn transparent_connections_keep_their_source_and_target() {
    let mut tcp = tcp_config(&["127.0.0.1:1"]);
    tcp.transparent = true;
    let mut rt = built(&tcp);
    assert_eq!(
        rt.plan_connection(true, Some(local(40000)), Some(local(7))),
        ConnectionPlan::Relay {
            upstream: local(7),
            source: Some(local(40000))
        }
    );
    assert_eq!(
        rt.plan_connection(true, Some(local(40000)), None),
        ConnectionPlan::Relay {
            upstream: local(1),
            source: Some(local(40000))
        }
    );
    assert_eq!(source_for(local(1), None), Ok(None));
    assert_eq!(source_for(local(1), Some(local(2))), Ok(Some(local(2))));
    assert_eq!(
        source_for(local(1), Some(SocketAddr::new(IpAddr::V6(1), 2))),
        Err("transparent source and upstream address families differ".to_string())
    );
}

#[test]
fn ip_hash_connections_stick_to_one_upstream() {
    let mut tcp = tcp_config(&["127.0.0.1:1", "127.0.0.1:2", "127.0.0.1:3"]);
    tcp.lb_policy = LbPolicy::IpHash;
    let mut rt = built(&tcp);
    let first = rt.plan_connection(true, Some(local(1000)), None);
    for port in 1001..1010 {
        assert_eq!(rt.plan_connection(true, Some(local(port)), None), first);
    }
}

fn routes() -> Vec<(String, SocketAddr)> {
    vec![
        ("*.example.com".to_string(), local(1)),
        ("api.example.com".to_string(), local(2)),
        ("*.eu.example.com".to_string(), local(3)),
    ]
}

#[test]
fn exact_route_comes_before_a_wildcard() {
    assert_eq!(select_sni_route(&routes(), "api.example.com"), Some(local(2)));
    assert_eq!(select_sni_route(&routes(), "www.example.com"), Some(local(1)));
    assert_eq!(select_sni_route(&routes(), "a.eu.example.com"), Some(local(3)));
    assert_eq!(select_sni_route(&routes(), "example.com"), None);
    assert_eq!(select_sni_route(&routes(), "a.b.example.com"), None);
}

#[test]
fn clients_are_routed_by_their_name() {
    let named = InspectOutcome::Sni {
        name: "api.example.com".into(),
        prefix: vec![1, 2],
    };
    assert_eq!(
        decide_sni(&named, &routes(), None),
        SniDecision::Relay {
            upstream: local(2),
            reason: SniReason::Routed
        }
    );
    assert_eq!(inspected_prefix(&named), &vec![1, 2]);
    let unknown = InspectOutcome::Sni {
        name: "other.test".into(),
        prefix: vec![],
    };
    assert_eq!(
        decide_sni(&unknown, &routes(), Some(local(9))),
        SniDecision::Relay {
            upstream: local(9),
            reason: SniReason::Fallback
        }
    );
    let close = |reason| SniDecision::Close { reason };
    assert_eq!(decide_sni(&unknown, &routes(), None), close(SniReason::NoRoute));
    let nameless = InspectOutcome::NoSni { prefix: vec![3] };
    assert_eq!(decide_sni(&nameless, &routes(), None), close(SniReason::NoSni));
    assert_eq!(inspected_prefix(&nameless), &vec![3]);
    let junk = InspectOutcome::Malformed { prefix: vec![4] };
    assert_eq!(decide_sni(&junk, &routes(), None), close(SniReason::Malformed));
    assert_eq!(inspected_prefix(&junk), &vec![4]);
    // With a fallback everybody is served.
    for outcome in [&unknown, &nameless, &junk] {
        assert!(matches!(
            decide_sni(outcome, &routes(), Some(local(9))),
            SniDecision::Relay { upstream, .. } if upstream == local(9)
        ));
    }
    assert_eq!(unrouted(SniReason::NoRoute).reason, "sni_no_route");
    assert_eq!(unrouted(SniReason::NoRoute).upstream, SocketAddr::v4(0, 0, 0, 0, 0));
    assert_eq!(SniReason::Fallback.as_str(), "sni_fallback");
}

#[test]
fn mapped_addresses_are_normalized() {
    let mapped = SocketAddr::new(IpAddr::parse("::ffff:10.1.2.3").unwrap(), 80);
    assert_eq!(normalize_socket_addr(mapped), SocketAddr::v4(10, 1, 2, 3, 80));
    let plain = SocketAddr::new(IpAddr::V6(1), 80);
    assert_eq!(normalize_socket_addr(plain), plain);
    assert_eq!(
        normalize_socket_addr(normalize_socket_addr(mapped)),
        normalize_socket_addr(mapped)
    );
}

#[test]
fn lookup_period_comes_from_the_environment() {
    assert_eq!(dns_refresh_interval(None), 60);
    assert_eq!(dns_refresh_interval(Some("5")), 5);
    assert_eq!(dns_refresh_interval(Some("soon")), 60);
}

#[test]
fn watchdog_stops_idle_relays_only() {
    let idle = Duration::from_secs(2);
    assert_eq!(watch(false, 1_000_000_000, idle, 2_500_000_000), Watch::Sleep(500_000_000));
    assert_eq!(watch(false, 1_000_000_000, idle, 3_000_000_000), Watch::Stop);
    assert_eq!(watch(true, 1_000_000_000, idle, 1_000_000_000), Watch::Stop);
    assert_eq!(end_reason(true, true), EndReason::Shutdown);
    assert_eq!(end_reason(false, true), EndReason::Idle);
    assert_eq!(end_reason(false, false), EndReason::Closed);
}

#[test]
fn one_direction_counts_its_bytes() {
    let mut total = 0;
    assert_eq!(pump(&mut total, PumpEvent::Copied(10)), PumpStep::Continue);
    assert_eq!(pump(&mut total, PumpEvent::Copied(5)), PumpStep::Continue);
    assert_eq!(pump(&mut total, PumpEvent::Eof), PumpStep::HalfClose);
    assert_eq!(pump(&mut total, PumpEvent::Failed), PumpStep::End);
    assert_eq!(pump(&mut total, PumpEvent::Stopped), PumpStep::End);
    assert_eq!(total, 15);
}

#[test]
fn relays_are_recorded() {
    let (o, c) = relay_outcome(local(1), RelayEvent::ConnectFailed);
    assert_eq!((o.reason, c), ("connect_failed", Some(RelayCounter::ConnectFailures)));
    let (o, c) = relay_outcome(local(1), RelayEvent::ConnectTimedOut);
    assert_eq!((o.reason, c), ("connect_timeout", Some(RelayCounter::ConnectFailures)));
    let (o, c) = relay_outcome(local(1), RelayEvent::PrefixWriteFailed);
    assert_eq!((o.reason, c), ("prefix_write_failed", Some(RelayCounter::ConnectFailures)));
    let relayed = |end| RelayEvent::Relayed { c2u: 7, u2c: 9, end };
    let (o, c) = relay_outcome(local(1), relayed(EndReason::Idle));
    assert_eq!((o.reason, c), ("idle_timeout", Some(RelayCounter::IdleTimeouts)));
    let (o, c) = relay_outcome(local(1), relayed(EndReason::Shutdown));
    assert_eq!((o.reason, c), ("shutdown", Some(RelayCounter::ShutdownCancellations)));
    let (o, c) = relay_outcome(local(1), relayed(EndReason::Closed));
    assert_eq!((o.reason, c, o.c2u, o.u2c), ("closed", None, 7, 9));
    let r = access_record("tcp/127.0.0.1:3306", 5, 6, None, &o);
    assert_eq!((r.client, r.upstream, r.ts_ms, r.duration_ms), (local(1), local(1), 5, 6));
    let r = access_record("tcp/127.0.0.1:3306", 5, 6, Some(local(8)), &o);
    assert_eq!((r.client, r.outcome, r.listener.as_str()), (local(8), "closed", "tcp/127.0.0.1:3306"));
    assert_eq!((r.client_to_upstream_bytes, r.upstream_to_client_bytes), (7, 9));
}
