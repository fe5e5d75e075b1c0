use raddex::config::answers::Answers;
use raddex::config::ast::{
    GlobalConfig, L4Upstream, Layer4Listener, LbPolicy, ListenAddress, UdpProxyConfig,
};
use raddex::config::compiled::CompiledConfig;
use raddex::config::snapshot::ConfigStore;
use raddex::layer4::tcp::ResolveFault;
use raddex::layer4::udp::{
    buffer_size, flow_outcome, flow_record, listener_sockets, resolve_udp_upstreams, Admission,
    Flow, FlowFate, FlowTable, Reload, UdpSelection, UdpState,
};
use raddex::layer4::udp_service::{
    next_action, read_on, receive, DatagramStep, Phase, ReaderEvent, ReaderStep, ServiceAction,
    ServiceEvent,
};
use raddex::net::{IpAddr, SocketAddr};
use raddex::time::Duration;

fn local(port: u16) -> SocketAddr {
    SocketAddr::v4(127, 0, 0, 1, port)
}

fn listen() -> ListenAddress {
    ListenAddress::Socket(local(53))
}

fn udp_config(upstreams: &[(&str, u16)], policy: LbPolicy) -> UdpProxyConfig {
    UdpProxyConfig {
        listen: listen(),
        upstreams: upstreams
            .iter()
            .map(|(host, port)| L4Upstream {
                host: host.to_string(),
                port: *port,
            })
            .collect(),
        lb_policy: policy,
        idle_timeout: Duration::from_secs(30),
        max_flows: 2,
        max_datagram_size: 1200,
        recv_buffer: 0,
        send_buffer: 0,
    }
}

fn selection(udp: &UdpProxyConfig) -> UdpSelection {
    match UdpState::build(udp, &Vec::new()) {
        Ok(state) => UdpSelection {
            state,
            applied_generation: 0,
            cursor: 0,
        },
        Err(f) => panic!("{f:?}"),
    }
}

#[test]
fn udp_upstreams_resolve_to_their_first_address() {
    let mut answers = Answers::none();
    answers.add_host("dns.internal", 53, Ok(vec![local(1), local(2)]));
    let udp = udp_config(&[("127.0.0.1", 9), ("dns.internal", 53)], LbPolicy::RoundRobin);
    assert_eq!(
        resolve_udp_upstreams(&answers.hosts, &udp),
        Ok(vec![local(9), local(1)])
    );
    assert_eq!(
        resolve_udp_upstreams(&Vec::new(), &udp),
        Err(ResolveFault::NeedsHost {
            host: "dns.internal".into(),
            port: 53
        })
    );
    let mut answers = Answers::none();
    answers.add_host("dns.internal", 53, Ok(vec![]));
    assert!(matches!(
        resolve_udp_upstreams(&answers.hosts, &udp),
        Err(ResolveFault::Message(_))
    ));
}

#[test]
fn round_robin_flows_take_turns() {
    let mut s = selection(&udp_config(
        &[("127.0.0.1", 1), ("127.0.0.1", 2)],
        LbPolicy::RoundRobin,
    ));
    let picked: Vec<u16> = (0..4).map(|i| s.select(local(i)).unwrap().port).collect();
    assert_eq!(picked, vec![1, 2, 1, 2]);
}

#[test]
fn random_flows_follow_the_generator() {
    let mut s = selection(&udp_config(
        &[("127.0.0.1", 0), ("127.0.0.1", 1), ("127.0.0.1", 2)],
        LbPolicy::Random,
    ));
    let picked: Vec<u16> = (0..4).map(|i| s.select(local(i)).unwrap().port).collect();
    let expected: Vec<u16> = (0..4usize)
        .map(|c| (c.wrapping_mul(1_103_515_245).wrapping_add(12_345) % 3) as u16)
        .collect();
    assert_eq!(picked, expected);
}

#[test]
fn hashed_flows_ignore_the_port_of_the_client() {
    let mut s = selection(&udp_config(
        &[("127.0.0.1", 1), ("127.0.0.1", 2), ("127.0.0.1", 3)],
        LbPolicy::IpHash,
    ));
    let first = s.select(local(1000));
    assert!(first.is_some());
    for port in 1001..1020 {
        assert_eq!(s.select(local(port)), first);
    }
}

#[test]
fn a_listener_without_upstreams_finds_none() {
    let mut s = selection(&udp_config(&[], LbPolicy::RoundRobin));
    assert_eq!(s.select(local(1)), None);
    let mut table = FlowTable::new();
    assert_eq!(receive(&mut table, &mut s, local(1), 10, 5), DatagramStep::NoUpstream);
}

fn store(listeners: Vec<Layer4Listener>) -> ConfigStore {
    ConfigStore::new(CompiledConfig {
        global: GlobalConfig::default(),
        sites: vec![],
        layer4: listeners,
    })
}

#[test]
fn udp_reload_follows_the_generation() {
    let mut s = selection(&udp_config(&[("127.0.0.1", 1)], LbPolicy::RoundRobin));
    let changed = store(vec![Layer4Listener::Udp(udp_config(
        &[("127.0.0.1", 2)],
        LbPolicy::RoundRobin,
    ))]);
    // The generation was seen already.
    assert_eq!(s.follow(&changed, 0, listen(), &Vec::new()), Reload::Kept);
    assert_eq!(s.state.upstreams, vec![local(1)]);
    assert_eq!(s.follow(&changed, 1, listen(), &Vec::new()), Reload::Rebuilt);
    assert_eq!((s.state.upstreams.clone(), s.applied_generation), (vec![local(2)], 1));
    // A listener that is gone goes on serving.
    assert_eq!(s.follow(&store(vec![]), 2, listen(), &Vec::new()), Reload::Kept);
    assert_eq!((s.state.upstreams.clone(), s.applied_generation), (vec![local(2)], 2));
    // A host that has to be looked up is asked for until there is an answer.
    let named = vec![Layer4Listener::Udp(udp_config(
        &[("dns.internal", 2)],
        LbPolicy::RoundRobin,
    ))];
    assert!(matches!(
        s.reload(&named, 3, listen(), &Vec::new()),
        Reload::Failed(ResolveFault::NeedsHost { .. })
    ));
    assert_eq!(s.applied_generation, 2);
    let mut answers = Answers::none();
    answers.add_host("dns.internal", 2, Err("nope".to_string()));
    assert!(matches!(
        s.reload(&named, 3, listen(), &answers.hosts),
        Reload::Failed(ResolveFault::Message(_))
    ));
    assert_eq!((s.state.upstreams.clone(), s.applied_generation), (vec![local(2)], 3));
}

fn full_table() -> FlowTable {
    let mut t = FlowTable::new();
    t.take_in(local(1), local(9), 20, 2);
    t.take_in(local(2), local(9), 10, 2);
    t
}

#[test]
fn a_full_table_evicts_the_flow_idle_longest() {
    let mut t = full_table();
    assert_eq!(
        t.take_in(local(3), local(9), 30, 2),
        Admission {
            evicted: Some(local(2)),
            created: true,
            capacity_evictions: 1
        }
    );
    let clients: Vec<u16> = t.flows.iter().map(|f| f.client.port).collect();
    assert_eq!(clients, vec![1, 3]);
}

#[test]
fn a_table_without_room_takes_nothing() {
    let mut t = FlowTable::new();
    assert_eq!(
        t.take_in(local(1), local(9), 1, 0),
        Admission {
            evicted: None,
            created: false,
            capacity_evictions: 2
        }
    );
    assert!(t.flows.is_empty());
}

#[test]
fn flows_are_touched_and_counted() {
    let mut t = full_table();
    assert_eq!(t.forward(local(1), 50), Some(local(9)));
    assert_eq!(t.forward(local(7), 50), None);
    assert!(t.answered(local(2), 60));
    assert!(!t.answered(local(7), 60));
    assert_eq!(
        t.flows,
        vec![
            Flow {
                client: local(1),
                upstream: local(9),
                last_active: 50,
                c2u_packets: 2
            },
            Flow {
                client: local(2),
                upstream: local(9),
                last_active: 60,
                c2u_packets: 1
            },
        ]
    );
    assert_eq!((t.client_packets(local(1)), t.client_packets(local(7))), (2, 0));
}

#[test]
fn idle_flows_expire() {
    let mut t = full_table();
    let idle = Duration::from_nanos(15);
    assert_eq!(t.expire(local(1), 30, idle), FlowFate::Kept);
    assert_eq!(t.expire(local(2), 30, idle), FlowFate::Evicted);
    assert_eq!(t.expire(local(2), 30, idle), FlowFate::Gone);
    assert_eq!(t.flows.len(), 1);
}

#[test]
fn datagrams_open_flows_and_use_them() {
    let mut s = selection(&udp_config(&[("127.0.0.1", 9), ("::1", 9)], LbPolicy::RoundRobin));
    let mut t = FlowTable::new();
    assert_eq!(receive(&mut t, &mut s, local(1), 1201, 5), DatagramStep::Oversized);
    assert_eq!(
        receive(&mut t, &mut s, local(1), 1200, 5),
        DatagramStep::Open {
            upstream: local(9),
            local: SocketAddr::v4(0, 0, 0, 0, 0)
        }
    );
    t.take_in(local(1), local(9), 5, 2);
    assert_eq!(receive(&mut t, &mut s, local(1), 10, 6), DatagramStep::Forward(local(9)));
    assert_eq!(t.client_packets(local(1)), 2);
    assert_eq!(
        receive(&mut t, &mut s, local(2), 10, 6),
        DatagramStep::Open {
            upstream: SocketAddr::new(IpAddr::V6(1), 9),
            local: SocketAddr::new(IpAddr::V6(0), 0)
        }
    );
}

#[test]
fn readers_end_with_their_flow() {
    let mut t = full_table();
    let idle = Duration::from_nanos(15);
    let mut on = |event, client, now| read_on(&mut t, client, event, now, idle);
    assert_eq!(on(ReaderEvent::Sent, local(1), 30), ReaderStep::Continue);
    assert_eq!(on(ReaderEvent::Sent, local(7), 30), ReaderStep::End);
    assert_eq!(on(ReaderEvent::TimedOut, local(1), 40), ReaderStep::Continue);
    assert_eq!(on(ReaderEvent::TimedOut, local(2), 40), ReaderStep::Evicted);
    assert_eq!(on(ReaderEvent::TimedOut, local(2), 40), ReaderStep::End);
    assert_eq!(on(ReaderEvent::Stopped, local(1), 40), ReaderStep::End);
    assert_eq!(on(ReaderEvent::ReceiveFailed, local(1), 40), ReaderStep::End);
    assert_eq!(on(ReaderEvent::SendFailed, local(1), 40), ReaderStep::End);
    assert_eq!(t.flows.len(), 1);
}

#[test]
fn flows_are_recorded() {
    let t = full_table();
    let r = flow_record(&t, "udp/127.0.0.1:53", 77, local(1), local(9), 4, false);
    assert_eq!((r.client_packets, r.upstream_packets, r.outcome), (1, 4, "evicted"));
    assert_eq!((r.client, r.upstream, r.ts_ms), (local(1), local(9), 77));
    let r = flow_record(&t, "udp/127.0.0.1:53", 77, local(5), local(9), 4, true);
    assert_eq!((r.client_packets, r.outcome, r.listener.as_str()), (0, "shutdown", "udp/127.0.0.1:53"));
    assert_eq!((flow_outcome(true), flow_outcome(false)), ("shutdown", "evicted"));
}

#[test]
fn buffers_show_oversized_datagrams() {
    assert_eq!((buffer_size(1200), buffer_size(usize::MAX)), (1201, usize::MAX));
    assert_eq!((listener_sockets(0), listener_sockets(3)), (1, 3));
}

/// Run a service through events; the actions on the way.
fn life(upgrade: bool, events: Vec<ServiceEvent>) -> (Phase, Vec<ServiceAction>) {
    let mut phase = Phase::Created;
    let mut actions = Vec::new();
    for event in &events {
        let (next, action) = next_action(upgrade, phase, event);
        phase = next;
        actions.push(action);
    }
    (phase, actions)
}

#[test]
fn a_service_lives_from_start_to_shutdown() {
    let (phase, actions) = life(
        false,
        vec![
            ServiceEvent::Started,
            ServiceEvent::SocketsReady(2),
            ServiceEvent::Shutdown,
            ServiceEvent::WorkersStopped,
            ServiceEvent::Started,
        ],
    );
    assert_eq!(phase, Phase::Done);
    assert_eq!(
        actions,
        vec![
            ServiceAction::Prepare,
            ServiceAction::Serve(2),
            ServiceAction::StopWorkers,
            ServiceAction::CloseFlows,
            ServiceAction::Wait,
        ]
    );
}

#[test]
fn an_upgrade_waits_for_the_old_process() {
    let (phase, actions) = life(
        true,
        vec![
            ServiceEvent::Started,
            ServiceEvent::SocketsReady(2),
            ServiceEvent::HandoffReceived,
            ServiceEvent::SocketsReady(2),
            ServiceEvent::HandoffRequested,
            ServiceEvent::HandoffDone,
            ServiceEvent::WorkersStopped,
        ],
    );
    assert_eq!(phase, Phase::Done);
    assert_eq!(
        actions,
        vec![
            ServiceAction::Receive,
            ServiceAction::Wait,
            ServiceAction::Prepare,
            ServiceAction::Serve(2),
            ServiceAction::Send,
            ServiceAction::StopWorkers,
            ServiceAction::CloseFlows,
        ]
    );
}

#[test]
fn failed_starts_end_the_service() {
    let failed = |upgrade, event| life(upgrade, vec![ServiceEvent::Started, event]);
    let (phase, actions) = failed(true, ServiceEvent::HandoffFailed("no peer".into()));
    assert_eq!(phase, Phase::Done);
    assert_eq!(actions[1], ServiceAction::FailUpgrade("error: no peer".into()));
    assert_eq!(failed(false, ServiceEvent::SocketsFailed).1[1], ServiceAction::Return);
    assert_eq!(failed(false, ServiceEvent::SocketsReady(0)).1[1], ServiceAction::Return);
    let (_, actions) = life(
        true,
        vec![
            ServiceEvent::Started,
            ServiceEvent::HandoffReceived,
            ServiceEvent::SocketsFailed,
        ],
    );
    assert_eq!(actions[2], ServiceAction::Exit);
}

#[test]
fn clients_on_different_links_have_flows_of_their_own() {
    let client = |scope: u32| SocketAddr::v6(0xfe80 << 112 | 1, 5353, 0, scope);
    let mut t = FlowTable::new();
    t.take_in(client(1), local(8), 10, 4);
    t.take_in(client(2), local(9), 20, 4);
    assert_eq!(t.flows.len(), 2);
    assert_eq!(t.forward(client(1), 30), Some(local(8)));
    assert_eq!(t.forward(client(2), 30), Some(local(9)));
    assert_eq!(t.forward(client(3), 30), None);
}
