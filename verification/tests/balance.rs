use raddex::config::ast::{LbPolicy, TcpHealthCheckSpec};
use raddex::layer4::balance::Balancer;
use raddex::net::SocketAddr;
use raddex::time::Duration;

fn addrs(n: u16) -> Vec<SocketAddr> {
    (0..n)
        .map(|i| SocketAddr::v4(127, 0, 0, 1, 9000 + i))
        .collect()
}

#[test]
fn round_robin_cycles_through_every_backend() {
    let mut lb = Balancer::new(&addrs(3), LbPolicy::RoundRobin, None);
    let picked: Vec<SocketAddr> = (0..6).filter_map(|_| lb.select(b"")).collect();
    assert_eq!(picked.len(), 6);
    // Three distinct backends, each used twice over six selections.
    let mut unique: Vec<u16> = picked.iter().map(|a| a.port).collect();
    unique.sort();
    unique.dedup();
    assert_eq!(unique.len(), 3);
    assert_eq!(picked[..3], picked[3..]);
}

#[test]
fn ip_hash_is_stable_for_the_same_key() {
    let mut lb = Balancer::new(&addrs(4), LbPolicy::IpHash, None);
    let first = lb.select(b"203.0.113.7").expect("a backend");
    for _ in 0..10 {
        assert_eq!(lb.select(b"203.0.113.7"), Some(first));
    }
}

#[test]
fn ip_hash_spreads_prefix_sharing_client_ips_evenly() {
    // Client IPs from one subnet share a long prefix; every backend must still
    // get a real share of them.
    let mut lb = Balancer::new(&addrs(3), LbPolicy::IpHash, None);
    let mut counts = [0usize; 3];
    for i in 0..600 {
        let key = format!("198.51.100.{i}");
        let picked = lb.select(key.as_bytes()).expect("a backend");
        let index = lb
            .backends
            .iter()
            .position(|b| b.addr == picked)
            .expect("selected backend is in the set");
        counts[index] += 1;
    }
    // A fair split is 200 each; require every backend to carry a real share
    // rather than asserting an exact ratio.
    for (index, count) in counts.iter().enumerate() {
        assert!(
            *count > 600 / 6,
            "backend {index} received only {count}/600 keys: {counts:?}"
        );
    }
}

#[test]
fn ip_hash_keeps_most_keys_when_a_backend_is_added() {
    // Growing the pool must not reshuffle every client. `hash % len` would remap
    // about three quarters of the keys here.
    let keys: Vec<String> = (0..400).map(|i| format!("198.51.100.{i}")).collect();
    let mut before = Balancer::new(&addrs(3), LbPolicy::IpHash, None);
    let mut after = Balancer::new(&addrs(4), LbPolicy::IpHash, None);
    let mut moved = 0;
    for key in &keys {
        let was = before.select(key.as_bytes());
        let is = after.select(key.as_bytes());
        if was != is {
            moved += 1;
            // A key that moves, moves to the newcomer.
            assert_eq!(is, Some(SocketAddr::v4(127, 0, 0, 1, 9003)));
        }
    }
    assert!(
        moved < keys.len() / 2,
        "consistent hashing remapped {moved}/{} keys",
        keys.len()
    );
}

#[test]
fn selection_skips_unhealthy_backends() {
    let mut lb = Balancer::new(&addrs(3), LbPolicy::RoundRobin, None);
    lb.backends[0].healthy = false;
    lb.backends[2].healthy = false;
    for _ in 0..10 {
        assert_eq!(lb.select(b""), Some(lb.backends[1].addr));
    }
}

#[test]
fn ip_hash_falls_through_to_a_healthy_backend() {
    let mut lb = Balancer::new(&addrs(3), LbPolicy::IpHash, None);
    let first = lb.select(b"key").expect("a backend");
    let index = lb
        .backends
        .iter()
        .position(|b| b.addr == first)
        .expect("selected backend is in the set");
    lb.backends[index].healthy = false;
    let second = lb.select(b"key").expect("a healthy backend");
    assert_ne!(second, first);
}

#[test]
fn all_unhealthy_yields_none_instead_of_spinning() {
    let mut lb = Balancer::new(&addrs(3), LbPolicy::RoundRobin, None);
    for backend in &mut lb.backends {
        backend.healthy = false;
    }
    assert_eq!(lb.select(b""), None);

    let mut lb = Balancer::new(&addrs(3), LbPolicy::IpHash, None);
    for backend in &mut lb.backends {
        backend.healthy = false;
    }
    assert_eq!(lb.select(b"key"), None);
}

#[test]
fn empty_upstream_set_yields_none() {
    let mut lb = Balancer::new(&Vec::new(), LbPolicy::RoundRobin, None);
    assert_eq!(lb.select(b""), None);
}

#[test]
fn probe_marks_a_dead_backend_unhealthy_after_the_threshold() {
    let dead = SocketAddr::v4(127, 0, 0, 1, 1);
    let mut lb = Balancer::new(
        &vec![dead],
        LbPolicy::RoundRobin,
        Some(TcpHealthCheckSpec {
            interval: Duration::from_millis(10),
            timeout: Duration::from_millis(200),
            consecutive_failures: 2,
            consecutive_successes: 1,
        }),
    );
    assert!(!lb.record_probe(0, false));
    // One failure is below the threshold: still healthy, no flapping.
    assert_eq!(lb.select(b""), Some(dead));
    assert!(lb.record_probe(0, false));
    assert_eq!(lb.select(b""), None);
}

#[test]
fn probe_restores_a_reachable_backend() {
    let addr = SocketAddr::v4(127, 0, 0, 1, 9000);
    let mut lb = Balancer::new(
        &vec![addr],
        LbPolicy::RoundRobin,
        Some(TcpHealthCheckSpec {
            interval: Duration::from_millis(10),
            timeout: Duration::from_millis(200),
            consecutive_failures: 1,
            consecutive_successes: 2,
        }),
    );
    lb.backends[0].healthy = false;
    assert!(!lb.record_probe(0, true));
    // One success is below the restore threshold.
    assert_eq!(lb.select(b""), None);
    assert!(lb.record_probe(0, true));
    assert_eq!(lb.select(b""), Some(addr));
}

#[test]
fn a_success_resets_the_count_of_failures() {
    let addr = SocketAddr::v4(127, 0, 0, 1, 9000);
    let hc = TcpHealthCheckSpec {
        interval: Duration::from_millis(10),
        timeout: Duration::from_millis(200),
        consecutive_failures: 2,
        consecutive_successes: 1,
    };
    let mut lb = Balancer::new(&vec![addr], LbPolicy::RoundRobin, Some(hc));
    lb.record_probe(0, false);
    lb.record_probe(0, true);
    lb.record_probe(0, false);
    assert_eq!(lb.select(b""), Some(addr));
    assert_eq!(lb.probe_interval(), Some(Duration::from_millis(10)));
}

#[test]
fn the_ring_is_sorted() {
    let lb = Balancer::new(&addrs(3), LbPolicy::IpHash, None);
    assert_eq!(lb.ring.len(), 480);
    assert!(lb.ring.windows(2).all(|w| w[0] <= w[1]));
}

#[test]
fn health_changes_only_after_a_streak() {
    let addr = SocketAddr::v4(127, 0, 0, 1, 9000);
    let hc = TcpHealthCheckSpec {
        interval: Duration::from_millis(10),
        timeout: Duration::from_millis(200),
        consecutive_failures: 3,
        consecutive_successes: 2,
    };
    let mut lb = Balancer::new(&vec![addr], LbPolicy::RoundRobin, Some(hc));
    let seen: Vec<bool> = [
        false, false, true, false, false, false, true, false, true, true, false,
    ]
    .into_iter()
    .map(|reachable| {
        lb.record_probe(0, reachable);
        lb.backends[0].healthy
    })
    .collect();
    assert_eq!(
        seen,
        [true, true, true, true, true, false, false, false, false, true, true]
    );
}

#[test]
fn a_healthy_backend_is_found_wherever_the_cursor_stands() {
    for policy in [LbPolicy::RoundRobin, LbPolicy::Random, LbPolicy::IpHash] {
        for healthy in 0..3 {
            let mut lb = Balancer::new(&addrs(3), policy, None);
            for (i, b) in lb.backends.iter_mut().enumerate() {
                b.healthy = i == healthy;
            }
            lb.cursor = usize::MAX - 1;
            for key in 0u8..5 {
                let addr = lb.backends[healthy].addr;
                assert_eq!(lb.select(&[key]), Some(addr));
            }
        }
    }
}
