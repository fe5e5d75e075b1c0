use raddex::config::answers::{
    agent_resolver, finish_lookup, parse_netloc, resolve_host, Answers, Fault, JobQueue,
    LookupEvent,
};
use raddex::net::{IpAddr, SocketAddr};
use raddex::time::Duration;

fn addr(a: u8, b: u8, c: u8, d: u8, port: u16) -> SocketAddr {
    SocketAddr::v4(a, b, c, d, port)
}

fn found(r: Result<Vec<SocketAddr>, Fault>) -> Vec<SocketAddr> {
    match r {
        Ok(v) => v,
        Err(_) => panic!("expected addresses"),
    }
}

#[test]
fn explicit_ip_literal_bypasses_the_pool() {
    // An IP literal must not need a lookup.
    assert_eq!(
        found(resolve_host(&Vec::new(), "127.0.0.1", 8080)),
        vec![addr(127, 0, 0, 1, 8080)]
    );
}

#[test]
fn resolver_returns_all_results_from_the_op() {
    let got = finish_lookup(
        LookupEvent::Found(vec![addr(10, 0, 0, 1, 80), addr(10, 0, 0, 2, 80)]),
        Duration::from_secs(5),
    )
    .unwrap();
    assert_eq!(got, vec![addr(10, 0, 0, 1, 80), addr(10, 0, 0, 2, 80)]);
}

#[test]
fn resolver_reports_op_failure() {
    let err = finish_lookup(
        LookupEvent::Failed("no such host".to_string()),
        Duration::from_secs(5),
    )
    .unwrap_err();
    assert!(err.contains("lookup failed"), "got: {err}");
    assert_eq!(err, "lookup failed: no such host");
}

#[test]
fn resolver_times_out_a_hanging_lookup() {
    let err = finish_lookup(LookupEvent::TimedOut, Duration::from_millis(30)).unwrap_err();
    assert!(err.contains("timed out"), "got: {err}");
    let err = finish_lookup(LookupEvent::TimedOut, Duration::from_secs(5)).unwrap_err();
    assert_eq!(err, "timed out after 5s");
}

#[test]
fn resolver_overload_fails_fast() {
    // A queue of one: the second job does not fit and comes back at once.
    let mut queue: JobQueue<u32> = JobQueue::new(1);
    assert_eq!(queue.push(1), Ok(()));
    assert_eq!(queue.push(2), Err(2));
    let overload_err = finish_lookup(LookupEvent::Overloaded, Duration::from_millis(30)).unwrap_err();
    assert!(
        overload_err.contains("overloaded"),
        "expected an overload error, got: {overload_err}"
    );
    assert_eq!(
        finish_lookup(LookupEvent::Stopped, Duration::from_secs(1)),
        Err("resolver worker stopped".to_string())
    );
}

#[test]
fn queue_is_first_in_first_out() {
    let mut queue: JobQueue<u32> = JobQueue::new(3);
    assert_eq!(queue.pop(), None);
    assert!(queue.push(1).is_ok() && queue.push(2).is_ok() && queue.push(3).is_ok());
    assert_eq!(queue.push(4), Err(4));
    assert_eq!((queue.pop(), queue.pop()), (Some(1), Some(2)));
    assert!(queue.push(5).is_ok());
    assert_eq!((queue.pop(), queue.pop(), queue.pop()), (Some(3), Some(5), None));
}

#[test]
fn ipv6_literal_resolves_directly() {
    assert_eq!(
        found(resolve_host(&Vec::new(), "::1", 8443)),
        vec![SocketAddr::new(IpAddr::V6(1), 8443)]
    );
}

#[test]
fn empty_result_is_a_valid_resolver_output() {
    // An empty result set is returned as it is; the caller decides that "no
    // address resolved" is a configuration error.
    let got = finish_lookup(LookupEvent::Found(vec![]), Duration::from_secs(5)).unwrap();
    assert!(got.is_empty());
}

#[test]
fn an_unknown_host_has_to_be_looked_up() {
    assert!(matches!(
        resolve_host(&Vec::new(), "db.internal", 5432),
        Err(Fault::NeedsHost { host, port: 5432 }) if host == "db.internal"
    ));
    let mut answers = Answers::none();
    answers.add_host("db.internal", 5432, Err("lookup failed: no such host".to_string()));
    assert!(matches!(
        resolve_host(&answers.hosts, "db.internal", 5432),
        Err(Fault::Message(m))
            if m == "failed to resolve upstream db.internal:5432: lookup failed: no such host"
    ));
}

#[test]
fn parse_netloc_hostname_and_ipv4() {
    assert_eq!(
        parse_netloc("example.com:443").unwrap(),
        ("example.com".to_string(), 443)
    );
    assert_eq!(
        parse_netloc("127.0.0.1:8080").unwrap(),
        ("127.0.0.1".to_string(), 8080)
    );
}

#[test]
fn parse_netloc_bracketed_ipv6() {
    assert_eq!(
        parse_netloc("[::1]:8443").unwrap(),
        ("::1".to_string(), 8443)
    );
    assert_eq!(
        parse_netloc("[2001:db8::1]:53").unwrap(),
        ("2001:db8::1".to_string(), 53)
    );
}

#[test]
fn parse_netloc_rejects_malformed_input() {
    assert!(parse_netloc("example.com").is_err(), "missing port");
    assert!(parse_netloc("example.com:notaport").is_err(), "bad port");
    assert!(parse_netloc("[::1]").is_err(), "missing port after IPv6");
    assert!(parse_netloc("[::1").is_err(), "unterminated IPv6");
    assert!(parse_netloc(":443").is_err(), "empty host");
    assert!(
        parse_netloc("[::1]:0").is_ok(),
        "port 0 is technically valid"
    );
}

#[test]
fn agent_resolver_resolves_ip_literals_without_dns() {
    // IP literals (plain, bracketed, and unbracketed IPv6) must be returned
    // directly, never through a lookup.
    assert_eq!(
        found(agent_resolver(&Vec::new(), "127.0.0.1:9000")),
        vec![addr(127, 0, 0, 1, 9000)]
    );
    assert_eq!(
        found(agent_resolver(&Vec::new(), "[::1]:9443")),
        vec![SocketAddr::new(IpAddr::V6(1), 9443)]
    );
    // The host of a URL may come without its brackets.
    assert_eq!(
        found(agent_resolver(&Vec::new(), "::1:9443")),
        vec![SocketAddr::new(IpAddr::V6(1), 9443)]
    );
}

#[test]
fn agent_resolver_rejects_malformed_netloc() {
    assert!(agent_resolver(&Vec::new(), "no-port").is_err());
    assert!(agent_resolver(&Vec::new(), "[::1]").is_err());
}
