use raddex::bench::loadgen::{
    burst_size, fruitless_message, next_batch, next_burst, validate, Args, EchoEvent, Histogram,
    Mode, ProbeEvent, ReceiveEvent, Stats,
};
use raddex::bench::origin::{
    answer, answer_head, body_for_path, header_step, is_healthy_reply, Body, HeaderStep,
};
use raddex::time::Duration;

/// The latency at a percentile.
fn percentile(h: &Histogram, p: f64) -> Option<u64> {
    let rank = ((h.total as f64) * p).ceil().max(1.0) as u64;
    h.at_rank(rank)
}

fn args(mode: Mode, payload_bytes: usize) -> Args {
    Args {
        mode,
        host: "127.0.0.1".into(),
        port: 18001,
        duration_secs: 1,
        connections: 1,
        payload_bytes,
        window: 1,
        connect_rate: 0,
        packets_per_second: 0,
        connect_timeout_ms: 1_000,
    }
}

#[test]
fn histogram_reports_monotonic_percentile_buckets() {
    let mut histogram = Histogram::new();
    histogram.observe(Duration::from_micros(7));
    histogram.observe(Duration::from_micros(1_500));
    assert_eq!(percentile(&histogram, 0.50), Some(8));
    assert_eq!(percentile(&histogram, 0.99), Some(2_000));
    assert_eq!(histogram.max_us, 1_500);
}

#[test]
fn validation_rejects_an_oversized_udp_payload() {
    let args = Args {
        mode: Mode::UdpLatency,
        host: "127.0.0.1".into(),
        port: 18001,
        duration_secs: 1,
        connections: 1,
        payload_bytes: 65_508,
        window: 1,
        connect_rate: 0,
        packets_per_second: 0,
        connect_timeout_ms: 1_000,
    };
    assert!(validate(&args).is_err());
}

#[test]
fn histogram_reports_actual_percentile_for_values_above_the_last_bucket() {
    let mut histogram = Histogram::new();
    for micros in 150_000..150_100 {
        histogram.observe(Duration::from_micros(micros));
    }

    assert_eq!(percentile(&histogram, 0.99), Some(150_098));
}

#[test]
fn every_bad_argument_has_its_message() {
    let good = args(Mode::TcpLatency, 64);
    assert_eq!(validate(&good), Ok(()));
    let err = |change: &dyn Fn(&mut Args)| {
        let mut bad = args(Mode::TcpLatency, 64);
        change(&mut bad);
        validate(&bad).unwrap_err()
    };
    assert_eq!(err(&|a| a.host = "  ".into()), "--host must not be empty");
    assert_eq!(err(&|a| a.duration_secs = 0), "--duration-secs must be positive");
    assert_eq!(err(&|a| a.connections = 0), "--connections must be positive");
    assert_eq!(err(&|a| a.payload_bytes = 0), "--payload-bytes must be positive");
    assert_eq!(err(&|a| a.window = 0), "--window must be positive");
    assert_eq!(
        err(&|a| a.connect_timeout_ms = 0),
        "--connect-timeout-ms must be positive"
    );
    let big = "--payload-bytes multiplied by --window must not exceed 8 MiB";
    assert_eq!(err(&|a| a.window = 131_073), big);
    assert_eq!(err(&|a| a.window = usize::MAX), big);
    assert_eq!(
        validate(&args(Mode::UdpFlows, 65_508)).unwrap_err(),
        "UDP payload must not exceed 65507 bytes"
    );
    assert_eq!(validate(&args(Mode::TcpLatency, 65_508)), Ok(()));
}

#[test]
fn modes_have_names() {
    assert_eq!(Mode::TcpConnectRate.name(), "tcp-connect-rate");
    assert_eq!(Mode::UdpFlows.name(), "udp-flows");
    assert!(Mode::UdpFlows.holds_connections());
    assert!(!Mode::UdpLatency.holds_connections());
    assert_eq!(
        fruitless_message(Mode::TcpLatency),
        "tcp-latency produced no successful work"
    );
}

#[test]
fn merged_histograms_count_both() {
    let mut a = Histogram::new();
    a.observe(Duration::from_micros(3));
    a.observe(Duration::from_micros(250_000));
    let mut b = Histogram::new();
    b.observe(Duration::from_micros(200_000));
    a.merge(&b);
    assert_eq!(a.total, 3);
    assert_eq!(a.max_us, 250_000);
    assert_eq!(a.tail_samples, vec![250_000, 200_000]);
    assert_eq!(
        (a.at_rank(1), a.at_rank(2), a.at_rank(3)),
        (Some(3), Some(200_000), Some(250_000))
    );
    assert_eq!(Histogram::new().at_rank(1), None);
}

#[test]
fn tail_samples_are_bounded() {
    let mut h = Histogram::new();
    for i in 0..20_000 {
        h.observe(Duration::from_micros(200_000 + i));
    }
    assert_eq!(h.tail_samples.len(), 16_384);
    assert_eq!(h.at_rank(10), Some(219_999));
}

#[test]
fn round_trips_are_counted() {
    let mut s = Stats::new();
    assert!(s.is_fruitless());
    s.count_connection(Some(Duration::from_micros(10)));
    s.count_connection(None);
    assert!(s.count_echo(EchoEvent::Echoed, 64, 1, Duration::from_micros(5)));
    assert!(!s.count_echo(EchoEvent::ReadFailed, 64, 1, Duration::from_micros(5)));
    assert!(!s.count_echo(EchoEvent::WriteFailed, 64, 1, Duration::from_micros(5)));
    assert_eq!((s.sent_bytes, s.received_bytes), (128, 64));
    assert_eq!((s.sent_packets, s.received_packets), (2, 1));
    assert_eq!((s.completed_operations, s.errors), (1, 3));
    assert_eq!((s.successful_connections, s.failed_connections), (1, 1));
    assert_eq!((s.latency.total, s.connect_latency.total), (2, 1));
    let mut sum = Stats::new();
    sum.merge(&s);
    sum.merge(&s);
    assert_eq!((sum.sent_bytes, sum.errors, sum.latency.total), (256, 6, 4));
}

#[test]
fn batches_add_up_to_the_connections() {
    assert_eq!(next_batch(10, 0, 0), (10, false));
    assert_eq!(next_batch(10, 40, 0), (4, true));
    assert_eq!(next_batch(10, 40, 8), (2, false));
    assert_eq!(next_batch(10, 5, 9), (1, false));
    assert_eq!((burst_size(0), burst_size(5_000), burst_size(1_000_000)), (1, 50, 256));
}

#[test]
fn origin_serves_bodies_by_path() {
    assert_eq!(body_for_path("/healthz"), Body::Health);
    assert_eq!(body_for_path("/4k"), Body::FourKib);
    assert_eq!(body_for_path("/1m"), Body::OneMib);
    assert_eq!(body_for_path("/other"), Body::Small);
    let a = answer("GET /4k?x=1 HTTP/1.1\r\nHost: origin\r\nCONNECTION: Close\r\n\r\n");
    assert_eq!((a.body, a.close), (Body::FourKib, true));
    let a = answer("");
    assert_eq!((a.body, a.close), (Body::Small, false));
    assert_eq!(
        answer_head(Body::FourKib.len(), false),
        "HTTP/1.1 200 OK\r\nContent-Type: application/octet-stream\r\nContent-Length: 4096\r\nConnection: keep-alive\r\n\r\n"
    );
}

#[test]
fn origin_reads_whole_headers() {
    assert_eq!(header_step(&b"GET / HTTP/1.1\r\n\r\n".to_vec()), HeaderStep::Complete);
    assert_eq!(header_step(&b"GET / HTTP/1.1\r\n\r".to_vec()), HeaderStep::More);
    assert_eq!(header_step(&vec![b'x'; 65_537]), HeaderStep::TooLarge);
    assert!(is_healthy_reply(b"HTTP/1.1 200 OK\r\n"));
    assert!(!is_healthy_reply(b"HTTP/1.1 500 Oops"));
    assert!(!is_healthy_reply(b"HTTP"));
}

#[test]
fn output_includes_operation_errors_in_the_success_rate() {
    let mut args = args(Mode::TcpLatency, 64);
    args.port = 18000;
    let mut stats = Stats::new();
    stats.completed_operations = 8;
    stats.successful_connections = 1;
    stats.errors = 2;

    let (done, of) = stats.success(args.mode, args.connections);
    let success_rate = done as f64 / of as f64;
    let error_rate = 1.0 - success_rate;

    assert!((success_rate - 0.8).abs() < f64::EPSILON);
    assert!((error_rate - 0.2).abs() < f64::EPSILON);
}

#[test]
fn success_depends_on_the_mode() {
    let mut stats = Stats::new();
    stats.successful_connections = 3;
    stats.sent_packets = 10;
    stats.received_packets = 12;
    assert_eq!(stats.success(Mode::TcpConnections, 4), (3, 4));
    assert_eq!(stats.success(Mode::UdpFlows, 2), (2, 2));
    // More answers than datagrams do not make more than success.
    assert_eq!(stats.success(Mode::UdpThroughput, 1), (10, 10));
    assert_eq!(stats.success(Mode::TcpThroughput, 1), (0, 0));
    stats.completed_operations = u64::MAX;
    stats.errors = 1;
    assert_eq!(stats.success(Mode::TcpLatency, 1), (u64::MAX, u64::MAX));
}

#[test]
fn probes_are_counted() {
    let mut s = Stats::new();
    assert!(s.count_probe(ProbeEvent::Reply(60), 64, Duration::from_micros(5)));
    assert!(s.count_probe(ProbeEvent::NoReply, 64, Duration::from_micros(5)));
    assert!(!s.count_probe(ProbeEvent::SendFailed, 64, Duration::from_micros(5)));
    assert_eq!((s.sent_packets, s.sent_bytes), (3, 128));
    assert_eq!((s.received_packets, s.received_bytes), (1, 60));
    assert_eq!((s.completed_operations, s.errors, s.latency.total), (1, 2, 3));
}

#[test]
fn floods_are_counted() {
    let mut sent = Stats::new();
    assert!(sent.count_send(Some(64)));
    assert!(!sent.count_send(None));
    assert_eq!((sent.sent_packets, sent.sent_bytes, sent.errors), (2, 64, 1));
    let mut received = Stats::new();
    assert!(received.count_receive(ReceiveEvent::Got(64), false));
    assert!(received.count_receive(ReceiveEvent::Silent, false));
    assert!(!received.count_receive(ReceiveEvent::Silent, true));
    assert!(!received.count_receive(ReceiveEvent::Failed, false));
    sent.merge(&received);
    sent.close_flood();
    assert_eq!((sent.completed_operations, sent.successful_connections), (1, 1));
    assert_eq!((sent.received_bytes, sent.errors), (64, 2));
    assert_eq!(next_burst(100, 10, 50), 110);
    assert_eq!(next_burst(100, 10, 150), 150);
}
