use openssl::asn1::Asn1Time;
use openssl::hash::MessageDigest;
use openssl::pkey::PKey;
use openssl::rsa::Rsa;
use openssl::x509::{X509Builder, X509NameBuilder};
use raddex::config::answers::{Answers, Fault};
use raddex::config::ast::{
    ClientAuthMode, ConfigError, TemplatePart, TlsSource, TlsVersion, Upstream, UpstreamHttpVersion,
};
use raddex::config::compiled::{CompiledConfig, Modifier, TerminalKind, UpstreamPeer};
use raddex::config::parser::parse;
use raddex::config::validate::{
    resolve_upstreams, validate_and_compile, validate_and_compile_with, CompileFailure,
};
use raddex::net::{IpAddr, SocketAddr};

/// The text of the error of a result that must be one.
trait Failure {
    fn failure(self) -> String;
}

impl<T> Failure for Result<T, ConfigError> {
    fn failure(self) -> String {
        match self {
            Ok(_) => panic!("expected an error"),
            Err(e) => e.describe(),
        }
    }
}

fn ip(text: &str) -> IpAddr {
    IpAddr::parse(text).expect("an IP literal")
}

fn compile(input: &str) -> Result<CompiledConfig, ConfigError> {
    validate_and_compile("test", &parse("test", input).unwrap())
}

/// Compile with answers about files and hosts, all of which must be there.
fn compile_with(input: &str, answers: &Answers) -> Result<CompiledConfig, ConfigError> {
    match validate_and_compile_with("test", &parse("test", input).unwrap(), answers) {
        Ok(c) => Ok(c),
        Err(CompileFailure::Config(e)) => Err(e),
        Err(CompileFailure::NeedsCertificate { path }) => panic!("needs certificate {path}"),
        Err(CompileFailure::NeedsKey { path }) => panic!("needs key {path}"),
        Err(CompileFailure::NeedsHost { host, port }) => panic!("needs host {host}:{port}"),
    }
}

impl<T> Failure for Result<T, Fault> {
    fn failure(self) -> String {
        match self {
            Err(Fault::Message(m)) => m,
            _ => panic!("expected a message"),
        }
    }
}

/// The answers of a name service that knows some hosts.
fn hosts(found: Vec<(&str, u16, Vec<SocketAddr>)>) -> Answers {
    let mut answers = Answers::none();
    for (host, port, addrs) in found {
        answers.add_host(host, port, Ok(addrs));
    }
    answers
}

#[test]
fn rejects_duplicate_sites() {
    let err =
        compile(":8080 { reverse_proxy 127.0.0.1:1 }\n:8080 { reverse_proxy 127.0.0.1:2 }\n")
            .failure();
    assert!(err.to_string().contains("duplicate site"));
}

#[test]
fn allows_named_and_catchall_on_same_port() {
    let cfg = compile(
        ":8080 { reverse_proxy 127.0.0.1:1 }\nexample.com:8080 { reverse_proxy 127.0.0.1:2 }\n",
    )
    .unwrap();
    assert_eq!(cfg.sites.len(), 2);
}

#[test]
fn wildcard_acme_requires_dns_challenge_but_internal_is_allowed() {
    let err = compile("*.example.com:443 {\n    reverse_proxy 127.0.0.1:1\n}\n").failure();
    assert!(err.to_string().contains("requires the existing DNS-01"));

    compile("*.example.com:443 {\n    tls internal\n    reverse_proxy 127.0.0.1:1\n}\n")
        .expect("operator-supplied wildcard certificates do not need DNS-01");
}

#[test]
fn ip_literal_site_requires_operator_certificate_source() {
    let err = compile("[::1]:443 {\n    reverse_proxy 127.0.0.1:1\n}\n").failure();
    assert!(err.to_string().contains("IP-literal site"));
    compile("[::1]:443 {\n    tls internal\n    reverse_proxy 127.0.0.1:1\n}\n")
        .expect("internal certificates are valid for local IP sites");
    compile("[::1]:8080 {\n    reverse_proxy 127.0.0.1:1\n}\n")
        .expect("plain HTTP IP-literal sites do not need ACME");
}

#[test]
fn transparent_tcp_mode_cannot_use_tls_termination() {
    let err = parse(
        "test",
        "tcp :15000 {\n    transparent\n    tls internal\n    to 127.0.0.1:9000\n}\n",
    )
    .failure();
    assert!(err.to_string().contains("transparent mode"));
}

#[test]
fn rejects_empty_sites() {
    let err = compile("").failure();
    assert!(err.to_string().contains("no sites"));
}

#[test]
fn layer4_only_config_compiles() {
    // A config with no HTTP sites but a raw-TCP listener is valid.
    let cfg = compile("tcp :3306 {\n    to 127.0.0.1:3306\n}\n").unwrap();
    assert!(cfg.sites.is_empty());
    assert_eq!(cfg.layer4.len(), 1);
}

#[test]
fn rejects_overlapping_tcp_binds() {
    // A wildcard bind overlaps a specific bind on the same TCP port.
    let input = "tcp 0.0.0.0:3306 {\n    to 127.0.0.1:3306\n}\n\
                 tcp 127.0.0.1:3306 {\n    to 127.0.0.1:3307\n}\n";
    let err = compile(input).failure();
    assert!(err.to_string().contains("overlapping"), "got: {err}");
}

#[test]
fn rejects_tcp_http_port_collision() {
    // HTTP binds TCP; a raw-TCP listener on the same port cannot coexist.
    let input = "tcp :8080 {\n    to 127.0.0.1:8080\n}\n\
                 :8080 {\n    reverse_proxy 127.0.0.1:1\n}\n";
    let err = compile(input).failure();
    assert!(
        err.to_string().contains("conflicts with HTTP"),
        "got: {err}"
    );
}

#[test]
fn distinct_specific_tcp_binds_are_allowed() {
    // Two non-wildcard binds on different addresses share the port legally.
    let input = "tcp 127.0.0.1:3306 {\n    to 127.0.0.1:3306\n}\n\
                 tcp 127.0.0.2:3306 {\n    to 127.0.0.1:3307\n}\n";
    let cfg = compile(input).unwrap();
    assert_eq!(cfg.layer4.len(), 2);
}

#[test]
fn compiles_terminal_and_modifier_split() {
    let cfg = compile(
        "example.com {\n    reverse_proxy 127.0.0.1:8080\n    header_up X-Real-IP {remote_host}\n}\n",
    )
    .unwrap();
    let site = &cfg.sites[0];
    assert_eq!(site.terminals.len(), 1);
    assert_eq!(site.modifiers.len(), 1);
    match &site.terminals[0].kind {
        TerminalKind::ReverseProxy { upstreams, .. } => {
            assert_eq!(upstreams.len(), 1);
            assert_eq!(upstreams[0].addr.port, 8080);
            assert!(!upstreams[0].tls, "a bare upstream stays plain HTTP");
        }
        _ => panic!("expected reverse proxy"),
    }
}

#[test]
fn header_after_reverse_proxy_still_compiles() {
    // Modifiers are declarative: header_up written after reverse_proxy is still applied.
    let cfg = compile(
        "api.example.com {\n    handle /static/* {\n        root /var/www/html\n        file_server\n        encode zstd gzip\n    }\n    reverse_proxy 127.0.0.1:8080\n    header_up X-Real-IP {remote_host}\n}\n",
    )
    .unwrap();
    let site = &cfg.sites[0];
    assert_eq!(site.terminals.len(), 2);
    assert_eq!(site.modifiers.len(), 1); // block-level header_up
                                         // The handle terminal (file_server) carries the handle-scoped `encode`
                                         // plus the block-level `header_up`.
    assert_eq!(site.terminals[0].matchers.len(), 1);
    assert_eq!(site.terminals[0].modifiers.len(), 2);
    // The block-level reverse_proxy terminal carries the header_up.
    assert_eq!(site.terminals[1].matchers.len(), 0);
    assert_eq!(site.terminals[1].modifiers.len(), 1);
}

#[test]
fn terminal_modifiers_keep_site_before_handle_scope() {
    let cfg = compile(
        ":8080 {
    header_up X-Scope site
    handle /api/* {
        header_up X-Scope handle
        reverse_proxy 127.0.0.1:9000
    }
}
",
    )
    .unwrap();
    let modifiers = &cfg.sites[0].terminals[0].modifiers;
    assert_eq!(modifiers.len(), 2);
    assert!(matches!(
        &modifiers[0],
        Modifier::HeaderUp { name, value }
            if name == "X-Scope" && value.parts().len() == 1
    ));
    assert!(matches!(
        &modifiers[1],
        Modifier::HeaderUp { name, value }
            if name == "X-Scope" && value.parts().len() == 1
    ));
    assert!(matches!(
        &modifiers[0],
        Modifier::HeaderUp { value, .. }
            if matches!(value.parts()[0], TemplatePart::Literal(ref text) if text == "site")
    ));
    assert!(matches!(
        &modifiers[1],
        Modifier::HeaderUp { value, .. }
            if matches!(value.parts()[0], TemplatePart::Literal(ref text) if text == "handle")
    ));
}

#[test]
fn rejects_unknown_placeholder() {
    // The placeholder whitelist (Q6) is enforced during parsing.
    let input = ":8080 {\n    header_up X {oops}\n}\n";
    let err = parse("test", input).failure();
    assert!(err.to_string().contains("unknown placeholder"));
}

#[test]
fn resolves_upstream_hostname() {
    let answers = hosts(vec![(
        "localhost",
        8080,
        vec![SocketAddr::v4(127, 0, 0, 1, 8080), SocketAddr::new(ip("::1"), 8080)],
    )]);
    let cfg = compile_with(":8080 {\n    reverse_proxy localhost:8080\n}\n", &answers).unwrap();
    match &cfg.sites[0].terminals[0].kind {
        TerminalKind::ReverseProxy { upstreams, .. } => {
            assert!(
                !upstreams.is_empty(),
                "localhost must resolve to at least one address"
            );
            assert!(
                upstreams.iter().all(|a| a.addr.port == 8080),
                "every resolved address must keep the configured port"
            );
        }
        _ => panic!("expected reverse proxy"),
    }
}

/// A test upstream entry for `resolve_upstreams`.
fn upstream(host: &str, port: u16) -> Upstream {
    Upstream {
        host: host.to_string(),
        port,
        tls: false,
        http_version: UpstreamHttpVersion::Auto,
        resolved: None,
    }
}

/// A `https://` test upstream entry.
fn tls_upstream(host: &str, port: u16) -> Upstream {
    Upstream {
        host: host.to_string(),
        port,
        tls: true,
        http_version: UpstreamHttpVersion::Auto,
        resolved: None,
    }
}

/// Extract the resolved addresses for order/dedup assertions (host and TLS
/// scheme are asserted separately where relevant).
fn addrs_of(peers: &[UpstreamPeer]) -> Vec<SocketAddr> {
    peers.iter().map(|p| p.addr).collect()
}

fn resolved(to: &Vec<Upstream>, answers: &Answers) -> Vec<UpstreamPeer> {
    match resolve_upstreams(to, answers) {
        Ok(peers) => peers,
        Err(_) => panic!("the upstreams resolve"),
    }
}

fn addr(n: u8) -> SocketAddr {
    SocketAddr::v4(10, 0, 0, n, 80)
}

#[test]
fn flattens_all_unique_addresses_preserving_order() {
    // One hostname resolves to several addresses. An address shared across
    // two hostnames is kept once per distinct host (they may differ in TLS
    // identity, P2), in first-seen order.
    let to = vec![upstream("a.test", 80), upstream("b.test", 80)];
    let answers = hosts(vec![
        ("a.test", 80, vec![addr(1), addr(2)]),
        ("b.test", 80, vec![addr(2), addr(3)]),
    ]);
    let got = resolved(&to, &answers);
    assert_eq!(addrs_of(&got), vec![addr(1), addr(2), addr(2), addr(3)]);
    assert_eq!(got[1].host, "a.test");
    assert_eq!(got[2].host, "b.test");
}

#[test]
fn same_addr_distinct_tls_hosts_are_both_kept() {
    // Two `https://` hostnames resolving to the same IP:port must both
    // survive with their scheme and SNI so the balancer can reach each
    // TLS virtual host.
    let to = vec![tls_upstream("a.test", 443), tls_upstream("b.test", 443)];
    let answers = hosts(vec![("a.test", 443, vec![addr(9)]), ("b.test", 443, vec![addr(9)])]);
    let got = resolved(&to, &answers);
    assert_eq!(got.len(), 2, "same-address TLS hosts must not be collapsed");
    assert!(got.iter().all(|p| p.tls));
    assert_ne!(got[0].host, got[1].host);
}

#[test]
fn explicit_ip_upstreams_preserved_and_deduped() {
    // The production resolver returns an explicit IP literal unchanged; the
    // flatten step must keep it (and drop an exact duplicate upstream).
    let to = vec![upstream("127.0.0.1", 9000), upstream("127.0.0.1", 9000)];
    let got = resolved(&to, &Answers::none());
    assert_eq!(
        addrs_of(&got),
        vec![SocketAddr::new(ip("127.0.0.1"), 9000)]
    );
}

#[test]
fn empty_resolution_is_a_config_error() {
    let to = vec![upstream("nope.test", 80)];
    let err = resolve_upstreams(&to, &hosts(vec![("nope.test", 80, vec![])])).failure();
    assert!(err
        .to_string()
        .contains("no address resolved for upstream nope.test:80"));
}

#[test]
fn resolution_timeout_propagates_diagnostic() {
    // The injectable resolver stands in for a timed-out lookup; the
    // config error must carry the diagnostic for `raddex check`/reload.
    let to = vec![upstream("slow.test", 80)];
    let mut answers = Answers::none();
    answers.add_host("slow.test", 80, Err("timed out after 5s".to_string()));
    let err = resolve_upstreams(&to, &answers).failure();
    assert!(err.to_string().contains("timed out after 5s"));
}

#[test]
fn resolver_order_is_stable() {
    // The order the resolver returns is preserved exactly: no re-sorting or
    // reordering is performed by the flatten step.
    let to = vec![upstream("x.test", 80)];
    let answers = hosts(vec![("x.test", 80, vec![addr(3), addr(1), addr(2)])]);
    let got = resolved(&to, &answers);
    assert_eq!(addrs_of(&got), vec![addr(3), addr(1), addr(2)]);
}

#[test]
fn compiles_rate_limit_as_modifier() {
    let cfg = compile(
        ":8080 {\n    rate_limit remote_ip 50r/s burst=100\n    reverse_proxy 127.0.0.1:9000\n}\n",
    )
    .unwrap();
    let site = &cfg.sites[0];
    match &site.modifiers[0] {
        Modifier::RateLimit { spec } => {
            assert_eq!(spec.count, 50);
            assert_eq!(spec.burst, 100);
        }
        other => panic!("expected rate_limit modifier, got {other:?}"),
    }
}

#[test]
fn compiles_handle_scoped_rate_limit() {
    let cfg = compile(
        ":8080 {\n    handle /api/* {\n        rate_limit remote_ip 5r/s\n        reverse_proxy 127.0.0.1:9000\n    }\n    reverse_proxy 127.0.0.1:9001\n}\n",
    )
    .unwrap();
    let site = &cfg.sites[0];
    // The handle terminal carries the handle-scoped rate_limit; the
    // block-level reverse_proxy terminal does not.
    assert_eq!(site.terminals.len(), 2);
    assert!(matches!(
        site.terminals[0].modifiers.first(),
        Some(Modifier::RateLimit { .. })
    ));
    assert!(site.terminals[1].modifiers.is_empty());
}

#[test]
fn site_trusted_proxies_override_global() {
    let cfg = compile(
        "{ trusted_proxies 10.0.0.0/8 }\n:8080 {\n    trusted_proxies 192.168.0.0/16\n    reverse_proxy 127.0.0.1:9000\n}\n",
    )
    .unwrap();
    let site = &cfg.sites[0];
    let networks = site.trusted_proxies.as_ref().expect("site override");
    assert!(networks[0].contains(ip("192.168.5.5")));
    assert!(!networks[0].contains(ip("10.1.1.1")));
    // Without a site override the compiled site inherits the global list.
    let cfg2 = compile(
        "{ trusted_proxies 10.0.0.0/8 }\n:8080 {\n    reverse_proxy 127.0.0.1:9000\n}\n",
    )
    .unwrap();
    assert!(cfg2.sites[0].trusted_proxies.is_none());
    assert_eq!(cfg2.global.trusted_proxies.len(), 1);
}

#[test]
fn rejects_trusted_proxies_inside_handle() {
    let err = compile(
        ":8080 {\n    handle /x/* {\n        trusted_proxies 10.0.0.0/8\n        file_server\n    }\n}\n",
    )
    .failure();
    assert!(err
        .to_string()
        .contains("trusted_proxies is only allowed at the global or site-block level"));
}

#[test]
fn parses_https_upstream_scheme() {
    // `https://` on a target flips the upstream to TLS; the
    // bare form stays plain HTTP.
    let cfg = compile(":8080 {\n    reverse_proxy https://127.0.0.1:8443\n}\n").unwrap();
    match &cfg.sites[0].terminals[0].kind {
        TerminalKind::ReverseProxy { upstreams, tls, .. } => {
            assert_eq!(upstreams.len(), 1);
            assert!(upstreams[0].tls);
            assert_eq!(upstreams[0].host, "127.0.0.1");
            let tls = tls
                .as_ref()
                .expect("an https upstream compiles TLS options");
            assert!(tls.verify_cert, "verification is on by default");
            assert!(tls.servername.is_empty());
            assert!(tls.ca.is_none());
            assert!(tls.client_cert.is_none());
        }
        _ => panic!("expected reverse proxy"),
    }
}

#[test]
fn compiles_tls_subdirectives() {
    let cfg = compile(
        ":8080 {\n    reverse_proxy {\n        to https://127.0.0.1:8443\n        tls_servername api.internal\n        tls_skip_verify\n    }\n}\n",
    )
    .unwrap();
    match &cfg.sites[0].terminals[0].kind {
        TerminalKind::ReverseProxy { upstreams, tls, .. } => {
            assert!(upstreams[0].tls);
            let tls = tls.as_ref().expect("TLS options compiled");
            assert!(!tls.verify_cert, "tls_skip_verify clears verification");
            assert_eq!(tls.servername, "api.internal");
        }
        _ => panic!("expected reverse proxy"),
    }
}

#[test]
fn rejects_tls_options_without_https_upstream() {
    let err = compile(
        ":8080 {\n    reverse_proxy {\n        to 127.0.0.1:8443\n        tls_servername api.internal\n    }\n}\n",
    )
    .failure();
    assert!(err.to_string().contains("require an https:// upstream"));
}

#[test]
fn tls_ca_requires_valid_pem() {
    let mut answers = Answers::none();
    answers.add_unreadable_certificate("/nonexistent/ca.pem", "No such file or directory");
    let err = compile_with(
        ":8080 {\n    reverse_proxy {\n        to https://127.0.0.1:8443\n        tls_ca /nonexistent/ca.pem\n    }\n}\n",
        &answers,
    )
    .failure();
    assert!(err.to_string().contains("failed to read CA file"));
}

#[test]
fn tls_cert_reads_pem_files() {
    // A self-signed client cert and its key; the compiled TLS config must parse
    // them.
    let (cert, key) = test_cert("client.test");
    let mut answers = Answers::none();
    answers.add_certificate_file("/tls/client.pem", cert.as_bytes());
    answers.add_key_file("/tls/client.key", &key);
    let cfg = compile_with(
        ":8080 {\n    reverse_proxy {\n        to https://127.0.0.1:8443\n        tls_cert /tls/client.pem /tls/client.key\n    }\n}\n",
        &answers,
    )
    .unwrap();
    match &cfg.sites[0].terminals[0].kind {
        TerminalKind::ReverseProxy { tls, .. } => {
            let tls = tls.as_ref().expect("TLS options compiled");
            assert!(tls.client_cert.is_some());
        }
        _ => panic!("expected reverse proxy"),
    }
}

#[test]
fn resolve_upstreams_keeps_tls_scheme() {
    let to = vec![tls_upstream("secure.test", 8443)];
    let answers = hosts(vec![("secure.test", 8443, vec![SocketAddr::v4(10, 0, 0, 9, 8443)])]);
    let got = resolved(&to, &answers);
    assert_eq!(got.len(), 1);
    assert!(got[0].tls);
    assert_eq!(got[0].host, "secure.test");
    assert_eq!(got[0].addr.port, 8443);
}

/// A self-signed certificate and its key for `host`, both in PEM.
fn test_cert(host: &str) -> (String, String) {
    let key = PKey::from_rsa(Rsa::generate(2048).unwrap()).unwrap();
    let mut name = X509NameBuilder::new().unwrap();
    name.append_entry_by_text("CN", host).unwrap();
    let name = name.build();
    let mut cert = X509Builder::new().unwrap();
    cert.set_version(2).unwrap();
    cert.set_subject_name(&name).unwrap();
    cert.set_issuer_name(&name).unwrap();
    cert.set_pubkey(&key).unwrap();
    let from = Asn1Time::days_from_now(0).unwrap();
    let to = Asn1Time::days_from_now(30).unwrap();
    cert.set_not_before(&from).unwrap();
    cert.set_not_after(&to).unwrap();
    cert.sign(&key, MessageDigest::sha256()).unwrap();
    let cert = cert.build();
    (
        String::from_utf8(cert.to_pem().unwrap()).unwrap(),
        String::from_utf8(key.private_key_to_pem_pkcs8().unwrap()).unwrap(),
    )
}

#[test]
fn compiles_static_tls_source() {
    let (cert, key) = test_cert("example.com");
    let mut answers = Answers::none();
    answers.add_certificate_file("/tls/site.pem", cert.as_bytes());
    answers.add_key_file("/tls/site.key", &key);
    let cfg = compile_with(
        "example.com:8443 {\n    tls /tls/site.pem /tls/site.key\n    reverse_proxy 127.0.0.1:9000\n}\n",
        &answers,
    )
    .unwrap();
    assert!(matches!(
        cfg.sites[0].tls.as_ref().expect("tls config").source,
        TlsSource::Static { .. }
    ));
}

#[test]
fn compiles_internal_tls_without_files() {
    let cfg =
        compile("example.com:8443 {\n    tls internal\n    reverse_proxy 127.0.0.1:9000\n}\n")
            .unwrap();
    assert_eq!(
        cfg.sites[0].tls.as_ref().expect("tls config").source,
        TlsSource::Internal
    );
}

#[test]
fn merges_tls_options_across_lines() {
    let (cert, key) = test_cert("example.com");
    let mut answers = Answers::none();
    answers.add_certificate_file("/tls/site.pem", cert.as_bytes());
    answers.add_key_file("/tls/site.key", &key);
    let cfg = compile_with(
        "example.com:8443 {\n    tls /tls/site.pem /tls/site.key\n    tls min_version 1.3\n    reverse_proxy 127.0.0.1:9000\n}\n",
        &answers,
    )
    .unwrap();
    let tls = cfg.sites[0].tls.as_ref().expect("tls config");
    assert!(matches!(tls.source, TlsSource::Static { .. }));
    assert_eq!(tls.min_version, Some(TlsVersion::Tls13));
}

#[test]
fn compiles_client_auth() {
    let (ca, _) = test_cert("ca.example.com");
    let mut answers = Answers::none();
    answers.add_certificate_file("/tls/ca.pem", ca.as_bytes());
    let cfg = compile_with(
        "example.com:8443 {\n    tls client_auth require /tls/ca.pem\n    reverse_proxy 127.0.0.1:9000\n}\n",
        &answers,
    )
    .unwrap();
    let auth = cfg.sites[0]
        .tls
        .as_ref()
        .expect("tls config")
        .client_auth
        .as_ref()
        .expect("client auth");
    assert_eq!(auth.mode, ClientAuthMode::Require);
}

#[test]
fn rejects_missing_static_cert() {
    let mut answers = Answers::none();
    answers.add_unreadable_certificate("/nonexistent/cert.pem", "No such file or directory");
    answers.add_unreadable_key("/nonexistent/key.pem", "No such file or directory");
    let err = compile_with(
        "example.com:8443 {\n    tls /nonexistent/cert.pem /nonexistent/key.pem\n    reverse_proxy 127.0.0.1:9000\n}\n",
        &answers,
    )
    .failure();
    assert!(err.to_string().contains("failed to read certificate"));
}

#[test]
fn rejects_min_above_max_version() {
    let cfg = compile(
        "example.com:8443 {\n    tls min_version 1.3\n    tls max_version 1.2\n    reverse_proxy 127.0.0.1:9000\n}\n",
    )
    .failure();
    assert!(cfg
        .to_string()
        .contains("min_version must not exceed max_version"));
}

#[test]
fn rejects_tls_inside_handle() {
    let err = compile(
        ":8080 {\n    handle /x/* {\n        tls internal\n        file_server\n    }\n}\n",
    )
    .failure();
    assert!(err
        .to_string()
        .contains("tls is only allowed at the site-block level"));
}

#[test]
fn compiles_basic_auth_into_user_table() {
    // Several `basic_auth` lines compile into a single user-table modifier.
    let cfg = compile(
        ":8080 {\n    basic_auth admin $2b$12$x\n    basic_auth bob $2b$12$y\n    reverse_proxy 127.0.0.1:9000\n}\n",
    )
    .unwrap();
    let modifiers = &cfg.sites[0].modifiers;
    match modifiers
        .iter()
        .find(|m| matches!(m, Modifier::BasicAuth { .. }))
    {
        Some(Modifier::BasicAuth { users }) => assert_eq!(users.len(), 2),
        _ => panic!("expected a basic_auth modifier"),
    }
}
