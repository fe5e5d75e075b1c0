use raddex::config::ast::{
    AccessLogDirective, AccessLogFormat, ConfigError, Directive, HealthCheckSpec, Layer4Listener,
    LbPolicy, LogLevel, Matcher, Protocol, RateLimitKey, RateUnit, SiteKey, TlsSource, TlsVersion,
    UpstreamHttpVersion,
};
use raddex::config::expand::{ImportOutcome, ImportedFile, Sources, MAX_BLOCK_DEPTH};
use raddex::config::parser::{parse, parse_with, ParseFailure};
use raddex::config::values::{normalize_host_name, strip_matcher_wildcard};
use raddex::net::IpAddr;
use raddex::time::Duration;

/// The text of the error of a result that must be one.
trait Failure {
    fn failure(self) -> String;
}

impl<T> Failure for Result<T, ConfigError> {
    fn failure(self) -> String {
        match self {
            Ok(_) => panic!("expected an error"),
            Err(e) => e.describe(),
        }
    }
}

impl<T> Failure for Result<T, ParseFailure> {
    fn failure(self) -> String {
        match self {
            Ok(_) => panic!("expected an error"),
            Err(ParseFailure::Config(e)) => e.describe(),
            Err(ParseFailure::NeedsImport { target, .. }) => panic!("needs {target}"),
        }
    }
}

fn ip(text: &str) -> IpAddr {
    IpAddr::parse(text).expect("an IP literal")
}

fn with_env(vars: &[(&str, &str)]) -> Sources {
    let mut sources = Sources::none();
    for (name, value) in vars {
        sources.env.push((name.to_string(), value.to_string()));
    }
    sources
}

#[test]
fn parses_global_and_site() {
    let input = "{ acme_email ops@example.com\nlog_level info }\napi.example.com {\n    reverse_proxy 127.0.0.1:8080\n}\n";
    let rf = parse("test", input).unwrap();
    assert_eq!(rf.global.acme_email.as_deref(), Some("ops@example.com"));
    assert_eq!(rf.global.log_level, Some(LogLevel::Info));
    assert_eq!(rf.sites.len(), 1);
    match &rf.sites[0].key {
        SiteKey::Named { host, port } => {
            assert_eq!(host, "api.example.com");
            assert_eq!(*port, 443);
        }
        _ => panic!("expected named site"),
    }
}

#[test]
fn parses_multi_domain_site_block() {
    let input = "a.example.com, b.example.com {\n    respond 200 shared\n}\n";
    let rf = parse("test", input).unwrap();
    assert_eq!(rf.sites.len(), 2);
    assert!(matches!(
        &rf.sites[0].key,
        SiteKey::Named { host, port: 443 } if host == "a.example.com"
    ));
    assert!(matches!(
        &rf.sites[1].key,
        SiteKey::Named { host, port: 443 } if host == "b.example.com"
    ));
    assert_eq!(rf.sites[0].directives.len(), 1);
    assert_eq!(rf.sites[1].directives.len(), 1);
}

#[test]
fn parses_dns_challenge_cloudflare() {
    let input = "{ dns_challenge cloudflare abc123 }\napi.example.com {\n    reverse_proxy 127.0.0.1:8080\n}\n";
    let rf = parse("test", input).unwrap();
    let challenge = rf.global.dns_challenge.expect("dns_challenge parsed");
    assert_eq!(challenge.provider.keyword, "cloudflare");
    assert_eq!(challenge.credentials.get("api_token"), Some("abc123"));
}

#[test]
fn parses_dns_challenge_block_form() {
    // The block form is the general shape every provider accepts; the
    // shorthand is sugar for a provider with exactly one credential.
    let input = "{\n    dns_challenge cloudflare {\n        api_token abc123\n    }\n}\n\
                 api.example.com {\n    reverse_proxy 127.0.0.1:8080\n}\n";
    let rf = parse("test", input).unwrap();
    let challenge = rf.global.dns_challenge.expect("dns_challenge parsed");
    assert_eq!(challenge.provider.keyword, "cloudflare");
    assert_eq!(challenge.credentials.get("api_token"), Some("abc123"));
}

#[test]
fn dns_challenge_block_rejects_unknown_and_duplicate_credentials() {
    // Both errors come from the provider's declared field list, so a new
    // provider gets them without touching the parser.
    let err = parse(
        "test",
        "{\n    dns_challenge cloudflare {\n        api_token t\n        region us-east-1\n    }\n}\n",
    )
    .failure()
    .to_string();
    assert!(
        err.contains("unknown cloudflare credential 'region'"),
        "got: {err}"
    );

    let err = parse(
        "test",
        "{\n    dns_challenge cloudflare {\n        api_token a\n        api_token b\n    }\n}\n",
    )
    .failure()
    .to_string();
    assert!(err.contains("duplicate"), "got: {err}");

    let err = parse("test", "{\n    dns_challenge cloudflare {\n    }\n}\n")
        .failure()
        .to_string();
    assert!(err.contains("requires 'api_token'"), "got: {err}");
}

#[test]
fn dns_challenge_credentials_are_redacted_in_debug() {
    // A token must not reach a log or panic message.
    let rf = parse("test", "{ dns_challenge cloudflare super-secret }\n").unwrap();
    let rendered = rf.global.dns_challenge.expect("dns_challenge parsed").describe();
    assert!(!rendered.contains("super-secret"), "got: {rendered}");
    assert!(rendered.contains("api_token"), "got: {rendered}");
}

#[test]
fn global_block_still_rejects_a_brace_after_other_directives() {
    let err = parse("test", "{\n    acme_email a@b.c {\n    }\n}\n")
        .failure()
        .to_string();
    assert!(
        err.contains("unexpected '{' after acme_email"),
        "got: {err}"
    );
}

#[test]
fn parses_tls_alpn_challenge() {
    let rf = parse("test", "{ tls_alpn_challenge }\napi.example.com {\n}\n").unwrap();
    assert!(rf.global.tls_alpn_challenge);
}

#[test]
fn rejects_tls_alpn_challenge_arguments() {
    let err = parse("test", "{ tls_alpn_challenge yes }\n").failure();
    assert!(err.to_string().contains("takes no arguments"));
}

#[test]
fn rejects_invalid_dns_challenge() {
    // Unknown provider: the error lists the registered keywords.
    let err = parse("test", "{ dns_challenge route53 tok }\n")
        .failure()
        .to_string();
    assert!(err.contains("invalid dns_challenge provider"), "got: {err}");
    assert!(err.contains("cloudflare"), "got: {err}");
    // Provider given, credential missing.
    let err = parse("test", "{ dns_challenge cloudflare }\n")
        .failure()
        .to_string();
    assert!(err.contains("takes one argument (api_token)"), "got: {err}");
    // No provider at all.
    let err = parse("test", "{ dns_challenge }\n")
        .failure()
        .to_string();
    assert!(err.contains("requires a provider"), "got: {err}");
}

#[test]
fn parses_catch_all_and_placeholder_redir() {
    let input = ":8080 {\n    redir https://{host}{uri} permanent\n}\n";
    let rf = parse("test", input).unwrap();
    match &rf.sites[0].key {
        SiteKey::CatchAll { port } => assert_eq!(*port, 8080),
        _ => panic!("expected catch-all"),
    }
    match &rf.sites[0].directives[0] {
        Directive::Redir { to, code } => {
            assert_eq!(to, "https://{host}{uri}");
            assert_eq!(*code, 308);
        }
        other => panic!("expected redir, got {other:?}"),
    }
}

#[test]
fn redir_rejects_invalid_code_instead_of_concatenating() {
    // A trailing non-code token must error, not silently join the target
    // (`redir /foo 200` used to become `/foo200` with 308).
    for input in [
        ":8080 {\n    redir /foo 200\n}\n",
        ":8080 {\n    redir /foo 299\n}\n",
        ":8080 {\n    redir /foo bar\n}\n",
        ":8080 {\n    redir https://{host} 200\n}\n",
    ] {
        let message = parse("test", input).failure().to_string();
        assert!(
            message.contains("invalid redirect code"),
            "expected an invalid-code error for {input:?}, got: {message}"
        );
    }
}

#[test]
fn redir_placeholder_target_without_code_keeps_default() {
    // A multi-token target ending in a `{placeholder}` fragment carries no
    // code: the placeholder is part of the target, the default 308 applies.
    let rf = parse("test", ":8080 {\n    redir https://{host}{uri}\n}\n").unwrap();
    match &rf.sites[0].directives[0] {
        Directive::Redir { to, code } => {
            assert_eq!(to, "https://{host}{uri}");
            assert_eq!(*code, 308);
        }
        other => panic!("expected redir, got {other:?}"),
    }
}

#[test]
fn embedded_env_placeholder_expands_inside_word() {
    // `reverse_proxy https://{$BACKEND_HOST}:8443` must expand to a single
    // upstream target, not a three-argument parse error.
    let parsed = parse_with(
        "test",
        ":8080 {\n    reverse_proxy https://{$RADDEX_TEST_EMBEDDED_UPSTREAM}:8443\n}\n",
        &with_env(&[("RADDEX_TEST_EMBEDDED_UPSTREAM", "127.0.0.1")]),
    );
    let rf = parsed.unwrap();
    match &rf.sites[0].directives[0] {
        Directive::ReverseProxy { to, .. } => {
            assert_eq!(to.len(), 1);
            assert_eq!(to[0].host, "127.0.0.1");
            assert_eq!(to[0].port, 8443);
            assert!(to[0].tls, "an https:// target must be marked TLS");
        }
        other => panic!("expected reverse_proxy, got {other:?}"),
    }
}

#[test]
fn adjacent_env_placeholders_merge_into_one_word() {
    // Two adjacent `{$A}{$B}` placeholders (plus a trailing fragment) are
    // one logical argument; each placeholder expands.
    let parsed = parse_with(
        "test",
        ":8080 {\n    redir https://{$RADDEX_TEST_A}{$RADDEX_TEST_B}.example.com\n}\n",
        &with_env(&[("RADDEX_TEST_A", "a"), ("RADDEX_TEST_B", "b")]),
    );
    let rf = parsed.unwrap();
    match &rf.sites[0].directives[0] {
        Directive::Redir { to, code } => {
            assert_eq!(to, "https://ab.example.com");
            assert_eq!(*code, 308);
        }
        other => panic!("expected redir, got {other:?}"),
    }
}

#[test]
fn deep_block_nesting_is_rejected_not_a_crash() {
    // An untrusted config must never panic or overflow the
    // stack. Deeply nested `handle` blocks (no depth limit in the grammar)
    // must be rejected by the guard, not exhaust the stack.
    let depth = MAX_BLOCK_DEPTH + 20;
    let mut config = String::from(":8080 {\n");
    for _ in 0..depth {
        config.push_str("    handle path / {\n");
    }
    for _ in 0..depth {
        config.push_str("    }\n");
    }
    config.push_str("}\n");
    let message = parse("test", &config).failure().to_string();
    assert!(
        message.contains("block nesting exceeds"),
        "expected a nesting error, got: {message}"
    );
}

#[test]
fn parses_tcp_listener_block() {
    let rf = parse(
        "test",
        "tcp :3306 {\n    to db-1.internal:3306 db-2.internal:3306\n    lb_policy ip_hash\n    connect_timeout 3s\n    idle_timeout 5m\n    max_connections 10000\n    health_check {\n        interval 10s\n        timeout 2s\n    }\n}\n",
    )
    .unwrap();
    assert!(rf.sites.is_empty(), "a tcp block is not an HTTP site");
    assert_eq!(rf.layer4.len(), 1);
    let Layer4Listener::Tcp(tcp) = &rf.layer4[0] else {
        panic!("expected a tcp listener")
    };
    assert_eq!(tcp.listen.port(), 3306);
    assert!(tcp.listen.is_wildcard(), ":3306 binds all interfaces");
    assert_eq!(tcp.upstreams.len(), 2);
    assert_eq!(tcp.upstreams[0].host, "db-1.internal");
    assert_eq!(tcp.upstreams[0].port, 3306);
    assert_eq!(tcp.lb_policy, LbPolicy::IpHash);
    assert_eq!(tcp.connect_timeout, Duration::from_secs(3));
    assert_eq!(tcp.idle_timeout, Duration::from_secs(300));
    assert_eq!(tcp.max_connections, 10_000);
    let hc = tcp.health_check.expect("health_check parsed");
    assert_eq!(hc.interval, Duration::from_secs(10));
    assert_eq!(hc.timeout, Duration::from_secs(2));
}

#[test]
fn parses_tcp_tls_termination() {
    let rf = parse(
        "test",
        "tcp :3306 {\n    tls internal\n    tls min_version 1.3\n    to 127.0.0.1:9000\n}\n",
    )
    .unwrap();
    let Layer4Listener::Tcp(tcp) = &rf.layer4[0] else {
        panic!("expected a tcp listener");
    };
    let tls = tcp.tls.as_ref().expect("TCP TLS settings");
    assert_eq!(tls.source, TlsSource::Internal);
    assert_eq!(tls.min_version, Some(TlsVersion::Tls13));
}

#[test]
fn parses_transparent_tcp_mode() {
    let rf = parse(
        "test",
        "tcp :15000 {\n    transparent\n    to 127.0.0.1:9000\n}\n",
    )
    .unwrap();
    let Layer4Listener::Tcp(tcp) = &rf.layer4[0] else {
        panic!("expected a tcp listener");
    };
    assert!(tcp.transparent);
    assert_eq!(tcp.upstreams.len(), 1);
}

#[test]
fn parses_ipv6_tcp_listener_and_upstream() {
    // L4 addresses accept bracketed IPv6 (the HTTP site parser rejects it).
    let rf = parse("test", "tcp [::1]:8080 {\n    to [::1]:9090\n}\n").unwrap();
    let Layer4Listener::Tcp(tcp) = &rf.layer4[0] else {
        panic!("expected a tcp listener")
    };
    assert_eq!(tcp.listen.port(), 8080);
    assert!(!tcp.listen.is_wildcard());
    assert_eq!(tcp.upstreams[0].host, "::1");
    assert_eq!(tcp.upstreams[0].port, 9090);
}

#[test]
fn parses_h2_and_h2c_upstream_schemes() {
    let rf = parse(
        "test",
        ":8080 {\n    reverse_proxy h2://api.example.com:443\n}\n",
    )
    .unwrap();
    let Directive::ReverseProxy { to, .. } = &rf.sites[0].directives[0] else {
        panic!("expected reverse_proxy");
    };
    assert!(to[0].tls);
    assert_eq!(to[0].http_version, UpstreamHttpVersion::H2);

    let rf = parse("test", ":8080 {\n    reverse_proxy h2c://[::1]:9000\n}\n").unwrap();
    let Directive::ReverseProxy { to, .. } = &rf.sites[0].directives[0] else {
        panic!("expected reverse_proxy");
    };
    assert!(!to[0].tls);
    assert_eq!(to[0].http_version, UpstreamHttpVersion::H2c);
    assert_eq!(to[0].host, "::1");
}

#[test]
fn tcp_requires_upstream_and_rejects_unknown() {
    let message = parse("test", "tcp :3306 {\n}\n").failure().to_string();
    assert!(message.contains("at least one upstream"), "got: {message}");
    let message = parse("test", "tcp :3306 {\n    bogus 1\n    to 127.0.0.1:1\n}\n")
        .failure()
        .to_string();
    assert!(message.contains("unknown tcp directive"), "got: {message}");
}

#[test]
fn parses_udp_listener_block() {
    // A UDP listener parses and carries its bounds.
    let rf = parse(
        "test",
        "udp :53 {\n    to 1.1.1.1:53 8.8.8.8:53\n    lb_policy ip_hash\n    idle_timeout 30s\n    max_flows 50000\n    max_datagram_size 4096\n    recv_buffer 4MiB\n    send_buffer 2MiB\n}\n",
    )
    .unwrap();
    let Layer4Listener::Udp(udp) = &rf.layer4[0] else {
        panic!("expected a udp listener");
    };
    assert_eq!(udp.listen.port(), 53);
    assert_eq!(udp.upstreams.len(), 2);
    assert_eq!(udp.lb_policy, LbPolicy::IpHash);
    assert_eq!(udp.idle_timeout, Duration::from_secs(30));
    assert_eq!(udp.max_flows, 50_000);
    assert_eq!(udp.max_datagram_size, 4096);
    assert_eq!(udp.recv_buffer, 4 * 1024 * 1024);
    assert_eq!(udp.send_buffer, 2 * 1024 * 1024);
}

#[test]
fn udp_block_rejects_bad_config() {
    // No upstream.
    let message = parse("test", "udp :53 {\n}\n").failure().to_string();
    assert!(message.contains("at least one upstream"), "got: {message}");
    // Zero idle timeout.
    let message = parse(
        "test",
        "udp :53 {\n    to 1.1.1.1:53\n    idle_timeout 0s\n}\n",
    )
    .failure()
    .to_string();
    assert!(message.contains("greater than zero"), "got: {message}");
    // Unknown directive.
    let message = parse("test", "udp :53 {\n    to 1.1.1.1:53\n    bogus 1\n}\n")
        .failure()
        .to_string();
    assert!(message.contains("unknown udp directive"), "got: {message}");
}

#[test]
fn tcp_zero_timeout_is_rejected() {
    let message = parse(
        "test",
        "tcp :3306 {\n    to 127.0.0.1:1\n    idle_timeout 0s\n}\n",
    )
    .failure()
    .to_string();
    assert!(message.contains("greater than zero"), "got: {message}");
}

#[test]
fn parses_sni_routing_block() {
    let rf = parse(
        "test",
        "tcp 0.0.0.0:443 {\n    sni Api.Example.COM 10.0.0.1:9001\n    sni web.example.com 10.0.0.1:9002\n    fallback 10.0.0.1:9003\n}\n",
    )
    .unwrap();
    let Layer4Listener::Tcp(tcp) = &rf.layer4[0] else {
        panic!("expected a tcp listener")
    };
    assert!(tcp.upstreams.is_empty(), "sni mode has no `to`");
    assert_eq!(tcp.sni_routes.len(), 2);
    assert_eq!(
        tcp.sni_routes[0].name, "api.example.com",
        "SNI names are lowercased"
    );
    assert_eq!(tcp.sni_routes[0].upstream.port, 9001);
    let fb = tcp.sni_fallback.as_ref().expect("fallback");
    assert_eq!(fb.host, "10.0.0.1");
    assert_eq!(fb.port, 9003);
}

#[test]
fn sni_routing_rejects_misconfiguration() {
    // `to` and `sni` are mutually exclusive.
    let message = parse(
        "test",
        "tcp :443 {\n    to 127.0.0.1:1\n    sni api.example.com 10.0.0.1:9001\n}\n",
    )
    .failure()
    .to_string();
    assert!(
        message.contains("cannot be combined with `to`"),
        "got: {message}"
    );
    // Duplicate SNI names.
    let message = parse(
        "test",
        "tcp :443 {\n    sni api.example.com 10.0.0.1:9001\n    sni api.example.com 10.0.0.2:9002\n}\n",
    )
    .failure()
    .to_string();
    assert!(message.contains("duplicate sni route"), "got: {message}");
    // `fallback` requires sni routing.
    let message = parse("test", "tcp :443 {\n    fallback 10.0.0.1:9003\n}\n")
        .failure()
        .to_string();
    assert!(
        message.contains("fallback requires sni routing"),
        "got: {message}"
    );
    // One-label wildcard SNI is valid; malformed wildcard placement is not.
    let rf = parse(
        "test",
        "tcp :443 {\n    sni *.example.com 10.0.0.1:9001\n}\n",
    )
    .unwrap();
    let Layer4Listener::Tcp(tcp) = &rf.layer4[0] else {
        panic!("expected tcp listener")
    };
    assert_eq!(tcp.sni_routes[0].name, "*.example.com");
    let message = parse(
        "test",
        "tcp :443 {\n    sni api.*.example.com 10.0.0.1:9001\n}\n",
    )
    .failure()
    .to_string();
    assert!(message.contains("invalid sni name"), "got: {message}");
    // `health_check` does not apply to SNI mode.
    let message = parse(
        "test",
        "tcp :443 {\n    sni api.example.com 10.0.0.1:9001\n    health_check {\n        interval 10s\n    }\n}\n",
    )
    .failure()
    .to_string();
    assert!(
        message.contains("does not support health_check"),
        "got: {message}"
    );
}

#[test]
fn parses_handle_with_scope() {
    let input = "example.com {\n    handle /static/* {\n        root /var/www\n        file_server\n        encode zstd gzip\n    }\n    reverse_proxy 127.0.0.1:8080\n    header_up X-Real-IP {remote_host}\n}\n";
    let rf = parse("test", input).unwrap();
    let site = &rf.sites[0];
    assert_eq!(site.directives.len(), 3);
    match &site.directives[0] {
        Directive::Handle {
            matcher,
            directives,
        } => {
            assert!(matches!(
                matcher.as_slice(),
                [Matcher::Path(prefix)] if prefix == "/static"
            ));
            assert_eq!(directives.len(), 3);
        }
        other => panic!("expected handle, got {other:?}"),
    }
}

#[test]
fn parses_to_block_form() {
    let input = ":8080 {\n    reverse_proxy /api/* {\n        to 127.0.0.1:8081 127.0.0.1:8082\n    }\n}\n";
    let rf = parse("test", input).unwrap();
    match &rf.sites[0].directives[0] {
        Directive::ReverseProxy { matcher, to, .. } => {
            assert!(!matcher.is_empty());
            assert_eq!(to.len(), 2);
            assert_eq!(to[0].host, "127.0.0.1");
            assert_eq!(to[0].port, 8081);
            assert_eq!(to[1].port, 8082);
        }
        other => panic!("expected reverse_proxy, got {other:?}"),
    }
}

#[test]
fn parses_lb_policy_and_health_check() {
    let input = ":8080 {\n    reverse_proxy {\n        to 127.0.0.1:8081 127.0.0.1:8082\n        lb_policy random\n        health_check {\n            interval 2s\n            timeout 500ms\n            consecutive_failures 5\n            consecutive_successes 1\n        }\n    }\n}\n";
    let rf = parse("test", input).unwrap();
    match &rf.sites[0].directives[0] {
        Directive::ReverseProxy {
            matcher,
            to,
            lb_policy,
            health_check,
            ..
        } => {
            assert!(matcher.is_empty());
            assert_eq!(to.len(), 2);
            assert_eq!(*lb_policy, LbPolicy::Random);
            let hc = health_check.as_ref().expect("health check");
            assert_eq!(hc.interval, Duration::from_secs(2));
            assert_eq!(hc.timeout, Duration::from_millis(500));
            assert_eq!(hc.consecutive_failures, 5);
            assert_eq!(hc.consecutive_successes, 1);
        }
        other => panic!("expected reverse_proxy, got {other:?}"),
    }
}

#[test]
fn bare_health_check_uses_defaults() {
    let input = ":8080 {\n    reverse_proxy {\n        to 127.0.0.1:8081\n        health_check\n    }\n}\n";
    let rf = parse("test", input).unwrap();
    match &rf.sites[0].directives[0] {
        Directive::ReverseProxy { health_check, .. } => {
            assert_eq!(
                *health_check.as_ref().expect("health check"),
                HealthCheckSpec::default()
            );
        }
        other => panic!("expected reverse_proxy, got {other:?}"),
    }
}

#[test]
fn rejects_unknown_lb_policy() {
    let input = ":8080 {\n    reverse_proxy {\n        to 127.0.0.1:8081\n        lb_policy fancy\n    }\n}\n";
    let err = parse("test", input).failure();
    assert!(err.to_string().contains("unknown lb_policy"));
}

#[test]
fn rejects_unknown_health_check_option() {
    let input = ":8080 {\n    reverse_proxy {\n        to 127.0.0.1:8081\n        health_check {\n            bogus 1s\n        }\n    }\n}\n";
    let err = parse("test", input).failure();
    assert!(err.to_string().contains("unknown health_check option"));
}

#[test]
fn rejects_zero_health_check_interval() {
    let input = ":8080 {\n    reverse_proxy {\n        to 127.0.0.1:8081\n        health_check {\n            interval 0s\n        }\n    }\n}\n";
    let err = parse("test", input).failure();
    assert!(err
        .to_string()
        .contains("interval and timeout must be greater than zero"));
}

#[test]
fn rejects_zero_consecutive_failures() {
    let input = ":8080 {\n    reverse_proxy {\n        to 127.0.0.1:8081\n        health_check {\n            consecutive_failures 0\n        }\n    }\n}\n";
    let err = parse("test", input).failure();
    assert!(err
        .to_string()
        .contains("consecutive_failures must be >= 1"));
}

#[test]
fn rejects_zero_consecutive_successes() {
    let input = ":8080 {\n    reverse_proxy {\n        to 127.0.0.1:8081\n        health_check {\n            consecutive_successes 0\n        }\n    }\n}\n";
    let err = parse("test", input).failure();
    assert!(err
        .to_string()
        .contains("consecutive_successes must be >= 1"));
}

#[test]
fn normalizes_valid_host_names() {
    // (input, expected normalized output).
    let cases: &[(&str, &str)] = &[
        ("example.com", "example.com"),
        ("EXAMPLE.COM", "example.com"),
        ("example.com.", "example.com"),
        ("localhost", "localhost"),
        ("LocalHost", "localhost"),
        ("sub-domain.example.com", "sub-domain.example.com"),
        ("xn--bcher-kva.example", "xn--bcher-kva.example"),
        ("a", "a"),
        ("*.Example.COM.", "*.example.com"),
    ];
    for (input, expected) in cases {
        assert_eq!(
            normalize_host_name(input).as_deref(),
            Ok(*expected),
            "host '{input}'"
        );
    }
}

#[test]
fn rejects_invalid_host_names() {
    let mut cases: Vec<String> = vec![
        "".into(),                  // empty
        ".".into(),                 // only a trailing dot
        "..".into(),                // double dot
        "foo bar".into(),           // whitespace
        "foo\tbar".into(),          // tab
        "example.com:8080".into(),  // colon (must be split as a port first)
        "foo/bar.com".into(),       // slash
        "foo\\bar.com".into(),      // backslash
        "../../tmp/x".into(),       // path traversal
        "foo..com".into(),          // empty label
        ".com".into(),              // leading empty label
        "example.com..".into(),     // trailing double dot
        "-foo.com".into(),          // label leading hyphen
        "foo-.com".into(),          // label trailing hyphen
        "-foo-.com".into(),         // both
        "例え.jp".into(),           // non-ASCII
        "api.*.example.com".into(), // wildcard in a non-leading label
        "*".into(),                 // wildcard without a suffix
    ];
    // A label longer than 63 chars and a host longer than 253 chars.
    cases.push(format!("{}.com", "a".repeat(64)));
    cases.push(format!(
        "{}.{}.{}.{}",
        "a".repeat(63),
        "b".repeat(63),
        "c".repeat(63),
        "d".repeat(63)
    ));
    for input in &cases {
        assert!(
            normalize_host_name(input).is_err(),
            "host '{input}' must be rejected"
        );
    }
}

#[test]
fn validates_site_host_addresses() {
    // (site address line, expected valid). The three audit cases — extra
    // port, whitespace, path traversal — must be rejected.
    let cases: &[(&str, bool)] = &[
        // Valid: single-label, multi-label, explicit port, trailing dot,
        // catch-all, uppercase (normalized by the parser).
        ("localhost", true),
        ("localhost:8080", true),
        ("example.com", true),
        ("example.com:443", true),
        ("api.example.com.", true),
        ("sub-domain.example.com", true),
        ("EXAMPLE.COM", true),
        ("a", true),
        (":8080", true),
        // Invalid.
        ("foo bar:8080", false),        // whitespace
        ("foo bar", false),             // whitespace
        ("../../tmp/x:443", false),     // path traversal
        ("foo/bar.com", false),         // slash
        ("foo\\bar.com", false),        // backslash
        ("example.com:8080:90", false), // extra port
        ("example.com:", false),        // empty port
        ("-foo.com", false),            // leading hyphen
        ("foo-.com", false),            // trailing hyphen
        ("foo..com", false),            // empty label
        ("example.com..", false),       // trailing double dot
        (".com", false),                // leading empty label
        ("例え.jp", false),             // non-ASCII
        (":0", false),                  // zero port
        ("foo.com:0", false),           // zero port
        ("foo:bar", false),             // non-numeric port
        ("[::1]:8080", true),           // bracketed IPv6 literal
        ("[::1]", true),                // IPv6 site with the default port
    ];

    for (addr, valid) in cases {
        let input = format!("{addr} {{\n    reverse_proxy 127.0.0.1:9000\n}}\n");
        assert_eq!(
            parse("test", &input).is_ok(),
            *valid,
            "site address '{addr}' expected {}",
            if *valid { "valid" } else { "invalid" }
        );
    }
}

#[test]
fn parser_normalizes_site_host_case_and_dot() {
    // Uppercase + trailing dot collapse through the full parse path.
    let input = "API.Example.COM. {\n    reverse_proxy 127.0.0.1:9000\n}\n";
    let rf = parse("test", input).unwrap();
    assert!(matches!(
        &rf.sites[0].key,
        SiteKey::Named { host, port: 443 } if host == "api.example.com"
    ));
}

#[test]
fn errors_on_unknown_directive() {
    let input = ":8080 {\n    bogus_directive x\n}\n";
    let err = parse("test", input).failure();
    assert!(err.to_string().contains("unknown directive"));
}

#[test]
fn errors_on_unknown_placeholder() {
    let input = ":8080 {\n    header_up X {oops}\n}\n";
    let err = parse("test", input).failure();
    assert!(err.to_string().contains("unknown placeholder"));
}

#[test]
fn errors_report_line_and_column() {
    let input = ":8080 {\n    bogus_directive x\n}\n";
    let err = parse("test", input).failure();
    let text = err.to_string();
    // `bogus_directive` sits at line 2, column 5 (after four spaces).
    assert!(
        text.contains("test:2:5"),
        "expected file:line:col, got: {text}"
    );
    assert!(text.contains("unknown directive"));
}

#[test]
fn matcher_wildcard_stripping() {
    assert_eq!(strip_matcher_wildcard("/static/*"), "/static");
    assert_eq!(strip_matcher_wildcard("/static/"), "/static");
    assert_eq!(strip_matcher_wildcard("/api/*"), "/api");
    assert_eq!(strip_matcher_wildcard("/"), "/");
    assert_eq!(strip_matcher_wildcard("/*"), "/");
}

#[test]
fn parses_trusted_proxies_in_global_block() {
    let input = "{ trusted_proxies 10.0.0.0/8 172.16.0.0/12 127.0.0.1 }\n:80 { redir https://{host}{uri} permanent }\n";
    let rf = parse("test", input).unwrap();
    assert_eq!(rf.global.trusted_proxies.len(), 3);
    assert!(rf.global.trusted_proxies[0].contains(ip("10.1.2.3")));
    assert!(!rf.global.trusted_proxies[0].contains(ip("11.0.0.1")));
    // A bare address is a single host.
    assert!(rf.global.trusted_proxies[2].contains(ip("127.0.0.1")));
    assert!(!rf.global.trusted_proxies[2].contains(ip("127.0.0.2")));
}

#[test]
fn parses_trusted_proxies_in_site_block() {
    let input =
        ":8080 {\n    trusted_proxies 10.0.0.0/8\n    reverse_proxy 127.0.0.1:9000\n}\n";
    let rf = parse("test", input).unwrap();
    match &rf.sites[0].directives[0] {
        Directive::TrustedProxies { networks } => {
            assert_eq!(networks.len(), 1);
            assert!(networks[0].contains(ip("10.9.8.7")));
        }
        other => panic!("expected trusted_proxies, got {other:?}"),
    }
}

#[test]
fn parses_rate_limit_with_burst() {
    let input = ":8080 {\n    rate_limit remote_ip 1200r/m burst=2000\n    reverse_proxy 127.0.0.1:9000\n}\n";
    let rf = parse("test", input).unwrap();
    match &rf.sites[0].directives[0] {
        Directive::RateLimit { spec } => {
            assert_eq!(spec.key, RateLimitKey::RemoteIp);
            assert_eq!(spec.count, 1200);
            assert_eq!(spec.unit, RateUnit::Minute);
            assert_eq!(spec.burst, 2000);
        }
        other => panic!("expected rate_limit, got {other:?}"),
    }
}

#[test]
fn rate_limit_burst_defaults_to_rate() {
    let input = ":8080 {\n    rate_limit remote_ip 3r/s\n}\n";
    let rf = parse("test", input).unwrap();
    match &rf.sites[0].directives[0] {
        Directive::RateLimit { spec } => assert_eq!(spec.burst, spec.count),
        other => panic!("expected rate_limit, got {other:?}"),
    }
}

#[test]
fn rejects_malformed_rate() {
    let err = parse("test", ":8080 {\n    rate_limit remote_ip 50/s\n}\n").failure();
    assert!(err.to_string().contains("invalid rate"));
}

#[test]
fn rejects_zero_burst() {
    let err = parse(
        "test",
        ":8080 {\n    rate_limit remote_ip 50r/s burst=0\n}\n",
    )
    .failure();
    assert!(err.to_string().contains("burst must be >= 1"));
}

#[test]
fn rejects_unknown_rate_limit_key() {
    let err = parse("test", ":8080 {\n    rate_limit path /api 50r/s\n}\n").failure();
    assert!(err.to_string().contains("unknown rate_limit key"));
}

#[test]
fn rejects_rate_limit_in_global_block() {
    let err = parse(
        "test",
        "{ rate_limit remote_ip 1r/s }\n:80 { redir / permanent }\n",
    )
    .failure();
    assert!(err.to_string().contains("unknown global directive"));
}

#[test]
fn rejects_bare_trusted_proxies() {
    let err = parse("test", "{ trusted_proxies }\n:80 { redir / permanent }\n").failure();
    assert!(err
        .to_string()
        .contains("trusted_proxies requires at least one CIDR"));
}

#[test]
fn rejects_invalid_cidr() {
    let err = parse("test", ":8080 {\n    trusted_proxies 10.0.0.0/33\n}\n").failure();
    assert!(err.to_string().contains("CIDR prefix"));
}

#[test]
fn rate_limit_errors_report_line_and_column() {
    let err = parse("test", ":8080 {\n    rate_limit remote_ip bad\n}\n").failure();
    let text = err.to_string();
    assert!(
        text.contains("test:2:5"),
        "expected file:line:col, got: {text}"
    );
}

// -------------------------------------------------------------------
// Fuzz-style robustness: the parser must never panic, only return
// `Ok` or `Err`. A deterministic PRNG keeps failures reproducible.
// -------------------------------------------------------------------

/// A small deterministic PRNG (xorshift64), seeded so failures reproduce.
struct XorShift(u64);

impl XorShift {
    fn next(&mut self) -> u64 {
        let mut x = self.0;
        x ^= x << 13;
        x ^= x >> 7;
        x ^= x << 17;
        self.0 = x;
        x
    }

    fn below(&mut self, n: usize) -> usize {
                (self.next() % n as u64) as usize
    }
}

/// A charset mixing Raddexfile tokens, whitespace, braces, comments, and
/// multi-byte UTF-8 (non-ASCII hosts/values must not panic the lexer).
const FUZZ_CHARS: &[char] = &[
    'a', 'b', 'z', '0', '9', ':', '/', '.', '{', '}', '#', '\n', ' ', '\t', '@', '-', '_', '*',
    '[', ']', '~', '!', '%', '"', '\'', 'é', '例', '中', 'Ａ', '\u{0}', '\x0c', '\x0b',
    '\u{00a0}', '\u{200b}',
];

#[test]
fn random_inputs_never_panic() {
    let mut rng = XorShift(0xdead_beef_cafe_f00d);
    for _ in 0..20_000 {
        let len = rng.below(300);
        let mut input = String::new();
        for _ in 0..len {
            input.push(FUZZ_CHARS[rng.below(FUZZ_CHARS.len())]);
        }
        let _ = parse("fuzz", &input);
    }
}

#[test]
fn mutated_configs_never_panic() {
    let seeds = [
        // A representative full v0.1 config.
        "{ acme_email ops@example.com\nlog_level info }\n:80 {\n    redir https://{host}{uri} permanent\n}\napi.example.com:8080 {\n    handle /static/* {\n        root /var/www\n        file_server\n        encode zstd gzip\n    }\n    reverse_proxy 127.0.0.1:9000\n    header_up X-Real-IP {remote_host}\n}\n",
        ":8080 {\n    reverse_proxy {\n        to 127.0.0.1:9001 127.0.0.1:9002\n    }\n}\n",
        "# only a comment\n:8080 {\n    header_up X-Test {uri}\n    redir /old permanent\n}\n",
        // v0.1.2: trusted_proxies + rate_limit grammar.
        "{ trusted_proxies 10.0.0.0/8 172.16.0.0/12 127.0.0.1 }\n:8080 {\n    rate_limit remote_ip 50r/s burst=100\n    reverse_proxy 127.0.0.1:9000\n}\napi.test:8081 {\n    trusted_proxies 192.168.0.0/16\n    rate_limit remote_ip 3r/d\n    redir /old permanent\n}\n",
    ];
    let mut rng = XorShift(0x0123_4567_89ab_cdef);
    for seed in seeds {
        // Mutate at char granularity (the charset includes multi-byte
        // UTF-8, so byte-indexed mutations would panic on char boundaries).
        let mut chars: Vec<char> = seed.chars().collect();
        for _ in 0..5_000 {
            // Apply 1..=4 random single-char mutations.
            let count = 1 + rng.below(4);
            for _ in 0..count {
                if chars.is_empty() {
                    chars.push(FUZZ_CHARS[rng.below(FUZZ_CHARS.len())]);
                    continue;
                }
                let pos = rng.below(chars.len());
                match rng.below(3) {
                    // Insert a character anywhere (including the end).
                    0 => chars.insert(pos, FUZZ_CHARS[rng.below(FUZZ_CHARS.len())]),
                    // Delete a character.
                    1 => {
                        chars.remove(pos);
                    }
                    // Replace a character.
                    _ => chars[pos] = FUZZ_CHARS[rng.below(FUZZ_CHARS.len())],
                }
            }
            let input: String = chars.iter().collect();
            let _ = parse("fuzz", &input);
        }
    }
}

#[test]
fn valid_prefix_with_garbage_tail_never_panic() {
    let prefix = ":8080 {\n    reverse_proxy 127.0.0.1:9000\n";
    let mut rng = XorShift(0xfeed_face_cafe_beef);
    for _ in 0..5_000 {
        let mut input = prefix.to_string();
        for _ in 0..rng.below(50) {
            input.push(FUZZ_CHARS[rng.below(FUZZ_CHARS.len())]);
        }
        let _ = parse("fuzz", &input);
    }
}

#[test]
fn parses_general_matchers() {
    // `handle <matcher>` accepts matcher terms beyond the bare path, ANDed
    // together.
    let input = "example.com {\n    handle method GET host api.example.com {\n        reverse_proxy 127.0.0.1:9000\n    }\n}\n";
    let rf = parse("test", input).unwrap();
    match &rf.sites[0].directives[0] {
        Directive::Handle {
            matcher,
            directives,
        } => {
            assert_eq!(matcher.len(), 2);
            assert!(matches!(matcher[0], Matcher::Method(ref m) if m == "GET"));
            assert!(matches!(matcher[1], Matcher::Host(ref h) if h == "api.example.com"));
            assert_eq!(directives.len(), 1);
        }
        other => panic!("expected handle, got {other:?}"),
    }
}

#[test]
fn parses_header_query_remote_ip_and_protocol_matchers() {
    let input = "example.com {\n    handle header Content-Type application/json query page 1 remote_ip 10.0.0.0/8 protocol https {\n        reverse_proxy 127.0.0.1:9000\n    }\n}\n";
    let rf = parse("test", input).unwrap();
    match &rf.sites[0].directives[0] {
        Directive::Handle { matcher, .. } => {
            assert!(matches!(
                matcher[0],
                Matcher::Header { ref name, ref value }
                    if name == "Content-Type" && value == "application/json"
            ));
            assert!(matches!(
                matcher[1],
                Matcher::Query { ref key, ref value } if key == "page" && value == "1"
            ));
            assert!(matches!(matcher[2], Matcher::RemoteIp(_)));
            assert!(matches!(matcher[3], Matcher::Protocol(Protocol::Https)));
        }
        other => panic!("expected handle, got {other:?}"),
    }
}

#[test]
fn parses_negated_matcher() {
    let input = "example.com {\n    handle !path /admin/* {\n        reverse_proxy 127.0.0.1:9000\n    }\n}\n";
    let rf = parse("test", input).unwrap();
    match &rf.sites[0].directives[0] {
        Directive::Handle { matcher, .. } => {
            assert!(matches!(
                matcher[0],
                Matcher::Not(ref inner) if matches!(**inner, Matcher::Path(ref p) if p == "/admin")
            ));
        }
        other => panic!("expected handle, got {other:?}"),
    }
}

#[test]
fn reverse_proxy_inline_matcher_is_general() {
    let input =
        ":8080 {\n    reverse_proxy method POST {\n        to 127.0.0.1:9000\n    }\n}\n";
    let rf = parse("test", input).unwrap();
    match &rf.sites[0].directives[0] {
        Directive::ReverseProxy { matcher, to, .. } => {
            assert!(matches!(matcher.as_slice(), [Matcher::Method(ref m)] if m == "POST"));
            assert_eq!(to.len(), 1);
        }
        other => panic!("expected reverse_proxy, got {other:?}"),
    }
}

#[test]
fn parses_handle_path_and_rewrite_and_respond_and_error() {
    let input = "example.com {\n    handle_path /api/* {\n        reverse_proxy 127.0.0.1:9000\n    }\n    rewrite /v1\n    respond 200 ok\n    error 503\n}\n";
    let rf = parse("test", input).unwrap();
    let directives = &rf.sites[0].directives;
    assert!(matches!(directives[0], Directive::HandlePath { .. }));
    assert!(matches!(directives[1], Directive::Rewrite { .. }));
    match &directives[2] {
        Directive::Respond {
            matcher,
            status,
            body,
        } => {
            assert!(matcher.is_empty());
            assert_eq!(*status, 200);
            assert_eq!(body.as_deref(), Some("ok"));
        }
        other => panic!("expected respond, got {other:?}"),
    }
    match &directives[3] {
        Directive::Error { status, .. } => assert_eq!(*status, Some(503)),
        other => panic!("expected error, got {other:?}"),
    }
}

#[test]
fn rejects_matcher_with_missing_arguments() {
    let err = parse(
        "test",
        "example.com {\n    handle method {\n        reverse_proxy 127.0.0.1:9000\n    }\n}\n",
    )
    .failure();
    assert!(err
        .to_string()
        .contains("matcher 'method' is missing arguments"));
}

#[test]
fn parses_basic_auth_and_forward_auth() {
    let input = "example.com {\n    basic_auth admin $2b$12$abcdef\n    forward_auth 127.0.0.1:9999\n    reverse_proxy 127.0.0.1:9000\n}\n";
    let rf = parse("test", input).unwrap();
    let directives = &rf.sites[0].directives;
    match &directives[0] {
        Directive::BasicAuth { user, hash } => {
            assert_eq!(user, "admin");
            assert_eq!(hash, "$2b$12$abcdef");
        }
        other => panic!("expected basic_auth, got {other:?}"),
    }
    assert!(matches!(directives[1], Directive::ForwardAuth { .. }));
    assert!(matches!(directives[2], Directive::ReverseProxy { .. }));
}

#[test]
fn parses_rate_limit_header_key() {
    let input =
        ":8080 {\n    rate_limit header X-API-Key 10r/s\n    reverse_proxy 127.0.0.1:9000\n}\n";
    let rf = parse("test", input).unwrap();
    match &rf.sites[0].directives[0] {
        Directive::RateLimit { spec } => {
            assert_eq!(spec.key, RateLimitKey::Header("X-API-Key".to_string()));
            assert_eq!(spec.count, 10);
        }
        other => panic!("expected rate_limit, got {other:?}"),
    }
}

#[test]
fn snippet_import_is_spliced() {
    // A `(name)` definition is captured and `import name` splices it,
    // including inside a site block.
    let input = "(base) {\n    header_up X-Raddex yes\n}\n:8080 {\n    import base\n    reverse_proxy 127.0.0.1:9000\n}\n";
    let rf = parse("test", input).unwrap();
    assert_eq!(rf.sites.len(), 1);
    let directives = &rf.sites[0].directives;
    assert_eq!(directives.len(), 2);
    assert!(matches!(directives[0], Directive::HeaderUp { .. }));
    assert!(matches!(directives[1], Directive::ReverseProxy { .. }));
}

#[test]
fn file_import_is_spliced() {
    let imported = "/tmp/raddex_import_1.Raddexfile";
    let input = format!(":8080 {{\n    import {imported}\n}}\n");
    // The file has to be read first.
    assert!(matches!(
        parse_with("test", &input, &Sources::none()),
        Err(ParseFailure::NeedsImport { file, target }) if file == "test" && target == imported
    ));
    let mut sources = Sources::none();
    sources.imports.push(ImportedFile {
        file: "test".to_string(),
        target: imported.to_string(),
        outcome: ImportOutcome::Read {
            path: imported.to_string(),
            text: "reverse_proxy 127.0.0.1:9000\n".to_string(),
        },
    });
    let rf = parse_with("test", &input, &sources).unwrap();
    assert_eq!(rf.sites[0].directives.len(), 1);
    assert!(matches!(
        rf.sites[0].directives[0],
        Directive::ReverseProxy { .. }
    ));
}

#[test]
fn missing_import_file_is_an_error() {
    let err = parse(
        "test",
        ":8080 {\n    import /nonexistent/raddex_import_file\n}\n",
    )
    .failure();
    assert!(err.to_string().contains("failed to read imported file"));
}

#[test]
fn parses_global_access_log_directive() {
    let input = "{\n    access_log /tmp/raddex.log format=common\n}\n:8080 {\n    reverse_proxy 127.0.0.1:9000\n}\n";
    let rf = parse("test", input).unwrap();
    assert!(matches!(
        rf.global.access_log,
        Some(AccessLogDirective::File {
            format: AccessLogFormat::Common,
            ..
        })
    ));
    // `access_log off` disables it.
    let input = "{\n    access_log off\n}\n:8080 {\n    reverse_proxy 127.0.0.1:9000\n}\n";
    let rf = parse("test", input).unwrap();
    assert_eq!(rf.global.access_log, Some(AccessLogDirective::Off));
}

#[test]
fn parses_site_access_log_off() {
    let input = ":8080 {\n    access_log off\n    reverse_proxy 127.0.0.1:9000\n}\n";
    let rf = parse("test", input).unwrap();
    assert!(matches!(rf.sites[0].directives[0], Directive::AccessLogOff));
}

#[test]
fn remote_ip_matcher_accepts_multiple_cidrs() {
    let input = ":8080 {\n    handle remote_ip 10.0.0.0/8 192.168.0.0/16 {\n        reverse_proxy 127.0.0.1:9000\n    }\n}\n";
    let rf = parse("test", input).unwrap();
    match &rf.sites[0].directives[0] {
        Directive::Handle { matcher, .. } => {
            assert!(matches!(
                matcher.as_slice(),
                [Matcher::RemoteIp(cidrs)] if cidrs.len() == 2
            ));
        }
        other => panic!("expected handle, got {other:?}"),
    }
}

#[test]
fn respond_accepts_inline_matcher() {
    let input = ":8080 {\n    respond path /health 200 ok\n}\n";
    let rf = parse("test", input).unwrap();
    match &rf.sites[0].directives[0] {
        Directive::Respond {
            matcher,
            status,
            body,
        } => {
            assert_eq!(matcher.len(), 1);
            assert_eq!(*status, 200);
            assert_eq!(body.as_deref(), Some("ok"));
        }
        other => panic!("expected respond, got {other:?}"),
    }
}

#[test]
fn import_cycle_is_detected_via_canonical_path() {
    let a = "/tmp/raddex_cycle_a_1.Raddexfile";
    let b = "/tmp/raddex_cycle_b_1.Raddexfile";
    // Textually different `./` prefixes still canonicalize to the same file,
    // so the cycle must be caught.
    let mut sources = Sources::none();
    sources.imports.push(ImportedFile {
        file: "test".to_string(),
        target: a.to_string(),
        outcome: ImportOutcome::Read {
            path: a.to_string(),
            text: "import ./raddex_cycle_b_1.Raddexfile\n".to_string(),
        },
    });
    sources.imports.push(ImportedFile {
        file: a.to_string(),
        target: "./raddex_cycle_b_1.Raddexfile".to_string(),
        outcome: ImportOutcome::Read {
            path: b.to_string(),
            text: "import ././raddex_cycle_a_1.Raddexfile\n".to_string(),
        },
    });
    sources.imports.push(ImportedFile {
        file: b.to_string(),
        target: "././raddex_cycle_a_1.Raddexfile".to_string(),
        outcome: ImportOutcome::Read {
            path: a.to_string(),
            text: "import ./raddex_cycle_b_1.Raddexfile\n".to_string(),
        },
    });
    let input = format!(":8080 {{\n    import {a}\n}}\n");
    let err = parse_with("test", &input, &sources).failure();
    assert!(err.contains("import cycle"), "err: {err}");
}

#[test]
fn fragments_are_joined_by_characters() {
    let sources = with_env(&[("RADDEX_TEST_NAME", "x")]);
    let value = |line: &str| {
        let rf = parse_with("test", &format!(":80 {{\n    {line}\n}}\n"), &sources).unwrap();
        match &rf.sites[0].directives[0] {
            Directive::BasicAuth { user, hash } => (user.clone(), hash.clone()),
            other => panic!("expected basic_auth, got {other:?}"),
        }
    };
    assert_eq!(
        value("basic_auth caf\u{e9}{$RADDEX_TEST_NAME} h"),
        ("caf\u{e9}x".to_string(), "h".to_string())
    );
    assert_eq!(
        value("basic_auth \u{e9} {$RADDEX_TEST_NAME}"),
        ("\u{e9}".to_string(), "x".to_string())
    );
}
