use raddex::config::ast::{
    merge_tls, wildcard_match_specificity, DnsChallenge, DnsCredentials, ListenAddress,
    TemplatePart, TlsConfig, TlsSource, TlsVersion, ValueTemplate, Variable,
};
use raddex::config::compiled::CompiledConfig;
use raddex::config::dns::{keywords, lookup};
use raddex::config::expand::{expand_env_tokens, Sources};
use raddex::config::joining::can_stand_alone;
use raddex::config::lexer::{lex, TokenKind};
use raddex::config::parser::parse;
use raddex::config::snapshot::keeps_listeners;
use raddex::config::validate::{binds_overlap, validate_and_compile};
use raddex::config::values::{normalize_host_name, parse_site_key, strip_matcher_wildcard};
use raddex::layer4::hash::handoff_key;
use raddex::net::SocketAddr;

fn compile(input: &str) -> CompiledConfig {
    match validate_and_compile("test", &parse("test", input).unwrap()) {
        Ok(c) => c,
        Err(e) => panic!("{}", e.describe()),
    }
}

#[test]
fn sites_and_ports_follow_the_file() {
    let c = compile(
        "b.example.com:8443 {\n    reverse_proxy 127.0.0.1:1\n}\n\
         a.example.com:8080 {\n    reverse_proxy 127.0.0.1:2\n}\n\
         :8080 {\n    reverse_proxy 127.0.0.1:3\n}\n",
    );
    let ports: Vec<u16> = c.sites.iter().map(|s| s.key.port()).collect();
    assert_eq!(ports, [8443, 8080, 8080]);
    let topology: Vec<u16> = c.listeners().into_iter().collect();
    assert_eq!(topology, [8080, 8443]);
}

#[test]
fn words_hold_no_white_space() {
    let tokens = lex("a  b\tc # d e\n{ f }\n\u{3000}g\u{a0}h").unwrap();
    let words: Vec<&str> = tokens
        .iter()
        .filter_map(|t| match &t.kind {
            TokenKind::Word(w) => Some(w.as_str()),
            _ => None,
        })
        .collect();
    assert_eq!(words, ["a", "b", "c", "f", "g", "h"]);
}

#[test]
fn a_template_writes_its_source_back() {
    let raw = "https://{host}/x{uri}{remote_host}!";
    let template = ValueTemplate::parse(raw).unwrap();
    let mut written = String::new();
    for part in template.parts() {
        written.push_str(match part {
            TemplatePart::Literal(text) => text.as_str(),
            TemplatePart::Var(Variable::Host) => "{host}",
            TemplatePart::Var(Variable::Uri) => "{uri}",
            TemplatePart::Var(Variable::RemoteHost) => "{remote_host}",
        });
    }
    assert_eq!(template.parts().len(), 6);
    assert_eq!(written, raw);
}

#[test]
fn secrets_stay_out_of_messages() {
    let shown = |secret: &str| {
        let challenge = DnsChallenge {
            provider: lookup("cloudflare").unwrap(),
            credentials: DnsCredentials::from_pairs(vec![(
                "api_token".to_string(),
                secret.to_string(),
            )]),
        };
        challenge.describe()
    };
    assert_eq!(shown("abc123"), "dns_challenge cloudflare { api_token }");
    assert_eq!(shown("abc123"), shown("zzz"));
    assert_eq!(keywords(), "cloudflare");
    assert!(lookup("route53").is_none());
}

#[test]
fn a_wildcard_takes_one_label_and_not_the_apex() {
    assert_eq!(
        wildcard_match_specificity("*.example.com", "a.example.com"),
        Some(11)
    );
    assert_eq!(wildcard_match_specificity("*.example.com", "example.com"), None);
    assert_eq!(
        wildcard_match_specificity("*.example.com", "a.b.example.com"),
        None
    );
    assert_eq!(wildcard_match_specificity("a.example.com", "a.example.com"), None);
}

#[test]
fn the_last_tls_line_wins() {
    let line = |source: TlsSource, min: Option<TlsVersion>, ciphers: Option<&str>| {
        let mut config = TlsConfig::default();
        config.source = source;
        config.min_version = min;
        config.ciphers = ciphers.map(String::from);
        config
    };
    let mut merged = None;
    merge_tls(
        &mut merged,
        &line(TlsSource::Internal, Some(TlsVersion::Tls12), Some("A")),
    );
    merge_tls(&mut merged, &line(TlsSource::Acme, Some(TlsVersion::Tls13), None));
    let wanted = line(TlsSource::Internal, Some(TlsVersion::Tls13), Some("A"));
    assert_eq!(merged, Some(wanted));
    // The same line again changes nothing.
    merge_tls(&mut merged, &line(TlsSource::Acme, Some(TlsVersion::Tls13), None));
    let wanted = line(TlsSource::Internal, Some(TlsVersion::Tls13), Some("A"));
    assert_eq!(merged, Some(wanted));
}

#[test]
fn overlap_goes_both_ways() {
    let bind = |a: u8, port: u16| ListenAddress::Socket(SocketAddr::v4(a, 0, 0, 0, port));
    for (one, other, overlap) in [
        (bind(0, 80), bind(10, 80), true),
        (bind(10, 80), bind(10, 80), true),
        (bind(10, 80), bind(11, 80), false),
        (bind(0, 80), bind(10, 81), false),
    ] {
        assert_eq!(binds_overlap(&one, &other), overlap);
        assert_eq!(binds_overlap(&other, &one), overlap);
    }
}

#[test]
fn matchers_with_a_wildcard_or_a_slash_are_one() {
    for path in ["/static", "/static/", "/static/*"] {
        assert_eq!(strip_matcher_wildcard(path), "/static");
    }
    assert_eq!(strip_matcher_wildcard("/*"), "/");
}

#[test]
fn normal_host_names_stay_as_they_are() {
    let once = normalize_host_name("*.Example.COM.").unwrap();
    assert_eq!(once, "*.example.com");
    assert_eq!(normalize_host_name(&once).unwrap(), once);
}

#[test]
fn the_environment_never_adds_a_token() {
    let tokens = lex("site {$NAME} {\n    log\n}\n").unwrap();
    let env = |value: &str| vec![("NAME".to_string(), value.to_string())];
    let plain = expand_env_tokens(&env("x"), &tokens).unwrap();
    let nasty = expand_env_tokens(&env("x } y {\n z"), &tokens).unwrap();
    assert_eq!(plain.len(), nasty.len());
    assert!(plain[1].kind == TokenKind::Word("x".to_string()));
    assert!(nasty[1].kind == TokenKind::Word("x } y {\n z".to_string()));
    for (i, (a, b)) in plain.iter().zip(nasty.iter()).enumerate() {
        assert!(i == 1 || a.kind == b.kind);
    }
}

#[test]
fn handoff_keys_can_stand_in_a_file_name() {
    for listener in ["0.0.0.0:53", "[::1]:5353", "", "\u{e9}"] {
        let key = handoff_key(listener);
        assert_eq!(key.len(), 16);
        assert!(key.chars().all(|c| c.is_ascii_digit() || ('a'..='f').contains(&c)));
    }
}

#[test]
fn modifiers_apply_wherever_they_stand() {
    let one = compile(
        ":80 {\n    header_down A 1\n    handle /x {\n        reverse_proxy 127.0.0.1:1\n    }\n    encode gzip\n    reverse_proxy 127.0.0.1:2\n}\n",
    );
    let other = compile(
        ":80 {\n    handle /x {\n        reverse_proxy 127.0.0.1:1\n    }\n    reverse_proxy 127.0.0.1:2\n    header_down A 1\n    encode gzip\n}\n",
    );
    assert!(one.sites == other.sites);
    assert_eq!(one.sites[0].modifiers.len(), 2);
}

#[test]
fn a_file_means_the_same_under_every_name() {
    let text = "(s) {\n    root /x\n}\n:80 {\n    import s\n    file_server\n}\n";
    assert!(parse("a", text).unwrap() == parse("/b/c", text).unwrap());
}

#[test]
fn a_reload_keeps_what_is_bound() {
    let text = |port: u16, listen: &str| {
        format!(
            ":{port} {{\n    root /x\n    file_server\n}}\ntcp {listen} {{\n    to 127.0.0.1:1\n}}\n"
        )
    };
    let current = compile(&text(80, "127.0.0.1:9000"));
    assert!(keeps_listeners(&current, &compile(&text(80, "127.0.0.1:9000"))));
    assert!(!keeps_listeners(&current, &compile(&text(81, "127.0.0.1:9000"))));
    assert!(!keeps_listeners(&current, &compile(&text(80, "127.0.0.1:9001"))));
}

#[test]
fn the_shorthand_of_a_challenge_is_the_block_form() {
    let short = parse("f", "{ dns_challenge cloudflare t0ken }\n").unwrap();
    let block = parse(
        "f",
        "{\n    dns_challenge cloudflare {\n        api_token t0ken\n    }\n}\n",
    )
    .unwrap();
    assert!(short == block);
    let challenge = short.global.dns_challenge.unwrap();
    assert_eq!(challenge.provider.keyword, "cloudflare");
    assert_eq!(challenge.credentials.get("api_token"), Some("t0ken"));
}

#[test]
fn an_import_is_the_text_of_its_snippet() {
    for body in [
        "",
        "    root /x\n    file_server\n",
        "    handle /a {\n        reverse_proxy {\n            to 127.0.0.1:1\n        }\n    }\n",
        "    header_up X import\n    header_up import x\n",
        "    nothing known\n",
        "    handle /a\n",
    ] {
        let imported = parse("f", &format!("(s) {{\n{body}}}\n:8080 {{\n    import s\n}}\n"));
        let in_place = parse("f", &format!(":8080 {{\n{body}}}\n"));
        match (imported, in_place) {
            (Ok(a), Ok(b)) => assert!(a == b, "{body}"),
            (a, b) => assert!(a.is_err() && b.is_err(), "{body}"),
        }
    }
}

#[test]
fn files_one_after_the_other_are_one_file() {
    let a = "a.test {\n    root /x\n    file_server\n}\n";
    let b = "b.test {\n    root /x\n}\ntcp :9000 {\n    to 127.0.0.1:1\n}\n";
    assert!(can_stand_alone(&Sources::none(), "f", a));
    assert!(can_stand_alone(&Sources::none(), "f", b));
    let (x, y) = (parse("f", a).unwrap(), parse("f", b).unwrap());
    let both = format!("{a}{b}");
    assert!(can_stand_alone(&Sources::none(), "f", &both));
    let z = parse("f", &both).unwrap();
    assert_eq!(z.sites.len(), 2);
    assert!(z.sites[0] == x.sites[0]);
    assert!(z.sites[1] == y.sites[0]);
    assert!(z.layer4 == y.layer4);
}

#[test]
fn what_cannot_stand_beside_other_files() {
    for text in [
        "",
        "a.test {\n    root /x\n}",
        "{ dns_challenge cloudflare t }\n",
        "\n{ dns_challenge cloudflare t }\n",
        "a.test {\n    root /x\n}\n{\n",
        "a.test {\n    nothing known\n}\n",
        "a.test {\n    root {$NOT_SET}\n}\n",
    ] {
        assert!(!can_stand_alone(&Sources::none(), "f", text), "{text}");
    }
}

#[test]
fn a_snippet_can_stand_beside_other_files() {
    let snippet = "(s) {\n    root /x\n}\n";
    let site = "a.test {\n    import s\n    file_server\n}\n";
    assert!(can_stand_alone(&Sources::none(), "f", snippet));
    assert!(!can_stand_alone(&Sources::none(), "f", site));
    let both = format!("{snippet}{site}");
    assert!(can_stand_alone(&Sources::none(), "f", &both));
    assert_eq!(parse("f", &both).unwrap().sites.len(), 1);
}

#[test]
fn the_environment_decides_what_can_stand_alone() {
    let text = "{$HOST} {\n    root {$DIR}\n}\n";
    let sources = Sources {
        env: vec![
            ("HOST".to_string(), "a.test".to_string()),
            ("DIR".to_string(), "/x".to_string()),
        ],
        imports: Vec::new(),
    };
    assert!(can_stand_alone(&sources, "f", text));
    assert!(!can_stand_alone(&Sources::none(), "f", text));
}

#[test]
fn site_keys_read_back() {
    for (addr, text) in [
        (":8080", ":8080"),
        (":+80", ":80"),
        ("Example.COM.", "example.com:443"),
        ("*.Example.com:080", "*.example.com:80"),
        ("[0:0::1]", "[::1]:443"),
        ("[::FFFF:10.0.0.1]:8443", "[::ffff:10.0.0.1]:8443"),
    ] {
        let key = parse_site_key(addr).unwrap();
        assert_eq!(key.describe(), text);
        assert!(key.port() >= 1);
        assert!(parse_site_key(&key.describe()).unwrap().equals(&key));
    }
}
