use raddex::config::answers::Answers;
use raddex::config::ast::ValueTemplate;
use raddex::config::expand::Sources;
use raddex::config::parser::parse;
use raddex::config::snapshot::BuildFailure;
use raddex::migrate::{
    caddy, check_emitted, import, nginx, parse_stmts, Converted, ImportFormat,
};

fn check(converted: &Converted) -> Result<(), String> {
    match check_emitted("test", converted, &Sources::none(), &Answers::none()) {
        Ok(()) => Ok(()),
        Err(BuildFailure::Config(e)) => Err(e.describe()),
        Err(BuildFailure::NeedsHost { host, .. }) => Err(format!("host {host}")),
        Err(_) => panic!("no file is named"),
    }
}



#[test]
fn parses_nested_statements_and_semicolons() {
    let input = "\
server {
    listen 80;
    server_name example.com;
    location / {
        proxy_pass http://127.0.0.1:8080;
    }
}
example.com {
    reverse_proxy 127.0.0.1:8080
}
";
    let lines: Vec<String> = input.lines().map(String::from).collect();
    let stmts = parse_stmts(&lines).unwrap();
    assert_eq!(stmts.len(), 2);
    let server = &stmts[0];
    assert_eq!(server.words[0], "server");
    assert_eq!(server.block.len(), 3);
    let location = &server.block[2];
    assert_eq!(location.words, ["location", "/"]);
    assert_eq!(
        location.block[0].words,
        ["proxy_pass", "http://127.0.0.1:8080"]
    );
    // The Caddy-style site is also a top-level block.
    let site = &stmts[1];
    assert_eq!(site.words, ["example.com"]);
    assert_eq!(site.block[0].words, ["reverse_proxy", "127.0.0.1:8080"]);
}

#[test]
fn rejects_unclosed_block() {
    let lines: Vec<String> = "server {\n    listen 80;\n".lines().map(String::from).collect();
    let err = match parse_stmts(&lines) {
        Ok(_) => panic!("an unclosed block"),
        Err(e) => e,
    };
    assert!(err.contains("unclosed"));
}

#[test]
fn strips_comments_and_blank_lines() {
    let input = "# comment\n\nserver {\n    # inner\n    listen 80;\n}\n";
    let lines: Vec<String> = input.lines().map(String::from).collect();
    let stmts = parse_stmts(&lines).unwrap();
    assert_eq!(stmts.len(), 1);
    assert_eq!(stmts[0].block.len(), 1);
}

#[test]
fn converts_simple_reverse_proxy() {
    let c = caddy::convert("example.com {\n    reverse_proxy 127.0.0.1:8080\n}\n").unwrap();
    assert_eq!(
        c.raddyfile,
        "example.com {\n    reverse_proxy 127.0.0.1:8080\n}\n"
    );
    assert!(
        c.warnings.is_empty(),
        "unexpected warnings: {:?}",
        c.warnings
    );
}

#[test]
fn http_scheme_becomes_explicit_port_80() {
    let c = caddy::convert("http://example.com {\n    reverse_proxy 127.0.0.1:8080\n}\n").unwrap();
    assert_eq!(
        c.raddyfile,
        "example.com:80 {\n    reverse_proxy 127.0.0.1:8080\n}\n"
    );
}

#[test]
fn redir_without_code_defaults_to_temporary() {
    let c = caddy::convert(":80 {\n    redir https://{host}{uri}\n}\n").unwrap();
    assert_eq!(
        c.raddyfile,
        ":80 {\n    redir https://{host}{uri} temporary\n}\n"
    );
}

#[test]
fn multiple_targets_use_to_block() {
    let c =
        caddy::convert("example.com {\n    reverse_proxy 127.0.0.1:8080 127.0.0.1:8081\n}\n").unwrap();
    assert_eq!(
        c.raddyfile,
        "example.com {\n    reverse_proxy {\n        to 127.0.0.1:8080 127.0.0.1:8081\n    }\n}\n"
    );
}

#[test]
fn handle_and_inline_matcher_map_directly() {
    let input = "example.com {\n    handle /static/* {\n        root /var/www/static\n        file_server\n    }\n    reverse_proxy /api/* 127.0.0.1:9000\n}\n";
    let c = caddy::convert(input).unwrap();
    assert_eq!(
        c.raddyfile,
        "example.com {\n    handle /static/* {\n        root /var/www/static\n        file_server\n    }\n    reverse_proxy /api/* 127.0.0.1:9000\n}\n"
    );
}

#[test]
fn root_star_matcher_is_dropped() {
    let c = caddy::convert("example.com {\n    root * /var/www/html\n    file_server\n}\n").unwrap();
    assert_eq!(
        c.raddyfile,
        "example.com {\n    root /var/www/html\n    file_server\n}\n"
    );
}

#[test]
fn caddy_placeholders_map_to_raddy() {
    let input = "example.com {\n    header_up X-Real-IP {http.request.remote}\n    reverse_proxy 127.0.0.1:8080\n}\n";
    let c = caddy::convert(input).unwrap();
    assert!(c.raddyfile.contains("header_up X-Real-IP {remote_host}"));
    assert!(c.warnings.is_empty());
}

#[test]
fn tls_directive_warns_and_is_skipped() {
    let c = caddy::convert("example.com {\n    tls internal\n    reverse_proxy 127.0.0.1:8080\n}\n")
        .unwrap();
    assert!(c.raddyfile.contains("reverse_proxy"));
    assert!(!c.raddyfile.contains("tls"));
    assert!(c
        .warnings
        .iter()
        .any(|w| w.contains("tls directive skipped")));
}

#[test]
fn unsupported_directive_warns_and_is_skipped() {
    let c =
        caddy::convert("example.com {\n    reverse_proxy 127.0.0.1:8080\n    websocket\n}\n").unwrap();
    assert_eq!(
        c.raddyfile,
        "example.com {\n    reverse_proxy 127.0.0.1:8080\n}\n"
    );
    assert!(c
        .warnings
        .iter()
        .any(|w| w.contains("unsupported directive 'websocket'")));
}

#[test]
fn global_options_block_warns() {
    let input =
        "{\n    email ops@example.com\n}\nexample.com {\n    reverse_proxy 127.0.0.1:8080\n}\n";
    let c = caddy::convert(input).unwrap();
    assert!(c.raddyfile.contains("example.com"));
    assert!(c
        .warnings
        .iter()
        .any(|w| w.contains("global options block")));
}

#[test]
fn site_with_nothing_convertible_is_skipped() {
    let c = caddy::convert("example.com {\n    websocket /path\n}\n").unwrap();
    assert!(c.raddyfile.trim().is_empty());
    assert!(!c.warnings.is_empty());
}

#[test]
fn caddy_https_upstream_is_skipped_with_warning() {
    let c = caddy::convert("example.com {\n    reverse_proxy https://127.0.0.1:8443\n}\n").unwrap();
    assert!(c.raddyfile.trim().is_empty());
    assert!(c.warnings.iter().any(|w| w.contains("https upstream")));
}

#[test]
fn unsupported_placeholder_warns() {
    let c = caddy::convert("example.com {\n    header_up X {http.request.foo}\n    reverse_proxy 127.0.0.1:8080\n}\n").unwrap();
    assert!(c
        .warnings
        .iter()
        .any(|w| w.contains("unsupported placeholder")));
}

#[test]
fn location_slash_proxy_pass() {
    let input = "server {\n    listen 80;\n    server_name example.com;\n    location / {\n        proxy_pass http://127.0.0.1:8080;\n    }\n}\n";
    let c = nginx::convert(input).unwrap();
    assert_eq!(
        c.raddyfile,
        "example.com:80 {\n    reverse_proxy 127.0.0.1:8080\n}\n"
    );
    assert!(
        c.warnings.is_empty(),
        "unexpected warnings: {:?}",
        c.warnings
    );
}

#[test]
fn static_server_serves_file_server() {
    let input =
        "server {\n    listen 80;\n    server_name example.com;\n    root /var/www/html;\n}\n";
    let c = nginx::convert(input).unwrap();
    assert_eq!(
        c.raddyfile,
        "example.com:80 {\n    root /var/www/html\n    file_server\n}\n"
    );
}

#[test]
fn location_slash_with_only_location_root_emits_root() {
    // A `location /` root with no server-level root must still emit the
    // `root` line the `file_server` requires.
    let input = "server {\n    listen 80;\n    server_name example.com;\n    location / {\n        root /var/www/html;\n    }\n}\n";
    let c = nginx::convert(input).unwrap();
    assert_eq!(
        c.raddyfile,
        "example.com:80 {\n    root /var/www/html\n    file_server\n}\n"
    );
}

#[test]
fn location_prefix_proxy_plus_static_default() {
    let input = "server {\n    listen 443 ssl;\n    server_name example.com;\n    root /var/www/html;\n    location /api/ {\n        proxy_pass http://127.0.0.1:8080;\n    }\n}\n";
    let c = nginx::convert(input).unwrap();
    assert_eq!(
        c.raddyfile,
        "example.com:443 {\n    root /var/www/html\n    handle /api/ {\n        reverse_proxy 127.0.0.1:8080\n    }\n    file_server\n}\n"
    );
}

#[test]
fn return_redirect_maps_variables() {
    let input = "server {\n    listen 80;\n    server_name example.com;\n    location / {\n        return 301 https://$host$request_uri;\n    }\n}\n";
    let c = nginx::convert(input).unwrap();
    assert_eq!(
        c.raddyfile,
        "example.com:80 {\n    redir https://{host}{uri} 301\n}\n"
    );
}

#[test]
fn add_header_maps_to_header_down() {
    let input = "server {\n    listen 80;\n    server_name example.com;\n    add_header X-A raddy;\n    location / {\n        proxy_pass http://127.0.0.1:8080;\n    }\n}\n";
    let c = nginx::convert(input).unwrap();
    assert_eq!(
        c.raddyfile,
        "example.com:80 {\n    header_down X-A raddy\n    reverse_proxy 127.0.0.1:8080\n}\n"
    );
}

#[test]
fn catch_all_without_server_name() {
    let input = "server {\n    listen 8080;\n    location / {\n        proxy_pass http://127.0.0.1:9000;\n    }\n}\n";
    let c = nginx::convert(input).unwrap();
    assert_eq!(
        c.raddyfile,
        ":8080 {\n    reverse_proxy 127.0.0.1:9000\n}\n"
    );
}

#[test]
fn multiple_server_blocks_become_multiple_sites() {
    let input = "server {\n    listen 80;\n    server_name a.test;\n    location / {\n        proxy_pass http://127.0.0.1:9001;\n    }\n}\nserver {\n    listen 80;\n    server_name b.test;\n    location / {\n        proxy_pass http://127.0.0.1:9002;\n    }\n}\n";
    let c = nginx::convert(input).unwrap();
    assert_eq!(
        c.raddyfile,
        "a.test:80 {\n    reverse_proxy 127.0.0.1:9001\n}\nb.test:80 {\n    reverse_proxy 127.0.0.1:9002\n}\n"
    );
}

#[test]
fn wildcard_server_name_is_approximated() {
    let input = "server {\n    listen 80;\n    server_name *.example.com;\n    location / {\n        proxy_pass http://127.0.0.1:8080;\n    }\n}\n";
    let c = nginx::convert(input).unwrap();
    assert!(c.raddyfile.starts_with("example.com:80 {"));
    assert!(c
        .warnings
        .iter()
        .any(|w| w.contains("wildcard server_name")));
}

#[test]
fn nginx_https_upstream_is_skipped_with_warning() {
    let input = "server {\n    listen 80;\n    server_name example.com;\n    location / {\n        proxy_pass https://127.0.0.1:8443;\n    }\n}\n";
    let c = nginx::convert(input).unwrap();
    assert!(c.raddyfile.trim().is_empty());
    assert!(c.warnings.iter().any(|w| w.contains("https proxy_pass")));
}

#[test]
fn unsupported_directives_warn() {
    let input = "server {\n    listen 80;\n    server_name example.com;\n    client_max_body_size 10m;\n    location / {\n        proxy_pass http://127.0.0.1:8080;\n    }\n}\n";
    let c = nginx::convert(input).unwrap();
    assert!(c.raddyfile.contains("reverse_proxy"));
    assert!(c
        .warnings
        .iter()
        .any(|w| w.contains("unsupported directive 'client_max_body_size'")));
}

#[test]
fn exact_match_location_is_skipped() {
    let input = "server {\n    listen 80;\n    server_name example.com;\n    location = /health {\n        proxy_pass http://127.0.0.1:8080;\n    }\n}\n";
    let c = nginx::convert(input).unwrap();
    assert!(c.raddyfile.trim().is_empty());
    assert!(c
        .warnings
        .iter()
        .any(|w| w.contains("exact-match location")));
}

#[test]
fn what_is_converted_is_a_valid_configuration() {
    for source in [
        "example.com {\n    reverse_proxy 127.0.0.1:8080\n}\n",
        "http://example.com {\n    reverse_proxy 127.0.0.1:8080 127.0.0.1:8081\n}\n",
        ":80 {\n    redir https://{host}{uri}\n}\n",
        "example.com {\n    handle /static/* {\n        root * /var/www\n        file_server\n    }\n    reverse_proxy /api/* 127.0.0.1:9000\n}\n",
        "example.com {\n    encode gzip\n    header_up X {http.request.remote}\n    reverse_proxy {\n        to 127.0.0.1:1\n        load_balancing policy ip_hash\n    }\n}\n",
    ] {
        let c = caddy::convert(source).unwrap();
        assert!(!c.raddyfile.is_empty());
        assert_eq!(check(&c), Ok(()), "{source}");
    }
    let source = "server {\n    listen 443 ssl;\n    server_name example.com;\n    root /var/www/html;\n    location /api/ {\n        proxy_pass http://127.0.0.1:8080;\n    }\n}\n";
    let c = nginx::convert(source).unwrap();
    assert!(!c.raddyfile.is_empty());
    assert_eq!(check(&c), Ok(()));
}

#[test]
fn what_does_not_build_is_not_handed_out() {
    let c = caddy::convert("example.com {\n    reverse_proxy backend:1\n}\n").unwrap();
    assert_eq!(check(&c), Err("host backend".to_string()));
    let c = caddy::convert("").unwrap();
    assert!(c.raddyfile.is_empty());
    assert_eq!(check(&c), Ok(()));
}

#[test]
fn what_is_converted_parses() {
    for source in [
        "example.com {\n    encode lzma gzip\n    reverse_proxy 127.0.0.1:1\n}\n",
        "example.com {\n    reverse_proxy 127.0.0.1:99999\n}\n",
        "example.com:none {\n    reverse_proxy 127.0.0.1:1\n}\n",
        "example.com {\n    redir a b c d\n}\n",
        "tcp {\n    root /x\n}\n",
        "import {\n    root /x\n}\n(s) {\n    root /x\n}\n",
    ] {
        let c = caddy::convert(source).unwrap();
        assert!(c.raddyfile.is_empty() || parse("f", &c.raddyfile).is_ok(), "{source}");
        assert!(!c.raddyfile.is_empty() || !c.warnings.is_empty(), "{source}");
    }
    let c = nginx::convert("server {\n    listen 80;\n    return 301 /{nope};\n}\n").unwrap();
    assert!(c.raddyfile.is_empty());
    assert_eq!(
        c.warnings,
        ["nginx:1: server ':80' did not convert to a valid site; skipped"]
    );
}

#[test]
fn unknown_algorithms_are_warned_of() {
    let c = caddy::convert("a.test {\n    encode lzma gzip\n    reverse_proxy 127.0.0.1:1\n}\n").unwrap();
    assert_eq!(
        c.raddyfile,
        "a.test {\n    encode gzip\n    reverse_proxy 127.0.0.1:1\n}\n"
    );
    assert_eq!(
        c.warnings,
        ["caddyfile:2: unsupported encode algorithm 'lzma'; skipped"]
    );
}

#[test]
fn comments_behind_a_statement_are_skipped() {
    let lines: Vec<String> = ["listen 80; # http", "server { # first", "} # end"]
        .iter()
        .map(|s| s.to_string())
        .collect();
    let stmts = parse_stmts(&lines).unwrap();
    assert_eq!(stmts.len(), 2);
    assert_eq!(stmts[0].line, 1);
    assert_eq!(stmts[0].words, ["listen", "80"]);
    assert!(stmts[0].block.is_empty());
    assert_eq!(stmts[1].words, ["server"]);
}

#[test]
fn other_addresses_of_a_site_are_warned_of() {
    let c = caddy::convert("a.test, b.test, c.test {\n    reverse_proxy 127.0.0.1:80\n}\n").unwrap();
    assert_eq!(c.raddyfile, "a.test {\n    reverse_proxy 127.0.0.1:80\n}\n");
    assert_eq!(
        c.warnings,
        [
            "caddyfile:1: site address 'b.test' left out; only the first is converted",
            "caddyfile:1: site address 'c.test' left out; only the first is converted",
        ]
    );
}

#[test]
fn a_proxy_without_a_usable_target_is_left_out() {
    let c = caddy::convert(
        "a.test {\n    root /x\n    file_server\n    reverse_proxy {\n        to https://b:1\n        to\n    }\n}\n",
    )
    .unwrap();
    assert_eq!(c.raddyfile, "a.test {\n    root /x\n    file_server\n}\n");
    assert_eq!(c.warnings.len(), 3);
    assert_eq!(
        c.warnings[2],
        "caddyfile:4: reverse_proxy has no usable upstream target; skipped"
    );
}

#[test]
fn targets_on_the_line_of_a_proxy_with_a_block_are_kept() {
    let c = caddy::convert(
        "a.test {\n    reverse_proxy 127.0.0.1:1 {\n        load_balancing policy ip_hash\n    }\n}\n",
    )
    .unwrap();
    assert_eq!(
        c.raddyfile,
        "a.test {\n    reverse_proxy {\n        to 127.0.0.1:1\n        lb_policy ip_hash\n    }\n}\n"
    );
    assert!(c.warnings.is_empty());
}

#[test]
fn ipv6_upstreams_are_refused_behind_a_scheme_too() {
    for target in ["[::1]:80", "http://[::1]:80"] {
        let c = caddy::convert(&format!("a.test {{\n    reverse_proxy {target}\n}}\n")).unwrap();
        assert!(c.raddyfile.is_empty());
        assert_eq!(
            c.warnings[0],
            format!("caddyfile:2: IPv6 upstream '{target}' is not supported")
        );
    }
}

#[test]
fn what_is_dropped_from_a_directive_is_warned_of() {
    let c = caddy::convert(
        "a.test {\n    root /x {\n        y\n    }\n    file_server browse\n    reverse_proxy /p http://127.0.0.1:1/q\n}\n",
    )
    .unwrap();
    assert_eq!(
        c.warnings,
        [
            "caddyfile:2: block of 'root' dropped",
            "caddyfile:5: arguments of file_server dropped",
            "caddyfile:6: upstream path '/q' dropped",
        ]
    );
}

#[test]
fn repeated_nginx_directives_are_warned_of() {
    let c = nginx::convert(
        "server {\n    listen 80;\n    listen 81;\n    server_name a.test;\n    server_name b.test;\n    root /x;\n    root /y;\n    proxy_pass;\n}\n",
    )
    .unwrap();
    assert_eq!(c.raddyfile, "b.test:81 {\n    root /y\n    file_server\n}\n");
    assert_eq!(
        c.warnings,
        [
            "nginx:3: repeated 'listen'; the last one is used",
            "nginx:5: repeated 'server_name'; the last one is used",
            "nginx:7: repeated 'root'; the last one is used",
            "nginx:8: proxy_pass requires a target; skipped",
        ]
    );
}

#[test]
fn overridden_directives_of_a_location_are_warned_of() {
    let c = nginx::convert(
        "server {\n    location / {\n        proxy_pass http://127.0.0.1:1;\n        return 301 /x;\n        root /y;\n    }\n}\n",
    )
    .unwrap();
    assert_eq!(c.raddyfile, ":80 {\n    reverse_proxy 127.0.0.1:1\n}\n");
    assert_eq!(
        c.warnings,
        [
            "nginx:2: return beside proxy_pass is not supported; dropped",
            "nginx:2: root beside proxy_pass or return is not supported; dropped",
        ]
    );
}

#[test]
fn mapped_values_map_to_themselves() {
    let source = |value: &str| format!(":80 {{\n    redir {value} 301\n}}\n");
    let once = caddy::convert(&source("https://{http.request.host}/x{http.request.uri}")).unwrap();
    let again = caddy::convert(&once.raddyfile).unwrap();
    assert_eq!(once.raddyfile, source("https://{host}/x{uri}"));
    assert_eq!(again.raddyfile, once.raddyfile);
}

#[test]
fn joined_sources_convert_to_joined_files() {
    let (a, b) = (
        "a.test {\n    reverse_proxy 127.0.0.1:1\n    tls internal\n}\n",
        "b.test {\n    reverse_proxy 127.0.0.1:2\n}\nfoo\n",
    );
    let (ca, cb) = (caddy::convert(a).unwrap(), caddy::convert(b).unwrap());
    let c = caddy::convert(&format!("{a}{b}")).unwrap();
    assert_eq!(c.raddyfile, format!("{}{}", ca.raddyfile, cb.raddyfile));
    assert_eq!(c.warnings.len(), ca.warnings.len() + cb.warnings.len());
    let (a, b) = (
        "server {\n    listen 80;\n    root /x;\n    gzip on;\n}\n",
        "server {\n    listen 81;\n    root /y;\n}\n",
    );
    let (ca, cb) = (nginx::convert(a).unwrap(), nginx::convert(b).unwrap());
    let c = nginx::convert(&format!("{a}{b}")).unwrap();
    assert_eq!(c.raddyfile, format!("{}{}", ca.raddyfile, cb.raddyfile));
    assert_eq!(c.warnings.len(), ca.warnings.len() + cb.warnings.len());
}

#[test]
fn sources_can_be_converted_one_after_the_other() {
    let a = "a.test {\n    reverse_proxy 127.0.0.1:1\n    nothing\n}\n# end\n";
    let b = "b.test, c.test {\n    handle /x {\n        root * /srv\n        odd\n    }\n    encode lzma gzip\n}\n{\n}\n";
    let (x, y) = (caddy::convert(a).unwrap(), caddy::convert(b).unwrap());
    let z = caddy::convert(&format!("{a}{b}")).unwrap();
    assert_eq!(z.raddyfile, format!("{}{}", x.raddyfile, y.raddyfile));
    assert_eq!(z.warnings.len(), x.warnings.len() + y.warnings.len());
    assert_eq!(y.warnings.len(), 4);
    let a = "server {\n    listen 80;\n    server_name a.test;\n    location / {\n        proxy_pass http://127.0.0.1:1/path;\n    }\n}\n";
    let b = "worker_processes 1;\nserver {\n    listen 81;\n    root /srv;\n    root /var;\n}\n";
    let (x, y) = (nginx::convert(a).unwrap(), nginx::convert(b).unwrap());
    let z = nginx::convert(&format!("{a}{b}")).unwrap();
    assert_eq!(z.raddyfile, format!("{}{}", x.raddyfile, y.raddyfile));
    assert_eq!(z.warnings.len(), x.warnings.len() + y.warnings.len());
    assert_eq!((x.warnings.len(), y.warnings.len()), (1, 2));
}

#[test]
fn a_snippet_is_written() {
    let c = caddy::convert("(s) {\n    root /x\n}\n").unwrap();
    assert_eq!(c.raddyfile, "(s) {\n    root /x\n}\n");
    assert!(c.warnings.is_empty());
    assert!(parse("f", &c.raddyfile).is_ok());
}

#[test]
fn sites_are_converted_for_their_environment() {
    let source = "{$HOST} {\n    root {$DIR}\n}\n";
    let sources = Sources {
        env: vec![
            ("HOST".to_string(), "a.test".to_string()),
            ("DIR".to_string(), "/x".to_string()),
        ],
        imports: Vec::new(),
    };
    let c = caddy::convert_with(source, &sources).unwrap();
    assert_eq!(c.raddyfile, source);
    assert!(c.warnings.is_empty());
    let c = import(ImportFormat::Caddyfile, "Caddyfile", Ok(source), &sources).unwrap();
    assert_eq!(c.raddyfile, source);
    let c = caddy::convert(source).unwrap();
    assert!(c.raddyfile.is_empty());
    assert_eq!(
        c.warnings,
        ["caddyfile:1: site '{$HOST}' did not convert to a valid site; skipped"]
    );
    let c = nginx::convert_with("server {\n    listen 80;\n    root {$DIR};\n}\n", &sources).unwrap();
    assert_eq!(c.raddyfile, ":80 {\n    root {$DIR}\n    file_server\n}\n");
}

#[test]
fn mapped_values_are_templates_and_map_to_themselves() {
    for (raw, mapped) in [
        ("a{http.request.host}b{uri}", "a{host}b{uri}"),
        ("{http.request.remote}", "{remote_host}"),
        ("plain }", "plain }"),
    ] {
        let once = caddy::map_value(raw).unwrap();
        assert_eq!(once, mapped);
        assert!(ValueTemplate::parse(&once).is_ok());
        assert_eq!(caddy::map_value(&once).unwrap(), once);
    }
    assert_eq!(caddy::map_value("{odd}"), Err("unsupported placeholder '{odd}'".to_string()));
    assert_eq!(caddy::map_value("a{"), Err("unclosed '{' in 'a{'".to_string()));
}

#[test]
fn what_a_listen_line_says_beyond_its_port_is_warned_of() {
    let c = nginx::convert(
        "server {\n    listen 127.0.0.1:443 ssl http2 default_server;\n    root /srv;\n}\n",
    )
    .unwrap();
    assert_eq!(c.raddyfile, ":443 {\n    root /srv\n    file_server\n}\n");
    assert_eq!(
        c.warnings,
        [
            "nginx:2: listen address '127.0.0.1' dropped",
            "nginx:2: listen parameter 'http2' dropped",
            "nginx:2: listen parameter 'default_server' dropped",
        ]
    );
}

#[test]
fn words_and_blocks_that_nothing_takes_are_warned_of() {
    let c = nginx::convert(
        "server x {\n    listen 80;\n    root /srv {\n        odd;\n    }\n    location /a b {\n        proxy_pass http://127.0.0.1:1 2;\n    }\n}\n",
    )
    .unwrap();
    assert_eq!(
        c.raddyfile,
        ":80 {\n    root /srv\n    handle /a {\n        reverse_proxy 127.0.0.1:1\n    }\n    file_server\n}\n"
    );
    assert_eq!(
        c.warnings,
        [
            "nginx:1: arguments of server dropped",
            "nginx:3: block of 'root' dropped",
            "nginx:6: arguments behind the location path dropped",
            "nginx:7: arguments behind the proxy_pass target dropped",
        ]
    );
    let c = caddy::convert(
        "a.test {\n    reverse_proxy {\n        to 127.0.0.1:1 {\n            odd\n        }\n        load_balancing policy random 5\n    }\n}\n",
    )
    .unwrap();
    assert_eq!(
        c.raddyfile,
        "a.test {\n    reverse_proxy {\n        to 127.0.0.1:1\n        lb_policy random\n    }\n}\n"
    );
    assert_eq!(
        c.warnings,
        [
            "caddyfile:3: block of 'to' dropped",
            "caddyfile:6: arguments of load_balancing dropped",
        ]
    );
}

#[test]
fn addresses_may_be_separated_by_white_space() {
    let c = caddy::convert("a.test b.test, c.test {\n    root /x\n}\n").unwrap();
    assert_eq!(c.raddyfile, "a.test {\n    root /x\n}\n");
    assert_eq!(
        c.warnings,
        [
            "caddyfile:1: site address 'b.test' left out; only the first is converted",
            "caddyfile:1: site address 'c.test' left out; only the first is converted",
        ]
    );
}
