//! `tcp` and `udp` listener blocks.
use crate::config::ast::{
    add_to, merge_tls, tls_merged, ConfigError, L4Upstream, L4UpstreamView, Layer4Listener,
    Layer4ListenerView, LbPolicy, ListenAddress, SniRoute, SniRouteView, TcpHealthCheckSpec,
    TcpProxyConfig, TcpProxyConfigView, TlsConfig, TlsConfigView, UdpProxyConfig,
    UdpProxyConfigView,
};
use crate::config::cursor::{fault, lemma_statement, outcome, statement, Cursor, Fault, Parser};
use crate::config::directives::{
    lb_policy_line, parse_lb_policy, parse_tls_settings, tls_settings,
};
use crate::config::lexer::{TokenKindView, TokenView};
use crate::config::proxy::{health_check, lemma_health_block, no_health_options};
use crate::config::values::{
    count_value, duration_value, host_name, l4_upstream, listen_address, normalize_host_name,
    parse_bytes, parse_count, parse_duration, parse_l4_upstream, parse_listen_address, says,
    size_value,
};
use crate::text::{cat2, cat3, owned, same};
use crate::time::{seconds, Duration};
use vstd::prelude::*;

verus! {

/// What the lines of a `tcp` block have set so far.
pub struct TcpOptions {
    pub upstreams: Vec<L4Upstream>,
    pub lb_policy: Option<LbPolicy>,
    pub connect_timeout: Option<Duration>,
    pub idle_timeout: Option<Duration>,
    pub max_connections: Option<usize>,
    pub health_check: Option<TcpHealthCheckSpec>,
    pub sni_routes: Vec<SniRoute>,
    pub sni_fallback: Option<L4Upstream>,
    pub tls: Option<TlsConfig>,
    pub transparent: bool,
}

/// The model of [`TcpOptions`].
#[verifier::ext_equal]
pub ghost struct TcpOptionsView {
    pub upstreams: Seq<L4UpstreamView>,
    pub lb_policy: Option<LbPolicy>,
    pub connect_timeout: Option<Duration>,
    pub idle_timeout: Option<Duration>,
    pub max_connections: Option<usize>,
    pub health_check: Option<TcpHealthCheckSpec>,
    pub sni_routes: Seq<SniRouteView>,
    pub sni_fallback: Option<L4UpstreamView>,
    pub tls: Option<TlsConfigView>,
    pub transparent: bool,
}

impl DeepView for TcpOptions {
    type V = TcpOptionsView;

    open spec fn deep_view(&self) -> TcpOptionsView {
        TcpOptionsView {
            upstreams: self.upstreams.deep_view(),
            lb_policy: self.lb_policy.deep_view(),
            connect_timeout: self.connect_timeout.deep_view(),
            idle_timeout: self.idle_timeout.deep_view(),
            max_connections: self.max_connections.deep_view(),
            health_check: self.health_check.deep_view(),
            sni_routes: self.sni_routes.deep_view(),
            sni_fallback: self.sni_fallback.deep_view(),
            tls: self.tls.deep_view(),
            transparent: self.transparent.deep_view(),
        }
    }
}

/// What the lines of a `udp` block have set so far.
pub struct UdpOptions {
    pub upstreams: Vec<L4Upstream>,
    pub lb_policy: Option<LbPolicy>,
    pub idle_timeout: Option<Duration>,
    pub max_flows: Option<usize>,
    pub max_datagram_size: Option<usize>,
    pub recv_buffer: Option<usize>,
    pub send_buffer: Option<usize>,
}

/// The model of [`UdpOptions`].
#[verifier::ext_equal]
pub ghost struct UdpOptionsView {
    pub upstreams: Seq<L4UpstreamView>,
    pub lb_policy: Option<LbPolicy>,
    pub idle_timeout: Option<Duration>,
    pub max_flows: Option<usize>,
    pub max_datagram_size: Option<usize>,
    pub recv_buffer: Option<usize>,
    pub send_buffer: Option<usize>,
}

impl DeepView for UdpOptions {
    type V = UdpOptionsView;

    open spec fn deep_view(&self) -> UdpOptionsView {
        UdpOptionsView {
            upstreams: self.upstreams.deep_view(),
            lb_policy: self.lb_policy.deep_view(),
            idle_timeout: self.idle_timeout.deep_view(),
            max_flows: self.max_flows.deep_view(),
            max_datagram_size: self.max_datagram_size.deep_view(),
            recv_buffer: self.recv_buffer.deep_view(),
            send_buffer: self.send_buffer.deep_view(),
        }
    }
}

// ---------------------------------------------------------------------------
// Lines that both blocks share
// ---------------------------------------------------------------------------

/// The upstreams that the words of a line name from index `i` on, after `done`.
pub open spec fn l4_upstreams_from(line: Seq<Seq<char>>, i: int, done: Seq<L4UpstreamView>) -> Result<
    Seq<L4UpstreamView>,
    Seq<char>,
>
    decreases line.len() - i,
{
    if i < 0 || i >= line.len() {
        Ok(done)
    } else {
        match l4_upstream(line[i]) {
            Err(m) => Err(m),
            Ok(u) => l4_upstreams_from(line, i + 1, done.push(u)),
        }
    }
}

/// The upstreams after a `to` line.
pub open spec fn to_line(line: Seq<Seq<char>>, done: Seq<L4UpstreamView>) -> Result<
    Seq<L4UpstreamView>,
    Seq<char>,
> {
    if line.len() < 2 {
        Err("to requires at least one upstream"@)
    } else {
        l4_upstreams_from(line, 1, done)
    }
}

/// The byte size of a `<name> <size>` line.
pub open spec fn size_line(line: Seq<Seq<char>>, name: Seq<char>) -> Result<usize, Seq<char>> {
    if line.len() != 2 {
        Err(name + " requires exactly one value"@)
    } else {
        size_value(line[1])
    }
}

fn add_upstreams(line: &Vec<String>, done: Vec<L4Upstream>) -> (r: Result<Vec<L4Upstream>, String>)
    ensures
        says(r, to_line(line.deep_view(), done.deep_view())),
{
    if line.len() < 2 {
        return Err(owned("to requires at least one upstream"));
    }
    let ghost all = line.deep_view();
    let ghost before = done.deep_view();
    let mut out = done;
    let mut i: usize = 1;
    while i < line.len()
        invariant
            1 <= i <= line@.len(),
            all == line.deep_view(),
            all.len() >= 2,
            before == done.deep_view(),
            l4_upstreams_from(all, 1, before) == l4_upstreams_from(
                all,
                i as int,
                out.deep_view(),
            ),
        decreases line@.len() - i,
    {
        assert(all[i as int] == line@[i as int]@);
        match parse_l4_upstream(line[i].as_str()) {
            Err(m) => {
                return Err(m);
            },
            Ok(u) => {
                add_to(&mut out, u);
            },
        }
        i += 1;
    }
    Ok(out)
}

fn parse_size(line: &Vec<String>, name: &str) -> (r: Result<usize, String>)
    ensures
        says(r, size_line(line.deep_view(), name@)),
{
    if line.len() != 2 {
        return Err(cat2(name, " requires exactly one value"));
    }
    assert(line.deep_view()[1] == line@[1]@);
    parse_bytes(line[1].as_str())
}

// ---------------------------------------------------------------------------
// tcp
// ---------------------------------------------------------------------------

/// No option set.
pub open spec fn no_tcp_options() -> TcpOptionsView {
    TcpOptionsView {
        upstreams: Seq::empty(),
        lb_policy: None,
        connect_timeout: None,
        idle_timeout: None,
        max_connections: None,
        health_check: None,
        sni_routes: Seq::empty(),
        sni_fallback: None,
        tls: None,
        transparent: false,
    }
}

/// Whether `routes` has a route for `name`.
pub open spec fn has_route(routes: Seq<SniRouteView>, name: Seq<char>) -> bool {
    exists|i: int| 0 <= i < routes.len() && (#[trigger] routes[i]).name == name
}

/// The routes after an `sni <name> <host:port>` line. A name may be routed once.
pub open spec fn sni_line(line: Seq<Seq<char>>, routes: Seq<SniRouteView>) -> Result<
    Seq<SniRouteView>,
    Seq<char>,
> {
    if line.len() != 3 {
        Err("sni requires: sni <name> <host:port>"@)
    } else {
        match host_name(line[1]) {
            Err(_) => Err("invalid sni name"@),
            Ok(name) => if has_route(routes, name) {
                Err("duplicate sni route for '"@ + name + "'"@)
            } else {
                match l4_upstream(line[2]) {
                    Err(m) => Err(m),
                    Ok(upstream) => Ok(routes.push(SniRouteView { name, upstream })),
                }
            },
        }
    }
}

/// The options after one more line of the block, other than `health_check`.
pub open spec fn tcp_line(line: Seq<Seq<char>>, nested: bool, s: TcpOptionsView) -> Result<
    TcpOptionsView,
    Seq<char>,
> {
    if line[0] == "to"@ {
        if nested {
            Err("unexpected '{' after to"@)
        } else {
            match to_line(line, s.upstreams) {
                Err(m) => Err(m),
                Ok(upstreams) => Ok(TcpOptionsView { upstreams, ..s }),
            }
        }
    } else if line[0] == "lb_policy"@ {
        if nested {
            Err("unexpected '{' after lb_policy"@)
        } else if s.lb_policy is Some {
            Err("duplicate lb_policy"@)
        } else {
            match lb_policy_line(line) {
                Err(m) => Err(m),
                Ok(p) => Ok(TcpOptionsView { lb_policy: Some(p), ..s }),
            }
        }
    } else if line[0] == "connect_timeout"@ {
        if nested {
            Err("unexpected '{' after connect_timeout"@)
        } else if s.connect_timeout is Some {
            Err("duplicate connect_timeout"@)
        } else {
            match duration_value(line) {
                Err(m) => Err(m),
                Ok(d) => Ok(TcpOptionsView { connect_timeout: Some(d), ..s }),
            }
        }
    } else if line[0] == "idle_timeout"@ {
        if nested {
            Err("unexpected '{' after idle_timeout"@)
        } else if s.idle_timeout is Some {
            Err("duplicate idle_timeout"@)
        } else {
            match duration_value(line) {
                Err(m) => Err(m),
                Ok(d) => Ok(TcpOptionsView { idle_timeout: Some(d), ..s }),
            }
        }
    } else if line[0] == "max_connections"@ {
        if nested {
            Err("unexpected '{' after max_connections"@)
        } else if s.max_connections is Some {
            Err("duplicate max_connections"@)
        } else {
            match count_value(line, "max_connections"@) {
                Err(m) => Err(m),
                Ok(n) => Ok(TcpOptionsView { max_connections: Some(n), ..s }),
            }
        }
    } else if line[0] == "sni"@ {
        if nested {
            Err("unexpected '{' after sni"@)
        } else {
            match sni_line(line, s.sni_routes) {
                Err(m) => Err(m),
                Ok(sni_routes) => Ok(TcpOptionsView { sni_routes, ..s }),
            }
        }
    } else if line[0] == "fallback"@ {
        if nested {
            Err("unexpected '{' after fallback"@)
        } else if line.len() != 2 {
            Err("fallback requires: fallback <host:port>"@)
        } else if s.sni_fallback is Some {
            Err("duplicate fallback"@)
        } else {
            match l4_upstream(line[1]) {
                Err(m) => Err(m),
                Ok(u) => Ok(TcpOptionsView { sni_fallback: Some(u), ..s }),
            }
        }
    } else if line[0] == "tls"@ {
        match tls_settings(line, nested) {
            Err(m) => Err(m),
            Ok(config) => Ok(TcpOptionsView { tls: Some(tls_merged(s.tls, config)), ..s }),
        }
    } else if line[0] == "transparent"@ {
        if nested {
            Err("unexpected '{' after transparent"@)
        } else if line.len() != 1 {
            Err("transparent takes no arguments"@)
        } else {
            Ok(TcpOptionsView { transparent: true, ..s })
        }
    } else {
        Err("unknown tcp directive '"@ + line[0] + "'"@)
    }
}

/// A health check as a `tcp` listener keeps it.
pub open spec fn tcp_health(h: crate::config::ast::HealthCheckSpec) -> TcpHealthCheckSpec {
    TcpHealthCheckSpec {
        interval: h.interval,
        timeout: h.timeout,
        consecutive_failures: h.consecutive_failures,
        consecutive_successes: h.consecutive_successes,
    }
}

/// The options of a `tcp` block that is read from `c` on, after `s`.
pub open spec fn tcp_block(toks: Seq<TokenView>, c: Cursor, s: TcpOptionsView) -> Result<
    (TcpOptionsView, Cursor),
    Fault,
>
    decreases toks.len() - c.pos,
{
    if c.pos < 0 || c.pos >= toks.len() {
        Err(fault(c, "unexpected end of file in tcp block"@))
    } else if toks[c.pos].kind == TokenKindView::RBrace {
        Ok((s, Cursor { pos: c.pos + 1, ..c }))
    } else {
        let (line, nested, d) = statement(toks, c.pos);
        proof {
            lemma_statement(toks, c.pos);
            lemma_health_block(toks, d, no_health_options());
        }
        if line.len() == 0 {
            tcp_block(toks, d, s)
        } else if line[0] == "health_check"@ {
            if s.health_check is Some {
                Err(fault(d, "duplicate health_check"@))
            } else {
                match health_check(toks, d, nested) {
                    Err(f) => Err(f),
                    Ok((h, e)) => tcp_block(
                        toks,
                        e,
                        TcpOptionsView { health_check: Some(tcp_health(h)), ..s },
                    ),
                }
            }
        } else {
            match tcp_line(line, nested, s) {
                Err(m) => Err(fault(d, m)),
                Ok(t) => tcp_block(toks, d, t),
            }
        }
    }
}

/// What is wrong with a combination of options, if anything. Routing by server
/// name is an alternative to the shared upstreams, and excludes termination,
/// transparency and health checks; a fallback only makes sense with it.
pub open spec fn tcp_conflict(s: TcpOptionsView) -> Option<Seq<char>> {
    if s.sni_routes.len() > 0 {
        if s.tls is Some {
            Some("TLS termination cannot be combined with SNI routing"@)
        } else if s.upstreams.len() > 0 {
            Some("sni routing cannot be combined with `to`"@)
        } else if s.health_check is Some {
            Some("sni routing does not support health_check (per-route health is planned)"@)
        } else if s.transparent {
            Some("transparent mode cannot be combined with SNI routing"@)
        } else {
            None
        }
    } else if s.sni_fallback is Some {
        Some("fallback requires sni routing"@)
    } else if s.upstreams.len() == 0 {
        Some("tcp requires at least one upstream (to <host>:<port> ... or sni ...)"@)
    } else if s.transparent && s.tls is Some {
        Some("transparent mode cannot be combined with TLS termination"@)
    } else {
        None
    }
}

/// The listener that the options make, the defaults filled in. A timeout of zero
/// is refused.
pub open spec fn tcp_config(listen: ListenAddress, s: TcpOptionsView) -> Result<
    TcpProxyConfigView,
    Seq<char>,
> {
    let tcp = TcpProxyConfigView {
        listen,
        tls: s.tls,
        transparent: s.transparent,
        upstreams: s.upstreams,
        lb_policy: if s.lb_policy is Some { s.lb_policy->0 } else { LbPolicy::RoundRobin },
        connect_timeout: if s.connect_timeout is Some { s.connect_timeout->0 } else { seconds(5) },
        idle_timeout: if s.idle_timeout is Some { s.idle_timeout->0 } else { seconds(300) },
        max_connections: if s.max_connections is Some { s.max_connections->0 } else { 10_000 },
        health_check: s.health_check,
        sni_routes: s.sni_routes,
        sni_fallback: s.sni_fallback,
    };
    match tcp_conflict(s) {
        Some(m) => Err(m),
        None => if tcp.connect_timeout.nanos == 0 || tcp.idle_timeout.nanos == 0 {
            Err("tcp connect_timeout and idle_timeout must be greater than zero"@)
        } else {
            Ok(tcp)
        },
    }
}

/// `tcp <address> { ... }`.
pub open spec fn tcp_listener(
    toks: Seq<TokenView>,
    c: Cursor,
    words: Seq<Seq<char>>,
    block: bool,
) -> Result<(Layer4ListenerView, Cursor), Fault> {
    if !block {
        Err(fault(c, "tcp requires a block: tcp <address> { ... }"@))
    } else if words.len() != 2 {
        Err(fault(c, "tcp requires exactly one listen address, e.g. tcp :3306"@))
    } else {
        match listen_address(words[1]) {
            Err(m) => Err(fault(c, m)),
            Ok(listen) => match tcp_block(toks, c, no_tcp_options()) {
                Err(f) => Err(f),
                Ok((s, d)) => match tcp_config(listen, s) {
                    Err(m) => Err(fault(d, m)),
                    Ok(tcp) => Ok((Layer4ListenerView::Tcp(tcp), d)),
                },
            },
        }
    }
}

fn start_tcp() -> (r: TcpOptions)
    ensures
        r.deep_view() == no_tcp_options(),
{
    let r = TcpOptions {
        upstreams: Vec::new(),
        lb_policy: None,
        connect_timeout: None,
        idle_timeout: None,
        max_connections: None,
        health_check: None,
        sni_routes: Vec::new(),
        sni_fallback: None,
        tls: None,
        transparent: false,
    };
    assert(r.upstreams.deep_view() == Seq::<L4UpstreamView>::empty());
    assert(r.sni_routes.deep_view() == Seq::<SniRouteView>::empty());
    r
}

fn is_routed(routes: &Vec<SniRoute>, name: &str) -> (r: bool)
    ensures
        r == has_route(routes.deep_view(), name@),
{
    let mut i: usize = 0;
    while i < routes.len()
        invariant
            i <= routes@.len(),
            forall|j: int| 0 <= j < i ==> (#[trigger] routes.deep_view()[j]).name != name@,
        decreases routes@.len() - i,
    {
        assert(routes.deep_view()[i as int] == routes@[i as int].deep_view());
        if same(routes[i].name.as_str(), name) {
            return true;
        }
        i += 1;
    }
    false
}

fn add_route(line: &Vec<String>, routes: Vec<SniRoute>) -> (r: Result<Vec<SniRoute>, String>)
    ensures
        says(r, sni_line(line.deep_view(), routes.deep_view())),
{
    if line.len() != 3 {
        return Err(owned("sni requires: sni <name> <host:port>"));
    }
    assert(line.deep_view()[1] == line@[1]@ && line.deep_view()[2] == line@[2]@);
    match normalize_host_name(line[1].as_str()) {
        Err(_) => Err(owned("invalid sni name")),
        Ok(name) => if is_routed(&routes, name.as_str()) {
            Err(cat3("duplicate sni route for '", name.as_str(), "'"))
        } else {
            match parse_l4_upstream(line[2].as_str()) {
                Err(m) => Err(m),
                Ok(upstream) => {
                    let mut out = routes;
                    add_to(&mut out, SniRoute { name, upstream });
                    Ok(out)
                },
            }
        },
    }
}

fn apply_tcp_line(line: &Vec<String>, nested: bool, s: TcpOptions) -> (r: Result<
    TcpOptions,
    String,
>)
    requires
        line@.len() > 0,
    ensures
        says(r, tcp_line(line.deep_view(), nested, s.deep_view())),
{
    let name = line[0].as_str();
    let n: usize = line.len();
    assert(line.deep_view()[0] == name@);
    assert(n > 1 ==> line.deep_view()[1] == line@[1]@);
    let mut t = s;
    if same(name, "to") {
        if nested {
            return Err(owned("unexpected '{' after to"));
        }
        match add_upstreams(line, t.upstreams) {
            Err(m) => {
                return Err(m);
            },
            Ok(upstreams) => {
                t.upstreams = upstreams;
            },
        }
    } else if same(name, "lb_policy") {
        if nested {
            return Err(owned("unexpected '{' after lb_policy"));
        }
        if t.lb_policy.is_some() {
            return Err(owned("duplicate lb_policy"));
        }
        match parse_lb_policy(line) {
            Err(m) => {
                return Err(m);
            },
            Ok(p) => {
                t.lb_policy = Some(p);
            },
        }
    } else if same(name, "connect_timeout") {
        if nested {
            return Err(owned("unexpected '{' after connect_timeout"));
        }
        if t.connect_timeout.is_some() {
            return Err(owned("duplicate connect_timeout"));
        }
        match parse_duration(line) {
            Err(m) => {
                return Err(m);
            },
            Ok(d) => {
                t.connect_timeout = Some(d);
            },
        }
    } else if same(name, "idle_timeout") {
        if nested {
            return Err(owned("unexpected '{' after idle_timeout"));
        }
        if t.idle_timeout.is_some() {
            return Err(owned("duplicate idle_timeout"));
        }
        match parse_duration(line) {
            Err(m) => {
                return Err(m);
            },
            Ok(d) => {
                t.idle_timeout = Some(d);
            },
        }
    } else if same(name, "max_connections") {
        if nested {
            return Err(owned("unexpected '{' after max_connections"));
        }
        if t.max_connections.is_some() {
            return Err(owned("duplicate max_connections"));
        }
        match parse_count(line, "max_connections") {
            Err(m) => {
                return Err(m);
            },
            Ok(k) => {
                t.max_connections = Some(k);
            },
        }
    } else if same(name, "sni") {
        if nested {
            return Err(owned("unexpected '{' after sni"));
        }
        match add_route(line, t.sni_routes) {
            Err(m) => {
                return Err(m);
            },
            Ok(routes) => {
                t.sni_routes = routes;
            },
        }
    } else if same(name, "fallback") {
        if nested {
            return Err(owned("unexpected '{' after fallback"));
        }
        if n != 2 {
            return Err(owned("fallback requires: fallback <host:port>"));
        }
        if t.sni_fallback.is_some() {
            return Err(owned("duplicate fallback"));
        }
        match parse_l4_upstream(line[1].as_str()) {
            Err(m) => {
                return Err(m);
            },
            Ok(u) => {
                t.sni_fallback = Some(u);
            },
        }
    } else if same(name, "tls") {
        match parse_tls_settings(line, nested) {
            Err(m) => {
                return Err(m);
            },
            Ok(config) => {
                merge_tls(&mut t.tls, &config);
            },
        }
    } else if same(name, "transparent") {
        if nested {
            return Err(owned("unexpected '{' after transparent"));
        }
        if n != 1 {
            return Err(owned("transparent takes no arguments"));
        }
        t.transparent = true;
    } else {
        return Err(cat3("unknown tcp directive '", name, "'"));
    }
    Ok(t)
}

fn check_tcp(s: &TcpOptions) -> (r: Result<(), String>)
    ensures
        match r {
            Ok(_) => tcp_conflict(s.deep_view()) is None,
            Err(m) => tcp_conflict(s.deep_view()) == Some(m@),
        },
{
    if s.sni_routes.len() > 0 {
        if s.tls.is_some() {
            Err(owned("TLS termination cannot be combined with SNI routing"))
        } else if s.upstreams.len() > 0 {
            Err(owned("sni routing cannot be combined with `to`"))
        } else if s.health_check.is_some() {
            Err(owned("sni routing does not support health_check (per-route health is planned)"))
        } else if s.transparent {
            Err(owned("transparent mode cannot be combined with SNI routing"))
        } else {
            Ok(())
        }
    } else if s.sni_fallback.is_some() {
        Err(owned("fallback requires sni routing"))
    } else if s.upstreams.len() == 0 {
        Err(owned("tcp requires at least one upstream (to <host>:<port> ... or sni ...)"))
    } else if s.transparent && s.tls.is_some() {
        Err(owned("transparent mode cannot be combined with TLS termination"))
    } else {
        Ok(())
    }
}

fn finish_tcp(listen: ListenAddress, s: TcpOptions) -> (r: Result<TcpProxyConfig, String>)
    ensures
        says(r, tcp_config(listen, s.deep_view())),
{
    match check_tcp(&s) {
        Err(m) => {
            return Err(m);
        },
        Ok(_) => {},
    }
    let tcp = TcpProxyConfig {
        listen,
        tls: s.tls,
        transparent: s.transparent,
        upstreams: s.upstreams,
        lb_policy: s.lb_policy.unwrap_or(LbPolicy::RoundRobin),
        connect_timeout: s.connect_timeout.unwrap_or(Duration::from_secs(5)),
        idle_timeout: s.idle_timeout.unwrap_or(Duration::from_secs(300)),
        max_connections: s.max_connections.unwrap_or(10_000),
        health_check: s.health_check,
        sni_routes: s.sni_routes,
        sni_fallback: s.sni_fallback,
    };
    if tcp.connect_timeout.is_zero() || tcp.idle_timeout.is_zero() {
        Err(owned("tcp connect_timeout and idle_timeout must be greater than zero"))
    } else {
        Ok(tcp)
    }
}

impl Parser {
    /// Parse a `health_check` of a `tcp` listener.
    pub fn parse_l4_health_check(&mut self, block: bool) -> (r: Result<
        TcpHealthCheckSpec,
        ConfigError,
    >)
        requires
            old(self).wf(),
        ensures
            final(self).continues(*old(self)),
            final(self).pos >= old(self).pos,
            outcome(
                r,
                *final(self),
                match health_check(old(self).toks(), old(self).cursor(), block) {
                    Ok((h, c)) => Ok((tcp_health(h), c)),
                    Err(f) => Err(f),
                },
            ),
    {
        match self.parse_health_check(block) {
            Err(e) => Err(e),
            Ok(h) => Ok(
                TcpHealthCheckSpec {
                    interval: h.interval,
                    timeout: h.timeout,
                    consecutive_failures: h.consecutive_failures,
                    consecutive_successes: h.consecutive_successes,
                },
            ),
        }
    }

    fn parse_tcp_block(&mut self) -> (r: Result<TcpOptions, ConfigError>)
        requires
            old(self).wf(),
        ensures
            final(self).continues(*old(self)),
            final(self).pos >= old(self).pos,
            outcome(
                r,
                *final(self),
                tcp_block(old(self).toks(), old(self).cursor(), no_tcp_options()),
            ),
    {
        let ghost toks = self.toks();
        let ghost start = self.cursor();
        let mut s = start_tcp();
        loop
            invariant
                self.continues(*old(self)),
                self.pos >= old(self).pos,
                toks == self.toks(),
                toks == old(self).toks(),
                start == old(self).cursor(),
                tcp_block(toks, start, no_tcp_options()) == tcp_block(
                    toks,
                    self.cursor(),
                    s.deep_view(),
                ),
            decreases self.tokens@.len() - self.pos,
        {
            if self.at_close() {
                self.advance();
                return Ok(s);
            }
            if self.at_end() {
                return Err(self.error("unexpected end of file in tcp block"));
            }
            let (line, nested) = self.parse_statement();
            if line.len() == 0 {
                continue;
            }
            assert(line.deep_view()[0] == line@[0]@);
            if same(line[0].as_str(), "health_check") {
                if s.health_check.is_some() {
                    return Err(self.error("duplicate health_check"));
                }
                match self.parse_l4_health_check(nested) {
                    Err(e) => {
                        return Err(e);
                    },
                    Ok(h) => {
                        s.health_check = Some(h);
                    },
                }
            } else {
                match apply_tcp_line(&line, nested, s) {
                    Ok(t) => {
                        s = t;
                    },
                    Err(m) => {
                        return Err(self.err(m));
                    },
                }
            }
        }
    }

    /// Parse a `tcp <address> { ... }` listener block.
    pub fn parse_layer4_tcp(&mut self, words: &Vec<String>, block: bool) -> (r: Result<
        Layer4Listener,
        ConfigError,
    >)
        requires
            old(self).wf(),
        ensures
            final(self).continues(*old(self)),
            final(self).pos >= old(self).pos,
            outcome(
                r,
                *final(self),
                tcp_listener(old(self).toks(), old(self).cursor(), words.deep_view(), block),
            ),
    {
        if !block {
            return Err(self.error("tcp requires a block: tcp <address> { ... }"));
        }
        if words.len() != 2 {
            return Err(self.error("tcp requires exactly one listen address, e.g. tcp :3306"));
        }
        assert(words.deep_view()[1] == words@[1]@);
        let listen = match parse_listen_address(words[1].as_str()) {
            Ok(a) => a,
            Err(m) => {
                return Err(self.err(m));
            },
        };
        let options = match self.parse_tcp_block() {
            Ok(s) => s,
            Err(e) => {
                return Err(e);
            },
        };
        match finish_tcp(listen, options) {
            Ok(tcp) => Ok(Layer4Listener::Tcp(tcp)),
            Err(m) => Err(self.err(m)),
        }
    }
}

// ---------------------------------------------------------------------------
// udp
// ---------------------------------------------------------------------------

/// No option set.
pub open spec fn no_udp_options() -> UdpOptionsView {
    UdpOptionsView {
        upstreams: Seq::empty(),
        lb_policy: None,
        idle_timeout: None,
        max_flows: None,
        max_datagram_size: None,
        recv_buffer: None,
        send_buffer: None,
    }
}

/// The options after one more line of the block.
pub open spec fn udp_line(line: Seq<Seq<char>>, nested: bool, s: UdpOptionsView) -> Result<
    UdpOptionsView,
    Seq<char>,
> {
    if nested {
        Err("unexpected '{' in udp block"@)
    } else if line[0] == "to"@ {
        match to_line(line, s.upstreams) {
            Err(m) => Err(m),
            Ok(upstreams) => Ok(UdpOptionsView { upstreams, ..s }),
        }
    } else if line[0] == "lb_policy"@ {
        if s.lb_policy is Some {
            Err("duplicate lb_policy"@)
        } else {
            match lb_policy_line(line) {
                Err(m) => Err(m),
                Ok(p) => Ok(UdpOptionsView { lb_policy: Some(p), ..s }),
            }
        }
    } else if line[0] == "idle_timeout"@ {
        if s.idle_timeout is Some {
            Err("duplicate idle_timeout"@)
        } else {
            match duration_value(line) {
                Err(m) => Err(m),
                Ok(d) => Ok(UdpOptionsView { idle_timeout: Some(d), ..s }),
            }
        }
    } else if line[0] == "max_flows"@ {
        if s.max_flows is Some {
            Err("duplicate max_flows"@)
        } else {
            match count_value(line, "max_flows"@) {
                Err(m) => Err(m),
                Ok(n) => Ok(UdpOptionsView { max_flows: Some(n), ..s }),
            }
        }
    } else if line[0] == "max_datagram_size"@ {
        if s.max_datagram_size is Some {
            Err("duplicate max_datagram_size"@)
        } else {
            match size_line(line, "max_datagram_size"@) {
                Err(m) => Err(m),
                Ok(n) => Ok(UdpOptionsView { max_datagram_size: Some(n), ..s }),
            }
        }
    } else if line[0] == "recv_buffer"@ {
        if s.recv_buffer is Some {
            Err("duplicate recv_buffer"@)
        } else {
            match size_line(line, "recv_buffer"@) {
                Err(m) => Err(m),
                Ok(n) => Ok(UdpOptionsView { recv_buffer: Some(n), ..s }),
            }
        }
    } else if line[0] == "send_buffer"@ {
        if s.send_buffer is Some {
            Err("duplicate send_buffer"@)
        } else {
            match size_line(line, "send_buffer"@) {
                Err(m) => Err(m),
                Ok(n) => Ok(UdpOptionsView { send_buffer: Some(n), ..s }),
            }
        }
    } else {
        Err("unknown udp directive '"@ + line[0] + "'"@)
    }
}

/// The options of a `udp` block that is read from `c` on, after `s`.
pub open spec fn udp_block(toks: Seq<TokenView>, c: Cursor, s: UdpOptionsView) -> Result<
    (UdpOptionsView, Cursor),
    Fault,
>
    decreases toks.len() - c.pos,
{
    if c.pos < 0 || c.pos >= toks.len() {
        Err(fault(c, "unexpected end of file in udp block"@))
    } else if toks[c.pos].kind == TokenKindView::RBrace {
        Ok((s, Cursor { pos: c.pos + 1, ..c }))
    } else {
        let (line, nested, d) = statement(toks, c.pos);
        proof {
            lemma_statement(toks, c.pos);
        }
        if line.len() == 0 {
            udp_block(toks, d, s)
        } else {
            match udp_line(line, nested, s) {
                Err(m) => Err(fault(d, m)),
                Ok(t) => udp_block(toks, d, t),
            }
        }
    }
}

/// The listener that the options make, the defaults filled in.
pub open spec fn udp_config(listen: ListenAddress, s: UdpOptionsView) -> Result<
    UdpProxyConfigView,
    Seq<char>,
> {
    let udp = UdpProxyConfigView {
        listen,
        upstreams: s.upstreams,
        lb_policy: if s.lb_policy is Some { s.lb_policy->0 } else { LbPolicy::RoundRobin },
        idle_timeout: if s.idle_timeout is Some { s.idle_timeout->0 } else { seconds(30) },
        max_flows: if s.max_flows is Some { s.max_flows->0 } else { 50_000 },
        max_datagram_size: if s.max_datagram_size is Some {
            s.max_datagram_size->0
        } else {
            4096
        },
        recv_buffer: if s.recv_buffer is Some { s.recv_buffer->0 } else { 0 },
        send_buffer: if s.send_buffer is Some { s.send_buffer->0 } else { 0 },
    };
    if s.upstreams.len() == 0 {
        Err("udp requires at least one upstream (to <host>:<port> ...)"@)
    } else if udp.idle_timeout.nanos == 0 || udp.max_flows == 0 || udp.max_datagram_size == 0 {
        Err("udp idle_timeout, max_flows, and max_datagram_size must be greater than zero"@)
    } else {
        Ok(udp)
    }
}

/// `udp <address> { ... }`.
pub open spec fn udp_listener(
    toks: Seq<TokenView>,
    c: Cursor,
    words: Seq<Seq<char>>,
    block: bool,
) -> Result<(Layer4ListenerView, Cursor), Fault> {
    if !block {
        Err(fault(c, "udp requires a block: udp <address> { ... }"@))
    } else if words.len() != 2 {
        Err(fault(c, "udp requires exactly one listen address, e.g. udp :53"@))
    } else {
        match listen_address(words[1]) {
            Err(m) => Err(fault(c, m)),
            Ok(listen) => match udp_block(toks, c, no_udp_options()) {
                Err(f) => Err(f),
                Ok((s, d)) => match udp_config(listen, s) {
                    Err(m) => Err(fault(d, m)),
                    Ok(udp) => Ok((Layer4ListenerView::Udp(udp), d)),
                },
            },
        }
    }
}

fn start_udp() -> (r: UdpOptions)
    ensures
        r.deep_view() == no_udp_options(),
{
    let r = UdpOptions {
        upstreams: Vec::new(),
        lb_policy: None,
        idle_timeout: None,
        max_flows: None,
        max_datagram_size: None,
        recv_buffer: None,
        send_buffer: None,
    };
    assert(r.upstreams.deep_view() == Seq::<L4UpstreamView>::empty());
    r
}

fn apply_udp_line(line: &Vec<String>, nested: bool, s: UdpOptions) -> (r: Result<
    UdpOptions,
    String,
>)
    requires
        line@.len() > 0,
    ensures
        says(r, udp_line(line.deep_view(), nested, s.deep_view())),
{
    if nested {
        return Err(owned("unexpected '{' in udp block"));
    }
    let name = line[0].as_str();
    assert(line.deep_view()[0] == name@);
    let mut t = s;
    if same(name, "to") {
        match add_upstreams(line, t.upstreams) {
            Err(m) => {
                return Err(m);
            },
            Ok(upstreams) => {
                t.upstreams = upstreams;
            },
        }
    } else if same(name, "lb_policy") {
        if t.lb_policy.is_some() {
            return Err(owned("duplicate lb_policy"));
        }
        match parse_lb_policy(line) {
            Err(m) => {
                return Err(m);
            },
            Ok(p) => {
                t.lb_policy = Some(p);
            },
        }
    } else if same(name, "idle_timeout") {
        if t.idle_timeout.is_some() {
            return Err(owned("duplicate idle_timeout"));
        }
        match parse_duration(line) {
            Err(m) => {
                return Err(m);
            },
            Ok(d) => {
                t.idle_timeout = Some(d);
            },
        }
    } else if same(name, "max_flows") {
        if t.max_flows.is_some() {
            return Err(owned("duplicate max_flows"));
        }
        match parse_count(line, "max_flows") {
            Err(m) => {
                return Err(m);
            },
            Ok(n) => {
                t.max_flows = Some(n);
            },
        }
    } else if same(name, "max_datagram_size") {
        if t.max_datagram_size.is_some() {
            return Err(owned("duplicate max_datagram_size"));
        }
        match parse_size(line, "max_datagram_size") {
            Err(m) => {
                return Err(m);
            },
            Ok(n) => {
                t.max_datagram_size = Some(n);
            },
        }
    } else if same(name, "recv_buffer") {
        if t.recv_buffer.is_some() {
            return Err(owned("duplicate recv_buffer"));
        }
        match parse_size(line, "recv_buffer") {
            Err(m) => {
                return Err(m);
            },
            Ok(n) => {
                t.recv_buffer = Some(n);
            },
        }
    } else if same(name, "send_buffer") {
        if t.send_buffer.is_some() {
            return Err(owned("duplicate send_buffer"));
        }
        match parse_size(line, "send_buffer") {
            Err(m) => {
                return Err(m);
            },
            Ok(n) => {
                t.send_buffer = Some(n);
            },
        }
    } else {
        return Err(cat3("unknown udp directive '", name, "'"));
    }
    Ok(t)
}

fn finish_udp(listen: ListenAddress, s: UdpOptions) -> (r: Result<UdpProxyConfig, String>)
    ensures
        says(r, udp_config(listen, s.deep_view())),
{
    if s.upstreams.len() == 0 {
        return Err(owned("udp requires at least one upstream (to <host>:<port> ...)"));
    }
    let udp = UdpProxyConfig {
        listen,
        upstreams: s.upstreams,
        lb_policy: s.lb_policy.unwrap_or(LbPolicy::RoundRobin),
        idle_timeout: s.idle_timeout.unwrap_or(Duration::from_secs(30)),
        max_flows: s.max_flows.unwrap_or(50_000),
        max_datagram_size: s.max_datagram_size.unwrap_or(4096),
        recv_buffer: s.recv_buffer.unwrap_or(0),
        send_buffer: s.send_buffer.unwrap_or(0),
    };
    if udp.idle_timeout.is_zero() || udp.max_flows == 0 || udp.max_datagram_size == 0 {
        Err(owned("udp idle_timeout, max_flows, and max_datagram_size must be greater than zero"))
    } else {
        Ok(udp)
    }
}

impl Parser {
    fn parse_udp_block(&mut self) -> (r: Result<UdpOptions, ConfigError>)
        requires
            old(self).wf(),
        ensures
            final(self).continues(*old(self)),
            final(self).pos >= old(self).pos,
            outcome(
                r,
                *final(self),
                udp_block(old(self).toks(), old(self).cursor(), no_udp_options()),
            ),
    {
        let ghost toks = self.toks();
        let ghost start = self.cursor();
        let mut s = start_udp();
        loop
            invariant
                self.continues(*old(self)),
                self.pos >= old(self).pos,
                toks == self.toks(),
                toks == old(self).toks(),
                start == old(self).cursor(),
                udp_block(toks, start, no_udp_options()) == udp_block(
                    toks,
                    self.cursor(),
                    s.deep_view(),
                ),
            decreases self.tokens@.len() - self.pos,
        {
            if self.at_close() {
                self.advance();
                return Ok(s);
            }
            if self.at_end() {
                return Err(self.error("unexpected end of file in udp block"));
            }
            let (line, nested) = self.parse_statement();
            if line.len() == 0 {
                continue;
            }
            match apply_udp_line(&line, nested, s) {
                Ok(t) => {
                    s = t;
                },
                Err(m) => {
                    return Err(self.err(m));
                },
            }
        }
    }

    /// Parse a `udp <address> { ... }` listener block.
    pub fn parse_layer4_udp(&mut self, words: &Vec<String>, block: bool) -> (r: Result<
        Layer4Listener,
        ConfigError,
    >)
        requires
            old(self).wf(),
        ensures
            final(self).continues(*old(self)),
            final(self).pos >= old(self).pos,
            outcome(
                r,
                *final(self),
                udp_listener(old(self).toks(), old(self).cursor(), words.deep_view(), block),
            ),
    {
        if !block {
            return Err(self.error("udp requires a block: udp <address> { ... }"));
        }
        if words.len() != 2 {
            return Err(self.error("udp requires exactly one listen address, e.g. udp :53"));
        }
        assert(words.deep_view()[1] == words@[1]@);
        let listen = match parse_listen_address(words[1].as_str()) {
            Ok(a) => a,
            Err(m) => {
                return Err(self.err(m));
            },
        };
        let options = match self.parse_udp_block() {
            Ok(s) => s,
            Err(e) => {
                return Err(e);
            },
        };
        match finish_udp(listen, options) {
            Ok(udp) => Ok(Layer4Listener::Udp(udp)),
            Err(m) => Err(self.err(m)),
        }
    }
}

// ---------------------------------------------------------------------------
// Laws
// ---------------------------------------------------------------------------

/// What every parsed `tcp` listener keeps: either it routes by server name, with
/// nothing that such routing excludes, or it has upstreams and no fallback; its
/// timeouts are not zero.
pub open spec fn sound_tcp(t: TcpProxyConfigView) -> bool {
    &&& t.connect_timeout.nanos > 0
    &&& t.idle_timeout.nanos > 0
    &&& t.sni_routes.len() > 0 ==> t.tls is None && t.upstreams.len() == 0 && t.health_check is None
        && !t.transparent
    &&& t.sni_routes.len() == 0 ==> t.upstreams.len() > 0 && t.sni_fallback is None
    &&& !(t.transparent && t.tls is Some)
}

/// What every parsed `udp` listener keeps: at least one upstream, and limits
/// that are not zero.
pub open spec fn sound_udp(u: UdpProxyConfigView) -> bool {
    &&& u.upstreams.len() > 0
    &&& u.idle_timeout.nanos > 0
    &&& u.max_flows > 0
    &&& u.max_datagram_size > 0
}

/// Every listener block that parses is sound.
pub proof fn parsed_listeners_are_sound(
    toks: Seq<TokenView>,
    c: Cursor,
    words: Seq<Seq<char>>,
    block: bool,
)
    ensures
        tcp_listener(toks, c, words, block) matches Ok((l, _)) ==> (l matches Layer4ListenerView::Tcp(
            t,
        ) && sound_tcp(t)),
        udp_listener(toks, c, words, block) matches Ok((l, _)) ==> (l matches Layer4ListenerView::Udp(
            u,
        ) && sound_udp(u)),
{
}

} // verus!
