//! The raw-TCP proxy: runtime of a listener, routing by server name, and the
//! decisions of a relay.
//!
//! A listener reads its settings from the live configuration on every new
//! connection. When what matters for selection changed, the runtime is rebuilt
//! for new connections; established ones keep their upstream. A rebuild that
//! fails keeps the last runtime that worked.
use crate::config::answers::{find_host, host_answer, HostAnswer, HostAnswerView, HostOutcome, HostOutcomeView};
use crate::config::ast::{
    add_all, add_to, wildcard_match_specificity, wildcard_specificity, Dup, L4Upstream,
    L4UpstreamView, Layer4Listener, Layer4ListenerView, LbPolicy, ListenAddress, Same, SniRoute,
    SniRouteView, TcpHealthCheckSpec, TcpProxyConfig, TcpProxyConfigView,
};
use crate::config::compiled::CompiledConfigView;
use crate::config::snapshot::{ever_stored, ConfigStore};
use crate::layer4::balance::{Backend, Balancer};
use crate::layer4::tls::InspectOutcome;
use crate::net::{ip_literal, IpAddr, SocketAddr};
use crate::num::{number, parse_u64};
use crate::text::{after, cat2, cat3, cat4, cat5, cut, lemma_first_index, owned, same};
use crate::time::Duration;
use vstd::prelude::*;
use vstd::seq_lib::to_multiset_contains;
use vstd::utf8::encode_utf8;

verus! {

// ---------------------------------------------------------------------------
// Resolution
// ---------------------------------------------------------------------------

/// Why the upstreams of a listener could not be resolved.
#[derive(PartialEq, Eq, Debug)]
pub enum ResolveFault {
    /// The listener cannot be served.
    Message(String),
    /// A host has to be looked up first.
    NeedsHost { host: String, port: u16 },
}

/// The model of [`ResolveFault`].
pub ghost enum ResolveFaultView {
    Message(Seq<char>),
    NeedsHost { host: Seq<char>, port: u16 },
}

impl DeepView for ResolveFault {
    type V = ResolveFaultView;

    open spec fn deep_view(&self) -> ResolveFaultView {
        match self {
            ResolveFault::Message(m) => ResolveFaultView::Message(m@),
            ResolveFault::NeedsHost { host, port } => ResolveFaultView::NeedsHost {
                host: host@,
                port: *port,
            },
        }
    }
}

/// Whether a result is the one that a model describes.
pub open spec fn gives<T: DeepView>(
    r: Result<T, ResolveFault>,
    want: Result<T::V, ResolveFaultView>,
) -> bool {
    match (r, want) {
        (Ok(v), Ok(w)) => v.deep_view() == w,
        (Err(f), Err(w)) => f.deep_view() == w,
        _ => false,
    }
}

/// The addresses of a layer-4 upstream: an IP literal is its own address; a host
/// name has all the addresses that the lookup gave.
pub open spec fn upstream_addresses(hosts: Seq<HostAnswerView>, u: L4UpstreamView) -> Result<
    Seq<SocketAddr>,
    ResolveFaultView,
> {
    match ip_literal(u.host) {
        Some(ip) => Ok(seq![SocketAddr::at(ip, u.port)]),
        None => match host_answer(hosts, u.host, u.port) {
            None => Err(ResolveFaultView::NeedsHost { host: u.host, port: u.port }),
            Some(HostOutcomeView::Resolved { addrs }) => Ok(addrs),
            Some(HostOutcomeView::Failed { message }) => Err(
                ResolveFaultView::Message("failed to resolve "@ + u.text() + ": "@ + message),
            ),
        },
    }
}

/// Resolve a layer-4 upstream to all of its addresses.
pub fn resolve_upstream(hosts: &Vec<HostAnswer>, u: &L4Upstream) -> (r: Result<
    Vec<SocketAddr>,
    ResolveFault,
>)
    ensures
        gives(r, upstream_addresses(hosts.deep_view(), u.deep_view())),
{
    if let Some(ip) = IpAddr::parse(u.host.as_str()) {
        let mut one: Vec<SocketAddr> = Vec::new();
        one.push(SocketAddr::new(ip, u.port));
        assert(one.deep_view() == seq![SocketAddr::at(ip, u.port)]);
        return Ok(one);
    }
    match find_host(hosts, u.host.as_str(), u.port) {
        None => Err(ResolveFault::NeedsHost { host: u.host.dup(), port: u.port }),
        Some(HostOutcome::Resolved { addrs }) => Ok(addrs.dup()),
        Some(HostOutcome::Failed { message }) => {
            let text = u.display();
            Err(
                ResolveFault::Message(
                    cat4("failed to resolve ", text.as_str(), ": ", message.as_str()),
                ),
            )
        },
    }
}

/// The addresses of an upstream of a listener, at least one; `what` names the
/// listener and the upstream in messages.
pub open spec fn listener_addresses(
    hosts: Seq<HostAnswerView>,
    what: Seq<char>,
    u: L4UpstreamView,
) -> Result<Seq<SocketAddr>, ResolveFaultView> {
    match upstream_addresses(hosts, u) {
        Err(ResolveFaultView::Message(m)) => Err(
            ResolveFaultView::Message(what + " upstream "@ + u.text() + ": "@ + m),
        ),
        Err(f) => Err(f),
        Ok(addrs) => if addrs.len() == 0 {
            Err(
                ResolveFaultView::Message(
                    what + " upstream "@ + u.text() + " resolved to no addresses"@,
                ),
            )
        } else {
            Ok(addrs)
        },
    }
}

/// Resolve an upstream of a listener to its addresses, at least one.
pub fn resolve_listener_upstream(hosts: &Vec<HostAnswer>, what: &str, u: &L4Upstream) -> (r: Result<
    Vec<SocketAddr>,
    ResolveFault,
>)
    ensures
        gives(r, listener_addresses(hosts.deep_view(), what@, u.deep_view())),
{
    match resolve_upstream(hosts, u) {
        Err(ResolveFault::Message(m)) => {
            let text = u.display();
            Err(
                ResolveFault::Message(
                    cat5(what, " upstream ", text.as_str(), ": ", m.as_str()),
                ),
            )
        },
        Err(f) => Err(f),
        Ok(addrs) => if addrs.len() == 0 {
            let text = u.display();
            Err(
                ResolveFault::Message(
                    cat4(what, " upstream ", text.as_str(), " resolved to no addresses"),
                ),
            )
        } else {
            Ok(addrs)
        },
    }
}

/// How a listener is named in messages.
pub open spec fn tcp_listener_text(listen: ListenAddress) -> Seq<char> {
    "tcp listener "@ + listen.socket().text() + ":"@
}

/// The addresses of the upstreams `us[i..]` of a listener, after `done`.
pub open spec fn addresses_from(
    hosts: Seq<HostAnswerView>,
    what: Seq<char>,
    us: Seq<L4UpstreamView>,
    i: int,
    done: Seq<SocketAddr>,
) -> Result<Seq<SocketAddr>, ResolveFaultView>
    decreases us.len() - i,
{
    if i < 0 || i >= us.len() {
        Ok(done)
    } else {
        match listener_addresses(hosts, what, us[i]) {
            Err(f) => Err(f),
            Ok(addrs) => addresses_from(hosts, what, us, i + 1, done + addrs),
        }
    }
}

/// Resolve the upstreams of a `tcp` listener.
pub fn resolve_upstreams(hosts: &Vec<HostAnswer>, tcp: &TcpProxyConfig) -> (r: Result<
    Vec<SocketAddr>,
    ResolveFault,
>)
    ensures
        gives(
            r,
            addresses_from(
                hosts.deep_view(),
                tcp_listener_text(tcp.listen),
                tcp.upstreams.deep_view(),
                0,
                Seq::empty(),
            ),
        ),
{
    let at = tcp.listen.display();
    let what = cat3("tcp listener ", at.as_str(), ":");
    let ghost us = tcp.upstreams.deep_view();
    let mut out: Vec<SocketAddr> = Vec::new();
    let mut i: usize = 0;
    assert(out.deep_view() == Seq::<SocketAddr>::empty());
    while i < tcp.upstreams.len()
        invariant
            i <= tcp.upstreams@.len(),
            us == tcp.upstreams.deep_view(),
            what@ == tcp_listener_text(tcp.listen),
            addresses_from(hosts.deep_view(), what@, us, 0, Seq::empty()) == addresses_from(
                hosts.deep_view(),
                what@,
                us,
                i as int,
                out.deep_view(),
            ),
        decreases tcp.upstreams@.len() - i,
    {
        assert(us[i as int] == tcp.upstreams@[i as int].deep_view());
        match resolve_listener_upstream(hosts, what.as_str(), &tcp.upstreams[i]) {
            Err(f) => {
                return Err(f);
            },
            Ok(more) => {
                add_all(&mut out, &more);
            },
        }
        i += 1;
    }
    Ok(out)
}

// ---------------------------------------------------------------------------
// Routes by server name
// ---------------------------------------------------------------------------

/// The routes that a list of pairs makes, a later pair of one name in place of an
/// earlier one.
pub open spec fn route_map(routes: Seq<(Seq<char>, SocketAddr)>) -> Map<Seq<char>, SocketAddr>
    decreases routes.len(),
{
    if routes.len() == 0 {
        Map::empty()
    } else {
        route_map(routes.drop_last()).insert(routes.last().0, routes.last().1)
    }
}

/// Where the first route of `name` stands at or after `i`, or the number of
/// routes.
pub open spec fn route_index(routes: Seq<(Seq<char>, SocketAddr)>, name: Seq<char>, i: int) -> int
    decreases routes.len() - i,
{
    if i < 0 || i >= routes.len() || routes[i].0 == name {
        i
    } else {
        route_index(routes, name, i + 1)
    }
}

/// The routes with one more; a route of the same name is replaced.
pub open spec fn with_route(
    routes: Seq<(Seq<char>, SocketAddr)>,
    name: Seq<char>,
    addr: SocketAddr,
) -> Seq<(Seq<char>, SocketAddr)> {
    let i = route_index(routes, name, 0);
    if i < routes.len() {
        routes.update(i, (name, addr))
    } else {
        routes.push((name, addr))
    }
}

fn put_route(routes: &mut Vec<(String, SocketAddr)>, name: &str, addr: SocketAddr)
    ensures
        final(routes).deep_view() == with_route(old(routes).deep_view(), name@, addr),
{
    let ghost all = routes.deep_view();
    let mut i: usize = 0;
    while i < routes.len()
        invariant
            i <= routes@.len(),
            all == routes.deep_view(),
            all == old(routes).deep_view(),
            route_index(all, name@, 0) == route_index(all, name@, i as int),
        decreases routes@.len() - i,
    {
        assert(all[i as int] == (routes@[i as int].0@, routes@[i as int].1));
        if same(routes[i].0.as_str(), name) {
            routes.set(i, (owned(name), addr));
            assert(routes.deep_view() == all.update(i as int, (name@, addr)));
            return;
        }
        i += 1;
    }
    add_to(routes, (owned(name), addr));
}

/// The routes of a listener from `i` on, after `done`: each goes to the first
/// address of its upstream.
pub open spec fn routes_from(
    hosts: Seq<HostAnswerView>,
    what: Seq<char>,
    routes: Seq<SniRouteView>,
    i: int,
    done: Seq<(Seq<char>, SocketAddr)>,
) -> Result<Seq<(Seq<char>, SocketAddr)>, ResolveFaultView>
    decreases routes.len() - i,
{
    if i < 0 || i >= routes.len() {
        Ok(done)
    } else {
        match listener_addresses(
            hosts,
            what + " sni route '"@ + routes[i].name + "'"@,
            routes[i].upstream,
        ) {
            Err(f) => Err(f),
            Ok(addrs) => routes_from(
                hosts,
                what,
                routes,
                i + 1,
                with_route(done, routes[i].name, addrs[0]),
            ),
        }
    }
}

/// The address of the fallback of a listener.
pub open spec fn fallback_address(
    hosts: Seq<HostAnswerView>,
    what: Seq<char>,
    fallback: Option<L4UpstreamView>,
) -> Result<Option<SocketAddr>, ResolveFaultView> {
    match fallback {
        None => Ok(None),
        Some(u) => match listener_addresses(hosts, what + " sni fallback"@, u) {
            Err(f) => Err(f),
            Ok(addrs) => Ok(Some(addrs[0])),
        },
    }
}

/// The routes of a listener, and the address of its fallback.
pub open spec fn sni_resolved(
    hosts: Seq<HostAnswerView>,
    what: Seq<char>,
    routes: Seq<SniRouteView>,
    fallback: Option<L4UpstreamView>,
) -> Result<(Seq<(Seq<char>, SocketAddr)>, Option<SocketAddr>), ResolveFaultView> {
    match routes_from(hosts, what, routes, 0, Seq::empty()) {
        Err(f) => Err(f),
        Ok(rs) => match fallback_address(hosts, what, fallback) {
            Err(f) => Err(f),
            Ok(fb) => Ok((rs, fb)),
        },
    }
}

/// Resolve the routes of a listener that routes by server name, and its
/// fallback.
pub fn resolve_sni_routes(hosts: &Vec<HostAnswer>, tcp: &TcpProxyConfig) -> (r: Result<
    (Vec<(String, SocketAddr)>, Option<SocketAddr>),
    ResolveFault,
>)
    ensures
        gives(
            r,
            sni_resolved(
                hosts.deep_view(),
                tcp_listener_text(tcp.listen),
                tcp.sni_routes.deep_view(),
                tcp.sni_fallback.deep_view(),
            ),
        ),
{
    let at = tcp.listen.display();
    let what = cat3("tcp listener ", at.as_str(), ":");
    let ghost rs = tcp.sni_routes.deep_view();
    let mut routes: Vec<(String, SocketAddr)> = Vec::new();
    let mut i: usize = 0;
    assert(routes.deep_view() == Seq::<(Seq<char>, SocketAddr)>::empty());
    while i < tcp.sni_routes.len()
        invariant
            i <= tcp.sni_routes@.len(),
            rs == tcp.sni_routes.deep_view(),
            what@ == tcp_listener_text(tcp.listen),
            routes_from(hosts.deep_view(), what@, rs, 0, Seq::empty()) == routes_from(
                hosts.deep_view(),
                what@,
                rs,
                i as int,
                routes.deep_view(),
            ),
        decreases tcp.sni_routes@.len() - i,
    {
        assert(rs[i as int] == tcp.sni_routes@[i as int].deep_view());
        let route = &tcp.sni_routes[i];
        let who = cat4(what.as_str(), " sni route '", route.name.as_str(), "'");
        match resolve_listener_upstream(hosts, who.as_str(), &route.upstream) {
            Err(f) => {
                return Err(f);
            },
            Ok(addrs) => {
                assert(addrs.deep_view()[0] == addrs@[0]);
                put_route(&mut routes, route.name.as_str(), addrs[0]);
            },
        }
        i += 1;
    }
    let fallback = match &tcp.sni_fallback {
        None => None,
        Some(u) => {
            let who = cat2(what.as_str(), " sni fallback");
            match resolve_listener_upstream(hosts, who.as_str(), u) {
                Err(f) => {
                    return Err(f);
                },
                Ok(addrs) => {
                    assert(addrs.deep_view()[0] == addrs@[0]);
                    Some(addrs[0])
                },
            }
        },
    };
    Ok((routes, fallback))
}

/// The one wildcard that can match `name`: `*.` and what follows its first label.
pub open spec fn wildcard_for(name: Seq<char>) -> Option<Seq<char>> {
    match cut(name, '.') {
        Some((label, rest)) => if label.len() > 0 && rest.len() > 0 {
            Some("*."@ + rest)
        } else {
            None
        },
        None => None,
    }
}

/// The route of `name`: its own, or else that of the wildcard over its first
/// label.
pub open spec fn route_of(routes: Map<Seq<char>, SocketAddr>, name: Seq<char>) -> Option<
    SocketAddr,
> {
    if routes.dom().contains(name) {
        Some(routes[name])
    } else {
        match wildcard_for(name) {
            Some(p) => if routes.dom().contains(p) {
                Some(routes[p])
            } else {
                None
            },
            None => None,
        }
    }
}

/// A wildcard pattern matches a name exactly when it is the one wildcard for it.
pub proof fn one_wildcard_matches(pattern: Seq<char>, name: Seq<char>)
    ensures
        wildcard_specificity(pattern, name) is Some <==> wildcard_for(name) == Some(pattern),
{
    lemma_first_index(name, '.');
    if let Some(suffix) = after(pattern, "*."@) {
        assert("*."@ + suffix == pattern);
    }
    if let Some((label, rest)) = cut(name, '.') {
        assert(after("*."@ + rest, "*."@) == Some(rest)) by {
            assert("*."@.is_prefix_of("*."@ + rest));
            assert(("*."@ + rest).skip("*."@.len() as int) == rest);
        }
    }
}

fn find_route(routes: &Vec<(String, SocketAddr)>, name: &str) -> (r: Option<SocketAddr>)
    ensures
        r == (if route_map(routes.deep_view()).dom().contains(name@) {
            Some(route_map(routes.deep_view())[name@])
        } else {
            None
        }),
{
    let ghost all = routes.deep_view();
    let mut i: usize = routes.len();
    assert(all.take(i as int) == all);
    while i > 0
        invariant
            i <= routes@.len(),
            all == routes.deep_view(),
            route_map(all).dom().contains(name@) == route_map(all.take(i as int)).dom().contains(
                name@,
            ),
            route_map(all).dom().contains(name@) ==> route_map(all)[name@] == route_map(
                all.take(i as int),
            )[name@],
        decreases i,
    {
        assert(all.take(i as int).drop_last() == all.take(i - 1));
        assert(all.take(i as int).last() == all[i - 1]);
        i -= 1;
        if same(routes[i].0.as_str(), name) {
            return Some(routes[i].1);
        }
    }
    None
}

fn find_wildcard_route(routes: &Vec<(String, SocketAddr)>, name: &str) -> (r: Option<SocketAddr>)
    ensures
        r == match wildcard_for(name@) {
            Some(p) => if route_map(routes.deep_view()).dom().contains(p) {
                Some(route_map(routes.deep_view())[p])
            } else {
                None
            },
            None => None,
        },
{
    let ghost all = routes.deep_view();
    let ghost want = wildcard_for(name@);
    let mut i: usize = routes.len();
    assert(all.take(i as int) == all);
    while i > 0
        invariant
            i <= routes@.len(),
            all == routes.deep_view(),
            want == wildcard_for(name@),
            want matches Some(p) ==> route_map(all).dom().contains(p) == route_map(
                all.take(i as int),
            ).dom().contains(p),
            want matches Some(p) ==> route_map(all).dom().contains(p) ==> route_map(all)[p]
                == route_map(all.take(i as int))[p],
        decreases i,
    {
        assert(all.take(i as int).drop_last() == all.take(i - 1));
        assert(all.take(i as int).last() == all[i - 1]);
        i -= 1;
        proof {
            one_wildcard_matches(routes@[i as int].0@, name@);
        }
        if wildcard_match_specificity(routes[i].0.as_str(), name).is_some() {
            return Some(routes[i].1);
        }
    }
    None
}

/// Select the route of a server name. An exact name comes before a wildcard, and
/// a wildcard stands for one label.
pub fn select_sni_route(routes: &Vec<(String, SocketAddr)>, name: &str) -> (r: Option<SocketAddr>)
    ensures
        r == route_of(route_map(routes.deep_view()), name@),
{
    match find_route(routes, name) {
        Some(addr) => Some(addr),
        None => find_wildcard_route(routes, name),
    }
}

/// What to do with a client whose ClientHello was inspected.
#[derive(Clone, Copy, PartialEq, Eq, Structural, Debug)]
pub enum SniDecision {
    /// Relay to an upstream.
    Relay { upstream: SocketAddr, reason: SniReason },
    /// Close the connection.
    Close { reason: SniReason },
}

/// Why a client was routed the way it was.
#[derive(Clone, Copy, PartialEq, Eq, Structural, Debug)]
pub enum SniReason {
    /// A route matched.
    Routed,
    /// No route matched; the fallback serves.
    Fallback,
    /// No route matched and there is no fallback.
    NoRoute,
    /// The ClientHello has no server name.
    NoSni,
    /// There is no well-formed ClientHello.
    Malformed,
}

impl SniReason {
    /// The word for the reason in access records.
    pub open spec fn word(self) -> Seq<char> {
        match self {
            SniReason::Routed => "sni_routed"@,
            SniReason::Fallback => "sni_fallback"@,
            SniReason::NoRoute => "sni_no_route"@,
            SniReason::NoSni => "sni_no_sni"@,
            SniReason::Malformed => "sni_malformed"@,
        }
    }

    /// The word for the reason in access records.
    pub fn as_str(&self) -> (r: &'static str)
        ensures
            r@ == self.word(),
    {
        match self {
            SniReason::Routed => "sni_routed",
            SniReason::Fallback => "sni_fallback",
            SniReason::NoRoute => "sni_no_route",
            SniReason::NoSni => "sni_no_sni",
            SniReason::Malformed => "sni_malformed",
        }
    }
}

/// The fallback when there is one, or an end of the connection.
pub open spec fn fall_back(
    fallback: Option<SocketAddr>,
    served: SniReason,
    closed: SniReason,
) -> SniDecision {
    match fallback {
        Some(upstream) => SniDecision::Relay { upstream, reason: served },
        None => SniDecision::Close { reason: closed },
    }
}

/// What to do with an inspected client: its route, else the fallback, else close.
pub open spec fn decision(
    inspected: InspectOutcome,
    routes: Map<Seq<char>, SocketAddr>,
    fallback: Option<SocketAddr>,
) -> SniDecision {
    match inspected {
        InspectOutcome::Sni { name, .. } => match route_of(routes, name@) {
            Some(upstream) => SniDecision::Relay { upstream, reason: SniReason::Routed },
            None => fall_back(fallback, SniReason::Fallback, SniReason::NoRoute),
        },
        InspectOutcome::NoSni { .. } => fall_back(fallback, SniReason::NoSni, SniReason::NoSni),
        InspectOutcome::Malformed { .. } => fall_back(
            fallback,
            SniReason::Malformed,
            SniReason::Malformed,
        ),
    }
}

fn fall_back_to(fallback: Option<SocketAddr>, served: SniReason, closed: SniReason) -> (r:
    SniDecision)
    ensures
        r == fall_back(fallback, served, closed),
{
    match fallback {
        Some(upstream) => SniDecision::Relay { upstream, reason: served },
        None => SniDecision::Close { reason: closed },
    }
}

/// Decide what to do with an inspected client.
pub fn decide_sni(
    inspected: &InspectOutcome,
    routes: &Vec<(String, SocketAddr)>,
    fallback: Option<SocketAddr>,
) -> (r: SniDecision)
    ensures
        r == decision(*inspected, route_map(routes.deep_view()), fallback),
{
    match inspected {
        InspectOutcome::Sni { name, .. } => match select_sni_route(routes, name.as_str()) {
            Some(upstream) => SniDecision::Relay { upstream, reason: SniReason::Routed },
            None => fall_back_to(fallback, SniReason::Fallback, SniReason::NoRoute),
        },
        InspectOutcome::NoSni { .. } => fall_back_to(fallback, SniReason::NoSni, SniReason::NoSni),
        InspectOutcome::Malformed { .. } => fall_back_to(
            fallback,
            SniReason::Malformed,
            SniReason::Malformed,
        ),
    }
}

/// The exact bytes that the client sent, which go to the upstream first.
pub fn inspected_prefix(inspected: &InspectOutcome) -> (r: &Vec<u8>)
    ensures
        *r == match *inspected {
            InspectOutcome::Sni { prefix, .. } => prefix,
            InspectOutcome::NoSni { prefix } => prefix,
            InspectOutcome::Malformed { prefix } => prefix,
        },
{
    match inspected {
        InspectOutcome::Sni { prefix, .. } => prefix,
        InspectOutcome::NoSni { prefix } => prefix,
        InspectOutcome::Malformed { prefix } => prefix,
    }
}

/// With a fallback no client is closed for its server name.
pub proof fn fallback_serves_everyone(
    inspected: InspectOutcome,
    routes: Map<Seq<char>, SocketAddr>,
    fallback: SocketAddr,
)
    ensures
        decision(inspected, routes, Some(fallback)) is Relay,
{
}

/// An exact route comes before every wildcard.
pub proof fn exact_route_wins(routes: Map<Seq<char>, SocketAddr>, name: Seq<char>)
    requires
        routes.dom().contains(name),
    ensures
        route_of(routes, name) == Some(routes[name]),
{
}

// ---------------------------------------------------------------------------
// The runtime of a listener
// ---------------------------------------------------------------------------

/// The part of a `tcp` listener that matters for selection. When it changes, the
/// runtime is rebuilt for new connections.
pub struct TcpSelectionSpec {
    pub transparent: bool,
    pub upstreams: Vec<L4Upstream>,
    pub lb_policy: LbPolicy,
    pub connect_timeout: Duration,
    pub idle_timeout: Duration,
    pub max_connections: usize,
    pub health_check: Option<TcpHealthCheckSpec>,
    pub sni_routes: Vec<SniRoute>,
    pub sni_fallback: Option<L4Upstream>,
}

/// The model of [`TcpSelectionSpec`].
#[verifier::ext_equal]
pub ghost struct TcpSelectionSpecView {
    pub transparent: bool,
    pub upstreams: Seq<L4UpstreamView>,
    pub lb_policy: LbPolicy,
    pub connect_timeout: Duration,
    pub idle_timeout: Duration,
    pub max_connections: usize,
    pub health_check: Option<TcpHealthCheckSpec>,
    pub sni_routes: Seq<SniRouteView>,
    pub sni_fallback: Option<L4UpstreamView>,
}

impl DeepView for TcpSelectionSpec {
    type V = TcpSelectionSpecView;

    open spec fn deep_view(&self) -> TcpSelectionSpecView {
        TcpSelectionSpecView {
            transparent: self.transparent,
            upstreams: self.upstreams.deep_view(),
            lb_policy: self.lb_policy,
            connect_timeout: self.connect_timeout,
            idle_timeout: self.idle_timeout,
            max_connections: self.max_connections,
            health_check: self.health_check,
            sni_routes: self.sni_routes.deep_view(),
            sni_fallback: self.sni_fallback.deep_view(),
        }
    }
}

/// The part of a listener that matters for selection.
pub open spec fn selection(tcp: TcpProxyConfigView) -> TcpSelectionSpecView {
    TcpSelectionSpecView {
        transparent: tcp.transparent,
        upstreams: tcp.upstreams,
        lb_policy: tcp.lb_policy,
        connect_timeout: tcp.connect_timeout,
        idle_timeout: tcp.idle_timeout,
        max_connections: tcp.max_connections,
        health_check: tcp.health_check,
        sni_routes: tcp.sni_routes,
        sni_fallback: tcp.sni_fallback,
    }
}

impl TcpSelectionSpec {
    /// The part of a listener that matters for selection.
    pub fn from(tcp: &TcpProxyConfig) -> (r: TcpSelectionSpec)
        ensures
            r.deep_view() == selection(tcp.deep_view()),
    {
        TcpSelectionSpec {
            transparent: tcp.transparent,
            upstreams: tcp.upstreams.dup(),
            lb_policy: tcp.lb_policy,
            connect_timeout: tcp.connect_timeout,
            idle_timeout: tcp.idle_timeout,
            max_connections: tcp.max_connections,
            health_check: tcp.health_check,
            sni_routes: tcp.sni_routes.dup(),
            sni_fallback: tcp.sni_fallback.dup(),
        }
    }

    /// Whether two specs are the same.
    pub fn equals(&self, other: &TcpSelectionSpec) -> (r: bool)
        ensures
            r == (self.deep_view() == other.deep_view()),
    {
        let same_check = match (&self.health_check, &other.health_check) {
            (Some(a), Some(b)) => *a == *b,
            (None, None) => true,
            _ => false,
        };
        self.transparent == other.transparent && self.lb_policy == other.lb_policy
            && self.connect_timeout == other.connect_timeout && self.idle_timeout
            == other.idle_timeout && self.max_connections == other.max_connections && same_check
            && self.upstreams.same_as(&other.upstreams) && self.sni_routes.same_as(
            &other.sni_routes,
        ) && self.sni_fallback.same_as(&other.sni_fallback)
    }
}

/// How the upstream of a connection is chosen.
pub enum L4Selector {
    /// A health-checked balancer over the shared upstreams.
    Balancer(Balancer),
    /// By server name, with a fallback for clients that no route matches.
    Sni { routes: Vec<(String, SocketAddr)>, fallback: Option<SocketAddr> },
}

/// One build of the runtime of a listener.
pub struct AppRuntime {
    pub spec: TcpSelectionSpec,
    /// The addresses that the upstreams resolved to.
    pub resolved: Vec<SocketAddr>,
    pub selector: L4Selector,
}

/// The second components of pairs.
pub open spec fn route_values(routes: Seq<(Seq<char>, SocketAddr)>) -> Seq<SocketAddr> {
    Seq::new(routes.len(), |i: int| routes[i].1)
}

/// The addresses that a listener resolves to, with or without routes by name.
pub open spec fn resolved_addresses(hosts: Seq<HostAnswerView>, tcp: TcpProxyConfigView) -> Result<
    Seq<SocketAddr>,
    ResolveFaultView,
> {
    let what = tcp_listener_text(tcp.listen);
    if tcp.sni_routes.len() > 0 {
        match sni_resolved(hosts, what, tcp.sni_routes, tcp.sni_fallback) {
            Err(f) => Err(f),
            Ok((routes, fallback)) => Ok(
                match fallback {
                    Some(a) => route_values(routes).push(a),
                    None => route_values(routes),
                },
            ),
        }
    } else {
        addresses_from(hosts, what, tcp.upstreams, 0, Seq::empty())
    }
}

/// A backend that was never probed.
pub open spec fn fresh(addr: SocketAddr) -> Backend {
    Backend { addr, healthy: true, failures: 0, successes: 0 }
}

impl AppRuntime {
    /// The balancer of the runtime, when it has one, is well formed.
    pub open spec fn wf(self) -> bool {
        self.selector matches L4Selector::Balancer(b) ==> b.wf()
    }

    /// Whether this is a new runtime for a listener: its spec, its addresses,
    /// and a selector over them in which every backend is healthy.
    pub open spec fn serves(self, hosts: Seq<HostAnswerView>, tcp: TcpProxyConfigView) -> bool {
        &&& self.wf()
        &&& self.spec.deep_view() == selection(tcp)
        &&& resolved_addresses(hosts, tcp) == Ok::<Seq<SocketAddr>, ResolveFaultView>(
            self.resolved@,
        )
        &&& match self.selector {
            L4Selector::Balancer(b) => {
                &&& tcp.sni_routes.len() == 0
                &&& b.policy == tcp.lb_policy
                &&& b.health_check == tcp.health_check
                &&& b.cursor == 0
                &&& b.backends@ == Seq::new(
                    self.resolved@.len(),
                    |i: int| fresh(self.resolved@[i]),
                )
            },
            L4Selector::Sni { routes, fallback } => {
                &&& tcp.sni_routes.len() > 0
                &&& sni_resolved(
                    hosts,
                    tcp_listener_text(tcp.listen),
                    tcp.sni_routes,
                    tcp.sni_fallback,
                ) == Ok::<_, ResolveFaultView>((routes.deep_view(), fallback))
            },
        }
    }

    /// Resolve the upstreams of a listener and build a new runtime.
    pub fn build(tcp: &TcpProxyConfig, hosts: &Vec<HostAnswer>) -> (r: Result<
        AppRuntime,
        ResolveFault,
    >)
        ensures
            match r {
                Ok(rt) => rt.serves(hosts.deep_view(), tcp.deep_view()),
                Err(f) => resolved_addresses(hosts.deep_view(), tcp.deep_view()) == Err::<
                    Seq<SocketAddr>,
                    ResolveFaultView,
                >(f.deep_view()),
            },
    {
        let spec = TcpSelectionSpec::from(tcp);
        if tcp.sni_routes.len() > 0 {
            let (routes, fallback) = match resolve_sni_routes(hosts, tcp) {
                Ok(x) => x,
                Err(f) => {
                    return Err(f);
                },
            };
            let mut resolved: Vec<SocketAddr> = Vec::new();
            let mut i: usize = 0;
            while i < routes.len()
                invariant
                    i <= routes@.len(),
                    resolved@ == route_values(routes.deep_view()).take(i as int),
                decreases routes@.len() - i,
            {
                resolved.push(routes[i].1);
                i += 1;
                let ghost v = route_values(routes.deep_view());
                assert(v.take(i as int) == v.take(i - 1).push(v[i - 1]));
                assert(routes.deep_view()[i - 1] == (routes@[i - 1].0@, routes@[i - 1].1));
            }
            assert(route_values(routes.deep_view()).take(i as int) == route_values(
                routes.deep_view(),
            ));
            if let Some(a) = fallback {
                resolved.push(a);
            }
            return Ok(AppRuntime { spec, resolved, selector: L4Selector::Sni { routes, fallback } });
        }
        let resolved = match resolve_upstreams(hosts, tcp) {
            Ok(a) => a,
            Err(f) => {
                return Err(f);
            },
        };
        assert(resolved.deep_view() == resolved@);
        let balancer = Balancer::new(&resolved, tcp.lb_policy, tcp.health_check);
        assert(balancer.backends@ == Seq::new(resolved@.len(), |i: int| fresh(resolved@[i])));
        Ok(AppRuntime { spec, resolved, selector: L4Selector::Balancer(balancer) })
    }
}

/// The first `tcp` listener at `listen` among `ls`, from `i` on.
pub open spec fn tcp_at(ls: Seq<Layer4ListenerView>, listen: ListenAddress, i: int) -> Option<
    TcpProxyConfigView,
>
    decreases ls.len() - i,
{
    if i < 0 || i >= ls.len() {
        None
    } else {
        match ls[i] {
            Layer4ListenerView::Tcp(t) => if t.listen == listen {
                Some(t)
            } else {
                tcp_at(ls, listen, i + 1)
            },
            _ => tcp_at(ls, listen, i + 1),
        }
    }
}

/// Find the `tcp` listener at `listen`.
pub fn find_tcp<'a>(ls: &'a Vec<Layer4Listener>, listen: ListenAddress) -> (r: Option<
    &'a TcpProxyConfig,
>)
    ensures
        match r {
            Some(t) => tcp_at(ls.deep_view(), listen, 0) == Some(t.deep_view()),
            None => tcp_at(ls.deep_view(), listen, 0) is None,
        },
{
    let ghost all = ls.deep_view();
    let mut i: usize = 0;
    while i < ls.len()
        invariant
            i <= ls@.len(),
            all == ls.deep_view(),
            tcp_at(all, listen, 0) == tcp_at(all, listen, i as int),
        decreases ls@.len() - i,
    {
        assert(all[i as int] == ls@[i as int].deep_view());
        if let Layer4Listener::Tcp(t) = &ls[i] {
            if t.listen == listen {
                return Some(t);
            }
        }
        i += 1;
    }
    None
}

/// What became of a runtime that was checked against the live configuration.
#[derive(PartialEq, Eq, Debug)]
pub enum Refresh {
    /// Nothing changed, or the listener is not in the configuration.
    Kept,
    /// A new runtime took its place.
    Rebuilt,
    /// The new runtime could not be built; the old one goes on serving.
    Failed(ResolveFault),
}

/// What following a reload does: a rebuild when what matters for selection
/// changed, and no change when the listener is gone or its upstreams do not
/// resolve.
pub open spec fn reloaded(
    before: AppRuntime,
    after: AppRuntime,
    r: Refresh,
    ls: Seq<Layer4ListenerView>,
    listen: ListenAddress,
    hosts: Seq<HostAnswerView>,
) -> bool {
    let found = tcp_at(ls, listen, 0);
    let due = found matches Some(tcp) && before.spec.deep_view() != selection(tcp);
    match r {
        Refresh::Kept => !due && after == before,
        Refresh::Rebuilt => due && after.serves(hosts, found->0),
        Refresh::Failed(f) => due && after == before && resolved_addresses(hosts, found->0) == Err::<
            Seq<SocketAddr>,
            ResolveFaultView,
        >(f.deep_view()),
    }
}

/// What following the name service does: a rebuild when the upstreams resolve to
/// other addresses, in whatever order, and no change when they do not resolve.
pub open spec fn refreshed(
    before: AppRuntime,
    after: AppRuntime,
    r: Refresh,
    ls: Seq<Layer4ListenerView>,
    listen: ListenAddress,
    hosts: Seq<HostAnswerView>,
) -> bool {
    let found = tcp_at(ls, listen, 0);
    let now = resolved_addresses(hosts, found->0);
    let due = now matches Ok(addrs) && addrs.to_multiset() != before.resolved@.to_multiset();
    match r {
        Refresh::Kept => (found is None || (now is Ok && !due)) && after == before,
        Refresh::Rebuilt => found is Some && due && after.serves(hosts, found->0),
        Refresh::Failed(f) => found is Some && after == before && now == Err::<
            Seq<SocketAddr>,
            ResolveFaultView,
        >(f.deep_view()),
    }
}

impl AppRuntime {
    /// Follow a reload of the configuration in a store.
    pub fn follow(&mut self, store: &ConfigStore, listen: ListenAddress, hosts: &Vec<HostAnswer>)
        -> (r: Refresh)
        requires
            old(self).wf(),
        ensures
            final(self).wf(),
            exists|c: CompiledConfigView| #[trigger]
                ever_stored(*store).contains(c) && reloaded(
                    *old(self),
                    *final(self),
                    r,
                    c.layer4,
                    listen,
                    hosts.deep_view(),
                ),
    {
        let config = store.load();
        self.reload(&config.layer4, listen, hosts)
    }

    /// Follow the name service, for the configuration in a store.
    pub fn follow_dns(
        &mut self,
        store: &ConfigStore,
        listen: ListenAddress,
        hosts: &Vec<HostAnswer>,
    ) -> (r: Refresh)
        requires
            old(self).wf(),
        ensures
            final(self).wf(),
            exists|c: CompiledConfigView| #[trigger]
                ever_stored(*store).contains(c) && refreshed(
                    *old(self),
                    *final(self),
                    r,
                    c.layer4,
                    listen,
                    hosts.deep_view(),
                ),
    {
        let config = store.load();
        self.refresh_dns(&config.layer4, listen, hosts)
    }

    /// Follow a reload: rebuild when what matters for selection changed. A
    /// listener that is gone from the configuration, or a rebuild that fails,
    /// leaves the runtime as it is.
    pub fn reload(
        &mut self,
        ls: &Vec<Layer4Listener>,
        listen: ListenAddress,
        hosts: &Vec<HostAnswer>,
    ) -> (r: Refresh)
        requires
            old(self).wf(),
        ensures
            final(self).wf(),
            reloaded(*old(self), *final(self), r, ls.deep_view(), listen, hosts.deep_view()),
    {
        let tcp = match find_tcp(ls, listen) {
            Some(t) => t,
            None => {
                return Refresh::Kept;
            },
        };
        let spec = TcpSelectionSpec::from(tcp);
        if self.spec.equals(&spec) {
            return Refresh::Kept;
        }
        match AppRuntime::build(tcp, hosts) {
            Ok(rt) => {
                *self = rt;
                Refresh::Rebuilt
            },
            Err(f) => Refresh::Failed(f),
        }
    }

    /// Follow the name service: rebuild when the upstreams of the listener
    /// resolve to other addresses than before. A mere change of order is none,
    /// and a lookup or a rebuild that fails keeps the addresses that worked.
    pub fn refresh_dns(
        &mut self,
        ls: &Vec<Layer4Listener>,
        listen: ListenAddress,
        hosts: &Vec<HostAnswer>,
    ) -> (r: Refresh)
        requires
            old(self).wf(),
        ensures
            final(self).wf(),
            refreshed(*old(self), *final(self), r, ls.deep_view(), listen, hosts.deep_view()),
    {
        let tcp = match find_tcp(ls, listen) {
            Some(t) => t,
            None => {
                return Refresh::Kept;
            },
        };
        match AppRuntime::build(tcp, hosts) {
            Ok(rt) => {
                if same_addresses(&rt.resolved, &self.resolved) {
                    Refresh::Kept
                } else {
                    *self = rt;
                    Refresh::Rebuilt
                }
            },
            Err(f) => Refresh::Failed(f),
        }
    }
}

/// Whether two lists hold the same addresses, in whatever order.
pub fn same_addresses(a: &Vec<SocketAddr>, b: &Vec<SocketAddr>) -> (r: bool)
    ensures
        r == (a@.to_multiset() == b@.to_multiset()),
{
    broadcast use vstd::seq_lib::group_to_multiset_ensures;

    let mut rest: Vec<SocketAddr> = b.dup();
    assert(rest.deep_view() == rest@ && b.deep_view() == b@);
    let mut i: usize = 0;
    assert(a@.skip(0) == a@);
    while i < a.len()
        invariant
            i <= a@.len(),
            (a@.to_multiset() == b@.to_multiset()) == (a@.skip(i as int).to_multiset()
                == rest@.to_multiset()),
        decreases a@.len() - i,
    {
        let x = a[i];
        let ghost tail = a@.skip(i as int);
        let ghost before = rest@;
        proof {
            assert(tail[0] == x);
            assert(tail.contains(x));
            to_multiset_contains(tail, x);
            assert(a@.skip(i + 1) == tail.remove(0));
            lemma_remove_both(tail, 0, before, 0);
        }
        let mut k: usize = 0;
        while k < rest.len() && rest[k] != x
            invariant
                k <= rest@.len(),
                rest@ == before,
                forall|j: int| 0 <= j < k ==> before[j] != x,
            decreases rest@.len() - k,
        {
            k += 1;
        }
        if k == rest.len() {
            proof {
                assert(!before.contains(x));
                to_multiset_contains(before, x);
            }
            return false;
        }
        proof {
            lemma_remove_both(tail, 0, before, k as int);
        }
        let _ = rest.remove(k);
        assert(rest@ == before.remove(k as int));
        i += 1;
    }
    proof {
        assert(a@.skip(i as int) == Seq::<SocketAddr>::empty());
        assert(Seq::<SocketAddr>::empty().to_multiset().len() == 0);
        assert(rest@.to_multiset().len() == rest@.len());
        if rest@.len() == 0 {
            assert(rest@ == Seq::<SocketAddr>::empty());
        }
    }
    rest.len() == 0
}

/// Taking one equal item from each of two lists keeps whether they agree.
proof fn lemma_remove_both(a: Seq<SocketAddr>, i: int, b: Seq<SocketAddr>, k: int)
    requires
        0 <= i < a.len(),
    ensures
        0 <= k < b.len() && a[i] == b[k] ==> (a.to_multiset() == b.to_multiset()) == (a.remove(
            i,
        ).to_multiset() == b.remove(k).to_multiset()),
{
    broadcast use vstd::seq_lib::group_to_multiset_ensures;

    if 0 <= k < b.len() && a[i] == b[k] {
        let x = a[i];
        assert(a.contains(x) && b.contains(x));
        assert(a.remove(i).to_multiset() =~= a.to_multiset().remove(x));
        assert(b.remove(k).to_multiset() =~= b.to_multiset().remove(x));
        assert(a.to_multiset().remove(x).insert(x) =~= a.to_multiset());
        assert(b.to_multiset().remove(x).insert(x) =~= b.to_multiset());
    }
}

// ---------------------------------------------------------------------------
// New connections
// ---------------------------------------------------------------------------

/// `addr` with an IPv4-mapped IPv6 address, `::ffff:a.b.c.d`, made plain.
pub open spec fn normalized(addr: SocketAddr) -> SocketAddr {
    match addr.ip {
        IpAddr::V6(v) => if v as nat / 0x1_0000_0000 == 0xffff {
            SocketAddr::at(IpAddr::V4((v as nat % 0x1_0000_0000) as u32), addr.port)
        } else {
            addr
        },
        IpAddr::V4(_) => addr,
    }
}

/// Collapse an IPv4-mapped IPv6 peer address from a dual-stack listener.
pub fn normalize_socket_addr(addr: SocketAddr) -> (r: SocketAddr)
    ensures
        r == normalized(addr),
{
    match addr.ip {
        IpAddr::V6(v) => {
            let high: u128 = v / 0x1_0000_0000;
            if high == 0xffff {
                SocketAddr::new(IpAddr::V4((v % 0x1_0000_0000) as u32), addr.port)
            } else {
                addr
            }
        },
        IpAddr::V4(_) => addr,
    }
}

/// Normalizing twice changes nothing more.
pub proof fn normalizing_is_idempotent(addr: SocketAddr)
    ensures
        normalized(normalized(addr)) == normalized(addr),
{
}

/// The bytes by which `ip_hash` chooses for a client; other policies need none.
pub open spec fn selection_key(policy: LbPolicy, client: Option<SocketAddr>) -> Seq<u8> {
    match (policy, client) {
        (LbPolicy::IpHash, Some(a)) => encode_utf8(a.ip.text()),
        _ => Seq::empty(),
    }
}

fn key_for(policy: LbPolicy, client: Option<SocketAddr>) -> (r: Vec<u8>)
    ensures
        r@ == selection_key(policy, client),
{
    match (policy, client) {
        (LbPolicy::IpHash, Some(a)) => {
            let text = a.ip.display();
            text.as_str().as_bytes_vec()
        },
        _ => Vec::new(),
    }
}

/// What to do with a new connection.
#[derive(Clone, Copy, PartialEq, Eq, Structural, Debug)]
pub enum ConnectionPlan {
    /// Refuse it: the listener is at its limit.
    Reject,
    /// Close it: no upstream is healthy.
    NoUpstream,
    /// Relay it; `source` is the address to connect from in transparent mode.
    Relay { upstream: SocketAddr, source: Option<SocketAddr> },
    /// Inspect its ClientHello to find the route.
    Inspect,
}

/// The plan for a new connection of `client`. `admitted` says whether the
/// listener is below its limit, `original` is where the client meant to go.
pub open spec fn plan(
    rt: AppRuntime,
    admitted: bool,
    client: Option<SocketAddr>,
    original: Option<SocketAddr>,
) -> ConnectionPlan {
    if !admitted {
        ConnectionPlan::Reject
    } else {
        match rt.selector {
            L4Selector::Sni { .. } => ConnectionPlan::Inspect,
            L4Selector::Balancer(b) => {
                let source = if rt.spec.transparent {
                    client
                } else {
                    None
                };
                let target = if rt.spec.transparent && original is Some {
                    original
                } else {
                    b.choice(selection_key(rt.spec.lb_policy, client))
                };
                match target {
                    Some(upstream) => ConnectionPlan::Relay { upstream, source },
                    None => ConnectionPlan::NoUpstream,
                }
            },
        }
    }
}

impl AppRuntime {
    /// Decide what to do with a new connection. Admission comes first, so a
    /// listener at its limit spends nothing on selection.
    pub fn plan_connection(
        &mut self,
        admitted: bool,
        client: Option<SocketAddr>,
        original: Option<SocketAddr>,
    ) -> (r: ConnectionPlan)
        requires
            old(self).wf(),
        ensures
            final(self).wf(),
            r == plan(*old(self), admitted, client, original),
            final(self).spec == old(self).spec,
            final(self).resolved == old(self).resolved,
            old(self).selector is Sni ==> final(self).selector == old(self).selector,
            old(self).selector matches L4Selector::Balancer(b) ==> (
            final(self).selector matches L4Selector::Balancer(c) && c.backends == b.backends
                && c.policy == b.policy && c.ring == b.ring && c.health_check == b.health_check
                && c.cursor == (if !admitted || (old(self).spec.transparent && original is Some)
                || b.policy == LbPolicy::IpHash || b.backends@.len() == 0 {
                b.cursor
            } else {
                b.cursor.wrapping_add(1usize)
            })),
    {
        if !admitted {
            return ConnectionPlan::Reject;
        }
        let transparent = self.spec.transparent;
        let policy = self.spec.lb_policy;
        match &mut self.selector {
            L4Selector::Sni { .. } => ConnectionPlan::Inspect,
            L4Selector::Balancer(b) => {
                let source = if transparent {
                    client
                } else {
                    None
                };
                if transparent {
                    if let Some(upstream) = original {
                        return ConnectionPlan::Relay { upstream, source };
                    }
                }
                let key = key_for(policy, client);
                match b.select(key.as_slice()) {
                    Some(upstream) => ConnectionPlan::Relay { upstream, source },
                    None => ConnectionPlan::NoUpstream,
                }
            },
        }
    }
}

/// Whether an upstream is named by host, so that its addresses can change.
pub open spec fn by_name(u: L4UpstreamView) -> bool {
    ip_literal(u.host) is None
}

/// Whether a listener has an upstream that is named by host, among its shared
/// upstreams, its routes and its fallback.
pub open spec fn has_names(tcp: TcpProxyConfigView) -> bool {
    ||| exists|i: int| 0 <= i < tcp.upstreams.len() && by_name(#[trigger] tcp.upstreams[i])
    ||| exists|i: int|
        0 <= i < tcp.sni_routes.len() && by_name((#[trigger] tcp.sni_routes[i]).upstream)
    ||| tcp.sni_fallback matches Some(u) && by_name(u)
}

fn is_by_name(u: &L4Upstream) -> (r: bool)
    ensures
        r == by_name(u.deep_view()),
{
    IpAddr::parse(u.host.as_str()).is_none()
}

/// Whether a listener has an upstream that is named by host. One with IP literals
/// alone never changes its addresses.
pub fn has_hostname_upstreams(tcp: &TcpProxyConfig) -> (r: bool)
    ensures
        r == has_names(tcp.deep_view()),
{
    let ghost v = tcp.deep_view();
    let mut i: usize = 0;
    while i < tcp.upstreams.len()
        invariant
            i <= tcp.upstreams@.len(),
            v == tcp.deep_view(),
            forall|j: int| 0 <= j < i ==> !by_name(#[trigger] v.upstreams[j]),
        decreases tcp.upstreams@.len() - i,
    {
        assert(v.upstreams[i as int] == tcp.upstreams@[i as int].deep_view());
        if is_by_name(&tcp.upstreams[i]) {
            return true;
        }
        i += 1;
    }
    let mut k: usize = 0;
    while k < tcp.sni_routes.len()
        invariant
            k <= tcp.sni_routes@.len(),
            v == tcp.deep_view(),
            forall|j: int| 0 <= j < v.upstreams.len() ==> !by_name(#[trigger] v.upstreams[j]),
            forall|j: int| 0 <= j < k ==> !by_name((#[trigger] v.sni_routes[j]).upstream),
        decreases tcp.sni_routes@.len() - k,
    {
        assert(v.sni_routes[k as int] == tcp.sni_routes@[k as int].deep_view());
        if is_by_name(&tcp.sni_routes[k].upstream) {
            return true;
        }
        k += 1;
    }
    match &tcp.sni_fallback {
        Some(u) => is_by_name(u),
        None => false,
    }
}

/// How often host names are looked up again, in seconds, unless the environment
/// says otherwise.
pub const DNS_REFRESH_SECS: u64 = 60;

/// The period of lookups in seconds; `var` is the setting from the environment,
/// which counts when it is a number.
pub fn dns_refresh_interval(var: Option<&str>) -> (r: u64)
    ensures
        r == match var {
            Some(v) => match number(v@, u64::MAX as nat) {
                Some(n) => n as u64,
                None => DNS_REFRESH_SECS,
            },
            None => DNS_REFRESH_SECS,
        },
{
    match var {
        Some(v) => match parse_u64(v) {
            Some(n) => n,
            None => DNS_REFRESH_SECS,
        },
        None => DNS_REFRESH_SECS,
    }
}

// ---------------------------------------------------------------------------
// The relay of a connection
// ---------------------------------------------------------------------------

/// The address to connect to an upstream from: any, or the source that
/// transparent mode keeps, which has to be of the same family.
pub open spec fn connect_source(upstream: SocketAddr, source: Option<SocketAddr>) -> Result<
    Option<SocketAddr>,
    Seq<char>,
> {
    match source {
        Some(s) => if (s.ip is V4) != (upstream.ip is V4) {
            Err("transparent source and upstream address families differ"@)
        } else {
            Ok(Some(s))
        },
        None => Ok(None),
    }
}

/// Decide which address to connect to an upstream from.
pub fn source_for(upstream: SocketAddr, source: Option<SocketAddr>) -> (r: Result<
    Option<SocketAddr>,
    String,
>)
    ensures
        match (r, connect_source(upstream, source)) {
            (Ok(a), Ok(b)) => a == b,
            (Err(e), Err(m)) => e@ == m,
            _ => false,
        },
{
    match source {
        Some(s) => if s.is_ipv4() != upstream.is_ipv4() {
            Err(owned("transparent source and upstream address families differ"))
        } else {
            Ok(Some(s))
        },
        None => Ok(None),
    }
}

/// Why a bidirectional relay ended.
#[derive(Clone, Copy, PartialEq, Eq, Structural, Debug)]
pub enum EndReason {
    /// Both directions finished.
    Closed,
    /// No traffic for as long as the inactivity timeout.
    Idle,
    /// The server began shutting down.
    Shutdown,
}

impl EndReason {
    /// The word for the access record.
    pub open spec fn word(self) -> Seq<char> {
        match self {
            EndReason::Closed => "closed"@,
            EndReason::Idle => "idle_timeout"@,
            EndReason::Shutdown => "shutdown"@,
        }
    }

    /// The word for the access record.
    pub fn as_str(&self) -> (r: &'static str)
        ensures
            r@ == self.word(),
    {
        match self {
            EndReason::Closed => "closed",
            EndReason::Idle => "idle_timeout",
            EndReason::Shutdown => "shutdown",
        }
    }
}

/// Why a relay ended, once both directions are done: a shutdown comes before the
/// watchdog, which only stops an idle connection otherwise.
pub fn end_reason(shutting_down: bool, stopped: bool) -> (r: EndReason)
    ensures
        r == if shutting_down {
            EndReason::Shutdown
        } else if stopped {
            EndReason::Idle
        } else {
            EndReason::Closed
        },
{
    if shutting_down {
        EndReason::Shutdown
    } else if stopped {
        EndReason::Idle
    } else {
        EndReason::Closed
    }
}

/// What the watchdog of a relay does next.
#[derive(Clone, Copy, PartialEq, Eq, Structural, Debug)]
pub enum Watch {
    /// Stop both directions.
    Stop,
    /// Sleep for this many nanoseconds, or until a shutdown, and look again.
    Sleep(u64),
}

/// What the watchdog does at `now`, when traffic in either direction was last
/// seen at `last`; both in nanoseconds.
pub open spec fn watched(shutting_down: bool, last: u64, idle: Duration, now: u64) -> Watch {
    if shutting_down || now >= last + idle.nanos {
        Watch::Stop
    } else {
        Watch::Sleep((last + idle.nanos - now) as u64)
    }
}

/// Decide whether a relay is stopped.
pub fn watch(shutting_down: bool, last: u64, idle: Duration, now: u64) -> (r: Watch)
    requires
        last + idle.nanos <= u64::MAX,
    ensures
        r == watched(shutting_down, last, idle, now),
{
    if shutting_down {
        return Watch::Stop;
    }
    let deadline: u64 = last + idle.nanos;
    if now >= deadline {
        Watch::Stop
    } else {
        Watch::Sleep(deadline - now)
    }
}

/// The inactivity timeout is a true one: without a shutdown a relay is stopped
/// exactly when no traffic was seen for the whole timeout, and a watchdog that
/// sleeps wakes at the moment when that would be so.
pub proof fn only_idle_relays_are_stopped(last: u64, idle: Duration, now: u64)
    requires
        last <= now,
    ensures
        watched(false, last, idle, now) == Watch::Stop <==> now - last >= idle.nanos,
        watched(false, last, idle, now) matches Watch::Sleep(n) ==> n > 0 && now + n - last
            == idle.nanos,
{
}

/// What one direction of a relay saw.
#[derive(Clone, Copy, PartialEq, Eq, Structural, Debug)]
pub enum PumpEvent {
    /// The relay was stopped.
    Stopped,
    /// The source has no more bytes.
    Eof,
    /// This many bytes were read, written and flushed.
    Copied(usize),
    /// A read, a write or a flush failed.
    Failed,
}

/// What one direction of a relay does next.
#[derive(Clone, Copy, PartialEq, Eq, Structural, Debug)]
pub enum PumpStep {
    /// Go on, and reset the activity clock.
    Continue,
    /// Close the write side of the destination, and end.
    HalfClose,
    /// End.
    End,
}

/// Decide what one direction of a relay does next, and count its bytes.
pub fn pump(total: &mut u64, event: PumpEvent) -> (r: PumpStep)
    requires
        event matches PumpEvent::Copied(n) ==> *old(total) + n <= u64::MAX,
    ensures
        r == match event {
            PumpEvent::Copied(_) => PumpStep::Continue,
            PumpEvent::Eof => PumpStep::HalfClose,
            _ => PumpStep::End,
        },
        *final(total) == match event {
            PumpEvent::Copied(n) => *old(total) + n,
            _ => *old(total) as int,
        },
{
    match event {
        PumpEvent::Copied(n) => {
            *total = *total + n as u64;
            PumpStep::Continue
        },
        PumpEvent::Eof => PumpStep::HalfClose,
        _ => PumpStep::End,
    }
}

/// How a relay went on after its upstream was chosen.
#[derive(Clone, Copy, PartialEq, Eq, Structural, Debug)]
pub enum RelayEvent {
    ConnectFailed,
    ConnectTimedOut,
    /// The inspected bytes could not be sent on.
    PrefixWriteFailed,
    /// Both directions ran, with the bytes that each relayed.
    Relayed { c2u: u64, u2c: u64, end: EndReason },
}

/// The counters that a relay can add to, besides those of bytes.
#[derive(Clone, Copy, PartialEq, Eq, Structural, Debug)]
pub enum RelayCounter {
    ConnectFailures,
    IdleTimeouts,
    ShutdownCancellations,
}

/// How a relayed connection ended, for the access record.
pub struct RelayOutcome {
    pub c2u: u64,
    pub u2c: u64,
    pub upstream: SocketAddr,
    pub reason: &'static str,
}

/// The address in the record of a connection that found no upstream.
pub open spec fn nowhere() -> SocketAddr {
    SocketAddr::at(IpAddr::V4(0), 0)
}

/// The word for the access record.
pub open spec fn relay_word(event: RelayEvent) -> Seq<char> {
    match event {
        RelayEvent::ConnectFailed => "connect_failed"@,
        RelayEvent::ConnectTimedOut => "connect_timeout"@,
        RelayEvent::PrefixWriteFailed => "prefix_write_failed"@,
        RelayEvent::Relayed { end, .. } => end.word(),
    }
}

/// The outcome of a relay to `upstream`, and the counter it adds to.
pub fn relay_outcome(upstream: SocketAddr, event: RelayEvent) -> (r: (
    RelayOutcome,
    Option<RelayCounter>,
))
    ensures
        r.0.upstream == upstream,
        r.0.reason@ == relay_word(event),
        (r.0.c2u, r.0.u2c) == match event {
            RelayEvent::Relayed { c2u, u2c, .. } => (c2u, u2c),
            _ => (0u64, 0u64),
        },
        r.1 == match event {
            RelayEvent::Relayed { end: EndReason::Idle, .. } => Some(RelayCounter::IdleTimeouts),
            RelayEvent::Relayed { end: EndReason::Shutdown, .. } => Some(
                RelayCounter::ShutdownCancellations,
            ),
            RelayEvent::Relayed { end: EndReason::Closed, .. } => None,
            _ => Some(RelayCounter::ConnectFailures),
        },
{
    match event {
        RelayEvent::ConnectFailed => (
            RelayOutcome { c2u: 0, u2c: 0, upstream, reason: "connect_failed" },
            Some(RelayCounter::ConnectFailures),
        ),
        RelayEvent::ConnectTimedOut => (
            RelayOutcome { c2u: 0, u2c: 0, upstream, reason: "connect_timeout" },
            Some(RelayCounter::ConnectFailures),
        ),
        RelayEvent::PrefixWriteFailed => (
            RelayOutcome { c2u: 0, u2c: 0, upstream, reason: "prefix_write_failed" },
            Some(RelayCounter::ConnectFailures),
        ),
        RelayEvent::Relayed { c2u, u2c, end } => (
            RelayOutcome { c2u, u2c, upstream, reason: end.as_str() },
            match end {
                EndReason::Idle => Some(RelayCounter::IdleTimeouts),
                EndReason::Shutdown => Some(RelayCounter::ShutdownCancellations),
                EndReason::Closed => None,
            },
        ),
    }
}

/// The outcome of a connection that no route matched and that has no fallback:
/// it is closed, with nothing relayed.
pub fn unrouted(reason: SniReason) -> (r: RelayOutcome)
    ensures
        r.c2u == 0,
        r.u2c == 0,
        r.upstream == nowhere(),
        r.reason@ == reason.word(),
{
    RelayOutcome {
        c2u: 0,
        u2c: 0,
        upstream: SocketAddr::new(IpAddr::V4(0), 0),
        reason: reason.as_str(),
    }
}

/// A record of one closed connection.
pub struct TcpAccessRecord {
    /// When the connection was accepted, in milliseconds since the epoch.
    pub ts_ms: u64,
    /// The listener, `tcp/<address>`.
    pub listener: String,
    pub client: SocketAddr,
    pub upstream: SocketAddr,
    pub duration_ms: u64,
    pub client_to_upstream_bytes: u64,
    pub upstream_to_client_bytes: u64,
    /// How the connection ended.
    pub outcome: &'static str,
}

/// Write the record of a connection. A client of unknown address is recorded
/// under that of the upstream.
pub fn access_record(
    listener: &str,
    ts_ms: u64,
    duration_ms: u64,
    client: Option<SocketAddr>,
    outcome: &RelayOutcome,
) -> (r: TcpAccessRecord)
    ensures
        r.ts_ms == ts_ms,
        r.listener@ == listener@,
        r.client == match client {
            Some(c) => c,
            None => outcome.upstream,
        },
        r.upstream == outcome.upstream,
        r.duration_ms == duration_ms,
        r.client_to_upstream_bytes == outcome.c2u,
        r.upstream_to_client_bytes == outcome.u2c,
        r.outcome == outcome.reason,
{
    TcpAccessRecord {
        ts_ms,
        listener: owned(listener),
        client: match client {
            Some(c) => c,
            None => outcome.upstream,
        },
        upstream: outcome.upstream,
        duration_ms,
        client_to_upstream_bytes: outcome.c2u,
        upstream_to_client_bytes: outcome.u2c,
        outcome: outcome.reason,
    }
}

} // verus!
