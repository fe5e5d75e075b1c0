//! Where the connections of a TCP listener go.
use crate::config::answers::HostAnswerView;
use crate::config::ast::{L4UpstreamView, LbPolicy, SniRouteView};
use crate::layer4::tcp::{
    decision, listener_addresses, normalized, plan, route_index, route_map, routes_from,
    sni_resolved, upstream_addresses, with_route, AppRuntime, ConnectionPlan, ResolveFaultView,
    SniDecision, SniReason,
};
use crate::layer4::tls::InspectOutcome;
use crate::net::{ip_literal, IpAddr, SocketAddr};
use crate::text::{cut, lemma_first_index};
use vstd::prelude::*;
use vstd::utf8::encode_utf8;

verus! {

/// Whether the route numbered `i` is the last one for its name.
pub open spec fn is_last_route(routes: Seq<SniRouteView>, i: int) -> bool {
    &&& 0 <= i < routes.len()
    &&& forall|j: int| i < j < routes.len() ==> (#[trigger] routes[j]).name != routes[i].name
}

/// Whether there is a route for a name.
pub open spec fn has_route(routes: Seq<SniRouteView>, name: Seq<char>) -> bool {
    exists|j: int| 0 <= j < routes.len() && (#[trigger] routes[j]).name == name
}

/// Whether `addr` is the first address of an upstream: the literal itself, or what
/// its host name resolves to first.
pub open spec fn is_first_address(
    hosts: Seq<HostAnswerView>,
    u: L4UpstreamView,
    addr: SocketAddr,
) -> bool {
    match ip_literal(u.host) {
        Some(ip) => addr == SocketAddr::at(ip, u.port),
        None => upstream_addresses(hosts, u) matches Ok(addrs) && addrs.len() > 0 && addr
            == addrs[0],
    }
}

/// A client that names a host with a route goes to the first address of the
/// upstream of that route, the last one where a name has several.
pub proof fn a_name_goes_to_its_route(
    hosts: Seq<HostAnswerView>,
    what: Seq<char>,
    routes: Seq<SniRouteView>,
    fallback: Option<L4UpstreamView>,
    inspected: InspectOutcome,
    i: int,
    addr: SocketAddr,
)
    requires
        sni_resolved(hosts, what, routes, fallback) is Ok,
        is_last_route(routes, i),
        inspected matches InspectOutcome::Sni { name, .. } && name@ == routes[i].name,
        is_first_address(hosts, routes[i].upstream, addr),
    ensures
        decision(
            inspected,
            route_map(sni_resolved(hosts, what, routes, fallback)->Ok_0.0),
            sni_resolved(hosts, what, routes, fallback)->Ok_0.1,
        ) == (SniDecision::Relay { upstream: addr, reason: SniReason::Routed }),
{
    let rs = sni_resolved(hosts, what, routes, fallback)->Ok_0.0;
    lemma_table(hosts, what, routes, 0, Seq::empty());
    lemma_found(hosts, what, routes, rs, i);
    lemma_first(hosts, what + " sni route '"@ + routes[i].name + "'"@, routes[i].upstream, addr);
}

/// A client that names a host without a route of its own goes by the route for the
/// names one label above it, if there is one.
pub proof fn a_name_goes_by_the_wildcard(
    hosts: Seq<HostAnswerView>,
    what: Seq<char>,
    routes: Seq<SniRouteView>,
    fallback: Option<L4UpstreamView>,
    inspected: InspectOutcome,
    label: Seq<char>,
    domain: Seq<char>,
    i: int,
    addr: SocketAddr,
)
    requires
        sni_resolved(hosts, what, routes, fallback) is Ok,
        inspected matches InspectOutcome::Sni { name, .. } && name@ == label + "."@ + domain,
        label.len() > 0,
        !label.contains('.'),
        domain.len() > 0,
        !has_route(routes, label + "."@ + domain),
        is_last_route(routes, i),
        routes[i].name == "*."@ + domain,
        is_first_address(hosts, routes[i].upstream, addr),
    ensures
        decision(
            inspected,
            route_map(sni_resolved(hosts, what, routes, fallback)->Ok_0.0),
            sni_resolved(hosts, what, routes, fallback)->Ok_0.1,
        ) == (SniDecision::Relay { upstream: addr, reason: SniReason::Routed }),
{
    let rs = sni_resolved(hosts, what, routes, fallback)->Ok_0.0;
    lemma_table(hosts, what, routes, 0, Seq::empty());
    lemma_found(hosts, what, routes, rs, i);
    lemma_not_found(hosts, what, routes, rs, label + "."@ + domain);
    lemma_first(hosts, what + " sni route '"@ + routes[i].name + "'"@, routes[i].upstream, addr);
    lemma_label(label, domain);
}

/// A client that no route serves goes to the fallback, and is closed where there is
/// none; the reason says what was missing.
pub proof fn the_fallback_takes_the_rest(
    hosts: Seq<HostAnswerView>,
    what: Seq<char>,
    routes: Seq<SniRouteView>,
    fallback: Option<L4UpstreamView>,
    inspected: InspectOutcome,
    label: Seq<char>,
    domain: Seq<char>,
)
    requires
        sni_resolved(hosts, what, routes, fallback) is Ok,
        inspected matches InspectOutcome::Sni { name, .. } ==> name@ == label + "."@ + domain
            && label.len() > 0 && !label.contains('.') && domain.len() > 0 && !has_route(
            routes,
            name@,
        ) && !has_route(routes, "*."@ + domain),
    ensures
        ({
            let (rs, fb) = sni_resolved(hosts, what, routes, fallback)->Ok_0;
            let got = decision(inspected, route_map(rs), fb);
            &&& match fallback {
                Some(u) => got is Relay && is_first_address(hosts, u, got->upstream),
                None => got is Close,
            }
            &&& match inspected {
                InspectOutcome::Sni { .. } => if fallback is Some {
                    got->Relay_reason == SniReason::Fallback
                } else {
                    got->Close_reason == SniReason::NoRoute
                },
                InspectOutcome::NoSni { .. } => if fallback is Some {
                    got->Relay_reason == SniReason::NoSni
                } else {
                    got->Close_reason == SniReason::NoSni
                },
                InspectOutcome::Malformed { .. } => if fallback is Some {
                    got->Relay_reason == SniReason::Malformed
                } else {
                    got->Close_reason == SniReason::Malformed
                },
            }
        }),
{
    let rs = sni_resolved(hosts, what, routes, fallback)->Ok_0.0;
    lemma_table(hosts, what, routes, 0, Seq::empty());
    if inspected is Sni {
        lemma_not_found(hosts, what, routes, rs, label + "."@ + domain);
        lemma_not_found(hosts, what, routes, rs, "*."@ + domain);
        lemma_label(label, domain);
    }
}

/// A connection over the limit is refused; one of a balanced listener goes to the
/// backend that is chosen for its client, by the address and never by the port; and
/// in transparent mode it comes from its client, and goes where the client meant
/// to go, if that is known.
pub proof fn connections_go_where_they_should(
    rt: AppRuntime,
    admitted: bool,
    client: Option<SocketAddr>,
    original: Option<SocketAddr>,
)
    ensures
        !admitted ==> plan(rt, admitted, client, original) is Reject,
        admitted && rt.selector is Sni ==> plan(rt, admitted, client, original) is Inspect,
        admitted && rt.selector is Balancer ==> match plan(rt, admitted, client, original) {
            ConnectionPlan::Relay { upstream, source } => {
                &&& source == (if rt.spec.transparent {
                    client
                } else {
                    None
                })
                &&& rt.spec.transparent && original is Some ==> upstream == original->0
                &&& (!rt.spec.transparent || original is None) && rt.spec.lb_policy
                    == LbPolicy::IpHash && client is Some ==> rt.selector->Balancer_0.choice(
                    encode_utf8(client->0.ip.text()),
                ) == Some(upstream)
                &&& (!rt.spec.transparent || original is None) && rt.spec.lb_policy
                    != LbPolicy::IpHash ==> rt.selector->Balancer_0.choice(Seq::empty()) == Some(
                    upstream,
                )
            },
            ConnectionPlan::NoUpstream => {
                &&& !rt.spec.transparent || original is None
                &&& rt.spec.lb_policy != LbPolicy::IpHash ==> rt.selector->Balancer_0.choice(
                    Seq::empty(),
                ) is None
            },
            _ => false,
        },
{
}

/// An IPv4 client of a dual-stack listener is seen under its IPv4 address, and any
/// other under its own.
pub proof fn mapped_addresses_are_unwrapped(v: u32, addr: SocketAddr)
    requires
        addr.ip == IpAddr::V6((0xffff_0000_0000 + v) as u128),
    ensures
        normalized(addr) == SocketAddr::at(IpAddr::V4(v), addr.port),
        forall|other: SocketAddr|
            (other.ip matches IpAddr::V6(w) ==> !(0xffff_0000_0000 <= w <= 0xffff_ffff_ffff))
                ==> #[trigger] normalized(other) == other,
{
}

// ---------------------------------------------------------------------------
// The table of routes
// ---------------------------------------------------------------------------

/// The address that a route resolves to.
spec fn route_address(hosts: Seq<HostAnswerView>, what: Seq<char>, r: SniRouteView) -> Result<
    Seq<SocketAddr>,
    ResolveFaultView,
> {
    listener_addresses(hosts, what + " sni route '"@ + r.name + "'"@, r.upstream)
}

/// Whether `rs` is the table of the first `i` routes.
spec fn is_table(
    hosts: Seq<HostAnswerView>,
    what: Seq<char>,
    routes: Seq<SniRouteView>,
    i: int,
    rs: Seq<(Seq<char>, SocketAddr)>,
) -> bool {
    &&& forall|a: int, b: int| 0 <= a < b < rs.len() ==> (#[trigger] rs[a]).0 != (#[trigger] rs[b]).0
    &&& forall|a: int|
        0 <= a < rs.len() ==> has_latest(hosts, what, routes, i, #[trigger] rs[a])
    &&& forall|j: int|
        0 <= j < i ==> exists|a: int|
            0 <= a < rs.len() && #[trigger] rs[a].0 == (#[trigger] routes[j]).name
}

/// Whether an entry is that of the last of the first `i` routes for its name.
spec fn has_latest(
    hosts: Seq<HostAnswerView>,
    what: Seq<char>,
    routes: Seq<SniRouteView>,
    i: int,
    entry: (Seq<char>, SocketAddr),
) -> bool {
    exists|j: int| 0 <= j < i && #[trigger] latest(hosts, what, routes, j, i, entry)
}

/// Whether an entry is that of the route `j`, and no route before `i` comes later
/// for its name.
spec fn latest(
    hosts: Seq<HostAnswerView>,
    what: Seq<char>,
    routes: Seq<SniRouteView>,
    j: int,
    i: int,
    entry: (Seq<char>, SocketAddr),
) -> bool {
    &&& entry.0 == routes[j].name
    &&& route_address(hosts, what, routes[j]) matches Ok(addrs) && entry.1 == addrs[0]
    &&& forall|k: int| j < k < i ==> (#[trigger] routes[k]).name != entry.0
}

proof fn lemma_route_index(routes: Seq<(Seq<char>, SocketAddr)>, name: Seq<char>, i: int)
    requires
        0 <= i <= routes.len(),
    ensures
        i <= route_index(routes, name, i) <= routes.len(),
        route_index(routes, name, i) < routes.len() ==> routes[route_index(routes, name, i)].0
            == name,
        forall|k: int| i <= k < route_index(routes, name, i) ==> (#[trigger] routes[k]).0 != name,
    decreases routes.len() - i,
{
    if i < routes.len() && routes[i].0 != name {
        lemma_route_index(routes, name, i + 1);
    }
}

proof fn lemma_table(
    hosts: Seq<HostAnswerView>,
    what: Seq<char>,
    routes: Seq<SniRouteView>,
    i: int,
    done: Seq<(Seq<char>, SocketAddr)>,
)
    requires
        0 <= i <= routes.len(),
        is_table(hosts, what, routes, i, done),
    ensures
        routes_from(hosts, what, routes, i, done) matches Ok(rs) ==> is_table(
            hosts,
            what,
            routes,
            routes.len() as int,
            rs,
        ),
    decreases routes.len() - i,
{
    if i < routes.len() {
        if let Ok(addrs) = route_address(hosts, what, routes[i]) {
            let next = with_route(done, routes[i].name, addrs[0]);
            lemma_table_step(hosts, what, routes, i, done, addrs);
            lemma_table(hosts, what, routes, i + 1, next);
        }
    }
}

proof fn lemma_table_step(
    hosts: Seq<HostAnswerView>,
    what: Seq<char>,
    routes: Seq<SniRouteView>,
    i: int,
    done: Seq<(Seq<char>, SocketAddr)>,
    addrs: Seq<SocketAddr>,
)
    requires
        0 <= i < routes.len(),
        is_table(hosts, what, routes, i, done),
        route_address(hosts, what, routes[i]) == Ok::<Seq<SocketAddr>, ResolveFaultView>(addrs),
    ensures
        is_table(hosts, what, routes, i + 1, with_route(done, routes[i].name, addrs[0])),
{
    let name = routes[i].name;
    let next = with_route(done, name, addrs[0]);
    lemma_route_index(done, name, 0);
    let x = route_index(done, name, 0);
    assert(next[x] == (name, addrs[0]));
    assert forall|a: int| 0 <= a < next.len() implies has_latest(
        hosts,
        what,
        routes,
        i + 1,
        #[trigger] next[a],
    ) by {
        if a == x {
            assert(latest(hosts, what, routes, i, i + 1, next[a]));
        } else {
            assert(next[a] == done[a]);
            assert(has_latest(hosts, what, routes, i, done[a]));
            let j = choose|j: int| 0 <= j < i && #[trigger] latest(hosts, what, routes, j, i, done[a]);
            assert(done[a].0 != name) by {
                if x < done.len() {
                    assert(done[x].0 == name);
                }
            }
            assert(latest(hosts, what, routes, j, i + 1, next[a]));
        }
    }
    assert forall|j: int| 0 <= j < i + 1 implies exists|a: int|
        0 <= a < next.len() && #[trigger] next[a].0 == (#[trigger] routes[j]).name by {
        if j == i {
            assert(next[x].0 == routes[j].name);
        } else {
            let a = choose|a: int| 0 <= a < done.len() && #[trigger] done[a].0 == routes[j].name;
            assert(next[a].0 == done[a].0);
        }
    }
    assert forall|a: int, b: int| 0 <= a < b < next.len() implies (#[trigger] next[a]).0 != (
    #[trigger] next[b]).0 by {
        if a != x && b != x {
            assert(next[a] == done[a] && next[b] == done[b]);
        } else if a == x {
            assert(next[b] == done[b]);
            assert(done[x].0 != done[b].0);
        } else {
            assert(next[a] == done[a]);
            if x < done.len() {
                assert(done[a].0 != done[x].0);
            }
        }
    }
}

/// What a table without repeated names maps.
proof fn lemma_map(rs: Seq<(Seq<char>, SocketAddr)>, name: Seq<char>)
    requires
        forall|a: int, b: int|
            0 <= a < b < rs.len() ==> (#[trigger] rs[a]).0 != (#[trigger] rs[b]).0,
    ensures
        route_map(rs).dom().contains(name) <==> exists|a: int|
            0 <= a < rs.len() && (#[trigger] rs[a]).0 == name,
        forall|a: int|
            0 <= a < rs.len() && (#[trigger] rs[a]).0 == name ==> route_map(rs)[name] == rs[a].1,
    decreases rs.len(),
{
    if rs.len() > 0 {
        let front = rs.drop_last();
        assert forall|a: int| 0 <= a < front.len() implies front[a] == rs[a] by {}
        lemma_map(front, name);
        if exists|a: int| 0 <= a < rs.len() && (#[trigger] rs[a]).0 == name {
            let a = choose|a: int| 0 <= a < rs.len() && (#[trigger] rs[a]).0 == name;
            if a < front.len() {
                assert(front[a].0 == name);
            }
        }
        if route_map(front).dom().contains(name) {
            let a = choose|a: int| 0 <= a < front.len() && (#[trigger] front[a]).0 == name;
            assert(rs[a].0 == name);
        }
        if rs.last().0 == name {
            assert(rs[rs.len() - 1].0 == name);
        }
        assert forall|a: int| 0 <= a < rs.len() && (#[trigger] rs[a]).0 == name implies route_map(
            rs,
        )[name] == rs[a].1 by {
            if a < rs.len() - 1 {
                assert(front[a] == rs[a]);
                assert(rs[a].0 != rs[rs.len() - 1].0);
            }
        }
    }
}

proof fn lemma_found(
    hosts: Seq<HostAnswerView>,
    what: Seq<char>,
    routes: Seq<SniRouteView>,
    rs: Seq<(Seq<char>, SocketAddr)>,
    i: int,
)
    requires
        is_table(hosts, what, routes, routes.len() as int, rs),
        is_last_route(routes, i),
    ensures
        route_map(rs).dom().contains(routes[i].name),
        route_address(hosts, what, routes[i]) is Ok,
        route_map(rs)[routes[i].name] == route_address(hosts, what, routes[i])->Ok_0[0],
{
    let name = routes[i].name;
    lemma_map(rs, name);
    let a = choose|a: int| 0 <= a < rs.len() && #[trigger] rs[a].0 == routes[i].name;
    assert(has_latest(hosts, what, routes, routes.len() as int, rs[a]));
    let j = choose|j: int|
        0 <= j < routes.len() && #[trigger] latest(
            hosts,
            what,
            routes,
            j,
            routes.len() as int,
            rs[a],
        );
    if j < i {
        assert(routes[i].name != rs[a].0);
    } else if i < j {
        assert(routes[j].name != routes[i].name);
    }
}

proof fn lemma_not_found(
    hosts: Seq<HostAnswerView>,
    what: Seq<char>,
    routes: Seq<SniRouteView>,
    rs: Seq<(Seq<char>, SocketAddr)>,
    name: Seq<char>,
)
    requires
        is_table(hosts, what, routes, routes.len() as int, rs),
        !has_route(routes, name),
    ensures
        !route_map(rs).dom().contains(name),
{
    lemma_map(rs, name);
    if exists|a: int| 0 <= a < rs.len() && (#[trigger] rs[a]).0 == name {
        let a = choose|a: int| 0 <= a < rs.len() && (#[trigger] rs[a]).0 == name;
        assert(has_latest(hosts, what, routes, routes.len() as int, rs[a]));
        let j = choose|j: int|
            0 <= j < routes.len() && #[trigger] latest(
                hosts,
                what,
                routes,
                j,
                routes.len() as int,
                rs[a],
            );
        assert(routes[j].name == name);
    }
}

proof fn lemma_first(hosts: Seq<HostAnswerView>, what: Seq<char>, u: L4UpstreamView, addr: SocketAddr)
    requires
        is_first_address(hosts, u, addr),
        listener_addresses(hosts, what, u) is Ok,
    ensures
        listener_addresses(hosts, what, u)->Ok_0[0] == addr,
{
}

proof fn lemma_label(label: Seq<char>, domain: Seq<char>)
    requires
        !label.contains('.'),
    ensures
        cut(label + "."@ + domain, '.') == Some((label, domain)),
{
    reveal_strlit(".");
    let name = label + "."@ + domain;
    lemma_first_index(name, '.');
    assert(name[label.len() as int] == '.');
    let i = crate::text::first_index(name, '.');
    if i < label.len() {
        assert(label[i] == '.');
    }
    assert(name.take(label.len() as int) == label);
    assert(name.skip(label.len() as int + 1) == domain);
}

} // verus!
