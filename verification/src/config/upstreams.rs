//! What a reverse proxy connects to, and how.
use crate::config::answers::{resolved, AnswersView, FaultView};
use crate::config::ast::{
    HealthCheckSpec, LbPolicy, ProxyTlsConfigView, TlsConfigView, TlsVersion, UpstreamView,
};
use crate::config::compiled::{
    CertificateView, TerminalKindView, UpstreamPeerView, UpstreamTlsView,
};
use crate::config::validate::{
    any_tls, cas_from, certificates_of, peers_at, peers_from, proxy_kind,
    tls_fault, upstream_tls,
};
use crate::net::SocketAddr;
use vstd::prelude::*;

verus! {

/// Whether `addr` is an address of an upstream.
pub open spec fn has_address(answers: AnswersView, u: UpstreamView, addr: SocketAddr) -> bool {
    resolved(answers.hosts, u.host, u.port) matches Ok(addrs) && addrs.contains(addr)
}

/// Whether an upstream has an address.
pub open spec fn has_some_address(answers: AnswersView, u: UpstreamView) -> bool {
    resolved(answers.hosts, u.host, u.port) matches Ok(addrs) && addrs.len() > 0
}

/// Whether a peer is an upstream at an address.
pub open spec fn is_peer_at(p: UpstreamPeerView, u: UpstreamView, addr: SocketAddr) -> bool {
    &&& p.addr == addr
    &&& p.host == u.host
    &&& p.tls == u.tls
    &&& p.http_version == u.http_version
}

/// A proxy has a peer for every address of every upstream that it names, with the
/// host, the TLS setting and the HTTP version of that upstream, and no other peer.
/// The policy and the health check are its own.
pub proof fn peers_come_from_upstreams(
    answers: AnswersView,
    to: Seq<UpstreamView>,
    lb_policy: LbPolicy,
    health_check: Option<HealthCheckSpec>,
    tls: ProxyTlsConfigView,
    kind: TerminalKindView,
)
    requires
        proxy_kind(answers, to, lb_policy, health_check, tls) == Ok::<TerminalKindView, FaultView>(
            kind,
        ),
    ensures
        kind is ReverseProxy,
        kind->ReverseProxy_lb_policy == lb_policy,
        kind->ReverseProxy_health_check == health_check,
        forall|k: int|
            0 <= k < kind->ReverseProxy_upstreams.len() ==> from_one_of(
                answers,
                to,
                to.len() as int,
                #[trigger] kind->ReverseProxy_upstreams[k],
            ),
        forall|i: int, addr: SocketAddr|
            0 <= i < to.len() && #[trigger] has_address(answers, to[i], addr) ==> has_peer(
                kind->ReverseProxy_upstreams,
                to[i],
                addr,
            ),
        forall|i: int| 0 <= i < to.len() ==> has_some_address(answers, #[trigger] to[i]),
{
    lemma_peers(answers, to, 0, Seq::empty());
    let peers = peers_from(answers, to, 0, Seq::empty())->Ok_0;
    assert(kind->ReverseProxy_upstreams == peers);
}

/// Whether a peer comes from one of the first `n` upstreams.
pub open spec fn from_one_of(
    answers: AnswersView,
    to: Seq<UpstreamView>,
    n: int,
    p: UpstreamPeerView,
) -> bool {
    exists|i: int| 0 <= i < n && #[trigger] is_from(answers, to, i, p)
}

/// Whether a peer comes from the upstream numbered `i`.
pub open spec fn is_from(
    answers: AnswersView,
    to: Seq<UpstreamView>,
    i: int,
    p: UpstreamPeerView,
) -> bool {
    has_address(answers, to[i], p.addr) && is_peer_at(p, to[i], p.addr)
}

/// Whether an upstream at an address is among peers.
pub open spec fn has_peer(
    peers: Seq<UpstreamPeerView>,
    u: UpstreamView,
    addr: SocketAddr,
) -> bool {
    exists|k: int| 0 <= k < peers.len() && is_peer_at(#[trigger] peers[k], u, addr)
}

/// How a proxy uses TLS: only towards an upstream that asks for it, with the
/// certificate verified unless that is switched off, for the server name that is
/// set, against the CA files that are named or those of the system, and with a
/// client certificate where one is named.
pub proof fn tls_follows_the_options(
    answers: AnswersView,
    to: Seq<UpstreamView>,
    config: ProxyTlsConfigView,
    r: Option<UpstreamTlsView>,
)
    requires
        upstream_tls(answers, config, any_tls(to)) == Ok::<Option<UpstreamTlsView>, FaultView>(r),
    ensures
        r is Some <==> exists|i: int| 0 <= i < to.len() && (#[trigger] to[i]).tls,
        r matches Some(t) ==> {
            &&& t.verify_cert == !config.skip_verify
            &&& config.servername matches Some(name) ==> t.servername == name
            &&& config.servername is None ==> t.servername.len() == 0
            &&& t.ca is Some <==> config.ca_files.len() > 0
            &&& t.client_cert is Some <==> config.cert_file is Some
            &&& config.cert_file is Some <==> config.key_file is Some
        },
        r is None ==> config.servername is None && !config.skip_verify && config.ca_files.len() == 0
            && config.cert_file is None,
{
}

/// Whether `part` stands in `all`, without a gap.
pub open spec fn has_part(all: Seq<CertificateView>, part: Seq<CertificateView>) -> bool {
    exists|k: int| #[trigger] is_part_at(all, part, k)
}

/// Whether `part` stands at `k` in `all`.
pub open spec fn is_part_at(
    all: Seq<CertificateView>,
    part: Seq<CertificateView>,
    k: int,
) -> bool {
    0 <= k && k + part.len() <= all.len() && all.subrange(k, k + part.len()) == part
}

/// The CA of a proxy holds the certificates of all its CA files, in their order.
pub proof fn ca_files_are_joined(answers: AnswersView, config: ProxyTlsConfigView, n: int)
    requires
        0 <= n < config.ca_files.len(),
        upstream_tls(answers, config, true) is Ok,
    ensures
        ({
            let all = upstream_tls(answers, config, true)->Ok_0->0.ca->0;
            let one = certificates_of(
                answers,
                config.ca_files[n],
                "failed to read CA file "@ + config.ca_files[n] + ": "@,
                "invalid CA certificate in "@ + config.ca_files[n] + ": "@,
            );
            &&& one is Ok
            &&& has_part(all, one->Ok_0)
        }),
{
    lemma_cas(answers, config.ca_files, 0, Seq::empty(), n);
    let all = cas_from(answers, config.ca_files, 0, Seq::empty())->Ok_0;
    assert(upstream_tls(answers, config, true)->Ok_0->0.ca == Some(all));
}

/// A range of TLS versions without any version in it is refused, whatever else is
/// set, and no other range is refused for itself.
pub proof fn empty_version_ranges_are_refused(answers: AnswersView, config: TlsConfigView)
    ensures
        config.min_version == Some(TlsVersion::Tls13) && config.max_version == Some(
            TlsVersion::Tls12,
        ) ==> tls_fault(answers, config) is Some,
        !(config.min_version == Some(TlsVersion::Tls13) && config.max_version == Some(
            TlsVersion::Tls12,
        )) && config.source == crate::config::ast::TlsSourceView::Acme && config.client_auth is None
            ==> tls_fault(answers, config) is None,
{
}

// ---------------------------------------------------------------------------
// Peers
// ---------------------------------------------------------------------------

/// Whether `peers` are those of the first `i` upstreams.
spec fn peers_so_far(
    answers: AnswersView,
    to: Seq<UpstreamView>,
    i: int,
    peers: Seq<UpstreamPeerView>,
) -> bool {
    &&& forall|k: int|
        0 <= k < peers.len() ==> from_one_of(answers, to, i, #[trigger] peers[k])
    &&& forall|j: int, addr: SocketAddr|
        0 <= j < i && #[trigger] has_address(answers, to[j], addr) ==> has_peer(peers, to[j], addr)
    &&& forall|j: int| 0 <= j < i ==> has_some_address(answers, #[trigger] to[j])
}

proof fn lemma_peers(
    answers: AnswersView,
    to: Seq<UpstreamView>,
    i: int,
    done: Seq<UpstreamPeerView>,
)
    requires
        0 <= i <= to.len(),
        peers_so_far(answers, to, i, done),
    ensures
        peers_from(answers, to, i, done) matches Ok(peers) ==> peers_so_far(
            answers,
            to,
            to.len() as int,
            peers,
        ),
    decreases to.len() - i,
{
    if i < to.len() {
        if let Ok(addrs) = resolved(answers.hosts, to[i].host, to[i].port) {
            if addrs.len() > 0 {
                let next = peers_at(to[i], addrs, 0, done);
                lemma_peers_at(to[i], addrs, 0, done);
                assert forall|k: int| 0 <= k < next.len() implies from_one_of(
                    answers,
                    to,
                    i + 1,
                    #[trigger] next[k],
                ) by {
                    if k < done.len() {
                        assert(next[k] == done[k]);
                        assert(from_one_of(answers, to, i, done[k]));
                        let j = choose|j: int| 0 <= j < i && #[trigger] is_from(answers, to, j, done[k]);
                        assert(is_from(answers, to, j, next[k]));
                    } else {
                        assert(is_from(answers, to, i, next[k]));
                    }
                }
                assert forall|j: int, addr: SocketAddr|
                    0 <= j < i + 1 && #[trigger] has_address(
                        answers,
                        to[j],
                        addr,
                    ) implies has_peer(next, to[j], addr) by {
                    if j < i {
                        assert(has_peer(done, to[j], addr));
                        let k = choose|k: int|
                            0 <= k < done.len() && is_peer_at(#[trigger] done[k], to[j], addr);
                        assert(next[k] == done[k]);
                    } else {
                        let a = choose|a: int| 0 <= a < addrs.len() && addrs[a] == addr;
                        assert(has_peer(next, to[i], addrs[a]));
                    }
                }
                lemma_peers(answers, to, i + 1, next);
            }
        }
    }
}

proof fn lemma_peers_at(
    u: UpstreamView,
    addrs: Seq<SocketAddr>,
    a: int,
    done: Seq<UpstreamPeerView>,
)
    requires
        0 <= a <= addrs.len(),
    ensures
        done.is_prefix_of(peers_at(u, addrs, a, done)),
        forall|k: int|
            done.len() <= k < peers_at(u, addrs, a, done).len() ==> addrs.contains(
                (#[trigger] peers_at(u, addrs, a, done)[k]).addr,
            ) && is_peer_at(
                peers_at(u, addrs, a, done)[k],
                u,
                peers_at(u, addrs, a, done)[k].addr,
            ),
        forall|b: int|
            a <= b < addrs.len() ==> has_peer(
                peers_at(u, addrs, a, done),
                u,
                #[trigger] addrs[b],
            ),
    decreases addrs.len() - a,
{
    if a < addrs.len() {
        let p = crate::config::validate::peer(u, addrs[a]);
        let next = if done.contains(p) {
            done
        } else {
            done.push(p)
        };
        lemma_peers_at(u, addrs, a + 1, next);
        let all = peers_at(u, addrs, a, done);
        let k = if done.contains(p) {
            choose|k: int| 0 <= k < done.len() && done[k] == p
        } else {
            done.len() as int
        };
        assert(next[k] == p);
        assert(all[k] == next[k]);
        assert(is_peer_at(all[k], u, addrs[a]));
        assert(addrs.contains(addrs[a]));
        assert forall|m: int| done.len() <= m < all.len() implies addrs.contains(
            (#[trigger] all[m]).addr,
        ) && is_peer_at(all[m], u, all[m].addr) by {
            if m < next.len() {
                assert(all[m] == next[m]);
            }
        }
    }
}

proof fn lemma_cas(
    answers: AnswersView,
    paths: Seq<Seq<char>>,
    i: int,
    done: Seq<CertificateView>,
    n: int,
)
    requires
        0 <= i <= n < paths.len(),
        cas_from(answers, paths, i, done) is Ok,
    ensures
        ({
            let all = cas_from(answers, paths, i, done)->Ok_0;
            let one = certificates_of(
                answers,
                paths[n],
                "failed to read CA file "@ + paths[n] + ": "@,
                "invalid CA certificate in "@ + paths[n] + ": "@,
            );
            &&& one is Ok
            &&& has_part(all, one->Ok_0)
        }),
    decreases paths.len() - i,
{
    let certs = certificates_of(
        answers,
        paths[i],
        "failed to read CA file "@ + paths[i] + ": "@,
        "invalid CA certificate in "@ + paths[i] + ": "@,
    )->Ok_0;
    if i < n {
        lemma_cas(answers, paths, i + 1, done + certs, n);
    } else {
        lemma_cas_grow(answers, paths, i + 1, done + certs);
        let all = cas_from(answers, paths, i, done)->Ok_0;
        let k = done.len() as int;
        assert(all.take((done + certs).len() as int) == done + certs);
        assert(all.subrange(k, k + certs.len()) == certs) by {
            assert forall|m: int| 0 <= m < certs.len() implies all[k + m] == certs[m] by {
                assert(all.take((done + certs).len() as int)[k + m] == (done + certs)[k + m]);
            }
        }
        assert(is_part_at(all, certs, k));
    }
}

proof fn lemma_cas_grow(
    answers: AnswersView,
    paths: Seq<Seq<char>>,
    i: int,
    done: Seq<CertificateView>,
)
    requires
        0 <= i,
    ensures
        cas_from(answers, paths, i, done) matches Ok(all) ==> done.is_prefix_of(all),
    decreases paths.len() - i,
{
    if i < paths.len() {
        if let Ok(certs) = certificates_of(
            answers,
            paths[i],
            "failed to read CA file "@ + paths[i] + ": "@,
            "invalid CA certificate in "@ + paths[i] + ": "@,
        ) {
            lemma_cas_grow(answers, paths, i + 1, done + certs);
        }
    }
}

} // verus!
