//! The compiled form of a configuration: terminals and modifiers.
use crate::config::ast::{
    Dup, Encoding, GlobalConfig, GlobalConfigView, HealthCheckSpec, Layer4Listener,
    Layer4ListenerView, LbPolicy, Matcher, MatcherView, RateSpec, RateSpecView, SiteKey, SiteKeyView,
    TlsConfig, TlsConfigView, UpstreamHttpVersion, ValueTemplate, ValueTemplateView,
};
use crate::net::{Cidr, SocketAddr};
use std::collections::BTreeSet;
use vstd::prelude::*;

verus! {

/// A resolved upstream: the address plus what the connection needs to know.
#[derive(PartialEq, Eq, Debug)]
pub struct UpstreamPeer {
    pub addr: SocketAddr,
    /// Whether the connection is TLS.
    pub tls: bool,
    pub http_version: UpstreamHttpVersion,
    /// The upstream host as written, the default server name for TLS.
    pub host: String,
}

/// The model of [`UpstreamPeer`].
#[verifier::ext_equal]
pub ghost struct UpstreamPeerView {
    pub addr: SocketAddr,
    pub tls: bool,
    pub http_version: UpstreamHttpVersion,
    pub host: Seq<char>,
}

impl DeepView for UpstreamPeer {
    type V = UpstreamPeerView;

    open spec fn deep_view(&self) -> UpstreamPeerView {
        UpstreamPeerView {
            addr: self.addr.deep_view(),
            tls: self.tls.deep_view(),
            http_version: self.http_version.deep_view(),
            host: self.host.deep_view(),
        }
    }
}

impl Dup for UpstreamPeer {
    fn dup(&self) -> UpstreamPeer {
        UpstreamPeer {
            addr: self.addr.dup(),
            tls: self.tls.dup(),
            http_version: self.http_version.dup(),
            host: self.host.dup(),
        }
    }
}

/// A certificate, in DER.
#[derive(PartialEq, Eq, Debug)]
pub struct Certificate {
    pub der: Vec<u8>,
}

/// The model of [`Certificate`].
#[verifier::ext_equal]
pub ghost struct CertificateView {
    pub der: Seq<u8>,
}

impl DeepView for Certificate {
    type V = CertificateView;

    open spec fn deep_view(&self) -> CertificateView {
        CertificateView {
            der: self.der.deep_view(),
        }
    }
}

impl Dup for Certificate {
    fn dup(&self) -> Certificate {
        Certificate {
            der: self.der.dup(),
        }
    }
}

/// A certificate chain with its private key.
#[derive(PartialEq, Eq)]
pub struct CertKey {
    /// The leaf first.
    pub chain: Vec<Certificate>,
    /// The private key, in PEM.
    pub key_pem: String,
}

/// The model of [`CertKey`].
#[verifier::ext_equal]
pub ghost struct CertKeyView {
    pub chain: Seq<CertificateView>,
    pub key_pem: Seq<char>,
}

impl DeepView for CertKey {
    type V = CertKeyView;

    open spec fn deep_view(&self) -> CertKeyView {
        CertKeyView {
            chain: self.chain.deep_view(),
            key_pem: self.key_pem.deep_view(),
        }
    }
}

impl Dup for CertKey {
    fn dup(&self) -> CertKey {
        CertKey {
            chain: self.chain.dup(),
            key_pem: self.key_pem.dup(),
        }
    }
}

/// TLS options of a `reverse_proxy` block that has an `https://` upstream.
#[derive(PartialEq, Eq)]
pub struct UpstreamTls {
    /// Verify the upstream certificate and host name.
    pub verify_cert: bool,
    /// Server name override; empty means the host of each upstream.
    pub servername: String,
    /// Root CAs in place of the default trust store.
    pub ca: Option<Vec<Certificate>>,
    /// Client certificate for mutual TLS.
    pub client_cert: Option<CertKey>,
}

/// The model of [`UpstreamTls`].
#[verifier::ext_equal]
pub ghost struct UpstreamTlsView {
    pub verify_cert: bool,
    pub servername: Seq<char>,
    pub ca: Option<Seq<CertificateView>>,
    pub client_cert: Option<CertKeyView>,
}

impl DeepView for UpstreamTls {
    type V = UpstreamTlsView;

    open spec fn deep_view(&self) -> UpstreamTlsView {
        UpstreamTlsView {
            verify_cert: self.verify_cert.deep_view(),
            servername: self.servername.deep_view(),
            ca: self.ca.deep_view(),
            client_cert: self.client_cert.deep_view(),
        }
    }
}

impl Dup for UpstreamTls {
    fn dup(&self) -> UpstreamTls {
        UpstreamTls {
            verify_cert: self.verify_cert.dup(),
            servername: self.servername.dup(),
            ca: self.ca.dup(),
            client_cert: self.client_cert.dup(),
        }
    }
}

/// What a terminal does with a request.
#[derive(PartialEq, Eq)]
pub enum TerminalKind {
    ReverseProxy { upstreams: Vec<UpstreamPeer>, lb_policy: LbPolicy, health_check: Option<HealthCheckSpec>, tls: Option<UpstreamTls> },
    FileServer { root: String },
    Redir { to: ValueTemplate, code: u16 },
    Respond { status: u16, body: Option<String> },
    Error { status: u16, message: Option<String> },
}

/// The model of [`TerminalKind`].
#[verifier::ext_equal]
pub ghost enum TerminalKindView {
    ReverseProxy { upstreams: Seq<UpstreamPeerView>, lb_policy: LbPolicy, health_check: Option<HealthCheckSpec>, tls: Option<UpstreamTlsView> },
    FileServer { root: Seq<char> },
    Redir { to: ValueTemplateView, code: u16 },
    Respond { status: u16, body: Option<Seq<char>> },
    Error { status: u16, message: Option<Seq<char>> },
}

impl DeepView for TerminalKind {
    type V = TerminalKindView;

    open spec fn deep_view(&self) -> TerminalKindView {
        match self {
            TerminalKind::ReverseProxy { upstreams, lb_policy, health_check, tls } => TerminalKindView::ReverseProxy {
                upstreams: upstreams.deep_view(),
                lb_policy: lb_policy.deep_view(),
                health_check: health_check.deep_view(),
                tls: tls.deep_view(),
            },
            TerminalKind::FileServer { root } => TerminalKindView::FileServer {
                root: root.deep_view(),
            },
            TerminalKind::Redir { to, code } => TerminalKindView::Redir {
                to: to.deep_view(),
                code: code.deep_view(),
            },
            TerminalKind::Respond { status, body } => TerminalKindView::Respond {
                status: status.deep_view(),
                body: body.deep_view(),
            },
            TerminalKind::Error { status, message } => TerminalKindView::Error {
                status: status.deep_view(),
                message: message.deep_view(),
            },
        }
    }
}

impl Dup for TerminalKind {
    fn dup(&self) -> TerminalKind {
        match self {
            TerminalKind::ReverseProxy { upstreams, lb_policy, health_check, tls } => TerminalKind::ReverseProxy {
                upstreams: upstreams.dup(),
                lb_policy: lb_policy.dup(),
                health_check: health_check.dup(),
                tls: tls.dup(),
            },
            TerminalKind::FileServer { root } => TerminalKind::FileServer {
                root: root.dup(),
            },
            TerminalKind::Redir { to, code } => TerminalKind::Redir {
                to: to.dup(),
                code: code.dup(),
            },
            TerminalKind::Respond { status, body } => TerminalKind::Respond {
                status: status.dup(),
                body: body.dup(),
            },
            TerminalKind::Error { status, message } => TerminalKind::Error {
                status: status.dup(),
                message: message.dup(),
            },
        }
    }
}

/// A declarative transform or guard, applied whatever its position.
#[derive(PartialEq, Eq, Debug)]
pub enum Modifier {
    HeaderUp { name: String, value: ValueTemplate },
    HeaderDown { name: String, value: ValueTemplate },
    Encode { algorithms: Vec<Encoding> },
    RateLimit { spec: RateSpec },
    Rewrite { to: ValueTemplate },
    /// The request must match one of the `(user, hash)` pairs.
    BasicAuth { users: Vec<(String, String)> },
    ForwardAuth { target: String },
}

/// The model of [`Modifier`].
#[verifier::ext_equal]
pub ghost enum ModifierView {
    HeaderUp { name: Seq<char>, value: ValueTemplateView },
    HeaderDown { name: Seq<char>, value: ValueTemplateView },
    Encode { algorithms: Seq<Encoding> },
    RateLimit { spec: RateSpecView },
    Rewrite { to: ValueTemplateView },
    BasicAuth { users: Seq<(Seq<char>, Seq<char>)> },
    ForwardAuth { target: Seq<char> },
}

impl DeepView for Modifier {
    type V = ModifierView;

    open spec fn deep_view(&self) -> ModifierView {
        match self {
            Modifier::HeaderUp { name, value } => ModifierView::HeaderUp {
                name: name.deep_view(),
                value: value.deep_view(),
            },
            Modifier::HeaderDown { name, value } => ModifierView::HeaderDown {
                name: name.deep_view(),
                value: value.deep_view(),
            },
            Modifier::Encode { algorithms } => ModifierView::Encode {
                algorithms: algorithms.deep_view(),
            },
            Modifier::RateLimit { spec } => ModifierView::RateLimit {
                spec: spec.deep_view(),
            },
            Modifier::Rewrite { to } => ModifierView::Rewrite {
                to: to.deep_view(),
            },
            Modifier::BasicAuth { users } => ModifierView::BasicAuth {
                users: users.deep_view(),
            },
            Modifier::ForwardAuth { target } => ModifierView::ForwardAuth {
                target: target.deep_view(),
            },
        }
    }
}

impl Dup for Modifier {
    fn dup(&self) -> Modifier {
        match self {
            Modifier::HeaderUp { name, value } => Modifier::HeaderUp {
                name: name.dup(),
                value: value.dup(),
            },
            Modifier::HeaderDown { name, value } => Modifier::HeaderDown {
                name: name.dup(),
                value: value.dup(),
            },
            Modifier::Encode { algorithms } => Modifier::Encode {
                algorithms: algorithms.dup(),
            },
            Modifier::RateLimit { spec } => Modifier::RateLimit {
                spec: spec.dup(),
            },
            Modifier::Rewrite { to } => Modifier::Rewrite {
                to: to.dup(),
            },
            Modifier::BasicAuth { users } => Modifier::BasicAuth {
                users: users.dup(),
            },
            Modifier::ForwardAuth { target } => Modifier::ForwardAuth {
                target: target.dup(),
            },
        }
    }
}

/// A compiled terminal directive.
#[derive(PartialEq, Eq)]
pub struct Terminal {
    /// All must match for the terminal to serve; empty always matches.
    pub matchers: Vec<Matcher>,
    pub kind: TerminalKind,
    /// The modifiers that apply, outer scope first.
    pub modifiers: Vec<Modifier>,
    /// A path prefix stripped from the request before the terminal serves.
    pub strip_prefix: Option<String>,
}

/// The model of [`Terminal`].
#[verifier::ext_equal]
pub ghost struct TerminalView {
    pub matchers: Seq<MatcherView>,
    pub kind: TerminalKindView,
    pub modifiers: Seq<ModifierView>,
    pub strip_prefix: Option<Seq<char>>,
}

impl DeepView for Terminal {
    type V = TerminalView;

    open spec fn deep_view(&self) -> TerminalView {
        TerminalView {
            matchers: self.matchers.deep_view(),
            kind: self.kind.deep_view(),
            modifiers: self.modifiers.deep_view(),
            strip_prefix: self.strip_prefix.deep_view(),
        }
    }
}

impl Dup for Terminal {
    fn dup(&self) -> Terminal {
        Terminal {
            matchers: self.matchers.dup(),
            kind: self.kind.dup(),
            modifiers: self.modifiers.dup(),
            strip_prefix: self.strip_prefix.dup(),
        }
    }
}

/// A compiled site: terminals in write order plus block-level modifiers.
#[derive(PartialEq, Eq)]
pub struct CompiledSite {
    pub key: SiteKey,
    /// The first whose matchers all match serves the request.
    pub terminals: Vec<Terminal>,
    pub modifiers: Vec<Modifier>,
    /// None inherits the global list.
    pub trusted_proxies: Option<Vec<Cidr>>,
    pub tls: Option<TlsConfig>,
    pub access_log_off: bool,
}

/// The model of [`CompiledSite`].
#[verifier::ext_equal]
pub ghost struct CompiledSiteView {
    pub key: SiteKeyView,
    pub terminals: Seq<TerminalView>,
    pub modifiers: Seq<ModifierView>,
    pub trusted_proxies: Option<Seq<Cidr>>,
    pub tls: Option<TlsConfigView>,
    pub access_log_off: bool,
}

impl DeepView for CompiledSite {
    type V = CompiledSiteView;

    open spec fn deep_view(&self) -> CompiledSiteView {
        CompiledSiteView {
            key: self.key.deep_view(),
            terminals: self.terminals.deep_view(),
            modifiers: self.modifiers.deep_view(),
            trusted_proxies: self.trusted_proxies.deep_view(),
            tls: self.tls.deep_view(),
            access_log_off: self.access_log_off.deep_view(),
        }
    }
}

impl Dup for CompiledSite {
    fn dup(&self) -> CompiledSite {
        CompiledSite {
            key: self.key.dup(),
            terminals: self.terminals.dup(),
            modifiers: self.modifiers.dup(),
            trusted_proxies: self.trusted_proxies.dup(),
            tls: self.tls.dup(),
            access_log_off: self.access_log_off.dup(),
        }
    }
}

/// A validated, resolved, compiled configuration.
#[derive(PartialEq, Eq)]
pub struct CompiledConfig {
    pub global: GlobalConfig,
    pub sites: Vec<CompiledSite>,
    pub layer4: Vec<Layer4Listener>,
}

/// The model of [`CompiledConfig`].
#[verifier::ext_equal]
pub ghost struct CompiledConfigView {
    pub global: GlobalConfigView,
    pub sites: Seq<CompiledSiteView>,
    pub layer4: Seq<Layer4ListenerView>,
}

impl DeepView for CompiledConfig {
    type V = CompiledConfigView;

    open spec fn deep_view(&self) -> CompiledConfigView {
        CompiledConfigView {
            global: self.global.deep_view(),
            sites: self.sites.deep_view(),
            layer4: self.layer4.deep_view(),
        }
    }
}

impl Dup for CompiledConfig {
    fn dup(&self) -> CompiledConfig {
        CompiledConfig {
            global: self.global.dup(),
            sites: self.sites.dup(),
            layer4: self.layer4.dup(),
        }
    }
}


/// The ports that the sites are served on.
pub open spec fn site_ports(sites: Seq<CompiledSiteView>) -> Set<u16>
    decreases sites.len(),
{
    if sites.len() == 0 {
        Set::empty()
    } else {
        site_ports(sites.drop_last()).insert(sites.last().key.port())
    }
}

impl CompiledConfig {
    /// The listener topology: the set of ports of all site keys, fixed at process
    /// start.
    pub fn listeners(&self) -> (r: BTreeSet<u16>)
        ensures
            r@ == site_ports(self.deep_view().sites),
    {
        broadcast use vstd::std_specs::btree::group_btree_axioms;

        let ghost sites = self.sites.deep_view();
        let mut ports: BTreeSet<u16> = BTreeSet::new();
        let mut i: usize = 0;
        assert(sites.take(0) == Seq::<CompiledSiteView>::empty());
        while i < self.sites.len()
            invariant
                i <= self.sites@.len(),
                sites == self.sites.deep_view(),
                ports@ == site_ports(sites.take(i as int)),
            decreases self.sites@.len() - i,
        {
            broadcast use vstd::std_specs::btree::group_btree_axioms;

            let port = self.sites[i].key.port();
            let _ = ports.insert(port);
            i += 1;
            assert(sites.take(i as int).drop_last() == sites.take(i - 1));
            assert(sites.take(i as int).last() == self.sites@[i - 1].deep_view());
        }
        assert(sites.take(i as int) == sites);
        ports
    }
}

/// A port is in the topology exactly when a site is served on it.
pub proof fn topology_is_the_ports_of_the_sites(sites: Seq<CompiledSiteView>, port: u16)
    ensures
        site_ports(sites).contains(port) <==> exists|i: int|
            0 <= i < sites.len() && (#[trigger] sites[i]).key.port() == port,
    decreases sites.len(),
{
    if sites.len() > 0 {
        let init = sites.drop_last();
        topology_is_the_ports_of_the_sites(init, port);
        if site_ports(init).contains(port) {
            let i = choose|i: int| 0 <= i < init.len() && (#[trigger] init[i]).key.port() == port;
            assert(sites[i].key.port() == port);
        }
        if exists|i: int| 0 <= i < sites.len() && (#[trigger] sites[i]).key.port() == port {
            let i = choose|i: int| 0 <= i < sites.len() && (#[trigger] sites[i]).key.port() == port;
            if i < init.len() {
                assert(init[i].key.port() == port);
            }
        }
        if sites.last().key.port() == port {
            assert(sites[sites.len() - 1].key.port() == port);
        }
    }
}
} // verus!
