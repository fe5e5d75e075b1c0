//! The configuration language as data: what a file says, and what it compiles
//! to.
//!
//! A [`Raddexfile`] is what the parser reads from source. Validation compiles it
//! to a [`CompiledConfig`], which separates *terminal* directives (which
//! directive serves a request, in write order) from *modifier* directives
//! (declarative transforms applied to whichever terminal serves), so that no
//! request interprets the file line by line.
//!
//! Every type that holds text or lists has a model, the `...View` type that
//! `deep_view` gives, in which text is a sequence of characters.
use crate::net::{Cidr, SocketAddr};
use crate::num::{decimal, decimal_string};
use crate::text::{
    after, cat2, cat3, cat4, cat5, cut, is_empty, lemma_first_index, owned, same, split_once,
    strip_prefix,
};
use crate::time::{seconds, Duration};
use vstd::prelude::*;

verus! {

// ---------------------------------------------------------------------------
// Copies
// ---------------------------------------------------------------------------

/// Values that can be copied without changing what they stand for.
pub trait Dup: DeepView + Sized {
    /// A copy of the value.
    fn dup(&self) -> (r: Self)
        ensures
            r.deep_view() == self.deep_view(),
    ;
}

impl Dup for String {
    fn dup(&self) -> String {
        owned(self.as_str())
    }
}

impl Dup for bool {
    fn dup(&self) -> bool {
        *self
    }
}

impl Dup for u8 {
    fn dup(&self) -> u8 {
        *self
    }
}

impl Dup for u16 {
    fn dup(&self) -> u16 {
        *self
    }
}

impl Dup for u32 {
    fn dup(&self) -> u32 {
        *self
    }
}

impl Dup for u64 {
    fn dup(&self) -> u64 {
        *self
    }
}

impl Dup for usize {
    fn dup(&self) -> usize {
        *self
    }
}

impl Dup for Cidr {
    fn dup(&self) -> Cidr {
        *self
    }
}

impl Dup for SocketAddr {
    fn dup(&self) -> SocketAddr {
        *self
    }
}

impl Dup for Duration {
    fn dup(&self) -> Duration {
        *self
    }
}

impl<T: Dup> Dup for Option<T> {
    fn dup(&self) -> Option<T> {
        match self {
            Some(t) => Some(t.dup()),
            None => None,
        }
    }
}

impl<A: Dup, B: Dup> Dup for (A, B) {
    fn dup(&self) -> (A, B) {
        (self.0.dup(), self.1.dup())
    }
}

impl<T: Dup> Dup for Vec<T> {
    fn dup(&self) -> Vec<T> {
        let mut r: Vec<T> = Vec::new();
        let mut i: usize = 0;
        while i < self.len()
            invariant
                i <= self@.len(),
                r@.len() == i,
                forall|j: int| 0 <= j < i ==> r@[j].deep_view() == self@[j].deep_view(),
            decreases self@.len() - i,
        {
            r.push(self[i].dup());
            i += 1;
        }
        assert(r.deep_view() == self.deep_view());
        r
    }
}

/// Append `x` to `v`.
pub fn add_to<T: DeepView>(v: &mut Vec<T>, x: T)
    ensures
        final(v)@ == old(v)@.push(x),
        final(v).deep_view() == old(v).deep_view().push(x.deep_view()),
{
    v.push(x);
    assert(v.deep_view() == old(v).deep_view().push(x.deep_view()));
}

/// Append copies of the items of `more` to `v`.
pub fn add_all<T: Dup>(v: &mut Vec<T>, more: &Vec<T>)
    ensures
        final(v).deep_view() == old(v).deep_view() + more.deep_view(),
{
    let ghost before = v.deep_view();
    let mut i: usize = 0;
    assert(before == before + more.deep_view().take(0));
    while i < more.len()
        invariant
            i <= more@.len(),
            v.deep_view() == before + more.deep_view().take(i as int),
        decreases more@.len() - i,
    {
        add_to(v, more[i].dup());
        i += 1;
        assert(more.deep_view().take(i as int) == more.deep_view().take(i - 1).push(
            more.deep_view()[i - 1],
        ));
        assert(v.deep_view() == before + more.deep_view().take(i as int));
    }
    assert(more.deep_view().take(i as int) == more.deep_view());
}

// ---------------------------------------------------------------------------
// Rate limiting
// ---------------------------------------------------------------------------

/// What a `rate_limit` directive counts on.
#[derive(PartialEq, Eq, Debug)]
pub enum RateLimitKey {
    /// The address of the client.
    RemoteIp,
    /// The value of a request header.
    Header(String),
}

/// The model of [`RateLimitKey`].
#[verifier::ext_equal]
pub ghost enum RateLimitKeyView {
    RemoteIp,
    Header(Seq<char>),
}

impl DeepView for RateLimitKey {
    type V = RateLimitKeyView;

    open spec fn deep_view(&self) -> RateLimitKeyView {
        match self {
            RateLimitKey::RemoteIp => RateLimitKeyView::RemoteIp,
            RateLimitKey::Header(a) => RateLimitKeyView::Header(a.deep_view()),
        }
    }
}

impl Dup for RateLimitKey {
    fn dup(&self) -> RateLimitKey {
        match self {
            RateLimitKey::RemoteIp => RateLimitKey::RemoteIp,
            RateLimitKey::Header(a) => RateLimitKey::Header(a.dup()),
        }
    }
}

/// The time unit of a rate.
#[derive(Clone, Copy, PartialEq, Eq, Structural, Debug, Hash)]
pub enum RateUnit {
    Second,
    Minute,
    Hour,
    Day,
}

impl DeepView for RateUnit {
    type V = RateUnit;

    open spec fn deep_view(&self) -> RateUnit {
        *self
    }
}

impl Dup for RateUnit {
    fn dup(&self) -> RateUnit {
        *self
    }
}

impl RateUnit {
    /// The number of seconds in this unit.
    pub fn secs(self) -> (r: u64)
        ensures
            r == match self {
                RateUnit::Second => 1u64,
                RateUnit::Minute => 60,
                RateUnit::Hour => 3600,
                RateUnit::Day => 86400,
            },
    {
        match self {
            RateUnit::Second => 1,
            RateUnit::Minute => 60,
            RateUnit::Hour => 3600,
            RateUnit::Day => 86400,
        }
    }
}

/// A `rate_limit`: what to count on, plus a token bucket with a refill rate and
/// a capacity.
#[derive(PartialEq, Eq, Debug)]
pub struct RateSpec {
    /// What the limit counts.
    pub key: RateLimitKey,
    /// Tokens refilled per `unit`.
    pub count: u64,
    pub unit: RateUnit,
    /// Token-bucket capacity (at least 1); `count` unless the file says otherwise.
    pub burst: u64,
}

/// The model of [`RateSpec`].
#[verifier::ext_equal]
pub ghost struct RateSpecView {
    pub key: RateLimitKeyView,
    pub count: u64,
    pub unit: RateUnit,
    pub burst: u64,
}

impl DeepView for RateSpec {
    type V = RateSpecView;

    open spec fn deep_view(&self) -> RateSpecView {
        RateSpecView {
            key: self.key.deep_view(),
            count: self.count.deep_view(),
            unit: self.unit.deep_view(),
            burst: self.burst.deep_view(),
        }
    }
}

impl Dup for RateSpec {
    fn dup(&self) -> RateSpec {
        RateSpec {
            key: self.key.dup(),
            count: self.count.dup(),
            unit: self.unit.dup(),
            burst: self.burst.dup(),
        }
    }
}

// ---------------------------------------------------------------------------
// Value templates
// ---------------------------------------------------------------------------

/// The variables that a value may name.
#[derive(Clone, Copy, PartialEq, Eq, Structural, Debug, Hash)]
pub enum Variable {
    /// The Host header of the request (`{host}`).
    Host,
    /// The request URI with its query (`{uri}`).
    Uri,
    /// The address of the client (`{remote_host}`).
    RemoteHost,
}

impl DeepView for Variable {
    type V = Variable;

    open spec fn deep_view(&self) -> Variable {
        *self
    }
}

impl Dup for Variable {
    fn dup(&self) -> Variable {
        *self
    }
}

/// A literal or variable segment of a [`ValueTemplate`].
#[derive(PartialEq, Eq, Debug)]
pub enum TemplatePart {
    Literal(String),
    Var(Variable),
}

/// The model of [`TemplatePart`].
#[verifier::ext_equal]
pub ghost enum TemplatePartView {
    Literal(Seq<char>),
    Var(Variable),
}

impl DeepView for TemplatePart {
    type V = TemplatePartView;

    open spec fn deep_view(&self) -> TemplatePartView {
        match self {
            TemplatePart::Literal(a) => TemplatePartView::Literal(a.deep_view()),
            TemplatePart::Var(a) => TemplatePartView::Var(a.deep_view()),
        }
    }
}

impl Dup for TemplatePart {
    fn dup(&self) -> TemplatePart {
        match self {
            TemplatePart::Literal(a) => TemplatePart::Literal(a.dup()),
            TemplatePart::Var(a) => TemplatePart::Var(a.dup()),
        }
    }
}

/// A value with `{placeholder}` variables, expanded per request.
#[derive(PartialEq, Eq, Debug)]
pub struct ValueTemplate {
    pub parts: Vec<TemplatePart>,
}

/// The model of [`ValueTemplate`].
#[verifier::ext_equal]
pub ghost struct ValueTemplateView {
    pub parts: Seq<TemplatePartView>,
}

impl DeepView for ValueTemplate {
    type V = ValueTemplateView;

    open spec fn deep_view(&self) -> ValueTemplateView {
        ValueTemplateView {
            parts: self.parts.deep_view(),
        }
    }
}

impl Dup for ValueTemplate {
    fn dup(&self) -> ValueTemplate {
        ValueTemplate {
            parts: self.parts.dup(),
        }
    }
}

// ---------------------------------------------------------------------------
// Source form
// ---------------------------------------------------------------------------

/// Global log level.
#[derive(Clone, Copy, PartialEq, Eq, Structural, Debug, Hash)]
pub enum LogLevel {
    Debug,
    Info,
    Warn,
    Error,
}

impl DeepView for LogLevel {
    type V = LogLevel;

    open spec fn deep_view(&self) -> LogLevel {
        *self
    }
}

impl Dup for LogLevel {
    fn dup(&self) -> LogLevel {
        *self
    }
}

/// The line format of an access log.
#[derive(Clone, Copy, PartialEq, Eq, Structural, Debug, Hash)]
pub enum AccessLogFormat {
    Json,
    Common,
}

impl DeepView for AccessLogFormat {
    type V = AccessLogFormat;

    open spec fn deep_view(&self) -> AccessLogFormat {
        *self
    }
}

impl Dup for AccessLogFormat {
    fn dup(&self) -> AccessLogFormat {
        *self
    }
}

/// The global `access_log` directive.
#[derive(PartialEq, Eq, Debug)]
pub enum AccessLogDirective {
    /// No access log.
    Off,
    /// Log to a file.
    File { path: String, format: AccessLogFormat },
}

/// The model of [`AccessLogDirective`].
#[verifier::ext_equal]
pub ghost enum AccessLogDirectiveView {
    Off,
    File { path: Seq<char>, format: AccessLogFormat },
}

impl DeepView for AccessLogDirective {
    type V = AccessLogDirectiveView;

    open spec fn deep_view(&self) -> AccessLogDirectiveView {
        match self {
            AccessLogDirective::Off => AccessLogDirectiveView::Off,
            AccessLogDirective::File { path, format } => AccessLogDirectiveView::File {
                path: path.deep_view(),
                format: format.deep_view(),
            },
        }
    }
}

impl Dup for AccessLogDirective {
    fn dup(&self) -> AccessLogDirective {
        match self {
            AccessLogDirective::Off => AccessLogDirective::Off,
            AccessLogDirective::File { path, format } => AccessLogDirective::File {
                path: path.dup(),
                format: format.dup(),
            },
        }
    }
}

/// A DNS-01 provider: its keyword, the credentials that it needs, and the one
/// that the shorthand form fills.
#[derive(PartialEq, Eq, Debug)]
pub struct DnsProvider {
    pub keyword: String,
    /// The credentials that the provider needs, each of them.
    pub fields: Vec<String>,
    /// The credential that `dns_challenge <provider> <value>` gives; a provider
    /// that needs several has none.
    pub shorthand_field: Option<String>,
}

/// The model of [`DnsProvider`].
#[verifier::ext_equal]
pub ghost struct DnsProviderView {
    pub keyword: Seq<char>,
    pub fields: Seq<Seq<char>>,
    pub shorthand_field: Option<Seq<char>>,
}

impl DeepView for DnsProvider {
    type V = DnsProviderView;

    open spec fn deep_view(&self) -> DnsProviderView {
        DnsProviderView {
            keyword: self.keyword.deep_view(),
            fields: self.fields.deep_view(),
            shorthand_field: self.shorthand_field.deep_view(),
        }
    }
}

impl Dup for DnsProvider {
    fn dup(&self) -> DnsProvider {
        DnsProvider {
            keyword: self.keyword.dup(),
            fields: self.fields.dup(),
            shorthand_field: self.shorthand_field.dup(),
        }
    }
}

/// The credentials of a DNS-01 provider, by field name. The values are secrets.
#[derive(PartialEq, Eq)]
pub struct DnsCredentials {
    pub entries: Vec<(String, String)>,
}

/// The model of [`DnsCredentials`].
#[verifier::ext_equal]
pub ghost struct DnsCredentialsView {
    pub entries: Seq<(Seq<char>, Seq<char>)>,
}

impl DeepView for DnsCredentials {
    type V = DnsCredentialsView;

    open spec fn deep_view(&self) -> DnsCredentialsView {
        DnsCredentialsView {
            entries: self.entries.deep_view(),
        }
    }
}

impl Dup for DnsCredentials {
    fn dup(&self) -> DnsCredentials {
        DnsCredentials {
            entries: self.entries.dup(),
        }
    }
}

/// The DNS-01 challenge configuration.
#[derive(PartialEq, Eq)]
pub struct DnsChallenge {
    /// The DNS provider used to publish the challenge record.
    pub provider: DnsProvider,
    /// The provider's credentials.
    pub credentials: DnsCredentials,
}

/// The model of [`DnsChallenge`].
#[verifier::ext_equal]
pub ghost struct DnsChallengeView {
    pub provider: DnsProviderView,
    pub credentials: DnsCredentialsView,
}

impl DeepView for DnsChallenge {
    type V = DnsChallengeView;

    open spec fn deep_view(&self) -> DnsChallengeView {
        DnsChallengeView {
            provider: self.provider.deep_view(),
            credentials: self.credentials.deep_view(),
        }
    }
}

impl Dup for DnsChallenge {
    fn dup(&self) -> DnsChallenge {
        DnsChallenge {
            provider: self.provider.dup(),
            credentials: self.credentials.dup(),
        }
    }
}

/// Global configuration from the leading bare `{ ... }` block.
#[derive(PartialEq, Eq)]
pub struct GlobalConfig {
    pub acme_email: Option<String>,
    pub log_level: Option<LogLevel>,
    /// Networks whose `X-Forwarded-For` is trusted for the real client IP;
    /// empty trusts nobody.
    pub trusted_proxies: Vec<Cidr>,
    /// When set, certificate issuance uses DNS-01.
    pub dns_challenge: Option<DnsChallenge>,
    /// Whether certificate issuance uses TLS-ALPN-01.
    pub tls_alpn_challenge: bool,
    pub access_log: Option<AccessLogDirective>,
}

/// The model of [`GlobalConfig`].
#[verifier::ext_equal]
pub ghost struct GlobalConfigView {
    pub acme_email: Option<Seq<char>>,
    pub log_level: Option<LogLevel>,
    pub trusted_proxies: Seq<Cidr>,
    pub dns_challenge: Option<DnsChallengeView>,
    pub tls_alpn_challenge: bool,
    pub access_log: Option<AccessLogDirectiveView>,
}

impl DeepView for GlobalConfig {
    type V = GlobalConfigView;

    open spec fn deep_view(&self) -> GlobalConfigView {
        GlobalConfigView {
            acme_email: self.acme_email.deep_view(),
            log_level: self.log_level.deep_view(),
            trusted_proxies: self.trusted_proxies.deep_view(),
            dns_challenge: self.dns_challenge.deep_view(),
            tls_alpn_challenge: self.tls_alpn_challenge.deep_view(),
            access_log: self.access_log.deep_view(),
        }
    }
}

impl Dup for GlobalConfig {
    fn dup(&self) -> GlobalConfig {
        GlobalConfig {
            acme_email: self.acme_email.dup(),
            log_level: self.log_level.dup(),
            trusted_proxies: self.trusted_proxies.dup(),
            dns_challenge: self.dns_challenge.dup(),
            tls_alpn_challenge: self.tls_alpn_challenge.dup(),
            access_log: self.access_log.dup(),
        }
    }
}

/// Identifies a site: a named host or a `:port` catch-all.
#[derive(PartialEq, Eq, Hash, Debug)]
pub enum SiteKey {
    /// A named host, with the port it is served on.
    Named { host: String, port: u16 },
    /// Serves every request on the port that matches no named site.
    CatchAll { port: u16 },
}

/// The model of [`SiteKey`].
#[verifier::ext_equal]
pub ghost enum SiteKeyView {
    Named { host: Seq<char>, port: u16 },
    CatchAll { port: u16 },
}

impl DeepView for SiteKey {
    type V = SiteKeyView;

    open spec fn deep_view(&self) -> SiteKeyView {
        match self {
            SiteKey::Named { host, port } => SiteKeyView::Named {
                host: host.deep_view(),
                port: port.deep_view(),
            },
            SiteKey::CatchAll { port } => SiteKeyView::CatchAll {
                port: port.deep_view(),
            },
        }
    }
}

impl Dup for SiteKey {
    fn dup(&self) -> SiteKey {
        match self {
            SiteKey::Named { host, port } => SiteKey::Named {
                host: host.dup(),
                port: port.dup(),
            },
            SiteKey::CatchAll { port } => SiteKey::CatchAll {
                port: port.dup(),
            },
        }
    }
}

/// The HTTP version spoken to an upstream.
#[derive(Clone, Copy, PartialEq, Eq, Structural, Debug, Hash)]
pub enum UpstreamHttpVersion {
    /// The scheme does not choose.
    Auto,
    /// HTTP/2 over TLS (`h2://`).
    H2,
    /// HTTP/2 in clear text (`h2c://`).
    H2c,
}

impl DeepView for UpstreamHttpVersion {
    type V = UpstreamHttpVersion;

    open spec fn deep_view(&self) -> UpstreamHttpVersion {
        *self
    }
}

impl Dup for UpstreamHttpVersion {
    fn dup(&self) -> UpstreamHttpVersion {
        *self
    }
}

/// An upstream target. The host is resolved to an address during validation;
/// `resolved` is `None` until then.
#[derive(PartialEq, Eq, Debug)]
pub struct Upstream {
    pub host: String,
    pub port: u16,
    /// Whether the connection to the upstream is TLS.
    pub tls: bool,
    pub http_version: UpstreamHttpVersion,
    pub resolved: Option<SocketAddr>,
}

/// The model of [`Upstream`].
#[verifier::ext_equal]
pub ghost struct UpstreamView {
    pub host: Seq<char>,
    pub port: u16,
    pub tls: bool,
    pub http_version: UpstreamHttpVersion,
    pub resolved: Option<SocketAddr>,
}

impl DeepView for Upstream {
    type V = UpstreamView;

    open spec fn deep_view(&self) -> UpstreamView {
        UpstreamView {
            host: self.host.deep_view(),
            port: self.port.deep_view(),
            tls: self.tls.deep_view(),
            http_version: self.http_version.deep_view(),
            resolved: self.resolved.deep_view(),
        }
    }
}

impl Dup for Upstream {
    fn dup(&self) -> Upstream {
        Upstream {
            host: self.host.dup(),
            port: self.port.dup(),
            tls: self.tls.dup(),
            http_version: self.http_version.dup(),
            resolved: self.resolved.dup(),
        }
    }
}

/// TLS sub-directives of a `reverse_proxy` block. They apply to every `https://`
/// upstream in the block.
#[derive(PartialEq, Eq, Debug)]
pub struct ProxyTlsConfig {
    /// `tls_servername <host>`: the name sent to the upstream.
    pub servername: Option<String>,
    /// `tls_skip_verify`: no verification of the upstream certificate.
    pub skip_verify: bool,
    /// `tls_ca <pem-file>`: extra root CAs, repeatable.
    pub ca_files: Vec<String>,
    /// `tls_cert <cert-file> <key-file>`: a client certificate.
    pub cert_file: Option<String>,
    pub key_file: Option<String>,
}

/// The model of [`ProxyTlsConfig`].
#[verifier::ext_equal]
pub ghost struct ProxyTlsConfigView {
    pub servername: Option<Seq<char>>,
    pub skip_verify: bool,
    pub ca_files: Seq<Seq<char>>,
    pub cert_file: Option<Seq<char>>,
    pub key_file: Option<Seq<char>>,
}

impl DeepView for ProxyTlsConfig {
    type V = ProxyTlsConfigView;

    open spec fn deep_view(&self) -> ProxyTlsConfigView {
        ProxyTlsConfigView {
            servername: self.servername.deep_view(),
            skip_verify: self.skip_verify.deep_view(),
            ca_files: self.ca_files.deep_view(),
            cert_file: self.cert_file.deep_view(),
            key_file: self.key_file.deep_view(),
        }
    }
}

impl Dup for ProxyTlsConfig {
    fn dup(&self) -> ProxyTlsConfig {
        ProxyTlsConfig {
            servername: self.servername.dup(),
            skip_verify: self.skip_verify.dup(),
            ca_files: self.ca_files.dup(),
            cert_file: self.cert_file.dup(),
            key_file: self.key_file.dup(),
        }
    }
}

/// The certificate source of a site's `tls` directive.
#[derive(PartialEq, Eq, Debug)]
pub enum TlsSource {
    /// Automatic issuance (the default).
    Acme,
    /// `tls internal`: a self-signed certificate.
    Internal,
    /// `tls <cert-file> <key-file>`: a certificate chain and key in files.
    Static { cert_file: String, key_file: String },
}

/// The model of [`TlsSource`].
#[verifier::ext_equal]
pub ghost enum TlsSourceView {
    Acme,
    Internal,
    Static { cert_file: Seq<char>, key_file: Seq<char> },
}

impl DeepView for TlsSource {
    type V = TlsSourceView;

    open spec fn deep_view(&self) -> TlsSourceView {
        match self {
            TlsSource::Acme => TlsSourceView::Acme,
            TlsSource::Internal => TlsSourceView::Internal,
            TlsSource::Static { cert_file, key_file } => TlsSourceView::Static {
                cert_file: cert_file.deep_view(),
                key_file: key_file.deep_view(),
            },
        }
    }
}

impl Dup for TlsSource {
    fn dup(&self) -> TlsSource {
        match self {
            TlsSource::Acme => TlsSource::Acme,
            TlsSource::Internal => TlsSource::Internal,
            TlsSource::Static { cert_file, key_file } => TlsSource::Static {
                cert_file: cert_file.dup(),
                key_file: key_file.dup(),
            },
        }
    }
}

/// A TLS protocol version.
#[derive(Clone, Copy, PartialEq, Eq, Structural, Debug, Hash)]
pub enum TlsVersion {
    Tls12,
    Tls13,
}

impl DeepView for TlsVersion {
    type V = TlsVersion;

    open spec fn deep_view(&self) -> TlsVersion {
        *self
    }
}

impl Dup for TlsVersion {
    fn dup(&self) -> TlsVersion {
        *self
    }
}

/// The client-certificate verification mode.
#[derive(Clone, Copy, PartialEq, Eq, Structural, Debug, Hash)]
pub enum ClientAuthMode {
    /// Ask for a client certificate but accept clients without one.
    Optional,
    /// Reject clients without a valid client certificate.
    Require,
}

impl DeepView for ClientAuthMode {
    type V = ClientAuthMode;

    open spec fn deep_view(&self) -> ClientAuthMode {
        *self
    }
}

impl Dup for ClientAuthMode {
    fn dup(&self) -> ClientAuthMode {
        *self
    }
}

/// Client-certificate authentication: verify against `ca_file`.
#[derive(PartialEq, Eq, Debug)]
pub struct ClientAuth {
    pub mode: ClientAuthMode,
    pub ca_file: String,
}

/// The model of [`ClientAuth`].
#[verifier::ext_equal]
pub ghost struct ClientAuthView {
    pub mode: ClientAuthMode,
    pub ca_file: Seq<char>,
}

impl DeepView for ClientAuth {
    type V = ClientAuthView;

    open spec fn deep_view(&self) -> ClientAuthView {
        ClientAuthView {
            mode: self.mode.deep_view(),
            ca_file: self.ca_file.deep_view(),
        }
    }
}

impl Dup for ClientAuth {
    fn dup(&self) -> ClientAuth {
        ClientAuth {
            mode: self.mode.dup(),
            ca_file: self.ca_file.dup(),
        }
    }
}

/// Per-site TLS configuration from the `tls` directive. Options are independent
/// and each may appear on its own `tls` line; the compiler merges them.
#[derive(PartialEq, Eq, Debug)]
pub struct TlsConfig {
    /// Certificate source (ACME by default).
    pub source: TlsSource,
    /// `tls min_version` (none means no floor).
    pub min_version: Option<TlsVersion>,
    /// `tls max_version` (none means no ceiling).
    pub max_version: Option<TlsVersion>,
    /// `tls ciphers <list>`.
    pub ciphers: Option<String>,
    /// `tls client_auth`: mutual TLS.
    pub client_auth: Option<ClientAuth>,
}

/// The model of [`TlsConfig`].
#[verifier::ext_equal]
pub ghost struct TlsConfigView {
    pub source: TlsSourceView,
    pub min_version: Option<TlsVersion>,
    pub max_version: Option<TlsVersion>,
    pub ciphers: Option<Seq<char>>,
    pub client_auth: Option<ClientAuthView>,
}

impl DeepView for TlsConfig {
    type V = TlsConfigView;

    open spec fn deep_view(&self) -> TlsConfigView {
        TlsConfigView {
            source: self.source.deep_view(),
            min_version: self.min_version.deep_view(),
            max_version: self.max_version.deep_view(),
            ciphers: self.ciphers.deep_view(),
            client_auth: self.client_auth.deep_view(),
        }
    }
}

impl Dup for TlsConfig {
    fn dup(&self) -> TlsConfig {
        TlsConfig {
            source: self.source.dup(),
            min_version: self.min_version.dup(),
            max_version: self.max_version.dup(),
            ciphers: self.ciphers.dup(),
            client_auth: self.client_auth.dup(),
        }
    }
}

/// The transport of the listener that received a request.
#[derive(Clone, Copy, PartialEq, Eq, Structural, Debug, Hash)]
pub enum Protocol {
    Http,
    Https,
}

impl DeepView for Protocol {
    type V = Protocol;

    open spec fn deep_view(&self) -> Protocol {
        *self
    }
}

impl Dup for Protocol {
    fn dup(&self) -> Protocol {
        *self
    }
}

/// One matcher term. A directive or `handle` block may carry several; all must
/// match. A term prefixed with `!` negates it.
#[derive(PartialEq, Eq, Debug)]
pub enum Matcher {
    /// `path <prefix>`: the request path equals the prefix or falls under it. A bare
    /// `/path` is shorthand for this; a trailing `*` is dropped.
    Path(String),
    /// `host <host>`: the Host header equals the value.
    Host(String),
    /// `method <method>`: the request method equals the value.
    Method(String),
    /// `header <name> <value>`: the request header equals the value.
    Header { name: String, value: String },
    /// `query <key> <value>`: a query parameter equals the value.
    Query { key: String, value: String },
    /// `remote_ip <cidr>...`: the client is within one of the networks.
    RemoteIp(Vec<Cidr>),
    /// `protocol <http|https>`: the transport of the receiving listener.
    Protocol(Protocol),
    /// `!<term>` negates a matcher term.
    Not(Box<Matcher>),
}

/// The model of [`Matcher`].
#[verifier::ext_equal]
pub ghost enum MatcherView {
    Path(Seq<char>),
    Host(Seq<char>),
    Method(Seq<char>),
    Header { name: Seq<char>, value: Seq<char> },
    Query { key: Seq<char>, value: Seq<char> },
    RemoteIp(Seq<Cidr>),
    Protocol(Protocol),
    Not(Box<MatcherView>),
}

/// The model of a matcher term.
pub open spec fn matcher_view(m: Matcher) -> MatcherView
    decreases m,
{
    match m {
        Matcher::Path(p) => MatcherView::Path(p@),
        Matcher::Host(h) => MatcherView::Host(h@),
        Matcher::Method(t) => MatcherView::Method(t@),
        Matcher::Header { name, value } => MatcherView::Header { name: name@, value: value@ },
        Matcher::Query { key, value } => MatcherView::Query { key: key@, value: value@ },
        Matcher::RemoteIp(nets) => MatcherView::RemoteIp(nets.deep_view()),
        Matcher::Protocol(p) => MatcherView::Protocol(p),
        Matcher::Not(inner) => MatcherView::Not(Box::new(matcher_view(*inner))),
    }
}

impl DeepView for Matcher {
    type V = MatcherView;

    open spec fn deep_view(&self) -> MatcherView {
        matcher_view(*self)
    }
}

fn copy_matcher(m: &Matcher) -> (r: Matcher)
    ensures
        matcher_view(r) == matcher_view(*m),
    decreases *m,
{
    match m {
        Matcher::Path(p) => Matcher::Path(p.dup()),
        Matcher::Host(h) => Matcher::Host(h.dup()),
        Matcher::Method(t) => Matcher::Method(t.dup()),
        Matcher::Header { name, value } => Matcher::Header { name: name.dup(), value: value.dup() },
        Matcher::Query { key, value } => Matcher::Query { key: key.dup(), value: value.dup() },
        Matcher::RemoteIp(nets) => Matcher::RemoteIp(nets.dup()),
        Matcher::Protocol(p) => Matcher::Protocol(*p),
        Matcher::Not(inner) => Matcher::Not(Box::new(copy_matcher(inner))),
    }
}

impl Dup for Matcher {
    fn dup(&self) -> Matcher {
        copy_matcher(self)
    }
}

/// A compression algorithm for the `encode` directive.
#[derive(Clone, Copy, PartialEq, Eq, Structural, Debug, Hash)]
pub enum Encoding {
    Gzip,
    Zstd,
    Brotli,
}

impl DeepView for Encoding {
    type V = Encoding;

    open spec fn deep_view(&self) -> Encoding {
        *self
    }
}

impl Dup for Encoding {
    fn dup(&self) -> Encoding {
        *self
    }
}

/// A load-balancing policy.
#[derive(Clone, Copy, PartialEq, Eq, Structural, Debug, Hash)]
pub enum LbPolicy {
    RoundRobin,
    Random,
    /// Consistent hash on the client IP.
    IpHash,
}

impl DeepView for LbPolicy {
    type V = LbPolicy;

    open spec fn deep_view(&self) -> LbPolicy {
        *self
    }
}

impl Dup for LbPolicy {
    fn dup(&self) -> LbPolicy {
        *self
    }
}

/// The active health check of a `reverse_proxy` block.
#[derive(Clone, Copy, PartialEq, Eq, Structural, Debug)]
pub struct HealthCheckSpec {
    /// How often to probe each upstream.
    pub interval: Duration,
    /// Per-probe connection timeout.
    pub timeout: Duration,
    /// Consecutive failures before an upstream is removed.
    pub consecutive_failures: usize,
    /// Consecutive successes before an upstream is restored.
    pub consecutive_successes: usize,
}

impl DeepView for HealthCheckSpec {
    type V = HealthCheckSpec;

    open spec fn deep_view(&self) -> HealthCheckSpec {
        *self
    }
}

impl Dup for HealthCheckSpec {
    fn dup(&self) -> HealthCheckSpec {
        *self
    }
}

/// The health check that a file gets when it sets no option.
pub open spec fn default_health_check() -> HealthCheckSpec {
    HealthCheckSpec {
        interval: seconds(5),
        timeout: seconds(2),
        consecutive_failures: 3,
        consecutive_successes: 2,
    }
}

impl Default for HealthCheckSpec {
    fn default() -> (r: HealthCheckSpec)
        ensures
            r == default_health_check(),
    {
        HealthCheckSpec {
            interval: Duration::from_secs(5),
            timeout: Duration::from_secs(2),
            consecutive_failures: 3,
            consecutive_successes: 2,
        }
    }
}

/// One directive in a site or block, in source form.
#[derive(PartialEq, Eq, Debug)]
#[allow(inconsistent_fields)]
pub enum Directive {
    /// Forward to upstreams.
    ReverseProxy { matcher: Vec<Matcher>, to: Vec<Upstream>, lb_policy: LbPolicy, health_check: Option<HealthCheckSpec>, tls: ProxyTlsConfig },
    /// A block of directives under a matcher.
    Handle { matcher: Vec<Matcher>, directives: Vec<Directive> },
    /// Like `handle`, with the matched path prefix stripped from the URI before the
    /// terminal of the block runs.
    HandlePath { matcher: Vec<Matcher>, directives: Vec<Directive> },
    HeaderUp { name: String, value: ValueTemplate },
    HeaderDown { name: String, value: ValueTemplate },
    FileServer,
    Root { path: String },
    Encode { algorithms: Vec<Encoding> },
    Redir { to: String, code: u16 },
    /// `rewrite <to>`: rewrite the request URI before forwarding.
    Rewrite { to: ValueTemplate },
    /// `respond <matcher> <status> [<body>]`: answer directly.
    Respond { matcher: Vec<Matcher>, status: u16, body: Option<String> },
    /// `error <matcher> [<status>] [<message>]`: answer with an error.
    Error { matcher: Vec<Matcher>, status: Option<u16>, message: Option<String> },
    /// `basic_auth <user> <hash>`: HTTP Basic authentication guard.
    BasicAuth { user: String, hash: String },
    /// `forward_auth <target>`: delegate authentication to an upstream.
    ForwardAuth { target: String },
    /// Site-scoped `trusted_proxies`, in place of the global list.
    TrustedProxies { networks: Vec<Cidr> },
    /// A `rate_limit` guard.
    RateLimit { spec: RateSpec },
    /// Per-site TLS configuration.
    Tls { config: TlsConfig },
    /// `access_log off`: no access log for the site.
    AccessLogOff,
}

/// The model of [`Directive`].
#[verifier::ext_equal]
#[allow(inconsistent_fields)]
pub ghost enum DirectiveView {
    ReverseProxy { matcher: Seq<MatcherView>, to: Seq<UpstreamView>, lb_policy: LbPolicy, health_check: Option<HealthCheckSpec>, tls: ProxyTlsConfigView },
    Handle { matcher: Seq<MatcherView>, directives: Seq<DirectiveView> },
    HandlePath { matcher: Seq<MatcherView>, directives: Seq<DirectiveView> },
    HeaderUp { name: Seq<char>, value: ValueTemplateView },
    HeaderDown { name: Seq<char>, value: ValueTemplateView },
    FileServer,
    Root { path: Seq<char> },
    Encode { algorithms: Seq<Encoding> },
    Redir { to: Seq<char>, code: u16 },
    Rewrite { to: ValueTemplateView },
    Respond { matcher: Seq<MatcherView>, status: u16, body: Option<Seq<char>> },
    Error { matcher: Seq<MatcherView>, status: Option<u16>, message: Option<Seq<char>> },
    BasicAuth { user: Seq<char>, hash: Seq<char> },
    ForwardAuth { target: Seq<char> },
    TrustedProxies { networks: Seq<Cidr> },
    RateLimit { spec: RateSpecView },
    Tls { config: TlsConfigView },
    AccessLogOff,
}

/// The model of a directive.
pub open spec fn directive_view(d: Directive) -> DirectiveView
    decreases d,
{
    match d {
        Directive::ReverseProxy { matcher, to, lb_policy, health_check, tls } => DirectiveView::ReverseProxy {
            matcher: matcher.deep_view(),
            to: to.deep_view(),
            lb_policy: lb_policy.deep_view(),
            health_check: health_check.deep_view(),
            tls: tls.deep_view(),
        },
        Directive::Handle { matcher, directives } => DirectiveView::Handle {
            matcher: matcher.deep_view(),
            directives: directives_view(directives@),
        },
        Directive::HandlePath { matcher, directives } => DirectiveView::HandlePath {
            matcher: matcher.deep_view(),
            directives: directives_view(directives@),
        },
        Directive::HeaderUp { name, value } => DirectiveView::HeaderUp {
            name: name.deep_view(),
            value: value.deep_view(),
        },
        Directive::HeaderDown { name, value } => DirectiveView::HeaderDown {
            name: name.deep_view(),
            value: value.deep_view(),
        },
        Directive::FileServer => DirectiveView::FileServer,
        Directive::Root { path } => DirectiveView::Root {
            path: path.deep_view(),
        },
        Directive::Encode { algorithms } => DirectiveView::Encode {
            algorithms: algorithms.deep_view(),
        },
        Directive::Redir { to, code } => DirectiveView::Redir {
            to: to.deep_view(),
            code: code.deep_view(),
        },
        Directive::Rewrite { to } => DirectiveView::Rewrite {
            to: to.deep_view(),
        },
        Directive::Respond { matcher, status, body } => DirectiveView::Respond {
            matcher: matcher.deep_view(),
            status: status.deep_view(),
            body: body.deep_view(),
        },
        Directive::Error { matcher, status, message } => DirectiveView::Error {
            matcher: matcher.deep_view(),
            status: status.deep_view(),
            message: message.deep_view(),
        },
        Directive::BasicAuth { user, hash } => DirectiveView::BasicAuth {
            user: user.deep_view(),
            hash: hash.deep_view(),
        },
        Directive::ForwardAuth { target } => DirectiveView::ForwardAuth {
            target: target.deep_view(),
        },
        Directive::TrustedProxies { networks } => DirectiveView::TrustedProxies {
            networks: networks.deep_view(),
        },
        Directive::RateLimit { spec } => DirectiveView::RateLimit {
            spec: spec.deep_view(),
        },
        Directive::Tls { config } => DirectiveView::Tls {
            config: config.deep_view(),
        },
        Directive::AccessLogOff => DirectiveView::AccessLogOff,
    }
}

/// The model of a list of directives.
pub open spec fn directives_view(s: Seq<Directive>) -> Seq<DirectiveView>
    decreases s,
{
    Seq::new(
        s.len(),
        |i: int|
            if 0 <= i < s.len() {
                directive_view(s[i])
            } else {
                arbitrary()
            },
    )
}

/// A list of directives has one model.
pub proof fn lemma_directives_view(v: &Vec<Directive>)
    ensures
        directives_view(v@) == v.deep_view(),
{
    assert(directives_view(v@) == v.deep_view());
}

impl DeepView for Directive {
    type V = DirectiveView;

    open spec fn deep_view(&self) -> DirectiveView {
        directive_view(*self)
    }
}

fn copy_directive(d: &Directive) -> (r: Directive)
    ensures
        directive_view(r) == directive_view(*d),
    decreases *d,
{
    match d {
        Directive::ReverseProxy { matcher, to, lb_policy, health_check, tls } => Directive::ReverseProxy {
            matcher: matcher.dup(),
            to: to.dup(),
            lb_policy: lb_policy.dup(),
            health_check: health_check.dup(),
            tls: tls.dup(),
        },
        Directive::Handle { matcher, directives } => {
            let block = copy_directives(directives);
            assert(directives_view(block@) == directives_view(directives@));
            Directive::Handle { matcher: matcher.dup(), directives: block }
        },
        Directive::HandlePath { matcher, directives } => {
            let block = copy_directives(directives);
            assert(directives_view(block@) == directives_view(directives@));
            Directive::HandlePath { matcher: matcher.dup(), directives: block }
        },
        Directive::HeaderUp { name, value } => Directive::HeaderUp {
            name: name.dup(),
            value: value.dup(),
        },
        Directive::HeaderDown { name, value } => Directive::HeaderDown {
            name: name.dup(),
            value: value.dup(),
        },
        Directive::FileServer => Directive::FileServer,
        Directive::Root { path } => Directive::Root {
            path: path.dup(),
        },
        Directive::Encode { algorithms } => Directive::Encode {
            algorithms: algorithms.dup(),
        },
        Directive::Redir { to, code } => Directive::Redir {
            to: to.dup(),
            code: code.dup(),
        },
        Directive::Rewrite { to } => Directive::Rewrite {
            to: to.dup(),
        },
        Directive::Respond { matcher, status, body } => Directive::Respond {
            matcher: matcher.dup(),
            status: status.dup(),
            body: body.dup(),
        },
        Directive::Error { matcher, status, message } => Directive::Error {
            matcher: matcher.dup(),
            status: status.dup(),
            message: message.dup(),
        },
        Directive::BasicAuth { user, hash } => Directive::BasicAuth {
            user: user.dup(),
            hash: hash.dup(),
        },
        Directive::ForwardAuth { target } => Directive::ForwardAuth {
            target: target.dup(),
        },
        Directive::TrustedProxies { networks } => Directive::TrustedProxies {
            networks: networks.dup(),
        },
        Directive::RateLimit { spec } => Directive::RateLimit {
            spec: spec.dup(),
        },
        Directive::Tls { config } => Directive::Tls {
            config: config.dup(),
        },
        Directive::AccessLogOff => Directive::AccessLogOff,
    }
}

fn copy_directives(v: &Vec<Directive>) -> (r: Vec<Directive>)
    ensures
        r@.len() == v@.len(),
        forall|i: int| 0 <= i < v@.len() ==> directive_view(r@[i]) == directive_view(v@[i]),
    decreases *v,
{
    let mut r: Vec<Directive> = Vec::new();
    let mut i: usize = 0;
    while i < v.len()
        invariant
            i <= v@.len(),
            r@.len() == i,
            forall|j: int| 0 <= j < i ==> directive_view(r@[j]) == directive_view(v@[j]),
        decreases v@.len() - i,
    {
        r.push(copy_directive(&v[i]));
        i += 1;
    }
    r
}

impl Dup for Directive {
    fn dup(&self) -> Directive {
        copy_directive(self)
    }
}

/// A site block.
#[derive(PartialEq, Eq, Debug)]
pub struct Site {
    pub key: SiteKey,
    pub directives: Vec<Directive>,
}

/// The model of [`Site`].
#[verifier::ext_equal]
pub ghost struct SiteView {
    pub key: SiteKeyView,
    pub directives: Seq<DirectiveView>,
}

impl DeepView for Site {
    type V = SiteView;

    open spec fn deep_view(&self) -> SiteView {
        SiteView {
            key: self.key.deep_view(),
            directives: self.directives.deep_view(),
        }
    }
}

impl Dup for Site {
    fn dup(&self) -> Site {
        Site {
            key: self.key.dup(),
            directives: self.directives.dup(),
        }
    }
}

// ---------------------------------------------------------------------------
// Layer-4 listeners
// ---------------------------------------------------------------------------

/// The address that a listener binds.
#[derive(Clone, Copy, PartialEq, Eq, Structural, Debug, Hash)]
pub enum ListenAddress {
    Socket(SocketAddr),
}

impl DeepView for ListenAddress {
    type V = ListenAddress;

    open spec fn deep_view(&self) -> ListenAddress {
        *self
    }
}

impl Dup for ListenAddress {
    fn dup(&self) -> ListenAddress {
        *self
    }
}

/// The transport of a socket.
#[derive(Clone, Copy, PartialEq, Eq, Structural, Debug, Hash)]
pub enum SocketTransport {
    Tcp,
    Udp,
}

impl DeepView for SocketTransport {
    type V = SocketTransport;

    open spec fn deep_view(&self) -> SocketTransport {
        *self
    }
}

impl Dup for SocketTransport {
    fn dup(&self) -> SocketTransport {
        *self
    }
}

/// A layer-4 upstream, host unresolved.
#[derive(PartialEq, Eq, Debug)]
pub struct L4Upstream {
    pub host: String,
    pub port: u16,
}

/// The model of [`L4Upstream`].
#[verifier::ext_equal]
pub ghost struct L4UpstreamView {
    pub host: Seq<char>,
    pub port: u16,
}

impl DeepView for L4Upstream {
    type V = L4UpstreamView;

    open spec fn deep_view(&self) -> L4UpstreamView {
        L4UpstreamView {
            host: self.host.deep_view(),
            port: self.port.deep_view(),
        }
    }
}

impl Dup for L4Upstream {
    fn dup(&self) -> L4Upstream {
        L4Upstream {
            host: self.host.dup(),
            port: self.port.dup(),
        }
    }
}

/// A route by TLS server name.
#[derive(PartialEq, Eq, Debug)]
pub struct SniRoute {
    pub name: String,
    pub upstream: L4Upstream,
}

/// The model of [`SniRoute`].
#[verifier::ext_equal]
pub ghost struct SniRouteView {
    pub name: Seq<char>,
    pub upstream: L4UpstreamView,
}

impl DeepView for SniRoute {
    type V = SniRouteView;

    open spec fn deep_view(&self) -> SniRouteView {
        SniRouteView {
            name: self.name.deep_view(),
            upstream: self.upstream.deep_view(),
        }
    }
}

impl Dup for SniRoute {
    fn dup(&self) -> SniRoute {
        SniRoute {
            name: self.name.dup(),
            upstream: self.upstream.dup(),
        }
    }
}

/// The active health check of a `tcp` listener.
#[derive(Clone, Copy, PartialEq, Eq, Structural, Debug)]
pub struct TcpHealthCheckSpec {
    pub interval: Duration,
    pub timeout: Duration,
    pub consecutive_failures: usize,
    pub consecutive_successes: usize,
}

impl DeepView for TcpHealthCheckSpec {
    type V = TcpHealthCheckSpec;

    open spec fn deep_view(&self) -> TcpHealthCheckSpec {
        *self
    }
}

impl Dup for TcpHealthCheckSpec {
    fn dup(&self) -> TcpHealthCheckSpec {
        *self
    }
}

/// A `tcp` listener.
#[derive(PartialEq, Eq, Debug)]
pub struct TcpProxyConfig {
    pub listen: ListenAddress,
    /// TLS termination, when set.
    pub tls: Option<TlsConfig>,
    /// Forward to the original destination.
    pub transparent: bool,
    pub upstreams: Vec<L4Upstream>,
    pub lb_policy: LbPolicy,
    pub connect_timeout: Duration,
    pub idle_timeout: Duration,
    pub max_connections: usize,
    pub health_check: Option<TcpHealthCheckSpec>,
    pub sni_routes: Vec<SniRoute>,
    pub sni_fallback: Option<L4Upstream>,
}

/// The model of [`TcpProxyConfig`].
#[verifier::ext_equal]
pub ghost struct TcpProxyConfigView {
    pub listen: ListenAddress,
    pub tls: Option<TlsConfigView>,
    pub transparent: bool,
    pub upstreams: Seq<L4UpstreamView>,
    pub lb_policy: LbPolicy,
    pub connect_timeout: Duration,
    pub idle_timeout: Duration,
    pub max_connections: usize,
    pub health_check: Option<TcpHealthCheckSpec>,
    pub sni_routes: Seq<SniRouteView>,
    pub sni_fallback: Option<L4UpstreamView>,
}

impl DeepView for TcpProxyConfig {
    type V = TcpProxyConfigView;

    open spec fn deep_view(&self) -> TcpProxyConfigView {
        TcpProxyConfigView {
            listen: self.listen.deep_view(),
            tls: self.tls.deep_view(),
            transparent: self.transparent.deep_view(),
            upstreams: self.upstreams.deep_view(),
            lb_policy: self.lb_policy.deep_view(),
            connect_timeout: self.connect_timeout.deep_view(),
            idle_timeout: self.idle_timeout.deep_view(),
            max_connections: self.max_connections.deep_view(),
            health_check: self.health_check.deep_view(),
            sni_routes: self.sni_routes.deep_view(),
            sni_fallback: self.sni_fallback.deep_view(),
        }
    }
}

impl Dup for TcpProxyConfig {
    fn dup(&self) -> TcpProxyConfig {
        TcpProxyConfig {
            listen: self.listen.dup(),
            tls: self.tls.dup(),
            transparent: self.transparent.dup(),
            upstreams: self.upstreams.dup(),
            lb_policy: self.lb_policy.dup(),
            connect_timeout: self.connect_timeout.dup(),
            idle_timeout: self.idle_timeout.dup(),
            max_connections: self.max_connections.dup(),
            health_check: self.health_check.dup(),
            sni_routes: self.sni_routes.dup(),
            sni_fallback: self.sni_fallback.dup(),
        }
    }
}

/// A `udp` listener.
#[derive(PartialEq, Eq, Debug)]
pub struct UdpProxyConfig {
    pub listen: ListenAddress,
    pub upstreams: Vec<L4Upstream>,
    pub lb_policy: LbPolicy,
    pub idle_timeout: Duration,
    pub max_flows: usize,
    pub max_datagram_size: usize,
    pub recv_buffer: usize,
    pub send_buffer: usize,
}

/// The model of [`UdpProxyConfig`].
#[verifier::ext_equal]
pub ghost struct UdpProxyConfigView {
    pub listen: ListenAddress,
    pub upstreams: Seq<L4UpstreamView>,
    pub lb_policy: LbPolicy,
    pub idle_timeout: Duration,
    pub max_flows: usize,
    pub max_datagram_size: usize,
    pub recv_buffer: usize,
    pub send_buffer: usize,
}

impl DeepView for UdpProxyConfig {
    type V = UdpProxyConfigView;

    open spec fn deep_view(&self) -> UdpProxyConfigView {
        UdpProxyConfigView {
            listen: self.listen.deep_view(),
            upstreams: self.upstreams.deep_view(),
            lb_policy: self.lb_policy.deep_view(),
            idle_timeout: self.idle_timeout.deep_view(),
            max_flows: self.max_flows.deep_view(),
            max_datagram_size: self.max_datagram_size.deep_view(),
            recv_buffer: self.recv_buffer.deep_view(),
            send_buffer: self.send_buffer.deep_view(),
        }
    }
}

impl Dup for UdpProxyConfig {
    fn dup(&self) -> UdpProxyConfig {
        UdpProxyConfig {
            listen: self.listen.dup(),
            upstreams: self.upstreams.dup(),
            lb_policy: self.lb_policy.dup(),
            idle_timeout: self.idle_timeout.dup(),
            max_flows: self.max_flows.dup(),
            max_datagram_size: self.max_datagram_size.dup(),
            recv_buffer: self.recv_buffer.dup(),
            send_buffer: self.send_buffer.dup(),
        }
    }
}

/// A layer-4 listener block.
#[derive(PartialEq, Eq, Debug)]
pub enum Layer4Listener {
    Tcp(TcpProxyConfig),
    Udp(UdpProxyConfig),
}

/// The model of [`Layer4Listener`].
#[verifier::ext_equal]
pub ghost enum Layer4ListenerView {
    Tcp(TcpProxyConfigView),
    Udp(UdpProxyConfigView),
}

impl DeepView for Layer4Listener {
    type V = Layer4ListenerView;

    open spec fn deep_view(&self) -> Layer4ListenerView {
        match self {
            Layer4Listener::Tcp(a) => Layer4ListenerView::Tcp(a.deep_view()),
            Layer4Listener::Udp(a) => Layer4ListenerView::Udp(a.deep_view()),
        }
    }
}

impl Dup for Layer4Listener {
    fn dup(&self) -> Layer4Listener {
        match self {
            Layer4Listener::Tcp(a) => Layer4Listener::Tcp(a.dup()),
            Layer4Listener::Udp(a) => Layer4Listener::Udp(a.dup()),
        }
    }
}

/// A parsed file: a global block, site blocks and layer-4 listeners.
#[derive(PartialEq, Eq)]
pub struct Raddexfile {
    pub global: GlobalConfig,
    pub sites: Vec<Site>,
    pub layer4: Vec<Layer4Listener>,
}

/// The model of [`Raddexfile`].
#[verifier::ext_equal]
pub ghost struct RaddexfileView {
    pub global: GlobalConfigView,
    pub sites: Seq<SiteView>,
    pub layer4: Seq<Layer4ListenerView>,
}

impl DeepView for Raddexfile {
    type V = RaddexfileView;

    open spec fn deep_view(&self) -> RaddexfileView {
        RaddexfileView {
            global: self.global.deep_view(),
            sites: self.sites.deep_view(),
            layer4: self.layer4.deep_view(),
        }
    }
}

impl Dup for Raddexfile {
    fn dup(&self) -> Raddexfile {
        Raddexfile {
            global: self.global.dup(),
            sites: self.sites.dup(),
            layer4: self.layer4.dup(),
        }
    }
}

// ---------------------------------------------------------------------------
// Operations
// ---------------------------------------------------------------------------

/// A copy of `v[from..to]`.
pub fn dup_range<T: Dup>(v: &Vec<T>, from: usize, to: usize) -> (r: Vec<T>)
    requires
        from <= to <= v@.len(),
    ensures
        r.deep_view() == v.deep_view().subrange(from as int, to as int),
{
    let mut r: Vec<T> = Vec::new();
    let mut i: usize = from;
    assert(r.deep_view() == v.deep_view().subrange(from as int, from as int));
    while i < to
        invariant
            from <= i <= to <= v@.len(),
            r.deep_view() == v.deep_view().subrange(from as int, i as int),
        decreases to - i,
    {
        add_to(&mut r, v[i].dup());
        i += 1;
        assert(v.deep_view().subrange(from as int, i as int) == v.deep_view().subrange(
            from as int,
            i - 1,
        ).push(v.deep_view()[i - 1]));
    }
    r
}

impl SiteKeyView {
    /// The listener port of the site.
    pub open spec fn port(self) -> u16 {
        match self {
            SiteKeyView::Named { port, .. } => port,
            SiteKeyView::CatchAll { port } => port,
        }
    }

    /// A human-readable form of the key.
    pub open spec fn text(self) -> Seq<char> {
        match self {
            SiteKeyView::Named { host, port } => host + ":"@ + decimal(port as nat),
            SiteKeyView::CatchAll { port } => ":"@ + decimal(port as nat),
        }
    }
}

impl SiteKey {
    /// The listener port this site is served on.
    pub fn port(&self) -> (r: u16)
        ensures
            r == self.deep_view().port(),
    {
        match self {
            SiteKey::Named { port, .. } => *port,
            SiteKey::CatchAll { port } => *port,
        }
    }

    /// A human-readable form of the key, used in error messages.
    pub fn describe(&self) -> (r: String)
        ensures
            r@ == self.deep_view().text(),
    {
        match self {
            SiteKey::Named { host, port } => {
                let p = decimal_string(*port as u64);
                cat3(host.as_str(), ":", p.as_str())
            },
            SiteKey::CatchAll { port } => {
                let p = decimal_string(*port as u64);
                cat2(":", p.as_str())
            },
        }
    }

    /// Whether two keys name the same site.
    pub fn equals(&self, other: &SiteKey) -> (r: bool)
        ensures
            r == (self.deep_view() == other.deep_view()),
    {
        match (self, other) {
            (SiteKey::Named { host: a, port: p }, SiteKey::Named { host: b, port: q }) => {
                *p == *q && same(a.as_str(), b.as_str())
            },
            (SiteKey::CatchAll { port: p }, SiteKey::CatchAll { port: q }) => *p == *q,
            _ => false,
        }
    }
}

impl ListenAddress {
    /// The socket that the listener binds.
    pub open spec fn socket(self) -> SocketAddr {
        match self {
            ListenAddress::Socket(a) => a,
        }
    }

    /// The port that the listener binds.
    pub fn port(&self) -> (r: u16)
        ensures
            r == self.socket().port,
    {
        match self {
            ListenAddress::Socket(a) => a.port,
        }
    }

    /// Whether the listener binds every address of its family.
    pub fn is_wildcard(&self) -> (r: bool)
        ensures
            r == self.socket().ip.spec_unspecified(),
    {
        match self {
            ListenAddress::Socket(a) => a.ip.is_unspecified(),
        }
    }

    /// The address as text.
    pub fn display(&self) -> (r: String)
        ensures
            r@ == self.socket().text(),
    {
        match self {
            ListenAddress::Socket(a) => a.display(),
        }
    }
}

impl L4UpstreamView {
    /// The upstream as `host:port`.
    pub open spec fn text(self) -> Seq<char> {
        self.host + ":"@ + decimal(self.port as nat)
    }
}

impl L4Upstream {
    /// The upstream as `host:port`.
    pub fn display(&self) -> (r: String)
        ensures
            r@ == self.deep_view().text(),
    {
        let p = decimal_string(self.port as u64);
        cat3(self.host.as_str(), ":", p.as_str())
    }
}

/// How specific the wildcard `pattern` is for `name`: the length of its suffix,
/// when `pattern` is `*.<suffix>` and `name` is one label in front of that
/// suffix.
pub open spec fn wildcard_specificity(pattern: Seq<char>, name: Seq<char>) -> Option<nat> {
    match after(pattern, "*."@) {
        None => None,
        Some(suffix) => match cut(name, '.') {
            None => None,
            Some((label, rest)) => if label.len() > 0 && suffix.len() > 0 && rest == suffix {
                Some(suffix.len())
            } else {
                None
            },
        },
    }
}

/// How specific the wildcard `pattern` is for `name`, if it matches: exactly one
/// label may stand in place of the `*`.
pub fn wildcard_match_specificity(pattern: &str, name: &str) -> (r: Option<usize>)
    ensures
        match r {
            Some(n) => wildcard_specificity(pattern@, name@) == Some(n as nat),
            None => wildcard_specificity(pattern@, name@) is None,
        },
{
    match strip_prefix(pattern, "*.") {
        None => None,
        Some(suffix) => match split_once(name, '.') {
            None => None,
            Some((label, rest)) => if !is_empty(label) && !is_empty(suffix) && same(rest, suffix) {
                Some(suffix.unicode_len())
            } else {
                None
            },
        },
    }
}

/// A wildcard never matches its own suffix: the apex needs a route of its own.
pub proof fn wildcard_excludes_the_apex(suffix: Seq<char>)
    ensures
        wildcard_specificity("*."@ + suffix, suffix) is None,
{
    lemma_first_index(suffix, '.');
    assert(after("*."@ + suffix, "*."@) matches Some(s) ==> s == suffix) by {
        assert(("*."@ + suffix).skip("*."@.len() as int) == suffix);
    }
    if let Some((label, rest)) = cut(suffix, '.') {
        assert(rest.len() < suffix.len());
    }
}

/// The TLS settings of a site that has no `tls` line: automatic certificates and
/// no option.
pub open spec fn default_tls() -> TlsConfigView {
    TlsConfigView {
        source: TlsSourceView::Acme,
        min_version: None,
        max_version: None,
        ciphers: None,
        client_auth: None,
    }
}

impl Default for TlsConfig {
    fn default() -> (r: TlsConfig)
        ensures
            r.deep_view() == default_tls(),
    {
        TlsConfig {
            source: TlsSource::Acme,
            min_version: None,
            max_version: None,
            ciphers: None,
            client_auth: None,
        }
    }
}

/// The TLS settings of a `reverse_proxy` block without `tls_*` lines.
pub open spec fn default_proxy_tls() -> ProxyTlsConfigView {
    ProxyTlsConfigView {
        servername: None,
        skip_verify: false,
        ca_files: Seq::empty(),
        cert_file: None,
        key_file: None,
    }
}

impl Default for ProxyTlsConfig {
    fn default() -> (r: ProxyTlsConfig)
        ensures
            r.deep_view() == default_proxy_tls(),
    {
        let r = ProxyTlsConfig {
            servername: None,
            skip_verify: false,
            ca_files: Vec::new(),
            cert_file: None,
            key_file: None,
        };
        assert(r.deep_view() == default_proxy_tls());
        r
    }
}

/// The global settings of a file without a global block.
pub open spec fn default_global() -> GlobalConfigView {
    GlobalConfigView {
        acme_email: None,
        log_level: None,
        trusted_proxies: Seq::empty(),
        dns_challenge: None,
        tls_alpn_challenge: false,
        access_log: None,
    }
}

impl Default for GlobalConfig {
    fn default() -> (r: GlobalConfig)
        ensures
            r.deep_view() == default_global(),
    {
        let r = GlobalConfig {
            acme_email: None,
            log_level: None,
            trusted_proxies: Vec::new(),
            dns_challenge: None,
            tls_alpn_challenge: false,
            access_log: None,
        };
        assert(r.deep_view() == default_global());
        r
    }
}

/// `config` laid over `base`: each option that `config` sets wins, and the
/// certificate source of `config` wins unless it is the default.
pub open spec fn tls_over(base: TlsConfigView, config: TlsConfigView) -> TlsConfigView {
    TlsConfigView {
        source: if config.source == TlsSourceView::Acme {
            base.source
        } else {
            config.source
        },
        min_version: if config.min_version is Some {
            config.min_version
        } else {
            base.min_version
        },
        max_version: if config.max_version is Some {
            config.max_version
        } else {
            base.max_version
        },
        ciphers: if config.ciphers is Some {
            config.ciphers
        } else {
            base.ciphers
        },
        client_auth: if config.client_auth is Some {
            config.client_auth
        } else {
            base.client_auth
        },
    }
}

/// The settings after one more `tls` line.
pub open spec fn tls_merged(target: Option<TlsConfigView>, config: TlsConfigView) -> TlsConfigView {
    tls_over(
        match target {
            Some(t) => t,
            None => default_tls(),
        },
        config,
    )
}

/// Merge one `tls` directive into the accumulated settings. Each option is
/// independent and the last occurrence wins; the source is only overridden when
/// the directive sets one.
pub fn merge_tls(target: &mut Option<TlsConfig>, config: &TlsConfig)
    ensures
        final(target).deep_view() == Some(tls_merged(old(target).deep_view(), config.deep_view())),
{
    let base = match target.take() {
        Some(t) => t,
        None => TlsConfig::default(),
    };
    let source = match &config.source {
        TlsSource::Acme => base.source,
        other => other.dup(),
    };
    let merged = TlsConfig {
        source,
        min_version: if config.min_version.is_some() { config.min_version } else { base.min_version },
        max_version: if config.max_version.is_some() { config.max_version } else { base.max_version },
        ciphers: if config.ciphers.is_some() { config.ciphers.dup() } else { base.ciphers },
        client_auth: if config.client_auth.is_some() {
            config.client_auth.dup()
        } else {
            base.client_auth
        },
    };
    *target = Some(merged);
}

/// Repeating a `tls` line changes nothing.
pub proof fn tls_merge_is_idempotent(target: Option<TlsConfigView>, config: TlsConfigView)
    ensures
        tls_merged(Some(tls_merged(target, config)), config) == tls_merged(target, config),
{
}

/// The last `tls` line to set an option wins, and a line that does not set it
/// leaves it alone.
pub proof fn last_tls_line_wins(
    target: Option<TlsConfigView>,
    first: TlsConfigView,
    second: TlsConfigView,
)
    ensures
        ({
            let r = tls_merged(Some(tls_merged(target, first)), second);
            &&& second.min_version is Some ==> r.min_version == second.min_version
            &&& second.min_version is None && first.min_version is Some ==> r.min_version
                == first.min_version
            &&& second.max_version is Some ==> r.max_version == second.max_version
            &&& second.max_version is None && first.max_version is Some ==> r.max_version
                == first.max_version
            &&& second.ciphers is Some ==> r.ciphers == second.ciphers
            &&& second.ciphers is None && first.ciphers is Some ==> r.ciphers == first.ciphers
            &&& second.client_auth is Some ==> r.client_auth == second.client_auth
            &&& second.client_auth is None && first.client_auth is Some ==> r.client_auth
                == first.client_auth
            &&& second.source != TlsSourceView::Acme ==> r.source == second.source
            &&& second.source == TlsSourceView::Acme && first.source != TlsSourceView::Acme
                ==> r.source == first.source
        }),
{
}

// ---------------------------------------------------------------------------
// Comparisons
// ---------------------------------------------------------------------------

/// Values that can be compared by what they stand for.
pub trait Same: DeepView {
    /// Whether two values stand for the same thing.
    fn same_as(&self, other: &Self) -> (r: bool)
        ensures
            r == (self.deep_view() == other.deep_view()),
    ;
}

impl Same for String {
    fn same_as(&self, other: &String) -> bool {
        same(self.as_str(), other.as_str())
    }
}

impl Same for L4Upstream {
    fn same_as(&self, other: &L4Upstream) -> bool {
        self.port == other.port && same(self.host.as_str(), other.host.as_str())
    }
}

impl Same for SniRoute {
    fn same_as(&self, other: &SniRoute) -> bool {
        same(self.name.as_str(), other.name.as_str()) && self.upstream.same_as(&other.upstream)
    }
}

impl<T: Same> Same for Option<T> {
    fn same_as(&self, other: &Option<T>) -> bool {
        match (self, other) {
            (Some(a), Some(b)) => a.same_as(b),
            (None, None) => true,
            _ => false,
        }
    }
}

impl<T: Same> Same for Vec<T> {
    fn same_as(&self, other: &Vec<T>) -> bool {
        if self.len() != other.len() {
            assert(self.deep_view().len() != other.deep_view().len());
            return false;
        }
        let mut i: usize = 0;
        while i < self.len()
            invariant
                i <= self@.len(),
                self@.len() == other@.len(),
                forall|j: int|
                    0 <= j < i ==> self.deep_view()[j] == #[trigger] other.deep_view()[j],
            decreases self@.len() - i,
        {
            assert(self.deep_view()[i as int] == self@[i as int].deep_view());
            assert(other.deep_view()[i as int] == other@[i as int].deep_view());
            if !self[i].same_as(&other[i]) {
                return false;
            }
            i += 1;
        }
        assert(self.deep_view() == other.deep_view());
        true
    }
}

// ---------------------------------------------------------------------------
// Errors
// ---------------------------------------------------------------------------

/// A configuration error with the source file name attached.
#[derive(PartialEq, Eq, Debug)]
pub enum ConfigError {
    /// The file could not be read.
    Io { file: String, source: String },
    /// The text is not a configuration.
    Parse { file: String, line: u32, col: u32, message: String },
    /// The configuration has no meaning.
    Validate { file: String, message: String },
}

/// The model of [`ConfigError`].
#[verifier::ext_equal]
pub ghost enum ConfigErrorView {
    Io { file: Seq<char>, source: Seq<char> },
    Parse { file: Seq<char>, line: u32, col: u32, message: Seq<char> },
    Validate { file: Seq<char>, message: Seq<char> },
}

impl DeepView for ConfigError {
    type V = ConfigErrorView;

    open spec fn deep_view(&self) -> ConfigErrorView {
        match self {
            ConfigError::Io { file, source } => ConfigErrorView::Io { file: file@, source: source@ },
            ConfigError::Parse { file, line, col, message } => ConfigErrorView::Parse {
                file: file@,
                line: *line,
                col: *col,
                message: message@,
            },
            ConfigError::Validate { file, message } => ConfigErrorView::Validate {
                file: file@,
                message: message@,
            },
        }
    }
}

/// How an error reads.
pub open spec fn error_text(e: ConfigErrorView) -> Seq<char> {
    match e {
        ConfigErrorView::Io { file, source } => "failed to read config file "@ + file + ": "@ + source,
        ConfigErrorView::Parse { file, line, col, message } => "parse error in "@ + file + ":"@
            + decimal(line as nat) + ":"@ + (decimal(col as nat) + ": "@ + message),
        ConfigErrorView::Validate { file, message } => "validation error in "@ + file + ": "@ + message,
    }
}

impl ConfigError {
    /// The error as one line of text.
    pub fn describe(&self) -> (r: String)
        ensures
            r@ == error_text(self.deep_view()),
    {
        match self {
            ConfigError::Io { file, source } => cat4(
                "failed to read config file ",
                file.as_str(),
                ": ",
                source.as_str(),
            ),
            ConfigError::Parse { file, line, col, message } => {
                let l = decimal_string(*line as u64);
                let c = decimal_string(*col as u64);
                let head = cat5("parse error in ", file.as_str(), ":", l.as_str(), ":");
                let tail = cat3(c.as_str(), ": ", message.as_str());
                cat2(head.as_str(), tail.as_str())
            },
            ConfigError::Validate { file, message } => cat4(
                "validation error in ",
                file.as_str(),
                ": ",
                message.as_str(),
            ),
        }
    }
}

} // verus!
