//! Validation, upstream resolution and compilation.
//!
//! A parsed file is checked (site conflicts, certificate sources, listener
//! overlaps, directive scopes) and compiled into terminals and modifiers. On any
//! error nothing is produced.
use crate::config::answers::{
    certificate_answer, find_certificate, find_key, key_answer, no_answers, resolve_host, resolved,
    tells, Answers, AnswersView, CertificateOutcome, CertificateOutcomeView, Fault, FaultView,
    KeyOutcome, KeyOutcomeView,
};
use crate::config::ast::{
    add_all, add_to, lemma_directives_view, merge_tls, tls_merged, ConfigError, ConfigErrorView,
    Directive, DirectiveView, Dup, Encoding, GlobalConfig, GlobalConfigView, HealthCheckSpec,
    Layer4Listener, Layer4ListenerView, LbPolicy, ListenAddress, Matcher, MatcherView,
    ProxyTlsConfig, ProxyTlsConfigView, Raddexfile, RaddexfileView, Site, SiteKey, SiteKeyView,
    SiteView, SocketTransport, TlsConfig, TlsConfigView, TlsSource, TlsSourceView, TlsVersion,
    Upstream, UpstreamView, ValueTemplate,
};
use crate::config::compiled::{
    CertKey, CertKeyView, Certificate, CertificateView, CompiledConfig, CompiledConfigView,
    CompiledSite, CompiledSiteView, Modifier, ModifierView, Terminal, TerminalKind,
    TerminalKindView, TerminalView, UpstreamPeer, UpstreamPeerView, UpstreamTls, UpstreamTlsView,
};
use crate::config::template::template;
use crate::net::{Cidr, SocketAddr};
use crate::num::{decimal, decimal_string};
use crate::text::{
    alphanumeric, cat2, cat3, cat4, chars_of, contains_char, is_alphanumeric, is_empty, owned, same,
    starts_with, starts_with_char,
};
use vstd::prelude::*;

verus! {

/// What the directives of a site have given so far.
pub struct SiteState {
    pub terminals: Vec<Terminal>,
    pub modifiers: Vec<Modifier>,
    /// The last `root`.
    pub root: Option<String>,
    /// The last `trusted_proxies`.
    pub trusted: Option<Vec<Cidr>>,
    /// The `tls` lines, merged.
    pub tls: Option<TlsConfig>,
    /// The `basic_auth` table.
    pub users: Vec<(String, String)>,
    /// The last `forward_auth`.
    pub forward: Option<String>,
    pub log_off: bool,
}

/// The model of [`SiteState`].
#[verifier::ext_equal]
pub ghost struct SiteStateView {
    pub terminals: Seq<TerminalView>,
    pub modifiers: Seq<ModifierView>,
    pub root: Option<Seq<char>>,
    pub trusted: Option<Seq<Cidr>>,
    pub tls: Option<TlsConfigView>,
    pub users: Seq<(Seq<char>, Seq<char>)>,
    pub forward: Option<Seq<char>>,
    pub log_off: bool,
}

impl DeepView for SiteState {
    type V = SiteStateView;

    open spec fn deep_view(&self) -> SiteStateView {
        SiteStateView {
            terminals: self.terminals.deep_view(),
            modifiers: self.modifiers.deep_view(),
            root: self.root.deep_view(),
            trusted: self.trusted.deep_view(),
            tls: self.tls.deep_view(),
            users: self.users.deep_view(),
            forward: self.forward.deep_view(),
            log_off: self.log_off.deep_view(),
        }
    }
}

/// What the directives of a `handle` block have given so far.
pub struct HandleState {
    pub terminals: Vec<Terminal>,
    pub modifiers: Vec<Modifier>,
    /// The last `root`.
    pub root: Option<String>,
    /// The `basic_auth` table.
    pub users: Vec<(String, String)>,
    /// The last `forward_auth`.
    pub forward: Option<String>,
}

/// The model of [`HandleState`].
#[verifier::ext_equal]
pub ghost struct HandleStateView {
    pub terminals: Seq<TerminalView>,
    pub modifiers: Seq<ModifierView>,
    pub root: Option<Seq<char>>,
    pub users: Seq<(Seq<char>, Seq<char>)>,
    pub forward: Option<Seq<char>>,
}

impl DeepView for HandleState {
    type V = HandleStateView;

    open spec fn deep_view(&self) -> HandleStateView {
        HandleStateView {
            terminals: self.terminals.deep_view(),
            modifiers: self.modifiers.deep_view(),
            root: self.root.deep_view(),
            users: self.users.deep_view(),
            forward: self.forward.deep_view(),
        }
    }
}

/// The fault `message`.
pub open spec fn wrong<V>(message: Seq<char>) -> Result<V, FaultView> {
    Err(FaultView::Message(message))
}

fn wrong_text<T>(message: &str) -> (r: Result<T, Fault>)
    ensures
        r matches Err(f) && f.deep_view() == FaultView::Message(message@),
{
    Err(Fault::Message(owned(message)))
}

// ---------------------------------------------------------------------------
// Names and lists
// ---------------------------------------------------------------------------

/// The characters of an HTTP token.
pub open spec fn token_char(c: char) -> bool {
    ||| alphanumeric(c)
    ||| c == '!'
    ||| c == '#'
    ||| c == '$'
    ||| c == '%'
    ||| c == '&'
    ||| c == '\''
    ||| c == '*'
    ||| c == '+'
    ||| c == '-'
    ||| c == '.'
    ||| c == '^'
    ||| c == '_'
    ||| c == '`'
    ||| c == '|'
    ||| c == '~'
}

/// Whether `name` is a header name: a non-empty HTTP token.
pub open spec fn header_name(name: Seq<char>) -> bool {
    name.len() > 0 && forall|i: int| 0 <= i < name.len() ==> token_char(#[trigger] name[i])
}

/// What is wrong with a header name, if anything.
pub open spec fn header_fault(name: Seq<char>) -> Option<FaultView> {
    if header_name(name) {
        None
    } else {
        Some(FaultView::Message("invalid header name '"@ + name + "'"@))
    }
}

fn is_token_char(c: char) -> (r: bool)
    ensures
        r == token_char(c),
{
    is_alphanumeric(c) || c == '!' || c == '#' || c == '$' || c == '%' || c == '&' || c == '\''
        || c == '*' || c == '+' || c == '-' || c == '.' || c == '^' || c == '_' || c == '`' || c
        == '|' || c == '~'
}

/// Check that a header name is a non-empty HTTP token.
pub fn validate_header_name(name: &str) -> (r: Result<(), Fault>)
    ensures
        match r {
            Ok(_) => header_fault(name@) is None,
            Err(f) => header_fault(name@) == Some(f.deep_view()),
        },
{
    let chars = chars_of(name);
    let mut valid = chars.len() > 0;
    let mut i: usize = 0;
    while i < chars.len()
        invariant
            chars@ == name@,
            i <= chars@.len(),
            valid == (name@.len() > 0 && forall|j: int|
                0 <= j < i ==> token_char(#[trigger] name@[j])),
        decreases chars@.len() - i,
    {
        if !is_token_char(chars[i]) {
            assert(!token_char(name@[i as int]));
            valid = false;
        }
        i += 1;
    }
    if valid {
        Ok(())
    } else {
        Err(Fault::Message(cat3("invalid header name '", name, "'")))
    }
}

/// What is wrong with a list of algorithms, if anything: it names at least one,
/// and none twice.
pub open spec fn encodings_fault(algorithms: Seq<Encoding>) -> Option<FaultView> {
    if algorithms.len() == 0 {
        Some(FaultView::Message("encode requires at least one algorithm"@))
    } else if !algorithms.no_duplicates() {
        Some(FaultView::Message("duplicate encode algorithm"@))
    } else {
        None
    }
}

/// Check that a list of algorithms is not empty and names none twice.
pub fn validate_encodings(algorithms: &Vec<Encoding>) -> (r: Result<(), Fault>)
    ensures
        match r {
            Ok(_) => encodings_fault(algorithms@) is None,
            Err(f) => encodings_fault(algorithms@) == Some(f.deep_view()),
        },
{
    if algorithms.len() == 0 {
        return wrong_text("encode requires at least one algorithm");
    }
    let mut i: usize = 0;
    while i < algorithms.len()
        invariant
            algorithms@.len() > 0,
            i <= algorithms@.len(),
            forall|j: int, k: int| 0 <= j < k < i ==> algorithms@[j] != algorithms@[k],
        decreases algorithms@.len() - i,
    {
        let mut j: usize = 0;
        while j < i
            invariant
                algorithms@.len() > 0,
                j <= i < algorithms@.len(),
                forall|k: int| 0 <= k < j ==> algorithms@[k] != algorithms@[i as int],
            decreases i - j,
        {
            if algorithms[j] == algorithms[i] {
                return wrong_text("duplicate encode algorithm");
            }
            j += 1;
        }
        i += 1;
    }
    Ok(())
}

// ---------------------------------------------------------------------------
// Upstreams
// ---------------------------------------------------------------------------

/// The peer that an upstream has at `addr`.
pub open spec fn peer(u: UpstreamView, addr: SocketAddr) -> UpstreamPeerView {
    UpstreamPeerView { addr, tls: u.tls, http_version: u.http_version, host: u.host }
}

/// The peers after those of one upstream at `addrs[i..]`. A peer that is already
/// there is not added again; two hosts at one address are two peers, so each
/// keeps its scheme and server name.
pub open spec fn peers_at(
    u: UpstreamView,
    addrs: Seq<SocketAddr>,
    i: int,
    done: Seq<UpstreamPeerView>,
) -> Seq<UpstreamPeerView>
    decreases addrs.len() - i,
{
    if i < 0 || i >= addrs.len() {
        done
    } else if done.contains(peer(u, addrs[i])) {
        peers_at(u, addrs, i + 1, done)
    } else {
        peers_at(u, addrs, i + 1, done.push(peer(u, addrs[i])))
    }
}

/// The peers of the upstreams `to[i..]`, after `done`.
pub open spec fn peers_from(
    answers: AnswersView,
    to: Seq<UpstreamView>,
    i: int,
    done: Seq<UpstreamPeerView>,
) -> Result<Seq<UpstreamPeerView>, FaultView>
    decreases to.len() - i,
{
    if i < 0 || i >= to.len() {
        Ok(done)
    } else {
        match resolved(answers.hosts, to[i].host, to[i].port) {
            Err(f) => Err(f),
            Ok(addrs) => if addrs.len() == 0 {
                wrong(
                    "no address resolved for upstream "@ + to[i].host + ":"@ + decimal(
                        to[i].port as nat,
                    ),
                )
            } else {
                peers_from(answers, to, i + 1, peers_at(to[i], addrs, 0, done))
            },
        }
    }
}

fn is_peer(peers: &Vec<UpstreamPeer>, u: &Upstream, addr: SocketAddr) -> (r: bool)
    ensures
        r == peers.deep_view().contains(peer(u.deep_view(), addr)),
{
    let ghost want = peer(u.deep_view(), addr);
    let mut i: usize = 0;
    while i < peers.len()
        invariant
            i <= peers@.len(),
            want == peer(u.deep_view(), addr),
            forall|j: int| 0 <= j < i ==> peers.deep_view()[j] != want,
        decreases peers@.len() - i,
    {
        assert(peers.deep_view()[i as int] == peers@[i as int].deep_view());
        let p = &peers[i];
        if p.addr == addr && p.tls == u.tls && p.http_version == u.http_version && same(
            p.host.as_str(),
            u.host.as_str(),
        ) {
            assert(peers.deep_view()[i as int] == want);
            return true;
        }
        i += 1;
    }
    false
}

fn add_peers(u: &Upstream, addrs: &Vec<SocketAddr>, done: &mut Vec<UpstreamPeer>)
    ensures
        final(done).deep_view() == peers_at(
            u.deep_view(),
            addrs.deep_view(),
            0,
            old(done).deep_view(),
        ),
{
    let ghost a = addrs.deep_view();
    let ghost before = done.deep_view();
    let mut i: usize = 0;
    while i < addrs.len()
        invariant
            i <= addrs@.len(),
            a == addrs.deep_view(),
            peers_at(u.deep_view(), a, 0, before) == peers_at(
                u.deep_view(),
                a,
                i as int,
                done.deep_view(),
            ),
        decreases addrs@.len() - i,
    {
        assert(a[i as int] == addrs@[i as int]);
        let addr = addrs[i];
        if !is_peer(done, u, addr) {
            add_to(
                done,
                UpstreamPeer {
                    addr,
                    tls: u.tls,
                    http_version: u.http_version,
                    host: owned(u.host.as_str()),
                },
            );
        }
        i += 1;
    }
}

/// Resolve every upstream to all of its addresses, first-seen order kept and
/// duplicates dropped.
pub fn resolve_upstreams(to: &Vec<Upstream>, answers: &Answers) -> (r: Result<
    Vec<UpstreamPeer>,
    Fault,
>)
    ensures
        tells(r, peers_from(answers.deep_view(), to.deep_view(), 0, Seq::empty())),
{
    let ghost all = to.deep_view();
    let mut peers: Vec<UpstreamPeer> = Vec::new();
    let mut i: usize = 0;
    assert(peers.deep_view() == Seq::<UpstreamPeerView>::empty());
    while i < to.len()
        invariant
            i <= to@.len(),
            all == to.deep_view(),
            peers_from(answers.deep_view(), all, 0, Seq::empty()) == peers_from(
                answers.deep_view(),
                all,
                i as int,
                peers.deep_view(),
            ),
        decreases to@.len() - i,
    {
        assert(all[i as int] == to@[i as int].deep_view());
        let u = &to[i];
        let addrs = match resolve_host(&answers.hosts, u.host.as_str(), u.port) {
            Ok(a) => a,
            Err(f) => {
                return Err(f);
            },
        };
        if addrs.len() == 0 {
            let p = decimal_string(u.port as u64);
            return Err(
                Fault::Message(
                    cat4(
                        "no address resolved for upstream ",
                        u.host.as_str(),
                        ":",
                        p.as_str(),
                    ),
                ),
            );
        }
        add_peers(u, &addrs, &mut peers);
        i += 1;
    }
    Ok(peers)
}

/// The certificates of the file at `path`; `what` names the file in messages and
/// `bad` introduces a complaint about its contents.
pub open spec fn certificates_of(
    answers: AnswersView,
    path: Seq<char>,
    unreadable: Seq<char>,
    invalid: Seq<char>,
) -> Result<Seq<CertificateView>, FaultView> {
    match certificate_answer(answers.certificates, path) {
        None => Err(FaultView::NeedsCertificate { path }),
        Some(CertificateOutcomeView::Unreadable { message }) => wrong(unreadable + message),
        Some(CertificateOutcomeView::Invalid { message }) => wrong(invalid + message),
        Some(CertificateOutcomeView::Read { certificates }) => Ok(certificates),
    }
}

fn read_certificates(answers: &Answers, path: &str, unreadable: &str, invalid: &str) -> (r: Result<
    Vec<Certificate>,
    Fault,
>)
    ensures
        tells(r, certificates_of(answers.deep_view(), path@, unreadable@, invalid@)),
{
    match find_certificate(&answers.certificates, path) {
        None => Err(Fault::NeedsCertificate { path: owned(path) }),
        Some(CertificateOutcome::Unreadable { message }) => Err(
            Fault::Message(cat2(unreadable, message.as_str())),
        ),
        Some(CertificateOutcome::Invalid { message }) => Err(
            Fault::Message(cat2(invalid, message.as_str())),
        ),
        Some(CertificateOutcome::Read { certificates }) => Ok(certificates.dup()),
    }
}

/// The certificate chain and the key of a pair of files. Both files are read
/// before either is looked into; `bad` introduces a complaint about their
/// contents.
pub open spec fn key_pair(
    answers: AnswersView,
    cert: Seq<char>,
    key: Seq<char>,
    cert_unreadable: Seq<char>,
    key_unreadable: Seq<char>,
    bad: Seq<char>,
) -> Result<CertKeyView, FaultView> {
    match (certificate_answer(answers.certificates, cert), key_answer(answers.keys, key)) {
        (None, _) => Err(FaultView::NeedsCertificate { path: cert }),
        (Some(CertificateOutcomeView::Unreadable { message }), _) => wrong(
            cert_unreadable + message,
        ),
        (_, None) => Err(FaultView::NeedsKey { path: key }),
        (_, Some(KeyOutcomeView::Unreadable { message })) => wrong(key_unreadable + message),
        (Some(CertificateOutcomeView::Invalid { message }), _) => wrong(bad + message),
        (Some(CertificateOutcomeView::Read { certificates }), Some(k)) => if certificates.len()
            == 0 {
            wrong(bad + "no certificate found"@)
        } else {
            match k {
                KeyOutcomeView::Invalid { message } => wrong(bad + message),
                KeyOutcomeView::Read { pem } => Ok(
                    CertKeyView { chain: certificates, key_pem: pem },
                ),
                KeyOutcomeView::Unreadable { message } => wrong(key_unreadable + message),
            }
        },
    }
}

fn read_key_pair(
    answers: &Answers,
    cert: &str,
    key: &str,
    cert_unreadable: &str,
    key_unreadable: &str,
    bad: &str,
) -> (r: Result<CertKey, Fault>)
    ensures
        tells(
            r,
            key_pair(
                answers.deep_view(),
                cert@,
                key@,
                cert_unreadable@,
                key_unreadable@,
                bad@,
            ),
        ),
{
    let c = match find_certificate(&answers.certificates, cert) {
        None => {
            return Err(Fault::NeedsCertificate { path: owned(cert) });
        },
        Some(CertificateOutcome::Unreadable { message }) => {
            return Err(Fault::Message(cat2(cert_unreadable, message.as_str())));
        },
        Some(c) => c,
    };
    let k = match find_key(&answers.keys, key) {
        None => {
            return Err(Fault::NeedsKey { path: owned(key) });
        },
        Some(KeyOutcome::Unreadable { message }) => {
            return Err(Fault::Message(cat2(key_unreadable, message.as_str())));
        },
        Some(k) => k,
    };
    match c {
        CertificateOutcome::Read { certificates } => {
            if certificates.len() == 0 {
                return Err(Fault::Message(cat2(bad, "no certificate found")));
            }
            match k {
                KeyOutcome::Read { pem } => Ok(
                    CertKey { chain: certificates.dup(), key_pem: owned(pem.as_str()) },
                ),
                KeyOutcome::Invalid { message } => Err(
                    Fault::Message(cat2(bad, message.as_str())),
                ),
                KeyOutcome::Unreadable { message } => Err(
                    Fault::Message(cat2(key_unreadable, message.as_str())),
                ),
            }
        },
        CertificateOutcome::Invalid { message } => Err(Fault::Message(cat2(bad, message.as_str()))),
        CertificateOutcome::Unreadable { message } => Err(
            Fault::Message(cat2(cert_unreadable, message.as_str())),
        ),
    }
}

/// The root CAs of the files `paths[i..]`, after `done`.
pub open spec fn cas_from(
    answers: AnswersView,
    paths: Seq<Seq<char>>,
    i: int,
    done: Seq<CertificateView>,
) -> Result<Seq<CertificateView>, FaultView>
    decreases paths.len() - i,
{
    if i < 0 || i >= paths.len() {
        Ok(done)
    } else {
        match certificates_of(
            answers,
            paths[i],
            "failed to read CA file "@ + paths[i] + ": "@,
            "invalid CA certificate in "@ + paths[i] + ": "@,
        ) {
            Err(f) => Err(f),
            Ok(certs) => cas_from(answers, paths, i + 1, done + certs),
        }
    }
}

/// The client certificate of a `reverse_proxy` block.
pub open spec fn client_certificate(answers: AnswersView, config: ProxyTlsConfigView) -> Result<
    Option<CertKeyView>,
    FaultView,
> {
    match (config.cert_file, config.key_file) {
        (None, None) => Ok(None),
        (Some(cert), Some(key)) => match key_pair(
            answers,
            cert,
            key,
            "failed to read certificate file "@ + cert + ": "@,
            "failed to read key file "@ + key + ": "@,
            "invalid client certificate: "@,
        ) {
            Err(f) => Err(f),
            Ok(pair) => Ok(Some(pair)),
        },
        _ => wrong("tls_cert requires both a certificate and a key file"@),
    }
}

/// The TLS options of a `reverse_proxy` block. Without an `https://` upstream
/// there are none, and options are refused as meaningless.
pub open spec fn upstream_tls(answers: AnswersView, config: ProxyTlsConfigView, has_tls: bool) -> Result<
    Option<UpstreamTlsView>,
    FaultView,
> {
    if !has_tls {
        if config.servername is Some || config.skip_verify || config.ca_files.len() > 0
            || config.cert_file is Some {
            wrong(
                "tls_servername / tls_skip_verify / tls_ca / tls_cert require an https:// upstream"@,
            )
        } else {
            Ok(None)
        }
    } else {
        match cas_from(answers, config.ca_files, 0, Seq::empty()) {
            Err(f) => Err(f),
            Ok(cas) => match client_certificate(answers, config) {
                Err(f) => Err(f),
                Ok(client_cert) => Ok(
                    Some(
                        UpstreamTlsView {
                            verify_cert: !config.skip_verify,
                            servername: match config.servername {
                                Some(s) => s,
                                None => Seq::empty(),
                            },
                            ca: if config.ca_files.len() == 0 {
                                None
                            } else {
                                Some(cas)
                            },
                            client_cert,
                        },
                    ),
                ),
            },
        }
    }
}

fn read_cas(answers: &Answers, paths: &Vec<String>) -> (r: Result<Vec<Certificate>, Fault>)
    ensures
        tells(r, cas_from(answers.deep_view(), paths.deep_view(), 0, Seq::empty())),
{
    let ghost all = paths.deep_view();
    let mut cas: Vec<Certificate> = Vec::new();
    let mut i: usize = 0;
    assert(cas.deep_view() == Seq::<CertificateView>::empty());
    while i < paths.len()
        invariant
            i <= paths@.len(),
            all == paths.deep_view(),
            cas_from(answers.deep_view(), all, 0, Seq::empty()) == cas_from(
                answers.deep_view(),
                all,
                i as int,
                cas.deep_view(),
            ),
        decreases paths@.len() - i,
    {
        let path = paths[i].as_str();
        assert(all[i as int] == path@);
        let unreadable = cat3("failed to read CA file ", path, ": ");
        let invalid = cat3("invalid CA certificate in ", path, ": ");
        match read_certificates(answers, path, unreadable.as_str(), invalid.as_str()) {
            Err(f) => {
                return Err(f);
            },
            Ok(more) => {
                add_all(&mut cas, &more);
            },
        }
        i += 1;
    }
    Ok(cas)
}

fn read_client_certificate(answers: &Answers, config: &ProxyTlsConfig) -> (r: Result<
    Option<CertKey>,
    Fault,
>)
    ensures
        tells(r, client_certificate(answers.deep_view(), config.deep_view())),
{
    match (&config.cert_file, &config.key_file) {
        (None, None) => Ok(None),
        (Some(cert), Some(key)) => {
            let a = cat3("failed to read certificate file ", cert.as_str(), ": ");
            let b = cat3("failed to read key file ", key.as_str(), ": ");
            match read_key_pair(
                answers,
                cert.as_str(),
                key.as_str(),
                a.as_str(),
                b.as_str(),
                "invalid client certificate: ",
            ) {
                Err(f) => Err(f),
                Ok(pair) => Ok(Some(pair)),
            }
        },
        _ => wrong_text("tls_cert requires both a certificate and a key file"),
    }
}

/// Compile the `tls_*` lines of a `reverse_proxy` block.
pub fn build_upstream_tls(answers: &Answers, config: &ProxyTlsConfig, has_tls: bool) -> (r: Result<
    Option<UpstreamTls>,
    Fault,
>)
    ensures
        tells(r, upstream_tls(answers.deep_view(), config.deep_view(), has_tls)),
{
    if !has_tls {
        if config.servername.is_some() || config.skip_verify || config.ca_files.len() > 0
            || config.cert_file.is_some() {
            return wrong_text(
                "tls_servername / tls_skip_verify / tls_ca / tls_cert require an https:// upstream",
            );
        }
        return Ok(None);
    }
    let cas = match read_cas(answers, &config.ca_files) {
        Ok(c) => c,
        Err(f) => {
            return Err(f);
        },
    };
    let client_cert = match read_client_certificate(answers, config) {
        Ok(c) => c,
        Err(f) => {
            return Err(f);
        },
    };
    let servername = match &config.servername {
        Some(s) => owned(s.as_str()),
        None => String::new(),
    };
    Ok(
        Some(
            UpstreamTls {
                verify_cert: !config.skip_verify,
                servername,
                ca: if config.ca_files.len() == 0 {
                    None
                } else {
                    Some(cas)
                },
                client_cert,
            },
        ),
    )
}

/// What is wrong with merged TLS settings, if anything: the files that they name
/// can be read and hold what they should, and the version range is not empty.
pub open spec fn tls_fault(answers: AnswersView, config: TlsConfigView) -> Option<FaultView> {
    let source_fault = match config.source {
        TlsSourceView::Static { cert_file, key_file } => match key_pair(
            answers,
            cert_file,
            key_file,
            "failed to read certificate "@ + cert_file + ": "@,
            "failed to read key "@ + key_file + ": "@,
            "invalid tls certificate: "@,
        ) {
            Err(f) => Some(f),
            Ok(_) => None,
        },
        _ => None,
    };
    let client_fault = match config.client_auth {
        Some(auth) => match certificates_of(
            answers,
            auth.ca_file,
            "failed to read CA file "@ + auth.ca_file + ": "@,
            "invalid CA file "@ + auth.ca_file + ": "@,
        ) {
            Err(f) => Some(f),
            Ok(_) => None,
        },
        None => None,
    };
    if source_fault is Some {
        source_fault
    } else if client_fault is Some {
        client_fault
    } else if config.min_version == Some(TlsVersion::Tls13) && config.max_version == Some(
        TlsVersion::Tls12,
    ) {
        Some(FaultView::Message("tls min_version must not exceed max_version"@))
    } else {
        None
    }
}

/// Check merged TLS settings.
pub fn validate_tls_config(answers: &Answers, config: &TlsConfig) -> (r: Result<(), Fault>)
    ensures
        match r {
            Ok(_) => tls_fault(answers.deep_view(), config.deep_view()) is None,
            Err(f) => tls_fault(answers.deep_view(), config.deep_view()) == Some(f.deep_view()),
        },
{
    if let TlsSource::Static { cert_file, key_file } = &config.source {
        let a = cat3("failed to read certificate ", cert_file.as_str(), ": ");
        let b = cat3("failed to read key ", key_file.as_str(), ": ");
        match read_key_pair(
            answers,
            cert_file.as_str(),
            key_file.as_str(),
            a.as_str(),
            b.as_str(),
            "invalid tls certificate: ",
        ) {
            Err(f) => {
                return Err(f);
            },
            Ok(_) => {},
        }
    }
    if let Some(auth) = &config.client_auth {
        let path = auth.ca_file.as_str();
        let a = cat3("failed to read CA file ", path, ": ");
        let b = cat3("invalid CA file ", path, ": ");
        match read_certificates(answers, path, a.as_str(), b.as_str()) {
            Err(f) => {
                return Err(f);
            },
            Ok(_) => {},
        }
    }
    let floor = match config.min_version {
        Some(TlsVersion::Tls13) => true,
        _ => false,
    };
    let ceiling = match config.max_version {
        Some(TlsVersion::Tls12) => true,
        _ => false,
    };
    if floor && ceiling {
        return wrong_text("tls min_version must not exceed max_version");
    }
    Ok(())
}

// ---------------------------------------------------------------------------
// Terminals and modifiers
// ---------------------------------------------------------------------------

/// A terminal without modifiers.
pub open spec fn bare_terminal(
    matchers: Seq<MatcherView>,
    kind: TerminalKindView,
    strip_prefix: Option<Seq<char>>,
) -> TerminalView {
    TerminalView { matchers, kind, modifiers: Seq::empty(), strip_prefix }
}

/// Whether one of the upstreams is reached over TLS.
pub open spec fn any_tls(to: Seq<UpstreamView>) -> bool {
    exists|i: int| 0 <= i < to.len() && (#[trigger] to[i]).tls
}

/// What a `reverse_proxy` directive does with a request.
pub open spec fn proxy_kind(
    answers: AnswersView,
    to: Seq<UpstreamView>,
    lb_policy: LbPolicy,
    health_check: Option<HealthCheckSpec>,
    tls: ProxyTlsConfigView,
) -> Result<TerminalKindView, FaultView> {
    match peers_from(answers, to, 0, Seq::empty()) {
        Err(f) => Err(f),
        Ok(upstreams) => match upstream_tls(answers, tls, any_tls(to)) {
            Err(f) => Err(f),
            Ok(tls) => Ok(
                TerminalKindView::ReverseProxy { upstreams, lb_policy, health_check, tls },
            ),
        },
    }
}

/// The terminal that a directive makes inside a block with the matchers `outer`,
/// if it makes one.
pub open spec fn terminal_of(
    answers: AnswersView,
    outer: Seq<MatcherView>,
    strip: Option<Seq<char>>,
    d: DirectiveView,
) -> Option<Result<TerminalView, FaultView>> {
    match d {
        DirectiveView::ReverseProxy { matcher, to, lb_policy, health_check, tls } => Some(
            match proxy_kind(answers, to, lb_policy, health_check, tls) {
                Err(f) => Err(f),
                Ok(kind) => Ok(bare_terminal(outer + matcher, kind, strip)),
            },
        ),
        DirectiveView::FileServer => Some(
            Ok(
                bare_terminal(
                    outer,
                    TerminalKindView::FileServer { root: Seq::empty() },
                    strip,
                ),
            ),
        ),
        DirectiveView::Redir { to, code } => Some(
            match template(to) {
                Err(m) => wrong(m),
                Ok(to) => Ok(bare_terminal(outer, TerminalKindView::Redir { to, code }, strip)),
            },
        ),
        DirectiveView::Respond { matcher, status, body } => Some(
            Ok(
                bare_terminal(
                    outer + matcher,
                    TerminalKindView::Respond { status, body },
                    strip,
                ),
            ),
        ),
        DirectiveView::Error { matcher, status, message } => Some(
            Ok(
                bare_terminal(
                    outer + matcher,
                    TerminalKindView::Error {
                        status: match status {
                            Some(code) => code,
                            None => 500,
                        },
                        message,
                    },
                    strip,
                ),
            ),
        ),
        _ => None,
    }
}

/// The modifier that a directive makes by itself, if it makes one.
pub open spec fn modifier_of(d: DirectiveView) -> Option<Result<ModifierView, FaultView>> {
    match d {
        DirectiveView::HeaderUp { name, value } => Some(
            match header_fault(name) {
                Some(f) => Err(f),
                None => Ok(ModifierView::HeaderUp { name, value }),
            },
        ),
        DirectiveView::HeaderDown { name, value } => Some(
            match header_fault(name) {
                Some(f) => Err(f),
                None => Ok(ModifierView::HeaderDown { name, value }),
            },
        ),
        DirectiveView::Encode { algorithms } => Some(
            match encodings_fault(algorithms) {
                Some(f) => Err(f),
                None => Ok(ModifierView::Encode { algorithms }),
            },
        ),
        DirectiveView::Rewrite { to } => Some(Ok(ModifierView::Rewrite { to })),
        DirectiveView::RateLimit { spec } => Some(Ok(ModifierView::RateLimit { spec })),
        _ => None,
    }
}

/// The modifiers of a scope followed by its guards: all `basic_auth` lines make
/// one table, and the last `forward_auth` delegates.
pub open spec fn with_guards(
    modifiers: Seq<ModifierView>,
    users: Seq<(Seq<char>, Seq<char>)>,
    forward: Option<Seq<char>>,
) -> Seq<ModifierView> {
    let guarded = if users.len() > 0 {
        modifiers.push(ModifierView::BasicAuth { users })
    } else {
        modifiers
    };
    match forward {
        Some(target) => guarded.push(ModifierView::ForwardAuth { target }),
        None => guarded,
    }
}

/// Whether a terminal is a file server without a root.
pub open spec fn rootless(t: TerminalView) -> bool {
    t.kind matches TerminalKindView::FileServer { root } && root.len() == 0
}

/// `t` with the root of its scope, when it is a file server without one.
pub open spec fn rooted(t: TerminalView, root: Option<Seq<char>>) -> TerminalKindView {
    match root {
        Some(root) => if rootless(t) {
            TerminalKindView::FileServer { root }
        } else {
            t.kind
        },
        None => t.kind,
    }
}

/// The complaint about a file server that no `root` is in scope for.
pub open spec fn no_root_message() -> Seq<char> {
    "file_server requires a 'root' directive in its scope"@
}

fn has_tls_upstream(to: &Vec<Upstream>) -> (r: bool)
    ensures
        r == any_tls(to.deep_view()),
{
    let mut i: usize = 0;
    while i < to.len()
        invariant
            i <= to@.len(),
            forall|j: int| 0 <= j < i ==> !(#[trigger] to.deep_view()[j]).tls,
        decreases to@.len() - i,
    {
        assert(to.deep_view()[i as int] == to@[i as int].deep_view());
        if to[i].tls {
            return true;
        }
        i += 1;
    }
    false
}

fn no_modifiers() -> (r: Vec<Modifier>)
    ensures
        r.deep_view() == Seq::<ModifierView>::empty(),
{
    let r: Vec<Modifier> = Vec::new();
    assert(r.deep_view() == Seq::<ModifierView>::empty());
    r
}

fn matchers_of(outer: &Vec<Matcher>, inline: &Vec<Matcher>) -> (r: Vec<Matcher>)
    ensures
        r.deep_view() == outer.deep_view() + inline.deep_view(),
{
    let mut all = outer.dup();
    add_all(&mut all, inline);
    all
}

/// Compile a `reverse_proxy` directive: resolve the upstreams and compile the
/// TLS options of the block.
fn compile_reverse_proxy_terminal(
    answers: &Answers,
    to: &Vec<Upstream>,
    lb_policy: LbPolicy,
    health_check: Option<HealthCheckSpec>,
    tls: &ProxyTlsConfig,
) -> (r: Result<TerminalKind, Fault>)
    ensures
        tells(
            r,
            proxy_kind(
                answers.deep_view(),
                to.deep_view(),
                lb_policy,
                health_check,
                tls.deep_view(),
            ),
        ),
{
    let upstreams = match resolve_upstreams(to, answers) {
        Ok(u) => u,
        Err(f) => {
            return Err(f);
        },
    };
    let tls = match build_upstream_tls(answers, tls, has_tls_upstream(to)) {
        Ok(t) => t,
        Err(f) => {
            return Err(f);
        },
    };
    Ok(TerminalKind::ReverseProxy { upstreams, lb_policy, health_check, tls })
}

/// Whether an optional result is the one that a model describes.
pub open spec fn tells_if<T: DeepView>(
    r: Option<Result<T, Fault>>,
    want: Option<Result<T::V, FaultView>>,
) -> bool {
    match (r, want) {
        (None, None) => true,
        (Some(x), Some(w)) => tells(x, w),
        _ => false,
    }
}

fn compile_terminal(
    answers: &Answers,
    outer: &Vec<Matcher>,
    strip: &Option<String>,
    d: &Directive,
) -> (r: Option<Result<Terminal, Fault>>)
    ensures
        tells_if(
            r,
            terminal_of(
                answers.deep_view(),
                outer.deep_view(),
                strip.deep_view(),
                d.deep_view(),
            ),
        ),
{
    let (matchers, kind): (Vec<Matcher>, TerminalKind) = match d {
        Directive::ReverseProxy { matcher, to, lb_policy, health_check, tls } => {
            let kind = match compile_reverse_proxy_terminal(
                answers,
                to,
                *lb_policy,
                *health_check,
                tls,
            ) {
                Ok(k) => k,
                Err(f) => {
                    return Some(Err(f));
                },
            };
            (matchers_of(outer, matcher), kind)
        },
        Directive::FileServer => (outer.dup(), TerminalKind::FileServer { root: String::new() }),
        Directive::Redir { to, code } => {
            let to = match ValueTemplate::parse(to.as_str()) {
                Ok(t) => t,
                Err(m) => {
                    return Some(Err(Fault::Message(m)));
                },
            };
            (outer.dup(), TerminalKind::Redir { to, code: *code })
        },
        Directive::Respond { matcher, status, body } => (
            matchers_of(outer, matcher),
            TerminalKind::Respond { status: *status, body: body.dup() },
        ),
        Directive::Error { matcher, status, message } => (
            matchers_of(outer, matcher),
            TerminalKind::Error {
                status: match status {
                    Some(code) => *code,
                    None => 500,
                },
                message: message.dup(),
            },
        ),
        _ => {
            return None;
        },
    };
    Some(
        Ok(
            Terminal {
                matchers,
                kind,
                modifiers: no_modifiers(),
                strip_prefix: strip.dup(),
            },
        ),
    )
}

fn compile_modifier(d: &Directive) -> (r: Option<Result<Modifier, Fault>>)
    ensures
        tells_if(r, modifier_of(d.deep_view())),
{
    match d {
        Directive::HeaderUp { name, value } => Some(
            match validate_header_name(name.as_str()) {
                Err(f) => Err(f),
                Ok(_) => Ok(Modifier::HeaderUp { name: name.dup(), value: value.dup() }),
            },
        ),
        Directive::HeaderDown { name, value } => Some(
            match validate_header_name(name.as_str()) {
                Err(f) => Err(f),
                Ok(_) => Ok(Modifier::HeaderDown { name: name.dup(), value: value.dup() }),
            },
        ),
        Directive::Encode { algorithms } => {
            assert(algorithms.deep_view() == algorithms@);
            Some(
                match validate_encodings(algorithms) {
                    Err(f) => Err(f),
                    Ok(_) => Ok(Modifier::Encode { algorithms: algorithms.dup() }),
                },
            )
        },
        Directive::Rewrite { to } => Some(Ok(Modifier::Rewrite { to: to.dup() })),
        Directive::RateLimit { spec } => Some(Ok(Modifier::RateLimit { spec: spec.dup() })),
        _ => None,
    }
}

fn add_guards(
    modifiers: Vec<Modifier>,
    users: Vec<(String, String)>,
    forward: Option<String>,
) -> (r: Vec<Modifier>)
    ensures
        r.deep_view() == with_guards(
            modifiers.deep_view(),
            users.deep_view(),
            forward.deep_view(),
        ),
{
    let mut out = modifiers;
    if users.len() > 0 {
        add_to(&mut out, Modifier::BasicAuth { users });
    }
    if let Some(target) = forward {
        add_to(&mut out, Modifier::ForwardAuth { target });
    }
    out
}

fn is_rootless(t: &Terminal) -> (r: bool)
    ensures
        r == rootless(t.deep_view()),
{
    match &t.kind {
        TerminalKind::FileServer { root } => is_empty(root.as_str()),
        _ => false,
    }
}

fn root_kind(t: &Terminal, root: &Option<String>) -> (r: TerminalKind)
    ensures
        r.deep_view() == rooted(t.deep_view(), root.deep_view()),
{
    if let Some(path) = root {
        if is_rootless(t) {
            return TerminalKind::FileServer { root: path.dup() };
        }
    }
    t.kind.dup()
}

/// Whether one of the terminals is a file server without a root.
pub open spec fn any_rootless(terminals: Seq<TerminalView>) -> bool {
    exists|i: int| 0 <= i < terminals.len() && rootless(#[trigger] terminals[i])
}

fn has_rootless(terminals: &Vec<Terminal>) -> (r: bool)
    ensures
        r == any_rootless(terminals.deep_view()),
{
    let mut i: usize = 0;
    while i < terminals.len()
        invariant
            i <= terminals@.len(),
            forall|j: int| 0 <= j < i ==> !rootless(#[trigger] terminals.deep_view()[j]),
        decreases terminals@.len() - i,
    {
        assert(terminals.deep_view()[i as int] == terminals@[i as int].deep_view());
        if is_rootless(&terminals[i]) {
            return true;
        }
        i += 1;
    }
    false
}

/// The terminals of a scope, each with the modifiers `before` in front of its own
/// and `after` behind them, and with the root of the scope.
pub open spec fn scoped(
    terminals: Seq<TerminalView>,
    before: Seq<ModifierView>,
    after: Seq<ModifierView>,
    root: Option<Seq<char>>,
) -> Result<Seq<TerminalView>, FaultView> {
    if root is None && any_rootless(terminals) {
        wrong(no_root_message())
    } else {
        Ok(
            Seq::new(
                terminals.len(),
                |i: int|
                    TerminalView {
                        kind: rooted(terminals[i], root),
                        modifiers: before + terminals[i].modifiers + after,
                        ..terminals[i]
                    },
            ),
        )
    }
}

fn scope_terminals(
    terminals: &Vec<Terminal>,
    before: &Vec<Modifier>,
    after: &Vec<Modifier>,
    root: &Option<String>,
) -> (r: Result<Vec<Terminal>, Fault>)
    ensures
        tells(
            r,
            scoped(
                terminals.deep_view(),
                before.deep_view(),
                after.deep_view(),
                root.deep_view(),
            ),
        ),
{
    if root.is_none() && has_rootless(terminals) {
        return wrong_text("file_server requires a 'root' directive in its scope");
    }
    let ghost ts = terminals.deep_view();
    let ghost b = before.deep_view();
    let ghost a = after.deep_view();
    let ghost rt = root.deep_view();
    let mut out: Vec<Terminal> = Vec::new();
    let mut i: usize = 0;
    while i < terminals.len()
        invariant
            i <= terminals@.len(),
            out@.len() == i,
            ts == terminals.deep_view(),
            b == before.deep_view(),
            a == after.deep_view(),
            rt == root.deep_view(),
            forall|j: int|
                0 <= j < i ==> (#[trigger] out@[j]).deep_view() == (TerminalView {
                    kind: rooted(ts[j], rt),
                    modifiers: b + ts[j].modifiers + a,
                    ..ts[j]
                }),
        decreases terminals@.len() - i,
    {
        assert(ts[i as int] == terminals@[i as int].deep_view());
        let t = &terminals[i];
        let mut modifiers = before.dup();
        add_all(&mut modifiers, &t.modifiers);
        add_all(&mut modifiers, after);
        out.push(
            Terminal {
                matchers: t.matchers.dup(),
                kind: root_kind(t, root),
                modifiers,
                strip_prefix: t.strip_prefix.dup(),
            },
        );
        i += 1;
    }
    assert(out.deep_view() == scoped(ts, b, a, rt)->Ok_0);
    Ok(out)
}

// ---------------------------------------------------------------------------
// handle blocks
// ---------------------------------------------------------------------------

/// The prefix of the first `path` matcher at or after `i`.
pub open spec fn first_path(matchers: Seq<MatcherView>, i: int) -> Option<Seq<char>>
    decreases matchers.len() - i,
{
    if i < 0 || i >= matchers.len() {
        None
    } else if let MatcherView::Path(p) = matchers[i] {
        Some(p)
    } else {
        first_path(matchers, i + 1)
    }
}

/// Nothing given yet.
pub open spec fn start_of_handle() -> HandleStateView {
    HandleStateView {
        terminals: Seq::empty(),
        modifiers: Seq::empty(),
        root: None,
        users: Seq::empty(),
        forward: None,
    }
}

/// What a `handle` block has given after one more directive.
pub open spec fn handle_step(
    answers: AnswersView,
    outer: Seq<MatcherView>,
    strip: Option<Seq<char>>,
    s: HandleStateView,
    d: DirectiveView,
) -> Result<HandleStateView, FaultView> {
    if let Some(r) = terminal_of(answers, outer, strip, d) {
        match r {
            Err(f) => Err(f),
            Ok(t) => Ok(HandleStateView { terminals: s.terminals.push(t), ..s }),
        }
    } else if let Some(r) = modifier_of(d) {
        match r {
            Err(f) => Err(f),
            Ok(m) => Ok(HandleStateView { modifiers: s.modifiers.push(m), ..s }),
        }
    } else {
        match d {
            DirectiveView::Root { path } => Ok(HandleStateView { root: Some(path), ..s }),
            DirectiveView::BasicAuth { user, hash } => Ok(
                HandleStateView { users: s.users.push((user, hash)), ..s },
            ),
            DirectiveView::ForwardAuth { target } => Ok(
                HandleStateView { forward: Some(target), ..s },
            ),
            DirectiveView::TrustedProxies { .. } => wrong(
                "trusted_proxies is only allowed at the global or site-block level"@,
            ),
            DirectiveView::Tls { .. } => wrong("tls is only allowed at the site-block level"@),
            DirectiveView::AccessLogOff => wrong(
                "access_log is only allowed at the global or site-block level"@,
            ),
            _ => wrong("nested handle blocks are not supported in v0.1"@),
        }
    }
}

/// What the directives `ds[i..]` of a `handle` block give, after `s`.
pub open spec fn handle_from(
    answers: AnswersView,
    outer: Seq<MatcherView>,
    strip: Option<Seq<char>>,
    ds: Seq<DirectiveView>,
    i: int,
    s: HandleStateView,
) -> Result<HandleStateView, FaultView>
    decreases ds.len() - i,
{
    if i < 0 || i >= ds.len() {
        Ok(s)
    } else {
        match handle_step(answers, outer, strip, s, ds[i]) {
            Err(f) => Err(f),
            Ok(t) => handle_from(answers, outer, strip, ds, i + 1, t),
        }
    }
}

/// The terminals of a `handle` block. Each inherits the matchers of the block;
/// `handle_path` also strips the prefix of the first `path` matcher.
pub open spec fn handle_terminals(
    answers: AnswersView,
    outer: Seq<MatcherView>,
    strip: bool,
    ds: Seq<DirectiveView>,
) -> Result<Seq<TerminalView>, FaultView> {
    let prefix = if strip {
        first_path(outer, 0)
    } else {
        None
    };
    match handle_from(answers, outer, prefix, ds, 0, start_of_handle()) {
        Err(f) => Err(f),
        Ok(s) => scoped(
            s.terminals,
            Seq::empty(),
            with_guards(s.modifiers, s.users, s.forward),
            s.root,
        ),
    }
}

fn find_path(matchers: &Vec<Matcher>) -> (r: Option<String>)
    ensures
        r.deep_view() == first_path(matchers.deep_view(), 0),
{
    let ghost all = matchers.deep_view();
    let mut i: usize = 0;
    while i < matchers.len()
        invariant
            i <= matchers@.len(),
            all == matchers.deep_view(),
            first_path(all, 0) == first_path(all, i as int),
        decreases matchers@.len() - i,
    {
        assert(all[i as int] == matchers@[i as int].deep_view());
        if let Matcher::Path(p) = &matchers[i] {
            return Some(p.dup());
        }
        i += 1;
    }
    None
}

fn step_handle(
    answers: &Answers,
    outer: &Vec<Matcher>,
    strip: &Option<String>,
    s: HandleState,
    d: &Directive,
) -> (r: Result<HandleState, Fault>)
    ensures
        tells(
            r,
            handle_step(
                answers.deep_view(),
                outer.deep_view(),
                strip.deep_view(),
                s.deep_view(),
                d.deep_view(),
            ),
        ),
{
    let mut t = s;
    if let Some(r) = compile_terminal(answers, outer, strip, d) {
        match r {
            Err(f) => {
                return Err(f);
            },
            Ok(terminal) => {
                add_to(&mut t.terminals, terminal);
            },
        }
        return Ok(t);
    }
    if let Some(r) = compile_modifier(d) {
        match r {
            Err(f) => {
                return Err(f);
            },
            Ok(m) => {
                add_to(&mut t.modifiers, m);
            },
        }
        return Ok(t);
    }
    match d {
        Directive::Root { path } => {
            t.root = Some(path.dup());
            Ok(t)
        },
        Directive::BasicAuth { user, hash } => {
            add_to(&mut t.users, (user.dup(), hash.dup()));
            Ok(t)
        },
        Directive::ForwardAuth { target } => {
            t.forward = Some(target.dup());
            Ok(t)
        },
        Directive::TrustedProxies { .. } => wrong_text(
            "trusted_proxies is only allowed at the global or site-block level",
        ),
        Directive::Tls { .. } => wrong_text("tls is only allowed at the site-block level"),
        Directive::AccessLogOff => wrong_text(
            "access_log is only allowed at the global or site-block level",
        ),
        _ => wrong_text("nested handle blocks are not supported in v0.1"),
    }
}

fn start_handle() -> (r: HandleState)
    ensures
        r.deep_view() == start_of_handle(),
{
    let r = HandleState {
        terminals: Vec::new(),
        modifiers: no_modifiers(),
        root: None,
        users: Vec::new(),
        forward: None,
    };
    assert(r.terminals.deep_view() == Seq::<TerminalView>::empty());
    assert(r.users.deep_view() == Seq::<(Seq<char>, Seq<char>)>::empty());
    r
}

/// Compile the directives of a `handle` (or, with `strip`, `handle_path`) block.
pub fn compile_handle_block(
    answers: &Answers,
    outer: &Vec<Matcher>,
    strip: bool,
    directives: &Vec<Directive>,
) -> (r: Result<Vec<Terminal>, Fault>)
    ensures
        tells(
            r,
            handle_terminals(
                answers.deep_view(),
                outer.deep_view(),
                strip,
                directives.deep_view(),
            ),
        ),
{
    let prefix = if strip {
        find_path(outer)
    } else {
        None
    };
    let ghost all = directives.deep_view();
    let mut s = start_handle();
    let mut i: usize = 0;
    while i < directives.len()
        invariant
            i <= directives@.len(),
            all == directives.deep_view(),
            prefix.deep_view() == (if strip {
                first_path(outer.deep_view(), 0)
            } else {
                None
            }),
            handle_from(
                answers.deep_view(),
                outer.deep_view(),
                prefix.deep_view(),
                all,
                0,
                start_of_handle(),
            ) == handle_from(
                answers.deep_view(),
                outer.deep_view(),
                prefix.deep_view(),
                all,
                i as int,
                s.deep_view(),
            ),
        decreases directives@.len() - i,
    {
        assert(all[i as int] == directives@[i as int].deep_view());
        match step_handle(answers, outer, &prefix, s, &directives[i]) {
            Ok(t) => {
                s = t;
            },
            Err(f) => {
                return Err(f);
            },
        }
        i += 1;
    }
    let none = no_modifiers();
    let guards = add_guards(s.modifiers, s.users, s.forward);
    scope_terminals(&s.terminals, &none, &guards, &s.root)
}

// ---------------------------------------------------------------------------
// Sites
// ---------------------------------------------------------------------------

/// Nothing given yet.
pub open spec fn start_of_site() -> SiteStateView {
    SiteStateView {
        terminals: Seq::empty(),
        modifiers: Seq::empty(),
        root: None,
        trusted: None,
        tls: None,
        users: Seq::empty(),
        forward: None,
        log_off: false,
    }
}

/// What a site has given after one more directive.
pub open spec fn site_step(answers: AnswersView, s: SiteStateView, d: DirectiveView) -> Result<
    SiteStateView,
    FaultView,
> {
    if let Some(r) = terminal_of(answers, Seq::empty(), None, d) {
        match r {
            Err(f) => Err(f),
            Ok(t) => Ok(SiteStateView { terminals: s.terminals.push(t), ..s }),
        }
    } else if let Some(r) = modifier_of(d) {
        match r {
            Err(f) => Err(f),
            Ok(m) => Ok(SiteStateView { modifiers: s.modifiers.push(m), ..s }),
        }
    } else {
        match d {
            DirectiveView::Handle { matcher, directives } => match handle_terminals(
                answers,
                matcher,
                false,
                directives,
            ) {
                Err(f) => Err(f),
                Ok(ts) => Ok(SiteStateView { terminals: s.terminals + ts, ..s }),
            },
            DirectiveView::HandlePath { matcher, directives } => match handle_terminals(
                answers,
                matcher,
                true,
                directives,
            ) {
                Err(f) => Err(f),
                Ok(ts) => Ok(SiteStateView { terminals: s.terminals + ts, ..s }),
            },
            DirectiveView::Root { path } => Ok(SiteStateView { root: Some(path), ..s }),
            DirectiveView::TrustedProxies { networks } => Ok(
                SiteStateView { trusted: Some(networks), ..s },
            ),
            DirectiveView::Tls { config } => Ok(
                SiteStateView { tls: Some(tls_merged(s.tls, config)), ..s },
            ),
            DirectiveView::BasicAuth { user, hash } => Ok(
                SiteStateView { users: s.users.push((user, hash)), ..s },
            ),
            DirectiveView::ForwardAuth { target } => Ok(
                SiteStateView { forward: Some(target), ..s },
            ),
            _ => Ok(SiteStateView { log_off: true, ..s }),
        }
    }
}

/// What the directives `ds[i..]` of a site give, after `s`.
pub open spec fn site_from(
    answers: AnswersView,
    ds: Seq<DirectiveView>,
    i: int,
    s: SiteStateView,
) -> Result<SiteStateView, FaultView>
    decreases ds.len() - i,
{
    if i < 0 || i >= ds.len() {
        Ok(s)
    } else {
        match site_step(answers, s, ds[i]) {
            Err(f) => Err(f),
            Ok(t) => site_from(answers, ds, i + 1, t),
        }
    }
}

/// The compiled form of a site. Modifiers of the site come before those of a
/// `handle` block in every terminal, so the deeper scope has the last word.
pub open spec fn site_compiled(answers: AnswersView, site: SiteView) -> Result<
    CompiledSiteView,
    FaultView,
> {
    match site_from(answers, site.directives, 0, start_of_site()) {
        Err(f) => Err(f),
        Ok(s) => {
            let modifiers = with_guards(s.modifiers, s.users, s.forward);
            let fault = match s.tls {
                Some(config) => tls_fault(answers, config),
                None => None,
            };
            match fault {
                Some(f) => Err(f),
                None => match scoped(s.terminals, modifiers, Seq::empty(), s.root) {
                    Err(f) => Err(f),
                    Ok(terminals) => Ok(
                        CompiledSiteView {
                            key: site.key,
                            terminals,
                            modifiers,
                            trusted_proxies: s.trusted,
                            tls: s.tls,
                            access_log_off: s.log_off,
                        },
                    ),
                },
            }
        },
    }
}

fn step_site(answers: &Answers, s: SiteState, d: &Directive) -> (r: Result<SiteState, Fault>)
    ensures
        tells(r, site_step(answers.deep_view(), s.deep_view(), d.deep_view())),
{
    let mut t = s;
    let outer: Vec<Matcher> = Vec::new();
    assert(outer.deep_view() == Seq::<MatcherView>::empty());
    if let Some(r) = compile_terminal(answers, &outer, &None, d) {
        match r {
            Err(f) => {
                return Err(f);
            },
            Ok(terminal) => {
                add_to(&mut t.terminals, terminal);
            },
        }
        return Ok(t);
    }
    if let Some(r) = compile_modifier(d) {
        match r {
            Err(f) => {
                return Err(f);
            },
            Ok(m) => {
                add_to(&mut t.modifiers, m);
            },
        }
        return Ok(t);
    }
    match d {
        Directive::Handle { matcher, directives } => {
            proof {
                lemma_directives_view(directives);
            }
            match compile_handle_block(answers, matcher, false, directives) {
                Err(f) => {
                    return Err(f);
                },
                Ok(ts) => {
                    add_all(&mut t.terminals, &ts);
                },
            }
        },
        Directive::HandlePath { matcher, directives } => {
            proof {
                lemma_directives_view(directives);
            }
            match compile_handle_block(answers, matcher, true, directives) {
                Err(f) => {
                    return Err(f);
                },
                Ok(ts) => {
                    add_all(&mut t.terminals, &ts);
                },
            }
        },
        Directive::Root { path } => {
            t.root = Some(path.dup());
        },
        Directive::TrustedProxies { networks } => {
            t.trusted = Some(networks.dup());
        },
        Directive::Tls { config } => {
            merge_tls(&mut t.tls, config);
        },
        Directive::BasicAuth { user, hash } => {
            add_to(&mut t.users, (user.dup(), hash.dup()));
        },
        Directive::ForwardAuth { target } => {
            t.forward = Some(target.dup());
        },
        _ => {
            t.log_off = true;
        },
    }
    Ok(t)
}

fn start_site() -> (r: SiteState)
    ensures
        r.deep_view() == start_of_site(),
{
    let r = SiteState {
        terminals: Vec::new(),
        modifiers: no_modifiers(),
        root: None,
        trusted: None,
        tls: None,
        users: Vec::new(),
        forward: None,
        log_off: false,
    };
    assert(r.terminals.deep_view() == Seq::<TerminalView>::empty());
    assert(r.users.deep_view() == Seq::<(Seq<char>, Seq<char>)>::empty());
    r
}

/// Compile a single site into terminals and modifiers.
pub fn compile_site(answers: &Answers, site: &Site) -> (r: Result<CompiledSite, Fault>)
    ensures
        tells(r, site_compiled(answers.deep_view(), site.deep_view())),
{
    let ghost all = site.directives.deep_view();
    let mut s = start_site();
    let mut i: usize = 0;
    while i < site.directives.len()
        invariant
            i <= site.directives@.len(),
            all == site.directives.deep_view(),
            site_from(answers.deep_view(), all, 0, start_of_site()) == site_from(
                answers.deep_view(),
                all,
                i as int,
                s.deep_view(),
            ),
        decreases site.directives@.len() - i,
    {
        assert(all[i as int] == site.directives@[i as int].deep_view());
        match step_site(answers, s, &site.directives[i]) {
            Ok(t) => {
                s = t;
            },
            Err(f) => {
                return Err(f);
            },
        }
        i += 1;
    }
    let modifiers = add_guards(s.modifiers, s.users, s.forward);
    if let Some(config) = &s.tls {
        match validate_tls_config(answers, config) {
            Err(f) => {
                return Err(f);
            },
            Ok(_) => {},
        }
    }
    let none = no_modifiers();
    let terminals = match scope_terminals(&s.terminals, &modifiers, &none, &s.root) {
        Ok(t) => t,
        Err(f) => {
            return Err(f);
        },
    };
    Ok(
        CompiledSite {
            key: site.key.dup(),
            terminals,
            modifiers,
            trusted_proxies: s.trusted,
            tls: s.tls,
            access_log_off: s.log_off,
        },
    )
}

// ---------------------------------------------------------------------------
// Global settings and listeners
// ---------------------------------------------------------------------------

/// What is wrong with the global settings, if anything.
pub open spec fn global_fault(g: GlobalConfigView) -> Option<FaultView> {
    if g.dns_challenge is Some && g.tls_alpn_challenge {
        Some(
            FaultView::Message("dns_challenge and tls_alpn_challenge are mutually exclusive"@),
        )
    } else {
        match g.acme_email {
            Some(email) => if email.contains('@') {
                None
            } else {
                Some(FaultView::Message("invalid acme_email '"@ + email + "'"@))
            },
            None => None,
        }
    }
}

/// Check the global settings.
pub fn validate_global(global: &GlobalConfig) -> (r: Result<(), Fault>)
    ensures
        match r {
            Ok(_) => global_fault(global.deep_view()) is None,
            Err(f) => global_fault(global.deep_view()) == Some(f.deep_view()),
        },
{
    if global.dns_challenge.is_some() && global.tls_alpn_challenge {
        return wrong_text("dns_challenge and tls_alpn_challenge are mutually exclusive");
    }
    if let Some(email) = &global.acme_email {
        if !contains_char(email.as_str(), '@') {
            return Err(Fault::Message(cat3("invalid acme_email '", email.as_str(), "'")));
        }
    }
    Ok(())
}

/// Whether two binds of one transport overlap: they share the port, and the
/// address or a wildcard, which takes everything on its port.
pub open spec fn overlap(a: ListenAddress, b: ListenAddress) -> bool {
    a.socket().port == b.socket().port && (a.socket().ip.spec_unspecified()
        || b.socket().ip.spec_unspecified() || a.socket().ip == b.socket().ip)
}

/// Whether two binds of one transport overlap.
pub fn binds_overlap(a: &ListenAddress, b: &ListenAddress) -> (r: bool)
    ensures
        r == overlap(*a, *b),
{
    match (a, b) {
        (ListenAddress::Socket(x), ListenAddress::Socket(y)) => {
            x.port == y.port && (x.ip.is_unspecified() || y.ip.is_unspecified() || x.ip == y.ip)
        },
    }
}

/// Overlap has no order.
pub proof fn overlap_is_symmetric(a: ListenAddress, b: ListenAddress)
    ensures
        overlap(a, b) == overlap(b, a),
{
}

/// A wildcard bind overlaps every bind on its port.
pub proof fn wildcard_overlaps_its_port(a: ListenAddress, b: ListenAddress)
    requires
        a.socket().ip.spec_unspecified(),
        a.socket().port == b.socket().port,
    ensures
        overlap(a, b),
{
}

/// The transport of a listener.
pub open spec fn transport(l: Layer4ListenerView) -> SocketTransport {
    match l {
        Layer4ListenerView::Tcp(_) => SocketTransport::Tcp,
        Layer4ListenerView::Udp(_) => SocketTransport::Udp,
    }
}

/// The address of a listener.
pub open spec fn address(l: Layer4ListenerView) -> ListenAddress {
    match l {
        Layer4ListenerView::Tcp(t) => t.listen,
        Layer4ListenerView::Udp(u) => u.listen,
    }
}

/// Whether one of the sites is served on `port`.
pub open spec fn port_taken(sites: Seq<SiteView>, port: u16) -> bool {
    exists|i: int| 0 <= i < sites.len() && (#[trigger] sites[i]).key.port() == port
}

/// Whether one of the listeners before `i` has the transport of listener `i` and
/// overlaps it.
pub open spec fn bind_taken(ls: Seq<Layer4ListenerView>, i: int) -> bool {
    exists|j: int|
        0 <= j < i && transport(#[trigger] ls[j]) == transport(ls[i]) && overlap(
            address(ls[j]),
            address(ls[i]),
        )
}

/// The first bind among the listeners from `i` on that conflicts with a site or
/// with an earlier listener. TCP listeners share their ports with the sites.
pub open spec fn bind_fault_from(
    sites: Seq<SiteView>,
    ls: Seq<Layer4ListenerView>,
    i: int,
) -> Option<FaultView>
    decreases ls.len() - i,
{
    if i < 0 || i >= ls.len() {
        None
    } else if ls[i] is Tcp && port_taken(sites, address(ls[i]).socket().port) {
        Some(
            FaultView::Message(
                "layer-4 TCP listener "@ + address(ls[i]).socket().text()
                    + " conflicts with HTTP site on port "@ + decimal(
                    address(ls[i]).socket().port as nat,
                ),
            ),
        )
    } else if bind_taken(ls, i) {
        Some(
            FaultView::Message(
                "duplicate or overlapping "@ + (if ls[i] is Tcp {
                    "Tcp"@
                } else {
                    "Udp"@
                }) + " listener on "@ + address(ls[i]).socket().text(),
            ),
        )
    } else {
        bind_fault_from(sites, ls, i + 1)
    }
}

/// What is wrong with the TLS termination of the listeners from `i` on, if
/// anything.
pub open spec fn termination_fault_from(
    answers: AnswersView,
    ls: Seq<Layer4ListenerView>,
    i: int,
) -> Option<FaultView>
    decreases ls.len() - i,
{
    if i < 0 || i >= ls.len() {
        None
    } else {
        let fault = match ls[i] {
            Layer4ListenerView::Tcp(tcp) => match tcp.tls {
                Some(config) => if config.source == TlsSourceView::Acme {
                    Some(
                        FaultView::Message(
                            "TCP TLS termination requires internal or a static certificate pair"@,
                        ),
                    )
                } else if tls_fault(answers, config) is Some {
                    tls_fault(answers, config)
                } else if tcp.sni_routes.len() > 0 {
                    Some(
                        FaultView::Message(
                            "TCP TLS termination cannot be combined with SNI routing"@,
                        ),
                    )
                } else {
                    None
                },
                None => None,
            },
            Layer4ListenerView::Udp(_) => None,
        };
        if fault is Some {
            fault
        } else {
            termination_fault_from(answers, ls, i + 1)
        }
    }
}

/// What is wrong with the listeners of a file, if anything.
pub open spec fn layer4_fault(answers: AnswersView, rf: RaddexfileView) -> Option<FaultView> {
    match bind_fault_from(rf.sites, rf.layer4, 0) {
        Some(f) => Some(f),
        None => termination_fault_from(answers, rf.layer4, 0),
    }
}

fn is_port_taken(sites: &Vec<Site>, port: u16) -> (r: bool)
    ensures
        r == port_taken(sites.deep_view(), port),
{
    let mut i: usize = 0;
    while i < sites.len()
        invariant
            i <= sites@.len(),
            forall|j: int| 0 <= j < i ==> (#[trigger] sites.deep_view()[j]).key.port() != port,
        decreases sites@.len() - i,
    {
        assert(sites.deep_view()[i as int] == sites@[i as int].deep_view());
        if sites[i].key.port() == port {
            return true;
        }
        i += 1;
    }
    false
}

fn listener_parts(l: &Layer4Listener) -> (r: (bool, ListenAddress))
    ensures
        r.0 == (l.deep_view() is Tcp),
        r.1 == address(l.deep_view()),
{
    match l {
        Layer4Listener::Tcp(t) => (true, t.listen),
        Layer4Listener::Udp(u) => (false, u.listen),
    }
}

fn is_bind_taken(ls: &Vec<Layer4Listener>, i: usize) -> (r: bool)
    requires
        i < ls@.len(),
    ensures
        r == bind_taken(ls.deep_view(), i as int),
{
    assert(ls.deep_view()[i as int] == ls@[i as int].deep_view());
    let (tcp, addr) = listener_parts(&ls[i]);
    let mut j: usize = 0;
    while j < i
        invariant
            j <= i < ls@.len(),
            tcp == (ls.deep_view()[i as int] is Tcp),
            addr == address(ls.deep_view()[i as int]),
            forall|k: int|
                0 <= k < j ==> !(transport(#[trigger] ls.deep_view()[k]) == transport(
                    ls.deep_view()[i as int],
                ) && overlap(address(ls.deep_view()[k]), address(ls.deep_view()[i as int]))),
        decreases i - j,
    {
        assert(ls.deep_view()[j as int] == ls@[j as int].deep_view());
        let (other_tcp, other) = listener_parts(&ls[j]);
        if other_tcp == tcp && binds_overlap(&other, &addr) {
            return true;
        }
        j += 1;
    }
    false
}

fn check_termination(answers: &Answers, ls: &Vec<Layer4Listener>) -> (r: Result<(), Fault>)
    ensures
        match r {
            Ok(_) => termination_fault_from(answers.deep_view(), ls.deep_view(), 0) is None,
            Err(f) => termination_fault_from(answers.deep_view(), ls.deep_view(), 0) == Some(
                f.deep_view(),
            ),
        },
{
    let ghost all = ls.deep_view();
    let mut i: usize = 0;
    while i < ls.len()
        invariant
            i <= ls@.len(),
            all == ls.deep_view(),
            termination_fault_from(answers.deep_view(), all, 0) == termination_fault_from(
                answers.deep_view(),
                all,
                i as int,
            ),
        decreases ls@.len() - i,
    {
        assert(all[i as int] == ls@[i as int].deep_view());
        if let Layer4Listener::Tcp(tcp) = &ls[i] {
            if let Some(config) = &tcp.tls {
                if let TlsSource::Acme = &config.source {
                    return wrong_text(
                        "TCP TLS termination requires internal or a static certificate pair",
                    );
                }
                match validate_tls_config(answers, config) {
                    Err(f) => {
                        return Err(f);
                    },
                    Ok(_) => {},
                }
                if tcp.sni_routes.len() > 0 {
                    return wrong_text("TCP TLS termination cannot be combined with SNI routing");
                }
            }
        }
        i += 1;
    }
    Ok(())
}

/// Check the layer-4 listeners of a file. Two listeners of one transport may not
/// overlap, a TCP listener may not take the port of a site, and termination
/// needs a certificate of its own.
pub fn validate_layer4(answers: &Answers, rf: &Raddexfile) -> (r: Result<(), Fault>)
    ensures
        match r {
            Ok(_) => layer4_fault(answers.deep_view(), rf.deep_view()) is None,
            Err(f) => layer4_fault(answers.deep_view(), rf.deep_view()) == Some(f.deep_view()),
        },
{
    let ghost all = rf.layer4.deep_view();
    let ghost sites = rf.sites.deep_view();
    let mut i: usize = 0;
    while i < rf.layer4.len()
        invariant
            i <= rf.layer4@.len(),
            all == rf.layer4.deep_view(),
            sites == rf.sites.deep_view(),
            bind_fault_from(sites, all, 0) == bind_fault_from(sites, all, i as int),
        decreases rf.layer4@.len() - i,
    {
        assert(all[i as int] == rf.layer4@[i as int].deep_view());
        let (tcp, addr) = listener_parts(&rf.layer4[i]);
        if tcp && is_port_taken(&rf.sites, addr.port()) {
            let a = addr.display();
            let p = decimal_string(addr.port() as u64);
            return Err(
                Fault::Message(
                    cat4(
                        "layer-4 TCP listener ",
                        a.as_str(),
                        " conflicts with HTTP site on port ",
                        p.as_str(),
                    ),
                ),
            );
        }
        if is_bind_taken(&rf.layer4, i) {
            let a = addr.display();
            return Err(
                Fault::Message(
                    cat4(
                        "duplicate or overlapping ",
                        if tcp {
                            "Tcp"
                        } else {
                            "Udp"
                        },
                        " listener on ",
                        a.as_str(),
                    ),
                ),
            );
        }
        i += 1;
    }
    check_termination(answers, &rf.layer4)
}

// ---------------------------------------------------------------------------
// Whole configurations
// ---------------------------------------------------------------------------

/// Whether the certificate of a site is issued automatically.
pub open spec fn automatic(tls: Option<TlsConfigView>) -> bool {
    match tls {
        Some(config) => config.source == TlsSourceView::Acme,
        None => true,
    }
}

/// What is wrong with the certificate source of a site, if anything: no
/// certificate can be issued for an IP literal, and one for a wildcard needs the
/// DNS-01 challenge.
pub open spec fn issuance_fault(g: GlobalConfigView, site: CompiledSiteView) -> Option<FaultView> {
    match site.key {
        SiteKeyView::CatchAll { .. } => None,
        SiteKeyView::Named { host, port } => {
            let needs = (port == 443 || site.tls is Some) && automatic(site.tls);
            if needs && host.len() > 0 && host[0] == '[' {
                Some(
                    FaultView::Message(
                        "IP-literal site '"@ + site.key.text()
                            + "' requires `tls internal` or a static certificate"@,
                    ),
                )
            } else if needs && "*."@.is_prefix_of(host) && g.dns_challenge is None {
                Some(
                    FaultView::Message(
                        "wildcard site '"@ + site.key.text()
                            + "' requires the existing DNS-01 challenge configuration"@,
                    ),
                )
            } else {
                None
            }
        },
    }
}

/// Whether a site before `i` has the key of site `i`.
pub open spec fn key_taken(sites: Seq<SiteView>, i: int) -> bool {
    exists|j: int| 0 <= j < i && (#[trigger] sites[j]).key == sites[i].key
}

/// The compiled sites from `i` on, after `done`.
pub open spec fn sites_from(
    answers: AnswersView,
    rf: RaddexfileView,
    i: int,
    done: Seq<CompiledSiteView>,
) -> Result<Seq<CompiledSiteView>, FaultView>
    decreases rf.sites.len() - i,
{
    if i < 0 || i >= rf.sites.len() {
        Ok(done)
    } else if key_taken(rf.sites, i) {
        wrong("duplicate site '"@ + rf.sites[i].key.text() + "'"@)
    } else {
        match site_compiled(answers, rf.sites[i]) {
            Err(f) => Err(f),
            Ok(site) => match issuance_fault(rf.global, site) {
                Some(f) => Err(f),
                None => sites_from(answers, rf, i + 1, done.push(site)),
            },
        }
    }
}

/// Whether one of the sites would get a certificate away from the standard port.
pub open spec fn issued_elsewhere(sites: Seq<CompiledSiteView>) -> bool {
    exists|i: int|
        0 <= i < sites.len() && ((#[trigger] sites[i]).key matches SiteKeyView::Named { port, .. }
            && port != 443 && automatic(sites[i].tls))
}

/// The compiled form of a file, or what is wrong with it.
pub open spec fn compiled(answers: AnswersView, rf: RaddexfileView) -> Result<
    CompiledConfigView,
    FaultView,
> {
    match global_fault(rf.global) {
        Some(f) => Err(f),
        None => if rf.sites.len() == 0 && rf.layer4.len() == 0 {
            wrong("no sites or layer-4 listeners defined"@)
        } else {
            match sites_from(answers, rf, 0, Seq::empty()) {
                Err(f) => Err(f),
                Ok(sites) => if rf.global.tls_alpn_challenge && issued_elsewhere(sites) {
                    wrong("TLS-ALPN-01 requires ACME sites to use the standard TLS port 443"@)
                } else {
                    match layer4_fault(answers, rf) {
                        Some(f) => Err(f),
                        None => Ok(
                            CompiledConfigView { global: rf.global, sites, layer4: rf.layer4 },
                        ),
                    }
                },
            }
        },
    }
}

fn is_automatic(tls: &Option<TlsConfig>) -> (r: bool)
    ensures
        r == automatic(tls.deep_view()),
{
    match tls {
        Some(config) => match &config.source {
            TlsSource::Acme => true,
            _ => false,
        },
        None => true,
    }
}

fn check_issuance(global: &GlobalConfig, site: &CompiledSite) -> (r: Result<(), Fault>)
    ensures
        match r {
            Ok(_) => issuance_fault(global.deep_view(), site.deep_view()) is None,
            Err(f) => issuance_fault(global.deep_view(), site.deep_view()) == Some(f.deep_view()),
        },
{
    if let SiteKey::Named { host, port } = &site.key {
        let needs = (*port == 443 || site.tls.is_some()) && is_automatic(&site.tls);
        if needs && starts_with_char(host.as_str(), '[') {
            let key = site.key.describe();
            return Err(
                Fault::Message(
                    cat3(
                        "IP-literal site '",
                        key.as_str(),
                        "' requires `tls internal` or a static certificate",
                    ),
                ),
            );
        }
        if needs && starts_with(host.as_str(), "*.") && global.dns_challenge.is_none() {
            let key = site.key.describe();
            return Err(
                Fault::Message(
                    cat3(
                        "wildcard site '",
                        key.as_str(),
                        "' requires the existing DNS-01 challenge configuration",
                    ),
                ),
            );
        }
    }
    Ok(())
}

fn is_key_taken(sites: &Vec<Site>, i: usize) -> (r: bool)
    requires
        i < sites@.len(),
    ensures
        r == key_taken(sites.deep_view(), i as int),
{
    assert(sites.deep_view()[i as int] == sites@[i as int].deep_view());
    let mut j: usize = 0;
    while j < i
        invariant
            j <= i < sites@.len(),
            forall|k: int|
                0 <= k < j ==> (#[trigger] sites.deep_view()[k]).key
                    != sites.deep_view()[i as int].key,
        decreases i - j,
    {
        assert(sites.deep_view()[j as int] == sites@[j as int].deep_view());
        assert(sites.deep_view()[i as int] == sites@[i as int].deep_view());
        if sites[j].key.equals(&sites[i].key) {
            return true;
        }
        j += 1;
    }
    false
}

fn is_issued_elsewhere(sites: &Vec<CompiledSite>) -> (r: bool)
    ensures
        r == issued_elsewhere(sites.deep_view()),
{
    let mut i: usize = 0;
    while i < sites.len()
        invariant
            i <= sites@.len(),
            forall|j: int|
                0 <= j < i ==> !((#[trigger] sites.deep_view()[j]).key matches SiteKeyView::Named {
                    port,
                    ..
                } && port != 443 && automatic(sites.deep_view()[j].tls)),
        decreases sites@.len() - i,
    {
        assert(sites.deep_view()[i as int] == sites@[i as int].deep_view());
        if let SiteKey::Named { port, .. } = &sites[i].key {
            if *port != 443 && is_automatic(&sites[i].tls) {
                return true;
            }
        }
        i += 1;
    }
    false
}

fn compile_sites(answers: &Answers, rf: &Raddexfile) -> (r: Result<Vec<CompiledSite>, Fault>)
    ensures
        tells(r, sites_from(answers.deep_view(), rf.deep_view(), 0, Seq::empty())),
{
    let ghost v = rf.deep_view();
    let mut sites: Vec<CompiledSite> = Vec::new();
    let mut i: usize = 0;
    assert(sites.deep_view() == Seq::<CompiledSiteView>::empty());
    while i < rf.sites.len()
        invariant
            i <= rf.sites@.len(),
            v == rf.deep_view(),
            sites_from(answers.deep_view(), v, 0, Seq::empty()) == sites_from(
                answers.deep_view(),
                v,
                i as int,
                sites.deep_view(),
            ),
        decreases rf.sites@.len() - i,
    {
        assert(v.sites[i as int] == rf.sites@[i as int].deep_view());
        if is_key_taken(&rf.sites, i) {
            let key = rf.sites[i].key.describe();
            return Err(Fault::Message(cat3("duplicate site '", key.as_str(), "'")));
        }
        let site = match compile_site(answers, &rf.sites[i]) {
            Ok(s) => s,
            Err(f) => {
                return Err(f);
            },
        };
        match check_issuance(&rf.global, &site) {
            Err(f) => {
                return Err(f);
            },
            Ok(_) => {},
        }
        add_to(&mut sites, site);
        i += 1;
    }
    Ok(sites)
}

/// Compile a parsed file with `answers` for the files and host names that it
/// names.
pub fn compile(answers: &Answers, rf: &Raddexfile) -> (r: Result<CompiledConfig, Fault>)
    ensures
        tells(r, compiled(answers.deep_view(), rf.deep_view())),
{
    match validate_global(&rf.global) {
        Err(f) => {
            return Err(f);
        },
        Ok(_) => {},
    }
    if rf.sites.len() == 0 && rf.layer4.len() == 0 {
        return wrong_text("no sites or layer-4 listeners defined");
    }
    let sites = match compile_sites(answers, rf) {
        Ok(s) => s,
        Err(f) => {
            return Err(f);
        },
    };
    if rf.global.tls_alpn_challenge && is_issued_elsewhere(&sites) {
        return wrong_text("TLS-ALPN-01 requires ACME sites to use the standard TLS port 443");
    }
    match validate_layer4(answers, rf) {
        Err(f) => {
            return Err(f);
        },
        Ok(_) => {},
    }
    Ok(CompiledConfig { global: rf.global.dup(), sites, layer4: rf.layer4.dup() })
}

/// Why a file could not be compiled.
#[derive(PartialEq, Eq)]
pub enum CompileFailure {
    /// The configuration is wrong.
    Config(ConfigError),
    /// A certificate file has to be read first.
    NeedsCertificate { path: String },
    /// A private-key file has to be read first.
    NeedsKey { path: String },
    /// A host has to be looked up first.
    NeedsHost { host: String, port: u16 },
}

/// The model of [`CompileFailure`].
pub ghost enum CompileFailureView {
    Config(ConfigErrorView),
    NeedsCertificate { path: Seq<char> },
    NeedsKey { path: Seq<char> },
    NeedsHost { host: Seq<char>, port: u16 },
}

impl DeepView for CompileFailure {
    type V = CompileFailureView;

    open spec fn deep_view(&self) -> CompileFailureView {
        match self {
            CompileFailure::Config(e) => CompileFailureView::Config(e.deep_view()),
            CompileFailure::NeedsCertificate { path } => CompileFailureView::NeedsCertificate {
                path: path@,
            },
            CompileFailure::NeedsKey { path } => CompileFailureView::NeedsKey { path: path@ },
            CompileFailure::NeedsHost { host, port } => CompileFailureView::NeedsHost {
                host: host@,
                port: *port,
            },
        }
    }
}

/// A fault as it is reported for `file`.
pub open spec fn failure(file: Seq<char>, f: FaultView) -> CompileFailureView {
    match f {
        FaultView::Message(message) => CompileFailureView::Config(
            ConfigErrorView::Validate { file, message },
        ),
        FaultView::NeedsCertificate { path } => CompileFailureView::NeedsCertificate { path },
        FaultView::NeedsKey { path } => CompileFailureView::NeedsKey { path },
        FaultView::NeedsHost { host, port } => CompileFailureView::NeedsHost { host, port },
    }
}

/// A fault as it is reported for `file` when nothing outside it can be asked.
pub open spec fn final_error(file: Seq<char>, f: FaultView) -> ConfigErrorView {
    ConfigErrorView::Validate {
        file,
        message: match f {
            FaultView::Message(message) => message,
            FaultView::NeedsCertificate { path } => "failed to read certificate file "@ + path,
            FaultView::NeedsKey { path } => "failed to read key file "@ + path,
            FaultView::NeedsHost { host, port } => "failed to resolve upstream "@ + host + ":"@
                + decimal(port as nat),
        },
    }
}

/// Validate a parsed file, resolve its upstreams with `answers`, and compile it.
/// When an answer is missing the caller is told which one to get.
pub fn validate_and_compile_with(file: &str, rf: &Raddexfile, answers: &Answers) -> (r: Result<
    CompiledConfig,
    CompileFailure,
>)
    ensures
        match (r, compiled(answers.deep_view(), rf.deep_view())) {
            (Ok(c), Ok(w)) => c.deep_view() == w,
            (Err(e), Err(f)) => e.deep_view() == failure(file@, f),
            _ => false,
        },
{
    match compile(answers, rf) {
        Ok(c) => Ok(c),
        Err(Fault::Message(message)) => Err(
            CompileFailure::Config(ConfigError::Validate { file: owned(file), message }),
        ),
        Err(Fault::NeedsCertificate { path }) => Err(CompileFailure::NeedsCertificate { path }),
        Err(Fault::NeedsKey { path }) => Err(CompileFailure::NeedsKey { path }),
        Err(Fault::NeedsHost { host, port }) => Err(CompileFailure::NeedsHost { host, port }),
    }
}

/// Validate and compile a parsed file that stands alone: its upstreams are IP
/// literals and it names no certificate file.
pub fn validate_and_compile(file: &str, rf: &Raddexfile) -> (r: Result<CompiledConfig, ConfigError>)
    ensures
        match (r, compiled(no_answers(), rf.deep_view())) {
            (Ok(c), Ok(w)) => c.deep_view() == w,
            (Err(e), Err(f)) => e.deep_view() == final_error(file@, f),
            _ => false,
        },
{
    let answers = Answers::none();
    let message = match compile(&answers, rf) {
        Ok(c) => {
            return Ok(c);
        },
        Err(Fault::Message(message)) => message,
        Err(Fault::NeedsCertificate { path }) => cat2(
            "failed to read certificate file ",
            path.as_str(),
        ),
        Err(Fault::NeedsKey { path }) => cat2("failed to read key file ", path.as_str()),
        Err(Fault::NeedsHost { host, port }) => {
            let p = decimal_string(port as u64);
            cat4("failed to resolve upstream ", host.as_str(), ":", p.as_str())
        },
    };
    Err(ConfigError::Validate { file: owned(file), message })
}

} // verus!
