//! What the surroundings of a configuration answered.
//!
//! Compiling a configuration needs the contents of certificate files and the
//! addresses of host names. They come in as an [`Answers`] table; when it lacks
//! an answer, the compiler says which one, and the caller gets it and tries
//! again.
use crate::config::ast::add_to;
use crate::config::compiled::{Certificate, CertificateView};
use crate::net::{ip_literal, IpAddr, SocketAddr};
use crate::num::{decimal, decimal_string, number, parse_u16};
use crate::text::{
    after_char, cat2, cat3, cat5, cut, is_empty, owned, rcut, rsplit_once, same, split_once,
    strip_char,
};
use crate::time::Duration;
use vstd::prelude::*;
use vstd::utf8::encode_utf8;

verus! {

/// What reading a certificate file gave.
#[derive(PartialEq, Eq)]
pub enum CertificateOutcome {
    /// The certificates of the file, in order.
    Read { certificates: Vec<Certificate> },
    /// The text is no list of certificates.
    Invalid { message: String },
    /// The file could not be read.
    Unreadable { message: String },
}

/// The model of [`CertificateOutcome`].
#[verifier::ext_equal]
pub ghost enum CertificateOutcomeView {
    Read { certificates: Seq<CertificateView> },
    Invalid { message: Seq<char> },
    Unreadable { message: Seq<char> },
}

impl DeepView for CertificateOutcome {
    type V = CertificateOutcomeView;

    open spec fn deep_view(&self) -> CertificateOutcomeView {
        match self {
            CertificateOutcome::Read { certificates } => CertificateOutcomeView::Read {
                certificates: certificates.deep_view(),
            },
            CertificateOutcome::Invalid { message } => CertificateOutcomeView::Invalid {
                message: message.deep_view(),
            },
            CertificateOutcome::Unreadable { message } => CertificateOutcomeView::Unreadable {
                message: message.deep_view(),
            },
        }
    }
}

/// What reading a private-key file gave.
#[derive(PartialEq, Eq)]
pub enum KeyOutcome {
    /// The text of the file, which holds a private key.
    Read { pem: String },
    /// The text holds no private key.
    Invalid { message: String },
    /// The file could not be read.
    Unreadable { message: String },
}

/// The model of [`KeyOutcome`].
#[verifier::ext_equal]
pub ghost enum KeyOutcomeView {
    Read { pem: Seq<char> },
    Invalid { message: Seq<char> },
    Unreadable { message: Seq<char> },
}

impl DeepView for KeyOutcome {
    type V = KeyOutcomeView;

    open spec fn deep_view(&self) -> KeyOutcomeView {
        match self {
            KeyOutcome::Read { pem } => KeyOutcomeView::Read {
                pem: pem.deep_view(),
            },
            KeyOutcome::Invalid { message } => KeyOutcomeView::Invalid {
                message: message.deep_view(),
            },
            KeyOutcome::Unreadable { message } => KeyOutcomeView::Unreadable {
                message: message.deep_view(),
            },
        }
    }
}

/// What looking up a host name gave.
#[derive(PartialEq, Eq)]
pub enum HostOutcome {
    /// The addresses of the host, in order.
    Resolved { addrs: Vec<SocketAddr> },
    /// The lookup failed.
    Failed { message: String },
}

/// The model of [`HostOutcome`].
#[verifier::ext_equal]
pub ghost enum HostOutcomeView {
    Resolved { addrs: Seq<SocketAddr> },
    Failed { message: Seq<char> },
}

impl DeepView for HostOutcome {
    type V = HostOutcomeView;

    open spec fn deep_view(&self) -> HostOutcomeView {
        match self {
            HostOutcome::Resolved { addrs } => HostOutcomeView::Resolved {
                addrs: addrs.deep_view(),
            },
            HostOutcome::Failed { message } => HostOutcomeView::Failed {
                message: message.deep_view(),
            },
        }
    }
}

/// A certificate file that a configuration names.
#[derive(PartialEq, Eq)]
pub struct CertificateFile {
    pub path: String,
    pub outcome: CertificateOutcome,
}

/// The model of [`CertificateFile`].
#[verifier::ext_equal]
pub ghost struct CertificateFileView {
    pub path: Seq<char>,
    pub outcome: CertificateOutcomeView,
}

impl DeepView for CertificateFile {
    type V = CertificateFileView;

    open spec fn deep_view(&self) -> CertificateFileView {
        CertificateFileView {
            path: self.path.deep_view(),
            outcome: self.outcome.deep_view(),
        }
    }
}

/// A private-key file that a configuration names.
#[derive(PartialEq, Eq)]
pub struct KeyFile {
    pub path: String,
    pub outcome: KeyOutcome,
}

/// The model of [`KeyFile`].
#[verifier::ext_equal]
pub ghost struct KeyFileView {
    pub path: Seq<char>,
    pub outcome: KeyOutcomeView,
}

impl DeepView for KeyFile {
    type V = KeyFileView;

    open spec fn deep_view(&self) -> KeyFileView {
        KeyFileView {
            path: self.path.deep_view(),
            outcome: self.outcome.deep_view(),
        }
    }
}

/// A host name that a configuration names, with the port.
#[derive(PartialEq, Eq)]
pub struct HostAnswer {
    pub host: String,
    pub port: u16,
    pub outcome: HostOutcome,
}

/// The model of [`HostAnswer`].
#[verifier::ext_equal]
pub ghost struct HostAnswerView {
    pub host: Seq<char>,
    pub port: u16,
    pub outcome: HostOutcomeView,
}

impl DeepView for HostAnswer {
    type V = HostAnswerView;

    open spec fn deep_view(&self) -> HostAnswerView {
        HostAnswerView {
            host: self.host.deep_view(),
            port: self.port.deep_view(),
            outcome: self.outcome.deep_view(),
        }
    }
}

/// What the surroundings answered: files that were read and host names that were
/// looked up.
#[derive(PartialEq, Eq)]
pub struct Answers {
    pub certificates: Vec<CertificateFile>,
    pub keys: Vec<KeyFile>,
    pub hosts: Vec<HostAnswer>,
}

/// The model of [`Answers`].
#[verifier::ext_equal]
pub ghost struct AnswersView {
    pub certificates: Seq<CertificateFileView>,
    pub keys: Seq<KeyFileView>,
    pub hosts: Seq<HostAnswerView>,
}

impl DeepView for Answers {
    type V = AnswersView;

    open spec fn deep_view(&self) -> AnswersView {
        AnswersView {
            certificates: self.certificates.deep_view(),
            keys: self.keys.deep_view(),
            hosts: self.hosts.deep_view(),
        }
    }
}

/// Why a configuration could not be compiled.
#[derive(PartialEq, Eq)]
pub enum Fault {
    /// The configuration is wrong.
    Message(String),
    /// The answers say nothing of this certificate file.
    NeedsCertificate { path: String },
    /// The answers say nothing of this private-key file.
    NeedsKey { path: String },
    /// The answers say nothing of this host.
    NeedsHost { host: String, port: u16 },
}

/// The model of [`Fault`].
#[verifier::ext_equal]
pub ghost enum FaultView {
    Message(Seq<char>),
    NeedsCertificate { path: Seq<char> },
    NeedsKey { path: Seq<char> },
    NeedsHost { host: Seq<char>, port: u16 },
}

impl DeepView for Fault {
    type V = FaultView;

    open spec fn deep_view(&self) -> FaultView {
        match self {
            Fault::Message(a) => FaultView::Message(a.deep_view()),
            Fault::NeedsCertificate { path } => FaultView::NeedsCertificate {
                path: path.deep_view(),
            },
            Fault::NeedsKey { path } => FaultView::NeedsKey {
                path: path.deep_view(),
            },
            Fault::NeedsHost { host, port } => FaultView::NeedsHost {
                host: host.deep_view(),
                port: port.deep_view(),
            },
        }
    }
}

// ---------------------------------------------------------------------------
// PEM files
// ---------------------------------------------------------------------------

/// The longest text that OpenSSL takes.
pub const MAX_PEM_BYTES: usize = 2147483647;

/// What OpenSSL, of whatever version and configuration, may read from a list of PEM
/// certificates: the certificates, or why it cannot.
pub uninterp spec fn certificates_in(pem: Seq<u8>) -> Set<
    Result<Seq<CertificateView>, Seq<char>>,
>;

/// What OpenSSL, of whatever version and configuration, may say of a PEM private
/// key: that it can be read, or why it cannot.
pub uninterp spec fn key_in(pem: Seq<char>) -> Set<Result<(), Seq<char>>>;

/// `openssl::x509::X509::stack_from_pem` reads a list of PEM certificates, and
/// `X509Ref::to_der` gives the bytes of each. The result is one that OpenSSL may
/// give for these bytes. Which one is not said, since its version and its
/// configuration decide.
#[verifier::external_body]
fn read_pem_certificates(pem: &[u8]) -> (r: Result<Vec<Certificate>, String>)
    requires
        pem@.len() <= MAX_PEM_BYTES,
    ensures
        certificates_in(pem@).contains(
            match r {
                Ok(v) => Ok(v.deep_view()),
                Err(m) => Err(m@),
            },
        ),
{
    let mut out = Vec::new();
    for cert in openssl::x509::X509::stack_from_pem(pem).map_err(|e| e.to_string())? {
        out.push(Certificate { der: cert.to_der().map_err(|e| e.to_string())? });
    }
    Ok(out)
}

/// `openssl::pkey::PKey::private_key_from_pem` reads a PEM private key. The result
/// is one that OpenSSL may give for this text. Which one is not said, since its
/// version and its configuration decide.
#[verifier::external_body]
fn read_pem_private_key(pem: &str) -> (r: Result<(), String>)
    requires
        encode_utf8(pem@).len() <= MAX_PEM_BYTES,
    ensures
        key_in(pem@).contains(
            match r {
                Ok(_) => Ok(()),
                Err(m) => Err(m@),
            },
        ),
{
    match openssl::pkey::PKey::private_key_from_pem(pem.as_bytes()) {
        Ok(_) => Ok(()),
        Err(e) => Err(e.to_string()),
    }
}

/// What a certificate file gives, of which `read` holds the certificates or why
/// they could not be read.
pub open spec fn certificate_outcome(
    read: Result<Seq<CertificateView>, Seq<char>>,
) -> CertificateOutcomeView {
    match read {
        Ok(certificates) => CertificateOutcomeView::Read { certificates },
        Err(message) => CertificateOutcomeView::Invalid { message },
    }
}

/// What a key file with the contents `text` gives, of which `read` says whether a
/// key could be read, or why not.
pub open spec fn key_outcome(text: Seq<char>, read: Result<(), Seq<char>>) -> KeyOutcomeView {
    match read {
        Ok(_) => KeyOutcomeView::Read { pem: text },
        Err(message) => KeyOutcomeView::Invalid { message },
    }
}

/// The answers of silent surroundings.
pub open spec fn no_answers() -> AnswersView {
    AnswersView { certificates: Seq::empty(), keys: Seq::empty(), hosts: Seq::empty() }
}

impl Answers {
    /// No answer yet.
    pub fn none() -> (r: Answers)
        ensures
            r.deep_view() == no_answers(),
    {
        let r = Answers { certificates: Vec::new(), keys: Vec::new(), hosts: Vec::new() };
        assert(r.certificates.deep_view() == no_answers().certificates);
        assert(r.keys.deep_view() == no_answers().keys);
        assert(r.hosts.deep_view() == no_answers().hosts);
        r
    }

    /// Add the certificate file at `path`, of which `read` holds the certificates or
    /// why they could not be read.
    pub fn add_certificates(&mut self, path: &str, read: Result<Vec<Certificate>, String>)
        ensures
            final(self).keys == old(self).keys,
            final(self).hosts == old(self).hosts,
            final(self).deep_view().certificates == old(self).deep_view().certificates.push(
                CertificateFileView {
                    path: path@,
                    outcome: certificate_outcome(
                        match read {
                            Ok(v) => Ok(v.deep_view()),
                            Err(m) => Err(m@),
                        },
                    ),
                },
            ),
    {
        let outcome = match read {
            Ok(certificates) => CertificateOutcome::Read { certificates },
            Err(message) => CertificateOutcome::Invalid { message },
        };
        add_to(&mut self.certificates, CertificateFile { path: owned(path), outcome });
    }

    /// Add the certificate file at `path`, whose contents are `text`, with what
    /// OpenSSL reads from it.
    pub fn add_certificate_file(&mut self, path: &str, text: &[u8])
        requires
            text@.len() <= MAX_PEM_BYTES,
        ensures
            final(self).keys == old(self).keys,
            final(self).hosts == old(self).hosts,
            exists|read: Result<Seq<CertificateView>, Seq<char>>| #[trigger]
                certificates_in(text@).contains(read) && final(self).deep_view().certificates
                    == old(self).deep_view().certificates.push(
                    CertificateFileView { path: path@, outcome: certificate_outcome(read) },
                ),
    {
        self.add_certificates(path, read_pem_certificates(text));
    }

    /// Add a certificate file that could not be read.
    pub fn add_unreadable_certificate(&mut self, path: &str, message: &str)
        ensures
            final(self).keys == old(self).keys,
            final(self).hosts == old(self).hosts,
            final(self).deep_view().certificates == old(self).deep_view().certificates.push(
                CertificateFileView {
                    path: path@,
                    outcome: CertificateOutcomeView::Unreadable { message: message@ },
                },
            ),
    {
        let outcome = CertificateOutcome::Unreadable { message: owned(message) };
        add_to(&mut self.certificates, CertificateFile { path: owned(path), outcome });
    }

    /// Add the private-key file at `path` with the contents `text`, of which `read`
    /// says whether a key could be read, or why not.
    pub fn add_key(&mut self, path: &str, text: &str, read: Result<(), String>)
        ensures
            final(self).certificates == old(self).certificates,
            final(self).hosts == old(self).hosts,
            final(self).deep_view().keys == old(self).deep_view().keys.push(
                KeyFileView {
                    path: path@,
                    outcome: key_outcome(
                        text@,
                        match read {
                            Ok(_) => Ok(()),
                            Err(m) => Err(m@),
                        },
                    ),
                },
            ),
    {
        let outcome = match read {
            Ok(_) => KeyOutcome::Read { pem: owned(text) },
            Err(message) => KeyOutcome::Invalid { message },
        };
        add_to(&mut self.keys, KeyFile { path: owned(path), outcome });
    }

    /// Add the private-key file at `path`, whose contents are `text`, with what
    /// OpenSSL makes of it.
    pub fn add_key_file(&mut self, path: &str, text: &str)
        requires
            encode_utf8(text@).len() <= MAX_PEM_BYTES,
        ensures
            final(self).certificates == old(self).certificates,
            final(self).hosts == old(self).hosts,
            exists|read: Result<(), Seq<char>>| #[trigger]
                key_in(text@).contains(read) && final(self).deep_view().keys
                    == old(self).deep_view().keys.push(
                    KeyFileView { path: path@, outcome: key_outcome(text@, read) },
                ),
    {
        self.add_key(path, text, read_pem_private_key(text));
    }

    /// Add a private-key file that could not be read.
    pub fn add_unreadable_key(&mut self, path: &str, message: &str)
        ensures
            final(self).certificates == old(self).certificates,
            final(self).hosts == old(self).hosts,
            final(self).deep_view().keys == old(self).deep_view().keys.push(
                KeyFileView {
                    path: path@,
                    outcome: KeyOutcomeView::Unreadable { message: message@ },
                },
            ),
    {
        let outcome = KeyOutcome::Unreadable { message: owned(message) };
        add_to(&mut self.keys, KeyFile { path: owned(path), outcome });
    }

    /// Add the addresses of a host.
    pub fn add_host(&mut self, host: &str, port: u16, found: Result<Vec<SocketAddr>, String>)
        ensures
            final(self).certificates == old(self).certificates,
            final(self).keys == old(self).keys,
            final(self).deep_view().hosts == old(self).deep_view().hosts.push(
                HostAnswerView {
                    host: host@,
                    port,
                    outcome: match found {
                        Ok(addrs) => HostOutcomeView::Resolved { addrs: addrs.deep_view() },
                        Err(m) => HostOutcomeView::Failed { message: m@ },
                    },
                },
            ),
    {
        let outcome = match found {
            Ok(addrs) => HostOutcome::Resolved { addrs },
            Err(message) => HostOutcome::Failed { message },
        };
        add_to(&mut self.hosts, HostAnswer { host: owned(host), port, outcome });
    }
}

// ---------------------------------------------------------------------------
// Finding answers
// ---------------------------------------------------------------------------

/// The answer about the certificate file at `path`.
pub open spec fn certificate_answer(files: Seq<CertificateFileView>, path: Seq<char>) -> Option<
    CertificateOutcomeView,
>
    decreases files.len(),
{
    if files.len() == 0 {
        None
    } else if files[0].path == path {
        Some(files[0].outcome)
    } else {
        certificate_answer(files.skip(1), path)
    }
}

/// The answer about the private-key file at `path`.
pub open spec fn key_answer(files: Seq<KeyFileView>, path: Seq<char>) -> Option<KeyOutcomeView>
    decreases files.len(),
{
    if files.len() == 0 {
        None
    } else if files[0].path == path {
        Some(files[0].outcome)
    } else {
        key_answer(files.skip(1), path)
    }
}

/// The answer about a host and port.
pub open spec fn host_answer(hosts: Seq<HostAnswerView>, host: Seq<char>, port: u16) -> Option<
    HostOutcomeView,
>
    decreases hosts.len(),
{
    if hosts.len() == 0 {
        None
    } else if hosts[0].host == host && hosts[0].port == port {
        Some(hosts[0].outcome)
    } else {
        host_answer(hosts.skip(1), host, port)
    }
}

/// Find the answer about the certificate file at `path`.
pub fn find_certificate<'a>(files: &'a Vec<CertificateFile>, path: &str) -> (r: Option<
    &'a CertificateOutcome,
>)
    ensures
        match r {
            Some(o) => certificate_answer(files.deep_view(), path@) == Some(o.deep_view()),
            None => certificate_answer(files.deep_view(), path@) is None,
        },
{
    let ghost all = files.deep_view();
    let mut i: usize = 0;
    assert(all.skip(0) == all);
    while i < files.len()
        invariant
            i <= files@.len(),
            all == files.deep_view(),
            certificate_answer(all, path@) == certificate_answer(all.skip(i as int), path@),
        decreases files@.len() - i,
    {
        assert(all.skip(i as int)[0] == files@[i as int].deep_view());
        assert(all.skip(i as int).skip(1) == all.skip(i + 1));
        if same(files[i].path.as_str(), path) {
            return Some(&files[i].outcome);
        }
        i += 1;
    }
    None
}

/// Find the answer about the private-key file at `path`.
pub fn find_key<'a>(files: &'a Vec<KeyFile>, path: &str) -> (r: Option<&'a KeyOutcome>)
    ensures
        match r {
            Some(o) => key_answer(files.deep_view(), path@) == Some(o.deep_view()),
            None => key_answer(files.deep_view(), path@) is None,
        },
{
    let ghost all = files.deep_view();
    let mut i: usize = 0;
    assert(all.skip(0) == all);
    while i < files.len()
        invariant
            i <= files@.len(),
            all == files.deep_view(),
            key_answer(all, path@) == key_answer(all.skip(i as int), path@),
        decreases files@.len() - i,
    {
        assert(all.skip(i as int)[0] == files@[i as int].deep_view());
        assert(all.skip(i as int).skip(1) == all.skip(i + 1));
        if same(files[i].path.as_str(), path) {
            return Some(&files[i].outcome);
        }
        i += 1;
    }
    None
}

/// Find the answer about a host and port.
pub fn find_host<'a>(hosts: &'a Vec<HostAnswer>, host: &str, port: u16) -> (r: Option<
    &'a HostOutcome,
>)
    ensures
        match r {
            Some(o) => host_answer(hosts.deep_view(), host@, port) == Some(o.deep_view()),
            None => host_answer(hosts.deep_view(), host@, port) is None,
        },
{
    let ghost all = hosts.deep_view();
    let mut i: usize = 0;
    assert(all.skip(0) == all);
    while i < hosts.len()
        invariant
            i <= hosts@.len(),
            all == hosts.deep_view(),
            host_answer(all, host@, port) == host_answer(all.skip(i as int), host@, port),
        decreases hosts@.len() - i,
    {
        assert(all.skip(i as int)[0] == hosts@[i as int].deep_view());
        assert(all.skip(i as int).skip(1) == all.skip(i + 1));
        if hosts[i].port == port && same(hosts[i].host.as_str(), host) {
            return Some(&hosts[i].outcome);
        }
        i += 1;
    }
    None
}

// ---------------------------------------------------------------------------
// Resolving hosts
// ---------------------------------------------------------------------------

/// Whether a result is the one that a model describes: the same value, or the
/// same fault.
pub open spec fn tells<T: DeepView>(r: Result<T, Fault>, want: Result<T::V, FaultView>) -> bool {
    match (r, want) {
        (Ok(v), Ok(w)) => v.deep_view() == w,
        (Err(f), Err(w)) => f.deep_view() == w,
        _ => false,
    }
}

/// The addresses of `host` at `port`: an IP literal is its own address and needs
/// no lookup.
pub open spec fn resolved(hosts: Seq<HostAnswerView>, host: Seq<char>, port: u16) -> Result<
    Seq<SocketAddr>,
    FaultView,
> {
    match ip_literal(host) {
        Some(ip) => Ok(seq![SocketAddr::at(ip, port)]),
        None => match host_answer(hosts, host, port) {
            None => Err(FaultView::NeedsHost { host, port }),
            Some(HostOutcomeView::Resolved { addrs }) => Ok(addrs),
            Some(HostOutcomeView::Failed { message }) => Err(
                FaultView::Message(
                    "failed to resolve upstream "@ + host + ":"@ + decimal(port as nat) + (": "@
                        + message),
                ),
            ),
        },
    }
}

/// Resolve `host` at `port` to all of its socket addresses.
pub fn resolve_host(hosts: &Vec<HostAnswer>, host: &str, port: u16) -> (r: Result<
    Vec<SocketAddr>,
    Fault,
>)
    ensures
        tells(r, resolved(hosts.deep_view(), host@, port)),
{
    if let Some(ip) = IpAddr::parse(host) {
        let mut one: Vec<SocketAddr> = Vec::new();
        one.push(SocketAddr::new(ip, port));
        assert(one.deep_view() == seq![SocketAddr::at(ip, port)]);
        return Ok(one);
    }
    match find_host(hosts, host, port) {
        None => Err(Fault::NeedsHost { host: owned(host), port }),
        Some(HostOutcome::Resolved { addrs }) => {
            let mut out: Vec<SocketAddr> = Vec::new();
            crate::config::ast::add_all(&mut out, addrs);
            assert(out.deep_view() == addrs.deep_view());
            Ok(out)
        },
        Some(HostOutcome::Failed { message }) => {
            let p = decimal_string(port as u64);
            let tail = cat2(": ", message.as_str());
            Err(
                Fault::Message(
                    cat5("failed to resolve upstream ", host, ":", p.as_str(), tail.as_str()),
                ),
            )
        },
    }
}

/// The host and the port of the authority of a URL: `example.com:443`,
/// `127.0.0.1:8080`, or `[::1]:8443`.
pub open spec fn netloc(s: Seq<char>) -> Result<(Seq<char>, u16), Seq<char>> {
    let parts = if let Some(rest) = after_char(s, '[') {
        match cut(rest, ']') {
            None => Err("unterminated IPv6 literal"@),
            Some((host, tail)) => match after_char(tail, ':') {
                None => Err("missing port"@),
                Some(p) => Ok((host, p)),
            },
        }
    } else {
        match rcut(s, ':') {
            None => Err("missing port"@),
            Some((host, p)) => Ok((host, p)),
        }
    };
    match parts {
        Err(m) => Err(m),
        Ok((host, p)) => if host.len() == 0 {
            Err("empty host"@)
        } else {
            match number(p, 0xffff) {
                None => Err("invalid port"@),
                Some(n) => Ok((host, n as u16)),
            }
        },
    }
}

/// Split the authority of a URL into host and port.
pub fn parse_netloc(s: &str) -> (r: Result<(String, u16), String>)
    ensures
        match r {
            Ok((host, port)) => netloc(s@) == Ok::<(Seq<char>, u16), Seq<char>>((host@, port)),
            Err(m) => netloc(s@) == Err::<(Seq<char>, u16), Seq<char>>(m@),
        },
{
    let (host, p) = if let Some(rest) = strip_char(s, '[') {
        match split_once(rest, ']') {
            None => {
                return Err(owned("unterminated IPv6 literal"));
            },
            Some((host, tail)) => match strip_char(tail, ':') {
                None => {
                    return Err(owned("missing port"));
                },
                Some(p) => (host, p),
            },
        }
    } else {
        match rsplit_once(s, ':') {
            None => {
                return Err(owned("missing port"));
            },
            Some((host, p)) => (host, p),
        }
    };
    if is_empty(host) {
        return Err(owned("empty host"));
    }
    match parse_u16(p) {
        None => Err(owned("invalid port")),
        Some(port) => Ok((owned(host), port)),
    }
}

/// The addresses of the authority of a URL.
pub open spec fn netloc_resolved(hosts: Seq<HostAnswerView>, s: Seq<char>) -> Result<
    Seq<SocketAddr>,
    FaultView,
> {
    match netloc(s) {
        Err(m) => Err(FaultView::Message(m)),
        Ok((host, port)) => resolved(hosts, host, port),
    }
}

/// Resolve the authority of a URL to all of its socket addresses.
pub fn agent_resolver(hosts: &Vec<HostAnswer>, s: &str) -> (r: Result<Vec<SocketAddr>, Fault>)
    ensures
        tells(r, netloc_resolved(hosts.deep_view(), s@)),
{
    match parse_netloc(s) {
        Err(m) => Err(Fault::Message(m)),
        Ok((host, port)) => resolve_host(hosts, host.as_str(), port),
    }
}

/// How a lookup on the resolver pool ended.
#[derive(PartialEq, Eq, Debug)]
pub enum LookupEvent {
    /// The queue was full.
    Overloaded,
    /// The lookup gave addresses.
    Found(Vec<SocketAddr>),
    /// The lookup failed.
    Failed(String),
    /// No result came within the time limit.
    TimedOut,
    /// The worker went away.
    Stopped,
}

/// What a lookup that ended gives to its caller; `timeout` is the time limit.
pub open spec fn lookup_result(event: LookupEvent, timeout: Duration) -> Result<
    Seq<SocketAddr>,
    Seq<char>,
> {
    match event {
        LookupEvent::Overloaded => Err("resolver overloaded (too many concurrent lookups)"@),
        LookupEvent::Found(addrs) => Ok(addrs.deep_view()),
        LookupEvent::Failed(e) => Err("lookup failed: "@ + e@),
        LookupEvent::TimedOut => Err(
            "timed out after "@ + decimal((timeout.nanos / 1_000_000_000) as nat) + "s"@,
        ),
        LookupEvent::Stopped => Err("resolver worker stopped"@),
    }
}

/// What a lookup that ended gives to its caller.
pub fn finish_lookup(event: LookupEvent, timeout: Duration) -> (r: Result<Vec<SocketAddr>, String>)
    ensures
        match r {
            Ok(v) => lookup_result(event, timeout) == Ok::<Seq<SocketAddr>, Seq<char>>(
                v.deep_view(),
            ),
            Err(m) => lookup_result(event, timeout) == Err::<Seq<SocketAddr>, Seq<char>>(m@),
        },
{
    match event {
        LookupEvent::Overloaded => Err(
            owned("resolver overloaded (too many concurrent lookups)"),
        ),
        LookupEvent::Found(addrs) => Ok(addrs),
        LookupEvent::Failed(e) => Err(cat2("lookup failed: ", e.as_str())),
        LookupEvent::TimedOut => {
            let s = decimal_string(timeout.as_secs());
            Err(cat3("timed out after ", s.as_str(), "s"))
        },
        LookupEvent::Stopped => Err(owned("resolver worker stopped")),
    }
}

// ---------------------------------------------------------------------------
// The queue of lookups
// ---------------------------------------------------------------------------

/// A bounded first-in first-out queue of pending jobs. The capacity bounds
/// memory whether or not a worker is stuck.
pub struct JobQueue<J> {
    jobs: std::collections::VecDeque<J>,
    capacity: usize,
}

impl<J> View for JobQueue<J> {
    type V = Seq<J>;

    closed spec fn view(&self) -> Seq<J> {
        self.jobs@
    }
}

impl<J> JobQueue<J> {
    /// How many jobs the queue may hold.
    pub closed spec fn spec_capacity(self) -> usize {
        self.capacity
    }

    /// The queue holds no more than its capacity.
    pub open spec fn wf(self) -> bool {
        self@.len() <= self.spec_capacity()
    }

    /// An empty queue.
    pub fn new(capacity: usize) -> (r: JobQueue<J>)
        ensures
            r.wf(),
            r@ == Seq::<J>::empty(),
            r.spec_capacity() == capacity,
    {
        JobQueue { jobs: std::collections::VecDeque::new(), capacity }
    }

    /// Enqueue `job`, or give it back when the queue is full.
    pub fn push(&mut self, job: J) -> (r: Result<(), J>)
        requires
            old(self).wf(),
        ensures
            final(self).wf(),
            final(self).spec_capacity() == old(self).spec_capacity(),
            r is Ok <==> old(self)@.len() < old(self).spec_capacity(),
            r is Ok ==> final(self)@ == old(self)@.push(job),
            r matches Err(back) ==> back == job && final(self)@ == old(self)@,
    {
        if self.jobs.len() >= self.capacity {
            return Err(job);
        }
        self.jobs.push_back(job);
        Ok(())
    }

    /// Take the oldest job, if there is one.
    pub fn pop(&mut self) -> (r: Option<J>)
        requires
            old(self).wf(),
        ensures
            final(self).wf(),
            final(self).spec_capacity() == old(self).spec_capacity(),
            match r {
                Some(job) => old(self)@.len() > 0 && job == old(self)@[0] && final(self)@ == old(
                    self,
                )@.skip(1),
                None => old(self)@.len() == 0 && final(self)@ == old(self)@,
            },
    {
        let r = self.jobs.pop_front();
        assert(r is Some ==> self@ == old(self)@.skip(1));
        r
    }
}

} // verus!
