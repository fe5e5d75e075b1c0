//! TLS termination for `tcp` listeners: what the server context is made of.
//!
//! The context is built once, at startup, from a certificate and the TLS options
//! of the listener. This module says which steps build it, in which order, and
//! what is reported when one fails. A mistake in the options fails the startup
//! rather than every handshake.
use crate::config::answers::{
    certificate_answer, find_certificate, CertificateFile, CertificateFileView, CertificateOutcome,
    CertificateOutcomeView, Fault, MAX_PEM_BYTES,
};
use crate::config::ast::{
    add_to, ClientAuth, ClientAuthMode, ClientAuthView, Dup, TlsConfig, TlsConfigView, TlsVersion,
};
use crate::config::compiled::{CertKey, CertKeyView, Certificate, CertificateView};
use crate::text::{cat2, cat3, cat4, owned};
use openssl::ssl::{SslAcceptor, SslAcceptorBuilder};
use openssl::x509::store::X509StoreBuilder;
use vstd::prelude::*;
use vstd::utf8::encode_utf8;

verus! {

/// How long a handshake may take, in seconds.
pub const HANDSHAKE_TIMEOUT_SECS: u64 = 60;

/// One step in the building of a server context.
#[derive(PartialEq, Eq)]
pub enum AcceptorStep {
    /// Start from the defaults.
    New,
    SetCertificate(Certificate),
    AddChainCertificate(Certificate),
    /// Set the private key, in PEM.
    SetPrivateKey(String),
    /// Check that the key fits the certificate.
    CheckPrivateKey,
    MinVersion(TlsVersion),
    MaxVersion(TlsVersion),
    Ciphers(String),
    /// Start a trust store for client certificates.
    NewTrustStore,
    Trust(Certificate),
    /// Verify clients against the trust store.
    SetTrustStore,
    /// Ask clients for a certificate, and refuse those without one when told so.
    VerifyClients(ClientAuthMode),
    /// Give up with this message.
    Refuse(String),
}

/// The model of [`AcceptorStep`].
#[verifier::ext_equal]
pub ghost enum AcceptorStepView {
    New,
    SetCertificate(CertificateView),
    AddChainCertificate(CertificateView),
    SetPrivateKey(Seq<char>),
    CheckPrivateKey,
    MinVersion(TlsVersion),
    MaxVersion(TlsVersion),
    Ciphers(Seq<char>),
    NewTrustStore,
    Trust(CertificateView),
    SetTrustStore,
    VerifyClients(ClientAuthMode),
    Refuse(Seq<char>),
}

impl DeepView for AcceptorStep {
    type V = AcceptorStepView;

    open spec fn deep_view(&self) -> AcceptorStepView {
        match self {
            AcceptorStep::New => AcceptorStepView::New,
            AcceptorStep::SetCertificate(c) => AcceptorStepView::SetCertificate(c.deep_view()),
            AcceptorStep::AddChainCertificate(c) => AcceptorStepView::AddChainCertificate(
                c.deep_view(),
            ),
            AcceptorStep::SetPrivateKey(k) => AcceptorStepView::SetPrivateKey(k@),
            AcceptorStep::CheckPrivateKey => AcceptorStepView::CheckPrivateKey,
            AcceptorStep::MinVersion(v) => AcceptorStepView::MinVersion(*v),
            AcceptorStep::MaxVersion(v) => AcceptorStepView::MaxVersion(*v),
            AcceptorStep::Ciphers(c) => AcceptorStepView::Ciphers(c@),
            AcceptorStep::NewTrustStore => AcceptorStepView::NewTrustStore,
            AcceptorStep::Trust(c) => AcceptorStepView::Trust(c.deep_view()),
            AcceptorStep::SetTrustStore => AcceptorStepView::SetTrustStore,
            AcceptorStep::VerifyClients(m) => AcceptorStepView::VerifyClients(*m),
            AcceptorStep::Refuse(m) => AcceptorStepView::Refuse(m@),
        }
    }
}

/// The steps that a list of certificates makes.
pub open spec fn chain_steps(chain: Seq<CertificateView>) -> Seq<AcceptorStepView> {
    Seq::new(
        (chain.len() - 1) as nat,
        |i: int| AcceptorStepView::AddChainCertificate(chain[i + 1]),
    )
}

/// The steps that trust a list of certificates.
pub open spec fn trust_steps(certs: Seq<CertificateView>) -> Seq<AcceptorStepView> {
    Seq::new(certs.len(), |i: int| AcceptorStepView::Trust(certs[i]))
}

/// The step that an option makes.
pub open spec fn optional_step<T>(option: Option<T>, step: spec_fn(T) -> AcceptorStepView) -> Seq<
    AcceptorStepView,
> {
    match option {
        Some(v) => seq![step(v)],
        None => Seq::empty(),
    }
}

/// The steps for client certificates. They fail closed: a CA file that cannot be
/// read or holds no certificate refuses the listener. `None` when nothing is
/// known of the file yet.
pub open spec fn client_auth_steps(
    files: Seq<CertificateFileView>,
    auth: ClientAuthView,
) -> Option<Seq<AcceptorStepView>> {
    match certificate_answer(files, auth.ca_file) {
        None => None,
        Some(CertificateOutcomeView::Unreadable { message }) => Some(
            seq![
                AcceptorStepView::Refuse(
                    "failed to read client_auth CA "@ + auth.ca_file + ": "@ + message,
                ),
            ],
        ),
        Some(CertificateOutcomeView::Invalid { message }) => Some(
            seq![
                AcceptorStepView::Refuse(
                    "invalid client_auth CA "@ + auth.ca_file + ": "@ + message,
                ),
            ],
        ),
        Some(CertificateOutcomeView::Read { certificates }) => if certificates.len() == 0 {
            Some(
                seq![
                    AcceptorStepView::Refuse(
                        "client_auth CA "@ + auth.ca_file + " contains no certificates"@,
                    ),
                ],
            )
        } else {
            Some(
                seq![AcceptorStepView::NewTrustStore] + trust_steps(certificates) + seq![
                    AcceptorStepView::SetTrustStore,
                    AcceptorStepView::VerifyClients(auth.mode),
                ],
            )
        },
    }
}

/// The steps for the certificate itself.
pub open spec fn certificate_steps(cert: CertKeyView) -> Seq<AcceptorStepView> {
    seq![AcceptorStepView::New, AcceptorStepView::SetCertificate(cert.chain[0])] + chain_steps(
        cert.chain,
    ) + seq![
        AcceptorStepView::SetPrivateKey(cert.key_pem),
        AcceptorStepView::CheckPrivateKey,
    ]
}

/// The steps for the versions and ciphers of a listener.
pub open spec fn option_steps(options: TlsConfigView) -> Seq<AcceptorStepView> {
    optional_step(options.min_version, |v: TlsVersion| AcceptorStepView::MinVersion(v))
        + optional_step(options.max_version, |v: TlsVersion| AcceptorStepView::MaxVersion(v))
        + optional_step(options.ciphers, |c: Seq<char>| AcceptorStepView::Ciphers(c))
}

/// The steps that build the server context of a listener, or the path of a CA
/// file that has to be read first.
pub open spec fn acceptor_plan(
    files: Seq<CertificateFileView>,
    cert: CertKeyView,
    options: Option<TlsConfigView>,
) -> Result<Seq<AcceptorStepView>, Seq<char>> {
    match options {
        None => Ok(certificate_steps(cert)),
        Some(o) => match o.client_auth {
            None => Ok(certificate_steps(cert) + option_steps(o)),
            Some(auth) => match client_auth_steps(files, auth) {
                None => Err(auth.ca_file),
                Some(more) => Ok(certificate_steps(cert) + option_steps(o) + more),
            },
        },
    }
}

fn add_certificate_steps(out: &mut Vec<AcceptorStep>, cert: &CertKey)
    requires
        cert.chain@.len() > 0,
        old(out)@.len() == 0,
    ensures
        final(out).deep_view() == certificate_steps(cert.deep_view()),
{
    let ghost chain = cert.chain.deep_view();
    assert(chain[0] == cert.chain@[0].deep_view());
    add_to(out, AcceptorStep::New);
    add_to(out, AcceptorStep::SetCertificate(cert.chain[0].dup()));
    let ghost head = seq![AcceptorStepView::New, AcceptorStepView::SetCertificate(chain[0])];
    let mut i: usize = 1;
    assert(out.deep_view() == head + chain_steps(chain).take(0));
    while i < cert.chain.len()
        invariant
            1 <= i <= cert.chain@.len(),
            chain == cert.chain.deep_view(),
            out.deep_view() == head + chain_steps(chain).take(i - 1),
        decreases cert.chain@.len() - i,
    {
        assert(chain[i as int] == cert.chain@[i as int].deep_view());
        add_to(out, AcceptorStep::AddChainCertificate(cert.chain[i].dup()));
        let ghost steps = chain_steps(chain);
        assert(steps.take(i as int) == steps.take(i - 1).push(steps[i - 1]));
        i += 1;
    }
    assert(chain_steps(chain).take(i - 1) == chain_steps(chain));
    add_to(out, AcceptorStep::SetPrivateKey(cert.key_pem.dup()));
    add_to(out, AcceptorStep::CheckPrivateKey);
    assert(out.deep_view() == certificate_steps(cert.deep_view()));
}

fn add_client_auth_steps(
    out: &mut Vec<AcceptorStep>,
    files: &Vec<CertificateFile>,
    auth: &ClientAuth,
) -> (r: bool)
    ensures
        match client_auth_steps(files.deep_view(), auth.deep_view()) {
            None => !r,
            Some(more) => r && final(out).deep_view() == old(out).deep_view() + more,
        },
{
    let ghost before = out.deep_view();
    match find_certificate(files, auth.ca_file.as_str()) {
        None => false,
        Some(CertificateOutcome::Unreadable { message }) => {
            add_to(
                out,
                AcceptorStep::Refuse(
                    cat4(
                        "failed to read client_auth CA ",
                        auth.ca_file.as_str(),
                        ": ",
                        message.as_str(),
                    ),
                ),
            );
            true
        },
        Some(CertificateOutcome::Invalid { message }) => {
            add_to(
                out,
                AcceptorStep::Refuse(
                    cat4("invalid client_auth CA ", auth.ca_file.as_str(), ": ", message.as_str()),
                ),
            );
            true
        },
        Some(CertificateOutcome::Read { certificates }) => {
            if certificates.len() == 0 {
                add_to(
                    out,
                    AcceptorStep::Refuse(
                        cat3("client_auth CA ", auth.ca_file.as_str(), " contains no certificates"),
                    ),
                );
                return true;
            }
            let ghost certs = certificates.deep_view();
            add_to(out, AcceptorStep::NewTrustStore);
            let ghost head = before.push(AcceptorStepView::NewTrustStore);
            let mut i: usize = 0;
            assert(out.deep_view() == head + trust_steps(certs).take(0));
            while i < certificates.len()
                invariant
                    i <= certificates@.len(),
                    certs == certificates.deep_view(),
                    out.deep_view() == head + trust_steps(certs).take(i as int),
                decreases certificates@.len() - i,
            {
                assert(certs[i as int] == certificates@[i as int].deep_view());
                add_to(out, AcceptorStep::Trust(certificates[i].dup()));
                let ghost steps = trust_steps(certs);
                assert(steps.take(i + 1) == steps.take(i as int).push(steps[i as int]));
                i += 1;
            }
            assert(trust_steps(certs).take(i as int) == trust_steps(certs));
            add_to(out, AcceptorStep::SetTrustStore);
            add_to(out, AcceptorStep::VerifyClients(auth.mode));
            assert(out.deep_view() == before + (seq![AcceptorStepView::NewTrustStore]
                + trust_steps(certs) + seq![
                AcceptorStepView::SetTrustStore,
                AcceptorStepView::VerifyClients(auth.mode),
            ]));
            true
        },
    }
}

/// List the steps that build the server context of a listener. When the options
/// name a CA file of which nothing is known yet, its path is given instead.
pub fn plan_acceptor(files: &Vec<CertificateFile>, cert: &CertKey, options: Option<&TlsConfig>)
    -> (r: Result<Vec<AcceptorStep>, String>)
    requires
        cert.chain@.len() > 0,
    ensures
        match (
            r,
            acceptor_plan(
                files.deep_view(),
                cert.deep_view(),
                match options {
                    Some(o) => Some(o.deep_view()),
                    None => None,
                },
            ),
        ) {
            (Ok(steps), Ok(w)) => steps.deep_view() == w,
            (Err(path), Err(w)) => path@ == w,
            _ => false,
        },
{
    let mut out: Vec<AcceptorStep> = Vec::new();
    add_certificate_steps(&mut out, cert);
    let ghost first = out.deep_view();
    let o = match options {
        Some(o) => o,
        None => {
            return Ok(out);
        },
    };
    if let Some(v) = o.min_version {
        add_to(&mut out, AcceptorStep::MinVersion(v));
    }
    if let Some(v) = o.max_version {
        add_to(&mut out, AcceptorStep::MaxVersion(v));
    }
    if let Some(c) = &o.ciphers {
        add_to(&mut out, AcceptorStep::Ciphers(c.dup()));
    }
    assert(out.deep_view() == first + option_steps(o.deep_view()));
    if let Some(auth) = &o.client_auth {
        if !add_client_auth_steps(&mut out, files, auth) {
            return Err(auth.ca_file.dup());
        }
    }
    Ok(out)
}

/// What is reported when a step fails with `error`.
pub open spec fn step_failure(step: AcceptorStepView, error: Seq<char>) -> Seq<char> {
    match step {
        AcceptorStepView::New => "build TLS acceptor: "@ + error,
        AcceptorStepView::SetCertificate(_) => "set TCP TLS certificate: "@ + error,
        AcceptorStepView::AddChainCertificate(_) => "add TCP TLS chain certificate: "@ + error,
        AcceptorStepView::SetPrivateKey(_) => "set TCP TLS private key: "@ + error,
        AcceptorStepView::CheckPrivateKey => "TCP TLS certificate and key do not match: "@ + error,
        AcceptorStepView::MinVersion(_) => "set TLS min_version: "@ + error,
        AcceptorStepView::MaxVersion(_) => "set TLS max_version: "@ + error,
        AcceptorStepView::Ciphers(c) => "invalid tls ciphers '"@ + c + "': "@ + error,
        AcceptorStepView::NewTrustStore => "build CA store: "@ + error,
        AcceptorStepView::Trust(_) => "add client_auth CA certificate: "@ + error,
        AcceptorStepView::SetTrustStore => "set client_auth trust store: "@ + error,
        AcceptorStepView::VerifyClients(_) => error,
        AcceptorStepView::Refuse(m) => m,
    }
}

/// Say what is reported when a step fails.
pub fn describe_failure(step: &AcceptorStep, error: &str) -> (r: String)
    ensures
        r@ == step_failure(step.deep_view(), error@),
{
    match step {
        AcceptorStep::New => cat2("build TLS acceptor: ", error),
        AcceptorStep::SetCertificate(_) => cat2("set TCP TLS certificate: ", error),
        AcceptorStep::AddChainCertificate(_) => cat2("add TCP TLS chain certificate: ", error),
        AcceptorStep::SetPrivateKey(_) => cat2("set TCP TLS private key: ", error),
        AcceptorStep::CheckPrivateKey => cat2("TCP TLS certificate and key do not match: ", error),
        AcceptorStep::MinVersion(_) => cat2("set TLS min_version: ", error),
        AcceptorStep::MaxVersion(_) => cat2("set TLS max_version: ", error),
        AcceptorStep::Ciphers(c) => cat4("invalid tls ciphers '", c.as_str(), "': ", error),
        AcceptorStep::NewTrustStore => cat2("build CA store: ", error),
        AcceptorStep::Trust(_) => cat2("add client_auth CA certificate: ", error),
        AcceptorStep::SetTrustStore => cat2("set client_auth trust store: ", error),
        AcceptorStep::VerifyClients(_) => owned(error),
        AcceptorStep::Refuse(m) => m.dup(),
    }
}

/// Client certificates fail closed: a plan for a listener that asks for them
/// either refuses the listener or verifies clients, in the mode asked for, as its
/// last step, against a store with at least one certificate.
pub proof fn client_auth_fails_closed(
    files: Seq<CertificateFileView>,
    cert: CertKeyView,
    options: TlsConfigView,
)
    requires
        options.client_auth is Some,
    ensures
        acceptor_plan(files, cert, Some(options)) matches Ok(steps) ==> steps.len() > 0 && (
        steps.last() is Refuse || (steps.last() == AcceptorStepView::VerifyClients(
            options.client_auth->0.mode,
        ) && exists|i: int| 0 <= i < steps.len() && (#[trigger] steps[i]) is Trust)),
{
    let auth = options.client_auth->0;
    if let Some(more) = client_auth_steps(files, auth) {
        let first = certificate_steps(cert) + option_steps(options);
        let steps = first + more;
        assert(steps.last() == more.last());
        if !(more.last() is Refuse) {
            let certs = certificate_answer(files, auth.ca_file)->0->certificates;
            assert(more[1] == trust_steps(certs)[0]);
            assert(steps[first.len() as int + 1] == more[1]);
        }
    }
}

// ---------------------------------------------------------------------------
// The server context
// ---------------------------------------------------------------------------

/// A server context in the making, of OpenSSL.
#[verifier::external_type_specification]
#[verifier::external_body]
pub struct ExSslAcceptorBuilder(openssl::ssl::SslAcceptorBuilder);

/// A server context of OpenSSL.
#[verifier::external_type_specification]
#[verifier::external_body]
pub struct ExSslAcceptor(openssl::ssl::SslAcceptor);

/// A trust store in the making, of OpenSSL.
#[verifier::external_type_specification]
#[verifier::external_body]
pub struct ExX509StoreBuilder(openssl::x509::store::X509StoreBuilder);

/// The steps that a server context in the making has been through, in order.
pub uninterp spec fn steps_taken(builder: SslAcceptorBuilder) -> Seq<AcceptorStepView>;

/// The steps that a server context was made by, in order.
pub uninterp spec fn steps_behind(acceptor: SslAcceptor) -> Seq<AcceptorStepView>;

/// The certificates that were added to a trust store in the making, in order.
pub uninterp spec fn trusted_by(store: X509StoreBuilder) -> Seq<CertificateView>;

/// Whether a context in the making took one more step.
pub open spec fn took(
    before: SslAcceptorBuilder,
    r: Result<SslAcceptorBuilder, String>,
    step: AcceptorStepView,
) -> bool {
    r matches Ok(after) ==> steps_taken(after) == steps_taken(before).push(step)
}

/// Calls `openssl::ssl::SslAcceptor::mozilla_intermediate_v5`: a new context, with
/// the defaults and nothing else. Whether there is one is up to OpenSSL.
#[verifier::external_body]
fn new_context() -> (r: Result<SslAcceptorBuilder, String>)
    ensures
        r matches Ok(b) ==> steps_taken(b) == seq![AcceptorStepView::New],
{
    SslAcceptor::mozilla_intermediate_v5(openssl::ssl::SslMethod::tls()).map_err(|e| e.to_string())
}

/// Calls `openssl::ssl::SslContextBuilder::set_certificate` with the certificate
/// that `openssl::x509::X509::from_der` reads. A context that takes it has gone
/// through this step too; whether it does is up to OpenSSL.
#[verifier::external_body]
fn set_certificate(b: SslAcceptorBuilder, cert: &Certificate) -> (r: Result<
    SslAcceptorBuilder,
    String,
>)
    ensures
        took(b, r, AcceptorStepView::SetCertificate(cert.deep_view())),
{
    let mut b = b;
    let x509 = openssl::x509::X509::from_der(&cert.der).map_err(|e| e.to_string())?;
    b.set_certificate(&x509).map_err(|e| e.to_string())?;
    Ok(b)
}

/// Calls `openssl::ssl::SslContextBuilder::add_extra_chain_cert` with the
/// certificate that `openssl::x509::X509::from_der` reads. A context that takes it
/// has gone through this step too; whether it does is up to OpenSSL.
#[verifier::external_body]
fn add_chain_certificate(b: SslAcceptorBuilder, cert: &Certificate) -> (r: Result<
    SslAcceptorBuilder,
    String,
>)
    ensures
        took(b, r, AcceptorStepView::AddChainCertificate(cert.deep_view())),
{
    let mut b = b;
    let x509 = openssl::x509::X509::from_der(&cert.der).map_err(|e| e.to_string())?;
    b.add_extra_chain_cert(x509).map_err(|e| e.to_string())?;
    Ok(b)
}

/// Calls `openssl::ssl::SslContextBuilder::set_private_key` with the key that
/// `openssl::pkey::PKey::private_key_from_pem` reads. A context that takes it has
/// gone through this step too; whether it does is up to OpenSSL.
#[verifier::external_body]
fn set_private_key(b: SslAcceptorBuilder, pem: &str) -> (r: Result<SslAcceptorBuilder, String>)
    requires
        encode_utf8(pem@).len() <= MAX_PEM_BYTES,
    ensures
        took(b, r, AcceptorStepView::SetPrivateKey(pem@)),
{
    let mut b = b;
    let key = openssl::pkey::PKey::private_key_from_pem(pem.as_bytes()).map_err(|e| e.to_string())?;
    b.set_private_key(&key).map_err(|e| e.to_string())?;
    Ok(b)
}

/// Calls `openssl::ssl::SslContextBuilder::check_private_key`. A context that
/// passes has gone through this step too; whether it passes is up to OpenSSL.
#[verifier::external_body]
fn check_private_key(b: SslAcceptorBuilder) -> (r: Result<SslAcceptorBuilder, String>)
    ensures
        took(b, r, AcceptorStepView::CheckPrivateKey),
{
    b.check_private_key().map_err(|e| e.to_string())?;
    Ok(b)
}

/// Calls `openssl::ssl::SslContextBuilder::set_min_proto_version`. A context that
/// takes the version has gone through this step too; whether it does is up to
/// OpenSSL.
#[verifier::external_body]
fn set_min_version(b: SslAcceptorBuilder, version: TlsVersion) -> (r: Result<
    SslAcceptorBuilder,
    String,
>)
    ensures
        took(b, r, AcceptorStepView::MinVersion(version)),
{
    let mut b = b;
    let v = match version {
        TlsVersion::Tls12 => openssl::ssl::SslVersion::TLS1_2,
        TlsVersion::Tls13 => openssl::ssl::SslVersion::TLS1_3,
    };
    b.set_min_proto_version(Some(v)).map_err(|e| e.to_string())?;
    Ok(b)
}

/// Calls `openssl::ssl::SslContextBuilder::set_max_proto_version`. A context that
/// takes the version has gone through this step too; whether it does is up to
/// OpenSSL.
#[verifier::external_body]
fn set_max_version(b: SslAcceptorBuilder, version: TlsVersion) -> (r: Result<
    SslAcceptorBuilder,
    String,
>)
    ensures
        took(b, r, AcceptorStepView::MaxVersion(version)),
{
    let mut b = b;
    let v = match version {
        TlsVersion::Tls12 => openssl::ssl::SslVersion::TLS1_2,
        TlsVersion::Tls13 => openssl::ssl::SslVersion::TLS1_3,
    };
    b.set_max_proto_version(Some(v)).map_err(|e| e.to_string())?;
    Ok(b)
}

/// Calls `openssl::ssl::SslContextBuilder::set_cipher_list`, which panics at a NUL
/// in the list. A context that takes the list has gone through this step too;
/// whether it does is up to OpenSSL.
#[verifier::external_body]
fn set_ciphers(b: SslAcceptorBuilder, ciphers: &str) -> (r: Result<SslAcceptorBuilder, String>)
    requires
        !ciphers@.contains('\0'),
    ensures
        took(b, r, AcceptorStepView::Ciphers(ciphers@)),
{
    let mut b = b;
    b.set_cipher_list(ciphers).map_err(|e| e.to_string())?;
    Ok(b)
}

/// Calls `openssl::x509::store::X509StoreBuilder::new`: an empty trust store.
/// Whether there is one is up to OpenSSL.
#[verifier::external_body]
fn new_trust_store() -> (r: Result<X509StoreBuilder, String>)
    ensures
        r matches Ok(s) ==> trusted_by(s) == Seq::<CertificateView>::empty(),
{
    X509StoreBuilder::new().map_err(|e| e.to_string())
}

/// Calls `openssl::x509::store::X509StoreBuilderRef::add_cert` with the
/// certificate that `openssl::x509::X509::from_der` reads. A store that takes it
/// has it added; whether it does is up to OpenSSL.
#[verifier::external_body]
fn trust(s: X509StoreBuilder, cert: &Certificate) -> (r: Result<X509StoreBuilder, String>)
    ensures
        r matches Ok(after) ==> trusted_by(after) == trusted_by(s).push(cert.deep_view()),
{
    let mut s = s;
    let x509 = openssl::x509::X509::from_der(&cert.der).map_err(|e| e.to_string())?;
    s.add_cert(x509).map_err(|e| e.to_string())?;
    Ok(s)
}

/// Calls `openssl::ssl::SslContextBuilder::set_verify_cert_store` with the store
/// that `openssl::x509::store::X509StoreBuilder::build` gives. A context that
/// takes it has gone through the steps of the store and this one; whether it does
/// is up to OpenSSL.
#[verifier::external_body]
fn set_trust_store(b: SslAcceptorBuilder, s: X509StoreBuilder) -> (r: Result<
    SslAcceptorBuilder,
    String,
>)
    ensures
        r matches Ok(after) ==> steps_taken(after) == steps_taken(b) + seq![
            AcceptorStepView::NewTrustStore,
        ] + trust_steps(trusted_by(s)) + seq![AcceptorStepView::SetTrustStore],
{
    let mut b = b;
    b.set_verify_cert_store(s.build()).map_err(|e| e.to_string())?;
    Ok(b)
}

/// Calls `openssl::ssl::SslContextBuilder::set_verify`: clients are asked for a
/// certificate, and refused without one when `required`.
#[verifier::external_body]
fn verify_clients(b: SslAcceptorBuilder, required: bool) -> (r: SslAcceptorBuilder)
    ensures
        steps_taken(r) == steps_taken(b).push(
            AcceptorStepView::VerifyClients(
                if required {
                    ClientAuthMode::Require
                } else {
                    ClientAuthMode::Optional
                },
            ),
        ),
{
    let mut b = b;
    let mut mode = openssl::ssl::SslVerifyMode::PEER;
    mode.set(openssl::ssl::SslVerifyMode::FAIL_IF_NO_PEER_CERT, required);
    b.set_verify(mode);
    b
}

/// Calls `openssl::ssl::SslAcceptorBuilder::build`: the context keeps what was
/// set.
#[verifier::external_body]
fn finish_context(b: SslAcceptorBuilder) -> (r: SslAcceptor)
    ensures
        steps_behind(r) == steps_taken(b),
{
    b.build()
}

/// Whether a step leaves a trust store in the making.
pub open spec fn opens_store(step: AcceptorStepView) -> bool {
    step is NewTrustStore || step is Trust
}

/// Whether a step needs a trust store in the making.
pub open spec fn needs_store(step: AcceptorStepView) -> bool {
    step is Trust || step is SetTrustStore
}

/// Whether OpenSSL can be asked to take a step: a key within its limit, and a
/// list of ciphers without a NUL.
pub open spec fn can_be_asked(step: AcceptorStepView) -> bool {
    match step {
        AcceptorStepView::SetPrivateKey(k) => encode_utf8(k).len() <= MAX_PEM_BYTES,
        AcceptorStepView::Ciphers(c) => !c.contains('\0'),
        _ => true,
    }
}

/// Whether a step can fail. To ask clients for a certificate cannot.
pub open spec fn can_fail(step: AcceptorStepView) -> bool {
    !(step is VerifyClients)
}

/// Whether the steps of a plan can be taken one after the other: the first one
/// alone starts a context, and a trust store is made in one go.
spec fn in_order(steps: Seq<AcceptorStepView>) -> bool {
    &&& steps.len() > 0
    &&& !opens_store(steps.last())
    &&& forall|i: int| 0 <= i < steps.len() ==> ((#[trigger] steps[i]) is New <==> i == 0)
    &&& forall|i: int|
        0 < i < steps.len() ==> (needs_store(#[trigger] steps[i]) <==> opens_store(steps[i - 1]))
}

/// Whether steps can follow others that are in order.
spec fn can_follow(steps: Seq<AcceptorStepView>) -> bool {
    &&& steps.len() > 0 ==> !needs_store(steps[0]) && !opens_store(steps.last())
    &&& forall|i: int| 0 <= i < steps.len() ==> !((#[trigger] steps[i]) is New)
    &&& forall|i: int|
        0 < i < steps.len() ==> (needs_store(#[trigger] steps[i]) <==> opens_store(steps[i - 1]))
}

proof fn lemma_follows(first: Seq<AcceptorStepView>, more: Seq<AcceptorStepView>)
    requires
        in_order(first),
        can_follow(more),
    ensures
        in_order(first + more),
{
    let all = first + more;
    let n = first.len() as int;
    assert forall|i: int| 0 <= i < all.len() implies ((#[trigger] all[i]) is New <==> i == 0) by {
        assert(all[i] == if i < n {
            first[i]
        } else {
            more[i - n]
        });
    }
    assert forall|i: int| 0 < i < all.len() implies (needs_store(#[trigger] all[i]) <==> opens_store(
        all[i - 1],
    )) by {
        if i > n {
            assert(all[i] == more[i - n] && all[i - 1] == more[i - n - 1]);
        } else if i == n {
            assert(all[i] == more[0] && all[i - 1] == first.last());
        } else {
            assert(all[i] == first[i] && all[i - 1] == first[i - 1]);
        }
    }
    assert(all.last() == if more.len() > 0 {
        more.last()
    } else {
        first.last()
    });
}

proof fn lemma_client_auth_follows(files: Seq<CertificateFileView>, auth: ClientAuthView)
    ensures
        client_auth_steps(files, auth) matches Some(more) ==> can_follow(more),
{
    if let Some(CertificateOutcomeView::Read { certificates }) = certificate_answer(
        files,
        auth.ca_file,
    ) {
        if certificates.len() > 0 {
            let more = client_auth_steps(files, auth)->0;
            let n = certificates.len() as int;
            assert(more.len() == n + 3);
            assert(more[0] == AcceptorStepView::NewTrustStore);
            assert forall|i: int| 1 <= i <= n implies more[i] == AcceptorStepView::Trust(
                certificates[i - 1],
            ) by {
                assert(more[i] == trust_steps(certificates)[i - 1]);
            }
            assert(more[n + 1] == AcceptorStepView::SetTrustStore);
            assert(more[n + 2] == AcceptorStepView::VerifyClients(auth.mode));
        }
    }
}

proof fn lemma_plan_is_in_order(
    files: Seq<CertificateFileView>,
    cert: CertKeyView,
    options: Option<TlsConfigView>,
)
    requires
        cert.chain.len() > 0,
    ensures
        acceptor_plan(files, cert, options) matches Ok(steps) ==> in_order(steps),
{
    let first = certificate_steps(cert);
    let start = seq![AcceptorStepView::New, AcceptorStepView::SetCertificate(cert.chain[0])];
    let end = seq![
        AcceptorStepView::SetPrivateKey(cert.key_pem),
        AcceptorStepView::CheckPrivateKey,
    ];
    assert(in_order(start));
    assert(can_follow(chain_steps(cert.chain)));
    assert(can_follow(end));
    lemma_follows(start, chain_steps(cert.chain));
    lemma_follows(start + chain_steps(cert.chain), end);
    if let Some(o) = options {
        assert(can_follow(option_steps(o)));
        lemma_follows(first, option_steps(o));
        if let Some(auth) = o.client_auth {
            lemma_client_auth_follows(files, auth);
            if let Some(more) = client_auth_steps(files, auth) {
                lemma_follows(first + option_steps(o), more);
            }
        }
    }
}

proof fn lemma_plan_can_be_asked(
    files: Seq<CertificateFileView>,
    cert: CertKeyView,
    options: Option<TlsConfigView>,
)
    requires
        encode_utf8(cert.key_pem).len() <= MAX_PEM_BYTES,
        options matches Some(o) && o.ciphers matches Some(c) ==> !c.contains('\0'),
    ensures
        acceptor_plan(files, cert, options) matches Ok(steps) ==> forall|i: int|
            0 <= i < steps.len() ==> can_be_asked(#[trigger] steps[i]),
{
    let first = certificate_steps(cert);
    assert forall|i: int| 0 <= i < first.len() implies can_be_asked(#[trigger] first[i]) by {}
    if let Some(o) = options {
        let more = option_steps(o);
        assert forall|i: int| 0 <= i < more.len() implies can_be_asked(#[trigger] more[i]) by {}
        let second = first + more;
        assert forall|i: int| 0 <= i < second.len() implies can_be_asked(#[trigger] second[i]) by {
            if i >= first.len() {
                assert(second[i] == more[i - first.len()]);
            } else {
                assert(second[i] == first[i]);
            }
        }
        if let Some(auth) = o.client_auth {
            if let Some(last) = client_auth_steps(files, auth) {
                assert forall|i: int| 0 <= i < last.len() implies can_be_asked(#[trigger] last[i]) by {
                }
                let all = second + last;
                assert forall|i: int| 0 <= i < all.len() implies can_be_asked(#[trigger] all[i]) by {
                    if i >= second.len() {
                        assert(all[i] == last[i - second.len()]);
                    } else {
                        assert(all[i] == second[i]);
                    }
                }
            }
        }
    }
}

/// The steps so far, of a context and of a trust store in the making.
pub open spec fn progress(b: SslAcceptorBuilder, s: Option<X509StoreBuilder>) -> Seq<AcceptorStepView> {
    match s {
        Some(s) => steps_taken(b) + (seq![AcceptorStepView::NewTrustStore] + trust_steps(
            trusted_by(s),
        )),
        None => steps_taken(b),
    }
}

/// Take one more step. Whether a step succeeds is up to OpenSSL, but for two: to
/// ask clients for a certificate always does, and to give up never does, where the
/// error is the message of the step.
fn advance(b: SslAcceptorBuilder, s: Option<X509StoreBuilder>, step: &AcceptorStep) -> (r: Result<
    (SslAcceptorBuilder, Option<X509StoreBuilder>),
    String,
>)
    requires
        !(step.deep_view() is New),
        can_be_asked(step.deep_view()),
        s is Some <==> needs_store(step.deep_view()),
    ensures
        match r {
            Ok((c, t)) => {
                &&& progress(c, t) == progress(b, s).push(step.deep_view())
                &&& t is Some <==> opens_store(step.deep_view())
            },
            Err(_) => can_fail(step.deep_view()),
        },
        step.deep_view() matches AcceptorStepView::Refuse(m) ==> (r matches Err(e) && e@ == m),
{
    match step {
        AcceptorStep::New => Ok((b, s)),
        AcceptorStep::SetCertificate(c) => Ok((set_certificate(b, c)?, None)),
        AcceptorStep::AddChainCertificate(c) => Ok((add_chain_certificate(b, c)?, None)),
        AcceptorStep::SetPrivateKey(k) => Ok((set_private_key(b, k.as_str())?, None)),
        AcceptorStep::CheckPrivateKey => Ok((check_private_key(b)?, None)),
        AcceptorStep::MinVersion(v) => Ok((set_min_version(b, *v)?, None)),
        AcceptorStep::MaxVersion(v) => Ok((set_max_version(b, *v)?, None)),
        AcceptorStep::Ciphers(c) => Ok((set_ciphers(b, c.as_str())?, None)),
        AcceptorStep::NewTrustStore => {
            let t = new_trust_store()?;
            assert(progress(b, Some(t)) == progress(b, s).push(AcceptorStepView::NewTrustStore));
            Ok((b, Some(t)))
        },
        AcceptorStep::Trust(c) => match s {
            Some(s) => {
                let t = trust(s, c)?;
                assert(trust_steps(trusted_by(t)) == trust_steps(trusted_by(s)).push(
                    AcceptorStepView::Trust(c.deep_view()),
                ));
                assert(progress(b, Some(t)) == progress(b, Some(s)).push(
                    AcceptorStepView::Trust(c.deep_view()),
                ));
                Ok((b, Some(t)))
            },
            None => Ok((b, None)),
        },
        AcceptorStep::SetTrustStore => match s {
            Some(s) => {
                let c = set_trust_store(b, s)?;
                assert(progress(c, None) == progress(b, Some(s)).push(
                    AcceptorStepView::SetTrustStore,
                ));
                Ok((c, None))
            },
            None => Ok((b, None)),
        },
        AcceptorStep::VerifyClients(mode) => {
            let required = match mode {
                ClientAuthMode::Require => true,
                ClientAuthMode::Optional => false,
            };
            Ok((verify_clients(b, required), None))
        },
        AcceptorStep::Refuse(m) => Err(m.dup()),
    }
}

/// Whether a context has been taken through these steps.
pub open spec fn reached(steps: Seq<AcceptorStepView>) -> bool {
    exists|b: SslAcceptorBuilder, s: Option<X509StoreBuilder>| #[trigger] progress(b, s) == steps
}

/// Whether a message reports the failure of one of the steps of a plan that can
/// fail, and those before it were taken.
pub open spec fn reports_a_step(message: Seq<char>, steps: Seq<AcceptorStepView>) -> bool {
    exists|i: int, error: Seq<char>|
        0 <= i < steps.len() && can_fail(steps[i]) && (i > 0 ==> reached(steps.take(i)))
            && message == #[trigger] step_failure(steps[i], error)
}

fn take_steps(steps: &Vec<AcceptorStep>) -> (r: Result<SslAcceptor, String>)
    requires
        in_order(steps.deep_view()),
        forall|i: int|
            0 <= i < steps.deep_view().len() ==> can_be_asked(#[trigger] steps.deep_view()[i]),
    ensures
        match r {
            Ok(a) => steps_behind(a) == steps.deep_view() && !(steps.deep_view().last() is Refuse),
            Err(m) => reports_a_step(m@, steps.deep_view()),
        },
{
    let ghost plan = steps.deep_view();
    assert(plan[0] == steps@[0].deep_view());
    let mut b = match new_context() {
        Ok(b) => b,
        Err(e) => {
            let m = describe_failure(&steps[0], e.as_str());
            assert(m@ == step_failure(plan[0], e@));
            return Err(m);
        },
    };
    let mut s: Option<X509StoreBuilder> = None;
    let mut i: usize = 1;
    assert(plan.take(1) == seq![plan[0]]);
    while i < steps.len()
        invariant
            1 <= i <= steps@.len(),
            plan == steps.deep_view(),
            in_order(plan),
            forall|j: int| 0 <= j < plan.len() ==> can_be_asked(#[trigger] plan[j]),
            progress(b, s) == plan.take(i as int),
            s is Some <==> opens_store(plan[i - 1]),
            i > 1 ==> !(plan[i - 1] is Refuse),
        decreases steps@.len() - i,
    {
        assert(plan[i as int] == steps@[i as int].deep_view());
        assert(reached(plan.take(i as int)));
        match advance(b, s, &steps[i]) {
            Ok((c, t)) => {
                b = c;
                s = t;
            },
            Err(e) => {
                let m = describe_failure(&steps[i], e.as_str());
                assert(m@ == step_failure(plan[i as int], e@));
                return Err(m);
            },
        }
        assert(plan.take(i + 1) == plan.take(i as int).push(plan[i as int]));
        i += 1;
    }
    assert(plan.take(i as int) == plan);
    Ok(finish_context(b))
}

/// A prebuilt server context for one listener.
pub struct TlsAcceptor {
    pub acceptor: SslAcceptor,
}

impl TlsAcceptor {
    /// Build the server context of a listener from its certificate and TLS
    /// options, by the steps of the plan. A CA file of which nothing is known yet
    /// has to be read first. Whether OpenSSL takes a step depends on its version;
    /// when it refuses one, the failure of that step is reported.
    pub fn new(files: &Vec<CertificateFile>, cert: &CertKey, options: Option<&TlsConfig>) -> (r:
        Result<TlsAcceptor, Fault>)
        requires
            cert.chain@.len() > 0,
            encode_utf8(cert.key_pem@).len() <= MAX_PEM_BYTES,
            options matches Some(o) && o.ciphers matches Some(c) ==> !c@.contains('\0'),
        ensures
            ({
                let plan = acceptor_plan(
                    files.deep_view(),
                    cert.deep_view(),
                    match options {
                        Some(o) => Some(o.deep_view()),
                        None => None,
                    },
                );
                match r {
                    Ok(a) => plan matches Ok(steps) && steps_behind(a.acceptor) == steps
                        && !(steps.last() is Refuse),
                    Err(Fault::Message(m)) => plan matches Ok(steps) && reports_a_step(m@, steps),
                    Err(Fault::NeedsCertificate { path }) => plan == Err::<
                        Seq<AcceptorStepView>,
                        Seq<char>,
                    >(path@),
                    Err(_) => false,
                }
            }),
    {
        let ghost o = match options {
            Some(o) => Some(o.deep_view()),
            None => None,
        };
        let steps = match plan_acceptor(files, cert, options) {
            Ok(steps) => steps,
            Err(path) => {
                return Err(Fault::NeedsCertificate { path });
            },
        };
        proof {
            lemma_plan_is_in_order(files.deep_view(), cert.deep_view(), o);
            lemma_plan_can_be_asked(files.deep_view(), cert.deep_view(), o);
        }
        match take_steps(&steps) {
            Ok(acceptor) => Ok(TlsAcceptor { acceptor }),
            Err(m) => Err(Fault::Message(m)),
        }
    }
}

/// How a handshake ended.
pub enum HandshakeEvent<'a> {
    Done,
    Failed(&'a str),
    TimedOut,
}

/// What a handshake gives: nothing to report, or why the connection is closed.
pub fn handshake_result(event: HandshakeEvent<'_>) -> (r: Result<(), String>)
    ensures
        match event {
            HandshakeEvent::Done => r is Ok,
            HandshakeEvent::Failed(e) => r matches Err(m) && m@ == "TLS handshake failed: "@ + e@,
            HandshakeEvent::TimedOut => r matches Err(m) && m@ == "TLS handshake timed out"@,
        },
{
    match event {
        HandshakeEvent::Done => Ok(()),
        HandshakeEvent::Failed(e) => Err(cat2("TLS handshake failed: ", e)),
        HandshakeEvent::TimedOut => Err(owned("TLS handshake timed out")),
    }
}

/// An acceptor is made from all of its settings: its certificate and the rest of
/// the chain in their order, the key, which has to fit, and then each version
/// bound and cipher list that is set, and none that is not.
pub proof fn acceptors_take_every_setting(
    files: Seq<CertificateFileView>,
    cert: CertKeyView,
    options: TlsConfigView,
    steps: Seq<AcceptorStepView>,
)
    requires
        cert.chain.len() > 0,
        acceptor_plan(files, cert, Some(options)) == Ok::<Seq<AcceptorStepView>, Seq<char>>(steps),
    ensures
        steps.len() >= cert.chain.len() + 3,
        steps[0] is New,
        steps[1] == AcceptorStepView::SetCertificate(cert.chain[0]),
        forall|i: int|
            1 <= i < cert.chain.len() ==> #[trigger] steps[i + 1]
                == AcceptorStepView::AddChainCertificate(cert.chain[i]),
        steps[cert.chain.len() as int + 1] == AcceptorStepView::SetPrivateKey(cert.key_pem),
        steps[cert.chain.len() as int + 2] is CheckPrivateKey,
        forall|v: TlsVersion| #[trigger]
            steps.contains(AcceptorStepView::MinVersion(v)) <==> options.min_version == Some(v),
        forall|v: TlsVersion| #[trigger]
            steps.contains(AcceptorStepView::MaxVersion(v)) <==> options.max_version == Some(v),
        forall|c: Seq<char>| #[trigger]
            steps.contains(AcceptorStepView::Ciphers(c)) <==> options.ciphers == Some(c),
        options.client_auth is None ==> forall|i: int|
            0 <= i < steps.len() ==> !((#[trigger] steps[i]) is VerifyClients) && !(
            steps[i] is Refuse),
{
    let n = cert.chain.len() as int;
    let first = certificate_steps(cert);
    assert(first.len() == n + 3);
    assert forall|i: int| 1 <= i < n implies #[trigger] first[i + 1]
        == AcceptorStepView::AddChainCertificate(cert.chain[i]) by {
        assert(first[i + 1] == chain_steps(cert.chain)[i - 1]);
    }
    let low = optional_step(options.min_version, |v: TlsVersion| AcceptorStepView::MinVersion(v));
    let high = optional_step(options.max_version, |v: TlsVersion| AcceptorStepView::MaxVersion(v));
    let list = optional_step(options.ciphers, |c: Seq<char>| AcceptorStepView::Ciphers(c));
    let own = option_steps(options);
    assert(own == low + high + list);
    let more = match options.client_auth {
        None => Seq::<AcceptorStepView>::empty(),
        Some(auth) => client_auth_steps(files, auth)->0,
    };
    assert(steps == first + own + more);
    assert forall|i: int| 0 <= i < first.len() implies steps[i] == first[i] by {}
    lemma_certificate_steps(cert);
    lemma_auth_steps(files, options);
    let k = first.len() as int;
    assert forall|v: TlsVersion| #[trigger]
        steps.contains(AcceptorStepView::MinVersion(v)) <==> options.min_version == Some(v) by {
        if options.min_version == Some(v) {
            assert(low[0] == AcceptorStepView::MinVersion(v));
            assert(steps[k] == low[0]);
        }
    }
    assert forall|v: TlsVersion| #[trigger]
        steps.contains(AcceptorStepView::MaxVersion(v)) <==> options.max_version == Some(v) by {
        if options.max_version == Some(v) {
            assert(high[0] == AcceptorStepView::MaxVersion(v));
            assert(steps[k + low.len()] == high[0]);
        }
    }
    assert forall|c: Seq<char>| #[trigger]
        steps.contains(AcceptorStepView::Ciphers(c)) <==> options.ciphers == Some(c) by {
        if options.ciphers == Some(c) {
            assert(list[0] == AcceptorStepView::Ciphers(c));
            assert(steps[k + low.len() + high.len()] == list[0]);
        }
    }
}

/// Whether a step comes from the settings of a listener or of its clients.
spec fn is_setting(step: AcceptorStepView) -> bool {
    step is MinVersion || step is MaxVersion || step is Ciphers
}

proof fn lemma_certificate_steps(cert: CertKeyView)
    requires
        cert.chain.len() > 0,
    ensures
        forall|i: int|
            0 <= i < certificate_steps(cert).len() ==> !is_setting(
                #[trigger] certificate_steps(cert)[i],
            ) && !(certificate_steps(cert)[i] is VerifyClients) && !(
            certificate_steps(cert)[i] is Refuse),
{
    let first = certificate_steps(cert);
    let n = cert.chain.len() as int;
    assert forall|i: int| 0 <= i < first.len() implies !is_setting(#[trigger] first[i]) && !(
    first[i] is VerifyClients) && !(first[i] is Refuse) by {
        if 2 <= i < n + 1 {
            assert(first[i] == chain_steps(cert.chain)[i - 2]);
        }
    }
}

proof fn lemma_auth_steps(files: Seq<CertificateFileView>, options: TlsConfigView)
    ensures
        options.client_auth is Some && client_auth_steps(files, options.client_auth->0) is Some
            ==> forall|i: int|
            0 <= i < client_auth_steps(files, options.client_auth->0)->0.len() ==> !is_setting(
                #[trigger] client_auth_steps(files, options.client_auth->0)->0[i],
            ),
{
    if options.client_auth is Some {
        let auth = options.client_auth->0;
        if let Some(more) = client_auth_steps(files, auth) {
            if let Some(CertificateOutcomeView::Read { certificates }) = certificate_answer(
                files,
                auth.ca_file,
            ) {
                if certificates.len() > 0 {
                    let trust = trust_steps(certificates);
                    assert forall|i: int| 0 <= i < more.len() implies !is_setting(
                        #[trigger] more[i],
                    ) by {
                        if 1 <= i < trust.len() + 1 {
                            assert(more[i] == trust[i - 1]);
                        }
                    }
                }
            }
        }
    }
}

} // verus!
