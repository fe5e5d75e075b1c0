use openssl::asn1::Asn1Time;
use openssl::hash::MessageDigest;
use openssl::pkey::PKey;
use openssl::rsa::Rsa;
use openssl::ssl::{Ssl, SslConnector, SslMethod, SslStream, SslVerifyMode, SslVersion};
use openssl::x509::{X509Builder, X509NameBuilder};
use raddex::config::answers::{Answers, CertificateOutcome, Fault, KeyOutcome};
use raddex::config::ast::{ClientAuth, ClientAuthMode, TlsConfig, TlsVersion};
use raddex::config::compiled::{CertKey, Certificate};
use raddex::layer4::tls_accept::{
    describe_failure, handshake_result, plan_acceptor, AcceptorStep, HandshakeEvent, TlsAcceptor,
};
use std::cell::RefCell;
use std::collections::VecDeque;
use std::io::{Read, Write};
use std::rc::Rc;

/// A self-signed certificate for `localhost`, in DER and PEM, and its key in PEM.
fn certificate() -> (Vec<u8>, String, String) {
    let key = PKey::from_rsa(Rsa::generate(2048).unwrap()).unwrap();
    let mut name = X509NameBuilder::new().unwrap();
    name.append_entry_by_text("CN", "localhost").unwrap();
    let name = name.build();
    let mut b = X509Builder::new().unwrap();
    b.set_version(2).unwrap();
    b.set_subject_name(&name).unwrap();
    b.set_issuer_name(&name).unwrap();
    b.set_pubkey(&key).unwrap();
    b.set_not_before(&Asn1Time::days_from_now(0).unwrap()).unwrap();
    b.set_not_after(&Asn1Time::days_from_now(30).unwrap()).unwrap();
    b.sign(&key, MessageDigest::sha256()).unwrap();
    let cert = b.build();
    (
        cert.to_der().unwrap(),
        String::from_utf8(cert.to_pem().unwrap()).unwrap(),
        String::from_utf8(key.private_key_to_pem_pkcs8().unwrap()).unwrap(),
    )
}

fn internal_cert() -> CertKey {
    let (der, _, key_pem) = certificate();
    CertKey {
        chain: vec![Certificate { der }],
        key_pem,
    }
}

fn message(r: Result<TlsAcceptor, Fault>) -> String {
    match r {
        Err(Fault::Message(m)) => m,
        Err(_) => panic!("something is missing"),
        Ok(_) => panic!("an acceptor"),
    }
}

fn built(cert: &CertKey, options: &TlsConfig, answers: &Answers) -> TlsAcceptor {
    match TlsAcceptor::new(&answers.certificates, cert, Some(options)) {
        Ok(a) => a,
        Err(Fault::Message(m)) => panic!("{m}"),
        Err(_) => panic!("something is missing"),
    }
}

#[test]
fn builds_an_acceptor_for_an_internal_certificate() {
    assert!(TlsAcceptor::new(&Vec::new(), &internal_cert(), None).is_ok());
}

#[test]
fn applies_min_and_max_version() {
    let options = TlsConfig {
        min_version: Some(TlsVersion::Tls13),
        ..Default::default()
    };
    assert!(TlsAcceptor::new(&Vec::new(), &internal_cert(), Some(&options)).is_ok());
}

#[test]
fn context_has_the_certificate_it_was_given() {
    let cert = internal_cert();
    let options = TlsConfig {
        min_version: Some(TlsVersion::Tls12),
        max_version: Some(TlsVersion::Tls13),
        ciphers: Some("ECDHE-RSA-AES128-GCM-SHA256".to_string()),
        ..Default::default()
    };
    let a = built(&cert, &options, &Answers::none());
    let context = a.acceptor.context();
    assert_eq!(context.certificate().unwrap().to_der().unwrap(), cert.chain[0].der);
    assert!(context.private_key().is_some());
    assert_eq!(context.verify_mode(), SslVerifyMode::NONE);
}

#[test]
fn intermediates_go_into_the_chain() {
    let mut cert = internal_cert();
    cert.chain.push(Certificate {
        der: certificate().0,
    });
    let a = built(&cert, &TlsConfig::default(), &Answers::none());
    let chain = a.acceptor.context().extra_chain_certs();
    assert_eq!(chain.len(), 1);
    assert_eq!(chain[0].to_der().unwrap(), cert.chain[1].der);
}

/// One end of a connection in memory.
struct End {
    incoming: Rc<RefCell<VecDeque<u8>>>,
    outgoing: Rc<RefCell<VecDeque<u8>>>,
}

impl Read for End {
    fn read(&mut self, buf: &mut [u8]) -> std::io::Result<usize> {
        let mut bytes = self.incoming.borrow_mut();
        if bytes.is_empty() {
            return Err(std::io::ErrorKind::WouldBlock.into());
        }
        bytes.read(buf)
    }
}

impl Write for End {
    fn write(&mut self, buf: &[u8]) -> std::io::Result<usize> {
        self.outgoing.borrow_mut().extend(buf);
        Ok(buf.len())
    }

    fn flush(&mut self) -> std::io::Result<()> {
        Ok(())
    }
}

/// Shake hands with a client that speaks no version above `max`; the version and
/// the cipher that were agreed on.
fn handshake(acceptor: &TlsAcceptor, max: SslVersion) -> Option<(String, String)> {
    let (a, b) = (Rc::default(), Rc::default());
    let server_end = End {
        incoming: Rc::clone(&a),
        outgoing: Rc::clone(&b),
    };
    let client_end = End {
        incoming: b,
        outgoing: a,
    };
    let mut client = SslConnector::builder(SslMethod::tls()).unwrap();
    client.set_verify(SslVerifyMode::NONE);
    client.set_max_proto_version(Some(max)).unwrap();
    let client = client.build().configure().unwrap().into_ssl("localhost").unwrap();
    let mut client = SslStream::new(client, client_end).unwrap();
    let server = Ssl::new(acceptor.acceptor.context()).unwrap();
    let mut server = SslStream::new(server, server_end).unwrap();
    for _ in 0..10 {
        let connected = client.connect().is_ok();
        if server.accept().is_ok() && connected {
            let cipher = server.ssl().current_cipher().unwrap().name();
            return Some((server.ssl().version_str().to_string(), cipher.to_string()));
        }
    }
    None
}

#[test]
fn versions_and_ciphers_reach_the_handshake() {
    let old = TlsConfig {
        max_version: Some(TlsVersion::Tls12),
        ciphers: Some("ECDHE-RSA-AES256-GCM-SHA384".to_string()),
        ..Default::default()
    };
    let a = built(&internal_cert(), &old, &Answers::none());
    let (version, cipher) = handshake(&a, SslVersion::TLS1_3).expect("a handshake");
    assert_eq!(version, "TLSv1.2");
    assert_eq!(cipher, "ECDHE-RSA-AES256-GCM-SHA384");
    let new = TlsConfig {
        min_version: Some(TlsVersion::Tls13),
        ..Default::default()
    };
    let a = built(&internal_cert(), &new, &Answers::none());
    let (version, _) = handshake(&a, SslVersion::TLS1_3).expect("a handshake");
    assert_eq!(version, "TLSv1.3");
    assert_eq!(handshake(&a, SslVersion::TLS1_2), None);
}

#[test]
fn clients_without_a_required_certificate_are_refused() {
    let mut answers = Answers::none();
    answers.add_certificate_file("/definitely/missing/ca.pem", certificate().1.as_bytes());
    let a = built(&internal_cert(), &client_auth(ClientAuthMode::Require), &answers);
    assert_eq!(handshake(&a, SslVersion::TLS1_2), None);
    let a = built(&internal_cert(), &client_auth(ClientAuthMode::Optional), &answers);
    assert!(handshake(&a, SslVersion::TLS1_2).is_some());
}

#[test]
fn rejects_an_invalid_cipher_list_at_build_time() {
    // A typo in `ciphers` must fail startup, not every handshake.
    let options = TlsConfig {
        ciphers: Some("NOT-A-REAL-CIPHER".to_string()),
        ..Default::default()
    };
    let error = message(TlsAcceptor::new(&Vec::new(), &internal_cert(), Some(&options)));
    assert!(error.contains("ciphers"), "got: {error}");
}

#[test]
fn rejects_a_key_of_another_certificate() {
    let mut cert = internal_cert();
    cert.key_pem = certificate().2;
    let error = message(TlsAcceptor::new(&Vec::new(), &cert, None));
    assert!(
        error.starts_with("set TCP TLS private key: ")
            || error.starts_with("TCP TLS certificate and key do not match: "),
        "got: {error}"
    );
}

#[test]
fn rejects_what_is_no_certificate() {
    let mut cert = internal_cert();
    cert.chain[0].der = vec![1, 2, 3];
    let error = message(TlsAcceptor::new(&Vec::new(), &cert, None));
    assert!(error.starts_with("set TCP TLS certificate: "), "got: {error}");
}

fn client_auth(mode: ClientAuthMode) -> TlsConfig {
    TlsConfig {
        client_auth: Some(ClientAuth {
            mode,
            ca_file: "/definitely/missing/ca.pem".to_string(),
        }),
        ..Default::default()
    }
}

#[test]
fn client_auth_fails_closed_on_a_missing_ca_file() {
    let options = client_auth(ClientAuthMode::Require);
    let mut answers = Answers::none();
    answers.add_unreadable_certificate(
        "/definitely/missing/ca.pem",
        "No such file or directory (os error 2)",
    );
    let error = message(TlsAcceptor::new(
        &answers.certificates,
        &internal_cert(),
        Some(&options),
    ));
    assert!(error.contains("client_auth CA"), "got: {error}");
}

#[test]
fn a_ca_file_has_to_be_read_first() {
    let options = client_auth(ClientAuthMode::Require);
    assert!(matches!(
        TlsAcceptor::new(&Vec::new(), &internal_cert(), Some(&options)),
        Err(Fault::NeedsCertificate { path }) if path == "/definitely/missing/ca.pem"
    ));
}

#[test]
fn a_ca_file_without_certificates_is_refused() {
    let options = client_auth(ClientAuthMode::Require);
    let mut answers = Answers::none();
    answers.add_certificate_file("/definitely/missing/ca.pem", b"");
    let error = message(TlsAcceptor::new(
        &answers.certificates,
        &internal_cert(),
        Some(&options),
    ));
    assert_eq!(
        error,
        "client_auth CA /definitely/missing/ca.pem contains no certificates"
    );
}

#[test]
fn a_ca_file_may_hold_any_bytes_around_its_certificates() {
    let mut bytes = vec![0xff, 0xfe, b'\n'];
    bytes.extend_from_slice(certificate().1.as_bytes());
    let mut answers = Answers::none();
    answers.add_certificate_file("/definitely/missing/ca.pem", &bytes);
    assert!(matches!(
        &answers.certificates[0].outcome,
        CertificateOutcome::Read { certificates } if certificates.len() == 1
    ));
    let a = built(&internal_cert(), &client_auth(ClientAuthMode::Optional), &answers);
    assert_eq!(a.acceptor.context().verify_mode(), SslVerifyMode::PEER);
}

#[test]
fn what_is_no_pem_is_invalid() {
    let mut answers = Answers::none();
    let broken = "-----BEGIN CERTIFICATE-----\n!\n-----END CERTIFICATE-----\n";
    answers.add_certificate_file("/broken.pem", broken.as_bytes());
    answers.add_key_file("/broken.key", "no key");
    assert!(matches!(answers.certificates[0].outcome, CertificateOutcome::Invalid { .. }));
    assert!(matches!(answers.keys[0].outcome, KeyOutcome::Invalid { .. }));
}

#[test]
fn clients_are_verified_in_the_mode_asked_for() {
    let mut answers = Answers::none();
    answers.add_certificate_file("/definitely/missing/ca.pem", certificate().1.as_bytes());
    let a = built(&internal_cert(), &client_auth(ClientAuthMode::Require), &answers);
    assert_eq!(
        a.acceptor.context().verify_mode(),
        SslVerifyMode::PEER | SslVerifyMode::FAIL_IF_NO_PEER_CERT
    );
    let a = built(&internal_cert(), &client_auth(ClientAuthMode::Optional), &answers);
    assert_eq!(a.acceptor.context().verify_mode(), SslVerifyMode::PEER);
}

#[test]
fn plan_ends_with_the_verification_of_clients() {
    let mut answers = Answers::none();
    answers.add_certificate_file("/definitely/missing/ca.pem", certificate().1.as_bytes());
    let cert = internal_cert();
    let steps = plan_acceptor(
        &answers.certificates,
        &cert,
        Some(&client_auth(ClientAuthMode::Require)),
    )
    .unwrap();
    assert!(matches!(
        steps.as_slice(),
        [
            AcceptorStep::New,
            AcceptorStep::SetCertificate(_),
            AcceptorStep::SetPrivateKey(_),
            AcceptorStep::CheckPrivateKey,
            AcceptorStep::NewTrustStore,
            AcceptorStep::Trust(_),
            AcceptorStep::SetTrustStore,
            AcceptorStep::VerifyClients(ClientAuthMode::Require),
        ]
    ));
}

#[test]
fn every_step_has_its_message() {
    let text = |s: AcceptorStep| describe_failure(&s, "boom");
    let c = || Certificate { der: vec![] };
    assert_eq!(text(AcceptorStep::New), "build TLS acceptor: boom");
    assert_eq!(text(AcceptorStep::SetCertificate(c())), "set TCP TLS certificate: boom");
    assert_eq!(
        text(AcceptorStep::AddChainCertificate(c())),
        "add TCP TLS chain certificate: boom"
    );
    assert_eq!(text(AcceptorStep::SetPrivateKey("k".into())), "set TCP TLS private key: boom");
    assert_eq!(
        text(AcceptorStep::CheckPrivateKey),
        "TCP TLS certificate and key do not match: boom"
    );
    assert_eq!(text(AcceptorStep::MinVersion(TlsVersion::Tls12)), "set TLS min_version: boom");
    assert_eq!(text(AcceptorStep::MaxVersion(TlsVersion::Tls13)), "set TLS max_version: boom");
    assert_eq!(text(AcceptorStep::Ciphers("X".into())), "invalid tls ciphers 'X': boom");
    assert_eq!(text(AcceptorStep::NewTrustStore), "build CA store: boom");
    assert_eq!(text(AcceptorStep::Trust(c())), "add client_auth CA certificate: boom");
    assert_eq!(text(AcceptorStep::SetTrustStore), "set client_auth trust store: boom");
    assert_eq!(text(AcceptorStep::Refuse("no".into())), "no");
}

#[test]
fn handshakes_are_reported() {
    assert_eq!(handshake_result(HandshakeEvent::Done), Ok(()));
    assert_eq!(
        handshake_result(HandshakeEvent::Failed("bad")),
        Err("TLS handshake failed: bad".to_string())
    );
    assert_eq!(
        handshake_result(HandshakeEvent::TimedOut),
        Err("TLS handshake timed out".to_string())
    );
}
