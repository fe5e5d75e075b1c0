use raddex::layer4::tls::{
    continue_inspection, parse_client_hello_sni, start_inspection, HelloState, InspectOutcome,
    ParseOutcome, ReadEvent, MAX_CLIENT_HELLO_BYTES,
};

/// Build a well-formed ClientHello carrying the given SNI (empty = no
/// `server_name` extension).
fn client_hello(sni: Option<&str>, extra_ext: bool) -> Vec<u8> {
    let mut hello = Vec::new();
    // client_version TLS 1.2 (0x0303)
    hello.extend_from_slice(&[0x03, 0x03]);
    // random (32 zero bytes)
    hello.extend_from_slice(&[0u8; 32]);
    // session_id: empty
    hello.push(0);
    // cipher_suites: one suite
    hello.extend_from_slice(&[0x00, 0x02, 0x13, 0x01]);
    // compression: null
    hello.push(1);
    hello.push(0);
    // extensions
    let mut exts = Vec::new();
    if let Some(name) = sni {
        // server_name extension (type 0x0000): payload = 2-byte list
        // length + entries (type, 2-byte length, name).
        let name_bytes = name.as_bytes();
        let mut list = Vec::new();
        list.push(0); // host_name
        list.extend_from_slice(&(name_bytes.len() as u16).to_be_bytes());
        list.extend_from_slice(name_bytes);
        let mut payload = Vec::new();
        payload.extend_from_slice(&(list.len() as u16).to_be_bytes());
        payload.extend_from_slice(&list);
        exts.extend_from_slice(&[0x00, 0x00]);
        exts.extend_from_slice(&(payload.len() as u16).to_be_bytes());
        exts.extend_from_slice(&payload);
    }
    if extra_ext {
        // a harmless supported_versions extension to skip past
        exts.extend_from_slice(&[0x00, 0x2b, 0x00, 0x02, 0x03, 0x04]);
    }
    hello.extend_from_slice(&(exts.len() as u16).to_be_bytes());
    hello.extend_from_slice(&exts);

    // Handshake header: ClientHello (0x01) + 3-byte length.
    let mut msg = vec![0x01];
    let len = hello.len();
    msg.extend_from_slice(&[
        ((len >> 16) & 0xff) as u8,
        ((len >> 8) & 0xff) as u8,
        (len & 0xff) as u8,
    ]);
    msg.extend_from_slice(&hello);

    // TLS record: handshake (0x16) + version + 2-byte length.
    let mut rec = vec![0x16, 0x03, 0x01];
    rec.extend_from_slice(&(msg.len() as u16).to_be_bytes());
    rec.extend_from_slice(&msg);
    rec
}

#[test]
fn extracts_sni() {
    let ch = client_hello(Some("Api.Example.COM"), true);
    assert_eq!(
        parse_client_hello_sni(&ch),
        ParseOutcome::Sni("api.example.com".to_string())
    );
}

#[test]
fn no_sni_extension() {
    let ch = client_hello(None, true);
    assert_eq!(parse_client_hello_sni(&ch), ParseOutcome::NoSni);
}

#[test]
fn fragmented_client_hello_accumulates() {
    // The parser returns NeedMore until enough bytes; a single fragmented
    // input must eventually yield the SNI. Feed it in two halves.
    let ch = client_hello(Some("example.com"), false);
    let half = ch.len() / 2;
    assert_eq!(
        parse_client_hello_sni(&ch[..half]),
        ParseOutcome::NeedMore,
        "a partial ClientHello needs more bytes"
    );
    assert_eq!(
        parse_client_hello_sni(&ch),
        ParseOutcome::Sni("example.com".to_string())
    );
}

#[test]
fn rejects_non_handshake_and_truncated() {
    assert_eq!(
        parse_client_hello_sni(b"GET / HTTP/1.1"),
        ParseOutcome::Malformed
    );
    assert_eq!(
        parse_client_hello_sni(&[0x16, 0x03, 0x01]),
        ParseOutcome::NeedMore
    );
    // Not a ClientHello message type.
    let mut ch = client_hello(Some("example.com"), false);
    ch[5] = 0x02;
    assert_eq!(parse_client_hello_sni(&ch), ParseOutcome::Malformed);
}

#[test]
fn oversize_is_rejected() {
    // A huge (malicious) declared ClientHello length must be Malformed,
    // not silently buffered.
    let mut buf = vec![0x16, 0x03, 0x01, 0xff, 0xff];
    buf.extend_from_slice(&[0x01, 0xff, 0xff, 0xff]);
    assert_eq!(parse_client_hello_sni(&buf), ParseOutcome::Malformed);
}

#[test]
fn later_bytes_do_not_change_the_outcome() {
    let mut ch = client_hello(Some("example.com"), true);
    let outcome = parse_client_hello_sni(&ch);
    ch.extend_from_slice(&[0xab; 100]);
    assert_eq!(parse_client_hello_sni(&ch), outcome);
    assert_eq!(outcome, ParseOutcome::Sni("example.com".to_string()));
}

#[test]
fn every_proper_prefix_needs_more_bytes() {
    let ch = client_hello(Some("example.com"), true);
    for n in 0..ch.len() {
        assert_eq!(parse_client_hello_sni(&ch[..n]), ParseOutcome::NeedMore);
    }
}

#[test]
fn inspection_hands_on_every_byte_it_read() {
    let ch = client_hello(Some("example.com"), false);
    let mut state = start_inspection(MAX_CLIENT_HELLO_BYTES);
    for byte in &ch {
        state = match state {
            HelloState::Waiting(buf) => continue_inspection(
                buf,
                ReadEvent::Data(vec![*byte]),
                MAX_CLIENT_HELLO_BYTES,
            ),
            done => done,
        };
    }
    assert_eq!(
        state,
        HelloState::Done(InspectOutcome::Sni {
            name: "example.com".to_string(),
            prefix: ch,
        })
    );
}

#[test]
fn inspection_gives_up_at_the_bound_and_at_the_end() {
    let ch = client_hello(Some("example.com"), false);
    let part = ch[..20].to_vec();
    assert_eq!(
        continue_inspection(Vec::new(), ReadEvent::Data(part.clone()), 20),
        HelloState::Done(InspectOutcome::Malformed {
            prefix: part.clone()
        })
    );
    assert_eq!(
        continue_inspection(part.clone(), ReadEvent::Ended, MAX_CLIENT_HELLO_BYTES),
        HelloState::Done(InspectOutcome::Malformed { prefix: part })
    );
}

/// The handshake message of a ClientHello without its record.
fn message(sni: Option<&str>) -> Vec<u8> {
    client_hello(sni, true)[5..].to_vec()
}

/// A handshake record.
fn record(payload: &[u8]) -> Vec<u8> {
    let mut rec = vec![0x16, 0x03, 0x01];
    rec.extend_from_slice(&(payload.len() as u16).to_be_bytes());
    rec.extend_from_slice(payload);
    rec
}

#[test]
fn fragmented_records_are_joined() {
    let msg = message(Some("example.com"));
    let outcome = ParseOutcome::Sni("example.com".to_string());
    assert_eq!(parse_client_hello_sni(&record(&msg)), outcome);
    for k in 4..msg.len() {
        let mut split = record(&msg[..k]);
        split.extend_from_slice(&record(&msg[k..]));
        assert_eq!(parse_client_hello_sni(&split), outcome, "split at {k}");
        assert_eq!(
            parse_client_hello_sni(&split[..split.len() - 1]),
            ParseOutcome::NeedMore
        );
    }
}

#[test]
fn another_record_inside_a_message_is_malformed() {
    let msg = message(Some("example.com"));
    let mut split = record(&msg[..20]);
    let mut other = record(&msg[20..]);
    other[0] = 0x17;
    split.extend_from_slice(&other);
    assert_eq!(parse_client_hello_sni(&split), ParseOutcome::Malformed);
}

#[test]
fn a_message_over_the_bound_is_malformed_though_it_is_there() {
    let mut buf = vec![0x16, 0x03, 0x01, 0xff, 0xff, 0x01, 0x01, 0x00, 0x00];
    buf.resize(9 + 65536, 0);
    assert_eq!(parse_client_hello_sni(&buf), ParseOutcome::Malformed);
}
