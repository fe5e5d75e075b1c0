//! The server name in a TLS ClientHello.
//!
//! A bounded prefix of a client's stream is inspected until a complete
//! ClientHello is there. The bytes are only read, never rebuilt: what is
//! forwarded is exactly what the client sent.
use crate::text::{lowered, to_lower};
use vstd::prelude::*;
use vstd::utf8::{decode_utf8, valid_utf8};

verus! {

/// Upper bound on the inspected prefix. An input that needs more is oversized.
pub const MAX_CLIENT_HELLO_BYTES: usize = 65536;

/// How long one read of a ClientHello may take, in seconds.
pub const CLIENT_HELLO_READ_TIMEOUT_SECS: u64 = 5;

/// The result of parsing a byte buffer as a ClientHello prefix.
#[derive(PartialEq, Eq, Debug)]
pub enum ParseOutcome {
    /// A complete ClientHello; this is its server name, in lower case.
    Sni(String),
    /// A complete ClientHello without a server name.
    NoSni,
    /// Not yet a complete ClientHello.
    NeedMore,
    /// Not a well-formed ClientHello, or one over the bound.
    Malformed,
}

/// The outcome of reading and inspecting a client's TLS prefix.
#[derive(PartialEq, Eq, Debug)]
pub enum InspectOutcome {
    /// The server name; `prefix` is the exact bytes to forward.
    Sni { name: String, prefix: Vec<u8> },
    /// A complete ClientHello without a server name.
    NoSni { prefix: Vec<u8> },
    /// Malformed, oversized, cut off, or too slow. `prefix` is whatever was
    /// read.
    Malformed { prefix: Vec<u8> },
}

/// The model of [`ParseOutcome`].
pub ghost enum ParseOutcomeView {
    Sni(Seq<char>),
    NoSni,
    NeedMore,
    Malformed,
}

impl DeepView for ParseOutcome {
    type V = ParseOutcomeView;

    open spec fn deep_view(&self) -> ParseOutcomeView {
        match self {
            ParseOutcome::Sni(name) => ParseOutcomeView::Sni(name@),
            ParseOutcome::NoSni => ParseOutcomeView::NoSni,
            ParseOutcome::NeedMore => ParseOutcomeView::NeedMore,
            ParseOutcome::Malformed => ParseOutcomeView::Malformed,
        }
    }
}

// ---------------------------------------------------------------------------
// The layout of a ClientHello
// ---------------------------------------------------------------------------

/// The big-endian number in the two bytes at `i`.
pub open spec fn be16(s: Seq<u8>, i: int) -> int {
    s[i] * 256 + s[i + 1]
}

/// The big-endian number in the three bytes at `i`.
pub open spec fn be24(s: Seq<u8>, i: int) -> int {
    s[i] * 65536 + s[i + 1] * 256 + s[i + 2]
}

/// Where the field at `i` ends that starts with its length in one byte, when it
/// lies within `s`.
pub open spec fn after8(s: Seq<u8>, i: int) -> Option<int> {
    if i + 1 <= s.len() && i + 1 + s[i] <= s.len() {
        Some(i + 1 + s[i])
    } else {
        None
    }
}

/// Where the field at `i` ends that starts with its length in two bytes, when it
/// lies within `s`.
pub open spec fn after16(s: Seq<u8>, i: int) -> Option<int> {
    if i + 2 <= s.len() && i + 2 + be16(s, i) <= s.len() {
        Some(i + 2 + be16(s, i))
    } else {
        None
    }
}

/// The first host name in the entries of a server-name list from `i` on. An
/// entry is a type, a length and the name; only type zero is a host name.
pub open spec fn name_entries(list: Seq<u8>, i: int) -> ParseOutcomeView
    decreases list.len() - i,
{
    if i < 0 || i + 3 > list.len() {
        ParseOutcomeView::NoSni
    } else {
        let len = be16(list, i + 1);
        if i + 3 + len > list.len() {
            ParseOutcomeView::Malformed
        } else if list[i] == 0 {
            let name = list.subrange(i + 3, i + 3 + len);
            if valid_utf8(name) {
                ParseOutcomeView::Sni(lowered(decode_utf8(name)))
            } else {
                ParseOutcomeView::Malformed
            }
        } else {
            name_entries(list, i + 3 + len)
        }
    }
}

/// The server name in a `server_name` extension: a list behind its length.
pub open spec fn server_name(data: Seq<u8>) -> ParseOutcomeView {
    match after16(data, 0) {
        None => ParseOutcomeView::Malformed,
        Some(end) => name_entries(data.subrange(2, end), 0),
    }
}

/// The server name in the extensions of `h` between `i` and `end`. An extension
/// is a type, a length and its data; type zero is the server name.
pub open spec fn extensions(h: Seq<u8>, i: int, end: int) -> ParseOutcomeView
    decreases end - i,
{
    if i < 0 || i + 4 > end {
        ParseOutcomeView::NoSni
    } else {
        let len = be16(h, i + 2);
        if i + 4 + len > end {
            ParseOutcomeView::Malformed
        } else if be16(h, i) == 0 {
            server_name(h.subrange(i + 4, i + 4 + len))
        } else {
            extensions(h, i + 4 + len, end)
        }
    }
}

/// The server name in the body of a ClientHello: version and random, session
/// id, cipher suites, compression methods, extensions.
pub open spec fn hello_body(h: Seq<u8>) -> ParseOutcomeView {
    if h.len() < 34 {
        ParseOutcomeView::Malformed
    } else {
        match after8(h, 34) {
            None => ParseOutcomeView::Malformed,
            Some(a) => match after16(h, a) {
                None => ParseOutcomeView::Malformed,
                Some(b) => match after8(h, b) {
                    None => ParseOutcomeView::Malformed,
                    Some(c) => if c + 2 > h.len() {
                        ParseOutcomeView::NoSni
                    } else {
                        match after16(h, c) {
                            None => ParseOutcomeView::Malformed,
                            Some(end) => extensions(h, c + 2, end),
                        }
                    },
                },
            },
        }
    }
}

/// The payloads of the handshake records from `i` on, joined behind `done`, until
/// there are `want` bytes or the buffer ends; `None` when a record of another type
/// stands in between.
pub open spec fn joined_payloads(buf: Seq<u8>, i: int, want: int, done: Seq<u8>) -> Option<Seq<u8>>
    decreases buf.len() - i,
{
    if done.len() >= want || i < 0 || i + 5 > buf.len() {
        Some(done)
    } else if buf[i] != 0x16 {
        None
    } else {
        let end = i + 5 + be16(buf, i + 3);
        if end > buf.len() {
            Some(done + buf.skip(i + 5))
        } else {
            joined_payloads(buf, end, want, done + buf.subrange(i + 5, end))
        }
    }
}

/// The server name in a buffer that should start with a ClientHello: handshake
/// records, each with a header of five bytes, whose payloads joined are a message
/// header of four bytes and the body. The message header stands in the first
/// record.
pub open spec fn client_hello(buf: Seq<u8>) -> ParseOutcomeView {
    if buf.len() < 5 {
        ParseOutcomeView::NeedMore
    } else if buf[0] != 0x16 {
        ParseOutcomeView::Malformed
    } else if buf.len() < 9 {
        ParseOutcomeView::NeedMore
    } else if buf[5] != 0x01 {
        ParseOutcomeView::Malformed
    } else {
        let want = 4 + be24(buf, 6);
        if 5 + want > MAX_CLIENT_HELLO_BYTES {
            ParseOutcomeView::Malformed
        } else if buf.len() < 5 + want {
            ParseOutcomeView::NeedMore
        } else if be16(buf, 3) < 4 {
            ParseOutcomeView::Malformed
        } else {
            match joined_payloads(buf, 0, want, Seq::empty()) {
                None => ParseOutcomeView::Malformed,
                Some(m) => if m.len() >= want {
                    hello_body(m.subrange(4, want))
                } else if buf.len() >= MAX_CLIENT_HELLO_BYTES {
                    ParseOutcomeView::Malformed
                } else {
                    ParseOutcomeView::NeedMore
                },
            }
        }
    }
}

// ---------------------------------------------------------------------------
// Parsing
// ---------------------------------------------------------------------------

/// `String::from_utf8` gives the text of bytes that are valid UTF-8, and an
/// error otherwise.
#[verifier::external_body]
fn text_of(bytes: Vec<u8>) -> (r: Option<String>)
    ensures
        match r {
            Some(s) => valid_utf8(bytes@) && s@ == decode_utf8(bytes@),
            None => !valid_utf8(bytes@),
        },
{
    String::from_utf8(bytes).ok()
}

fn read16(s: &[u8], i: usize) -> (r: usize)
    requires
        i + 2 <= s@.len(),
    ensures
        r == be16(s@, i as int),
        r <= 65535,
{
    s[i] as usize * 256 + s[i + 1] as usize
}

fn end_of8(s: &[u8], i: usize) -> (r: Option<usize>)
    requires
        i <= s@.len(),
    ensures
        match r {
            Some(e) => after8(s@, i as int) == Some(e as int) && i < e <= s@.len(),
            None => after8(s@, i as int) is None,
        },
{
    let n: usize = s.len();
    if n - i < 1 {
        return None;
    }
    let len: usize = s[i] as usize;
    if n - i - 1 < len {
        return None;
    }
    Some(i + 1 + len)
}

fn end_of16(s: &[u8], i: usize) -> (r: Option<usize>)
    requires
        i <= s@.len(),
    ensures
        match r {
            Some(e) => after16(s@, i as int) == Some(e as int) && i + 2 <= e <= s@.len(),
            None => after16(s@, i as int) is None,
        },
{
    let n: usize = s.len();
    if n - i < 2 {
        return None;
    }
    let len: usize = read16(s, i);
    if n - i - 2 < len {
        return None;
    }
    Some(i + 2 + len)
}

fn bytes_of(s: &[u8], from: usize, to: usize) -> (r: Vec<u8>)
    requires
        from <= to <= s@.len(),
    ensures
        r@ == s@.subrange(from as int, to as int),
{
    let mut r: Vec<u8> = Vec::new();
    let mut i: usize = from;
    while i < to
        invariant
            from <= i <= to <= s@.len(),
            r@ == s@.subrange(from as int, i as int),
        decreases to - i,
    {
        r.push(s[i]);
        i += 1;
        assert(s@.subrange(from as int, i as int) == s@.subrange(from as int, i - 1).push(
            s@[i - 1],
        ));
    }
    r
}

fn parse_name_entries(list: &Vec<u8>) -> (r: ParseOutcome)
    ensures
        r.deep_view() == name_entries(list@, 0),
{
    let n: usize = list.len();
    let s = list.as_slice();
    let mut i: usize = 0;
    while n - i >= 3
        invariant
            n == list@.len(),
            s@ == list@,
            i <= n,
            name_entries(list@, 0) == name_entries(list@, i as int),
        decreases n - i,
    {
        let len: usize = read16(s, i + 1);
        if n - i - 3 < len {
            return ParseOutcome::Malformed;
        }
        if s[i] == 0 {
            let name = bytes_of(s, i + 3, i + 3 + len);
            return match text_of(name) {
                Some(t) => ParseOutcome::Sni(to_lower(t.as_str())),
                None => ParseOutcome::Malformed,
            };
        }
        i = i + 3 + len;
    }
    ParseOutcome::NoSni
}

/// Parse a `server_name` extension: a list behind its length, of which the
/// first host name counts.
fn parse_server_name(data: &Vec<u8>) -> (r: ParseOutcome)
    ensures
        r.deep_view() == server_name(data@),
{
    match end_of16(data.as_slice(), 0) {
        None => ParseOutcome::Malformed,
        Some(end) => {
            let list = bytes_of(data.as_slice(), 2, end);
            parse_name_entries(&list)
        },
    }
}

fn parse_extensions(h: &[u8], from: usize, end: usize) -> (r: ParseOutcome)
    requires
        from <= end <= h@.len(),
    ensures
        r.deep_view() == extensions(h@, from as int, end as int),
{
    let mut i: usize = from;
    while end - i >= 4
        invariant
            from <= i <= end <= h@.len(),
            extensions(h@, from as int, end as int) == extensions(h@, i as int, end as int),
        decreases end - i,
    {
        let kind: usize = read16(h, i);
        let len: usize = read16(h, i + 2);
        if end - i - 4 < len {
            return ParseOutcome::Malformed;
        }
        if kind == 0 {
            let data = bytes_of(h, i + 4, i + 4 + len);
            return parse_server_name(&data);
        }
        i = i + 4 + len;
    }
    ParseOutcome::NoSni
}

/// Parse the body of a ClientHello for the server name.
fn parse_hello(h: &[u8]) -> (r: ParseOutcome)
    ensures
        r.deep_view() == hello_body(h@),
{
    let n: usize = h.len();
    if n < 34 {
        return ParseOutcome::Malformed;
    }
    let a = match end_of8(h, 34) {
        Some(e) => e,
        None => {
            return ParseOutcome::Malformed;
        },
    };
    let b = match end_of16(h, a) {
        Some(e) => e,
        None => {
            return ParseOutcome::Malformed;
        },
    };
    let c = match end_of8(h, b) {
        Some(e) => e,
        None => {
            return ParseOutcome::Malformed;
        },
    };
    if n - c < 2 {
        return ParseOutcome::NoSni;
    }
    match end_of16(h, c) {
        Some(end) => parse_extensions(h, c + 2, end),
        None => ParseOutcome::Malformed,
    }
}

/// Join the payloads of handshake records until there are `want` bytes.
fn join_payloads(buf: &[u8], want: usize) -> (r: Option<Vec<u8>>)
    ensures
        match r {
            Some(m) => joined_payloads(buf@, 0, want as int, Seq::empty()) == Some(m@),
            None => joined_payloads(buf@, 0, want as int, Seq::empty()) is None,
        },
{
    let n: usize = buf.len();
    let mut m: Vec<u8> = Vec::new();
    let mut i: usize = 0;
    assert(m@ == Seq::<u8>::empty());
    while m.len() < want && n - i >= 5
        invariant
            n == buf@.len(),
            i <= n,
            joined_payloads(buf@, 0, want as int, Seq::empty()) == joined_payloads(
                buf@,
                i as int,
                want as int,
                m@,
            ),
        decreases n - i,
    {
        if buf[i] != 0x16 {
            return None;
        }
        let len: usize = read16(buf, i + 3);
        if n - i - 5 < len {
            let mut rest = bytes_of(buf, i + 5, n);
            assert(buf@.subrange(i + 5, n as int) == buf@.skip(i + 5));
            m.append(&mut rest);
            return Some(m);
        }
        let mut payload = bytes_of(buf, i + 5, i + 5 + len);
        m.append(&mut payload);
        i = i + 5 + len;
    }
    Some(m)
}

/// Parse the server name from a ClientHello prefix. Total: every length is
/// checked against the buffer.
pub fn parse_client_hello_sni(buf: &[u8]) -> (r: ParseOutcome)
    ensures
        r.deep_view() == client_hello(buf@),
{
    let n: usize = buf.len();
    if n < 5 {
        return ParseOutcome::NeedMore;
    }
    if buf[0] != 0x16 {
        return ParseOutcome::Malformed;
    }
    if n < 9 {
        return ParseOutcome::NeedMore;
    }
    if buf[5] != 0x01 {
        return ParseOutcome::Malformed;
    }
    let want: usize = 4 + buf[6] as usize * 65536 + buf[7] as usize * 256 + buf[8] as usize;
    if 5 + want > MAX_CLIENT_HELLO_BYTES {
        return ParseOutcome::Malformed;
    }
    if n < 5 + want {
        return ParseOutcome::NeedMore;
    }
    if read16(buf, 3) < 4 {
        return ParseOutcome::Malformed;
    }
    let m = match join_payloads(buf, want) {
        Some(m) => m,
        None => {
            return ParseOutcome::Malformed;
        },
    };
    if m.len() >= want {
        let body = bytes_of(m.as_slice(), 4, want);
        parse_hello(body.as_slice())
    } else if n >= MAX_CLIENT_HELLO_BYTES {
        ParseOutcome::Malformed
    } else {
        ParseOutcome::NeedMore
    }
}

// ---------------------------------------------------------------------------
// Reading
// ---------------------------------------------------------------------------

/// Where the inspection of a client stands.
#[derive(PartialEq, Eq, Debug)]
pub enum HelloState {
    /// More bytes are wanted after these.
    Waiting(Vec<u8>),
    /// The inspection is over.
    Done(InspectOutcome),
}

/// What a read from the client gave.
#[derive(PartialEq, Eq, Debug)]
pub enum ReadEvent {
    /// Some bytes.
    Data(Vec<u8>),
    /// The end of the stream, an error, or no byte within the time limit.
    Ended,
}

/// The model of [`HelloState`].
pub ghost enum HelloStateView {
    Waiting(Seq<u8>),
    Sni { name: Seq<char>, prefix: Seq<u8> },
    NoSni { prefix: Seq<u8> },
    Malformed { prefix: Seq<u8> },
}

impl DeepView for HelloState {
    type V = HelloStateView;

    open spec fn deep_view(&self) -> HelloStateView {
        match self {
            HelloState::Waiting(buf) => HelloStateView::Waiting(buf@),
            HelloState::Done(InspectOutcome::Sni { name, prefix }) => HelloStateView::Sni {
                name: name@,
                prefix: prefix@,
            },
            HelloState::Done(InspectOutcome::NoSni { prefix }) => HelloStateView::NoSni {
                prefix: prefix@,
            },
            HelloState::Done(InspectOutcome::Malformed { prefix }) => HelloStateView::Malformed {
                prefix: prefix@,
            },
        }
    }
}

/// Where the inspection stands when `buf` has been read, of at most `max` bytes.
pub open spec fn inspected(buf: Seq<u8>, max: nat) -> HelloStateView {
    match client_hello(buf) {
        ParseOutcomeView::Sni(name) => HelloStateView::Sni { name, prefix: buf },
        ParseOutcomeView::NoSni => HelloStateView::NoSni { prefix: buf },
        ParseOutcomeView::Malformed => HelloStateView::Malformed { prefix: buf },
        ParseOutcomeView::NeedMore => if buf.len() >= max {
            HelloStateView::Malformed { prefix: buf }
        } else {
            HelloStateView::Waiting(buf)
        },
    }
}

fn inspect(buf: Vec<u8>, max: usize) -> (r: HelloState)
    ensures
        r.deep_view() == inspected(buf@, max as nat),
{
    match parse_client_hello_sni(buf.as_slice()) {
        ParseOutcome::Sni(name) => HelloState::Done(InspectOutcome::Sni { name, prefix: buf }),
        ParseOutcome::NoSni => HelloState::Done(InspectOutcome::NoSni { prefix: buf }),
        ParseOutcome::Malformed => HelloState::Done(InspectOutcome::Malformed { prefix: buf }),
        ParseOutcome::NeedMore => if buf.len() >= max {
            HelloState::Done(InspectOutcome::Malformed { prefix: buf })
        } else {
            HelloState::Waiting(buf)
        },
    }
}

/// Start the inspection of a client, of at most `max` bytes.
pub fn start_inspection(max: usize) -> (r: HelloState)
    ensures
        r.deep_view() == inspected(Seq::empty(), max as nat),
{
    let buf: Vec<u8> = Vec::new();
    assert(buf@ == Seq::<u8>::empty());
    inspect(buf, max)
}

/// Go on with the inspection of a client that was waiting with `buf` read.
pub fn continue_inspection(buf: Vec<u8>, event: ReadEvent, max: usize) -> (r: HelloState)
    ensures
        match event {
            ReadEvent::Data(more) => r.deep_view() == inspected(buf@ + more@, max as nat),
            ReadEvent::Ended => r.deep_view() == (HelloStateView::Malformed { prefix: buf@ }),
        },
{
    match event {
        ReadEvent::Data(more) => {
            let mut all = buf;
            let mut more = more;
            all.append(&mut more);
            inspect(all, max)
        },
        ReadEvent::Ended => HelloState::Done(InspectOutcome::Malformed { prefix: buf }),
    }
}

// ---------------------------------------------------------------------------
// Laws
// ---------------------------------------------------------------------------

proof fn lemma_more_payload(buf: Seq<u8>, more: Seq<u8>, i: int, want: int, done: Seq<u8>)
    requires
        0 <= i <= buf.len(),
    ensures
        ({
            let (a, b) = (
                joined_payloads(buf, i, want, done),
                joined_payloads(buf + more, i, want, done),
            );
            &&& a is None ==> b is None
            &&& a matches Some(m) ==> (m.len() >= want ==> (b matches Some(n) && n.len() >= want
                && forall|k: int| 0 <= k < want ==> m[k] == n[k]))
        }),
    decreases buf.len() - i,
{
    let all = buf + more;
    if done.len() < want && i + 5 <= buf.len() && buf[i] == 0x16 {
        assert(forall|k: int| i <= k < i + 5 ==> all[k] == buf[k]);
        let end = i + 5 + be16(buf, i + 3);
        if end > buf.len() {
            let m = done + buf.skip(i + 5);
            if end > all.len() {
                assert(forall|k: int| 0 <= k < m.len() ==> m[k] == (done + all.skip(i + 5))[k]);
            } else {
                let n = done + all.subrange(i + 5, end);
                assert(forall|k: int| 0 <= k < m.len() ==> m[k] == n[k]);
                if m.len() >= want {
                    assert(joined_payloads(all, end, want, n) == Some(n));
                }
            }
        } else {
            assert(all.subrange(i + 5, end) == buf.subrange(i + 5, end));
            lemma_more_payload(buf, more, end, want, done + buf.subrange(i + 5, end));
        }
    }
}

/// Once a buffer is decided, more bytes behind it change nothing, as long as the
/// whole stays within the bound.
pub proof fn more_bytes_keep_the_outcome(buf: Seq<u8>, more: Seq<u8>)
    requires
        client_hello(buf) != ParseOutcomeView::NeedMore,
        buf.len() + more.len() <= MAX_CLIENT_HELLO_BYTES,
    ensures
        client_hello(buf + more) == client_hello(buf),
{
    let all = buf + more;
    assert(forall|i: int| 0 <= i < buf.len() ==> all[i] == buf[i]);
    if buf.len() >= 9 {
        let want = 4 + be24(buf, 6);
        lemma_more_payload(buf, more, 0, want, Seq::empty());
        if buf.len() >= MAX_CLIENT_HELLO_BYTES {
            assert(all == buf);
        }
        if let Some(m) = joined_payloads(buf, 0, want, Seq::empty()) {
            if m.len() >= want {
                let n = joined_payloads(all, 0, want, Seq::empty())->0;
                assert(m.subrange(4, want) == n.subrange(4, want));
            }
        }
    }
}

/// A handshake record with the payload `p`, written for the version in `v`.
pub open spec fn record(v: (u8, u8), p: Seq<u8>) -> Seq<u8> {
    seq![0x16u8, v.0, v.1, (p.len() / 256) as u8, (p.len() % 256) as u8] + p
}

/// Fragmented records are handled: a ClientHello message that is split over two
/// records has the outcome that it has in one, wherever it is split behind the
/// message header.
pub proof fn fragments_are_joined(v: (u8, u8), w: (u8, u8), msg: Seq<u8>, k: int)
    requires
        4 <= k < msg.len() <= 65535,
        msg[0] == 0x01,
        msg.len() == 4 + be24(msg, 1),
    ensures
        client_hello(record(v, msg.take(k)) + record(w, msg.skip(k))) == client_hello(
            record(v, msg),
        ),
{
    let n = msg.len() as int;
    let one = record(v, msg);
    let (a, b) = (record(v, msg.take(k)), record(w, msg.skip(k)));
    let two = a + b;
    let none = Seq::<u8>::empty();
    assert(one[5] == msg[0] && one[6] == msg[1] && one[7] == msg[2] && one[8] == msg[3]);
    assert(two[5] == msg[0] && two[6] == msg[1] && two[7] == msg[2] && two[8] == msg[3]);
    assert(be16(one, 3) == n);
    assert(be16(two, 3) == k);
    assert(two[k + 5] == 0x16);
    assert(be16(two, k + 8) == n - k) by {
        assert(two[k + 8] == b[3] && two[k + 9] == b[4]);
    }
    assert(one.subrange(5, 5 + n) == msg);
    assert(none + msg == msg);
    assert(joined_payloads(one, 5 + n, n, none + msg) == Some(msg));
    assert(joined_payloads(one, 0, n, none) == Some(msg));
    assert(two.subrange(5, 5 + k) == msg.take(k));
    assert(two.subrange(k + 10, n + 10) == msg.skip(k));
    let first = none + msg.take(k);
    assert(first == msg.take(k));
    assert(msg.take(k) + msg.skip(k) == msg);
    assert(joined_payloads(two, n + 10, n, first + msg.skip(k)) == Some(msg));
    assert(joined_payloads(two, k + 5, n, first) == Some(msg));
    assert(joined_payloads(two, 0, n, none) == Some(msg));
}

proof fn lemma_names_decide(list: Seq<u8>, i: int)
    ensures
        name_entries(list, i) != ParseOutcomeView::NeedMore,
    decreases list.len() - i,
{
    if 0 <= i && i + 3 <= list.len() {
        let len = be16(list, i + 1);
        if i + 3 + len <= list.len() {
            lemma_names_decide(list, i + 3 + len);
        }
    }
}

proof fn lemma_extensions_decide(h: Seq<u8>, i: int, end: int)
    ensures
        extensions(h, i, end) != ParseOutcomeView::NeedMore,
    decreases end - i,
{
    if 0 <= i && i + 4 <= end {
        let len = be16(h, i + 2);
        let data = h.subrange(i + 4, i + 4 + len);
        lemma_names_decide(data.subrange(2, 2 + be16(data, 0)), 0);
        if i + 4 + len <= end {
            lemma_extensions_decide(h, i + 4 + len, end);
        }
    }
}

/// A complete body is always decided.
proof fn lemma_body_decides(h: Seq<u8>)
    ensures
        hello_body(h) != ParseOutcomeView::NeedMore,
{
    if let Some(a) = after8(h, 34) {
        if let Some(b) = after16(h, a) {
            if let Some(c) = after8(h, b) {
                if let Some(end) = after16(h, c) {
                    lemma_extensions_decide(h, c + 2, end);
                }
            }
        }
    }
}

/// A buffer that wants more bytes is within the bound, so a reader that stops at
/// the bound never gives up on a ClientHello that could still be completed.
pub proof fn waiting_is_bounded(buf: Seq<u8>)
    requires
        client_hello(buf) == ParseOutcomeView::NeedMore,
    ensures
        buf.len() < MAX_CLIENT_HELLO_BYTES,
{
    if buf.len() >= 9 {
        let want = 4 + be24(buf, 6);
        if let Some(m) = joined_payloads(buf, 0, want, Seq::empty()) {
            lemma_body_decides(m.subrange(4, want));
        }
    }
}

/// The bytes that an inspection hands on are exactly the bytes that it read.
pub proof fn prefix_is_what_was_read(buf: Seq<u8>, max: nat)
    ensures
        match inspected(buf, max) {
            HelloStateView::Waiting(b) => b == buf,
            HelloStateView::Sni { prefix, .. } => prefix == buf,
            HelloStateView::NoSni { prefix } => prefix == buf,
            HelloStateView::Malformed { prefix } => prefix == buf,
        },
{
}

} // verus!
