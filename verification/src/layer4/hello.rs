//! Writing a ClientHello, and what reading it gives.
use crate::layer4::tls::{
    after16, after8, be16, be24, client_hello, extensions, hello_body, joined_payloads,
    name_entries, server_name, ParseOutcomeView,
};
use vstd::prelude::*;
use vstd::utf8::encode_utf8;

verus! {

/// A number in two bytes, the higher one first.
pub open spec fn two_bytes(n: int) -> Seq<u8> {
    seq![(n / 256) as u8, (n % 256) as u8]
}

/// A number in three bytes, the highest one first.
pub open spec fn three_bytes(n: int) -> Seq<u8> {
    seq![(n / 65536) as u8, (n / 256 % 256) as u8, (n % 256) as u8]
}

/// Bytes behind their number in one byte.
pub open spec fn short_field(bytes: Seq<u8>) -> Seq<u8> {
    seq![bytes.len() as u8] + bytes
}

/// Bytes behind their number in two bytes.
pub open spec fn long_field(bytes: Seq<u8>) -> Seq<u8> {
    two_bytes(bytes.len() as int) + bytes
}

/// Extensions, each with its type and its data.
pub open spec fn extension_list(list: Seq<(u16, Seq<u8>)>) -> Seq<u8>
    decreases list.len(),
{
    if list.len() == 0 {
        Seq::empty()
    } else {
        two_bytes(list[0].0 as int) + long_field(list[0].1) + extension_list(list.skip(1))
    }
}

/// Entries of a server-name list, each with its type and its name.
pub open spec fn entry_list(list: Seq<(u8, Seq<u8>)>) -> Seq<u8>
    decreases list.len(),
{
    if list.len() == 0 {
        Seq::empty()
    } else {
        seq![list[0].0] + long_field(list[0].1) + entry_list(list.skip(1))
    }
}

/// The fields of a ClientHello.
pub ghost struct Hello {
    /// Version and random.
    pub start: Seq<u8>,
    pub session: Seq<u8>,
    pub suites: Seq<u8>,
    pub compression: Seq<u8>,
    /// The extensions, or `None` when the message ends before them.
    pub extensions: Option<Seq<(u16, Seq<u8>)>>,
}

impl Hello {
    /// Whether every field fits behind the bytes that hold its length.
    pub open spec fn fits(self) -> bool {
        &&& self.start.len() == 34
        &&& self.session.len() < 256
        &&& self.suites.len() < 65536
        &&& self.compression.len() < 256
        &&& self.extensions matches Some(list) ==> extension_list(list).len() < 65536 && (forall|
            i: int,
        |
            0 <= i < list.len() ==> (#[trigger] list[i]).1.len() < 65536)
    }

    /// The body of the message.
    pub open spec fn body(self) -> Seq<u8> {
        self.start + short_field(self.session) + long_field(self.suites) + short_field(
            self.compression,
        ) + match self.extensions {
            Some(list) => long_field(extension_list(list)),
            None => Seq::empty(),
        }
    }

    /// The handshake message.
    pub open spec fn message(self) -> Seq<u8> {
        seq![1u8] + three_bytes(self.body().len() as int) + self.body()
    }
}

/// Handshake records, each with its version and its payload.
pub open spec fn records(list: Seq<((u8, u8), Seq<u8>)>) -> Seq<u8>
    decreases list.len(),
{
    if list.len() == 0 {
        Seq::empty()
    } else {
        seq![22u8, list[0].0.0, list[0].0.1] + long_field(list[0].1) + records(list.skip(1))
    }
}

/// The payloads of records.
pub open spec fn payloads(list: Seq<((u8, u8), Seq<u8>)>) -> Seq<u8>
    decreases list.len(),
{
    if list.len() == 0 {
        Seq::empty()
    } else {
        list[0].1 + payloads(list.skip(1))
    }
}

/// Whether records carry a message: it lies within the bound, is cut in any way
/// behind its header, and every part fits into its record.
pub open spec fn carry(list: Seq<((u8, u8), Seq<u8>)>, message: Seq<u8>) -> bool {
    &&& payloads(list) == message
    &&& 5 + message.len() <= 65536
    &&& list.len() > 0
    &&& list[0].1.len() >= 4
    &&& forall|i: int| 0 <= i < list.len() ==> (#[trigger] list[i]).1.len() < 65536
}

/// The data of a `server_name` extension: entries of other types, the host name,
/// and whatever follows it.
pub open spec fn named(others: Seq<(u8, Seq<u8>)>, host: Seq<char>, more: Seq<u8>) -> Seq<u8> {
    long_field(entry_list(others) + (seq![0u8] + long_field(encode_utf8(host)) + more))
}

/// `host` in small ASCII letters.
pub open spec fn in_small_letters(host: Seq<char>) -> Seq<char> {
    Seq::new(
        host.len(),
        |i: int|
            if 'A' <= host[i] <= 'Z' {
                (host[i] as u32 + 32) as char
            } else {
                host[i]
            },
    )
}

/// A ClientHello with a server name reads back as that name in small letters,
/// whatever its session id, cipher suites, compression methods and other
/// extensions are, however it is cut into records, and whatever bytes follow.
pub proof fn the_server_name_reads_back(
    h: Hello,
    at: int,
    others: Seq<(u8, Seq<u8>)>,
    host: Seq<char>,
    more: Seq<u8>,
    list: Seq<((u8, u8), Seq<u8>)>,
    rest: Seq<u8>,
)
    requires
        h.fits(),
        h.extensions is Some,
        0 <= at < h.extensions->0.len(),
        forall|i: int| 0 <= i < at ==> (#[trigger] h.extensions->0[i]).0 != 0,
        h.extensions->0[at] == (0u16, named(others, host, more)),
        forall|i: int|
            0 <= i < others.len() ==> (#[trigger] others[i]).0 != 0 && others[i].1.len() < 65536,
        carry(list, h.message()),
    ensures
        client_hello(records(list) + rest) == ParseOutcomeView::Sni(in_small_letters(host)),
{
    lemma_records(h, list, rest);
    lemma_body(h);
    let exts = h.extensions->0;
    let body = h.body();
    let pre = h.start + short_field(h.session) + long_field(h.suites) + short_field(h.compression)
        + two_bytes(extension_list(exts).len() as int);
    assert(body == pre + extension_list(exts) + Seq::<u8>::empty());
    lemma_skip_extensions(body, pre, exts, Seq::empty(), at, body.len() as int);
    let data = named(others, host, more);
    lemma_named(others, host, more, data);
    let name = crate::text::lowered(host);
    assert(name == in_small_letters(host));
}

/// A ClientHello without a server name is told apart from one with a name: it has
/// no extensions at all, or none of them is the `server_name` extension.
pub proof fn no_server_name_is_noticed(
    h: Hello,
    list: Seq<((u8, u8), Seq<u8>)>,
    rest: Seq<u8>,
)
    requires
        h.fits(),
        h.extensions matches Some(exts) ==> forall|i: int|
            0 <= i < exts.len() ==> (#[trigger] exts[i]).0 != 0,
        carry(list, h.message()),
    ensures
        client_hello(records(list) + rest) == ParseOutcomeView::NoSni,
{
    lemma_records(h, list, rest);
    lemma_body(h);
    if let Some(exts) = h.extensions {
        let body = h.body();
        let pre = h.start + short_field(h.session) + long_field(h.suites) + short_field(
            h.compression,
        ) + two_bytes(extension_list(exts).len() as int);
        assert(body == pre + extension_list(exts) + Seq::<u8>::empty());
        lemma_skip_extensions(
            body,
            pre,
            exts,
            Seq::empty(),
            exts.len() as int,
            body.len() as int,
        );
    }
}

/// A ClientHello in one record that is cut short anywhere is waited for.
pub proof fn a_part_is_waited_for(h: Hello, version: (u8, u8), k: int)
    requires
        h.fits(),
        carry(seq![(version, h.message())], h.message()),
        0 <= k < records(seq![(version, h.message())]).len(),
    ensures
        client_hello(records(seq![(version, h.message())]).take(k)) == ParseOutcomeView::NeedMore,
{
    let list = seq![(version, h.message())];
    let all = records(list);
    let part = all.take(k);
    let m = h.message();
    assert(list.skip(1).len() == 0);
    assert(records(list.skip(1)) == Seq::<u8>::empty());
    let header = seq![22u8, version.0, version.1];
    assert(all == header + long_field(m) + Seq::<u8>::empty());
    assert(all.len() == 5 + m.len());
    assert(m.len() == 4 + h.body().len());
    if k >= 5 {
        assert(part[0] == all[0]);
        assert(all[0] == 22);
        if k >= 9 {
            assert(part[5] == all[5] && part[6] == all[6] && part[7] == all[7] && part[8]
                == all[8]);
            assert(all[5] == m[0] && all[6] == m[1] && all[7] == m[2] && all[8] == m[3]);
            lemma_three_bytes(h.body().len() as int);
            assert(m[1] == three_bytes(h.body().len() as int)[0]);
            assert(m[2] == three_bytes(h.body().len() as int)[1]);
            assert(m[3] == three_bytes(h.body().len() as int)[2]);
        }
    }
}

/// What is not the start of a ClientHello is refused at once: a record of another
/// type, another message, or one whose length is over the bound.
pub proof fn other_messages_are_refused(buf: Seq<u8>)
    requires
        buf.len() >= 9,
        buf[0] != 22 || buf[5] != 1 || buf[6] * 65536 + buf[7] * 256 + buf[8] + 9 > 65536,
    ensures
        client_hello(buf) == ParseOutcomeView::Malformed,
{
}

// ---------------------------------------------------------------------------
// Fields
// ---------------------------------------------------------------------------

proof fn lemma_two_bytes(s: Seq<u8>, i: int, n: int)
    requires
        0 <= n < 65536,
        0 <= i,
        i + 2 <= s.len(),
        s.subrange(i, i + 2) == two_bytes(n),
    ensures
        be16(s, i) == n,
{
    assert(s[i] == s.subrange(i, i + 2)[0]);
    assert(s[i + 1] == s.subrange(i, i + 2)[1]);
}

proof fn lemma_three_bytes(n: int)
    requires
        0 <= n < 0x100_0000,
    ensures
        three_bytes(n)[0] * 65536 + three_bytes(n)[1] * 256 + three_bytes(n)[2] == n,
{
}

/// The fields of a body, one after the other.
proof fn lemma_body(h: Hello)
    requires
        h.fits(),
    ensures
        match h.extensions {
            None => hello_body(h.body()) == ParseOutcomeView::NoSni,
            Some(exts) => hello_body(h.body()) == extensions(
                h.body(),
                h.body().len() - extension_list(exts).len(),
                h.body().len() as int,
            ),
        },
{
    let body = h.body();
    let a = 34 + short_field(h.session).len() as int;
    let b = a + long_field(h.suites).len() as int;
    let c = b + short_field(h.compression).len() as int;
    assert(body[34] == h.session.len()) by {
        assert(body[34] == short_field(h.session)[0]);
    }
    assert(after8(body, 34) == Some(a));
    assert(body.subrange(a, a + 2) == two_bytes(h.suites.len() as int));
    lemma_two_bytes(body, a, h.suites.len() as int);
    assert(after16(body, a) == Some(b));
    assert(body[b] == h.compression.len()) by {
        assert(body[b] == short_field(h.compression)[0]);
    }
    assert(after8(body, b) == Some(c));
    if let Some(exts) = h.extensions {
        let n = extension_list(exts).len() as int;
        assert(body.subrange(c, c + 2) == two_bytes(n));
        lemma_two_bytes(body, c, n);
        assert(after16(body, c) == Some(body.len() as int));
    }
}

// ---------------------------------------------------------------------------
// Extensions
// ---------------------------------------------------------------------------

/// The extensions before the one numbered `at` are passed over.
proof fn lemma_skip_extensions(
    h: Seq<u8>,
    pre: Seq<u8>,
    exts: Seq<(u16, Seq<u8>)>,
    tail: Seq<u8>,
    at: int,
    end: int,
)
    requires
        h == pre + extension_list(exts) + tail,
        0 <= at <= exts.len(),
        forall|i: int| 0 <= i < exts.len() ==> (#[trigger] exts[i]).1.len() < 65536,
        forall|i: int| 0 <= i < at ==> (#[trigger] exts[i]).0 != 0,
        at < exts.len() ==> exts[at].0 == 0,
        end == pre.len() + extension_list(exts).len(),
    ensures
        extensions(h, pre.len() as int, end) == (if at < exts.len() {
            server_name(exts[at].1)
        } else {
            ParseOutcomeView::NoSni
        }),
    decreases at,
{
    if exts.len() > 0 {
        let one = two_bytes(exts[0].0 as int) + long_field(exts[0].1);
        let others = exts.skip(1);
        let i = pre.len() as int;
        let n = exts[0].1.len() as int;
        assert(extension_list(exts) == one + extension_list(others));
        assert(one.len() == 4 + n);
        assert(h.subrange(i, i + 2) == two_bytes(exts[0].0 as int));
        lemma_two_bytes(h, i, exts[0].0 as int);
        assert(h.subrange(i + 2, i + 4) == two_bytes(n));
        lemma_two_bytes(h, i + 2, n);
        if at == 0 {
            assert(h.subrange(i + 4, i + 4 + n) == exts[0].1);
        } else {
            assert(h == (pre + one) + extension_list(others) + tail);
            assert(exts[0].0 != 0);
            assert(at < exts.len() ==> others[at - 1] == exts[at]);
            lemma_skip_extensions(h, pre + one, others, tail, at - 1, end);
        }
    }
}

/// The host name in the data of a `server_name` extension.
proof fn lemma_named(
    others: Seq<(u8, Seq<u8>)>,
    host: Seq<char>,
    more: Seq<u8>,
    data: Seq<u8>,
)
    requires
        data == named(others, host, more),
        data.len() < 65536,
        forall|i: int|
            0 <= i < others.len() ==> (#[trigger] others[i]).0 != 0 && others[i].1.len() < 65536,
    ensures
        server_name(data) == ParseOutcomeView::Sni(crate::text::lowered(host)),
{
    let entries = entry_list(others) + (seq![0u8] + long_field(encode_utf8(host)) + more);
    assert(data.subrange(0, 2) == two_bytes(entries.len() as int));
    lemma_two_bytes(data, 0, entries.len() as int);
    assert(data.subrange(2, data.len() as int) == entries);
    assert(entries == Seq::<u8>::empty() + entry_list(others) + (seq![0u8] + long_field(
        encode_utf8(host),
    ) + more));
    lemma_skip_entries(entries, Seq::empty(), others, host, more);
}

/// The entries of other types are passed over.
proof fn lemma_skip_entries(
    s: Seq<u8>,
    pre: Seq<u8>,
    others: Seq<(u8, Seq<u8>)>,
    host: Seq<char>,
    more: Seq<u8>,
)
    requires
        s == pre + entry_list(others) + (seq![0u8] + long_field(encode_utf8(host)) + more),
        s.len() < 65536,
        forall|i: int|
            0 <= i < others.len() ==> (#[trigger] others[i]).0 != 0 && others[i].1.len() < 65536,
    ensures
        name_entries(s, pre.len() as int) == ParseOutcomeView::Sni(crate::text::lowered(host)),
    decreases others.len(),
{
    let i = pre.len() as int;
    if others.len() == 0 {
        let name = encode_utf8(host);
        let n = name.len() as int;
        let own = seq![0u8] + long_field(name);
        assert(s == pre + (own + more));
        assert(s[i] == own[0]);
        assert(s.subrange(i + 1, i + 3) == two_bytes(n));
        lemma_two_bytes(s, i + 1, n);
        assert(s.subrange(i + 3, i + 3 + n) == name);
        vstd::utf8::encode_utf8_valid_utf8(host);
        vstd::utf8::encode_utf8_decode_utf8(host);
    } else {
        let one = seq![others[0].0] + long_field(others[0].1);
        let n = others[0].1.len() as int;
        let tail = seq![0u8] + long_field(encode_utf8(host)) + more;
        let later = others.skip(1);
        assert(entry_list(others) == one + entry_list(later));
        assert(s[i] == one[0]);
        assert(s.subrange(i + 1, i + 3) == two_bytes(n));
        lemma_two_bytes(s, i + 1, n);
        assert(s == (pre + one) + entry_list(later) + tail);
        lemma_skip_entries(s, pre + one, later, host, more);
        assert((pre + one).len() == i + 3 + n);
    }
}

// ---------------------------------------------------------------------------
// Records
// ---------------------------------------------------------------------------

/// The payloads of records are joined again.
proof fn lemma_joined(
    buf: Seq<u8>,
    pre: Seq<u8>,
    list: Seq<((u8, u8), Seq<u8>)>,
    rest: Seq<u8>,
    want: int,
    done: Seq<u8>,
)
    requires
        buf == pre + records(list) + rest,
        forall|i: int| 0 <= i < list.len() ==> (#[trigger] list[i]).1.len() < 65536,
        done.len() + payloads(list).len() == want,
    ensures
        joined_payloads(buf, pre.len() as int, want, done) matches Some(m) && m.len() >= want
            && m.take(want) == done + payloads(list),
    decreases list.len(),
{
    if done.len() >= want {
        assert(payloads(list).len() == 0);
        assert(done.take(want) == done + payloads(list));
    } else {
        assert(list.len() > 0);
        let p = list[0].1;
        let n = p.len() as int;
        let i = pre.len() as int;
        let one = seq![22u8, list[0].0.0, list[0].0.1] + long_field(p);
        let others = list.skip(1);
        assert(records(list) == one + records(others));
        assert(buf[i] == one[0]);
        assert(buf.subrange(i + 3, i + 5) == two_bytes(n));
        lemma_two_bytes(buf, i + 3, n);
        assert(buf.subrange(i + 5, i + 5 + n) == p);
        assert(buf == (pre + one) + records(others) + rest);
        assert((pre + one).len() == i + 5 + n);
        assert(done + payloads(list) == (done + p) + payloads(others));
        lemma_joined(buf, pre + one, others, rest, want, done + p);
    }
}

proof fn lemma_records(h: Hello, list: Seq<((u8, u8), Seq<u8>)>, rest: Seq<u8>)
    requires
        carry(list, h.message()),
    ensures
        client_hello(records(list) + rest) == hello_body(h.body()),
{
    let buf = records(list) + rest;
    let m = h.message();
    let want = m.len() as int;
    let p = list[0].1;
    let others = list.skip(1);
    let one = seq![22u8, list[0].0.0, list[0].0.1] + long_field(p);
    assert(records(list) == one + records(others));
    assert(m == p + payloads(others));
    assert(buf[0] == one[0]);
    assert(buf[5] == one[5] && buf[6] == one[6] && buf[7] == one[7] && buf[8] == one[8]);
    assert(one[5] == p[0] && one[6] == p[1] && one[7] == p[2] && one[8] == p[3]);
    assert(p[0] == m[0] && p[1] == m[1] && p[2] == m[2] && p[3] == m[3]);
    let n = h.body().len() as int;
    assert(want == 4 + n);
    assert(m[1] == three_bytes(n)[0] && m[2] == three_bytes(n)[1] && m[3] == three_bytes(n)[2]);
    lemma_three_bytes(n);
    assert(be24(buf, 6) == n);
    assert(buf.subrange(3, 5) == two_bytes(p.len() as int));
    lemma_two_bytes(buf, 3, p.len() as int);
    lemma_long_enough(list);
    assert(buf == Seq::<u8>::empty() + records(list) + rest);
    lemma_joined(buf, Seq::empty(), list, rest, want, Seq::empty());
    let got = joined_payloads(buf, 0, want, Seq::empty())->0;
    assert(Seq::<u8>::empty() + payloads(list) == m);
    assert(got.subrange(4, want) == got.take(want).subrange(4, want));
    assert(m.subrange(4, want) == h.body());
}

/// Records are longer than what they carry, by a header at least.
proof fn lemma_long_enough(list: Seq<((u8, u8), Seq<u8>)>)
    ensures
        records(list).len() >= payloads(list).len(),
        list.len() > 0 ==> records(list).len() >= payloads(list).len() + 5,
    decreases list.len(),
{
    if list.len() > 0 {
        lemma_long_enough(list.skip(1));
    }
}

} // verus!
