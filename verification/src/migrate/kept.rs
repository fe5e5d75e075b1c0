//! What a Caddyfile keeps when it is converted: directives that mean the same in
//! both are written again as they are.
use crate::migrate::caddy::{
    block_dropped, directive, directives, redirect_word, site_addr, targets_from, upstream_target,
    value_from,
};
use crate::migrate::{first_word, put, ConvertedView, StmtView};
use crate::num::{decimal, decimal_reads_back, lemma_decimal};
use crate::text::{joined, lemma_first_index};
use vstd::prelude::*;

verus! {

/// Whether a text has no placeholder.
pub open spec fn plain(text: Seq<char>) -> bool {
    !text.contains('{')
}

/// Whether an upstream is a host, or a host and a port, and no more than that.
pub open spec fn plain_target(target: Seq<char>) -> bool {
    &&& target.len() > 0
    &&& target[0] != '['
    &&& !target.contains('/')
}

/// An upstream with its port, 80 when it names none.
pub open spec fn with_port(target: Seq<char>) -> Seq<char> {
    if target.contains(':') {
        target
    } else {
        target + ":80"@
    }
}

/// Roots, file servers and headers are written again as they are.
pub proof fn simple_lines_are_kept(
    c: ConvertedView,
    line: usize,
    pad: Seq<char>,
    dir: Seq<char>,
    name: Seq<char>,
    value: Seq<char>,
)
    requires
        dir != "*"@,
        plain(value),
        name.len() > 0 ==> name[0] != '/',
    ensures
        written(c, line, seq!["root"@, dir], pad, "root "@ + dir),
        written(c, line, seq!["root"@, "*"@, dir], pad, "root "@ + dir),
        written(c, line, seq!["file_server"@], pad, "file_server"@),
        written(
            c,
            line,
            seq!["header_up"@, name, value],
            pad,
            "header_up "@ + name + " "@ + value,
        ),
        written(
            c,
            line,
            seq!["header_down"@, name, value],
            pad,
            "header_down "@ + name + " "@ + value,
        ),
{
    lemma_names();
    reveal_strlit("root ");
    reveal_strlit("file_server\n");
    reveal_strlit("header_up ");
    reveal_strlit("header_down ");
    reveal_strlit(" ");
    reveal_strlit("\n");
    lemma_line(c.raddyfile, pad, "root "@ + dir, "root "@, dir);
    let words = seq!["header_up"@, name, value];
    assert(words.subrange(2, 3) == seq![value]);
    lemma_one(value);
    lemma_plain(value);
    let other = seq!["header_down"@, name, value];
    assert(other.subrange(2, 3) == seq![value]);
    assert(pad + "file_server\n"@ == pad + "file_server"@ + "\n"@) by {
        reveal_strlit("file_server");
    }
    assert(pad + "header_up"@ + " "@ + name + (" "@ + value + "\n"@) == pad + ("header_up "@ + name
        + " "@ + value) + "\n"@) by {
        reveal_strlit("header_up");
    }
    assert(pad + "header_down"@ + " "@ + name + (" "@ + value + "\n"@) == pad + ("header_down "@
        + name + " "@ + value) + "\n"@) by {
        reveal_strlit("header_down");
    }
}

/// Whether a line without a block is converted to `text`, indented by `pad`.
pub open spec fn written(
    c: ConvertedView,
    line: usize,
    words: Seq<Seq<char>>,
    pad: Seq<char>,
    text: Seq<char>,
) -> bool {
    directive(c, (StmtView { line, words, block: Seq::empty() }), pad).raddyfile == c.raddyfile + (
    pad + text + "\n"@)
}

/// Redirects keep their target and their code; without a code they are temporary.
pub proof fn redirects_are_kept(
    c: ConvertedView,
    line: usize,
    pad: Seq<char>,
    target: Seq<char>,
    code: Seq<char>,
    n: nat,
)
    requires
        target.len() > 0,
        plain(target),
        300 <= n <= 399,
        code == "permanent"@ || code == "temporary"@ || code == decimal(n),
    ensures
        written(c, line, seq!["redir"@, target], pad, "redir "@ + target + " temporary"@),
        written(c, line, seq!["redir"@, target, code], pad, "redir "@ + target + " "@ + code),
{
    lemma_names();
    reveal_strlit("permanent");
    reveal_strlit("temporary");
    reveal_strlit(" temporary");
    reveal_strlit("redir ");
    reveal_strlit(" ");
    reveal_strlit("\n");
    lemma_plain(target);
    lemma_one(target);
    let words = seq!["redir"@, target, code];
    assert(words.subrange(1, 2) == seq![target]);
    lemma_decimal(n);
    decimal_reads_back(n, u16::MAX as nat);
    assert(code[0] != '/') by {
        if code == decimal(n) {
            assert(crate::num::digit(decimal(n)[0]));
        }
    }
    assert(redirect_word(code));
    assert("temporary"@.len() == 9);
    assert(pad + "redir "@ + target + " "@ + ("temporary"@ + "\n"@) == pad + ("redir "@ + target
        + " temporary"@) + "\n"@);
    assert(pad + "redir "@ + target + " "@ + (code + "\n"@) == pad + ("redir "@ + target + " "@
        + code) + "\n"@);
}

/// A proxy keeps its upstream, with the scheme of plain HTTP left out and port 80
/// where none is named, and its path.
pub proof fn proxies_are_kept(
    c: ConvertedView,
    line: usize,
    pad: Seq<char>,
    path: Seq<char>,
    target: Seq<char>,
)
    requires
        plain_target(target),
        path.len() > 0,
        path[0] == '/',
    ensures
        written(
            c,
            line,
            seq!["reverse_proxy"@, target],
            pad,
            "reverse_proxy "@ + with_port(target),
        ),
        written(
            c,
            line,
            seq!["reverse_proxy"@, "http://"@ + target],
            pad,
            "reverse_proxy "@ + with_port(target),
        ),
        written(
            c,
            line,
            seq!["reverse_proxy"@, path, target],
            pad,
            "reverse_proxy "@ + path + " "@ + with_port(target),
        ),
{
    lemma_names();
    reveal_strlit("reverse_proxy ");
    reveal_strlit("http://");
    reveal_strlit("\n");
    reveal_strlit(" ");
    lemma_target(target);
    lemma_http_target(target);
    reveal_with_fuel(targets_from, 3);
    assert(target[0] != '/') by {
        if target[0] == '/' {
            assert(target.contains('/'));
        }
    }
    let t = with_port(target);
    lemma_one_target(c, seq!["reverse_proxy"@, target], 1, line, target);
    lemma_one_target(c, seq!["reverse_proxy"@, "http://"@ + target], 1, line, target);
    lemma_one_target(c, seq!["reverse_proxy"@, path, target], 2, line, target);
    assert(("http://"@ + target)[0] == 'h');
    assert(pad + "reverse_proxy "@ + Seq::<char>::empty() + t + "\n"@ == pad + ("reverse_proxy "@
        + t) + "\n"@);
    assert(pad + "reverse_proxy "@ + (path + " "@) + t + "\n"@ == pad + ("reverse_proxy "@ + path
        + " "@ + t) + "\n"@);
}

/// A directive that has no counterpart writes nothing.
pub proof fn other_directives_write_nothing(c: ConvertedView, s: StmtView, pad: Seq<char>)
    requires
        s.words.len() > 0,
        s.words[0] != "reverse_proxy"@ && s.words[0] != "root"@ && s.words[0] != "file_server"@
            && s.words[0] != "handle"@ && s.words[0] != "header_up"@ && s.words[0]
            != "header_down"@ && s.words[0] != "encode"@ && s.words[0] != "redir"@,
    ensures
        directive(c, s, pad).raddyfile == c.raddyfile,
{
}

/// A `handle` block becomes a `handle` block at the same path, with its directives
/// inside, indented by four more.
pub proof fn blocks_are_kept(
    c: ConvertedView,
    line: usize,
    pad: Seq<char>,
    path: Seq<char>,
    block: Seq<StmtView>,
)
    ensures
        directive(c, (StmtView { line, words: seq!["handle"@, path], block }), pad).raddyfile
            == directives(
            put(c, pad + "handle "@ + path + " {\n"@),
            block,
            block.len(),
            pad + "    "@,
        ).raddyfile + (pad + "}\n"@),
{
    lemma_names();
    let s = StmtView { line, words: seq!["handle"@, path], block };
    assert(s.words[0] == "handle"@ && s.words[1] == path && s.words.len() == 2);
    assert(first_word(s.words) == "handle"@);
    assert(block_dropped(c, s) == c);
}

/// Caddy's names for the parts of a request are written as the ones here, and the
/// text around them stays.
pub proof fn placeholders_are_renamed(a: Seq<char>, b: Seq<char>)
    requires
        plain(a),
        plain(b),
    ensures
        renamed(a, "{http.request.host}"@, b, "{host}"@),
        renamed(a, "{host}"@, b, "{host}"@),
        renamed(a, "{http.request.uri}"@, b, "{uri}"@),
        renamed(a, "{uri}"@, b, "{uri}"@),
        renamed(a, "{http.request.remote}"@, b, "{remote_host}"@),
        renamed(a, "{remote_host}"@, b, "{remote_host}"@),
{
    reveal_strlit("{http.request.host}");
    reveal_strlit("http.request.host");
    reveal_strlit("{host}");
    reveal_strlit("host");
    reveal_strlit("{http.request.uri}");
    reveal_strlit("http.request.uri");
    reveal_strlit("{uri}");
    reveal_strlit("uri");
    reveal_strlit("{http.request.remote}");
    reveal_strlit("http.request.remote");
    reveal_strlit("{remote_host}");
    reveal_strlit("remote_host");
    assert("host"@.len() == 4);
    assert("http.request.host"@.len() == 17);
    assert("uri"@.len() == 3);
    assert("http.request.uri"@.len() == 16);
    assert("remote_host"@.len() == 11);
    assert("http.request.remote"@.len() == 19);
    lemma_renamed(a, "{http.request.host}"@, b, "http.request.host"@);
    lemma_renamed(a, "{host}"@, b, "host"@);
    lemma_renamed(a, "{http.request.uri}"@, b, "http.request.uri"@);
    lemma_renamed(a, "{uri}"@, b, "uri"@);
    lemma_renamed(a, "{http.request.remote}"@, b, "http.request.remote"@);
    lemma_renamed(a, "{remote_host}"@, b, "remote_host"@);
}

/// Whether `from` between two texts is written as `to`.
pub open spec fn renamed(a: Seq<char>, from: Seq<char>, b: Seq<char>, to: Seq<char>) -> bool {
    value_from(a + from + b, a + from + b, Seq::empty()) == Ok::<Seq<char>, Seq<char>>(a + to + b)
}

proof fn lemma_renamed(a: Seq<char>, from: Seq<char>, b: Seq<char>, name: Seq<char>)
    requires
        plain(a),
        plain(b),
        from.len() == name.len() + 2,
        from[0] == '{',
        from.last() == '}',
        forall|i: int| 0 <= i < name.len() ==> from[i + 1] == (#[trigger] name[i]) && name[i] != '}',
        crate::migrate::caddy::placeholder(name) is Some,
    ensures
        renamed(a, from, b, crate::migrate::caddy::placeholder(name)->0),
{
    let s = a + from + b;
    lemma_first_index(s, '{');
    assert(s[a.len() as int] == '{');
    let i = crate::text::first_index(s, '{');
    if i < a.len() {
        assert(a[i] == '{');
    }
    let tail = s.skip(a.len() as int);
    lemma_first_index(tail, '}');
    assert(tail[from.len() - 1] == '}');
    let e = crate::text::first_index(tail, '}');
    if e < from.len() - 1 {
        if e > 0 {
            assert(tail[e] == from[e]);
            assert(from[e - 1 + 1] == name[e - 1]);
        } else {
            assert(tail[0] == from[0]);
        }
    }
    assert(tail.subrange(1, e) == name) by {
        assert forall|k: int| 0 <= k < name.len() implies tail.subrange(1, e)[k] == name[k] by {
            assert(tail[k + 1] == from[k + 1]);
        }
    }
    assert(tail.skip(e + 1) == b);
    assert(s.take(a.len() as int) == a);
    let p = crate::migrate::caddy::placeholder(name)->0;
    lemma_rest(s, b, Seq::<char>::empty() + a + p);
    assert(Seq::<char>::empty() + a + p + b == a + p + b);
}

proof fn lemma_rest(raw: Seq<char>, rest: Seq<char>, done: Seq<char>)
    requires
        plain(rest),
    ensures
        value_from(raw, rest, done) == Ok::<Seq<char>, Seq<char>>(done + rest),
{
    lemma_first_index(rest, '{');
}

/// The first address of a site is its key: plain HTTP is served on port 80, and
/// the scheme of HTTPS goes without saying.
pub proof fn site_addresses_are_kept(host: Seq<char>)
    requires
        host.len() > 0,
        !host.contains(','),
        !host.contains(':'),
        forall|i: int| 0 <= i < host.len() ==> !crate::text::white(#[trigger] host[i]),
    ensures
        site_addr(seq![host]) == Ok::<Seq<char>, Seq<char>>(host),
        site_addr(seq!["http://"@ + host]) == Ok::<Seq<char>, Seq<char>>(host + ":80"@),
        site_addr(seq!["https://"@ + host]) == Ok::<Seq<char>, Seq<char>>(host),
{
    reveal_strlit("http://");
    reveal_strlit("https://");
    reveal_strlit("http");
    reveal_strlit("https");
    reveal_strlit("://");
    assert("http"@.len() == 4 && "https"@.len() == 5);
    assert("https"@ != "http"@);
    lemma_only_address(host);
    lemma_no_colon(host);
    lemma_scheme(host);
    lemma_only_address("http://"@ + host);
    lemma_only_address("https://"@ + host);
}

proof fn lemma_only_address(addr: Seq<char>)
    requires
        addr.len() > 0,
        !addr.contains(','),
        forall|i: int| 0 <= i < addr.len() ==> !crate::text::white(#[trigger] addr[i]),
    ensures
        crate::migrate::caddy::addresses(seq![addr]) == addr,
        crate::text::cut(addr, ',') is None,
        crate::text::trimmed(addr) == addr,
{
    lemma_joined_one(addr, ","@);
    lemma_first_index(addr, ',');
    assert(addr.skip(0) == addr);
}

proof fn lemma_no_colon(s: Seq<char>)
    requires
        !s.contains(':'),
    ensures
        crate::text::cut_at(s, "://"@) is None,
{
    reveal_strlit("://");
    lemma_never(s, "://"@, 0);
}

/// A text that does not hold the first character of another does not hold the
/// other.
proof fn lemma_never(s: Seq<char>, p: Seq<char>, i: int)
    requires
        p.len() > 0,
        0 <= i,
        !s.contains(p[0]),
    ensures
        crate::text::find_from(s, p, i) == -1,
    decreases s.len() - i,
{
    if i + p.len() <= s.len() {
        if s.subrange(i, i + p.len()) == p {
            assert(s[i] == s.subrange(i, i + p.len())[0]);
            assert(s.contains(p[0]));
        }
        if i < s.len() {
            lemma_never(s, p, i + 1);
        }
    }
}

proof fn lemma_scheme(host: Seq<char>)
    ensures
        crate::text::cut_at("http://"@ + host, "://"@) == Some(("http"@, host)),
        crate::text::cut_at("https://"@ + host, "://"@) == Some(("https"@, host)),
{
    reveal_strlit("http://");
    reveal_strlit("https://");
    reveal_strlit("http");
    reveal_strlit("https");
    reveal_strlit("://");
    let sep = "://"@;
    reveal_with_fuel(crate::text::find_from, 7);
    let a = "http://"@ + host;
    assert(a.subrange(0, 3)[0] != sep[0]);
    assert(a.subrange(1, 4)[0] != sep[0]);
    assert(a.subrange(2, 5)[0] != sep[0]);
    assert(a.subrange(3, 6)[0] != sep[0]);
    assert(a.subrange(4, 7) == sep);
    assert(a.take(4) == "http"@);
    assert(a.skip(7) == host);
    let b = "https://"@ + host;
    assert(b.subrange(0, 3)[0] != sep[0]);
    assert(b.subrange(1, 4)[0] != sep[0]);
    assert(b.subrange(2, 5)[0] != sep[0]);
    assert(b.subrange(3, 6)[0] != sep[0]);
    assert(b.subrange(4, 7)[0] != sep[0]);
    assert(b.subrange(5, 8) == sep);
    assert(b.take(5) == "https"@);
    assert(b.skip(8) == host);
}

// ---------------------------------------------------------------------------
// Targets
// ---------------------------------------------------------------------------

proof fn lemma_target(target: Seq<char>)
    requires
        plain_target(target),
    ensures
        upstream_target(target) == Ok::<Seq<char>, Seq<char>>(with_port(target)),
        crate::migrate::caddy::upstream_path(target) is None,
{
    reveal_strlit("://");
    lemma_slashless(target, 0);
    lemma_first_index(target, '/');
}

/// A text without a slash holds no scheme.
proof fn lemma_slashless(s: Seq<char>, i: int)
    requires
        0 <= i,
        !s.contains('/'),
    ensures
        crate::text::find_from(s, "://"@, i) == -1,
    decreases s.len() - i,
{
    reveal_strlit("://");
    let p = "://"@;
    if i + 3 <= s.len() {
        if s.subrange(i, i + 3) == p {
            assert(s[i + 1] == s.subrange(i, i + 3)[1]);
            assert(s.contains('/'));
        }
        if i < s.len() {
            lemma_slashless(s, i + 1);
        }
    }
}

proof fn lemma_http_target(target: Seq<char>)
    requires
        plain_target(target),
    ensures
        upstream_target("http://"@ + target) == Ok::<Seq<char>, Seq<char>>(with_port(target)),
        crate::migrate::caddy::upstream_path("http://"@ + target) is None,
{
    reveal_strlit("http://");
    lemma_scheme(target);
    lemma_first_index(target, '/');
}

proof fn lemma_one_target(
    c: ConvertedView,
    words: Seq<Seq<char>>,
    k: int,
    line: usize,
    target: Seq<char>,
)
    requires
        k + 1 == words.len(),
        0 <= k,
        upstream_target(words[k]) == Ok::<Seq<char>, Seq<char>>(with_port(target)),
        crate::migrate::caddy::upstream_path(words[k]) is None,
    ensures
        targets_from(c, words, k, line, Seq::empty()) == (seq![with_port(target)], c),
{
    reveal_with_fuel(targets_from, 3);
    assert(Seq::<Seq<char>>::empty().push(with_port(target)) == seq![with_port(target)]);
}

// ---------------------------------------------------------------------------
// Texts
// ---------------------------------------------------------------------------

proof fn lemma_plain(value: Seq<char>)
    requires
        plain(value),
    ensures
        value_from(value, value, Seq::empty()) == Ok::<Seq<char>, Seq<char>>(value),
{
    lemma_rest(value, value, Seq::empty());
    assert(Seq::<char>::empty() + value == value);
}

proof fn lemma_joined_one(s: Seq<char>, sep: Seq<char>)
    ensures
        joined(seq![s], sep) == s,
{
    reveal_with_fuel(joined, 3);
    assert(seq![s].len() == 1);
}

proof fn lemma_one(s: Seq<char>)
    ensures
        joined(seq![s], " "@) == s,
{
    lemma_joined_one(s, " "@);
}

proof fn lemma_line(before: Seq<char>, pad: Seq<char>, text: Seq<char>, a: Seq<char>, b: Seq<char>)
    requires
        text == a + b,
    ensures
        before + (pad + a + b + "\n"@) == before + (pad + text + "\n"@),
{
    assert(pad + a + b + "\n"@ == pad + text + "\n"@);
}

proof fn lemma_names()
    ensures
        "reverse_proxy"@ != "root"@,
        "reverse_proxy"@ != "file_server"@,
        "root"@ != "file_server"@,
        "handle"@ != "reverse_proxy"@,
        "handle"@ != "root"@,
        "handle"@ != "file_server"@,
        "header_up"@ != "reverse_proxy"@,
        "header_up"@ != "root"@,
        "header_up"@ != "file_server"@,
        "header_up"@ != "handle"@,
        "header_down"@ != "reverse_proxy"@,
        "header_down"@ != "root"@,
        "header_down"@ != "file_server"@,
        "header_down"@ != "handle"@,
        "redir"@ != "reverse_proxy"@,
        "redir"@ != "root"@,
        "redir"@ != "file_server"@,
        "redir"@ != "handle"@,
        "redir"@ != "header_up"@,
        "redir"@ != "header_down"@,
        "redir"@ != "encode"@,
        "handle"@ != "header_up"@,
        "handle"@ != "header_down"@,
        "handle"@ != "encode"@,
        "handle"@ != "redir"@,
{
    reveal_strlit("reverse_proxy");
    reveal_strlit("root");
    reveal_strlit("file_server");
    reveal_strlit("handle");
    reveal_strlit("header_up");
    reveal_strlit("header_down");
    reveal_strlit("redir");
    reveal_strlit("encode");
    assert("reverse_proxy"@.len() == 13);
    assert("root"@.len() == 4);
    assert("file_server"@.len() == 11);
    assert("handle"@.len() == 6);
    assert("header_up"@.len() == 9);
    assert("header_down"@.len() == 11);
    assert("redir"@.len() == 5);
    assert("encode"@.len() == 6);
    assert("header_down"@[0] != "file_server"@[0]);
    assert("handle"@[0] != "encode"@[0]);
}

} // verus!
