//! What the site that an nginx server becomes takes over from it.
use crate::config::expand::SourcesView;
use crate::migrate::nginx::{
    headers, lemma_proxy_pass, lemma_server_directives, locations, plain_instead, proxy_pass,
    redirs, server, server_body, server_cut, server_directive, server_directives, server_key,
    value_from, ServerView,
};
use crate::migrate::served::{holds, lemma_holds_within, lemma_plain_target, says};
use crate::migrate::{apart, grew, nothing, put, ConvertedView, StmtView};
use crate::num::{decimal, decimal_reads_back, lemma_decimal};
use crate::text::{joined, lemma_first_index, lemma_last_index};
use vstd::prelude::*;

verus! {

/// Whether the statement numbered `r` is the last one with its name.
pub open spec fn is_last(block: Seq<StmtView>, r: int, name: Seq<char>) -> bool {
    &&& 0 <= r < block.len()
    &&& says(block[r], name)
    &&& forall|j: int| r < j < block.len() ==> !says(#[trigger] block[j], name)
}

/// Whether no statement has this name.
pub open spec fn never_says(block: Seq<StmtView>, name: Seq<char>) -> bool {
    forall|j: int| 0 <= j < block.len() ==> !says(#[trigger] block[j], name)
}

/// A server is left out as a whole, or becomes a site under its last name and on
/// the port of its last `listen`, port 80 when it has none.
pub proof fn a_site_has_the_name_of_its_server(
    src: SourcesView,
    c: ConvertedView,
    s: StmtView,
    q: int,
    r: int,
    host: Seq<char>,
    port: nat,
)
    requires
        s.block.len() <= usize::MAX,
        is_last(s.block, q, "server_name"@),
        s.block[q].words.len() >= 2,
        s.block[q].words[1] == host,
        host != "_"@,
        !"*."@.is_prefix_of(host),
        port <= 65535,
        never_says(s.block, "listen"@) && port == 80 || (is_last(s.block, r, "listen"@)
            && s.block[r].words.len() >= 2 && s.block[r].words[1] == decimal(port)),
    ensures
        server(src, c, s).raddyfile == c.raddyfile || (c.raddyfile + (host + ":"@ + decimal(port)
            + " {\n"@)).is_prefix_of(server(src, c, s).raddyfile),
{
    let b = server_cut(c, s);
    lemma_server_directives(b, s.block, s.block.len());
    let (d, v) = server_directives(b, s.block, s.block.len());
    lemma_name_said(b, s.block, s.block.len(), q, host);
    lemma_port_said(b, s.block, s.block.len(), r, port);
    let body = server_body(apart(plain_instead(d, s.line, v)), s.block, v);
    let key = host + ":"@ + decimal(port);
    assert(server_key(v) == key);
    let text = key + " {\n"@ + body.raddyfile + "}\n"@;
    if server(src, c, s).raddyfile != c.raddyfile {
        let whole = server(src, c, s).raddyfile;
        assert(whole == c.raddyfile + text);
        let start = c.raddyfile + (key + " {\n"@);
        assert(whole.take(start.len() as int) == start);
    }
}

/// The site of a server adds the headers that the server adds, sends the redirects
/// that the server returns, and proxies where the last `proxy_pass` of the server
/// goes, as far as they need no translation.
pub proof fn a_site_does_what_its_server_does(
    src: SourcesView,
    c: ConvertedView,
    s: StmtView,
    i: int,
    n: nat,
    host: Seq<char>,
)
    requires
        s.block.len() <= usize::MAX,
        0 <= i < s.block.len(),
        300 <= n <= 399,
        host.len() > 0,
        !host.contains('/'),
    ensures
        server(src, c, s).raddyfile != c.raddyfile && says(s.block[i], "add_header"@)
            && s.block[i].words.len() == 3 && !s.block[i].words[2].contains('$') ==> holds(
            server(src, c, s).raddyfile,
            "    header_down "@ + s.block[i].words[1] + " "@ + s.block[i].words[2] + "\n"@,
        ),
        server(src, c, s).raddyfile != c.raddyfile && says(s.block[i], "return"@)
            && s.block[i].words.len() == 3 && s.block[i].words[1] == decimal(n)
            && !s.block[i].words[2].contains('$') ==> holds(
            server(src, c, s).raddyfile,
            "    "@ + ("redir "@ + s.block[i].words[2] + " "@ + decimal(n)) + "\n"@,
        ),
        server(src, c, s).raddyfile != c.raddyfile && is_last(s.block, i, "proxy_pass"@)
            && s.block[i].words.len() >= 2 && s.block[i].words[1] == "http://"@ + host ==> holds(
            server(src, c, s).raddyfile,
            "    reverse_proxy "@ + (if host.contains(':') {
                host
            } else {
                host + ":80"@
            }) + "\n"@,
        ),
{
    let b = server_cut(c, s);
    lemma_server_directives(b, s.block, s.block.len());
    let (d, v) = server_directives(b, s.block, s.block.len());
    let e = apart(plain_instead(d, s.line, v));
    let body = server_body(e, s.block, v);
    if server(src, c, s).raddyfile != c.raddyfile {
        let stmt = s.block[i];
        if says(stmt, "add_header"@) && stmt.words.len() == 3 && !stmt.words[2].contains('$') {
            let k = lemma_header_said(b, s.block, s.block.len(), i);
            lemma_header_written(e, s.block, v, k);
            lemma_in_site(src, c, s, body, v, "    header_down "@ + stmt.words[1] + " "@
                + stmt.words[2] + "\n"@);
        }
        if says(stmt, "return"@) && stmt.words.len() == 3 && stmt.words[1] == decimal(n)
            && !stmt.words[2].contains('$') {
            let k = lemma_redirect_said(b, s.block, s.block.len(), i, n);
            lemma_redirect_written(e, s.block, v, k);
            lemma_in_site(src, c, s, body, v, "    "@ + ("redir "@ + stmt.words[2] + " "@
                + decimal(n)) + "\n"@);
        }
        if is_last(s.block, i, "proxy_pass"@) && stmt.words.len() >= 2 && stmt.words[1]
            == "http://"@ + host {
            lemma_plain_target(stmt.words, stmt.line, host);
            lemma_proxy_said(b, s.block, s.block.len(), i);
            let target = v.proxy->0;
            let text = "    reverse_proxy "@ + target + "\n"@;
            let front = body.raddyfile.take(body.raddyfile.len() - text.len());
            assert(body.raddyfile == (front + text) + Seq::<char>::empty());
            lemma_in_site(src, c, s, body, v, text);
        }
    }
}

/// A piece of the body is a piece of the site.
proof fn lemma_in_site(
    src: SourcesView,
    c: ConvertedView,
    s: StmtView,
    body: ConvertedView,
    v: ServerView,
    part: Seq<char>,
)
    requires
        server(src, c, s).raddyfile != c.raddyfile,
        ({
            let b = server_cut(c, s);
            let (d, w) = server_directives(b, s.block, s.block.len());
            v == w && d.raddyfile == b.raddyfile && body == server_body(
                apart(plain_instead(d, s.line, w)),
                s.block,
                w,
            )
        }),
        holds(body.raddyfile, part),
    ensures
        holds(server(src, c, s).raddyfile, part),
{
    let text = server_key(v) + " {\n"@ + body.raddyfile + "}\n"@;
    lemma_holds_within(body.raddyfile, part, server_key(v) + " {\n"@, "}\n"@);
    lemma_holds_within(text, part, c.raddyfile, Seq::empty());
    assert(c.raddyfile + text + Seq::<char>::empty() == c.raddyfile + text);
    assert(server(src, c, s).raddyfile == c.raddyfile + text);
}

// ---------------------------------------------------------------------------
// What the directives say
// ---------------------------------------------------------------------------

proof fn lemma_names()
    ensures
        "listen"@.len() == 6 && "server_name"@.len() == 11 && "root"@.len() == 4,
        "location"@.len() == 8 && "proxy_pass"@.len() == 10 && "add_header"@.len() == 10,
        "return"@.len() == 6,
        "listen"@ != "return"@,
        "proxy_pass"@ != "add_header"@,
        "server_name"@ != "listen"@,
        "add_header"@ != "listen"@,
        "add_header"@ != "server_name"@,
        "add_header"@ != "root"@,
        "add_header"@ != "location"@,
        "return"@ != "server_name"@,
        "return"@ != "root"@,
        "return"@ != "location"@,
        "return"@ != "proxy_pass"@,
        "return"@ != "add_header"@,
        "proxy_pass"@ != "listen"@,
        "proxy_pass"@ != "server_name"@,
        "proxy_pass"@ != "root"@,
        "proxy_pass"@ != "location"@,
{
    reveal_strlit("listen");
    reveal_strlit("server_name");
    reveal_strlit("root");
    reveal_strlit("location");
    reveal_strlit("proxy_pass");
    reveal_strlit("add_header");
    reveal_strlit("return");
    assert("listen"@[0] != "return"@[0]);
    assert("proxy_pass"@[0] != "add_header"@[0]);
}

proof fn lemma_name_said(c: ConvertedView, block: Seq<StmtView>, n: nat, q: int, host: Seq<char>)
    requires
        q < n <= block.len(),
        is_last(block, q, "server_name"@),
        block[q].words.len() >= 2,
        block[q].words[1] == host,
        host != "_"@,
        !"*."@.is_prefix_of(host),
    ensures
        server_directives(c, block, n).1.name == Some(host),
    decreases n,
{
    lemma_names();
    let (d, v) = server_directives(c, block, (n - 1) as nat);
    if n - 1 > q {
        lemma_name_said(c, block, (n - 1) as nat, q, host);
        assert(!says(block[n - 1], "server_name"@));
        assert(server_directive(d, v, block[n - 1], (n - 1) as usize).1.name == v.name);
    }
}

proof fn lemma_port_said(c: ConvertedView, block: Seq<StmtView>, n: nat, r: int, port: nat)
    requires
        n <= block.len(),
        port <= 65535,
        never_says(block, "listen"@) && port == 80 || (r < n && is_last(block, r, "listen"@)
            && block[r].words.len() >= 2 && block[r].words[1] == decimal(port)),
    ensures
        server_directives(c, block, n).1.port() == port,
        never_says(block, "listen"@) ==> server_directives(c, block, n).1.listen is None,
    decreases n,
{
    lemma_names();
    if n > 0 {
        let (d, v) = server_directives(c, block, (n - 1) as nat);
        let s = block[n - 1];
        if never_says(block, "listen"@) {
            lemma_port_said(c, block, (n - 1) as nat, r, port);
            assert(!says(s, "listen"@));
        } else if n - 1 > r {
            lemma_port_said(c, block, (n - 1) as nat, r, port);
            assert(!says(s, "listen"@));
            assert(server_directive(d, v, s, (n - 1) as usize).1.listen == v.listen);
        } else {
            lemma_decimal(port);
            decimal_reads_back(port, u16::MAX as nat);
            lemma_last_index(decimal(port), ':');
            if decimal(port).contains(':') {
                let i = choose|i: int| 0 <= i < decimal(port).len() && decimal(port)[i] == ':';
                assert(crate::num::digit(decimal(port)[i]));
            }
        }
    }
}

proof fn lemma_header_said(c: ConvertedView, block: Seq<StmtView>, n: nat, i: int) -> (k: int)
    requires
        0 <= i < n <= block.len(),
        says(block[i], "add_header"@),
        block[i].words.len() == 3,
        !block[i].words[2].contains('$'),
    ensures
        0 <= k < server_directives(c, block, n).1.headers.len(),
        server_directives(c, block, n).1.headers[k] == (block[i].words[1], block[i].words[2]),
    decreases n,
{
    lemma_names();
    let (d, v) = server_directives(c, block, (n - 1) as nat);
    let s = block[n - 1];
    let w = server_directive(d, v, s, (n - 1) as usize).1;
    if n - 1 > i {
        let k = lemma_header_said(c, block, (n - 1) as nat, i);
        assert(v.headers.is_prefix_of(w.headers));
        assert(w.headers[k] == v.headers[k]);
        k
    } else {
        let value = s.words[2];
        assert(s.words.subrange(2, 3) == seq![value]);
        assert(joined(seq![value], " "@) == value);
        lemma_no_variable(value);
        v.headers.len() as int
    }
}

proof fn lemma_no_variable(value: Seq<char>)
    requires
        !value.contains('$'),
    ensures
        value_from(value, Seq::empty()) == Ok::<Seq<char>, Seq<char>>(value),
{
    lemma_first_index(value, '$');
    assert(Seq::<char>::empty() + value == value);
}

proof fn lemma_redirect_said(c: ConvertedView, block: Seq<StmtView>, n: nat, i: int, code: nat)
    -> (k: int)
    requires
        0 <= i < n <= block.len(),
        says(block[i], "return"@),
        300 <= code <= 399,
        block[i].words.len() == 3,
        block[i].words[1] == decimal(code),
        !block[i].words[2].contains('$'),
    ensures
        0 <= k < server_directives(c, block, n).1.redirs.len(),
        server_directives(c, block, n).1.redirs[k] == "redir "@ + block[i].words[2] + " "@
            + decimal(code),
    decreases n,
{
    lemma_names();
    let (d, v) = server_directives(c, block, (n - 1) as nat);
    let s = block[n - 1];
    let w = server_directive(d, v, s, (n - 1) as usize).1;
    if n - 1 > i {
        let k = lemma_redirect_said(c, block, (n - 1) as nat, i, code);
        assert(v.redirs.is_prefix_of(w.redirs));
        assert(w.redirs[k] == v.redirs[k]);
        k
    } else {
        lemma_no_variable(s.words[2]);
        decimal_reads_back(code, u16::MAX as nat);
        v.redirs.len() as int
    }
}

proof fn lemma_proxy_said(c: ConvertedView, block: Seq<StmtView>, n: nat, i: int)
    requires
        i < n <= block.len(),
        is_last(block, i, "proxy_pass"@),
        proxy_pass(nothing(), block[i].words, block[i].line).1 is Some,
    ensures
        server_directives(c, block, n).1.proxy == proxy_pass(
            nothing(),
            block[i].words,
            block[i].line,
        ).1,
    decreases n,
{
    lemma_names();
    let (d, v) = server_directives(c, block, (n - 1) as nat);
    let s = block[n - 1];
    if n - 1 > i {
        lemma_proxy_said(c, block, (n - 1) as nat, i);
        assert(!says(s, "proxy_pass"@));
        assert(server_directive(d, v, s, (n - 1) as usize).1.proxy == v.proxy);
    } else {
        lemma_proxy_pass(crate::migrate::nginx::directive_cut(d, s), s.words, s.line);
    }
}

// ---------------------------------------------------------------------------
// What the body holds
// ---------------------------------------------------------------------------

/// A text that starts with one that ends in `part` holds it.
proof fn lemma_start_holds(whole: Seq<char>, front: Seq<char>, part: Seq<char>)
    requires
        (front + part).is_prefix_of(whole),
    ensures
        holds(whole, part),
{
    let rest = whole.skip((front + part).len() as int);
    assert(whole == (front + part) + rest);
}

proof fn lemma_more_headers(
    c: ConvertedView,
    hs: Seq<(Seq<char>, Seq<char>)>,
    k: nat,
    n: nat,
)
    requires
        k <= n,
    ensures
        grew(headers(c, hs, k), headers(c, hs, n)),
    decreases n,
{
    if k < n {
        lemma_more_headers(c, hs, k, (n - 1) as nat);
    }
}

proof fn lemma_more_redirs(c: ConvertedView, rs: Seq<Seq<char>>, k: nat, n: nat)
    requires
        k <= n,
    ensures
        grew(redirs(c, rs, k), redirs(c, rs, n)),
    decreases n,
{
    if k < n {
        lemma_more_redirs(c, rs, k, (n - 1) as nat);
    }
}

/// What stands before the locations of a site starts its body.
proof fn lemma_body_goes_on(e: ConvertedView, block: Seq<StmtView>, v: ServerView)
    ensures
        grew(
            redirs(headers(e, v.headers, v.headers.len()), v.redirs, v.redirs.len()),
            server_body(e, block, v),
        ),
{
    let c = redirs(headers(e, v.headers, v.headers.len()), v.redirs, v.redirs.len());
    let d = match v.root {
        Some(dir) => put(c, "    root "@ + dir + "\n"@),
        None => c,
    };
    assert(grew(c, d));
    crate::migrate::nginx::lemma_locations(d, block, v, v.locations.len());
    let f = locations(d, block, v, v.locations.len()).0;
    assert(grew(f, server_body(e, block, v)));
}

proof fn lemma_header_written(e: ConvertedView, block: Seq<StmtView>, v: ServerView, k: int)
    requires
        0 <= k < v.headers.len(),
    ensures
        holds(
            server_body(e, block, v).raddyfile,
            "    header_down "@ + v.headers[k].0 + " "@ + v.headers[k].1 + "\n"@,
        ),
{
    let hs = v.headers;
    let text = "    header_down "@ + hs[k].0 + " "@ + hs[k].1 + "\n"@;
    let before = headers(e, hs, k as nat);
    lemma_more_headers(e, hs, (k + 1) as nat, hs.len());
    lemma_more_redirs(headers(e, hs, hs.len()), v.redirs, 0, v.redirs.len());
    lemma_body_goes_on(e, block, v);
    assert(headers(e, hs, (k + 1) as nat) == put(before, text));
    lemma_start_holds(server_body(e, block, v).raddyfile, before.raddyfile, text);
}

proof fn lemma_redirect_written(e: ConvertedView, block: Seq<StmtView>, v: ServerView, k: int)
    requires
        0 <= k < v.redirs.len(),
    ensures
        holds(server_body(e, block, v).raddyfile, "    "@ + v.redirs[k] + "\n"@),
{
    let h = headers(e, v.headers, v.headers.len());
    let text = "    "@ + v.redirs[k] + "\n"@;
    let before = redirs(h, v.redirs, k as nat);
    lemma_more_redirs(h, v.redirs, (k + 1) as nat, v.redirs.len());
    lemma_body_goes_on(e, block, v);
    assert(redirs(h, v.redirs, (k + 1) as nat) == put(before, text));
    lemma_start_holds(server_body(e, block, v).raddyfile, before.raddyfile, text);
}

} // verus!
