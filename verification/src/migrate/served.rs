//! What a location of an nginx server serves once it is converted.
use crate::config::expand::SourcesView;
use crate::migrate::nginx::{
    headers, lemma_location, lemma_proxy_pass,
    lemma_server_directives, location, location_directives, location_path, locations,
    plain_instead, redirs, server, server_body, server_cut, server_directive, server_directives,
    server_key, ServerView,
};
use crate::migrate::{apart, grew, nothing, put, ConvertedView, StmtView};
use vstd::prelude::*;

verus! {

/// Whether a statement is a directive of this name.
pub open spec fn says(s: StmtView, name: Seq<char>) -> bool {
    s.words.len() > 0 && s.words[0] == name
}

/// Whether a statement names a root.
pub open spec fn names_root(s: StmtView) -> bool {
    says(s, "root"@) && s.words.len() == 2
}

/// Whether the statement numbered `r` is the last one of `block` that names a root.
pub open spec fn is_last_root(block: Seq<StmtView>, r: int) -> bool {
    &&& 0 <= r < block.len()
    &&& names_root(block[r])
    &&& forall|j: int| r < j < block.len() ==> !names_root(#[trigger] block[j])
}

/// Whether no statement of `block` names a root.
pub open spec fn rootless(block: Seq<StmtView>) -> bool {
    forall|j: int| 0 <= j < block.len() ==> !names_root(#[trigger] block[j])
}

/// Whether a location serves files: it neither proxies nor redirects.
pub open spec fn serves_files(s: StmtView) -> bool {
    forall|j: int|
        0 <= j < s.block.len() ==> !says(#[trigger] s.block[j], "proxy_pass"@) && !says(
            s.block[j],
            "return"@,
        )
}

/// Whether a statement is a location at a path of its own.
pub open spec fn is_at_path(s: StmtView, path: Seq<char>) -> bool {
    &&& s.words.len() > 1
    &&& s.words[1] == path
    &&& path.len() > 0
    &&& path[0] == '/'
}

/// The block that serves the files below `dir` at `path`.
pub open spec fn files_at(path: Seq<char>, dir: Seq<char>) -> Seq<char> {
    "    handle "@ + path + " {\n        root "@ + dir + "\n        file_server\n    }\n"@
}

/// A location with a root of its own serves that root, the last one when it has
/// several, whatever the root of the server is.
pub proof fn a_location_serves_its_own_root(
    c: ConvertedView,
    s: StmtView,
    path: Seq<char>,
    r: int,
    root: Option<Seq<char>>,
)
    requires
        is_at_path(s, path),
        serves_files(s),
        is_last_root(s.block, r),
    ensures
        path != "/"@ ==> location(c, s, root).0.raddyfile == c.raddyfile + files_at(
            path,
            s.block[r].words[1],
        ) && !location(c, s, root).1,
        path == "/"@ ==> location(c, s, root).0.raddyfile == c.raddyfile + ("    root "@
            + s.block[r].words[1] + "\n    file_server\n"@) && location(c, s, root).1,
{
    let d = location_path(c, s).0;
    lemma_said(d, s.block, s.block.len());
    let l = location_directives(d, s.block, s.block.len()).1;
    lemma_last_root(s.block, l.root, r);
    reveal_strlit("\n");
    reveal_strlit("    file_server\n");
    reveal_strlit("\n    file_server\n");
    if path == "/"@ {
        let dir = s.block[r].words[1];
        assert(c.raddyfile + ("    root "@ + dir + "\n"@) + "    file_server\n"@ == c.raddyfile + (
        "    root "@ + dir + "\n    file_server\n"@));
    }
}

/// A location without a root of its own serves the root of the server; where the
/// server has none either, nothing is written.
pub proof fn a_location_inherits_the_root(
    c: ConvertedView,
    s: StmtView,
    path: Seq<char>,
    root: Option<Seq<char>>,
)
    requires
        is_at_path(s, path),
        serves_files(s),
        rootless(s.block),
    ensures
        path != "/"@ ==> location(c, s, root).0.raddyfile == (match root {
            Some(dir) => c.raddyfile + files_at(path, dir),
            None => c.raddyfile,
        }),
        path == "/"@ ==> location(c, s, root).0.raddyfile == (match root {
            Some(_) => c.raddyfile + "    file_server\n"@,
            None => c.raddyfile,
        }),
        location(c, s, root).1 == (path == "/"@ && root is Some),
{
    let d = location_path(c, s).0;
    lemma_said(d, s.block, s.block.len());
}

/// Whether `part` occurs in `whole`.
pub open spec fn holds(whole: Seq<char>, part: Seq<char>) -> bool {
    exists|a: Seq<char>, b: Seq<char>| whole == #[trigger] ((a + part) + b)
}

/// The root that a location of a server serves: its own last one, or else the last
/// one of the server.
pub open spec fn is_root_for(server: StmtView, s: StmtView, dir: Seq<char>) -> bool {
    ||| exists|r: int| #[trigger] is_last_root(s.block, r) && dir == s.block[r].words[1]
    ||| rootless(s.block) && exists|r: int| #[trigger]
        is_last_root(server.block, r) && dir == server.block[r].words[1]
}

/// The site that a server makes serves the files of each of its locations from the
/// root of the location, and from that of the server only where the location has
/// none. A server may be left out as a whole.
pub proof fn a_site_serves_the_roots_of_its_locations(
    src: SourcesView,
    c: ConvertedView,
    s: StmtView,
    i: int,
    path: Seq<char>,
    dir: Seq<char>,
)
    requires
        s.block.len() <= usize::MAX,
        0 <= i < s.block.len(),
        says(s.block[i], "location"@),
        is_at_path(s.block[i], path),
        path != "/"@,
        serves_files(s.block[i]),
        is_root_for(s, s.block[i], dir),
    ensures
        server(src, c, s).raddyfile == c.raddyfile || holds(
            server(src, c, s).raddyfile,
            files_at(path, dir),
        ),
{
    let b = server_cut(c, s);
    lemma_server_directives(b, s.block, s.block.len());
    let (d, v) = server_directives(b, s.block, s.block.len());
    lemma_server_said(b, s.block, s.block.len());
    let e = apart(plain_instead(d, s.line, v));
    let body = server_body(e, s.block, v);
    let text = server_key(v) + " {\n"@ + body.raddyfile + "}\n"@;
    let block = files_at(path, dir);
    lemma_body_holds(e, s, v, i, path, dir);
    lemma_holds_within(body.raddyfile, block, server_key(v) + " {\n"@, "}\n"@);
    lemma_holds_within(text, block, c.raddyfile, Seq::empty());
    assert(c.raddyfile + text + Seq::<char>::empty() == c.raddyfile + text);
}

pub(crate) proof fn lemma_holds_within(whole: Seq<char>, part: Seq<char>, pre: Seq<char>, post: Seq<char>)
    requires
        holds(whole, part),
    ensures
        holds(pre + whole + post, part),
{
    let (a, b) = choose|a: Seq<char>, b: Seq<char>| whole == #[trigger] ((a + part) + b);
    assert(pre + whole + post == ((pre + a) + part) + (b + post));
}

/// The text of a static location of a server.
proof fn lemma_one_location(
    before: ConvertedView,
    s: StmtView,
    v: ServerView,
    i: int,
    path: Seq<char>,
    dir: Seq<char>,
)
    requires
        0 <= i < s.block.len(),
        is_at_path(s.block[i], path),
        path != "/"@,
        serves_files(s.block[i]),
        is_root_for(s, s.block[i], dir),
        root_said(s.block, s.block.len() as int, v.root),
    ensures
        location(before, s.block[i], v.root).0.raddyfile == before.raddyfile + files_at(path, dir),
{
    let l = s.block[i];
    if rootless(l.block) {
        if exists|r: int| #[trigger] is_last_root(l.block, r) && dir == l.block[r].words[1] {
            let r = choose|r: int| #[trigger]
                is_last_root(l.block, r) && dir == l.block[r].words[1];
            assert(!names_root(l.block[r]));
        }
        let r = choose|r: int| #[trigger] is_last_root(s.block, r) && dir == s.block[r].words[1];
        lemma_last_root(s.block, v.root, r);
        a_location_inherits_the_root(before, l, path, v.root);
    } else {
        let r = choose|r: int| #[trigger] is_last_root(l.block, r) && dir == l.block[r].words[1];
        a_location_serves_its_own_root(before, l, path, r, v.root);
    }
}

/// The body of a site holds the text of each static location.
proof fn lemma_body_holds(
    e: ConvertedView,
    s: StmtView,
    v: ServerView,
    i: int,
    path: Seq<char>,
    dir: Seq<char>,
)
    requires
        0 <= i < s.block.len(),
        is_at_path(s.block[i], path),
        path != "/"@,
        serves_files(s.block[i]),
        is_root_for(s, s.block[i], dir),
        root_said(s.block, s.block.len() as int, v.root),
        exists|k: int| 0 <= k < v.locations.len() && #[trigger] v.locations[k] == i,
    ensures
        holds(server_body(e, s.block, v).raddyfile, files_at(path, dir)),
{
    let block = files_at(path, dir);
    let body = server_body(e, s.block, v);
    let k = choose|k: int| 0 <= k < v.locations.len() && #[trigger] v.locations[k] == i;
    let start = redirs(headers(e, v.headers, v.headers.len()), v.redirs, v.redirs.len());
    let start = match v.root {
        Some(root) => put(start, "    root "@ + root + "\n"@),
        None => start,
    };
    let before = locations(start, s.block, v, k as nat).0;
    let after = location(before, s.block[i], v.root).0;
    lemma_one_location(before, s, v, i, path, dir);
    assert(locations(start, s.block, v, (k + 1) as nat).0 == after);
    lemma_more_locations(start, s.block, v, (k + 1) as nat, v.locations.len());
    let all = locations(start, s.block, v, v.locations.len()).0;
    assert(grew(all, body));
    let pre = before.raddyfile;
    let post = body.raddyfile.skip((pre + block).len() as int);
    assert((pre + block).is_prefix_of(body.raddyfile));
    assert(body.raddyfile == (pre + block) + post);
}

// ---------------------------------------------------------------------------
// Proxies
// ---------------------------------------------------------------------------

/// A location whose last `proxy_pass` goes to a plain HTTP address proxies to that
/// address, on port 80 when it names none, whatever else the location says.
pub proof fn a_location_proxies_to_its_target(
    c: ConvertedView,
    s: StmtView,
    path: Seq<char>,
    p: int,
    host: Seq<char>,
    root: Option<Seq<char>>,
)
    requires
        is_at_path(s, path),
        0 <= p < s.block.len(),
        says(s.block[p], "proxy_pass"@),
        forall|j: int|
            p < j < s.block.len() ==> !says(#[trigger] s.block[j], "proxy_pass"@),
        s.block[p].words.len() >= 2,
        s.block[p].words[1] == "http://"@ + host,
        host.len() > 0,
        !host.contains('/'),
    ensures
        ({
            let target = if host.contains(':') {
                host
            } else {
                host + ":80"@
            };
            &&& path != "/"@ ==> location(c, s, root).0.raddyfile == c.raddyfile + (
            "    handle "@ + path + " {\n        reverse_proxy "@ + target + "\n    }\n"@)
            &&& path == "/"@ ==> location(c, s, root).0.raddyfile == c.raddyfile + (
            "    reverse_proxy "@ + target + "\n"@)
            &&& location(c, s, root).1 == (path == "/"@)
        }),
{
    let d = location_path(c, s).0;
    lemma_said(d, s.block, s.block.len());
    let l = location_directives(d, s.block, s.block.len()).1;
    let stmt = s.block[p];
    lemma_plain_target(stmt.words, stmt.line, host);
}

pub(crate) proof fn lemma_plain_target(words: Seq<Seq<char>>, line: usize, host: Seq<char>)
    requires
        words.len() >= 2,
        words[1] == "http://"@ + host,
        host.len() > 0,
        !host.contains('/'),
    ensures
        crate::migrate::nginx::proxy_pass(nothing(), words, line).1 == Some(
            if host.contains(':') {
                host
            } else {
                host + ":80"@
            },
        ),
{
    reveal_strlit("http://");
    reveal_strlit("http");
    reveal_strlit("://");
    let url = words[1];
    let sep = "://"@;
    assert(url[0] == 'h' && url[1] == 't' && url[2] == 't' && url[3] == 'p');
    assert(url.subrange(4, 7) == sep);
    reveal_with_fuel(crate::text::find_from, 6);
    assert(url.subrange(0, 3)[0] != sep[0]);
    assert(url.subrange(1, 4)[0] != sep[0]);
    assert(url.subrange(2, 5)[0] != sep[0]);
    assert(url.subrange(3, 6)[0] != sep[0]);
    assert(crate::text::find_from(url, sep, 0) == 4);
    assert(url.take(4) == "http"@);
    assert(url.skip(7) == host);
    crate::text::lemma_first_index(host, '/');
}

// ---------------------------------------------------------------------------
// What the directives say
// ---------------------------------------------------------------------------

/// Whether `root` is what the first `n` statements say last about the root.
spec fn root_said(block: Seq<StmtView>, n: int, root: Option<Seq<char>>) -> bool {
    match root {
        Some(dir) => exists|r: int|
            0 <= r < n && names_root(#[trigger] block[r]) && dir == block[r].words[1] && forall|
                j: int,
            |
                r < j < n ==> !names_root(#[trigger] block[j]),
        None => forall|j: int| 0 <= j < n ==> !names_root(#[trigger] block[j]),
    }
}

proof fn lemma_last_root(block: Seq<StmtView>, root: Option<Seq<char>>, r: int)
    requires
        root_said(block, block.len() as int, root),
        is_last_root(block, r),
    ensures
        root == Some(block[r].words[1]),
{
    if root is None {
        assert(!names_root(block[r]));
    } else {
        let q = choose|q: int|
            0 <= q < block.len() && names_root(#[trigger] block[q]) && root->0 == block[q].words[1]
                && forall|j: int| q < j < block.len() ==> !names_root(#[trigger] block[j]);
        if q < r {
            assert(!names_root(block[r]));
        } else if r < q {
            assert(!names_root(block[q]));
        }
    }
}

proof fn lemma_next_root(
    block: Seq<StmtView>,
    n: int,
    before: Option<Seq<char>>,
    after: Option<Seq<char>>,
)
    requires
        0 <= n < block.len(),
        root_said(block, n, before),
        after == (if names_root(block[n]) {
            Some(block[n].words[1])
        } else {
            before
        }),
    ensures
        root_said(block, n + 1, after),
{
    if names_root(block[n]) {
        assert(root_said(block, n + 1, Some(block[n].words[1])));
    } else if before is Some {
        let r = choose|r: int|
            0 <= r < n && names_root(#[trigger] block[r]) && before->0 == block[r].words[1]
                && forall|j: int| r < j < n ==> !names_root(#[trigger] block[j]);
        assert(names_root(block[r]));
    }
}

proof fn lemma_names_differ()
    ensures
        "root"@ != "proxy_pass"@,
        "root"@ != "return"@,
        "root"@ != "listen"@,
        "root"@ != "server_name"@,
        "root"@ != "location"@,
        "location"@ != "listen"@,
        "location"@ != "server_name"@,
        "return"@ != "proxy_pass"@,
        "root"@.len() > 0,
        "location"@.len() > 0,
        "proxy_pass"@.len() > 0,
{
    reveal_strlit("root");
    reveal_strlit("proxy_pass");
    reveal_strlit("return");
    reveal_strlit("listen");
    reveal_strlit("server_name");
    reveal_strlit("location");
    assert("root"@[1] != "return"@[1]);
    assert("location"@[1] != "listen"@[1]);
}

/// What the directives of a location say.
proof fn lemma_said(c: ConvertedView, block: Seq<StmtView>, n: nat)
    requires
        n <= block.len(),
    ensures
        ({
            let (d, l) = location_directives(c, block, n);
            &&& d.raddyfile == c.raddyfile
            &&& root_said(block, n as int, l.root)
            &&& (forall|j: int| 0 <= j < n ==> !says(#[trigger] block[j], "proxy_pass"@))
                ==> l.proxy is None
            &&& (forall|j: int| 0 <= j < n ==> !says(#[trigger] block[j], "return"@))
                ==> l.redir is None
            &&& forall|p: int|
                0 <= p < n && says(#[trigger] block[p], "proxy_pass"@) && (forall|j: int|
                    p < j < n ==> !says(#[trigger] block[j], "proxy_pass"@)) ==> l.proxy
                    == crate::migrate::nginx::proxy_pass(
                    nothing(),
                    block[p].words,
                    block[p].line,
                ).1
        }),
    decreases n,
{
    lemma_names_differ();
    if n > 0 {
        lemma_said(c, block, (n - 1) as nat);
        let (d, l) = location_directives(c, block, (n - 1) as nat);
        let s = block[n - 1];
        let (e, m) = location_directives(c, block, n);
        crate::migrate::nginx::location_directives_are_heard(d, l, s);
        lemma_proxy_pass(crate::migrate::nginx::directive_cut(d, s), s.words, s.line);
        lemma_next_root(block, n - 1, l.root, m.root);
    }
}

/// What the directives of a server say.
proof fn lemma_server_said(c: ConvertedView, block: Seq<StmtView>, n: nat)
    requires
        n <= block.len() <= usize::MAX,
    ensures
        root_said(block, n as int, server_directives(c, block, n).1.root),
        forall|i: int|
            0 <= i < n && says(#[trigger] block[i], "location"@) ==> exists|k: int|
                0 <= k < server_directives(c, block, n).1.locations.len()
                    && #[trigger] server_directives(c, block, n).1.locations[k] == i,
    decreases n,
{
    lemma_names_differ();
    if n > 0 {
        lemma_server_said(c, block, (n - 1) as nat);
        let (d, v) = server_directives(c, block, (n - 1) as nat);
        let s = block[n - 1];
        let w = server_directive(d, v, s, (n - 1) as usize).1;
        assert(w.locations == (if says(s, "location"@) {
            v.locations.push((n - 1) as usize)
        } else {
            v.locations
        }));
        lemma_next_root(block, n - 1, v.root, w.root);
        assert forall|i: int| 0 <= i < n && says(#[trigger] block[i], "location"@) implies exists|
            k: int,
        | 0 <= k < w.locations.len() && #[trigger] w.locations[k] == i by {
            if i < n - 1 {
                let k = choose|k: int| 0 <= k < v.locations.len() && v.locations[k] == i;
                assert(w.locations[k] == i);
            } else {
                assert(w.locations[v.locations.len() as int] == i);
            }
        }
    }
}

proof fn lemma_more_locations(
    c: ConvertedView,
    block: Seq<StmtView>,
    v: ServerView,
    k: nat,
    n: nat,
)
    requires
        k <= n,
    ensures
        grew(locations(c, block, v, k).0, locations(c, block, v, n).0),
    decreases n,
{
    if k < n {
        lemma_more_locations(c, block, v, k, (n - 1) as nat);
        let d = locations(c, block, v, (n - 1) as nat).0;
        lemma_location(d, block[v.locations[n - 1] as int], v.root);
    }
}

} // verus!
