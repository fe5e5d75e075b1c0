//! Conversion of an nginx configuration, a common subset.
//!
//! The subset: `server` blocks with `listen` and `server_name`, `root`,
//! `location` blocks with `proxy_pass` (plain HTTP) or `root`, a `proxy_pass` of
//! the server, `add_header` and `return <3xx> <url>`. Static files are served by
//! `file_server`. Variables are mapped to placeholders. Anything else is skipped
//! with a warning.
use crate::config::ast::{add_to, Dup};
use crate::config::expand::{no_sources, Sources, SourcesView};
use crate::migrate::{
    apart, first_word, grew, head_word, is_3xx, is_site, left_a_trace, makes_site, nothing,
    parse_stmts, put, rejoined, statements, stmt_view, stmts_view, three_hundred, warned, Converted,
    ConvertedView, Stmt, StmtView,
};
use crate::num::{decimal, decimal_string, number, parse_u16};
use crate::text::{
    after, alphanumeric, cat2, cat3, cat4, cat5, chars_of, contains_char, cut, cut_at, find_char,
    first_index, is_alphanumeric, is_empty, join, joined, lemma_first_index, lines, lines_in,
    opens_with, owned, part, rcut, rsplit_once, same, split_at, split_once, starts_with_char,
    strip_prefix, trim, trimmed,
};
use vstd::prelude::*;

verus! {

/// A conversion with a warning about a line.
pub open spec fn warn_of(c: ConvertedView, line: usize, message: Seq<char>) -> ConvertedView {
    warned(c, "nginx"@, line, message)
}

fn warn(c: &mut Converted, line: usize, message: &str)
    ensures
        final(c).deep_view() == warn_of(old(c).deep_view(), line, message@),
{
    c.warn("nginx", line, message);
}

// ---------------------------------------------------------------------------
// Values
// ---------------------------------------------------------------------------

/// Where the name of a variable ends, from `i` on.
pub open spec fn name_end(s: Seq<char>, i: int) -> int
    decreases s.len() - i,
{
    if i < 0 || i >= s.len() || !(alphanumeric(s[i]) || s[i] == '_') {
        i
    } else {
        name_end(s, i + 1)
    }
}

/// The placeholder that stands for a variable.
pub open spec fn variable(name: Seq<char>) -> Option<Seq<char>> {
    if name == "host"@ {
        Some("{host}"@)
    } else if name == "uri"@ || name == "request_uri"@ {
        Some("{uri}"@)
    } else if name == "remote_addr"@ {
        Some("{remote_host}"@)
    } else {
        None
    }
}

fn map_variable(name: &str) -> (r: Option<&'static str>)
    ensures
        match r {
            Some(p) => variable(name@) == Some(p@),
            None => variable(name@) is None,
        },
{
    if same(name, "host") {
        Some("{host}")
    } else if same(name, "uri") || same(name, "request_uri") {
        Some("{uri}")
    } else if same(name, "remote_addr") {
        Some("{remote_host}")
    } else {
        None
    }
}

/// The value `rest` with its variables mapped, after `done`.
pub open spec fn value_from(rest: Seq<char>, done: Seq<char>) -> Result<Seq<char>, Seq<char>>
    decreases rest.len(),
{
    let a = first_index(rest, '$');
    if a < 0 || a >= rest.len() {
        Ok(done + rest)
    } else {
        let tail = rest.skip(a + 1);
        let e = name_end(tail, 0);
        let name = tail.take(e);
        match variable(name) {
            None => Err("unsupported nginx variable '$"@ + name + "'"@),
            Some(p) => if 0 <= e <= tail.len() {
                value_from(tail.skip(e), done + rest.take(a) + p)
            } else {
                Ok(done)
            },
        }
    }
}

fn end_of_name(s: &str) -> (r: usize)
    ensures
        r == name_end(s@, 0),
        r <= s@.len(),
{
    let chars = chars_of(s);
    let mut i: usize = 0;
    while i < chars.len() && (is_alphanumeric(chars[i]) || chars[i] == '_')
        invariant
            i <= chars@.len(),
            chars@ == s@,
            name_end(s@, 0) == name_end(s@, i as int),
        decreases chars@.len() - i,
    {
        i += 1;
    }
    i
}

/// Map the variables of a value to placeholders.
pub fn map_nginx_value(raw: &str) -> (r: Result<String, String>)
    ensures
        match (r, value_from(raw@, Seq::empty())) {
            (Ok(a), Ok(b)) => a@ == b,
            (Err(a), Err(b)) => a@ == b,
            _ => false,
        },
{
    let mut out = String::new();
    let mut rest: &str = raw;
    loop
        invariant
            value_from(raw@, Seq::empty()) == value_from(rest@, out@),
        decreases rest@.len(),
    {
        let n: usize = rest.unicode_len();
        proof {
            lemma_first_index(rest@, '$');
        }
        match find_char(rest, '$') {
            None => {
                out.append(rest);
                return Ok(out);
            },
            Some(a) => {
                let head = part(rest, 0, a);
                let tail = part(rest, a + 1, n);
                assert(rest@.take(a as int) == head@);
                assert(rest@.skip(a + 1) == tail@);
                let e: usize = end_of_name(tail);
                let name = part(tail, 0, e);
                assert(tail@.take(e as int) == name@);
                match map_variable(name) {
                    None => {
                        return Err(cat3("unsupported nginx variable '$", name, "'"));
                    },
                    Some(p) => {
                        out.append(head);
                        out.append(p);
                        let next = part(tail, e, n - a - 1);
                        assert(tail@.skip(e as int) == next@);
                        rest = next;
                    },
                }
            },
        }
    }
}

/// The port of a `listen` line, and whether it asks for TLS.
pub open spec fn listen(words: Seq<Seq<char>>) -> Result<(u16, bool), Seq<char>> {
    if words.len() < 2 {
        Err("listen requires a port"@)
    } else {
        let port = match rcut(words[1], ':') {
            Some((_, p)) => p,
            None => words[1],
        };
        match number(port, u16::MAX as nat) {
            None => Err("invalid listen address '"@ + words[1] + "'"@),
            Some(n) => Ok(
                (n as u16, exists|i: int| 1 <= i < words.len() && #[trigger] words[i] == "ssl"@),
            ),
        }
    }
}

/// Read a `listen` line.
pub fn parse_listen(words: &Vec<String>) -> (r: Result<(u16, bool), String>)
    ensures
        match (r, listen(words.deep_view())) {
            (Ok(a), Ok(b)) => a == b,
            (Err(a), Err(b)) => a@ == b,
            _ => false,
        },
{
    let ghost all = words.deep_view();
    if words.len() < 2 {
        return Err(owned("listen requires a port"));
    }
    assert(all[1] == words@[1]@);
    let spec = words[1].as_str();
    let text = match rsplit_once(spec, ':') {
        Some((_, p)) => p,
        None => spec,
    };
    let port = match parse_u16(text) {
        Some(p) => p,
        None => {
            return Err(cat3("invalid listen address '", spec, "'"));
        },
    };
    let mut i: usize = 1;
    while i < words.len()
        invariant
            1 <= i <= words@.len(),
            all == words.deep_view(),
            forall|j: int| 1 <= j < i ==> #[trigger] all[j] != "ssl"@,
            listen(all) == Ok::<(u16, bool), Seq<char>>(
                (port, exists|k: int| 1 <= k < all.len() && #[trigger] all[k] == "ssl"@),
            ),
        decreases words@.len() - i,
    {
        assert(all[i as int] == words@[i as int]@);
        if same(words[i].as_str(), "ssl") {
            return Ok((port, true));
        }
        i += 1;
    }
    Ok((port, false))
}

/// A conversion with a warning about each parameter of a `listen` line from `i` on
/// but `ssl`.
pub open spec fn parameters_dropped(
    c: ConvertedView,
    words: Seq<Seq<char>>,
    i: int,
    line: usize,
) -> ConvertedView
    decreases words.len() - i,
{
    if i < 0 || i >= words.len() {
        c
    } else if words[i] == "ssl"@ {
        parameters_dropped(c, words, i + 1, line)
    } else {
        parameters_dropped(
            warn_of(c, line, "listen parameter '"@ + words[i] + "' dropped"@),
            words,
            i + 1,
            line,
        )
    }
}

/// A conversion with a warning about what a `listen` line says beyond its port and
/// `ssl`: an address, and other parameters.
pub open spec fn listen_cut(c: ConvertedView, words: Seq<Seq<char>>, line: usize) -> ConvertedView {
    let c = match rcut(words[1], ':') {
        Some((host, _)) => if host.len() > 0 {
            warn_of(c, line, "listen address '"@ + host + "' dropped"@)
        } else {
            c
        },
        None => c,
    };
    parameters_dropped(c, words, 2, line)
}

fn warn_of_listen(c: &mut Converted, words: &Vec<String>, line: usize)
    requires
        words@.len() > 1,
    ensures
        final(c).deep_view() == listen_cut(old(c).deep_view(), words.deep_view(), line),
{
    let ghost all = words.deep_view();
    let ghost want = listen_cut(c.deep_view(), all, line);
    assert(all[1] == words@[1]@);
    if let Some((host, _)) = rsplit_once(words[1].as_str(), ':') {
        if !is_empty(host) {
            let m = cat3("listen address '", host, "' dropped");
            warn(c, line, m.as_str());
        }
    }
    let mut i: usize = 2;
    while i < words.len()
        invariant
            2 <= i <= words@.len(),
            all == words.deep_view(),
            want == parameters_dropped(c.deep_view(), all, i as int, line),
        decreases words@.len() - i,
    {
        assert(all[i as int] == words@[i as int]@);
        if !same(words[i].as_str(), "ssl") {
            let m = cat3("listen parameter '", words[i].as_str(), "' dropped");
            warn(c, line, m.as_str());
        }
        i += 1;
    }
}

/// Whether a directive that is converted takes no block.
pub open spec fn takes_no_block(name: Seq<char>) -> bool {
    ||| name == "listen"@
    ||| name == "server_name"@
    ||| name == "root"@
    ||| name == "proxy_pass"@
    ||| name == "add_header"@
    ||| name == "return"@
}

/// A conversion with a warning about what a directive does not take: a block, and
/// words behind the target of a `proxy_pass`.
pub open spec fn directive_cut(c: ConvertedView, s: StmtView) -> ConvertedView {
    let name = first_word(s.words);
    let c = if s.block.len() > 0 && takes_no_block(name) {
        warn_of(c, s.line, "block of '"@ + name + "' dropped"@)
    } else {
        c
    };
    if name == "proxy_pass"@ && s.words.len() > 2 {
        warn_of(c, s.line, "arguments behind the proxy_pass target dropped"@)
    } else {
        c
    }
}

fn warn_of_cut(c: &mut Converted, s: &Stmt)
    ensures
        final(c).deep_view() == directive_cut(old(c).deep_view(), stmt_view(*s)),
{
    let name = head_word(&s.words);
    if s.block.len() > 0 && (same(name, "listen") || same(name, "server_name") || same(
        name,
        "root",
    ) || same(name, "proxy_pass") || same(name, "add_header") || same(name, "return")) {
        let m = cat3("block of '", name, "' dropped");
        warn(c, s.line, m.as_str());
    }
    if same(name, "proxy_pass") && s.words.len() > 2 {
        warn(c, s.line, "arguments behind the proxy_pass target dropped");
    }
}

/// The host and port that a `proxy_pass` without its scheme names; a path is
/// dropped with a warning.
pub open spec fn without_path(c: ConvertedView, line: usize, rest: Seq<char>) -> (
    ConvertedView,
    Seq<char>,
) {
    match cut(rest, '/') {
        Some((host, path)) => if path.len() > 0 {
            (warn_of(c, line, "proxy_pass URI path '/"@ + path + "' dropped"@), host)
        } else {
            (c, host)
        },
        None => (c, rest),
    }
}

/// The upstream of a `proxy_pass`, plain HTTP with port 80 when it names none.
pub open spec fn proxy_pass(c: ConvertedView, words: Seq<Seq<char>>, line: usize) -> (
    ConvertedView,
    Option<Seq<char>>,
) {
    if words.len() < 2 {
        (warn_of(c, line, "proxy_pass requires a target; skipped"@), None)
    } else {
        let url = words[1];
        match cut_at(url, "://"@) {
            Some((scheme, rest)) => if scheme == "http"@ {
                proxied(c, line, rest)
            } else if scheme == "https"@ {
                (
                    warn_of(
                        c,
                        line,
                        "https proxy_pass '"@ + url
                            + "' skipped (raddy supports plain-HTTP upstreams only)"@,
                    ),
                    None,
                )
            } else {
                (warn_of(c, line, "unsupported proxy_pass scheme '"@ + scheme + "'"@), None)
            },
            None => proxied(c, line, url),
        }
    }
}

/// The upstream that the part of a `proxy_pass` after its scheme names.
pub open spec fn proxied(c: ConvertedView, line: usize, rest: Seq<char>) -> (
    ConvertedView,
    Option<Seq<char>>,
) {
    let (c, host) = without_path(c, line, rest);
    if host.len() == 0 {
        (warn_of(c, line, "empty proxy_pass target"@), None)
    } else if host.contains(':') {
        (c, Some(host))
    } else {
        (c, Some(host + ":80"@))
    }
}

/// Whether an optional text is the one that a model describes.
pub open spec fn is_text(a: Option<String>, b: Option<Seq<char>>) -> bool {
    match (a, b) {
        (Some(x), Some(y)) => x@ == y,
        (None, None) => true,
        _ => false,
    }
}

/// Map the target of a `proxy_pass` to an upstream, or warn.
pub fn map_proxy_pass(c: &mut Converted, words: &Vec<String>, line: usize) -> (r: Option<String>)
    ensures
        final(c).deep_view() == proxy_pass(old(c).deep_view(), words.deep_view(), line).0,
        is_text(r, proxy_pass(old(c).deep_view(), words.deep_view(), line).1),
{
    if words.len() < 2 {
        warn(c, line, "proxy_pass requires a target; skipped");
        return None;
    }
    assert(words.deep_view()[1] == words@[1]@);
    let url = words[1].as_str();
    let rest = match split_at(url, "://") {
        Some((scheme, rest)) => {
            if same(scheme, "http") {
                rest
            } else if same(scheme, "https") {
                let m = cat3(
                    "https proxy_pass '",
                    url,
                    "' skipped (raddy supports plain-HTTP upstreams only)",
                );
                warn(c, line, m.as_str());
                return None;
            } else {
                let m = cat3("unsupported proxy_pass scheme '", scheme, "'");
                warn(c, line, m.as_str());
                return None;
            }
        },
        None => url,
    };
    let host = match split_once(rest, '/') {
        Some((host, path)) => {
            if !is_empty(path) {
                let m = cat3("proxy_pass URI path '/", path, "' dropped");
                warn(c, line, m.as_str());
            }
            host
        },
        None => rest,
    };
    if is_empty(host) {
        warn(c, line, "empty proxy_pass target");
        return None;
    }
    if contains_char(host, ':') {
        Some(owned(host))
    } else {
        Some(cat2(host, ":80"))
    }
}

/// The name of a site for a server name: none for the catch-all `_`, and the
/// parent of a wildcard.
pub open spec fn site_name(c: ConvertedView, name: Seq<char>, line: usize) -> (
    ConvertedView,
    Option<Seq<char>>,
) {
    if name == "_"@ {
        (
            warn_of(c, line, "server_name '_' is a catch-all; using a :port catch-all site"@),
            None,
        )
    } else {
        match after(name, "*."@) {
            Some(rest) => (
                warn_of(
                    c,
                    line,
                    "wildcard server_name '"@ + name + "' approximated to '"@ + rest + "'"@,
                ),
                Some(rest),
            ),
            None => (c, Some(name)),
        }
    }
}

/// Map a server name to the name of a site, or warn.
pub fn normalize_server_name(c: &mut Converted, name: &str, line: usize) -> (r: Option<String>)
    ensures
        final(c).deep_view() == site_name(old(c).deep_view(), name@, line).0,
        is_text(r, site_name(old(c).deep_view(), name@, line).1),
{
    if same(name, "_") {
        warn(c, line, "server_name '_' is a catch-all; using a :port catch-all site");
        return None;
    }
    match strip_prefix(name, "*.") {
        Some(rest) => {
            let m = cat5("wildcard server_name '", name, "' approximated to '", rest, "'");
            warn(c, line, m.as_str());
            Some(owned(rest))
        },
        None => Some(owned(name)),
    }
}

/// The redirect that a `return` makes: its address and status code.
pub open spec fn returned(c: ConvertedView, s: StmtView) -> (
    ConvertedView,
    Option<(Seq<char>, Seq<char>)>,
) {
    if s.words.len() == 3 && three_hundred(s.words[1]) {
        match value_from(s.words[2], Seq::empty()) {
            Ok(url) => (c, Some((url, s.words[1]))),
            Err(e) => (warn_of(c, s.line, "return: "@ + e + "; skipped"@), None),
        }
    } else {
        (warn_of(c, s.line, "only 'return <3xx> <url>' is supported; skipped"@), None)
    }
}

fn map_return(c: &mut Converted, s: &Stmt) -> (r: Option<(String, String)>)
    ensures
        final(c).deep_view() == returned(old(c).deep_view(), stmt_view(*s)).0,
        match (r, returned(old(c).deep_view(), stmt_view(*s)).1) {
            (Some((a, b)), Some((x, y))) => a@ == x && b@ == y,
            (None, None) => true,
            _ => false,
        },
{
    let ghost words = s.words.deep_view();
    if s.words.len() == 3 {
        assert(words[1] == s.words@[1]@ && words[2] == s.words@[2]@);
        if is_3xx(s.words[1].as_str()) {
            return match map_nginx_value(s.words[2].as_str()) {
                Ok(url) => Some((url, s.words[1].dup())),
                Err(e) => {
                    let m = cat3("return: ", e.as_str(), "; skipped");
                    warn(c, s.line, m.as_str());
                    None
                },
            };
        }
    }
    warn(c, s.line, "only 'return <3xx> <url>' is supported; skipped");
    None
}

// ---------------------------------------------------------------------------
// Servers
// ---------------------------------------------------------------------------

/// What the directives of a server say.
struct Server {
    /// The port of the last `listen`, and whether it asks for TLS.
    listen: Option<(u16, bool)>,
    /// Whether there was a `server_name`.
    named: bool,
    name: Option<String>,
    root: Option<String>,
    /// Where the locations stand in the block.
    locations: Vec<usize>,
    proxy: Option<String>,
    headers: Vec<(String, String)>,
    redirs: Vec<String>,
}

/// The model of what the directives of a server say.
#[verifier::ext_equal]
pub ghost struct ServerView {
    pub listen: Option<(u16, bool)>,
    pub named: bool,
    pub name: Option<Seq<char>>,
    pub root: Option<Seq<char>>,
    pub locations: Seq<usize>,
    pub proxy: Option<Seq<char>>,
    pub headers: Seq<(Seq<char>, Seq<char>)>,
    pub redirs: Seq<Seq<char>>,
}

impl DeepView for Server {
    type V = ServerView;

    closed spec fn deep_view(&self) -> ServerView {
        ServerView {
            listen: self.listen,
            named: self.named,
            name: self.name.deep_view(),
            root: self.root.deep_view(),
            locations: self.locations@,
            proxy: self.proxy.deep_view(),
            headers: self.headers.deep_view(),
            redirs: self.redirs.deep_view(),
        }
    }
}

/// A server before its first directive.
pub open spec fn new_server() -> ServerView {
    ServerView {
        listen: None,
        named: false,
        name: None,
        root: None,
        locations: Seq::empty(),
        proxy: None,
        headers: Seq::empty(),
        redirs: Seq::empty(),
    }
}

impl ServerView {
    /// The port of the site that the server makes.
    pub open spec fn port(self) -> u16 {
        match self.listen {
            Some((port, _)) => port,
            None => 80,
        }
    }

    /// Whether the server asks for TLS.
    pub open spec fn ssl(self) -> bool {
        match self.listen {
            Some((_, ssl)) => ssl,
            None => false,
        }
    }
}

/// A conversion with a warning about a directive that takes the place of an
/// earlier one, when there was one.
pub open spec fn replaced(c: ConvertedView, line: usize, name: Seq<char>, earlier: bool)
    -> ConvertedView {
    if earlier {
        warn_of(c, line, "repeated '"@ + name + "'; the last one is used"@)
    } else {
        c
    }
}

fn warn_of_repeat(c: &mut Converted, line: usize, name: &str, earlier: bool)
    ensures
        final(c).deep_view() == replaced(old(c).deep_view(), line, name@, earlier),
{
    if earlier {
        let m = cat3("repeated '", name, "'; the last one is used");
        warn(c, line, m.as_str());
    }
}

/// What a directive of a server says; `i` is where it stands in the block.
pub open spec fn server_directive(c: ConvertedView, v: ServerView, s: StmtView, i: usize) -> (
    ConvertedView,
    ServerView,
) {
    let name = first_word(s.words);
    let c = directive_cut(c, s);
    if name == "listen"@ {
        match listen(s.words) {
            Ok(l) => (
                listen_cut(
                    replaced(c, s.line, "listen"@, v.listen is Some),
                    s.words,
                    s.line,
                ),
                ServerView { listen: Some(l), ..v },
            ),
            Err(e) => (warn_of(c, s.line, e), v),
        }
    } else if name == "server_name"@ {
        let c = if s.words.len() > 2 {
            warn_of(c, s.line, "multiple server_name; using the first"@)
        } else {
            c
        };
        if s.words.len() > 1 {
            let c = replaced(c, s.line, "server_name"@, v.named);
            let (c, name) = site_name(c, s.words[1], s.line);
            (c, ServerView { named: true, name, ..v })
        } else {
            (warn_of(c, s.line, "server_name with no value; skipped"@), v)
        }
    } else if name == "root"@ {
        if s.words.len() == 2 {
            (
                replaced(c, s.line, "root"@, v.root is Some),
                ServerView { root: Some(s.words[1]), ..v },
            )
        } else {
            (warn_of(c, s.line, "root expects exactly one path; skipped"@), v)
        }
    } else if name == "location"@ {
        (c, ServerView { locations: v.locations.push(i), ..v })
    } else if name == "proxy_pass"@ {
        let (c, target) = proxy_pass(c, s.words, s.line);
        if target is Some {
            (
                replaced(c, s.line, "proxy_pass"@, v.proxy is Some),
                ServerView { proxy: target, ..v },
            )
        } else {
            (c, v)
        }
    } else if name == "add_header"@ {
        if s.words.len() >= 3 {
            match value_from(joined(s.words.subrange(2, s.words.len() as int), " "@), Seq::empty()) {
                Ok(value) => (
                    c,
                    ServerView { headers: v.headers.push((s.words[1], value)), ..v },
                ),
                Err(e) => (warn_of(c, s.line, "add_header: "@ + e + "; skipped"@), v),
            }
        } else {
            (warn_of(c, s.line, "add_header requires a name and value; skipped"@), v)
        }
    } else if name == "return"@ {
        match returned(c, s) {
            (c, Some((url, code))) => (
                c,
                ServerView { redirs: v.redirs.push("redir "@ + url + " "@ + code), ..v },
            ),
            (c, None) => (c, v),
        }
    } else {
        (warn_of(c, s.line, "unsupported directive '"@ + name + "'; skipped"@), v)
    }
}

/// What the first `n` directives of a server say.
pub open spec fn server_directives(c: ConvertedView, block: Seq<StmtView>, n: nat) -> (
    ConvertedView,
    ServerView,
)
    decreases n,
{
    if n == 0 {
        (c, new_server())
    } else {
        let (c, v) = server_directives(c, block, (n - 1) as nat);
        server_directive(c, v, block[n - 1], (n - 1) as usize)
    }
}

fn read_directive(c: &mut Converted, v: &mut Server, s: &Stmt, i: usize)
    ensures
        (final(c).deep_view(), final(v).deep_view()) == server_directive(
            old(c).deep_view(),
            old(v).deep_view(),
            stmt_view(*s),
            i,
        ),
{
    let n: usize = s.words.len();
    let ghost words = s.words.deep_view();
    assert(n > 1 ==> words[1] == s.words@[1]@);
    let name = head_word(&s.words);
    warn_of_cut(c, s);
    if same(name, "listen") {
        match parse_listen(&s.words) {
            Ok(l) => {
                warn_of_repeat(c, s.line, "listen", v.listen.is_some());
                warn_of_listen(c, &s.words, s.line);
                v.listen = Some(l);
            },
            Err(e) => {
                warn(c, s.line, e.as_str());
            },
        }
    } else if same(name, "server_name") {
        if n > 2 {
            warn(c, s.line, "multiple server_name; using the first");
        }
        if n > 1 {
            warn_of_repeat(c, s.line, "server_name", v.named);
            v.named = true;
            v.name = normalize_server_name(c, s.words[1].as_str(), s.line);
        } else {
            warn(c, s.line, "server_name with no value; skipped");
        }
    } else if same(name, "root") {
        if n == 2 {
            warn_of_repeat(c, s.line, "root", v.root.is_some());
            v.root = Some(s.words[1].dup());
        } else {
            warn(c, s.line, "root expects exactly one path; skipped");
        }
    } else if same(name, "location") {
        v.locations.push(i);
    } else if same(name, "proxy_pass") {
        if let Some(target) = map_proxy_pass(c, &s.words, s.line) {
            warn_of_repeat(c, s.line, "proxy_pass", v.proxy.is_some());
            v.proxy = Some(target);
        }
    } else if same(name, "add_header") {
        if n >= 3 {
            let raw = join(&s.words, 2, n, " ");
            match map_nginx_value(raw.as_str()) {
                Ok(value) => {
                    add_to(&mut v.headers, (s.words[1].dup(), value));
                },
                Err(e) => {
                    let m = cat3("add_header: ", e.as_str(), "; skipped");
                    warn(c, s.line, m.as_str());
                },
            }
        } else {
            warn(c, s.line, "add_header requires a name and value; skipped");
        }
    } else if same(name, "return") {
        if let Some((url, code)) = map_return(c, s) {
            add_to(&mut v.redirs, cat4("redir ", url.as_str(), " ", code.as_str()));
        }
    } else {
        let m = cat3("unsupported directive '", name, "'; skipped");
        warn(c, s.line, m.as_str());
    }
}

// ---------------------------------------------------------------------------
// Locations
// ---------------------------------------------------------------------------

/// The path of a location, or a warning.
pub open spec fn location_path(c: ConvertedView, s: StmtView) -> (ConvertedView, Option<Seq<char>>) {
    if s.words.len() > 1 && opens_with(s.words[1], '/') {
        if s.words.len() > 2 {
            (warn_of(c, s.line, "arguments behind the location path dropped"@), Some(s.words[1]))
        } else {
            (c, Some(s.words[1]))
        }
    } else if s.words.len() > 1 && s.words[1] == "="@ {
        (warn_of(c, s.line, "exact-match location '=' is not supported; skipped"@), None)
    } else if s.words.len() > 1 && (s.words[1] == "~"@ || s.words[1] == "~*"@ || s.words[1]
        == "^~"@) {
        (warn_of(c, s.line, "regex/preferential location is not supported; skipped"@), None)
    } else {
        (warn_of(c, s.line, "location requires a path; skipped"@), None)
    }
}

fn path_of<'a>(c: &mut Converted, s: &'a Stmt) -> (r: Option<&'a str>)
    ensures
        final(c).deep_view() == location_path(old(c).deep_view(), stmt_view(*s)).0,
        match (r, location_path(old(c).deep_view(), stmt_view(*s)).1) {
            (Some(a), Some(b)) => a@ == b,
            (None, None) => true,
            _ => false,
        },
{
    if s.words.len() > 1 {
        assert(s.words.deep_view()[1] == s.words@[1]@);
        let path = s.words[1].as_str();
        if starts_with_char(path, '/') {
            if s.words.len() > 2 {
                warn(c, s.line, "arguments behind the location path dropped");
            }
            return Some(path);
        }
        if same(path, "=") {
            warn(c, s.line, "exact-match location '=' is not supported; skipped");
            return None;
        }
        if same(path, "~") || same(path, "~*") || same(path, "^~") {
            warn(c, s.line, "regex/preferential location is not supported; skipped");
            return None;
        }
    }
    warn(c, s.line, "location requires a path; skipped");
    None
}

/// What the directives of a location say.
struct Location {
    proxy: Option<String>,
    redir: Option<(String, String)>,
    root: Option<String>,
}

/// The model of what the directives of a location say.
#[verifier::ext_equal]
pub ghost struct LocationView {
    pub proxy: Option<Seq<char>>,
    pub redir: Option<(Seq<char>, Seq<char>)>,
    pub root: Option<Seq<char>>,
}

impl DeepView for Location {
    type V = LocationView;

    closed spec fn deep_view(&self) -> LocationView {
        LocationView {
            proxy: self.proxy.deep_view(),
            redir: self.redir.deep_view(),
            root: self.root.deep_view(),
        }
    }
}

/// What a directive of a location says.
pub open spec fn location_directive(c: ConvertedView, l: LocationView, s: StmtView) -> (
    ConvertedView,
    LocationView,
) {
    let name = first_word(s.words);
    let c = directive_cut(c, s);
    if name == "proxy_pass"@ {
        let (c, proxy) = proxy_pass(c, s.words, s.line);
        (replaced(c, s.line, name, l.proxy is Some), LocationView { proxy, ..l })
    } else if name == "root"@ {
        if s.words.len() == 2 {
            (
                replaced(c, s.line, name, l.root is Some),
                LocationView { root: Some(s.words[1]), ..l },
            )
        } else {
            (warn_of(c, s.line, "root expects exactly one path; skipped"@), l)
        }
    } else if name == "return"@ {
        match returned(c, s) {
            (c, Some(redir)) => (
                replaced(c, s.line, name, l.redir is Some),
                LocationView { redir: Some(redir), ..l },
            ),
            (c, None) => (c, l),
        }
    } else {
        (warn_of(c, s.line, "unsupported location directive '"@ + name + "'; skipped"@), l)
    }
}

/// What the first `n` directives of a location say.
pub open spec fn location_directives(c: ConvertedView, block: Seq<StmtView>, n: nat) -> (
    ConvertedView,
    LocationView,
)
    decreases n,
{
    if n == 0 {
        (c, LocationView { proxy: None, redir: None, root: None })
    } else {
        let (c, l) = location_directives(c, block, (n - 1) as nat);
        location_directive(c, l, block[n - 1])
    }
}

fn read_location_directive(c: &mut Converted, l: &mut Location, s: &Stmt)
    ensures
        (final(c).deep_view(), final(l).deep_view()) == location_directive(
            old(c).deep_view(),
            old(l).deep_view(),
            stmt_view(*s),
        ),
{
    let name = head_word(&s.words);
    warn_of_cut(c, s);
    if same(name, "proxy_pass") {
        let proxy = map_proxy_pass(c, &s.words, s.line);
        warn_of_repeat(c, s.line, name, l.proxy.is_some());
        l.proxy = proxy;
    } else if same(name, "root") {
        if s.words.len() == 2 {
            assert(s.words.deep_view()[1] == s.words@[1]@);
            warn_of_repeat(c, s.line, name, l.root.is_some());
            l.root = Some(s.words[1].dup());
        } else {
            warn(c, s.line, "root expects exactly one path; skipped");
        }
    } else if same(name, "return") {
        if let Some(redir) = map_return(c, s) {
            warn_of_repeat(c, s.line, name, l.redir.is_some());
            l.redir = Some(redir);
        }
    } else {
        let m = cat3("unsupported location directive '", name, "'; skipped");
        warn(c, s.line, m.as_str());
    }
}

/// A conversion with a warning about each directive of a location that another one
/// overrides: a `return` beside a `proxy_pass`, and a `root` beside either.
pub open spec fn overridden(c: ConvertedView, line: usize, l: LocationView) -> ConvertedView {
    let c = if l.proxy is Some && l.redir is Some {
        warn_of(c, line, "return beside proxy_pass is not supported; dropped"@)
    } else {
        c
    };
    if l.root is Some && (l.proxy is Some || l.redir is Some) {
        warn_of(c, line, "root beside proxy_pass or return is not supported; dropped"@)
    } else {
        c
    }
}

fn warn_of_overridden(c: &mut Converted, line: usize, l: &Location)
    ensures
        final(c).deep_view() == overridden(old(c).deep_view(), line, l.deep_view()),
{
    if l.proxy.is_some() && l.redir.is_some() {
        warn(c, line, "return beside proxy_pass is not supported; dropped");
    }
    if l.root.is_some() && (l.proxy.is_some() || l.redir.is_some()) {
        warn(c, line, "root beside proxy_pass or return is not supported; dropped");
    }
}

/// What a location writes into its site, whose root is `root`; and whether it
/// claims the default path.
pub open spec fn location_text(
    c: ConvertedView,
    line: usize,
    path: Seq<char>,
    l: LocationView,
    root: Option<Seq<char>>,
) -> (ConvertedView, bool) {
    if path == "/"@ {
        match (l.proxy, l.redir) {
            (Some(target), _) => (put(c, "    reverse_proxy "@ + target + "\n"@), true),
            (None, Some((url, code))) => (
                put(c, "    redir "@ + url + " "@ + code + "\n"@),
                true,
            ),
            (None, None) => match (l.root, root) {
                (Some(dir), _) => (
                    put(put(c, "    root "@ + dir + "\n"@), "    file_server\n"@),
                    true,
                ),
                (None, Some(_)) => (put(c, "    file_server\n"@), true),
                (None, None) => (
                    warn_of(c, line, "location '/' has nothing convertible; skipped"@),
                    false,
                ),
            },
        }
    } else {
        match (l.proxy, l.redir) {
            (Some(target), _) => (
                put(
                    c,
                    "    handle "@ + path + " {\n        reverse_proxy "@ + target + "\n    }\n"@,
                ),
                false,
            ),
            (None, Some((url, code))) => (
                put(
                    c,
                    "    handle "@ + path + " {\n        redir "@ + url + (" "@ + code
                        + "\n    }\n"@),
                ),
                false,
            ),
            (None, None) => match (l.root, root) {
                (Some(dir), _) => (
                    put(
                        c,
                        "    handle "@ + path + " {\n        root "@ + dir
                            + "\n        file_server\n    }\n"@,
                    ),
                    false,
                ),
                (None, Some(dir)) => (
                    put(
                        c,
                        "    handle "@ + path + " {\n        root "@ + dir
                            + "\n        file_server\n    }\n"@,
                    ),
                    false,
                ),
                (None, None) => (
                    warn_of(
                        c,
                        line,
                        "location '"@ + path + "' has neither proxy_pass nor root; skipped"@,
                    ),
                    false,
                ),
            },
        }
    }
}

fn write_static(c: &mut Converted, path: &str, dir: &str)
    ensures
        final(c).deep_view() == put(
            old(c).deep_view(),
            "    handle "@ + path@ + " {\n        root "@ + dir@
                + "\n        file_server\n    }\n"@,
        ),
{
    let text = cat5(
        "    handle ",
        path,
        " {\n        root ",
        dir,
        "\n        file_server\n    }\n",
    );
    c.write(text.as_str());
}

fn write_location(
    c: &mut Converted,
    line: usize,
    path: &str,
    l: &Location,
    root: &Option<String>,
) -> (r: bool)
    ensures
        (final(c).deep_view(), r) == location_text(
            old(c).deep_view(),
            line,
            path@,
            l.deep_view(),
            root.deep_view(),
        ),
{
    if same(path, "/") {
        if let Some(target) = &l.proxy {
            let text = cat3("    reverse_proxy ", target.as_str(), "\n");
            c.write(text.as_str());
            true
        } else if let Some((url, code)) = &l.redir {
            let text = cat5("    redir ", url.as_str(), " ", code.as_str(), "\n");
            c.write(text.as_str());
            true
        } else if let Some(dir) = &l.root {
            let text = cat3("    root ", dir.as_str(), "\n");
            c.write(text.as_str());
            c.write("    file_server\n");
            true
        } else if root.is_some() {
            c.write("    file_server\n");
            true
        } else {
            warn(c, line, "location '/' has nothing convertible; skipped");
            false
        }
    } else {
        if let Some(target) = &l.proxy {
            let text = cat5(
                "    handle ",
                path,
                " {\n        reverse_proxy ",
                target.as_str(),
                "\n    }\n",
            );
            c.write(text.as_str());
        } else if let Some((url, code)) = &l.redir {
            let tail = cat3(" ", code.as_str(), "\n    }\n");
            let text = cat5(
                "    handle ",
                path,
                " {\n        redir ",
                url.as_str(),
                tail.as_str(),
            );
            c.write(text.as_str());
        } else if let Some(dir) = &l.root {
            write_static(c, path, dir.as_str());
        } else if let Some(dir) = root {
            write_static(c, path, dir.as_str());
        } else {
            let m = cat3("location '", path, "' has neither proxy_pass nor root; skipped");
            warn(c, line, m.as_str());
        }
        false
    }
}

/// A location of a server whose root is `root`; and whether it claims the
/// default path.
pub open spec fn location(c: ConvertedView, s: StmtView, root: Option<Seq<char>>) -> (
    ConvertedView,
    bool,
) {
    match location_path(c, s) {
        (c, None) => (c, false),
        (c, Some(path)) => {
            let (c, l) = location_directives(c, s.block, s.block.len());
            location_text(overridden(c, s.line, l), s.line, path, l, root)
        },
    }
}

fn convert_location(c: &mut Converted, s: &Stmt, root: &Option<String>) -> (r: bool)
    ensures
        (final(c).deep_view(), r) == location(
            old(c).deep_view(),
            stmt_view(*s),
            root.deep_view(),
        ),
{
    let path = match path_of(c, s) {
        Some(p) => p,
        None => {
            return false;
        },
    };
    let ghost start = c.deep_view();
    let ghost block = stmts_view(s.block@);
    let mut l = Location { proxy: None, redir: None, root: None };
    let mut i: usize = 0;
    while i < s.block.len()
        invariant
            i <= s.block@.len(),
            block == stmts_view(s.block@),
            (c.deep_view(), l.deep_view()) == location_directives(start, block, i as nat),
        decreases s.block@.len() - i,
    {
        assert(block[i as int] == stmt_view(s.block@[i as int]));
        read_location_directive(c, &mut l, &s.block[i]);
        i += 1;
    }
    warn_of_overridden(c, s.line, &l);
    write_location(c, s.line, path, &l, root)
}

/// The first `n` locations of a server; and whether one claims the default path,
/// or it was claimed before.
pub open spec fn locations(
    c: ConvertedView,
    block: Seq<StmtView>,
    v: ServerView,
    n: nat,
) -> (ConvertedView, bool)
    decreases n,
{
    if n == 0 {
        (c, v.proxy is Some)
    } else {
        let (c, claimed) = locations(c, block, v, (n - 1) as nat);
        let (c, claims) = location(c, block[v.locations[n - 1] as int], v.root);
        (c, claimed || claims)
    }
}

/// The first `n` headers of a server.
pub open spec fn headers(c: ConvertedView, hs: Seq<(Seq<char>, Seq<char>)>, n: nat) -> ConvertedView
    decreases n,
{
    if n == 0 {
        c
    } else {
        put(
            headers(c, hs, (n - 1) as nat),
            "    header_down "@ + hs[n - 1].0 + " "@ + hs[n - 1].1 + "\n"@,
        )
    }
}

/// The first `n` redirects of a server.
pub open spec fn redirs(c: ConvertedView, rs: Seq<Seq<char>>, n: nat) -> ConvertedView
    decreases n,
{
    if n == 0 {
        c
    } else {
        put(redirs(c, rs, (n - 1) as nat), "    "@ + rs[n - 1] + "\n"@)
    }
}

/// The body of the site that a server makes: headers and redirects, the root, the
/// locations, the static default unless a location claims the default path, and
/// last the catch-all of the server.
pub open spec fn server_body(c: ConvertedView, block: Seq<StmtView>, v: ServerView) -> ConvertedView {
    let c = redirs(headers(c, v.headers, v.headers.len()), v.redirs, v.redirs.len());
    let c = match v.root {
        Some(dir) => put(c, "    root "@ + dir + "\n"@),
        None => c,
    };
    let (c, claimed) = locations(c, block, v, v.locations.len());
    let c = if v.root is Some && !claimed {
        put(c, "    file_server\n"@)
    } else {
        c
    };
    match v.proxy {
        Some(target) => put(c, "    reverse_proxy "@ + target + "\n"@),
        None => c,
    }
}

/// The key of the site that a server makes.
pub open spec fn server_key(v: ServerView) -> Seq<char> {
    match v.name {
        Some(name) => name + ":"@ + decimal(v.port() as nat),
        None => ":"@ + decimal(v.port() as nat),
    }
}

/// A conversion with a warning when a server asks for TLS on another port than
/// 443.
pub open spec fn plain_instead(c: ConvertedView, line: usize, v: ServerView) -> ConvertedView {
    if v.ssl() && v.port() != 443 {
        warn_of(
            c,
            line,
            "ssl on non-443 port "@ + decimal(v.port() as nat)
                + " is not supported; serving plain HTTP"@,
        )
    } else {
        c
    }
}

/// A conversion with a warning about the words behind `server`.
pub open spec fn server_cut(c: ConvertedView, s: StmtView) -> ConvertedView {
    if s.words.len() > 1 {
        warn_of(c, s.line, "arguments of server dropped"@)
    } else {
        c
    }
}

/// A `server` block. It is left out with a warning when nothing in it can be
/// converted, or when what was converted is not a site.
pub open spec fn server(src: SourcesView, c: ConvertedView, s: StmtView) -> ConvertedView {
    let c = server_cut(c, s);
    let (c, v) = server_directives(c, s.block, s.block.len());
    let c = plain_instead(c, s.line, v);
    let body = server_body(apart(c), s.block, v);
    let c = rejoined(c, body);
    let text = server_key(v) + " {\n"@ + body.raddyfile + "}\n"@;
    if trimmed(body.raddyfile).len() == 0 {
        warn_of(c, s.line, "server '"@ + server_key(v) + "' had nothing convertible; skipped"@)
    } else if !is_site(src, text) {
        warn_of(
            c,
            s.line,
            "server '"@ + server_key(v) + "' did not convert to a valid site; skipped"@,
        )
    } else {
        put(c, text)
    }
}

/// Whether every location of a server stands in its block.
spec fn locations_within(v: ServerView, n: int) -> bool {
    forall|i: int| 0 <= i < v.locations.len() ==> (#[trigger] v.locations[i]) < n
}

fn read_server(c: &mut Converted, s: &Stmt) -> (r: Server)
    ensures
        (final(c).deep_view(), r.deep_view()) == server_directives(
            old(c).deep_view(),
            stmts_view(s.block@),
            s.block@.len(),
        ),
        locations_within(r.deep_view(), s.block@.len() as int),
{
    let ghost start = c.deep_view();
    let ghost block = stmts_view(s.block@);
    let mut v = Server {
        listen: None,
        named: false,
        name: None,
        root: None,
        locations: Vec::new(),
        proxy: None,
        headers: Vec::new(),
        redirs: Vec::new(),
    };
    assert(v.deep_view() == new_server());
    let mut i: usize = 0;
    while i < s.block.len()
        invariant
            i <= s.block@.len(),
            block == stmts_view(s.block@),
            (c.deep_view(), v.deep_view()) == server_directives(start, block, i as nat),
            locations_within(v.deep_view(), i as int),
        decreases s.block@.len() - i,
    {
        assert(block[i as int] == stmt_view(s.block@[i as int]));
        read_directive(c, &mut v, &s.block[i], i);
        i += 1;
    }
    v
}

fn write_server(c: &mut Converted, s: &Stmt, v: &Server)
    requires
        locations_within(v.deep_view(), s.block@.len() as int),
    ensures
        final(c).deep_view() == server_body(
            old(c).deep_view(),
            stmts_view(s.block@),
            v.deep_view(),
        ),
{
    let ghost block = stmts_view(s.block@);
    let ghost w = v.deep_view();
    let ghost start = c.deep_view();
    let mut i: usize = 0;
    while i < v.headers.len()
        invariant
            i <= v.headers@.len(),
            w == v.deep_view(),
            c.deep_view() == headers(start, w.headers, i as nat),
        decreases v.headers@.len() - i,
    {
        assert(w.headers[i as int] == (v.headers@[i as int].0@, v.headers@[i as int].1@));
        let text = cat5(
            "    header_down ",
            v.headers[i].0.as_str(),
            " ",
            v.headers[i].1.as_str(),
            "\n",
        );
        c.write(text.as_str());
        i += 1;
    }
    let ghost start = c.deep_view();
    let mut i: usize = 0;
    while i < v.redirs.len()
        invariant
            i <= v.redirs@.len(),
            w == v.deep_view(),
            c.deep_view() == redirs(start, w.redirs, i as nat),
        decreases v.redirs@.len() - i,
    {
        assert(w.redirs[i as int] == v.redirs@[i as int]@);
        let text = cat3("    ", v.redirs[i].as_str(), "\n");
        c.write(text.as_str());
        i += 1;
    }
    if let Some(dir) = &v.root {
        let text = cat3("    root ", dir.as_str(), "\n");
        c.write(text.as_str());
    }
    let ghost start = c.deep_view();
    let mut claimed = v.proxy.is_some();
    let mut i: usize = 0;
    while i < v.locations.len()
        invariant
            i <= v.locations@.len(),
            w == v.deep_view(),
            block == stmts_view(s.block@),
            locations_within(w, s.block@.len() as int),
            (c.deep_view(), claimed) == locations(start, block, w, i as nat),
        decreases v.locations@.len() - i,
    {
        let at: usize = v.locations[i];
        assert(w.locations[i as int] == at);
        assert(block[at as int] == stmt_view(s.block@[at as int]));
        let claims = convert_location(c, &s.block[at], &v.root);
        claimed = claimed || claims;
        i += 1;
    }
    if v.root.is_some() && !claimed {
        c.write("    file_server\n");
    }
    if let Some(target) = &v.proxy {
        let text = cat3("    reverse_proxy ", target.as_str(), "\n");
        c.write(text.as_str());
    }
}

fn convert_server(sources: &Sources, c: &mut Converted, s: &Stmt)
    ensures
        final(c).deep_view() == server(
            sources.deep_view(),
            old(c).deep_view(),
            stmt_view(*s),
        ),
{
    if s.words.len() > 1 {
        warn(c, s.line, "arguments of server dropped");
    }
    let v = read_server(c, s);
    let (number, ssl) = match v.listen {
        Some((p, t)) => (p, t),
        None => (80, false),
    };
    let port = decimal_string(number as u64);
    if ssl && number != 443 {
        let m = cat3(
            "ssl on non-443 port ",
            port.as_str(),
            " is not supported; serving plain HTTP",
        );
        warn(c, s.line, m.as_str());
    }
    let addr = match &v.name {
        Some(name) => cat3(name.as_str(), ":", port.as_str()),
        None => cat2(":", port.as_str()),
    };
    let mut body = c.start_apart();
    write_server(&mut body, s, &v);
    let text = c.rejoin(body);
    let whole = cat4(addr.as_str(), " {\n", text.as_str(), "}\n");
    if is_empty(trim(text.as_str())) {
        let m = cat3("server '", addr.as_str(), "' had nothing convertible; skipped");
        warn(c, s.line, m.as_str());
    } else if !makes_site(sources, whole.as_str()) {
        let m = cat3("server '", addr.as_str(), "' did not convert to a valid site; skipped");
        warn(c, s.line, m.as_str());
    } else {
        c.write(whole.as_str());
    }
}

/// A statement at the top level.
pub open spec fn top_level(src: SourcesView, c: ConvertedView, s: StmtView) -> ConvertedView {
    if s.words.len() == 0 {
        warn_of(c, s.line, "empty block outside a server; skipped"@)
    } else if s.words[0] == "server"@ {
        server(src, c, s)
    } else {
        warn_of(c, s.line, "top-level '"@ + s.words[0] + "' is not a server block; skipped"@)
    }
}

/// The first `n` statements at the top level.
pub open spec fn top_levels(src: SourcesView, stmts: Seq<StmtView>, n: nat) -> ConvertedView
    decreases n,
{
    if n == 0 {
        nothing()
    } else {
        top_level(src, top_levels(src, stmts, (n - 1) as nat), stmts[n - 1])
    }
}

/// The conversion of an nginx configuration, with `src` for the environment of the sites.
pub open spec fn converted_with(input: Seq<char>, src: SourcesView) -> Result<
    ConvertedView,
    Seq<char>,
> {
    match statements(lines_in(input)) {
        Err(e) => Err(e),
        Ok(stmts) => Ok(top_levels(src, stmts, stmts.len())),
    }
}

/// The conversion of an nginx configuration whose sites have no environment.
pub open spec fn converted(input: Seq<char>) -> Result<ConvertedView, Seq<char>> {
    converted_with(input, no_sources())
}

/// Convert an nginx configuration whose sites have no environment.
pub fn convert(input: &str) -> (r: Result<Converted, String>)
    ensures
        match (r, converted(input@)) {
            (Ok(c), Ok(w)) => c.deep_view() == w,
            (Err(e), Err(w)) => e@ == w,
            _ => false,
        },
{
    convert_with(input, &Sources::none())
}

/// Convert an nginx configuration, with `sources` for the environment of the sites.
pub fn convert_with(input: &str, sources: &Sources) -> (r: Result<Converted, String>)
    ensures
        match (r, converted_with(input@, sources.deep_view())) {
            (Ok(c), Ok(w)) => c.deep_view() == w,
            (Err(e), Err(w)) => e@ == w,
            _ => false,
        },
{
    let source = lines(input);
    let stmts = match parse_stmts(&source) {
        Ok(s) => s,
        Err(e) => {
            return Err(e);
        },
    };
    let ghost all = stmts_view(stmts@);
    let mut c = Converted::new();
    let mut i: usize = 0;
    while i < stmts.len()
        invariant
            i <= stmts@.len(),
            all == stmts_view(stmts@),
            c.deep_view() == top_levels(sources.deep_view(), all, i as nat),
        decreases stmts@.len() - i,
    {
        let s = &stmts[i];
        assert(all[i as int] == stmt_view(*s));
        if s.words.len() == 0 {
            warn(&mut c, s.line, "empty block outside a server; skipped");
        } else {
            assert(s.words.deep_view()[0] == s.words@[0]@);
            if same(s.words[0].as_str(), "server") {
                convert_server(sources, &mut c, s);
            } else {
                let m = cat3(
                    "top-level '",
                    s.words[0].as_str(),
                    "' is not a server block; skipped",
                );
                warn(&mut c, s.line, m.as_str());
            }
        }
        i += 1;
    }
    Ok(c)
}

// ---------------------------------------------------------------------------
// Nothing is dropped silently
// ---------------------------------------------------------------------------

/// Nothing is dropped silently: every statement at the top level leaves a site in
/// the converted file or a warning, and takes away nothing that was there. Every
/// location that writes nothing into its site is warned of.
pub proof fn nothing_is_dropped_silently(
    src: SourcesView,
    c: ConvertedView,
    s: StmtView,
    root: Option<Seq<char>>,
)
    ensures
        left_a_trace(c, top_level(src, c, s)),
        left_a_trace(c, location(c, s, root).0),
{
    reveal_strlit("}\n");
    lemma_location(c, s, root);
    let b = server_cut(c, s);
    lemma_server_directives(b, s.block, s.block.len());
    let (d, v) = server_directives(b, s.block, s.block.len());
    let e = plain_instead(d, s.line, v);
    assert(grew(c, b) && grew(d, e));
    lemma_grew(c, b, d);
    lemma_grew(c, d, e);
    let d = e;
    lemma_server_body(apart(d), s.block, v);
    let body = server_body(apart(d), s.block, v);
    assert(c.warnings.is_prefix_of(body.warnings));
    assert(left_a_trace(c, server(src, c, s)));
}

/// Every directive of a server is heard: it sets something for the site or is
/// warned of, and it never takes the place of an earlier one without a warning.
#[verifier::rlimit(50)]
pub proof fn server_directives_are_heard(c: ConvertedView, v: ServerView, s: StmtView, i: usize)
    ensures
        ({
            let (d, w) = server_directive(c, v, s, i);
            &&& grew(c, d)
            &&& d.raddyfile == c.raddyfile
            &&& w != v || d.warnings.len() > c.warnings.len()
            &&& replaces(v, w) ==> d.warnings.len() > c.warnings.len()
        }),
{
    let (d, w) = server_directive(c, v, s, i);
    let name = first_word(s.words);
    let b = directive_cut(c, s);
    lemma_proxy_pass(b, s.words, s.line);
    lemma_returned(b, s);
    if name == "listen"@ {
        let e = replaced(b, s.line, "listen"@, v.listen is Some);
        lemma_listen_cut(e, s.words, s.line);
    } else if name == "server_name"@ || name == "root"@ {
    } else if name == "location"@ {
        assert(w.locations.len() == v.locations.len() + 1);
    } else if name == "proxy_pass"@ {
    } else if name == "add_header"@ {
        if s.words.len() >= 3 {
            let raw = joined(s.words.subrange(2, s.words.len() as int), " "@);
            if let Ok(value) = value_from(raw, Seq::empty()) {
                assert(w.headers.len() == v.headers.len() + 1);
            }
        }
    } else if name == "return"@ {
        if returned(b, s).1 is Some {
            assert(w.redirs.len() == v.redirs.len() + 1);
        }
    }
}

/// Every directive of a location is heard: it sets something or is warned of, and
/// it never takes the place of an earlier one without a warning.
pub proof fn location_directives_are_heard(c: ConvertedView, l: LocationView, s: StmtView)
    ensures
        ({
            let (d, m) = location_directive(c, l, s);
            &&& grew(c, d)
            &&& d.raddyfile == c.raddyfile
            &&& m != l || d.warnings.len() > c.warnings.len()
            &&& l.proxy is Some && m.proxy != l.proxy ==> d.warnings.len() > c.warnings.len()
            &&& l.redir is Some && m.redir != l.redir ==> d.warnings.len() > c.warnings.len()
            &&& l.root is Some && m.root != l.root ==> d.warnings.len() > c.warnings.len()
        }),
{
    lemma_proxy_pass(directive_cut(c, s), s.words, s.line);
    lemma_returned(directive_cut(c, s), s);
}

/// Whether something that a server had set is set anew.
pub open spec fn replaces(v: ServerView, w: ServerView) -> bool {
    ||| v.listen is Some && w.listen != v.listen
    ||| v.named && w.name != v.name
    ||| v.root is Some && w.root != v.root
    ||| v.proxy is Some && w.proxy != v.proxy
}

proof fn lemma_parameters(c: ConvertedView, words: Seq<Seq<char>>, i: int, line: usize)
    ensures
        grew(c, parameters_dropped(c, words, i, line)),
        parameters_dropped(c, words, i, line).raddyfile == c.raddyfile,
    decreases words.len() - i,
{
    if 0 <= i < words.len() {
        if words[i] == "ssl"@ {
            lemma_parameters(c, words, i + 1, line);
        } else {
            let m = "listen parameter '"@ + words[i] + "' dropped"@;
            lemma_parameters(warn_of(c, line, m), words, i + 1, line);
        }
    }
}

proof fn lemma_listen_cut(c: ConvertedView, words: Seq<Seq<char>>, line: usize)
    ensures
        grew(c, listen_cut(c, words, line)),
        listen_cut(c, words, line).raddyfile == c.raddyfile,
{
    lemma_parameters(c, words, 2, line);
    if let Some((host, _)) = rcut(words[1], ':') {
        let m = "listen address '"@ + host + "' dropped"@;
        lemma_parameters(warn_of(c, line, m), words, 2, line);
    }
}

pub(crate) proof fn lemma_proxy_pass(c: ConvertedView, words: Seq<Seq<char>>, line: usize)
    ensures
        grew(c, proxy_pass(c, words, line).0),
        proxy_pass(c, words, line).0.raddyfile == c.raddyfile,
        proxy_pass(c, words, line).1 == proxy_pass(nothing(), words, line).1,
        proxy_pass(c, words, line).1 is None ==> proxy_pass(
            c,
            words,
            line,
        ).0.warnings.len() > c.warnings.len(),
{
}

proof fn lemma_returned(c: ConvertedView, s: StmtView)
    ensures
        grew(c, returned(c, s).0),
        returned(c, s).0.raddyfile == c.raddyfile,
        returned(c, s).1 is None ==> returned(c, s).0.warnings.len() > c.warnings.len(),
{
}

pub(crate) proof fn lemma_server_directives(c: ConvertedView, block: Seq<StmtView>, n: nat)
    ensures
        grew(c, server_directives(c, block, n).0),
        server_directives(c, block, n).0.raddyfile == c.raddyfile,
    decreases n,
{
    if n > 0 {
        lemma_server_directives(c, block, (n - 1) as nat);
        let (d, v) = server_directives(c, block, (n - 1) as nat);
        server_directives_are_heard(d, v, block[n - 1], (n - 1) as usize);
    }
}

proof fn lemma_location_directives(c: ConvertedView, block: Seq<StmtView>, n: nat)
    ensures
        grew(c, location_directives(c, block, n).0),
    decreases n,
{
    if n > 0 {
        lemma_location_directives(c, block, (n - 1) as nat);
    }
}

pub(crate) proof fn lemma_location(c: ConvertedView, s: StmtView, root: Option<Seq<char>>)
    ensures
        left_a_trace(c, location(c, s, root).0),
{
    reveal_strlit("\n");
    reveal_strlit("\n    }\n");
    reveal_strlit("    file_server\n");
    reveal_strlit("\n        file_server\n    }\n");
    let (d, path) = location_path(c, s);
    assert(grew(c, d));
    if path is Some {
        lemma_location_directives(d, s.block, s.block.len());
        let (e, l) = location_directives(d, s.block, s.block.len());
        let f = overridden(e, s.line, l);
        assert(grew(e, f));
        lemma_grew(c, d, e);
        lemma_grew(c, e, f);
        let g = location(c, s, root).0;
        assert(left_a_trace(f, g));
        lemma_grew(c, f, g);
    }
}

proof fn lemma_grew(a: ConvertedView, b: ConvertedView, c: ConvertedView)
    requires
        grew(a, b),
        grew(b, c),
    ensures
        grew(a, c),
        a.raddyfile.len() <= b.raddyfile.len() <= c.raddyfile.len(),
        a.warnings.len() <= b.warnings.len() <= c.warnings.len(),
{
}

pub(crate) proof fn lemma_locations(c: ConvertedView, block: Seq<StmtView>, v: ServerView, n: nat)
    ensures
        grew(c, locations(c, block, v, n).0),
    decreases n,
{
    if n > 0 {
        lemma_locations(c, block, v, (n - 1) as nat);
        let d = locations(c, block, v, (n - 1) as nat).0;
        lemma_location(d, block[v.locations[n - 1] as int], v.root);
    }
}

proof fn lemma_headers(c: ConvertedView, hs: Seq<(Seq<char>, Seq<char>)>, n: nat)
    ensures
        grew(c, headers(c, hs, n)),
    decreases n,
{
    if n > 0 {
        lemma_headers(c, hs, (n - 1) as nat);
    }
}

proof fn lemma_redirs(c: ConvertedView, rs: Seq<Seq<char>>, n: nat)
    ensures
        grew(c, redirs(c, rs, n)),
    decreases n,
{
    if n > 0 {
        lemma_redirs(c, rs, (n - 1) as nat);
    }
}

proof fn lemma_server_body(c: ConvertedView, block: Seq<StmtView>, v: ServerView)
    ensures
        grew(c, server_body(c, block, v)),
{
    lemma_headers(c, v.headers, v.headers.len());
    let d = headers(c, v.headers, v.headers.len());
    lemma_redirs(d, v.redirs, v.redirs.len());
    let d = redirs(d, v.redirs, v.redirs.len());
    assert(grew(c, d));
    let d = match v.root {
        Some(dir) => put(d, "    root "@ + dir + "\n"@),
        None => d,
    };
    assert(grew(c, d));
    lemma_locations(d, block, v, v.locations.len());
    let d = locations(d, block, v, v.locations.len()).0;
    assert(grew(c, d));
}

/// What a `server` block writes.
pub proof fn lemma_server_text(
    src: SourcesView,
    c: ConvertedView,
    s: StmtView,
) -> (text: Option<Seq<char>>)
    ensures
        match text {
            None => server(src, c, s).raddyfile == c.raddyfile,
            Some(t) => is_site(src, t) && server(src, c, s).raddyfile == c.raddyfile + t,
        },
{
    let b = server_cut(c, s);
    lemma_server_directives(b, s.block, s.block.len());
    let (d, v) = server_directives(b, s.block, s.block.len());
    let body = server_body(apart(plain_instead(d, s.line, v)), s.block, v);
    let text = server_key(v) + " {\n"@ + body.raddyfile + "}\n"@;
    if trimmed(body.raddyfile).len() == 0 || !is_site(src, text) {
        None
    } else {
        Some(text)
    }
}

} // verus!
