//! Conversion of a Caddyfile, a common subset.
//!
//! The subset: sites with `reverse_proxy` (inline or with a `to` block), `root`
//! and `file_server`, `handle` blocks, `header_up` and `header_down`, `encode`
//! and `redir`. Anything else is skipped with a warning. Site addresses and
//! placeholders differ slightly, so they are approximated: `http://` becomes an
//! explicit port 80, placeholders are mapped, and a `redir` without a status
//! code gets `temporary`.
use crate::config::ast::{add_to, TemplatePartView};
use crate::config::directives::encoding;
use crate::config::expand::{no_sources, Sources, SourcesView};
use crate::config::template::{template, template_from, variable, with_literal};
use crate::migrate::{
    apart, first_word, grew, head_word, is_3xx, is_site, left_a_trace, makes_site, nothing,
    parse_stmts, put, rejoined, statements, stmt_view, stmts_view, three_hundred, warned, Converted,
    ConvertedView, Stmt, StmtView,
};
use crate::text::{
    cat2, cat3, cat4, cat5, contains_char, contains_str, cut, cut_at,
    find_char, find_from, first_index, is_empty, join, joined, lemma_first_index, lines, lines_in,
    opens_with, owned, part, same, split_at, split_once, starts_with_char, trim, trimmed,
    up_to,
};
use vstd::prelude::*;

verus! {

// ---------------------------------------------------------------------------
// Addresses and values
// ---------------------------------------------------------------------------

/// The addresses of a site, separated by commas. They may be separated by white
/// space too.
pub open spec fn addresses(words: Seq<Seq<char>>) -> Seq<char> {
    joined(words, ","@)
}

/// The site key for a site address: the first of several, without its scheme.
pub open spec fn site_addr(words: Seq<Seq<char>>) -> Result<Seq<char>, Seq<char>> {
    let all = addresses(words);
    let first = trimmed(
        match cut(all, ',') {
            Some((a, _)) => a,
            None => all,
        },
    );
    if first.len() == 0 {
        Err("site block has no address"@)
    } else {
        match cut_at(first, "://"@) {
            None => Ok(first),
            Some((scheme, rest)) => if scheme == "http"@ && !rest.contains(':') {
                Ok(rest + ":80"@)
            } else if scheme == "https"@ && !rest.contains(':') {
                Ok(rest)
            } else {
                Err("unsupported site scheme '"@ + scheme + "'"@)
            },
        }
    }
}

/// Map the addresses of a site to its key.
pub fn map_site_addr(words: &Vec<String>) -> (r: Result<String, String>)
    ensures
        match (r, site_addr(words.deep_view())) {
            (Ok(a), Ok(b)) => a@ == b,
            (Err(a), Err(b)) => a@ == b,
            _ => false,
        },
{
    let all = join(words, 0, words.len(), ",");
    assert(words.deep_view().subrange(0, words@.len() as int) == words.deep_view());
    let whole = all.as_str();
    let head = match split_once(whole, ',') {
        Some((a, _)) => a,
        None => whole,
    };
    let first = trim(head);
    if is_empty(first) {
        return Err(owned("site block has no address"));
    }
    match split_at(first, "://") {
        None => Ok(owned(first)),
        Some((scheme, rest)) => {
            let plain = !contains_char(rest, ':');
            if same(scheme, "http") && plain {
                Ok(cat2(rest, ":80"))
            } else if same(scheme, "https") && plain {
                Ok(owned(rest))
            } else {
                Err(cat3("unsupported site scheme '", scheme, "'"))
            }
        },
    }
}

/// A conversion with a warning about an address that is left out, unless it is
/// blank.
pub open spec fn address_left_out(c: ConvertedView, line: usize, addr: Seq<char>) -> ConvertedView {
    let name = trimmed(addr);
    if name.len() == 0 {
        c
    } else {
        warn_of(c, line, "site address '"@ + name + "' left out; only the first is converted"@)
    }
}

/// A conversion with a warning about each address of a comma-separated list.
pub open spec fn addresses_left_out(c: ConvertedView, line: usize, list: Seq<char>) -> ConvertedView
    decreases list.len(),
    via addresses_left_out_shrinks
{
    match cut(list, ',') {
        None => address_left_out(c, line, list),
        Some((addr, rest)) => addresses_left_out(address_left_out(c, line, addr), line, rest),
    }
}

#[via_fn]
proof fn addresses_left_out_shrinks(c: ConvertedView, line: usize, list: Seq<char>) {
    lemma_first_index(list, ',');
}

/// A conversion with a warning about each address of a site but the first.
pub open spec fn others_left_out(c: ConvertedView, line: usize, words: Seq<Seq<char>>)
    -> ConvertedView {
    match cut(addresses(words), ',') {
        None => c,
        Some((_, rest)) => addresses_left_out(c, line, rest),
    }
}

fn warn_of_address(c: &mut Converted, line: usize, addr: &str)
    ensures
        final(c).deep_view() == address_left_out(old(c).deep_view(), line, addr@),
{
    let name = trim(addr);
    if !is_empty(name) {
        let m = cat3("site address '", name, "' left out; only the first is converted");
        warn(c, line, m.as_str());
    }
}

fn warn_of_others(c: &mut Converted, line: usize, words: &Vec<String>)
    ensures
        final(c).deep_view() == others_left_out(old(c).deep_view(), line, words.deep_view()),
{
    let all = join(words, 0, words.len(), ",");
    assert(words.deep_view().subrange(0, words@.len() as int) == words.deep_view());
    let whole = all.as_str();
    match split_once(whole, ',') {
        None => {},
        Some((_, others)) => {
            let ghost want = addresses_left_out(c.deep_view(), line, others@);
            let mut rest: &str = others;
            loop
                invariant_except_break
                    want == addresses_left_out(c.deep_view(), line, rest@),
                ensures
                    want == c.deep_view(),
                decreases rest@.len(),
            {
                proof {
                    lemma_first_index(rest@, ',');
                }
                match split_once(rest, ',') {
                    None => {
                        warn_of_address(c, line, rest);
                        break;
                    },
                    Some((addr, more)) => {
                        warn_of_address(c, line, addr);
                        rest = more;
                    },
                }
            }
        },
    }
}

/// The part of an upstream behind its scheme.
pub open spec fn behind_scheme(target: Seq<char>) -> Seq<char> {
    match cut_at(target, "://"@) {
        Some((_, rest)) => rest,
        None => target,
    }
}

/// The path of an upstream, without its slash, when there is more to it than that.
pub open spec fn upstream_path(target: Seq<char>) -> Option<Seq<char>> {
    match cut(behind_scheme(target), '/') {
        Some((_, path)) => if path.len() > 0 {
            Some(path)
        } else {
            None
        },
        None => None,
    }
}

fn path_of_upstream(target: &str) -> (r: Option<&str>)
    ensures
        match r {
            Some(p) => upstream_path(target@) == Some(p@),
            None => upstream_path(target@) is None,
        },
{
    let rest = match split_at(target, "://") {
        Some((_, rest)) => rest,
        None => target,
    };
    match split_once(rest, '/') {
        Some((_, path)) => if is_empty(path) {
            None
        } else {
            Some(path)
        },
        None => None,
    }
}

/// The endpoint of an upstream: without its scheme and path, with port 80 when it
/// names none. An IPv6 literal is refused.
pub open spec fn upstream_target(target: Seq<char>) -> Result<Seq<char>, Seq<char>> {
    if opens_with(target, '[') {
        Err("IPv6 upstream '"@ + target + "' is not supported"@)
    } else {
        let rest = match cut_at(target, "://"@) {
            None => Ok(target),
            Some((scheme, rest)) => if scheme == "http"@ {
                Ok(rest)
            } else if scheme == "https"@ {
                Err(
                    "https upstream '"@ + target
                        + "' skipped (raddy supports plain-HTTP upstreams only)"@,
                )
            } else {
                Err("unsupported upstream scheme '"@ + scheme + "'"@)
            },
        };
        match rest {
            Err(e) => Err(e),
            Ok(r) => if opens_with(r, '[') {
                Err("IPv6 upstream '"@ + target + "' is not supported"@)
            } else {
                endpoint_with_port(up_to(r, '/'))
            },
        }
    }
}

/// An endpoint with port 80 when it names none.
pub open spec fn endpoint_with_port(host_port: Seq<char>) -> Result<Seq<char>, Seq<char>> {
    if host_port.len() == 0 {
        Err("empty upstream target"@)
    } else if host_port.contains(':') {
        Ok(host_port)
    } else {
        Ok(host_port + ":80"@)
    }
}

/// Map an upstream of a `reverse_proxy` to a host and a port.
pub fn normalize_upstream(target: &str) -> (r: Result<String, String>)
    ensures
        match (r, upstream_target(target@)) {
            (Ok(a), Ok(b)) => a@ == b,
            (Err(a), Err(b)) => a@ == b,
            _ => false,
        },
{
    if starts_with_char(target, '[') {
        return Err(cat3("IPv6 upstream '", target, "' is not supported"));
    }
    let rest = match split_at(target, "://") {
        None => target,
        Some((scheme, rest)) => {
            if same(scheme, "http") {
                rest
            } else if same(scheme, "https") {
                return Err(
                    cat3(
                        "https upstream '",
                        target,
                        "' skipped (raddy supports plain-HTTP upstreams only)",
                    ),
                );
            } else {
                return Err(cat3("unsupported upstream scheme '", scheme, "'"));
            }
        },
    };
    if starts_with_char(rest, '[') {
        return Err(cat3("IPv6 upstream '", target, "' is not supported"));
    }
    let host_port = match split_once(rest, '/') {
        Some((a, _)) => a,
        None => rest,
    };
    if is_empty(host_port) {
        return Err(owned("empty upstream target"));
    }
    if contains_char(host_port, ':') {
        Ok(owned(host_port))
    } else {
        Ok(cat2(host_port, ":80"))
    }
}

/// The placeholder that stands for a Caddy placeholder.
pub open spec fn placeholder(name: Seq<char>) -> Option<Seq<char>> {
    if name == "host"@ || name == "http.request.host"@ {
        Some("{host}"@)
    } else if name == "uri"@ || name == "http.request.uri"@ {
        Some("{uri}"@)
    } else if name == "remote_host"@ || name == "http.request.remote"@ {
        Some("{remote_host}"@)
    } else {
        None
    }
}

fn map_placeholder(name: &str) -> (r: Option<&'static str>)
    ensures
        match r {
            Some(p) => placeholder(name@) == Some(p@),
            None => placeholder(name@) is None,
        },
{
    if same(name, "host") || same(name, "http.request.host") {
        Some("{host}")
    } else if same(name, "uri") || same(name, "http.request.uri") {
        Some("{uri}")
    } else if same(name, "remote_host") || same(name, "http.request.remote") {
        Some("{remote_host}")
    } else {
        None
    }
}

/// The value `rest` with its placeholders mapped, after `done`; `raw` is the
/// whole value.
pub open spec fn value_from(raw: Seq<char>, rest: Seq<char>, done: Seq<char>) -> Result<
    Seq<char>,
    Seq<char>,
>
    decreases rest.len(),
{
    let a = first_index(rest, '{');
    if a < 0 || a >= rest.len() {
        Ok(done + rest)
    } else {
        let tail = rest.skip(a);
        let e = first_index(tail, '}');
        if e < 1 || e >= tail.len() {
            Err("unclosed '{' in '"@ + raw + "'"@)
        } else {
            let name = tail.subrange(1, e);
            match placeholder(name) {
                None => Err("unsupported placeholder '{"@ + name + "}'"@),
                Some(p) => value_from(raw, tail.skip(e + 1), done + rest.take(a) + p),
            }
        }
    }
}

/// Map the placeholders of a value. What comes out is a template, and maps to
/// itself.
pub fn map_value(raw: &str) -> (r: Result<String, String>)
    ensures
        match (r, value_from(raw@, raw@, Seq::empty())) {
            (Ok(a), Ok(b)) => a@ == b,
            (Err(a), Err(b)) => a@ == b,
            _ => false,
        },
        r matches Ok(s) ==> template(s@) is Ok && value_from(s@, s@, Seq::empty()) == Ok::<
            Seq<char>,
            Seq<char>,
        >(s@),
{
    let mut out = String::new();
    let mut rest: &str = raw;
    loop
        invariant
            value_from(raw@, raw@, Seq::empty()) == value_from(raw@, rest@, out@),
        decreases rest@.len(),
    {
        let n: usize = rest.unicode_len();
        proof {
            lemma_first_index(rest@, '{');
        }
        match find_char(rest, '{') {
            None => {
                out.append(rest);
                proof {
                    mapped_values_are_templates(raw@);
                }
                return Ok(out);
            },
            Some(a) => {
                let head = part(rest, 0, a);
                let tail = part(rest, a, n);
                assert(rest@.take(a as int) == head@);
                assert(rest@.skip(a as int) == tail@);
                assert(tail@[0] == '{');
                proof {
                    lemma_first_index(tail@, '}');
                }
                match find_char(tail, '}') {
                    None => {
                        return Err(cat3("unclosed '{' in '", raw, "'"));
                    },
                    Some(e) => {
                        assert(e > 0);
                        let name = part(tail, 1, e);
                        match map_placeholder(name) {
                            None => {
                                return Err(cat3("unsupported placeholder '{", name, "}'"));
                            },
                            Some(p) => {
                                out.append(head);
                                out.append(p);
                                let next = part(tail, e + 1, n - a);
                                assert(tail@.skip(e + 1) == next@);
                                rest = next;
                            },
                        }
                    },
                }
            },
        }
    }
}

/// Whether a word is a status code for `redir`: a keyword or a number of the
/// three-hundreds.
pub open spec fn redirect_word(token: Seq<char>) -> bool {
    token == "permanent"@ || token == "temporary"@ || three_hundred(token)
}

fn is_redirect_code(token: &str) -> (r: bool)
    ensures
        r == redirect_word(token@),
{
    same(token, "permanent") || same(token, "temporary") || is_3xx(token)
}

// ---------------------------------------------------------------------------
// Directives
// ---------------------------------------------------------------------------

/// A conversion with a warning about a line.
pub open spec fn warn_of(c: ConvertedView, line: usize, message: Seq<char>) -> ConvertedView {
    warned(c, "caddyfile"@, line, message)
}

fn warn(c: &mut Converted, line: usize, message: &str)
    ensures
        final(c).deep_view() == warn_of(old(c).deep_view(), line, message@),
{
    c.warn("caddyfile", line, message);
}

/// A header directive.
pub open spec fn header(c: ConvertedView, s: StmtView, pad: Seq<char>, name: Seq<char>)
    -> ConvertedView {
    let n = s.words.len() as int;
    let inline = n > 1 && opens_with(s.words[1], '/');
    let k: int = if inline {
        2
    } else {
        1
    };
    let c = if inline {
        warn_of(c, s.line, "inline matcher on header directive dropped"@)
    } else {
        c
    };
    if n - k < 2 {
        warn_of(c, s.line, name + " requires a name and value; skipped"@)
    } else {
        let raw = joined(s.words.subrange(k + 1, n), " "@);
        match value_from(raw, raw, Seq::empty()) {
            Err(e) => warn_of(c, s.line, name + ": "@ + e + "; skipped"@),
            Ok(value) => put(
                c,
                pad + name + " "@ + s.words[k] + (" "@ + value + "\n"@),
            ),
        }
    }
}

fn convert_header(c: &mut Converted, s: &Stmt, pad: &str, name: &str)
    requires
        s.words@.len() > 0,
    ensures
        final(c).deep_view() == header(old(c).deep_view(), stmt_view(*s), pad@, name@),
{
    let n: usize = s.words.len();
    let ghost words = s.words.deep_view();
    assert(n > 1 ==> words[1] == s.words@[1]@);
    let mut k: usize = 1;
    if n > 1 && starts_with_char(s.words[1].as_str(), '/') {
        warn(c, s.line, "inline matcher on header directive dropped");
        k = 2;
    }
    if n - k < 2 {
        let m = cat2(name, " requires a name and value; skipped");
        warn(c, s.line, m.as_str());
        return;
    }
    let raw = join(&s.words, k + 1, n, " ");
    assert(words[k as int] == s.words@[k as int]@);
    match map_value(raw.as_str()) {
        Err(e) => {
            let m = cat4(name, ": ", e.as_str(), "; skipped");
            warn(c, s.line, m.as_str());
        },
        Ok(value) => {
            let tail = cat3(" ", value.as_str(), "\n");
            let text = cat5(pad, name, " ", s.words[k].as_str(), tail.as_str());
            c.write(text.as_str());
        },
    }
}

/// Whether a `redir` starts with an inline matcher, which is dropped.
pub open spec fn redir_matcher(words: Seq<Seq<char>>) -> bool {
    &&& words.len() > 2
    &&& opens_with(words[1], '/')
    &&& opens_with(words[2], '/')
    &&& find_from(words[1], "://"@, 0) < 0
}

/// The target and the status code of a `redir` with arguments from `k` on.
pub open spec fn redir_parts(words: Seq<Seq<char>>, k: int) -> (Seq<char>, Seq<char>) {
    let n = words.len() as int;
    if n - k == 1 {
        (words[k], "temporary"@)
    } else if redirect_word(words[n - 1]) {
        (joined(words.subrange(k, n - 1), " "@), words[n - 1])
    } else {
        (joined(words.subrange(k, n), " "@), "temporary"@)
    }
}

/// A `redir` directive.
pub open spec fn redir(c: ConvertedView, s: StmtView, pad: Seq<char>) -> ConvertedView {
    let inline = redir_matcher(s.words);
    let k: int = if inline {
        2
    } else {
        1
    };
    let c = if inline {
        warn_of(c, s.line, "inline matcher on redir dropped"@)
    } else {
        c
    };
    if s.words.len() <= k {
        warn_of(c, s.line, "redir requires a target; skipped"@)
    } else {
        let (target, code) = redir_parts(s.words, k);
        if target.len() == 0 {
            warn_of(c, s.line, "redir target must not be empty; skipped"@)
        } else {
            match value_from(target, target, Seq::empty()) {
                Err(e) => warn_of(c, s.line, "redir: "@ + e + "; skipped"@),
                Ok(value) => put(c, pad + "redir "@ + value + " "@ + (code + "\n"@)),
            }
        }
    }
}

fn convert_redir(c: &mut Converted, s: &Stmt, pad: &str)
    requires
        s.words@.len() > 0,
    ensures
        final(c).deep_view() == redir(old(c).deep_view(), stmt_view(*s), pad@),
{
    let n: usize = s.words.len();
    let ghost words = s.words.deep_view();
    assert(n > 1 ==> words[1] == s.words@[1]@);
    assert(n > 2 ==> words[2] == s.words@[2]@);
    let mut k: usize = 1;
    if n > 2 && starts_with_char(s.words[1].as_str(), '/') && starts_with_char(
        s.words[2].as_str(),
        '/',
    ) && !contains_str(s.words[1].as_str(), "://") {
        warn(c, s.line, "inline matcher on redir dropped");
        k = 2;
    }
    if n <= k {
        warn(c, s.line, "redir requires a target; skipped");
        return;
    }
    assert(words[k as int] == s.words@[k as int]@);
    assert(words[n - 1] == s.words@[n - 1]@);
    let mut code = owned("temporary");
    let target: String;
    if n - k == 1 {
        target = owned(s.words[k].as_str());
    } else if is_redirect_code(s.words[n - 1].as_str()) {
        code = owned(s.words[n - 1].as_str());
        target = join(&s.words, k, n - 1, " ");
    } else {
        target = join(&s.words, k, n, " ");
    }
    assert((target@, code@) == redir_parts(words, k as int));
    if is_empty(target.as_str()) {
        warn(c, s.line, "redir target must not be empty; skipped");
        return;
    }
    match map_value(target.as_str()) {
        Err(e) => {
            let m = cat3("redir: ", e.as_str(), "; skipped");
            warn(c, s.line, m.as_str());
        },
        Ok(value) => {
            let tail = cat2(code.as_str(), "\n");
            let text = cat5(pad, "redir ", value.as_str(), " ", tail.as_str());
            c.write(text.as_str());
        },
    }
}

/// A conversion with a warning about the path of an upstream, when it has one.
pub open spec fn path_dropped(c: ConvertedView, line: usize, target: Seq<char>) -> ConvertedView {
    match upstream_path(target) {
        Some(path) => warn_of(c, line, "upstream path '/"@ + path + "' dropped"@),
        None => c,
    }
}

/// The targets among the words from `i` on, after `targets`; the others are
/// warned of, and so are the paths of these.
pub open spec fn targets_from(
    c: ConvertedView,
    words: Seq<Seq<char>>,
    i: int,
    line: usize,
    targets: Seq<Seq<char>>,
) -> (Seq<Seq<char>>, ConvertedView)
    decreases words.len() - i,
{
    if i < 0 || i >= words.len() {
        (targets, c)
    } else {
        match upstream_target(words[i]) {
            Ok(t) => targets_from(
                path_dropped(c, line, words[i]),
                words,
                i + 1,
                line,
                targets.push(t),
            ),
            Err(e) => targets_from(warn_of(c, line, e), words, i + 1, line, targets),
        }
    }
}

/// Map the upstreams among the words from `from` on, and warn of the others.
pub fn map_upstreams(c: &mut Converted, words: &Vec<String>, from: usize, line: usize) -> (r: Vec<
    String,
>)
    ensures
        (r.deep_view(), final(c).deep_view()) == targets_from(
            old(c).deep_view(),
            words.deep_view(),
            from as int,
            line,
            Seq::empty(),
        ),
{
    let ghost all = words.deep_view();
    let ghost want = targets_from(c.deep_view(), all, from as int, line, Seq::empty());
    let mut targets: Vec<String> = Vec::new();
    let mut i: usize = from;
    assert(targets.deep_view() == Seq::<Seq<char>>::empty());
    while i < words.len()
        invariant
            from <= i,
            all == words.deep_view(),
            want == targets_from(c.deep_view(), all, i as int, line, targets.deep_view()),
        decreases words@.len() - i,
    {
        assert(all[i as int] == words@[i as int]@);
        match normalize_upstream(words[i].as_str()) {
            Ok(t) => {
                if let Some(path) = path_of_upstream(words[i].as_str()) {
                    let m = cat3("upstream path '/", path, "' dropped");
                    warn(c, line, m.as_str());
                }
                add_to(&mut targets, t);
            },
            Err(e) => {
                warn(c, line, e.as_str());
            },
        }
        i += 1;
    }
    targets
}

/// The line that names the targets of a `reverse_proxy`.
pub open spec fn to_line(pad: Seq<char>, targets: Seq<Seq<char>>) -> Seq<char> {
    pad + "    to "@ + joined(targets, " "@) + "\n"@
}

fn write_to_line(c: &mut Converted, pad: &str, targets: &Vec<String>)
    ensures
        final(c).deep_view() == put(old(c).deep_view(), to_line(pad@, targets.deep_view())),
{
    let list = join(targets, 0, targets.len(), " ");
    assert(targets.deep_view().subrange(0, targets@.len() as int) == targets.deep_view());
    let text = cat4(pad, "    to ", list.as_str(), "\n");
    c.write(text.as_str());
}

/// A conversion with a warning about what an option of a `reverse_proxy` does not
/// take: a block, and words behind a policy.
pub open spec fn option_cut(c: ConvertedView, s: StmtView) -> ConvertedView {
    let name = first_word(s.words);
    let c = if s.block.len() > 0 && (name == "to"@ || name == "load_balancing"@) {
        warn_of(c, s.line, "block of '"@ + name + "' dropped"@)
    } else {
        c
    };
    if name == "load_balancing"@ && s.words.len() > 3 {
        warn_of(c, s.line, "arguments of load_balancing dropped"@)
    } else {
        c
    }
}

fn warn_of_cut(c: &mut Converted, s: &Stmt)
    ensures
        final(c).deep_view() == option_cut(old(c).deep_view(), stmt_view(*s)),
{
    let name = head_word(&s.words);
    if s.block.len() > 0 && (same(name, "to") || same(name, "load_balancing")) {
        let m = cat3("block of '", name, "' dropped");
        warn(c, s.line, m.as_str());
    }
    if same(name, "load_balancing") && s.words.len() > 3 {
        warn(c, s.line, "arguments of load_balancing dropped");
    }
}

/// One option in the block of a `reverse_proxy`.
pub open spec fn proxy_option(c: ConvertedView, s: StmtView, pad: Seq<char>) -> ConvertedView {
    let name = first_word(s.words);
    let c = option_cut(c, s);
    if name == "to"@ {
        if s.words.len() < 2 {
            warn_of(c, s.line, "to requires an upstream target; skipped"@)
        } else {
            let (targets, c) = targets_from(c, s.words, 1, s.line, Seq::empty());
            if targets.len() > 0 {
                put(c, to_line(pad, targets))
            } else {
                c
            }
        }
    } else if name == "load_balancing"@ {
        if s.words.len() > 1 && s.words[1] == "policy"@ {
            let policy = if s.words.len() > 2 {
                s.words[2]
            } else {
                Seq::empty()
            };
            if policy == "round_robin"@ || policy == "random"@ || policy == "ip_hash"@ {
                put(c, pad + "    lb_policy "@ + policy + "\n"@)
            } else {
                put(
                    warn_of(c, s.line, "unsupported load_balancing policy '"@ + policy + "'"@),
                    pad + "    lb_policy "@ + "round_robin"@ + "\n"@,
                )
            }
        } else {
            warn_of(c, s.line, "only 'load_balancing policy' is supported; skipped"@)
        }
    } else {
        warn_of(c, s.line, "unsupported reverse_proxy option '"@ + name + "'; skipped"@)
    }
}

/// Whether an option in the block of a `reverse_proxy` names a target.
pub open spec fn names_target(s: StmtView) -> bool {
    first_word(s.words) == "to"@ && targets_from(
        nothing(),
        s.words,
        1,
        s.line,
        Seq::empty(),
    ).0.len() > 0
}

fn convert_proxy_option(c: &mut Converted, s: &Stmt, pad: &str) -> (r: bool)
    ensures
        final(c).deep_view() == proxy_option(old(c).deep_view(), stmt_view(*s), pad@),
        r == names_target(stmt_view(*s)),
{
    let n: usize = s.words.len();
    let ghost words = s.words.deep_view();
    assert(n > 1 ==> words[1] == s.words@[1]@);
    assert(n > 2 ==> words[2] == s.words@[2]@);
    let name = head_word(&s.words);
    warn_of_cut(c, s);
    if same(name, "to") {
        if n < 2 {
            warn(c, s.line, "to requires an upstream target; skipped");
            return false;
        }
        proof {
            lemma_same_targets(c.deep_view(), nothing(), words, 1, s.line, s.line, Seq::empty());
        }
        let targets = map_upstreams(c, &s.words, 1, s.line);
        if targets.len() == 0 {
            return false;
        }
        write_to_line(c, pad, &targets);
        return true;
    } else if same(name, "load_balancing") {
        if n > 1 && same(s.words[1].as_str(), "policy") {
            let policy = if n > 2 {
                s.words[2].as_str()
            } else {
                proof {
                    reveal_strlit("");
                }
                assert(""@ == Seq::<char>::empty());
                ""
            };
            if same(policy, "round_robin") || same(policy, "random") || same(policy, "ip_hash") {
                let text = cat4(pad, "    lb_policy ", policy, "\n");
                c.write(text.as_str());
            } else {
                let m = cat3("unsupported load_balancing policy '", policy, "'");
                warn(c, s.line, m.as_str());
                let text = cat4(pad, "    lb_policy ", "round_robin", "\n");
                c.write(text.as_str());
            }
        } else {
            warn(c, s.line, "only 'load_balancing policy' is supported; skipped");
        }
    } else {
        let m = cat3("unsupported reverse_proxy option '", name, "'; skipped");
        warn(c, s.line, m.as_str());
    }
    false
}

/// Which targets there are does not depend on where they stand.
pub proof fn lemma_same_targets(
    c: ConvertedView,
    d: ConvertedView,
    words: Seq<Seq<char>>,
    i: int,
    line: usize,
    other: usize,
    targets: Seq<Seq<char>>,
)
    ensures
        ({
            let (a, e) = targets_from(c, words, i, line, targets);
            let (b, f) = targets_from(d, words, i, other, targets);
            &&& a == b
            &&& e.raddyfile == c.raddyfile
            &&& f.raddyfile == d.raddyfile
            &&& e.warnings.len() - c.warnings.len() == f.warnings.len() - d.warnings.len()
        }),
    decreases words.len() - i,
{
    if 0 <= i < words.len() {
        match upstream_target(words[i]) {
            Ok(t) => {
                lemma_same_targets(
                    path_dropped(c, line, words[i]),
                    path_dropped(d, other, words[i]),
                    words,
                    i + 1,
                    line,
                    other,
                    targets.push(t),
                );
            },
            Err(m) => {
                lemma_same_targets(
                    warn_of(c, line, m),
                    warn_of(d, other, m),
                    words,
                    i + 1,
                    line,
                    other,
                    targets,
                );
            },
        }
    }
}

/// The first `n` options in the block of a `reverse_proxy`.
pub open spec fn proxy_options(c: ConvertedView, block: Seq<StmtView>, n: nat, pad: Seq<char>)
    -> ConvertedView
    decreases n,
{
    if n == 0 {
        c
    } else {
        proxy_option(proxy_options(c, block, (n - 1) as nat, pad), block[n - 1], pad)
    }
}

/// Whether one of the first `n` options names a target.
pub open spec fn some_target(block: Seq<StmtView>, n: nat) -> bool {
    exists|i: int| 0 <= i < n && names_target(#[trigger] block[i])
}

/// The options of a `reverse_proxy` with a block: the targets on its line, then
/// the options of the block.
pub open spec fn proxy_body(c: ConvertedView, s: StmtView, k: int, pad: Seq<char>) -> ConvertedView {
    let (targets, d) = targets_from(c, s.words, k, s.line, Seq::empty());
    let start = if targets.len() > 0 {
        put(d, to_line(pad, targets))
    } else {
        d
    };
    proxy_options(start, s.block, s.block.len(), pad)
}

/// A `reverse_proxy` directive, inline or with a block. Without a target it is
/// left out with a warning.
pub open spec fn proxy(c: ConvertedView, s: StmtView, pad: Seq<char>) -> ConvertedView {
    let inline = s.words.len() > 1 && opens_with(s.words[1], '/');
    let k: int = if inline {
        2
    } else {
        1
    };
    let matcher = if inline {
        s.words[1] + " "@
    } else {
        Seq::empty()
    };
    if s.block.len() == 0 {
        if s.words.len() <= k {
            warn_of(c, s.line, "reverse_proxy requires an upstream target; skipped"@)
        } else {
            let (targets, c) = targets_from(c, s.words, k, s.line, Seq::empty());
            if targets.len() == 0 {
                c
            } else if targets.len() == 1 {
                put(c, pad + "reverse_proxy "@ + matcher + targets[0] + "\n"@)
            } else {
                put(
                    put(
                        put(c, pad + "reverse_proxy "@ + matcher + "{\n"@),
                        to_line(pad, targets),
                    ),
                    pad + "}\n"@,
                )
            }
        }
    } else {
        let targets = targets_from(apart(c), s.words, k, s.line, Seq::empty()).0;
        let body = proxy_body(apart(c), s, k, pad);
        let d = rejoined(c, body);
        if targets.len() > 0 || some_target(s.block, s.block.len()) {
            put(
                put(put(d, pad + "reverse_proxy "@ + matcher + "{\n"@), body.raddyfile),
                pad + "}\n"@,
            )
        } else {
            warn_of(d, s.line, "reverse_proxy has no usable upstream target; skipped"@)
        }
    }
}

fn convert_proxy(c: &mut Converted, s: &Stmt, pad: &str)
    requires
        s.words@.len() > 0,
    ensures
        final(c).deep_view() == proxy(old(c).deep_view(), stmt_view(*s), pad@),
{
    let n: usize = s.words.len();
    let ghost words = s.words.deep_view();
    assert(n > 1 ==> words[1] == s.words@[1]@);
    let mut k: usize = 1;
    let mut matcher = String::new();
    assert(matcher@ == Seq::<char>::empty());
    if n > 1 && starts_with_char(s.words[1].as_str(), '/') {
        k = 2;
        matcher = cat2(s.words[1].as_str(), " ");
    }
    let open = cat4(pad, "reverse_proxy ", matcher.as_str(), "{\n");
    let close = cat2(pad, "}\n");
    if s.block.len() == 0 {
        if n <= k {
            warn(c, s.line, "reverse_proxy requires an upstream target; skipped");
            return;
        }
        let targets = map_upstreams(c, &s.words, k, s.line);
        if targets.len() == 0 {
            return;
        }
        assert(targets.deep_view()[0] == targets@[0]@);
        if targets.len() == 1 {
            let text = cat5(pad, "reverse_proxy ", matcher.as_str(), targets[0].as_str(), "\n");
            c.write(text.as_str());
        } else {
            c.write(open.as_str());
            write_to_line(c, pad, &targets);
            c.write(close.as_str());
        }
        return;
    }
    let ghost before = c.deep_view();
    let ghost block = stmts_view(s.block@);
    let mut body = c.start_apart();
    let targets = map_upstreams(&mut body, &s.words, k, s.line);
    let mut usable = targets.len() > 0;
    if usable {
        write_to_line(&mut body, pad, &targets);
    }
    let ghost start = body.deep_view();
    let mut i: usize = 0;
    while i < s.block.len()
        invariant
            i <= s.block@.len(),
            block == stmts_view(s.block@),
            body.deep_view() == proxy_options(start, block, i as nat, pad@),
            usable == (targets@.len() > 0 || some_target(block, i as nat)),
        decreases s.block@.len() - i,
    {
        assert(block[i as int] == stmt_view(s.block@[i as int]));
        let named = convert_proxy_option(&mut body, &s.block[i], pad);
        usable = usable || named;
        i += 1;
        assert(some_target(block, i as nat) == (some_target(block, (i - 1) as nat) || named)) by {
            if named {
                assert(names_target(block[i - 1]));
            }
        }
    }
    assert(body.deep_view() == proxy_body(apart(before), stmt_view(*s), k as int, pad@));
    let text = c.rejoin(body);
    if usable {
        c.write(open.as_str());
        c.write(text.as_str());
        c.write(close.as_str());
    } else {
        warn(c, s.line, "reverse_proxy has no usable upstream target; skipped");
    }
}

/// A `root` directive, in which a leading `*` is dropped.
pub open spec fn root(c: ConvertedView, s: StmtView, pad: Seq<char>) -> ConvertedView {
    let n = s.words.len() as int;
    let k: int = if n > 1 && s.words[1] == "*"@ {
        2
    } else {
        1
    };
    if n - k != 1 {
        warn_of(c, s.line, "root expects exactly one path; skipped"@)
    } else {
        put(c, pad + "root "@ + s.words[k] + "\n"@)
    }
}

fn convert_root(c: &mut Converted, s: &Stmt, pad: &str)
    requires
        s.words@.len() > 0,
    ensures
        final(c).deep_view() == root(old(c).deep_view(), stmt_view(*s), pad@),
{
    let n: usize = s.words.len();
    let ghost words = s.words.deep_view();
    assert(n > 1 ==> words[1] == s.words@[1]@);
    let k: usize = if n > 1 && same(s.words[1].as_str(), "*") {
        2
    } else {
        1
    };
    if n - k != 1 {
        warn(c, s.line, "root expects exactly one path; skipped");
    } else {
        assert(words[k as int] == s.words@[k as int]@);
        let text = cat4(pad, "root ", s.words[k].as_str(), "\n");
        c.write(text.as_str());
    }
}

/// The algorithms among the words from `i` on that can be used, after `done`; the
/// others are warned of.
pub open spec fn algorithms_from(
    c: ConvertedView,
    words: Seq<Seq<char>>,
    i: int,
    line: usize,
    done: Seq<Seq<char>>,
) -> (Seq<Seq<char>>, ConvertedView)
    decreases words.len() - i,
{
    if i < 0 || i >= words.len() {
        (done, c)
    } else if encoding(words[i]) is Some {
        algorithms_from(c, words, i + 1, line, done.push(words[i]))
    } else {
        algorithms_from(
            warn_of(c, line, "unsupported encode algorithm '"@ + words[i] + "'; skipped"@),
            words,
            i + 1,
            line,
            done,
        )
    }
}

/// An `encode` directive.
pub open spec fn encode(c: ConvertedView, s: StmtView, pad: Seq<char>) -> ConvertedView {
    if s.words.len() < 2 {
        warn_of(c, s.line, "encode requires at least one algorithm; skipped"@)
    } else {
        let (algorithms, c) = algorithms_from(c, s.words, 1, s.line, Seq::empty());
        if algorithms.len() > 0 {
            put(c, pad + "encode "@ + joined(algorithms, " "@) + "\n"@)
        } else {
            c
        }
    }
}

fn convert_encode(c: &mut Converted, s: &Stmt, pad: &str)
    ensures
        final(c).deep_view() == encode(old(c).deep_view(), stmt_view(*s), pad@),
{
    if s.words.len() < 2 {
        warn(c, s.line, "encode requires at least one algorithm; skipped");
        return;
    }
    let ghost all = s.words.deep_view();
    let ghost want = algorithms_from(c.deep_view(), all, 1, s.line, Seq::empty());
    let mut algorithms: Vec<String> = Vec::new();
    let mut i: usize = 1;
    assert(algorithms.deep_view() == Seq::<Seq<char>>::empty());
    while i < s.words.len()
        invariant
            1 <= i,
            all == s.words.deep_view(),
            want == algorithms_from(c.deep_view(), all, i as int, s.line, algorithms.deep_view()),
        decreases s.words@.len() - i,
    {
        assert(all[i as int] == s.words@[i as int]@);
        let word = s.words[i].as_str();
        if same(word, "gzip") || same(word, "zstd") || same(word, "br") {
            add_to(&mut algorithms, owned(word));
        } else {
            let m = cat3("unsupported encode algorithm '", word, "'; skipped");
            warn(c, s.line, m.as_str());
        }
        i += 1;
    }
    if algorithms.len() > 0 {
        let list = join(&algorithms, 0, algorithms.len(), " ");
        assert(algorithms.deep_view().subrange(0, algorithms@.len() as int)
            == algorithms.deep_view());
        let text = cat4(pad, "encode ", list.as_str(), "\n");
        c.write(text.as_str());
    }
}

/// A `file_server` directive, which takes no argument here.
pub open spec fn file_server(c: ConvertedView, s: StmtView, pad: Seq<char>) -> ConvertedView {
    let c = if s.words.len() > 1 {
        warn_of(c, s.line, "arguments of file_server dropped"@)
    } else {
        c
    };
    put(c, pad + "file_server\n"@)
}

/// Whether a directive that is converted takes no block.
pub open spec fn takes_no_block(name: Seq<char>) -> bool {
    ||| name == "root"@
    ||| name == "file_server"@
    ||| name == "header_up"@
    ||| name == "header_down"@
    ||| name == "encode"@
    ||| name == "redir"@
}

/// A conversion with a warning about the block of a directive that takes none.
pub open spec fn block_dropped(c: ConvertedView, s: StmtView) -> ConvertedView {
    let name = first_word(s.words);
    if s.block.len() > 0 && takes_no_block(name) {
        warn_of(c, s.line, "block of '"@ + name + "' dropped"@)
    } else {
        c
    }
}

fn warn_of_block(c: &mut Converted, s: &Stmt)
    ensures
        final(c).deep_view() == block_dropped(old(c).deep_view(), stmt_view(*s)),
{
    let name = head_word(&s.words);
    if s.block.len() > 0 && (same(name, "root") || same(name, "file_server") || same(
        name,
        "header_up",
    ) || same(name, "header_down") || same(name, "encode") || same(name, "redir")) {
        let m = cat3("block of '", name, "' dropped");
        warn(c, s.line, m.as_str());
    }
}

/// A directive of a site or of a `handle` block.
pub open spec fn directive(c: ConvertedView, s: StmtView, pad: Seq<char>) -> ConvertedView
    decreases s, 0nat,
{
    let name = first_word(s.words);
    let c = block_dropped(c, s);
    if name == "reverse_proxy"@ {
        proxy(c, s, pad)
    } else if name == "root"@ {
        root(c, s, pad)
    } else if name == "file_server"@ {
        file_server(c, s, pad)
    } else if name == "handle"@ {
        if s.words.len() != 2 {
            warn_of(c, s.line, "handle expects exactly one path; skipped"@)
        } else {
            put(
                directives(
                    put(c, pad + "handle "@ + s.words[1] + " {\n"@),
                    s.block,
                    s.block.len(),
                    pad + "    "@,
                ),
                pad + "}\n"@,
            )
        }
    } else if name == "header_up"@ || name == "header_down"@ {
        header(c, s, pad, name)
    } else if name == "encode"@ {
        encode(c, s, pad)
    } else if name == "redir"@ {
        redir(c, s, pad)
    } else if name == "tls"@ {
        warn_of(
            c,
            s.line,
            "tls directive skipped; raddy handles certificates via ACME automatically"@,
        )
    } else {
        warn_of(c, s.line, "unsupported directive '"@ + name + "'; skipped"@)
    }
}

/// The first `n` directives of a block.
pub open spec fn directives(c: ConvertedView, block: Seq<StmtView>, n: nat, pad: Seq<char>)
    -> ConvertedView
    decreases block, n,
{
    if n == 0 || n > block.len() {
        c
    } else {
        directive(directives(c, block, (n - 1) as nat, pad), block[n - 1], pad)
    }
}

fn convert_directive(c: &mut Converted, s: &Stmt, pad: &str)
    ensures
        final(c).deep_view() == directive(old(c).deep_view(), stmt_view(*s), pad@),
    decreases *s,
{
    let name = head_word(&s.words);
    let n: usize = s.words.len();
    proof {
        reveal_strlit("reverse_proxy");
        reveal_strlit("root");
        reveal_strlit("header_up");
        reveal_strlit("header_down");
        reveal_strlit("redir");
        assert("reverse_proxy"@.len() > 0 && "root"@.len() > 0 && "redir"@.len() > 0);
        assert("header_up"@.len() > 0 && "header_down"@.len() > 0);
        assert(name@.len() > 0 ==> n > 0);
    }
    warn_of_block(c, s);
    if same(name, "reverse_proxy") {
        convert_proxy(c, s, pad);
    } else if same(name, "root") {
        convert_root(c, s, pad);
    } else if same(name, "file_server") {
        if n > 1 {
            warn(c, s.line, "arguments of file_server dropped");
        }
        let text = cat2(pad, "file_server\n");
        c.write(text.as_str());
    } else if same(name, "handle") {
        if n != 2 {
            warn(c, s.line, "handle expects exactly one path; skipped");
            return;
        }
        assert(s.words.deep_view()[1] == s.words@[1]@);
        let open = cat4(pad, "handle ", s.words[1].as_str(), " {\n");
        c.write(open.as_str());
        let inner = cat2(pad, "    ");
        convert_directives(c, &s.block, inner.as_str());
        let close = cat2(pad, "}\n");
        c.write(close.as_str());
    } else if same(name, "header_up") || same(name, "header_down") {
        convert_header(c, s, pad, name);
    } else if same(name, "encode") {
        convert_encode(c, s, pad);
    } else if same(name, "redir") {
        convert_redir(c, s, pad);
    } else if same(name, "tls") {
        warn(
            c,
            s.line,
            "tls directive skipped; raddy handles certificates via ACME automatically",
        );
    } else {
        let m = cat3("unsupported directive '", name, "'; skipped");
        warn(c, s.line, m.as_str());
    }
}

fn convert_directives(c: &mut Converted, block: &Vec<Stmt>, pad: &str)
    ensures
        final(c).deep_view() == directives(
            old(c).deep_view(),
            stmts_view(block@),
            block@.len(),
            pad@,
        ),
    decreases *block,
{
    let ghost start = c.deep_view();
    let mut i: usize = 0;
    while i < block.len()
        invariant
            i <= block@.len(),
            c.deep_view() == directives(start, stmts_view(block@), i as nat, pad@),
        decreases block@.len() - i,
    {
        convert_directive(c, &block[i], pad);
        i += 1;
    }
}

// ---------------------------------------------------------------------------
// Sites
// ---------------------------------------------------------------------------

/// A site block. It is left out with a warning when nothing in it can be
/// converted, or when what was converted is not a site.
pub open spec fn site(src: SourcesView, c: ConvertedView, s: StmtView) -> ConvertedView {
    let c = others_left_out(c, s.line, s.words);
    match site_addr(s.words) {
        Err(e) => warn_of(c, s.line, e),
        Ok(addr) => {
            let body = directives(apart(c), s.block, s.block.len(), "    "@);
            let c = rejoined(c, body);
            let text = addr + " {\n"@ + body.raddyfile + "}\n"@;
            if trimmed(body.raddyfile).len() == 0 {
                warn_of(c, s.line, "site '"@ + addr + "' had nothing convertible; skipped"@)
            } else if !is_site(src, text) {
                warn_of(
                    c,
                    s.line,
                    "site '"@ + addr + "' did not convert to a valid site; skipped"@,
                )
            } else {
                put(c, text)
            }
        },
    }
}

fn convert_site(sources: &Sources, c: &mut Converted, s: &Stmt)
    ensures
        final(c).deep_view() == site(
            sources.deep_view(),
            old(c).deep_view(),
            stmt_view(*s),
        ),
{
    warn_of_others(c, s.line, &s.words);
    let addr = match map_site_addr(&s.words) {
        Ok(a) => a,
        Err(e) => {
            warn(c, s.line, e.as_str());
            return;
        },
    };
    let mut body = c.start_apart();
    convert_directives(&mut body, &s.block, "    ");
    let text = c.rejoin(body);
    let whole = cat4(addr.as_str(), " {\n", text.as_str(), "}\n");
    if is_empty(trim(text.as_str())) {
        let m = cat3("site '", addr.as_str(), "' had nothing convertible; skipped");
        warn(c, s.line, m.as_str());
    } else if !makes_site(sources, whole.as_str()) {
        let m = cat3("site '", addr.as_str(), "' did not convert to a valid site; skipped");
        warn(c, s.line, m.as_str());
    } else {
        c.write(whole.as_str());
    }
}

/// A statement at the top level.
pub open spec fn top_level(src: SourcesView, c: ConvertedView, s: StmtView) -> ConvertedView {
    if s.words.len() == 0 {
        warn_of(c, s.line, "global options block is not supported; skipped"@)
    } else if s.block.len() == 0 {
        warn_of(c, s.line, "top-level directive '"@ + s.words[0] + "' has no block; skipped"@)
    } else {
        site(src, c, s)
    }
}

/// The first `n` statements at the top level.
pub open spec fn top_levels(src: SourcesView, stmts: Seq<StmtView>, n: nat) -> ConvertedView
    decreases n,
{
    if n == 0 {
        nothing()
    } else {
        top_level(src, top_levels(src, stmts, (n - 1) as nat), stmts[n - 1])
    }
}

/// The conversion of a Caddyfile, with `src` for the environment of the sites.
pub open spec fn converted_with(input: Seq<char>, src: SourcesView) -> Result<
    ConvertedView,
    Seq<char>,
> {
    match statements(lines_in(input)) {
        Err(e) => Err(e),
        Ok(stmts) => Ok(top_levels(src, stmts, stmts.len())),
    }
}

/// The conversion of a Caddyfile whose sites have no environment.
pub open spec fn converted(input: Seq<char>) -> Result<ConvertedView, Seq<char>> {
    converted_with(input, no_sources())
}

/// Convert a Caddyfile whose sites have no environment.
pub fn convert(input: &str) -> (r: Result<Converted, String>)
    ensures
        match (r, converted(input@)) {
            (Ok(c), Ok(w)) => c.deep_view() == w,
            (Err(e), Err(w)) => e@ == w,
            _ => false,
        },
{
    convert_with(input, &Sources::none())
}

/// Convert a Caddyfile, with `sources` for the environment of the sites.
pub fn convert_with(input: &str, sources: &Sources) -> (r: Result<Converted, String>)
    ensures
        match (r, converted_with(input@, sources.deep_view())) {
            (Ok(c), Ok(w)) => c.deep_view() == w,
            (Err(e), Err(w)) => e@ == w,
            _ => false,
        },
{
    let source = lines(input);
    let stmts = match parse_stmts(&source) {
        Ok(s) => s,
        Err(e) => {
            return Err(e);
        },
    };
    let ghost all = stmts_view(stmts@);
    let mut c = Converted::new();
    let mut i: usize = 0;
    while i < stmts.len()
        invariant
            i <= stmts@.len(),
            all == stmts_view(stmts@),
            c.deep_view() == top_levels(sources.deep_view(), all, i as nat),
        decreases stmts@.len() - i,
    {
        let s = &stmts[i];
        assert(all[i as int] == stmt_view(*s));
        if s.words.len() == 0 {
            warn(&mut c, s.line, "global options block is not supported; skipped");
        } else if s.block.len() == 0 {
            assert(s.words.deep_view()[0] == s.words@[0]@);
            let m = cat3("top-level directive '", s.words[0].as_str(), "' has no block; skipped");
            warn(&mut c, s.line, m.as_str());
        } else {
            convert_site(sources, &mut c, s);
        }
        i += 1;
    }
    Ok(c)
}

// ---------------------------------------------------------------------------
// Mapped values
// ---------------------------------------------------------------------------

/// Whether every placeholder of a value is one that maps to itself.
spec fn is_mapped(s: Seq<char>) -> bool
    decreases s.len(),
{
    let a = first_index(s, '{');
    if a < 0 || a >= s.len() {
        true
    } else {
        let tail = s.skip(a);
        let e = first_index(tail, '}');
        &&& 1 <= e < tail.len()
        &&& placeholder(tail.subrange(1, e)) == Some(tail.take(e + 1))
        &&& is_mapped(tail.skip(e + 1))
    }
}

/// A value that was mapped is a template, and mapping it again changes nothing.
pub proof fn mapped_values_are_templates(raw: Seq<char>)
    ensures
        value_from(raw, raw, Seq::empty()) matches Ok(s) ==> template(s) is Ok && value_from(
            s,
            s,
            Seq::empty(),
        ) == Ok::<Seq<char>, Seq<char>>(s),
{
    if let Ok(s) = value_from(raw, raw, Seq::empty()) {
        let t = lemma_value_is_mapped(raw, raw, Seq::empty());
        assert(Seq::<char>::empty() + t == t);
        lemma_mapped_is_kept(s, s, Seq::empty());
        assert(Seq::<char>::empty() + s == s);
        assert(s.skip(0) == s);
        lemma_mapped_is_template(s, 0, Seq::empty(), Seq::empty());
    }
}

/// What the rest of a value is mapped to.
proof fn lemma_value_is_mapped(raw: Seq<char>, rest: Seq<char>, done: Seq<char>) -> (t: Seq<char>)
    ensures
        value_from(raw, rest, done) matches Ok(s) ==> s == done + t && is_mapped(t),
    decreases rest.len(),
{
    lemma_first_index(rest, '{');
    let a = first_index(rest, '{');
    if a >= rest.len() {
        rest
    } else {
        let tail = rest.skip(a);
        lemma_first_index(tail, '}');
        let e = first_index(tail, '}');
        if 1 <= e < tail.len() && placeholder(tail.subrange(1, e)) is Some {
            let p = placeholder(tail.subrange(1, e))->0;
            let head = rest.take(a);
            let u = lemma_value_is_mapped(raw, tail.skip(e + 1), done + head + p);
            let t = head + p + u;
            assert(done + head + p + u == done + t);
            assert forall|i: int| 0 <= i < head.len() implies #[trigger] head[i] != '{' by {
                assert(head[i] == rest[i]);
            }
            if is_mapped(u) {
                lemma_mapped_piece(head, p, u);
            }
            t
        } else {
            rest
        }
    }
}

/// Text without an opening brace, a placeholder that maps to itself and a mapped
/// value are a mapped value.
proof fn lemma_mapped_piece(head: Seq<char>, p: Seq<char>, u: Seq<char>)
    requires
        forall|i: int| 0 <= i < head.len() ==> #[trigger] head[i] != '{',
        p == "{host}"@ || p == "{uri}"@ || p == "{remote_host}"@,
        is_mapped(u),
    ensures
        is_mapped(head + p + u),
{
    reveal_strlit("{host}");
    reveal_strlit("{uri}");
    reveal_strlit("{remote_host}");
    reveal_strlit("host");
    reveal_strlit("uri");
    reveal_strlit("remote_host");
    let s = head + p + u;
    let n = p.len() as int;
    let k = head.len() as int;
    lemma_first_index(s, '{');
    assert(s[k] == p[0]);
    assert(first_index(s, '{') == k) by {
        let f = first_index(s, '{');
        if f < k {
            assert(s[f] == head[f]);
        }
    }
    let tail = s.skip(k);
    assert(tail == p + u);
    lemma_first_index(tail, '}');
    assert(tail[n - 1] == '}');
    assert(forall|i: int| 0 <= i < n - 1 ==> tail[i] == p[i] && p[i] != '}');
    assert(first_index(tail, '}') == n - 1);
    let name = tail.subrange(1, n - 1);
    assert(name == p.subrange(1, n - 1));
    if p == "{host}"@ {
        assert(name == "host"@);
    } else if p == "{uri}"@ {
        assert(name == "uri"@);
    } else {
        assert(name == "remote_host"@);
    }
    assert("uri"@.len() == 3 && "host"@.len() == 4 && "remote_host"@.len() == 11);
    reveal_strlit("http.request.host");
    reveal_strlit("http.request.uri");
    assert("http.request.host"@.len() == 17 && "http.request.uri"@.len() == 16);
    assert(placeholder(name) == Some(p));
    assert(tail.take(n) == p);
    assert(tail.skip(n) == u);
}

proof fn lemma_mapped_is_kept(raw: Seq<char>, rest: Seq<char>, done: Seq<char>)
    requires
        is_mapped(rest),
    ensures
        value_from(raw, rest, done) == Ok::<Seq<char>, Seq<char>>(done + rest),
    decreases rest.len(),
{
    lemma_first_index(rest, '{');
    let a = first_index(rest, '{');
    if a < rest.len() {
        let tail = rest.skip(a);
        let e = first_index(tail, '}');
        let p = tail.take(e + 1);
        let next = tail.skip(e + 1);
        lemma_mapped_is_kept(raw, next, done + rest.take(a) + p);
        assert(done + rest.take(a) + p + next == done + rest);
    }
}

/// The names that placeholders map to are those of the variables.
proof fn lemma_placeholder_is_variable(name: Seq<char>, p: Seq<char>)
    requires
        placeholder(name) == Some(p),
        p.len() == name.len() + 2,
        p.subrange(1, p.len() - 1) == name,
    ensures
        variable(name) is Some,
{
    reveal_strlit("{host}");
    reveal_strlit("{uri}");
    reveal_strlit("{remote_host}");
    reveal_strlit("host");
    reveal_strlit("uri");
    reveal_strlit("remote_host");
    reveal_strlit("http.request.host");
    reveal_strlit("http.request.uri");
    reveal_strlit("http.request.remote");
    assert("http.request.host"@.len() == 17 && "http.request.uri"@.len() == 16
        && "http.request.remote"@.len() == 19);
    assert("{host}"@.len() == 6 && "{uri}"@.len() == 5 && "{remote_host}"@.len() == 13);
}

proof fn lemma_mapped_is_template(
    s: Seq<char>,
    i: int,
    lit: Seq<char>,
    parts: Seq<TemplatePartView>,
)
    requires
        0 <= i <= s.len(),
        is_mapped(s.skip(i)),
    ensures
        template_from(s, i, lit, parts) is Ok,
    decreases s.len() - i,
{
    let rest = s.skip(i);
    lemma_first_index(rest, '{');
    let a = first_index(rest, '{');
    if i < s.len() {
        assert(rest[0] == s[i]);
        if s[i] == '{' {
            assert(a == 0);
            assert(rest.skip(0) == rest);
            let e = first_index(rest, '}');
            let n = first_index(s.skip(i + 1), '}');
            assert(rest.skip(1) == s.skip(i + 1));
            assert(e == 1 + n);
            let name = rest.subrange(1, e);
            assert(name == s.subrange(i + 1, i + 1 + n));
            let p = rest.take(e + 1);
            assert(p.subrange(1, p.len() - 1) == name);
            lemma_placeholder_is_variable(name, p);
            assert(rest.skip(e + 1) == s.skip(i + 2 + n));
            lemma_mapped_is_template(
                s,
                i + 2 + n,
                Seq::empty(),
                with_literal(parts, lit).push(TemplatePartView::Var(variable(name)->0)),
            );
        } else {
            let next = s.skip(i + 1);
            assert(next == rest.skip(1));
            assert(a == 1 + first_index(next, '{'));
            if a < rest.len() {
                assert(rest.skip(a) == next.skip(a - 1));
            }
            lemma_mapped_is_template(s, i + 1, lit.push(s[i]), parts);
        }
    }
}

// ---------------------------------------------------------------------------
// Nothing is dropped silently
// ---------------------------------------------------------------------------

/// Nothing is dropped silently: every statement at the top level, every directive
/// of a site or a `handle` block, and every option of a `reverse_proxy` leaves
/// something in the converted file or a warning, and takes away nothing that was
/// there.
pub proof fn nothing_is_dropped_silently(
    src: SourcesView,
    c: ConvertedView,
    s: StmtView,
    pad: Seq<char>,
)
    ensures
        left_a_trace(c, top_level(src, c, s)),
        left_a_trace(c, directive(c, s, pad)),
        left_a_trace(c, proxy_option(c, s, pad)),
{
    lemma_directive(c, s, pad);
    lemma_proxy_option(c, s, pad);
    reveal_strlit("}\n");
    if s.words.len() > 0 && s.block.len() > 0 {
        lemma_others_left_out(c, s.line, s.words);
        let d = others_left_out(c, s.line, s.words);
        lemma_directives(apart(d), s.block, s.block.len(), "    "@);
    }
}

proof fn lemma_addresses_left_out(c: ConvertedView, line: usize, list: Seq<char>)
    ensures
        grew(c, addresses_left_out(c, line, list)),
        addresses_left_out(c, line, list).raddyfile == c.raddyfile,
    decreases list.len(),
{
    lemma_first_index(list, ',');
    if let Some((addr, rest)) = cut(list, ',') {
        lemma_addresses_left_out(address_left_out(c, line, addr), line, rest);
    }
}

proof fn lemma_others_left_out(c: ConvertedView, line: usize, words: Seq<Seq<char>>)
    ensures
        grew(c, others_left_out(c, line, words)),
        others_left_out(c, line, words).raddyfile == c.raddyfile,
{
    if let Some((_, rest)) = cut(addresses(words), ',') {
        lemma_addresses_left_out(c, line, rest);
    }
}

proof fn lemma_targets(
    c: ConvertedView,
    words: Seq<Seq<char>>,
    i: int,
    line: usize,
    targets: Seq<Seq<char>>,
)
    requires
        0 <= i,
    ensures
        ({
            let (ts, d) = targets_from(c, words, i, line, targets);
            &&& grew(c, d)
            &&& d.raddyfile == c.raddyfile
            &&& ts.len() >= targets.len()
            &&& i < words.len() ==> ts.len() > targets.len() || d.warnings.len() > c.warnings.len()
        }),
    decreases words.len() - i,
{
    if i < words.len() {
        match upstream_target(words[i]) {
            Ok(t) => {
                lemma_targets(path_dropped(c, line, words[i]), words, i + 1, line, targets.push(t));
            },
            Err(e) => {
                lemma_targets(warn_of(c, line, e), words, i + 1, line, targets);
            },
        }
    }
}

proof fn lemma_proxy_option(c: ConvertedView, s: StmtView, pad: Seq<char>)
    ensures
        left_a_trace(c, proxy_option(c, s, pad)),
{
    reveal_strlit("\n");
    lemma_targets(option_cut(c, s), s.words, 1, s.line, Seq::empty());
}

proof fn lemma_proxy_options(c: ConvertedView, block: Seq<StmtView>, n: nat, pad: Seq<char>)
    ensures
        grew(c, proxy_options(c, block, n, pad)),
    decreases n,
{
    if n > 0 {
        lemma_proxy_options(c, block, (n - 1) as nat, pad);
        lemma_proxy_option(proxy_options(c, block, (n - 1) as nat, pad), block[n - 1], pad);
    }
}

proof fn lemma_proxy(c: ConvertedView, s: StmtView, pad: Seq<char>)
    ensures
        left_a_trace(c, proxy(c, s, pad)),
{
    reveal_strlit("\n");
    reveal_strlit("{\n");
    reveal_strlit("}\n");
    let k: int = if s.words.len() > 1 && opens_with(s.words[1], '/') {
        2
    } else {
        1
    };
    if s.block.len() == 0 {
        lemma_targets(c, s.words, k, s.line, Seq::empty());
    } else {
        lemma_targets(apart(c), s.words, k, s.line, Seq::empty());
        let (targets, d) = targets_from(apart(c), s.words, k, s.line, Seq::empty());
        let start = if targets.len() > 0 {
            put(d, to_line(pad, targets))
        } else {
            d
        };
        lemma_proxy_options(start, s.block, s.block.len(), pad);
    }
}

proof fn lemma_algorithms(
    c: ConvertedView,
    words: Seq<Seq<char>>,
    i: int,
    line: usize,
    done: Seq<Seq<char>>,
)
    requires
        0 <= i,
    ensures
        ({
            let (found, d) = algorithms_from(c, words, i, line, done);
            &&& grew(c, d)
            &&& d.raddyfile == c.raddyfile
            &&& found.len() >= done.len()
            &&& i < words.len() ==> found.len() > done.len() || d.warnings.len()
                > c.warnings.len()
        }),
    decreases words.len() - i,
{
    if i < words.len() {
        if encoding(words[i]) is Some {
            lemma_algorithms(c, words, i + 1, line, done.push(words[i]));
        } else {
            let m = "unsupported encode algorithm '"@ + words[i] + "'; skipped"@;
            lemma_algorithms(warn_of(c, line, m), words, i + 1, line, done);
        }
    }
}

proof fn lemma_directive(c: ConvertedView, s: StmtView, pad: Seq<char>)
    ensures
        left_a_trace(c, directive(c, s, pad)),
    decreases s, 0nat,
{
    reveal_strlit("\n");
    reveal_strlit(" {\n");
    reveal_strlit("}\n");
    reveal_strlit("file_server\n");
    let d = block_dropped(c, s);
    assert(grew(c, d));
    lemma_proxy(d, s, pad);
    lemma_algorithms(d, s.words, 1, s.line, Seq::empty());
    if first_word(s.words) == "handle"@ && s.words.len() == 2 {
        let open = put(d, pad + "handle "@ + s.words[1] + " {\n"@);
        assert(left_a_trace(c, open));
        lemma_directives(open, s.block, s.block.len(), pad + "    "@);
    }
    assert(left_a_trace(d, directive(c, s, pad)));
}

proof fn lemma_directives(c: ConvertedView, block: Seq<StmtView>, n: nat, pad: Seq<char>)
    ensures
        grew(c, directives(c, block, n, pad)),
    decreases block, n,
{
    if 0 < n <= block.len() {
        lemma_directives(c, block, (n - 1) as nat, pad);
        lemma_directive(directives(c, block, (n - 1) as nat, pad), block[n - 1], pad);
    }
}

/// What a site block writes.
pub proof fn lemma_site_text(
    src: SourcesView,
    c: ConvertedView,
    s: StmtView,
) -> (text: Option<Seq<char>>)
    ensures
        match text {
            None => site(src, c, s).raddyfile == c.raddyfile,
            Some(t) => is_site(src, t) && site(src, c, s).raddyfile == c.raddyfile + t,
        },
{
    lemma_others_left_out(c, s.line, s.words);
    let d = others_left_out(c, s.line, s.words);
    match site_addr(s.words) {
        Err(_) => None,
        Ok(addr) => {
            let body = directives(apart(d), s.block, s.block.len(), "    "@);
            let text = addr + " {\n"@ + body.raddyfile + "}\n"@;
            if trimmed(body.raddyfile).len() == 0 || !is_site(src, text) {
                None
            } else {
                Some(text)
            }
        },
    }
}

} // verus!
