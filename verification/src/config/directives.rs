//! Directives that fit on one line.
//!
//! Each function takes the words of a line, the directive name first, and gives
//! the directive or the message that says what is wrong with the line.
use crate::config::ast::{
    add_to, AccessLogDirective, AccessLogDirectiveView, AccessLogFormat, ClientAuth, ClientAuthMode,
    ClientAuthView, Directive, DirectiveView, Dup, Encoding, LbPolicy, LogLevel, Matcher,
    MatcherView, Protocol, RateLimitKey, RateLimitKeyView, RateSpec, RateSpecView, TlsConfig,
    TlsConfigView, TlsSource, TlsSourceView, TlsVersion, ValueTemplate,
};
use crate::config::ast::default_tls;
use crate::config::template::template;
use crate::config::values::{
    matcher_prefix, parse_rate, parse_redirect_code, rate_value, redirect_code, says,
    strip_matcher_wildcard,
};
use crate::net::{cidr_literal, Cidr};
use crate::num::{number, parse_u16, parse_u64};
use crate::text::{
    after, after_char, cat2, cat3, concat, concatenated, contains_char, is_empty, join, joined,
    owned, same, starts_with_char, strip_char, strip_prefix,
};
use vstd::prelude::*;

verus! {

// ---------------------------------------------------------------------------
// Matchers
// ---------------------------------------------------------------------------

/// The networks at the head of `words` from index `k` on, after `done`: words
/// are read as long as they write networks.
pub open spec fn networks_from(words: Seq<Seq<char>>, k: int, done: Seq<Cidr>) -> Seq<Cidr>
    decreases words.len() - k,
{
    if 0 <= k < words.len() && cidr_literal(words[k]) is Ok {
        networks_from(words, k + 1, done.push(cidr_literal(words[k])->Ok_0))
    } else {
        done
    }
}

/// `m`, negated when `negated`.
pub open spec fn term(negated: bool, m: MatcherView) -> MatcherView {
    if negated {
        MatcherView::Not(Box::new(m))
    } else {
        m
    }
}

/// The kinds of matcher that take a fixed number of arguments, with that number.
pub open spec fn matcher_arity(kind: Seq<char>) -> Option<nat> {
    if kind == "path"@ || kind == "host"@ || kind == "method"@ || kind == "protocol"@ {
        Some(1)
    } else if kind == "header"@ || kind == "query"@ {
        Some(2)
    } else {
        None
    }
}

/// The matcher of a fixed-arity kind with its arguments.
pub open spec fn fixed_matcher(kind: Seq<char>, words: Seq<Seq<char>>) -> Result<
    MatcherView,
    Seq<char>,
> {
    if kind == "path"@ {
        Ok(MatcherView::Path(matcher_prefix(words[1])))
    } else if kind == "host"@ {
        Ok(MatcherView::Host(words[1]))
    } else if kind == "method"@ {
        Ok(MatcherView::Method(words[1]))
    } else if kind == "header"@ {
        Ok(MatcherView::Header { name: words[1], value: words[2] })
    } else if kind == "query"@ {
        Ok(MatcherView::Query { key: words[1], value: words[2] })
    } else if words[1] == "http"@ {
        Ok(MatcherView::Protocol(Protocol::Http))
    } else if words[1] == "https"@ {
        Ok(MatcherView::Protocol(Protocol::Https))
    } else {
        Err("invalid protocol '"@ + words[1] + "' (expected http or https)"@)
    }
}

/// The matcher term at the head of `words`, with the number of words that it
/// takes: a bare `/path`, or a kind with its arguments, negated by a leading `!`.
pub open spec fn one_matcher(words: Seq<Seq<char>>) -> Result<Option<(MatcherView, nat)>, Seq<char>> {
    if words.len() == 0 {
        Ok(None)
    } else if words[0].len() > 0 && words[0][0] == '/' {
        if words[0].len() < 2 {
            Err("path matcher must not be empty"@)
        } else {
            Ok(Some((MatcherView::Path(matcher_prefix(words[0])), 1)))
        }
    } else {
        let (negated, kind) = match after_char(words[0], '!') {
            Some(k) => (true, k),
            None => (false, words[0]),
        };
        if kind == "remote_ip"@ {
            let nets = networks_from(words, 1, Seq::empty());
            if words.len() < 2 {
                Err("matcher 'remote_ip' is missing arguments"@)
            } else if nets.len() == 0 {
                Err("matcher 'remote_ip' requires at least one CIDR"@)
            } else {
                Ok(Some((term(negated, MatcherView::RemoteIp(nets)), nets.len() + 1)))
            }
        } else {
            match matcher_arity(kind) {
                None => Ok(None),
                Some(arity) => if words.len() <= arity {
                    Err("matcher '"@ + kind + "' is missing arguments"@)
                } else {
                    match fixed_matcher(kind, words) {
                        Err(m) => Err(m),
                        Ok(m) => Ok(Some((term(negated, m), arity + 1))),
                    }
                },
            }
        }
    }
}

/// The matcher terms in `words` from index `k` on, after `done`, and the index
/// of the first word that belongs to none.
pub open spec fn matchers_from(words: Seq<Seq<char>>, k: int, done: Seq<MatcherView>) -> Result<
    (Seq<MatcherView>, int),
    Seq<char>,
>
    decreases words.len() - k,
    via matchers_from_shrinks
{
    if k < 0 || k > words.len() {
        Ok((done, k))
    } else {
        match one_matcher(words.skip(k)) {
            Err(m) => Err(m),
            Ok(None) => Ok((done, k)),
            Ok(Some((m, n))) => matchers_from(words, k + n, done.push(m)),
        }
    }
}

proof fn lemma_networks_from(words: Seq<Seq<char>>, k: int, done: Seq<Cidr>)
    requires
        0 <= k <= words.len(),
    ensures
        done.len() <= networks_from(words, k, done).len() <= done.len() + words.len() - k,
    decreases words.len() - k,
{
    if k < words.len() && cidr_literal(words[k]) is Ok {
        lemma_networks_from(words, k + 1, done.push(cidr_literal(words[k])->Ok_0));
    }
}

/// A matcher term takes at least one word, and no more than there are.
proof fn lemma_one_matcher(words: Seq<Seq<char>>)
    ensures
        one_matcher(words) matches Ok(Some((_, n))) ==> 1 <= n <= words.len(),
{
    if words.len() > 0 {
        lemma_networks_from(words, 1, Seq::empty());
    }
}

#[via_fn]
proof fn matchers_from_shrinks(words: Seq<Seq<char>>, k: int, done: Seq<MatcherView>) {
    if 0 <= k <= words.len() {
        lemma_one_matcher(words.skip(k));
    }
}

fn read_networks(words: &Vec<String>, from: usize) -> (r: Vec<Cidr>)
    requires
        1 <= from <= words@.len(),
    ensures
        r.deep_view() == networks_from(words.deep_view().skip(from - 1), 1, Seq::empty()),
        r@.len() <= words@.len() - from,
{
    let ghost all = words.deep_view().skip(from - 1);
    let mut nets: Vec<Cidr> = Vec::new();
    let mut k: usize = from;
    assert(nets.deep_view() == Seq::<Cidr>::empty());
    while k < words.len()
        invariant
            1 <= from <= k <= words@.len(),
            all == words.deep_view().skip(from - 1),
            nets@.len() == k - from,
            networks_from(all, 1, Seq::empty()) == networks_from(
                all,
                k - from + 1,
                nets.deep_view(),
            ),
        decreases words@.len() - k,
    {
        assert(all[k - from + 1] == words@[k as int]@);
        match Cidr::parse(words[k].as_str()) {
            Ok(c) => {
                add_to(&mut nets, c);
            },
            Err(_) => {
                return nets;
            },
        }
        k += 1;
    }
    nets
}

fn negate_if(negated: bool, m: Matcher) -> (r: Matcher)
    ensures
        r.deep_view() == term(negated, m.deep_view()),
{
    if negated {
        Matcher::Not(Box::new(m))
    } else {
        m
    }
}

fn arity_of(kind: &str) -> (r: Option<usize>)
    ensures
        match r {
            Some(n) => matcher_arity(kind@) == Some(n as nat) && n <= 2,
            None => matcher_arity(kind@) is None,
        },
{
    if same(kind, "path") || same(kind, "host") || same(kind, "method") || same(kind, "protocol") {
        Some(1)
    } else if same(kind, "header") || same(kind, "query") {
        Some(2)
    } else {
        None
    }
}

fn read_fixed_matcher(kind: &str, words: &Vec<String>, at: usize) -> (r: Result<Matcher, String>)
    requires
        matcher_arity(kind@) matches Some(n) && at + n < words@.len(),
    ensures
        says(r, fixed_matcher(kind@, words.deep_view().skip(at as int))),
{
    let ghost all = words.deep_view().skip(at as int);
    let n: usize = words.len();
    assert(all[1] == words@[at + 1]@);
    let a = words[at + 1].as_str();
    if same(kind, "path") {
        Ok(Matcher::Path(owned(strip_matcher_wildcard(a))))
    } else if same(kind, "host") {
        Ok(Matcher::Host(owned(a)))
    } else if same(kind, "method") {
        Ok(Matcher::Method(owned(a)))
    } else if same(kind, "header") {
        assert(all[2] == words@[at + 2]@) by {
            lemma_two_arguments();
        }
        proof {
            lemma_two_arguments();
        }
        Ok(Matcher::Header { name: owned(a), value: owned(words[at + 2].as_str()) })
    } else if same(kind, "query") {
        proof {
            lemma_two_arguments();
        }
        assert(all[2] == words@[at + 2]@);
        Ok(Matcher::Query { key: owned(a), value: owned(words[at + 2].as_str()) })
    } else if same(a, "http") {
        Ok(Matcher::Protocol(Protocol::Http))
    } else if same(a, "https") {
        Ok(Matcher::Protocol(Protocol::Https))
    } else {
        Err(cat3("invalid protocol '", a, "' (expected http or https)"))
    }
}

proof fn lemma_two_arguments()
    ensures
        matcher_arity("header"@) == Some(2nat),
        matcher_arity("query"@) == Some(2nat),
{
    reveal_strlit("header");
    reveal_strlit("query");
    reveal_strlit("path");
    reveal_strlit("host");
    reveal_strlit("method");
    reveal_strlit("protocol");
    assert("header"@[1] == 'e' && "query"@[1] == 'u' && "path"@[1] == 'a' && "host"@[1] == 'o'
        && "protocol"@[1] == 'r');
    assert("method"@[0] == 'm' && "header"@[0] == 'h' && "query"@[0] == 'q');
}

/// Parse a single matcher term if `words` has one at `at`. Gives the matcher and
/// the number of words that it takes.
pub fn parse_one_matcher(words: &Vec<String>, at: usize) -> (r: Result<
    Option<(Matcher, usize)>,
    String,
>)
    requires
        at <= words@.len(),
    ensures
        match r {
            Ok(Some((m, n))) => one_matcher(words.deep_view().skip(at as int)) == Ok::<
                Option<(MatcherView, nat)>,
                Seq<char>,
            >(Some((m.deep_view(), n as nat))) && 1 <= n <= words@.len() - at,
            Ok(None) => one_matcher(words.deep_view().skip(at as int)) == Ok::<
                Option<(MatcherView, nat)>,
                Seq<char>,
            >(None),
            Err(m) => one_matcher(words.deep_view().skip(at as int)) == Err::<
                Option<(MatcherView, nat)>,
                Seq<char>,
            >(m@),
        },
{
    let ghost all = words.deep_view().skip(at as int);
    proof {
        lemma_one_matcher(all);
    }
    let len: usize = words.len();
    if at >= len {
        return Ok(None);
    }
    let first = words[at].as_str();
    assert(all[0] == first@);
    if starts_with_char(first, '/') {
        if first.unicode_len() < 2 {
            return Err(owned("path matcher must not be empty"));
        }
        return Ok(Some((Matcher::Path(owned(strip_matcher_wildcard(first))), 1)));
    }
    let (negated, kind) = match strip_char(first, '!') {
        Some(k) => (true, k),
        None => (false, first),
    };
    if same(kind, "remote_ip") {
        if len - at < 2 {
            return Err(owned("matcher 'remote_ip' is missing arguments"));
        }
        let nets = read_networks(words, at + 1);
        if nets.len() == 0 {
            return Err(owned("matcher 'remote_ip' requires at least one CIDR"));
        }
        let n: usize = nets.len() + 1;
        return Ok(Some((negate_if(negated, Matcher::RemoteIp(nets)), n)));
    }
    match arity_of(kind) {
        None => Ok(None),
        Some(arity) => if len - at <= arity {
            Err(cat3("matcher '", kind, "' is missing arguments"))
        } else {
            match read_fixed_matcher(kind, words, at) {
                Err(m) => Err(m),
                Ok(m) => Ok(Some((negate_if(negated, m), arity + 1))),
            }
        },
    }
}

/// Parse matcher terms from `words[from..]`, stopping at the first word that
/// belongs to none. Gives the matchers and the index of that word.
pub fn parse_matchers(words: &Vec<String>, from: usize) -> (r: Result<(Vec<Matcher>, usize), String>)
    requires
        from <= words@.len(),
    ensures
        match r {
            Ok((ms, k)) => matchers_from(words.deep_view(), from as int, Seq::empty()) == Ok::<
                (Seq<MatcherView>, int),
                Seq<char>,
            >((ms.deep_view(), k as int)) && from <= k <= words@.len(),
            Err(m) => matchers_from(words.deep_view(), from as int, Seq::empty()) == Err::<
                (Seq<MatcherView>, int),
                Seq<char>,
            >(m@),
        },
{
    let len: usize = words.len();
    let mut ms: Vec<Matcher> = Vec::new();
    let mut k: usize = from;
    assert(ms.deep_view() == Seq::<MatcherView>::empty());
    loop
        invariant
            from <= k <= words@.len(),
            words@.len() == len,
            matchers_from(words.deep_view(), from as int, Seq::empty()) == matchers_from(
                words.deep_view(),
                k as int,
                ms.deep_view(),
            ),
        decreases words@.len() - k,
    {
        match parse_one_matcher(words, k) {
            Err(m) => {
                return Err(m);
            },
            Ok(None) => {
                return Ok((ms, k));
            },
            Ok(Some((m, n))) => {
                add_to(&mut ms, m);
                k += n;
            },
        }
    }
}

// ---------------------------------------------------------------------------
// Simple directives
// ---------------------------------------------------------------------------

/// `header_up` and `header_down`.
pub open spec fn header_line(words: Seq<Seq<char>>, block: bool, up: bool) -> Result<
    DirectiveView,
    Seq<char>,
> {
    if block {
        Err("unexpected '{' after header directive"@)
    } else if words.len() < 3 {
        Err(
            if up {
                "header_up"@
            } else {
                "header_down"@
            } + " requires a header name and value"@,
        )
    } else {
        match template(concatenated(words.skip(2))) {
            Err(m) => Err(m),
            Ok(value) => Ok(
                if up {
                    DirectiveView::HeaderUp { name: words[1], value }
                } else {
                    DirectiveView::HeaderDown { name: words[1], value }
                },
            ),
        }
    }
}

/// Parse `header_up <name> <value>` or `header_down <name> <value>`.
pub fn parse_header(words: &Vec<String>, block: bool, up: bool) -> (r: Result<Directive, String>)
    ensures
        says(r, header_line(words.deep_view(), block, up)),
{
    if block {
        return Err(owned("unexpected '{' after header directive"));
    }
    if words.len() < 3 {
        return Err(
            cat2(
                if up {
                    "header_up"
                } else {
                    "header_down"
                },
                " requires a header name and value",
            ),
        );
    }
    let raw = concat(words, 2, words.len());
    assert(words.deep_view().subrange(2, words@.len() as int) == words.deep_view().skip(2));
    assert(words.deep_view()[1] == words@[1]@);
    match ValueTemplate::parse(raw.as_str()) {
        Err(m) => Err(m),
        Ok(value) => {
            let name = owned(words[1].as_str());
            Ok(
                if up {
                    Directive::HeaderUp { name, value }
                } else {
                    Directive::HeaderDown { name, value }
                },
            )
        },
    }
}

/// `file_server`.
pub open spec fn file_server_line(words: Seq<Seq<char>>, block: bool) -> Result<
    DirectiveView,
    Seq<char>,
> {
    if block {
        Err("unexpected '{' after file_server"@)
    } else if words.len() != 1 {
        Err("file_server takes no arguments"@)
    } else {
        Ok(DirectiveView::FileServer)
    }
}

/// Parse `file_server`.
pub fn parse_file_server(words: &Vec<String>, block: bool) -> (r: Result<Directive, String>)
    ensures
        says(r, file_server_line(words.deep_view(), block)),
{
    if block {
        Err(owned("unexpected '{' after file_server"))
    } else if words.len() != 1 {
        Err(owned("file_server takes no arguments"))
    } else {
        Ok(Directive::FileServer)
    }
}

/// `root <path>`.
pub open spec fn root_line(words: Seq<Seq<char>>, block: bool) -> Result<DirectiveView, Seq<char>> {
    if block {
        Err("unexpected '{' after root"@)
    } else if words.len() != 2 || words[1].len() == 0 {
        Err("root requires exactly one non-empty path"@)
    } else {
        Ok(DirectiveView::Root { path: words[1] })
    }
}

/// Parse `root <path>`.
pub fn parse_root(words: &Vec<String>, block: bool) -> (r: Result<Directive, String>)
    ensures
        says(r, root_line(words.deep_view(), block)),
{
    if block {
        Err(owned("unexpected '{' after root"))
    } else if words.len() != 2 || is_empty(words[1].as_str()) {
        Err(owned("root requires exactly one non-empty path"))
    } else {
        Ok(Directive::Root { path: owned(words[1].as_str()) })
    }
}

/// The algorithm that a word names.
pub open spec fn encoding(word: Seq<char>) -> Option<Encoding> {
    if word == "gzip"@ {
        Some(Encoding::Gzip)
    } else if word == "zstd"@ {
        Some(Encoding::Zstd)
    } else if word == "br"@ {
        Some(Encoding::Brotli)
    } else {
        None
    }
}

/// The algorithms that `words` name from index `k` on, after `done`.
pub open spec fn encodings_from(words: Seq<Seq<char>>, k: int, done: Seq<Encoding>) -> Result<
    Seq<Encoding>,
    Seq<char>,
>
    decreases words.len() - k,
{
    if k < 0 || k >= words.len() {
        Ok(done)
    } else {
        match encoding(words[k]) {
            None => Err(
                "unknown encode algorithm '"@ + words[k] + "' (expected gzip, zstd, or br)"@,
            ),
            Some(e) => encodings_from(words, k + 1, done.push(e)),
        }
    }
}

/// `encode <algorithm>...`.
pub open spec fn encode_line(words: Seq<Seq<char>>, block: bool) -> Result<DirectiveView, Seq<char>> {
    if block {
        Err("unexpected '{' after encode"@)
    } else if words.len() < 2 {
        Err("encode requires at least one algorithm (gzip, zstd, br)"@)
    } else {
        match encodings_from(words, 1, Seq::empty()) {
            Err(m) => Err(m),
            Ok(algorithms) => Ok(DirectiveView::Encode { algorithms }),
        }
    }
}

/// Parse `encode <algorithm>...`.
pub fn parse_encode(words: &Vec<String>, block: bool) -> (r: Result<Directive, String>)
    ensures
        says(r, encode_line(words.deep_view(), block)),
{
    if block {
        return Err(owned("unexpected '{' after encode"));
    }
    if words.len() < 2 {
        return Err(owned("encode requires at least one algorithm (gzip, zstd, br)"));
    }
    let ghost all = words.deep_view();
    let mut algorithms: Vec<Encoding> = Vec::new();
    let mut k: usize = 1;
    assert(algorithms.deep_view() == Seq::<Encoding>::empty());
    while k < words.len()
        invariant
            1 <= k <= words@.len(),
            words@.len() >= 2,
            !block,
            all == words.deep_view(),
            encodings_from(all, 1, Seq::empty()) == encodings_from(
                all,
                k as int,
                algorithms.deep_view(),
            ),
        decreases words@.len() - k,
    {
        let w = words[k].as_str();
        assert(all[k as int] == w@);
        if same(w, "gzip") {
            add_to(&mut algorithms, Encoding::Gzip);
        } else if same(w, "zstd") {
            add_to(&mut algorithms, Encoding::Zstd);
        } else if same(w, "br") {
            add_to(&mut algorithms, Encoding::Brotli);
        } else {
            return Err(
                cat3("unknown encode algorithm '", w, "' (expected gzip, zstd, or br)"),
            );
        }
        k += 1;
    }
    Ok(Directive::Encode { algorithms })
}

/// The redirect status of a `redir` line that gives none.
pub const REDIR_DEFAULT_CODE: u16 = 308;

/// The target and the status of a `redir` line of at least two words. A last
/// word that is neither a status nor a `{placeholder}` fragment is an error,
/// never part of the target.
pub open spec fn redir_parts(words: Seq<Seq<char>>) -> Result<(Seq<char>, u16), Seq<char>> {
    let last = words.last();
    if words.len() == 2 {
        Ok((concatenated(words.skip(1)), REDIR_DEFAULT_CODE))
    } else if let Some(code) = redirect_code(last) {
        Ok((concatenated(words.subrange(1, words.len() - 1)), code))
    } else if last.len() > 0 && last[0] == '{' {
        Ok((concatenated(words.skip(1)), REDIR_DEFAULT_CODE))
    } else {
        Err(
            "invalid redirect code '"@ + last
                + "' (expected a 3xx number, 'permanent', or 'temporary')"@,
        )
    }
}

/// `redir <target> [<code>]`.
pub open spec fn redir_line(words: Seq<Seq<char>>, block: bool) -> Result<DirectiveView, Seq<char>> {
    if block {
        Err("unexpected '{' after redir"@)
    } else if words.len() < 2 {
        Err("redir requires a target"@)
    } else {
        match redir_parts(words) {
            Err(m) => Err(m),
            Ok((to, code)) => if to.len() == 0 {
                Err("redir target must not be empty"@)
            } else {
                Ok(DirectiveView::Redir { to, code })
            },
        }
    }
}

fn split_redir(words: &Vec<String>) -> (r: Result<(String, u16), String>)
    requires
        words@.len() >= 2,
    ensures
        says(r, redir_parts(words.deep_view())),
{
    let n: usize = words.len();
    let ghost all = words.deep_view();
    assert(all.subrange(1, n as int) == all.skip(1));
    let last = words[n - 1].as_str();
    assert(all.last() == last@);
    if n == 2 {
        return Ok((concat(words, 1, n), REDIR_DEFAULT_CODE));
    }
    match parse_redirect_code(last) {
        Some(code) => Ok((concat(words, 1, n - 1), code)),
        None => if starts_with_char(last, '{') {
            Ok((concat(words, 1, n), REDIR_DEFAULT_CODE))
        } else {
            Err(
                cat3(
                    "invalid redirect code '",
                    last,
                    "' (expected a 3xx number, 'permanent', or 'temporary')",
                ),
            )
        },
    }
}

/// Parse `redir <target> [<code>]`.
pub fn parse_redir(words: &Vec<String>, block: bool) -> (r: Result<Directive, String>)
    ensures
        says(r, redir_line(words.deep_view(), block)),
{
    if block {
        return Err(owned("unexpected '{' after redir"));
    }
    if words.len() < 2 {
        return Err(owned("redir requires a target"));
    }
    match split_redir(words) {
        Err(m) => Err(m),
        Ok((to, code)) => if is_empty(to.as_str()) {
            Err(owned("redir target must not be empty"))
        } else {
            Ok(Directive::Redir { to, code })
        },
    }
}

/// `rewrite <to>`.
pub open spec fn rewrite_line(words: Seq<Seq<char>>, block: bool) -> Result<
    DirectiveView,
    Seq<char>,
> {
    let target = concatenated(words.skip(1));
    if block {
        Err("unexpected '{' after rewrite"@)
    } else if words.len() < 2 {
        Err("rewrite requires a target"@)
    } else if target.len() == 0 {
        Err("rewrite target must not be empty"@)
    } else {
        match template(target) {
            Err(m) => Err(m),
            Ok(to) => Ok(DirectiveView::Rewrite { to }),
        }
    }
}

/// Parse `rewrite <to>`. Placeholder fragments are separate words, so they are
/// joined like the target of `redir`.
pub fn parse_rewrite(words: &Vec<String>, block: bool) -> (r: Result<Directive, String>)
    ensures
        says(r, rewrite_line(words.deep_view(), block)),
{
    if block {
        return Err(owned("unexpected '{' after rewrite"));
    }
    if words.len() < 2 {
        return Err(owned("rewrite requires a target"));
    }
    let target = concat(words, 1, words.len());
    assert(words.deep_view().subrange(1, words@.len() as int) == words.deep_view().skip(1));
    if is_empty(target.as_str()) {
        return Err(owned("rewrite target must not be empty"));
    }
    match ValueTemplate::parse(target.as_str()) {
        Err(m) => Err(m),
        Ok(to) => Ok(Directive::Rewrite { to }),
    }
}

/// `respond <matcher> <status> [<body>]`.
pub open spec fn respond_line(words: Seq<Seq<char>>, block: bool) -> Result<
    DirectiveView,
    Seq<char>,
> {
    if block {
        Err("unexpected '{' after respond"@)
    } else {
        match matchers_from(words, 1, Seq::empty()) {
            Err(m) => Err(m),
            Ok((matcher, k)) => {
                let rest = words.skip(k);
                if !(1 <= rest.len() <= 2) {
                    Err("respond expects: respond <matcher> <status> [<body>]"@)
                } else {
                    match number(rest[0], 0xffff) {
                        None => Err("invalid respond status '"@ + rest[0] + "'"@),
                        Some(n) => if !(100 <= n <= 599) {
                            Err("respond status must be between 100 and 599"@)
                        } else {
                            Ok(
                                DirectiveView::Respond {
                                    matcher,
                                    status: n as u16,
                                    body: if rest.len() == 2 {
                                        Some(rest[1])
                                    } else {
                                        None
                                    },
                                },
                            )
                        },
                    }
                }
            },
        }
    }
}

/// Parse `respond <matcher> <status> [<body>]`.
#[verifier::rlimit(50)]
pub fn parse_respond(words: &Vec<String>, block: bool) -> (r: Result<Directive, String>)
    requires
        words@.len() > 0,
    ensures
        says(r, respond_line(words.deep_view(), block)),
{
    if block {
        return Err(owned("unexpected '{' after respond"));
    }
    let (matcher, k) = match parse_matchers(words, 1) {
        Ok(x) => x,
        Err(m) => {
            return Err(m);
        },
    };
    let n: usize = words.len() - k;
    if n < 1 || n > 2 {
        return Err(owned("respond expects: respond <matcher> <status> [<body>]"));
    }
    let ghost rest = words.deep_view().skip(k as int);
    let s = words[k].as_str();
    assert(rest[0] == s@);
    match parse_u16(s) {
        None => Err(cat3("invalid respond status '", s, "'")),
        Some(status) => if status < 100 || status > 599 {
            Err(owned("respond status must be between 100 and 599"))
        } else {
            let body = if n == 2 {
                assert(rest[1] == words@[k + 1]@);
                Some(owned(words[k + 1].as_str()))
            } else {
                None
            };
            Ok(Directive::Respond { matcher, status, body })
        },
    }
}

/// The status and the message that the arguments of `error` give from index `k`
/// on: a number is the status, any other word the message, each at most once.
pub open spec fn error_args(
    words: Seq<Seq<char>>,
    k: int,
    status: Option<u16>,
    message: Option<Seq<char>>,
) -> Result<(Option<u16>, Option<Seq<char>>), Seq<char>>
    decreases words.len() - k,
{
    if k < 0 || k >= words.len() {
        Ok((status, message))
    } else {
        match number(words[k], 0xffff) {
            Some(n) => if status is Some {
                Err("duplicate error status"@)
            } else if !(100 <= n <= 599) {
                Err("error status must be between 100 and 599"@)
            } else {
                error_args(words, k + 1, Some(n as u16), message)
            },
            None => if message is Some {
                Err("duplicate error message"@)
            } else {
                error_args(words, k + 1, status, Some(words[k]))
            },
        }
    }
}

/// `error <matcher> [<status>] [<message>]`.
pub open spec fn error_line(words: Seq<Seq<char>>, block: bool) -> Result<DirectiveView, Seq<char>> {
    if block {
        Err("unexpected '{' after error"@)
    } else {
        match matchers_from(words, 1, Seq::empty()) {
            Err(m) => Err(m),
            Ok((matcher, k)) => match error_args(words, k, None, None) {
                Err(m) => Err(m),
                Ok((status, message)) => Ok(DirectiveView::Error { matcher, status, message }),
            },
        }
    }
}

/// Parse `error <matcher> [<status>] [<message>]`.
pub fn parse_error(words: &Vec<String>, block: bool) -> (r: Result<Directive, String>)
    requires
        words@.len() > 0,
    ensures
        says(r, error_line(words.deep_view(), block)),
{
    if block {
        return Err(owned("unexpected '{' after error"));
    }
    let (matcher, start) = match parse_matchers(words, 1) {
        Ok(x) => x,
        Err(m) => {
            return Err(m);
        },
    };
    let ghost all = words.deep_view();
    let mut status: Option<u16> = None;
    let mut message: Option<String> = None;
    let mut k: usize = start;
    while k < words.len()
        invariant
            start <= k <= words@.len(),
            !block,
            all == words.deep_view(),
            matchers_from(all, 1, Seq::empty()) == Ok::<(Seq<MatcherView>, int), Seq<char>>(
                (matcher.deep_view(), start as int),
            ),
            error_args(all, start as int, None, None) == error_args(
                all,
                k as int,
                status,
                message.deep_view(),
            ),
        decreases words@.len() - k,
    {
        let w = words[k].as_str();
        assert(all[k as int] == w@);
        match parse_u16(w) {
            Some(code) => {
                if status.is_some() {
                    return Err(owned("duplicate error status"));
                }
                if code < 100 || code > 599 {
                    return Err(owned("error status must be between 100 and 599"));
                }
                status = Some(code);
            },
            None => {
                if message.is_some() {
                    return Err(owned("duplicate error message"));
                }
                message = Some(owned(w));
            },
        }
        k += 1;
    }
    Ok(Directive::Error { matcher, status, message })
}

/// `basic_auth <user> <hash>`.
pub open spec fn basic_auth_line(words: Seq<Seq<char>>, block: bool) -> Result<
    DirectiveView,
    Seq<char>,
> {
    if block {
        Err("unexpected '{' after basic_auth"@)
    } else if words.len() != 3 {
        Err("basic_auth expects: basic_auth <user> <bcrypt-hash>"@)
    } else {
        Ok(DirectiveView::BasicAuth { user: words[1], hash: words[2] })
    }
}

/// Parse `basic_auth <user> <hash>`.
pub fn parse_basic_auth(words: &Vec<String>, block: bool) -> (r: Result<Directive, String>)
    ensures
        says(r, basic_auth_line(words.deep_view(), block)),
{
    if block {
        Err(owned("unexpected '{' after basic_auth"))
    } else if words.len() != 3 {
        Err(owned("basic_auth expects: basic_auth <user> <bcrypt-hash>"))
    } else {
        Ok(Directive::BasicAuth { user: owned(words[1].as_str()), hash: owned(words[2].as_str()) })
    }
}

/// `forward_auth <host:port>`.
pub open spec fn forward_auth_line(words: Seq<Seq<char>>, block: bool) -> Result<
    DirectiveView,
    Seq<char>,
> {
    if block {
        Err("unexpected '{' after forward_auth"@)
    } else if words.len() != 2 {
        Err("forward_auth expects: forward_auth <host:port>"@)
    } else if !words[1].contains(':') {
        Err("forward_auth target must be <host:port>"@)
    } else {
        Ok(DirectiveView::ForwardAuth { target: words[1] })
    }
}

/// Parse `forward_auth <host:port>`.
pub fn parse_forward_auth(words: &Vec<String>, block: bool) -> (r: Result<Directive, String>)
    ensures
        says(r, forward_auth_line(words.deep_view(), block)),
{
    if block {
        Err(owned("unexpected '{' after forward_auth"))
    } else if words.len() != 2 {
        Err(owned("forward_auth expects: forward_auth <host:port>"))
    } else if !contains_char(words[1].as_str(), ':') {
        Err(owned("forward_auth target must be <host:port>"))
    } else {
        Ok(Directive::ForwardAuth { target: owned(words[1].as_str()) })
    }
}

/// The networks that `words` write from index `k` on, after `done`.
pub open spec fn all_networks_from(words: Seq<Seq<char>>, k: int, done: Seq<Cidr>) -> Result<
    Seq<Cidr>,
    Seq<char>,
>
    decreases words.len() - k,
{
    if k < 0 || k >= words.len() {
        Ok(done)
    } else {
        match cidr_literal(words[k]) {
            Err(m) => Err(m),
            Ok(c) => all_networks_from(words, k + 1, done.push(c)),
        }
    }
}

/// The networks of a `trusted_proxies` line.
pub open spec fn trusted_networks(words: Seq<Seq<char>>) -> Result<Seq<Cidr>, Seq<char>> {
    if words.len() < 2 {
        Err("trusted_proxies requires at least one CIDR"@)
    } else {
        all_networks_from(words, 1, Seq::empty())
    }
}

/// Parse the networks of a `trusted_proxies` line.
pub fn parse_networks(words: &Vec<String>) -> (r: Result<Vec<Cidr>, String>)
    ensures
        says(r, trusted_networks(words.deep_view())),
{
    if words.len() < 2 {
        return Err(owned("trusted_proxies requires at least one CIDR"));
    }
    let ghost all = words.deep_view();
    let mut nets: Vec<Cidr> = Vec::new();
    let mut k: usize = 1;
    assert(nets.deep_view() == Seq::<Cidr>::empty());
    while k < words.len()
        invariant
            1 <= k <= words@.len(),
            words@.len() >= 2,
            all == words.deep_view(),
            all_networks_from(all, 1, Seq::empty()) == all_networks_from(
                all,
                k as int,
                nets.deep_view(),
            ),
        decreases words@.len() - k,
    {
        assert(all[k as int] == words@[k as int]@);
        match Cidr::parse(words[k].as_str()) {
            Err(m) => {
                return Err(m);
            },
            Ok(c) => {
                add_to(&mut nets, c);
            },
        }
        k += 1;
    }
    Ok(nets)
}

/// `trusted_proxies <cidr>...` in a site.
pub open spec fn trusted_proxies_line(words: Seq<Seq<char>>, block: bool) -> Result<
    DirectiveView,
    Seq<char>,
> {
    if block {
        Err("unexpected '{' after trusted_proxies"@)
    } else {
        match trusted_networks(words) {
            Err(m) => Err(m),
            Ok(networks) => Ok(DirectiveView::TrustedProxies { networks }),
        }
    }
}

/// Parse `trusted_proxies <cidr>...` in a site.
pub fn parse_trusted_proxies(words: &Vec<String>, block: bool) -> (r: Result<Directive, String>)
    ensures
        says(r, trusted_proxies_line(words.deep_view(), block)),
{
    if block {
        return Err(owned("unexpected '{' after trusted_proxies"));
    }
    match parse_networks(words) {
        Err(m) => Err(m),
        Ok(networks) => Ok(Directive::TrustedProxies { networks }),
    }
}

/// The TLS version that a word names.
pub open spec fn tls_version(word: Seq<char>) -> Option<TlsVersion> {
    if word == "1.2"@ {
        Some(TlsVersion::Tls12)
    } else if word == "1.3"@ {
        Some(TlsVersion::Tls13)
    } else {
        None
    }
}

/// The client-certificate mode that a word names.
pub open spec fn client_auth_mode(word: Seq<char>) -> Option<ClientAuthMode> {
    if word == "optional"@ {
        Some(ClientAuthMode::Optional)
    } else if word == "require"@ {
        Some(ClientAuthMode::Require)
    } else {
        None
    }
}

/// The settings that a `tls` line gives: `tls`, `tls internal`, `tls <cert>
/// <key>`, `tls min_version|max_version <1.2|1.3>`, `tls ciphers <list>` or `tls
/// client_auth <optional|require> <ca-file>`.
pub open spec fn tls_settings(words: Seq<Seq<char>>, block: bool) -> Result<
    TlsConfigView,
    Seq<char>,
> {
    let args = words.skip(1);
    let base = default_tls();
    if block {
        Err("unexpected '{' after tls"@)
    } else if args.len() == 0 {
        Ok(base)
    } else if args[0] == "internal"@ {
        if args.len() != 1 {
            Err("tls internal takes no arguments"@)
        } else {
            Ok(TlsConfigView { source: TlsSourceView::Internal, ..base })
        }
    } else if args[0] == "min_version"@ || args[0] == "max_version"@ {
        if args.len() != 2 {
            Err("tls "@ + args[0] + " requires exactly one version"@)
        } else {
            match tls_version(args[1]) {
                None => Err("invalid TLS version '"@ + args[1] + "' (expected 1.2 or 1.3)"@),
                Some(v) => if args[0] == "min_version"@ {
                    Ok(TlsConfigView { min_version: Some(v), ..base })
                } else {
                    Ok(TlsConfigView { max_version: Some(v), ..base })
                },
            }
        }
    } else if args[0] == "ciphers"@ {
        if args.len() < 2 {
            Err("tls ciphers requires a cipher list"@)
        } else {
            Ok(TlsConfigView { ciphers: Some(joined(words.skip(2), ":"@)), ..base })
        }
    } else if args[0] == "client_auth"@ {
        if args.len() != 3 {
            Err("tls client_auth expects: client_auth <optional|require> <ca-file>"@)
        } else {
            match client_auth_mode(args[1]) {
                None => Err(
                    "invalid client_auth mode '"@ + args[1] + "' (expected optional or require)"@,
                ),
                Some(mode) => Ok(
                    TlsConfigView {
                        client_auth: Some(ClientAuthView { mode, ca_file: args[2] }),
                        ..base
                    },
                ),
            }
        }
    } else if args.len() != 2 {
        Err(
            "tls expects: internal | <cert-file> <key-file> | min_version/max_version/ciphers/client_auth"@,
        )
    } else {
        Ok(
            TlsConfigView {
                source: TlsSourceView::Static { cert_file: args[0], key_file: args[1] },
                ..base
            },
        )
    }
}

/// Parse the settings that a `tls` line gives.
pub fn parse_tls_settings(words: &Vec<String>, block: bool) -> (r: Result<TlsConfig, String>)
    requires
        words@.len() > 0,
    ensures
        says(r, tls_settings(words.deep_view(), block)),
{
    if block {
        return Err(owned("unexpected '{' after tls"));
    }
    let ghost args = words.deep_view().skip(1);
    let n: usize = words.len() - 1;
    let mut config = TlsConfig::default();
    if n == 0 {
        return Ok(config);
    }
    let first = words[1].as_str();
    assert(args[0] == first@);
    assert(n > 1 ==> args[1] == words@[2]@);
    assert(n > 2 ==> args[2] == words@[3]@);
    if same(first, "internal") {
        if n != 1 {
            return Err(owned("tls internal takes no arguments"));
        }
        config.source = TlsSource::Internal;
    } else if same(first, "min_version") || same(first, "max_version") {
        if n != 2 {
            return Err(cat3("tls ", first, " requires exactly one version"));
        }
        let word = words[2].as_str();
        let version = if same(word, "1.2") {
            TlsVersion::Tls12
        } else if same(word, "1.3") {
            TlsVersion::Tls13
        } else {
            return Err(cat3("invalid TLS version '", word, "' (expected 1.2 or 1.3)"));
        };
        if same(first, "min_version") {
            config.min_version = Some(version);
        } else {
            config.max_version = Some(version);
        }
    } else if same(first, "ciphers") {
        if n < 2 {
            return Err(owned("tls ciphers requires a cipher list"));
        }
        assert(words.deep_view().subrange(2, n + 1) == words.deep_view().skip(2));
        config.ciphers = Some(join(words, 2, words.len(), ":"));
    } else if same(first, "client_auth") {
        if n != 3 {
            return Err(
                owned("tls client_auth expects: client_auth <optional|require> <ca-file>"),
            );
        }
        let word = words[2].as_str();
        let mode = if same(word, "optional") {
            ClientAuthMode::Optional
        } else if same(word, "require") {
            ClientAuthMode::Require
        } else {
            return Err(
                cat3("invalid client_auth mode '", word, "' (expected optional or require)"),
            );
        };
        config.client_auth = Some(ClientAuth { mode, ca_file: owned(words[3].as_str()) });
    } else {
        if n != 2 {
            return Err(
                owned(
                    "tls expects: internal | <cert-file> <key-file> | min_version/max_version/ciphers/client_auth",
                ),
            );
        }
        config.source = TlsSource::Static {
            cert_file: owned(first),
            key_file: owned(words[2].as_str()),
        };
    }
    Ok(config)
}

/// `tls` in a site.
pub open spec fn tls_line(words: Seq<Seq<char>>, block: bool) -> Result<DirectiveView, Seq<char>> {
    match tls_settings(words, block) {
        Err(m) => Err(m),
        Ok(config) => Ok(DirectiveView::Tls { config }),
    }
}

/// Parse `tls` in a site.
pub fn parse_tls(words: &Vec<String>, block: bool) -> (r: Result<Directive, String>)
    requires
        words@.len() > 0,
    ensures
        says(r, tls_line(words.deep_view(), block)),
{
    match parse_tls_settings(words, block) {
        Err(m) => Err(m),
        Ok(config) => Ok(Directive::Tls { config }),
    }
}

/// The key of a `rate_limit` line and the index of its rate.
pub open spec fn rate_key(words: Seq<Seq<char>>) -> Result<(RateLimitKeyView, int), Seq<char>> {
    if words[1] == "remote_ip"@ {
        Ok((RateLimitKeyView::RemoteIp, 2))
    } else if words[1] == "header"@ {
        if words.len() < 4 {
            Err("rate_limit header expects: header <name> <rate>"@)
        } else {
            Ok((RateLimitKeyView::Header(words[2]), 3))
        }
    } else {
        Err(
            "unknown rate_limit key '"@ + words[1]
                + "' (expected 'remote_ip' or 'header <name>')"@,
        )
    }
}

/// The capacity that the word after a rate gives.
pub open spec fn burst_value(arg: Seq<char>) -> Result<u64, Seq<char>> {
    match after(arg, "burst="@) {
        None => Err("unexpected argument '"@ + arg + "' (expected 'burst=<n>')"@),
        Some(value) => match number(value, u64::MAX as nat) {
            None => Err("invalid burst '"@ + value + "'"@),
            Some(n) => if n < 1 {
                Err("burst must be >= 1"@)
            } else {
                Ok(n as u64)
            },
        },
    }
}

/// `rate_limit <key> <rate> [burst=<n>]`.
pub open spec fn rate_limit_line(words: Seq<Seq<char>>, block: bool) -> Result<
    DirectiveView,
    Seq<char>,
> {
    if block {
        Err("unexpected '{' after rate_limit"@)
    } else if words.len() < 3 {
        Err("rate_limit expects: rate_limit <key> <rate> [burst=<n>]"@)
    } else {
        match rate_key(words) {
            Err(m) => Err(m),
            Ok((key, at)) => match rate_value(words[at]) {
                Err(m) => Err(m),
                Ok((count, unit)) => {
                    let burst = if at + 1 < words.len() {
                        burst_value(words[at + 1])
                    } else {
                        Ok(count)
                    };
                    match burst {
                        Err(m) => Err(m),
                        Ok(burst) => Ok(
                            DirectiveView::RateLimit {
                                spec: RateSpecView { key, count, unit, burst },
                            },
                        ),
                    }
                },
            },
        }
    }
}

fn parse_burst(arg: &str) -> (r: Result<u64, String>)
    ensures
        says(r, burst_value(arg@)),
{
    match strip_prefix(arg, "burst=") {
        None => Err(cat3("unexpected argument '", arg, "' (expected 'burst=<n>')")),
        Some(value) => match parse_u64(value) {
            None => Err(cat3("invalid burst '", value, "'")),
            Some(n) => if n < 1 {
                Err(owned("burst must be >= 1"))
            } else {
                Ok(n)
            },
        },
    }
}

/// Parse `rate_limit <key> <rate> [burst=<n>]`. The key is `remote_ip` or
/// `header <name>`.
pub fn parse_rate_limit(words: &Vec<String>, block: bool) -> (r: Result<Directive, String>)
    ensures
        says(r, rate_limit_line(words.deep_view(), block)),
{
    if block {
        return Err(owned("unexpected '{' after rate_limit"));
    }
    if words.len() < 3 {
        return Err(owned("rate_limit expects: rate_limit <key> <rate> [burst=<n>]"));
    }
    let ghost all = words.deep_view();
    let kind = words[1].as_str();
    assert(all[1] == kind@ && all[2] == words@[2]@);
    let (key, at): (RateLimitKey, usize) = if same(kind, "remote_ip") {
        (RateLimitKey::RemoteIp, 2)
    } else if same(kind, "header") {
        if words.len() < 4 {
            return Err(owned("rate_limit header expects: header <name> <rate>"));
        }
        (RateLimitKey::Header(owned(words[2].as_str())), 3)
    } else {
        return Err(
            cat3(
                "unknown rate_limit key '",
                kind,
                "' (expected 'remote_ip' or 'header <name>')",
            ),
        );
    };
    assert(rate_key(all) == Ok::<(RateLimitKeyView, int), Seq<char>>((key.deep_view(), at as int)));
    assert(all[at as int] == words@[at as int]@);
    match parse_rate(words[at].as_str()) {
        Err(m) => Err(m),
        Ok((count, unit)) => {
            let burst: u64 = if at + 1 < words.len() {
                assert(all[at + 1] == words@[at + 1]@);
                match parse_burst(words[at + 1].as_str()) {
                    Err(m) => {
                        return Err(m);
                    },
                    Ok(n) => n,
                }
            } else {
                count
            };
            Ok(Directive::RateLimit { spec: RateSpec { key, count, unit, burst } })
        },
    }
}

/// `access_log off` in a site.
pub open spec fn access_log_line(words: Seq<Seq<char>>, block: bool) -> Result<
    DirectiveView,
    Seq<char>,
> {
    if block {
        Err("unexpected '{' after access_log"@)
    } else if words.len() != 2 || words[1] != "off"@ {
        Err("site-block access_log only supports 'off'"@)
    } else {
        Ok(DirectiveView::AccessLogOff)
    }
}

/// Parse `access_log off` in a site.
pub fn parse_access_log(words: &Vec<String>, block: bool) -> (r: Result<Directive, String>)
    ensures
        says(r, access_log_line(words.deep_view(), block)),
{
    if block {
        Err(owned("unexpected '{' after access_log"))
    } else if words.len() != 2 || !same(words[1].as_str(), "off") {
        Err(owned("site-block access_log only supports 'off'"))
    } else {
        Ok(Directive::AccessLogOff)
    }
}

/// The policy that an `lb_policy` line names.
pub open spec fn lb_policy_line(line: Seq<Seq<char>>) -> Result<LbPolicy, Seq<char>> {
    if line.len() != 2 {
        Err("lb_policy requires exactly one argument"@)
    } else if line[1] == "round_robin"@ {
        Ok(LbPolicy::RoundRobin)
    } else if line[1] == "random"@ {
        Ok(LbPolicy::Random)
    } else if line[1] == "ip_hash"@ {
        Ok(LbPolicy::IpHash)
    } else {
        Err(
            "unknown lb_policy '"@ + line[1] + "' (expected round_robin, random, or ip_hash)"@,
        )
    }
}

/// Parse `lb_policy <round_robin | random | ip_hash>`.
pub fn parse_lb_policy(line: &Vec<String>) -> (r: Result<LbPolicy, String>)
    ensures
        says(r, lb_policy_line(line.deep_view())),
{
    if line.len() != 2 {
        return Err(owned("lb_policy requires exactly one argument"));
    }
    let w = line[1].as_str();
    assert(line.deep_view()[1] == w@);
    if same(w, "round_robin") {
        Ok(LbPolicy::RoundRobin)
    } else if same(w, "random") {
        Ok(LbPolicy::Random)
    } else if same(w, "ip_hash") {
        Ok(LbPolicy::IpHash)
    } else {
        Err(cat3("unknown lb_policy '", w, "' (expected round_robin, random, or ip_hash)"))
    }
}

// ---------------------------------------------------------------------------
// Global lines
// ---------------------------------------------------------------------------

/// The level that a `log_level` line names.
pub open spec fn log_level_line(words: Seq<Seq<char>>) -> Result<LogLevel, Seq<char>> {
    if words.len() != 2 {
        Err("log_level requires exactly one argument"@)
    } else if words[1] == "debug"@ {
        Ok(LogLevel::Debug)
    } else if words[1] == "info"@ {
        Ok(LogLevel::Info)
    } else if words[1] == "warn"@ {
        Ok(LogLevel::Warn)
    } else if words[1] == "error"@ {
        Ok(LogLevel::Error)
    } else {
        Err("invalid log_level '"@ + words[1] + "' (expected debug, info, warn, error)"@)
    }
}

/// Parse `log_level <debug | info | warn | error>`.
pub fn parse_log_level(words: &Vec<String>) -> (r: Result<LogLevel, String>)
    ensures
        says(r, log_level_line(words.deep_view())),
{
    if words.len() != 2 {
        return Err(owned("log_level requires exactly one argument"));
    }
    let w = words[1].as_str();
    assert(words.deep_view()[1] == w@);
    if same(w, "debug") {
        Ok(LogLevel::Debug)
    } else if same(w, "info") {
        Ok(LogLevel::Info)
    } else if same(w, "warn") {
        Ok(LogLevel::Warn)
    } else if same(w, "error") {
        Ok(LogLevel::Error)
    } else {
        Err(cat3("invalid log_level '", w, "' (expected debug, info, warn, error)"))
    }
}

/// The format that the last word of an `access_log` line names.
pub open spec fn log_format(arg: Seq<char>) -> Result<AccessLogFormat, Seq<char>> {
    match after(arg, "format="@) {
        None => Err("unexpected argument '"@ + arg + "' (expected 'format=<json|common>')"@),
        Some(f) => if f == "json"@ {
            Ok(AccessLogFormat::Json)
        } else if f == "common"@ {
            Ok(AccessLogFormat::Common)
        } else {
            Err("invalid access_log format '"@ + f + "' (expected json or common)"@)
        },
    }
}

/// The global `access_log` line: `off`, or a path and an optional format.
pub open spec fn global_access_log_line(words: Seq<Seq<char>>) -> Result<
    AccessLogDirectiveView,
    Seq<char>,
> {
    if words.len() == 2 && words[1] == "off"@ {
        Ok(AccessLogDirectiveView::Off)
    } else if !(2 <= words.len() <= 3) {
        Err("access_log expects: access_log <path> [format=<json|common>] | access_log off"@)
    } else if words.len() == 3 {
        match log_format(words[2]) {
            Err(m) => Err(m),
            Ok(format) => Ok(AccessLogDirectiveView::File { path: words[1], format }),
        }
    } else {
        Ok(AccessLogDirectiveView::File { path: words[1], format: AccessLogFormat::Json })
    }
}

fn parse_log_format(arg: &str) -> (r: Result<AccessLogFormat, String>)
    ensures
        says(r, log_format(arg@)),
{
    match strip_prefix(arg, "format=") {
        None => Err(cat3("unexpected argument '", arg, "' (expected 'format=<json|common>')")),
        Some(f) => if same(f, "json") {
            Ok(AccessLogFormat::Json)
        } else if same(f, "common") {
            Ok(AccessLogFormat::Common)
        } else {
            Err(cat3("invalid access_log format '", f, "' (expected json or common)"))
        },
    }
}

/// Parse the global `access_log` line.
pub fn parse_access_log_directive(words: &Vec<String>) -> (r: Result<AccessLogDirective, String>)
    ensures
        says(r, global_access_log_line(words.deep_view())),
{
    let n: usize = words.len();
    if n == 2 && same(words[1].as_str(), "off") {
        return Ok(AccessLogDirective::Off);
    }
    if n < 2 || n > 3 {
        return Err(
            owned("access_log expects: access_log <path> [format=<json|common>] | access_log off"),
        );
    }
    assert(words.deep_view()[1] == words@[1]@);
    let mut format = AccessLogFormat::Json;
    if n == 3 {
        assert(words.deep_view()[2] == words@[2]@);
        match parse_log_format(words[2].as_str()) {
            Err(m) => {
                return Err(m);
            },
            Ok(f) => {
                format = f;
            },
        }
    }
    Ok(AccessLogDirective::File { path: owned(words[1].as_str()), format })
}

} // verus!
