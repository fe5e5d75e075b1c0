//! What the lines of a site say.
use crate::config::ast::{
    DirectiveView, MatcherView, Protocol, RateLimitKeyView, RateSpecView, RateUnit,
};
use crate::config::directives::{
    error_line, matchers_from, one_matcher, rate_limit_line, redir_line, respond_line,
};
use crate::config::readings::{numbers_read_back, rates_have_their_units};
use crate::config::values::matcher_prefix;
use crate::num::{decimal, decimal_reads_back, digit, lemma_decimal};
use crate::text::{concatenated, trimmed_end};
use vstd::prelude::*;

verus! {

/// A path matcher stands for the path without a slash or a wildcard behind it, and
/// for every path when nothing else is left.
pub proof fn path_matchers_are_prefixes(path: Seq<char>)
    requires
        path.len() > 0,
        path.last() != '/',
        path.last() != '*',
    ensures
        matcher_prefix(path) == path,
        matcher_prefix(path + "/"@) == path,
        matcher_prefix(path + "*"@) == path,
        matcher_prefix(path + "/*"@) == path,
        matcher_prefix("/"@) == "/"@,
        matcher_prefix("/*"@) == "/"@,
{
    reveal_strlit("/");
    reveal_strlit("*");
    reveal_strlit("/*");
    assert((path + "/"@).drop_last() == path);
    assert((path + "*"@).drop_last() == path);
    assert((path + "/*"@).drop_last() == path + "/"@);
    assert("/*"@.drop_last() == "/"@);
    assert("/"@.drop_last().len() == 0);
    reveal_with_fuel(trimmed_end, 3);
    assert(trimmed_end(path, '*') == path);
    assert(trimmed_end(path, '/') == path);
    assert(trimmed_end(path + "/"@, '*') == path + "/"@);
    assert(trimmed_end(path + "/"@, '/') == path);
    assert(trimmed_end(path + "*"@, '*') == path);
    assert(trimmed_end(path + "/*"@, '*') == path + "/"@);
    assert(trimmed_end("/"@, '*') == "/"@);
    assert(trimmed_end("/"@, '/').len() == 0);
    assert(trimmed_end("/*"@, '*') == "/"@);
}

/// Whether the head of `words` is a matcher of this many words.
pub open spec fn matches_by(words: Seq<Seq<char>>, m: MatcherView, n: nat) -> bool {
    one_matcher(words) == Ok::<Option<(MatcherView, nat)>, Seq<char>>(Some((m, n)))
}

/// A matcher says which part of a request it looks at and what it wants there, and
/// a `!` before it turns it round.
pub proof fn matchers_say_what_they_match(a: Seq<char>, b: Seq<char>, rest: Seq<Seq<char>>)
    ensures
        matches_by(seq!["host"@, a] + rest, MatcherView::Host(a), 2),
        matches_by(seq!["method"@, a] + rest, MatcherView::Method(a), 2),
        matches_by(seq!["path"@, a] + rest, MatcherView::Path(matcher_prefix(a)), 2),
        matches_by(
            seq!["header"@, a, b] + rest,
            (MatcherView::Header { name: a, value: b }),
            3,
        ),
        matches_by(seq!["query"@, a, b] + rest, (MatcherView::Query { key: a, value: b }), 3),
        matches_by(seq!["protocol"@, "http"@] + rest, MatcherView::Protocol(Protocol::Http), 2),
        matches_by(seq!["protocol"@, "https"@] + rest, MatcherView::Protocol(Protocol::Https), 2),
        matches_by(
            seq!["!host"@, a] + rest,
            MatcherView::Not(Box::new(MatcherView::Host(a))),
            2,
        ),
        matches_by(
            seq!["!header"@, a, b] + rest,
            MatcherView::Not(Box::new(MatcherView::Header { name: a, value: b })),
            3,
        ),
{
    reveal_strlit("host");
    reveal_strlit("method");
    reveal_strlit("path");
    reveal_strlit("header");
    reveal_strlit("query");
    reveal_strlit("protocol");
    reveal_strlit("remote_ip");
    reveal_strlit("http");
    reveal_strlit("https");
    reveal_strlit("!host");
    reveal_strlit("!header");
    assert("host"@.len() == 4 && "path"@.len() == 4 && "host"@[0] != "path"@[0]);
    assert("method"@.len() == 6 && "header"@.len() == 6 && "method"@[0] != "header"@[0]);
    assert("query"@.len() == 5 && "protocol"@.len() == 8 && "remote_ip"@.len() == 9);
    assert("http"@.len() == 4 && "https"@.len() == 5);
    assert("!host"@.skip(1) == "host"@);
    assert("!header"@.skip(1) == "header"@);
}

/// A word that is a number is no matcher.
proof fn lemma_number_is_no_matcher(words: Seq<Seq<char>>, n: nat)
    requires
        words.len() > 1,
        words[1] == decimal(n),
    ensures
        matchers_from(words, 1, Seq::empty()) == Ok::<(Seq<MatcherView>, int), Seq<char>>(
            (Seq::empty(), 1),
        ),
{
    let rest = words.skip(1);
    lemma_decimal(n);
    assert(rest[0] == decimal(n));
    assert(digit(decimal(n)[0]));
    reveal_strlit("host");
    reveal_strlit("method");
    reveal_strlit("path");
    reveal_strlit("header");
    reveal_strlit("query");
    reveal_strlit("protocol");
    reveal_strlit("remote_ip");
    assert("host"@[0] == 'h' && "method"@[0] == 'm' && "path"@[0] == 'p' && "header"@[0] == 'h');
    assert("query"@[0] == 'q' && "protocol"@[0] == 'p' && "remote_ip"@[0] == 'r');
}

/// Fixed answers have the status and the text that are written, and a status
/// outside the range of HTTP is refused.
pub proof fn answers_read_back(n: nat, body: Seq<char>)
    requires
        n <= 65535,
    ensures
        100 <= n <= 599 ==> respond_line(seq!["respond"@, decimal(n)], false) == Ok::<
            DirectiveView,
            Seq<char>,
        >((DirectiveView::Respond { matcher: Seq::empty(), status: n as u16, body: None })),
        100 <= n <= 599 ==> respond_line(seq!["respond"@, decimal(n), body], false) == Ok::<
            DirectiveView,
            Seq<char>,
        >((DirectiveView::Respond { matcher: Seq::empty(), status: n as u16, body: Some(body) })),
        !(100 <= n <= 599) ==> respond_line(seq!["respond"@, decimal(n)], false) is Err,
        100 <= n <= 599 ==> error_line(seq!["error"@, decimal(n)], false) == Ok::<
            DirectiveView,
            Seq<char>,
        >((DirectiveView::Error {
            matcher: Seq::empty(),
            status: Some(n as u16),
            message: None,
        })),
        !(100 <= n <= 599) ==> error_line(seq!["error"@, decimal(n)], false) is Err,
{
    decimal_reads_back(n, 65535);
    let a = seq!["respond"@, decimal(n)];
    lemma_number_is_no_matcher(a, n);
    assert(a.skip(1)[0] == decimal(n) && a.skip(1).len() == 1);
    let b = seq!["respond"@, decimal(n), body];
    lemma_number_is_no_matcher(b, n);
    assert(b.skip(1)[0] == decimal(n) && b.skip(1)[1] == body && b.skip(1).len() == 2);
    let c = seq!["error"@, decimal(n)];
    lemma_number_is_no_matcher(c, n);
    reveal_with_fuel(crate::config::directives::error_args, 3);
}

/// Redirects have the target and the code that are written, 308 without one.
pub proof fn redirects_read_back(target: Seq<char>, n: nat)
    requires
        target.len() > 0,
        300 <= n <= 399,
    ensures
        redir_line(seq!["redir"@, target], false) == Ok::<DirectiveView, Seq<char>>(
            (DirectiveView::Redir { to: target, code: 308 }),
        ),
        redir_line(seq!["redir"@, target, decimal(n)], false) == Ok::<DirectiveView, Seq<char>>(
            (DirectiveView::Redir { to: target, code: n as u16 }),
        ),
        redir_line(seq!["redir"@, target, "permanent"@], false) == Ok::<DirectiveView, Seq<char>>(
            (DirectiveView::Redir { to: target, code: 308 }),
        ),
        redir_line(seq!["redir"@, target, "temporary"@], false) == Ok::<DirectiveView, Seq<char>>(
            (DirectiveView::Redir { to: target, code: 302 }),
        ),
{
    numbers_read_back(target, n);
    reveal_strlit("permanent");
    reveal_strlit("temporary");
    assert("permanent"@[0] != "temporary"@[0]);
    lemma_alone(target);
    assert(seq!["redir"@, target].skip(1) == seq![target]);
    assert(seq!["redir"@, target, decimal(n)].subrange(1, 2) == seq![target]);
    assert(seq!["redir"@, target, "permanent"@].subrange(1, 2) == seq![target]);
    assert(seq!["redir"@, target, "temporary"@].subrange(1, 2) == seq![target]);
}

proof fn lemma_alone(s: Seq<char>)
    ensures
        concatenated(seq![s]) == s,
{
    reveal_with_fuel(concatenated, 3);
    assert(seq![s].drop_last().len() == 0);
    assert(Seq::<char>::empty() + s == s);
}

/// Rate limits have the key, the rate and the capacity that are written; without a
/// capacity it is the rate.
pub proof fn rate_limits_read_back(name: Seq<char>, n: nat, m: nat)
    requires
        1 <= n <= u64::MAX,
        1 <= m <= u64::MAX,
    ensures
        limits_to(
            seq!["rate_limit"@, "remote_ip"@, decimal(n) + "r/s"@],
            RateLimitKeyView::RemoteIp,
            n,
            RateUnit::Second,
            n,
        ),
        limits_to(
            seq!["rate_limit"@, "remote_ip"@, decimal(n) + "r/m"@, "burst="@ + decimal(m)],
            RateLimitKeyView::RemoteIp,
            n,
            RateUnit::Minute,
            m,
        ),
        limits_to(
            seq!["rate_limit"@, "header"@, name, decimal(n) + "r/h"@],
            RateLimitKeyView::Header(name),
            n,
            RateUnit::Hour,
            n,
        ),
        limits_to(
            seq!["rate_limit"@, "header"@, name, decimal(n) + "r/d"@, "burst="@ + decimal(m)],
            RateLimitKeyView::Header(name),
            n,
            RateUnit::Day,
            m,
        ),
{
    rates_have_their_units(n);
    decimal_reads_back(m, u64::MAX as nat);
    reveal_strlit("remote_ip");
    reveal_strlit("header");
    reveal_strlit("burst=");
    assert("remote_ip"@.len() == 9 && "header"@.len() == 6);
    let b = "burst="@ + decimal(m);
    assert("burst="@.is_prefix_of(b) && b.skip(6) == decimal(m));
}

/// Whether a `rate_limit` line sets this limit.
pub open spec fn limits_to(
    words: Seq<Seq<char>>,
    key: RateLimitKeyView,
    count: nat,
    unit: RateUnit,
    burst: nat,
) -> bool {
    rate_limit_line(words, false) == Ok::<DirectiveView, Seq<char>>(
        (DirectiveView::RateLimit {
            spec: RateSpecView { key, count: count as u64, unit, burst: burst as u64 },
        }),
    )
}

} // verus!
