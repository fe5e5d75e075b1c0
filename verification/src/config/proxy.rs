//! `reverse_proxy` blocks and health checks.
use crate::config::ast::{
    add_to, default_health_check, default_proxy_tls, ConfigError, Directive, DirectiveView,
    HealthCheckSpec, LbPolicy, Matcher, MatcherView, ProxyTlsConfig, ProxyTlsConfigView, Upstream,
    UpstreamView,
};
use crate::config::cursor::{
    fault, lemma_statement, outcome, placed, statement, Cursor, Fault, Parser,
};
use crate::config::directives::{lb_policy_line, matchers_from, parse_lb_policy, parse_matchers};
use crate::config::lexer::{TokenKindView, TokenView};
use crate::config::values::{
    count_value, duration_value, parse_count, parse_duration, parse_upstream, says, upstream,
};
use crate::text::{cat3, owned, same};
use crate::time::Duration;
use vstd::prelude::*;

verus! {

// ---------------------------------------------------------------------------
// Health checks
// ---------------------------------------------------------------------------

/// What the lines of a `health_check` block have set so far.
#[derive(Clone, Copy)]
pub struct HealthOptions {
    pub interval: Option<Duration>,
    pub timeout: Option<Duration>,
    pub failures: Option<usize>,
    pub successes: Option<usize>,
}

impl DeepView for HealthOptions {
    type V = HealthOptions;

    open spec fn deep_view(&self) -> HealthOptions {
        *self
    }
}

/// No option set.
pub open spec fn no_health_options() -> HealthOptions {
    HealthOptions { interval: None, timeout: None, failures: None, successes: None }
}

/// The options after one more line. Each may be given once.
pub open spec fn health_line(line: Seq<Seq<char>>, nested: bool, s: HealthOptions) -> Result<
    HealthOptions,
    Seq<char>,
> {
    if nested {
        Err("unexpected '{' in health_check block"@)
    } else if line[0] == "interval"@ {
        if s.interval is Some {
            Err("duplicate interval"@)
        } else {
            match duration_value(line) {
                Err(m) => Err(m),
                Ok(d) => Ok(HealthOptions { interval: Some(d), ..s }),
            }
        }
    } else if line[0] == "timeout"@ {
        if s.timeout is Some {
            Err("duplicate timeout"@)
        } else {
            match duration_value(line) {
                Err(m) => Err(m),
                Ok(d) => Ok(HealthOptions { timeout: Some(d), ..s }),
            }
        }
    } else if line[0] == "consecutive_failures"@ {
        if s.failures is Some {
            Err("duplicate consecutive_failures"@)
        } else {
            match count_value(line, "consecutive_failures"@) {
                Err(m) => Err(m),
                Ok(n) => Ok(HealthOptions { failures: Some(n), ..s }),
            }
        }
    } else if line[0] == "consecutive_successes"@ {
        if s.successes is Some {
            Err("duplicate consecutive_successes"@)
        } else {
            match count_value(line, "consecutive_successes"@) {
                Err(m) => Err(m),
                Ok(n) => Ok(HealthOptions { successes: Some(n), ..s }),
            }
        }
    } else {
        Err("unknown health_check option '"@ + line[0] + "'"@)
    }
}

/// The options of a `health_check` block that is read from `c` on, after `s`.
pub open spec fn health_block(toks: Seq<TokenView>, c: Cursor, s: HealthOptions) -> Result<
    (HealthOptions, Cursor),
    Fault,
>
    decreases toks.len() - c.pos,
{
    if c.pos < 0 || c.pos >= toks.len() {
        Err(fault(c, "unexpected end of file in health_check block"@))
    } else if toks[c.pos].kind == TokenKindView::RBrace {
        Ok((s, Cursor { pos: c.pos + 1, ..c }))
    } else {
        let (line, nested, d) = statement(toks, c.pos);
        proof {
            lemma_statement(toks, c.pos);
        }
        if line.len() == 0 {
            health_block(toks, d, s)
        } else {
            match health_line(line, nested, s) {
                Err(m) => Err(fault(d, m)),
                Ok(t) => health_block(toks, d, t),
            }
        }
    }
}

/// The health check that the options make, the defaults filled in. An interval
/// or a timeout of zero is refused.
pub open spec fn health_spec(s: HealthOptions) -> Result<HealthCheckSpec, Seq<char>> {
    let d = default_health_check();
    let spec = HealthCheckSpec {
        interval: if s.interval is Some { s.interval->0 } else { d.interval },
        timeout: if s.timeout is Some { s.timeout->0 } else { d.timeout },
        consecutive_failures: if s.failures is Some {
            s.failures->0
        } else {
            d.consecutive_failures
        },
        consecutive_successes: if s.successes is Some {
            s.successes->0
        } else {
            d.consecutive_successes
        },
    };
    if spec.interval.nanos == 0 || spec.timeout.nanos == 0 {
        Err("health_check interval and timeout must be greater than zero"@)
    } else {
        Ok(spec)
    }
}

/// The health check of a `health_check` line, with the block that it opens.
pub open spec fn health_check(toks: Seq<TokenView>, c: Cursor, block: bool) -> Result<
    (HealthCheckSpec, Cursor),
    Fault,
> {
    if !block {
        Ok((default_health_check(), c))
    } else {
        match health_block(toks, c, no_health_options()) {
            Err(f) => Err(f),
            Ok((s, d)) => placed(health_spec(s), d),
        }
    }
}

/// A block takes at least its closing brace.
pub proof fn lemma_health_block(toks: Seq<TokenView>, c: Cursor, s: HealthOptions)
    requires
        0 <= c.pos <= toks.len(),
    ensures
        health_block(toks, c, s) matches Ok((_, d)) ==> c.pos < d.pos <= toks.len(),
    decreases toks.len() - c.pos,
{
    if c.pos < toks.len() && toks[c.pos].kind != TokenKindView::RBrace {
        let (line, nested, d) = statement(toks, c.pos);
        lemma_statement(toks, c.pos);
        if line.len() == 0 {
            lemma_health_block(toks, d, s);
        } else if let Ok(t) = health_line(line, nested, s) {
            lemma_health_block(toks, d, t);
        }
    }
}

fn apply_health_line(line: &Vec<String>, nested: bool, s: HealthOptions) -> (r: Result<
    HealthOptions,
    String,
>)
    requires
        line@.len() > 0,
    ensures
        says(r, health_line(line.deep_view(), nested, s)),
{
    if nested {
        return Err(owned("unexpected '{' in health_check block"));
    }
    let name = line[0].as_str();
    assert(line.deep_view()[0] == name@);
    let mut t = s;
    if same(name, "interval") {
        if s.interval.is_some() {
            return Err(owned("duplicate interval"));
        }
        match parse_duration(line) {
            Err(m) => {
                return Err(m);
            },
            Ok(d) => {
                t.interval = Some(d);
            },
        }
    } else if same(name, "timeout") {
        if s.timeout.is_some() {
            return Err(owned("duplicate timeout"));
        }
        match parse_duration(line) {
            Err(m) => {
                return Err(m);
            },
            Ok(d) => {
                t.timeout = Some(d);
            },
        }
    } else if same(name, "consecutive_failures") {
        if s.failures.is_some() {
            return Err(owned("duplicate consecutive_failures"));
        }
        match parse_count(line, "consecutive_failures") {
            Err(m) => {
                return Err(m);
            },
            Ok(n) => {
                t.failures = Some(n);
            },
        }
    } else if same(name, "consecutive_successes") {
        if s.successes.is_some() {
            return Err(owned("duplicate consecutive_successes"));
        }
        match parse_count(line, "consecutive_successes") {
            Err(m) => {
                return Err(m);
            },
            Ok(n) => {
                t.successes = Some(n);
            },
        }
    } else {
        return Err(cat3("unknown health_check option '", name, "'"));
    }
    Ok(t)
}

fn finish_health(s: HealthOptions) -> (r: Result<HealthCheckSpec, String>)
    ensures
        says(r, health_spec(s)),
{
    let d = HealthCheckSpec::default();
    let spec = HealthCheckSpec {
        interval: s.interval.unwrap_or(d.interval),
        timeout: s.timeout.unwrap_or(d.timeout),
        consecutive_failures: s.failures.unwrap_or(d.consecutive_failures),
        consecutive_successes: s.successes.unwrap_or(d.consecutive_successes),
    };
    if spec.interval.is_zero() || spec.timeout.is_zero() {
        Err(owned("health_check interval and timeout must be greater than zero"))
    } else {
        Ok(spec)
    }
}

impl Parser {
    /// Parse a `health_check { ... }` block, or a bare `health_check` for the
    /// defaults. All options may be left out.
    pub fn parse_health_check(&mut self, block: bool) -> (r: Result<HealthCheckSpec, ConfigError>)
        requires
            old(self).wf(),
        ensures
            final(self).continues(*old(self)),
            final(self).pos >= old(self).pos,
            outcome(
                r,
                *final(self),
                health_check(old(self).toks(), old(self).cursor(), block),
            ),
    {
        if !block {
            return Ok(HealthCheckSpec::default());
        }
        let ghost toks = self.toks();
        let ghost start = self.cursor();
        let mut s = HealthOptions { interval: None, timeout: None, failures: None, successes: None };
        loop
            invariant
                block,
                self.continues(*old(self)),
                self.pos >= old(self).pos,
                toks == self.toks(),
                toks == old(self).toks(),
                start == old(self).cursor(),
                health_block(toks, start, no_health_options()) == health_block(
                    toks,
                    self.cursor(),
                    s,
                ),
            decreases self.tokens@.len() - self.pos,
        {
            if self.at_close() {
                self.advance();
                return match finish_health(s) {
                    Ok(spec) => Ok(spec),
                    Err(m) => Err(self.err(m)),
                };
            }
            if self.at_end() {
                return Err(self.error("unexpected end of file in health_check block"));
            }
            let (line, nested) = self.parse_statement();
            if line.len() == 0 {
                continue;
            }
            match apply_health_line(&line, nested, s) {
                Ok(t) => {
                    s = t;
                },
                Err(m) => {
                    return Err(self.err(m));
                },
            }
        }
    }
}

// ---------------------------------------------------------------------------
// reverse_proxy
// ---------------------------------------------------------------------------

/// What the lines of a `reverse_proxy` block have set so far.
pub struct ProxyOptions {
    pub targets: Vec<String>,
    pub lb_policy: Option<LbPolicy>,
    pub health_check: Option<HealthCheckSpec>,
    pub tls: ProxyTlsConfig,
}

/// The model of [`ProxyOptions`].
#[verifier::ext_equal]
pub ghost struct ProxyOptionsView {
    pub targets: Seq<Seq<char>>,
    pub lb_policy: Option<LbPolicy>,
    pub health_check: Option<HealthCheckSpec>,
    pub tls: ProxyTlsConfigView,
}

impl DeepView for ProxyOptions {
    type V = ProxyOptionsView;

    open spec fn deep_view(&self) -> ProxyOptionsView {
        ProxyOptionsView {
            targets: self.targets.deep_view(),
            lb_policy: self.lb_policy.deep_view(),
            health_check: self.health_check.deep_view(),
            tls: self.tls.deep_view(),
        }
    }
}

/// No option set.
pub open spec fn no_proxy_options() -> ProxyOptionsView {
    ProxyOptionsView {
        targets: Seq::empty(),
        lb_policy: None,
        health_check: None,
        tls: default_proxy_tls(),
    }
}

/// The options after one more line of the block, other than `health_check`.
pub open spec fn proxy_line(line: Seq<Seq<char>>, nested: bool, s: ProxyOptionsView) -> Result<
    ProxyOptionsView,
    Seq<char>,
> {
    if line[0] == "to"@ {
        if nested {
            Err("unexpected '{' after 'to'"@)
        } else {
            Ok(ProxyOptionsView { targets: s.targets + line.skip(1), ..s })
        }
    } else if line[0] == "lb_policy"@ {
        if nested {
            Err("unexpected '{' after lb_policy"@)
        } else if s.lb_policy is Some {
            Err("duplicate lb_policy"@)
        } else {
            match lb_policy_line(line) {
                Err(m) => Err(m),
                Ok(p) => Ok(ProxyOptionsView { lb_policy: Some(p), ..s }),
            }
        }
    } else if line[0] == "tls_servername"@ {
        if nested {
            Err("unexpected '{' after tls_servername"@)
        } else if s.tls.servername is Some {
            Err("duplicate tls_servername"@)
        } else if line.len() != 2 {
            Err("tls_servername requires exactly one argument"@)
        } else {
            Ok(
                ProxyOptionsView {
                    tls: ProxyTlsConfigView { servername: Some(line[1]), ..s.tls },
                    ..s
                },
            )
        }
    } else if line[0] == "tls_skip_verify"@ {
        if nested {
            Err("unexpected '{' after tls_skip_verify"@)
        } else if line.len() != 1 {
            Err("tls_skip_verify takes no arguments"@)
        } else {
            Ok(
                ProxyOptionsView {
                    tls: ProxyTlsConfigView { skip_verify: true, ..s.tls },
                    ..s
                },
            )
        }
    } else if line[0] == "tls_ca"@ {
        if nested {
            Err("unexpected '{' after tls_ca"@)
        } else if line.len() != 2 {
            Err("tls_ca requires exactly one argument"@)
        } else {
            Ok(
                ProxyOptionsView {
                    tls: ProxyTlsConfigView { ca_files: s.tls.ca_files.push(line[1]), ..s.tls },
                    ..s
                },
            )
        }
    } else if line[0] == "tls_cert"@ {
        if nested {
            Err("unexpected '{' after tls_cert"@)
        } else if line.len() != 3 {
            Err("tls_cert requires a certificate and a key file"@)
        } else {
            Ok(
                ProxyOptionsView {
                    tls: ProxyTlsConfigView {
                        cert_file: Some(line[1]),
                        key_file: Some(line[2]),
                        ..s.tls
                    },
                    ..s
                },
            )
        }
    } else {
        Err("unexpected directive '"@ + line[0] + "' in reverse_proxy block"@)
    }
}

/// The options of a `reverse_proxy` block that is read from `c` on, after `s`.
pub open spec fn proxy_block(toks: Seq<TokenView>, c: Cursor, s: ProxyOptionsView) -> Result<
    (ProxyOptionsView, Cursor),
    Fault,
>
    decreases toks.len() - c.pos,
{
    if c.pos < 0 || c.pos >= toks.len() {
        Err(fault(c, "unexpected end of file in reverse_proxy block"@))
    } else if toks[c.pos].kind == TokenKindView::RBrace {
        Ok((s, Cursor { pos: c.pos + 1, ..c }))
    } else {
        let (line, nested, d) = statement(toks, c.pos);
        proof {
            lemma_statement(toks, c.pos);
            lemma_health_block(toks, d, no_health_options());
        }
        if line.len() == 0 {
            proxy_block(toks, d, s)
        } else if line[0] == "health_check"@ {
            if s.health_check is Some {
                Err(fault(d, "duplicate health_check"@))
            } else {
                match health_check(toks, d, nested) {
                    Err(f) => Err(f),
                    Ok((h, e)) => proxy_block(
                        toks,
                        e,
                        ProxyOptionsView { health_check: Some(h), ..s },
                    ),
                }
            }
        } else {
            match proxy_line(line, nested, s) {
                Err(m) => Err(fault(d, m)),
                Ok(t) => proxy_block(toks, d, t),
            }
        }
    }
}

/// The upstreams that `targets` name from index `i` on, after `done`.
pub open spec fn upstreams_from(targets: Seq<Seq<char>>, i: int, done: Seq<UpstreamView>) -> Result<
    Seq<UpstreamView>,
    Seq<char>,
>
    decreases targets.len() - i,
{
    if i < 0 || i >= targets.len() {
        Ok(done)
    } else {
        match upstream(targets[i]) {
            Err(m) => Err(m),
            Ok(u) => upstreams_from(targets, i + 1, done.push(u)),
        }
    }
}

/// The directive that the matchers and the options make.
pub open spec fn proxy_directive(matcher: Seq<MatcherView>, s: ProxyOptionsView) -> Result<
    DirectiveView,
    Seq<char>,
> {
    if s.targets.len() == 0 {
        Err("reverse_proxy requires at least one upstream target"@)
    } else {
        match upstreams_from(s.targets, 0, Seq::empty()) {
            Err(m) => Err(m),
            Ok(to) => Ok(
                DirectiveView::ReverseProxy {
                    matcher,
                    to,
                    lb_policy: if s.lb_policy is Some {
                        s.lb_policy->0
                    } else {
                        LbPolicy::RoundRobin
                    },
                    health_check: s.health_check,
                    tls: s.tls,
                },
            ),
        }
    }
}

/// `reverse_proxy [<matcher>] <target>`, or `reverse_proxy [<matcher>] { ... }`.
pub open spec fn reverse_proxy(
    toks: Seq<TokenView>,
    c: Cursor,
    words: Seq<Seq<char>>,
    block: bool,
) -> Result<(DirectiveView, Cursor), Fault> {
    match matchers_from(words, 1, Seq::empty()) {
        Err(m) => Err(fault(c, m)),
        Ok((matcher, k)) => if block {
            match proxy_block(toks, c, no_proxy_options()) {
                Err(f) => Err(f),
                Ok((s, d)) => placed(proxy_directive(matcher, s), d),
            }
        } else if words.len() - k != 1 {
            Err(fault(c, "reverse_proxy requires exactly one target"@))
        } else {
            placed(
                proxy_directive(
                    matcher,
                    ProxyOptionsView { targets: seq![words[k]], ..no_proxy_options() },
                ),
                c,
            )
        },
    }
}

fn start_proxy() -> (r: ProxyOptions)
    ensures
        r.deep_view() == no_proxy_options(),
{
    let r = ProxyOptions {
        targets: Vec::new(),
        lb_policy: None,
        health_check: None,
        tls: ProxyTlsConfig::default(),
    };
    assert(r.targets.deep_view() == Seq::<Seq<char>>::empty());
    r
}

fn apply_proxy_line(line: &Vec<String>, nested: bool, s: ProxyOptions) -> (r: Result<
    ProxyOptions,
    String,
>)
    requires
        line@.len() > 0,
    ensures
        says(r, proxy_line(line.deep_view(), nested, s.deep_view())),
{
    let name = line[0].as_str();
    let n: usize = line.len();
    let ghost l = line.deep_view();
    assert(l[0] == name@);
    assert(n > 1 ==> l[1] == line@[1]@);
    assert(n > 2 ==> l[2] == line@[2]@);
    let mut t = s;
    if same(name, "to") {
        if nested {
            return Err(owned("unexpected '{' after 'to'"));
        }
        let mut i: usize = 1;
        assert(l.subrange(1, 1) == Seq::<Seq<char>>::empty());
        let ghost before = t.targets.deep_view();
        assert(before + l.subrange(1, 1) == before);
        while i < n
            invariant
                1 <= i <= n,
                n == line@.len(),
                l == line.deep_view(),
                before == s.targets.deep_view(),
                t.targets.deep_view() == before + l.subrange(1, i as int),
                t.lb_policy == s.lb_policy,
                t.health_check == s.health_check,
                t.tls == s.tls,
            decreases n - i,
        {
            add_to(&mut t.targets, owned(line[i].as_str()));
            i += 1;
            assert(l.subrange(1, i as int) == l.subrange(1, i - 1).push(l[i - 1]));
            assert(t.targets.deep_view() == before + l.subrange(1, i as int));
        }
        assert(l.subrange(1, n as int) == l.skip(1));
    } else if same(name, "lb_policy") {
        if nested {
            return Err(owned("unexpected '{' after lb_policy"));
        }
        if t.lb_policy.is_some() {
            return Err(owned("duplicate lb_policy"));
        }
        match parse_lb_policy(line) {
            Err(m) => {
                return Err(m);
            },
            Ok(p) => {
                t.lb_policy = Some(p);
            },
        }
    } else if same(name, "tls_servername") {
        if nested {
            return Err(owned("unexpected '{' after tls_servername"));
        }
        if t.tls.servername.is_some() {
            return Err(owned("duplicate tls_servername"));
        }
        if n != 2 {
            return Err(owned("tls_servername requires exactly one argument"));
        }
        t.tls.servername = Some(owned(line[1].as_str()));
    } else if same(name, "tls_skip_verify") {
        if nested {
            return Err(owned("unexpected '{' after tls_skip_verify"));
        }
        if n != 1 {
            return Err(owned("tls_skip_verify takes no arguments"));
        }
        t.tls.skip_verify = true;
    } else if same(name, "tls_ca") {
        if nested {
            return Err(owned("unexpected '{' after tls_ca"));
        }
        if n != 2 {
            return Err(owned("tls_ca requires exactly one argument"));
        }
        add_to(&mut t.tls.ca_files, owned(line[1].as_str()));
    } else if same(name, "tls_cert") {
        if nested {
            return Err(owned("unexpected '{' after tls_cert"));
        }
        if n != 3 {
            return Err(owned("tls_cert requires a certificate and a key file"));
        }
        t.tls.cert_file = Some(owned(line[1].as_str()));
        t.tls.key_file = Some(owned(line[2].as_str()));
    } else {
        return Err(cat3("unexpected directive '", name, "' in reverse_proxy block"));
    }
    Ok(t)
}

fn finish_proxy(matcher: Vec<Matcher>, s: ProxyOptions) -> (r: Result<Directive, String>)
    ensures
        says(r, proxy_directive(matcher.deep_view(), s.deep_view())),
{
    if s.targets.len() == 0 {
        return Err(owned("reverse_proxy requires at least one upstream target"));
    }
    let ghost all = s.targets.deep_view();
    let mut to: Vec<Upstream> = Vec::new();
    let mut i: usize = 0;
    assert(to.deep_view() == Seq::<UpstreamView>::empty());
    while i < s.targets.len()
        invariant
            i <= s.targets@.len(),
            s.targets@.len() > 0,
            all == s.targets.deep_view(),
            upstreams_from(all, 0, Seq::empty()) == upstreams_from(all, i as int, to.deep_view()),
        decreases s.targets@.len() - i,
    {
        assert(all[i as int] == s.targets@[i as int]@);
        match parse_upstream(s.targets[i].as_str()) {
            Err(m) => {
                return Err(m);
            },
            Ok(u) => {
                add_to(&mut to, u);
            },
        }
        i += 1;
    }
    Ok(
        Directive::ReverseProxy {
            matcher,
            to,
            lb_policy: s.lb_policy.unwrap_or(LbPolicy::RoundRobin),
            health_check: s.health_check,
            tls: s.tls,
        },
    )
}

impl Parser {
    fn parse_proxy_block(&mut self) -> (r: Result<ProxyOptions, ConfigError>)
        requires
            old(self).wf(),
        ensures
            final(self).continues(*old(self)),
            final(self).pos >= old(self).pos,
            outcome(
                r,
                *final(self),
                proxy_block(old(self).toks(), old(self).cursor(), no_proxy_options()),
            ),
    {
        let ghost toks = self.toks();
        let ghost start = self.cursor();
        let mut s = start_proxy();
        loop
            invariant
                self.continues(*old(self)),
                self.pos >= old(self).pos,
                toks == self.toks(),
                toks == old(self).toks(),
                start == old(self).cursor(),
                proxy_block(toks, start, no_proxy_options()) == proxy_block(
                    toks,
                    self.cursor(),
                    s.deep_view(),
                ),
            decreases self.tokens@.len() - self.pos,
        {
            if self.at_close() {
                self.advance();
                return Ok(s);
            }
            if self.at_end() {
                return Err(self.error("unexpected end of file in reverse_proxy block"));
            }
            let (line, nested) = self.parse_statement();
            if line.len() == 0 {
                continue;
            }
            assert(line.deep_view()[0] == line@[0]@);
            if same(line[0].as_str(), "health_check") {
                if s.health_check.is_some() {
                    return Err(self.error("duplicate health_check"));
                }
                match self.parse_health_check(nested) {
                    Err(e) => {
                        return Err(e);
                    },
                    Ok(h) => {
                        s.health_check = Some(h);
                    },
                }
            } else {
                match apply_proxy_line(&line, nested, s) {
                    Ok(t) => {
                        s = t;
                    },
                    Err(m) => {
                        return Err(self.err(m));
                    },
                }
            }
        }
    }

    /// Parse `reverse_proxy`, in its one-line form or with a block.
    pub fn parse_reverse_proxy(&mut self, words: &Vec<String>, block: bool) -> (r: Result<
        Directive,
        ConfigError,
    >)
        requires
            old(self).wf(),
            words@.len() > 0,
        ensures
            final(self).continues(*old(self)),
            final(self).pos >= old(self).pos,
            outcome(
                r,
                *final(self),
                reverse_proxy(old(self).toks(), old(self).cursor(), words.deep_view(), block),
            ),
    {
        let (matcher, k) = match parse_matchers(words, 1) {
            Ok(x) => x,
            Err(m) => {
                return Err(self.err(m));
            },
        };
        let options = if block {
            match self.parse_proxy_block() {
                Ok(s) => s,
                Err(e) => {
                    return Err(e);
                },
            }
        } else {
            if words.len() - k != 1 {
                return Err(self.error("reverse_proxy requires exactly one target"));
            }
            let mut s = start_proxy();
            assert(words.deep_view()[k as int] == words@[k as int]@);
            add_to(&mut s.targets, owned(words[k].as_str()));
            assert(s.targets.deep_view() == seq![words.deep_view()[k as int]]);
            s
        };
        match finish_proxy(matcher, options) {
            Ok(d) => Ok(d),
            Err(m) => Err(self.err(m)),
        }
    }
}

} // verus!
