//! The parser: from text to a [`Raddexfile`].
//!
//! The input is preprocessed before the grammar sees it: `{$ENV}` placeholders
//! are expanded, `(name)` snippets are captured and `import` statements are
//! spliced in. The grammar is line-oriented, and errors carry the position of
//! the statement that they are about.
use crate::config::ast::{
    add_to, default_global, ConfigError, ConfigErrorView, Directive, DirectiveView, DnsChallenge,
    DnsChallengeView, DnsCredentials, DnsCredentialsView, Dup, GlobalConfig, GlobalConfigView,
    Layer4Listener, Layer4ListenerView, Matcher, MatcherView, Raddexfile, RaddexfileView, Site,
    SiteView,
};
use crate::config::ast::lemma_directives_view;
use crate::config::cursor::{
    fault, lemma_skip_newlines, lemma_statement, outcome, placed, skip_newlines, statement, Cursor,
    Fault, Parser,
};
use crate::config::directives::{
    access_log_line, basic_auth_line, encode_line, error_line, file_server_line,
    forward_auth_line, global_access_log_line, header_line, log_level_line, matchers_from,
    parse_access_log, parse_access_log_directive, parse_basic_auth, parse_encode, parse_error,
    parse_file_server, parse_forward_auth, parse_header, parse_log_level, parse_matchers,
    parse_networks, parse_rate_limit, parse_redir, parse_respond, parse_rewrite, parse_root,
    parse_tls, parse_trusted_proxies, rate_limit_line, redir_line, respond_line, rewrite_line,
    root_line, tls_line, trusted_networks, trusted_proxies_line,
};
use crate::config::dns::{credentials_fault, keywords, lookup, provider};
use crate::config::expand::{
    env_expanded, expand_env_tokens, expand_imports, imports_expanded, no_sources, ExpandError,
    ExpandErrorView, Sources, SourcesView, MAX_BLOCK_DEPTH,
};
use crate::config::lexer::{lex, lexed, Token, TokenKindView, TokenView};
use crate::config::listeners::{tcp_listener, udp_listener};
use crate::config::proxy::reverse_proxy;
use crate::config::values::{parse_site_keys, says, site_keys};
use crate::text::{cat2, cat3, cat5, owned, same};
use vstd::prelude::*;

verus! {

// ---------------------------------------------------------------------------
// dns_challenge
// ---------------------------------------------------------------------------

/// Whether `entries` has a credential `name`.
pub open spec fn has_entry(entries: Seq<(Seq<char>, Seq<char>)>, name: Seq<char>) -> bool {
    exists|i: int| 0 <= i < entries.len() && (#[trigger] entries[i]).0 == name
}

/// The credentials after one more line of a `dns_challenge` block. Each name may
/// be given once.
pub open spec fn credential_line(
    keyword: Seq<char>,
    line: Seq<Seq<char>>,
    nested: bool,
    entries: Seq<(Seq<char>, Seq<char>)>,
) -> Result<Seq<(Seq<char>, Seq<char>)>, Seq<char>> {
    if nested {
        Err("unexpected '{' in dns_challenge "@ + keyword + " block"@)
    } else if line.len() != 2 {
        Err(
            "dns_challenge "@ + keyword + " credential '"@ + line[0]
                + "' takes exactly one value"@,
        )
    } else if has_entry(entries, line[0]) {
        Err("duplicate dns_challenge "@ + keyword + " credential '"@ + line[0] + "'"@)
    } else {
        Ok(entries.push((line[0], line[1])))
    }
}

/// The credentials of a `dns_challenge` block that is read from `c` on, after
/// `entries`.
pub open spec fn credential_block(
    toks: Seq<TokenView>,
    c: Cursor,
    keyword: Seq<char>,
    entries: Seq<(Seq<char>, Seq<char>)>,
) -> Result<(Seq<(Seq<char>, Seq<char>)>, Cursor), Fault>
    decreases toks.len() - c.pos,
{
    if c.pos < 0 || c.pos >= toks.len() {
        Err(fault(c, "unexpected end of file in dns_challenge "@ + keyword + " block"@))
    } else if toks[c.pos].kind == TokenKindView::RBrace {
        Ok((entries, Cursor { pos: c.pos + 1, ..c }))
    } else {
        let (line, nested, d) = statement(toks, c.pos);
        proof {
            lemma_statement(toks, c.pos);
        }
        if line.len() == 0 {
            credential_block(toks, d, keyword, entries)
        } else {
            match credential_line(keyword, line, nested, entries) {
                Err(m) => Err(fault(d, m)),
                Ok(more) => credential_block(toks, d, keyword, more),
            }
        }
    }
}

/// The credentials of a `dns_challenge` line that opens no block: the one that
/// the shorthand fills.
pub open spec fn shorthand_credential(
    words: Seq<Seq<char>>,
    field: Option<Seq<char>>,
) -> Result<Seq<(Seq<char>, Seq<char>)>, Seq<char>> {
    let keyword = words[1];
    match field {
        None => Err(
            "dns_challenge "@ + keyword
                + " needs several credentials: use the block form 'dns_challenge "@ + keyword
                + " { ... }'"@,
        ),
        Some(f) => if words.len() != 3 {
            Err("dns_challenge "@ + keyword + " takes one argument ("@ + f + "), or a block"@)
        } else {
            Ok(seq![(f, words[2])])
        },
    }
}

/// `dns_challenge <provider> <value>`, or `dns_challenge <provider> { ... }`.
pub open spec fn dns_challenge(
    toks: Seq<TokenView>,
    c: Cursor,
    words: Seq<Seq<char>>,
    block: bool,
) -> Result<(DnsChallengeView, Cursor), Fault> {
    if words.len() < 2 {
        Err(fault(c, "dns_challenge requires a provider (expected "@ + "cloudflare"@ + ")"@))
    } else {
        match provider(words[1]) {
            None => Err(
                fault(
                    c,
                    "invalid dns_challenge provider '"@ + words[1] + "' (expected "@
                        + "cloudflare"@ + ")"@,
                ),
            ),
            Some(p) => {
                let entries = if block {
                    if words.len() != 2 {
                        Err(
                            fault(
                                c,
                                "dns_challenge "@ + words[1]
                                    + " takes no arguments before '{'"@,
                            ),
                        )
                    } else {
                        credential_block(toks, c, words[1], Seq::empty())
                    }
                } else {
                    placed(shorthand_credential(words, p.shorthand_field), c)
                };
                match entries {
                    Err(f) => Err(f),
                    Ok((entries, d)) => {
                        let credentials = DnsCredentialsView { entries };
                        match credentials_fault(p, credentials) {
                            Some(m) => Err(fault(d, m)),
                            None => Ok((DnsChallengeView { provider: p, credentials }, d)),
                        }
                    },
                }
            },
        }
    }
}

fn is_entry(entries: &Vec<(String, String)>, name: &str) -> (r: bool)
    ensures
        r == has_entry(entries.deep_view(), name@),
{
    let mut i: usize = 0;
    while i < entries.len()
        invariant
            i <= entries@.len(),
            forall|j: int| 0 <= j < i ==> (#[trigger] entries.deep_view()[j]).0 != name@,
        decreases entries@.len() - i,
    {
        assert(entries.deep_view()[i as int] == (
            entries@[i as int].0@,
            entries@[i as int].1@,
        ));
        if same(entries[i].0.as_str(), name) {
            return true;
        }
        i += 1;
    }
    false
}

fn add_credential(
    keyword: &str,
    line: &Vec<String>,
    nested: bool,
    entries: Vec<(String, String)>,
) -> (r: Result<Vec<(String, String)>, String>)
    requires
        line@.len() > 0,
    ensures
        says(r, credential_line(keyword@, line.deep_view(), nested, entries.deep_view())),
{
    if nested {
        return Err(cat3("unexpected '{' in dns_challenge ", keyword, " block"));
    }
    let name = line[0].as_str();
    assert(line.deep_view()[0] == name@);
    if line.len() != 2 {
        return Err(
            cat5(
                "dns_challenge ",
                keyword,
                " credential '",
                name,
                "' takes exactly one value",
            ),
        );
    }
    assert(line.deep_view()[1] == line@[1]@);
    if is_entry(&entries, name) {
        return Err(cat5("duplicate dns_challenge ", keyword, " credential '", name, "'"));
    }
    let mut out = entries;
    add_to(&mut out, (owned(name), owned(line[1].as_str())));
    Ok(out)
}

fn one_credential(words: &Vec<String>, field: Option<String>) -> (r: Result<
    Vec<(String, String)>,
    String,
>)
    requires
        words@.len() >= 2,
    ensures
        says(r, shorthand_credential(words.deep_view(), field.deep_view())),
{
    let keyword = words[1].as_str();
    assert(words.deep_view()[1] == keyword@);
    match field {
        None => Err(
            cat5(
                "dns_challenge ",
                keyword,
                " needs several credentials: use the block form 'dns_challenge ",
                keyword,
                " { ... }'",
            ),
        ),
        Some(f) => if words.len() != 3 {
            Err(
                cat5(
                    "dns_challenge ",
                    keyword,
                    " takes one argument (",
                    f.as_str(),
                    "), or a block",
                ),
            )
        } else {
            assert(words.deep_view()[2] == words@[2]@);
            let mut out: Vec<(String, String)> = Vec::new();
            let ghost pair = (f@, words@[2]@);
            add_to(&mut out, (f, owned(words[2].as_str())));
            assert(out.deep_view() == seq![pair]);
            Ok(out)
        },
    }
}

impl Parser {
    /// Read the `<field> <value>` lines of a `dns_challenge` block. The
    /// provider checks the names.
    fn parse_dns_credentials(&mut self, keyword: &str) -> (r: Result<
        Vec<(String, String)>,
        ConfigError,
    >)
        requires
            old(self).wf(),
        ensures
            final(self).continues(*old(self)),
            final(self).pos >= old(self).pos,
            outcome(
                r,
                *final(self),
                credential_block(
                    old(self).toks(),
                    old(self).cursor(),
                    keyword@,
                    Seq::empty(),
                ),
            ),
    {
        let ghost toks = self.toks();
        let ghost start = self.cursor();
        let mut entries: Vec<(String, String)> = Vec::new();
        assert(entries.deep_view() == Seq::<(Seq<char>, Seq<char>)>::empty());
        loop
            invariant
                self.continues(*old(self)),
                self.pos >= old(self).pos,
                toks == self.toks(),
                toks == old(self).toks(),
                start == old(self).cursor(),
                credential_block(toks, start, keyword@, Seq::empty()) == credential_block(
                    toks,
                    self.cursor(),
                    keyword@,
                    entries.deep_view(),
                ),
            decreases self.tokens@.len() - self.pos,
        {
            if self.at_close() {
                self.advance();
                return Ok(entries);
            }
            if self.at_end() {
                return Err(
                    self.err(
                        cat3("unexpected end of file in dns_challenge ", keyword, " block"),
                    ),
                );
            }
            let (line, nested) = self.parse_statement();
            if line.len() == 0 {
                continue;
            }
            match add_credential(keyword, &line, nested, entries) {
                Ok(more) => {
                    entries = more;
                },
                Err(m) => {
                    return Err(self.err(m));
                },
            }
        }
    }

    /// Parse `dns_challenge` in either accepted form. The credentials are
    /// checked against the fields that the provider declares.
    pub fn parse_dns_challenge(&mut self, words: &Vec<String>, block: bool) -> (r: Result<
        DnsChallenge,
        ConfigError,
    >)
        requires
            old(self).wf(),
        ensures
            final(self).continues(*old(self)),
            final(self).pos >= old(self).pos,
            outcome(
                r,
                *final(self),
                dns_challenge(old(self).toks(), old(self).cursor(), words.deep_view(), block),
            ),
    {
        if words.len() < 2 {
            return Err(
                self.err(cat3("dns_challenge requires a provider (expected ", keywords(), ")")),
            );
        }
        let keyword = words[1].as_str();
        assert(words.deep_view()[1] == keyword@);
        let spec = match lookup(keyword) {
            Some(p) => p,
            None => {
                return Err(
                    self.err(
                        cat5(
                            "invalid dns_challenge provider '",
                            keyword,
                            "' (expected ",
                            keywords(),
                            ")",
                        ),
                    ),
                );
            },
        };
        let entries = if block {
            if words.len() != 2 {
                return Err(
                    self.err(
                        cat3("dns_challenge ", keyword, " takes no arguments before '{'"),
                    ),
                );
            }
            match self.parse_dns_credentials(keyword) {
                Ok(e) => e,
                Err(e) => {
                    return Err(e);
                },
            }
        } else {
            match one_credential(words, spec.shorthand_field.dup()) {
                Ok(e) => e,
                Err(m) => {
                    return Err(self.err(m));
                },
            }
        };
        let credentials = DnsCredentials::from_pairs(entries);
        match spec.validate(&credentials) {
            Ok(_) => Ok(DnsChallenge { provider: spec, credentials }),
            Err(m) => Err(self.err(m)),
        }
    }
}

// ---------------------------------------------------------------------------
// The global block
// ---------------------------------------------------------------------------

/// The global settings after one more line, other than `dns_challenge`.
pub open spec fn global_line(g: GlobalConfigView, words: Seq<Seq<char>>, block: bool) -> Result<
    GlobalConfigView,
    Seq<char>,
> {
    if block {
        Err("unexpected '{' after "@ + words[0] + " in global block"@)
    } else if words[0] == "acme_email"@ {
        if words.len() != 2 {
            Err("acme_email requires exactly one argument"@)
        } else {
            Ok(GlobalConfigView { acme_email: Some(words[1]), ..g })
        }
    } else if words[0] == "log_level"@ {
        match log_level_line(words) {
            Err(m) => Err(m),
            Ok(level) => Ok(GlobalConfigView { log_level: Some(level), ..g }),
        }
    } else if words[0] == "trusted_proxies"@ {
        match trusted_networks(words) {
            Err(m) => Err(m),
            Ok(nets) => Ok(GlobalConfigView { trusted_proxies: nets, ..g }),
        }
    } else if words[0] == "tls_alpn_challenge"@ {
        if words.len() != 1 {
            Err("tls_alpn_challenge takes no arguments"@)
        } else {
            Ok(GlobalConfigView { tls_alpn_challenge: true, ..g })
        }
    } else if words[0] == "access_log"@ {
        match global_access_log_line(words) {
            Err(m) => Err(m),
            Ok(log) => Ok(GlobalConfigView { access_log: Some(log), ..g }),
        }
    } else {
        Err("unknown global directive '"@ + words[0] + "'"@)
    }
}

/// The global settings after one more statement. Only `dns_challenge` takes a
/// block.
pub open spec fn global_statement(
    toks: Seq<TokenView>,
    c: Cursor,
    g: GlobalConfigView,
    words: Seq<Seq<char>>,
    block: bool,
) -> Result<(GlobalConfigView, Cursor), Fault> {
    if words[0] == "dns_challenge"@ {
        match dns_challenge(toks, c, words, block) {
            Err(f) => Err(f),
            Ok((d, e)) => Ok((GlobalConfigView { dns_challenge: Some(d), ..g }, e)),
        }
    } else {
        placed(global_line(g, words, block), c)
    }
}

/// A credential block takes no token back.
pub proof fn lemma_credential_block(
    toks: Seq<TokenView>,
    c: Cursor,
    keyword: Seq<char>,
    entries: Seq<(Seq<char>, Seq<char>)>,
)
    requires
        0 <= c.pos <= toks.len(),
    ensures
        credential_block(toks, c, keyword, entries) matches Ok((_, d)) ==> c.pos <= d.pos
            <= toks.len(),
    decreases toks.len() - c.pos,
{
    if c.pos < toks.len() && toks[c.pos].kind != TokenKindView::RBrace {
        let (line, nested, d) = statement(toks, c.pos);
        lemma_statement(toks, c.pos);
        if line.len() == 0 {
            lemma_credential_block(toks, d, keyword, entries);
        } else if let Ok(more) = credential_line(keyword, line, nested, entries) {
            lemma_credential_block(toks, d, keyword, more);
        }
    }
}

/// The settings of a global block that is read from `c` on, after `g`.
pub open spec fn global_block(toks: Seq<TokenView>, c: Cursor, g: GlobalConfigView) -> Result<
    (GlobalConfigView, Cursor),
    Fault,
>
    decreases toks.len() - c.pos,
{
    if c.pos < 0 || c.pos >= toks.len() {
        Err(fault(c, "unexpected end of file in global block"@))
    } else if toks[c.pos].kind == TokenKindView::RBrace {
        Ok((g, Cursor { pos: c.pos + 1, ..c }))
    } else {
        let (words, open, d) = statement(toks, c.pos);
        proof {
            lemma_statement(toks, c.pos);
            lemma_credential_block(toks, d, words[1], Seq::empty());
        }
        if words.len() == 0 {
            global_block(toks, d, g)
        } else {
            match global_statement(toks, d, g, words, open) {
                Err(f) => Err(f),
                Ok((h, e)) => global_block(toks, e, h),
            }
        }
    }
}

fn apply_global_line(global: &mut GlobalConfig, words: &Vec<String>, block: bool) -> (r: Result<
    (),
    String,
>)
    requires
        words@.len() > 0,
    ensures
        match r {
            Ok(_) => global_line(old(global).deep_view(), words.deep_view(), block) == Ok::<
                GlobalConfigView,
                Seq<char>,
            >(final(global).deep_view()),
            Err(m) => global_line(old(global).deep_view(), words.deep_view(), block) == Err::<
                GlobalConfigView,
                Seq<char>,
            >(m@),
        },
{
    let name = words[0].as_str();
    assert(words.deep_view()[0] == name@);
    assert(words@.len() > 1 ==> words.deep_view()[1] == words@[1]@);
    if block {
        return Err(cat3("unexpected '{' after ", name, " in global block"));
    }
    if same(name, "acme_email") {
        if words.len() != 2 {
            return Err(owned("acme_email requires exactly one argument"));
        }
        global.acme_email = Some(owned(words[1].as_str()));
    } else if same(name, "log_level") {
        match parse_log_level(words) {
            Err(m) => {
                return Err(m);
            },
            Ok(level) => {
                global.log_level = Some(level);
            },
        }
    } else if same(name, "trusted_proxies") {
        match parse_networks(words) {
            Err(m) => {
                return Err(m);
            },
            Ok(nets) => {
                global.trusted_proxies = nets;
            },
        }
    } else if same(name, "tls_alpn_challenge") {
        if words.len() != 1 {
            return Err(owned("tls_alpn_challenge takes no arguments"));
        }
        global.tls_alpn_challenge = true;
    } else if same(name, "access_log") {
        match parse_access_log_directive(words) {
            Err(m) => {
                return Err(m);
            },
            Ok(log) => {
                global.access_log = Some(log);
            },
        }
    } else {
        return Err(cat3("unknown global directive '", name, "'"));
    }
    Ok(())
}

impl Parser {
    /// Apply one statement of the global block.
    pub fn apply_global(&mut self, global: &mut GlobalConfig, words: &Vec<String>, block: bool) -> (r:
        Result<(), ConfigError>)
        requires
            old(self).wf(),
            words@.len() > 0,
        ensures
            final(self).continues(*old(self)),
            final(self).pos >= old(self).pos,
            ({
                let want = global_statement(
                    old(self).toks(),
                    old(self).cursor(),
                    old(global).deep_view(),
                    words.deep_view(),
                    block,
                );
                match r {
                    Ok(_) => want == Ok::<(GlobalConfigView, Cursor), Fault>(
                        (final(global).deep_view(), final(self).cursor()),
                    ),
                    Err(e) => want matches Err(f) && e.deep_view() == f.error(final(self).file@),
                }
            }),
    {
        assert(words.deep_view()[0] == words@[0]@);
        if same(words[0].as_str(), "dns_challenge") {
            match self.parse_dns_challenge(words, block) {
                Err(e) => {
                    return Err(e);
                },
                Ok(d) => {
                    global.dns_challenge = Some(d);
                },
            }
            return Ok(());
        }
        match apply_global_line(global, words, block) {
            Ok(_) => Ok(()),
            Err(m) => Err(self.err(m)),
        }
    }

    fn parse_global_block(&mut self) -> (r: Result<GlobalConfig, ConfigError>)
        requires
            old(self).wf(),
        ensures
            final(self).continues(*old(self)),
            final(self).pos >= old(self).pos,
            outcome(
                r,
                *final(self),
                global_block(old(self).toks(), old(self).cursor(), default_global()),
            ),
    {
        let ghost toks = self.toks();
        let ghost start = self.cursor();
        let mut global = GlobalConfig::default();
        loop
            invariant
                self.continues(*old(self)),
                self.pos >= old(self).pos,
                toks == self.toks(),
                toks == old(self).toks(),
                start == old(self).cursor(),
                global_block(toks, start, default_global()) == global_block(
                    toks,
                    self.cursor(),
                    global.deep_view(),
                ),
            decreases self.tokens@.len() - self.pos,
        {
            if self.at_close() {
                self.advance();
                return Ok(global);
            }
            if self.at_end() {
                return Err(self.error("unexpected end of file in global block"));
            }
            let (words, open) = self.parse_statement();
            if words.len() == 0 {
                continue;
            }
            match self.apply_global(&mut global, &words, open) {
                Ok(_) => {},
                Err(e) => {
                    return Err(e);
                },
            }
        }
    }
}

// ---------------------------------------------------------------------------
// Directive blocks
// ---------------------------------------------------------------------------

/// A directive that fits on one line.
pub open spec fn line_directive(words: Seq<Seq<char>>, block: bool) -> Result<
    DirectiveView,
    Seq<char>,
> {
    let name = words[0];
    if name == "header_up"@ {
        header_line(words, block, true)
    } else if name == "header_down"@ {
        header_line(words, block, false)
    } else if name == "file_server"@ {
        file_server_line(words, block)
    } else if name == "root"@ {
        root_line(words, block)
    } else if name == "encode"@ {
        encode_line(words, block)
    } else if name == "redir"@ {
        redir_line(words, block)
    } else if name == "rewrite"@ {
        rewrite_line(words, block)
    } else if name == "respond"@ {
        respond_line(words, block)
    } else if name == "error"@ {
        error_line(words, block)
    } else if name == "basic_auth"@ {
        basic_auth_line(words, block)
    } else if name == "forward_auth"@ {
        forward_auth_line(words, block)
    } else if name == "access_log"@ {
        access_log_line(words, block)
    } else if name == "rate_limit"@ {
        rate_limit_line(words, block)
    } else if name == "trusted_proxies"@ {
        trusted_proxies_line(words, block)
    } else if name == "tls"@ {
        tls_line(words, block)
    } else {
        Err("unknown directive '"@ + name + "'"@)
    }
}

/// The matchers of a `handle` or `handle_path` line.
pub open spec fn handle_matchers(words: Seq<Seq<char>>, block: bool) -> Result<
    Seq<MatcherView>,
    Seq<char>,
> {
    match matchers_from(words, 1, Seq::empty()) {
        Err(m) => Err(m),
        Ok((matcher, k)) => if matcher.len() == 0 {
            Err("handle requires a matcher"@)
        } else if k < words.len() {
            Err("unexpected '"@ + words[k] + "' after the handle matcher"@)
        } else if !block {
            Err("handle requires a block"@)
        } else {
            Ok(matcher)
        },
    }
}

/// The directive that a statement makes, with the block that it opens, inside
/// `depth` blocks.
pub open spec fn directive_at(
    toks: Seq<TokenView>,
    c: Cursor,
    words: Seq<Seq<char>>,
    block: bool,
    depth: nat,
) -> Result<(DirectiveView, Cursor), Fault>
    decreases MAX_BLOCK_DEPTH - depth, toks.len() - c.pos, 0nat,
{
    if words[0] == "reverse_proxy"@ {
        reverse_proxy(toks, c, words, block)
    } else if words[0] == "handle"@ || words[0] == "handle_path"@ {
        match handle_matchers(words, block) {
            Err(m) => Err(fault(c, m)),
            Ok(matcher) => if depth >= MAX_BLOCK_DEPTH {
                Err(fault(c, "block nesting exceeds 100 levels"@))
            } else {
                match directives_from(toks, c, depth + 1, Seq::empty()) {
                    Err(f) => Err(f),
                    Ok((directives, d)) => Ok(
                        (
                            if words[0] == "handle_path"@ {
                                DirectiveView::HandlePath { matcher, directives }
                            } else {
                                DirectiveView::Handle { matcher, directives }
                            },
                            d,
                        ),
                    ),
                }
            },
        }
    } else {
        placed(line_directive(words, block), c)
    }
}

/// The directives of a block that is read from `c` on, after `done`; `depth`
/// counts the blocks around them. Every statement takes a token, so the case
/// that none is taken does not arise.
pub open spec fn directives_from(
    toks: Seq<TokenView>,
    c: Cursor,
    depth: nat,
    done: Seq<DirectiveView>,
) -> Result<(Seq<DirectiveView>, Cursor), Fault>
    decreases MAX_BLOCK_DEPTH - depth, toks.len() - c.pos, 1nat,
{
    if c.pos < 0 || c.pos >= toks.len() {
        Err(fault(c, "unexpected end of file inside block"@))
    } else if toks[c.pos].kind == TokenKindView::RBrace {
        Ok((done, Cursor { pos: c.pos + 1, ..c }))
    } else if toks[c.pos].kind == TokenKindView::LBrace {
        Err(fault(c, "unexpected '{'"@))
    } else {
        let (words, open, d) = statement(toks, c.pos);
        proof {
            lemma_statement(toks, c.pos);
        }
        if words.len() == 0 {
            directives_from(toks, d, depth, done)
        } else {
            match directive_at(toks, d, words, open, depth) {
                Err(f) => Err(f),
                Ok((directive, e)) => if c.pos < e.pos <= toks.len() {
                    directives_from(toks, e, depth, done.push(directive))
                } else {
                    Ok((done, c))
                },
            }
        }
    }
}

/// The directives of the block that a site opens.
pub open spec fn site_directives(toks: Seq<TokenView>, c: Cursor) -> Result<
    (Seq<DirectiveView>, Cursor),
    Fault,
> {
    directives_from(toks, c, 1, Seq::empty())
}

fn parse_line_directive(words: &Vec<String>, block: bool) -> (r: Result<Directive, String>)
    requires
        words@.len() > 0,
    ensures
        says(r, line_directive(words.deep_view(), block)),
{
    let name = words[0].as_str();
    assert(words.deep_view()[0] == name@);
    if same(name, "header_up") {
        parse_header(words, block, true)
    } else if same(name, "header_down") {
        parse_header(words, block, false)
    } else if same(name, "file_server") {
        parse_file_server(words, block)
    } else if same(name, "root") {
        parse_root(words, block)
    } else if same(name, "encode") {
        parse_encode(words, block)
    } else if same(name, "redir") {
        parse_redir(words, block)
    } else if same(name, "rewrite") {
        parse_rewrite(words, block)
    } else if same(name, "respond") {
        parse_respond(words, block)
    } else if same(name, "error") {
        parse_error(words, block)
    } else if same(name, "basic_auth") {
        parse_basic_auth(words, block)
    } else if same(name, "forward_auth") {
        parse_forward_auth(words, block)
    } else if same(name, "access_log") {
        parse_access_log(words, block)
    } else if same(name, "rate_limit") {
        parse_rate_limit(words, block)
    } else if same(name, "trusted_proxies") {
        parse_trusted_proxies(words, block)
    } else if same(name, "tls") {
        parse_tls(words, block)
    } else {
        Err(cat3("unknown directive '", name, "'"))
    }
}

fn parse_handle_matchers(words: &Vec<String>, block: bool) -> (r: Result<Vec<Matcher>, String>)
    requires
        words@.len() > 0,
    ensures
        says(r, handle_matchers(words.deep_view(), block)),
{
    match parse_matchers(words, 1) {
        Err(m) => Err(m),
        Ok((matcher, k)) => if matcher.len() == 0 {
            Err(owned("handle requires a matcher"))
        } else if k < words.len() {
            assert(words.deep_view()[k as int] == words@[k as int]@);
            Err(cat3("unexpected '", words[k].as_str(), "' after the handle matcher"))
        } else if !block {
            Err(owned("handle requires a block"))
        } else {
            Ok(matcher)
        },
    }
}

impl Parser {
    /// Parse the statement `words` inside `depth` blocks.
    fn dispatch(&mut self, words: &Vec<String>, block: bool, depth: usize) -> (r: Result<
        Directive,
        ConfigError,
    >)
        requires
            old(self).wf(),
            words@.len() > 0,
            depth <= MAX_BLOCK_DEPTH,
        ensures
            final(self).continues(*old(self)),
            final(self).pos >= old(self).pos,
            outcome(
                r,
                *final(self),
                directive_at(
                    old(self).toks(),
                    old(self).cursor(),
                    words.deep_view(),
                    block,
                    depth as nat,
                ),
            ),
        decreases MAX_BLOCK_DEPTH - depth, 2nat,
    {
        assert(words.deep_view()[0] == words@[0]@);
        let name = words[0].as_str();
        if same(name, "reverse_proxy") {
            self.parse_reverse_proxy(words, block)
        } else if same(name, "handle") || same(name, "handle_path") {
            let strip = same(name, "handle_path");
            self.parse_handle(words, block, strip, depth)
        } else {
            match parse_line_directive(words, block) {
                Ok(d) => Ok(d),
                Err(m) => Err(self.err(m)),
            }
        }
    }

    /// Parse a `handle` (or, with `strip`, `handle_path`) block: a matcher plus
    /// a directive block.
    fn parse_handle(&mut self, words: &Vec<String>, block: bool, strip: bool, depth: usize) -> (r:
        Result<Directive, ConfigError>)
        requires
            old(self).wf(),
            words@.len() > 0,
            depth <= MAX_BLOCK_DEPTH,
            words.deep_view()[0] != "reverse_proxy"@,
            words.deep_view()[0] == "handle"@ || words.deep_view()[0] == "handle_path"@,
            strip == (words.deep_view()[0] == "handle_path"@),
        ensures
            final(self).continues(*old(self)),
            final(self).pos >= old(self).pos,
            outcome(
                r,
                *final(self),
                directive_at(
                    old(self).toks(),
                    old(self).cursor(),
                    words.deep_view(),
                    block,
                    depth as nat,
                ),
            ),
        decreases MAX_BLOCK_DEPTH - depth, 1nat,
    {
        let matcher = match parse_handle_matchers(words, block) {
            Ok(m) => m,
            Err(m) => {
                return Err(self.err(m));
            },
        };
        let directives = match self.parse_directive_block(depth) {
            Ok(d) => d,
            Err(e) => {
                return Err(e);
            },
        };
        proof {
            lemma_directives_view(&directives);
        }
        if strip {
            Ok(Directive::HandlePath { matcher, directives })
        } else {
            Ok(Directive::Handle { matcher, directives })
        }
    }

    /// Parse a block of directives inside `depth` others. Nesting is bounded, so
    /// no configuration can exhaust the stack.
    fn parse_directive_block(&mut self, depth: usize) -> (r: Result<Vec<Directive>, ConfigError>)
        requires
            old(self).wf(),
            depth <= MAX_BLOCK_DEPTH,
        ensures
            final(self).continues(*old(self)),
            final(self).pos >= old(self).pos,
            outcome(
                r,
                *final(self),
                if depth >= MAX_BLOCK_DEPTH {
                    Err(fault(old(self).cursor(), "block nesting exceeds 100 levels"@))
                } else {
                    directives_from(
                        old(self).toks(),
                        old(self).cursor(),
                        (depth + 1) as nat,
                        Seq::empty(),
                    )
                },
            ),
        decreases MAX_BLOCK_DEPTH - depth, 0nat,
    {
        if depth >= MAX_BLOCK_DEPTH {
            return Err(self.error("block nesting exceeds 100 levels"));
        }
        self.parse_directive_block_body(depth + 1)
    }

    /// The statements of a block, up to its closing brace.
    fn parse_directive_block_body(&mut self, depth: usize) -> (r: Result<
        Vec<Directive>,
        ConfigError,
    >)
        requires
            old(self).wf(),
            depth <= MAX_BLOCK_DEPTH,
        ensures
            final(self).continues(*old(self)),
            final(self).pos >= old(self).pos,
            outcome(
                r,
                *final(self),
                directives_from(
                    old(self).toks(),
                    old(self).cursor(),
                    depth as nat,
                    Seq::empty(),
                ),
            ),
        decreases MAX_BLOCK_DEPTH - depth, 3nat,
    {
        let ghost toks = self.toks();
        let ghost start = self.cursor();
        let mut directives: Vec<Directive> = Vec::new();
        assert(directives.deep_view() == Seq::<DirectiveView>::empty());
        loop
            invariant
                depth <= MAX_BLOCK_DEPTH,
                self.continues(*old(self)),
                self.pos >= old(self).pos,
                toks == self.toks(),
                toks == old(self).toks(),
                start == old(self).cursor(),
                directives_from(toks, start, depth as nat, Seq::empty()) == directives_from(
                    toks,
                    self.cursor(),
                    depth as nat,
                    directives.deep_view(),
                ),
            decreases self.tokens@.len() - self.pos,
        {
            if self.at_close() {
                self.advance();
                return Ok(directives);
            }
            if self.at_open() {
                return Err(self.error("unexpected '{'"));
            }
            if self.at_end() {
                return Err(self.error("unexpected end of file inside block"));
            }
            let (words, open) = self.parse_statement();
            if words.len() == 0 {
                continue;
            }
            match self.dispatch(&words, open, depth) {
                Ok(d) => {
                    add_to(&mut directives, d);
                },
                Err(e) => {
                    return Err(e);
                },
            }
        }
    }
}

// ---------------------------------------------------------------------------
// Files
// ---------------------------------------------------------------------------

/// The sites that a site statement makes, with the block that it opens: every
/// address of the list gets the same directives.
pub open spec fn site_block(
    toks: Seq<TokenView>,
    c: Cursor,
    words: Seq<Seq<char>>,
    block: bool,
) -> Result<(Seq<SiteView>, Cursor), Fault> {
    if !block {
        Err(fault(c, "expected '{' after site address"@))
    } else {
        match site_keys(words) {
            Err(m) => Err(fault(c, m)),
            Ok(keys) => match site_directives(toks, c) {
                Err(f) => Err(f),
                Ok((directives, d)) => Ok(
                    (Seq::new(keys.len(), |i: int| SiteView { key: keys[i], directives }), d),
                ),
            },
        }
    }
}

/// What one top-level statement adds: sites, or a layer-4 listener.
pub open spec fn top_level(
    toks: Seq<TokenView>,
    c: Cursor,
    words: Seq<Seq<char>>,
    block: bool,
) -> Result<((Seq<SiteView>, Seq<Layer4ListenerView>), Cursor), Fault> {
    if words[0] == "tcp"@ {
        match tcp_listener(toks, c, words, block) {
            Err(f) => Err(f),
            Ok((l, d)) => Ok(((Seq::empty(), seq![l]), d)),
        }
    } else if words[0] == "udp"@ {
        match udp_listener(toks, c, words, block) {
            Err(f) => Err(f),
            Ok((l, d)) => Ok(((Seq::empty(), seq![l]), d)),
        }
    } else {
        match site_block(toks, c, words, block) {
            Err(f) => Err(f),
            Ok((sites, d)) => Ok(((sites, Seq::empty()), d)),
        }
    }
}

/// The sites and the listeners from `c` on, after those already read. Every
/// statement takes a token, so the case that none is taken does not arise.
pub open spec fn items_from(
    toks: Seq<TokenView>,
    c: Cursor,
    sites: Seq<SiteView>,
    layer4: Seq<Layer4ListenerView>,
) -> Result<(Seq<SiteView>, Seq<Layer4ListenerView>), Fault>
    decreases toks.len() - c.pos,
{
    let p = skip_newlines(toks, c.pos);
    if c.pos < 0 || c.pos > toks.len() || p >= toks.len() {
        Ok((sites, layer4))
    } else if toks[p].kind == TokenKindView::RBrace {
        Err(fault(c, "unexpected '}'"@))
    } else {
        let (words, open, d) = statement(toks, p);
        proof {
            lemma_skip_newlines(toks, c.pos);
            lemma_statement(toks, p);
        }
        if words.len() == 0 {
            items_from(toks, d, sites, layer4)
        } else {
            match top_level(toks, d, words, open) {
                Err(f) => Err(f),
                Ok(((more, listeners), e)) => if c.pos < e.pos <= toks.len() {
                    items_from(toks, e, sites + more, layer4 + listeners)
                } else {
                    Ok((sites, layer4))
                },
            }
        }
    }
}

/// The file that a token stream writes: an optional leading bare block of global
/// settings, then sites and listeners.
pub open spec fn raddexfile(toks: Seq<TokenView>) -> Result<RaddexfileView, Fault> {
    let p = skip_newlines(toks, 0);
    let start = Cursor { pos: p, stmt: (1, 1) };
    let head = if p < toks.len() && toks[p].kind == TokenKindView::LBrace {
        global_block(toks, Cursor { pos: p + 1, ..start }, default_global())
    } else {
        Ok((default_global(), start))
    };
    match head {
        Err(f) => Err(f),
        Ok((global, c)) => match items_from(toks, c, Seq::empty(), Seq::empty()) {
            Err(f) => Err(f),
            Ok((sites, layer4)) => Ok(RaddexfileView { global, sites, layer4 }),
        },
    }
}

impl Parser {
    fn parse_site(&mut self, words: &Vec<String>, block: bool) -> (r: Result<
        Vec<Site>,
        ConfigError,
    >)
        requires
            old(self).wf(),
        ensures
            final(self).continues(*old(self)),
            final(self).pos >= old(self).pos,
            outcome(
                r,
                *final(self),
                site_block(old(self).toks(), old(self).cursor(), words.deep_view(), block),
            ),
    {
        if !block {
            return Err(self.error("expected '{' after site address"));
        }
        let keys = match parse_site_keys(words) {
            Ok(k) => k,
            Err(m) => {
                return Err(self.err(m));
            },
        };
        let directives = match self.parse_directive_block(0) {
            Ok(d) => d,
            Err(e) => {
                return Err(e);
            },
        };
        let mut sites: Vec<Site> = Vec::new();
        let mut i: usize = 0;
        while i < keys.len()
            invariant
                i <= keys@.len(),
                sites@.len() == i,
                forall|j: int|
                    0 <= j < i ==> (#[trigger] sites@[j]).deep_view() == (SiteView {
                        key: keys@[j].deep_view(),
                        directives: directives.deep_view(),
                    }),
            decreases keys@.len() - i,
        {
            sites.push(Site { key: keys[i].dup(), directives: directives.dup() });
            i += 1;
        }
        let ghost k = keys.deep_view();
        let ghost d = directives.deep_view();
        assert(sites.deep_view() == Seq::new(
            k.len(),
            |i: int| SiteView { key: k[i], directives: d },
        ));
        Ok(sites)
    }

    fn parse_items(&mut self) -> (r: Result<(Vec<Site>, Vec<Layer4Listener>), ConfigError>)
        requires
            old(self).wf(),
        ensures
            final(self).continues(*old(self)),
            ({
                let want = items_from(
                    old(self).toks(),
                    old(self).cursor(),
                    Seq::empty(),
                    Seq::empty(),
                );
                match r {
                    Ok((s, l)) => want == Ok::<
                        (Seq<SiteView>, Seq<Layer4ListenerView>),
                        Fault,
                    >((s.deep_view(), l.deep_view())),
                    Err(e) => want matches Err(f) && e.deep_view() == f.error(final(self).file@),
                }
            }),
    {
        let ghost toks = self.toks();
        let ghost start = self.cursor();
        let mut sites: Vec<Site> = Vec::new();
        let mut layer4: Vec<Layer4Listener> = Vec::new();
        assert(sites.deep_view() == Seq::<SiteView>::empty());
        assert(layer4.deep_view() == Seq::<Layer4ListenerView>::empty());
        loop
            invariant
                self.continues(*old(self)),
                toks == self.toks(),
                toks == old(self).toks(),
                start == old(self).cursor(),
                items_from(toks, start, Seq::empty(), Seq::empty()) == items_from(
                    toks,
                    self.cursor(),
                    sites.deep_view(),
                    layer4.deep_view(),
                ),
            decreases self.tokens@.len() - self.pos,
        {
            let ghost here = self.cursor();
            let ghost before = (sites.deep_view(), layer4.deep_view());
            proof {
                lemma_skip_newlines(toks, self.pos as int);
            }
            self.skip_blank();
            if self.at_end() {
                return Ok((sites, layer4));
            }
            if self.at_close() {
                return Err(self.error("unexpected '}'"));
            }
            let (words, open) = self.parse_statement();
            if words.len() == 0 {
                continue;
            }
            assert(words.deep_view()[0] == words@[0]@);
            let name = words[0].as_str();
            if same(name, "tcp") {
                match self.parse_layer4_tcp(&words, open) {
                    Err(e) => {
                        return Err(e);
                    },
                    Ok(l) => {
                        let ghost v = l.deep_view();
                        add_to(&mut layer4, l);
                        assert(before.1.push(v) == before.1 + seq![v]);
                        assert(before.0 + Seq::<SiteView>::empty() == before.0);
                    },
                }
            } else if same(name, "udp") {
                match self.parse_layer4_udp(&words, open) {
                    Err(e) => {
                        return Err(e);
                    },
                    Ok(l) => {
                        let ghost v = l.deep_view();
                        add_to(&mut layer4, l);
                        assert(before.1.push(v) == before.1 + seq![v]);
                        assert(before.0 + Seq::<SiteView>::empty() == before.0);
                    },
                }
            } else {
                match self.parse_site(&words, open) {
                    Err(e) => {
                        return Err(e);
                    },
                    Ok(more) => {
                        let mut more = more;
                        let ghost v = more.deep_view();
                        sites.append(&mut more);
                        assert(sites.deep_view() == before.0 + v);
                        assert(before.1 + Seq::<Layer4ListenerView>::empty() == before.1);
                    },
                }
            }
        }
    }

    /// Parse the whole token stream.
    pub fn parse_raddexfile(&mut self) -> (r: Result<Raddexfile, ConfigError>)
        requires
            old(self).wf(),
            old(self).cursor() == (Cursor { pos: 0, stmt: (1, 1) }),
        ensures
            final(self).continues(*old(self)),
            match r {
                Ok(file) => raddexfile(old(self).toks()) == Ok::<RaddexfileView, Fault>(
                    file.deep_view(),
                ),
                Err(e) => raddexfile(old(self).toks()) matches Err(f) && e.deep_view() == f.error(
                    old(self).file@,
                ),
            },
    {
        self.skip_blank();
        let global = if self.at_open() {
            self.advance();
            match self.parse_global_block() {
                Ok(g) => g,
                Err(e) => {
                    return Err(e);
                },
            }
        } else {
            GlobalConfig::default()
        };
        match self.parse_items() {
            Ok((sites, layer4)) => Ok(Raddexfile { global, sites, layer4 }),
            Err(e) => Err(e),
        }
    }
}

/// Why a file could not be parsed.
#[derive(PartialEq, Eq, Debug)]
pub enum ParseFailure {
    /// The file is wrong.
    Config(ConfigError),
    /// The file imports another of which the sources say nothing yet.
    NeedsImport { file: String, target: String },
}

/// The model of [`ParseFailure`].
pub ghost enum ParseFailureView {
    Config(ConfigErrorView),
    NeedsImport { file: Seq<char>, target: Seq<char> },
}

impl DeepView for ParseFailure {
    type V = ParseFailureView;

    open spec fn deep_view(&self) -> ParseFailureView {
        match self {
            ParseFailure::Config(e) => ParseFailureView::Config(e.deep_view()),
            ParseFailure::NeedsImport { file, target } => ParseFailureView::NeedsImport {
                file: file@,
                target: target@,
            },
        }
    }
}

/// A preprocessing error, which has no position.
pub open spec fn preprocessing_error(file: Seq<char>, message: Seq<char>) -> ConfigErrorView {
    ConfigErrorView::Parse { file, line: 1, col: 1, message }
}

/// The tokens that the grammar sees.
pub open spec fn preprocessed(file: Seq<char>, input: Seq<char>, sources: SourcesView) -> Result<
    Seq<TokenView>,
    ParseFailureView,
> {
    match env_expanded(sources.env, lexed(input)) {
        Err(m) => Err(ParseFailureView::Config(preprocessing_error(file, m))),
        Ok(toks) => match imports_expanded(sources, file, toks) {
            Err(ExpandErrorView::Message(m)) => Err(
                ParseFailureView::Config(preprocessing_error(file, m)),
            ),
            Err(ExpandErrorView::Missing { file, target }) => Err(
                ParseFailureView::NeedsImport { file, target },
            ),
            Ok(all) => Ok(all),
        },
    }
}

/// The file that `input` writes, with `sources` for the environment and the
/// imported files.
pub open spec fn parsed_with(file: Seq<char>, input: Seq<char>, sources: SourcesView) -> Result<
    RaddexfileView,
    ParseFailureView,
> {
    match preprocessed(file, input, sources) {
        Err(e) => Err(e),
        Ok(toks) => match raddexfile(toks) {
            Err(f) => Err(ParseFailureView::Config(f.error(file))),
            Ok(r) => Ok(r),
        },
    }
}

/// The file that `input` writes when there is no environment and no other file.
pub open spec fn parsed(file: Seq<char>, input: Seq<char>) -> Result<
    RaddexfileView,
    ConfigErrorView,
> {
    match parsed_with(file, input, no_sources()) {
        Ok(r) => Ok(r),
        Err(ParseFailureView::Config(e)) => Err(e),
        Err(ParseFailureView::NeedsImport { target, .. }) => Err(
            preprocessing_error(file, "failed to read imported file "@ + target),
        ),
    }
}

/// The tokens that the grammar sees, with `sources` for the environment variables
/// and the imported files.
pub fn preprocess(file: &str, input: &str, sources: &Sources) -> (r: Result<Vec<Token>, ParseFailure>)
    requires
        input@.len() < u32::MAX,
    ensures
        match r {
            Ok(toks) => preprocessed(file@, input@, sources.deep_view()) == Ok::<
                Seq<TokenView>,
                ParseFailureView,
            >(toks.deep_view()),
            Err(e) => preprocessed(file@, input@, sources.deep_view()) == Err::<
                Seq<TokenView>,
                ParseFailureView,
            >(e.deep_view()),
        },
{
    let tokens = match lex(input) {
        Ok(t) => t,
        Err(m) => {
            return Err(
                ParseFailure::Config(
                    ConfigError::Parse { file: owned(file), line: 1, col: 1, message: m },
                ),
            );
        },
    };
    let tokens = match expand_env_tokens(&sources.env, &tokens) {
        Ok(t) => t,
        Err(m) => {
            return Err(
                ParseFailure::Config(
                    ConfigError::Parse { file: owned(file), line: 1, col: 1, message: m },
                ),
            );
        },
    };
    let mut snippets: Vec<(String, Vec<Token>)> = Vec::new();
    let mut stack: Vec<String> = Vec::new();
    assert(stack.deep_view() == Seq::<Seq<char>>::empty());
    assert(snippets.deep_view() == Seq::<(Seq<char>, Seq<TokenView>)>::empty());
    match expand_imports(sources, file, &tokens, &mut snippets, &mut stack, true, 0) {
        Ok(t) => Ok(t),
        Err(ExpandError::Message(m)) => Err(
            ParseFailure::Config(
                ConfigError::Parse { file: owned(file), line: 1, col: 1, message: m },
            ),
        ),
        Err(ExpandError::Missing { file, target }) => Err(
            ParseFailure::NeedsImport { file, target },
        ),
    }
}

/// Parse a configuration file, with `sources` for the environment variables and
/// the imported files. When an import is not among them the caller is told which
/// one to read.
pub fn parse_with(file: &str, input: &str, sources: &Sources) -> (r: Result<
    Raddexfile,
    ParseFailure,
>)
    requires
        input@.len() < u32::MAX,
    ensures
        match r {
            Ok(rf) => parsed_with(file@, input@, sources.deep_view()) == Ok::<
                RaddexfileView,
                ParseFailureView,
            >(rf.deep_view()),
            Err(e) => parsed_with(file@, input@, sources.deep_view()) == Err::<
                RaddexfileView,
                ParseFailureView,
            >(e.deep_view()),
        },
{
    let tokens = match preprocess(file, input, sources) {
        Ok(t) => t,
        Err(e) => {
            return Err(e);
        },
    };
    let mut parser = Parser::new(file, tokens);
    match parser.parse_raddexfile() {
        Ok(rf) => Ok(rf),
        Err(e) => Err(ParseFailure::Config(e)),
    }
}

/// Parse a configuration file that stands alone: no environment variable is set
/// for it and no other file can be imported.
pub fn parse(file: &str, input: &str) -> (r: Result<Raddexfile, ConfigError>)
    requires
        input@.len() < u32::MAX,
    ensures
        match r {
            Ok(rf) => parsed(file@, input@) == Ok::<RaddexfileView, ConfigErrorView>(
                rf.deep_view(),
            ),
            Err(e) => parsed(file@, input@) == Err::<RaddexfileView, ConfigErrorView>(
                e.deep_view(),
            ),
        },
{
    let sources = Sources::none();
    match parse_with(file, input, &sources) {
        Ok(rf) => Ok(rf),
        Err(ParseFailure::Config(e)) => Err(e),
        Err(ParseFailure::NeedsImport { target, .. }) => Err(
            ConfigError::Parse {
                file: owned(file),
                line: 1,
                col: 1,
                message: cat2("failed to read imported file ", target.as_str()),
            },
        ),
    }
}

} // verus!
