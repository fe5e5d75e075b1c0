//! What holds of every configuration that parses and compiles.
//!
//! The contracts of the parser and the compiler say what each makes of its
//! input. The theorems here draw the consequences that the rest of the program
//! relies on: what is written first comes first, keys and binds are unique, and
//! names are in their normal form.
use crate::config::answers::{resolved, AnswersView, FaultView};
use crate::config::ast::{
    ConfigErrorView, DirectiveView, Layer4ListenerView, RaddexfileView, SiteKeyView, SiteView,
    UpstreamView,
};
use crate::config::compiled::{CompiledSiteView, ModifierView, UpstreamPeerView};
use crate::config::cursor::{lemma_statement, statement, Cursor};
use crate::config::expand::{
    adjacent, block_content, block_end, env_expanded, env_expanded_from, first_env_token,
    imports_expanded_from, lemma_block_end, lemma_words_end, no_sources, run_end, run_value,
    snippet_name, word_of, words_end, ExpandErrorView, Place, SourcesView, MAX_BLOCK_DEPTH,
    MAX_IMPORT_DEPTH,
};
use crate::config::lexer::{lexed, TokenKindView, TokenView};
use crate::config::parser::{
    directive_at, directives_from, line_directive, parsed, parsed_with, ParseFailureView,
};
use crate::config::proxy::reverse_proxy;
use crate::config::validate::{
    address, bind_fault_from, bind_taken, compiled, issuance_fault, key_taken, modifier_of, overlap,
    peer, peers_at, peers_from, port_taken, site_compiled, site_from, site_step, sites_from,
    start_of_site, transport, SiteStateView,
};
use crate::config::values::{
    bracketed_site, host_name, label_fault, labels_fault, matcher_prefix, plain_host_name,
    port_value, site_key,
};
use crate::literals::{addresses_read_back, lemma_v6_brackets};
use crate::net::{v6_literal, v6_text, IpAddr};
use crate::num::{decimal, decimal_reads_back, digit_char};
use crate::text::{
    after, alphanumeric, before_char, cut, first_index, last_index, lemma_first_index,
    lemma_last_index, lower, lowered, rcut, white,
};
use vstd::prelude::*;
use vstd::utf8::is_ascii_chars;

verus! {

// ---------------------------------------------------------------------------
// Sites
// ---------------------------------------------------------------------------

/// A compiled configuration has the sites of its file, in the order of the file
/// and each compiled by itself, and its settings and listeners unchanged.
pub proof fn sites_keep_the_written_order(answers: AnswersView, rf: RaddexfileView)
    ensures
        compiled(answers, rf) matches Ok(c) ==> c.global == rf.global && c.layer4 == rf.layer4
            && c.sites.len() == rf.sites.len() && forall|i: int|
            0 <= i < c.sites.len() ==> site_compiled(answers, #[trigger] rf.sites[i]) == Ok::<
                CompiledSiteView,
                FaultView,
            >(c.sites[i]) && c.sites[i].key == rf.sites[i].key,
{
    lemma_sites(answers, rf, 0, Seq::empty());
}

/// No two sites of a compiled configuration have the same key.
pub proof fn site_keys_are_unique(answers: AnswersView, rf: RaddexfileView, i: int, j: int)
    ensures
        compiled(answers, rf) matches Ok(c) ==> (0 <= i < j < c.sites.len() ==> c.sites[i].key
            != c.sites[j].key),
{
    lemma_sites(answers, rf, 0, Seq::empty());
    if let Ok(c) = compiled(answers, rf) {
        if 0 <= i < j < c.sites.len() {
            assert(c.sites[i].key == rf.sites[i].key);
            assert(c.sites[j].key == rf.sites[j].key);
            assert(!key_taken(rf.sites, j));
        }
    }
}

/// No certificate has to be issued that cannot be: a site of a compiled
/// configuration that gets its certificate automatically is not an IP literal,
/// and a wildcard one comes with the DNS-01 challenge.
pub proof fn certificates_can_be_issued(answers: AnswersView, rf: RaddexfileView, i: int)
    ensures
        compiled(answers, rf) matches Ok(c) ==> (0 <= i < c.sites.len() ==> issuance_fault(
            c.global,
            c.sites[i],
        ) is None),
{
    lemma_sites(answers, rf, 0, Seq::empty());
    if let Ok(c) = compiled(answers, rf) {
        if 0 <= i < c.sites.len() {
            assert(c.sites[i].key == rf.sites[i].key);
        }
    }
}

proof fn lemma_sites(
    answers: AnswersView,
    rf: RaddexfileView,
    i: int,
    done: Seq<CompiledSiteView>,
)
    requires
        0 <= i <= rf.sites.len(),
        done.len() == i,
        forall|k: int|
            #![trigger rf.sites[k]]
            #![trigger done[k]]
            0 <= k < i ==> site_compiled(answers, rf.sites[k]) == Ok::<CompiledSiteView, FaultView>(
                done[k],
            ) && done[k].key == rf.sites[k].key && !key_taken(rf.sites, k) && issuance_fault(
                rf.global,
                done[k],
            ) is None,
    ensures
        sites_from(answers, rf, i, done) matches Ok(sites) ==> sites.len() == rf.sites.len()
            && forall|k: int|
            #![trigger rf.sites[k]]
            #![trigger sites[k]]
            0 <= k < sites.len() ==> site_compiled(answers, rf.sites[k]) == Ok::<
                CompiledSiteView,
                FaultView,
            >(sites[k]) && sites[k].key == rf.sites[k].key && !key_taken(rf.sites, k)
                && issuance_fault(rf.global, sites[k]) is None,
    decreases rf.sites.len() - i,
{
    if i < rf.sites.len() && !key_taken(rf.sites, i) {
        if let Ok(site) = site_compiled(answers, rf.sites[i]) {
            if issuance_fault(rf.global, site) is None {
                lemma_sites(answers, rf, i + 1, done.push(site));
            }
        }
    }
}

/// Directives are taken in the order they are written: the terminals and the
/// modifiers of the first `k` directives of a site come before those of the
/// others, in the order they have without them.
pub proof fn directives_keep_the_written_order(
    answers: AnswersView,
    ds: Seq<DirectiveView>,
    k: int,
)
    requires
        0 <= k <= ds.len(),
    ensures
        site_from(answers, ds, 0, start_of_site()) matches Ok(all) ==> (site_from(
            answers,
            ds.take(k),
            0,
            start_of_site(),
        ) matches Ok(first) && first.terminals.is_prefix_of(all.terminals)
            && first.modifiers.is_prefix_of(all.modifiers)),
{
    lemma_order(answers, ds, k, 0, start_of_site());
}

proof fn lemma_order(
    answers: AnswersView,
    ds: Seq<DirectiveView>,
    k: int,
    i: int,
    s: crate::config::validate::SiteStateView,
)
    requires
        0 <= i <= k <= ds.len(),
    ensures
        site_from(answers, ds, i, s) matches Ok(all) ==> (site_from(
            answers,
            ds.take(k),
            i,
            s,
        ) matches Ok(first) && first.terminals.is_prefix_of(all.terminals)
            && first.modifiers.is_prefix_of(all.modifiers)),
    decreases k - i,
{
    if i < k {
        assert(ds.take(k)[i] == ds[i]);
        if let Ok(t) = site_step(answers, s, ds[i]) {
            lemma_order(answers, ds, k, i + 1, t);
        }
    } else {
        lemma_grows(answers, ds, i, s);
    }
}

proof fn lemma_grows(
    answers: AnswersView,
    ds: Seq<DirectiveView>,
    i: int,
    s: crate::config::validate::SiteStateView,
)
    requires
        0 <= i <= ds.len(),
    ensures
        site_from(answers, ds, i, s) matches Ok(all) ==> s.terminals.is_prefix_of(all.terminals)
            && s.modifiers.is_prefix_of(all.modifiers),
    decreases ds.len() - i,
{
    if i < ds.len() {
        if let Ok(t) = site_step(answers, s, ds[i]) {
            assert(s.terminals.is_prefix_of(t.terminals));
            assert(s.modifiers.is_prefix_of(t.modifiers));
            lemma_grows(answers, ds, i + 1, t);
        }
    }
}

/// Every terminal of a compiled site has the modifiers of the site first, so that
/// a `handle` block, whose own come behind them, has the last word.
pub proof fn site_modifiers_come_first(answers: AnswersView, site: SiteView, i: int)
    ensures
        site_compiled(answers, site) matches Ok(c) ==> (0 <= i < c.terminals.len()
            ==> c.modifiers.is_prefix_of(c.terminals[i].modifiers)),
{
    if let Ok(c) = site_compiled(answers, site) {
        if 0 <= i < c.terminals.len() {
            let s = site_from(answers, site.directives, 0, start_of_site())->Ok_0;
            assert(c.terminals[i].modifiers == c.modifiers + s.terminals[i].modifiers
                + Seq::<ModifierView>::empty());
        }
    }
}

/// Whether a directive is a modifier of its site.
pub open spec fn is_modifier(d: DirectiveView) -> bool {
    modifier_of(d) is Some
}

/// Whether two lists of directives differ only in where the modifiers stand among
/// the others: the modifiers come in the same order in both, and so do the others.
pub open spec fn modifiers_moved(a: Seq<DirectiveView>, b: Seq<DirectiveView>) -> bool {
    &&& a.filter(|d: DirectiveView| is_modifier(d)) == b.filter(|d: DirectiveView| is_modifier(d))
    &&& a.filter(|d: DirectiveView| !is_modifier(d)) == b.filter(
        |d: DirectiveView| !is_modifier(d),
    )
}

/// Modifiers apply wherever they stand: moving them among the other directives of a
/// site leaves what is compiled as it was.
pub proof fn modifiers_move_freely(answers: AnswersView, site: SiteView, other: SiteView)
    requires
        other.key == site.key,
        modifiers_moved(site.directives, other.directives),
        site_compiled(answers, site) is Ok,
    ensures
        site_compiled(answers, other) == site_compiled(answers, site),
{
    lemma_parted(answers, site.directives, start_of_site());
    lemma_parted(answers, other.directives, start_of_site());
}

/// What directives give is what the modifiers among them give and what the others
/// give.
proof fn lemma_parted(answers: AnswersView, ds: Seq<DirectiveView>, s: SiteStateView)
    ensures
        ({
            let all = site_from(answers, ds, 0, s);
            let ms = site_from(answers, ds.filter(|d: DirectiveView| is_modifier(d)), 0, s);
            let rs = site_from(answers, ds.filter(|d: DirectiveView| !is_modifier(d)), 0, s);
            &&& all is Ok <==> ms is Ok && rs is Ok
            &&& all is Ok ==> all->Ok_0 == (SiteStateView {
                modifiers: ms->Ok_0.modifiers,
                ..rs->Ok_0
            })
            &&& ms is Ok ==> ms->Ok_0 == (SiteStateView { modifiers: ms->Ok_0.modifiers, ..s })
            &&& rs is Ok ==> rs->Ok_0.modifiers == s.modifiers
        }),
    decreases ds.len(),
{
    let is_mod = |d: DirectiveView| is_modifier(d);
    let no_mod = |d: DirectiveView| !is_modifier(d);
    reveal(Seq::filter);
    if ds.len() > 0 {
        let init = ds.drop_last();
        let d = ds.last();
        lemma_parted(answers, init, s);
        lemma_last_step(answers, ds, s);
        let ms = ds.filter(is_mod);
        let rs = ds.filter(no_mod);
        if is_modifier(d) {
            assert(ms.drop_last() == init.filter(is_mod));
            lemma_last_step(answers, ms, s);
        } else {
            assert(rs.drop_last() == init.filter(no_mod));
            lemma_last_step(answers, rs, s);
        }
    }
}

/// The last directive comes after what the others give.
proof fn lemma_last_step(answers: AnswersView, ds: Seq<DirectiveView>, s: SiteStateView)
    requires
        ds.len() > 0,
    ensures
        site_from(answers, ds, 0, s) == match site_from(answers, ds.drop_last(), 0, s) {
            Err(f) => Err(f),
            Ok(t) => site_step(answers, t, ds.last()),
        },
{
    lemma_last_step_from(answers, ds, 0, s);
}

proof fn lemma_last_step_from(
    answers: AnswersView,
    ds: Seq<DirectiveView>,
    i: int,
    s: SiteStateView,
)
    requires
        0 <= i < ds.len(),
    ensures
        site_from(answers, ds, i, s) == match site_from(answers, ds.drop_last(), i, s) {
            Err(f) => Err(f),
            Ok(t) => site_step(answers, t, ds.last()),
        },
    decreases ds.len() - i,
{
    if i + 1 < ds.len() {
        assert(ds.drop_last()[i] == ds[i]);
        if let Ok(t) = site_step(answers, s, ds[i]) {
            lemma_last_step_from(answers, ds, i + 1, t);
        }
    } else {
        assert(site_from(answers, ds.drop_last(), i, s) == Ok::<SiteStateView, FaultView>(s));
        if let Ok(t) = site_step(answers, s, ds[i]) {
            assert(site_from(answers, ds, i + 1, t) == Ok::<SiteStateView, FaultView>(t));
        }
    }
}

// ---------------------------------------------------------------------------
// Upstreams
// ---------------------------------------------------------------------------

/// Whether no two peers are the same.
pub open spec fn distinct_peers(peers: Seq<UpstreamPeerView>) -> bool {
    forall|i: int, j: int|
        0 <= i < j < peers.len() ==> #[trigger] peers[i] != #[trigger] peers[j]
}

/// The peers of a reverse proxy are pairwise different, and there is at least one
/// when it names an upstream.
pub proof fn peers_are_distinct(answers: AnswersView, to: Seq<UpstreamView>)
    ensures
        peers_from(answers, to, 0, Seq::empty()) matches Ok(peers) ==> distinct_peers(peers) && (
        to.len() > 0 ==> peers.len() > 0),
{
    lemma_peers(answers, to, 0, Seq::empty());
}

proof fn lemma_peers(
    answers: AnswersView,
    to: Seq<UpstreamView>,
    i: int,
    done: Seq<UpstreamPeerView>,
)
    requires
        0 <= i <= to.len(),
        distinct_peers(done),
    ensures
        peers_from(answers, to, i, done) matches Ok(peers) ==> distinct_peers(peers) && peers.len()
            >= done.len() && (i < to.len() ==> peers.len() > 0),
    decreases to.len() - i,
{
    if i < to.len() {
        if let Ok(addrs) = resolved(answers.hosts, to[i].host, to[i].port) {
            if addrs.len() > 0 {
                lemma_peers_at(to[i], addrs, 0, done);
                lemma_peers(answers, to, i + 1, peers_at(to[i], addrs, 0, done));
            }
        }
    }
}

proof fn lemma_peers_at(
    u: UpstreamView,
    addrs: Seq<crate::net::SocketAddr>,
    i: int,
    done: Seq<UpstreamPeerView>,
)
    requires
        0 <= i <= addrs.len(),
        distinct_peers(done),
    ensures
        distinct_peers(peers_at(u, addrs, i, done)),
        peers_at(u, addrs, i, done).len() >= done.len(),
        i < addrs.len() ==> peers_at(u, addrs, i, done).len() > 0,
    decreases addrs.len() - i,
{
    if i < addrs.len() {
        let p = peer(u, addrs[i]);
        if done.contains(p) {
            assert(done.len() > 0);
            lemma_peers_at(u, addrs, i + 1, done);
        } else {
            let next = done.push(p);
            assert forall|a: int, b: int| 0 <= a < b < next.len() implies #[trigger] next[a]
                != #[trigger] next[b] by {
                if b == done.len() {
                    assert(next[a] == done[a]);
                }
            }
            lemma_peers_at(u, addrs, i + 1, next);
        }
    }
}

// ---------------------------------------------------------------------------
// Listeners
// ---------------------------------------------------------------------------

/// The listeners of a compiled configuration do not collide: two of one transport
/// never overlap, and a TCP listener never has the port of a site.
pub proof fn listeners_do_not_collide(answers: AnswersView, rf: RaddexfileView, i: int, j: int)
    ensures
        compiled(answers, rf) matches Ok(c) ==> (0 <= i < j < c.layer4.len() && transport(
            c.layer4[i],
        ) == transport(c.layer4[j]) ==> !overlap(address(c.layer4[i]), address(c.layer4[j]))),
        compiled(answers, rf) matches Ok(c) ==> (0 <= i < c.layer4.len() && c.layer4[i] is Tcp && 0
            <= j < c.sites.len() ==> c.sites[j].key.port() != address(c.layer4[i]).socket().port),
{
    lemma_sites(answers, rf, 0, Seq::empty());
    if let Ok(c) = compiled(answers, rf) {
        lemma_binds(rf.sites, rf.layer4, 0);
        if 0 <= i < j < c.layer4.len() {
            assert(!bind_taken(rf.layer4, j));
        }
        if 0 <= i < c.layer4.len() && c.layer4[i] is Tcp && 0 <= j < c.sites.len() {
            assert(!port_taken(rf.sites, address(rf.layer4[i]).socket().port));
            assert(c.sites[j].key == rf.sites[j].key);
        }
    }
}

proof fn lemma_binds(sites: Seq<SiteView>, ls: Seq<Layer4ListenerView>, i: int)
    requires
        0 <= i <= ls.len(),
    ensures
        bind_fault_from(sites, ls, i) is None ==> forall|k: int|
            i <= k < ls.len() ==> !bind_taken(ls, k) && (#[trigger] ls[k] is Tcp ==> !port_taken(
                sites,
                address(ls[k]).socket().port,
            )),
    decreases ls.len() - i,
{
    if i < ls.len() {
        lemma_binds(sites, ls, i + 1);
    }
}

// ---------------------------------------------------------------------------
// Nesting
// ---------------------------------------------------------------------------

/// Whether directives have no more than `n` levels of blocks inside them.
pub open spec fn nested_within(ds: Seq<DirectiveView>, n: nat) -> bool
    decreases n, 1nat, ds.len(),
{
    forall|i: int| 0 <= i < ds.len() ==> directive_within(#[trigger] ds[i], n)
}

/// Whether a directive has no more than `n` levels of blocks inside it.
pub open spec fn directive_within(d: DirectiveView, n: nat) -> bool
    decreases n, 0nat, 0nat,
{
    match d {
        DirectiveView::Handle { directives, .. } => n > 0 && nested_within(
            directives,
            (n - 1) as nat,
        ),
        DirectiveView::HandlePath { directives, .. } => n > 0 && nested_within(
            directives,
            (n - 1) as nat,
        ),
        _ => true,
    }
}

/// Blocks nest to a bounded depth, whatever the input: the directives that are
/// read inside `depth` blocks have at most as many levels inside them as the limit
/// leaves.
pub proof fn nesting_is_bounded(
    toks: Seq<TokenView>,
    c: Cursor,
    depth: nat,
    done: Seq<DirectiveView>,
)
    requires
        depth <= MAX_BLOCK_DEPTH,
        nested_within(done, (MAX_BLOCK_DEPTH - depth) as nat),
    ensures
        directives_from(toks, c, depth, done) matches Ok((ds, _)) ==> nested_within(
            ds,
            (MAX_BLOCK_DEPTH - depth) as nat,
        ),
    decreases MAX_BLOCK_DEPTH - depth, toks.len() - c.pos, 1nat,
{
    let n = (MAX_BLOCK_DEPTH - depth) as nat;
    if 0 <= c.pos < toks.len() && toks[c.pos].kind != TokenKindView::RBrace && toks[c.pos].kind
        != TokenKindView::LBrace {
        let (words, open, d) = statement(toks, c.pos);
        lemma_statement(toks, c.pos);
        if words.len() == 0 {
            nesting_is_bounded(toks, d, depth, done);
        } else {
            lemma_directive_nesting(toks, d, words, open, depth);
            if let Ok((directive, e)) = directive_at(toks, d, words, open, depth) {
                if c.pos < e.pos <= toks.len() {
                    let next = done.push(directive);
                    assert(nested_within(next, n)) by {
                        assert forall|i: int| 0 <= i < next.len() implies directive_within(
                            #[trigger] next[i],
                            n,
                        ) by {
                            if i < done.len() {
                                assert(next[i] == done[i]);
                            }
                        }
                    }
                    nesting_is_bounded(toks, e, depth, next);
                }
            }
        }
    }
}

/// A directive on one line opens no block of directives.
#[verifier::spinoff_prover]
#[verifier::rlimit(80)]
proof fn lemma_flat(words: Seq<Seq<char>>, block: bool)
    requires
        words.len() > 0,
    ensures
        line_directive(words, block) matches Ok(d) ==> !(d is Handle) && !(d is HandlePath),
{
}

#[verifier::spinoff_prover]
#[verifier::rlimit(80)]
proof fn lemma_proxy_is_flat(
    toks: Seq<TokenView>,
    c: Cursor,
    words: Seq<Seq<char>>,
    block: bool,
)
    ensures
        reverse_proxy(toks, c, words, block) matches Ok((d, _)) ==> !(d is Handle) && !(
        d is HandlePath),
{
}

#[verifier::rlimit(40)]
proof fn lemma_directive_nesting(
    toks: Seq<TokenView>,
    c: Cursor,
    words: Seq<Seq<char>>,
    block: bool,
    depth: nat,
)
    requires
        depth <= MAX_BLOCK_DEPTH,
        words.len() > 0,
    ensures
        directive_at(toks, c, words, block, depth) matches Ok((d, _)) ==> directive_within(
            d,
            (MAX_BLOCK_DEPTH - depth) as nat,
        ),
    decreases MAX_BLOCK_DEPTH - depth, toks.len() - c.pos, 0nat,
{
    if let Ok((d, e)) = directive_at(toks, c, words, block, depth) {
        if words[0] == "reverse_proxy"@ {
            lemma_proxy_is_flat(toks, c, words, block);
        } else if words[0] == "handle"@ || words[0] == "handle_path"@ {
            if depth < MAX_BLOCK_DEPTH {
                assert(nested_within(Seq::empty(), (MAX_BLOCK_DEPTH - (depth + 1)) as nat));
                nesting_is_bounded(toks, c, depth + 1, Seq::empty());
            }
        } else {
            lemma_flat(words, block);
        }
    }
}

// ---------------------------------------------------------------------------
// Names and paths
// ---------------------------------------------------------------------------

/// A path matcher with a trailing wildcard stands for the same prefix as one with
/// a trailing slash.
pub proof fn wildcard_and_slash_are_one(path: Seq<char>)
    ensures
        matcher_prefix(path + "/*"@) == matcher_prefix(path + "/"@),
{
    reveal_strlit("/*");
    reveal_strlit("/");
    let long = path + "/*"@;
    let short = path + "/"@;
    assert(long.drop_last() == short);
    assert(short.last() == '/');
}

/// Whether a text has no ASCII capital letter.
pub open spec fn small(s: Seq<char>) -> bool {
    forall|i: int| 0 <= i < s.len() ==> !('A' <= #[trigger] s[i] <= 'Z')
}

/// A host name in its normal form is short, in small letters, and its own normal
/// form.
pub proof fn host_names_are_normal(host: Seq<char>)
    ensures
        host_name(host) matches Ok(n) ==> 0 < n.len() <= 253 && small(n) && host_name(n) == Ok::<
            Seq<char>,
            Seq<char>,
        >(n),
{
    reveal_strlit("*.");
    if let Ok(n) = host_name(host) {
        let h = match before_char(host, '.') {
            Some(h) => h,
            None => host,
        };
        match after(h, "*."@) {
            Some(suffix) => {
                let m = lowered(suffix);
                lemma_plain(suffix);
                assert(n == "*."@ + m);
                assert(n.skip(2) == m);
                assert("*."@.is_prefix_of(n));
                assert(after(n, "*."@) == Some(m));
                assert(n.last() == m.last());
                assert forall|i: int| 0 <= i < n.len() implies plain_char(#[trigger] n[i]) || n[i]
                    == '*' by {
                    if i >= 2 {
                        assert(n[i] == m[i - 2]);
                    }
                }
                lemma_name_chars(n);
            },
            None => {
                lemma_plain(h);
                assert(n == lowered(h));
                assert(!n.contains('*'));
                assert(n[0] != '*') by {
                    if n[0] == '*' {
                        assert(n.contains('*'));
                    }
                }
                assert(!"*."@.is_prefix_of(n)) by {
                    if "*."@.is_prefix_of(n) {
                        assert(n[0] == "*."@[0]);
                    }
                }
                lemma_name_chars(n);
            },
        }
    }
}

/// Reading the description of a site key gives the key back, and its port can be
/// listened on.
pub proof fn site_keys_read_back(addr: Seq<char>)
    ensures
        site_key(addr) matches Ok(k) ==> site_key(k.text()) == Ok::<SiteKeyView, Seq<char>>(k)
            && k.port() >= 1,
{
    reveal_strlit(":");
    if let Ok(k) = site_key(addr) {
        let dec = decimal(k.port() as nat);
        decimal_reads_back(k.port() as nat, 0xffff);
        lemma_decimal_is_digits(k.port() as nat);
        match k {
            SiteKeyView::CatchAll { .. } => {
                assert(k.text().skip(1) == dec);
            },
            SiteKeyView::Named { host, .. } => {
                if addr.len() > 0 && addr[0] == '[' {
                    lemma_bracketed_key(addr, dec);
                } else {
                    let (name, _) = match rcut(addr, ':') {
                        Some(parts) => parts,
                        None => (addr, addr),
                    };
                    host_names_are_normal(name);
                    lemma_host_chars(name);
                    lemma_named_key(host, dec);
                }
            },
        }
    }
}

proof fn lemma_decimal_is_digits(n: nat)
    ensures
        decimal(n).len() > 0,
        forall|i: int| 0 <= i < decimal(n).len() ==> '0' <= #[trigger] decimal(n)[i] <= '9',
    decreases n,
{
    if n >= 10 {
        lemma_decimal_is_digits(n / 10);
        let s = decimal(n);
        assert(s == decimal(n / 10).push(digit_char(n % 10)));
        assert forall|i: int| 0 <= i < s.len() implies '0' <= #[trigger] s[i] <= '9' by {
            if i < s.len() - 1 {
                assert(s[i] == decimal(n / 10)[i]);
            }
        }
    }
}

proof fn lemma_host_chars(host: Seq<char>)
    ensures
        host_name(host) matches Ok(n) ==> forall|i: int|
            0 <= i < n.len() ==> plain_char(#[trigger] n[i]) || n[i] == '*',
{
    reveal_strlit("*.");
    if let Ok(n) = host_name(host) {
        let h = match before_char(host, '.') {
            Some(h) => h,
            None => host,
        };
        match after(h, "*."@) {
            Some(suffix) => {
                lemma_plain(suffix);
                assert forall|i: int| 0 <= i < n.len() implies plain_char(#[trigger] n[i]) || n[i]
                    == '*' by {
                    if i >= 2 {
                        assert(n[i] == lowered(suffix)[i - 2]);
                    }
                }
            },
            None => {
                lemma_plain(h);
            },
        }
    }
}

/// Where a colon and digits follow a text, they are cut off at the colon.
proof fn lemma_last_colon(host: Seq<char>, dec: Seq<char>)
    requires
        forall|i: int| 0 <= i < dec.len() ==> '0' <= #[trigger] dec[i] <= '9',
    ensures
        rcut(host + ":"@ + dec, ':') == Some((host, dec)),
{
    reveal_strlit(":");
    let s = host + ":"@ + dec;
    lemma_last_index(s, ':');
    let i = last_index(s, ':');
    assert(s[host.len() as int] == ':');
    assert(s.contains(':'));
    if i > host.len() {
        assert(s[i] == dec[i - host.len() - 1]);
    }
    assert(s.take(host.len() as int) == host);
    assert(s.skip(host.len() as int + 1) == dec);
}

proof fn lemma_named_key(name: Seq<char>, dec: Seq<char>)
    requires
        name.len() > 0,
        host_name(name) == Ok::<Seq<char>, Seq<char>>(name),
        forall|i: int| 0 <= i < name.len() ==> plain_char(#[trigger] name[i]) || name[i] == '*',
        forall|i: int| 0 <= i < dec.len() ==> '0' <= #[trigger] dec[i] <= '9',
    ensures
        port_value(dec) matches Ok(port) ==> site_key(name + ":"@ + dec) == Ok::<
            SiteKeyView,
            Seq<char>,
        >(SiteKeyView::Named { host: name, port }),
{
    let s = name + ":"@ + dec;
    assert(s[0] == name[0]);
    lemma_last_colon(name, dec);
}

/// A bracketed address with a port is taken apart at the bracket.
proof fn lemma_bracketed(t: Seq<char>, dec: Seq<char>)
    requires
        !t.contains(']'),
        dec.len() > 0,
        forall|i: int| 0 <= i < dec.len() ==> '0' <= #[trigger] dec[i] <= '9',
    ensures
        ({
            let s = "["@ + t + "]"@ + ":"@ + dec;
            &&& s.len() > 0
            &&& s[0] == '['
            &&& port_value(dec) matches Ok(port) ==> bracketed_site(s) == Ok::<
                (Seq<char>, u16),
                Seq<char>,
            >((t, port))
        }),
{
    reveal_strlit("[");
    reveal_strlit("]");
    reveal_strlit(":");
    let s = "["@ + t + "]"@ + ":"@ + dec;
    let rest = s.skip(1);
    let n = t.len() as int;
    assert(s.last() == dec.last());
    assert(dec[dec.len() - 1] == dec.last());
    assert forall|i: int| 0 <= i < n implies rest[i] != ']' by {
        assert(rest[i] == t[i]);
        assert(t.contains(t[i]));
    }
    assert(rest[n] == ']');
    lemma_first_index(rest, ']');
    assert(first_index(rest, ']') == n);
    assert(rest.take(n) == t);
    let tail = rest.skip(n + 1);
    assert(tail[0] == ':');
    assert(tail.skip(1) == dec);
}

proof fn lemma_bracketed_key(addr: Seq<char>, dec: Seq<char>)
    requires
        addr.len() > 0,
        addr[0] == '[',
        dec.len() > 0,
        forall|i: int| 0 <= i < dec.len() ==> '0' <= #[trigger] dec[i] <= '9',
    ensures
        site_key(addr) matches Ok(k) ==> (k matches SiteKeyView::Named { host, .. } && (port_value(
            dec,
        ) matches Ok(port) ==> site_key(host + ":"@ + dec) == Ok::<SiteKeyView, Seq<char>>(
            SiteKeyView::Named { host, port },
        ))),
{
    if let Ok(k) = site_key(addr) {
        let v = v6_literal((bracketed_site(addr)->Ok_0).0)->0 as u128;
        addresses_read_back(IpAddr::V6(v));
        lemma_v6_brackets(v);
        lemma_bracketed(v6_text(v), dec);
    }
}

/// The characters of a plain host name in its normal form.
spec fn plain_char(c: char) -> bool {
    'a' <= c <= 'z' || '0' <= c <= '9' || c == '-' || c == '.'
}

proof fn lemma_name_chars(n: Seq<char>)
    requires
        forall|i: int| 0 <= i < n.len() ==> plain_char(#[trigger] n[i]) || n[i] == '*',
    ensures
        small(n),
        is_ascii_chars(n),
        !exists|i: int| 0 <= i < n.len() && white(#[trigger] n[i]),
{
    assert forall|i: int| 0 <= i < n.len() implies '\0' <= #[trigger] n[i] <= '\u{7f}' by {
        assert(plain_char(n[i]) || n[i] == '*');
    }
    assert forall|i: int| 0 <= i < n.len() implies !white(#[trigger] n[i]) by {
        assert(plain_char(n[i]) || n[i] == '*');
    }
}

proof fn lemma_plain(host: Seq<char>)
    requires
        plain_host_name(host) is Ok,
    ensures
        host.len() > 0,
        lowered(host).len() == host.len(),
        lowered(host).last() != '.',
        before_char(lowered(host), '.') is None,
        !lowered(host).contains('*'),
        plain_host_name(lowered(host)) == Ok::<Seq<char>, Seq<char>>(lowered(host)),
        forall|i: int| 0 <= i < host.len() ==> plain_char(#[trigger] lowered(host)[i]),
{
    lemma_labels(host);
    let n = lowered(host);
    assert forall|i: int| 0 <= i < n.len() implies n[i] != '*' by {
        assert(plain_char(n[i]));
    }
    assert(lowered(n) == n) by {
        assert forall|i: int| 0 <= i < n.len() implies lower(#[trigger] n[i]) == n[i] by {
            assert(plain_char(n[i]));
        }
        assert(lowered(n) =~= n);
    }
}

proof fn lemma_labels(host: Seq<char>)
    requires
        labels_fault(host) is None,
    ensures
        host.len() > 0,
        lowered(host).last() != '.',
        labels_fault(lowered(host)) is None,
        forall|i: int| 0 <= i < host.len() ==> plain_char(#[trigger] lowered(host)[i]),
    decreases host.len(),
{
    let n = lowered(host);
    lemma_first_index(host, '.');
    lemma_first_index(n, '.');
    lemma_dot(host);
    match cut(host, '.') {
        None => {
            lemma_label(host);
        },
        Some((label, rest)) => {
            let k = first_index(host, '.');
            lemma_label(label);
            lemma_labels(rest);
            assert(n.take(k) == lowered(label));
            assert(n.skip(k + 1) == lowered(rest));
            assert(n.last() == lowered(rest).last());
            assert forall|i: int| 0 <= i < host.len() implies plain_char(#[trigger] n[i]) by {
                if i < k {
                    assert(n[i] == lowered(label)[i]);
                } else if i > k {
                    assert(n[i] == lowered(rest)[i - k - 1]);
                } else {
                    assert(host[k] == '.');
                }
            }
        },
    }
}

proof fn lemma_dot(host: Seq<char>)
    ensures
        first_index(lowered(host), '.') == first_index(host, '.'),
{
    let n = lowered(host);
    lemma_first_index(host, '.');
    lemma_first_index(n, '.');
    let a = first_index(host, '.');
    let b = first_index(n, '.');
    assert forall|i: int| 0 <= i < host.len() implies (lower(#[trigger] host[i]) == '.') == (host[i]
        == '.') by {}
    if a < host.len() {
        assert(n[a] == lower(host[a]));
    }
    if b < n.len() {
        assert(n[b] == lower(host[b]));
    }
}

proof fn lemma_label(label: Seq<char>)
    requires
        label_fault(label) is None,
    ensures
        label_fault(lowered(label)) is None,
        lowered(label).last() != '.',
        label.len() > 0,
        forall|i: int| 0 <= i < label.len() ==> plain_char(#[trigger] lowered(label)[i]),
{
    let n = lowered(label);
    assert forall|i: int| 0 <= i < n.len() implies plain_char(#[trigger] n[i]) && (alphanumeric(
        n[i],
    ) || n[i] == '-') && n[i] != '.' by {
        assert(alphanumeric(label[i]) || label[i] == '-');
        assert(n[i] == lower(label[i]));
    }
    assert(n[0] == lower(label[0]));
    assert(n.last() == lower(label.last()));
}

// ---------------------------------------------------------------------------
// The environment
// ---------------------------------------------------------------------------

/// Whether two tokens stand at one place and are of one kind.
pub open spec fn alike(a: TokenView, b: TokenView) -> bool {
    &&& a.line == b.line
    &&& a.col == b.col
    &&& (a.kind is Word && b.kind is Word) || a.kind == b.kind
}

/// Whether two lists of tokens differ at most in the text of words.
pub open spec fn all_alike(a: Seq<TokenView>, b: Seq<TokenView>) -> bool {
    a.len() == b.len() && forall|i: int|
        0 <= i < a.len() ==> alike(#[trigger] a[i], #[trigger] b[i])
}

/// The environment has no influence on the structure of a file: with any two
/// environments that set its variables the same tokens come out, but for the text
/// of the words that refer to them. A value is never taken apart.
pub proof fn environment_keeps_the_structure(
    one: Seq<(Seq<char>, Seq<char>)>,
    other: Seq<(Seq<char>, Seq<char>)>,
    toks: Seq<TokenView>,
)
    ensures
        env_expanded(one, toks) matches Ok(a) ==> (env_expanded(other, toks) matches Ok(b)
            ==> all_alike(a, b)),
{
    lemma_structure(one, other, toks, 0, Seq::empty(), Seq::empty());
}

proof fn lemma_structure(
    one: Seq<(Seq<char>, Seq<char>)>,
    other: Seq<(Seq<char>, Seq<char>)>,
    toks: Seq<TokenView>,
    i: int,
    a: Seq<TokenView>,
    b: Seq<TokenView>,
)
    requires
        0 <= i <= toks.len(),
        all_alike(a, b),
    ensures
        env_expanded_from(one, toks, i, a) matches Ok(x) ==> (env_expanded_from(
            other,
            toks,
            i,
            b,
        ) matches Ok(y) ==> all_alike(x, y)),
    decreases toks.len() - i,
{
    if i < toks.len() {
        lemma_run_end(toks, i);
        let end = run_end(toks, i);
        let k = first_env_token(toks, i, end);
        if k >= end {
            let run = toks.subrange(i, end);
            let x = a + run;
            let y = b + run;
            assert forall|j: int| 0 <= j < x.len() implies alike(#[trigger] x[j], #[trigger] y[j]) by {
                if j < a.len() {
                    assert(x[j] == a[j] && y[j] == b[j]);
                }
            }
            lemma_structure(one, other, toks, end, x, y);
        } else if let Ok(v) = run_value(one, toks, i, end, Seq::empty()) {
            if let Ok(w) = run_value(other, toks, i, end, Seq::empty()) {
                let x = a.push(
                    TokenView {
                        kind: TokenKindView::Word(v),
                        line: toks[k].line,
                        col: toks[k].col,
                    },
                );
                let y = b.push(
                    TokenView {
                        kind: TokenKindView::Word(w),
                        line: toks[k].line,
                        col: toks[k].col,
                    },
                );
                assert forall|j: int| 0 <= j < x.len() implies alike(
                    #[trigger] x[j],
                    #[trigger] y[j],
                ) by {
                    if j < a.len() {
                        assert(x[j] == a[j] && y[j] == b[j]);
                    }
                }
                lemma_structure(one, other, toks, end, x, y);
            }
        }
    }
}

proof fn lemma_run_end(toks: Seq<TokenView>, i: int)
    requires
        0 <= i < toks.len(),
    ensures
        i < run_end(toks, i) <= toks.len(),
    decreases toks.len() - i,
{
    if i + 1 < toks.len() && adjacent(toks[i], toks[i + 1]) {
        lemma_run_end(toks, i + 1);
    }
}

// ---------------------------------------------------------------------------
// Files
// ---------------------------------------------------------------------------

/// A file that imports no other file means the same under every name.
pub proof fn names_do_not_matter(
    sources: SourcesView,
    file: Seq<char>,
    other: Seq<char>,
    input: Seq<char>,
)
    requires
        sources.imports.len() == 0,
    ensures
        parsed_with(file, input, sources) matches Ok(rf) ==> parsed_with(other, input, sources)
            == Ok::<RaddexfileView, ParseFailureView>(rf),
        sources == no_sources() ==> (parsed(file, input) matches Ok(rf) ==> parsed(other, input)
            == Ok::<RaddexfileView, ConfigErrorView>(rf)),
{
    if let Ok(toks) = env_expanded(sources.env, lexed(input)) {
        let at = Place { file, toks, stack: Seq::empty(), top_level: true, depth: 0 };
        lemma_other_name(sources, at, other, 0, Map::empty(), Seq::empty());
    }
}

proof fn lemma_other_name(
    sources: SourcesView,
    at: Place,
    other: Seq<char>,
    i: int,
    snippets: Map<Seq<char>, Seq<TokenView>>,
    done: Seq<TokenView>,
)
    requires
        sources.imports.len() == 0,
    ensures
        imports_expanded_from(sources, at, i, snippets, done) matches Ok(r)
            ==> imports_expanded_from(
            sources,
            Place { file: other, ..at },
            i,
            snippets,
            done,
        ) == Ok::<(Seq<TokenView>, Map<Seq<char>, Seq<TokenView>>), ExpandErrorView>(r),
    decreases MAX_IMPORT_DEPTH - at.stack.len(), MAX_BLOCK_DEPTH - at.depth, at.toks.len() - i,
{
    let toks = at.toks;
    if 0 <= i < toks.len() {
        match toks[i].kind {
            TokenKindView::Newline | TokenKindView::RBrace => {
                lemma_other_name(sources, at, other, i + 1, snippets, done.push(toks[i]));
            },
            TokenKindView::LBrace => {
                lemma_block_end(toks, i);
                let end = block_end(toks, i);
                if at.depth < MAX_BLOCK_DEPTH {
                    if end == i {
                        lemma_other_name(sources, at, other, i + 1, snippets, done.push(toks[i]));
                    } else {
                        let inner = Place {
                            toks: toks.subrange(i + 1, end),
                            top_level: false,
                            depth: at.depth + 1,
                            ..at
                        };
                        lemma_other_name(sources, inner, other, 0, snippets, Seq::empty());
                        if let Ok((text, known)) = imports_expanded_from(
                            sources,
                            inner,
                            0,
                            snippets,
                            Seq::empty(),
                        ) {
                            lemma_other_name(
                                sources,
                                at,
                                other,
                                end + 1,
                                known,
                                (done.push(toks[i]) + text).push(toks[end]),
                            );
                        }
                    }
                }
            },
            TokenKindView::Word(first) => {
                lemma_words_end(toks, i);
                let j = words_end(toks, i);
                let opens = j < toks.len() && toks[j].kind == TokenKindView::LBrace;
                if at.top_level && opens && j == i + 1 && snippet_name(first) is Some {
                    lemma_block_end(toks, j);
                    lemma_other_name(
                        sources,
                        at,
                        other,
                        block_end(toks, j) + 1,
                        snippets.insert(snippet_name(first)->0, block_content(toks, j)),
                        done,
                    );
                } else if j == i + 2 && first == "import"@ {
                    let target = word_of(toks[i + 1]);
                    if snippets.dom().contains(target) {
                        lemma_other_name(sources, at, other, j, snippets, done + snippets[target]);
                    }
                } else {
                    lemma_other_name(
                        sources,
                        at,
                        other,
                        j,
                        snippets,
                        done + toks.subrange(i, j),
                    );
                }
            },
        }
    }
}

} // verus!
