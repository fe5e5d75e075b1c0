//! Two texts, one after the other.
use crate::config::ast::{
    default_global, DirectiveView, Layer4ListenerView, RaddexfileView, SiteView,
};
use crate::config::cursor::{
    lemma_skip_newlines, lemma_statement, line_from, skip_newlines, statement, Cursor, Fault,
};
use crate::config::expand::{
    adjacent, block_content, block_end, block_end_from, env_expanded, env_expanded_from, env_token,
    expand_env_tokens, first_env_token, imports_expanded, imports_expanded_from, lemma_block_end,
    lemma_words_end, run_end, run_value, snippet_name, word_expanded, word_of,
    words_end, ExpandErrorView, Place, Sources, SourcesView, MAX_BLOCK_DEPTH,
};
use crate::config::lexer::{
    comment_end, lemma_comment_end, lemma_placeholder_end, lemma_word_end, lex, lexed,
    lexed_from, placeholder_end, token, word_end, Token, TokenKind, TokenKindView, TokenView,
};
use crate::config::listeners::{
    no_tcp_options, no_udp_options, tcp_block, tcp_health, tcp_line, udp_block, udp_line,
    TcpOptionsView, UdpOptionsView,
};
use crate::config::parser::{
    directive_at, directives_from, handle_matchers, items_from, parse_with, parsed_with,
    preprocess, raddexfile, top_level,
};
use crate::config::pieces::{
    lemma_env_join, lemma_env_last, lemma_env_moves, lemma_lex_join, whole_lines,
};
use crate::config::proxy::{
    health_block, health_check, health_line, lemma_health_block, no_health_options,
    no_proxy_options, proxy_block, proxy_line, HealthOptions, ProxyOptionsView,
};
use crate::config::splicing::{
    closed_from, lemma_closed_block, lemma_closed_moves, lemma_closed_words, lemma_directive,
    lemma_top_level,
};
use crate::text::{ends_with_char, white};
use vstd::prelude::*;

verus! {

// ---------------------------------------------------------------------------
// What the grammar reads of whole lines
// ---------------------------------------------------------------------------

/// Whether `x` holds the lines `y` from `at` on.
spec fn holds(x: Seq<TokenView>, at: int, y: Seq<TokenView>) -> bool {
    &&& 0 <= at
    &&& at + y.len() <= x.len()
    &&& y.len() > 0
    &&& y.last().kind == TokenKindView::Newline
    &&& forall|k: int| 0 <= k < y.len() ==> (#[trigger] y[k]).kind == x[at + k].kind
}

/// Whether an outcome is kept: a success stays one, and stands at the same token.
spec fn kept<V>(at: int, r: Result<(V, Cursor), Fault>, q: Result<(V, Cursor), Fault>) -> bool {
    r matches Ok((v, c)) ==> (q matches Ok((w, d)) && w == v && d.pos == at + c.pos)
}

proof fn lemma_skip(x: Seq<TokenView>, at: int, y: Seq<TokenView>, k: int)
    requires
        holds(x, at, y),
        0 <= k <= y.len(),
    ensures
        k <= skip_newlines(y, k) <= y.len(),
        skip_newlines(y, k) < y.len() ==> skip_newlines(x, at + k) == at + skip_newlines(y, k),
        skip_newlines(y, k) == y.len() ==> skip_newlines(x, at + k) == skip_newlines(
            x,
            at + y.len(),
        ),
    decreases y.len() - k,
{
    if k < y.len() {
        assert(y[k].kind == x[at + k].kind);
        if y[k].kind == TokenKindView::Newline {
            lemma_skip(x, at, y, k + 1);
        }
    }
}

proof fn lemma_line(
    x: Seq<TokenView>,
    at: int,
    y: Seq<TokenView>,
    k: int,
    done: Seq<Seq<char>>,
)
    requires
        holds(x, at, y),
        0 <= k < y.len(),
    ensures
        line_from(x, at + k, done) == ({
            let (words, open, end) = line_from(y, k, done);
            (words, open, at + end)
        }),
    decreases y.len() - k,
{
    assert(y[k].kind == x[at + k].kind);
    if let TokenKindView::Word(w) = y[k].kind {
        lemma_line(x, at, y, k + 1, done.push(w));
    }
}

/// A statement before the end is read alike.
proof fn lemma_kept_statement(x: Seq<TokenView>, at: int, y: Seq<TokenView>, k: int)
    requires
        holds(x, at, y),
        0 <= k <= y.len(),
    ensures
        skip_newlines(y, k) < y.len() ==> {
            &&& statement(x, at + k).0 == statement(y, k).0
            &&& statement(x, at + k).1 == statement(y, k).1
            &&& statement(x, at + k).2.pos == at + statement(y, k).2.pos
        },
        skip_newlines(y, k) == y.len() ==> statement(y, k).0.len() == 0 && statement(y, k).2.pos
            == y.len(),
{
    lemma_skip(x, at, y, k);
    if skip_newlines(y, k) < y.len() {
        lemma_line(x, at, y, skip_newlines(y, k), Seq::empty());
    }
}

proof fn lemma_kept_health_block(
    x: Seq<TokenView>,
    at: int,
    y: Seq<TokenView>,
    c: Cursor,
    d: Cursor,
    s: HealthOptions,
)
    requires
        holds(x, at, y),
        0 <= c.pos <= y.len(),
        d.pos == at + c.pos,
    ensures
        kept(at, health_block(y, c, s), health_block(x, d, s)),
    decreases y.len() - c.pos,
{
    if c.pos < y.len() {
        assert(y[c.pos].kind == x[d.pos].kind);
        if y[c.pos].kind != TokenKindView::RBrace {
            let (line, nested, e) = statement(y, c.pos);
            let f = statement(x, d.pos).2;
            lemma_statement(y, c.pos);
            lemma_kept_statement(x, at, y, c.pos);
            if skip_newlines(y, c.pos) == y.len() {
                assert(health_block(y, e, s) is Err);
            } else if line.len() == 0 {
                lemma_kept_health_block(x, at, y, e, f, s);
            } else if let Ok(t) = health_line(line, nested, s) {
                lemma_kept_health_block(x, at, y, e, f, t);
            }
        }
    }
}

proof fn lemma_kept_health_check(
    x: Seq<TokenView>,
    at: int,
    y: Seq<TokenView>,
    c: Cursor,
    d: Cursor,
    block: bool,
)
    requires
        holds(x, at, y),
        0 <= c.pos <= y.len(),
        d.pos == at + c.pos,
    ensures
        kept(at, health_check(y, c, block), health_check(x, d, block)),
{
    lemma_kept_health_block(x, at, y, c, d, no_health_options());
}

proof fn lemma_kept_proxy_block(
    x: Seq<TokenView>,
    at: int,
    y: Seq<TokenView>,
    c: Cursor,
    d: Cursor,
    s: ProxyOptionsView,
)
    requires
        holds(x, at, y),
        0 <= c.pos <= y.len(),
        d.pos == at + c.pos,
    ensures
        kept(at, proxy_block(y, c, s), proxy_block(x, d, s)),
    decreases y.len() - c.pos,
{
    if c.pos < y.len() {
        assert(y[c.pos].kind == x[d.pos].kind);
        if y[c.pos].kind != TokenKindView::RBrace {
            let (line, nested, e) = statement(y, c.pos);
            let f = statement(x, d.pos).2;
            lemma_statement(y, c.pos);
            lemma_kept_statement(x, at, y, c.pos);
            if skip_newlines(y, c.pos) == y.len() {
                assert(proxy_block(y, e, s) is Err);
            } else if line.len() == 0 {
                lemma_kept_proxy_block(x, at, y, e, f, s);
            } else if line[0] == "health_check"@ {
                lemma_health_block(y, e, no_health_options());
                lemma_kept_health_check(x, at, y, e, f, nested);
                if s.health_check is None {
                    if let Ok((h, g)) = health_check(y, e, nested) {
                        lemma_kept_proxy_block(
                            x,
                            at,
                            y,
                            g,
                            (health_check(x, f, nested)->Ok_0).1,
                            ProxyOptionsView { health_check: Some(h), ..s },
                        );
                    }
                }
            } else if let Ok(t) = proxy_line(line, nested, s) {
                lemma_kept_proxy_block(x, at, y, e, f, t);
            }
        }
    }
}

proof fn lemma_kept_tcp_block(
    x: Seq<TokenView>,
    at: int,
    y: Seq<TokenView>,
    c: Cursor,
    d: Cursor,
    s: TcpOptionsView,
)
    requires
        holds(x, at, y),
        0 <= c.pos <= y.len(),
        d.pos == at + c.pos,
    ensures
        kept(at, tcp_block(y, c, s), tcp_block(x, d, s)),
    decreases y.len() - c.pos,
{
    if c.pos < y.len() {
        assert(y[c.pos].kind == x[d.pos].kind);
        if y[c.pos].kind != TokenKindView::RBrace {
            let (line, nested, e) = statement(y, c.pos);
            let f = statement(x, d.pos).2;
            lemma_statement(y, c.pos);
            lemma_kept_statement(x, at, y, c.pos);
            if skip_newlines(y, c.pos) == y.len() {
                assert(tcp_block(y, e, s) is Err);
            } else if line.len() == 0 {
                lemma_kept_tcp_block(x, at, y, e, f, s);
            } else if line[0] == "health_check"@ {
                lemma_health_block(y, e, no_health_options());
                lemma_kept_health_check(x, at, y, e, f, nested);
                if s.health_check is None {
                    if let Ok((h, g)) = health_check(y, e, nested) {
                        lemma_kept_tcp_block(
                            x,
                            at,
                            y,
                            g,
                            (health_check(x, f, nested)->Ok_0).1,
                            TcpOptionsView { health_check: Some(tcp_health(h)), ..s },
                        );
                    }
                }
            } else if let Ok(t) = tcp_line(line, nested, s) {
                lemma_kept_tcp_block(x, at, y, e, f, t);
            }
        }
    }
}

proof fn lemma_kept_udp_block(
    x: Seq<TokenView>,
    at: int,
    y: Seq<TokenView>,
    c: Cursor,
    d: Cursor,
    s: UdpOptionsView,
)
    requires
        holds(x, at, y),
        0 <= c.pos <= y.len(),
        d.pos == at + c.pos,
    ensures
        kept(at, udp_block(y, c, s), udp_block(x, d, s)),
    decreases y.len() - c.pos,
{
    if c.pos < y.len() {
        assert(y[c.pos].kind == x[d.pos].kind);
        if y[c.pos].kind != TokenKindView::RBrace {
            let (line, nested, e) = statement(y, c.pos);
            let f = statement(x, d.pos).2;
            lemma_statement(y, c.pos);
            lemma_kept_statement(x, at, y, c.pos);
            if skip_newlines(y, c.pos) == y.len() {
                assert(udp_block(y, e, s) is Err);
            } else if line.len() == 0 {
                lemma_kept_udp_block(x, at, y, e, f, s);
            } else if let Ok(t) = udp_line(line, nested, s) {
                lemma_kept_udp_block(x, at, y, e, f, t);
            }
        }
    }
}

proof fn lemma_kept_directives(
    x: Seq<TokenView>,
    at: int,
    y: Seq<TokenView>,
    c: Cursor,
    d: Cursor,
    depth: nat,
    done: Seq<DirectiveView>,
)
    requires
        holds(x, at, y),
        0 <= c.pos <= y.len(),
        d.pos == at + c.pos,
    ensures
        kept(at, directives_from(y, c, depth, done), directives_from(x, d, depth, done)),
    decreases MAX_BLOCK_DEPTH - depth, y.len() - c.pos, 1nat,
{
    if c.pos < y.len() {
        assert(y[c.pos].kind == x[d.pos].kind);
        if y[c.pos].kind != TokenKindView::RBrace && y[c.pos].kind != TokenKindView::LBrace {
            let (words, open, e) = statement(y, c.pos);
            let f = statement(x, d.pos).2;
            lemma_statement(y, c.pos);
            lemma_statement(x, d.pos);
            lemma_kept_statement(x, at, y, c.pos);
            if skip_newlines(y, c.pos) == y.len() {
                assert(directives_from(y, e, depth, done) is Err);
            } else if words.len() == 0 {
                lemma_kept_directives(x, at, y, e, f, depth, done);
            } else {
                lemma_directive(y, e, words, open, depth);
                lemma_directive(x, f, words, open, depth);
                lemma_kept_directive(x, at, y, e, f, words, open, depth);
                if let Ok((directive, g)) = directive_at(y, e, words, open, depth) {
                    lemma_kept_directives(
                        x,
                        at,
                        y,
                        g,
                        (directive_at(x, f, words, open, depth)->Ok_0).1,
                        depth,
                        done.push(directive),
                    );
                }
            }
        }
    }
}

proof fn lemma_kept_directive(
    x: Seq<TokenView>,
    at: int,
    y: Seq<TokenView>,
    c: Cursor,
    d: Cursor,
    words: Seq<Seq<char>>,
    block: bool,
    depth: nat,
)
    requires
        holds(x, at, y),
        0 <= c.pos <= y.len(),
        d.pos == at + c.pos,
    ensures
        kept(
            at,
            directive_at(y, c, words, block, depth),
            directive_at(x, d, words, block, depth),
        ),
    decreases MAX_BLOCK_DEPTH - depth, y.len() - c.pos, 0nat,
{
    if words[0] == "reverse_proxy"@ {
        lemma_kept_proxy_block(x, at, y, c, d, no_proxy_options());
    } else if words[0] == "handle"@ || words[0] == "handle_path"@ {
        if handle_matchers(words, block) is Ok && depth < MAX_BLOCK_DEPTH {
            lemma_kept_directives(x, at, y, c, d, depth + 1, Seq::empty());
        }
    }
}

proof fn lemma_kept_top_level(
    x: Seq<TokenView>,
    at: int,
    y: Seq<TokenView>,
    c: Cursor,
    d: Cursor,
    words: Seq<Seq<char>>,
    block: bool,
)
    requires
        holds(x, at, y),
        0 <= c.pos <= y.len(),
        d.pos == at + c.pos,
    ensures
        kept(at, top_level(y, c, words, block), top_level(x, d, words, block)),
{
    lemma_kept_tcp_block(x, at, y, c, d, no_tcp_options());
    lemma_kept_udp_block(x, at, y, c, d, no_udp_options());
    lemma_kept_directives(x, at, y, c, d, 1, Seq::empty());
}

/// What one statement adds to the items.
proof fn lemma_item(
    x: Seq<TokenView>,
    d: Cursor,
    p: int,
    sites: Seq<SiteView>,
    layer4: Seq<Layer4ListenerView>,
)
    requires
        0 <= d.pos <= p < x.len(),
        skip_newlines(x, d.pos) == p,
    ensures
        x[p].kind == TokenKindView::RBrace ==> items_from(x, d, sites, layer4) is Err,
        x[p].kind != TokenKindView::RBrace ==> ({
            let (words, open, e) = statement(x, p);
            &&& p < e.pos <= x.len()
            &&& words.len() == 0 ==> items_from(x, d, sites, layer4) == items_from(
                x,
                e,
                sites,
                layer4,
            )
            &&& words.len() > 0 ==> match top_level(x, e, words, open) {
                Err(_) => items_from(x, d, sites, layer4) is Err,
                Ok(((more, listeners), f)) => {
                    &&& e.pos <= f.pos <= x.len()
                    &&& items_from(x, d, sites, layer4) == items_from(
                        x,
                        f,
                        sites + more,
                        layer4 + listeners,
                    )
                },
            }
        }),
{
    if x[p].kind != TokenKindView::RBrace {
        let (words, open, e) = statement(x, p);
        lemma_statement(x, p);
        if words.len() > 0 {
            lemma_top_level(x, e, words, open);
        }
    }
}

/// Items that can be read are read in a longer stream too, up to where they end.
proof fn lemma_kept_items(
    x: Seq<TokenView>,
    at: int,
    y: Seq<TokenView>,
    c: Cursor,
    d: Cursor,
    sites: Seq<SiteView>,
    layer4: Seq<Layer4ListenerView>,
    before: Seq<SiteView>,
    listeners: Seq<Layer4ListenerView>,
) -> (end: Cursor)
    requires
        holds(x, at, y),
        0 <= c.pos <= y.len(),
        0 <= d.pos <= at + c.pos,
        skip_newlines(x, d.pos) == skip_newlines(x, at + c.pos),
        items_from(y, c, sites, layer4) is Ok,
    ensures
        0 <= end.pos <= at + y.len(),
        skip_newlines(x, end.pos) == skip_newlines(x, at + y.len()),
        ({
            let (s, l) = items_from(y, c, sites, layer4)->Ok_0;
            &&& s.len() >= sites.len() && l.len() >= layer4.len()
            &&& items_from(x, d, before, listeners) == items_from(
                x,
                end,
                before + s.skip(sites.len() as int),
                listeners + l.skip(layer4.len() as int),
            )
        }),
    decreases y.len() - c.pos,
{
    lemma_skip(x, at, y, c.pos);
    let p = skip_newlines(y, c.pos);
    if p == y.len() {
        assert(before + sites.skip(sites.len() as int) == before);
        assert(listeners + layer4.skip(layer4.len() as int) == listeners);
        d
    } else {
        assert(y[p].kind == x[at + p].kind);
        let (words, open, e) = statement(y, p);
        let f = statement(x, at + p).2;
        lemma_not_newline(y, c.pos);
        lemma_kept_statement(x, at, y, p);
        lemma_item(y, c, p, sites, layer4);
        lemma_item(x, d, at + p, before, listeners);
        if words.len() == 0 {
            lemma_kept_items(x, at, y, e, f, sites, layer4, before, listeners)
        } else {
            lemma_kept_top_level(x, at, y, e, f, words, open);
            let ((more, also), g) = top_level(y, e, words, open)->Ok_0;
            let h = (top_level(x, f, words, open)->Ok_0).1;
            let end = lemma_kept_items(
                x,
                at,
                y,
                g,
                h,
                sites + more,
                layer4 + also,
                before + more,
                listeners + also,
            );
            lemma_items_grow(y, g, sites + more, layer4 + also);
            let (s, l) = items_from(y, g, sites + more, layer4 + also)->Ok_0;
            lemma_regroup(before, sites, more, s);
            lemma_regroup(listeners, layer4, also, l);
            end
        }
    }
}

proof fn lemma_regroup<V>(before: Seq<V>, a: Seq<V>, more: Seq<V>, all: Seq<V>)
    requires
        (a + more).is_prefix_of(all),
    ensures
        before + more + all.skip((a + more).len() as int) == before + all.skip(a.len() as int),
        all.len() >= a.len(),
{
    let x = before + more + all.skip((a + more).len() as int);
    let y = before + all.skip(a.len() as int);
    assert(x.len() == y.len());
    assert forall|i: int| 0 <= i < x.len() implies x[i] == y[i] by {
        if before.len() <= i < before.len() + more.len() {
            let j = a.len() + (i - before.len());
            assert((a + more)[j] == all[j]);
        }
    }
    assert(x == y);
}

proof fn lemma_not_newline(y: Seq<TokenView>, k: int)
    requires
        0 <= k <= y.len(),
    ensures
        skip_newlines(y, k) < y.len() ==> skip_newlines(y, skip_newlines(y, k)) == skip_newlines(
            y,
            k,
        ),
    decreases y.len() - k,
{
    if k < y.len() && y[k].kind == TokenKindView::Newline {
        lemma_not_newline(y, k + 1);
    }
}

/// Items are added behind those already read.
proof fn lemma_items_grow(
    y: Seq<TokenView>,
    c: Cursor,
    sites: Seq<SiteView>,
    layer4: Seq<Layer4ListenerView>,
)
    requires
        0 <= c.pos <= y.len(),
    ensures
        items_from(y, c, sites, layer4) matches Ok((s, l)) ==> sites.is_prefix_of(s)
            && layer4.is_prefix_of(l),
    decreases y.len() - c.pos,
{
    lemma_skip_newlines(y, c.pos);
    let p = skip_newlines(y, c.pos);
    if p < y.len() && y[p].kind != TokenKindView::RBrace {
        let (words, open, d) = statement(y, p);
        lemma_statement(y, p);
        if words.len() == 0 {
            lemma_items_grow(y, d, sites, layer4);
        } else {
            lemma_top_level(y, d, words, open);
            if let Ok(((more, also), e)) = top_level(y, d, words, open) {
                lemma_items_grow(y, e, sites + more, layer4 + also);
                if let Ok((s, l)) = items_from(y, e, sites + more, layer4 + also) {
                    assert(sites.is_prefix_of(s));
                    assert(layer4.is_prefix_of(l));
                }
            }
        }
    }
}

/// Whether a stream does not start with a block of global settings.
pub open spec fn opens_plainly(toks: Seq<TokenView>) -> bool {
    let p = skip_newlines(toks, 0);
    p >= toks.len() || toks[p].kind != TokenKindView::LBrace
}

/// Without global settings a stream holds items from its start on.
proof fn lemma_plain_start(toks: Seq<TokenView>)
    requires
        opens_plainly(toks),
    ensures
        raddexfile(toks) == (match items_from(
            toks,
            Cursor { pos: 0, stmt: (1, 1) },
            Seq::empty(),
            Seq::empty(),
        ) {
            Err(f) => Err(f),
            Ok((sites, layer4)) => Ok(RaddexfileView { global: default_global(), sites, layer4 }),
        }),
{
    let p = skip_newlines(toks, 0);
    let start = Cursor { pos: 0, stmt: (1, 1) };
    let later = Cursor { pos: p, stmt: (1, 1) };
    let sites = Seq::<SiteView>::empty();
    let layer4 = Seq::<Layer4ListenerView>::empty();
    lemma_skip_newlines(toks, 0);
    lemma_not_newline(toks, 0);
    if p < toks.len() {
        lemma_item(toks, start, p, sites, layer4);
        lemma_item(toks, later, p, sites, layer4);
        assert(items_from(toks, start, sites, layer4) == items_from(toks, later, sites, layer4));
    } else {
        assert(skip_newlines(toks, p) == p);
    }
}

/// Two streams that can be read can be read one after the other.
proof fn lemma_raddexfile(x: Seq<TokenView>, a: Seq<TokenView>, b: Seq<TokenView>)
    requires
        holds(x, 0, a),
        holds(x, a.len() as int, b),
        x.len() == a.len() + b.len(),
        opens_plainly(a),
        opens_plainly(b),
        raddexfile(a) is Ok,
        raddexfile(b) is Ok,
    ensures
        opens_plainly(x),
        raddexfile(a)->Ok_0.global == default_global(),
        raddexfile(b)->Ok_0.global == default_global(),
        raddexfile(x) == Ok::<RaddexfileView, Fault>(
            RaddexfileView {
                global: default_global(),
                sites: raddexfile(a)->Ok_0.sites + raddexfile(b)->Ok_0.sites,
                layer4: raddexfile(a)->Ok_0.layer4 + raddexfile(b)->Ok_0.layer4,
            },
        ),
{
    let n = a.len() as int;
    let start = Cursor { pos: 0, stmt: (1, 1) };
    let none = Seq::<SiteView>::empty();
    let no = Seq::<Layer4ListenerView>::empty();
    lemma_plain_start(a);
    lemma_plain_start(b);
    let (s, l) = items_from(a, start, none, no)->Ok_0;
    let e = lemma_kept_items(x, 0, a, start, start, none, no, none, no);
    assert(none + s.skip(0) == s);
    assert(no + l.skip(0) == l);
    let (t, m) = items_from(b, start, none, no)->Ok_0;
    let f = lemma_kept_items(x, n, b, start, e, none, no, s, l);
    assert(t.skip(0) == t);
    assert(m.skip(0) == m);
    assert(skip_newlines(x, x.len() as int) == x.len());
    assert(items_from(x, f, s + t, l + m) == Ok::<_, Fault>((s + t, l + m)));
    assert(opens_plainly(x)) by {
        lemma_skip(x, 0, a, 0);
        lemma_skip(x, n, b, 0);
        let p = skip_newlines(a, 0);
        let q = skip_newlines(b, 0);
        if p < a.len() {
            assert(a[p].kind == x[0 + p].kind);
        } else if q < b.len() {
            assert(b[q].kind == x[n + q].kind);
        }
    }
    lemma_plain_start(x);
}

// ---------------------------------------------------------------------------
// Where a text starts
// ---------------------------------------------------------------------------

/// Whether two streams have the same kinds of tokens.
spec fn same_kinds(a: Seq<TokenView>, b: Seq<TokenView>) -> bool {
    &&& a.len() == b.len()
    &&& forall|k: int| 0 <= k < a.len() ==> (#[trigger] a[k]).kind == b[k].kind
}

/// Whether two streams are the same, but for the lines.
spec fn twins(p: Seq<TokenView>, q: Seq<TokenView>) -> bool {
    &&& p.len() == q.len()
    &&& forall|k: int|
        0 <= k < p.len() ==> (#[trigger] p[k]).kind == q[k].kind && p[k].col == q[k].col
}

/// Whether a word and the token behind it stand on one line.
spec fn on_lines(p: Seq<TokenView>) -> bool {
    forall|k: int|
        0 <= k && k + 1 < p.len() && (#[trigger] p[k]).kind is Word ==> p[k].line == p[k + 1].line
}

proof fn lemma_first_token(
    kind: TokenKindView,
    line: int,
    col: int,
    p: Seq<TokenView>,
)
    requires
        on_lines(p),
        kind is Word && p.len() > 0 ==> p[0].line == line as u32,
    ensures
        on_lines(seq![token(kind, line, col)] + p),
{
    let u = seq![token(kind, line, col)] + p;
    assert forall|k: int| 0 <= k && k + 1 < u.len() && (#[trigger] u[k]).kind is Word implies
        u[k].line == u[k + 1].line by {
        if k > 0 {
            assert(u[k] == p[k - 1]);
            assert(u[k + 1] == p[k]);
        } else {
            assert(u[1] == p[0]);
        }
    }
}

proof fn lemma_lex_lines(s: Seq<char>, i: int, line: int, other: int, col: int)
    requires
        0 <= i <= s.len(),
    ensures
        twins(lexed_from(s, i, line, col), lexed_from(s, i, other, col)),
        on_lines(lexed_from(s, i, line, col)),
        on_lines(lexed_from(s, i, other, col)),
        lexed_from(s, i, line, col).len() > 0 ==> lexed_from(s, i, line, col)[0].line
            == line as u32,
        lexed_from(s, i, other, col).len() > 0 ==> lexed_from(s, i, other, col)[0].line
            == other as u32,
    decreases s.len() - i,
{
    if i < s.len() {
        if s[i] == '\n' {
            lemma_lex_lines(s, i + 1, line + 1, other + 1, 1);
            lemma_first_token(
                TokenKindView::Newline,
                line,
                col,
                lexed_from(s, i + 1, line + 1, 1),
            );
            lemma_first_token(
                TokenKindView::Newline,
                other,
                col,
                lexed_from(s, i + 1, other + 1, 1),
            );
        } else if white(s[i]) {
            lemma_lex_lines(s, i + 1, line, other, col + 1);
        } else if s[i] == '{' {
            lemma_placeholder_end(s, i + 1);
            let e = placeholder_end(s, i + 1);
            if e >= 0 {
                let c = col + (e + 1 - i);
                let kind = TokenKindView::Word(s.subrange(i, e + 1));
                lemma_lex_lines(s, e + 1, line, other, c);
                lemma_first_token(kind, line, col, lexed_from(s, e + 1, line, c));
                lemma_first_token(kind, other, col, lexed_from(s, e + 1, other, c));
            } else {
                let kind = TokenKindView::LBrace;
                lemma_lex_lines(s, i + 1, line, other, col + 1);
                lemma_first_token(kind, line, col, lexed_from(s, i + 1, line, col + 1));
                lemma_first_token(kind, other, col, lexed_from(s, i + 1, other, col + 1));
            }
        } else if s[i] == '}' {
            let kind = TokenKindView::RBrace;
            lemma_lex_lines(s, i + 1, line, other, col + 1);
            lemma_first_token(kind, line, col, lexed_from(s, i + 1, line, col + 1));
            lemma_first_token(kind, other, col, lexed_from(s, i + 1, other, col + 1));
        } else if s[i] == '#' {
            lemma_comment_end(s, i);
            let e = comment_end(s, i);
            lemma_lex_lines(s, e, line, other, col + (e - i));
        } else {
            lemma_word_end(s, i);
            let e = word_end(s, i);
            let c = col + (e - i);
            let kind = TokenKindView::Word(s.subrange(i, e));
            lemma_lex_lines(s, e, line, other, c);
            lemma_first_token(kind, line, col, lexed_from(s, e, line, c));
            lemma_first_token(kind, other, col, lexed_from(s, e, other, c));
        }
    }
}

proof fn lemma_same_run(p: Seq<TokenView>, q: Seq<TokenView>, i: int)
    requires
        twins(p, q),
        on_lines(p),
        on_lines(q),
        0 <= i < p.len(),
    ensures
        run_end(p, i) == run_end(q, i),
        i < run_end(p, i) <= p.len(),
    decreases p.len() - i,
{
    assert(p[i].kind == q[i].kind);
    if i + 1 < p.len() {
        assert(p[i + 1].kind == q[i + 1].kind);
        if adjacent(p[i], p[i + 1]) {
            lemma_same_run(p, q, i + 1);
        }
    }
}

proof fn lemma_same_env_token(p: Seq<TokenView>, q: Seq<TokenView>, i: int, end: int)
    requires
        twins(p, q),
        0 <= i <= end <= p.len(),
    ensures
        first_env_token(p, i, end) == first_env_token(q, i, end),
        i <= first_env_token(p, i, end) <= end,
    decreases end - i,
{
    if i < end {
        assert(p[i].kind == q[i].kind);
        lemma_same_env_token(p, q, i + 1, end);
    }
}

proof fn lemma_same_run_value(
    env: Seq<(Seq<char>, Seq<char>)>,
    p: Seq<TokenView>,
    q: Seq<TokenView>,
    i: int,
    end: int,
    done: Seq<char>,
)
    requires
        twins(p, q),
        0 <= i <= end <= p.len(),
    ensures
        run_value(env, p, i, end, done) == run_value(env, q, i, end, done),
    decreases end - i,
{
    if i < end {
        assert(p[i].kind == q[i].kind);
        if env_token(p[i]) {
            if let Ok(v) = word_expanded(env, word_of(p[i]), 0, Seq::empty()) {
                lemma_same_run_value(env, p, q, i + 1, end, done + v);
            }
        } else {
            lemma_same_run_value(env, p, q, i + 1, end, done + word_of(p[i]));
        }
    }
}

/// The environment changes twins alike.
proof fn lemma_same_env(
    env: Seq<(Seq<char>, Seq<char>)>,
    p: Seq<TokenView>,
    q: Seq<TokenView>,
    i: int,
    done: Seq<TokenView>,
    other: Seq<TokenView>,
)
    requires
        twins(p, q),
        on_lines(p),
        on_lines(q),
        0 <= i <= p.len(),
        same_kinds(done, other),
    ensures
        match (env_expanded_from(env, p, i, done), env_expanded_from(env, q, i, other)) {
            (Ok(a), Ok(b)) => same_kinds(a, b),
            (Err(_), Err(_)) => true,
            _ => false,
        },
    decreases p.len() - i,
{
    if i < p.len() {
        lemma_same_run(p, q, i);
        let end = run_end(p, i);
        lemma_same_env_token(p, q, i, end);
        let k = first_env_token(p, i, end);
        if k >= end {
            let a = done + p.subrange(i, end);
            let b = other + q.subrange(i, end);
            assert forall|j: int| 0 <= j < a.len() implies (#[trigger] a[j]).kind == b[j].kind by {
                if j >= done.len() {
                    let m = i + (j - done.len());
                    assert(p[m].kind == q[m].kind);
                } else {
                    assert(done[j].kind == other[j].kind);
                }
            }
            lemma_same_env(env, p, q, end, a, b);
        } else {
            lemma_same_run_value(env, p, q, i, end, Seq::empty());
            if let Ok(v) = run_value(env, p, i, end, Seq::empty()) {
                let kind = TokenKindView::Word(v);
                let a = done.push(TokenView { kind, line: p[k].line, col: p[k].col });
                let b = other.push(TokenView { kind, line: q[k].line, col: q[k].col });
                assert forall|j: int| 0 <= j < a.len() implies (#[trigger] a[j]).kind
                    == b[j].kind by {
                    if j < done.len() {
                        assert(done[j].kind == other[j].kind);
                    }
                }
                lemma_same_env(env, p, q, end, a, b);
            }
        }
    }
}

// ---------------------------------------------------------------------------
// Imports, in the first of two texts
// ---------------------------------------------------------------------------

proof fn lemma_block_stays(a: Seq<TokenView>, b: Seq<TokenView>, i: int, depth: int, open: int)
    requires
        0 <= i <= a.len(),
        open < block_end_from(a, i, depth, open) < a.len(),
    ensures
        block_end_from(a + b, i, depth, open) == block_end_from(a, i, depth, open),
    decreases a.len() - i,
{
    if i < a.len() {
        assert((a + b)[i] == a[i]);
        if a[i].kind == TokenKindView::LBrace {
            lemma_block_stays(a, b, i + 1, depth + 1, open);
        } else if a[i].kind == TokenKindView::RBrace {
            if depth > 1 {
                lemma_block_stays(a, b, i + 1, depth - 1, open);
            }
        } else {
            lemma_block_stays(a, b, i + 1, depth, open);
        }
    }
}

proof fn lemma_words_stay(a: Seq<TokenView>, b: Seq<TokenView>, i: int)
    requires
        0 <= i < a.len(),
        a.last().kind == TokenKindView::Newline,
    ensures
        words_end(a + b, i) == words_end(a, i),
        words_end(a, i) < a.len(),
    decreases a.len() - i,
{
    assert((a + b)[i] == a[i]);
    if a[i].kind is Word {
        lemma_words_stay(a, b, i + 1);
    }
}

/// What follows whole lines is expanded after them.
proof fn lemma_expand_stays(
    src: SourcesView,
    at: Place,
    b: Seq<TokenView>,
    i: int,
    snippets: Map<Seq<char>, Seq<TokenView>>,
    done: Seq<TokenView>,
    room: nat,
)
    requires
        src.imports.len() == 0,
        0 <= i <= at.toks.len(),
        whole_lines(at.toks),
        room > 0,
        closed_from(at.toks, i, 0, room),
    ensures
        imports_expanded_from(src, at, i, snippets, done) matches Ok((out, known)) ==> {
            let all = Place { toks: at.toks + b, ..at };
            &&& imports_expanded_from(src, all, i, snippets, done)
                == imports_expanded_from(src, all, at.toks.len() as int, known, out)
            &&& i < at.toks.len() ==> out.len() > 0 && out.last().kind == TokenKindView::Newline
        },
    decreases at.toks.len() - i,
{
    let a = at.toks;
    if i < a.len() {
        let all = Place { toks: a + b, ..at };
        assert(all.toks[i] == a[i]);
        if a[i].kind == TokenKindView::Newline {
            lemma_expand_stays(src, at, b, i + 1, snippets, done.push(a[i]), room);
            if i + 1 == a.len() {
                assert(imports_expanded_from(src, at, i + 1, snippets, done.push(a[i]))
                    == Ok::<(Seq<TokenView>, Map<Seq<char>, Seq<TokenView>>), ExpandErrorView>(
                    (done.push(a[i]), snippets),
                ));
            }
        } else if a[i].kind == TokenKindView::LBrace {
            lemma_closed_block(a, i, i + 1, 1, room);
            let end = block_end(a, i);
            lemma_block_stays(a, b, i, 0, i);
            assert(all.toks[end] == a[end]);
            let inner = a.subrange(i + 1, end);
            assert(all.toks.subrange(i + 1, end) == inner);
            assert(end + 1 < a.len());
            if at.depth < MAX_BLOCK_DEPTH {
                let place = Place { toks: inner, top_level: false, depth: at.depth + 1, ..at };
                if let Ok((more, known)) = imports_expanded_from(
                    src,
                    place,
                    0,
                    snippets,
                    Seq::empty(),
                ) {
                    lemma_expand_stays(
                        src,
                        at,
                        b,
                        end + 1,
                        known,
                        (done.push(a[i]) + more).push(a[end]),
                        room,
                    );
                }
            }
        } else {
            lemma_words_end(a, i);
            lemma_words_stay(a, b, i);
            lemma_closed_words(a, i, 0, room);
            let j = words_end(a, i);
            let first = word_of(a[i]);
            assert(all.toks[j] == a[j]);
            let opens = a[j].kind == TokenKindView::LBrace;
            if at.top_level && opens && j == i + 1 && snippet_name(first) is Some {
                lemma_closed_block(a, j, j + 1, 1, room);
                lemma_block_stays(a, b, j, 0, j);
                let end = block_end(a, j);
                assert(end + 1 < a.len());
                assert(all.toks.subrange(j + 1, end) == a.subrange(j + 1, end));
                lemma_expand_stays(
                    src,
                    at,
                    b,
                    end + 1,
                    snippets.insert(snippet_name(first)->0, block_content(a, j)),
                    done,
                    room,
                );
            } else if j == i + 2 && first == "import"@ {
                assert(all.toks[i + 1] == a[i + 1]);
                let target = word_of(a[i + 1]);
                if snippets.dom().contains(target) {
                    lemma_expand_stays(src, at, b, j, snippets, done + snippets[target], room);
                }
            } else {
                assert(all.toks.subrange(i, j) == a.subrange(i, j));
                lemma_expand_stays(src, at, b, j, snippets, done + a.subrange(i, j), room);
            }
        }
    }
}

// ---------------------------------------------------------------------------
// Imports, in the second
// ---------------------------------------------------------------------------

/// Whether `x` ends with tokens of the kinds of `y`, from `at` on.
spec fn ends_with(x: Seq<TokenView>, at: int, y: Seq<TokenView>) -> bool {
    &&& 0 <= at
    &&& x.len() == at + y.len()
    &&& forall|k: int| 0 <= k < y.len() ==> (#[trigger] y[k]).kind == x[at + k].kind
}

/// Whether `s` holds the snippets of `t`, and perhaps more.
spec fn knows(
    s: Map<Seq<char>, Seq<TokenView>>,
    t: Map<Seq<char>, Seq<TokenView>>,
) -> bool {
    forall|n: Seq<char>| #[trigger]
        t.dom().contains(n) ==> s.dom().contains(n) && same_kinds(s[n], t[n])
}

proof fn lemma_block_moves(
    x: Seq<TokenView>,
    at: int,
    y: Seq<TokenView>,
    i: int,
    depth: int,
    open: int,
)
    requires
        ends_with(x, at, y),
        0 <= i <= y.len(),
    ensures
        block_end_from(x, at + i, depth, at + open) == at + block_end_from(y, i, depth, open),
    decreases y.len() - i,
{
    if i < y.len() {
        assert(y[i].kind == x[at + i].kind);
        if y[i].kind == TokenKindView::LBrace {
            lemma_block_moves(x, at, y, i + 1, depth + 1, open);
        } else if y[i].kind == TokenKindView::RBrace {
            if depth > 1 {
                lemma_block_moves(x, at, y, i + 1, depth - 1, open);
            }
        } else {
            lemma_block_moves(x, at, y, i + 1, depth, open);
        }
    }
}

proof fn lemma_words_move(x: Seq<TokenView>, at: int, y: Seq<TokenView>, i: int)
    requires
        ends_with(x, at, y),
        0 <= i <= y.len(),
    ensures
        words_end(x, at + i) == at + words_end(y, i),
    decreases y.len() - i,
{
    if i < y.len() {
        assert(y[i].kind == x[at + i].kind);
        if y[i].kind is Word {
            lemma_words_move(x, at, y, i + 1);
        }
    }
}

proof fn lemma_part(x: Seq<TokenView>, at: int, y: Seq<TokenView>, i: int, j: int)
    requires
        ends_with(x, at, y),
        0 <= i <= j <= y.len(),
    ensures
        same_kinds(x.subrange(at + i, at + j), y.subrange(i, j)),
{
    let a = x.subrange(at + i, at + j);
    let b = y.subrange(i, j);
    assert forall|k: int| 0 <= k < a.len() implies (#[trigger] a[k]).kind == b[k].kind by {
        assert(y[i + k].kind == x[at + (i + k)].kind);
    }
}

proof fn lemma_longer(
    x: Seq<TokenView>,
    at: int,
    y: Seq<TokenView>,
    a: Seq<TokenView>,
    b: Seq<TokenView>,
)
    requires
        ends_with(x, at, y),
        same_kinds(a, b),
    ensures
        ends_with(x + a, at, y + b),
{
    let u = x + a;
    let v = y + b;
    assert forall|k: int| 0 <= k < v.len() implies (#[trigger] v[k]).kind == u[at + k].kind by {
        if k < y.len() {
            assert(y[k].kind == x[at + k].kind);
        } else {
            assert(a[k - y.len()].kind == b[k - y.len()].kind);
        }
    }
}

/// Known snippets more, and other places, do not change how a text is expanded.
proof fn lemma_expand_moves(
    src: SourcesView,
    p: Place,
    q: Place,
    at: int,
    i: int,
    s: Map<Seq<char>, Seq<TokenView>>,
    t: Map<Seq<char>, Seq<TokenView>>,
    front: int,
    done: Seq<TokenView>,
    more: Seq<TokenView>,
)
    requires
        src.imports.len() == 0,
        ends_with(p.toks, at, q.toks),
        p.top_level == q.top_level,
        p.depth == q.depth,
        0 <= i <= q.toks.len(),
        knows(s, t),
        ends_with(done, front, more),
    ensures
        imports_expanded_from(src, q, i, t, more) matches Ok((b, u)) ==> (
        imports_expanded_from(src, p, at + i, s, done) matches Ok((a, v)) && knows(v, u)
            && ends_with(a, front, b) && a.take(front) == done.take(front)),
    decreases MAX_BLOCK_DEPTH - q.depth, q.toks.len() - i, 1nat,
{
    let x = p.toks;
    let y = q.toks;
    if i < y.len() {
        assert(y[i].kind == x[at + i].kind);
        lemma_part(x, at, y, i, i + 1);
        if y[i].kind == TokenKindView::Newline || y[i].kind == TokenKindView::RBrace {
            lemma_longer(done, front, more, seq![x[at + i]], seq![y[i]]);
            assert(done.push(x[at + i]) == done + seq![x[at + i]]);
            assert(more.push(y[i]) == more + seq![y[i]]);
            assert(done.push(x[at + i]).take(front) == done.take(front));
            lemma_expand_moves(
                src,
                p,
                q,
                at,
                i + 1,
                s,
                t,
                front,
                done.push(x[at + i]),
                more.push(y[i]),
            );
        } else if y[i].kind == TokenKindView::LBrace {
            lemma_block_moves(x, at, y, i, 0, i);
            lemma_block_end(y, i);
            let end = block_end(y, i);
            if q.depth < MAX_BLOCK_DEPTH {
                if end == i {
                    lemma_longer(done, front, more, seq![x[at + i]], seq![y[i]]);
                    assert(done.push(x[at + i]) == done + seq![x[at + i]]);
                    assert(more.push(y[i]) == more + seq![y[i]]);
                    assert(done.push(x[at + i]).take(front) == done.take(front));
                    lemma_expand_moves(
                        src,
                        p,
                        q,
                        at,
                        i + 1,
                        s,
                        t,
                        front,
                        done.push(x[at + i]),
                        more.push(y[i]),
                    );
                } else {
                    lemma_expand_block(src, p, q, at, i, end, s, t, front, done, more);
                }
            }
        } else {
            lemma_words_move(x, at, y, i);
            lemma_words_end(y, i);
            let j = words_end(y, i);
            let first = word_of(y[i]);
            let opens = j < y.len() && y[j].kind == TokenKindView::LBrace;
            if j < y.len() {
                assert(y[j].kind == x[at + j].kind);
            }
            if q.top_level && opens && j == i + 1 && snippet_name(first) is Some {
                lemma_block_moves(x, at, y, j, 0, j);
                lemma_block_end(y, j);
                let end = block_end(y, j);
                let name = snippet_name(first)->0;
                if end != j {
                    lemma_part(x, at, y, j + 1, end);
                }
                let a = block_content(x, at + j);
                let b = block_content(y, j);
                assert(same_kinds(a, b));
                assert(knows(s.insert(name, a), t.insert(name, b)));
                lemma_expand_moves(
                    src,
                    p,
                    q,
                    at,
                    end + 1,
                    s.insert(name, a),
                    t.insert(name, b),
                    front,
                    done,
                    more,
                );
            } else if j == i + 2 && first == "import"@ {
                assert(y[i + 1].kind == x[at + (i + 1)].kind);
                let target = word_of(y[i + 1]);
                if t.dom().contains(target) {
                    lemma_longer(done, front, more, s[target], t[target]);
                    assert((done + s[target]).take(front) == done.take(front));
                    lemma_expand_moves(
                        src,
                        p,
                        q,
                        at,
                        j,
                        s,
                        t,
                        front,
                        done + s[target],
                        more + t[target],
                    );
                }
            } else {
                lemma_part(x, at, y, i, j);
                let a = x.subrange(at + i, at + j);
                let b = y.subrange(i, j);
                lemma_longer(done, front, more, a, b);
                assert((done + a).take(front) == done.take(front));
                lemma_expand_moves(src, p, q, at, j, s, t, front, done + a, more + b);
            }
        }
    }
}

proof fn lemma_expand_block(
    src: SourcesView,
    p: Place,
    q: Place,
    at: int,
    i: int,
    end: int,
    s: Map<Seq<char>, Seq<TokenView>>,
    t: Map<Seq<char>, Seq<TokenView>>,
    front: int,
    done: Seq<TokenView>,
    more: Seq<TokenView>,
)
    requires
        src.imports.len() == 0,
        ends_with(p.toks, at, q.toks),
        p.top_level == q.top_level,
        p.depth == q.depth,
        q.depth < MAX_BLOCK_DEPTH,
        0 <= i < end < q.toks.len(),
        q.toks[i].kind == TokenKindView::LBrace,
        block_end(q.toks, i) == end,
        block_end(p.toks, at + i) == at + end,
        knows(s, t),
        ends_with(done, front, more),
    ensures
        imports_expanded_from(src, q, i, t, more) matches Ok((b, u)) ==> (
        imports_expanded_from(src, p, at + i, s, done) matches Ok((a, v)) && knows(v, u)
            && ends_with(a, front, b) && a.take(front) == done.take(front)),
    decreases MAX_BLOCK_DEPTH - q.depth, q.toks.len() - i, 0nat,
{
    let x = p.toks;
    let y = q.toks;
    let none = Seq::<TokenView>::empty();
    assert(y[i].kind == x[at + i].kind);
    assert(y[end].kind == x[at + end].kind);
    lemma_part(x, at, y, i + 1, end);
    let pi = Place {
        toks: x.subrange(at + i + 1, at + end),
        top_level: false,
        depth: p.depth + 1,
        ..p
    };
    let qi = Place { toks: y.subrange(i + 1, end), top_level: false, depth: q.depth + 1, ..q };
    lemma_expand_moves(src, pi, qi, 0, 0, s, t, 0, none, none);
    if let Ok((b, u)) = imports_expanded_from(src, qi, 0, t, none) {
        let (a, v) = imports_expanded_from(src, pi, 0, s, none)->Ok_0;
        let c = seq![x[at + i]] + a + seq![x[at + end]];
        let d = seq![y[i]] + b + seq![y[end]];
        assert forall|k: int| 0 <= k < c.len() implies (#[trigger] c[k]).kind == d[k].kind by {
            if 0 < k && k <= b.len() {
                assert(b[k - 1].kind == a[0 + (k - 1)].kind);
            }
        }
        lemma_longer(done, front, more, c, d);
        assert((done.push(x[at + i]) + a).push(x[at + end]) == done + c);
        assert((more.push(y[i]) + b).push(y[end]) == more + d);
        assert((done + c).take(front) == done.take(front));
        lemma_expand_moves(src, p, q, at, end + 1, v, u, front, done + c, more + d);
    }
}

// ---------------------------------------------------------------------------
// Texts
// ---------------------------------------------------------------------------

/// Whether a text is a configuration that can stand beside others: it consists of
/// whole lines, closes the blocks that it opens, parses, and does not start with a
/// block of global settings.
pub open spec fn stands_alone(src: SourcesView, file: Seq<char>, text: Seq<char>) -> bool {
    &&& text.len() > 0
    &&& text.last() == '\n'
    &&& env_expanded(src.env, lexed(text)) matches Ok(toks)
    &&& closed_from(toks, 0, 0, MAX_BLOCK_DEPTH as nat)
    &&& imports_expanded(src, file, toks) matches Ok(all)
    &&& opens_plainly(all)
    &&& raddexfile(all) is Ok
}

/// A text that stands alone parses.
pub proof fn lemma_parses(src: SourcesView, file: Seq<char>, text: Seq<char>)
    requires
        stands_alone(src, file, text),
    ensures
        parsed_with(file, text, src) is Ok,
{
}

/// Configurations that stand alone can be written one after the other, when no
/// other file is imported: the sites and the listeners of both are there, in their
/// order, and what was written stands alone again.
pub proof fn files_can_be_joined(
    src: SourcesView,
    file: Seq<char>,
    a: Seq<char>,
    b: Seq<char>,
)
    requires
        src.imports.len() == 0,
        stands_alone(src, file, a),
        stands_alone(src, file, b),
    ensures
        stands_alone(src, file, a + b),
        match (
            parsed_with(file, a, src),
            parsed_with(file, b, src),
            parsed_with(file, a + b, src),
        ) {
            (Ok(x), Ok(y), Ok(z)) => {
                &&& z.global == default_global()
                &&& z.sites == x.sites + y.sites
                &&& z.layer4 == x.layer4 + y.layer4
            },
            _ => false,
        },
{
    let ea = env_expanded(src.env, lexed(a))->Ok_0;
    let eb = env_expanded(src.env, lexed(b))->Ok_0;
    let more = lemma_tokens(src.env, a, b);
    let ta = imports_expanded(src, file, ea)->Ok_0;
    let tb = imports_expanded(src, file, eb)->Ok_0;
    lemma_expand(src, file, ea, eb, more);
    let t = imports_expanded(src, file, ea + more)->Ok_0;
    lemma_raddexfile(t, ta, tb);
    lemma_closed(ea, eb, more);
    assert((a + b).last() == b.last());
}

proof fn lemma_tokens(
    env: Seq<(Seq<char>, Seq<char>)>,
    a: Seq<char>,
    b: Seq<char>,
) -> (more: Seq<TokenView>)
    requires
        a.len() > 0,
        a.last() == '\n',
        b.len() > 0,
        b.last() == '\n',
        env_expanded(env, lexed(a)) is Ok,
        env_expanded(env, lexed(b)) is Ok,
    ensures
        env_expanded(env, lexed(a + b)) == Ok::<Seq<TokenView>, Seq<char>>(
            env_expanded(env, lexed(a))->Ok_0 + more,
        ),
        same_kinds(more, env_expanded(env, lexed(b))->Ok_0),
        whole_lines(env_expanded(env, lexed(a))->Ok_0),
        whole_lines(env_expanded(env, lexed(b))->Ok_0),
        env_expanded(env, lexed(a))->Ok_0.len() > 0,
        env_expanded(env, lexed(b))->Ok_0.len() > 0,
{
    let none = Seq::<TokenView>::empty();
    let next = lemma_lex_join(a, b, 0, 1, 1);
    let _ = lemma_lex_join(b, Seq::empty(), 0, 1, 1);
    let la = lexed(a);
    let lb = lexed(b);
    let there = lexed_from(b, 0, next, 1);
    lemma_env_last(env, la, 0, none);
    lemma_env_last(env, lb, 0, none);
    lemma_lex_lines(b, 0, next, 1, 1);
    lemma_same_env(env, there, lb, 0, none, none);
    let ea = env_expanded(env, lexed(a))->Ok_0;
    lemma_env_join(env, la, there, 0, none);
    assert(ea + none == ea);
    lemma_env_moves(env, la, there, 0, none, ea);
    env_expanded(env, there)->Ok_0
}

proof fn lemma_expand(
    src: SourcesView,
    file: Seq<char>,
    ea: Seq<TokenView>,
    eb: Seq<TokenView>,
    more: Seq<TokenView>,
)
    requires
        src.imports.len() == 0,
        ea.len() > 0,
        eb.len() > 0,
        whole_lines(ea),
        whole_lines(eb),
        same_kinds(more, eb),
        closed_from(ea, 0, 0, MAX_BLOCK_DEPTH as nat),
        closed_from(eb, 0, 0, MAX_BLOCK_DEPTH as nat),
        imports_expanded(src, file, ea) is Ok,
        imports_expanded(src, file, eb) is Ok,
    ensures
        imports_expanded(src, file, ea + more) matches Ok(t) && {
            let ta = imports_expanded(src, file, ea)->Ok_0;
            let tb = imports_expanded(src, file, eb)->Ok_0;
            &&& t.len() == ta.len() + tb.len()
            &&& holds(t, 0, ta)
            &&& holds(t, ta.len() as int, tb)
        },
{
    let none = Map::<Seq<char>, Seq<TokenView>>::empty();
    let empty = Seq::<TokenView>::empty();
    let pa = Place { file, toks: ea, stack: Seq::empty(), top_level: true, depth: 0 };
    let pb = Place { file, toks: eb, stack: Seq::empty(), top_level: true, depth: 0 };
    let p = Place { toks: ea + more, ..pa };
    let room = MAX_BLOCK_DEPTH as nat;
    lemma_expand_stays(src, pa, more, 0, none, empty, room);
    lemma_expand_stays(src, pb, empty, 0, none, empty, room);
    let (ta, known) = imports_expanded_from(src, pa, 0, none, empty)->Ok_0;
    let tb = (imports_expanded_from(src, pb, 0, none, empty)->Ok_0).0;
    let n = ea.len() as int;
    let m = ta.len() as int;
    assert forall|k: int| 0 <= k < eb.len() implies (#[trigger] eb[k]).kind == p.toks[n
        + k].kind by {
        assert(more[k].kind == eb[k].kind);
    }
    lemma_expand_moves(src, p, pb, n, 0, known, none, m, ta, empty);
    let t = (imports_expanded_from(src, p, n, known, ta)->Ok_0).0;
    assert(t.take(m) == ta.take(m));
    assert forall|k: int| 0 <= k < ta.len() implies (#[trigger] ta[k]).kind == t[0 + k].kind by {
        assert(t.take(m)[k] == ta.take(m)[k]);
    }
}

proof fn lemma_closed(a: Seq<TokenView>, b: Seq<TokenView>, more: Seq<TokenView>)
    requires
        closed_from(a, 0, 0, MAX_BLOCK_DEPTH as nat),
        closed_from(b, 0, 0, MAX_BLOCK_DEPTH as nat),
        same_kinds(more, b),
    ensures
        closed_from(a + more, 0, 0, MAX_BLOCK_DEPTH as nat),
{
    let room = MAX_BLOCK_DEPTH as nat;
    lemma_closed_alike(more, b, 0, 0, room);
    lemma_closed_moves(a, more, 0, 0, room);
    lemma_closed_stays(a, more, 0, 0, room);
}

proof fn lemma_closed_alike(
    a: Seq<TokenView>,
    b: Seq<TokenView>,
    i: int,
    depth: nat,
    room: nat,
)
    requires
        same_kinds(a, b),
        0 <= i <= a.len(),
    ensures
        closed_from(a, i, depth, room) == closed_from(b, i, depth, room),
    decreases a.len() - i,
{
    if i < a.len() {
        assert(a[i].kind == b[i].kind);
        match a[i].kind {
            TokenKindView::LBrace => {
                lemma_closed_alike(a, b, i + 1, depth + 1, room);
            },
            TokenKindView::RBrace => {
                if depth > 0 {
                    lemma_closed_alike(a, b, i + 1, (depth - 1) as nat, room);
                }
            },
            _ => {
                lemma_closed_alike(a, b, i + 1, depth, room);
            },
        }
    }
}

proof fn lemma_closed_stays(
    a: Seq<TokenView>,
    b: Seq<TokenView>,
    i: int,
    depth: nat,
    room: nat,
)
    requires
        0 <= i <= a.len(),
        closed_from(a, i, depth, room),
        closed_from(a + b, a.len() as int, 0, room),
    ensures
        closed_from(a + b, i, depth, room),
    decreases a.len() - i,
{
    if i < a.len() {
        assert((a + b)[i] == a[i]);
        match a[i].kind {
            TokenKindView::LBrace => {
                lemma_closed_stays(a, b, i + 1, depth + 1, room);
            },
            TokenKindView::RBrace => {
                lemma_closed_stays(a, b, i + 1, (depth - 1) as nat, room);
            },
            _ => {
                lemma_closed_stays(a, b, i + 1, depth, room);
            },
        }
    }
}

fn are_closed(toks: &Vec<Token>) -> (r: bool)
    ensures
        r == closed_from(toks.deep_view(), 0, 0, MAX_BLOCK_DEPTH as nat),
{
    let ghost all = toks.deep_view();
    let ghost room = MAX_BLOCK_DEPTH as nat;
    let mut depth: usize = 0;
    let mut i: usize = 0;
    while i < toks.len()
        invariant
            i <= toks@.len(),
            depth <= MAX_BLOCK_DEPTH,
            all == toks.deep_view(),
            room == MAX_BLOCK_DEPTH as nat,
            closed_from(all, 0, 0, room) == closed_from(all, i as int, depth as nat, room),
        decreases toks@.len() - i,
    {
        assert(all[i as int] == toks@[i as int].deep_view());
        match &toks[i].kind {
            TokenKind::LBrace => {
                if depth >= MAX_BLOCK_DEPTH {
                    return false;
                }
                depth += 1;
            },
            TokenKind::RBrace => {
                if depth == 0 {
                    return false;
                }
                depth -= 1;
            },
            _ => {},
        }
        i += 1;
    }
    depth == 0
}

fn starts_plainly(toks: &Vec<Token>) -> (r: bool)
    ensures
        r == opens_plainly(toks.deep_view()),
{
    let ghost all = toks.deep_view();
    let mut i: usize = 0;
    while i < toks.len()
        invariant
            i <= toks@.len(),
            all == toks.deep_view(),
            skip_newlines(all, 0) == skip_newlines(all, i as int),
        decreases toks@.len() - i,
    {
        assert(all[i as int] == toks@[i as int].deep_view());
        match &toks[i].kind {
            TokenKind::Newline => {
                i += 1;
            },
            TokenKind::LBrace => {
                return false;
            },
            _ => {
                return true;
            },
        }
    }
    true
}

/// Whether a text is a configuration that can stand beside others.
pub fn can_stand_alone(sources: &Sources, file: &str, text: &str) -> (r: bool)
    requires
        text@.len() < u32::MAX,
    ensures
        r == stands_alone(sources.deep_view(), file@, text@),
{
    if !ends_with_char(text, '\n') {
        return false;
    }
    let toks = match lex(text) {
        Ok(t) => t,
        Err(_) => {
            return false;
        },
    };
    let toks = match expand_env_tokens(&sources.env, &toks) {
        Ok(t) => t,
        Err(_) => {
            return false;
        },
    };
    if !are_closed(&toks) {
        return false;
    }
    match preprocess(file, text, sources) {
        Ok(all) => starts_plainly(&all) && parse_with(file, text, sources).is_ok(),
        Err(_) => false,
    }
}

} // verus!
