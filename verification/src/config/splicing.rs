//! Importing a snippet, and writing its text in place.
use crate::config::ast::{DirectiveView, Layer4ListenerView, SiteView};
use crate::config::cursor::{
    lemma_skip_newlines, lemma_statement, line_from, skip_newlines, statement, Cursor, Fault,
};
use crate::config::expand::{
    block_end, block_end_from, env_expanded, env_token, imports_expanded, imports_expanded_from,
    lemma_words_end, no_sources, snippet_name, words_end, ExpandErrorView, Place, SourcesView,
    MAX_BLOCK_DEPTH,
};
use crate::config::lexer::{ends_word, lexed, lexed_from, token, TokenKindView, TokenView};
use crate::config::listeners::{
    no_tcp_options, no_udp_options, tcp_block, tcp_health, tcp_line, udp_block, udp_line,
    TcpOptionsView, UdpOptionsView,
};
use crate::config::parser::{
    directive_at, directives_from, handle_matchers, items_from, parsed, parsed_with, raddexfile,
    top_level,
};
use crate::config::pieces::{
    bare, indented, lemma_bare_is_plain, lemma_env_last, lemma_env_of, lemma_lex_blank,
    lemma_lex_close, lemma_lex_indent, lemma_lex_join, lemma_lex_newline, lemma_lex_open,
    lemma_lex_word, of_kinds, whole_lines, word,
};
use crate::config::proxy::{
    health_block, health_check, health_line, lemma_health_block, no_health_options,
    no_proxy_options, proxy_block, proxy_line, HealthOptions, ProxyOptionsView,
};
use vstd::prelude::*;

verus! {

// ---------------------------------------------------------------------------
// Blocks take tokens
// ---------------------------------------------------------------------------

proof fn lemma_proxy_block(toks: Seq<TokenView>, c: Cursor, s: ProxyOptionsView)
    requires
        0 <= c.pos <= toks.len(),
    ensures
        proxy_block(toks, c, s) matches Ok((_, d)) ==> c.pos < d.pos <= toks.len(),
    decreases toks.len() - c.pos,
{
    if c.pos < toks.len() && toks[c.pos].kind != TokenKindView::RBrace {
        let (line, nested, d) = statement(toks, c.pos);
        lemma_statement(toks, c.pos);
        if line.len() == 0 {
            lemma_proxy_block(toks, d, s);
        } else if line[0] == "health_check"@ {
            lemma_health_block(toks, d, no_health_options());
            if let Ok((h, e)) = health_check(toks, d, nested) {
                lemma_proxy_block(toks, e, ProxyOptionsView { health_check: Some(h), ..s });
            }
        } else if let Ok(t) = proxy_line(line, nested, s) {
            lemma_proxy_block(toks, d, t);
        }
    }
}

proof fn lemma_tcp_block(toks: Seq<TokenView>, c: Cursor, s: TcpOptionsView)
    requires
        0 <= c.pos <= toks.len(),
    ensures
        tcp_block(toks, c, s) matches Ok((_, d)) ==> c.pos < d.pos <= toks.len(),
    decreases toks.len() - c.pos,
{
    if c.pos < toks.len() && toks[c.pos].kind != TokenKindView::RBrace {
        let (line, nested, d) = statement(toks, c.pos);
        lemma_statement(toks, c.pos);
        if line.len() == 0 {
            lemma_tcp_block(toks, d, s);
        } else if line[0] == "health_check"@ {
            lemma_health_block(toks, d, no_health_options());
            if let Ok((h, e)) = health_check(toks, d, nested) {
                lemma_tcp_block(
                    toks,
                    e,
                    TcpOptionsView { health_check: Some(tcp_health(h)), ..s },
                );
            }
        } else if let Ok(t) = tcp_line(line, nested, s) {
            lemma_tcp_block(toks, d, t);
        }
    }
}

proof fn lemma_udp_block(toks: Seq<TokenView>, c: Cursor, s: UdpOptionsView)
    requires
        0 <= c.pos <= toks.len(),
    ensures
        udp_block(toks, c, s) matches Ok((_, d)) ==> c.pos < d.pos <= toks.len(),
    decreases toks.len() - c.pos,
{
    if c.pos < toks.len() && toks[c.pos].kind != TokenKindView::RBrace {
        let (line, nested, d) = statement(toks, c.pos);
        lemma_statement(toks, c.pos);
        if line.len() == 0 {
            lemma_udp_block(toks, d, s);
        } else if let Ok(t) = udp_line(line, nested, s) {
            lemma_udp_block(toks, d, t);
        }
    }
}

proof fn lemma_directives(
    toks: Seq<TokenView>,
    c: Cursor,
    depth: nat,
    done: Seq<DirectiveView>,
)
    requires
        0 <= c.pos <= toks.len(),
    ensures
        directives_from(toks, c, depth, done) matches Ok((_, d)) ==> c.pos < d.pos <= toks.len(),
    decreases MAX_BLOCK_DEPTH - depth, toks.len() - c.pos, 1nat,
{
    if c.pos < toks.len() && toks[c.pos].kind != TokenKindView::RBrace && toks[c.pos].kind
        != TokenKindView::LBrace {
        let (words, open, d) = statement(toks, c.pos);
        lemma_statement(toks, c.pos);
        if words.len() == 0 {
            lemma_directives(toks, d, depth, done);
        } else {
            lemma_directive(toks, d, words, open, depth);
            if let Ok((directive, e)) = directive_at(toks, d, words, open, depth) {
                lemma_directives(toks, e, depth, done.push(directive));
            }
        }
    }
}

/// A directive takes the block that it opens.
pub proof fn lemma_directive(
    toks: Seq<TokenView>,
    c: Cursor,
    words: Seq<Seq<char>>,
    block: bool,
    depth: nat,
)
    requires
        0 <= c.pos <= toks.len(),
    ensures
        directive_at(toks, c, words, block, depth) matches Ok((_, d)) ==> c.pos <= d.pos
            <= toks.len(),
    decreases MAX_BLOCK_DEPTH - depth, toks.len() - c.pos, 0nat,
{
    if words[0] == "reverse_proxy"@ {
        lemma_proxy_block(toks, c, no_proxy_options());
    } else if words[0] == "handle"@ || words[0] == "handle_path"@ {
        if handle_matchers(words, block) is Ok && depth < MAX_BLOCK_DEPTH {
            lemma_directives(toks, c, depth + 1, Seq::empty());
        }
    }
}

/// A statement at the top level takes the block that it opens.
pub proof fn lemma_top_level(toks: Seq<TokenView>, c: Cursor, words: Seq<Seq<char>>, block: bool)
    requires
        0 <= c.pos <= toks.len(),
    ensures
        top_level(toks, c, words, block) matches Ok((_, d)) ==> c.pos <= d.pos <= toks.len(),
{
    lemma_tcp_block(toks, c, no_tcp_options());
    lemma_udp_block(toks, c, no_udp_options());
    lemma_directives(toks, c, 1, Seq::empty());
}

// ---------------------------------------------------------------------------
// Two token streams that the grammar reads alike
// ---------------------------------------------------------------------------

/// Whether `x` holds the tokens of `y` from the third on, two places later, with
/// one more newline before the closing brace at `hi`.
spec fn spliced(y: Seq<TokenView>, x: Seq<TokenView>, hi: int) -> bool {
    &&& 3 <= hi < y.len()
    &&& x.len() == y.len() + 3
    &&& y[2].kind == TokenKindView::Newline
    &&& y[hi - 1].kind == TokenKindView::Newline
    &&& y[hi].kind == TokenKindView::RBrace
    &&& x[3].kind == TokenKindView::Newline
    &&& x[hi + 2].kind == TokenKindView::Newline
    &&& forall|k: int| 2 <= k < hi ==> (#[trigger] y[k]).kind == x[k + 2].kind
    &&& forall|k: int| hi <= k < y.len() ==> (#[trigger] y[k]).kind == x[k + 3].kind
}

/// Whether the two streams are read alike from `k` and from `l` on.
spec fn in_step(y: Seq<TokenView>, hi: int, k: int, l: int) -> bool {
    ||| 2 <= k <= hi && l == k + 2
    ||| hi <= k <= y.len() && l == k + 3
    ||| k == 2 && l == 3
}

/// Whether two outcomes are the same, but for errors and for where they stand.
spec fn alike<V>(
    y: Seq<TokenView>,
    hi: int,
    r: Result<(V, Cursor), Fault>,
    q: Result<(V, Cursor), Fault>,
) -> bool {
    match (r, q) {
        (Ok((v, c)), Ok((w, d))) => v == w && in_step(y, hi, c.pos, d.pos),
        (Err(_), Err(_)) => true,
        _ => false,
    }
}

proof fn lemma_skip(y: Seq<TokenView>, x: Seq<TokenView>, hi: int, k: int, l: int)
    requires
        spliced(y, x, hi),
        in_step(y, hi, k, l),
    ensures
        ({
            let a = skip_newlines(y, k);
            let b = skip_newlines(x, l);
            &&& k <= a <= y.len()
            &&& (2 <= a < hi && b == a + 2) || (hi <= a && b == a + 3)
            &&& a < y.len() ==> y[a].kind == x[b].kind && y[a].kind != TokenKindView::Newline
        }),
    decreases x.len() - l,
{
    if k < y.len() {
        let _ = y[k];
        if k == 2 && l == 3 {
            lemma_skip(y, x, hi, 2, 4);
        } else if k == hi && l == hi + 2 {
            lemma_skip(y, x, hi, hi, hi + 3);
        } else if y[k].kind == TokenKindView::Newline {
            lemma_skip(y, x, hi, k + 1, l + 1);
        }
    }
}

proof fn lemma_line(
    y: Seq<TokenView>,
    x: Seq<TokenView>,
    hi: int,
    k: int,
    l: int,
    done: Seq<Seq<char>>,
)
    requires
        spliced(y, x, hi),
        (2 <= k < hi && l == k + 2) || (hi <= k <= y.len() && l == k + 3),
    ensures
        line_from(y, k, done).0 == line_from(x, l, done).0,
        line_from(y, k, done).1 == line_from(x, l, done).1,
        in_step(y, hi, line_from(y, k, done).2, line_from(x, l, done).2),
    decreases y.len() - k,
{
    if k < y.len() {
        assert(y[k].kind == x[l].kind);
        if let TokenKindView::Word(w) = y[k].kind {
            assert(k != hi - 1);
            lemma_line(y, x, hi, k + 1, l + 1, done.push(w));
        }
    }
}

proof fn lemma_statements(y: Seq<TokenView>, x: Seq<TokenView>, hi: int, k: int, l: int)
    requires
        spliced(y, x, hi),
        in_step(y, hi, k, l),
    ensures
        statement(y, k).0 == statement(x, l).0,
        statement(y, k).1 == statement(x, l).1,
        in_step(y, hi, statement(y, k).2.pos, statement(x, l).2.pos),
{
    lemma_skip(y, x, hi, k, l);
    lemma_line(y, x, hi, skip_newlines(y, k), skip_newlines(x, l), Seq::empty());
}

/// Whether the two streams stand before the closing brace, the one with a newline
/// in between.
spec fn at_the_end(hi: int, k: int, l: int) -> bool {
    k == hi && l == hi + 2
}

/// What the tokens are at which both streams stand.
proof fn lemma_heads(y: Seq<TokenView>, x: Seq<TokenView>, hi: int, k: int, l: int)
    requires
        spliced(y, x, hi),
        in_step(y, hi, k, l),
    ensures
        0 <= k <= y.len(),
        0 <= l <= x.len(),
        (k == y.len()) == (l == x.len()),
        k < y.len() && !at_the_end(hi, k, l) ==> y[k].kind == x[l].kind,
        k < y.len() && !at_the_end(hi, k, l) && !(k == 2 && l == 3) ==> in_step(
            y,
            hi,
            k + 1,
            l + 1,
        ),
        at_the_end(hi, k, l) ==> {
            &&& statement(x, l).0.len() == 0
            &&& statement(x, l).2.pos == hi + 3
            &&& y[k].kind == TokenKindView::RBrace
            &&& x[l].kind == TokenKindView::Newline
            &&& x[hi + 3].kind == TokenKindView::RBrace
        },
{
    let _ = y[k];
    if at_the_end(hi, k, l) {
        assert(y[hi].kind == x[hi + 3].kind);
        lemma_skip(y, x, hi, k, l);
        assert(skip_newlines(y, k) == k);
    }
}

proof fn lemma_same_health_block(
    y: Seq<TokenView>,
    x: Seq<TokenView>,
    hi: int,
    c: Cursor,
    d: Cursor,
    s: HealthOptions,
)
    requires
        spliced(y, x, hi),
        in_step(y, hi, c.pos, d.pos),
    ensures
        alike(y, hi, health_block(y, c, s), health_block(x, d, s)),
    decreases y.len() - c.pos,
{
    lemma_heads(y, x, hi, c.pos, d.pos);
    if at_the_end(hi, c.pos, d.pos) {
        let e = statement(x, d.pos).2;
        assert(health_block(x, e, s) == Ok::<_, Fault>((s, Cursor { pos: hi + 4, ..e })));
        assert(health_block(x, d, s) == health_block(x, e, s));
    } else if c.pos < y.len() && y[c.pos].kind != TokenKindView::RBrace {
        let (line, nested, e) = statement(y, c.pos);
        let f = statement(x, d.pos).2;
        lemma_statement(y, c.pos);
        lemma_statements(y, x, hi, c.pos, d.pos);
        if line.len() == 0 {
            lemma_same_health_block(y, x, hi, e, f, s);
        } else if let Ok(t) = health_line(line, nested, s) {
            lemma_same_health_block(y, x, hi, e, f, t);
        }
    }
}

proof fn lemma_same_health_check(
    y: Seq<TokenView>,
    x: Seq<TokenView>,
    hi: int,
    c: Cursor,
    d: Cursor,
    block: bool,
)
    requires
        spliced(y, x, hi),
        in_step(y, hi, c.pos, d.pos),
    ensures
        alike(y, hi, health_check(y, c, block), health_check(x, d, block)),
{
    lemma_same_health_block(y, x, hi, c, d, no_health_options());
}

proof fn lemma_same_proxy_block(
    y: Seq<TokenView>,
    x: Seq<TokenView>,
    hi: int,
    c: Cursor,
    d: Cursor,
    s: ProxyOptionsView,
)
    requires
        spliced(y, x, hi),
        in_step(y, hi, c.pos, d.pos),
    ensures
        alike(y, hi, proxy_block(y, c, s), proxy_block(x, d, s)),
    decreases y.len() - c.pos,
{
    lemma_heads(y, x, hi, c.pos, d.pos);
    if at_the_end(hi, c.pos, d.pos) {
        let e = statement(x, d.pos).2;
        assert(proxy_block(x, e, s) == Ok::<_, Fault>((s, Cursor { pos: hi + 4, ..e })));
        assert(proxy_block(x, d, s) == proxy_block(x, e, s));
    } else if c.pos < y.len() && y[c.pos].kind != TokenKindView::RBrace {
        let (line, nested, e) = statement(y, c.pos);
        let f = statement(x, d.pos).2;
        lemma_statement(y, c.pos);
        lemma_statements(y, x, hi, c.pos, d.pos);
        if line.len() == 0 {
            lemma_same_proxy_block(y, x, hi, e, f, s);
        } else if line[0] == "health_check"@ {
            lemma_health_block(y, e, no_health_options());
            lemma_same_health_check(y, x, hi, e, f, nested);
            if s.health_check is None {
                if let Ok((h, g)) = health_check(y, e, nested) {
                    lemma_same_proxy_block(
                        y,
                        x,
                        hi,
                        g,
                        (health_check(x, f, nested)->Ok_0).1,
                        ProxyOptionsView { health_check: Some(h), ..s },
                    );
                }
            }
        } else if let Ok(t) = proxy_line(line, nested, s) {
            lemma_same_proxy_block(y, x, hi, e, f, t);
        }
    }
}

proof fn lemma_same_tcp_block(
    y: Seq<TokenView>,
    x: Seq<TokenView>,
    hi: int,
    c: Cursor,
    d: Cursor,
    s: TcpOptionsView,
)
    requires
        spliced(y, x, hi),
        in_step(y, hi, c.pos, d.pos),
    ensures
        alike(y, hi, tcp_block(y, c, s), tcp_block(x, d, s)),
    decreases y.len() - c.pos,
{
    lemma_heads(y, x, hi, c.pos, d.pos);
    if at_the_end(hi, c.pos, d.pos) {
        let e = statement(x, d.pos).2;
        assert(tcp_block(x, e, s) == Ok::<_, Fault>((s, Cursor { pos: hi + 4, ..e })));
        assert(tcp_block(x, d, s) == tcp_block(x, e, s));
    } else if c.pos < y.len() && y[c.pos].kind != TokenKindView::RBrace {
        let (line, nested, e) = statement(y, c.pos);
        let f = statement(x, d.pos).2;
        lemma_statement(y, c.pos);
        lemma_statements(y, x, hi, c.pos, d.pos);
        if line.len() == 0 {
            lemma_same_tcp_block(y, x, hi, e, f, s);
        } else if line[0] == "health_check"@ {
            lemma_health_block(y, e, no_health_options());
            lemma_same_health_check(y, x, hi, e, f, nested);
            if s.health_check is None {
                if let Ok((h, g)) = health_check(y, e, nested) {
                    lemma_same_tcp_block(
                        y,
                        x,
                        hi,
                        g,
                        (health_check(x, f, nested)->Ok_0).1,
                        TcpOptionsView { health_check: Some(tcp_health(h)), ..s },
                    );
                }
            }
        } else if let Ok(t) = tcp_line(line, nested, s) {
            lemma_same_tcp_block(y, x, hi, e, f, t);
        }
    }
}

proof fn lemma_same_udp_block(
    y: Seq<TokenView>,
    x: Seq<TokenView>,
    hi: int,
    c: Cursor,
    d: Cursor,
    s: UdpOptionsView,
)
    requires
        spliced(y, x, hi),
        in_step(y, hi, c.pos, d.pos),
    ensures
        alike(y, hi, udp_block(y, c, s), udp_block(x, d, s)),
    decreases y.len() - c.pos,
{
    lemma_heads(y, x, hi, c.pos, d.pos);
    if at_the_end(hi, c.pos, d.pos) {
        let e = statement(x, d.pos).2;
        assert(udp_block(x, e, s) == Ok::<_, Fault>((s, Cursor { pos: hi + 4, ..e })));
        assert(udp_block(x, d, s) == udp_block(x, e, s));
    } else if c.pos < y.len() && y[c.pos].kind != TokenKindView::RBrace {
        let (line, nested, e) = statement(y, c.pos);
        let f = statement(x, d.pos).2;
        lemma_statement(y, c.pos);
        lemma_statements(y, x, hi, c.pos, d.pos);
        if line.len() == 0 {
            lemma_same_udp_block(y, x, hi, e, f, s);
        } else if let Ok(t) = udp_line(line, nested, s) {
            lemma_same_udp_block(y, x, hi, e, f, t);
        }
    }
}

proof fn lemma_same_directives(
    y: Seq<TokenView>,
    x: Seq<TokenView>,
    hi: int,
    c: Cursor,
    d: Cursor,
    depth: nat,
    done: Seq<DirectiveView>,
)
    requires
        spliced(y, x, hi),
        in_step(y, hi, c.pos, d.pos),
    ensures
        alike(y, hi, directives_from(y, c, depth, done), directives_from(x, d, depth, done)),
    decreases MAX_BLOCK_DEPTH - depth, y.len() - c.pos, 1nat,
{
    lemma_heads(y, x, hi, c.pos, d.pos);
    if at_the_end(hi, c.pos, d.pos) {
        let e = statement(x, d.pos).2;
        assert(directives_from(x, e, depth, done) == Ok::<_, Fault>(
            (done, Cursor { pos: hi + 4, ..e }),
        ));
        assert(directives_from(x, d, depth, done) == directives_from(x, e, depth, done));
    } else if c.pos < y.len() && y[c.pos].kind != TokenKindView::RBrace && y[c.pos].kind
        != TokenKindView::LBrace {
        let (words, open, e) = statement(y, c.pos);
        let f = statement(x, d.pos).2;
        lemma_statement(y, c.pos);
        lemma_statement(x, d.pos);
        lemma_statements(y, x, hi, c.pos, d.pos);
        if words.len() == 0 {
            lemma_same_directives(y, x, hi, e, f, depth, done);
        } else {
            lemma_directive(y, e, words, open, depth);
            lemma_directive(x, f, words, open, depth);
            lemma_same_directive(y, x, hi, e, f, words, open, depth);
            if let Ok((directive, g)) = directive_at(y, e, words, open, depth) {
                lemma_same_directives(
                    y,
                    x,
                    hi,
                    g,
                    (directive_at(x, f, words, open, depth)->Ok_0).1,
                    depth,
                    done.push(directive),
                );
            }
        }
    }
}

proof fn lemma_same_directive(
    y: Seq<TokenView>,
    x: Seq<TokenView>,
    hi: int,
    c: Cursor,
    d: Cursor,
    words: Seq<Seq<char>>,
    block: bool,
    depth: nat,
)
    requires
        spliced(y, x, hi),
        in_step(y, hi, c.pos, d.pos),
    ensures
        alike(
            y,
            hi,
            directive_at(y, c, words, block, depth),
            directive_at(x, d, words, block, depth),
        ),
    decreases MAX_BLOCK_DEPTH - depth, y.len() - c.pos, 0nat,
{
    if words[0] == "reverse_proxy"@ {
        lemma_same_proxy_block(y, x, hi, c, d, no_proxy_options());
    } else if words[0] == "handle"@ || words[0] == "handle_path"@ {
        if handle_matchers(words, block) is Ok && depth < MAX_BLOCK_DEPTH {
            lemma_same_directives(y, x, hi, c, d, depth + 1, Seq::empty());
        }
    }
}

proof fn lemma_same_top_level(
    y: Seq<TokenView>,
    x: Seq<TokenView>,
    hi: int,
    c: Cursor,
    d: Cursor,
    words: Seq<Seq<char>>,
    block: bool,
)
    requires
        spliced(y, x, hi),
        in_step(y, hi, c.pos, d.pos),
    ensures
        alike(y, hi, top_level(y, c, words, block), top_level(x, d, words, block)),
{
    lemma_same_tcp_block(y, x, hi, c, d, no_tcp_options());
    lemma_same_udp_block(y, x, hi, c, d, no_udp_options());
    lemma_same_directives(y, x, hi, c, d, 1, Seq::empty());
}

/// Whether two outcomes are the same, but for errors.
pub open spec fn agree<V, E>(r: Result<V, E>, q: Result<V, E>) -> bool {
    match (r, q) {
        (Ok(v), Ok(w)) => v == w,
        (Err(_), Err(_)) => true,
        _ => false,
    }
}

proof fn lemma_same_items(
    y: Seq<TokenView>,
    x: Seq<TokenView>,
    hi: int,
    c: Cursor,
    d: Cursor,
    sites: Seq<SiteView>,
    layer4: Seq<Layer4ListenerView>,
)
    requires
        spliced(y, x, hi),
        in_step(y, hi, c.pos, d.pos),
    ensures
        agree(items_from(y, c, sites, layer4), items_from(x, d, sites, layer4)),
    decreases y.len() - c.pos,
{
    lemma_heads(y, x, hi, c.pos, d.pos);
    lemma_skip(y, x, hi, c.pos, d.pos);
    lemma_skip_newlines(x, d.pos);
    let p = skip_newlines(y, c.pos);
    let q = skip_newlines(x, d.pos);
    if p < y.len() && y[p].kind != TokenKindView::RBrace {
        let (words, open, e) = statement(y, p);
        let f = statement(x, q).2;
        lemma_statement(y, p);
        lemma_statement(x, q);
        lemma_statements(y, x, hi, p, q);
        if words.len() == 0 {
            lemma_same_items(y, x, hi, e, f, sites, layer4);
        } else {
            lemma_top_level(y, e, words, open);
            lemma_top_level(x, f, words, open);
            lemma_same_top_level(y, x, hi, e, f, words, open);
            if let Ok(((more, listeners), g)) = top_level(y, e, words, open) {
                lemma_same_items(
                    y,
                    x,
                    hi,
                    g,
                    (top_level(x, f, words, open)->Ok_0).1,
                    sites + more,
                    layer4 + listeners,
                );
            }
        }
    }
}

// ---------------------------------------------------------------------------
// Text without imports
// ---------------------------------------------------------------------------

/// Whether every block from `i` on is closed, `depth` blocks being open, and at
/// most `room` are open at a time.
pub open spec fn closed_from(toks: Seq<TokenView>, i: int, depth: nat, room: nat) -> bool
    decreases toks.len() - i,
{
    if i < 0 || i >= toks.len() {
        depth == 0
    } else {
        match toks[i].kind {
            TokenKindView::LBrace => depth < room && closed_from(toks, i + 1, depth + 1, room),
            TokenKindView::RBrace => depth > 0 && closed_from(
                toks,
                i + 1,
                (depth - 1) as nat,
                room,
            ),
            _ => closed_from(toks, i + 1, depth, room),
        }
    }
}

/// Whether a line stands at `k` that imports something: `import` and a target.
pub open spec fn import_line(toks: Seq<TokenView>, k: int) -> bool {
    &&& toks[k].kind == TokenKindView::Word("import"@)
    &&& words_end(toks, k) == k + 2
    &&& k == 0 || !(toks[k - 1].kind is Word)
}

proof fn lemma_words_part(toks: Seq<TokenView>, lo: int, hi: int, k: int)
    requires
        0 <= lo <= k <= hi <= toks.len(),
        hi == toks.len() || !(toks[hi].kind is Word),
    ensures
        words_end(toks.subrange(lo, hi), k - lo) == words_end(toks, k) - lo,
    decreases hi - k,
{
    if k < hi {
        assert(toks.subrange(lo, hi)[k - lo] == toks[k]);
        if toks[k].kind is Word {
            lemma_words_part(toks, lo, hi, k + 1);
        }
    }
}

proof fn lemma_words_over(toks: Seq<TokenView>, i: int)
    requires
        0 <= i <= toks.len(),
    ensures
        words_end(toks, i) < toks.len() ==> !(toks[words_end(toks, i)].kind is Word),
    decreases toks.len() - i,
{
    if i < toks.len() && toks[i].kind is Word {
        lemma_words_over(toks, i + 1);
    }
}

/// A closed block ends where its brace is matched, and is closed inside.
pub proof fn lemma_closed_block(toks: Seq<TokenView>, i: int, k: int, depth: nat, room: nat)
    requires
        0 <= i < k <= toks.len(),
        depth > 0,
        closed_from(toks, k, depth, room),
    ensures
        ({
            let e = block_end_from(toks, k, depth as int, i);
            &&& k <= e < toks.len()
            &&& toks[e].kind == TokenKindView::RBrace
            &&& closed_from(toks, e + 1, 0, room)
            &&& room > 0 ==> closed_from(
                toks.subrange(i + 1, e),
                k - (i + 1),
                (depth - 1) as nat,
                (room - 1) as nat,
            )
        }),
    decreases toks.len() - k,
{
    if k < toks.len() {
        if toks[k].kind == TokenKindView::LBrace {
            lemma_closed_block(toks, i, k + 1, depth + 1, room);
        } else if toks[k].kind == TokenKindView::RBrace {
            if depth > 1 {
                lemma_closed_block(toks, i, k + 1, (depth - 1) as nat, room);
            }
        } else {
            lemma_closed_block(toks, i, k + 1, depth, room);
        }
        let e = block_end_from(toks, k, depth as int, i);
        if k < e {
            assert(toks.subrange(i + 1, e)[k - (i + 1)] == toks[k]);
        }
    }
}

/// Words open and close nothing.
pub proof fn lemma_closed_words(toks: Seq<TokenView>, i: int, depth: nat, room: nat)
    requires
        0 <= i <= toks.len(),
        closed_from(toks, i, depth, room),
    ensures
        closed_from(toks, words_end(toks, i), depth, room),
    decreases toks.len() - i,
{
    if i < toks.len() && toks[i].kind is Word {
        lemma_closed_words(toks, i + 1, depth, room);
    }
}

/// Inside a block, text without imports stays as it is.
proof fn lemma_no_import(
    sources: SourcesView,
    at: Place,
    i: int,
    snippets: Map<Seq<char>, Seq<TokenView>>,
    done: Seq<TokenView>,
)
    requires
        0 <= i <= at.toks.len(),
        !at.top_level,
        at.depth <= MAX_BLOCK_DEPTH,
        forall|k: int| 0 <= k < at.toks.len() ==> !(#[trigger] import_line(at.toks, k)),
        0 < i < at.toks.len() && at.toks[i].kind is Word ==> !(at.toks[i - 1].kind is Word),
        closed_from(at.toks, i, 0, (MAX_BLOCK_DEPTH - at.depth) as nat),
    ensures
        imports_expanded_from(sources, at, i, snippets, done) == Ok::<
            (Seq<TokenView>, Map<Seq<char>, Seq<TokenView>>),
            ExpandErrorView,
        >((done + at.toks.skip(i), snippets)),
    decreases MAX_BLOCK_DEPTH - at.depth, at.toks.len() - i,
{
    let toks = at.toks;
    let room = (MAX_BLOCK_DEPTH - at.depth) as nat;
    if i == toks.len() {
        assert(done + toks.skip(i) == done);
    } else if toks[i].kind == TokenKindView::Newline {
        lemma_no_import(sources, at, i + 1, snippets, done.push(toks[i]));
        assert(done.push(toks[i]) + toks.skip(i + 1) == done + toks.skip(i));
    } else if toks[i].kind == TokenKindView::LBrace {
        lemma_closed_block(toks, i, i + 1, 1, room);
        let end = block_end(toks, i);
        let inner = toks.subrange(i + 1, end);
        assert forall|k: int| 0 <= k < inner.len() implies !(#[trigger] import_line(
            inner,
            k,
        )) by {
            lemma_words_part(toks, i + 1, end, i + 1 + k);
            assert(!import_line(toks, i + 1 + k));
        }
        lemma_no_import(
            sources,
            Place { toks: inner, top_level: false, depth: at.depth + 1, ..at },
            0,
            snippets,
            Seq::empty(),
        );
        assert(Seq::<TokenView>::empty() + inner.skip(0) == inner);
        let more = (done.push(toks[i]) + inner).push(toks[end]);
        lemma_no_import(sources, at, end + 1, snippets, more);
        assert(more + toks.skip(end + 1) == done + toks.skip(i));
    } else {
        lemma_words_end(toks, i);
        lemma_closed_words(toks, i, 0, room);
        let j = words_end(toks, i);
        lemma_words_over(toks, i);
        assert(!import_line(toks, i));
        lemma_no_import(sources, at, j, snippets, done + toks.subrange(i, j));
        assert(done + toks.subrange(i, j) + toks.skip(j) == done + toks.skip(i));
    }
}

// ---------------------------------------------------------------------------
// Snippets
// ---------------------------------------------------------------------------

/// The tokens of a text that starts on the second line of a file.
pub open spec fn body_tokens(env: Seq<(Seq<char>, Seq<char>)>, body: Seq<char>) -> Result<
    Seq<TokenView>,
    Seq<char>,
> {
    env_expanded(env, lexed_from(body, 0, 2, 1))
}

/// A site with `body` for its block.
pub open spec fn in_place(key: Seq<char>, body: Seq<char>) -> Seq<char> {
    key + " {\n"@ + (body + "}\n"@)
}

/// A snippet with `body` for its block, and a site that imports it.
pub open spec fn as_snippet(name: Seq<char>, key: Seq<char>, body: Seq<char>) -> Seq<char> {
    seq!['('] + name + seq![')'] + " {\n"@ + (body + ("}\n"@ + (key + " {\n"@ + (
    "    import "@ + (name + "\n}\n"@)))))
}

/// Importing a snippet into a site says what the text of the snippet says in its
/// place, and the snippet itself leaves nothing behind. The text consists of whole
/// lines, closes the blocks that it opens, and has no line that imports something.
pub proof fn an_import_stands_for_its_text(
    file: Seq<char>,
    name: Seq<char>,
    key: Seq<char>,
    body: Seq<char>,
    sources: SourcesView,
)
    requires
        bare(name),
        bare(key),
        snippet_name(key) is None,
        body.len() == 0 || body.last() == '\n',
        body_tokens(sources.env, body) matches Ok(b) ==> closed_from(
            b,
            0,
            0,
            (MAX_BLOCK_DEPTH - 1) as nat,
        ) && forall|k: int| 0 <= k < b.len() ==> !(#[trigger] import_line(b, k)),
    ensures
        agree(
            parsed_with(file, as_snippet(name, key, body), sources),
            parsed_with(file, in_place(key, body), sources),
        ),
        sources == no_sources() ==> agree(
            parsed(file, as_snippet(name, key, body)),
            parsed(file, in_place(key, body)),
        ),
{
    let env = sources.env;
    let (h, t) = lemma_in_place_tokens(env, key, body);
    let (g, u) = lemma_snippet_tokens(env, name, key, body);
    if let Ok(b) = body_tokens(env, body) {
        lemma_expand_in_place(sources, file, key, h, b, t);
        lemma_expand_snippet(sources, file, name, key, g, b, u);
        lemma_spliced(name, key, h, b, t, g, u);
        lemma_parsed_alike(key, h + (b + t), imported_text(g, b, u), 3 + b.len() as int);
    }
}

proof fn lemma_in_place_tokens(
    env: Seq<(Seq<char>, Seq<char>)>,
    key: Seq<char>,
    body: Seq<char>,
) -> (r: (Seq<TokenView>, Seq<TokenView>))
    requires
        bare(key),
        body.len() == 0 || body.last() == '\n',
    ensures
        env_expanded(env, lexed(in_place(key, body))) == (match body_tokens(env, body) {
            Err(m) => Err(m),
            Ok(b) => Ok(r.0 + (b + r.1)),
        }),
        of_kinds(r.0, site_kinds(key)),
        of_kinds(r.1, end_kinds()),
        body_tokens(env, body) matches Ok(b) ==> whole_lines(b),
{
    let (h, t) = lemma_lex_in_place(key, body);
    let lines = lexed_from(body, 0, 2, 1);
    lemma_plain_kinds(h, site_kinds(key));
    lemma_plain_kinds(t, end_kinds());
    assert(h.last().kind == site_kinds(key)[2]);
    lemma_env_of(env, h, lines, t);
    if body.len() > 0 {
        lemma_env_last(env, lines, 0, Seq::empty());
    }
    (h, t)
}

proof fn lemma_snippet_tokens(
    env: Seq<(Seq<char>, Seq<char>)>,
    name: Seq<char>,
    key: Seq<char>,
    body: Seq<char>,
) -> (r: (Seq<TokenView>, Seq<TokenView>))
    requires
        bare(name),
        bare(key),
        body.len() == 0 || body.last() == '\n',
    ensures
        env_expanded(env, lexed(as_snippet(name, key, body))) == (match body_tokens(env, body) {
            Err(m) => Err(m),
            Ok(b) => Ok(r.0 + (b + r.1)),
        }),
        of_kinds(r.0, site_kinds(seq!['('] + name + seq![')'])),
        of_kinds(r.1, import_kinds(name, key)),
{
    let (g, u) = lemma_lex_snippet(name, key, body);
    let lines = lexed_from(body, 0, 2, 1);
    lemma_names_of(name);
    lemma_plain_kinds(g, site_kinds(seq!['('] + name + seq![')']));
    lemma_plain_kinds(u, import_kinds(name, key));
    assert(g.last().kind == site_kinds(seq!['('] + name + seq![')'])[2]);
    let _ = lemma_lex_body(body, Seq::empty());
    lemma_env_of(env, g, lines, u);
    (g, u)
}

spec fn site_kinds(w: Seq<char>) -> Seq<TokenKindView> {
    seq![word(w), TokenKindView::LBrace, TokenKindView::Newline]
}

spec fn end_kinds() -> Seq<TokenKindView> {
    seq![TokenKindView::RBrace, TokenKindView::Newline]
}

spec fn import_kinds(name: Seq<char>, key: Seq<char>) -> Seq<TokenKindView> {
    seq![
        TokenKindView::RBrace,
        TokenKindView::Newline,
        word(key),
        TokenKindView::LBrace,
        TokenKindView::Newline,
        word("import"@),
        word(name),
        TokenKindView::Newline,
        TokenKindView::RBrace,
        TokenKindView::Newline,
    ]
}

proof fn lemma_names_of(name: Seq<char>)
    requires
        bare(name),
    ensures
        bare(seq!['('] + name + seq![')']),
        bare("import"@),
        snippet_name(seq!['('] + name + seq![')']) == Some(name),
{
    reveal_strlit("import");
    let w = seq!['('] + name + seq![')'];
    assert forall|i: int| 0 <= i < w.len() implies !ends_word(#[trigger] w[i]) by {
        if 0 < i && i <= name.len() {
            assert(w[i] == name[i - 1]);
        }
    }
    assert(w.skip(1) == name + seq![')']);
    assert(w.skip(1).drop_last() == name);
}

proof fn lemma_plain_kinds(toks: Seq<TokenView>, kinds: Seq<TokenKindView>)
    requires
        of_kinds(toks, kinds),
        forall|k: int| 0 <= k < kinds.len() ==> (#[trigger] kinds[k] matches TokenKindView::Word(w)
            ==> bare(w)),
    ensures
        forall|k: int| 0 <= k < toks.len() ==> !env_token(#[trigger] toks[k]),
{
    assert forall|k: int| 0 <= k < toks.len() implies !env_token(#[trigger] toks[k]) by {
        if let TokenKindView::Word(w) = kinds[k] {
            lemma_bare_is_plain(w);
        }
    }
}

/// The line that opens a block.
proof fn lemma_lex_opening(w: Seq<char>, rest: Seq<char>, line: int) -> (toks: Seq<TokenView>)
    requires
        bare(w),
    ensures
        of_kinds(toks, site_kinds(w)),
        lexed_from(w + " {\n"@ + rest, 0, line, 1) == toks + lexed_from(rest, 0, line + 1, 1),
{
    let r1 = seq!['\n'] + rest;
    let r2 = seq!['{'] + r1;
    let r3 = seq![' '] + r2;
    assert(w + " {\n"@ + rest == w + r3) by {
        reveal_strlit(" {\n");
    }
    let n = w.len() as int;
    lemma_lex_word(w, r3, line, 1);
    lemma_lex_blank(' ', r2, line, 1 + n);
    lemma_lex_open(r1, line, 2 + n);
    lemma_lex_newline(rest, line, 3 + n);
    let toks = seq![
        token(TokenKindView::Word(w), line, 1),
        token(TokenKindView::LBrace, line, 2 + n),
        token(TokenKindView::Newline, line, 3 + n),
    ];
    assert(lexed_from(w + r3, 0, line, 1) == toks + lexed_from(rest, 0, line + 1, 1));
    toks
}

/// A closing brace on a line of its own.
proof fn lemma_lex_closing(rest: Seq<char>, line: int) -> (toks: Seq<TokenView>)
    ensures
        of_kinds(toks, end_kinds()),
        lexed_from("}\n"@ + rest, 0, line, 1) == toks + lexed_from(rest, 0, line + 1, 1),
{
    let r1 = seq!['\n'] + rest;
    assert("}\n"@ + rest == seq!['}'] + r1) by {
        reveal_strlit("}\n");
    }
    lemma_lex_close(r1, line, 1);
    lemma_lex_newline(rest, line, 2);
    let toks = seq![
        token(TokenKindView::RBrace, line, 1),
        token(TokenKindView::Newline, line, 2),
    ];
    assert(lexed_from("}\n"@ + rest, 0, line, 1) == toks + lexed_from(rest, 0, line + 1, 1));
    toks
}

/// Whole lines from the second on, and the number of the line behind them.
proof fn lemma_lex_body(body: Seq<char>, rest: Seq<char>) -> (next: int)
    requires
        body.len() == 0 || body.last() == '\n',
    ensures
        lexed_from(body + rest, 0, 2, 1) == lexed_from(body, 0, 2, 1) + lexed_from(
            rest,
            0,
            next,
            1,
        ),
        whole_lines(lexed_from(body, 0, 2, 1)),
        body.len() > 0 ==> lexed_from(body, 0, 2, 1).len() > 0,
        body.len() == 0 ==> lexed_from(body, 0, 2, 1).len() == 0,
{
    if body.len() == 0 {
        assert(body + rest == rest);
        assert(lexed_from(body, 0, 2, 1) + lexed_from(rest, 0, 2, 1) == lexed_from(rest, 0, 2, 1));
        2
    } else {
        lemma_lex_join(body, rest, 0, 2, 1)
    }
}

proof fn lemma_lex_in_place(key: Seq<char>, body: Seq<char>) -> (r: (
    Seq<TokenView>,
    Seq<TokenView>,
))
    requires
        bare(key),
        body.len() == 0 || body.last() == '\n',
    ensures
        lexed(in_place(key, body)) == r.0 + (lexed_from(body, 0, 2, 1) + r.1),
        of_kinds(r.0, site_kinds(key)),
        of_kinds(r.1, end_kinds()),
        whole_lines(lexed_from(body, 0, 2, 1)),
        body.len() > 0 ==> lexed_from(body, 0, 2, 1).len() > 0,
        body.len() == 0 ==> lexed_from(body, 0, 2, 1).len() == 0,
{
    let h = lemma_lex_opening(key, body + "}\n"@, 1);
    let next = lemma_lex_body(body, "}\n"@);
    let none = Seq::<char>::empty();
    assert("}\n"@ + none == "}\n"@);
    let t = lemma_lex_closing(none, next);
    assert(lexed_from(none, 0, next + 1, 1) == Seq::<TokenView>::empty());
    assert(t + Seq::<TokenView>::empty() == t);
    (h, t)
}

proof fn lemma_lex_snippet(name: Seq<char>, key: Seq<char>, body: Seq<char>) -> (r: (
    Seq<TokenView>,
    Seq<TokenView>,
))
    requires
        bare(name),
        bare(key),
        body.len() == 0 || body.last() == '\n',
    ensures
        lexed(as_snippet(name, key, body)) == r.0 + (lexed_from(body, 0, 2, 1) + r.1),
        of_kinds(r.0, site_kinds(seq!['('] + name + seq![')'])),
        of_kinds(r.1, import_kinds(name, key)),
{
    lemma_names_of(name);
    let none = Seq::<char>::empty();
    let r1 = seq!['\n'] + ("}\n"@ + none);
    let r2 = name + r1;
    let r3 = seq![' '] + r2;
    let r4 = "import"@ + r3;
    let r5 = indented(r4, 4);
    assert("    import "@ + (name + "\n}\n"@) == r5) by {
        reveal_strlit("    import ");
        reveal_strlit("import");
        reveal_strlit("\n}\n");
        reveal_strlit("}\n");
    }
    let r6 = key + " {\n"@ + r5;
    let r7 = "}\n"@ + r6;
    let h = lemma_lex_opening(seq!['('] + name + seq![')'], body + r7, 1);
    let next = lemma_lex_body(body, r7);
    let a = lemma_lex_closing(r6, next);
    let b = lemma_lex_opening(key, r5, next + 1);
    let n = "import"@.len() as int;
    let m = name.len() as int;
    lemma_lex_indent(r4, 4, next + 2, 1);
    lemma_lex_word("import"@, r3, next + 2, 5);
    lemma_lex_blank(' ', r2, next + 2, 5 + n);
    lemma_lex_word(name, r1, next + 2, 6 + n);
    lemma_lex_newline("}\n"@ + none, next + 2, 6 + n + m);
    let c = seq![
        token(TokenKindView::Word("import"@), next + 2, 5),
        token(TokenKindView::Word(name), next + 2, 6 + n),
        token(TokenKindView::Newline, next + 2, 6 + n + m),
    ];
    let d = lemma_lex_closing(none, next + 3);
    assert(lexed_from(none, 0, next + 4, 1) == Seq::<TokenView>::empty());
    assert(lexed_from(r5, 0, next + 2, 1) == c + d);
    let t = a + (b + (c + d));
    assert forall|i: int| 0 <= i < t.len() implies (#[trigger] t[i]).kind == import_kinds(
        name,
        key,
    )[i] by {
        if i < 2 {
            assert(a[i].kind == end_kinds()[i]);
        } else if i < 5 {
            assert(b[i - 2].kind == site_kinds(key)[i - 2]);
        } else if i >= 8 {
            assert(d[i - 8].kind == end_kinds()[i - 8]);
        }
    }
    (h, t)
}

/// What stands before does not matter to whether blocks are closed.
pub proof fn lemma_closed_moves(
    a: Seq<TokenView>,
    b: Seq<TokenView>,
    i: int,
    depth: nat,
    room: nat,
)
    requires
        0 <= i <= b.len(),
    ensures
        closed_from(a + b, a.len() + i, depth, room) == closed_from(b, i, depth, room),
    decreases b.len() - i,
{
    if i < b.len() {
        assert((a + b)[a.len() + i] == b[i]);
        match b[i].kind {
            TokenKindView::LBrace => {
                lemma_closed_moves(a, b, i + 1, depth + 1, room);
            },
            TokenKindView::RBrace => {
                if depth > 0 {
                    lemma_closed_moves(a, b, i + 1, (depth - 1) as nat, room);
                }
            },
            _ => {
                lemma_closed_moves(a, b, i + 1, depth, room);
            },
        }
    }
}

/// The brace behind a closed text closes the block around it.
proof fn lemma_block_over(
    toks: Seq<TokenView>,
    at: int,
    b: Seq<TokenView>,
    i: int,
    depth: nat,
    room: nat,
    open: int,
)
    requires
        0 <= at,
        at + b.len() < toks.len(),
        forall|k: int| 0 <= k < b.len() ==> #[trigger] b[k] == toks[at + k],
        toks[at + b.len()].kind == TokenKindView::RBrace,
        0 <= i <= b.len(),
        closed_from(b, i, depth, room),
    ensures
        block_end_from(toks, at + i, depth as int + 1, open) == at + b.len(),
    decreases b.len() - i,
{
    if i < b.len() {
        assert(b[i] == toks[at + i]);
        match b[i].kind {
            TokenKindView::LBrace => {
                lemma_block_over(toks, at, b, i + 1, depth + 1, room, open);
            },
            TokenKindView::RBrace => {
                lemma_block_over(toks, at, b, i + 1, (depth - 1) as nat, room, open);
            },
            _ => {
                lemma_block_over(toks, at, b, i + 1, depth, room, open);
            },
        }
    }
}

proof fn lemma_expand_in_place(
    sources: SourcesView,
    file: Seq<char>,
    key: Seq<char>,
    h: Seq<TokenView>,
    b: Seq<TokenView>,
    t: Seq<TokenView>,
)
    requires
        snippet_name(key) is None,
        of_kinds(h, site_kinds(key)),
        of_kinds(t, end_kinds()),
        closed_from(b, 0, 0, (MAX_BLOCK_DEPTH - 1) as nat),
        forall|k: int| 0 <= k < b.len() ==> !(#[trigger] import_line(b, k)),
    ensures
        imports_expanded(sources, file, h + (b + t)) == Ok::<Seq<TokenView>, ExpandErrorView>(
            h + (b + t),
        ),
{
    let y = h + (b + t);
    let hi: int = 3 + b.len() as int;
    let none = Map::<Seq<char>, Seq<TokenView>>::empty();
    let empty = Seq::<TokenView>::empty();
    assert(h[0].kind == site_kinds(key)[0] && h[1].kind == site_kinds(key)[1] && h[2].kind
        == site_kinds(key)[2]);
    assert(t[0].kind == end_kinds()[0] && t[1].kind == end_kinds()[1]);
    assert(y[0] == h[0] && y[1] == h[1] && y[2] == h[2] && y[hi] == t[0] && y[hi + 1] == t[1]);
    let at = Place { file, toks: y, stack: Seq::empty(), top_level: true, depth: 0 };
    assert(block_end(y, 1) == hi) by {
        lemma_block_over(y, 3, b, 0, 0, (MAX_BLOCK_DEPTH - 1) as nat, 1);
        assert(block_end_from(y, 2, 1, 1) == hi);
    }
    let inner = y.subrange(2, hi);
    assert(inner == seq![y[2]] + b);
    let within = Place { toks: inner, top_level: false, depth: 1, ..at };
    lemma_closed_moves(seq![y[2]], b, 0, 0, (MAX_BLOCK_DEPTH - 1) as nat);
    assert forall|k: int| 0 <= k < inner.len() implies !(#[trigger] import_line(inner, k)) by {
        if k > 0 {
            assert(inner.subrange(1, inner.len() as int) == b);
            lemma_words_part(inner, 1, inner.len() as int, k);
            assert(!import_line(b, k - 1));
        }
    }
    lemma_no_import(sources, within, 0, none, empty);
    assert(empty + inner.skip(0) == inner);
    assert(words_end(y, 1) == 1);
    assert(words_end(y, 0) == 1);
    let y1 = empty + y.subrange(0, 1);
    let y2 = (y1.push(y[1]) + inner).push(y[hi]);
    let y3 = y2.push(y[hi + 1]);
    assert(y3 == y);
    assert(imports_expanded_from(sources, at, hi + 2, none, y3) == Ok::<
        (Seq<TokenView>, Map<Seq<char>, Seq<TokenView>>),
        ExpandErrorView,
    >((y, none)));
    assert(imports_expanded_from(sources, at, hi + 1, none, y2) == imports_expanded_from(
        sources,
        at,
        hi + 2,
        none,
        y3,
    ));
    assert(imports_expanded_from(sources, at, 1, none, y1) == imports_expanded_from(
        sources,
        at,
        hi + 1,
        none,
        y2,
    ));
    assert(imports_expanded_from(sources, at, 0, none, empty) == imports_expanded_from(
        sources,
        at,
        1,
        none,
        y1,
    ));
}

/// What importing the snippet leaves.
spec fn imported_text(g: Seq<TokenView>, b: Seq<TokenView>, u: Seq<TokenView>) -> Seq<TokenView> {
    seq![u[1], u[2], u[3], u[4], g[2]] + b + seq![u[7], u[8], u[9]]
}

proof fn lemma_import_kinds(u: Seq<TokenView>, name: Seq<char>, key: Seq<char>)
    requires
        of_kinds(u, import_kinds(name, key)),
    ensures
        u.len() == 10,
        u[0].kind == TokenKindView::RBrace,
        u[1].kind == TokenKindView::Newline,
        u[2].kind == word(key),
        u[3].kind == TokenKindView::LBrace,
        u[4].kind == TokenKindView::Newline,
        u[5].kind == word("import"@),
        u[6].kind == word(name),
        u[7].kind == TokenKindView::Newline,
        u[8].kind == TokenKindView::RBrace,
        u[9].kind == TokenKindView::Newline,
{
    let kinds = import_kinds(name, key);
    assert(u[0].kind == kinds[0] && u[1].kind == kinds[1] && u[2].kind == kinds[2] && u[3].kind
        == kinds[3] && u[4].kind == kinds[4] && u[5].kind == kinds[5] && u[6].kind == kinds[6]
        && u[7].kind == kinds[7] && u[8].kind == kinds[8] && u[9].kind == kinds[9]);
}

proof fn lemma_expand_snippet(
    sources: SourcesView,
    file: Seq<char>,
    name: Seq<char>,
    key: Seq<char>,
    g: Seq<TokenView>,
    b: Seq<TokenView>,
    u: Seq<TokenView>,
)
    requires
        bare(name),
        snippet_name(key) is None,
        of_kinds(g, site_kinds(seq!['('] + name + seq![')'])),
        of_kinds(u, import_kinds(name, key)),
        closed_from(b, 0, 0, (MAX_BLOCK_DEPTH - 1) as nat),
    ensures
        imports_expanded(sources, file, g + (b + u)) == Ok::<Seq<TokenView>, ExpandErrorView>(
            imported_text(g, b, u),
        ),
{
    lemma_names_of(name);
    lemma_import_kinds(u, name, key);
    let x = g + (b + u);
    let e: int = 3 + b.len() as int;
    let none = Map::<Seq<char>, Seq<TokenView>>::empty();
    let empty = Seq::<TokenView>::empty();
    let first = site_kinds(seq!['('] + name + seq![')']);
    assert(g[0].kind == first[0] && g[1].kind == first[1] && g[2].kind == first[2]);
    assert(x[0] == g[0] && x[1] == g[1] && x[2] == g[2]);
    assert(forall|k: int| 0 <= k < 10 ==> #[trigger] u[k] == x[e + k]);
    let _ = (u[0], u[1], u[2], u[3], u[4]);
    let _ = (u[5], u[6], u[7], u[8], u[9]);
    let at = Place { file, toks: x, stack: Seq::empty(), top_level: true, depth: 0 };
    // The snippet.
    assert(block_end(x, 1) == e) by {
        lemma_block_over(x, 3, b, 0, 0, (MAX_BLOCK_DEPTH - 1) as nat, 1);
        assert(block_end_from(x, 2, 1, 1) == e);
    }
    let content = x.subrange(2, e);
    assert(content == seq![g[2]] + b);
    assert(words_end(x, 1) == 1);
    assert(words_end(x, 0) == 1);
    let known = none.insert(name, content);
    assert(imports_expanded_from(sources, at, 0, none, empty) == imports_expanded_from(
        sources,
        at,
        e + 1,
        known,
        empty,
    ));
    // The line before the site, and its key.
    let x1 = empty.push(u[1]);
    assert(imports_expanded_from(sources, at, e + 1, known, empty) == imports_expanded_from(
        sources,
        at,
        e + 2,
        known,
        x1,
    ));
    assert(words_end(x, e + 3) == e + 3);
    assert(words_end(x, e + 2) == e + 3);
    let x2 = x1 + x.subrange(e + 2, e + 3);
    assert(imports_expanded_from(sources, at, e + 2, known, x1) == imports_expanded_from(
        sources,
        at,
        e + 3,
        known,
        x2,
    ));
    // The block of the site.
    assert(block_end(x, e + 3) == e + 8) by {
        assert(block_end_from(x, e + 8, 1, e + 3) == e + 8);
        assert(block_end_from(x, e + 7, 1, e + 3) == e + 8);
        assert(block_end_from(x, e + 6, 1, e + 3) == e + 8);
        assert(block_end_from(x, e + 5, 1, e + 3) == e + 8);
        assert(block_end_from(x, e + 4, 1, e + 3) == e + 8);
    }
    let inner = x.subrange(e + 4, e + 8);
    let within = Place { toks: inner, top_level: false, depth: 1, ..at };
    assert(inner[0] == u[4] && inner[1] == u[5] && inner[2] == u[6] && inner[3] == u[7]);
    assert(words_end(inner, 3) == 3);
    assert(words_end(inner, 2) == 3);
    assert(words_end(inner, 1) == 3);
    let i1 = empty.push(u[4]);
    let i2 = i1 + content;
    let i3 = i2.push(u[7]);
    assert(imports_expanded_from(sources, within, 4, known, i3) == Ok::<
        (Seq<TokenView>, Map<Seq<char>, Seq<TokenView>>),
        ExpandErrorView,
    >((i3, known)));
    assert(imports_expanded_from(sources, within, 3, known, i2) == imports_expanded_from(
        sources,
        within,
        4,
        known,
        i3,
    ));
    assert(imports_expanded_from(sources, within, 1, known, i1) == imports_expanded_from(
        sources,
        within,
        3,
        known,
        i2,
    ));
    assert(imports_expanded_from(sources, within, 0, known, empty) == imports_expanded_from(
        sources,
        within,
        1,
        known,
        i1,
    ));
    let x3 = (x2.push(u[3]) + i3).push(u[8]);
    assert(imports_expanded_from(sources, at, e + 3, known, x2) == imports_expanded_from(
        sources,
        at,
        e + 9,
        known,
        x3,
    ));
    // The end.
    let x4 = x3.push(u[9]);
    assert(imports_expanded_from(sources, at, e + 10, known, x4) == Ok::<
        (Seq<TokenView>, Map<Seq<char>, Seq<TokenView>>),
        ExpandErrorView,
    >((x4, known)));
    assert(imports_expanded_from(sources, at, e + 9, known, x3) == imports_expanded_from(
        sources,
        at,
        e + 10,
        known,
        x4,
    ));
    assert(x4 == imported_text(g, b, u));
}

proof fn lemma_spliced(
    name: Seq<char>,
    key: Seq<char>,
    h: Seq<TokenView>,
    b: Seq<TokenView>,
    t: Seq<TokenView>,
    g: Seq<TokenView>,
    u: Seq<TokenView>,
)
    requires
        of_kinds(h, site_kinds(key)),
        of_kinds(t, end_kinds()),
        of_kinds(g, site_kinds(seq!['('] + name + seq![')'])),
        of_kinds(u, import_kinds(name, key)),
        whole_lines(b),
    ensures
        spliced(h + (b + t), imported_text(g, b, u), 3 + b.len() as int),
        (h + (b + t))[0].kind == word(key),
        (h + (b + t))[1].kind == TokenKindView::LBrace,
        imported_text(g, b, u)[0].kind == TokenKindView::Newline,
        imported_text(g, b, u)[1].kind == word(key),
        imported_text(g, b, u)[2].kind == TokenKindView::LBrace,
{
    lemma_import_kinds(u, name, key);
    let y = h + (b + t);
    let x = imported_text(g, b, u);
    let hi: int = 3 + b.len() as int;
    assert(h[0].kind == site_kinds(key)[0] && h[1].kind == site_kinds(key)[1] && h[2].kind
        == site_kinds(key)[2]);
    assert(t[0].kind == end_kinds()[0] && t[1].kind == end_kinds()[1]);
    assert(g[2].kind == site_kinds(seq!['('] + name + seq![')'])[2]);
    assert(y[0] == h[0] && y[1] == h[1] && y[2] == h[2] && y[hi] == t[0] && y[hi + 1] == t[1]);
    assert(x[0] == u[1] && x[1] == u[2] && x[2] == u[3] && x[3] == u[4] && x[4] == g[2]);
    assert(x[hi + 2] == u[7] && x[hi + 3] == u[8] && x[hi + 4] == u[9]);
    if b.len() > 0 {
        assert(y[hi - 1] == b.last());
    }
    assert forall|k: int| 2 <= k < hi implies (#[trigger] y[k]).kind == x[k + 2].kind by {
        if k > 2 {
            assert(y[k] == b[k - 3]);
            assert(x[k + 2] == b[k - 3]);
        }
    }
}

proof fn lemma_parsed_alike(key: Seq<char>, y: Seq<TokenView>, x: Seq<TokenView>, hi: int)
    requires
        spliced(y, x, hi),
        y[0].kind == word(key),
        y[1].kind == TokenKindView::LBrace,
        x[0].kind == TokenKindView::Newline,
        x[1].kind == word(key),
        x[2].kind == TokenKindView::LBrace,
    ensures
        agree(raddexfile(x), raddexfile(y)),
{
    let none = Seq::<Seq<char>>::empty();
    let words = none.push(key);
    assert(line_from(y, 1, words) == (words, true, 2int));
    assert(line_from(y, 0, none) == (words, true, 2int));
    assert(line_from(x, 2, words) == (words, true, 3int));
    assert(line_from(x, 1, none) == (words, true, 3int));
    assert(skip_newlines(y, 0) == 0);
    assert(skip_newlines(x, 1) == 1);
    assert(skip_newlines(x, 0) == 1);
    let start = Cursor { pos: 0, stmt: (1, 1) };
    let later = Cursor { pos: 1, stmt: (1, 1) };
    lemma_first_item(y, x, hi, start, later, words);
}

proof fn lemma_first_item(
    y: Seq<TokenView>,
    x: Seq<TokenView>,
    hi: int,
    start: Cursor,
    later: Cursor,
    words: Seq<Seq<char>>,
)
    requires
        spliced(y, x, hi),
        start.pos == 0,
        later.pos == 1,
        skip_newlines(y, 0) == 0,
        skip_newlines(x, 1) == 1,
        y[0].kind is Word,
        x[1].kind is Word,
        words.len() > 0,
        statement(y, 0).0 == words,
        statement(y, 0).1,
        statement(y, 0).2.pos == 2,
        statement(x, 1).0 == words,
        statement(x, 1).1,
        statement(x, 1).2.pos == 3,
    ensures
        agree(
            items_from(x, later, Seq::empty(), Seq::empty()),
            items_from(y, start, Seq::empty(), Seq::empty()),
        ),
{
    let c = statement(y, 0).2;
    let d = statement(x, 1).2;
    lemma_top_level(y, c, words, true);
    lemma_top_level(x, d, words, true);
    lemma_same_top_level(y, x, hi, c, d, words, true);
    let sites = Seq::<SiteView>::empty();
    let layer4 = Seq::<Layer4ListenerView>::empty();
    if let Ok(((more, listeners), e)) = top_level(y, c, words, true) {
        let f = (top_level(x, d, words, true)->Ok_0).1;
        lemma_same_items(y, x, hi, e, f, sites + more, layer4 + listeners);
        assert(items_from(y, start, sites, layer4) == items_from(
            y,
            e,
            sites + more,
            layer4 + listeners,
        ));
        assert(items_from(x, later, sites, layer4) == items_from(
            x,
            f,
            sites + more,
            layer4 + listeners,
        ));
    }
}

} // verus!
