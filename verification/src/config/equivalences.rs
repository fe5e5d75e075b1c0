//! Two ways to write the same.
use crate::config::ast::{
    default_global, ConfigErrorView, DnsChallengeView, DnsCredentialsView, GlobalConfigView,
    RaddexfileView,
};
use crate::config::cursor::{line_from, skip_newlines, statement, Cursor, Fault};
use crate::config::dns::{
    cloudflare, credential, credentials_fault, missing_credential, unknown_credential,
};
use crate::config::expand::{
    block_end, block_end_from, env_expanded, env_token, imports_expanded, imports_expanded_from,
    no_sources, words_end, ExpandErrorView, Place,
};
use crate::config::lexer::{lexed, lexed_from, TokenKindView, TokenView};
use crate::config::parser::{
    credential_block, dns_challenge, global_block, global_statement, has_entry,
    items_from, parsed, raddexfile,
};
use crate::config::pieces::{
    bare, indented, lemma_bare_is_plain, lemma_lex_blank, lemma_lex_close, lemma_lex_indent,
    lemma_lex_newline, lemma_lex_open, lemma_lex_word, lemma_no_env, of_kinds, word,
};
use vstd::prelude::*;

verus! {

// ---------------------------------------------------------------------------
// The shorthand of a DNS-01 challenge
// ---------------------------------------------------------------------------

/// The shorthand, in a global block on one line.
pub open spec fn challenge_shorthand(v: Seq<char>) -> Seq<char> {
    "{ dns_challenge cloudflare "@ + v + " }\n"@
}

/// The same in the block form.
pub open spec fn challenge_block(v: Seq<char>) -> Seq<char> {
    "{\n    dns_challenge cloudflare {\n        api_token "@ + v + "\n    }\n}\n"@
}

/// The global settings with a challenge of the one provider.
pub open spec fn with_challenge(v: Seq<char>) -> GlobalConfigView {
    GlobalConfigView {
        dns_challenge: Some(
            DnsChallengeView {
                provider: cloudflare(),
                credentials: DnsCredentialsView { entries: seq![("api_token"@, v)] },
            },
        ),
        ..default_global()
    }
}

/// The shorthand of a DNS-01 challenge says what the block form says.
pub proof fn shorthand_is_the_block_form(file: Seq<char>, v: Seq<char>)
    requires
        bare(v),
    ensures
        parsed(file, challenge_shorthand(v)) matches Ok(x) && x.global == with_challenge(v),
        parsed(file, challenge_block(v)) == parsed(file, challenge_shorthand(v)),
{
    let a = lemma_lex_shorthand(v);
    lemma_shorthand(file, a, v);
    let b = lemma_lex_block(v);
    lemma_block(file, b, v);
}

spec fn shorthand_kinds(v: Seq<char>) -> Seq<TokenKindView> {
    seq![
        TokenKindView::LBrace,
        word("dns_challenge"@),
        word("cloudflare"@),
        word(v),
        TokenKindView::RBrace,
        TokenKindView::Newline,
    ]
}

spec fn block_kinds(v: Seq<char>) -> Seq<TokenKindView> {
    seq![
        TokenKindView::LBrace,
        TokenKindView::Newline,
        word("dns_challenge"@),
        word("cloudflare"@),
        TokenKindView::LBrace,
        TokenKindView::Newline,
        word("api_token"@),
        word(v),
        TokenKindView::Newline,
        TokenKindView::RBrace,
        TokenKindView::Newline,
        TokenKindView::RBrace,
        TokenKindView::Newline,
    ]
}

proof fn lemma_names_are_bare()
    ensures
        bare("dns_challenge"@),
        bare("cloudflare"@),
        bare("api_token"@),
{
    reveal_strlit("dns_challenge");
    reveal_strlit("cloudflare");
    reveal_strlit("api_token");
}

proof fn lemma_lex_shorthand(v: Seq<char>) -> (toks: Seq<TokenView>)
    requires
        bare(v),
    ensures
        lexed(challenge_shorthand(v)) == toks,
        of_kinds(toks, shorthand_kinds(v)),
{
    lemma_names_are_bare();
    let sp = seq![' '];
    let r0 = Seq::<char>::empty();
    let r1 = seq!['\n'] + r0;
    let r2 = seq!['}'] + r1;
    let r3 = sp + r2;
    let r4 = v + r3;
    let r5 = sp + r4;
    let r6 = "cloudflare"@ + r5;
    let r7 = sp + r6;
    let r8 = "dns_challenge"@ + r7;
    let r9 = sp + r8;
    let r10 = seq!['{'] + r9;
    assert(challenge_shorthand(v) == r10) by {
        reveal_strlit("{ dns_challenge cloudflare ");
        reveal_strlit("dns_challenge");
        reveal_strlit("cloudflare");
        reveal_strlit(" }\n");
    }
    let n = v.len() as int;
    let d = "dns_challenge"@.len() as int;
    let c = "cloudflare"@.len() as int;
    lemma_lex_open(r9, 1, 1);
    lemma_lex_blank(' ', r8, 1, 2);
    lemma_lex_word("dns_challenge"@, r7, 1, 3);
    lemma_lex_blank(' ', r6, 1, 3 + d);
    lemma_lex_word("cloudflare"@, r5, 1, 4 + d);
    lemma_lex_blank(' ', r4, 1, 4 + d + c);
    lemma_lex_word(v, r3, 1, 5 + d + c);
    lemma_lex_blank(' ', r2, 1, 5 + d + c + n);
    lemma_lex_close(r1, 1, 6 + d + c + n);
    lemma_lex_newline(r0, 1, 7 + d + c + n);
    assert(lexed_from(r0, 0, 2, 1) == Seq::<TokenView>::empty());
    lexed(challenge_shorthand(v))
}

proof fn lemma_lex_block(v: Seq<char>) -> (toks: Seq<TokenView>)
    requires
        bare(v),
    ensures
        lexed(challenge_block(v)) == toks,
        of_kinds(toks, block_kinds(v)),
{
    lemma_names_are_bare();
    let nl = seq!['\n'];
    let r0 = Seq::<char>::empty();
    let r1 = nl + r0;
    let r2 = seq!['}'] + r1;
    let r3 = nl + r2;
    let r4 = seq!['}'] + r3;
    let r5 = indented(r4, 4);
    let r6 = nl + r5;
    let r7 = v + r6;
    let r8 = seq![' '] + r7;
    let r9 = "api_token"@ + r8;
    let r10 = indented(r9, 8);
    let r11 = nl + r10;
    let r12 = seq!['{'] + r11;
    let r13 = seq![' '] + r12;
    let r14 = "cloudflare"@ + r13;
    let r15 = seq![' '] + r14;
    let r16 = "dns_challenge"@ + r15;
    let r17 = indented(r16, 4);
    let r18 = nl + r17;
    let r19 = seq!['{'] + r18;
    assert(challenge_block(v) == r19) by {
        reveal_strlit("{\n    dns_challenge cloudflare {\n        api_token ");
        reveal_strlit("dns_challenge");
        reveal_strlit("cloudflare");
        reveal_strlit("api_token");
        reveal_strlit("\n    }\n}\n");
    }
    let n = v.len() as int;
    let d = "dns_challenge"@.len() as int;
    let c = "cloudflare"@.len() as int;
    let a = "api_token"@.len() as int;
    lemma_lex_open(r18, 1, 1);
    lemma_lex_newline(r17, 1, 2);
    lemma_lex_indent(r16, 4, 2, 1);
    lemma_lex_word("dns_challenge"@, r15, 2, 5);
    lemma_lex_blank(' ', r14, 2, 5 + d);
    lemma_lex_word("cloudflare"@, r13, 2, 6 + d);
    lemma_lex_blank(' ', r12, 2, 6 + d + c);
    lemma_lex_open(r11, 2, 7 + d + c);
    lemma_lex_newline(r10, 2, 8 + d + c);
    lemma_lex_indent(r9, 8, 3, 1);
    lemma_lex_word("api_token"@, r8, 3, 9);
    lemma_lex_blank(' ', r7, 3, 9 + a);
    lemma_lex_word(v, r6, 3, 10 + a);
    lemma_lex_newline(r5, 3, 10 + a + n);
    lemma_lex_indent(r4, 4, 4, 1);
    lemma_lex_close(r3, 4, 5);
    lemma_lex_newline(r2, 4, 6);
    lemma_lex_close(r1, 5, 1);
    lemma_lex_newline(r0, 5, 2);
    assert(lexed_from(r0, 0, 6, 1) == Seq::<TokenView>::empty());
    lexed(challenge_block(v))
}

proof fn lemma_plain_tokens(toks: Seq<TokenView>)
    requires
        forall|k: int|
            0 <= k < toks.len() ==> ((#[trigger] toks[k]).kind matches TokenKindView::Word(w)
                ==> bare(w)),
    ensures
        env_expanded(Seq::empty(), toks) == Ok::<Seq<TokenView>, Seq<char>>(toks),
{
    assert forall|k: int| 0 <= k < toks.len() implies !env_token(#[trigger] toks[k]) by {
        if let TokenKindView::Word(w) = toks[k].kind {
            lemma_bare_is_plain(w);
        }
    }
    lemma_no_env(Seq::empty(), toks, 0, Seq::empty());
    assert(Seq::<TokenView>::empty() + toks.skip(0) == toks);
}

/// The words of a run that does not start with `import`, and opens no snippet, stay
/// as they are.
proof fn lemma_expand_words(
    at: Place,
    i: int,
    j: int,
    snippets: Map<Seq<char>, Seq<TokenView>>,
    done: Seq<TokenView>,
)
    requires
        0 <= i < j <= at.toks.len(),
        words_end(at.toks, i) == j,
        at.toks[i].kind matches TokenKindView::Word(w) && w != "import"@,
        !at.top_level,
    ensures
        imports_expanded_from(no_sources(), at, i, snippets, done) == imports_expanded_from(
            no_sources(),
            at,
            j,
            snippets,
            done + at.toks.subrange(i, j),
        ),
{
}

proof fn lemma_names_differ()
    ensures
        "dns_challenge"@ != "import"@,
        "api_token"@ != "import"@,
{
    reveal_strlit("dns_challenge");
    reveal_strlit("api_token");
    reveal_strlit("import");
    assert("dns_challenge"@.len() == 13 && "api_token"@.len() == 9 && "import"@.len() == 6);
}

proof fn lemma_credentials(v: Seq<char>)
    ensures
        credentials_fault(
            cloudflare(),
            DnsCredentialsView { entries: seq![("api_token"@, v)] },
        ) is None,
{
    let entries = seq![("api_token"@, v)];
    let p = cloudflare();
    assert(p.fields[0] == "api_token"@);
    assert(p.fields.contains("api_token"@));
    assert(unknown_credential(p, entries, 1) is None);
    assert(unknown_credential(p, entries, 0) is None);
    assert(missing_credential(p, entries, 1) is None);
    assert(credential(entries, "api_token"@) == Some(v));
    assert(missing_credential(p, entries, 0) is None);
}

proof fn lemma_shorthand(file: Seq<char>, toks: Seq<TokenView>, v: Seq<char>)
    requires
        bare(v),
        toks == lexed(challenge_shorthand(v)),
        of_kinds(toks, shorthand_kinds(v)),
    ensures
        parsed(file, challenge_shorthand(v)) == Ok::<RaddexfileView, ConfigErrorView>(
            RaddexfileView {
                global: with_challenge(v),
                sites: Seq::empty(),
                layer4: Seq::empty(),
            },
        ),
{
    lemma_names_are_bare();
    lemma_plain_tokens(toks);
    lemma_shorthand_expands(file, toks, v);
    lemma_shorthand_parses(toks, v);
}

proof fn lemma_shorthand_expands(file: Seq<char>, toks: Seq<TokenView>, v: Seq<char>)
    requires
        of_kinds(toks, shorthand_kinds(v)),
    ensures
        imports_expanded(no_sources(), file, toks) == Ok::<Seq<TokenView>, ExpandErrorView>(toks),
{
    lemma_names_differ();
    let kinds = shorthand_kinds(v);
    assert(toks[0].kind == kinds[0] && toks[1].kind == kinds[1] && toks[2].kind == kinds[2]
        && toks[3].kind == kinds[3] && toks[4].kind == kinds[4] && toks[5].kind == kinds[5]);
    let none = Map::<Seq<char>, Seq<TokenView>>::empty();
    let empty = Seq::<TokenView>::empty();
    let at = Place { file, toks, stack: Seq::empty(), top_level: true, depth: 0 };
    assert(block_end(toks, 0) == 4) by {
        assert(block_end_from(toks, 4, 1, 0) == 4);
        assert(block_end_from(toks, 3, 1, 0) == 4);
        assert(block_end_from(toks, 2, 1, 0) == 4);
        assert(block_end_from(toks, 1, 1, 0) == 4);
    }
    let inner = toks.subrange(1, 4);
    let within = Place { toks: inner, top_level: false, depth: 1, ..at };
    assert(words_end(inner, 0) == 3) by {
        assert(words_end(inner, 3) == 3);
        assert(words_end(inner, 2) == 3);
        assert(words_end(inner, 1) == 3);
    }
    lemma_expand_words(within, 0, 3, none, empty);
    assert(empty + inner.subrange(0, 3) == inner);
    assert(imports_expanded_from(no_sources(), within, 0, none, empty) == Ok::<
        (Seq<TokenView>, Map<Seq<char>, Seq<TokenView>>),
        ExpandErrorView,
    >((inner, none)));
    let front = (empty.push(toks[0]) + inner).push(toks[4]);
    assert(front.push(toks[5]) == toks);
    assert(imports_expanded_from(no_sources(), at, 6, none, toks) == Ok::<
        (Seq<TokenView>, Map<Seq<char>, Seq<TokenView>>),
        ExpandErrorView,
    >((toks, none)));
    assert(imports_expanded_from(no_sources(), at, 5, none, front) == imports_expanded_from(
        no_sources(),
        at,
        6,
        none,
        toks,
    ));
    assert(imports_expanded(no_sources(), file, toks) == Ok::<Seq<TokenView>, ExpandErrorView>(
        toks,
    ));
}

#[verifier::rlimit(50)]
proof fn lemma_shorthand_parses(toks: Seq<TokenView>, v: Seq<char>)
    requires
        of_kinds(toks, shorthand_kinds(v)),
    ensures
        raddexfile(toks) == Ok::<RaddexfileView, Fault>(
            RaddexfileView {
                global: with_challenge(v),
                sites: Seq::empty(),
                layer4: Seq::empty(),
            },
        ),
{
    let kinds = shorthand_kinds(v);
    assert(toks[0].kind == kinds[0] && toks[1].kind == kinds[1] && toks[2].kind == kinds[2]
        && toks[3].kind == kinds[3] && toks[4].kind == kinds[4] && toks[5].kind == kinds[5]);
    let w0 = Seq::<Seq<char>>::empty();
    let words = seq!["dns_challenge"@, "cloudflare"@, v];
    assert(w0.push("dns_challenge"@).push("cloudflare"@).push(v) == words);
    assert(line_from(toks, 4, words) == (words, false, 4int));
    assert(line_from(toks, 3, w0.push("dns_challenge"@).push("cloudflare"@)) == (
        words,
        false,
        4int,
    ));
    assert(line_from(toks, 2, w0.push("dns_challenge"@)) == (words, false, 4int));
    assert(line_from(toks, 1, w0) == (words, false, 4int));
    assert(skip_newlines(toks, 1) == 1);
    let g = default_global();
    let start = Cursor { pos: 1, stmt: (1, 1) };
    let (ws, open, d) = statement(toks, 1);
    assert(ws == words && !open && d.pos == 4);
    lemma_credentials(v);
    assert(dns_challenge(toks, d, words, false) is Ok);
    assert(global_statement(toks, d, g, words, false) matches Ok((h, e)) && h == with_challenge(v)
        && e == d);
    assert(global_block(toks, d, with_challenge(v)) matches Ok((h, e)) && h == with_challenge(v)
        && e.pos == 5);
    assert(global_block(toks, start, g) == global_block(toks, d, with_challenge(v)));
    let end = (global_block(toks, d, with_challenge(v))->Ok_0).1;
    assert(skip_newlines(toks, 6) == 6);
    assert(skip_newlines(toks, 5) == 6);
    assert(skip_newlines(toks, 0) == 0);
    assert(items_from(toks, end, Seq::empty(), Seq::empty()) is Ok);
}

proof fn lemma_block(file: Seq<char>, toks: Seq<TokenView>, v: Seq<char>)
    requires
        bare(v),
        toks == lexed(challenge_block(v)),
        of_kinds(toks, block_kinds(v)),
    ensures
        parsed(file, challenge_block(v)) == Ok::<RaddexfileView, ConfigErrorView>(
            RaddexfileView {
                global: with_challenge(v),
                sites: Seq::empty(),
                layer4: Seq::empty(),
            },
        ),
{
    lemma_names_are_bare();
    lemma_names_differ();
    let kinds = block_kinds(v);
    assert(toks[0].kind == kinds[0] && toks[1].kind == kinds[1] && toks[2].kind == kinds[2]
        && toks[3].kind == kinds[3] && toks[4].kind == kinds[4] && toks[5].kind == kinds[5]
        && toks[6].kind == kinds[6] && toks[7].kind == kinds[7] && toks[8].kind == kinds[8]
        && toks[9].kind == kinds[9] && toks[10].kind == kinds[10] && toks[11].kind == kinds[11]
        && toks[12].kind == kinds[12]);
    lemma_plain_tokens(toks);
    lemma_block_expands(file, toks, v);
    lemma_block_parses(toks, v);
}

proof fn lemma_block_expands(file: Seq<char>, toks: Seq<TokenView>, v: Seq<char>)
    requires
        of_kinds(toks, block_kinds(v)),
    ensures
        imports_expanded(no_sources(), file, toks) == Ok::<Seq<TokenView>, ExpandErrorView>(toks),
{
    lemma_names_differ();
    let none = Map::<Seq<char>, Seq<TokenView>>::empty();
    let empty = Seq::<TokenView>::empty();
    let kinds = block_kinds(v);
    assert(toks[0].kind == kinds[0] && toks[1].kind == kinds[1] && toks[2].kind == kinds[2]
        && toks[3].kind == kinds[3] && toks[4].kind == kinds[4] && toks[5].kind == kinds[5]
        && toks[6].kind == kinds[6] && toks[7].kind == kinds[7] && toks[8].kind == kinds[8]
        && toks[9].kind == kinds[9] && toks[10].kind == kinds[10] && toks[11].kind == kinds[11]
        && toks[12].kind == kinds[12]);
    let at = Place { file, toks, stack: Seq::empty(), top_level: true, depth: 0 };
    assert(block_end(toks, 0) == 11) by {
        assert(block_end_from(toks, 11, 1, 0) == 11);
        assert(block_end_from(toks, 10, 1, 0) == 11);
        assert(block_end_from(toks, 9, 2, 0) == 11);
        assert(block_end_from(toks, 8, 2, 0) == 11);
        assert(block_end_from(toks, 7, 2, 0) == 11);
        assert(block_end_from(toks, 6, 2, 0) == 11);
        assert(block_end_from(toks, 5, 2, 0) == 11);
        assert(block_end_from(toks, 4, 1, 0) == 11);
        assert(block_end_from(toks, 3, 1, 0) == 11);
        assert(block_end_from(toks, 2, 1, 0) == 11);
        assert(block_end_from(toks, 1, 1, 0) == 11);
    }
    let t = toks.subrange(1, 11);
    let b = Place { toks: t, top_level: false, depth: 1, ..at };
    assert(block_end(t, 3) == 8) by {
        assert(block_end_from(t, 8, 1, 3) == 8);
        assert(block_end_from(t, 7, 1, 3) == 8);
        assert(block_end_from(t, 6, 1, 3) == 8);
        assert(block_end_from(t, 5, 1, 3) == 8);
        assert(block_end_from(t, 4, 1, 3) == 8);
    }
    let u = t.subrange(4, 8);
    let c = Place { toks: u, top_level: false, depth: 2, ..b };
    assert(words_end(u, 1) == 3) by {
        assert(words_end(u, 3) == 3);
        assert(words_end(u, 2) == 3);
    }
    let u1 = empty.push(u[0]);
    let u3 = u1 + u.subrange(1, 3);
    assert(u3.push(u[3]) == u);
    assert(imports_expanded_from(no_sources(), c, 4, none, u) == Ok::<
        (Seq<TokenView>, Map<Seq<char>, Seq<TokenView>>),
        ExpandErrorView,
    >((u, none)));
    assert(imports_expanded_from(no_sources(), c, 3, none, u3) == imports_expanded_from(
        no_sources(),
        c,
        4,
        none,
        u,
    ));
    lemma_expand_words(c, 1, 3, none, u1);
    assert(imports_expanded_from(no_sources(), c, 0, none, empty) == imports_expanded_from(
        no_sources(),
        c,
        1,
        none,
        u1,
    ));
    assert(words_end(t, 1) == 3) by {
        assert(words_end(t, 3) == 3);
        assert(words_end(t, 2) == 3);
    }
    let t1 = empty.push(t[0]);
    let t3 = t1 + t.subrange(1, 3);
    let t9 = (t3.push(t[3]) + u).push(t[8]);
    assert(t9.push(t[9]) == t);
    assert(imports_expanded_from(no_sources(), b, 10, none, t) == Ok::<
        (Seq<TokenView>, Map<Seq<char>, Seq<TokenView>>),
        ExpandErrorView,
    >((t, none)));
    assert(imports_expanded_from(no_sources(), b, 9, none, t9) == imports_expanded_from(
        no_sources(),
        b,
        10,
        none,
        t,
    ));
    assert(imports_expanded_from(no_sources(), b, 3, none, t3) == imports_expanded_from(
        no_sources(),
        b,
        9,
        none,
        t9,
    ));
    lemma_expand_words(b, 1, 3, none, t1);
    assert(imports_expanded_from(no_sources(), b, 0, none, empty) == imports_expanded_from(
        no_sources(),
        b,
        1,
        none,
        t1,
    ));
    let front = (empty.push(toks[0]) + t).push(toks[11]);
    assert(front.push(toks[12]) == toks);
    assert(imports_expanded_from(no_sources(), at, 13, none, toks) == Ok::<
        (Seq<TokenView>, Map<Seq<char>, Seq<TokenView>>),
        ExpandErrorView,
    >((toks, none)));
    assert(imports_expanded_from(no_sources(), at, 12, none, front) == imports_expanded_from(
        no_sources(),
        at,
        13,
        none,
        toks,
    ));
}

/// The lines of the block form.
proof fn lemma_block_lines(toks: Seq<TokenView>, v: Seq<char>)
    requires
        of_kinds(toks, block_kinds(v)),
    ensures
        statement(toks, 1).0 == seq!["dns_challenge"@, "cloudflare"@],
        statement(toks, 1).1,
        statement(toks, 1).2.pos == 5,
        statement(toks, 5).0 == seq!["api_token"@, v],
        !statement(toks, 5).1,
        statement(toks, 5).2.pos == 9,
        statement(toks, 10).0.len() == 0,
        statement(toks, 10).2.pos == 11,
        skip_newlines(toks, 0) == 0,
        skip_newlines(toks, 12) == 13,
        toks.len() == 13,
        toks[0].kind == TokenKindView::LBrace,
        toks[1].kind == TokenKindView::Newline,
        toks[5].kind == TokenKindView::Newline,
        toks[9].kind == TokenKindView::RBrace,
        toks[10].kind == TokenKindView::Newline,
        toks[11].kind == TokenKindView::RBrace,
{
    let kinds = block_kinds(v);
    assert(toks[0].kind == kinds[0] && toks[1].kind == kinds[1] && toks[2].kind == kinds[2]
        && toks[3].kind == kinds[3] && toks[4].kind == kinds[4] && toks[5].kind == kinds[5]
        && toks[6].kind == kinds[6] && toks[7].kind == kinds[7] && toks[8].kind == kinds[8]
        && toks[9].kind == kinds[9] && toks[10].kind == kinds[10] && toks[11].kind == kinds[11]
        && toks[12].kind == kinds[12]);
    let w0 = Seq::<Seq<char>>::empty();
    let words = seq!["dns_challenge"@, "cloudflare"@];
    assert(w0.push("dns_challenge"@).push("cloudflare"@) == words);
    assert(line_from(toks, 4, words) == (words, true, 5int));
    assert(line_from(toks, 3, w0.push("dns_challenge"@)) == (words, true, 5int));
    assert(line_from(toks, 2, w0) == (words, true, 5int));
    assert(skip_newlines(toks, 2) == 2);
    assert(skip_newlines(toks, 1) == 2);
    let line = seq!["api_token"@, v];
    assert(w0.push("api_token"@).push(v) == line);
    assert(line_from(toks, 8, line) == (line, false, 9int));
    assert(line_from(toks, 7, w0.push("api_token"@)) == (line, false, 9int));
    assert(line_from(toks, 6, w0) == (line, false, 9int));
    assert(skip_newlines(toks, 6) == 6);
    assert(skip_newlines(toks, 5) == 6);
    assert(line_from(toks, 11, w0) == (w0, false, 11int));
    assert(skip_newlines(toks, 11) == 11);
    assert(skip_newlines(toks, 10) == 11);
    assert(skip_newlines(toks, 13) == 13);
}

/// The block of the challenge.
proof fn lemma_block_challenge(toks: Seq<TokenView>, v: Seq<char>)
    requires
        of_kinds(toks, block_kinds(v)),
    ensures
        global_statement(
            toks,
            statement(toks, 1).2,
            default_global(),
            seq!["dns_challenge"@, "cloudflare"@],
            true,
        ) matches Ok((h, x)) && h == with_challenge(v) && x.pos == 10,
{
    lemma_block_lines(toks, v);
    let words = seq!["dns_challenge"@, "cloudflare"@];
    let d = statement(toks, 1).2;
    let e = statement(toks, 5).2;
    let entries = seq![("api_token"@, v)];
    let no_entries = Seq::<(Seq<char>, Seq<char>)>::empty();
    assert(no_entries.push(("api_token"@, v)) == entries);
    assert(!has_entry(no_entries, "api_token"@));
    assert(credential_block(toks, e, "cloudflare"@, entries) == Ok::<_, Fault>(
        (entries, Cursor { pos: 10, ..e }),
    ));
    assert(credential_block(toks, d, "cloudflare"@, no_entries) == credential_block(
        toks,
        e,
        "cloudflare"@,
        entries,
    ));
    lemma_credentials(v);
    assert(dns_challenge(toks, d, words, true) matches Ok((h, x)) && x.pos == 10);
}

proof fn lemma_block_parses(toks: Seq<TokenView>, v: Seq<char>)
    requires
        of_kinds(toks, block_kinds(v)),
    ensures
        raddexfile(toks) == Ok::<RaddexfileView, Fault>(
            RaddexfileView {
                global: with_challenge(v),
                sites: Seq::empty(),
                layer4: Seq::empty(),
            },
        ),
{
    lemma_block_lines(toks, v);
    lemma_block_challenge(toks, v);
    let g = default_global();
    let words = seq!["dns_challenge"@, "cloudflare"@];
    let start = Cursor { pos: 1, stmt: (1, 1) };
    let d = statement(toks, 1).2;
    let f = (global_statement(toks, d, g, words, true)->Ok_0).1;
    let k = statement(toks, 10).2;
    assert(global_block(toks, k, with_challenge(v)) == Ok::<_, Fault>(
        (with_challenge(v), Cursor { pos: 12, ..k }),
    ));
    assert(global_block(toks, f, with_challenge(v)) == global_block(toks, k, with_challenge(v)));
    assert(global_block(toks, start, g) == global_block(toks, f, with_challenge(v)));
    assert(items_from(toks, Cursor { pos: 12, ..k }, Seq::empty(), Seq::empty()) is Ok);
}

} // verus!
