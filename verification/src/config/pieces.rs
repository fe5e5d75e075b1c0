//! Texts that are put together from pieces: how they lex, and how the environment
//! changes them.
use crate::config::expand::{
    adjacent, env_expanded, env_expanded_from, env_token, first_env_token, refers_to_env, run_end,
    run_value, word_expanded, word_of,
};
use crate::config::lexer::{
    comment_end, ends_word, lemma_comment_end, lemma_placeholder_end, lemma_word_end, lexed_from,
    placeholder_end, token, word_end, TokenKindView, TokenView,
};
use crate::text::{find_from, white};
use vstd::prelude::*;

verus! {

/// Whether a text is a bare word: not empty, and without a character that ends
/// one.
pub open spec fn bare(w: Seq<char>) -> bool {
    w.len() > 0 && forall|i: int| 0 <= i < w.len() ==> !ends_word(#[trigger] w[i])
}

/// Whether tokens have these kinds.
pub open spec fn of_kinds(toks: Seq<TokenView>, kinds: Seq<TokenKindView>) -> bool {
    toks.len() == kinds.len() && forall|i: int|
        0 <= i < toks.len() ==> (#[trigger] toks[i]).kind == kinds[i]
}

/// The kind of a word.
pub open spec fn word(w: Seq<char>) -> TokenKindView {
    TokenKindView::Word(w)
}

// ---------------------------------------------------------------------------
// Where a text starts does not matter
// ---------------------------------------------------------------------------

proof fn lemma_placeholder_shift(s: Seq<char>, i: int, j: int)
    requires
        0 <= i <= s.len(),
        0 <= j,
    ensures
        placeholder_end(s, i + j) == (if placeholder_end(s.skip(i), j) < 0 {
            -1
        } else {
            placeholder_end(s.skip(i), j) + i
        }),
    decreases s.len() - i - j,
{
    if i + j < s.len() {
        assert(s.skip(i)[j] == s[i + j]);
        lemma_placeholder_shift(s, i, j + 1);
    }
}

proof fn lemma_comment_shift(s: Seq<char>, i: int, j: int)
    requires
        0 <= i <= s.len(),
        0 <= j,
    ensures
        comment_end(s, i + j) == comment_end(s.skip(i), j) + i,
    decreases s.len() - i - j,
{
    if i + j < s.len() {
        assert(s.skip(i)[j] == s[i + j]);
        lemma_comment_shift(s, i, j + 1);
    }
}

proof fn lemma_word_shift(s: Seq<char>, i: int, j: int)
    requires
        0 <= i <= s.len(),
        0 <= j,
    ensures
        word_end(s, i + j) == word_end(s.skip(i), j) + i,
    decreases s.len() - i - j,
{
    if i + j < s.len() {
        assert(s.skip(i)[j] == s[i + j]);
        lemma_word_shift(s, i, j + 1);
    }
}

proof fn lemma_lex_shift(s: Seq<char>, i: int, j: int, line: int, col: int)
    requires
        0 <= i <= s.len(),
        0 <= j,
    ensures
        lexed_from(s, i + j, line, col) == lexed_from(s.skip(i), j, line, col),
    decreases s.len() - i - j,
{
    let t = s.skip(i);
    if i + j < s.len() {
        assert(t[j] == s[i + j]);
        if s[i + j] == '\n' {
            lemma_lex_shift(s, i, j + 1, line + 1, 1);
        } else if white(s[i + j]) {
            lemma_lex_shift(s, i, j + 1, line, col + 1);
        } else if s[i + j] == '{' {
            lemma_placeholder_shift(s, i, j + 1);
            lemma_placeholder_end(t, j + 1);
            let e = placeholder_end(t, j + 1);
            if e >= 0 {
                assert(t.subrange(j, e + 1) == s.subrange(i + j, i + e + 1));
                lemma_lex_shift(s, i, e + 1, line, col + (e + 1 - j));
            } else {
                lemma_lex_shift(s, i, j + 1, line, col + 1);
            }
        } else if s[i + j] == '}' {
            lemma_lex_shift(s, i, j + 1, line, col + 1);
        } else if s[i + j] == '#' {
            lemma_comment_shift(s, i, j);
            lemma_comment_end(t, j);
            let e = comment_end(t, j);
            lemma_lex_shift(s, i, e, line, col + (e - j));
        } else {
            lemma_word_shift(s, i, j);
            lemma_word_end(t, j);
            let e = word_end(t, j);
            assert(t.subrange(j, e) == s.subrange(i + j, i + e));
            lemma_lex_shift(s, i, e, line, col + (e - j));
        }
    }
}

// ---------------------------------------------------------------------------
// Pieces
// ---------------------------------------------------------------------------

/// A bare word, where one ends.
pub proof fn lemma_lex_word(w: Seq<char>, rest: Seq<char>, line: int, col: int)
    requires
        bare(w),
        rest.len() == 0 || ends_word(rest[0]),
    ensures
        lexed_from(w + rest, 0, line, col) == seq![token(TokenKindView::Word(w), line, col)]
            + lexed_from(rest, 0, line, col + w.len()),
{
    let s = w + rest;
    assert(s[0] == w[0]);
    lemma_word_reaches(w, rest, 0);
    assert(s.subrange(0, w.len() as int) == w);
    assert(white('\n'));
    lemma_lex_shift(s, w.len() as int, 0, line, col + w.len());
    assert(s.skip(w.len() as int) == rest);
}

proof fn lemma_word_reaches(w: Seq<char>, rest: Seq<char>, i: int)
    requires
        bare(w),
        rest.len() == 0 || ends_word(rest[0]),
        0 <= i <= w.len(),
    ensures
        word_end(w + rest, i) == w.len(),
    decreases w.len() - i,
{
    let s = w + rest;
    if i < w.len() {
        assert(s[i] == w[i]);
        lemma_word_reaches(w, rest, i + 1);
    } else if rest.len() > 0 {
        assert(s[i] == rest[0]);
    }
}

/// White space on a line.
pub proof fn lemma_lex_blank(c: char, rest: Seq<char>, line: int, col: int)
    requires
        white(c),
        c != '\n',
    ensures
        lexed_from(seq![c] + rest, 0, line, col) == lexed_from(rest, 0, line, col + 1),
{
    let s = seq![c] + rest;
    lemma_lex_shift(s, 1, 0, line, col + 1);
    assert(s.skip(1) == rest);
}

/// The end of a line.
pub proof fn lemma_lex_newline(rest: Seq<char>, line: int, col: int)
    ensures
        lexed_from(seq!['\n'] + rest, 0, line, col) == seq![
            token(TokenKindView::Newline, line, col),
        ] + lexed_from(rest, 0, line + 1, 1),
{
    let s = seq!['\n'] + rest;
    lemma_lex_shift(s, 1, 0, line + 1, 1);
    assert(s.skip(1) == rest);
}

/// An opening brace before white space.
pub proof fn lemma_lex_open(rest: Seq<char>, line: int, col: int)
    requires
        rest.len() > 0,
        white(rest[0]),
        rest[0] != '}',
    ensures
        lexed_from(seq!['{'] + rest, 0, line, col) == seq![token(TokenKindView::LBrace, line, col)]
            + lexed_from(rest, 0, line, col + 1),
{
    let s = seq!['{'] + rest;
    assert(s[1] == rest[0]);
    assert(placeholder_end(s, 1) == -1);
    lemma_lex_shift(s, 1, 0, line, col + 1);
    assert(s.skip(1) == rest);
}

/// A closing brace.
pub proof fn lemma_lex_close(rest: Seq<char>, line: int, col: int)
    ensures
        lexed_from(seq!['}'] + rest, 0, line, col) == seq![token(TokenKindView::RBrace, line, col)]
            + lexed_from(rest, 0, line, col + 1),
{
    let s = seq!['}'] + rest;
    lemma_lex_shift(s, 1, 0, line, col + 1);
    assert(s.skip(1) == rest);
}

/// A text behind `n` spaces.
pub open spec fn indented(rest: Seq<char>, n: nat) -> Seq<char> {
    Seq::new(n, |i: int| ' ') + rest
}

/// Spaces before a text.
pub proof fn lemma_lex_indent(rest: Seq<char>, n: nat, line: int, col: int)
    ensures
        lexed_from(indented(rest, n), 0, line, col) == lexed_from(rest, 0, line, col + n),
    decreases n,
{
    if n == 0 {
        assert(indented(rest, 0) == rest);
    } else {
        let less = indented(rest, (n - 1) as nat);
        assert(indented(rest, n) == seq![' '] + less);
        lemma_lex_blank(' ', less, line, col);
        lemma_lex_indent(rest, (n - 1) as nat, line, col + 1);
    }
}

// ---------------------------------------------------------------------------
// Lines
// ---------------------------------------------------------------------------

proof fn lemma_placeholder_stays(a: Seq<char>, b: Seq<char>, i: int)
    requires
        a.len() > 0,
        a.last() == '\n',
        0 <= i <= a.len(),
    ensures
        i < a.len() ==> placeholder_end(a + b, i) == placeholder_end(a, i),
        i < a.len() ==> placeholder_end(a, i) < a.len() - 1,
    decreases a.len() - i,
{
    assert(white('\n'));
    if i < a.len() {
        assert((a + b)[i] == a[i]);
        if i == a.len() - 1 {
            assert(a[i] == '\n');
        } else if a[i] != '}' && !white(a[i]) && a[i] != '{' {
            lemma_placeholder_stays(a, b, i + 1);
        }
    }
}

proof fn lemma_comment_stays(a: Seq<char>, b: Seq<char>, i: int)
    requires
        a.len() > 0,
        a.last() == '\n',
        0 <= i < a.len(),
    ensures
        comment_end(a + b, i) == comment_end(a, i),
        comment_end(a, i) < a.len(),
    decreases a.len() - i,
{
    assert((a + b)[i] == a[i]);
    if a[i] != '\n' {
        lemma_comment_stays(a, b, i + 1);
    }
}

proof fn lemma_word_stays(a: Seq<char>, b: Seq<char>, i: int)
    requires
        a.len() > 0,
        a.last() == '\n',
        0 <= i < a.len(),
    ensures
        word_end(a + b, i) == word_end(a, i),
        word_end(a, i) < a.len(),
    decreases a.len() - i,
{
    assert(white('\n'));
    assert((a + b)[i] == a[i]);
    if !ends_word(a[i]) {
        lemma_word_stays(a, b, i + 1);
    }
}

/// A text of whole lines lexes by itself, and what follows it starts on a line of
/// its own, whose number is given.
pub proof fn lemma_lex_join(a: Seq<char>, b: Seq<char>, i: int, line: int, col: int) -> (next: int)
    requires
        a.len() > 0,
        a.last() == '\n',
        0 <= i < a.len(),
    ensures
        lexed_from(a + b, i, line, col) == lexed_from(a, i, line, col) + lexed_from(b, 0, next, 1),
        lexed_from(a, i, line, col).len() > 0,
        lexed_from(a, i, line, col).last().kind == TokenKindView::Newline,
        line < next <= line + a.len() - i,
    decreases a.len() - i,
{
    let s = a + b;
    assert(s[i] == a[i]);
    let whole = lexed_from(a, i, line, col);
    if a[i] == '\n' {
        let first = seq![token(TokenKindView::Newline, line, col)];
        if i + 1 == a.len() {
            lemma_lex_shift(s, i + 1, 0, line + 1, 1);
            assert(s.skip(i + 1) == b);
            assert(lexed_from(a, i + 1, line + 1, 1) == Seq::<TokenView>::empty());
            assert(whole == first);
            line + 1
        } else {
            let next = lemma_lex_join(a, b, i + 1, line + 1, 1);
            let more = lexed_from(a, i + 1, line + 1, 1);
            assert(first + (more + lexed_from(b, 0, next, 1)) == whole + lexed_from(b, 0, next, 1));
            assert(whole.last() == more.last());
            next
        }
    } else if white(a[i]) {
        lemma_lex_join(a, b, i + 1, line, col + 1)
    } else if a[i] == '{' {
        lemma_placeholder_stays(a, b, i + 1);
        lemma_placeholder_end(a, i + 1);
        let e = placeholder_end(a, i + 1);
        if e >= 0 {
            assert(s.subrange(i, e + 1) == a.subrange(i, e + 1));
            let first = seq![token(TokenKindView::Word(a.subrange(i, e + 1)), line, col)];
            let c = col + (e + 1 - i);
            let next = lemma_lex_join(a, b, e + 1, line, c);
            let more = lexed_from(a, e + 1, line, c);
            assert(first + (more + lexed_from(b, 0, next, 1)) == whole + lexed_from(b, 0, next, 1));
            assert(whole.last() == more.last());
            next
        } else {
            let first = seq![token(TokenKindView::LBrace, line, col)];
            let next = lemma_lex_join(a, b, i + 1, line, col + 1);
            let more = lexed_from(a, i + 1, line, col + 1);
            assert(first + (more + lexed_from(b, 0, next, 1)) == whole + lexed_from(b, 0, next, 1));
            assert(whole.last() == more.last());
            next
        }
    } else if a[i] == '}' {
        let first = seq![token(TokenKindView::RBrace, line, col)];
        let next = lemma_lex_join(a, b, i + 1, line, col + 1);
        let more = lexed_from(a, i + 1, line, col + 1);
        assert(first + (more + lexed_from(b, 0, next, 1)) == whole + lexed_from(b, 0, next, 1));
        assert(whole.last() == more.last());
        next
    } else if a[i] == '#' {
        lemma_comment_stays(a, b, i);
        lemma_comment_end(a, i);
        let e = comment_end(a, i);
        lemma_lex_join(a, b, e, line, col + (e - i))
    } else {
        lemma_word_stays(a, b, i);
        lemma_word_end(a, i);
        let e = word_end(a, i);
        assert(s.subrange(i, e) == a.subrange(i, e));
        let first = seq![token(TokenKindView::Word(a.subrange(i, e)), line, col)];
        let c = col + (e - i);
        let next = lemma_lex_join(a, b, e, line, c);
        let more = lexed_from(a, e, line, c);
        assert(first + (more + lexed_from(b, 0, next, 1)) == whole + lexed_from(b, 0, next, 1));
        assert(whole.last() == more.last());
        next
    }
}

// ---------------------------------------------------------------------------
// Words that do not refer to the environment
// ---------------------------------------------------------------------------

proof fn lemma_run_end(toks: Seq<TokenView>, i: int)
    requires
        0 <= i < toks.len(),
    ensures
        i < run_end(toks, i) <= toks.len(),
    decreases toks.len() - i,
{
    if run_end(toks, i) != i + 1 {
        lemma_run_end(toks, i + 1);
    }
}

proof fn lemma_no_env_token(toks: Seq<TokenView>, i: int, end: int)
    requires
        0 <= i <= end <= toks.len(),
        forall|k: int| 0 <= k < toks.len() ==> !env_token(#[trigger] toks[k]),
    ensures
        first_env_token(toks, i, end) == end,
    decreases end - i,
{
    if i < end {
        lemma_no_env_token(toks, i + 1, end);
    }
}

/// Tokens that do not refer to the environment stay as they are.
pub proof fn lemma_no_env(
    env: Seq<(Seq<char>, Seq<char>)>,
    toks: Seq<TokenView>,
    i: int,
    done: Seq<TokenView>,
)
    requires
        0 <= i <= toks.len(),
        forall|k: int| 0 <= k < toks.len() ==> !env_token(#[trigger] toks[k]),
    ensures
        env_expanded_from(env, toks, i, done) == Ok::<Seq<TokenView>, Seq<char>>(
            done + toks.skip(i),
        ),
    decreases toks.len() - i,
{
    if i < toks.len() {
        lemma_run_end(toks, i);
        let end = run_end(toks, i);
        lemma_no_env_token(toks, i, end);
        lemma_no_env(env, toks, end, done + toks.subrange(i, end));
        assert(done + toks.subrange(i, end) + toks.skip(end) == done + toks.skip(i));
    } else {
        assert(done + toks.skip(i) == done);
    }
}

proof fn lemma_not_found(w: Seq<char>, p: Seq<char>, i: int)
    requires
        0 <= i,
        p.len() > 0,
        forall|k: int| 0 <= k < w.len() ==> #[trigger] w[k] != p[0],
    ensures
        find_from(w, p, i) < 0,
    decreases w.len() - i,
{
    if i + p.len() <= w.len() {
        assert(w.subrange(i, i + p.len())[0] == w[i]);
        lemma_not_found(w, p, i + 1);
    }
}

/// A bare word does not refer to the environment.
pub proof fn lemma_bare_is_plain(w: Seq<char>)
    requires
        bare(w),
    ensures
        !refers_to_env(w),
{
    reveal_strlit("{$");
    assert forall|k: int| 0 <= k < w.len() implies #[trigger] w[k] != "{$"@[0] by {
        assert(!ends_word(w[k]));
    }
    lemma_not_found(w, "{$"@, 0);
}

// ---------------------------------------------------------------------------
// The environment, piece by piece
// ---------------------------------------------------------------------------

/// Whether tokens end with a line, or there are none.
pub open spec fn whole_lines(toks: Seq<TokenView>) -> bool {
    toks.len() == 0 || toks.last().kind == TokenKindView::Newline
}

proof fn lemma_run_stays(a: Seq<TokenView>, b: Seq<TokenView>, i: int)
    requires
        0 <= i < a.len(),
        whole_lines(a),
    ensures
        run_end(a + b, i) == run_end(a, i),
        i < run_end(a, i) <= a.len(),
    decreases a.len() - i,
{
    assert((a + b)[i] == a[i]);
    if i + 1 < a.len() {
        assert((a + b)[i + 1] == a[i + 1]);
        if adjacent(a[i], a[i + 1]) {
            lemma_run_stays(a, b, i + 1);
        }
    }
}

proof fn lemma_env_token_stays(a: Seq<TokenView>, b: Seq<TokenView>, i: int, end: int)
    requires
        0 <= i <= end <= a.len(),
    ensures
        first_env_token(a + b, i, end) == first_env_token(a, i, end),
        i <= first_env_token(a, i, end) <= end,
    decreases end - i,
{
    if i < end {
        assert((a + b)[i] == a[i]);
        lemma_env_token_stays(a, b, i + 1, end);
    }
}

proof fn lemma_run_value_stays(
    env: Seq<(Seq<char>, Seq<char>)>,
    a: Seq<TokenView>,
    b: Seq<TokenView>,
    i: int,
    end: int,
    done: Seq<char>,
)
    requires
        0 <= i <= end <= a.len(),
    ensures
        run_value(env, a + b, i, end, done) == run_value(env, a, i, end, done),
    decreases end - i,
{
    if i < end {
        assert((a + b)[i] == a[i]);
        if env_token(a[i]) {
            if let Ok(v) = word_expanded(env, word_of(a[i]), 0, Seq::empty()) {
                lemma_run_value_stays(env, a, b, i + 1, end, done + v);
            }
        } else {
            lemma_run_value_stays(env, a, b, i + 1, end, done + word_of(a[i]));
        }
    }
}

/// What follows whole lines is expanded after them.
pub proof fn lemma_env_join(
    env: Seq<(Seq<char>, Seq<char>)>,
    a: Seq<TokenView>,
    b: Seq<TokenView>,
    i: int,
    done: Seq<TokenView>,
)
    requires
        0 <= i <= a.len(),
        whole_lines(a),
    ensures
        env_expanded_from(env, a + b, i, done) == (match env_expanded_from(env, a, i, done) {
            Err(m) => Err(m),
            Ok(d) => env_expanded_from(env, a + b, a.len() as int, d),
        }),
    decreases a.len() - i,
{
    if i < a.len() {
        lemma_run_stays(a, b, i);
        let end = run_end(a, i);
        lemma_env_token_stays(a, b, i, end);
        let k = first_env_token(a, i, end);
        assert((a + b).subrange(i, end) == a.subrange(i, end));
        if k >= end {
            lemma_env_join(env, a, b, end, done + a.subrange(i, end));
        } else {
            assert((a + b)[k] == a[k]);
            lemma_run_value_stays(env, a, b, i, end, Seq::empty());
            if let Ok(v) = run_value(env, a, i, end, Seq::empty()) {
                lemma_env_join(
                    env,
                    a,
                    b,
                    end,
                    done.push(
                        TokenView {
                            kind: TokenKindView::Word(v),
                            line: a[k].line,
                            col: a[k].col,
                        },
                    ),
                );
            }
        }
    }
}

proof fn lemma_run_moves(a: Seq<TokenView>, b: Seq<TokenView>, i: int)
    requires
        0 <= i < b.len(),
    ensures
        run_end(a + b, a.len() + i) == a.len() + run_end(b, i),
        i < run_end(b, i) <= b.len(),
    decreases b.len() - i,
{
    assert((a + b)[a.len() + i] == b[i]);
    if i + 1 < b.len() {
        assert((a + b)[a.len() + i + 1] == b[i + 1]);
        if adjacent(b[i], b[i + 1]) {
            lemma_run_moves(a, b, i + 1);
        }
    }
}

proof fn lemma_env_token_moves(a: Seq<TokenView>, b: Seq<TokenView>, i: int, end: int)
    requires
        0 <= i <= end <= b.len(),
    ensures
        first_env_token(a + b, a.len() + i, a.len() + end) == a.len() + first_env_token(b, i, end),
        i <= first_env_token(b, i, end) <= end,
    decreases end - i,
{
    if i < end {
        assert((a + b)[a.len() + i] == b[i]);
        lemma_env_token_moves(a, b, i + 1, end);
    }
}

proof fn lemma_run_value_moves(
    env: Seq<(Seq<char>, Seq<char>)>,
    a: Seq<TokenView>,
    b: Seq<TokenView>,
    i: int,
    end: int,
    done: Seq<char>,
)
    requires
        0 <= i <= end <= b.len(),
    ensures
        run_value(env, a + b, a.len() + i, a.len() + end, done) == run_value(env, b, i, end, done),
    decreases end - i,
{
    if i < end {
        assert((a + b)[a.len() + i] == b[i]);
        if env_token(b[i]) {
            if let Ok(v) = word_expanded(env, word_of(b[i]), 0, Seq::empty()) {
                lemma_run_value_moves(env, a, b, i + 1, end, done + v);
            }
        } else {
            lemma_run_value_moves(env, a, b, i + 1, end, done + word_of(b[i]));
        }
    }
}

/// What stands before does not matter to how the rest is expanded.
pub proof fn lemma_env_moves(
    env: Seq<(Seq<char>, Seq<char>)>,
    a: Seq<TokenView>,
    b: Seq<TokenView>,
    i: int,
    done: Seq<TokenView>,
    front: Seq<TokenView>,
)
    requires
        0 <= i <= b.len(),
    ensures
        env_expanded_from(env, a + b, a.len() + i, front + done) == (match env_expanded_from(
            env,
            b,
            i,
            done,
        ) {
            Err(m) => Err(m),
            Ok(d) => Ok(front + d),
        }),
    decreases b.len() - i,
{
    if i < b.len() {
        lemma_run_moves(a, b, i);
        let end = run_end(b, i);
        lemma_env_token_moves(a, b, i, end);
        let k = first_env_token(b, i, end);
        assert((a + b).subrange(a.len() + i, a.len() + end) == b.subrange(i, end));
        if k >= end {
            let more = done + b.subrange(i, end);
            assert(front + done + b.subrange(i, end) == front + more);
            lemma_env_moves(env, a, b, end, more, front);
        } else {
            assert((a + b)[a.len() + k] == b[k]);
            lemma_run_value_moves(env, a, b, i, end, Seq::empty());
            if let Ok(v) = run_value(env, b, i, end, Seq::empty()) {
                let t = TokenView {
                    kind: TokenKindView::Word(v),
                    line: b[k].line,
                    col: b[k].col,
                };
                assert((front + done).push(t) == front + done.push(t));
                lemma_env_moves(env, a, b, end, done.push(t), front);
            }
        }
    }
}

/// The environment changes whole lines in a text as it changes them alone.
pub proof fn lemma_env_of(
    env: Seq<(Seq<char>, Seq<char>)>,
    a: Seq<TokenView>,
    b: Seq<TokenView>,
    c: Seq<TokenView>,
)
    requires
        whole_lines(a),
        whole_lines(b),
        forall|k: int| 0 <= k < a.len() ==> !env_token(#[trigger] a[k]),
        forall|k: int| 0 <= k < c.len() ==> !env_token(#[trigger] c[k]),
    ensures
        env_expanded(env, a + (b + c)) == (match env_expanded(env, b) {
            Err(m) => Err(m),
            Ok(d) => Ok(a + (d + c)),
        }),
{
    let none = Seq::<TokenView>::empty();
    lemma_no_env(env, a, 0, none);
    assert(none + a.skip(0) == a);
    lemma_env_join(env, a, b + c, 0, none);
    assert(a + none == a);
    lemma_env_moves(env, a, b + c, 0, none, a);
    lemma_env_join(env, b, c, 0, none);
    if let Ok(d) = env_expanded_from(env, b, 0, none) {
        assert(d + none == d);
        lemma_env_moves(env, b, c, 0, none, d);
        lemma_no_env(env, c, 0, none);
        assert(none + c.skip(0) == c);
    }
}

proof fn lemma_run_of_words(toks: Seq<TokenView>, i: int)
    requires
        0 <= i < toks.len(),
    ensures
        i < run_end(toks, i) <= toks.len(),
        run_end(toks, i) > i + 1 ==> toks[run_end(toks, i) - 1].kind is Word,
    decreases toks.len() - i,
{
    if i + 1 < toks.len() && adjacent(toks[i], toks[i + 1]) {
        lemma_run_of_words(toks, i + 1);
    }
}

/// Whole lines stay whole.
pub proof fn lemma_env_last(
    env: Seq<(Seq<char>, Seq<char>)>,
    toks: Seq<TokenView>,
    i: int,
    done: Seq<TokenView>,
)
    requires
        0 <= i < toks.len(),
        toks.last().kind == TokenKindView::Newline,
    ensures
        env_expanded_from(env, toks, i, done) matches Ok(d) ==> d.len() > 0 && d.last().kind
            == TokenKindView::Newline,
    decreases toks.len() - i,
{
    lemma_run_of_words(toks, i);
    let end = run_end(toks, i);
    let k = first_env_token(toks, i, end);
    if end == toks.len() {
        assert(end == i + 1);
        assert(!env_token(toks[i]));
        assert(first_env_token(toks, i + 1, end) == end);
        assert(toks.subrange(i, end) == seq![toks[i]]);
        assert(env_expanded_from(env, toks, end, done + seq![toks[i]]) == Ok::<
            Seq<TokenView>,
            Seq<char>,
        >(done + seq![toks[i]]));
    } else if k >= end {
        lemma_env_last(env, toks, end, done + toks.subrange(i, end));
    } else if let Ok(v) = run_value(env, toks, i, end, Seq::empty()) {
        lemma_env_last(
            env,
            toks,
            end,
            done.push(
                TokenView {
                    kind: TokenKindView::Word(v),
                    line: toks[k].line,
                    col: toks[k].col,
                },
            ),
        );
    }
}

} // verus!
