//! The lexer.
//!
//! A line-oriented tokenizer that produces positioned [`Token`]s. Braces that
//! open or close blocks are tokens of their own, but a `{name}` *placeholder*
//! inside a value is one word, so it survives to value parsing. `#` starts a
//! comment that runs to the end of the line. Each token records its 1-based
//! line and column.
use crate::config::ast::{add_to, Dup};
use crate::text::{chars_of, is_white, string_of, white};
use vstd::prelude::*;

verus! {

/// A lexical token and its source position.
#[derive(PartialEq, Eq, Debug)]
pub struct Token {
    pub kind: TokenKind,
    /// 1-based line in the source file.
    pub line: u32,
    /// 1-based column in the source file.
    pub col: u32,
}

/// The kind of a [`Token`].
#[derive(PartialEq, Eq, Debug)]
pub enum TokenKind {
    /// A bare word (identifier, address, path, value fragment).
    Word(String),
    /// A block-opening brace (`{`).
    LBrace,
    /// A block-closing brace (`}`).
    RBrace,
    /// A statement terminator (newline).
    Newline,
}

/// The model of [`Token`].
#[verifier::ext_equal]
pub ghost struct TokenView {
    pub kind: TokenKindView,
    pub line: u32,
    pub col: u32,
}

/// The model of [`TokenKind`].
#[verifier::ext_equal]
pub ghost enum TokenKindView {
    Word(Seq<char>),
    LBrace,
    RBrace,
    Newline,
}

impl DeepView for TokenKind {
    type V = TokenKindView;

    open spec fn deep_view(&self) -> TokenKindView {
        match self {
            TokenKind::Word(w) => TokenKindView::Word(w@),
            TokenKind::LBrace => TokenKindView::LBrace,
            TokenKind::RBrace => TokenKindView::RBrace,
            TokenKind::Newline => TokenKindView::Newline,
        }
    }
}

impl DeepView for Token {
    type V = TokenView;

    open spec fn deep_view(&self) -> TokenView {
        TokenView { kind: self.kind.deep_view(), line: self.line, col: self.col }
    }
}

impl Dup for TokenKind {
    fn dup(&self) -> TokenKind {
        match self {
            TokenKind::Word(w) => TokenKind::Word(w.dup()),
            TokenKind::LBrace => TokenKind::LBrace,
            TokenKind::RBrace => TokenKind::RBrace,
            TokenKind::Newline => TokenKind::Newline,
        }
    }
}

impl Dup for Token {
    fn dup(&self) -> Token {
        Token { kind: self.kind.dup(), line: self.line, col: self.col }
    }
}

// ---------------------------------------------------------------------------
// What a text lexes to
// ---------------------------------------------------------------------------

/// Where the placeholder that opened before `i` closes: the index of a `}` that
/// no white space and no `{` precedes, or -1 when the brace opens a block.
pub open spec fn placeholder_end(s: Seq<char>, i: int) -> int
    decreases s.len() - i,
{
    if i < 0 || i >= s.len() {
        -1
    } else if s[i] == '}' {
        i
    } else if white(s[i]) || s[i] == '{' {
        -1
    } else {
        placeholder_end(s, i + 1)
    }
}

/// Where the comment at `i` ends: at the next newline or at the end of the text.
pub open spec fn comment_end(s: Seq<char>, i: int) -> int
    decreases s.len() - i,
{
    if i < 0 || i >= s.len() || s[i] == '\n' {
        i
    } else {
        comment_end(s, i + 1)
    }
}

/// The characters that end a bare word.
pub open spec fn ends_word(c: char) -> bool {
    white(c) || c == '{' || c == '}' || c == '#'
}

/// Where the bare word at `i` ends.
pub open spec fn word_end(s: Seq<char>, i: int) -> int
    decreases s.len() - i,
{
    if i < 0 || i >= s.len() || ends_word(s[i]) {
        i
    } else {
        word_end(s, i + 1)
    }
}

/// The token of kind `kind` at a line and column.
pub open spec fn token(kind: TokenKindView, line: int, col: int) -> TokenView {
    TokenView { kind, line: line as u32, col: col as u32 }
}

/// The tokens of `s` from index `i` on, which is at `line` and `col`.
pub open spec fn lexed_from(s: Seq<char>, i: int, line: int, col: int) -> Seq<TokenView>
    decreases s.len() - i,
    via lexed_from_shrinks
{
    if i < 0 || i >= s.len() {
        Seq::empty()
    } else if s[i] == '\n' {
        seq![token(TokenKindView::Newline, line, col)] + lexed_from(s, i + 1, line + 1, 1)
    } else if white(s[i]) {
        lexed_from(s, i + 1, line, col + 1)
    } else if s[i] == '{' {
        let e = placeholder_end(s, i + 1);
        if e >= 0 {
            seq![token(TokenKindView::Word(s.subrange(i, e + 1)), line, col)] + lexed_from(
                s,
                e + 1,
                line,
                col + (e + 1 - i),
            )
        } else {
            seq![token(TokenKindView::LBrace, line, col)] + lexed_from(s, i + 1, line, col + 1)
        }
    } else if s[i] == '}' {
        seq![token(TokenKindView::RBrace, line, col)] + lexed_from(s, i + 1, line, col + 1)
    } else if s[i] == '#' {
        let e = comment_end(s, i);
        lexed_from(s, e, line, col + (e - i))
    } else {
        let e = word_end(s, i);
        seq![token(TokenKindView::Word(s.subrange(i, e)), line, col)] + lexed_from(
            s,
            e,
            line,
            col + (e - i),
        )
    }
}

#[via_fn]
proof fn lexed_from_shrinks(s: Seq<char>, i: int, line: int, col: int) {
    if 0 <= i < s.len() {
        lemma_placeholder_end(s, i + 1);
        lemma_comment_end(s, i);
        lemma_word_end(s, i);
        assert(white('\n'));
    }
}

/// The tokens of a text.
pub open spec fn lexed(s: Seq<char>) -> Seq<TokenView> {
    lexed_from(s, 0, 1, 1)
}

/// A placeholder ends behind its start, at the first brace that closes it.
pub proof fn lemma_placeholder_end(s: Seq<char>, i: int)
    requires
        0 <= i <= s.len(),
    ensures
        placeholder_end(s, i) == -1 || i <= placeholder_end(s, i) < s.len(),
        placeholder_end(s, i) >= 0 ==> s[placeholder_end(s, i)] == '}',
        placeholder_end(s, i) >= 0 ==> forall|k: int|
            i <= k < placeholder_end(s, i) ==> !white(#[trigger] s[k]) && s[k] != '}',
    decreases s.len() - i,
{
    if i < s.len() && s[i] != '}' && !white(s[i]) && s[i] != '{' {
        lemma_placeholder_end(s, i + 1);
    }
}

/// A comment ends behind its start.
pub proof fn lemma_comment_end(s: Seq<char>, i: int)
    requires
        0 <= i <= s.len(),
    ensures
        i <= comment_end(s, i) <= s.len(),
        i < s.len() && s[i] != '\n' ==> i < comment_end(s, i),
    decreases s.len() - i,
{
    if i < s.len() && s[i] != '\n' {
        lemma_comment_end(s, i + 1);
    }
}

/// A bare word ends behind its start.
pub proof fn lemma_word_end(s: Seq<char>, i: int)
    requires
        0 <= i <= s.len(),
    ensures
        i <= word_end(s, i) <= s.len(),
        i < s.len() && !ends_word(s[i]) ==> i < word_end(s, i),
        forall|k: int| i <= k < word_end(s, i) ==> !ends_word(#[trigger] s[k]),
    decreases s.len() - i,
{
    if i < s.len() && !ends_word(s[i]) {
        lemma_word_end(s, i + 1);
    }
}

// ---------------------------------------------------------------------------
// The lexer
// ---------------------------------------------------------------------------

fn find_placeholder_end(s: &Vec<char>, from: usize) -> (r: Option<usize>)
    requires
        from <= s@.len(),
    ensures
        match r {
            Some(e) => e == placeholder_end(s@, from as int) && from <= e < s@.len(),
            None => placeholder_end(s@, from as int) == -1,
        },
{
    let mut i: usize = from;
    while i < s.len()
        invariant
            from <= i <= s@.len(),
            placeholder_end(s@, from as int) == placeholder_end(s@, i as int),
        decreases s@.len() - i,
    {
        if s[i] == '}' {
            return Some(i);
        }
        if is_white(s[i]) || s[i] == '{' {
            return None;
        }
        i += 1;
    }
    None
}

fn find_comment_end(s: &Vec<char>, from: usize) -> (r: usize)
    requires
        from <= s@.len(),
    ensures
        r == comment_end(s@, from as int),
        from <= r <= s@.len(),
{
    let mut i: usize = from;
    while i < s.len() && s[i] != '\n'
        invariant
            from <= i <= s@.len(),
            comment_end(s@, from as int) == comment_end(s@, i as int),
        decreases s@.len() - i,
    {
        i += 1;
    }
    i
}

fn find_word_end(s: &Vec<char>, from: usize) -> (r: usize)
    requires
        from <= s@.len(),
    ensures
        r == word_end(s@, from as int),
        from <= r <= s@.len(),
{
    let mut i: usize = from;
    while i < s.len() && !(is_white(s[i]) || s[i] == '{' || s[i] == '}' || s[i] == '#')
        invariant
            from <= i <= s@.len(),
            word_end(s@, from as int) == word_end(s@, i as int),
        decreases s@.len() - i,
    {
        i += 1;
    }
    i
}

/// Tokenize a configuration file.
///
/// The lexer is lenient: structural errors (unbalanced braces, unknown
/// directives) are left for the parser to report with a position.
pub fn lex(input: &str) -> (r: Result<Vec<Token>, String>)
    requires
        input@.len() < u32::MAX,
    ensures
        r matches Ok(tokens) && tokens.deep_view() == lexed(input@),
{
    let s = chars_of(input);
    let mut tokens: Vec<Token> = Vec::new();
    let mut line: u32 = 1;
    let mut col: u32 = 1;
    let mut i: usize = 0;
    assert(tokens.deep_view() + lexed(input@) == lexed(input@));
    while i < s.len()
        invariant
            s@ == input@,
            s@.len() < u32::MAX,
            i <= s@.len(),
            1 <= line <= i + 1,
            1 <= col <= i + 1,
            tokens.deep_view() + lexed_from(s@, i as int, line as int, col as int) == lexed(input@),
        decreases s@.len() - i,
    {
        let ghost before = tokens.deep_view();
        let ghost rest = lexed_from(s@, i as int, line as int, col as int);
        let c = s[i];
        let ghost white_newline = white('\n');
        proof {
            lemma_placeholder_end(s@, i + 1);
            lemma_comment_end(s@, i as int);
            lemma_word_end(s@, i as int);
        }
        if c == '\n' {
            add_to(&mut tokens, Token { kind: TokenKind::Newline, line, col });
            i += 1;
            line += 1;
            col = 1;
        } else if is_white(c) {
            i += 1;
            col += 1;
        } else if c == '{' {
            match find_placeholder_end(&s, i + 1) {
                Some(e) => {
                    let word = string_of(&s, i, e + 1);
                    add_to(&mut tokens, Token { kind: TokenKind::Word(word), line, col });
                    col += (e + 1 - i) as u32;
                    i = e + 1;
                },
                None => {
                    add_to(&mut tokens, Token { kind: TokenKind::LBrace, line, col });
                    i += 1;
                    col += 1;
                },
            }
        } else if c == '}' {
            add_to(&mut tokens, Token { kind: TokenKind::RBrace, line, col });
            i += 1;
            col += 1;
        } else if c == '#' {
            let e = find_comment_end(&s, i);
            col += (e - i) as u32;
            i = e;
        } else {
            let e = find_word_end(&s, i);
            let word = string_of(&s, i, e);
            add_to(&mut tokens, Token { kind: TokenKind::Word(word), line, col });
            col += (e - i) as u32;
            i = e;
        }
        proof {
            let left = lexed_from(s@, i as int, line as int, col as int);
            if tokens.deep_view().len() > before.len() {
                let t = tokens.deep_view().last();
                assert(tokens.deep_view() == before.push(t));
                assert(rest == seq![t] + left);
                assert(tokens.deep_view() + left == before + (seq![t] + left));
            } else {
                assert(rest == left);
            }
        }
    }
    assert(tokens.deep_view() == tokens.deep_view() + Seq::<TokenView>::empty());
    Ok(tokens)
}

// ---------------------------------------------------------------------------
// Laws
// ---------------------------------------------------------------------------

/// A word that the lexer can give: not empty, and without white space.
pub open spec fn solid_word(w: Seq<char>) -> bool {
    w.len() > 0 && forall|i: int| 0 <= i < w.len() ==> !white(#[trigger] w[i])
}

/// No word that the lexer gives is empty or holds white space, whatever the
/// text.
pub proof fn words_are_solid(s: Seq<char>, k: int)
    requires
        0 <= k < lexed(s).len(),
    ensures
        lexed(s)[k].kind matches TokenKindView::Word(w) ==> solid_word(w),
{
    lemma_solid_from(s, 0, 1, 1, k);
}

proof fn lemma_solid_from(s: Seq<char>, i: int, line: int, col: int, k: int)
    requires
        0 <= i <= s.len(),
        0 <= k < lexed_from(s, i, line, col).len(),
    ensures
        lexed_from(s, i, line, col)[k].kind matches TokenKindView::Word(w) ==> solid_word(w),
    decreases s.len() - i,
{
    if i < s.len() {
        lemma_placeholder_end(s, i + 1);
        lemma_comment_end(s, i);
        lemma_word_end(s, i);
        assert(white('\n'));
        if s[i] == '\n' {
            if k > 0 {
                lemma_solid_from(s, i + 1, line + 1, 1, k - 1);
            }
        } else if white(s[i]) {
            lemma_solid_from(s, i + 1, line, col + 1, k);
        } else if s[i] == '{' {
            let e = placeholder_end(s, i + 1);
            if e >= 0 {
                if k > 0 {
                    lemma_solid_from(s, e + 1, line, col + (e + 1 - i), k - 1);
                } else {
                    let w = s.subrange(i, e + 1);
                    assert forall|j: int| 0 <= j < w.len() implies !white(#[trigger] w[j]) by {
                        assert(w[j] == s[i + j]);
                    }
                }
            } else if k > 0 {
                lemma_solid_from(s, i + 1, line, col + 1, k - 1);
            }
        } else if s[i] == '}' {
            if k > 0 {
                lemma_solid_from(s, i + 1, line, col + 1, k - 1);
            }
        } else if s[i] == '#' {
            let e = comment_end(s, i);
            lemma_solid_from(s, e, line, col + (e - i), k);
        } else {
            let e = word_end(s, i);
            if k > 0 {
                lemma_solid_from(s, e, line, col + (e - i), k - 1);
            } else {
                let w = s.subrange(i, e);
                assert forall|j: int| 0 <= j < w.len() implies !white(#[trigger] w[j]) by {
                    assert(w[j] == s[i + j]);
                }
            }
        }
    }
}

} // verus!
