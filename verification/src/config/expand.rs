//! Preprocessing: environment placeholders, snippets and imports.
//!
//! The tokens of a file are rewritten before the grammar sees them. `{$NAME}`
//! placeholders are replaced by the values of environment variables, inside
//! their own token, so a value cannot change the structure of the file; a
//! top-level `(name) { ... }` defines a snippet; `import <target>` splices in a
//! snippet or the tokens of another file.
//!
//! The environment and the files come in as a [`Sources`] table, so what a file
//! means is a function of its text and of that table.
use crate::config::ast::{add_all, add_to, dup_range, Dup};
use crate::config::lexer::{lex, lexed, Token, TokenKind, TokenKindView, TokenView};
use crate::text::{
    after_char, before_char, cat2, cat3, contains_str, find_at, find_char, find_from, first_index,
    is_among, is_empty, lemma_first_index, lemma_utf8_len, owned, part, same, strip_char,
    strip_last_char, utf8_len,
};
use vstd::prelude::*;
use vstd::utf8::encode_utf8;

verus! {

/// The largest imported file, in bytes.
pub const MAX_IMPORT_BYTES: usize = 1048576;

/// How deep imports may nest.
pub const MAX_IMPORT_DEPTH: usize = 32;

/// How deep blocks may nest.
pub const MAX_BLOCK_DEPTH: usize = 100;

// ---------------------------------------------------------------------------
// Sources
// ---------------------------------------------------------------------------

/// What reading an imported file gave.
#[derive(PartialEq, Eq, Debug)]
pub enum ImportOutcome {
    /// The canonical path and the text of the file.
    Read { path: String, text: String },
    /// The file could not be read.
    Failed { message: String },
}

/// One answer to `import <target>` in `file`.
#[derive(PartialEq, Eq, Debug)]
pub struct ImportedFile {
    pub file: String,
    pub target: String,
    pub outcome: ImportOutcome,
}

/// The environment variables and the files that a configuration may refer to.
#[derive(PartialEq, Eq, Debug)]
pub struct Sources {
    pub env: Vec<(String, String)>,
    pub imports: Vec<ImportedFile>,
}

/// Why the tokens of a file could not be expanded.
#[derive(PartialEq, Eq, Debug)]
pub enum ExpandError {
    /// The file is wrong.
    Message(String),
    /// The sources say nothing of this import.
    Missing { file: String, target: String },
}

/// The model of [`ImportOutcome`].
pub ghost enum ImportOutcomeView {
    Read { path: Seq<char>, text: Seq<char> },
    Failed { message: Seq<char> },
}

/// The model of [`ImportedFile`].
pub ghost struct ImportedFileView {
    pub file: Seq<char>,
    pub target: Seq<char>,
    pub outcome: ImportOutcomeView,
}

/// The model of [`Sources`].
pub ghost struct SourcesView {
    pub env: Seq<(Seq<char>, Seq<char>)>,
    pub imports: Seq<ImportedFileView>,
}

/// The model of [`ExpandError`].
pub ghost enum ExpandErrorView {
    Message(Seq<char>),
    Missing { file: Seq<char>, target: Seq<char> },
}

impl DeepView for ImportOutcome {
    type V = ImportOutcomeView;

    open spec fn deep_view(&self) -> ImportOutcomeView {
        match self {
            ImportOutcome::Read { path, text } => ImportOutcomeView::Read {
                path: path@,
                text: text@,
            },
            ImportOutcome::Failed { message } => ImportOutcomeView::Failed { message: message@ },
        }
    }
}

impl DeepView for ImportedFile {
    type V = ImportedFileView;

    open spec fn deep_view(&self) -> ImportedFileView {
        ImportedFileView {
            file: self.file@,
            target: self.target@,
            outcome: self.outcome.deep_view(),
        }
    }
}

impl DeepView for Sources {
    type V = SourcesView;

    open spec fn deep_view(&self) -> SourcesView {
        SourcesView { env: self.env.deep_view(), imports: self.imports.deep_view() }
    }
}

impl DeepView for ExpandError {
    type V = ExpandErrorView;

    open spec fn deep_view(&self) -> ExpandErrorView {
        match self {
            ExpandError::Message(m) => ExpandErrorView::Message(m@),
            ExpandError::Missing { file, target } => ExpandErrorView::Missing {
                file: file@,
                target: target@,
            },
        }
    }
}

/// The sources with no environment variable and no file.
pub open spec fn no_sources() -> SourcesView {
    SourcesView { env: Seq::empty(), imports: Seq::empty() }
}

impl Sources {
    /// No environment variable and no file.
    pub fn none() -> (r: Sources)
        ensures
            r.deep_view() == no_sources(),
    {
        let r = Sources { env: Vec::new(), imports: Vec::new() };
        assert(r.env.deep_view() == no_sources().env);
        assert(r.imports.deep_view() == no_sources().imports);
        r
    }
}

// ---------------------------------------------------------------------------
// Environment placeholders
// ---------------------------------------------------------------------------

/// The value of the environment variable `name`.
pub open spec fn env_value(env: Seq<(Seq<char>, Seq<char>)>, name: Seq<char>) -> Option<Seq<char>>
    decreases env.len(),
{
    if env.len() == 0 {
        None
    } else if env[0].0 == name {
        Some(env[0].1)
    } else {
        env_value(env.skip(1), name)
    }
}

/// `word` from index `from` on with its `{$NAME}` placeholders replaced, after
/// `done`. A `{$` without a name or without a closing brace stays as it is; a
/// variable that is not set is an error.
pub open spec fn word_expanded(
    env: Seq<(Seq<char>, Seq<char>)>,
    word: Seq<char>,
    from: int,
    done: Seq<char>,
) -> Result<Seq<char>, Seq<char>>
    decreases word.len() - from,
    via word_expanded_shrinks
{
    let start = find_from(word, "{$"@, from);
    if from < 0 || from > word.len() || start < 0 {
        Ok(done + word.skip(from))
    } else {
        let close = start + 2 + first_index(word.skip(start + 2), '}');
        if close >= word.len() {
            Ok(done + word.skip(from))
        } else {
            let name = word.subrange(start + 2, close);
            if name.len() == 0 {
                word_expanded(
                    env,
                    word,
                    close + 1,
                    done + word.subrange(from, start) + "{$}"@,
                )
            } else {
                match env_value(env, name) {
                    None => Err("environment variable '"@ + name + "' is not set"@),
                    Some(v) => word_expanded(
                        env,
                        word,
                        close + 1,
                        done + word.subrange(from, start) + v,
                    ),
                }
            }
        }
    }
}

proof fn lemma_placeholder_found(word: Seq<char>, from: int)
    requires
        0 <= from <= word.len(),
    ensures
        find_from(word, "{$"@, from) >= 0 ==> from <= find_from(word, "{$"@, from)
            && find_from(word, "{$"@, from) + 2 <= word.len(),
    decreases word.len() - from,
{
    reveal_strlit("{$");
    if from < word.len() {
        lemma_placeholder_found(word, from + 1);
    }
}

#[via_fn]
proof fn word_expanded_shrinks(
    env: Seq<(Seq<char>, Seq<char>)>,
    word: Seq<char>,
    from: int,
    done: Seq<char>,
) {
    if 0 <= from <= word.len() {
        lemma_placeholder_found(word, from);
        let start = find_from(word, "{$"@, from);
        if start >= 0 {
            lemma_first_index(word.skip(start + 2), '}');
        }
    }
}

/// Whether `word` refers to the environment.
pub open spec fn refers_to_env(word: Seq<char>) -> bool {
    find_from(word, "{$"@, 0) >= 0
}

/// Whether two tokens are words with nothing between them: fragments of one
/// argument that the lexer split at a placeholder.
pub open spec fn adjacent(a: TokenView, b: TokenView) -> bool {
    match (a.kind, b.kind) {
        (TokenKindView::Word(w), TokenKindView::Word(_)) => a.line == b.line && a.col + w.len()
            == b.col,
        _ => false,
    }
}

/// Where the run of adjacent tokens that starts at `i` ends.
pub open spec fn run_end(toks: Seq<TokenView>, i: int) -> int
    decreases toks.len() - i,
{
    if 0 <= i && i + 1 < toks.len() && adjacent(toks[i], toks[i + 1]) {
        run_end(toks, i + 1)
    } else {
        i + 1
    }
}

/// The word of a token.
pub open spec fn word_of(t: TokenView) -> Seq<char> {
    match t.kind {
        TokenKindView::Word(w) => w,
        _ => Seq::empty(),
    }
}

/// Whether a token is a word that refers to the environment.
pub open spec fn env_token(t: TokenView) -> bool {
    t.kind is Word && refers_to_env(word_of(t))
}

/// The first token of `toks[i..end]` that refers to the environment, or `end`.
pub open spec fn first_env_token(toks: Seq<TokenView>, i: int, end: int) -> int
    decreases end - i,
{
    if i >= end || env_token(toks[i]) {
        i
    } else {
        first_env_token(toks, i + 1, end)
    }
}

/// The words of `toks[i..end]`, expanded and joined, after `done`.
pub open spec fn run_value(
    env: Seq<(Seq<char>, Seq<char>)>,
    toks: Seq<TokenView>,
    i: int,
    end: int,
    done: Seq<char>,
) -> Result<Seq<char>, Seq<char>>
    decreases end - i,
{
    if i >= end {
        Ok(done)
    } else if env_token(toks[i]) {
        match word_expanded(env, word_of(toks[i]), 0, Seq::empty()) {
            Ok(v) => run_value(env, toks, i + 1, end, done + v),
            Err(m) => Err(m),
        }
    } else {
        run_value(env, toks, i + 1, end, done + word_of(toks[i]))
    }
}

/// The tokens from `i` on with the environment expanded, after `done`: a run of
/// adjacent words that refers to the environment becomes one word, at the place
/// of the first word that refers to it.
pub open spec fn env_expanded_from(
    env: Seq<(Seq<char>, Seq<char>)>,
    toks: Seq<TokenView>,
    i: int,
    done: Seq<TokenView>,
) -> Result<Seq<TokenView>, Seq<char>>
    decreases toks.len() - i,
    via env_expanded_from_shrinks
{
    if i < 0 || i >= toks.len() {
        Ok(done)
    } else {
        let end = run_end(toks, i);
        let k = first_env_token(toks, i, end);
        if k >= end {
            env_expanded_from(env, toks, end, done + toks.subrange(i, end))
        } else {
            match run_value(env, toks, i, end, Seq::empty()) {
                Err(m) => Err(m),
                Ok(v) => env_expanded_from(
                    env,
                    toks,
                    end,
                    done.push(
                        TokenView {
                            kind: TokenKindView::Word(v),
                            line: toks[k].line,
                            col: toks[k].col,
                        },
                    ),
                ),
            }
        }
    }
}

proof fn lemma_run_end(toks: Seq<TokenView>, i: int)
    requires
        0 <= i < toks.len(),
    ensures
        i < run_end(toks, i) <= toks.len(),
    decreases toks.len() - i,
{
    if i + 1 < toks.len() && adjacent(toks[i], toks[i + 1]) {
        lemma_run_end(toks, i + 1);
    }
}

#[via_fn]
proof fn env_expanded_from_shrinks(
    env: Seq<(Seq<char>, Seq<char>)>,
    toks: Seq<TokenView>,
    i: int,
    done: Seq<TokenView>,
) {
    if 0 <= i < toks.len() {
        lemma_run_end(toks, i);
    }
}

/// The tokens with the environment expanded.
pub open spec fn env_expanded(
    env: Seq<(Seq<char>, Seq<char>)>,
    toks: Seq<TokenView>,
) -> Result<Seq<TokenView>, Seq<char>> {
    env_expanded_from(env, toks, 0, Seq::empty())
}

fn find_env<'a>(env: &'a Vec<(String, String)>, name: &str) -> (r: Option<&'a str>)
    ensures
        match r {
            Some(v) => env_value(env.deep_view(), name@) == Some(v@),
            None => env_value(env.deep_view(), name@) is None,
        },
{
    let mut i: usize = 0;
    assert(env.deep_view().skip(0) == env.deep_view());
    while i < env.len()
        invariant
            i <= env@.len(),
            env_value(env.deep_view(), name@) == env_value(env.deep_view().skip(i as int), name@),
        decreases env@.len() - i,
    {
        assert(env.deep_view().skip(i as int)[0] == (env@[i as int].0@, env@[i as int].1@));
        assert(env.deep_view().skip(i as int).skip(1) == env.deep_view().skip(i + 1));
        if same(env[i].0.as_str(), name) {
            return Some(env[i].1.as_str());
        }
        i += 1;
    }
    None
}

/// Replace every `{$NAME}` placeholder in `word` with its environment value.
pub fn expand_env_in_word(env: &Vec<(String, String)>, word: &str) -> (r: Result<String, String>)
    ensures
        match r {
            Ok(v) => word_expanded(env.deep_view(), word@, 0, Seq::empty()) == Ok::<
                Seq<char>,
                Seq<char>,
            >(v@),
            Err(m) => word_expanded(env.deep_view(), word@, 0, Seq::empty()) == Err::<
                Seq<char>,
                Seq<char>,
            >(m@),
        },
{
    let n: usize = word.unicode_len();
    let mut out = String::new();
    let mut from: usize = 0;
    loop
        invariant
            n == word@.len(),
            from <= n,
            word_expanded(env.deep_view(), word@, 0, Seq::empty()) == word_expanded(
                env.deep_view(),
                word@,
                from as int,
                out@,
            ),
        decreases n - from,
    {
        proof {
            lemma_placeholder_found(word@, from as int);
            reveal_strlit("{$");
        }
        match find_at(word, "{$", from) {
            None => {
                out.append(part(word, from, n));
                return Ok(out);
            },
            Some(start) => {
                let tail = part(word, start + 2, n);
                assert(tail@ == word@.skip(start + 2));
                proof {
                    lemma_first_index(tail@, '}');
                }
                match find_char(tail, '}') {
                    None => {
                        out.append(part(word, from, n));
                        return Ok(out);
                    },
                    Some(len) => {
                        let name = part(word, start + 2, start + 2 + len);
                        out.append(part(word, from, start));
                        if is_empty(name) {
                            out.append("{$}");
                        } else {
                            match find_env(env, name) {
                                None => {
                                    return Err(
                                        cat3("environment variable '", name, "' is not set"),
                                    );
                                },
                                Some(v) => {
                                    out.append(v);
                                },
                            }
                        }
                        from = start + 2 + len + 1;
                    },
                }
            },
        }
    }
}

fn is_env_token(t: &Token) -> (r: bool)
    ensures
        r == env_token(t.deep_view()),
{
    match &t.kind {
        TokenKind::Word(w) => contains_str(w.as_str(), "{$"),
        _ => false,
    }
}

fn are_adjacent(a: &Token, b: &Token) -> (r: bool)
    ensures
        r == adjacent(a.deep_view(), b.deep_view()),
{
    match (&a.kind, &b.kind) {
        (TokenKind::Word(w), TokenKind::Word(_)) => {
            let width: usize = w.as_str().unicode_len();
            a.line == b.line && b.col >= a.col && (b.col - a.col) as u64 == width as u64
        },
        _ => false,
    }
}

fn find_run_end(tokens: &Vec<Token>, from: usize) -> (r: usize)
    requires
        from < tokens@.len(),
    ensures
        r == run_end(tokens.deep_view(), from as int),
        from < r <= tokens@.len(),
{
    let mut i: usize = from;
    while i < tokens.len() - 1 && are_adjacent(&tokens[i], &tokens[i + 1])
        invariant
            from <= i < tokens@.len(),
            run_end(tokens.deep_view(), from as int) == run_end(tokens.deep_view(), i as int),
        decreases tokens@.len() - i,
    {
        assert(adjacent(tokens.deep_view()[i as int], tokens.deep_view()[i + 1]));
        i += 1;
    }
    assert(i + 1 < tokens@.len() ==> !adjacent(
        tokens.deep_view()[i as int],
        tokens.deep_view()[i + 1],
    ));
    i + 1
}

fn find_env_token(tokens: &Vec<Token>, from: usize, end: usize) -> (r: usize)
    requires
        from <= end <= tokens@.len(),
    ensures
        r == first_env_token(tokens.deep_view(), from as int, end as int),
        from <= r <= end,
{
    let mut i: usize = from;
    while i < end
        invariant
            from <= i <= end <= tokens@.len(),
            first_env_token(tokens.deep_view(), from as int, end as int) == first_env_token(
                tokens.deep_view(),
                i as int,
                end as int,
            ),
        decreases end - i,
    {
        assert(tokens.deep_view()[i as int] == tokens@[i as int].deep_view());
        if is_env_token(&tokens[i]) {
            return i;
        }
        i += 1;
    }
    end
}

fn expand_run(env: &Vec<(String, String)>, tokens: &Vec<Token>, from: usize, end: usize) -> (r:
    Result<String, String>)
    requires
        from <= end <= tokens@.len(),
    ensures
        match r {
            Ok(v) => run_value(
                env.deep_view(),
                tokens.deep_view(),
                from as int,
                end as int,
                Seq::empty(),
            ) == Ok::<Seq<char>, Seq<char>>(v@),
            Err(m) => run_value(
                env.deep_view(),
                tokens.deep_view(),
                from as int,
                end as int,
                Seq::empty(),
            ) == Err::<Seq<char>, Seq<char>>(m@),
        },
{
    let mut out = String::new();
    let mut i: usize = from;
    while i < end
        invariant
            from <= i <= end <= tokens@.len(),
            run_value(
                env.deep_view(),
                tokens.deep_view(),
                from as int,
                end as int,
                Seq::empty(),
            ) == run_value(env.deep_view(), tokens.deep_view(), i as int, end as int, out@),
        decreases end - i,
    {
        assert(tokens.deep_view()[i as int] == tokens@[i as int].deep_view());
        if is_env_token(&tokens[i]) {
            if let TokenKind::Word(w) = &tokens[i].kind {
                let v = match expand_env_in_word(env, w.as_str()) {
                    Ok(v) => v,
                    Err(m) => {
                        return Err(m);
                    },
                };
                out.append(v.as_str());
            }
        } else if let TokenKind::Word(w) = &tokens[i].kind {
            out.append(w.as_str());
        } else {
            assert(out@ == out@ + Seq::<char>::empty());
        }
        i += 1;
    }
    Ok(out)
}

/// Expand `{$NAME}` placeholders in a token stream.
///
/// The lexer splits a word at the placeholder braces (`https://{$HOST}:8443` is
/// three words), so when a word refers to the environment the fragments around
/// it are collapsed back into one token after expansion.
pub fn expand_env_tokens(env: &Vec<(String, String)>, tokens: &Vec<Token>) -> (r: Result<
    Vec<Token>,
    String,
>)
    ensures
        match r {
            Ok(out) => env_expanded(env.deep_view(), tokens.deep_view()) == Ok::<
                Seq<TokenView>,
                Seq<char>,
            >(out.deep_view()),
            Err(m) => env_expanded(env.deep_view(), tokens.deep_view()) == Err::<
                Seq<TokenView>,
                Seq<char>,
            >(m@),
        },
{
    let mut out: Vec<Token> = Vec::new();
    let mut i: usize = 0;
    assert(out.deep_view() == Seq::<TokenView>::empty());
    while i < tokens.len()
        invariant
            i <= tokens@.len(),
            env_expanded(env.deep_view(), tokens.deep_view()) == env_expanded_from(
                env.deep_view(),
                tokens.deep_view(),
                i as int,
                out.deep_view(),
            ),
        decreases tokens@.len() - i,
    {
        let end = find_run_end(tokens, i);
        let k = find_env_token(tokens, i, end);
        if k < end {
            let value = match expand_run(env, tokens, i, end) {
                Ok(v) => v,
                Err(m) => {
                    return Err(m);
                },
            };
            add_to(
                &mut out,
                Token { kind: TokenKind::Word(value), line: tokens[k].line, col: tokens[k].col },
            );
        } else {
            let plain = dup_range(tokens, i, end);
            add_all(&mut out, &plain);
        }
        i = end;
    }
    Ok(out)
}

// ---------------------------------------------------------------------------
// Snippets and imports
// ---------------------------------------------------------------------------

/// The index of the `}` that matches the `{` at `open`, seen from `i` with
/// `depth` braces open; `open` itself when there is none.
pub open spec fn block_end_from(toks: Seq<TokenView>, i: int, depth: int, open: int) -> int
    decreases toks.len() - i,
{
    if i < 0 || i >= toks.len() {
        open
    } else if toks[i].kind == TokenKindView::LBrace {
        block_end_from(toks, i + 1, depth + 1, open)
    } else if toks[i].kind == TokenKindView::RBrace {
        if depth <= 1 {
            i
        } else {
            block_end_from(toks, i + 1, depth - 1, open)
        }
    } else {
        block_end_from(toks, i + 1, depth, open)
    }
}

/// The index of the `}` that matches the `{` at `open`, or `open` when the block
/// is not closed.
pub open spec fn block_end(toks: Seq<TokenView>, open: int) -> int {
    block_end_from(toks, open, 0, open)
}

/// The tokens inside the block that opens at `open`; none when it is not closed.
pub open spec fn block_content(toks: Seq<TokenView>, open: int) -> Seq<TokenView> {
    let end = block_end(toks, open);
    if end == open {
        Seq::empty()
    } else {
        toks.subrange(open + 1, end)
    }
}

/// Where the words at `i` end.
pub open spec fn words_end(toks: Seq<TokenView>, i: int) -> int
    decreases toks.len() - i,
{
    if 0 <= i < toks.len() && toks[i].kind is Word {
        words_end(toks, i + 1)
    } else {
        i
    }
}

/// The name that `(name)` gives to a snippet.
pub open spec fn snippet_name(word: Seq<char>) -> Option<Seq<char>> {
    match after_char(word, '(') {
        None => None,
        Some(rest) => match before_char(rest, ')') {
            None => None,
            Some(name) => if name.len() == 0 {
                None
            } else {
                Some(name)
            },
        },
    }
}

/// What the sources say of `import <target>` in `file`: the path and the text,
/// when the text is within the size limit.
pub open spec fn imported(
    imports: Seq<ImportedFileView>,
    file: Seq<char>,
    target: Seq<char>,
) -> Result<(Seq<char>, Seq<char>), ExpandErrorView>
    decreases imports.len(),
{
    if imports.len() == 0 {
        Err(ExpandErrorView::Missing { file, target })
    } else if imports[0].file == file && imports[0].target == target {
        match imports[0].outcome {
            ImportOutcomeView::Failed { message } => Err(ExpandErrorView::Message(message)),
            ImportOutcomeView::Read { path, text } => if encode_utf8(text).len()
                > MAX_IMPORT_BYTES {
                Err(
                    ExpandErrorView::Message(
                        "imported file "@ + path + " exceeds the 1048576 byte limit"@,
                    ),
                )
            } else {
                Ok((path, text))
            },
        }
    } else {
        imported(imports.skip(1), file, target)
    }
}

/// The tokens of an imported text, with errors that name its path.
pub open spec fn imported_tokens(
    env: Seq<(Seq<char>, Seq<char>)>,
    path: Seq<char>,
    text: Seq<char>,
) -> Result<Seq<TokenView>, ExpandErrorView> {
    match env_expanded(env, lexed(text)) {
        Ok(toks) => Ok(toks),
        Err(m) => Err(ExpandErrorView::Message(path + ": "@ + m)),
    }
}

/// Where an expansion stands: the file, the tokens read, how the files nest, and
/// how deep the blocks do.
pub ghost struct Place {
    pub file: Seq<char>,
    pub toks: Seq<TokenView>,
    pub stack: Seq<Seq<char>>,
    pub top_level: bool,
    pub depth: nat,
}

/// The tokens of `at` from `i` on with snippets and imports expanded, after
/// `done`, together with the snippets known at the end.
pub open spec fn imports_expanded_from(
    sources: SourcesView,
    at: Place,
    i: int,
    snippets: Map<Seq<char>, Seq<TokenView>>,
    done: Seq<TokenView>,
) -> Result<(Seq<TokenView>, Map<Seq<char>, Seq<TokenView>>), ExpandErrorView>
    decreases
            MAX_IMPORT_DEPTH - at.stack.len(),
            MAX_BLOCK_DEPTH - at.depth,
            at.toks.len() - i,
    via imports_expanded_from_shrinks
{
    let toks = at.toks;
    if i < 0 || i >= toks.len() {
        Ok((done, snippets))
    } else {
        match toks[i].kind {
            TokenKindView::Newline | TokenKindView::RBrace => imports_expanded_from(
                sources,
                at,
                i + 1,
                snippets,
                done.push(toks[i]),
            ),
            TokenKindView::LBrace => {
                let end = block_end(toks, i);
                if at.depth >= MAX_BLOCK_DEPTH {
                    Err(ExpandErrorView::Message("block nesting exceeds 100 levels"@))
                } else if end == i {
                    imports_expanded_from(sources, at, i + 1, snippets, done.push(toks[i]))
                } else {
                    match imports_expanded_from(
                        sources,
                        Place {
                            toks: toks.subrange(i + 1, end),
                            top_level: false,
                            depth: at.depth + 1,
                            ..at
                        },
                        0,
                        snippets,
                        Seq::empty(),
                    ) {
                        Err(e) => Err(e),
                        Ok((inner, known)) => imports_expanded_from(
                            sources,
                            at,
                            end + 1,
                            known,
                            (done.push(toks[i]) + inner).push(toks[end]),
                        ),
                    }
                }
            },
            TokenKindView::Word(first) => {
                let j = words_end(toks, i);
                let opens = j < toks.len() && toks[j].kind == TokenKindView::LBrace;
                if at.top_level && opens && j == i + 1 && snippet_name(first) is Some {
                    imports_expanded_from(
                        sources,
                        at,
                        block_end(toks, j) + 1,
                        snippets.insert(snippet_name(first)->0, block_content(toks, j)),
                        done,
                    )
                } else if j == i + 2 && first == "import"@ {
                    let target = word_of(toks[i + 1]);
                    if snippets.dom().contains(target) {
                        imports_expanded_from(sources, at, j, snippets, done + snippets[target])
                    } else if at.stack.len() >= MAX_IMPORT_DEPTH {
                        Err(ExpandErrorView::Message("import nesting exceeds 32 levels"@))
                    } else {
                        match imported(sources.imports, at.file, target) {
                            Err(e) => Err(e),
                            Ok((path, text)) => if at.stack.contains(path) {
                                Err(ExpandErrorView::Message("import cycle involving "@ + path))
                            } else {
                                match imported_tokens(sources.env, path, text) {
                                    Err(e) => Err(e),
                                    Ok(inner_toks) => match imports_expanded_from(
                                        sources,
                                        Place {
                                            file: path,
                                            toks: inner_toks,
                                            stack: at.stack.push(path),
                                            top_level: true,
                                            depth: 0,
                                        },
                                        0,
                                        snippets,
                                        Seq::empty(),
                                    ) {
                                        Err(e) => Err(e),
                                        Ok((inner, known)) => imports_expanded_from(
                                            sources,
                                            at,
                                            j,
                                            known,
                                            done + inner,
                                        ),
                                    },
                                }
                            },
                        }
                    }
                } else {
                    imports_expanded_from(sources, at, j, snippets, done + toks.subrange(i, j))
                }
            },
        }
    }
}

proof fn lemma_block_end_from(toks: Seq<TokenView>, i: int, depth: int, open: int)
    requires
        0 <= open,
        open < i || (i == open && depth == 0),
        i <= toks.len(),
        i == open ==> i < toks.len() && toks[i].kind == TokenKindView::LBrace,
    ensures
        block_end_from(toks, i, depth, open) == open || open < block_end_from(toks, i, depth, open)
            < toks.len(),
    decreases toks.len() - i,
{
    if i < toks.len() {
        if toks[i].kind == TokenKindView::LBrace {
            lemma_block_end_from(toks, i + 1, depth + 1, open);
        } else if toks[i].kind == TokenKindView::RBrace {
            if depth > 1 {
                lemma_block_end_from(toks, i + 1, depth - 1, open);
            }
        } else {
            lemma_block_end_from(toks, i + 1, depth, open);
        }
    }
}

/// A block that is closed ends behind its start.
pub proof fn lemma_block_end(toks: Seq<TokenView>, open: int)
    requires
        0 <= open < toks.len(),
        toks[open].kind == TokenKindView::LBrace,
    ensures
        block_end(toks, open) == open || open < block_end(toks, open) < toks.len(),
{
    lemma_block_end_from(toks, open, 0, open);
}

/// Words end behind their start.
pub proof fn lemma_words_end(toks: Seq<TokenView>, i: int)
    requires
        0 <= i <= toks.len(),
    ensures
        i <= words_end(toks, i) <= toks.len(),
        i < toks.len() && toks[i].kind is Word ==> i < words_end(toks, i),
        forall|k: int| i <= k < words_end(toks, i) ==> (#[trigger] toks[k]).kind is Word,
    decreases toks.len() - i,
{
    if i < toks.len() && toks[i].kind is Word {
        lemma_words_end(toks, i + 1);
    }
}

#[via_fn]
proof fn imports_expanded_from_shrinks(
    sources: SourcesView,
    at: Place,
    i: int,
    snippets: Map<Seq<char>, Seq<TokenView>>,
    done: Seq<TokenView>,
) {
    let toks = at.toks;
    if 0 <= i < toks.len() {
        lemma_words_end(toks, i);
        let j = words_end(toks, i);
        if toks[i].kind == TokenKindView::LBrace {
            lemma_block_end_from(toks, i, 0, i);
        }
        if j < toks.len() && toks[j].kind == TokenKindView::LBrace {
            lemma_block_end_from(toks, j, 0, j);
        }
    }
}

/// The tokens of a file with snippets and imports expanded.
pub open spec fn imports_expanded(
    sources: SourcesView,
    file: Seq<char>,
    toks: Seq<TokenView>,
) -> Result<Seq<TokenView>, ExpandErrorView> {
    match imports_expanded_from(
        sources,
        Place { file, toks, stack: Seq::empty(), top_level: true, depth: 0 },
        0,
        Map::empty(),
        Seq::empty(),
    ) {
        Ok((out, _)) => Ok(out),
        Err(e) => Err(e),
    }
}

/// The snippets that a list of definitions makes, a later one of the same name
/// in place of an earlier one.
pub open spec fn snippet_map(defs: Seq<(Seq<char>, Seq<TokenView>)>) -> Map<
    Seq<char>,
    Seq<TokenView>,
>
    decreases defs.len(),
{
    if defs.len() == 0 {
        Map::empty()
    } else {
        snippet_map(defs.drop_last()).insert(defs.last().0, defs.last().1)
    }
}

fn find_block_end(tokens: &Vec<Token>, open: usize) -> (r: usize)
    requires
        open < tokens@.len(),
        tokens.deep_view()[open as int].kind == TokenKindView::LBrace,
    ensures
        r == block_end(tokens.deep_view(), open as int),
        open <= r < tokens@.len(),
{
    proof {
        lemma_block_end_from(tokens.deep_view(), open as int, 0, open as int);
    }
    let mut depth: usize = 0;
    let mut i: usize = open;
    while i < tokens.len()
        invariant
            open <= i <= tokens@.len(),
            depth <= i - open,
            block_end(tokens.deep_view(), open as int) == block_end_from(
                tokens.deep_view(),
                i as int,
                depth as int,
                open as int,
            ),
        decreases tokens@.len() - i,
    {
        assert(tokens.deep_view()[i as int] == tokens@[i as int].deep_view());
        match &tokens[i].kind {
            TokenKind::LBrace => {
                depth += 1;
            },
            TokenKind::RBrace => {
                if depth <= 1 {
                    return i;
                }
                depth -= 1;
            },
            _ => {},
        }
        i += 1;
    }
    open
}

/// The tokens inside the block that opens at `open` and the index of its closing
/// brace, or no token and `open` when it is not closed.
fn capture_block(tokens: &Vec<Token>, open: usize) -> (r: (Vec<Token>, usize))
    requires
        open < tokens@.len(),
        tokens.deep_view()[open as int].kind == TokenKindView::LBrace,
    ensures
        r.1 == block_end(tokens.deep_view(), open as int),
        r.0.deep_view() == block_content(tokens.deep_view(), open as int),
        open <= r.1 < tokens@.len(),
{
    let end = find_block_end(tokens, open);
    if end == open {
        let none: Vec<Token> = Vec::new();
        assert(none.deep_view() == Seq::<TokenView>::empty());
        (none, end)
    } else {
        (dup_range(tokens, open + 1, end), end)
    }
}

fn find_words_end(tokens: &Vec<Token>, from: usize) -> (r: usize)
    requires
        from <= tokens@.len(),
    ensures
        r == words_end(tokens.deep_view(), from as int),
        from <= r <= tokens@.len(),
{
    let mut i: usize = from;
    while i < tokens.len()
        invariant
            from <= i <= tokens@.len(),
            words_end(tokens.deep_view(), from as int) == words_end(tokens.deep_view(), i as int),
        decreases tokens@.len() - i,
    {
        assert(tokens.deep_view()[i as int] == tokens@[i as int].deep_view());
        match &tokens[i].kind {
            TokenKind::Word(_) => {},
            _ => {
                return i;
            },
        }
        i += 1;
    }
    i
}

/// The snippet name of a `(name)` word, or `None`.
fn strip_snippet_name<'a>(word: &'a str) -> (r: Option<&'a str>)
    ensures
        match r {
            Some(name) => snippet_name(word@) == Some(name@),
            None => snippet_name(word@) is None,
        },
{
    match strip_char(word, '(') {
        None => None,
        Some(rest) => match strip_last_char(rest, ')') {
            None => None,
            Some(name) => if is_empty(name) {
                None
            } else {
                Some(name)
            },
        },
    }
}

/// The word of a token, empty for a token that is none.
fn word_str(token: &Token) -> (r: &str)
    ensures
        r@ == word_of(token.deep_view()),
{
    match &token.kind {
        TokenKind::Word(w) => w.as_str(),
        _ => {
            proof {
                reveal_strlit("");
            }
            assert(""@ == Seq::<char>::empty());
            ""
        },
    }
}

fn find_snippet<'a>(defs: &'a Vec<(String, Vec<Token>)>, name: &str) -> (r: Option<&'a Vec<Token>>)
    ensures
        match r {
            Some(toks) => snippet_map(defs.deep_view()).dom().contains(name@) && snippet_map(
                defs.deep_view(),
            )[name@] == toks.deep_view(),
            None => !snippet_map(defs.deep_view()).dom().contains(name@),
        },
{
    let ghost all = defs.deep_view();
    let mut i: usize = defs.len();
    assert(all.take(i as int) == all);
    while i > 0
        invariant
            i <= defs@.len(),
            all == defs.deep_view(),
            snippet_map(all).dom().contains(name@) == snippet_map(
                all.take(i as int),
            ).dom().contains(name@),
            snippet_map(all).dom().contains(name@) ==> snippet_map(all)[name@] == snippet_map(
                all.take(i as int),
            )[name@],
        decreases i,
    {
        assert(all.take(i as int).drop_last() == all.take(i - 1));
        assert(all.take(i as int).last() == all[i - 1]);
        i -= 1;
        if same(defs[i].0.as_str(), name) {
            return Some(&defs[i].1);
        }
    }
    None
}

/// What the sources say of `import <target>` in `file`. A text over the size
/// limit is an error, never cut short.
fn read_imported<'a>(imports: &'a Vec<ImportedFile>, file: &str, target: &str) -> (r: Result<
    (&'a str, &'a str),
    ExpandError,
>)
    ensures
        match r {
            Ok((path, text)) => imported(imports.deep_view(), file@, target@) == Ok::<
                (Seq<char>, Seq<char>),
                ExpandErrorView,
            >((path@, text@)) && text@.len() <= MAX_IMPORT_BYTES,
            Err(e) => imported(imports.deep_view(), file@, target@) == Err::<
                (Seq<char>, Seq<char>),
                ExpandErrorView,
            >(e.deep_view()),
        },
{
    let mut i: usize = 0;
    let ghost all = imports.deep_view();
    assert(all.skip(0) == all);
    while i < imports.len()
        invariant
            i <= imports@.len(),
            all == imports.deep_view(),
            imported(all, file@, target@) == imported(all.skip(i as int), file@, target@),
        decreases imports@.len() - i,
    {
        assert(all.skip(i as int)[0] == imports@[i as int].deep_view());
        assert(all.skip(i as int).skip(1) == all.skip(i + 1));
        let entry = &imports[i];
        if same(entry.file.as_str(), file) && same(entry.target.as_str(), target) {
            return match &entry.outcome {
                ImportOutcome::Failed { message } => Err(
                    ExpandError::Message(owned(message.as_str())),
                ),
                ImportOutcome::Read { path, text } => {
                    proof {
                        lemma_utf8_len(text@);
                    }
                    if utf8_len(text.as_str()) > MAX_IMPORT_BYTES {
                        Err(
                            ExpandError::Message(
                                cat3(
                                    "imported file ",
                                    path.as_str(),
                                    " exceeds the 1048576 byte limit",
                                ),
                            ),
                        )
                    } else {
                        Ok((path.as_str(), text.as_str()))
                    }
                },
            };
        }
        i += 1;
    }
    Err(ExpandError::Missing { file: owned(file), target: owned(target) })
}

fn read_imported_tokens(env: &Vec<(String, String)>, path: &str, text: &str) -> (r: Result<
    Vec<Token>,
    ExpandError,
>)
    requires
        text@.len() <= MAX_IMPORT_BYTES,
    ensures
        match r {
            Ok(toks) => imported_tokens(env.deep_view(), path@, text@) == Ok::<
                Seq<TokenView>,
                ExpandErrorView,
            >(toks.deep_view()),
            Err(e) => imported_tokens(env.deep_view(), path@, text@) == Err::<
                Seq<TokenView>,
                ExpandErrorView,
            >(e.deep_view()),
        },
{
    let tokens = match lex(text) {
        Ok(t) => t,
        Err(m) => {
            return Err(ExpandError::Message(cat3(path, ": ", m.as_str())));
        },
    };
    match expand_env_tokens(env, &tokens) {
        Ok(t) => Ok(t),
        Err(m) => Err(ExpandError::Message(cat3(path, ": ", m.as_str()))),
    }
}

/// Expand `import` statements and collect `(name)` snippets in a token stream.
///
/// Snippet definitions at the top level are captured and removed; an `import
/// <target>` at any nesting level is replaced by the tokens of the snippet, or
/// by the expanded tokens of the file.
#[verifier::rlimit(40)]
pub fn expand_imports(
    sources: &Sources,
    file: &str,
    tokens: &Vec<Token>,
    snippets: &mut Vec<(String, Vec<Token>)>,
    stack: &mut Vec<String>,
    top_level: bool,
    depth: usize,
) -> (r: Result<Vec<Token>, ExpandError>)
    requires
        old(stack)@.len() <= MAX_IMPORT_DEPTH,
        depth <= MAX_BLOCK_DEPTH,
    ensures
        ({
            let out = imports_expanded_from(
                sources.deep_view(),
                Place {
                    file: file@,
                    toks: tokens.deep_view(),
                    stack: old(stack).deep_view(),
                    top_level,
                    depth: depth as nat,
                },
                0,
                snippet_map(old(snippets).deep_view()),
                Seq::empty(),
            );
            match r {
                Ok(toks) => out == Ok::<
                    (Seq<TokenView>, Map<Seq<char>, Seq<TokenView>>),
                    ExpandErrorView,
                >((toks.deep_view(), snippet_map(final(snippets).deep_view()))),
                Err(e) => out == Err::<
                    (Seq<TokenView>, Map<Seq<char>, Seq<TokenView>>),
                    ExpandErrorView,
                >(e.deep_view()),
            }
        }),
        r is Ok ==> final(stack).deep_view() == old(stack).deep_view(),
    decreases MAX_IMPORT_DEPTH - old(stack)@.len(), MAX_BLOCK_DEPTH - depth,
{
    let ghost at = Place {
        file: file@,
        toks: tokens.deep_view(),
        stack: stack.deep_view(),
        top_level,
        depth: depth as nat,
    };
    let ghost src = sources.deep_view();
    let ghost want = imports_expanded_from(
        src,
        at,
        0,
        snippet_map(snippets.deep_view()),
        Seq::empty(),
    );
    let mut out: Vec<Token> = Vec::new();
    let mut i: usize = 0;
    assert(out.deep_view() == Seq::<TokenView>::empty());
    while i < tokens.len()
        invariant
            i <= tokens@.len(),
            depth <= MAX_BLOCK_DEPTH,
            stack@.len() == old(stack)@.len(),
            stack@.len() <= MAX_IMPORT_DEPTH,
            stack.deep_view() == at.stack,
            at.stack == old(stack).deep_view(),
            src == sources.deep_view(),
            at == (Place {
                file: file@,
                toks: tokens.deep_view(),
                stack: stack.deep_view(),
                top_level,
                depth: depth as nat,
            }),
            want == imports_expanded_from(
                src,
                at,
                0,
                snippet_map(old(snippets).deep_view()),
                Seq::empty(),
            ),
            want == imports_expanded_from(
                src,
                at,
                i as int,
                snippet_map(snippets.deep_view()),
                out.deep_view(),
            ),
        decreases tokens@.len() - i,
    {
        assert(tokens.deep_view()[i as int] == tokens@[i as int].deep_view());
        match &tokens[i].kind {
            TokenKind::Newline | TokenKind::RBrace => {
                add_to(&mut out, tokens[i].dup());
                i += 1;
            },
            TokenKind::LBrace => {
                if depth >= MAX_BLOCK_DEPTH {
                    return Err(ExpandError::Message(owned("block nesting exceeds 100 levels")));
                }
                let (content, end) = capture_block(tokens, i);
                add_to(&mut out, tokens[i].dup());
                if end == i {
                    i += 1;
                } else {
                    let inner = match expand_imports(
                        sources,
                        file,
                        &content,
                        snippets,
                        stack,
                        false,
                        depth + 1,
                    ) {
                        Ok(t) => t,
                        Err(e) => {
                            return Err(e);
                        },
                    };
                    add_all(&mut out, &inner);
                    add_to(&mut out, tokens[end].dup());
                    i = end + 1;
                }
            },
            TokenKind::Word(first) => {
                let j = find_words_end(tokens, i);
                proof {
                    lemma_words_end(tokens.deep_view(), i as int);
                }
                let opens = j < tokens.len() && match &tokens[j].kind {
                    TokenKind::LBrace => true,
                    _ => false,
                };
                assert(opens == (j < tokens@.len() && tokens.deep_view()[j as int].kind
                    == TokenKindView::LBrace));
                let name = if top_level && opens && j == i + 1 {
                    strip_snippet_name(first.as_str())
                } else {
                    None
                };
                if let Some(name) = name {
                    let (content, end) = capture_block(tokens, j);
                    let ghost before = snippets.deep_view();
                    add_to(snippets, (owned(name), content));
                    assert(snippets.deep_view().drop_last() == before);
                    i = end + 1;
                } else if j - i == 2 && same(first.as_str(), "import") {
                    assert(tokens.deep_view()[i + 1] == tokens@[i + 1].deep_view());
                    let target = word_str(&tokens[i + 1]);
                    if let Some(snippet) = find_snippet(snippets, target) {
                        add_all(&mut out, snippet);
                    } else {
                        if stack.len() >= MAX_IMPORT_DEPTH {
                            return Err(
                                ExpandError::Message(owned("import nesting exceeds 32 levels")),
                            );
                        }
                        let (path, text) = match read_imported(&sources.imports, file, target) {
                            Ok(x) => x,
                            Err(e) => {
                                return Err(e);
                            },
                        };
                        if is_among(path, stack) {
                            return Err(ExpandError::Message(cat2("import cycle involving ", path)));
                        }
                        let inner_tokens = match read_imported_tokens(&sources.env, path, text) {
                            Ok(t) => t,
                            Err(e) => {
                                return Err(e);
                            },
                        };
                        add_to(stack, owned(path));
                        let inner = match expand_imports(
                            sources,
                            path,
                            &inner_tokens,
                            snippets,
                            stack,
                            true,
                            0,
                        ) {
                            Ok(t) => t,
                            Err(e) => {
                                return Err(e);
                            },
                        };
                        let ghost full = stack.deep_view();
                        stack.pop();
                        assert(stack.deep_view() == full.drop_last());
                        assert(stack.deep_view() == at.stack);
                        add_all(&mut out, &inner);
                    }
                    i = j;
                } else {
                    let words = dup_range(tokens, i, j);
                    add_all(&mut out, &words);
                    i = j;
                }
            },
        }
    }
    Ok(out)
}

} // verus!
