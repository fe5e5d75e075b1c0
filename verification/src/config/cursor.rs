//! Reading statements from a token stream.
//!
//! The grammar is line-oriented: one directive per line; a directive that opens
//! a block ends its line with `{`, and the block closes with `}`.
use crate::config::ast::{add_to, ConfigError, ConfigErrorView};
use crate::config::lexer::{Token, TokenKind, TokenKindView, TokenView};
use crate::text::owned;
use vstd::prelude::*;

verus! {

/// Where a parser stands: the next token, and the position of the statement
/// being parsed, at which errors are reported.
pub ghost struct Cursor {
    pub pos: int,
    pub stmt: (u32, u32),
}

/// An error at a position.
#[verifier::ext_equal]
pub ghost struct Fault {
    pub line: u32,
    pub col: u32,
    pub message: Seq<char>,
}

/// The error `message` about the statement at `c`.
pub open spec fn fault(c: Cursor, message: Seq<char>) -> Fault {
    Fault { line: c.stmt.0, col: c.stmt.1, message }
}

impl Fault {
    /// The error as it is reported for `file`.
    pub open spec fn error(self, file: Seq<char>) -> ConfigErrorView {
        ConfigErrorView::Parse { file, line: self.line, col: self.col, message: self.message }
    }
}

/// `r`, with its error placed at `c`.
pub open spec fn placed<V>(r: Result<V, Seq<char>>, c: Cursor) -> Result<(V, Cursor), Fault> {
    match r {
        Ok(v) => Ok((v, c)),
        Err(m) => Err(fault(c, m)),
    }
}

/// The first index at or after `pos` that is not a newline.
pub open spec fn skip_newlines(toks: Seq<TokenView>, pos: int) -> int
    decreases toks.len() - pos,
{
    if 0 <= pos < toks.len() && toks[pos].kind == TokenKindView::Newline {
        skip_newlines(toks, pos + 1)
    } else {
        pos
    }
}

/// The position of the token at `pos`, or of the last token at the end.
pub open spec fn position(toks: Seq<TokenView>, pos: int) -> (u32, u32) {
    if 0 <= pos < toks.len() {
        (toks[pos].line, toks[pos].col)
    } else if toks.len() > 0 {
        (toks.last().line, toks.last().col)
    } else {
        (1, 1)
    }
}

/// The words of a line from `pos` on, after `done`, whether the line opens a
/// block, and where it ends: after a newline or an opening brace, or before a
/// closing brace or at the end.
pub open spec fn line_from(toks: Seq<TokenView>, pos: int, done: Seq<Seq<char>>) -> (
    Seq<Seq<char>>,
    bool,
    int,
)
    decreases toks.len() - pos,
{
    if pos < 0 || pos >= toks.len() {
        (done, false, pos)
    } else {
        match toks[pos].kind {
            TokenKindView::Word(w) => line_from(toks, pos + 1, done.push(w)),
            TokenKindView::LBrace => (done, true, pos + 1),
            TokenKindView::Newline => (done, false, pos + 1),
            TokenKindView::RBrace => (done, false, pos),
        }
    }
}

/// The statement at `pos`: leading blank lines are skipped, then a line is read.
/// Gives the words, whether a block opens, and the cursor after the statement.
pub open spec fn statement(toks: Seq<TokenView>, pos: int) -> (Seq<Seq<char>>, bool, Cursor) {
    let start = skip_newlines(toks, pos);
    let (words, open, end) = line_from(toks, start, Seq::empty());
    (words, open, Cursor { pos: end, stmt: position(toks, start) })
}

pub proof fn lemma_skip_newlines(toks: Seq<TokenView>, pos: int)
    requires
        0 <= pos <= toks.len(),
    ensures
        pos <= skip_newlines(toks, pos) <= toks.len(),
        pos < toks.len() && toks[pos].kind == TokenKindView::Newline ==> pos < skip_newlines(
            toks,
            pos,
        ),
    decreases toks.len() - pos,
{
    if pos < toks.len() && toks[pos].kind == TokenKindView::Newline {
        lemma_skip_newlines(toks, pos + 1);
    }
}

proof fn lemma_line_from(toks: Seq<TokenView>, pos: int, done: Seq<Seq<char>>)
    requires
        0 <= pos <= toks.len(),
    ensures
        pos <= line_from(toks, pos, done).2 <= toks.len(),
        pos < toks.len() && toks[pos].kind != TokenKindView::RBrace ==> pos < line_from(
            toks,
            pos,
            done,
        ).2,
        line_from(toks, pos, done).0.len() >= done.len(),
        line_from(toks, pos, done).0.len() > done.len() ==> pos < line_from(toks, pos, done).2,
    decreases toks.len() - pos,
{
    if pos < toks.len() {
        if let TokenKindView::Word(w) = toks[pos].kind {
            lemma_line_from(toks, pos + 1, done.push(w));
        }
    }
}

/// A statement takes at least one token, unless the block or the file ends.
pub proof fn lemma_statement(toks: Seq<TokenView>, pos: int)
    requires
        0 <= pos <= toks.len(),
    ensures
        pos <= statement(toks, pos).2.pos <= toks.len(),
        pos < toks.len() && toks[pos].kind != TokenKindView::RBrace ==> pos < statement(
            toks,
            pos,
        ).2.pos,
{
    lemma_skip_newlines(toks, pos);
    lemma_line_from(toks, skip_newlines(toks, pos), Seq::empty());
}

/// A parser over a token stream.
pub struct Parser {
    pub file: String,
    pub tokens: Vec<Token>,
    /// The next token.
    pub pos: usize,
    /// The start of the statement being parsed, so errors point at the offending
    /// directive rather than the block terminator.
    pub stmt_pos: (u32, u32),
}

impl Parser {
    /// The tokens being parsed.
    pub open spec fn toks(self) -> Seq<TokenView> {
        self.tokens.deep_view()
    }

    /// Where the parser stands.
    pub open spec fn cursor(self) -> Cursor {
        Cursor { pos: self.pos as int, stmt: self.stmt_pos }
    }

    /// The next token is one of the stream, or its end.
    pub open spec fn wf(self) -> bool {
        self.pos <= self.tokens@.len()
    }

    /// Whether this is `before` at another place: the file and the tokens stay.
    pub open spec fn continues(self, before: Parser) -> bool {
        &&& self.wf()
        &&& self.file@ == before.file@
        &&& self.tokens == before.tokens
    }

    /// A parser at the start of `tokens`.
    pub fn new(file: &str, tokens: Vec<Token>) -> (r: Parser)
        ensures
            r.wf(),
            r.file@ == file@,
            r.tokens == tokens,
            r.cursor() == (Cursor { pos: 0, stmt: (1, 1) }),
    {
        Parser { file: owned(file), tokens, pos: 0, stmt_pos: (1, 1) }
    }

    /// The error `message` about the current statement.
    pub fn err(&self, message: String) -> (e: ConfigError)
        ensures
            e.deep_view() == fault(self.cursor(), message@).error(self.file@),
    {
        let (line, col) = self.stmt_pos;
        ConfigError::Parse { file: owned(self.file.as_str()), line, col, message }
    }

    /// The error `message` about the current statement.
    pub fn error(&self, message: &str) -> (e: ConfigError)
        ensures
            e.deep_view() == fault(self.cursor(), message@).error(self.file@),
    {
        self.err(owned(message))
    }

    /// Whether the next token closes a block.
    pub fn at_close(&self) -> (r: bool)
        requires
            self.wf(),
        ensures
            r == (self.pos < self.tokens@.len() && self.toks()[self.pos as int].kind
                == TokenKindView::RBrace),
    {
        if self.pos < self.tokens.len() {
            assert(self.toks()[self.pos as int] == self.tokens@[self.pos as int].deep_view());
            match &self.tokens[self.pos].kind {
                TokenKind::RBrace => true,
                _ => false,
            }
        } else {
            false
        }
    }

    /// Whether the next token opens a block.
    pub fn at_open(&self) -> (r: bool)
        requires
            self.wf(),
        ensures
            r == (self.pos < self.tokens@.len() && self.toks()[self.pos as int].kind
                == TokenKindView::LBrace),
    {
        if self.pos < self.tokens.len() {
            assert(self.toks()[self.pos as int] == self.tokens@[self.pos as int].deep_view());
            match &self.tokens[self.pos].kind {
                TokenKind::LBrace => true,
                _ => false,
            }
        } else {
            false
        }
    }

    /// Whether no token is left.
    pub fn at_end(&self) -> (r: bool)
        requires
            self.wf(),
        ensures
            r == (self.pos == self.tokens@.len()),
    {
        self.pos >= self.tokens.len()
    }

    /// Step over the next token.
    pub fn advance(&mut self)
        requires
            old(self).pos < old(self).tokens@.len(),
        ensures
            final(self).continues(*old(self)),
            final(self).stmt_pos == old(self).stmt_pos,
            final(self).pos == old(self).pos + 1,
    {
        if self.pos < self.tokens.len() {
            self.pos = self.pos + 1;
        }
    }

    /// The position of the current token, or of the last token at end of input.
    pub fn here(&self) -> (r: (u32, u32))
        requires
            self.wf(),
        ensures
            r == position(self.toks(), self.pos as int),
    {
        let n: usize = self.tokens.len();
        if self.pos < n {
            assert(self.toks()[self.pos as int] == self.tokens@[self.pos as int].deep_view());
            (self.tokens[self.pos].line, self.tokens[self.pos].col)
        } else if n > 0 {
            assert(self.toks().last() == self.tokens@[n - 1].deep_view());
            (self.tokens[n - 1].line, self.tokens[n - 1].col)
        } else {
            (1, 1)
        }
    }

    /// Skip blank lines.
    pub fn skip_blank(&mut self)
        requires
            old(self).wf(),
        ensures
            final(self).continues(*old(self)),
            final(self).stmt_pos == old(self).stmt_pos,
            final(self).pos == skip_newlines(old(self).toks(), old(self).pos as int),
    {
        let ghost toks = self.toks();
        let ghost start = self.pos as int;
        while self.pos < self.tokens.len()
            invariant
                self.continues(*old(self)),
                self.stmt_pos == old(self).stmt_pos,
                toks == self.toks(),
                skip_newlines(toks, start) == skip_newlines(toks, self.pos as int),
            ensures
                self.continues(*old(self)),
                self.stmt_pos == old(self).stmt_pos,
                skip_newlines(toks, start) == self.pos,
            decreases self.tokens@.len() - self.pos,
        {
            assert(toks[self.pos as int] == self.tokens@[self.pos as int].deep_view());
            match &self.tokens[self.pos].kind {
                TokenKind::Newline => {},
                _ => {
                    break;
                },
            }
            self.pos = self.pos + 1;
        }
    }

    /// Read one statement: a line of words, ending at a newline (consumed), an
    /// opening `{` (consumed), a closing `}` (not consumed), or end of input.
    /// Leading blank lines are skipped. Gives the words and whether a block
    /// opened.
    pub fn parse_statement(&mut self) -> (r: (Vec<String>, bool))
        requires
            old(self).wf(),
        ensures
            final(self).continues(*old(self)),
            statement(old(self).toks(), old(self).pos as int) == (
                r.0.deep_view(),
                r.1,
                final(self).cursor(),
            ),
            old(self).pos <= final(self).pos,
            old(self).pos < old(self).tokens@.len() && old(self).toks()[old(self).pos as int].kind
                != TokenKindView::RBrace ==> old(self).pos < final(self).pos,
    {
        proof {
            lemma_statement(self.toks(), self.pos as int);
        }
        self.skip_blank();
        self.stmt_pos = self.here();
        let ghost toks = self.toks();
        let ghost start = self.pos as int;
        let mut words: Vec<String> = Vec::new();
        let mut open = false;
        assert(words.deep_view() == Seq::<Seq<char>>::empty());
        while self.pos < self.tokens.len()
            invariant_except_break
                !open,
                line_from(toks, start, Seq::empty()) == line_from(
                    toks,
                    self.pos as int,
                    words.deep_view(),
                ),
            invariant
                self.continues(*old(self)),
                self.stmt_pos == position(toks, start),
                toks == self.toks(),
            ensures
                line_from(toks, start, Seq::empty()) == (
                    words.deep_view(),
                    open,
                    self.pos as int,
                ),
            decreases self.tokens@.len() - self.pos,
        {
            assert(toks[self.pos as int] == self.tokens@[self.pos as int].deep_view());
            match &self.tokens[self.pos].kind {
                TokenKind::Word(w) => {
                    add_to(&mut words, owned(w.as_str()));
                },
                TokenKind::LBrace => {
                    open = true;
                    self.pos = self.pos + 1;
                    break;
                },
                TokenKind::Newline => {
                    self.pos = self.pos + 1;
                    break;
                },
                TokenKind::RBrace => {
                    break;
                },
            }
            self.pos = self.pos + 1;
        }
        (words, open)
    }
}

/// Whether a parser's result and its new place are what a model describes: the
/// same value at the same place, or the same error.
pub open spec fn outcome<T: DeepView>(
    r: Result<T, ConfigError>,
    after: Parser,
    want: Result<(T::V, Cursor), Fault>,
) -> bool {
    match (r, want) {
        (Ok(v), Ok((w, c))) => v.deep_view() == w && after.cursor() == c,
        (Err(e), Err(f)) => e.deep_view() == f.error(after.file@),
        _ => false,
    }
}

} // verus!
