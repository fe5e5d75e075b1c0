//! Migration: convert a common subset of Caddyfile and nginx configurations.
//!
//! The converter stands on its own: it writes a configuration with directives
//! that exist, and has no influence on the grammar. Source syntax that it does
//! not support is skipped and reported as a warning. What it writes is validated
//! like any other configuration before it is handed out.
use crate::config::answers::Answers;
use crate::config::ast::add_to;
use crate::config::expand::{no_sources, Sources, SourcesView};
use crate::config::guarantees::names_do_not_matter;
use crate::config::joining::{can_stand_alone, files_can_be_joined, lemma_parses, stands_alone};
use crate::config::parser::{parsed, parsed_with};
use crate::config::snapshot::{build, built, BuildFailure};
use crate::num::{decimal, decimal_string, number, parse_u16};
use crate::text::{
    cat2, cat4, cat5, is_empty, lines_in, opens_with, owned, same, split_words, starts_with_char,
    trim_end, trimmed_end, words_from,
};
use vstd::prelude::*;

pub mod caddy;
pub mod joining;
pub mod kept;
pub mod nginx;
pub mod served;
pub mod sites;

verus! {

/// The format of a source configuration.
#[derive(Clone, Copy, PartialEq, Eq, Structural, Debug)]
pub enum ImportFormat {
    Caddyfile,
    Nginx,
}

impl ImportFormat {
    /// The name of the format.
    pub fn name(&self) -> (r: &'static str)
        ensures
            r@ == match self {
                ImportFormat::Caddyfile => "caddyfile"@,
                ImportFormat::Nginx => "nginx"@,
            },
    {
        match self {
            ImportFormat::Caddyfile => "caddyfile",
            ImportFormat::Nginx => "nginx",
        }
    }
}

/// A converted configuration, with warnings about syntax that was skipped or
/// approximated.
#[derive(PartialEq, Eq, Debug)]
pub struct Converted {
    /// The configuration.
    pub raddyfile: String,
    /// One line per item that was skipped or approximated.
    pub warnings: Vec<String>,
}

/// The model of [`Converted`].
#[verifier::ext_equal]
pub ghost struct ConvertedView {
    pub raddyfile: Seq<char>,
    pub warnings: Seq<Seq<char>>,
}

impl DeepView for Converted {
    type V = ConvertedView;

    open spec fn deep_view(&self) -> ConvertedView {
        ConvertedView { raddyfile: self.raddyfile@, warnings: self.warnings.deep_view() }
    }
}

/// Nothing written and nothing warned of.
pub open spec fn nothing() -> ConvertedView {
    ConvertedView { raddyfile: Seq::empty(), warnings: Seq::empty() }
}

/// A conversion with `text` written at its end.
pub open spec fn put(c: ConvertedView, text: Seq<char>) -> ConvertedView {
    ConvertedView { raddyfile: c.raddyfile + text, warnings: c.warnings }
}

/// A warning about a line of a source, of the format `from`.
pub open spec fn warning(from: Seq<char>, line: usize, message: Seq<char>) -> Seq<char> {
    from + ":"@ + decimal(line as nat) + ": "@ + message
}

/// A conversion with a warning added.
pub open spec fn warned(c: ConvertedView, from: Seq<char>, line: usize, message: Seq<char>)
    -> ConvertedView {
    ConvertedView {
        raddyfile: c.raddyfile,
        warnings: c.warnings.push(warning(from, line, message)),
    }
}

impl Converted {
    /// Nothing written and nothing warned of.
    pub fn new() -> (r: Converted)
        ensures
            r.deep_view() == nothing(),
    {
        let r = Converted { raddyfile: String::new(), warnings: Vec::new() };
        assert(r.deep_view() == nothing());
        r
    }

    /// Write `text` at the end.
    pub fn write(&mut self, text: &str)
        ensures
            final(self).deep_view() == put(old(self).deep_view(), text@),
    {
        self.raddyfile.append(text);
    }

    /// Warn of a line of a source of the format `from`.
    pub fn warn(&mut self, from: &str, line: usize, message: &str)
        ensures
            final(self).deep_view() == warned(old(self).deep_view(), from@, line, message@),
    {
        let n = decimal_string(line as u64);
        add_to(&mut self.warnings, cat5(from, ":", n.as_str(), ": ", message));
    }
}

/// A conversion that goes on with the warnings of another, and has written
/// nothing.
pub open spec fn apart(c: ConvertedView) -> ConvertedView {
    ConvertedView { raddyfile: Seq::empty(), warnings: c.warnings }
}

/// What a conversion had written, with the warnings of one that went on apart.
pub open spec fn rejoined(c: ConvertedView, part: ConvertedView) -> ConvertedView {
    ConvertedView { raddyfile: c.raddyfile, warnings: part.warnings }
}

impl Converted {
    /// Go on apart, with the warnings so far.
    pub fn start_apart(&mut self) -> (r: Converted)
        ensures
            r.deep_view() == apart(old(self).deep_view()),
            final(self).raddyfile@ == old(self).raddyfile@,
    {
        let mut r = Converted::new();
        assert(r.raddyfile@ == nothing().raddyfile);
        std::mem::swap(&mut r.warnings, &mut self.warnings);
        r
    }

    /// Take the warnings back, and hand out what was written apart.
    pub fn rejoin(&mut self, part: Converted) -> (text: String)
        ensures
            final(self).raddyfile@ == old(self).raddyfile@,
            final(self).deep_view().warnings == part.deep_view().warnings,
            text@ == part.deep_view().raddyfile,
    {
        self.warnings = part.warnings;
        part.raddyfile
    }
}

/// The name under which a converted text is parsed.
pub open spec fn draft_name() -> Seq<char> {
    "converted"@
}

/// Whether a text can be written as a site: it is a configuration that can stand
/// beside others, with `src` for its environment.
pub open spec fn is_site(src: SourcesView, text: Seq<char>) -> bool {
    text.len() < u32::MAX && stands_alone(src, draft_name(), text)
}

/// Whether a text can be written as a site.
pub fn makes_site(sources: &Sources, text: &str) -> (r: bool)
    ensures
        r == is_site(sources.deep_view(), text@),
{
    text.unicode_len() < u32::MAX as usize && can_stand_alone(sources, "converted", text)
}

/// What is converted is a configuration: unless it is empty it parses, in the
/// environment that it was converted for and whatever the name of the file it is
/// kept in.
pub proof fn conversions_parse(input: Seq<char>, src: SourcesView, file: Seq<char>)
    requires
        src.imports.len() == 0,
    ensures
        caddy::converted_with(input, src) matches Ok(c) ==> c.raddyfile.len() == 0 || parsed_with(
            file,
            c.raddyfile,
            src,
        ) is Ok,
        nginx::converted_with(input, src) matches Ok(c) ==> c.raddyfile.len() == 0 || parsed_with(
            file,
            c.raddyfile,
            src,
        ) is Ok,
        caddy::converted(input) matches Ok(c) ==> c.raddyfile.len() == 0 || parsed(
            file,
            c.raddyfile,
        ) is Ok,
        nginx::converted(input) matches Ok(c) ==> c.raddyfile.len() == 0 || parsed(
            file,
            c.raddyfile,
        ) is Ok,
{
    lemma_output_parses(input, src, file);
    lemma_output_parses(input, no_sources(), file);
}

proof fn lemma_output_parses(input: Seq<char>, src: SourcesView, file: Seq<char>)
    requires
        src.imports.len() == 0,
    ensures
        caddy::converted_with(input, src) matches Ok(c) ==> c.raddyfile.len() == 0 || parsed_with(
            file,
            c.raddyfile,
            src,
        ) is Ok,
        nginx::converted_with(input, src) matches Ok(c) ==> c.raddyfile.len() == 0 || parsed_with(
            file,
            c.raddyfile,
            src,
        ) is Ok,
{
    if let Ok(stmts) = statements(lines_in(input)) {
        lemma_caddy_output(src, stmts, stmts.len());
        lemma_nginx_output(src, stmts, stmts.len());
        let c = caddy::top_levels(src, stmts, stmts.len()).raddyfile;
        let n = nginx::top_levels(src, stmts, stmts.len()).raddyfile;
        names_do_not_matter(src, draft_name(), file, c);
        names_do_not_matter(src, draft_name(), file, n);
        if c.len() > 0 {
            lemma_parses(src, draft_name(), c);
        }
        if n.len() > 0 {
            lemma_parses(src, draft_name(), n);
        }
    }
}

/// Whether what was written is nothing, or a configuration that can stand beside
/// others.
spec fn sound(src: SourcesView, text: Seq<char>) -> bool {
    text.len() == 0 || stands_alone(src, draft_name(), text)
}

proof fn lemma_sound(src: SourcesView, text: Seq<char>, more: Seq<char>)
    requires
        src.imports.len() == 0,
        sound(src, text),
        stands_alone(src, draft_name(), more),
    ensures
        sound(src, text + more),
{
    if text.len() == 0 {
        assert(text + more == more);
    } else {
        files_can_be_joined(src, draft_name(), text, more);
    }
}

proof fn lemma_caddy_output(src: SourcesView, stmts: Seq<StmtView>, n: nat)
    requires
        src.imports.len() == 0,
    ensures
        sound(src, caddy::top_levels(src, stmts, n).raddyfile),
    decreases n,
{
    if n > 0 {
        let c = caddy::top_levels(src, stmts, (n - 1) as nat);
        let s = stmts[n - 1];
        lemma_caddy_output(src, stmts, (n - 1) as nat);
        if let Some(text) = caddy::lemma_site_text(src, c, s) {
            lemma_sound(src, c.raddyfile, text);
        }
    }
}

proof fn lemma_nginx_output(src: SourcesView, stmts: Seq<StmtView>, n: nat)
    requires
        src.imports.len() == 0,
    ensures
        sound(src, nginx::top_levels(src, stmts, n).raddyfile),
    decreases n,
{
    if n > 0 {
        let c = nginx::top_levels(src, stmts, (n - 1) as nat);
        let s = stmts[n - 1];
        lemma_nginx_output(src, stmts, (n - 1) as nat);
        if let Some(text) = nginx::lemma_server_text(src, c, s) {
            lemma_sound(src, c.raddyfile, text);
        }
    }
}

/// Whether a conversion grew from another: what was written and warned of
/// stays.
pub open spec fn grew(a: ConvertedView, b: ConvertedView) -> bool {
    &&& a.raddyfile.is_prefix_of(b.raddyfile)
    &&& a.warnings.is_prefix_of(b.warnings)
}

/// Whether a conversion grew from another by at least a character or a warning.
pub open spec fn left_a_trace(a: ConvertedView, b: ConvertedView) -> bool {
    &&& grew(a, b)
    &&& a.raddyfile.len() < b.raddyfile.len() || a.warnings.len() < b.warnings.len()
}

/// Why a source could not be converted.
#[derive(PartialEq, Eq, Debug)]
pub enum MigrateError {
    /// The file could not be read.
    Io { file: String, source: String },
    /// The source is not well formed.
    Invalid { message: String },
}

impl MigrateError {
    /// The message for people.
    pub open spec fn text(self) -> Seq<char> {
        match self {
            MigrateError::Io { file, source } => "failed to read "@ + file@ + ": "@ + source@,
            MigrateError::Invalid { message } => "invalid source: "@ + message@,
        }
    }

    /// The message for people.
    pub fn describe(&self) -> (r: String)
        ensures
            r@ == self.text(),
    {
        match self {
            MigrateError::Io { file, source } => cat4(
                "failed to read ",
                file.as_str(),
                ": ",
                source.as_str(),
            ),
            MigrateError::Invalid { message } => cat2("invalid source: ", message.as_str()),
        }
    }
}

/// Convert the text of a source: `read` is the text, or why the file could not
/// be read; `sources` holds the environment of what is converted.
pub fn import(
    format: ImportFormat,
    file: &str,
    read: Result<&str, &str>,
    sources: &Sources,
) -> (r: Result<Converted, MigrateError>)
    ensures
        match read {
            Err(e) => r matches Err(MigrateError::Io { file: f, source }) && f@ == file@
                && source@ == e@,
            Ok(input) => match (
                r,
                match format {
                    ImportFormat::Caddyfile => caddy::converted_with(input@, sources.deep_view()),
                    ImportFormat::Nginx => nginx::converted_with(input@, sources.deep_view()),
                },
            ) {
                (Ok(c), Ok(w)) => c.deep_view() == w,
                (Err(MigrateError::Invalid { message }), Err(w)) => message@ == w,
                _ => false,
            },
        },
{
    let input = match read {
        Ok(input) => input,
        Err(e) => {
            return Err(MigrateError::Io { file: owned(file), source: owned(e) });
        },
    };
    let outcome = match format {
        ImportFormat::Caddyfile => caddy::convert_with(input, sources),
        ImportFormat::Nginx => nginx::convert_with(input, sources),
    };
    match outcome {
        Ok(c) => Ok(c),
        Err(message) => Err(MigrateError::Invalid { message }),
    }
}

/// Whether a conversion can be handed out: when it wrote nothing, or when what it
/// wrote builds as a configuration. `sources` and `answers` are those of
/// [`build`]; when something is missing the caller is told what to get.
pub fn check_emitted(file: &str, converted: &Converted, sources: &Sources, answers: &Answers) -> (r:
    Result<(), BuildFailure>)
    requires
        converted.raddyfile@.len() < u32::MAX,
    ensures
        ({
            let text = converted.raddyfile@;
            let outcome = built(file@, Ok(text), sources.deep_view(), answers.deep_view());
            match r {
                Ok(()) => text.len() == 0 || outcome is Ok,
                Err(e) => text.len() > 0 && (outcome matches Err(f) && e.deep_view() == f),
            }
        }),
{
    if is_empty(converted.raddyfile.as_str()) {
        return Ok(());
    }
    match build(file, Ok(converted.raddyfile.as_str()), sources, answers) {
        Ok(_) => Ok(()),
        Err(e) => Err(e),
    }
}

// ---------------------------------------------------------------------------
// Statements
// ---------------------------------------------------------------------------

/// One statement: a directive and its arguments, and a block of statements when
/// the line opened one.
pub struct Stmt {
    /// The line of the source, counted from one.
    pub line: usize,
    /// The name and the arguments, without braces and semicolons.
    pub words: Vec<String>,
    pub block: Vec<Stmt>,
}

/// The model of [`Stmt`].
#[verifier::ext_equal]
pub ghost struct StmtView {
    pub line: usize,
    pub words: Seq<Seq<char>>,
    pub block: Seq<StmtView>,
}

/// The model of a statement.
pub open spec fn stmt_view(s: Stmt) -> StmtView
    decreases s,
{
    StmtView { line: s.line, words: s.words.deep_view(), block: stmts_view(s.block@) }
}

/// The model of a list of statements.
pub open spec fn stmts_view(s: Seq<Stmt>) -> Seq<StmtView>
    decreases s,
{
    Seq::new(
        s.len(),
        |i: int|
            if 0 <= i < s.len() {
                stmt_view(s[i])
            } else {
                arbitrary()
            },
    )
}

impl DeepView for Stmt {
    type V = StmtView;

    open spec fn deep_view(&self) -> StmtView {
        stmt_view(*self)
    }
}

/// The first word of a statement, empty when it has none.
pub open spec fn first_word(words: Seq<Seq<char>>) -> Seq<char> {
    if words.len() > 0 {
        words[0]
    } else {
        Seq::empty()
    }
}

/// The first word of a statement, empty when it has none.
pub fn head_word<'a>(words: &'a Vec<String>) -> (r: &'a str)
    ensures
        r@ == first_word(words.deep_view()),
{
    if words.len() > 0 {
        words[0].as_str()
    } else {
        proof {
            reveal_strlit("");
        }
        assert(""@ == Seq::<char>::empty());
        ""
    }
}

/// Whether a word is a number of the three-hundreds.
pub open spec fn three_hundred(token: Seq<char>) -> bool {
    match number(token, u16::MAX as nat) {
        Some(n) => 300 <= n <= 399,
        None => false,
    }
}

/// Whether a word is a number of the three-hundreds.
pub fn is_3xx(token: &str) -> (r: bool)
    ensures
        r == three_hundred(token@),
{
    match parse_u16(token) {
        Some(n) => 300 <= n && n <= 399,
        None => false,
    }
}

/// How many words stand before a comment, from `i` on: a comment starts with a
/// word that opens with `#`.
pub open spec fn uncommented(words: Seq<Seq<char>>, i: int) -> int
    decreases words.len() - i,
{
    if i < 0 || i >= words.len() || opens_with(words[i], '#') {
        i
    } else {
        uncommented(words, i + 1)
    }
}

/// The words of a line before a comment.
pub open spec fn bare_words(line: Seq<char>) -> Seq<Seq<char>> {
    let words = words_from(line, 0, Seq::empty());
    words.take(uncommented(words, 0))
}

/// The words of a line before a comment, without the semicolons at their ends.
pub open spec fn line_words(line: Seq<char>) -> Seq<Seq<char>> {
    let words = bare_words(line);
    Seq::new(words.len(), |i: int| trimmed_end(words[i], ';'))
}

/// Whether a line closes a block.
pub open spec fn closes(line: Seq<char>) -> bool {
    bare_words(line) == seq!["}"@]
}

/// The statements from line `i` on, after `done`, up to a line that closes a
/// block or the end; and where they end. Blank lines are skipped.
pub open spec fn stmts_from(lines: Seq<Seq<char>>, i: int, done: Seq<StmtView>) -> Result<
    (Seq<StmtView>, int),
    Seq<char>,
>
    decreases lines.len() - i,
{
    if i < 0 || i >= lines.len() {
        Ok((done, i))
    } else {
        let words = line_words(lines[i]);
        if words.len() == 0 {
            stmts_from(lines, i + 1, done)
        } else if closes(lines[i]) {
            Ok((done, i))
        } else if words.last() == "{"@ {
            match stmts_from(lines, i + 1, Seq::empty()) {
                Err(e) => Err(e),
                Ok((block, j)) => if j <= i || j >= lines.len() || !closes(lines[j]) {
                    Err("unclosed '{' opened on line "@ + decimal((i + 1) as nat))
                } else {
                    stmts_from(
                        lines,
                        j + 1,
                        done.push(
                            StmtView { line: (i + 1) as usize, words: words.drop_last(), block },
                        ),
                    )
                },
            }
        } else {
            stmts_from(
                lines,
                i + 1,
                done.push(StmtView { line: (i + 1) as usize, words, block: Seq::empty() }),
            )
        }
    }
}

/// The statements of a source.
pub open spec fn statements(lines: Seq<Seq<char>>) -> Result<Seq<StmtView>, Seq<char>> {
    match stmts_from(lines, 0, Seq::empty()) {
        Err(e) => Err(e),
        Ok((stmts, i)) => if 0 <= i < lines.len() && closes(lines[i]) {
            Err("unexpected '}'"@)
        } else {
            Ok(stmts)
        },
    }
}

/// The words of a line before a comment, without the semicolons at their ends;
/// and whether the line closes a block.
fn words_of_line(line: &str) -> (r: (Vec<String>, bool))
    ensures
        r.0.deep_view() == line_words(line@),
        r.1 == closes(line@),
{
    let words = split_words(line);
    let ghost all = words.deep_view();
    let ghost end = uncommented(all, 0);
    let mut out: Vec<String> = Vec::new();
    let mut i: usize = 0;
    assert(out.deep_view() == Seq::<Seq<char>>::empty());
    while i < words.len() && !starts_with_char(words[i].as_str(), '#')
        invariant
            i <= words@.len(),
            all == words.deep_view(),
            all == words_from(line@, 0, Seq::empty()),
            end == uncommented(all, 0),
            end == uncommented(all, i as int),
            out.deep_view() == Seq::new(i as nat, |k: int| trimmed_end(all[k], ';')),
        decreases words@.len() - i,
    {
        assert(all[i as int] == words@[i as int]@);
        add_to(&mut out, owned(trim_end(words[i].as_str(), ';')));
        i += 1;
        assert(out.deep_view() == Seq::new(i as nat, |k: int| trimmed_end(all[k], ';')));
    }
    assert(i < words@.len() ==> all[i as int] == words@[i as int]@);
    assert(end == i);
    let ghost bare = bare_words(line@);
    assert(out.deep_view() == line_words(line@));
    let mut closing = false;
    if i == 1 {
        assert(all[0] == words@[0]@);
        closing = same(words[0].as_str(), "}");
    }
    proof {
        if closing {
            assert(bare == seq!["}"@]);
        } else if bare == seq!["}"@] {
            assert(bare.len() == 1 && bare[0] == "}"@);
        }
    }
    (out, closing)
}

fn add_stmt(out: &mut Vec<Stmt>, line: usize, words: Vec<String>, block: Vec<Stmt>)
    ensures
        stmts_view(final(out)@) == stmts_view(old(out)@).push(
            StmtView { line, words: words.deep_view(), block: stmts_view(block@) },
        ),
{
    let ghost before = out@;
    let s = Stmt { line, words, block };
    let ghost v = stmt_view(s);
    out.push(s);
    assert(stmts_view(out@) == stmts_view(before).push(v));
}

/// Where the statements of a block end.
struct Parsed {
    stmts: Vec<Stmt>,
    end: usize,
}

fn parse_into(lines: &Vec<String>, from: usize) -> (r: Result<Parsed, String>)
    requires
        from <= lines@.len(),
    ensures
        match (r, stmts_from(lines.deep_view(), from as int, Seq::empty())) {
            (Ok(p), Ok((stmts, j))) => stmts_view(p.stmts@) == stmts && p.end == j && from <= p.end
                <= lines@.len(),
            (Err(e), Err(m)) => e@ == m,
            _ => false,
        },
    decreases lines@.len() - from,
{
    let ghost all = lines.deep_view();
    let n: usize = lines.len();
    let mut out: Vec<Stmt> = Vec::new();
    let mut i: usize = from;
    assert(stmts_view(out@) == Seq::<StmtView>::empty());
    while i < n
        invariant
            from <= i <= n,
            n == lines@.len(),
            all == lines.deep_view(),
            stmts_from(all, from as int, Seq::empty()) == stmts_from(
                all,
                i as int,
                stmts_view(out@),
            ),
        decreases n - i,
    {
        assert(all[i as int] == lines@[i as int]@);
        let (mut words, closing) = words_of_line(lines[i].as_str());
        if words.len() == 0 {
            i += 1;
        } else if closing {
            return Ok(Parsed { stmts: out, end: i });
        } else {
            let line: usize = i + 1;
            let ghost ws = words.deep_view();
            let last: usize = words.len() - 1;
            assert(ws.last() == words@[last as int]@);
            if same(words[last].as_str(), "{") {
                let _ = words.pop();
                assert(words.deep_view() == ws.drop_last());
                let inner = match parse_into(lines, i + 1) {
                    Ok(p) => p,
                    Err(e) => {
                        return Err(e);
                    },
                };
                let j: usize = inner.end;
                if j >= n {
                    let at = decimal_string(line as u64);
                    return Err(cat2("unclosed '{' opened on line ", at.as_str()));
                }
                assert(all[j as int] == lines@[j as int]@);
                let (_, closing) = words_of_line(lines[j].as_str());
                if !closing {
                    let at = decimal_string(line as u64);
                    return Err(cat2("unclosed '{' opened on line ", at.as_str()));
                }
                add_stmt(&mut out, line, words, inner.stmts);
                i = j + 1;
            } else {
                let empty: Vec<Stmt> = Vec::new();
                assert(stmts_view(empty@) == Seq::<StmtView>::empty());
                add_stmt(&mut out, line, words, empty);
                i += 1;
            }
        }
    }
    Ok(Parsed { stmts: out, end: i })
}

/// Parse a source into statements. It takes both styles, `directive arg {` with
/// `}` on a line of its own and `directive arg;`.
pub fn parse_stmts(lines: &Vec<String>) -> (r: Result<Vec<Stmt>, String>)
    ensures
        match (r, statements(lines.deep_view())) {
            (Ok(s), Ok(w)) => stmts_view(s@) == w,
            (Err(e), Err(m)) => e@ == m,
            _ => false,
        },
{
    let p = match parse_into(lines, 0) {
        Ok(p) => p,
        Err(e) => {
            return Err(e);
        },
    };
    if p.end < lines.len() {
        assert(lines.deep_view()[p.end as int] == lines@[p.end as int]@);
        let (_, closing) = words_of_line(lines[p.end].as_str());
        if closing {
            return Err(owned("unexpected '}'"));
        }
    }
    Ok(p.stmts)
}

} // verus!
