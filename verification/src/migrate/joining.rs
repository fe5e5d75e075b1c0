//! Converting two sources one after the other.
use crate::config::directives::encoding;
use crate::config::expand::SourcesView;
use crate::migrate::{
    apart, caddy, closes, first_word, line_words, nginx, nothing, put, statements, stmts_from,
    ConvertedView, StmtView,
};
use crate::text::{
    cut, index_from, lemma_first_index, lines_from, lines_in, opens_with, rcut,
};
use vstd::prelude::*;

verus! {

// ---------------------------------------------------------------------------
// Lines
// ---------------------------------------------------------------------------

/// Whether a text consists of whole lines.
pub open spec fn whole(s: Seq<char>) -> bool {
    s.len() == 0 || s.last() == '\n'
}

proof fn lemma_index_from(s: Seq<char>, c: char, i: int)
    requires
        0 <= i <= s.len(),
    ensures
        i <= index_from(s, c, i) <= s.len(),
        index_from(s, c, i) < s.len() ==> s[index_from(s, c, i)] == c,
    decreases s.len() - i,
{
    if i < s.len() && s[i] != c {
        lemma_index_from(s, c, i + 1);
    }
}

proof fn lemma_index_stays(a: Seq<char>, b: Seq<char>, i: int)
    requires
        0 <= i < a.len(),
        a.last() == '\n',
    ensures
        index_from(a + b, '\n', i) == index_from(a, '\n', i),
        i <= index_from(a, '\n', i) < a.len(),
    decreases a.len() - i,
{
    assert((a + b)[i] == a[i]);
    if a[i] != '\n' {
        lemma_index_stays(a, b, i + 1);
    }
}

proof fn lemma_index_moves(a: Seq<char>, b: Seq<char>, i: int)
    requires
        0 <= i <= b.len(),
    ensures
        index_from(a + b, '\n', a.len() + i) == a.len() + index_from(b, '\n', i),
    decreases b.len() - i,
{
    if i < b.len() {
        assert((a + b)[a.len() + i] == b[i]);
        if b[i] != '\n' {
            lemma_index_moves(a, b, i + 1);
        }
    }
}

proof fn lemma_lines_stay(a: Seq<char>, b: Seq<char>, i: int, done: Seq<Seq<char>>)
    requires
        0 <= i <= a.len(),
        whole(a),
    ensures
        lines_from(a + b, i, done) == lines_from(a + b, a.len() as int, lines_from(a, i, done)),
    decreases a.len() - i,
{
    if i < a.len() {
        lemma_index_stays(a, b, i);
        let n = index_from(a, '\n', i);
        let raw = a.subrange(i, n);
        assert((a + b).subrange(i, n) == raw);
        let line = if raw.len() > 0 && raw.last() == '\r' {
            raw.drop_last()
        } else {
            raw
        };
        lemma_lines_stay(a, b, n + 1, done.push(line));
    }
}

proof fn lemma_lines_move(
    a: Seq<char>,
    b: Seq<char>,
    i: int,
    front: Seq<Seq<char>>,
    done: Seq<Seq<char>>,
)
    requires
        0 <= i <= b.len(),
    ensures
        lines_from(a + b, a.len() + i, front + done) == front + lines_from(b, i, done),
    decreases b.len() - i,
{
    if i < b.len() {
        lemma_index_moves(a, b, i);
        lemma_index_from(b, '\n', i);
        let n = index_from(b, '\n', i);
        let raw = b.subrange(i, n);
        assert((a + b).subrange(a.len() + i, a.len() + n) == raw);
        let line = if n < b.len() && raw.len() > 0 && raw.last() == '\r' {
            raw.drop_last()
        } else {
            raw
        };
        assert((front + done).push(line) == front + done.push(line));
        if n < b.len() {
            lemma_lines_move(a, b, n + 1, front, done.push(line));
        }
    }
}

proof fn lemma_lines(a: Seq<char>, b: Seq<char>)
    requires
        whole(a),
    ensures
        lines_in(a + b) == lines_in(a) + lines_in(b),
{
    let none = Seq::<Seq<char>>::empty();
    lemma_lines_stay(a, b, 0, none);
    assert(lines_in(a) + none == lines_in(a));
    lemma_lines_move(a, b, 0, lines_in(a), none);
}

// ---------------------------------------------------------------------------
// Statements
// ---------------------------------------------------------------------------

/// Whether two statements say the same, on whatever lines they stand.
pub open spec fn alike(s: StmtView, t: StmtView) -> bool
    decreases s,
{
    &&& s.words == t.words
    &&& s.block.len() == t.block.len()
    &&& forall|i: int|
        0 <= i < s.block.len() ==> if 0 <= i < s.block.len() {
            alike(#[trigger] s.block[i], t.block[i])
        } else {
            true
        }
}

/// Whether the statements of two blocks say the same.
pub open spec fn all_alike(a: Seq<StmtView>, b: Seq<StmtView>) -> bool {
    &&& a.len() == b.len()
    &&& forall|i: int| 0 <= i < a.len() ==> alike(#[trigger] a[i], b[i])
}

/// Whether `all` holds the statements `front`, and then statements that say what
/// `more` says.
pub open spec fn follow(front: Seq<StmtView>, all: Seq<StmtView>, more: Seq<StmtView>) -> bool {
    &&& all.len() == front.len() + more.len()
    &&& forall|i: int| 0 <= i < front.len() ==> #[trigger] all[i] == front[i]
    &&& forall|i: int| 0 <= i < more.len() ==> alike(all[front.len() + i], #[trigger] more[i])
}

proof fn lemma_stmts(lines: Seq<Seq<char>>, i: int, done: Seq<StmtView>)
    requires
        0 <= i <= lines.len(),
    ensures
        stmts_from(lines, i, done) matches Ok((_, j)) ==> i <= j <= lines.len() && (j < lines.len()
            ==> closes(lines[j])),
    decreases lines.len() - i,
{
    if i < lines.len() {
        let words = line_words(lines[i]);
        if words.len() == 0 {
            lemma_stmts(lines, i + 1, done);
        } else if !closes(lines[i]) {
            if words.last() == "{"@ {
                lemma_stmts(lines, i + 1, Seq::empty());
                if let Ok((block, j)) = stmts_from(lines, i + 1, Seq::empty()) {
                    if j < lines.len() {
                        lemma_stmts(
                            lines,
                            j + 1,
                            done.push(
                                StmtView {
                                    line: (i + 1) as usize,
                                    words: words.drop_last(),
                                    block,
                                },
                            ),
                        );
                    }
                }
            } else {
                lemma_stmts(
                    lines,
                    i + 1,
                    done.push(StmtView { line: (i + 1) as usize, words, block: Seq::empty() }),
                );
            }
        }
    }
}

proof fn lemma_stmts_stay(
    x: Seq<Seq<char>>,
    y: Seq<Seq<char>>,
    i: int,
    done: Seq<StmtView>,
)
    requires
        0 <= i <= x.len(),
    ensures
        stmts_from(x, i, done) matches Ok((stmts, j)) ==> stmts_from(x + y, i, done) == if j
            < x.len() {
            Ok::<(Seq<StmtView>, int), Seq<char>>((stmts, j))
        } else {
            stmts_from(x + y, x.len() as int, stmts)
        },
    decreases x.len() - i,
{
    lemma_stmts(x, i, done);
    if i < x.len() {
        assert((x + y)[i] == x[i]);
        let words = line_words(x[i]);
        if words.len() == 0 {
            lemma_stmts_stay(x, y, i + 1, done);
        } else if !closes(x[i]) {
            if words.last() == "{"@ {
                lemma_stmts(x, i + 1, Seq::empty());
                lemma_stmts_stay(x, y, i + 1, Seq::empty());
                if let Ok((block, j)) = stmts_from(x, i + 1, Seq::empty()) {
                    if j < x.len() {
                        assert((x + y)[j] == x[j]);
                        lemma_stmts_stay(
                            x,
                            y,
                            j + 1,
                            done.push(
                                StmtView {
                                    line: (i + 1) as usize,
                                    words: words.drop_last(),
                                    block,
                                },
                            ),
                        );
                    }
                }
            } else {
                lemma_stmts_stay(
                    x,
                    y,
                    i + 1,
                    done.push(StmtView { line: (i + 1) as usize, words, block: Seq::empty() }),
                );
            }
        }
    }
}

proof fn lemma_follow(
    front: Seq<StmtView>,
    all: Seq<StmtView>,
    more: Seq<StmtView>,
    s: StmtView,
    t: StmtView,
)
    requires
        follow(front, all, more),
        alike(s, t),
    ensures
        follow(front, all.push(s), more.push(t)),
{
    let n = front.len() as int;
    let b = more.push(t);
    assert forall|i: int| 0 <= i < b.len() implies alike(all.push(s)[n + i], #[trigger] b[i]) by {
        if i < more.len() {
            assert(b[i] == more[i]);
        }
    }
}

proof fn lemma_stmts_move(
    x: Seq<Seq<char>>,
    y: Seq<Seq<char>>,
    i: int,
    front: Seq<StmtView>,
    done: Seq<StmtView>,
    more: Seq<StmtView>,
)
    requires
        0 <= i <= y.len(),
        follow(front, done, more),
    ensures
        match (stmts_from(x + y, x.len() + i, done), stmts_from(y, i, more)) {
            (Ok((a, j)), Ok((b, k))) => j == x.len() + k && follow(front, a, b),
            (Err(_), Err(_)) => true,
            _ => false,
        },
    decreases y.len() - i,
{
    let n = x.len() as int;
    if i < y.len() {
        assert((x + y)[n + i] == y[i]);
        let words = line_words(y[i]);
        if words.len() == 0 {
            lemma_stmts_move(x, y, i + 1, front, done, more);
        } else if !closes(y[i]) {
            let none = Seq::<StmtView>::empty();
            if words.last() == "{"@ {
                lemma_stmts(y, i + 1, none);
                lemma_stmts(x + y, n + i + 1, none);
                lemma_stmts_move(x, y, i + 1, none, none, none);
                if let Ok((b, k)) = stmts_from(y, i + 1, none) {
                    let a = (stmts_from(x + y, n + i + 1, none)->Ok_0).0;
                    if k < y.len() {
                        assert((x + y)[n + k] == y[k]);
                        let s = StmtView {
                            line: (n + i + 1) as usize,
                            words: words.drop_last(),
                            block: a,
                        };
                        let t = StmtView {
                            line: (i + 1) as usize,
                            words: words.drop_last(),
                            block: b,
                        };
                        assert forall|m: int| 0 <= m < s.block.len() implies alike(
                            #[trigger] s.block[m],
                            t.block[m],
                        ) by {
                            assert(alike(a[none.len() + m], b[m]));
                        }
                        lemma_follow(front, done, more, s, t);
                        lemma_stmts_move(x, y, k + 1, front, done.push(s), more.push(t));
                    }
                }
            } else {
                let s = StmtView { line: (n + i + 1) as usize, words, block: none };
                let t = StmtView { line: (i + 1) as usize, words, block: none };
                lemma_follow(front, done, more, s, t);
                lemma_stmts_move(x, y, i + 1, front, done.push(s), more.push(t));
            }
        }
    }
}

/// The statements of two sources, one after the other.
proof fn lemma_statements(a: Seq<char>, b: Seq<char>)
    requires
        whole(a),
        statements(lines_in(a)) is Ok,
        statements(lines_in(b)) is Ok,
    ensures
        statements(lines_in(a + b)) matches Ok(all) && follow(
            statements(lines_in(a))->Ok_0,
            all,
            statements(lines_in(b))->Ok_0,
        ),
{
    let none = Seq::<StmtView>::empty();
    let x = lines_in(a);
    let y = lines_in(b);
    let front = statements(x)->Ok_0;
    lemma_lines(a, b);
    lemma_stmts(x, 0, none);
    lemma_stmts_stay(x, y, 0, none);
    lemma_stmts(y, 0, none);
    lemma_stmts_move(x, y, 0, front, front, none);
}

// ---------------------------------------------------------------------------
// Conversions
// ---------------------------------------------------------------------------

/// Whether two conversions have written the same, and the one has `k` warnings
/// more.
pub open spec fn level(c: ConvertedView, d: ConvertedView, k: int) -> bool {
    &&& c.raddyfile == d.raddyfile
    &&& c.warnings.len() == d.warnings.len() + k
}

/// Whether two conversions that became `e` and `f` wrote nothing, and got the same
/// number of warnings.
pub open spec fn abreast(
    c: ConvertedView,
    e: ConvertedView,
    d: ConvertedView,
    f: ConvertedView,
) -> bool {
    &&& e.raddyfile == c.raddyfile
    &&& f.raddyfile == d.raddyfile
    &&& e.warnings.len() - c.warnings.len() == f.warnings.len() - d.warnings.len()
}

/// Whether a conversion is what `front` and `d` are together.
pub open spec fn together(front: ConvertedView, d: ConvertedView, c: ConvertedView) -> bool {
    &&& c.raddyfile == front.raddyfile + d.raddyfile
    &&& c.warnings.len() == front.warnings.len() + d.warnings.len()
}

// ---------------------------------------------------------------------------
// Caddyfiles
// ---------------------------------------------------------------------------

proof fn lemma_addresses(
    c: ConvertedView,
    d: ConvertedView,
    line: usize,
    other: usize,
    list: Seq<char>,
)
    ensures
        abreast(
            c,
            caddy::addresses_left_out(c, line, list),
            d,
            caddy::addresses_left_out(d, other, list),
        ),
    decreases list.len(),
{
    lemma_first_index(list, ',');
    if let Some((addr, rest)) = cut(list, ',') {
        lemma_addresses(
            caddy::address_left_out(c, line, addr),
            caddy::address_left_out(d, other, addr),
            line,
            other,
            rest,
        );
    }
}

proof fn lemma_algorithms(
    c: ConvertedView,
    d: ConvertedView,
    words: Seq<Seq<char>>,
    i: int,
    line: usize,
    other: usize,
    done: Seq<Seq<char>>,
)
    ensures
        ({
            let (a, e) = caddy::algorithms_from(c, words, i, line, done);
            let (b, f) = caddy::algorithms_from(d, words, i, other, done);
            a == b && abreast(c, e, d, f)
        }),
    decreases words.len() - i,
{
    if 0 <= i < words.len() {
        if encoding(words[i]) is Some {
            lemma_algorithms(c, d, words, i + 1, line, other, done.push(words[i]));
        } else {
            let m = "unsupported encode algorithm '"@ + words[i] + "'; skipped"@;
            lemma_algorithms(
                caddy::warn_of(c, line, m),
                caddy::warn_of(d, other, m),
                words,
                i + 1,
                line,
                other,
                done,
            );
        }
    }
}

proof fn lemma_proxy_options(
    c: ConvertedView,
    d: ConvertedView,
    a: Seq<StmtView>,
    b: Seq<StmtView>,
    n: nat,
    pad: Seq<char>,
    k: int,
)
    requires
        level(c, d, k),
        all_alike(a, b),
        n <= a.len(),
    ensures
        level(caddy::proxy_options(c, a, n, pad), caddy::proxy_options(d, b, n, pad), k),
    decreases n,
{
    if n > 0 {
        let m = (n - 1) as nat;
        lemma_proxy_options(c, d, a, b, m, pad, k);
        let (s, t) = (a[n - 1], b[n - 1]);
        assert(alike(s, t));
        caddy::lemma_same_targets(
            caddy::option_cut(caddy::proxy_options(c, a, m, pad), s),
            caddy::option_cut(caddy::proxy_options(d, b, m, pad), t),
            s.words,
            1,
            s.line,
            t.line,
            Seq::empty(),
        );
    }
}

proof fn lemma_some_target(a: Seq<StmtView>, b: Seq<StmtView>)
    requires
        all_alike(a, b),
    ensures
        caddy::some_target(a, a.len()) == caddy::some_target(b, b.len()),
{
    assert forall|i: int| 0 <= i < a.len() implies caddy::names_target(#[trigger] a[i])
        == caddy::names_target(b[i]) by {
        assert(alike(a[i], b[i]));
        caddy::lemma_same_targets(
            nothing(),
            nothing(),
            a[i].words,
            1,
            a[i].line,
            b[i].line,
            Seq::empty(),
        );
    }
    if caddy::some_target(a, a.len()) {
        let i = choose|i: int| 0 <= i < a.len() && caddy::names_target(#[trigger] a[i]);
        assert(caddy::names_target(b[i]));
    }
    if caddy::some_target(b, b.len()) {
        let i = choose|i: int| 0 <= i < b.len() && caddy::names_target(#[trigger] b[i]);
        assert(caddy::names_target(a[i]));
    }
}

proof fn lemma_proxy(
    c: ConvertedView,
    d: ConvertedView,
    s: StmtView,
    t: StmtView,
    pad: Seq<char>,
    k: int,
)
    requires
        level(c, d, k),
        alike(s, t),
    ensures
        level(caddy::proxy(c, s, pad), caddy::proxy(d, t, pad), k),
{
    let inline = s.words.len() > 1 && opens_with(s.words[1], '/');
    let i: int = if inline {
        2
    } else {
        1
    };
    let none = Seq::<Seq<char>>::empty();
    if s.block.len() == 0 {
        caddy::lemma_same_targets(c, d, s.words, i, s.line, t.line, none);
    } else {
        caddy::lemma_same_targets(apart(c), apart(d), s.words, i, s.line, t.line, none);
        let (targets, e) = caddy::targets_from(apart(c), s.words, i, s.line, none);
        let f = caddy::targets_from(apart(d), t.words, i, t.line, none).1;
        assert(all_alike(s.block, t.block));
        lemma_some_target(s.block, t.block);
        if targets.len() > 0 {
            let line = caddy::to_line(pad, targets);
            lemma_proxy_options(
                put(e, line),
                put(f, line),
                s.block,
                t.block,
                s.block.len(),
                pad,
                k,
            );
        } else {
            lemma_proxy_options(e, f, s.block, t.block, s.block.len(), pad, k);
        }
        assert(level(
            caddy::proxy_body(apart(c), s, i, pad),
            caddy::proxy_body(apart(d), t, i, pad),
            k,
        ));
    }
}

proof fn lemma_directive(
    c: ConvertedView,
    d: ConvertedView,
    s: StmtView,
    t: StmtView,
    pad: Seq<char>,
    k: int,
)
    requires
        level(c, d, k),
        alike(s, t),
    ensures
        level(caddy::directive(c, s, pad), caddy::directive(d, t, pad), k),
    decreases s, 0nat,
{
    let name = first_word(s.words);
    let e = caddy::block_dropped(c, s);
    let f = caddy::block_dropped(d, t);
    assert(level(e, f, k));
    if name == "reverse_proxy"@ {
        lemma_proxy(e, f, s, t, pad, k);
    } else if name == "handle"@ {
        if s.words.len() == 2 {
            let head = pad + "handle "@ + s.words[1] + " {\n"@;
            lemma_directives(
                put(e, head),
                put(f, head),
                s.block,
                t.block,
                s.block.len(),
                pad + "    "@,
                k,
            );
        }
    } else if name == "encode"@ {
        lemma_algorithms(e, f, s.words, 1, s.line, t.line, Seq::empty());
    }
}

proof fn lemma_directives(
    c: ConvertedView,
    d: ConvertedView,
    a: Seq<StmtView>,
    b: Seq<StmtView>,
    n: nat,
    pad: Seq<char>,
    k: int,
)
    requires
        level(c, d, k),
        all_alike(a, b),
    ensures
        level(caddy::directives(c, a, n, pad), caddy::directives(d, b, n, pad), k),
    decreases a, n,
{
    if 0 < n <= a.len() {
        let m = (n - 1) as nat;
        lemma_directives(c, d, a, b, m, pad, k);
        lemma_directive(
            caddy::directives(c, a, m, pad),
            caddy::directives(d, b, m, pad),
            a[n - 1],
            b[n - 1],
            pad,
            k,
        );
    }
}

proof fn lemma_site(
    src: SourcesView,
    front: ConvertedView,
    c: ConvertedView,
    d: ConvertedView,
    s: StmtView,
    t: StmtView,
)
    requires
        together(front, d, c),
        alike(s, t),
    ensures
        together(front, caddy::site(src, d, t), caddy::site(src, c, s)),
{
    let e = caddy::others_left_out(c, s.line, s.words);
    let f = caddy::others_left_out(d, t.line, t.words);
    if let Some((_, rest)) = cut(caddy::addresses(s.words), ',') {
        lemma_addresses(c, d, s.line, t.line, rest);
    }
    if let Ok(addr) = caddy::site_addr(s.words) {
        let k = front.warnings.len() as int;
        lemma_directives(apart(e), apart(f), s.block, t.block, s.block.len(), "    "@, k);
        let body = caddy::directives(apart(f), t.block, t.block.len(), "    "@);
        let text = addr + " {\n"@ + body.raddyfile + "}\n"@;
        assert(front.raddyfile + d.raddyfile + text == front.raddyfile + (d.raddyfile + text));
    }
}

proof fn lemma_same_sites(src: SourcesView, a: Seq<StmtView>, b: Seq<StmtView>, n: nat)
    requires
        n <= a.len(),
        n <= b.len(),
        forall|i: int| 0 <= i < n ==> #[trigger] a[i] == b[i],
    ensures
        caddy::top_levels(src, a, n) == caddy::top_levels(src, b, n),
    decreases n,
{
    if n > 0 {
        lemma_same_sites(src, a, b, (n - 1) as nat);
        assert(a[n - 1] == b[n - 1]);
    }
}

proof fn lemma_sites(
    src: SourcesView,
    front: Seq<StmtView>,
    all: Seq<StmtView>,
    more: Seq<StmtView>,
    n: nat,
)
    requires
        follow(front, all, more),
        n <= more.len(),
    ensures
        together(
            caddy::top_levels(src, front, front.len()),
            caddy::top_levels(src, more, n),
            caddy::top_levels(src, all, front.len() + n),
        ),
    decreases n,
{
    let a = caddy::top_levels(src, front, front.len());
    if n == 0 {
        lemma_same_sites(src, all, front, front.len());
        assert(a.raddyfile + nothing().raddyfile == a.raddyfile);
    } else {
        let m = (n - 1) as nat;
        lemma_sites(src, front, all, more, m);
        let c = caddy::top_levels(src, all, front.len() + m);
        let d = caddy::top_levels(src, more, m);
        let t = more[n - 1];
        let s = all[front.len() + (n - 1)];
        assert(alike(s, t));
        lemma_site(src, a, c, d, s, t);
    }
}

// ---------------------------------------------------------------------------
// nginx configurations
// ---------------------------------------------------------------------------

proof fn lemma_proxy_pass(
    c: ConvertedView,
    d: ConvertedView,
    words: Seq<Seq<char>>,
    line: usize,
    other: usize,
)
    ensures
        nginx::proxy_pass(c, words, line).1 == nginx::proxy_pass(d, words, other).1,
        abreast(c, nginx::proxy_pass(c, words, line).0, d, nginx::proxy_pass(d, words, other).0),
{
}

proof fn lemma_parameters(
    c: ConvertedView,
    d: ConvertedView,
    words: Seq<Seq<char>>,
    i: int,
    line: usize,
    other: usize,
)
    ensures
        abreast(
            c,
            nginx::parameters_dropped(c, words, i, line),
            d,
            nginx::parameters_dropped(d, words, i, other),
        ),
    decreases words.len() - i,
{
    if 0 <= i < words.len() {
        if words[i] == "ssl"@ {
            lemma_parameters(c, d, words, i + 1, line, other);
        } else {
            let m = "listen parameter '"@ + words[i] + "' dropped"@;
            lemma_parameters(
                nginx::warn_of(c, line, m),
                nginx::warn_of(d, other, m),
                words,
                i + 1,
                line,
                other,
            );
        }
    }
}

proof fn lemma_listen_cut(
    c: ConvertedView,
    d: ConvertedView,
    words: Seq<Seq<char>>,
    line: usize,
    other: usize,
)
    ensures
        abreast(
            c,
            nginx::listen_cut(c, words, line),
            d,
            nginx::listen_cut(d, words, other),
        ),
{
    lemma_parameters(c, d, words, 2, line, other);
    if let Some((host, _)) = rcut(words[1], ':') {
        let m = "listen address '"@ + host + "' dropped"@;
        lemma_parameters(
            nginx::warn_of(c, line, m),
            nginx::warn_of(d, other, m),
            words,
            2,
            line,
            other,
        );
    }
}

proof fn lemma_server_directive(
    c: ConvertedView,
    d: ConvertedView,
    v: nginx::ServerView,
    s: StmtView,
    t: StmtView,
    i: usize,
)
    requires
        alike(s, t),
    ensures
        nginx::server_directive(c, v, s, i).1 == nginx::server_directive(d, v, t, i).1,
        abreast(
            c,
            nginx::server_directive(c, v, s, i).0,
            d,
            nginx::server_directive(d, v, t, i).0,
        ),
        ({
            let ls = nginx::server_directive(c, v, s, i).1.locations;
            ls == v.locations || ls == v.locations.push(i)
        }),
{
    let name = first_word(s.words);
    let e = nginx::directive_cut(c, s);
    let f = nginx::directive_cut(d, t);
    if name == "listen"@ {
        lemma_listen_cut(
            nginx::replaced(e, s.line, "listen"@, v.listen is Some),
            nginx::replaced(f, t.line, "listen"@, v.listen is Some),
            s.words,
            s.line,
            t.line,
        );
    } else if name == "server_name"@ {
    } else if name == "root"@ {
    } else if name == "location"@ {
    } else if name == "proxy_pass"@ {
        lemma_proxy_pass(e, f, s.words, s.line, t.line);
    } else if name == "add_header"@ {
    } else if name == "return"@ {
    }
}

proof fn lemma_server_directives(
    c: ConvertedView,
    d: ConvertedView,
    a: Seq<StmtView>,
    b: Seq<StmtView>,
    n: nat,
)
    requires
        all_alike(a, b),
        n <= a.len(),
    ensures
        ({
            let (e, v) = nginx::server_directives(c, a, n);
            let (f, w) = nginx::server_directives(d, b, n);
            &&& v == w
            &&& abreast(c, e, d, f)
            &&& forall|i: int|
                0 <= i < v.locations.len() ==> (#[trigger] v.locations[i] as int) < a.len()
        }),
    decreases n,
{
    if n > 0 {
        let m = (n - 1) as nat;
        lemma_server_directives(c, d, a, b, m);
        assert(alike(a[n - 1], b[n - 1]));
        let (e, v) = nginx::server_directives(c, a, m);
        let f = nginx::server_directives(d, b, m).0;
        lemma_server_directive(e, f, v, a[n - 1], b[n - 1], m as usize);
        assert((m as usize as int) < a.len());
    }
}

proof fn lemma_location_directives(
    c: ConvertedView,
    d: ConvertedView,
    a: Seq<StmtView>,
    b: Seq<StmtView>,
    n: nat,
)
    requires
        all_alike(a, b),
        n <= a.len(),
    ensures
        ({
            let (e, v) = nginx::location_directives(c, a, n);
            let (f, w) = nginx::location_directives(d, b, n);
            v == w && abreast(c, e, d, f)
        }),
    decreases n,
{
    if n > 0 {
        lemma_location_directives(c, d, a, b, (n - 1) as nat);
        assert(alike(a[n - 1], b[n - 1]));
    }
}

proof fn lemma_location(
    c: ConvertedView,
    d: ConvertedView,
    s: StmtView,
    t: StmtView,
    root: Option<Seq<char>>,
    k: int,
)
    requires
        level(c, d, k),
        alike(s, t),
    ensures
        nginx::location(c, s, root).1 == nginx::location(d, t, root).1,
        level(nginx::location(c, s, root).0, nginx::location(d, t, root).0, k),
{
    let e = nginx::location_path(c, s).0;
    let f = nginx::location_path(d, t).0;
    assert(level(e, f, k));
    assert(all_alike(s.block, t.block));
    lemma_location_directives(e, f, s.block, t.block, s.block.len());
}

proof fn lemma_locations(
    c: ConvertedView,
    d: ConvertedView,
    a: Seq<StmtView>,
    b: Seq<StmtView>,
    v: nginx::ServerView,
    n: nat,
    k: int,
)
    requires
        level(c, d, k),
        all_alike(a, b),
        n <= v.locations.len(),
        forall|i: int| 0 <= i < v.locations.len() ==> (#[trigger] v.locations[i] as int) < a.len(),
    ensures
        nginx::locations(c, a, v, n).1 == nginx::locations(d, b, v, n).1,
        level(nginx::locations(c, a, v, n).0, nginx::locations(d, b, v, n).0, k),
    decreases n,
{
    if n > 0 {
        let m = (n - 1) as nat;
        lemma_locations(c, d, a, b, v, m, k);
        let i = v.locations[n - 1] as int;
        assert(alike(a[i], b[i]));
        lemma_location(
            nginx::locations(c, a, v, m).0,
            nginx::locations(d, b, v, m).0,
            a[i],
            b[i],
            v.root,
            k,
        );
    }
}

proof fn lemma_headers(
    c: ConvertedView,
    d: ConvertedView,
    hs: Seq<(Seq<char>, Seq<char>)>,
    n: nat,
    k: int,
)
    requires
        level(c, d, k),
    ensures
        level(nginx::headers(c, hs, n), nginx::headers(d, hs, n), k),
    decreases n,
{
    if n > 0 {
        lemma_headers(c, d, hs, (n - 1) as nat, k);
    }
}

proof fn lemma_redirs(c: ConvertedView, d: ConvertedView, rs: Seq<Seq<char>>, n: nat, k: int)
    requires
        level(c, d, k),
    ensures
        level(nginx::redirs(c, rs, n), nginx::redirs(d, rs, n), k),
    decreases n,
{
    if n > 0 {
        lemma_redirs(c, d, rs, (n - 1) as nat, k);
    }
}

proof fn lemma_server_body(
    c: ConvertedView,
    d: ConvertedView,
    a: Seq<StmtView>,
    b: Seq<StmtView>,
    v: nginx::ServerView,
    k: int,
)
    requires
        level(c, d, k),
        all_alike(a, b),
        forall|i: int| 0 <= i < v.locations.len() ==> (#[trigger] v.locations[i] as int) < a.len(),
    ensures
        level(nginx::server_body(c, a, v), nginx::server_body(d, b, v), k),
{
    let hs = v.headers;
    let rs = v.redirs;
    lemma_headers(c, d, hs, hs.len(), k);
    let e = nginx::headers(c, hs, hs.len());
    let f = nginx::headers(d, hs, hs.len());
    lemma_redirs(e, f, rs, rs.len(), k);
    let e = nginx::redirs(e, rs, rs.len());
    let f = nginx::redirs(f, rs, rs.len());
    if let Some(dir) = v.root {
        let line = "    root "@ + dir + "\n"@;
        lemma_locations(put(e, line), put(f, line), a, b, v, v.locations.len(), k);
    } else {
        lemma_locations(e, f, a, b, v, v.locations.len(), k);
    }
}

proof fn lemma_server(
    src: SourcesView,
    front: ConvertedView,
    c: ConvertedView,
    d: ConvertedView,
    s: StmtView,
    t: StmtView,
)
    requires
        together(front, d, c),
        alike(s, t),
    ensures
        together(front, nginx::server(src, d, t), nginx::server(src, c, s)),
{
    assert(all_alike(s.block, t.block));
    let a = nginx::server_cut(c, s);
    let b = nginx::server_cut(d, t);
    lemma_server_directives(a, b, s.block, t.block, s.block.len());
    let (e, v) = nginx::server_directives(a, s.block, s.block.len());
    let f = nginx::server_directives(b, t.block, t.block.len()).0;
    let e = nginx::plain_instead(e, s.line, v);
    let f = nginx::plain_instead(f, t.line, v);
    let k = front.warnings.len() as int;
    lemma_server_body(apart(e), apart(f), s.block, t.block, v, k);
    let body = nginx::server_body(apart(f), t.block, v);
    let text = nginx::server_key(v) + " {\n"@ + body.raddyfile + "}\n"@;
    assert(front.raddyfile + d.raddyfile + text == front.raddyfile + (d.raddyfile + text));
}

proof fn lemma_same_servers(src: SourcesView, a: Seq<StmtView>, b: Seq<StmtView>, n: nat)
    requires
        n <= a.len(),
        n <= b.len(),
        forall|i: int| 0 <= i < n ==> #[trigger] a[i] == b[i],
    ensures
        nginx::top_levels(src, a, n) == nginx::top_levels(src, b, n),
    decreases n,
{
    if n > 0 {
        lemma_same_servers(src, a, b, (n - 1) as nat);
        assert(a[n - 1] == b[n - 1]);
    }
}

proof fn lemma_servers(
    src: SourcesView,
    front: Seq<StmtView>,
    all: Seq<StmtView>,
    more: Seq<StmtView>,
    n: nat,
)
    requires
        follow(front, all, more),
        n <= more.len(),
    ensures
        together(
            nginx::top_levels(src, front, front.len()),
            nginx::top_levels(src, more, n),
            nginx::top_levels(src, all, front.len() + n),
        ),
    decreases n,
{
    let a = nginx::top_levels(src, front, front.len());
    if n == 0 {
        lemma_same_servers(src, all, front, front.len());
        assert(a.raddyfile + nothing().raddyfile == a.raddyfile);
    } else {
        let m = (n - 1) as nat;
        lemma_servers(src, front, all, more, m);
        let c = nginx::top_levels(src, all, front.len() + m);
        let d = nginx::top_levels(src, more, m);
        let t = more[n - 1];
        let s = all[front.len() + (n - 1)];
        assert(alike(s, t));
        lemma_server(src, a, c, d, s, t);
    }
}

// ---------------------------------------------------------------------------
// Sources
// ---------------------------------------------------------------------------

/// The conversion of two sources, the one after the other, is what their
/// conversions are together: the texts in their order, and all the warnings. This
/// holds of Caddyfiles and of nginx configurations, when the first ends with a
/// whole line, and with whatever environment.
pub proof fn conversions_can_be_joined(src: SourcesView, a: Seq<char>, b: Seq<char>)
    requires
        whole(a),
    ensures
        match (caddy::converted_with(a, src), caddy::converted_with(b, src)) {
            (Ok(x), Ok(y)) => caddy::converted_with(a + b, src) matches Ok(z) && together(x, y, z),
            _ => true,
        },
        match (nginx::converted_with(a, src), nginx::converted_with(b, src)) {
            (Ok(x), Ok(y)) => nginx::converted_with(a + b, src) matches Ok(z) && together(x, y, z),
            _ => true,
        },
{
    if let (Ok(front), Ok(more)) = (statements(lines_in(a)), statements(lines_in(b))) {
        lemma_statements(a, b);
        let all = statements(lines_in(a + b))->Ok_0;
        lemma_sites(src, front, all, more, more.len());
        lemma_servers(src, front, all, more, more.len());
    }
}

} // verus!
