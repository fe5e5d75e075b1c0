//! Values with `{placeholder}` variables.
use crate::config::ast::{
    add_to, TemplatePart, TemplatePartView, ValueTemplate, ValueTemplateView, Variable,
};
use crate::text::{
    cat3, chars_of, concatenated, first_index, is_empty, lemma_first_index, owned, same, string_of,
};
use vstd::prelude::*;

verus! {

/// The variable that a placeholder names.
pub open spec fn variable(name: Seq<char>) -> Option<Variable> {
    if name == "host"@ {
        Some(Variable::Host)
    } else if name == "uri"@ {
        Some(Variable::Uri)
    } else if name == "remote_host"@ {
        Some(Variable::RemoteHost)
    } else {
        None
    }
}

/// `parts` followed by the literal `lit`, unless that is empty.
pub open spec fn with_literal(parts: Seq<TemplatePartView>, lit: Seq<char>) -> Seq<
    TemplatePartView,
> {
    if lit.len() == 0 {
        parts
    } else {
        parts.push(TemplatePartView::Literal(lit))
    }
}

/// The parts of `s`: `parts` and the open literal `lit` stand for what was read
/// before index `i`.
pub open spec fn template_from(
    s: Seq<char>,
    i: int,
    lit: Seq<char>,
    parts: Seq<TemplatePartView>,
) -> Result<Seq<TemplatePartView>, Seq<char>>
    decreases s.len() - i,
    via template_from_shrinks
{
    if i < 0 || i >= s.len() {
        Ok(with_literal(parts, lit))
    } else if s[i] == '{' {
        let n = first_index(s.skip(i + 1), '}');
        if i + 1 + n >= s.len() {
            Err("unclosed '{' in value"@)
        } else {
            let name = s.subrange(i + 1, i + 1 + n);
            match variable(name) {
                None => Err("unknown placeholder '{"@ + name + "}'"@),
                Some(v) => template_from(
                    s,
                    i + 2 + n,
                    Seq::empty(),
                    with_literal(parts, lit).push(TemplatePartView::Var(v)),
                ),
            }
        }
    } else {
        template_from(s, i + 1, lit.push(s[i]), parts)
    }
}

#[via_fn]
proof fn template_from_shrinks(
    s: Seq<char>,
    i: int,
    lit: Seq<char>,
    parts: Seq<TemplatePartView>,
) {
    if 0 <= i < s.len() {
        lemma_first_index(s.skip(i + 1), '}');
    }
}

/// The template that `raw` writes, or the reason why it writes none.
pub open spec fn template(raw: Seq<char>) -> Result<ValueTemplateView, Seq<char>> {
    match template_from(raw, 0, Seq::empty(), Seq::empty()) {
        Ok(parts) => Ok(ValueTemplateView { parts }),
        Err(m) => Err(m),
    }
}

fn variable_named(name: &str) -> (r: Option<Variable>)
    ensures
        r == variable(name@),
{
    if same(name, "host") {
        Some(Variable::Host)
    } else if same(name, "uri") {
        Some(Variable::Uri)
    } else if same(name, "remote_host") {
        Some(Variable::RemoteHost)
    } else {
        None
    }
}

fn find_close(s: &Vec<char>, from: usize) -> (r: Option<usize>)
    requires
        from <= s@.len(),
    ensures
        match r {
            Some(k) => k == from + first_index(s@.skip(from as int), '}') && from <= k < s@.len(),
            None => from + first_index(s@.skip(from as int), '}') >= s@.len(),
        },
{
    let ghost tail = s@.skip(from as int);
    proof {
        lemma_first_index(tail, '}');
    }
    let mut i: usize = from;
    while i < s.len()
        invariant
            from <= i <= s@.len(),
            tail == s@.skip(from as int),
            forall|j: int| 0 <= j < i - from ==> tail[j] != '}',
            0 <= first_index(tail, '}') <= tail.len(),
            first_index(tail, '}') < tail.len() ==> tail[first_index(tail, '}')] == '}',
            forall|j: int| 0 <= j < first_index(tail, '}') ==> tail[j] != '}',
        decreases s@.len() - i,
    {
        assert(tail[i - from] == s@[i as int]);
        if s[i] == '}' {
            return Some(i);
        }
        i += 1;
    }
    None
}

fn close_literal(parts: &mut Vec<TemplatePart>, lit: String)
    ensures
        final(parts).deep_view() == with_literal(old(parts).deep_view(), lit@),
{
    if !is_empty(lit.as_str()) {
        add_to(parts, TemplatePart::Literal(lit));
    }
}

impl ValueTemplate {
    /// Create a template from its parts.
    pub fn new(parts: Vec<TemplatePart>) -> (r: ValueTemplate)
        ensures
            r.parts == parts,
    {
        ValueTemplate { parts }
    }

    /// The template's parts, in order.
    pub fn parts(&self) -> (r: &Vec<TemplatePart>)
        ensures
            *r == self.parts,
    {
        &self.parts
    }

    /// Parse a raw value into a template, expanding `{name}` placeholders.
    ///
    /// Only `host`, `uri` and `remote_host` are accepted; any other placeholder
    /// is an error.
    pub fn parse(raw: &str) -> (r: Result<ValueTemplate, String>)
        ensures
            match r {
                Ok(t) => template(raw@) == Ok::<ValueTemplateView, Seq<char>>(t.deep_view()),
                Err(m) => template(raw@) == Err::<ValueTemplateView, Seq<char>>(m@),
            },
    {
        let s = chars_of(raw);
        let mut parts: Vec<TemplatePart> = Vec::new();
        let mut lit = String::new();
        let mut i: usize = 0;
        assert(parts.deep_view() == Seq::<TemplatePartView>::empty());
        while i < s.len()
            invariant
                s@ == raw@,
                i <= s@.len(),
                template_from(raw@, 0, Seq::empty(), Seq::empty()) == template_from(
                    raw@,
                    i as int,
                    lit@,
                    parts.deep_view(),
                ),
            decreases s@.len() - i,
        {
            if s[i] == '{' {
                proof {
                    lemma_first_index(s@.skip(i + 1), '}');
                }
                match find_close(&s, i + 1) {
                    None => {
                        return Err(owned("unclosed '{' in value"));
                    },
                    Some(close) => {
                        let name = string_of(&s, i + 1, close);
                        match variable_named(name.as_str()) {
                            None => {
                                return Err(cat3("unknown placeholder '{", name.as_str(), "}'"));
                            },
                            Some(v) => {
                                close_literal(&mut parts, lit);
                                add_to(&mut parts, TemplatePart::Var(v));
                                lit = String::new();
                                i = close + 1;
                            },
                        }
                    },
                }
            } else {
                lit.push(s[i]);
                i += 1;
            }
        }
        close_literal(&mut parts, lit);
        Ok(ValueTemplate { parts })
    }
}

// ---------------------------------------------------------------------------
// Laws
// ---------------------------------------------------------------------------

/// How a part is written in a file.
pub open spec fn part_source(p: TemplatePartView) -> Seq<char> {
    match p {
        TemplatePartView::Literal(s) => s,
        TemplatePartView::Var(Variable::Host) => "{"@ + "host"@ + "}"@,
        TemplatePartView::Var(Variable::Uri) => "{"@ + "uri"@ + "}"@,
        TemplatePartView::Var(Variable::RemoteHost) => "{"@ + "remote_host"@ + "}"@,
    }
}

/// How a template is written in a file.
pub open spec fn template_source(parts: Seq<TemplatePartView>) -> Seq<char> {
    concatenated(Seq::new(parts.len(), |i: int| part_source(parts[i])))
}

/// Nothing of a value is lost: writing the parts of a parsed value one after the
/// other gives the value back.
pub proof fn template_keeps_its_source(raw: Seq<char>)
    ensures
        template(raw) matches Ok(t) ==> template_source(t.parts) == raw,
{
    assert(template_source(Seq::empty()) + Seq::<char>::empty() == raw.take(0));
    lemma_source_from(raw, 0, Seq::empty(), Seq::empty());
}

proof fn lemma_source_push(parts: Seq<TemplatePartView>, p: TemplatePartView)
    ensures
        template_source(parts.push(p)) == template_source(parts) + part_source(p),
{
    let a = Seq::new(parts.len(), |i: int| part_source(parts[i]));
    let b = Seq::new(parts.push(p).len(), |i: int| part_source(parts.push(p)[i]));
    assert(b.drop_last() == a);
    assert(b.last() == part_source(p));
}

proof fn lemma_source_from(
    s: Seq<char>,
    i: int,
    lit: Seq<char>,
    parts: Seq<TemplatePartView>,
)
    requires
        0 <= i <= s.len(),
        template_source(parts) + lit == s.take(i),
    ensures
        template_from(s, i, lit, parts) matches Ok(out) ==> template_source(out) == s,
    decreases s.len() - i,
{
    if lit.len() > 0 {
        lemma_source_push(parts, TemplatePartView::Literal(lit));
    } else {
        assert(template_source(parts) + lit == template_source(parts));
    }
    let flushed = with_literal(parts, lit);
    assert(template_source(flushed) == s.take(i));
    if i >= s.len() {
        assert(s.take(i) == s);
    } else if s[i] == '{' {
        lemma_first_index(s.skip(i + 1), '}');
        let n = first_index(s.skip(i + 1), '}');
        if i + 1 + n < s.len() {
            assert(s.skip(i + 1)[n] == s[i + 1 + n]);
            let name = s.subrange(i + 1, i + 1 + n);
            match variable(name) {
                None => {},
                Some(v) => {
                    let p = TemplatePartView::Var(v);
                    lemma_source_push(flushed, p);
                    reveal_strlit("{");
                    reveal_strlit("}");
                    assert(part_source(p) == "{"@ + name + "}"@);
                    assert("{"@ + name + "}"@ == s.subrange(i, i + 2 + n));
                    assert(s.take(i) + s.subrange(i, i + 2 + n) == s.take(i + 2 + n));
                    assert(template_source(flushed.push(p)) + Seq::<char>::empty() == s.take(
                        i + 2 + n,
                    ));
                    lemma_source_from(s, i + 2 + n, Seq::empty(), flushed.push(p));
                },
            }
        }
    } else {
        assert(template_source(parts) + lit.push(s[i]) == s.take(i + 1));
        lemma_source_from(s, i + 1, lit.push(s[i]), parts);
    }
}

/// A text as the parts of a template: one literal, or none when it is empty.
pub open spec fn literal_parts(text: Seq<char>) -> Seq<TemplatePartView> {
    if text.len() == 0 {
        Seq::empty()
    } else {
        seq![TemplatePartView::Literal(text)]
    }
}

/// Whether a value with one placeholder reads as the text before it, the part of
/// the request that it names, and the text behind it.
pub open spec fn names_part(a: Seq<char>, name: Seq<char>, b: Seq<char>, v: Variable) -> bool {
    template(a + "{"@ + name + ("}"@ + b)) == Ok::<ValueTemplateView, Seq<char>>(
        (ValueTemplateView {
            parts: literal_parts(a) + seq![TemplatePartView::Var(v)] + literal_parts(b),
        }),
    )
}

/// Placeholders name the parts of a request, and the text around them stays;
/// a text without any stays as it is, and one with another name is refused.
pub proof fn placeholders_name_their_parts(a: Seq<char>, b: Seq<char>, other: Seq<char>)
    requires
        !a.contains('{'),
        !b.contains('{'),
        !other.contains('}'),
        other != "host"@ && other != "uri"@ && other != "remote_host"@,
    ensures
        names_part(a, "host"@, b, Variable::Host),
        names_part(a, "uri"@, b, Variable::Uri),
        names_part(a, "remote_host"@, b, Variable::RemoteHost),
        template(a + "{"@ + other + ("}"@ + b)) is Err,
        template(a + "{"@ + other) is Err,
        template(a) == Ok::<ValueTemplateView, Seq<char>>(
            (ValueTemplateView { parts: literal_parts(a) }),
        ),
{
    reveal_strlit("host");
    reveal_strlit("uri");
    reveal_strlit("remote_host");
    reveal_strlit("{");
    assert("host"@.len() == 4 && "uri"@.len() == 3 && "remote_host"@.len() == 11);
    lemma_one_placeholder(a, "host"@, b);
    lemma_one_placeholder(a, "uri"@, b);
    lemma_one_placeholder(a, "remote_host"@, b);
    lemma_one_placeholder(a, other, b);
    lemma_literal_run(a, 0, a.len() as int, Seq::empty(), Seq::empty());
    assert(Seq::<char>::empty() + a.subrange(0, a.len() as int) == a);
    assert(with_literal(Seq::empty(), a) == literal_parts(a));
    let open = a + "{"@ + other;
    lemma_literal_run(open, 0, a.len() as int, Seq::empty(), Seq::empty());
    assert(open[a.len() as int] == '{');
    assert(open.skip(a.len() as int + 1) == other);
    lemma_first_index(other, '}');
}

/// A run of characters without a placeholder goes into the literal.
proof fn lemma_literal_run(
    s: Seq<char>,
    i: int,
    j: int,
    lit: Seq<char>,
    parts: Seq<TemplatePartView>,
)
    requires
        0 <= i <= j <= s.len(),
        forall|k: int| i <= k < j ==> #[trigger] s[k] != '{',
    ensures
        template_from(s, i, lit, parts) == template_from(s, j, lit + s.subrange(i, j), parts),
    decreases j - i,
{
    if i == j {
        assert(lit + s.subrange(i, j) == lit);
    } else {
        lemma_literal_run(s, i + 1, j, lit.push(s[i]), parts);
        assert(lit.push(s[i]) + s.subrange(i + 1, j) == lit + s.subrange(i, j));
    }
}

proof fn lemma_one_placeholder(a: Seq<char>, name: Seq<char>, b: Seq<char>)
    requires
        !a.contains('{'),
        !b.contains('{'),
        !name.contains('}'),
    ensures
        template(a + "{"@ + name + ("}"@ + b)) == match variable(name) {
            Some(v) => Ok::<ValueTemplateView, Seq<char>>(
                (ValueTemplateView {
                    parts: literal_parts(a) + seq![TemplatePartView::Var(v)] + literal_parts(b),
                }),
            ),
            None => Err("unknown placeholder '{"@ + name + "}'"@),
        },
{
    reveal_strlit("{");
    reveal_strlit("}");
    let s = a + "{"@ + name + ("}"@ + b);
    let i = a.len() as int;
    let n = name.len() as int;
    lemma_literal_run(s, 0, i, Seq::empty(), Seq::empty());
    assert(Seq::<char>::empty() + s.subrange(0, i) == a);
    assert(s[i] == '{');
    let tail = s.skip(i + 1);
    lemma_first_index(tail, '}');
    assert(tail[n] == '}');
    let e = first_index(tail, '}');
    if e < n {
        assert(name[e] == tail[e]);
    }
    assert(s.subrange(i + 1, i + 1 + n) == name);
    if let Some(v) = variable(name) {
        let j = i + 2 + n;
        let flushed = with_literal(Seq::empty(), a).push(TemplatePartView::Var(v));
        assert(forall|k: int| j <= k < s.len() ==> s[k] == #[trigger] b[k - j]);
        lemma_literal_run(s, j, s.len() as int, Seq::empty(), flushed);
        assert(Seq::<char>::empty() + s.subrange(j, s.len() as int) == b);
        assert(with_literal(flushed, b) == literal_parts(a) + seq![TemplatePartView::Var(v)]
            + literal_parts(b));
    }
}

} // verus!
