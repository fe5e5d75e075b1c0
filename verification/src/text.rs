//! Text primitives.
//!
//! Every string is modelled by its sequence of characters. The functions here
//! cut, search, compare and join strings, and state over that model what they
//! give back.
use vstd::prelude::*;
use vstd::utf8::encode_utf8;

verus! {

// ---------------------------------------------------------------------------
// Character classes
// ---------------------------------------------------------------------------

/// The characters with the Unicode `White_Space` property.
pub open spec fn white(c: char) -> bool {
    ||| 0x09 <= c as u32 <= 0x0d
    ||| c as u32 == 0x20
    ||| c as u32 == 0x85
    ||| c as u32 == 0xa0
    ||| c as u32 == 0x1680
    ||| 0x2000 <= c as u32 <= 0x200a
    ||| c as u32 == 0x2028
    ||| c as u32 == 0x2029
    ||| c as u32 == 0x202f
    ||| c as u32 == 0x205f
    ||| c as u32 == 0x3000
}

/// Whether `c` is a Unicode white-space character.
pub fn is_white(c: char) -> (r: bool)
    ensures
        r == white(c),
{
    let u: u32 = c as u32;
    (0x09 <= u && u <= 0x0d) || u == 0x20 || u == 0x85 || u == 0xa0 || u == 0x1680 || (0x2000 <= u
        && u <= 0x200a) || u == 0x2028 || u == 0x2029 || u == 0x202f || u == 0x205f || u == 0x3000
}

/// The ASCII letters and digits.
pub open spec fn alphanumeric(c: char) -> bool {
    ||| 'a' <= c <= 'z'
    ||| 'A' <= c <= 'Z'
    ||| '0' <= c <= '9'
}

/// Whether `c` is an ASCII letter or digit.
pub fn is_alphanumeric(c: char) -> (r: bool)
    ensures
        r == alphanumeric(c),
{
    ('a' <= c && c <= 'z') || ('A' <= c && c <= 'Z') || ('0' <= c && c <= '9')
}

/// `c` with an ASCII capital letter made small.
pub open spec fn lower(c: char) -> char {
    if 'A' <= c <= 'Z' {
        ((c as u32 + 32) as u32) as char
    } else {
        c
    }
}

/// `c` with an ASCII capital letter made small.
fn lower_char(c: char) -> (r: char)
    ensures
        r == lower(c),
{
    if 'A' <= c && c <= 'Z' {
        let b: u8 = c as u8;
        (b + 32) as char
    } else {
        c
    }
}

/// `s` with every ASCII capital letter made small.
pub open spec fn lowered(s: Seq<char>) -> Seq<char> {
    Seq::new(s.len(), |i: int| lower(s[i]))
}

// ---------------------------------------------------------------------------
// Building strings
// ---------------------------------------------------------------------------

/// `String::push` appends one character.
pub assume_specification[ String::push ](s: &mut String, c: char)
    ensures
        final(s)@ == old(s)@.push(c),
;

/// The characters of `s`, in order.
pub fn chars_of(s: &str) -> (v: Vec<char>)
    ensures
        v@ == s@,
{
    let mut v: Vec<char> = Vec::new();
    for c in it: s.chars()
        invariant
            v@ == it.seq().take(it.index() as int),
            it.seq() == s@,
    {
        v.push(c);
    }
    v
}

/// The string made of `chars[from..to]`.
pub fn string_of(chars: &Vec<char>, from: usize, to: usize) -> (s: String)
    requires
        from <= to <= chars@.len(),
    ensures
        s@ == chars@.subrange(from as int, to as int),
{
    let mut s = String::new();
    let mut i: usize = from;
    while i < to
        invariant
            from <= i <= to <= chars@.len(),
            s@ == chars@.subrange(from as int, i as int),
        decreases to - i,
    {
        s.push(chars[i]);
        i += 1;
        assert(chars@.subrange(from as int, i as int) == chars@.subrange(
            from as int,
            i - 1,
        ).push(chars@[i - 1]));
    }
    s
}

/// A copy of `s`.
pub fn owned(s: &str) -> (r: String)
    ensures
        r@ == s@,
{
    s.to_owned()
}

/// `a` followed by `b`.
pub fn cat2(a: &str, b: &str) -> (r: String)
    ensures
        r@ == a@ + b@,
{
    let mut r = a.to_owned();
    r.append(b);
    r
}

/// `a`, `b` and `c`, one after the other.
pub fn cat3(a: &str, b: &str, c: &str) -> (r: String)
    ensures
        r@ == a@ + b@ + c@,
{
    let mut r = a.to_owned();
    r.append(b);
    r.append(c);
    r
}

/// `a`, `b`, `c` and `d`, one after the other.
pub fn cat4(a: &str, b: &str, c: &str, d: &str) -> (r: String)
    ensures
        r@ == a@ + b@ + c@ + d@,
{
    let mut r = cat3(a, b, c);
    r.append(d);
    r
}

/// `a`, `b`, `c`, `d` and `e`, one after the other.
pub fn cat5(a: &str, b: &str, c: &str, d: &str, e: &str) -> (r: String)
    ensures
        r@ == a@ + b@ + c@ + d@ + e@,
{
    let mut r = cat4(a, b, c, d);
    r.append(e);
    r
}

/// The strings of `parts`, one after the other.
pub open spec fn concatenated(parts: Seq<Seq<char>>) -> Seq<char>
    decreases parts.len(),
{
    if parts.len() == 0 {
        Seq::empty()
    } else {
        concatenated(parts.drop_last()) + parts.last()
    }
}

/// The strings of `parts[from..to]`, one after the other.
pub fn concat(parts: &Vec<String>, from: usize, to: usize) -> (r: String)
    requires
        from <= to <= parts@.len(),
    ensures
        r@ == concatenated(parts.deep_view().subrange(from as int, to as int)),
{
    let mut r = String::new();
    let mut i: usize = from;
    while i < to
        invariant
            from <= i <= to <= parts@.len(),
            r@ == concatenated(parts.deep_view().subrange(from as int, i as int)),
        decreases to - i,
    {
        r.append(parts[i].as_str());
        i += 1;
        let ghost next = parts.deep_view().subrange(from as int, i as int);
        assert(next.drop_last() == parts.deep_view().subrange(from as int, i - 1));
        assert(next.last() == parts@[i - 1]@);
    }
    r
}

/// The strings of `parts` with `sep` between neighbours.
pub open spec fn joined(parts: Seq<Seq<char>>, sep: Seq<char>) -> Seq<char>
    decreases parts.len(),
{
    if parts.len() == 0 {
        Seq::empty()
    } else if parts.len() == 1 {
        parts[0]
    } else {
        joined(parts.drop_last(), sep) + sep + parts.last()
    }
}

/// The strings of `parts[from..to]` with `sep` between neighbours.
pub fn join(parts: &Vec<String>, from: usize, to: usize, sep: &str) -> (r: String)
    requires
        from <= to <= parts@.len(),
    ensures
        r@ == joined(parts.deep_view().subrange(from as int, to as int), sep@),
{
    let mut r = String::new();
    let mut i: usize = from;
    while i < to
        invariant
            from <= i <= to <= parts@.len(),
            r@ == joined(parts.deep_view().subrange(from as int, i as int), sep@),
        decreases to - i,
    {
        if i > from {
            r.append(sep);
        }
        r.append(parts[i].as_str());
        i += 1;
        let ghost next = parts.deep_view().subrange(from as int, i as int);
        assert(next.drop_last() == parts.deep_view().subrange(from as int, i - 1));
        assert(next.last() == parts@[i - 1]@);
    }
    r
}

/// `s` with every ASCII capital letter made small.
pub fn to_lower(s: &str) -> (r: String)
    ensures
        r@ == lowered(s@),
{
    let mut r = String::new();
    for c in it: s.chars()
        invariant
            r@ == lowered(it.seq().take(it.index() as int)),
            it.seq() == s@,
    {
        r.push(lower_char(c));
        assert(lowered(it.seq().take(it.index() + 1)) == lowered(
            it.seq().take(it.index() as int),
        ).push(lower(c)));
    }
    assert(s@.take(s@.len() as int) == s@);
    r
}

// ---------------------------------------------------------------------------
// Comparing strings
// ---------------------------------------------------------------------------

/// Whether two strings hold the same characters.
pub fn same(a: &str, b: &str) -> (r: bool)
    ensures
        r == (a@ == b@),
{
    proof {
        vstd::utf8::encode_utf8_decode_utf8(a@);
        vstd::utf8::encode_utf8_decode_utf8(b@);
    }
    let x = a.as_bytes();
    let y = b.as_bytes();
    if x.len() != y.len() {
        return false;
    }
    let mut i: usize = 0;
    while i < x.len()
        invariant
            i <= x@.len(),
            x@.len() == y@.len(),
            x@ == encode_utf8(a@),
            y@ == encode_utf8(b@),
            forall|j: int| 0 <= j < i ==> x@[j] == y@[j],
        decreases x@.len() - i,
    {
        if x[i] != y[i] {
            return false;
        }
        i += 1;
    }
    assert(x@ == y@);
    true
}

/// Whether `word` is one of the strings of `list`.
pub fn is_among(word: &str, list: &Vec<String>) -> (r: bool)
    ensures
        r == list.deep_view().contains(word@),
{
    let mut i: usize = 0;
    while i < list.len()
        invariant
            i <= list@.len(),
            forall|j: int| 0 <= j < i ==> list.deep_view()[j] != word@,
        decreases list@.len() - i,
    {
        if same(word, list[i].as_str()) {
            assert(list.deep_view()[i as int] == word@);
            return true;
        }
        i += 1;
    }
    false
}

// ---------------------------------------------------------------------------
// Searching and cutting strings
// ---------------------------------------------------------------------------

/// The index of the first `c` in `s`, or the length of `s` when there is none.
pub open spec fn first_index(s: Seq<char>, c: char) -> int
    decreases s.len(),
{
    if s.len() == 0 {
        0
    } else if s[0] == c {
        0
    } else {
        1 + first_index(s.skip(1), c)
    }
}

/// The index of the last `c` in `s`, or -1 when there is none.
pub open spec fn last_index(s: Seq<char>, c: char) -> int
    decreases s.len(),
{
    if s.len() == 0 {
        -1
    } else if s.last() == c {
        s.len() - 1
    } else {
        last_index(s.drop_last(), c)
    }
}

/// What `first_index` finds: the least index that holds `c`.
pub proof fn lemma_first_index(s: Seq<char>, c: char)
    ensures
        0 <= first_index(s, c) <= s.len(),
        first_index(s, c) < s.len() ==> s[first_index(s, c)] == c,
        forall|i: int| 0 <= i < first_index(s, c) ==> s[i] != c,
        first_index(s, c) < s.len() <==> s.contains(c),
    decreases s.len(),
{
    if s.len() > 0 && s[0] != c {
        lemma_first_index(s.skip(1), c);
        assert forall|i: int| 0 <= i < first_index(s, c) implies s[i] != c by {
            if i > 0 {
                assert(s.skip(1)[i - 1] == s[i]);
            }
        }
        if s.contains(c) {
            let k = choose|k: int| 0 <= k < s.len() && s[k] == c;
            assert(s.skip(1)[k - 1] == c);
        }
        if first_index(s, c) < s.len() {
            assert(s[first_index(s, c)] == c);
        }
    } else if s.len() > 0 {
        assert(s[0] == c);
    }
}

/// What `last_index` finds: the greatest index that holds `c`.
pub proof fn lemma_last_index(s: Seq<char>, c: char)
    ensures
        -1 <= last_index(s, c) < s.len(),
        last_index(s, c) >= 0 ==> s[last_index(s, c)] == c,
        forall|i: int| last_index(s, c) < i < s.len() ==> s[i] != c,
        last_index(s, c) >= 0 <==> s.contains(c),
    decreases s.len(),
{
    if s.len() > 0 && s.last() != c {
        lemma_last_index(s.drop_last(), c);
        assert forall|i: int| last_index(s, c) < i < s.len() implies s[i] != c by {
            if i < s.len() - 1 {
                assert(s.drop_last()[i] == s[i]);
            }
        }
        if s.contains(c) {
            let k = choose|k: int| 0 <= k < s.len() && s[k] == c;
            assert(s.drop_last()[k] == c);
        }
        if last_index(s, c) >= 0 {
            assert(s[last_index(s, c)] == c);
        }
    } else if s.len() > 0 {
        assert(s[s.len() - 1] == c);
    }
}

/// The two parts of `s` around the first `c`, when there is one.
pub open spec fn cut(s: Seq<char>, c: char) -> Option<(Seq<char>, Seq<char>)> {
    let i = first_index(s, c);
    if i < s.len() {
        Some((s.take(i), s.skip(i + 1)))
    } else {
        None
    }
}

/// The two parts of `s` around the last `c`, when there is one.
pub open spec fn rcut(s: Seq<char>, c: char) -> Option<(Seq<char>, Seq<char>)> {
    let i = last_index(s, c);
    if i >= 0 {
        Some((s.take(i), s.skip(i + 1)))
    } else {
        None
    }
}

/// `s` without the leading `p`, when `s` starts with it.
pub open spec fn after(s: Seq<char>, p: Seq<char>) -> Option<Seq<char>> {
    if p.is_prefix_of(s) {
        Some(s.skip(p.len() as int))
    } else {
        None
    }
}

/// `s` without the trailing `p`, when `s` ends with it.
pub open spec fn before(s: Seq<char>, p: Seq<char>) -> Option<Seq<char>> {
    if p.is_suffix_of(s) {
        Some(s.take(s.len() - p.len()))
    } else {
        None
    }
}

/// `s` without the leading `c`, when `s` starts with it.
pub open spec fn after_char(s: Seq<char>, c: char) -> Option<Seq<char>> {
    if s.len() > 0 && s[0] == c {
        Some(s.skip(1))
    } else {
        None
    }
}

/// `s` without the trailing `c`, when `s` ends with it.
pub open spec fn before_char(s: Seq<char>, c: char) -> Option<Seq<char>> {
    if s.len() > 0 && s.last() == c {
        Some(s.drop_last())
    } else {
        None
    }
}

/// `s` without its trailing run of `c`.
pub open spec fn trimmed_end(s: Seq<char>, c: char) -> Seq<char>
    decreases s.len(),
{
    if s.len() > 0 && s.last() == c {
        trimmed_end(s.drop_last(), c)
    } else {
        s
    }
}

/// Where the first `p` in `s` at or after `from` starts, or -1 when there is
/// none.
pub open spec fn find_from(s: Seq<char>, p: Seq<char>, from: int) -> int
    decreases s.len() - from,
{
    if from < 0 || from + p.len() > s.len() {
        -1
    } else if s.subrange(from, from + p.len()) == p {
        from
    } else if from < s.len() {
        find_from(s, p, from + 1)
    } else {
        -1
    }
}

/// The characters of `s` from `from` up to `to`.
pub fn part<'a>(s: &'a str, from: usize, to: usize) -> (r: &'a str)
    requires
        from <= to <= s@.len(),
    ensures
        r@ == s@.subrange(from as int, to as int),
{
    s.substring_char(from, to)
}

/// The index of the first `c` in `s`, if any.
pub fn find_char(s: &str, c: char) -> (r: Option<usize>)
    ensures
        r is Some == (first_index(s@, c) < s@.len()),
        r matches Some(i) ==> i == first_index(s@, c),
{
    let chars = chars_of(s);
    proof {
        lemma_first_index(s@, c);
    }
    let mut i: usize = 0;
    while i < chars.len()
        invariant
            i <= chars@.len(),
            chars@ == s@,
            forall|j: int| 0 <= j < i ==> s@[j] != c,
            0 <= first_index(s@, c) <= s@.len(),
            first_index(s@, c) < s@.len() ==> s@[first_index(s@, c)] == c,
            forall|j: int| 0 <= j < first_index(s@, c) ==> s@[j] != c,
        decreases chars@.len() - i,
    {
        if chars[i] == c {
            return Some(i);
        }
        i += 1;
    }
    None
}

/// The index of the last `c` in `s`, if any.
pub fn rfind_char(s: &str, c: char) -> (r: Option<usize>)
    ensures
        r is Some == (last_index(s@, c) >= 0),
        r matches Some(i) ==> i == last_index(s@, c),
{
    let chars = chars_of(s);
    proof {
        lemma_last_index(s@, c);
    }
    let mut i: usize = chars.len();
    while i > 0
        invariant
            i <= chars@.len(),
            chars@ == s@,
            forall|j: int| i <= j < s@.len() ==> s@[j] != c,
            -1 <= last_index(s@, c) < s@.len(),
            last_index(s@, c) >= 0 ==> s@[last_index(s@, c)] == c,
            forall|j: int| last_index(s@, c) < j < s@.len() ==> s@[j] != c,
        decreases i,
    {
        i -= 1;
        if chars[i] == c {
            return Some(i);
        }
    }
    None
}

/// Whether `c` occurs in `s`.
pub fn contains_char(s: &str, c: char) -> (r: bool)
    ensures
        r == s@.contains(c),
{
    proof {
        lemma_first_index(s@, c);
    }
    find_char(s, c).is_some()
}

/// The two parts of `s` around the first `c`, when there is one.
pub fn split_once<'a>(s: &'a str, c: char) -> (r: Option<(&'a str, &'a str)>)
    ensures
        match r {
            Some((a, b)) => cut(s@, c) == Some((a@, b@)),
            None => cut(s@, c) is None,
        },
{
    proof {
        lemma_first_index(s@, c);
    }
    let n: usize = s.unicode_len();
    match find_char(s, c) {
        Some(i) => Some((part(s, 0, i), part(s, i + 1, n))),
        None => None,
    }
}

/// The two parts of `s` around the last `c`, when there is one.
pub fn rsplit_once<'a>(s: &'a str, c: char) -> (r: Option<(&'a str, &'a str)>)
    ensures
        match r {
            Some((a, b)) => rcut(s@, c) == Some((a@, b@)),
            None => rcut(s@, c) is None,
        },
{
    proof {
        lemma_last_index(s@, c);
    }
    let n: usize = s.unicode_len();
    match rfind_char(s, c) {
        Some(i) => Some((part(s, 0, i), part(s, i + 1, n))),
        None => None,
    }
}

/// Whether `p` stands in `s` at index `at`.
fn stands_at(s: &Vec<char>, p: &Vec<char>, at: usize) -> (r: bool)
    requires
        at + p@.len() <= s@.len(),
    ensures
        r == (s@.subrange(at as int, at + p@.len()) == p@),
{
    let n: usize = s.len();
    let mut i: usize = 0;
    while i < p.len()
        invariant
            i <= p@.len(),
            at + p@.len() <= s@.len(),
            s@.len() == n,
            forall|j: int| 0 <= j < i ==> s@[at + j] == p@[j],
        decreases p@.len() - i,
    {
        if s[at + i] != p[i] {
            assert(s@.subrange(at as int, at + p@.len())[i as int] != p@[i as int]);
            return false;
        }
        i += 1;
    }
    assert(s@.subrange(at as int, at + p@.len()) == p@);
    true
}

/// `s` without the leading `p`, when `s` starts with it.
pub fn strip_prefix<'a>(s: &'a str, p: &str) -> (r: Option<&'a str>)
    ensures
        match r {
            Some(t) => after(s@, p@) == Some(t@),
            None => after(s@, p@) is None,
        },
{
    let sc = chars_of(s);
    let pc = chars_of(p);
    if pc.len() <= sc.len() && stands_at(&sc, &pc, 0) {
        assert(p@.is_prefix_of(s@));
        Some(part(s, pc.len(), sc.len()))
    } else {
        None
    }
}

/// `s` without the trailing `p`, when `s` ends with it.
pub fn strip_suffix<'a>(s: &'a str, p: &str) -> (r: Option<&'a str>)
    ensures
        match r {
            Some(t) => before(s@, p@) == Some(t@),
            None => before(s@, p@) is None,
        },
{
    let sc = chars_of(s);
    let pc = chars_of(p);
    if pc.len() <= sc.len() && stands_at(&sc, &pc, sc.len() - pc.len()) {
        assert(p@.is_suffix_of(s@));
        Some(part(s, 0, sc.len() - pc.len()))
    } else {
        None
    }
}

/// Whether `s` starts with `p`.
pub fn starts_with(s: &str, p: &str) -> (r: bool)
    ensures
        r == p@.is_prefix_of(s@),
{
    strip_prefix(s, p).is_some()
}

/// `s` without the leading `c`, when `s` starts with it.
pub fn strip_char<'a>(s: &'a str, c: char) -> (r: Option<&'a str>)
    ensures
        match r {
            Some(t) => after_char(s@, c) == Some(t@),
            None => after_char(s@, c) is None,
        },
{
    let n: usize = s.unicode_len();
    if n > 0 && s.get_char(0) == c {
        Some(part(s, 1, n))
    } else {
        None
    }
}

/// `s` without the trailing `c`, when `s` ends with it.
pub fn strip_last_char<'a>(s: &'a str, c: char) -> (r: Option<&'a str>)
    ensures
        match r {
            Some(t) => before_char(s@, c) == Some(t@),
            None => before_char(s@, c) is None,
        },
{
    let n: usize = s.unicode_len();
    if n > 0 && s.get_char(n - 1) == c {
        Some(part(s, 0, n - 1))
    } else {
        None
    }
}

/// `s` without its trailing run of `c`.
pub fn trim_end<'a>(s: &'a str, c: char) -> (r: &'a str)
    ensures
        r@ == trimmed_end(s@, c),
{
    let chars = chars_of(s);
    let mut n: usize = chars.len();
    assert(s@.take(n as int) == s@);
    while n > 0 && chars[n - 1] == c
        invariant
            n <= chars@.len(),
            chars@ == s@,
            trimmed_end(s@, c) == trimmed_end(s@.take(n as int), c),
        decreases n,
    {
        assert(s@.take(n as int).drop_last() == s@.take(n - 1));
        n -= 1;
    }
    part(s, 0, n)
}

/// Where the first `p` in `s` at or after `from` starts, if there is one.
pub fn find_at(s: &str, p: &str, from: usize) -> (r: Option<usize>)
    requires
        from <= s@.len(),
    ensures
        r is Some == (find_from(s@, p@, from as int) >= 0),
        r matches Some(i) ==> i == find_from(s@, p@, from as int) && i + p@.len() <= s@.len(),
{
    let sc = chars_of(s);
    let pc = chars_of(p);
    if pc.len() > sc.len() {
        return None;
    }
    let last: usize = sc.len() - pc.len();
    let mut i: usize = from;
    while i <= last
        invariant
            sc@ == s@,
            pc@ == p@,
            from <= i <= sc@.len(),
            last == sc@.len() - pc@.len(),
            find_from(s@, p@, from as int) == find_from(s@, p@, i as int),
        decreases sc@.len() - i,
    {
        if stands_at(&sc, &pc, i) {
            return Some(i);
        }
        if i == sc.len() {
            return None;
        }
        i += 1;
    }
    None
}

/// Whether `p` occurs in `s`.
pub fn contains_str(s: &str, p: &str) -> (r: bool)
    ensures
        r == (find_from(s@, p@, 0) >= 0),
{
    find_at(s, p, 0).is_some()
}

/// The number of bytes of `s` in UTF-8.
pub fn utf8_len(s: &str) -> (r: usize)
    ensures
        r == encode_utf8(s@).len(),
{
    s.as_bytes().len()
}

/// A text has at least as many bytes as characters.
pub proof fn lemma_utf8_len(s: Seq<char>)
    ensures
        s.len() <= encode_utf8(s).len(),
    decreases s.len(),
{
    if s.len() > 0 {
        lemma_utf8_len(s.drop_first());
        vstd::utf8::encode_utf8_first_scalar(s);
    }
}

/// Whether `s` is empty.
pub fn is_empty(s: &str) -> (r: bool)
    ensures
        r == (s@.len() == 0),
{
    s.is_empty()
}

/// Whether `s` starts with `c`.
pub fn starts_with_char(s: &str, c: char) -> (r: bool)
    ensures
        r == (s@.len() > 0 && s@[0] == c),
{
    strip_char(s, c).is_some()
}

/// Whether `s` ends with `c`.
pub fn ends_with_char(s: &str, c: char) -> (r: bool)
    ensures
        r == (s@.len() > 0 && s@.last() == c),
{
    strip_last_char(s, c).is_some()
}

// ---------------------------------------------------------------------------
// Words and lines
// ---------------------------------------------------------------------------

/// The index of the first character that is not white at or after `i`, or the
/// length of `s`.
pub open spec fn word_start(s: Seq<char>, i: int) -> int
    decreases s.len() - i,
{
    if i < 0 || i >= s.len() || !white(s[i]) {
        i
    } else {
        word_start(s, i + 1)
    }
}

/// The index of the first white character at or after `i`, or the length of `s`.
pub open spec fn word_end(s: Seq<char>, i: int) -> int
    decreases s.len() - i,
{
    if i < 0 || i >= s.len() || white(s[i]) {
        i
    } else {
        word_end(s, i + 1)
    }
}

/// The words of `s` from `i` on, after `done`: its runs of characters that are
/// not white.
pub open spec fn words_from(s: Seq<char>, i: int, done: Seq<Seq<char>>) -> Seq<Seq<char>>
    decreases s.len() - i,
{
    let a = word_start(s, i);
    let b = word_end(s, a);
    if a < 0 || a >= s.len() || b <= i || b > s.len() {
        done
    } else {
        words_from(s, b, done.push(s.subrange(a, b)))
    }
}

/// `s` without the white characters at its end.
pub open spec fn trimmed_back(s: Seq<char>) -> Seq<char>
    decreases s.len(),
{
    if s.len() > 0 && white(s.last()) {
        trimmed_back(s.drop_last())
    } else {
        s
    }
}

/// `s` without the white characters at its ends.
pub open spec fn trimmed(s: Seq<char>) -> Seq<char> {
    trimmed_back(s.skip(word_start(s, 0)))
}

/// The index of the first `c` at or after `i`, or the length of `s`.
pub open spec fn index_from(s: Seq<char>, c: char, i: int) -> int
    decreases s.len() - i,
{
    if i < 0 || i >= s.len() || s[i] == c {
        i
    } else {
        index_from(s, c, i + 1)
    }
}

/// The lines of `s` from `i` on, after `done`. A line ends with a line feed,
/// which may follow a carriage return; the last one may go without.
pub open spec fn lines_from(s: Seq<char>, i: int, done: Seq<Seq<char>>) -> Seq<Seq<char>>
    decreases s.len() - i,
{
    let n = index_from(s, '\n', i);
    if i < 0 || i >= s.len() || n < i || n > s.len() {
        done
    } else {
        let raw = s.subrange(i, n);
        let line = if n < s.len() && raw.len() > 0 && raw.last() == '\r' {
            raw.drop_last()
        } else {
            raw
        };
        if n == s.len() {
            done.push(line)
        } else {
            lines_from(s, n + 1, done.push(line))
        }
    }
}

/// The lines of `s`.
pub open spec fn lines_in(s: Seq<char>) -> Seq<Seq<char>> {
    lines_from(s, 0, Seq::empty())
}

/// Whether `s` starts with `c`.
pub open spec fn opens_with(s: Seq<char>, c: char) -> bool {
    s.len() > 0 && s[0] == c
}

/// The part of `s` before the first `c`, all of it when there is none.
pub open spec fn up_to(s: Seq<char>, c: char) -> Seq<char> {
    match cut(s, c) {
        Some((a, _)) => a,
        None => s,
    }
}

/// The parts of `s` before and after the first `p`, when `p` occurs in it.
pub open spec fn cut_at(s: Seq<char>, p: Seq<char>) -> Option<(Seq<char>, Seq<char>)> {
    let i = find_from(s, p, 0);
    if i >= 0 {
        Some((s.take(i), s.skip(i + p.len())))
    } else {
        None
    }
}

proof fn lemma_word_end(s: Seq<char>, i: int)
    requires
        0 <= i <= s.len(),
    ensures
        i <= word_end(s, i) <= s.len(),
    decreases s.len() - i,
{
    if i < s.len() && !white(s[i]) {
        lemma_word_end(s, i + 1);
    }
}

fn skip_white(chars: &Vec<char>, from: usize) -> (r: usize)
    requires
        from <= chars@.len(),
    ensures
        r == word_start(chars@, from as int),
        from <= r <= chars@.len(),
        r < chars@.len() ==> !white(chars@[r as int]),
{
    let mut i: usize = from;
    while i < chars.len() && is_white(chars[i])
        invariant
            from <= i <= chars@.len(),
            word_start(chars@, from as int) == word_start(chars@, i as int),
        decreases chars@.len() - i,
    {
        i += 1;
    }
    i
}

fn skip_word(chars: &Vec<char>, from: usize) -> (r: usize)
    requires
        from <= chars@.len(),
    ensures
        r == word_end(chars@, from as int),
        from <= r <= chars@.len(),
{
    let mut i: usize = from;
    while i < chars.len() && !is_white(chars[i])
        invariant
            from <= i <= chars@.len(),
            word_end(chars@, from as int) == word_end(chars@, i as int),
        decreases chars@.len() - i,
    {
        i += 1;
    }
    i
}

/// The words of `s`.
pub fn split_words(s: &str) -> (r: Vec<String>)
    ensures
        r.deep_view() == words_from(s@, 0, Seq::empty()),
{
    let chars = chars_of(s);
    let mut out: Vec<String> = Vec::new();
    let mut i: usize = 0;
    assert(out.deep_view() == Seq::<Seq<char>>::empty());
    loop
        invariant
            i <= chars@.len(),
            chars@ == s@,
            words_from(s@, 0, Seq::empty()) == words_from(s@, i as int, out.deep_view()),
        decreases chars@.len() - i,
    {
        let a: usize = skip_white(&chars, i);
        if a == chars.len() {
            return out;
        }
        let b: usize = skip_word(&chars, a);
        proof {
            assert(word_end(s@, a as int) == word_end(s@, a + 1));
            lemma_word_end(s@, a + 1);
        }
        let ghost before = out.deep_view();
        out.push(string_of(&chars, a, b));
        assert(out.deep_view() == before.push(s@.subrange(a as int, b as int)));
        i = b;
    }
}

/// `s` without the white characters at its ends.
pub fn trim<'a>(s: &'a str) -> (r: &'a str)
    ensures
        r@ == trimmed(s@),
{
    let chars = chars_of(s);
    let a: usize = skip_white(&chars, 0);
    let mut n: usize = chars.len();
    assert(s@.skip(a as int) == s@.subrange(a as int, n as int));
    while n > a && is_white(chars[n - 1])
        invariant
            a <= n <= chars@.len(),
            chars@ == s@,
            trimmed_back(s@.skip(a as int)) == trimmed_back(s@.subrange(a as int, n as int)),
        decreases n,
    {
        assert(s@.subrange(a as int, n as int).drop_last() == s@.subrange(a as int, n - 1));
        n -= 1;
    }
    part(s, a, n)
}

/// The lines of `s`.
pub fn lines(s: &str) -> (r: Vec<String>)
    ensures
        r.deep_view() == lines_in(s@),
{
    let chars = chars_of(s);
    let mut out: Vec<String> = Vec::new();
    let mut i: usize = 0;
    assert(out.deep_view() == Seq::<Seq<char>>::empty());
    while i < chars.len()
        invariant
            i <= chars@.len(),
            chars@ == s@,
            lines_in(s@) == lines_from(s@, i as int, out.deep_view()),
        decreases chars@.len() - i,
    {
        let mut n: usize = i;
        while n < chars.len() && chars[n] != '\n'
            invariant
                i <= n <= chars@.len(),
                chars@ == s@,
                index_from(s@, '\n', i as int) == index_from(s@, '\n', n as int),
            decreases chars@.len() - n,
        {
            n += 1;
        }
        let end: usize = if n < chars.len() && n > i && chars[n - 1] == '\r' {
            n - 1
        } else {
            n
        };
        let ghost before = out.deep_view();
        out.push(string_of(&chars, i, end));
        let ghost raw = s@.subrange(i as int, n as int);
        assert(raw.len() > 0 ==> raw.drop_last() == s@.subrange(i as int, n - 1));
        assert(out.deep_view() == before.push(s@.subrange(i as int, end as int)));
        if n == chars.len() {
            return out;
        }
        i = n + 1;
    }
    out
}

/// Split `s` at the first `p`.
pub fn split_at<'a>(s: &'a str, p: &str) -> (r: Option<(&'a str, &'a str)>)
    ensures
        match r {
            Some((a, b)) => cut_at(s@, p@) == Some((a@, b@)),
            None => cut_at(s@, p@) is None,
        },
{
    let n: usize = s.unicode_len();
    let k: usize = p.unicode_len();
    match find_at(s, p, 0) {
        Some(i) => {
            let a = part(s, 0, i);
            let b = part(s, i + k, n);
            assert(s@.take(i as int) == a@);
            assert(s@.skip(i + k) == b@);
            Some((a, b))
        },
        None => None,
    }
}

} // verus!
