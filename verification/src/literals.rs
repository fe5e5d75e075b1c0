//! Addresses read back: the text of an address is a literal of it.
use crate::net::{
    digit_run, group_at, groups_at, groups_of, groups_text, groups_value, hex_char, hexadecimal,
    ip_literal, item_start, octet_at, radix_digit, run_value, v4_at, v4_literal, v4_text, v6_group,
    v6_groups, v6_text, zero_groups, zero_run, IpAddr,
};
use crate::num::{decimal, digit_char};
use vstd::arithmetic::div_mod::{
    lemma_basic_div, lemma_div_denominator, lemma_fundamental_div_mod,
};
use vstd::arithmetic::power2::{lemma2_to64, lemma_pow2_adds, lemma_pow2_pos, pow2};
use vstd::prelude::*;

verus! {

/// Whether every character of `t` is a digit in base `radix`.
spec fn all_in_radix(t: Seq<char>, radix: nat) -> bool {
    forall|i: int| 0 <= i < t.len() ==> radix_digit(#[trigger] t[i], radix) is Some
}

/// Whether `t` stands in `s` at `at`.
spec fn stands_at(t: Seq<char>, s: Seq<char>, at: int) -> bool {
    0 <= at && at + t.len() <= s.len() && forall|i: int|
        0 <= i < t.len() ==> #[trigger] t[i] == s[at + i]
}

/// Whether no digit in base `radix` stands in `s` at `at`.
spec fn no_digit_at(s: Seq<char>, at: int, radix: nat) -> bool {
    at >= s.len() || radix_digit(s[at], radix) is None
}

proof fn lemma_run(t: Seq<char>, s: Seq<char>, at: int, i: int, radix: nat)
    requires
        stands_at(t, s, at),
        all_in_radix(t, radix),
        no_digit_at(s, at + t.len(), radix),
        0 <= i <= t.len(),
    ensures
        digit_run(s, at + i, radix) == t.len() - i,
    decreases t.len() - i,
{
    if i < t.len() {
        assert(t[i] == s[at + i]);
        lemma_run(t, s, at, i + 1, radix);
    }
}

proof fn lemma_run_value(t: Seq<char>, s: Seq<char>, at: int, to: int, radix: nat)
    requires
        stands_at(t, s, at),
        0 <= to <= t.len(),
    ensures
        run_value(s, at, at + to, radix) == run_value(t, 0, to, radix),
    decreases to,
{
    if to > 0 {
        lemma_run_value(t, s, at, to - 1, radix);
        assert(t[to - 1] == s[at + to - 1]);
    }
}

// ---------------------------------------------------------------------------
// Numbers
// ---------------------------------------------------------------------------

proof fn lemma_decimal_digits(n: nat)
    ensures
        decimal(n).len() > 0,
        all_in_radix(decimal(n), 10),
        run_value(decimal(n), 0, decimal(n).len() as int, 10) == n,
        n > 0 ==> decimal(n)[0] != '0',
        n < 10 ==> decimal(n).len() == 1,
        10 <= n < 100 ==> decimal(n).len() == 2,
        100 <= n < 1000 ==> decimal(n).len() == 3,
    decreases n,
{
    let t = decimal(n);
    if n < 10 {
        assert(t[0] == digit_char(n));
        assert(run_value(t, 0, 0, 10) == 0);
        assert(run_value(t, 0, 1, 10) == n);
    } else {
        let u = decimal(n / 10);
        lemma_decimal_digits(n / 10);
        assert(t == u.push(digit_char(n % 10)));
        assert(stands_at(u, t, 0));
        lemma_run_value(u, t, 0, u.len() as int, 10);
        assert(t[t.len() - 1] == digit_char(n % 10));
        assert forall|i: int| 0 <= i < t.len() implies radix_digit(#[trigger] t[i], 10) is Some by {
            if i < u.len() {
                assert(t[i] == u[i]);
            }
        }
    }
}

proof fn lemma_hexadecimal_digits(n: nat)
    ensures
        hexadecimal(n).len() > 0,
        all_in_radix(hexadecimal(n), 16),
        run_value(hexadecimal(n), 0, hexadecimal(n).len() as int, 16) == n,
        n < 16 ==> hexadecimal(n).len() == 1,
        16 <= n < 256 ==> hexadecimal(n).len() == 2,
        256 <= n < 4096 ==> hexadecimal(n).len() == 3,
        4096 <= n < 65536 ==> hexadecimal(n).len() == 4,
    decreases n,
{
    let t = hexadecimal(n);
    if n < 16 {
        assert(t[0] == hex_char(n));
        assert(run_value(t, 0, 0, 16) == 0);
        assert(run_value(t, 0, 1, 16) == n);
    } else {
        let u = hexadecimal(n / 16);
        lemma_hexadecimal_digits(n / 16);
        assert(t == u.push(hex_char(n % 16)));
        assert(stands_at(u, t, 0));
        lemma_run_value(u, t, 0, u.len() as int, 16);
        assert(t[t.len() - 1] == hex_char(n % 16));
        assert forall|i: int| 0 <= i < t.len() implies radix_digit(#[trigger] t[i], 16) is Some by {
            if i < u.len() {
                assert(t[i] == u[i]);
            }
        }
    }
}

proof fn lemma_octet(n: nat, s: Seq<char>, at: int)
    requires
        n <= 255,
        stands_at(decimal(n), s, at),
        no_digit_at(s, at + decimal(n).len(), 10),
    ensures
        octet_at(s, at) == Some((n, at + decimal(n).len())),
{
    let t = decimal(n);
    lemma_decimal_digits(n);
    lemma_run(t, s, at, 0, 10);
    lemma_run_value(t, s, at, t.len() as int, 10);
    assert(t[0] == s[at]);
}

proof fn lemma_group(n: nat, s: Seq<char>, at: int)
    requires
        n < 65536,
        stands_at(hexadecimal(n), s, at),
        no_digit_at(s, at + hexadecimal(n).len(), 16),
    ensures
        group_at(s, at) == Some((n, at + hexadecimal(n).len())),
{
    let t = hexadecimal(n);
    lemma_hexadecimal_digits(n);
    lemma_run(t, s, at, 0, 16);
    lemma_run_value(t, s, at, t.len() as int, 16);
}

// ---------------------------------------------------------------------------
// Four bytes
// ---------------------------------------------------------------------------

/// The parts of a dotted text stand where the lengths of the others put them.
proof fn lemma_dotted(
    a: Seq<char>,
    b: Seq<char>,
    c: Seq<char>,
    d: Seq<char>,
    s: Seq<char>,
    at: int,
)
    requires
        stands_at(a + "."@ + b + "."@ + c + "."@ + d, s, at),
    ensures
        ({
            let p = at + a.len();
            let q = p + 1 + b.len();
            let r = q + 1 + c.len();
            &&& stands_at(a, s, at) && s[p] == '.'
            &&& stands_at(b, s, p + 1) && s[q] == '.'
            &&& stands_at(c, s, q + 1) && s[r] == '.'
            &&& stands_at(d, s, r + 1)
            &&& (a + "."@ + b + "."@ + c + "."@ + d).len() == r + 1 + d.len() - at
        }),
{
    reveal_strlit(".");
    let t = a + "."@ + b + "."@ + c + "."@ + d;
    let p = a.len() as int;
    let q = p + 1 + b.len();
    let r = q + 1 + c.len();
    assert(t.len() == r + 1 + d.len());
    assert(t[p] == '.' && t[q] == '.' && t[r] == '.');
    assert forall|i: int| 0 <= i < a.len() implies #[trigger] a[i] == s[at + i] by {
        assert(a[i] == t[i]);
    }
    assert forall|i: int| 0 <= i < b.len() implies #[trigger] b[i] == s[at + p + 1 + i] by {
        assert(b[i] == t[p + 1 + i]);
    }
    assert forall|i: int| 0 <= i < c.len() implies #[trigger] c[i] == s[at + q + 1 + i] by {
        assert(c[i] == t[q + 1 + i]);
    }
    assert forall|i: int| 0 <= i < d.len() implies #[trigger] d[i] == s[at + r + 1 + i] by {
        assert(d[i] == t[r + 1 + i]);
    }
}

proof fn lemma_bytes(v: nat)
    requires
        v < 0x1_0000_0000,
    ensures
        (((v / 16777216 % 256) * 256 + v / 65536 % 256) * 256 + v / 256 % 256) * 256 + v % 256 == v,
{
    assert(v / 65536 == v / 256 / 256);
    assert(v / 16777216 == v / 256 / 256 / 256);
    assert(v / 16777216 < 256);
}

proof fn lemma_octets(a: nat, b: nat, c: nat, d: nat, s: Seq<char>, at: int)
    requires
        a <= 255,
        b <= 255,
        c <= 255,
        d <= 255,
        ({
            let t = decimal(a) + "."@ + decimal(b) + "."@ + decimal(c) + "."@ + decimal(d);
            stands_at(t, s, at) && at + t.len() == s.len()
        }),
    ensures
        v4_at(s, at) == Some((((a * 256 + b) * 256 + c) * 256 + d, s.len() as int)),
{
    let (ta, tb, tc, td) = (decimal(a), decimal(b), decimal(c), decimal(d));
    lemma_dotted(ta, tb, tc, td, s, at);
    let p = at + ta.len();
    let q = p + 1 + tb.len();
    let r = q + 1 + tc.len();
    assert(octet_at(s, at) == Some((a, p))) by {
        lemma_octet(a, s, at);
    }
    assert(octet_at(s, p + 1) == Some((b, q))) by {
        lemma_octet(b, s, p + 1);
    }
    assert(octet_at(s, q + 1) == Some((c, r))) by {
        lemma_octet(c, s, q + 1);
    }
    assert(octet_at(s, r + 1) == Some((d, s.len() as int))) by {
        lemma_octet(d, s, r + 1);
    }
}

proof fn lemma_v4_at(v: nat, s: Seq<char>, at: int)
    requires
        v < 0x1_0000_0000,
        stands_at(v4_text(v), s, at),
        at + v4_text(v).len() == s.len(),
    ensures
        v4_at(s, at) == Some((v, s.len() as int)),
{
    lemma_bytes(v);
    lemma_octets(v / 16777216 % 256, v / 65536 % 256, v / 256 % 256, v % 256, s, at);
}

// ---------------------------------------------------------------------------
// Eight groups
// ---------------------------------------------------------------------------

/// Whether every group of `g` has sixteen bits.
spec fn small_groups(g: Seq<nat>) -> bool {
    forall|i: int| 0 <= i < g.len() ==> #[trigger] g[i] < 65536
}

/// Whether there is no dot in `s`.
spec fn undotted(s: Seq<char>) -> bool {
    forall|i: int| 0 <= i < s.len() ==> #[trigger] s[i] != '.'
}

proof fn lemma_undotted(s: Seq<char>, at: int)
    requires
        undotted(s),
    ensures
        v4_at(s, at) is None,
{
}

proof fn lemma_groups_undotted(g: Seq<nat>)
    ensures
        undotted(groups_text(g)),
    decreases g.len(),
{
    reveal_strlit(":");
    if g.len() == 1 {
        lemma_hexadecimal_digits(g[0]);
    } else if g.len() > 1 {
        lemma_groups_undotted(g.drop_last());
        lemma_hexadecimal_digits(g.last());
        let (a, b) = (groups_text(g.drop_last()), hexadecimal(g.last()));
        let t = groups_text(g);
        assert forall|i: int| 0 <= i < t.len() implies #[trigger] t[i] != '.' by {
            if i < a.len() {
                assert(t[i] == a[i]);
            } else if i > a.len() {
                assert(t[i] == b[i - a.len() - 1]);
            }
        }
    }
}

/// Groups as they are read: the first one, and the others behind a colon.
proof fn lemma_groups_from_left(g: Seq<nat>)
    requires
        g.len() > 1,
    ensures
        groups_text(g) == hexadecimal(g[0]) + ":"@ + groups_text(g.skip(1)),
    decreases g.len(),
{
    let rest = g.skip(1);
    let init = g.drop_last();
    if g.len() == 2 {
        assert(groups_text(init) == hexadecimal(g[0]));
        assert(groups_text(rest) == hexadecimal(g.last()));
    } else {
        lemma_groups_from_left(init);
        assert(init.skip(1) == rest.drop_last());
        assert(groups_text(rest) == groups_text(rest.drop_last()) + ":"@ + hexadecimal(g.last()));
        assert(groups_text(g) == hexadecimal(g[0]) + ":"@ + groups_text(rest.drop_last()) + ":"@
            + hexadecimal(g.last()));
        assert(groups_text(g) == hexadecimal(g[0]) + ":"@ + groups_text(rest));
    }
}

/// Where a list of groups stands in a text and something else follows, the groups
/// are what is read.
proof fn lemma_groups_at(g: Seq<nat>, s: Seq<char>, at: int, limit: nat, done: Seq<nat>)
    requires
        small_groups(g),
        g.len() > 0,
        done.len() + g.len() <= limit,
        undotted(s),
        item_start(s, at, done.len()) matches Some(p) && stands_at(groups_text(g), s, p) && ends_at(
            s,
            p + groups_text(g).len(),
        ),
    ensures
        groups_at(s, at, limit, done) == (
            done + g,
            item_start(s, at, done.len())->0 + groups_text(g).len(),
            false,
        ),
    decreases g.len(),
{
    reveal_strlit(":");
    let p = item_start(s, at, done.len())->0;
    let t = groups_text(g);
    let h = hexadecimal(g[0]);
    let next = done.push(g[0]);
    lemma_undotted(s, p);
    lemma_hexadecimal_digits(g[0]);
    if g.len() == 1 {
        lemma_group(g[0], s, p);
        lemma_groups_end(s, p + t.len(), limit, next);
        assert(done + g == next);
    } else {
        let rest = g.skip(1);
        let u = groups_text(rest);
        lemma_groups_from_left(g);
        assert(t[h.len() as int] == ':');
        assert(s[p + h.len()] == ':');
        assert forall|i: int| 0 <= i < h.len() implies #[trigger] h[i] == s[p + i] by {
            assert(h[i] == t[i]);
        }
        lemma_group(g[0], s, p);
        assert forall|i: int| 0 <= i < u.len() implies #[trigger] u[i] == s[p + h.len() + 1
            + i] by {
            assert(u[i] == t[h.len() + 1 + i]);
        }
        assert(small_groups(rest)) by {
            assert forall|i: int| 0 <= i < rest.len() implies #[trigger] rest[i] < 65536 by {
                assert(rest[i] == g[i + 1]);
            }
        }
        lemma_groups_at(rest, s, p + h.len(), limit, next);
        assert(next + rest == done + g);
    }
}

/// Whether no group can be read at `at`, neither there nor behind a colon.
spec fn ends_at(s: Seq<char>, at: int) -> bool {
    at == s.len() || 0 <= at && at + 1 < s.len() && s[at] == ':' && s[at + 1] == ':'
}

proof fn lemma_groups_end(s: Seq<char>, at: int, limit: nat, done: Seq<nat>)
    requires
        undotted(s),
        ends_at(s, at),
    ensures
        groups_at(s, at, limit, done) == (done, at, false),
{
    lemma_undotted(s, at);
    lemma_undotted(s, at + 1);
}

/// The run that is found is a run of zeros.
proof fn lemma_zero_run(g: Seq<nat>, i: int, best: (int, int), run: int)
    requires
        0 <= run <= i <= g.len(),
        forall|k: int| i - run <= k < i ==> #[trigger] g[k] == 0,
        0 <= best.0,
        0 <= best.1,
        best.0 + best.1 <= i,
        forall|k: int| best.0 <= k < best.0 + best.1 ==> #[trigger] g[k] == 0,
    ensures
        ({
            let (start, len) = zero_run(g, i, best, run);
            &&& 0 <= start && 0 <= len && start + len <= g.len()
            &&& forall|k: int| start <= k < start + len ==> #[trigger] g[k] == 0
        }),
    decreases g.len() - i,
{
    if i < g.len() {
        if g[i] == 0 {
            let next = if run + 1 > best.1 {
                (i - run, run + 1)
            } else {
                best
            };
            lemma_zero_run(g, i + 1, next, run + 1);
        } else {
            lemma_zero_run(g, i + 1, best, 0);
        }
    }
}

proof fn lemma_groups_value(v: u128, n: nat)
    requires
        0 < n <= 8,
    ensures
        groups_value(groups_of(v).take(n as int)) == v as nat / pow2((128 - 16 * n) as nat),
    decreases n,
{
    let g = groups_of(v).take(n as int);
    let e = (128 - 16 * n) as nat;
    let a = v as nat / pow2(e);
    lemma_pow2_pos(e);
    lemma2_to64();
    lemma_pow2_adds(e, 16);
    lemma_div_denominator(v as int, pow2(e) as int, 65536);
    lemma_fundamental_div_mod(a as int, 65536);
    assert(g.last() == a % 65536);
    assert(a / 65536 == v as nat / pow2(e + 16));
    assert(g.drop_last() == groups_of(v).take(n - 1));
    if n == 1 {
        lemma_pow2_adds(64, 64);
        assert(v as nat / pow2(128) == 0) by {
            assert(pow2(128) == 0x1_0000_0000_0000_0000 * 0x1_0000_0000_0000_0000);
            lemma_basic_div(v as int, pow2(128) as int);
        }
        assert(groups_value(g.drop_last()) == 0);
    } else {
        lemma_groups_value(v, (n - 1) as nat);
    }
}

proof fn lemma_v6_groups(v: u128)
    ensures
        v6_groups(v6_text(v)) == Some(groups_of(v)),
        v4_literal(v6_text(v)) is None,
{
    reveal_strlit("::");
    reveal_strlit("::ffff:");
    let g = groups_of(v);
    let s = v6_text(v);
    let (start, len) = zero_run(g, 0, (0, 0), 0);
    lemma_zero_run(g, 0, (0, 0), 0);
    assert forall|i: int| 0 <= i < g.len() implies #[trigger] g[i] < 65536 by {
        assert(g[i] == v6_group(v, i));
    }
    if g.take(5) == zero_groups(5) && g[5] == 0xffff {
        lemma_mapped(g, s);
    } else if len > 1 {
        let (head, tail) = (g.take(start), g.skip(start + len));
        let (a, b) = (groups_text(head), groups_text(tail));
        assert(s == a + "::"@ + b);
        lemma_groups_undotted(head);
        lemma_groups_undotted(tail);
        assert(undotted(s)) by {
            assert forall|i: int| 0 <= i < s.len() implies #[trigger] s[i] != '.' by {
                if i < a.len() {
                    assert(s[i] == a[i]);
                } else if i >= a.len() + 2 {
                    assert(s[i] == b[i - a.len() - 2]);
                }
            }
        }
        let p = a.len() as int;
        assert(s[p] == ':' && s[p + 1] == ':');
        if start == 0 {
            assert(head == Seq::<nat>::empty());
            lemma_groups_end(s, 0, 8, Seq::empty());
        } else {
            assert(stands_at(a, s, 0));
            lemma_groups_at(head, s, 0, 8, Seq::empty());
            assert(Seq::<nat>::empty() + head == head);
        }
        let limit = (7 - start) as nat;
        if start + len == 8 {
            assert(tail == Seq::<nat>::empty());
            lemma_groups_end(s, p + 2, limit, Seq::empty());
        } else {
            assert forall|i: int| 0 <= i < b.len() implies #[trigger] b[i] == s[p + 2 + i] by {}
            assert(small_groups(tail)) by {
                assert forall|i: int| 0 <= i < tail.len() implies #[trigger] tail[i] < 65536 by {
                    assert(tail[i] == g[start + len + i]);
                }
            }
            lemma_groups_at(tail, s, p + 2, limit, Seq::empty());
            assert(Seq::<nat>::empty() + tail == tail);
        }
        assert(head + zero_groups(len as nat) + tail == g);
        lemma_undotted(s, 0);
    } else {
        lemma_groups_undotted(g);
        lemma_undotted(s, 0);
        assert(stands_at(groups_text(g), s, 0));
        lemma_groups_at(g, s, 0, 8, Seq::empty());
        assert(Seq::<nat>::empty() + g == g);
    }
}

/// Whether a text starts as that of an IPv4-mapped address.
spec fn starts_mapped(s: Seq<char>) -> bool {
    s.len() > 7 && s[0] == ':' && s[1] == ':' && s[2] == 'f' && s[3] == 'f' && s[4] == 'f' && s[5]
        == 'f' && s[6] == ':'
}

proof fn lemma_mapped_group(s: Seq<char>)
    requires
        starts_mapped(s),
    ensures
        group_at(s, 2) == Some((0xffffnat, 6int)),
{
    let t = s.subrange(2, 6);
    assert forall|i: int| 0 <= i < t.len() implies radix_digit(#[trigger] t[i], 16) == Some(
        15nat,
    ) by {
        assert(t[i] == s[i + 2]);
    }
    lemma_run(t, s, 2, 0, 16);
    assert(run_value(s, 2, 2, 16) == 0);
    assert(run_value(s, 2, 3, 16) == 0xf);
    assert(run_value(s, 2, 4, 16) == 0xff);
    assert(run_value(s, 2, 5, 16) == 0xfff);
    assert(run_value(s, 2, 6, 16) == 0xffff);
}

proof fn lemma_mapped_groups(s: Seq<char>, low: nat)
    requires
        starts_mapped(s),
        v4_at(s, 7) == Some((low, s.len() as int)),
    ensures
        v4_literal(s) is None,
        v6_groups(s) == Some(zero_groups(5).push(0xffff).push(low / 65536).push(low % 65536)),
{
    let empty = Seq::<nat>::empty();
    let done = empty.push(0xffff);
    let all = done.push(low / 65536).push(low % 65536);
    lemma_mapped_group(s);
    assert(octet_at(s, 0) is None);
    assert(octet_at(s, 2) is None);
    assert(groups_at(s, 0, 8, empty) == (empty, 0int, false));
    assert(groups_at(s, 6, 7, done) == (all, s.len() as int, true));
    assert(groups_at(s, 2, 7, empty) == groups_at(s, 6, 7, done));
    assert(empty + zero_groups(5) + all == zero_groups(5).push(0xffff).push(low / 65536).push(
        low % 65536,
    ));
}

proof fn lemma_mapped_text(t: Seq<char>, s: Seq<char>)
    requires
        s == "::ffff:"@ + t,
    ensures
        stands_at(t, s, 7),
        s.len() == 7 + t.len(),
        t.len() > 0 ==> starts_mapped(s),
{
    reveal_strlit("::ffff:");
}

proof fn lemma_v4_text(v: nat)
    ensures
        v4_text(v).len() > 0,
{
    reveal_strlit(".");
}

proof fn lemma_mapped(g: Seq<nat>, s: Seq<char>)
    requires
        g.len() == 8,
        small_groups(g),
        g.take(5) == zero_groups(5),
        g[5] == 0xffff,
        s == "::ffff:"@ + v4_text(g[6] * 65536 + g[7]),
    ensures
        v6_groups(s) == Some(g),
        v4_literal(s) is None,
{
    let low = g[6] * 65536 + g[7];
    assert(low < 0x1_0000_0000 && low / 65536 == g[6] && low % 65536 == g[7]) by {
        assert(g[6] < 65536 && g[7] < 65536);
    }
    lemma_v4_text(low);
    lemma_mapped_text(v4_text(low), s);
    assert(v4_at(s, 7) == Some((low, s.len() as int))) by {
        lemma_v4_at(low, s, 7);
    }
    lemma_mapped_groups(s, low);
    lemma_mapped_whole(g);
}

proof fn lemma_mapped_whole(g: Seq<nat>)
    requires
        g.len() == 8,
        g.take(5) == zero_groups(5),
        g[5] == 0xffff,
    ensures
        zero_groups(5).push(0xffff).push(g[6]).push(g[7]) == g,
{
    assert forall|i: int| 0 <= i < 5 implies #[trigger] g[i] == 0 by {
        assert(g.take(5)[i] == zero_groups(5)[i]);
    }
}

// ---------------------------------------------------------------------------
// Brackets
// ---------------------------------------------------------------------------

/// Whether no closing bracket stands in `s`.
spec fn unbracketed(s: Seq<char>) -> bool {
    forall|i: int| 0 <= i < s.len() ==> #[trigger] s[i] != ']'
}

proof fn lemma_unbracketed_sum(a: Seq<char>, b: Seq<char>)
    requires
        unbracketed(a),
        unbracketed(b),
    ensures
        unbracketed(a + b),
{
    let s = a + b;
    assert forall|i: int| 0 <= i < s.len() implies #[trigger] s[i] != ']' by {
        if i < a.len() {
            assert(s[i] == a[i]);
        } else {
            assert(s[i] == b[i - a.len()]);
        }
    }
}

proof fn lemma_unbracketed_digits(t: Seq<char>, radix: nat)
    requires
        all_in_radix(t, radix),
    ensures
        unbracketed(t),
{
    assert forall|i: int| 0 <= i < t.len() implies #[trigger] t[i] != ']' by {
        assert(radix_digit(t[i], radix) is Some);
    }
}

proof fn lemma_unbracketed_groups(g: Seq<nat>)
    ensures
        unbracketed(groups_text(g)),
    decreases g.len(),
{
    reveal_strlit(":");
    if g.len() > 0 {
        let h = hexadecimal(g.last());
        lemma_hexadecimal_digits(g.last());
        lemma_unbracketed_digits(h, 16);
        if g.len() > 1 {
            let init = groups_text(g.drop_last());
            lemma_unbracketed_groups(g.drop_last());
            lemma_unbracketed_sum(init, ":"@);
            lemma_unbracketed_sum(init + ":"@, h);
        }
    }
}

proof fn lemma_unbracketed_v4(v: nat)
    ensures
        unbracketed(v4_text(v)),
{
    reveal_strlit(".");
    let (a, b, c, d) = (
        decimal(v / 16777216 % 256),
        decimal(v / 65536 % 256),
        decimal(v / 256 % 256),
        decimal(v % 256),
    );
    lemma_decimal_digits(v / 16777216 % 256);
    lemma_decimal_digits(v / 65536 % 256);
    lemma_decimal_digits(v / 256 % 256);
    lemma_decimal_digits(v % 256);
    lemma_unbracketed_digits(a, 10);
    lemma_unbracketed_digits(b, 10);
    lemma_unbracketed_digits(c, 10);
    lemma_unbracketed_digits(d, 10);
    lemma_unbracketed_sum(a, "."@);
    lemma_unbracketed_sum(a + "."@, b);
    lemma_unbracketed_sum(a + "."@ + b, "."@);
    lemma_unbracketed_sum(a + "."@ + b + "."@, c);
    lemma_unbracketed_sum(a + "."@ + b + "."@ + c, "."@);
    lemma_unbracketed_sum(a + "."@ + b + "."@ + c + "."@, d);
}

/// The text of an IPv6 address holds no bracket.
pub proof fn lemma_v6_brackets(v: u128)
    ensures
        !v6_text(v).contains(']'),
{
    reveal_strlit("::");
    reveal_strlit("::ffff:");
    let g = groups_of(v);
    let (start, len) = zero_run(g, 0, (0, 0), 0);
    if g.take(5) == zero_groups(5) && g[5] == 0xffff {
        lemma_unbracketed_v4(g[6] * 65536 + g[7]);
        lemma_unbracketed_sum("::ffff:"@, v4_text(g[6] * 65536 + g[7]));
    } else if len > 1 {
        let (a, b) = (groups_text(g.take(start)), groups_text(g.skip(start + len)));
        lemma_unbracketed_groups(g.take(start));
        lemma_unbracketed_groups(g.skip(start + len));
        lemma_unbracketed_sum(a, "::"@);
        lemma_unbracketed_sum(a + "::"@, b);
    } else {
        lemma_unbracketed_groups(g);
    }
    assert(unbracketed(v6_text(v)));
}

// ---------------------------------------------------------------------------
// Laws
// ---------------------------------------------------------------------------

/// Every address that is written out reads back as itself, so no two addresses
/// are written alike.
pub proof fn addresses_read_back(ip: IpAddr)
    ensures
        ip_literal(ip.text()) == Some(ip),
{
    match ip {
        IpAddr::V4(v) => {
            let t = v4_text(v as nat);
            assert(stands_at(t, t, 0));
            lemma_v4_at(v as nat, t, 0);
        },
        IpAddr::V6(v) => {
            lemma_v6_groups(v);
            lemma_groups_value(v, 8);
            lemma2_to64();
            assert(groups_of(v).take(8) == groups_of(v));
            assert(v as nat / 1 == v as nat);
        },
    }
}

} // verus!
