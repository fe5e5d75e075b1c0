//! Internet addresses: literals, canonical text, sockets and networks.
use crate::num::{decimal, decimal_string, parse_up_to};
use crate::text::{cat2, cat3, cat4, cat5, chars_of, cut, split_once};
use vstd::arithmetic::power2::pow2;
use vstd::prelude::*;

verus! {

/// An IP address, as the number that its bits write.
#[derive(Clone, Copy, PartialEq, Eq, Structural, Debug, Hash, PartialOrd, Ord)]
pub enum IpAddr {
    V4(u32),
    V6(u128),
}

/// An IP address and a port. With an IPv6 address go flow information and a scope,
/// which tells links apart; with an IPv4 address both are zero.
#[derive(Clone, Copy, PartialEq, Eq, Structural, Debug, Hash, PartialOrd, Ord)]
pub struct SocketAddr {
    pub ip: IpAddr,
    pub port: u16,
    pub flow: u32,
    pub scope: u32,
}

impl DeepView for IpAddr {
    type V = IpAddr;

    open spec fn deep_view(&self) -> IpAddr {
        *self
    }
}

impl DeepView for SocketAddr {
    type V = SocketAddr;

    open spec fn deep_view(&self) -> SocketAddr {
        *self
    }
}

// ---------------------------------------------------------------------------
// Reading literals
// ---------------------------------------------------------------------------

/// The value of `c` as a digit in base `radix` (ten or sixteen).
pub open spec fn radix_digit(c: char, radix: nat) -> Option<nat> {
    if '0' <= c <= '9' {
        Some((c as u32 - '0' as u32) as nat)
    } else if radix == 16 && 'a' <= c <= 'f' {
        Some((c as u32 - 'a' as u32 + 10) as nat)
    } else if radix == 16 && 'A' <= c <= 'F' {
        Some((c as u32 - 'A' as u32 + 10) as nat)
    } else {
        None
    }
}

/// How many digits stand in `s` from `at` on.
pub open spec fn digit_run(s: Seq<char>, at: int, radix: nat) -> nat
    decreases s.len() - at,
{
    if 0 <= at < s.len() && radix_digit(s[at], radix) is Some {
        1 + digit_run(s, at + 1, radix)
    } else {
        0
    }
}

/// The number that the digits of `s[from..to]` write.
pub open spec fn run_value(s: Seq<char>, from: int, to: int, radix: nat) -> nat
    decreases to - from,
{
    if to <= from {
        0
    } else {
        run_value(s, from, to - 1, radix) * radix + radix_digit(s[to - 1], radix)->0
    }
}

/// A dotted-decimal byte at `at`: one to three digits without a leading zero.
pub open spec fn octet_at(s: Seq<char>, at: int) -> Option<(nat, int)> {
    let n = digit_run(s, at, 10);
    let v = run_value(s, at, at + n, 10);
    if 1 <= n <= 3 && !(s[at] == '0' && n > 1) && v <= 255 {
        Some((v, at + n))
    } else {
        None
    }
}

/// A byte at `at` that a dot introduces.
pub open spec fn dotted_octet_at(s: Seq<char>, at: int) -> Option<(nat, int)> {
    if 0 <= at < s.len() && s[at] == '.' {
        octet_at(s, at + 1)
    } else {
        None
    }
}

/// Four bytes separated by dots, at `at`.
pub open spec fn v4_at(s: Seq<char>, at: int) -> Option<(nat, int)> {
    match octet_at(s, at) {
        Some((a, p)) => match dotted_octet_at(s, p) {
            Some((b, p)) => match dotted_octet_at(s, p) {
                Some((c, p)) => match dotted_octet_at(s, p) {
                    Some((d, p)) => Some((((a * 256 + b) * 256 + c) * 256 + d, p)),
                    None => None,
                },
                None => None,
            },
            None => None,
        },
        None => None,
    }
}

/// A group of one to four hexadecimal digits at `at`.
pub open spec fn group_at(s: Seq<char>, at: int) -> Option<(nat, int)> {
    let n = digit_run(s, at, 16);
    if 1 <= n <= 4 {
        Some((run_value(s, at, at + n, 16), at + n))
    } else {
        None
    }
}

/// Where the item numbered `i` of a colon-separated list starts, when the list
/// stands at `at`: every item but the first follows a colon.
pub open spec fn item_start(s: Seq<char>, at: int, i: nat) -> Option<int> {
    if i == 0 {
        Some(at)
    } else if 0 <= at < s.len() && s[at] == ':' {
        Some(at + 1)
    } else {
        None
    }
}

/// The colon-separated groups at `at`, at most `limit` in all, of which `done`
/// were read before. A dotted-decimal tail counts as two groups and ends the
/// list; the last component says whether there was one.
pub open spec fn groups_at(s: Seq<char>, at: int, limit: nat, done: Seq<nat>) -> (
    Seq<nat>,
    int,
    bool,
)
    decreases limit - done.len(),
{
    if done.len() >= limit {
        (done, at, false)
    } else {
        match item_start(s, at, done.len()) {
            None => (done, at, false),
            Some(p) => {
                let v4 = if done.len() + 1 < limit {
                    v4_at(s, p)
                } else {
                    None
                };
                match v4 {
                    Some((v, q)) => (done.push(v / 65536).push(v % 65536), q, true),
                    None => match group_at(s, p) {
                        Some((g, q)) => groups_at(s, q, limit, done.push(g)),
                        None => (done, at, false),
                    },
                }
            },
        }
    }
}

/// The number that groups of sixteen bits write.
pub open spec fn groups_value(g: Seq<nat>) -> nat
    decreases g.len(),
{
    if g.len() == 0 {
        0
    } else {
        groups_value(g.drop_last()) * 65536 + g.last()
    }
}

/// `n` zero groups.
pub open spec fn zero_groups(n: nat) -> Seq<nat> {
    Seq::new(n, |i: int| 0)
}

/// The IPv4 address that `s` writes.
pub open spec fn v4_literal(s: Seq<char>) -> Option<nat> {
    match v4_at(s, 0) {
        Some((v, p)) => if p == s.len() {
            Some(v)
        } else {
            None
        },
        None => None,
    }
}

/// The eight groups of the IPv6 address that `s` writes: eight groups, or
/// fewer around one `::` that stands for at least one zero group.
pub open spec fn v6_groups(s: Seq<char>) -> Option<Seq<nat>> {
    let (head, p, dotted) = groups_at(s, 0, 8, Seq::empty());
    if head.len() == 8 {
        if p == s.len() {
            Some(head)
        } else {
            None
        }
    } else if !dotted && p + 1 < s.len() && s[p] == ':' && s[p + 1] == ':' {
        let (tail, q, _) = groups_at(s, p + 2, (7 - head.len()) as nat, Seq::empty());
        if q == s.len() {
            Some(head + zero_groups((8 - head.len() - tail.len()) as nat) + tail)
        } else {
            None
        }
    } else {
        None
    }
}

/// The IPv6 address that `s` writes.
pub open spec fn v6_literal(s: Seq<char>) -> Option<nat> {
    match v6_groups(s) {
        Some(g) => Some(groups_value(g)),
        None => None,
    }
}

/// The IP address that `s` writes.
pub open spec fn ip_literal(s: Seq<char>) -> Option<IpAddr> {
    match v4_literal(s) {
        Some(v) => Some(IpAddr::V4(v as u32)),
        None => match v6_literal(s) {
            Some(v) => Some(IpAddr::V6(v as u128)),
            None => None,
        },
    }
}

fn digit_of(c: char, radix: u32) -> (r: Option<u32>)
    requires
        radix == 10 || radix == 16,
    ensures
        match r {
            Some(v) => radix_digit(c, radix as nat) == Some(v as nat) && v < radix,
            None => radix_digit(c, radix as nat) is None,
        },
{
    if '0' <= c && c <= '9' {
        Some(c as u32 - '0' as u32)
    } else if radix == 16 && 'a' <= c && c <= 'f' {
        Some(c as u32 - 'a' as u32 + 10)
    } else if radix == 16 && 'A' <= c && c <= 'F' {
        Some(c as u32 - 'A' as u32 + 10)
    } else {
        None
    }
}

/// The length of the digit run at `at`, and its value when the run has at most
/// four digits.
fn read_run(s: &Vec<char>, at: usize, radix: u32) -> (r: (usize, u32))
    requires
        at <= s@.len(),
        radix == 10 || radix == 16,
    ensures
        r.0 == digit_run(s@, at as int, radix as nat),
        at + r.0 <= s@.len() <= usize::MAX,
        r.0 <= 4 ==> r.1 == run_value(s@, at as int, at + r.0, radix as nat),
        r.0 <= 4 ==> r.1 < 65536,
{
    let mut n: usize = 0;
    let mut v: u32 = 0;
    let len: usize = s.len();
    while at + n < len
        invariant
            radix == 10 || radix == 16,
            len == s@.len(),
            at + n <= len,
            digit_run(s@, at as int, radix as nat) == n + digit_run(s@, at + n, radix as nat),
            n <= 4 ==> v == run_value(s@, at as int, at + n, radix as nat),
            n == 0 ==> v < 1,
            n == 1 ==> v < 16,
            n == 2 ==> v < 256,
            n == 3 ==> v < 4096,
            n == 4 ==> v < 65536,
        decreases len - at - n,
    {
        match digit_of(s[at + n], radix) {
            Some(d) => {
                if n < 4 {
                    v = v * radix + d;
                }
                n += 1;
            },
            None => {
                return (n, v);
            },
        }
    }
    (n, v)
}

fn read_octet(s: &Vec<char>, at: usize) -> (r: Option<(u32, usize)>)
    requires
        at <= s@.len(),
    ensures
        match r {
            Some((v, p)) => octet_at(s@, at as int) == Some((v as nat, p as int)) && v <= 255 && p
                <= s@.len(),
            None => octet_at(s@, at as int) is None,
        },
{
    let (n, v) = read_run(s, at, 10);
    if n >= 1 && n <= 3 && !(s[at] == '0' && n > 1) && v <= 255 {
        Some((v, at + n))
    } else {
        None
    }
}

fn read_dotted_octet(s: &Vec<char>, at: usize) -> (r: Option<(u32, usize)>)
    requires
        at <= s@.len(),
    ensures
        match r {
            Some((v, p)) => dotted_octet_at(s@, at as int) == Some((v as nat, p as int)) && v <= 255
                && p <= s@.len(),
            None => dotted_octet_at(s@, at as int) is None,
        },
{
    if at < s.len() && s[at] == '.' {
        read_octet(s, at + 1)
    } else {
        None
    }
}

fn read_v4(s: &Vec<char>, at: usize) -> (r: Option<(u32, usize)>)
    requires
        at <= s@.len(),
    ensures
        match r {
            Some((v, p)) => v4_at(s@, at as int) == Some((v as nat, p as int)) && p <= s@.len(),
            None => v4_at(s@, at as int) is None,
        },
{
    let (a, p) = match read_octet(s, at) {
        Some(x) => x,
        None => return None,
    };
    let (b, p) = match read_dotted_octet(s, p) {
        Some(x) => x,
        None => return None,
    };
    let (c, p) = match read_dotted_octet(s, p) {
        Some(x) => x,
        None => return None,
    };
    let (d, p) = match read_dotted_octet(s, p) {
        Some(x) => x,
        None => return None,
    };
    Some((((a * 256 + b) * 256 + c) * 256 + d, p))
}

fn read_group(s: &Vec<char>, at: usize) -> (r: Option<(u16, usize)>)
    requires
        at <= s@.len(),
    ensures
        match r {
            Some((v, p)) => group_at(s@, at as int) == Some((v as nat, p as int)) && p <= s@.len(),
            None => group_at(s@, at as int) is None,
        },
{
    let (n, v) = read_run(s, at, 16);
    if n >= 1 && n <= 4 {
        Some((v as u16, at + n))
    } else {
        None
    }
}

/// The model of a list of groups.
pub open spec fn nats(g: Seq<u16>) -> Seq<nat> {
    Seq::new(g.len(), |i: int| g[i] as nat)
}

fn read_groups(s: &Vec<char>, at: usize, limit: usize) -> (r: (Vec<u16>, usize, bool))
    requires
        at <= s@.len(),
        limit <= 8,
    ensures
        groups_at(s@, at as int, limit as nat, Seq::empty()) == (nats(r.0@), r.1 as int, r.2),
        r.0@.len() <= limit,
        r.1 <= s@.len(),
{
    let mut groups: Vec<u16> = Vec::new();
    let mut p: usize = at;
    assert(nats(groups@) == Seq::<nat>::empty());
    while groups.len() < limit
        invariant
            p <= s@.len(),
            limit <= 8,
            groups@.len() <= limit,
            groups_at(s@, at as int, limit as nat, Seq::empty()) == groups_at(
                s@,
                p as int,
                limit as nat,
                nats(groups@),
            ),
        decreases limit - groups@.len(),
    {
        let start: usize = if groups.len() == 0 {
            p
        } else if p < s.len() && s[p] == ':' {
            p + 1
        } else {
            return (groups, p, false);
        };
        let v4 = if groups.len() + 1 < limit {
            read_v4(s, start)
        } else {
            None
        };
        let ghost before = nats(groups@);
        match v4 {
            Some((v, q)) => {
                groups.push((v / 65536) as u16);
                groups.push((v % 65536) as u16);
                assert(nats(groups@) == before.push(v as nat / 65536).push(v as nat % 65536));
                return (groups, q, true);
            },
            None => match read_group(s, start) {
                Some((g, q)) => {
                    groups.push(g);
                    assert(nats(groups@) == before.push(g as nat));
                    p = q;
                },
                None => {
                    return (groups, p, false);
                },
            },
        }
    }
    (groups, p, false)
}

/// 65536 to the power `n`.
spec fn group_base(n: nat) -> nat
    decreases n,
{
    if n == 0 {
        1
    } else {
        65536 * group_base((n - 1) as nat)
    }
}

fn value_of_groups(g: &Vec<u16>) -> (r: u128)
    requires
        g@.len() <= 8,
    ensures
        r == groups_value(nats(g@)),
{
    let mut v: u128 = 0;
    let mut i: usize = 0;
    proof {
        assert(nats(g@).take(0) == Seq::<nat>::empty());
        reveal_with_fuel(group_base, 9);
    }
    while i < g.len()
        invariant
            i <= g@.len() <= 8,
            v == groups_value(nats(g@).take(i as int)),
            v < group_base(i as nat),
        decreases g@.len() - i,
    {
        proof {
            reveal_with_fuel(group_base, 9);
            let next = nats(g@).take(i + 1);
            assert(next.drop_last() == nats(g@).take(i as int));
            assert(next.last() == g@[i as int]);
            assert(group_base(i as nat) <= 0x1_0000_0000_0000_0000_0000_0000_0000nat);
        }
        v = v * 65536 + g[i] as u128;
        i += 1;
    }
    assert(nats(g@).take(i as int) == nats(g@));
    v
}

/// The IPv4 address that `s` writes.
pub fn parse_v4(s: &str) -> (r: Option<u32>)
    ensures
        match r {
            Some(v) => v4_literal(s@) == Some(v as nat),
            None => v4_literal(s@) is None,
        },
{
    let chars = chars_of(s);
    match read_v4(&chars, 0) {
        Some((v, p)) => if p == chars.len() {
            Some(v)
        } else {
            None
        },
        None => None,
    }
}

/// The IPv6 address that `s` writes.
pub fn parse_v6(s: &str) -> (r: Option<u128>)
    ensures
        match r {
            Some(v) => v6_literal(s@) == Some(v as nat),
            None => v6_literal(s@) is None,
        },
{
    let chars = chars_of(s);
    let (mut head, p, dotted) = read_groups(&chars, 0, 8);
    let ghost h = nats(head@);
    if head.len() == 8 {
        return if p == chars.len() {
            Some(value_of_groups(&head))
        } else {
            None
        };
    }
    if dotted || chars.len() - p < 2 || chars[p] != ':' || chars[p + 1] != ':' {
        return None;
    }
    let (tail, q, _) = read_groups(&chars, p + 2, 7 - head.len());
    if q != chars.len() {
        return None;
    }
    let ghost t = nats(tail@);
    let zeros: usize = 8 - head.len() - tail.len();
    let mut i: usize = 0;
    assert(nats(head@) == h + zero_groups(0));
    while i < zeros
        invariant
            i <= zeros,
            head@.len() == h.len() + i,
            nats(head@) == h + zero_groups(i as nat),
        decreases zeros - i,
    {
        let ghost before = nats(head@);
        head.push(0);
        i += 1;
        assert(nats(head@) == before.push(0));
        assert(zero_groups(i as nat) == zero_groups((i - 1) as nat).push(0));
        assert(before.push(0) == h + zero_groups((i - 1) as nat).push(0));
    }
    let mut j: usize = 0;
    let ghost front = h + zero_groups(zeros as nat);
    assert(nats(head@) == front + t.take(0));
    while j < tail.len()
        invariant
            j <= tail@.len(),
            t == nats(tail@),
            head@.len() == front.len() + j,
            nats(head@) == front + t.take(j as int),
        decreases tail@.len() - j,
    {
        let ghost before = nats(head@);
        head.push(tail[j]);
        j += 1;
        assert(nats(head@) == before.push(t[j - 1]));
        assert(t.take(j as int) == t.take(j - 1).push(t[j - 1]));
        assert(before.push(t[j - 1]) == front + t.take(j - 1).push(t[j - 1]));
    }
    assert(t.take(j as int) == t);
    Some(value_of_groups(&head))
}

impl IpAddr {
    /// The IP address that `s` writes.
    pub fn parse(s: &str) -> (r: Option<IpAddr>)
        ensures
            r == ip_literal(s@),
    {
        match parse_v4(s) {
            Some(v) => Some(IpAddr::V4(v)),
            None => match parse_v6(s) {
                Some(v) => Some(IpAddr::V6(v)),
                None => None,
            },
        }
    }

    /// Whether this is the address `0.0.0.0` or `::`.
    pub open spec fn spec_unspecified(self) -> bool {
        self == IpAddr::V4(0) || self == IpAddr::V6(0)
    }

    /// Whether this is the address `0.0.0.0` or `::`.
    pub fn is_unspecified(&self) -> (r: bool)
        ensures
            r == self.spec_unspecified(),
    {
        match *self {
            IpAddr::V4(v) => v == 0,
            IpAddr::V6(v) => v == 0,
        }
    }
}

// ---------------------------------------------------------------------------
// Writing addresses
// ---------------------------------------------------------------------------

/// `n` written in lower-case hexadecimal without leading zeros.
pub open spec fn hexadecimal(n: nat) -> Seq<char>
    decreases n,
{
    if n < 16 {
        seq![hex_char(n)]
    } else {
        hexadecimal(n / 16).push(hex_char(n % 16))
    }
}

/// The lower-case hexadecimal digit that stands for `n`.
pub open spec fn hex_char(n: nat) -> char {
    if n < 10 {
        (('0' as u32 + n) as u32) as char
    } else {
        (('a' as u32 + n - 10) as u32) as char
    }
}

/// `n` written in lower-case hexadecimal without leading zeros.
pub fn hexadecimal_string(n: u64) -> (r: String)
    ensures
        r@ == hexadecimal(n as nat),
    decreases n,
{
    let d: u8 = (n % 16) as u8;
    let c = if d < 10 { ('0' as u8 + d) as char } else { ('a' as u8 + (d - 10)) as char };
    let mut r = if n < 16 { String::new() } else { hexadecimal_string(n / 16) };
    r.push(c);
    assert(n < 16 ==> r@ == hexadecimal(n as nat));
    r
}

/// The dotted-decimal form of an IPv4 address.
pub open spec fn v4_text(v: nat) -> Seq<char> {
    decimal(v / 16777216 % 256) + "."@ + decimal(v / 65536 % 256) + "."@ + decimal(v / 256 % 256)
        + "."@ + decimal(v % 256)
}

/// The dotted-decimal form of an IPv4 address.
pub fn v4_string(v: u32) -> (r: String)
    ensures
        r@ == v4_text(v as nat),
{
    let a = decimal_string((v / 16777216 % 256) as u64);
    let b = decimal_string((v / 65536 % 256) as u64);
    let c = decimal_string((v / 256 % 256) as u64);
    let d = decimal_string((v % 256) as u64);
    let ab = cat5(a.as_str(), ".", b.as_str(), ".", c.as_str());
    cat3(ab.as_str(), ".", d.as_str())
}

/// The group numbered `i` from the left of an IPv6 address.
pub open spec fn v6_group(v: u128, i: int) -> nat {
    (v as nat / pow2((112 - 16 * i) as nat)) % 65536
}

/// The eight groups of an IPv6 address.
pub open spec fn groups_of(v: u128) -> Seq<nat> {
    Seq::new(8, |i: int| v6_group(v, i))
}

/// The longest run of zero groups, as its start and its length: `best` is the
/// longest run that ended before `i` or runs up to it, `run` the length of the
/// run of zeros that ends at `i`. Of runs of one length the first counts.
pub open spec fn zero_run(g: Seq<nat>, i: int, best: (int, int), run: int) -> (int, int)
    decreases g.len() - i,
{
    if i < 0 || i >= g.len() {
        best
    } else if g[i] == 0 {
        zero_run(
            g,
            i + 1,
            if run + 1 > best.1 {
                (i - run, run + 1)
            } else {
                best
            },
            run + 1,
        )
    } else {
        zero_run(g, i + 1, best, 0)
    }
}

/// Groups in hexadecimal with a colon between neighbours.
pub open spec fn groups_text(g: Seq<nat>) -> Seq<char>
    decreases g.len(),
{
    if g.len() == 0 {
        Seq::empty()
    } else if g.len() == 1 {
        hexadecimal(g[0])
    } else {
        groups_text(g.drop_last()) + ":"@ + hexadecimal(g.last())
    }
}

/// The canonical form of an IPv6 address: lower-case groups, the first longest
/// run of two or more zero groups written `::`, and an IPv4-mapped address in
/// mixed notation.
pub open spec fn v6_text(v: u128) -> Seq<char> {
    let g = groups_of(v);
    if g.take(5) == zero_groups(5) && g[5] == 0xffff {
        "::ffff:"@ + v4_text(g[6] * 65536 + g[7])
    } else {
        let (start, len) = zero_run(g, 0, (0, 0), 0);
        if len > 1 {
            groups_text(g.take(start)) + "::"@ + groups_text(g.skip(start + len))
        } else {
            groups_text(g)
        }
    }
}

fn read_groups_of(v: u128) -> (g: Vec<u16>)
    ensures
        nats(g@) == groups_of(v),
        g@.len() == 8,
{
    let mut g: Vec<u16> = Vec::new();
    let mut i: u32 = 0;
    while i < 8
        invariant
            i <= 8,
            g@.len() == i,
            forall|j: int| 0 <= j < i ==> g@[j] == v6_group(v, j),
        decreases 8 - i,
    {
        let shift: u128 = (112 - 16 * i) as u128;
        proof {
            vstd::bits::lemma_u128_shr_is_div(v, shift);
        }
        g.push(((v >> shift) % 65536) as u16);
        i += 1;
    }
    assert(nats(g@) == groups_of(v));
    g
}

fn groups_string(g: &Vec<u16>, from: usize, to: usize) -> (r: String)
    requires
        from <= to <= g@.len(),
    ensures
        r@ == groups_text(nats(g@).subrange(from as int, to as int)),
{
    let mut r = String::new();
    let mut i: usize = from;
    while i < to
        invariant
            from <= i <= to <= g@.len(),
            r@ == groups_text(nats(g@).subrange(from as int, i as int)),
        decreases to - i,
    {
        if i > from {
            r.append(":");
        }
        let h = hexadecimal_string(g[i] as u64);
        r.append(h.as_str());
        i += 1;
        let ghost next = nats(g@).subrange(from as int, i as int);
        assert(next.drop_last() == nats(g@).subrange(from as int, i - 1));
        assert(next.last() == g@[i - 1]);
        assert(r@ == groups_text(next));
    }
    r
}

fn find_zero_run(g: &Vec<u16>) -> (r: (usize, usize))
    requires
        g@.len() == 8,
    ensures
        zero_run(nats(g@), 0, (0, 0), 0) == (r.0 as int, r.1 as int),
        r.0 + r.1 <= 8,
{
    let mut best: (usize, usize) = (0, 0);
    let mut run: usize = 0;
    let mut i: usize = 0;
    while i < 8
        invariant
            g@.len() == 8,
            i <= 8,
            run <= i,
            best.0 + best.1 <= i,
            zero_run(nats(g@), 0, (0, 0), 0) == zero_run(
                nats(g@),
                i as int,
                (best.0 as int, best.1 as int),
                run as int,
            ),
        decreases 8 - i,
    {
        assert(nats(g@)[i as int] == g@[i as int]);
        if g[i] == 0 {
            if run + 1 > best.1 {
                best = (i - run, run + 1);
            }
            run += 1;
        } else {
            run = 0;
        }
        i += 1;
    }
    best
}

/// The canonical form of an IPv6 address.
pub fn v6_string(v: u128) -> (r: String)
    ensures
        r@ == v6_text(v),
{
    let g = read_groups_of(v);
    let ghost n = nats(g@);
    let mapped = g[0] == 0 && g[1] == 0 && g[2] == 0 && g[3] == 0 && g[4] == 0 && g[5] == 0xffff;
    proof {
        assert(n[0] == g@[0] && n[1] == g@[1] && n[2] == g@[2] && n[3] == g@[3] && n[4] == g@[4]
            && n[5] == g@[5] && n[6] == g@[6] && n[7] == g@[7]);
        if mapped {
            assert(n.take(5) == zero_groups(5));
        } else if n.take(5) == zero_groups(5) {
            assert(n.take(5)[0] == 0 && n.take(5)[1] == 0 && n.take(5)[2] == 0 && n.take(5)[3] == 0
                && n.take(5)[4] == 0);
        }
    }
    if mapped {
        let low = v4_string(g[6] as u32 * 65536 + g[7] as u32);
        return cat2("::ffff:", low.as_str());
    }
    let (start, len) = find_zero_run(&g);
    if len > 1 {
        let a = groups_string(&g, 0, start);
        let b = groups_string(&g, start + len, 8);
        assert(n.subrange(0, start as int) == n.take(start as int));
        assert(n.subrange(start + len, 8) == n.skip(start + len));
        cat3(a.as_str(), "::", b.as_str())
    } else {
        assert(n.subrange(0, 8) == n);
        groups_string(&g, 0, 8)
    }
}

impl IpAddr {
    /// The canonical form of the address.
    pub open spec fn text(self) -> Seq<char> {
        match self {
            IpAddr::V4(v) => v4_text(v as nat),
            IpAddr::V6(v) => v6_text(v),
        }
    }

    /// The canonical form of the address.
    pub fn display(&self) -> (r: String)
        ensures
            r@ == self.text(),
    {
        match *self {
            IpAddr::V4(v) => v4_string(v),
            IpAddr::V6(v) => v6_string(v),
        }
    }
}

impl SocketAddr {
    /// Whether the address is an IPv4 one.
    pub fn is_ipv4(&self) -> (r: bool)
        ensures
            r == (self.ip is V4),
    {
        match self.ip {
            IpAddr::V4(_) => true,
            IpAddr::V6(_) => false,
        }
    }

    /// The socket at `ip` and `port`, without flow information and scope.
    pub open spec fn at(ip: IpAddr, port: u16) -> SocketAddr {
        SocketAddr { ip, port, flow: 0, scope: 0 }
    }

    /// The socket at `ip` and `port`, without flow information and scope.
    pub fn new(ip: IpAddr, port: u16) -> (r: SocketAddr)
        ensures
            r == SocketAddr::at(ip, port),
    {
        SocketAddr { ip, port, flow: 0, scope: 0 }
    }

    /// The socket at an IPv6 address.
    pub fn v6(ip: u128, port: u16, flow: u32, scope: u32) -> (r: SocketAddr)
        ensures
            r == (SocketAddr { ip: IpAddr::V6(ip), port, flow, scope }),
    {
        SocketAddr { ip: IpAddr::V6(ip), port, flow, scope }
    }

    /// The socket at the IPv4 address `a.b.c.d`.
    pub fn v4(a: u8, b: u8, c: u8, d: u8, port: u16) -> (r: SocketAddr)
        ensures
            r.ip matches IpAddr::V4(v) && v == ((a * 256 + b) * 256 + c) * 256 + d,
            r == SocketAddr::at(r.ip, port),
    {
        let v: u32 = ((a as u32 * 256 + b as u32) * 256 + c as u32) * 256 + d as u32;
        SocketAddr::new(IpAddr::V4(v), port)
    }

    /// The address and port, an IPv6 address in brackets, with its scope behind `%`
    /// unless that is zero.
    pub open spec fn text(self) -> Seq<char> {
        match self.ip {
            IpAddr::V4(v) => v4_text(v as nat) + ":"@ + decimal(self.port as nat),
            IpAddr::V6(v) => if self.scope == 0 {
                "["@ + v6_text(v) + "]:"@ + decimal(self.port as nat)
            } else {
                "["@ + v6_text(v) + "%"@ + decimal(self.scope as nat) + ("]:"@ + decimal(
                    self.port as nat,
                ))
            },
        }
    }

    /// The address and port, an IPv6 address in brackets, with its scope behind `%`
    /// unless that is zero.
    pub fn display(&self) -> (r: String)
        ensures
            r@ == self.text(),
    {
        let p = decimal_string(self.port as u64);
        let a = self.ip.display();
        match self.ip {
            IpAddr::V4(_) => cat3(a.as_str(), ":", p.as_str()),
            IpAddr::V6(_) => if self.scope == 0 {
                cat4("[", a.as_str(), "]:", p.as_str())
            } else {
                let scope = decimal_string(self.scope as u64);
                let end = cat2("]:", p.as_str());
                cat5("[", a.as_str(), "%", scope.as_str(), end.as_str())
            },
        }
    }
}

// ---------------------------------------------------------------------------
// Networks
// ---------------------------------------------------------------------------

/// An IP network: an address plus a prefix length.
#[derive(Clone, Copy, PartialEq, Eq, Structural, Debug)]
pub struct Cidr {
    /// The network base address (only the leading `prefix` bits are meaningful).
    pub network: IpAddr,
    /// The prefix length: `0..=32` for IPv4, `0..=128` for IPv6.
    pub prefix: u8,
}

impl DeepView for Cidr {
    type V = Cidr;

    open spec fn deep_view(&self) -> Cidr {
        *self
    }
}

/// The number of bits of an address.
pub open spec fn width(ip: IpAddr) -> nat {
    match ip {
        IpAddr::V4(_) => 32,
        IpAddr::V6(_) => 128,
    }
}

/// The network that `raw` writes: `<address>/<prefix>`, or a bare address for a
/// single host. Otherwise the reason why it is none.
pub open spec fn cidr_literal(raw: Seq<char>) -> Result<Cidr, Seq<char>> {
    let (addr, prefix) = match cut(raw, '/') {
        Some((a, p)) => (a, Some(p)),
        None => (raw, None),
    };
    match ip_literal(addr) {
        None => Err("invalid IP address '"@ + addr + "'"@),
        Some(ip) => match prefix {
            None => Ok(Cidr { network: ip, prefix: width(ip) as u8 }),
            Some(p) => match crate::num::number(p, 255) {
                None => Err("invalid CIDR prefix '"@ + p + "'"@),
                Some(n) => if n > width(ip) {
                    Err("CIDR prefix "@ + decimal(n) + " is too large for this address"@)
                } else {
                    Ok(Cidr { network: ip, prefix: n as u8 })
                },
            },
        },
    }
}

impl Cidr {
    /// A prefix is no longer than the address.
    pub open spec fn wf(self) -> bool {
        self.prefix <= width(self.network)
    }

    /// Whether `ip` is of the network's family and agrees with it in the
    /// leading `prefix` bits.
    pub open spec fn covers(self, ip: IpAddr) -> bool {
        match (self.network, ip) {
            (IpAddr::V4(a), IpAddr::V4(b)) => {
                let d = pow2((32 - self.prefix) as nat) as int;
                a as int / d == b as int / d
            },
            (IpAddr::V6(a), IpAddr::V6(b)) => {
                let d = pow2((128 - self.prefix) as nat) as int;
                a as int / d == b as int / d
            },
            _ => false,
        }
    }

    /// Parse a CIDR: `<address>/<prefix>`, or a bare address (a single host).
    pub fn parse(raw: &str) -> (r: Result<Cidr, String>)
        ensures
            match r {
                Ok(c) => cidr_literal(raw@) == Ok::<Cidr, Seq<char>>(c) && c.wf(),
                Err(m) => cidr_literal(raw@) == Err::<Cidr, Seq<char>>(m@),
            },
    {
        let (addr, prefix) = match split_once(raw, '/') {
            Some((a, p)) => (a, Some(p)),
            None => (raw, None),
        };
        let network = match IpAddr::parse(addr) {
            Some(ip) => ip,
            None => {
                return Err(cat3("invalid IP address '", addr, "'"));
            },
        };
        let max: u8 = match network {
            IpAddr::V4(_) => 32,
            IpAddr::V6(_) => 128,
        };
        match prefix {
            None => Ok(Cidr { network, prefix: max }),
            Some(p) => match parse_up_to(p, 255) {
                None => Err(cat3("invalid CIDR prefix '", p, "'")),
                Some(n) => if n > max as u64 {
                    let d = decimal_string(n);
                    Err(cat3("CIDR prefix ", d.as_str(), " is too large for this address"))
                } else {
                    Ok(Cidr { network, prefix: n as u8 })
                },
            },
        }
    }

    /// Whether an IP address falls inside this network.
    pub fn contains(&self, ip: IpAddr) -> (r: bool)
        requires
            self.wf(),
        ensures
            r == self.covers(ip),
    {
        match (self.network, ip) {
            (IpAddr::V4(a), IpAddr::V4(b)) => {
                if self.prefix == 0 {
                    proof {
                        vstd::arithmetic::power2::lemma2_to64();
                        assert(a as int / 0x1_0000_0000 == 0 && b as int / 0x1_0000_0000 == 0);
                    }
                    true
                } else {
                    let k: u32 = 32 - self.prefix as u32;
                    proof {
                        vstd::bits::lemma_u32_shr_is_div(a, k);
                        vstd::bits::lemma_u32_shr_is_div(b, k);
                    }
                    (a >> k) == (b >> k)
                }
            },
            (IpAddr::V6(a), IpAddr::V6(b)) => {
                if self.prefix == 0 {
                    proof {
                        vstd::arithmetic::power2::lemma2_to64();
                        vstd::arithmetic::power2::lemma_pow2_adds(64, 64);
                        assert(pow2(128) == 0x1_0000_0000_0000_0000 * 0x1_0000_0000_0000_0000);
                        assert(a as int / pow2(128) as int == 0);
                        assert(b as int / pow2(128) as int == 0);
                    }
                    true
                } else {
                    let k: u128 = 128 - self.prefix as u128;
                    proof {
                        vstd::bits::lemma_u128_shr_is_div(a, k);
                        vstd::bits::lemma_u128_shr_is_div(b, k);
                    }
                    (a >> k) == (b >> k)
                }
            },
            _ => false,
        }
    }
}

/// A network contains its own base address.
pub proof fn network_covers_itself(c: Cidr)
    requires
        c.wf(),
    ensures
        c.covers(c.network),
{
}

/// A network of the full prefix length is a single host.
pub proof fn full_prefix_is_one_host(c: Cidr, ip: IpAddr)
    requires
        c.prefix == width(c.network),
    ensures
        c.covers(ip) <==> ip == c.network,
{
    vstd::arithmetic::power2::lemma2_to64();
    assert(pow2(0) == 1);
    match (c.network, ip) {
        (IpAddr::V4(a), IpAddr::V4(b)) => {
            assert(a as int / 1 == a as int && b as int / 1 == b as int);
        },
        (IpAddr::V6(a), IpAddr::V6(b)) => {
            assert(a as int / 1 == a as int && b as int / 1 == b as int);
        },
        _ => {},
    }
}

/// A network of prefix length zero covers every address of its family.
pub proof fn zero_prefix_covers_family(c: Cidr, ip: IpAddr)
    requires
        c.prefix == 0,
    ensures
        c.covers(ip) <==> width(ip) == width(c.network),
{
    vstd::arithmetic::power2::lemma2_to64();
    vstd::arithmetic::power2::lemma_pow2_adds(64, 64);
    match (c.network, ip) {
        (IpAddr::V4(a), IpAddr::V4(b)) => {
            assert(a as int / 0x1_0000_0000 == 0 && b as int / 0x1_0000_0000 == 0);
        },
        (IpAddr::V6(a), IpAddr::V6(b)) => {
            assert(pow2(128) == 0x1_0000_0000_0000_0000 * 0x1_0000_0000_0000_0000);
            assert(a as int / pow2(128) as int == 0);
            assert(b as int / pow2(128) as int == 0);
        },
        _ => {},
    }
}

/// A network is a range of addresses: as many as the bits behind its prefix can
/// tell apart, from the one in which they are all zero.
pub proof fn networks_are_ranges(c: Cidr, ip: IpAddr, a: int, b: int, size: int)
    requires
        c.wf(),
        match (c.network, ip) {
            (IpAddr::V4(x), IpAddr::V4(y)) => a == x && b == y && size == pow2(
                (32 - c.prefix) as nat,
            ),
            (IpAddr::V6(x), IpAddr::V6(y)) => a == x && b == y && size == pow2(
                (128 - c.prefix) as nat,
            ),
            _ => false,
        },
    ensures
        c.covers(ip) <==> a - a % size <= b < a - a % size + size,
{
    vstd::arithmetic::power2::lemma_pow2_pos((width(c.network) - c.prefix) as nat);
    lemma_same_part(a, b, size);
}

/// An address of one family is in no network of the other.
pub proof fn families_do_not_mix(c: Cidr, ip: IpAddr)
    requires
        c.network is V4 != ip is V4,
    ensures
        !c.covers(ip),
{
}

proof fn lemma_same_part(a: int, b: int, size: int)
    requires
        size > 0,
        a >= 0,
        b >= 0,
    ensures
        a / size == b / size <==> a - a % size <= b < a - a % size + size,
{
    vstd::arithmetic::div_mod::lemma_fundamental_div_mod(a, size);
    vstd::arithmetic::div_mod::lemma_fundamental_div_mod(b, size);
    vstd::arithmetic::div_mod::lemma_mod_bound(a, size);
    vstd::arithmetic::div_mod::lemma_mod_bound(b, size);
    let (x, y) = (a / size, b / size);
    if x < y {
        assert(size * (x + 1) <= size * y) by (nonlinear_arith)
            requires
                x + 1 <= y,
                size > 0,
        ;
        assert(size * (x + 1) == size * x + size) by (nonlinear_arith);
    } else if y < x {
        assert(size * (y + 1) <= size * x) by (nonlinear_arith)
            requires
                y + 1 <= x,
                size > 0,
        ;
        assert(size * (y + 1) == size * y + size) by (nonlinear_arith);
    }
}

} // verus!
