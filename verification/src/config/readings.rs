//! What the values of a configuration mean: writing a value and reading it gives
//! the value back.
use crate::config::ast::{ListenAddress, RateUnit, UpstreamHttpVersion, UpstreamView};
use crate::config::values::{
    count_value, duration_value, endpoint, l4_upstream, listen_address, port_value, rate_value,
    redirect_code, size_value, upstream, upstream_scheme,
};
use crate::config::expand::{env_value, word_expanded};
use crate::net::{ip_literal, IpAddr, SocketAddr};
use crate::num::{decimal, decimal_reads_back, digit, lemma_decimal};
use crate::text::{find_from, lemma_first_index, lemma_last_index};
use vstd::prelude::*;

verus! {

/// Whether a reading gives `n`, which has to be no more than `max`.
pub open spec fn gives(got: Option<nat>, n: nat, max: nat) -> bool {
    if n <= max {
        got == Some(n)
    } else {
        got is None
    }
}

/// The nanoseconds that the duration behind a name gives.
pub open spec fn nanoseconds(name: Seq<char>, text: Seq<char>) -> Option<nat> {
    match duration_value(seq![name, text]) {
        Ok(d) => Some(d.nanos as nat),
        Err(_) => None,
    }
}

/// The bytes that a size gives.
pub open spec fn bytes(text: Seq<char>) -> Option<nat> {
    match size_value(text) {
        Ok(n) => Some(n as nat),
        Err(_) => None,
    }
}

/// Durations are read in milliseconds, seconds, minutes and hours, and in seconds
/// without a unit.
pub proof fn durations_have_their_units(name: Seq<char>, n: nat)
    requires
        n <= u64::MAX,
    ensures
        gives(nanoseconds(name, decimal(n) + "ms"@), n * 1_000_000, u64::MAX as nat),
        gives(nanoseconds(name, decimal(n) + "s"@), n * 1_000_000_000, u64::MAX as nat),
        gives(nanoseconds(name, decimal(n) + "m"@), n * 60 * 1_000_000_000, u64::MAX as nat),
        gives(nanoseconds(name, decimal(n) + "h"@), n * 3600 * 1_000_000_000, u64::MAX as nat),
        gives(nanoseconds(name, decimal(n)), n * 1_000_000_000, u64::MAX as nat),
{
    reveal_strlit("ms");
    reveal_strlit("s");
    reveal_strlit("m");
    reveal_strlit("h");
    let d = decimal(n);
    lemma_ends_in_digit(n);
    decimal_reads_back(n, u64::MAX as nat);
    lemma_unit(d, "ms"@);
    lemma_unit(d, "s"@);
    lemma_unit(d, "m"@);
    lemma_unit(d, "h"@);
    lemma_not_suffix(d + "s"@, "ms"@, 0);
    lemma_not_suffix(d + "m"@, "ms"@, 1);
    lemma_not_suffix(d + "h"@, "ms"@, 1);
    lemma_not_suffix(d, "ms"@, 1);
    assert((d + "s"@).drop_last() == d);
    assert((d + "m"@).drop_last() == d);
    assert((d + "h"@).drop_last() == d);
    assert(n * 60_000_000_000nat == n * 60 * 1_000_000_000) by (nonlinear_arith);
    assert(n * 3_600_000_000_000nat == n * 3600 * 1_000_000_000) by (nonlinear_arith);
}

/// Sizes are read in bytes, and in binary and decimal multiples of them.
pub proof fn sizes_have_their_units(n: nat)
    requires
        n <= usize::MAX,
    ensures
        gives(bytes(decimal(n)), n, usize::MAX as nat),
        gives(bytes(decimal(n) + "KiB"@), n * 1024, usize::MAX as nat),
        gives(bytes(decimal(n) + "MiB"@), n * 1024 * 1024, usize::MAX as nat),
        gives(bytes(decimal(n) + "GiB"@), n * 1024 * 1024 * 1024, usize::MAX as nat),
        gives(bytes(decimal(n) + "kB"@), n * 1000, usize::MAX as nat),
        gives(bytes(decimal(n) + "MB"@), n * 1000 * 1000, usize::MAX as nat),
        gives(bytes(decimal(n) + "GB"@), n * 1000 * 1000 * 1000, usize::MAX as nat),
{
    reveal_strlit("KiB");
    reveal_strlit("MiB");
    reveal_strlit("GiB");
    reveal_strlit("kB");
    reveal_strlit("MB");
    reveal_strlit("GB");
    let d = decimal(n);
    lemma_ends_in_digit(n);
    decimal_reads_back(n, usize::MAX as nat);
    lemma_unit(d, "KiB"@);
    lemma_unit(d, "MiB"@);
    lemma_unit(d, "GiB"@);
    lemma_unit(d, "kB"@);
    lemma_unit(d, "MB"@);
    lemma_unit(d, "GB"@);
    lemma_not_suffix(d, "KiB"@, 2);
    lemma_not_suffix(d, "MiB"@, 2);
    lemma_not_suffix(d, "GiB"@, 2);
    lemma_not_suffix(d, "kB"@, 1);
    lemma_not_suffix(d, "MB"@, 1);
    lemma_not_suffix(d, "GB"@, 1);
    lemma_not_suffix(d + "MiB"@, "KiB"@, 0);
    lemma_not_suffix(d + "GiB"@, "KiB"@, 0);
    lemma_not_suffix(d + "GiB"@, "MiB"@, 0);
    lemma_not_suffix(d + "kB"@, "KiB"@, 1);
    lemma_not_suffix(d + "kB"@, "MiB"@, 1);
    lemma_not_suffix(d + "kB"@, "GiB"@, 1);
    lemma_not_suffix(d + "MB"@, "KiB"@, 1);
    lemma_not_suffix(d + "MB"@, "MiB"@, 1);
    lemma_not_suffix(d + "MB"@, "GiB"@, 1);
    lemma_not_suffix(d + "MB"@, "kB"@, 0);
    lemma_not_suffix(d + "GB"@, "KiB"@, 1);
    lemma_not_suffix(d + "GB"@, "MiB"@, 1);
    lemma_not_suffix(d + "GB"@, "GiB"@, 1);
    lemma_not_suffix(d + "GB"@, "kB"@, 0);
    lemma_not_suffix(d + "GB"@, "MB"@, 0);
    assert(n * 1nat == n) by (nonlinear_arith);
    assert(n * 1_000_000_000nat == n * 1000 * 1000 * 1000) by (nonlinear_arith);
    assert(n * 1_000_000nat == n * 1000 * 1000) by (nonlinear_arith);
    assert(n * 1_048_576nat == n * 1024 * 1024) by (nonlinear_arith);
    assert(n * 1_073_741_824nat == n * 1024 * 1024 * 1024) by (nonlinear_arith);
}

/// Rates are read per second, minute, hour and day; a rate of nothing is refused.
pub proof fn rates_have_their_units(n: nat)
    requires
        n <= u64::MAX,
    ensures
        n > 0 ==> rate_value(decimal(n) + "r/s"@) == Ok::<(u64, RateUnit), Seq<char>>(
            (n as u64, RateUnit::Second),
        ),
        n > 0 ==> rate_value(decimal(n) + "r/m"@) == Ok::<(u64, RateUnit), Seq<char>>(
            (n as u64, RateUnit::Minute),
        ),
        n > 0 ==> rate_value(decimal(n) + "r/h"@) == Ok::<(u64, RateUnit), Seq<char>>(
            (n as u64, RateUnit::Hour),
        ),
        n > 0 ==> rate_value(decimal(n) + "r/d"@) == Ok::<(u64, RateUnit), Seq<char>>(
            (n as u64, RateUnit::Day),
        ),
        n == 0 ==> rate_value(decimal(n) + "r/s"@) is Err && rate_value(decimal(n) + "r/m"@) is Err
            && rate_value(decimal(n) + "r/h"@) is Err && rate_value(decimal(n) + "r/d"@) is Err,
        rate_value(decimal(n)) is Err,
{
    reveal_strlit("r/s");
    reveal_strlit("r/m");
    reveal_strlit("r/h");
    reveal_strlit("r/d");
    let d = decimal(n);
    lemma_ends_in_digit(n);
    decimal_reads_back(n, u64::MAX as nat);
    lemma_unit(d, "r/s"@);
    lemma_unit(d, "r/m"@);
    lemma_unit(d, "r/h"@);
    lemma_unit(d, "r/d"@);
    lemma_not_suffix(d, "r/s"@, 2);
    lemma_not_suffix(d, "r/m"@, 2);
    lemma_not_suffix(d, "r/h"@, 2);
    lemma_not_suffix(d, "r/d"@, 2);
    lemma_not_suffix(d + "r/m"@, "r/s"@, 2);
    lemma_not_suffix(d + "r/h"@, "r/s"@, 2);
    lemma_not_suffix(d + "r/h"@, "r/m"@, 2);
    lemma_not_suffix(d + "r/d"@, "r/s"@, 2);
    lemma_not_suffix(d + "r/d"@, "r/m"@, 2);
    lemma_not_suffix(d + "r/d"@, "r/h"@, 2);
}

/// Ports, counts and redirect codes read back, each within its range and nowhere
/// else.
pub proof fn numbers_read_back(name: Seq<char>, n: nat)
    ensures
        1 <= n <= 65535 ==> port_value(decimal(n)) == Ok::<u16, Seq<char>>(n as u16),
        n == 0 || n > 65535 ==> port_value(decimal(n)) is Err,
        1 <= n <= usize::MAX ==> count_value(seq![name, decimal(n)], name) == Ok::<usize, Seq<char>>(
            n as usize,
        ),
        n == 0 || n > usize::MAX ==> count_value(seq![name, decimal(n)], name) is Err,
        redirect_code(decimal(n)) == (if 300 <= n <= 399 {
            Some(n as u16)
        } else {
            None
        }),
{
    lemma_ends_in_digit(n);
    lemma_decimal(n);
    if n <= 65535 {
        decimal_reads_back(n, 65535);
    }
    if n <= usize::MAX {
        decimal_reads_back(n, usize::MAX as nat);
    }
    assert(decimal(n)[0] != '+');
    reveal_strlit("permanent");
    reveal_strlit("temporary");
    assert("permanent"@.last() == 't');
    assert("temporary"@.last() == 'y');
}

/// Whether a host name can stand before a port as it is.
pub open spec fn plain_host(host: Seq<char>) -> bool {
    &&& host.len() > 0
    &&& host[0] != '['
    &&& !host.contains(':')
}

/// The upstreams of a proxy read back: the scheme says whether TLS is used and
/// which version of HTTP, and the rest is the host and the port.
pub proof fn upstreams_read_back(host: Seq<char>, port: u16)
    requires
        plain_host(host),
        port > 0,
    ensures
        reads_as(host + ":"@ + decimal(port as nat), host, port, false, UpstreamHttpVersion::Auto),
        reads_as(
            "http://"@ + (host + ":"@ + decimal(port as nat)),
            host,
            port,
            false,
            UpstreamHttpVersion::Auto,
        ),
        reads_as(
            "https://"@ + (host + ":"@ + decimal(port as nat)),
            host,
            port,
            true,
            UpstreamHttpVersion::Auto,
        ),
        reads_as(
            "h2://"@ + (host + ":"@ + decimal(port as nat)),
            host,
            port,
            true,
            UpstreamHttpVersion::H2,
        ),
        reads_as(
            "h2c://"@ + (host + ":"@ + decimal(port as nat)),
            host,
            port,
            false,
            UpstreamHttpVersion::H2c,
        ),
        l4_upstream(host + ":"@ + decimal(port as nat)) == Ok::<
            crate::config::ast::L4UpstreamView,
            Seq<char>,
        >(crate::config::ast::L4UpstreamView { host, port }),
{
    reveal_strlit("http://");
    reveal_strlit("https://");
    reveal_strlit("h2://");
    reveal_strlit("h2c://");
    reveal_strlit(":");
    let s = host + ":"@ + decimal(port as nat);
    numbers_read_back(host, port as nat);
    lemma_port_cut(host, port as nat);
    lemma_no_scheme(host, port as nat, "h2://"@, 2);
    lemma_no_scheme(host, port as nat, "h2c://"@, 3);
    lemma_no_scheme(host, port as nat, "https://"@, 5);
    lemma_no_scheme(host, port as nat, "http://"@, 4);
    lemma_schemes(s);
    assert(s[0] != '[');
    assert(s[0] == host[0]);
}

/// The schemes are told apart.
proof fn lemma_schemes(s: Seq<char>)
    ensures
        upstream_scheme("http://"@ + s) == (false, UpstreamHttpVersion::Auto, s),
        upstream_scheme("https://"@ + s) == (true, UpstreamHttpVersion::Auto, s),
        upstream_scheme("h2://"@ + s) == (true, UpstreamHttpVersion::H2, s),
        upstream_scheme("h2c://"@ + s) == (false, UpstreamHttpVersion::H2c, s),
{
    reveal_strlit("http://");
    reveal_strlit("https://");
    reveal_strlit("h2://");
    reveal_strlit("h2c://");
    let a = "http://"@ + s;
    lemma_not_prefix(a, "h2://"@, 1);
    lemma_not_prefix(a, "h2c://"@, 1);
    lemma_not_prefix(a, "https://"@, 4);
    assert("http://"@.is_prefix_of(a) && a.skip(7) == s);
    let b = "https://"@ + s;
    lemma_not_prefix(b, "h2://"@, 1);
    lemma_not_prefix(b, "h2c://"@, 1);
    assert("https://"@.is_prefix_of(b) && b.skip(8) == s);
    let c = "h2://"@ + s;
    assert("h2://"@.is_prefix_of(c) && c.skip(5) == s);
    let d = "h2c://"@ + s;
    lemma_not_prefix(d, "h2://"@, 2);
    assert("h2c://"@.is_prefix_of(d) && d.skip(6) == s);
}

proof fn lemma_not_prefix(s: Seq<char>, p: Seq<char>, j: int)
    requires
        0 <= j < p.len(),
        s.len() >= p.len() ==> s[j] != p[j],
    ensures
        !p.is_prefix_of(s),
{
    if p.is_prefix_of(s) {
        assert(s.take(p.len() as int)[j] == p[j]);
    }
}

/// Addresses to listen on read back: a port alone is on all IPv4 addresses, and an
/// IP literal before it, an IPv6 one in brackets, is the address to bind; a host
/// name is refused.
pub proof fn listen_addresses_read_back(host: Seq<char>, port: u16)
    requires
        port > 0,
        host.len() > 0,
        !host.contains(']'),
    ensures
        binds(":"@ + decimal(port as nat), Some(IpAddr::V4(0)), port),
        plain_host(host) ==> binds(host + ":"@ + decimal(port as nat), ip_literal(host), port),
        binds("["@ + host + ("]:"@ + decimal(port as nat)), ip_literal(host), port),
{
    lemma_port_alone(port);
    if plain_host(host) {
        lemma_plain_endpoint(host, port);
    }
    lemma_bracketed_endpoint(host, port);
}

proof fn lemma_port_alone(port: u16)
    requires
        port > 0,
    ensures
        binds(":"@ + decimal(port as nat), Some(IpAddr::V4(0)), port),
{
    reveal_strlit(":");
    let d = decimal(port as nat);
    numbers_read_back(d, port as nat);
    assert((":"@ + d).skip(1) == d);
}

proof fn lemma_plain_endpoint(host: Seq<char>, port: u16)
    requires
        port > 0,
        plain_host(host),
    ensures
        endpoint(host + ":"@ + decimal(port as nat)) == Ok::<(Seq<char>, u16), Seq<char>>(
            (host, port),
        ),
        (host + ":"@ + decimal(port as nat))[0] != ':',
{
    numbers_read_back(host, port as nat);
    lemma_port_cut(host, port as nat);
    let s = host + ":"@ + decimal(port as nat);
    assert(s[0] == host[0]);
    assert(host.contains(host[0]));
}

proof fn lemma_bracketed_endpoint(host: Seq<char>, port: u16)
    requires
        port > 0,
        !host.contains(']'),
    ensures
        endpoint("["@ + host + ("]:"@ + decimal(port as nat))) == Ok::<(Seq<char>, u16), Seq<char>>(
            (host, port),
        ),
        ("["@ + host + ("]:"@ + decimal(port as nat)))[0] != ':',
{
    reveal_strlit("[");
    reveal_strlit("]:");
    let d = decimal(port as nat);
    numbers_read_back(host, port as nat);
    let b = "["@ + host + ("]:"@ + d);
    let rest = b.skip(1);
    assert(rest == host + ("]:"@ + d));
    lemma_first_index(rest, ']');
    assert(rest[host.len() as int] == ']');
    let i = crate::text::first_index(rest, ']');
    if i < host.len() {
        assert(host[i] == rest[i]);
    }
    assert(rest.take(host.len() as int) == host);
    let tail = rest.skip(host.len() as int + 1);
    assert(tail[0] == ':' && tail.skip(1) == d);
}

/// Whether a text names this address and port to listen on; it is refused where
/// there is no address.
pub open spec fn binds(text: Seq<char>, ip: Option<IpAddr>, port: u16) -> bool {
    match ip {
        Some(ip) => listen_address(text) == Ok::<ListenAddress, Seq<char>>(
            ListenAddress::Socket(SocketAddr::at(ip, port)),
        ),
        None => listen_address(text) is Err,
    }
}

/// Whether the text of an upstream stands for this one.
pub open spec fn reads_as(
    text: Seq<char>,
    host: Seq<char>,
    port: u16,
    tls: bool,
    http_version: UpstreamHttpVersion,
) -> bool {
    upstream(text) == Ok::<UpstreamView, Seq<char>>(
        (UpstreamView { host, port, tls, http_version, resolved: None }),
    )
}

// ---------------------------------------------------------------------------
// Texts
// ---------------------------------------------------------------------------

proof fn lemma_ends_in_digit(n: nat)
    ensures
        decimal(n).len() > 0,
        digit(decimal(n).last()),
        forall|i: int| 0 <= i < decimal(n).len() ==> digit(#[trigger] decimal(n)[i]),
{
    lemma_decimal(n);
}

proof fn lemma_unit(d: Seq<char>, unit: Seq<char>)
    ensures
        unit.is_suffix_of(d + unit),
        (d + unit).take((d + unit).len() - unit.len()) == d,
{
    assert((d + unit).skip(d.len() as int) == unit);
}

/// A text does not end in `p` when a character differs.
proof fn lemma_not_suffix(s: Seq<char>, p: Seq<char>, j: int)
    requires
        0 <= j < p.len(),
        s.len() >= p.len() ==> s[s.len() - p.len() + j] != p[j],
    ensures
        !p.is_suffix_of(s),
{
    if p.is_suffix_of(s) {
        assert(s.subrange(s.len() - p.len(), s.len() as int)[j] == p[j]);
    }
}

/// The port stands behind the last colon.
proof fn lemma_port_cut(host: Seq<char>, n: nat)
    requires
        !host.contains(':'),
    ensures
        crate::text::rcut(host + ":"@ + decimal(n), ':') == Some((host, decimal(n))),
{
    reveal_strlit(":");
    let s = host + ":"@ + decimal(n);
    lemma_decimal(n);
    lemma_last_index(s, ':');
    assert(s[host.len() as int] == ':');
    let i = crate::text::last_index(s, ':');
    if i > host.len() {
        assert(s[i] == decimal(n)[i - host.len() - 1]);
        assert(digit(s[i]));
    }
    assert(s.take(host.len() as int) == host);
    assert(s.skip(host.len() as int + 1) == decimal(n));
}

/// A host and a port do not start with a scheme whose colon stands at `j`.
proof fn lemma_no_scheme(host: Seq<char>, n: nat, scheme: Seq<char>, j: int)
    requires
        plain_host(host),
        0 < j,
        j + 1 < scheme.len(),
        scheme[j] == ':',
        scheme[j + 1] == '/',
    ensures
        !scheme.is_prefix_of(host + ":"@ + decimal(n)),
{
    reveal_strlit(":");
    let s = host + ":"@ + decimal(n);
    lemma_decimal(n);
    if scheme.is_prefix_of(s) {
        assert(s[j] == scheme[j]);
        assert(s[j + 1] == scheme[j + 1]);
        if j < host.len() {
            assert(host[j] == ':');
        } else if j == host.len() {
            assert(s[j + 1] == decimal(n)[0]);
        } else {
            assert(s[j] == decimal(n)[j - host.len() - 1]);
        }
    }
}

// ---------------------------------------------------------------------------
// The environment
// ---------------------------------------------------------------------------

/// Whether the variable numbered `i` is the first one with its name.
pub open spec fn is_first_variable(env: Seq<(Seq<char>, Seq<char>)>, i: int) -> bool {
    &&& 0 <= i < env.len()
    &&& forall|j: int| 0 <= j < i ==> (#[trigger] env[j]).0 != env[i].0
}

/// A reference to a variable of the environment stands for its value, and the text
/// around it stays; one to a variable that is not set is refused.
pub proof fn variables_stand_for_their_values(
    env: Seq<(Seq<char>, Seq<char>)>,
    a: Seq<char>,
    name: Seq<char>,
    b: Seq<char>,
    i: int,
)
    requires
        !a.contains('{'),
        !b.contains('{'),
        !name.contains('}'),
        name.len() > 0,
    ensures
        is_first_variable(env, i) && env[i].0 == name ==> word_expanded(
            env,
            a + "{$"@ + name + ("}"@ + b),
            0,
            Seq::empty(),
        ) == Ok::<Seq<char>, Seq<char>>(a + env[i].1 + b),
        (forall|j: int| 0 <= j < env.len() ==> (#[trigger] env[j]).0 != name) ==> word_expanded(
            env,
            a + "{$"@ + name + ("}"@ + b),
            0,
            Seq::empty(),
        ) is Err,
        word_expanded(env, a, 0, Seq::empty()) == Ok::<Seq<char>, Seq<char>>(a),
{
    reveal_strlit("{$");
    reveal_strlit("}");
    let s = a + "{$"@ + name + ("}"@ + b);
    let k = a.len() as int;
    lemma_reference_at(s, a, 0);
    assert(s.subrange(k, k + 2) == "{$"@);
    assert(find_from(s, "{$"@, 0) == k);
    let tail = s.skip(k + 2);
    lemma_first_index(tail, '}');
    assert(tail[name.len() as int] == '}');
    let e = crate::text::first_index(tail, '}');
    if e < name.len() {
        assert(name[e] == tail[e]);
    }
    assert(s.subrange(k + 2, k + 2 + e) == name);
    lemma_env_value(env, name, i);
    let close = k + 2 + e;
    assert(s.skip(close + 1) == b);
    lemma_no_reference(s, close + 1, b);
    assert(s.subrange(0, k) == a);
    if let Some(v) = env_value(env, name) {
        let done = Seq::<char>::empty() + a + v;
        assert(done == a + v);
        assert(word_expanded(env, s, close + 1, done) == Ok::<Seq<char>, Seq<char>>(done + b));
        assert(word_expanded(env, s, 0, Seq::empty()) == word_expanded(env, s, close + 1, done));
    }
    assert(a.skip(0) == a);
    lemma_no_reference(a, 0, a);
    assert(Seq::<char>::empty() + a.skip(0) == a);
}

proof fn lemma_env_value(env: Seq<(Seq<char>, Seq<char>)>, name: Seq<char>, i: int)
    ensures
        is_first_variable(env, i) && env[i].0 == name ==> env_value(env, name) == Some(env[i].1),
        (forall|j: int| 0 <= j < env.len() ==> (#[trigger] env[j]).0 != name) ==> env_value(
            env,
            name,
        ) is None,
    decreases env.len(),
{
    if env.len() > 0 {
        let rest = env.skip(1);
        lemma_env_value(rest, name, i - 1);
        assert(forall|j: int| 0 <= j < rest.len() ==> rest[j] == #[trigger] env[j + 1]);
        if is_first_variable(env, i) && env[i].0 == name && i > 0 {
            assert(env[0].0 != name);
            assert(is_first_variable(rest, i - 1)) by {
                assert forall|j: int| 0 <= j < i - 1 implies (#[trigger] rest[j]).0 != rest[i - 1].0 by {
                    assert(rest[j] == env[j + 1]);
                }
            }
        }
    }
}

/// The first reference stands behind a text without one.
proof fn lemma_reference_at(s: Seq<char>, a: Seq<char>, i: int)
    requires
        0 <= i <= a.len(),
        !a.contains('{'),
        a.is_prefix_of(s),
        a.len() + 2 <= s.len(),
        s[a.len() as int] == '{',
        s[a.len() as int + 1] == '$',
    ensures
        find_from(s, "{$"@, i) == a.len(),
    decreases a.len() - i,
{
    reveal_strlit("{$");
    let p = "{$"@;
    if i < a.len() {
        assert(s.subrange(i, i + 2)[0] == s[i]);
        assert(s[i] == a[i]);
        assert(a.contains(a[i]));
        lemma_reference_at(s, a, i + 1);
    } else {
        assert(s.subrange(i, i + 2) == p);
    }
}

/// A rest without a brace has no reference.
proof fn lemma_no_reference(s: Seq<char>, i: int, rest: Seq<char>)
    requires
        0 <= i <= s.len(),
        s.skip(i) == rest,
        !rest.contains('{'),
    ensures
        find_from(s, "{$"@, i) == -1,
    decreases s.len() - i,
{
    reveal_strlit("{$");
    if i + 2 <= s.len() {
        assert(s.subrange(i, i + 2)[0] == s[i]);
        assert(s[i] == rest[0]);
        assert(rest.contains(rest[0]));
        assert(s.skip(i + 1) == rest.skip(1));
        assert(!rest.skip(1).contains('{')) by {
            if rest.skip(1).contains('{') {
                let k = choose|k: int| 0 <= k < rest.skip(1).len() && rest.skip(1)[k] == '{';
                assert(rest[k + 1] == '{');
            }
        }
        lemma_no_reference(s, i + 1, rest.skip(1));
    }
}

} // verus!
