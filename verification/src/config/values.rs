//! Values in directives: durations, counts, rates, sizes, ports, host names and
//! addresses.
use crate::config::ast::{
    add_to, L4Upstream, L4UpstreamView, ListenAddress, RateUnit, SiteKey, SiteKeyView, Upstream,
    UpstreamHttpVersion, UpstreamView,
};
use crate::net::{ip_literal, parse_v6, v6_literal, v6_string, v6_text, IpAddr, SocketAddr};
use crate::num::{number, parse_u16, parse_u64, parse_usize};
use crate::text::{
    after, after_char, alphanumeric, before, before_char, cat2, cat3, contains_char, cut,
    ends_with_char, find_at, find_from, is_alphanumeric, is_empty, is_white, lemma_first_index,
    lowered, owned, part, rcut, rsplit_once, same, split_once, starts_with_char, strip_char,
    strip_last_char, strip_prefix, strip_suffix, to_lower, trim_end, trimmed_end, white,
};
use crate::time::Duration;
use vstd::prelude::*;
use vstd::utf8::is_ascii_chars;

verus! {

/// Whether a result is the one that a model describes: the same value, or the
/// same message.
pub open spec fn says<T: DeepView>(r: Result<T, String>, want: Result<T::V, Seq<char>>) -> bool {
    match (r, want) {
        (Ok(v), Ok(w)) => v.deep_view() == w,
        (Err(m), Err(w)) => m@ == w,
        _ => false,
    }
}

// ---------------------------------------------------------------------------
// Durations, counts, rates and sizes
// ---------------------------------------------------------------------------

/// The number and the unit, in nanoseconds, that a duration is made of.
pub open spec fn duration_parts(s: Seq<char>) -> (Seq<char>, nat) {
    if let Some(v) = before(s, "ms"@) {
        (v, 1_000_000)
    } else if let Some(v) = before_char(s, 's') {
        (v, 1_000_000_000)
    } else if let Some(v) = before_char(s, 'm') {
        (v, 60_000_000_000)
    } else if let Some(v) = before_char(s, 'h') {
        (v, 3_600_000_000_000)
    } else {
        (s, 1_000_000_000)
    }
}

/// The duration that the second word of a line gives: `5s`, `2m`, `500ms`, `1h`,
/// or a bare number of seconds.
pub open spec fn duration_value(line: Seq<Seq<char>>) -> Result<Duration, Seq<char>> {
    if line.len() != 2 {
        Err("'"@ + line[0] + "' requires exactly one duration value"@)
    } else {
        let s = line[1];
        let (num, unit) = duration_parts(s);
        match number(num, u64::MAX as nat) {
            None => Err("invalid duration '"@ + s + "'"@),
            Some(n) => if n * unit > u64::MAX {
                Err("duration '"@ + s + "' is too large"@)
            } else {
                Ok(Duration { nanos: (n * unit) as u64 })
            },
        }
    }
}

/// Parse the duration of a `<name> <duration>` line.
pub fn parse_duration(line: &Vec<String>) -> (r: Result<Duration, String>)
    requires
        line@.len() > 0,
    ensures
        says(r, duration_value(line.deep_view())),
{
    if line.len() != 2 {
        return Err(cat3("'", line[0].as_str(), "' requires exactly one duration value"));
    }
    let s = line[1].as_str();
    assert(line.deep_view()[1] == s@);
    let (num, unit): (&str, u64) = if let Some(v) = strip_suffix(s, "ms") {
        (v, 1_000_000)
    } else if let Some(v) = strip_last_char(s, 's') {
        (v, 1_000_000_000)
    } else if let Some(v) = strip_last_char(s, 'm') {
        (v, 60_000_000_000)
    } else if let Some(v) = strip_last_char(s, 'h') {
        (v, 3_600_000_000_000)
    } else {
        (s, 1_000_000_000)
    };
    assert(duration_parts(s@) == (num@, unit as nat));
    match parse_u64(num) {
        None => Err(cat3("invalid duration '", s, "'")),
        Some(n) => match n.checked_mul(unit) {
            None => Err(cat3("duration '", s, "' is too large")),
            Some(nanos) => Ok(Duration::from_nanos(nanos)),
        },
    }
}

/// The counter that the second word of a line gives; zero is refused, since it
/// would disable the threshold that it controls.
pub open spec fn count_value(line: Seq<Seq<char>>, name: Seq<char>) -> Result<usize, Seq<char>> {
    if line.len() != 2 {
        Err("'"@ + name + "' requires exactly one integer value"@)
    } else {
        match number(line[1], usize::MAX as nat) {
            None => Err("invalid "@ + name + " value '"@ + line[1] + "'"@),
            Some(n) => if n == 0 {
                Err(name + " must be >= 1"@)
            } else {
                Ok(n as usize)
            },
        }
    }
}

/// Parse the positive counter of a `<name> <count>` line.
pub fn parse_count(line: &Vec<String>, name: &str) -> (r: Result<usize, String>)
    ensures
        says(r, count_value(line.deep_view(), name@)),
{
    if line.len() != 2 {
        return Err(cat3("'", name, "' requires exactly one integer value"));
    }
    let v = line[1].as_str();
    assert(line.deep_view()[1] == v@);
    match parse_usize(v) {
        None => {
            let head = cat3("invalid ", name, " value '");
            Err(cat3(head.as_str(), v, "'"))
        },
        Some(n) => if n == 0 {
            Err(cat2(name, " must be >= 1"))
        } else {
            Ok(n)
        },
    }
}

/// The number and the unit that a rate is made of.
pub open spec fn rate_parts(s: Seq<char>) -> Option<(Seq<char>, RateUnit)> {
    if let Some(v) = before(s, "r/s"@) {
        Some((v, RateUnit::Second))
    } else if let Some(v) = before(s, "r/m"@) {
        Some((v, RateUnit::Minute))
    } else if let Some(v) = before(s, "r/h"@) {
        Some((v, RateUnit::Hour))
    } else if let Some(v) = before(s, "r/d"@) {
        Some((v, RateUnit::Day))
    } else {
        None
    }
}

/// The rate that a word gives: `50r/s`, `1200r/m`, `3r/h`, `1r/d`.
pub open spec fn rate_value(s: Seq<char>) -> Result<(u64, RateUnit), Seq<char>> {
    match rate_parts(s) {
        None => Err("invalid rate '"@ + s + "' (expected <count>r/<s|m|h|d>)"@),
        Some((num, unit)) => match number(num, u64::MAX as nat) {
            None => Err("invalid rate '"@ + s + "'"@),
            Some(n) => if n < 1 {
                Err("rate count must be >= 1: '"@ + s + "'"@)
            } else {
                Ok((n as u64, unit))
            },
        },
    }
}

/// Parse a rate token into a count and a time unit.
pub fn parse_rate(s: &str) -> (r: Result<(u64, RateUnit), String>)
    ensures
        says(r, rate_value(s@)),
{
    let (num, unit): (&str, RateUnit) = if let Some(v) = strip_suffix(s, "r/s") {
        (v, RateUnit::Second)
    } else if let Some(v) = strip_suffix(s, "r/m") {
        (v, RateUnit::Minute)
    } else if let Some(v) = strip_suffix(s, "r/h") {
        (v, RateUnit::Hour)
    } else if let Some(v) = strip_suffix(s, "r/d") {
        (v, RateUnit::Day)
    } else {
        return Err(cat3("invalid rate '", s, "' (expected <count>r/<s|m|h|d>)"));
    };
    assert(rate_parts(s@) == Some((num@, unit)));
    match parse_u64(num) {
        None => Err(cat3("invalid rate '", s, "'")),
        Some(n) => if n < 1 {
            Err(cat3("rate count must be >= 1: '", s, "'"))
        } else {
            Ok((n, unit))
        },
    }
}

/// The number and the unit that a byte size is made of.
pub open spec fn size_parts(s: Seq<char>) -> (Seq<char>, nat) {
    if let Some(v) = before(s, "KiB"@) {
        (v, 1024)
    } else if let Some(v) = before(s, "MiB"@) {
        (v, 1_048_576)
    } else if let Some(v) = before(s, "GiB"@) {
        (v, 1_073_741_824)
    } else if let Some(v) = before(s, "kB"@) {
        (v, 1000)
    } else if let Some(v) = before(s, "MB"@) {
        (v, 1_000_000)
    } else if let Some(v) = before(s, "GB"@) {
        (v, 1_000_000_000)
    } else {
        (s, 1)
    }
}

/// The byte size that a word gives: a bare number, or one with a binary or a
/// decimal unit.
pub open spec fn size_value(s: Seq<char>) -> Result<usize, Seq<char>> {
    let (num, unit) = size_parts(s);
    match number(num, usize::MAX as nat) {
        None => Err("invalid byte size '"@ + s + "'"@),
        Some(n) => if n * unit > usize::MAX {
            Err("byte size '"@ + s + "' is too large"@)
        } else {
            Ok((n * unit) as usize)
        },
    }
}

/// Parse a byte size. `0` is valid.
pub fn parse_bytes(s: &str) -> (r: Result<usize, String>)
    ensures
        says(r, size_value(s@)),
{
    let (num, unit): (&str, usize) = if let Some(v) = strip_suffix(s, "KiB") {
        (v, 1024)
    } else if let Some(v) = strip_suffix(s, "MiB") {
        (v, 1_048_576)
    } else if let Some(v) = strip_suffix(s, "GiB") {
        (v, 1_073_741_824)
    } else if let Some(v) = strip_suffix(s, "kB") {
        (v, 1000)
    } else if let Some(v) = strip_suffix(s, "MB") {
        (v, 1_000_000)
    } else if let Some(v) = strip_suffix(s, "GB") {
        (v, 1_000_000_000)
    } else {
        (s, 1)
    };
    assert(size_parts(s@) == (num@, unit as nat));
    match parse_usize(num) {
        None => Err(cat3("invalid byte size '", s, "'")),
        Some(n) => match n.checked_mul(unit) {
            None => Err(cat3("byte size '", s, "' is too large")),
            Some(total) => Ok(total),
        },
    }
}

/// The redirect status that a word gives: a 3xx number, `permanent` or
/// `temporary`.
pub open spec fn redirect_code(s: Seq<char>) -> Option<u16> {
    if s == "permanent"@ {
        Some(308)
    } else if s == "temporary"@ {
        Some(302)
    } else {
        match number(s, 0xffff) {
            Some(n) => if 300 <= n <= 399 {
                Some(n as u16)
            } else {
                None
            },
            None => None,
        }
    }
}

/// Parse a `redir` status code.
pub fn parse_redirect_code(s: &str) -> (r: Option<u16>)
    ensures
        r == redirect_code(s@),
{
    if same(s, "permanent") {
        Some(308)
    } else if same(s, "temporary") {
        Some(302)
    } else {
        match parse_u16(s) {
            Some(n) => if 300 <= n && n <= 399 {
                Some(n)
            } else {
                None
            },
            None => None,
        }
    }
}

// ---------------------------------------------------------------------------
// Ports and endpoints
// ---------------------------------------------------------------------------

/// The port that a word gives, 1 to 65535.
pub open spec fn port_value(s: Seq<char>) -> Result<u16, Seq<char>> {
    match number(s, 0xffff) {
        None => Err("invalid port '"@ + s + "'"@),
        Some(n) => if n == 0 {
            Err("port must be in 1..=65535"@)
        } else {
            Ok(n as u16)
        },
    }
}

/// Parse a port number.
pub fn parse_port_str(s: &str) -> (r: Result<u16, String>)
    ensures
        says(r, port_value(s@)),
{
    match parse_u16(s) {
        None => Err(cat3("invalid port '", s, "'")),
        Some(n) => if n == 0 {
            Err(owned("port must be in 1..=65535"))
        } else {
            Ok(n)
        },
    }
}

/// The host and the port of an endpoint. An IPv6 host stands in brackets.
pub open spec fn endpoint(s: Seq<char>) -> Result<(Seq<char>, u16), Seq<char>> {
    if let Some(rest) = after_char(s, '[') {
        match cut(rest, ']') {
            None => Err("unclosed '[' in address '"@ + s + "'"@),
            Some((host, tail)) => match after_char(tail, ':') {
                None => Err("address '"@ + s + "' is missing a port after ']'"@),
                Some(p) => match port_value(p) {
                    Err(m) => Err(m),
                    Ok(port) => Ok((host, port)),
                },
            },
        }
    } else {
        match rcut(s, ':') {
            None => Err("address '"@ + s + "' must be host:port"@),
            Some((host, p)) => if host.len() == 0 {
                Err("address '"@ + s + "' has an empty host"@)
            } else if host.contains(':') {
                Err("IPv6 addresses must be bracketed: ["@ + host + "]:port"@)
            } else {
                match port_value(p) {
                    Err(m) => Err(m),
                    Ok(port) => Ok((host, port)),
                }
            },
        }
    }
}

/// Split an endpoint into `(host, port)`.
pub fn split_host_port<'a>(s: &'a str) -> (r: Result<(&'a str, u16), String>)
    ensures
        match r {
            Ok((host, port)) => endpoint(s@) == Ok::<(Seq<char>, u16), Seq<char>>((host@, port)),
            Err(m) => endpoint(s@) == Err::<(Seq<char>, u16), Seq<char>>(m@),
        },
{
    if let Some(rest) = strip_char(s, '[') {
        return match split_once(rest, ']') {
            None => Err(cat3("unclosed '[' in address '", s, "'")),
            Some((host, tail)) => match strip_char(tail, ':') {
                None => Err(cat3("address '", s, "' is missing a port after ']'")),
                Some(p) => match parse_port_str(p) {
                    Err(m) => Err(m),
                    Ok(port) => Ok((host, port)),
                },
            },
        };
    }
    match rsplit_once(s, ':') {
        None => Err(cat3("address '", s, "' must be host:port")),
        Some((host, p)) => if is_empty(host) {
            Err(cat3("address '", s, "' has an empty host"))
        } else if contains_char(host, ':') {
            Err(cat3("IPv6 addresses must be bracketed: [", host, "]:port"))
        } else {
            match parse_port_str(p) {
                Err(m) => Err(m),
                Ok(port) => Ok((host, port)),
            }
        },
    }
}

/// The address that a layer-4 listener binds: `:PORT`, `IP:PORT` or `[IPv6]:PORT`.
pub open spec fn listen_address(s: Seq<char>) -> Result<ListenAddress, Seq<char>> {
    if let Some(p) = after_char(s, ':') {
        match port_value(p) {
            Err(m) => Err(m),
            Ok(port) => Ok(ListenAddress::Socket(SocketAddr::at(IpAddr::V4(0), port))),
        }
    } else {
        match endpoint(s) {
            Err(m) => Err(m),
            Ok((host, port)) => match ip_literal(host) {
                None => Err(
                    "listen address '"@ + s
                        + "' must be an IP literal (e.g. :3306, 127.0.0.1:3306, [::1]:3306)"@,
                ),
                Some(ip) => Ok(ListenAddress::Socket(SocketAddr::at(ip, port))),
            },
        }
    }
}

/// Parse a layer-4 listen address. Listeners bind an IP literal, not a host name.
pub fn parse_listen_address(s: &str) -> (r: Result<ListenAddress, String>)
    ensures
        says(r, listen_address(s@)),
{
    if let Some(p) = strip_char(s, ':') {
        return match parse_port_str(p) {
            Err(m) => Err(m),
            Ok(port) => Ok(ListenAddress::Socket(SocketAddr::new(IpAddr::V4(0), port))),
        };
    }
    match split_host_port(s) {
        Err(m) => Err(m),
        Ok((host, port)) => match IpAddr::parse(host) {
            None => Err(
                cat3(
                    "listen address '",
                    s,
                    "' must be an IP literal (e.g. :3306, 127.0.0.1:3306, [::1]:3306)",
                ),
            ),
            Some(ip) => Ok(ListenAddress::Socket(SocketAddr::new(ip, port))),
        },
    }
}

/// The upstream that a layer-4 block names.
pub open spec fn l4_upstream(s: Seq<char>) -> Result<L4UpstreamView, Seq<char>> {
    match endpoint(s) {
        Err(m) => Err(m),
        Ok((host, port)) => if host.len() == 0 {
            Err("upstream '"@ + s + "' must be host:port"@)
        } else {
            Ok(L4UpstreamView { host, port })
        },
    }
}

/// Parse a layer-4 upstream: `[v6]:port`, `ip:port` or `hostname:port`.
pub fn parse_l4_upstream(s: &str) -> (r: Result<L4Upstream, String>)
    ensures
        says(r, l4_upstream(s@)),
{
    match split_host_port(s) {
        Err(m) => Err(m),
        Ok((host, port)) => if is_empty(host) {
            Err(cat3("upstream '", s, "' must be host:port"))
        } else {
            Ok(L4Upstream { host: owned(host), port })
        },
    }
}

/// What the scheme of an upstream chooses: TLS or not, the HTTP version, and the
/// rest of the target.
pub open spec fn upstream_scheme(s: Seq<char>) -> (bool, UpstreamHttpVersion, Seq<char>) {
    if let Some(r) = after(s, "h2://"@) {
        (true, UpstreamHttpVersion::H2, r)
    } else if let Some(r) = after(s, "h2c://"@) {
        (false, UpstreamHttpVersion::H2c, r)
    } else if let Some(r) = after(s, "https://"@) {
        (true, UpstreamHttpVersion::Auto, r)
    } else if let Some(r) = after(s, "http://"@) {
        (false, UpstreamHttpVersion::Auto, r)
    } else {
        (false, UpstreamHttpVersion::Auto, s)
    }
}

/// The host and the port text of an upstream target without its scheme; `whole`
/// is the target as written.
pub open spec fn upstream_endpoint(whole: Seq<char>, s: Seq<char>) -> Result<
    (Seq<char>, Seq<char>),
    Seq<char>,
> {
    if let Some(rest) = after_char(s, '[') {
        let i = find_from(rest, "]:"@, 0);
        if i < 0 {
            Err("upstream '"@ + whole + "' must be [host]:port"@)
        } else {
            let host = rest.take(i);
            if host.len() == 0 || host.contains('[') || host.contains(']') {
                Err("upstream '"@ + whole + "' has an invalid IPv6 host"@)
            } else {
                Ok((host, rest.skip(i + 2)))
            }
        }
    } else {
        match rcut(s, ':') {
            None => Err("upstream '"@ + whole + "' must be host:port"@),
            Some((host, p)) => Ok((host, p)),
        }
    }
}

/// The upstream that a `reverse_proxy` target names.
pub open spec fn upstream(s: Seq<char>) -> Result<UpstreamView, Seq<char>> {
    let (tls, http_version, rest) = upstream_scheme(s);
    match upstream_endpoint(s, rest) {
        Err(m) => Err(m),
        Ok((host, p)) => if host.len() == 0 {
            Err("empty host in upstream address"@)
        } else {
            match port_value(p) {
                Err(m) => Err(m),
                Ok(port) => Ok(UpstreamView { host, port, tls, http_version, resolved: None }),
            }
        },
    }
}

fn split_upstream<'a>(whole: &str, s: &'a str) -> (r: Result<(&'a str, &'a str), String>)
    ensures
        match r {
            Ok((host, p)) => upstream_endpoint(whole@, s@) == Ok::<
                (Seq<char>, Seq<char>),
                Seq<char>,
            >((host@, p@)),
            Err(m) => upstream_endpoint(whole@, s@) == Err::<(Seq<char>, Seq<char>), Seq<char>>(m@),
        },
{
    if let Some(rest) = strip_char(s, '[') {
        let n: usize = rest.unicode_len();
        proof {
            reveal_strlit("]:");
        }
        match find_at(rest, "]:", 0) {
            None => Err(cat3("upstream '", whole, "' must be [host]:port")),
            Some(i) => {
                let host = part(rest, 0, i);
                let p = part(rest, i + 2, n);
                assert(host@ == rest@.take(i as int));
                assert(p@ == rest@.skip(i + 2));
                if is_empty(host) || contains_char(host, '[') || contains_char(host, ']') {
                    Err(cat3("upstream '", whole, "' has an invalid IPv6 host"))
                } else {
                    Ok((host, p))
                }
            },
        }
    } else {
        match rsplit_once(s, ':') {
            None => Err(cat3("upstream '", whole, "' must be host:port")),
            Some((host, p)) => Ok((host, p)),
        }
    }
}

/// Parse a `reverse_proxy` target. The scheme chooses both transport security
/// and HTTP version; a bare target is plain HTTP.
pub fn parse_upstream(s: &str) -> (r: Result<Upstream, String>)
    ensures
        says(r, upstream(s@)),
{
    let (tls, http_version, rest): (bool, UpstreamHttpVersion, &str) = if let Some(r) =
        strip_prefix(s, "h2://") {
        (true, UpstreamHttpVersion::H2, r)
    } else if let Some(r) = strip_prefix(s, "h2c://") {
        (false, UpstreamHttpVersion::H2c, r)
    } else if let Some(r) = strip_prefix(s, "https://") {
        (true, UpstreamHttpVersion::Auto, r)
    } else if let Some(r) = strip_prefix(s, "http://") {
        (false, UpstreamHttpVersion::Auto, r)
    } else {
        (false, UpstreamHttpVersion::Auto, s)
    };
    assert(upstream_scheme(s@) == (tls, http_version, rest@));
    match split_upstream(s, rest) {
        Err(m) => Err(m),
        Ok((host, p)) => if is_empty(host) {
            Err(owned("empty host in upstream address"))
        } else {
            match parse_port_str(p) {
                Err(m) => Err(m),
                Ok(port) => Ok(
                    Upstream { host: owned(host), port, tls, http_version, resolved: None },
                ),
            }
        },
    }
}

// ---------------------------------------------------------------------------
// Host names
// ---------------------------------------------------------------------------

/// What is wrong with one label of a host name, if anything.
pub open spec fn label_fault(label: Seq<char>) -> Option<Seq<char>> {
    if label.len() == 0 {
        Some("site hostname contains an empty label"@)
    } else if label.len() > 63 {
        Some("site hostname label is too long (max 63 chars)"@)
    } else if exists|i: int|
        0 <= i < label.len() && !(alphanumeric(#[trigger] label[i]) || label[i] == '-') {
        Some("site hostname contains an invalid character"@)
    } else if label[0] == '-' || label.last() == '-' {
        Some("site hostname label must not start or end with '-'"@)
    } else {
        None
    }
}

/// What is wrong with the first bad label of a host name, if any.
pub open spec fn labels_fault(host: Seq<char>) -> Option<Seq<char>>
    decreases host.len(),
    via labels_fault_shrinks
{
    match cut(host, '.') {
        None => label_fault(host),
        Some((label, rest)) => match label_fault(label) {
            Some(m) => Some(m),
            None => labels_fault(rest),
        },
    }
}

#[via_fn]
proof fn labels_fault_shrinks(host: Seq<char>) {
    lemma_first_index(host, '.');
}

/// The host name in its normal form: an ASCII name in lower case without the
/// final dot, made of labels of letters, digits and inner hyphens, at most 63
/// characters each and 253 in all. One leading `*.` is allowed.
pub open spec fn host_name(host: Seq<char>) -> Result<Seq<char>, Seq<char>> {
    let h = match before_char(host, '.') {
        Some(h) => h,
        None => host,
    };
    if exists|i: int| 0 <= i < host.len() && white(#[trigger] host[i]) {
        Err("site hostname must not contain whitespace"@)
    } else if !is_ascii_chars(host) {
        Err("site hostname must be ASCII"@)
    } else if h.len() == 0 {
        Err("site hostname must not be empty"@)
    } else if h.len() > 253 {
        Err("site hostname is too long (max 253 chars)"@)
    } else {
        match after(h, "*."@) {
            Some(suffix) => if suffix.len() == 0 {
                Err("wildcard site hostname must include a suffix"@)
            } else {
                match plain_host_name(suffix) {
                    Ok(n) => Ok("*."@ + n),
                    Err(m) => Err(m),
                }
            },
            None => plain_host_name(h),
        }
    }
}

/// The normal form of a host name without its wildcard.
pub open spec fn plain_host_name(host: Seq<char>) -> Result<Seq<char>, Seq<char>> {
    if host.contains('*') {
        Err("wildcard is only allowed as the leading '*.' label"@)
    } else {
        match labels_fault(host) {
            Some(m) => Err(m),
            None => Ok(lowered(host)),
        }
    }
}

fn has_white(s: &str) -> (r: bool)
    ensures
        r == exists|i: int| 0 <= i < s@.len() && white(#[trigger] s@[i]),
{
    let chars = crate::text::chars_of(s);
    let mut i: usize = 0;
    while i < chars.len()
        invariant
            chars@ == s@,
            i <= chars@.len(),
            forall|j: int| 0 <= j < i ==> !white(#[trigger] s@[j]),
        decreases chars@.len() - i,
    {
        if is_white(chars[i]) {
            assert(white(s@[i as int]));
            return true;
        }
        i += 1;
    }
    false
}

fn has_odd_char(s: &str) -> (r: bool)
    ensures
        r == exists|i: int|
            0 <= i < s@.len() && !(alphanumeric(#[trigger] s@[i]) || s@[i] == '-'),
{
    let chars = crate::text::chars_of(s);
    let mut i: usize = 0;
    while i < chars.len()
        invariant
            chars@ == s@,
            i <= chars@.len(),
            forall|j: int| 0 <= j < i ==> alphanumeric(#[trigger] s@[j]) || s@[j] == '-',
        decreases chars@.len() - i,
    {
        if !(is_alphanumeric(chars[i]) || chars[i] == '-') {
            assert(!(alphanumeric(s@[i as int]) || s@[i as int] == '-'));
            return true;
        }
        i += 1;
    }
    false
}

fn check_label(label: &str) -> (r: Result<(), String>)
    ensures
        match r {
            Ok(_) => label_fault(label@) is None,
            Err(m) => label_fault(label@) == Some(m@),
        },
{
    if is_empty(label) {
        Err(owned("site hostname contains an empty label"))
    } else if label.unicode_len() > 63 {
        Err(owned("site hostname label is too long (max 63 chars)"))
    } else if has_odd_char(label) {
        Err(owned("site hostname contains an invalid character"))
    } else if starts_with_char(label, '-') || ends_with_char(label, '-') {
        Err(owned("site hostname label must not start or end with '-'"))
    } else {
        Ok(())
    }
}

fn check_labels(host: &str) -> (r: Result<(), String>)
    ensures
        match r {
            Ok(_) => labels_fault(host@) is None,
            Err(m) => labels_fault(host@) == Some(m@),
        },
    decreases host@.len(),
{
    proof {
        lemma_first_index(host@, '.');
    }
    match split_once(host, '.') {
        None => check_label(host),
        Some((label, rest)) => match check_label(label) {
            Err(m) => Err(m),
            Ok(_) => check_labels(rest),
        },
    }
}

fn normalize_plain(host: &str) -> (r: Result<String, String>)
    ensures
        says(r, plain_host_name(host@)),
{
    if contains_char(host, '*') {
        return Err(owned("wildcard is only allowed as the leading '*.' label"));
    }
    match check_labels(host) {
        Err(m) => Err(m),
        Ok(_) => Ok(to_lower(host)),
    }
}

/// Normalize and validate a site host name. One trailing dot is stripped;
/// single-label hosts such as `localhost` are allowed.
pub fn normalize_host_name(host: &str) -> (r: Result<String, String>)
    ensures
        says(r, host_name(host@)),
{
    if has_white(host) {
        return Err(owned("site hostname must not contain whitespace"));
    }
    if !host.is_ascii() {
        return Err(owned("site hostname must be ASCII"));
    }
    let h = match strip_last_char(host, '.') {
        Some(h) => h,
        None => host,
    };
    if is_empty(h) {
        return Err(owned("site hostname must not be empty"));
    }
    if h.unicode_len() > 253 {
        return Err(owned("site hostname is too long (max 253 chars)"));
    }
    match strip_prefix(h, "*.") {
        Some(suffix) => if is_empty(suffix) {
            Err(owned("wildcard site hostname must include a suffix"))
        } else {
            match normalize_plain(suffix) {
                Ok(n) => Ok(cat2("*.", n.as_str())),
                Err(m) => Err(m),
            }
        },
        None => normalize_plain(h),
    }
}

/// The prefix that a path matcher stands for: without its trailing `*`s and then
/// without its trailing `/`s, and `/` when nothing is left.
pub open spec fn matcher_prefix(path: Seq<char>) -> Seq<char> {
    let p = trimmed_end(trimmed_end(path, '*'), '/');
    if p.len() == 0 {
        "/"@
    } else {
        p
    }
}

/// Normalize a path matcher to its prefix, so `/static/*` and `/static/` both
/// match `/static/...`.
pub fn strip_matcher_wildcard(path: &str) -> (r: &str)
    ensures
        r@ == matcher_prefix(path@),
{
    let p = trim_end(trim_end(path, '*'), '/');
    if is_empty(p) {
        "/"
    } else {
        p
    }
}

// ---------------------------------------------------------------------------
// Site addresses
// ---------------------------------------------------------------------------

/// The port of a named site that gives none.
pub const NAMED_SITE_DEFAULT_PORT: u16 = 443;

/// The host text and the port of a bracketed site address.
pub open spec fn bracketed_site(addr: Seq<char>) -> Result<(Seq<char>, u16), Seq<char>> {
    if addr.last() == ']' {
        Ok((addr.subrange(1, addr.len() - 1), NAMED_SITE_DEFAULT_PORT))
    } else {
        endpoint(addr)
    }
}

/// The site that an address names: `:port`, `[IPv6]`, `[IPv6]:port`, `host` or
/// `host:port`.
pub open spec fn site_key(addr: Seq<char>) -> Result<SiteKeyView, Seq<char>> {
    if let Some(p) = after_char(addr, ':') {
        match port_value(p) {
            Err(m) => Err(m),
            Ok(port) => Ok(SiteKeyView::CatchAll { port }),
        }
    } else if addr.len() > 0 && addr[0] == '[' {
        match bracketed_site(addr) {
            Err(m) => Err(m),
            Ok((host, port)) => match v6_literal(host) {
                None => Err("HTTP IPv6 site addresses must contain a valid IPv6 literal"@),
                Some(ip) => Ok(
                    SiteKeyView::Named { host: "["@ + v6_text(ip as u128) + "]"@, port },
                ),
            },
        }
    } else {
        match rcut(addr, ':') {
            Some((host, p)) => if host.len() == 0 {
                Err("empty host in site address"@)
            } else {
                match port_value(p) {
                    Err(m) => Err(m),
                    Ok(port) => match host_name(host) {
                        Err(m) => Err(m),
                        Ok(name) => Ok(SiteKeyView::Named { host: name, port }),
                    },
                }
            },
            None => match host_name(addr) {
                Err(m) => Err(m),
                Ok(name) => Ok(
                    SiteKeyView::Named { host: name, port: NAMED_SITE_DEFAULT_PORT },
                ),
            },
        }
    }
}

fn split_bracketed_site<'a>(addr: &'a str) -> (r: Result<(&'a str, u16), String>)
    requires
        addr@.len() > 0,
        addr@[0] == '[',
    ensures
        match r {
            Ok((host, port)) => bracketed_site(addr@) == Ok::<(Seq<char>, u16), Seq<char>>(
                (host@, port),
            ),
            Err(m) => bracketed_site(addr@) == Err::<(Seq<char>, u16), Seq<char>>(m@),
        },
{
    let n: usize = addr.unicode_len();
    if ends_with_char(addr, ']') {
        Ok((part(addr, 1, n - 1), NAMED_SITE_DEFAULT_PORT))
    } else {
        split_host_port(addr)
    }
}

/// Parse one site address.
pub fn parse_site_key(addr: &str) -> (r: Result<SiteKey, String>)
    ensures
        says(r, site_key(addr@)),
{
    if let Some(p) = strip_char(addr, ':') {
        return match parse_port_str(p) {
            Err(m) => Err(m),
            Ok(port) => Ok(SiteKey::CatchAll { port }),
        };
    }
    if starts_with_char(addr, '[') {
        return match split_bracketed_site(addr) {
            Err(m) => Err(m),
            Ok((host, port)) => match parse_v6(host) {
                None => Err(
                    owned("HTTP IPv6 site addresses must contain a valid IPv6 literal"),
                ),
                Some(ip) => {
                    let text = v6_string(ip);
                    Ok(SiteKey::Named { host: cat3("[", text.as_str(), "]"), port })
                },
            },
        };
    }
    match rsplit_once(addr, ':') {
        Some((host, p)) => if is_empty(host) {
            Err(owned("empty host in site address"))
        } else {
            match parse_port_str(p) {
                Err(m) => Err(m),
                Ok(port) => match normalize_host_name(host) {
                    Err(m) => Err(m),
                    Ok(name) => Ok(SiteKey::Named { host: name, port }),
                },
            }
        },
        None => match normalize_host_name(addr) {
            Err(m) => Err(m),
            Ok(name) => Ok(SiteKey::Named { host: name, port: NAMED_SITE_DEFAULT_PORT }),
        },
    }
}

/// The addresses in one word of a site's address list, after `done`; `need` says
/// whether an address may come next.
pub open spec fn addresses_in(s: Seq<char>, need: bool, done: Seq<Seq<char>>) -> Result<
    (bool, Seq<Seq<char>>),
    Seq<char>,
>
    decreases s.len(),
    via addresses_in_shrinks
{
    if s.len() == 0 {
        Ok((need, done))
    } else if !need {
        Err("multiple site addresses must be separated by commas"@)
    } else {
        match cut(s, ',') {
            Some((address, rest)) => if address.len() == 0 {
                Err("empty site address in comma-separated list"@)
            } else {
                addresses_in(rest, true, done.push(address))
            },
            None => Ok((false, done.push(s))),
        }
    }
}

#[via_fn]
proof fn addresses_in_shrinks(s: Seq<char>, need: bool, done: Seq<Seq<char>>) {
    lemma_first_index(s, ',');
}

/// The addresses in `words` from index `i` on, after `done`.
pub open spec fn addresses_from(
    words: Seq<Seq<char>>,
    i: int,
    need: bool,
    done: Seq<Seq<char>>,
) -> Result<Seq<Seq<char>>, Seq<char>>
    decreases words.len() - i,
{
    if i < 0 || i >= words.len() {
        if need {
            Err("site address list must not end with a comma"@)
        } else {
            Ok(done)
        }
    } else if words[i] == ","@ {
        if need {
            Err("empty site address in comma-separated list"@)
        } else {
            addresses_from(words, i + 1, true, done)
        }
    } else {
        match addresses_in(words[i], need, done) {
            Err(m) => Err(m),
            Ok((n, d)) => addresses_from(words, i + 1, n, d),
        }
    }
}

/// The sites that `addresses` name from index `i` on, after `done`.
pub open spec fn site_keys_from(
    addresses: Seq<Seq<char>>,
    i: int,
    done: Seq<SiteKeyView>,
) -> Result<Seq<SiteKeyView>, Seq<char>>
    decreases addresses.len() - i,
{
    if i < 0 || i >= addresses.len() {
        Ok(done)
    } else {
        match site_key(addresses[i]) {
            Err(m) => Err(m),
            Ok(k) => site_keys_from(addresses, i + 1, done.push(k)),
        }
    }
}

/// The sites that a comma-separated address list names.
pub open spec fn site_keys(words: Seq<Seq<char>>) -> Result<Seq<SiteKeyView>, Seq<char>> {
    if words.len() == 0 {
        Err("expected a site address such as ':8080' or 'example.com'"@)
    } else {
        match addresses_from(words, 0, true, Seq::empty()) {
            Err(m) => Err(m),
            Ok(addresses) => site_keys_from(addresses, 0, Seq::empty()),
        }
    }
}

fn split_addresses(word: &str, need: bool, done: &mut Vec<String>) -> (r: Result<bool, String>)
    ensures
        match r {
            Ok(n) => addresses_in(word@, need, old(done).deep_view()) == Ok::<
                (bool, Seq<Seq<char>>),
                Seq<char>,
            >((n, final(done).deep_view())),
            Err(m) => addresses_in(word@, need, old(done).deep_view()) == Err::<
                (bool, Seq<Seq<char>>),
                Seq<char>,
            >(m@),
        },
    decreases word@.len(),
{
    proof {
        lemma_first_index(word@, ',');
    }
    if is_empty(word) {
        return Ok(need);
    }
    if !need {
        return Err(owned("multiple site addresses must be separated by commas"));
    }
    match split_once(word, ',') {
        Some((address, rest)) => if is_empty(address) {
            Err(owned("empty site address in comma-separated list"))
        } else {
            add_to(done, owned(address));
            split_addresses(rest, true, done)
        },
        None => {
            add_to(done, owned(word));
            Ok(false)
        },
    }
}

/// Parse one or more comma-separated site addresses. Commas may be attached to
/// an address or stand alone, but neighbouring addresses without a comma are
/// rejected.
pub fn parse_site_keys(words: &Vec<String>) -> (r: Result<Vec<SiteKey>, String>)
    ensures
        says(r, site_keys(words.deep_view())),
{
    if words.len() == 0 {
        return Err(owned("expected a site address such as ':8080' or 'example.com'"));
    }
    let ghost all = words.deep_view();
    let mut addresses: Vec<String> = Vec::new();
    let mut need = true;
    let mut i: usize = 0;
    assert(addresses.deep_view() == Seq::<Seq<char>>::empty());
    while i < words.len()
        invariant
            i <= words@.len(),
            all == words.deep_view(),
            all.len() > 0,
            addresses_from(all, 0, true, Seq::empty()) == addresses_from(
                all,
                i as int,
                need,
                addresses.deep_view(),
            ),
        decreases words@.len() - i,
    {
        assert(all[i as int] == words@[i as int]@);
        if same(words[i].as_str(), ",") {
            if need {
                return Err(owned("empty site address in comma-separated list"));
            }
            need = true;
        } else {
            match split_addresses(words[i].as_str(), need, &mut addresses) {
                Ok(n) => {
                    need = n;
                },
                Err(m) => {
                    return Err(m);
                },
            }
        }
        i += 1;
    }
    if need {
        return Err(owned("site address list must not end with a comma"));
    }
    let mut keys: Vec<SiteKey> = Vec::new();
    let mut k: usize = 0;
    assert(keys.deep_view() == Seq::<SiteKeyView>::empty());
    while k < addresses.len()
        invariant
            k <= addresses@.len(),
            all == words.deep_view(),
            site_keys(all) == site_keys_from(addresses.deep_view(), k as int, keys.deep_view()),
        decreases addresses@.len() - k,
    {
        assert(addresses.deep_view()[k as int] == addresses@[k as int]@);
        match parse_site_key(addresses[k].as_str()) {
            Err(m) => {
                return Err(m);
            },
            Ok(key) => {
                add_to(&mut keys, key);
            },
        }
        k += 1;
    }
    Ok(keys)
}

} // verus!
